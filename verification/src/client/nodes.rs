//! The nodes of the cluster, mirrored by name.
use vstd::prelude::*;
use crate::client::error::ClientError;
use crate::client::json::{first_ready, PodCondition, PodStatus};
use k8s_openapi::api;
use k8s_openapi::apimachinery::pkg::apis::meta::v1::WatchEvent;
use k8s_openapi::List;

verus! {

/// The mirrored nodes: names and readiness side by side, and the cursor.
#[derive(Debug, PartialEq, Eq)]
pub struct Nodes {
    pub names: Vec<String>,
    pub statuses: Vec<bool>,
    pub version: String,
}

/// A node as the API sent it, as far as it is read: the name of its
/// `metadata`, and the conditions of its `status`, which have the shape of
/// a pod's.
#[derive(Debug, PartialEq, Eq)]
pub struct JsonNode {
    pub name: Option<String>,
    pub status: Option<PodStatus>,
}

/// A full listing of nodes.
#[derive(Debug, PartialEq, Eq)]
pub struct NodeList {
    pub resource_version: Option<String>,
    pub items: Vec<JsonNode>,
}

/// One frame of a watch on nodes.
#[derive(Debug, PartialEq, Eq)]
pub enum NodeFrame {
    Added(JsonNode),
    Modified(JsonNode),
    Deleted(JsonNode),
    Other,
}

/// A change of a node: its name and its readiness.
#[derive(Debug, PartialEq, Eq)]
pub enum NodeEvent {
    Modified(String, bool),
    Created(String, bool),
    Deleted(String, bool),
    /// A frame that says nothing of a node.
    __,
}

/// The readiness of a node, or the reason for which it cannot be read.
pub open spec fn node_status(status: Option<PodStatus>) -> Result<bool, &'static str> {
    match status {
        None => Err("no status in node"),
        Some(status) => match status.conditions {
            None => Err("no conditions in node's status"),
            Some(conditions) => match first_ready(conditions@) {
                None => Err("no ready condition in nodes' status' conditions"),
                Some(ready) => Ok(ready),
            },
        },
    }
}

/// Reads the readiness of a node: that of its first condition of type
/// `Ready`, which must be there.
#[verifier::loop_isolation(false)]
pub fn get_status(node: &JsonNode) -> (ready: Result<bool, ClientError>)
    ensures
        match node_status(node.status) {
            Ok(status) => ready matches Ok(r) && r == status,
            Err(reason) => ready matches Err(ClientError::Json(r)) && r == reason,
        },
{
    let status = match &node.status {
        None => { return Err(ClientError::Json("no status in node")); },
        Some(status) => status,
    };
    let conditions = match &status.conditions {
        None => { return Err(ClientError::Json("no conditions in node's status")); },
        Some(conditions) => conditions,
    };
    let wanted = "Ready".to_owned();
    let yes = "True".to_owned();
    let mut i: usize = 0;
    assert(conditions@.skip(0) == conditions@);
    while i < conditions.len()
        invariant
            i <= conditions.len(),
            first_ready(conditions@) == first_ready(conditions@.skip(i as int)),
        decreases conditions.len() - i,
    {
        let ghost rest = conditions@.skip(i as int);
        assert(rest.len() > 0 && rest[0] == conditions@[i as int]);
        if conditions[i].type_ == wanted {
            return Ok(conditions[i].status == yes);
        }
        assert(rest.drop_first() == conditions@.skip(i + 1));
        i += 1;
    }
    assert(conditions@.skip(i as int).len() == 0);
    Err(ClientError::Json("no ready condition in nodes' status' conditions"))
}

/// The name and readiness of a node, or the reason for which it cannot be
/// read. The name is asked for first.
pub open spec fn parsed_node(node: JsonNode) -> Result<(String, bool), &'static str> {
    match node.name {
        None => Err("no name in node's metadata"),
        Some(name) => match node_status(node.status) {
            Err(reason) => Err(reason),
            Ok(ready) => Ok((name, ready)),
        },
    }
}

/// Reads the name and the readiness of a node.
pub fn parse_node(node: JsonNode) -> (parsed: Result<(String, bool), ClientError>)
    ensures
        match parsed_node(node) {
            Ok(read) => parsed matches Ok(p) && p == read,
            Err(reason) => parsed matches Err(ClientError::Json(r)) && r == reason,
        },
{
    if node.name.is_none() {
        return Err(ClientError::Json("no name in node's metadata"));
    }
    let ready = match get_status(&node) {
        Ok(ready) => ready,
        Err(e) => { return Err(e); },
    };
    match node.name {
        Some(name) => Ok((name, ready)),
        None => Err(ClientError::Json("no name in node's metadata")),
    }
}

/// The event that a frame stands for, or the reason for which its node
/// cannot be read.
pub open spec fn node_event(frame: NodeFrame) -> Result<NodeEvent, &'static str> {
    match frame {
        NodeFrame::Added(node) => match parsed_node(node) {
            Ok((name, ready)) => Ok(NodeEvent::Created(name, ready)),
            Err(reason) => Err(reason),
        },
        NodeFrame::Modified(node) => match parsed_node(node) {
            Ok((name, ready)) => Ok(NodeEvent::Modified(name, ready)),
            Err(reason) => Err(reason),
        },
        NodeFrame::Deleted(node) => match parsed_node(node) {
            Ok((name, ready)) => Ok(NodeEvent::Deleted(name, ready)),
            Err(reason) => Err(reason),
        },
        NodeFrame::Other => Ok(NodeEvent::__),
    }
}

impl NodeEvent {
    /// Turns a frame of the watch into the event that it stands for.
    pub fn try_from(value: NodeFrame) -> (event: Result<NodeEvent, ClientError>)
        ensures
            match node_event(value) {
                Ok(expected) => event matches Ok(e) && e == expected,
                Err(reason) => event matches Err(ClientError::Json(r)) && r == reason,
            },
    {
        match value {
            NodeFrame::Added(node) => match parse_node(node) {
                Ok((name, status)) => Ok(NodeEvent::Created(name, status)),
                Err(e) => Err(e),
            },
            NodeFrame::Modified(node) => match parse_node(node) {
                Ok((name, status)) => Ok(NodeEvent::Modified(name, status)),
                Err(e) => Err(e),
            },
            NodeFrame::Deleted(node) => match parse_node(node) {
                Ok((name, status)) => Ok(NodeEvent::Deleted(name, status)),
                Err(e) => Err(e),
            },
            NodeFrame::Other => Ok(NodeEvent::__),
        }
    }
}

/// Some node of `names` is called `name`.
pub open spec fn named(names: Seq<String>, name: Seq<char>) -> bool {
    exists|i: int| 0 <= i < names.len() && (#[trigger] names[i])@ == name
}

/// `i` is the first position of the name `name`.
pub open spec fn named_at(names: Seq<String>, name: Seq<char>, i: int) -> bool {
    &&& 0 <= i < names.len()
    &&& names[i]@ == name
    &&& forall|j: int| 0 <= j < i ==> (#[trigger] names[j])@ != name
}

/// The first position of the name `name`, where there is one.
pub open spec fn name_index(names: Seq<String>, name: Seq<char>) -> int {
    choose|i: int| named_at(names, name, i)
}

impl Nodes {
    /// Every node has a readiness.
    pub open spec fn wf(&self) -> bool {
        self.names@.len() == self.statuses@.len()
    }

    /// The first position of the node called `name`.
    pub fn position(&self, name: &String) -> (found: Option<usize>)
        ensures
            found is Some <==> named(self.names@, name@),
            found is Some ==> named_at(self.names@, name@, found->Some_0 as int),
            found is Some ==> found->Some_0 == name_index(self.names@, name@),
    {
        let mut i: usize = 0;
        while i < self.names.len()
            invariant
                i <= self.names.len(),
                forall|j: int| 0 <= j < i ==> (#[trigger] self.names@[j])@ != name@,
            decreases self.names.len() - i,
        {
            if self.names[i] == *name {
                assert(named_at(self.names@, name@, i as int));
                return Some(i);
            }
            i += 1;
        }
        None
    }

    /// Whether [`handle_event`] can take this event: a modified or deleted
    /// node must be mirrored.
    pub open spec fn expects(&self, event: NodeEvent) -> bool {
        match event {
            NodeEvent::Modified(name, _) => named(self.names@, name@),
            NodeEvent::Deleted(name, _) => named(self.names@, name@),
            _ => true,
        }
    }

    /// Whether [`handle_event`] can take this event.
    pub fn can_handle(&self, event: &NodeEvent) -> (ok: bool)
        ensures
            ok == self.expects(*event),
    {
        match event {
            NodeEvent::Modified(name, _) => self.position(name).is_some(),
            NodeEvent::Deleted(name, _) => self.position(name).is_some(),
            _ => true,
        }
    }

    /// Whether `self` and `told` are what follows `before` on `event`.
    ///
    /// A created node is put last. A deleted node leaves, with its
    /// readiness. A modified node has its readiness taken over, and the
    /// event is passed on only where the readiness changed.
    pub open spec fn handled(&self, before: &Nodes, event: NodeEvent, told: Option<NodeEvent>) -> bool {
        &&& self.version == before.version
        &&& match event {
            NodeEvent::Created(name, status) => {
                &&& self.names@ == before.names@.push(name)
                &&& self.statuses@ == before.statuses@.push(status)
                &&& told == Some(event)
            },
            NodeEvent::Deleted(name, _) => {
                let i = name_index(before.names@, name@);
                &&& self.names@ == before.names@.remove(i)
                &&& self.statuses@ == before.statuses@.remove(i)
                &&& told == Some(event)
            },
            NodeEvent::Modified(name, status) => {
                let i = name_index(before.names@, name@);
                &&& self.names == before.names
                &&& self.statuses@ == before.statuses@.update(i, status)
                &&& told == if before.statuses@[i] == status {
                    None
                } else {
                    Some(event)
                }
            },
            NodeEvent::__ => self.names == before.names && self.statuses == before.statuses
                && told is None,
        }
    }
}

/// Applies an event of the watch to the mirrored nodes and passes it on if
/// it changed them.
pub fn handle_event(event: NodeEvent, nodes: &mut Nodes) -> (told: Option<NodeEvent>)
    requires
        old(nodes).wf(),
        old(nodes).expects(event),
    ensures
        final(nodes).wf(),
        final(nodes).handled(old(nodes), event, told),
{
    match &event {
        NodeEvent::Modified(name, status) => {
            let node_pos = match nodes.position(name) {
                Some(i) => i,
                None => { return None; },
            };
            if nodes.statuses[node_pos] == *status {
                assert(nodes.statuses@ == nodes.statuses@.update(node_pos as int, *status));
                return None;
            }
            nodes.statuses.set(node_pos, *status);
        },
        NodeEvent::Deleted(name, _) => {
            let node_pos = match nodes.position(name) {
                Some(i) => i,
                None => { return None; },
            };
            nodes.names.remove(node_pos);
            nodes.statuses.remove(node_pos);
        },
        NodeEvent::Created(name, status) => {
            nodes.names.push(name.clone());
            nodes.statuses.push(*status);
        },
        NodeEvent::__ => { return None; },
    }
    Some(event)
}

/// The names and readiness of listed nodes, in order, or the reason for
/// which the first unreadable node fails the listing. Of a node its name
/// is asked for first.
pub open spec fn listed_nodes(items: Seq<JsonNode>) -> Result<Seq<(String, bool)>, &'static str>
    decreases items.len(),
{
    if items.len() == 0 {
        Ok(Seq::empty())
    } else {
        match listed_nodes(items.drop_last()) {
            Err(reason) => Err(reason),
            Ok(nodes) => match parsed_node(items.last()) {
                Err(reason) => Err(reason),
                Ok(node) => Ok(nodes.push(node)),
            },
        }
    }
}

/// Whether `nodes` is what the listing `list` describes: the nodes are
/// read first, then the cursor.
pub open spec fn nodes_match(nodes: Result<Nodes, ClientError>, list: NodeList) -> bool {
    match listed_nodes(list.items@) {
        Err(reason) => nodes matches Err(ClientError::Json(r)) && r == reason,
        Ok(read) => match list.resource_version {
            None => nodes matches Err(ClientError::Json(r)) && r
                == "no version in nodes' metadata",
            Some(version) => nodes matches Ok(mirrored) && mirrored.version == version
                && mirrored.names@ == read.map_values(|node: (String, bool)| node.0)
                && mirrored.statuses@ == read.map_values(|node: (String, bool)| node.1),
        },
    }
}

proof fn lemma_listed_nodes_fails(items: Seq<JsonNode>, n: int)
    requires
        0 <= n <= items.len(),
        listed_nodes(items.take(n)) is Err,
    ensures
        listed_nodes(items) == listed_nodes(items.take(n)),
    decreases items.len() - n,
{
    if n == items.len() {
        assert(items.take(n) == items);
    } else {
        assert(items.take(n + 1).drop_last() == items.take(n));
        lemma_listed_nodes_fails(items, n + 1);
    }
}

/// Turns a decoded listing of nodes into the mirrored nodes.
#[verifier::loop_isolation(false)]
pub fn get_nodes(list: NodeList) -> (nodes: Result<Nodes, ClientError>)
    ensures
        nodes_match(nodes, list),
        nodes is Ok ==> nodes->Ok_0.wf(),
{
    let NodeList { resource_version, items } = list;
    let mut names: Vec<String> = Vec::new();
    let mut statuses: Vec<bool> = Vec::new();
    let ghost mut read: Seq<(String, bool)> = Seq::empty();
    assert(items@.take(0) == Seq::<JsonNode>::empty());
    for item in it: items
        invariant
            it.seq() == items@,
            listed_nodes(items@.take(it.index() as int)) == Ok::<Seq<(String, bool)>, &'static str>(
                read,
            ),
            names@ == read.map_values(|node: (String, bool)| node.0),
            statuses@ == read.map_values(|node: (String, bool)| node.1),
    {
        proof {
            let next = items@.take(it.index() + 1);
            assert(next.drop_last() == items@.take(it.index() as int));
            assert(next.last() == item);
        }
        match parse_node(item) {
            Err(e) => {
                proof {
                    lemma_listed_nodes_fails(items@, it.index() + 1);
                }
                return Err(e);
            },
            Ok((name, status)) => {
                proof {
                    let more = read.push((name, status));
                    assert(more.map_values(|node: (String, bool)| node.0) == names@.push(name));
                    assert(more.map_values(|node: (String, bool)| node.1) == statuses@.push(
                        status,
                    ));
                    read = more;
                }
                names.push(name);
                statuses.push(status);
            },
        }
    }
    assert(items@.take(items@.len() as int) == items@);
    match resource_version {
        None => Err(ClientError::Json("no version in nodes' metadata")),
        Some(version) => Ok(Nodes { names, statuses, version }),
    }
}

/// What `serde_json::from_str` makes of `text` read as a list of nodes:
/// the listing, or `None` where it reports an error.
pub uninterp spec fn node_list_of(text: Seq<char>) -> Option<NodeList>;

/// What `serde_json::from_str` makes of `text` read as one watch event on
/// nodes: the frame, or `None` where it reports an error.
pub uninterp spec fn node_frame_of(text: Seq<char>) -> Option<NodeFrame>;

/// `serde_json::from_str` at `List<Node>`, and the move out of each node
/// of the fields that [`JsonNode`] holds: `metadata.name`, and of each
/// entry of `status.conditions` its `type` and `status`; with them the
/// list's `metadata.resourceVersion`. The result is a function of the text
/// alone, so it is named: [`node_list_of`]. The decoder's error is handed
/// on as it is.
#[verifier::external_body]
pub(crate) fn decode_node_list(text: &str) -> (decoded: Result<NodeList, serde_json::Error>)
    ensures
        decoded is Ok <==> node_list_of(text@) is Some,
        decoded is Ok ==> decoded->Ok_0 == node_list_of(text@)->Some_0,
{
    let list: List<api::core::v1::Node> = serde_json::from_str(text)?;
    let fields = |node: api::core::v1::Node| JsonNode {
        name: node.metadata.name,
        status: node.status.map(|s| PodStatus {
            conditions: s.conditions.map(|all| all.into_iter().map(|c| PodCondition { type_: c.type_, status: c.status }).collect()),
        }),
    };
    Ok(NodeList { resource_version: list.metadata.resource_version, items: list.items.into_iter().map(fields).collect() })
}

/// `serde_json::from_str` at `WatchEvent<Node>`, and the same move of
/// fields out of the event's node. The result is a function of the text
/// alone, so it is named: [`node_frame_of`]. The decoder's error is handed
/// on as it is.
#[verifier::external_body]
pub(crate) fn decode_node_frame(text: &str) -> (decoded: Result<NodeFrame, serde_json::Error>)
    ensures
        decoded is Ok <==> node_frame_of(text@) is Some,
        decoded is Ok ==> decoded->Ok_0 == node_frame_of(text@)->Some_0,
{
    let event: WatchEvent<api::core::v1::Node> = serde_json::from_str(text)?;
    let (node, frame): (_, fn(JsonNode) -> NodeFrame) = match event {
        WatchEvent::Added(node) => (node, NodeFrame::Added),
        WatchEvent::Deleted(node) => (node, NodeFrame::Deleted),
        WatchEvent::Modified(node) => (node, NodeFrame::Modified),
        _ => return Ok(NodeFrame::Other),
    };
    let status = node.status.map(|s| PodStatus {
        conditions: s.conditions.map(|all| all.into_iter().map(|c| PodCondition { type_: c.type_, status: c.status }).collect()),
    });
    Ok(frame(JsonNode { name: node.metadata.name, status }))
}

/// Reads the body of the response that lists the nodes into the mirrored
/// nodes.
pub fn list_nodes(body: &str) -> (nodes: Result<Nodes, ClientError>)
    ensures
        match node_list_of(body@) {
            None => nodes is Err && nodes->Err_0 is Serde,
            Some(list) => nodes_match(nodes, list),
        },
        nodes is Ok ==> nodes->Ok_0.wf(),
{
    match decode_node_list(body) {
        Err(e) => Err(ClientError::Serde(e)),
        Ok(list) => get_nodes(list),
    }
}

/// Reads one line of the watch on nodes as the event that it stands for.
pub fn read_node_event(line: &str) -> (event: Result<NodeEvent, ClientError>)
    ensures
        match node_frame_of(line@) {
            None => event is Err && event->Err_0 is Serde,
            Some(frame) => match node_event(frame) {
                Ok(expected) => event matches Ok(e) && e == expected,
                Err(reason) => event matches Err(ClientError::Json(r)) && r == reason,
            },
        },
{
    match decode_node_frame(line) {
        Err(e) => Err(ClientError::Serde(e)),
        Ok(frame) => NodeEvent::try_from(frame),
    }
}

} // verus!
