//! The request paths of the list and watch calls.
use vstd::prelude::*;
use vstd::string::StringExecFns;
use crate::client::pods::{CAdvisorDaemonSetMetadata, Pod};

verus! {

/// The character of a decimal digit.
pub open spec fn digit_char(digit: nat) -> char {
    if digit == 0 {
        '0'
    } else if digit == 1 {
        '1'
    } else if digit == 2 {
        '2'
    } else if digit == 3 {
        '3'
    } else if digit == 4 {
        '4'
    } else if digit == 5 {
        '5'
    } else if digit == 6 {
        '6'
    } else if digit == 7 {
        '7'
    } else if digit == 8 {
        '8'
    } else {
        '9'
    }
}

/// A number in decimal, without sign or leading zeros.
pub open spec fn decimal_digits(n: nat) -> Seq<char>
    decreases n,
{
    if n < 10 {
        seq![digit_char(n)]
    } else {
        decimal_digits(n / 10).push(digit_char(n % 10))
    }
}

fn digit(d: u64) -> (text: &'static str)
    requires
        d < 10,
    ensures
        text@ == seq![digit_char(d as nat)],
{
    proof {
        reveal_strlit("0");
        reveal_strlit("1");
        reveal_strlit("2");
        reveal_strlit("3");
        reveal_strlit("4");
        reveal_strlit("5");
        reveal_strlit("6");
        reveal_strlit("7");
        reveal_strlit("8");
        reveal_strlit("9");
    }
    let text = if d == 0 {
        "0"
    } else if d == 1 {
        "1"
    } else if d == 2 {
        "2"
    } else if d == 3 {
        "3"
    } else if d == 4 {
        "4"
    } else if d == 5 {
        "5"
    } else if d == 6 {
        "6"
    } else if d == 7 {
        "7"
    } else if d == 8 {
        "8"
    } else {
        "9"
    };
    assert(text@ =~= seq![digit_char(d as nat)]);
    text
}

/// Writes a number in decimal.
pub fn decimal(n: u64) -> (text: String)
    ensures
        text@ == decimal_digits(n as nat),
    decreases n,
{
    if n < 10 {
        digit(n).to_owned()
    } else {
        let mut text = decimal(n / 10);
        text.append(digit(n % 10));
        assert(text@ =~= decimal_digits(n as nat / 10).push(digit_char(n as nat % 10)));
        text
    }
}

/// The path that lists the selected pods:
/// `/api/v1/namespaces/{namespace}/pods?labelSelector={key}={value}`.
pub open spec fn list_path(meta: CAdvisorDaemonSetMetadata) -> Seq<char> {
    "/api/v1/namespaces/"@ + meta.namespace@ + "/pods?labelSelector="@ + meta.key@ + "="@
        + meta.value@
}

/// The path that watches the selected pods from the cursor `version` on,
/// for `seconds` seconds: the list path, followed by
/// `&watch=true&resourceVersion={version}&timeoutSeconds={seconds}`.
pub open spec fn watch_path(
    meta: CAdvisorDaemonSetMetadata,
    version: Seq<char>,
    seconds: u64,
) -> Seq<char> {
    list_path(meta) + "&watch=true&resourceVersion="@ + version + "&timeoutSeconds="@
        + decimal_digits(seconds as nat)
}

/// The path of the list request for the pods that `meta` selects.
pub fn list_endpoint(meta: &CAdvisorDaemonSetMetadata) -> (path: String)
    ensures
        path@ == list_path(*meta),
{
    let mut path = "/api/v1/namespaces/".to_owned();
    path.append(meta.namespace.as_str());
    path.append("/pods?labelSelector=");
    path.append(meta.key.as_str());
    path.append("=");
    path.append(meta.value.as_str());
    path
}

/// The path of the watch request for the pods that `meta` selects,
/// resuming at `version` and bounded to `seconds` seconds.
pub fn watch_endpoint(meta: &CAdvisorDaemonSetMetadata, version: &String, seconds: u64) -> (path:
    String)
    ensures
        path@ == watch_path(*meta, version@, seconds),
{
    let mut path = list_endpoint(meta);
    path.append("&watch=true&resourceVersion=");
    path.append(version.as_str());
    path.append("&timeoutSeconds=");
    let digits = decimal(seconds);
    path.append(digits.as_str());
    path
}

/// The path that reaches `path` on a pod through the API's proxy:
/// `/api/v1/namespaces/{namespace}/pods/{name}/proxy/{path}`.
pub open spec fn proxy_path(pod: Pod, path: Seq<char>) -> Seq<char> {
    "/api/v1/namespaces/"@ + pod.namespace@ + "/pods/"@ + pod.name@ + "/proxy/"@ + path
}

/// The path of a request to `path` on the pod, through the API's proxy.
pub fn proxy_endpoint(pod: &Pod, path: &str) -> (endpoint: String)
    ensures
        endpoint@ == proxy_path(*pod, path@),
{
    let mut endpoint = "/api/v1/namespaces/".to_owned();
    endpoint.append(pod.namespace.as_str());
    endpoint.append("/pods/");
    endpoint.append(pod.name.as_str());
    endpoint.append("/proxy/");
    endpoint.append(path);
    endpoint
}

} // verus!
