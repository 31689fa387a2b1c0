//! A set of uids.
use vstd::prelude::*;

verus! {

/// A set of uids, each held once, in the order in which they came.
#[derive(Debug, PartialEq, Eq)]
pub struct UidSet {
    pub uids: Vec<String>,
}

/// The uids as texts.
pub open spec fn texts(uids: Seq<String>) -> Seq<Seq<char>> {
    uids.map_values(|uid: String| uid@)
}

/// `i` is the first position of `uid` in `uids`.
pub open spec fn is_first(uids: Seq<Seq<char>>, uid: Seq<char>, i: int) -> bool {
    &&& 0 <= i < uids.len()
    &&& uids[i] == uid
    &&& forall|j: int| 0 <= j < i ==> #[trigger] uids[j] != uid
}

/// The first position of `uid` in `uids`, where there is one.
pub open spec fn first_of(uids: Seq<Seq<char>>, uid: Seq<char>) -> int {
    choose|i: int| is_first(uids, uid, i)
}

/// `uids` without the first `uid`; `uids` itself where it holds none.
pub open spec fn without(uids: Seq<Seq<char>>, uid: Seq<char>) -> Seq<Seq<char>> {
    if uids.contains(uid) {
        uids.remove(first_of(uids, uid))
    } else {
        uids
    }
}

/// Taking one uid out of uids that are held once each leaves the others,
/// once each.
pub proof fn lemma_remove_uid(before: Seq<Seq<char>>, i: int)
    requires
        before.no_duplicates(),
        0 <= i < before.len(),
    ensures
        before.remove(i).no_duplicates(),
        forall|other: Seq<char>|
            before.remove(i).contains(other) <==> before.contains(other) && other != before[i],
{
    let after = before.remove(i);
    assert forall|a: int, b: int|
        0 <= a < after.len() && 0 <= b < after.len() && a != b implies after[a] != after[b] by {
        let a0 = if a < i { a } else { a + 1 };
        let b0 = if b < i { b } else { b + 1 };
        assert(after[a] == before[a0]);
        assert(after[b] == before[b0]);
    }
    assert forall|other: Seq<char>|
        after.contains(other) <==> before.contains(other) && other != before[i] by {
        if after.contains(other) {
            let k = choose|k: int| 0 <= k < after.len() && after[k] == other;
            let k0 = if k < i { k } else { k + 1 };
            assert(before[k0] == other);
        }
        if before.contains(other) && other != before[i] {
            let k = choose|k: int| 0 <= k < before.len() && before[k] == other;
            let k1 = if k < i { k } else { k - 1 };
            assert(after[k1] == other);
        }
    }
}

impl View for UidSet {
    type V = Seq<Seq<char>>;

    open spec fn view(&self) -> Seq<Seq<char>> {
        texts(self.uids@)
    }
}

impl UidSet {
    /// No uid is held twice.
    pub open spec fn wf(&self) -> bool {
        self@.no_duplicates()
    }

    /// The set holds `uid`.
    pub open spec fn has(&self, uid: Seq<char>) -> bool {
        self@.contains(uid)
    }

    /// The empty set.
    pub fn new() -> (set: Self)
        ensures
            set@.len() == 0,
            set.wf(),
    {
        UidSet { uids: Vec::new() }
    }

    /// How many uids the set holds.
    pub fn len(&self) -> (n: usize)
        ensures
            n == self@.len(),
    {
        self.uids.len()
    }

    /// Where the set holds `uid`.
    pub fn position(&self, uid: &String) -> (found: Option<usize>)
        ensures
            found is Some <==> self.has(uid@),
            found is Some ==> found->Some_0 < self@.len() && self@[found->Some_0 as int] == uid@,
            found is Some ==> found->Some_0 == first_of(self@, uid@),
    {
        let mut i: usize = 0;
        while i < self.uids.len()
            invariant
                i <= self.uids.len(),
                forall|j: int| 0 <= j < i ==> (#[trigger] self@[j]) != uid@,
            decreases self.uids.len() - i,
        {
            if self.uids[i] == *uid {
                assert(is_first(self@, uid@, i as int));
                return Some(i);
            }
            i += 1;
        }
        None
    }

    /// Whether the set holds `uid`.
    pub fn contains(&self, uid: &String) -> (held: bool)
        ensures
            held == self.has(uid@),
    {
        self.position(uid).is_some()
    }

    /// Puts `uid` into the set; says whether it was new.
    pub fn insert(&mut self, uid: String) -> (fresh: bool)
        ensures
            fresh == !old(self).has(uid@),
            fresh ==> final(self)@ == old(self)@.push(uid@),
            !fresh ==> final(self)@ == old(self)@,
            old(self).wf() ==> final(self).wf(),
            forall|other: Seq<char>|
                final(self).has(other) <==> old(self).has(other) || other == uid@,
    {
        if self.contains(&uid) {
            return false;
        }
        let ghost before = self@;
        self.uids.push(uid);
        proof {
            assert(self@ =~= before.push(uid@));
            assert forall|other: Seq<char>| self.has(other) <==> before.contains(other) || other
                == uid@ by {
                if before.contains(other) {
                    let k = choose|k: int| 0 <= k < before.len() && before[k] == other;
                    assert(self@[k] == other);
                }
                if other == uid@ {
                    assert(self@[before.len() as int] == other);
                }
            }
        }
        true
    }

    /// Takes `uid` out of the set; says whether it was there.
    pub fn remove(&mut self, uid: &String) -> (held: bool)
        ensures
            held == old(self).has(uid@),
            final(self)@ == without(old(self)@, uid@),
            old(self).wf() ==> final(self).wf() && !final(self).has(uid@) && forall|
                other: Seq<char>,
            |
                final(self).has(other) <==> old(self).has(other) && other != uid@,
    {
        match self.position(uid) {
            None => false,
            Some(i) => {
                let ghost before = self@;
                self.uids.remove(i);
                proof {
                    assert(self@ =~= before.remove(i as int));
                    if before.no_duplicates() {
                        lemma_remove_uid(before, i as int);
                    }
                }
                true
            },
        }
    }

    /// Empties the set.
    pub fn clear(&mut self)
        ensures
            final(self)@.len() == 0,
            final(self).wf(),
    {
        self.uids.clear();
    }
}

} // verus!
