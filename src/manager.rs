//! The registry of established sessions, keyed by the peer's designator.
use vstd::prelude::*;

verus! {

/// The sessions of this process, at most one for each peer designator, in the
/// order they were established.
pub struct CapTpSessionManager<S> {
    sessions: Vec<(String, S)>,
}

/// Each designator names at most one session.
pub open spec fn keys_unique<S>(entries: Seq<(String, S)>) -> bool {
    forall|i: int, j: int| 0 <= i < entries.len() && 0 <= j < entries.len() && i != j
        ==> #[trigger] entries[i].0@ != #[trigger] entries[j].0@
}

impl<S> CapTpSessionManager<S> {
    /// The sessions by designator.
    pub closed spec fn sessions(&self) -> Map<Seq<char>, S> {
        Map::new(
            |d: Seq<char>| exists|i: int| 0 <= i < self.sessions@.len() && self.sessions@[i].0@ == d,
            |d: Seq<char>| self.sessions@[choose|i: int| 0 <= i < self.sessions@.len() && self.sessions@[i].0@ == d].1,
        )
    }

    pub closed spec fn wf(&self) -> bool {
        keys_unique(self.sessions@)
    }

    pub fn new() -> (r: CapTpSessionManager<S>)
        ensures
            r.wf(),
            r.sessions() == Map::<Seq<char>, S>::empty(),
    {
        let r = CapTpSessionManager { sessions: Vec::new() };
        assert(r.sessions() =~= Map::<Seq<char>, S>::empty());
        r
    }

    fn find(&self, designator: &str) -> (r: Option<usize>)
        requires
            self.wf(),
        ensures
            match r {
                Some(i) => i < self.sessions@.len() && self.sessions@[i as int].0@ == designator@,
                None => forall|i: int| 0 <= i < self.sessions@.len() ==> self.sessions@[i].0@ != designator@,
            },
    {
        let key = designator.to_owned();
        let mut i: usize = 0;
        while i < self.sessions.len()
            invariant
                i <= self.sessions@.len(),
                key@ == designator@,
                forall|j: int| 0 <= j < i ==> self.sessions@[j].0@ != designator@,
            decreases self.sessions.len() - i,
        {
            if self.sessions[i].0 == key {
                return Some(i);
            }
            i = i + 1;
        }
        None
    }

    /// The session with the peer of this designator, if there is one.
    pub fn get(&self, designator: &str) -> (r: Option<&S>)
        requires
            self.wf(),
        ensures
            r is Some <==> self.sessions().contains_key(designator@),
            r is Some ==> *r->Some_0 == self.sessions()[designator@],
    {
        match self.find(designator) {
            Some(i) => {
                proof {
                    let d = designator@;
                    let k = choose|k: int| 0 <= k < self.sessions@.len() && self.sessions@[k].0@ == d;
                    assert(k == i);
                }
                Some(&self.sessions[i].1)
            },
            None => None,
        }
    }

    /// Installs the session with the peer of this designator, in place of
    /// any earlier one.
    pub fn finalize_session(&mut self, designator: String, session: S)
        requires
            old(self).wf(),
        ensures
            final(self).wf(),
            final(self).sessions() == old(self).sessions().insert(designator@, session),
    {
        let ghost d = designator@;
        match self.find(designator.as_str()) {
            Some(i) => {
                let ghost before = self.sessions@;
                self.sessions.set(i, (designator, session));
                proof {
                    assert forall|j: int| 0 <= j < self.sessions@.len() && j != i implies self.sessions@[j] == before[j] by {}
                    assert(self.sessions@[i as int].0@ == d);
                    assert(self.sessions() =~= old(self).sessions().insert(d, session)) by {
                        assert forall|e: Seq<char>| #[trigger] self.sessions().contains_key(e) <==> old(self).sessions().insert(d, session).contains_key(e) by {
                            if old(self).sessions().contains_key(e) && e != d {
                                let k = choose|k: int| 0 <= k < before.len() && before[k].0@ == e;
                                assert(self.sessions@[k].0@ == e);
                            }
                            if self.sessions().contains_key(e) && e != d {
                                let k = choose|k: int| 0 <= k < self.sessions@.len() && self.sessions@[k].0@ == e;
                                assert(before[k].0@ == e);
                            }
                        }
                        assert forall|e: Seq<char>| #[trigger] self.sessions().contains_key(e) implies self.sessions()[e] == old(self).sessions().insert(d, session)[e] by {
                            let k = choose|k: int| 0 <= k < self.sessions@.len() && self.sessions@[k].0@ == e;
                            if e == d {
                                assert(k == i);
                            } else {
                                let k2 = choose|k2: int| 0 <= k2 < before.len() && before[k2].0@ == e;
                                assert(k2 == k);
                            }
                        }
                    }
                }
            },
            None => {
                let ghost before = self.sessions@;
                self.sessions.push((designator, session));
                proof {
                    let n = before.len();
                    assert(self.sessions@[n as int].0@ == d);
                    assert(self.sessions() =~= old(self).sessions().insert(d, session)) by {
                        assert forall|e: Seq<char>| #[trigger] self.sessions().contains_key(e) <==> old(self).sessions().insert(d, session).contains_key(e) by {
                            if old(self).sessions().contains_key(e) && e != d {
                                let k = choose|k: int| 0 <= k < before.len() && before[k].0@ == e;
                                assert(self.sessions@[k].0@ == e);
                            }
                            if self.sessions().contains_key(e) && e != d {
                                let k = choose|k: int| 0 <= k < self.sessions@.len() && self.sessions@[k].0@ == e;
                                assert(before[k].0@ == e);
                            }
                        }
                        assert forall|e: Seq<char>| #[trigger] self.sessions().contains_key(e) implies self.sessions()[e] == old(self).sessions().insert(d, session)[e] by {
                            let k = choose|k: int| 0 <= k < self.sessions@.len() && self.sessions@[k].0@ == e;
                            if e == d {
                                assert(k == n);
                            } else {
                                let k2 = choose|k2: int| 0 <= k2 < before.len() && before[k2].0@ == e;
                                assert(k2 == k);
                            }
                        }
                    }
                }
            },
        }
    }
}

/// After a session with a peer is installed, looking the peer up gives that
/// very session: a second connection to it needs no new handshake.
pub proof fn lemma_lookup_after_install<S>(
    before: Map<Seq<char>, S>,
    after: Map<Seq<char>, S>,
    designator: Seq<char>,
    session: S,
)
    requires
        after == before.insert(designator, session),
    ensures
        after.contains_key(designator),
        after[designator] == session,
{
}

} // verus!
