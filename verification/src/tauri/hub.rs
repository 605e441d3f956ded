//! What the hub of operations may answer.
use vstd::prelude::*;

verus! {

/// Why the hub refuses something.
#[derive(Clone, Copy, Debug, PartialEq, Eq, Structural)]
pub enum HubError {
    Quota,
    Closed,
    Stale,
    Invalid,
    WrongKind,
    WrongRights,
    Exhausted,
}

/// How an operation ended.
#[derive(Clone, Copy, Debug, PartialEq, Eq, Structural)]
pub enum Terminal {
    Completed,
    Cancelled,
    TimedOut,
    Closed,
    Rejected,
    Trapped,
    OwnerExited,
}

/// Identifiers of instances, each given out once.
#[derive(Clone, Copy, Debug, PartialEq, Eq, Structural)]
pub struct StoreCounter {
    last: u64,
}

impl StoreCounter {
    /// The last identifier that was given out.
    pub closed spec fn spec_last(&self) -> u64 {
        self.last
    }

    pub fn new() -> (counter: Self)
        ensures
            counter.spec_last() == 1,
    {
        StoreCounter { last: 1 }
    }

    /// The next identifier, as long as there is one.
    pub fn next_store(&mut self) -> (store: Option<u64>)
        ensures
            match store {
                Some(store) => store == old(self).spec_last() + 1 && final(self).spec_last()
                    == store,
                None => old(self).spec_last() == u64::MAX && final(self).spec_last() == old(
                    self,
                ).spec_last(),
            },
    {
        if self.last == u64::MAX {
            return None;
        }
        self.last = self.last + 1;
        Some(self.last)
    }
}

/// A value that can be delivered once.
#[derive(Clone, Copy, Debug, PartialEq, Eq, Structural)]
pub struct OneShot {
    waiting: bool,
}

impl OneShot {
    pub closed spec fn spec_waiting(&self) -> bool {
        self.waiting
    }

    pub fn new() -> (shot: Self)
        ensures
            shot.spec_waiting(),
    {
        OneShot { waiting: true }
    }

    /// Whether this is the outcome that is delivered: the first one is, and
    /// every later one is dropped.
    pub fn finish(&mut self) -> (delivers: bool)
        ensures
            delivers == old(self).spec_waiting(),
            !final(self).spec_waiting(),
    {
        let delivers = self.waiting;
        self.waiting = false;
        delivers
    }
}

/// Resources whose closing was asked for.
#[derive(Debug)]
pub struct ClosingSet {
    tokens: Vec<u64>,
}

impl ClosingSet {
    pub closed spec fn view(&self) -> Set<u64> {
        self.tokens@.to_set()
    }

    pub closed spec fn wf(&self) -> bool {
        self.tokens@.no_duplicates()
    }

    pub fn new() -> (set: Self)
        ensures
            set.wf(),
            set@ == Set::<u64>::empty(),
    {
        let set = ClosingSet { tokens: Vec::new() };
        assert(set@ =~= Set::<u64>::empty());
        set
    }

    /// Whether closing was asked for.
    pub fn is_explicitly_closing(&self, token: u64) -> (is: bool)
        ensures
            is == self@.contains(token),
    {
        for at in 0..self.tokens.len()
            invariant
                forall|i: int| 0 <= i < at ==> self.tokens@[i] != token,
        {
            if self.tokens[at] == token {
                assert(self.tokens@.contains(token));
                return true;
            }
        }
        assert(!self.tokens@.contains(token));
        false
    }

    pub fn mark_explicitly_closing(&mut self, token: u64)
        requires
            old(self).wf(),
        ensures
            final(self).wf(),
            final(self)@ == old(self)@.insert(token),
    {
        let ghost before = self.tokens@;
        if !self.is_explicitly_closing(token) {
            assert(!before.contains(token));
            self.tokens.push(token);
            proof {
                assert forall|x: u64| self.tokens@.contains(x) <==> before.contains(x) || x
                    == token by {
                    if before.contains(x) {
                        let i = choose|i: int| 0 <= i < before.len() && before[i] == x;
                        assert(self.tokens@[i] == x);
                    }
                    if x == token {
                        assert(self.tokens@[before.len() as int] == x);
                    }
                }
                assert(self.tokens@.no_duplicates()) by {
                    assert forall|a: int, b: int|
                        0 <= a < self.tokens@.len() && 0 <= b < self.tokens@.len() && a
                            != b implies self.tokens@[a] != self.tokens@[b] by {
                        if a < before.len() && b < before.len() {
                            assert(before[a] != before[b]);
                        } else if a < before.len() {
                            assert(before.contains(before[a]));
                        } else {
                            assert(before.contains(before[b]));
                        }
                    }
                }
            }
        }
        assert(self@ =~= old(self)@.insert(token));
    }

    pub fn clear_explicitly_closing(&mut self, token: u64)
        requires
            old(self).wf(),
        ensures
            final(self).wf(),
            final(self)@ == old(self)@.remove(token),
    {
        let ghost before = self.tokens@;
        let mut at: usize = 0;
        while at < self.tokens.len() && self.tokens[at] != token
            invariant
                self.tokens@ == before,
                at <= before.len(),
                forall|i: int| 0 <= i < at ==> before[i] != token,
            decreases before.len() - at,
        {
            at += 1;
        }
        if at < self.tokens.len() {
            self.tokens.swap_remove(at);
            proof {
                lemma_swap_removed(before, at as int, self.tokens@);
            }
        } else {
            assert(!before.contains(token));
        }
        assert(self@ =~= old(self)@.remove(token));
    }
}

proof fn lemma_swap_removed(before: Seq<u64>, at: int, after: Seq<u64>)
    requires
        0 <= at < before.len(),
        before.no_duplicates(),
        after == before.update(at, before.last()).drop_last(),
    ensures
        after.no_duplicates(),
        forall|x: u64| after.contains(x) <==> (before.contains(x) && x != before[at]),
{
    assert forall|x: u64| after.contains(x) <==> (before.contains(x) && x != before[at]) by {
        if after.contains(x) {
            let i = choose|i: int| 0 <= i < after.len() && after[i] == x;
            if i == at {
                assert(before[before.len() - 1] == x);
            } else {
                assert(before[i] == x);
            }
        }
        if before.contains(x) && x != before[at] {
            let i = choose|i: int| 0 <= i < before.len() && before[i] == x;
            if i == before.len() - 1 {
                assert(after[at] == x);
            } else {
                assert(after[i] == x);
            }
        }
    }
}

} // verus!
