//! The frontier: a work queue of URL strings in which each string is pending
//! at most once.
//!
//! Pop order is last-in, first-out (depth-first traversal): `pop` returns the
//! most recently accepted string. A string may be pushed again after it has
//! been popped; while it is pending, further pushes of it are ignored.

use vstd::prelude::*;

verus! {

/// The pending sequence after pushing `u`: unchanged when `u` is already
/// pending, extended by `u` otherwise.
pub open spec fn push_spec(s: Seq<Seq<char>>, u: Seq<char>) -> Seq<Seq<char>> {
    if s.contains(u) {
        s
    } else {
        s.push(u)
    }
}

/// No string appears twice in the pending sequence.
pub open spec fn no_dup(s: Seq<Seq<char>>) -> bool {
    forall|i: int, j: int| 0 <= i < j < s.len() ==> s[i] != s[j]
}

/// How many entries of the pending sequence equal `u`.
pub open spec fn occurrences(s: Seq<Seq<char>>, u: Seq<char>) -> nat
    decreases s.len(),
{
    if s.len() == 0 {
        0
    } else {
        (if s.last() == u {
            1nat
        } else {
            0nat
        }) + occurrences(s.drop_last(), u)
    }
}

/// A queue that maintains unique elements.
pub struct UniqueQueue {
    queue: Vec<String>,
}

impl View for UniqueQueue {
    type V = Seq<Seq<char>>;

    closed spec fn view(&self) -> Seq<Seq<char>> {
        self.queue.deep_view()
    }
}

impl UniqueQueue {
    /// The uniqueness invariant: no URL string is pending twice.
    pub open spec fn wf(&self) -> bool {
        no_dup(self@)
    }

    /// Creates a new, empty `UniqueQueue`.
    pub fn new() -> (q: UniqueQueue)
        ensures
            q@ == Seq::<Seq<char>>::empty(),
            q.wf(),
    {
        let q = UniqueQueue { queue: Vec::new() };
        proof {
            assert(q@ =~= Seq::<Seq<char>>::empty());
        }
        q
    }

    /// Push an item into the queue; a duplicate of a pending item is ignored.
    pub fn push(&mut self, item: String)
        requires
            old(self).wf(),
        ensures
            final(self)@ == push_spec(old(self)@, item@),
            final(self).wf(),
    {
        let n = self.queue.len();
        let mut i: usize = 0;
        while i < n
            invariant
                n == self.queue.len(),
                i <= n,
                self@ == old(self)@,
                self.wf(),
                forall|k: int| 0 <= k < i ==> self@[k] != item@,
            decreases n - i,
        {
            let hit = self.queue[i] == item;
            proof {
                assert(self@[i as int] == self.queue[i as int]@);
            }
            if hit {
                proof {
                    assert(self@[i as int] == item@);
                    assert(self@.contains(item@));
                }
                return ;
            }
            i += 1;
        }
        proof {
            assert(!self@.contains(item@));
        }
        let ghost before = self@;
        self.queue.push(item);
        proof {
            assert(self@ =~= before.push(item@));
        }
    }

    /// Pop an item from the queue: the most recently accepted pending string,
    /// or `None` when nothing is pending.
    pub fn pop(&mut self) -> (r: Option<String>)
        requires
            old(self).wf(),
        ensures
            final(self).wf(),
            old(self)@.len() == 0 ==> r is None && final(self)@ == old(self)@,
            old(self)@.len() > 0 ==> (r matches Some(u) && u@ == old(self)@.last()
                && final(self)@ == old(self)@.drop_last()),
    {
        let ghost before = self@;
        if self.queue.len() == 0 {
            proof {
                assert(self@ =~= before);
            }
            return None;
        }
        let item = self.queue.pop().unwrap();
        proof {
            assert(self@ =~= before.drop_last());
        }
        Some(item)
    }

    /// Returns whether the queue is empty.
    pub fn is_empty(&self) -> (r: bool)
        ensures
            r == (self@.len() == 0),
    {
        self.queue.len() == 0
    }
}

/// With `u` pending exactly when no duplicate is held, a unique queue holds
/// `u` exactly once.
proof fn lemma_no_dup_occurrences(s: Seq<Seq<char>>, u: Seq<char>)
    requires
        no_dup(s),
    ensures
        occurrences(s, u) == if s.contains(u) {
            1nat
        } else {
            0nat
        },
    decreases s.len(),
{
    if s.len() > 0 {
        let fore = s.drop_last();
        assert(forall|i: int, j: int| 0 <= i < j < fore.len() ==> fore[i] != fore[j]);
        lemma_no_dup_occurrences(fore, u);
        if s.last() == u {
            assert(!fore.contains(u)) by {
                if fore.contains(u) {
                    let k = choose|k: int| 0 <= k < fore.len() && fore[k] == u;
                    assert(s[k] == s[s.len() - 1]);
                }
            }
            assert(s.contains(u)) by {
                assert(s[s.len() - 1] == u);
            }
        } else {
            if fore.contains(u) {
                let k = choose|k: int| 0 <= k < fore.len() && fore[k] == u;
                assert(s[k] == u);
            } else if s.contains(u) {
                let k = choose|k: int| 0 <= k < s.len() && s[k] == u;
                if k < s.len() - 1 {
                    assert(fore[k] == u);
                    assert(fore.contains(u));
                } else {
                    assert(s.last() == u);
                }
            }
        }
    }
}

/// Pushing the same string twice, with no pop in between, leaves exactly one
/// pending entry for it.
pub proof fn lemma_push_idempotent(s: Seq<Seq<char>>, u: Seq<char>)
    requires
        no_dup(s),
    ensures
        push_spec(push_spec(s, u), u) == push_spec(s, u),
        occurrences(push_spec(s, u), u) == 1,
{
    let s1 = push_spec(s, u);
    if s.contains(u) {
        assert(s1 == s);
    } else {
        assert(s1 == s.push(u));
        assert(s1[s.len() as int] == u);
        assert(s1.contains(u));
        assert(no_dup(s1)) by {
            assert(forall|i: int| 0 <= i < s.len() ==> s1[i] == s[i]);
            assert(forall|i: int, j: int| 0 <= i < j < s1.len() && j < s.len() ==> s1[i] != s1[j]);
            assert(forall|i: int| 0 <= i < s.len() ==> s1[i] != u);
        }
    }
    assert(s1.contains(u));
    assert(no_dup(s1));
    lemma_no_dup_occurrences(s1, u);
}

} // verus!
