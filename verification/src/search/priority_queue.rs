//! The frontier of a search: labels waiting to be expanded, by priority.

use vstd::prelude::*;
use crate::cost::ReverseCost;
use crate::label::Label;

verus! {

/// One waiting label with its priority.
pub type Ranked = (Label, ReverseCost);

/// The position of the entry that is popped next: the first among those of
/// the greatest priority. Zero for an empty sequence.
pub open spec fn top_index(s: Seq<Ranked>) -> int
    decreases s.len(),
{
    if s.len() <= 1 {
        0
    } else {
        let t = top_index(s.drop_last());
        if s.last().1.outranks(s[t].1) {
            s.len() - 1
        } else {
            t
        }
    }
}

/// Whether some waiting entry is for `label`.
pub open spec fn is_waiting(s: Seq<Ranked>, label: Label) -> bool {
    exists|i: int| 0 <= i < s.len() && (#[trigger] s[i]).0 == label
}

/// The position of the entry for `label`, where there is one.
pub open spec fn waiting_index(s: Seq<Ranked>, label: Label) -> int {
    choose|i: int| 0 <= i < s.len() && (#[trigger] s[i]).0 == label
}

/// No label waits twice.
pub open spec fn distinct_waiting(s: Seq<Ranked>) -> bool {
    forall|i: int, j: int| 0 <= i < j < s.len() ==> (#[trigger] s[i]).0 != (#[trigger] s[j]).0
}

/// The queue after `label` was pushed with `priority`: a label that waits
/// already keeps its place and takes the new priority; a new label joins at
/// the end.
pub open spec fn push_spec(s: Seq<Ranked>, label: Label, priority: ReverseCost) -> Seq<Ranked> {
    if is_waiting(s, label) {
        s.update(waiting_index(s, label), (label, priority))
    } else {
        s.push((label, priority))
    }
}

/// The top entry is in range, nothing outranks it, and it outranks all
/// that stand before it.
pub proof fn lemma_top_index(s: Seq<Ranked>)
    requires
        s.len() > 0,
    ensures
        0 <= top_index(s) < s.len(),
        forall|k: int| 0 <= k < s.len() ==> !(#[trigger] s[k]).1.outranks(s[top_index(s)].1),
        forall|k: int| 0 <= k < top_index(s) ==> s[top_index(s)].1.outranks((#[trigger] s[k]).1),
    decreases s.len(),
{
    if s.len() > 1 {
        lemma_top_index(s.drop_last());
        let t = top_index(s.drop_last());
        assert(s.drop_last()[t] == s[t]);
        assert forall|k: int| 0 <= k < s.len() implies !(#[trigger] s[k]).1.outranks(
            s[top_index(s)].1,
        ) by {
            if k < s.len() - 1 {
                assert(s.drop_last()[k] == s[k]);
            }
        }
        assert forall|k: int| 0 <= k < top_index(s) implies s[top_index(s)].1.outranks(
            (#[trigger] s[k]).1,
        ) by {
            assert(s.drop_last()[k] == s[k]);
        }
    }
}

/// A priority queue of labels, keyed by label: each label waits at most
/// once. Among entries of one priority the oldest is popped first.
pub struct InternalPriorityQueue {
    items: Vec<Ranked>,
}

impl InternalPriorityQueue {
    /// The waiting entries, oldest first.
    pub closed spec fn entries(&self) -> Seq<Ranked> {
        self.items@
    }

    /// The invariant of the queue: no label waits twice.
    pub open spec fn wf(&self) -> bool {
        distinct_waiting(self.entries())
    }

    /// An empty queue.
    pub fn new() -> (queue: InternalPriorityQueue)
        ensures
            queue.entries() == Seq::<Ranked>::empty(),
            queue.wf(),
    {
        InternalPriorityQueue { items: Vec::new() }
    }

    /// The number of waiting labels.
    pub fn len(&self) -> (n: usize)
        ensures
            n == self.entries().len(),
    {
        self.items.len()
    }

    /// Whether no label waits.
    pub fn is_empty(&self) -> (b: bool)
        ensures
            b == (self.entries().len() == 0),
    {
        self.items.len() == 0
    }

    /// Adds `label` with `priority`, or gives it `priority` if it waits
    /// already.
    pub fn push(&mut self, label: Label, priority: ReverseCost)
        requires
            old(self).wf(),
        ensures
            final(self).wf(),
            final(self).entries() == push_spec(old(self).entries(), label, priority),
    {
        let ghost s = self.entries();
        let mut i: usize = 0;
        while i < self.items.len()
            invariant
                i <= self.items.len(),
                s == self.entries(),
                s == old(self).entries(),
                distinct_waiting(s),
                forall|k: int| 0 <= k < i ==> (#[trigger] s[k]).0 != label,
            decreases self.items.len() - i,
        {
            if self.items[i].0 == label {
                proof {
                    let w = waiting_index(s, label);
                    if w < i {
                        assert(s[w].0 != s[i as int].0);
                    } else if i < w {
                        assert(s[i as int].0 != s[w].0);
                    }
                }
                self.items.set(i, (label, priority));
                proof {
                    let r = self.entries();
                    assert forall|a: int, b: int| 0 <= a < b < r.len() implies (
                    #[trigger] r[a]).0 != (#[trigger] r[b]).0 by {
                        assert(r[a].0 == s[a].0 && r[b].0 == s[b].0);
                    }
                }
                return ;
            }
            i += 1;
        }
        self.items.push((label, priority));
        proof {
            let r = self.entries();
            assert forall|a: int, b: int| 0 <= a < b < r.len() implies (#[trigger] r[a]).0 != (
            #[trigger] r[b]).0 by {
                if b < s.len() {
                    assert(r[a] == s[a] && r[b] == s[b]);
                } else {
                    assert(r[a] == s[a]);
                }
            }
        }
    }

    /// Takes out the entry of the greatest priority, the oldest of several.
    pub fn pop(&mut self) -> (r: Option<Ranked>)
        requires
            old(self).wf(),
        ensures
            final(self).wf(),
            old(self).entries().len() == 0 ==> r is None && final(self).entries() == old(self).entries(),
            old(self).entries().len() > 0 ==> r == Some(
                old(self).entries()[top_index(old(self).entries())],
            ) && final(self).entries() == old(self).entries().remove(
                top_index(old(self).entries()),
            ),
    {
        if self.items.len() == 0 {
            return None;
        }
        let ghost s = self.entries();
        let mut best: usize = 0;
        let mut i: usize = 1;
        assert(s.take(1).len() == 1);
        while i < self.items.len()
            invariant
                1 <= i <= self.items.len(),
                s == self.entries(),
                best < i,
                best == top_index(s.take(i as int)),
            decreases self.items.len() - i,
        {
            proof {
                assert(s.take(i + 1).drop_last() =~= s.take(i as int));
                assert(s.take(i + 1).last() == s[i as int]);
                assert(s.take(i + 1)[best as int] == s[best as int]);
            }
            if self.items[i].1.is_greater_than(&self.items[best].1) {
                best = i;
            }
            i += 1;
        }
        assert(s.take(i as int) =~= s);
        let top = self.items.remove(best);
        proof {
            let r = self.entries();
            assert forall|a: int, b: int| 0 <= a < b < r.len() implies (#[trigger] r[a]).0 != (
            #[trigger] r[b]).0 by {
                let a0 = if a < best { a } else { a + 1 };
                let b0 = if b < best { b } else { b + 1 };
                assert(r[a] == s[a0] && r[b] == s[b0]);
            }
        }
        Some(top)
    }
}

impl Default for InternalPriorityQueue {
    fn default() -> (queue: InternalPriorityQueue)
        ensures
            queue.entries() == Seq::<Ranked>::empty(),
            queue.wf(),
    {
        InternalPriorityQueue::new()
    }
}

} // verus!
