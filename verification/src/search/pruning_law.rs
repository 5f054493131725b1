//! What Pareto pruning removes, stated label by label.
//!
//! Pruning goes through the labels at a vertex one at a time. Because the
//! parent of a node always stands before the node, removing a node never
//! changes whether a node that comes later may be removed. So the labels
//! that pruning removes are exactly those that the new label dominates and
//! that have no children in the tree as it was.

use vstd::prelude::*;
use crate::cost::Cost;
use crate::label::{Label, LabelModel, LabelModelError};
use crate::search::direction::Direction;
use crate::search::search_pruning::{
    label_dominates, prune_outcome, prune_plan, recorded_cost, remove_all,
};
use crate::search::tree_model::{
    drawn, drawn_from, has_label, index_of, labels_at, lemma_drawn_refl, lemma_drawn_trans,
    lemma_index_of, lemma_parent_position, lemma_remove_drawn, lemma_remove_preserves_wf,
    remove_spec, same_entry, tree_wf, unlink, Entries,
};

verus! {

/// Whether pruning for the label `next` of cost `next_cost` removes the
/// entry at `i`: it stands at the vertex of `next`, `next` dominates it, and
/// it has no children.
pub open spec fn removable<M: LabelModel>(
    model: &M,
    s: Entries,
    i: int,
    next: Label,
    next_cost: Cost,
) -> bool {
    &&& s[i].0.vertex() == next.vertex()
    &&& label_dominates(model, next, next_cost, s[i].0, s[i].1.objective_cost())
    &&& s[i].1.children() == 0
}

/// The tree after pruning went through its first `t` entries.
spec fn swept<M: LabelModel>(model: &M, s: Entries, next: Label, next_cost: Cost, t: nat) -> Entries
    decreases t,
{
    if t == 0 {
        s
    } else {
        let mid = swept(model, s, next, next_cost, (t - 1) as nat);
        let entry = s[t - 1];
        if entry.0.vertex() == next.vertex() && label_dominates(
            model,
            next,
            next_cost,
            entry.0,
            entry.1.objective_cost(),
        ) {
            remove_spec(mid, entry.0)
        } else {
            mid
        }
    }
}

/// A plan that succeeds on the labels of the tree succeeds on the labels of
/// each of its prefixes.
proof fn lemma_plan_ok_prefix<M: LabelModel>(
    model: &M,
    s: Entries,
    next: Label,
    next_cost: Cost,
    t: nat,
)
    requires
        t <= s.len(),
        prune_plan(model, s, labels_at(s, next.vertex()), next, next_cost) is Ok,
    ensures
        prune_plan(model, s, labels_at(s.take(t as int), next.vertex()), next, next_cost) is Ok,
    decreases s.len() - t,
{
    if t < s.len() {
        lemma_plan_ok_prefix(model, s, next, next_cost, t + 1);
        assert(s.take(t as int + 1).drop_last() =~= s.take(t as int));
        let now = labels_at(s.take(t as int + 1), next.vertex());
        if s[t as int].0.vertex() == next.vertex() {
            assert(now.drop_last() =~= labels_at(s.take(t as int), next.vertex()));
        }
    } else {
        assert(s.take(t as int) =~= s);
    }
}

/// Removing the doomed labels of the first `t` entries sweeps the first `t`
/// entries.
proof fn lemma_plan_sweeps<M: LabelModel>(
    model: &M,
    s: Entries,
    direction: Direction,
    next: Label,
    next_cost: Cost,
    t: nat,
)
    requires
        tree_wf(s, direction),
        t <= s.len(),
        prune_plan(model, s, labels_at(s, next.vertex()), next, next_cost) is Ok,
    ensures
        prune_plan(model, s, labels_at(s.take(t as int), next.vertex()), next, next_cost) is Ok,
        remove_all(
            s,
            prune_plan(
                model,
                s,
                labels_at(s.take(t as int), next.vertex()),
                next,
                next_cost,
            )->Ok_0,
        ) == swept(model, s, next, next_cost, t),
    decreases t,
{
    lemma_plan_ok_prefix(model, s, next, next_cost, t);
    if t > 0 {
        let u = (t - 1) as nat;
        lemma_plan_sweeps(model, s, direction, next, next_cost, u);
        assert(s.take(t as int).drop_last() =~= s.take(u as int));
        let label = s[u as int].0;
        let before = labels_at(s.take(u as int), next.vertex());
        let now = labels_at(s.take(t as int), next.vertex());
        if label.vertex() == next.vertex() {
            assert(now.drop_last() =~= before);
            assert(now.last() == label);
            lemma_index_of(s, u as int);
            assert(recorded_cost(s, label) == s[u as int].1.objective_cost());
            let doomed = prune_plan(model, s, before, next, next_cost)->Ok_0;
            if label_dominates(model, next, next_cost, label, s[u as int].1.objective_cost()) {
                assert(doomed.push(label).drop_last() =~= doomed);
            }
        }
    } else {
        assert(s.take(0) =~= Seq::empty());
    }
}

/// Whether `r` ends with the entries of `s` from `t` on, as they are.
spec fn untouched_from(r: Entries, s: Entries, t: nat) -> bool {
    r.len() >= s.len() - t && r.skip(r.len() - (s.len() - t)) == s.skip(t as int)
}

/// Whether of the first `t` entries of `s` exactly the removable ones are
/// gone from `r`, and all later entries are there.
spec fn gone_exactly<M: LabelModel>(
    model: &M,
    s: Entries,
    r: Entries,
    next: Label,
    next_cost: Cost,
    t: nat,
) -> bool {
    forall|i: int|
        0 <= i < s.len() ==> (has_label(r, (#[trigger] s[i]).0) <==> !(i < t && removable(
            model,
            s,
            i,
            next,
            next_cost,
        )))
}

/// The first untouched entry of `r` is the entry of `s` at `t`.
proof fn lemma_untouched_head(r: Entries, s: Entries, t: nat)
    requires
        untouched_from(r, s, t),
        t < s.len(),
    ensures
        r[r.len() - (s.len() - t)] == s[t as int],
{
    let a = r.len() - (s.len() - t);
    assert(r.skip(a)[0] == s.skip(t as int)[0]);
}

/// What is untouched from `t` on is untouched from `t + 1` on.
proof fn lemma_untouched_next(r: Entries, s: Entries, t: nat)
    requires
        untouched_from(r, s, t),
        t < s.len(),
    ensures
        untouched_from(r, s, t + 1),
{
    let a = r.len() - (s.len() - t);
    assert(r.skip(a).skip(1) =~= r.skip(a + 1));
    assert(s.skip(t as int).skip(1) =~= s.skip(t as int + 1));
}

/// Removing the first untouched entry leaves the entries after it
/// untouched.
proof fn lemma_untouched_removed(mid: Entries, s: Entries, direction: Direction, t: nat)
    requires
        tree_wf(mid, direction),
        untouched_from(mid, s, t),
        t < s.len(),
        s[t as int].1.children() == 0,
    ensures
        untouched_from(remove_spec(mid, s[t as int].0), s, t + 1),
{
    let a = mid.len() - (s.len() - t);
    lemma_untouched_head(mid, s, t);
    lemma_index_of(mid, a);
    let r = remove_spec(mid, s[t as int].0);
    assert(mid.skip(a).skip(1) =~= mid.skip(a + 1));
    assert(s.skip(t as int).skip(1) =~= s.skip(t as int + 1));
    if a == 0 {
        assert(mid[0].1 is Root);
        assert(r =~= mid.remove(0));
        assert(mid.remove(0) =~= mid.skip(1));
        assert(mid.skip(0) =~= mid);
        assert(r.skip(0) =~= r);
    } else {
        lemma_parent_position(mid, a);
        let j = index_of(mid, mid[a].1->parent);
        assert(r == unlink(mid, a, j));
        assert(r.skip(a) =~= mid.skip(a + 1));
    }
}

/// If the entry at `t` is not removable and the tree stays as it is, then
/// of the first `t + 1` entries exactly the removable ones are gone.
proof fn lemma_gone_kept<M: LabelModel>(
    model: &M,
    s: Entries,
    mid: Entries,
    next: Label,
    next_cost: Cost,
    t: nat,
)
    requires
        gone_exactly(model, s, mid, next, next_cost, t),
        t < s.len(),
        !removable(model, s, t as int, next, next_cost),
    ensures
        gone_exactly(model, s, mid, next, next_cost, t + 1),
{
    assert forall|i: int| 0 <= i < s.len() implies (has_label(mid, (#[trigger] s[i]).0) <==> !(i
        < t + 1 && removable(model, s, i, next, next_cost))) by {
        assert(has_label(mid, s[i].0) <==> !(i < t && removable(model, s, i, next, next_cost)));
    }
}

/// If the entry at `t` is removable and is removed, then of the first
/// `t + 1` entries exactly the removable ones are gone.
proof fn lemma_gone_removed<M: LabelModel>(
    model: &M,
    s: Entries,
    mid: Entries,
    direction: Direction,
    next: Label,
    next_cost: Cost,
    t: nat,
)
    requires
        tree_wf(s, direction),
        tree_wf(mid, direction),
        untouched_from(mid, s, t),
        gone_exactly(model, s, mid, next, next_cost, t),
        t < s.len(),
        removable(model, s, t as int, next, next_cost),
    ensures
        gone_exactly(model, s, remove_spec(mid, s[t as int].0), next, next_cost, t + 1),
{
    let a = mid.len() - (s.len() - t);
    lemma_untouched_head(mid, s, t);
    let r = remove_spec(mid, s[t as int].0);
    assert forall|i: int| 0 <= i < s.len() implies (has_label(r, (#[trigger] s[i]).0) <==> !(i < t
        + 1 && removable(model, s, i, next, next_cost))) by {
        assert(has_label(mid, s[i].0) <==> !(i < t && removable(model, s, i, next, next_cost)));
        lemma_removed_label(mid, direction, a, s[i].0);
        if i < t {
            assert(s[i].0 != s[t as int].0);
        } else if i > t {
            assert(s[t as int].0 != s[i].0);
        }
    }
}

/// After pruning went through the first `t` entries, the rest of the tree
/// is untouched, and of the first `t` entries exactly the removable ones
/// are gone.
proof fn lemma_swept_shape<M: LabelModel>(
    model: &M,
    s: Entries,
    direction: Direction,
    next: Label,
    next_cost: Cost,
    t: nat,
)
    requires
        tree_wf(s, direction),
        t <= s.len(),
    ensures
        tree_wf(swept(model, s, next, next_cost, t), direction),
        drawn_from(swept(model, s, next, next_cost, t), s),
        untouched_from(swept(model, s, next, next_cost, t), s, t),
        gone_exactly(model, s, swept(model, s, next, next_cost, t), next, next_cost, t),
    decreases t,
{
    let r = swept(model, s, next, next_cost, t);
    if t == 0 {
        lemma_drawn_refl(s);
        assert(s.skip(0) =~= s);
        assert forall|i: int| 0 <= i < s.len() implies has_label(s, (#[trigger] s[i]).0) by {
            lemma_index_of(s, i);
        }
    } else {
        let u = (t - 1) as nat;
        lemma_swept_shape(model, s, direction, next, next_cost, u);
        let mid = swept(model, s, next, next_cost, u);
        let label = s[u as int].0;
        lemma_untouched_head(mid, s, u);
        lemma_index_of(mid, mid.len() - (s.len() - u));
        lemma_remove_preserves_wf(mid, direction, label);
        lemma_remove_drawn(mid, direction, label);
        lemma_drawn_trans(remove_spec(mid, label), mid, s);
        if removable(model, s, u as int, next, next_cost) {
            assert(r == remove_spec(mid, label));
            lemma_untouched_removed(mid, s, direction, u);
            lemma_gone_removed(model, s, mid, direction, next, next_cost, u);
        } else {
            assert(r == mid);
            lemma_untouched_next(mid, s, u);
            lemma_gone_kept(model, s, mid, next, next_cost, u);
        }
    }
}

/// Removing the childless entry at `a` takes its label out of the tree and
/// leaves all other labels in.
proof fn lemma_removed_label(s: Entries, direction: Direction, a: int, label: Label)
    requires
        tree_wf(s, direction),
        0 <= a < s.len(),
        s[a].1.children() == 0,
    ensures
        has_label(remove_spec(s, s[a].0), label) <==> has_label(s, label) && label != s[a].0,
{
    lemma_index_of(s, a);
    let r = remove_spec(s, s[a].0);
    lemma_remove_preserves_wf(s, direction, s[a].0);
    if a == 0 {
        assert(s[0].1 is Root);
        lemma_remove_drawn(s, direction, s[0].0);
        if s.len() > 1 {
            lemma_parent_position(s, 1);
        }
        assert(r =~= s.remove(0));
        if has_label(s, label) && label != s[a].0 {
            let k = index_of(s, label);
            assert(r[k - 1].0 == label);
        }
        if has_label(r, label) {
            let k = index_of(r, label);
            assert(s[k + 1].0 == label);
            if label == s[0].0 {
                assert(s[0].0 != s[k + 1].0);
            }
        }
    } else {
        lemma_parent_position(s, a);
        let j = index_of(s, s[a].1->parent);
        assert(r == unlink(s, a, j));
        if has_label(s, label) && label != s[a].0 {
            let k = index_of(s, label);
            let k1 = if k < a { k } else { k - 1 };
            assert(r[k1].0 == label);
        }
        if has_label(r, label) {
            let k = index_of(r, label);
            let k0 = if k < a { k } else { k + 1 };
            assert(s[k0].0 == label);
            if label == s[a].0 {
                if k0 < a {
                    assert(s[k0].0 != s[a].0);
                } else {
                    assert(s[a].0 != s[k0].0);
                }
            }
        }
    }
}

/// What pruning removes: where the label model can compare, pruning for a
/// label removes from the tree exactly the labels that stand at the vertex
/// of the label, that the label dominates, and that have no children. All
/// other labels stay, with the nodes that they had but for the child
/// counts of the parents of what was removed.
pub proof fn lemma_prune_removes_exactly<M: LabelModel>(
    model: &M,
    s: Entries,
    direction: Direction,
    next: Label,
    next_cost: Cost,
)
    requires
        tree_wf(s, direction),
        !next.skips_pruning(),
        prune_outcome(model, s, next, next_cost) is Ok,
    ensures
        forall|label: Label|
            #[trigger] has_label(prune_outcome(model, s, next, next_cost)->Ok_0, label)
                <==> has_label(s, label) && !removable(
                model,
                s,
                index_of(s, label),
                next,
                next_cost,
            ),
        drawn_from(prune_outcome(model, s, next, next_cost)->Ok_0, s),
        tree_wf(prune_outcome(model, s, next, next_cost)->Ok_0, direction),
{
    let pruned = prune_outcome(model, s, next, next_cost)->Ok_0;
    lemma_plan_sweeps(model, s, direction, next, next_cost, s.len());
    assert(s.take(s.len() as int) =~= s);
    lemma_swept_shape(model, s, direction, next, next_cost, s.len());
    assert(pruned == swept(model, s, next, next_cost, s.len()));
    assert(gone_exactly(model, s, pruned, next, next_cost, s.len()));
    assert forall|label: Label| #[trigger]
        has_label(pruned, label) <==> has_label(s, label) && !removable(
            model,
            s,
            index_of(s, label),
            next,
            next_cost,
        ) by {
        if has_label(pruned, label) {
            let k = index_of(pruned, label);
            assert(drawn(pruned[k], s));
            let i = choose|i: int| 0 <= i < s.len() && same_entry(pruned[k], #[trigger] s[i]);
            lemma_index_of(s, i);
        }
        if has_label(s, label) {
            let i = index_of(s, label);
            assert(s[i].0 == label);
            assert(has_label(pruned, s[i].0) <==> !(i < s.len() && removable(
                model,
                s,
                i,
                next,
                next_cost,
            )));
        }
    }
}

} // verus!
