//! Pareto pruning of the search tree.
//!
//! Label states are maximized and cost is minimized. A new label dominates
//! a previous label at the same vertex when it is at least as good in both
//! and strictly better in one.

use vstd::prelude::*;
use crate::cost::Cost;
use crate::label::{Label, LabelModel, LabelModelError, LabelOrder};
use crate::network::VertexId;
use crate::search::direction::Direction;
use crate::search::edge_traversal::EdgeTraversal;
use crate::search::search_tree::{SearchTree, SearchTreeError};
use crate::search::tree_model::{
    covers, drawn_from, has_label, index_of, labels_at, lemma_drawn_refl, lemma_drawn_trans,
    lemma_remove_drawn, lemma_remove_keeps_cover, lemma_remove_preserves_wf, remove_spec,
    same_root, tree_wf, Entries,
};

verus! {

/// Whether a next label of cost `next_cost` dominates a previous label of
/// cost `prev_cost`, where `order` says how the previous label's state
/// stands to the next label's.
pub open spec fn dominance(order: LabelOrder, prev_cost: Cost, next_cost: Cost) -> bool {
    match order {
        LabelOrder::Less => next_cost.0 <= prev_cost.0,
        LabelOrder::Equal => next_cost.0 < prev_cost.0,
        LabelOrder::Greater => false,
    }
}

/// Whether, under `model`, the label `next` of cost `next_cost` dominates
/// the label `prev` of cost `prev_cost`.
pub open spec fn label_dominates<M: LabelModel>(
    model: &M,
    next: Label,
    next_cost: Cost,
    prev: Label,
    prev_cost: Cost,
) -> bool {
    model.order(prev, next) matches Ok(order) && dominance(order, prev_cost, next_cost)
}

/// The order of two integer ranks.
pub open spec fn rank_order(prev: int, next: int) -> LabelOrder {
    if prev < next {
        LabelOrder::Less
    } else if prev == next {
        LabelOrder::Equal
    } else {
        LabelOrder::Greater
    }
}

/// Whether `model` orders the pair (`prev`, `next`) as `rank` ranks them.
pub open spec fn ranked<M: LabelModel>(
    model: &M,
    rank: spec_fn(Label) -> int,
    prev: Label,
    next: Label,
) -> bool {
    model.order(prev, next) == Ok::<LabelOrder, LabelModelError>(
        rank_order(rank(prev), rank(next)),
    )
}

/// Dominance is irreflexive: where the model orders a label as equal to
/// itself, a label with its cost does not dominate itself.
pub proof fn lemma_dominance_irreflexive<M: LabelModel>(
    model: &M,
    rank: spec_fn(Label) -> int,
    a: Label,
    cost: Cost,
)
    requires
        ranked(model, rank, a, a),
    ensures
        !label_dominates(model, a, cost, a, cost),
{
}

/// Dominance is transitive where label states are totally ordered: if `a`
/// dominates `b` and `b` dominates `c`, and the model orders the three
/// labels by a rank, then `a` dominates `c`.
pub proof fn lemma_dominance_transitive<M: LabelModel>(
    model: &M,
    rank: spec_fn(Label) -> int,
    a: Label,
    a_cost: Cost,
    b: Label,
    b_cost: Cost,
    c: Label,
    c_cost: Cost,
)
    requires
        ranked(model, rank, b, a),
        ranked(model, rank, c, b),
        ranked(model, rank, c, a),
        label_dominates(model, a, a_cost, b, b_cost),
        label_dominates(model, b, b_cost, c, c_cost),
    ensures
        label_dominates(model, a, a_cost, c, c_cost),
{
}

/// Dominance is asymmetric where label states are totally ordered: two
/// labels never dominate each other.
pub proof fn lemma_dominance_asymmetric<M: LabelModel>(
    model: &M,
    rank: spec_fn(Label) -> int,
    a: Label,
    a_cost: Cost,
    b: Label,
    b_cost: Cost,
)
    requires
        ranked(model, rank, b, a),
        ranked(model, rank, a, b),
        label_dominates(model, a, a_cost, b, b_cost),
    ensures
        !label_dominates(model, b, b_cost, a, a_cost),
{
}

/// Decides dominance from the answer of a label model.
pub fn dominates(order: LabelOrder, prev_cost: Cost, next_cost: Cost) -> (b: bool)
    ensures
        b == dominance(order, prev_cost, next_cost),
{
    match order {
        LabelOrder::Less => next_cost.0 <= prev_cost.0,
        LabelOrder::Equal => next_cost.0 < prev_cost.0,
        LabelOrder::Greater => false,
    }
}

/// Tests whether the next label Pareto-dominates the previous label: the
/// answer of the label model, judged by [`dominance`]; the model's error
/// where it has no answer.
pub fn test_dominates<M: LabelModel>(
    prev_label: &Label,
    prev_cost: Cost,
    next_label: &Label,
    next_cost: Cost,
    label_model: &M,
) -> (r: Result<bool, LabelModelError>)
    ensures
        r == match label_model.order(*prev_label, *next_label) {
            Ok(order) => Ok::<bool, LabelModelError>(dominance(order, prev_cost, next_cost)),
            Err(e) => Err::<bool, LabelModelError>(e),
        },
{
    match label_model.compare(prev_label, next_label) {
        Ok(order) => Ok(dominates(order, prev_cost, next_cost)),
        Err(e) => Err(e),
    }
}

/// The objective cost that the tree records for `label`.
pub open spec fn recorded_cost(s: Entries, label: Label) -> Cost {
    s[index_of(s, label)].1.objective_cost()
}

/// Goes through `labels` in order and collects those that `next` dominates,
/// by the costs that `s` records; the error of the first label that the
/// model cannot compare with `next`, if there is one.
pub open spec fn prune_plan<M: LabelModel>(
    model: &M,
    s: Entries,
    labels: Seq<Label>,
    next: Label,
    next_cost: Cost,
) -> Result<Seq<Label>, LabelModelError>
    decreases labels.len(),
{
    if labels.len() == 0 {
        Ok(Seq::empty())
    } else {
        match prune_plan(model, s, labels.drop_last(), next, next_cost) {
            Err(e) => Err(e),
            Ok(doomed) => match model.order(labels.last(), next) {
                Err(e) => Err(e),
                Ok(order) => Ok(
                    if dominance(order, recorded_cost(s, labels.last()), next_cost) {
                        doomed.push(labels.last())
                    } else {
                        doomed
                    },
                ),
            },
        }
    }
}

/// The tree after one attempt to remove each of `labels`, in order. A label
/// whose node has children when its turn comes stays.
pub open spec fn remove_all(s: Entries, labels: Seq<Label>) -> Entries
    decreases labels.len(),
{
    if labels.len() == 0 {
        s
    } else {
        remove_spec(remove_all(s, labels.drop_last()), labels.last())
    }
}

/// What pruning for `next` makes of the tree `s`: nothing where `next` is of
/// a form that skips pruning; else the tree without the prunable labels at
/// the vertex of `next` that `next` dominates; the model's error where it
/// could not compare.
pub open spec fn prune_outcome<M: LabelModel>(
    model: &M,
    s: Entries,
    next: Label,
    next_cost: Cost,
) -> Result<Entries, LabelModelError> {
    if next.skips_pruning() {
        Ok(s)
    } else {
        match prune_plan(model, s, labels_at(s, next.vertex()), next, next_cost) {
            Ok(doomed) => Ok(remove_all(s, doomed)),
            Err(e) => Err(e),
        }
    }
}

/// Every label among the labels at a vertex is a key of the tree.
pub proof fn lemma_labels_at_sound(s: Entries, vertex: VertexId, k: int)
    requires
        0 <= k < labels_at(s, vertex).len(),
    ensures
        has_label(s, labels_at(s, vertex)[k]),
        labels_at(s, vertex)[k].vertex() == vertex,
    decreases s.len(),
{
    if s.len() > 0 {
        let t = labels_at(s.drop_last(), vertex);
        if k < t.len() {
            lemma_labels_at_sound(s.drop_last(), vertex, k);
            let m = index_of(s.drop_last(), t[k]);
            assert(s[m].0 == t[k]);
        } else {
            assert(s[s.len() - 1].0 == s.last().0);
        }
    }
}

/// Every label that a plan dooms is one of the labels that it went through.
pub proof fn lemma_plan_members<M: LabelModel>(
    model: &M,
    s: Entries,
    labels: Seq<Label>,
    next: Label,
    next_cost: Cost,
)
    requires
        prune_plan(model, s, labels, next, next_cost) is Ok,
    ensures
        forall|k: int|
            0 <= k < prune_plan(model, s, labels, next, next_cost)->Ok_0.len() ==> labels.contains(
                #[trigger] prune_plan(model, s, labels, next, next_cost)->Ok_0[k],
            ),
    decreases labels.len(),
{
    if labels.len() > 0 {
        lemma_plan_members(model, s, labels.drop_last(), next, next_cost);
        let before = prune_plan(model, s, labels.drop_last(), next, next_cost)->Ok_0;
        let now = prune_plan(model, s, labels, next, next_cost)->Ok_0;
        assert forall|k: int| 0 <= k < now.len() implies labels.contains(#[trigger] now[k]) by {
            if k < before.len() {
                assert(now[k] == before[k]);
                let j = choose|j: int|
                    0 <= j < labels.drop_last().len() && labels.drop_last()[j] == before[k];
                assert(labels[j] == before[k]);
            } else {
                assert(now[k] == labels[labels.len() - 1]);
            }
        }
    }
}

/// Removing labels that stand at one vertex leaves a search tree, and leaves
/// every other vertex covered.
pub proof fn lemma_remove_all_keeps(
    s: Entries,
    direction: Direction,
    labels: Seq<Label>,
    at: VertexId,
)
    requires
        tree_wf(s, direction),
        forall|k: int| 0 <= k < labels.len() ==> (#[trigger] labels[k]).vertex() == at,
    ensures
        tree_wf(remove_all(s, labels), direction),
        forall|v: VertexId| v != at && covers(s, v) ==> covers(remove_all(s, labels), v),
    decreases labels.len(),
{
    if labels.len() > 0 {
        assert forall|k: int| 0 <= k < labels.drop_last().len() implies (
        #[trigger] labels.drop_last()[k]).vertex() == at by {
            assert(labels.drop_last()[k] == labels[k]);
        }
        lemma_remove_all_keeps(s, direction, labels.drop_last(), at);
        let mid = remove_all(s, labels.drop_last());
        lemma_remove_preserves_wf(mid, direction, labels.last());
        assert(labels[labels.len() - 1].vertex() == at);
        assert forall|v: VertexId| v != at && covers(s, v) implies covers(
            remove_all(s, labels),
            v,
        ) by {
            lemma_remove_keeps_cover(mid, direction, labels.last(), v);
        }
    }
}

/// Removing labels leaves entries of the tree, and leaves the root where it
/// was unless the tree is left empty.
pub proof fn lemma_remove_all_drawn(s: Entries, direction: Direction, labels: Seq<Label>)
    requires
        tree_wf(s, direction),
    ensures
        tree_wf(remove_all(s, labels), direction),
        drawn_from(remove_all(s, labels), s),
        same_root(remove_all(s, labels), s),
    decreases labels.len(),
{
    if labels.len() > 0 {
        lemma_remove_all_drawn(s, direction, labels.drop_last());
        let mid = remove_all(s, labels.drop_last());
        lemma_remove_preserves_wf(mid, direction, labels.last());
        lemma_remove_drawn(mid, direction, labels.last());
        lemma_drawn_trans(remove_all(s, labels), mid, s);
    } else {
        lemma_drawn_refl(s);
    }
}

/// Pruning leaves entries of the tree, and leaves the root where it was
/// unless the tree is left empty.
pub proof fn lemma_prune_drawn<M: LabelModel>(
    model: &M,
    s: Entries,
    direction: Direction,
    next: Label,
    next_cost: Cost,
)
    requires
        tree_wf(s, direction),
        prune_outcome(model, s, next, next_cost) is Ok,
    ensures
        drawn_from(prune_outcome(model, s, next, next_cost)->Ok_0, s),
        same_root(prune_outcome(model, s, next, next_cost)->Ok_0, s),
{
    if next.skips_pruning() {
        lemma_drawn_refl(s);
    } else {
        let doomed = prune_plan(model, s, labels_at(s, next.vertex()), next, next_cost)->Ok_0;
        lemma_remove_all_drawn(s, direction, doomed);
    }
}

/// Pruning for a label leaves every vertex but its own covered.
pub proof fn lemma_prune_keeps_cover<M: LabelModel>(
    model: &M,
    s: Entries,
    direction: Direction,
    next: Label,
    next_cost: Cost,
)
    requires
        tree_wf(s, direction),
        prune_outcome(model, s, next, next_cost) is Ok,
    ensures
        forall|v: VertexId|
            v != next.vertex() && covers(s, v) ==> covers(
                prune_outcome(model, s, next, next_cost)->Ok_0,
                v,
            ),
{
    if !next.skips_pruning() {
        let labels = labels_at(s, next.vertex());
        let doomed = prune_plan(model, s, labels, next, next_cost)->Ok_0;
        lemma_plan_members(model, s, labels, next, next_cost);
        assert forall|k: int| 0 <= k < doomed.len() implies (#[trigger] doomed[k]).vertex()
            == next.vertex() by {
            let j = choose|j: int| 0 <= j < labels.len() && labels[j] == doomed[k];
            lemma_labels_at_sound(s, next.vertex(), j);
        }
        lemma_remove_all_keeps(s, direction, doomed, next.vertex());
    }
}

/// Prunes the labels that the new label Pareto-dominates.
///
/// The labels at the vertex of `next_label` are compared with it, oldest
/// first, by their recorded objective costs and the objective cost of
/// `traversal`. If the model fails on one of them, the tree is left as it
/// was and the first such failure is returned. Otherwise each dominated
/// label is removed if it is prunable when its turn comes; a dominated
/// label with children stays, so that no branch is orphaned. In all, the
/// labels that are removed are exactly the dominated labels that had no
/// children (see `pruning_law`).
pub fn prune_tree<M: LabelModel>(
    tree: &mut SearchTree,
    next_label: &Label,
    traversal: &EdgeTraversal,
    label_model: &M,
) -> (r: Result<(), SearchTreeError>)
    requires
        old(tree).wf(),
    ensures
        final(tree).wf(),
        final(tree).orientation() == old(tree).orientation(),
        match prune_outcome(
            label_model,
            old(tree).entries(),
            *next_label,
            traversal.cost.objective_cost,
        ) {
            Ok(pruned) => r is Ok && final(tree).entries() == pruned,
            Err(e) => r == Err::<(), SearchTreeError>(SearchTreeError::PruningError(e))
                && final(tree).entries() == old(tree).entries(),
        },
{
    if next_label.does_not_require_pruning() {
        return Ok(());
    }
    let next_cost = traversal.cost.objective_cost;
    let ghost s = tree.entries();
    let labels = tree.get_labels(*next_label.vertex_id());
    let mut doomed: Vec<Label> = Vec::new();
    let mut k: usize = 0;
    while k < labels.len()
        invariant
            k <= labels.len(),
            tree.wf(),
            s == tree.entries(),
            s == old(tree).entries(),
            tree.orientation() == old(tree).orientation(),
            !next_label.skips_pruning(),
            next_cost == traversal.cost.objective_cost,
            labels@ == labels_at(s, next_label.vertex()),
            prune_plan(label_model, s, labels@.take(k as int), *next_label, next_cost) == Ok::<
                Seq<Label>,
                LabelModelError,
            >(doomed@),
        decreases labels.len() - k,
    {
        let prev_label = labels[k];
        proof {
            lemma_labels_at_sound(s, next_label.vertex(), k as int);
            assert(labels@.take(k + 1).drop_last() =~= labels@.take(k as int));
            assert(labels@.take(k + 1).last() == prev_label);
        }
        let prev_cost: Cost = match tree.get(&prev_label) {
            Some(node) => match node.traversal_cost() {
                Some(cost) => cost.objective_cost,
                None => Cost::zero(),
            },
            None => Cost::zero(),
        };
        assert(prev_cost == recorded_cost(s, prev_label));
        match test_dominates(&prev_label, prev_cost, next_label, next_cost, label_model) {
            Ok(remove) => {
                if remove {
                    doomed.push(prev_label);
                }
            },
            Err(e) => {
                proof {
                    assert(label_model.order(prev_label, *next_label) == Err::<
                        LabelOrder,
                        LabelModelError,
                    >(e));
                    assert(prune_plan(
                        label_model,
                        s,
                        labels@.take(k + 1),
                        *next_label,
                        next_cost,
                    ) == Err::<Seq<Label>, LabelModelError>(e));
                    lemma_plan_fails(
                        label_model,
                        s,
                        labels@,
                        (k + 1) as int,
                        *next_label,
                        next_cost,
                    );
                }
                return Err(SearchTreeError::PruningError(e));
            },
        }
        k += 1;
    }
    assert(labels@.take(k as int) =~= labels@);
    let mut d: usize = 0;
    while d < doomed.len()
        invariant
            d <= doomed.len(),
            tree.wf(),
            tree.orientation() == old(tree).orientation(),
            tree.entries() == remove_all(s, doomed@.take(d as int)),
        decreases doomed.len() - d,
    {
        proof {
            assert(doomed@.take(d + 1).drop_last() =~= doomed@.take(d as int));
            assert(doomed@.take(d + 1).last() == doomed@[d as int]);
        }
        tree.remove(&doomed[d]);
        d += 1;
    }
    assert(doomed@.take(d as int) =~= doomed@);
    Ok(())
}

/// A plan that fails on a prefix of the labels fails alike on all of them.
proof fn lemma_plan_fails<M: LabelModel>(
    model: &M,
    s: Entries,
    labels: Seq<Label>,
    n: int,
    next: Label,
    next_cost: Cost,
)
    requires
        0 <= n <= labels.len(),
        prune_plan(model, s, labels.take(n), next, next_cost) is Err,
    ensures
        prune_plan(model, s, labels, next, next_cost) == prune_plan(
            model,
            s,
            labels.take(n),
            next,
            next_cost,
        ),
    decreases labels.len() - n,
{
    if n < labels.len() {
        assert(labels.take(n + 1).drop_last() =~= labels.take(n));
        assert(prune_plan(model, s, labels.take(n + 1), next, next_cost) == prune_plan(
            model,
            s,
            labels.take(n),
            next,
            next_cost,
        ));
        lemma_plan_fails(model, s, labels, n + 1, next, next_cost);
    } else {
        assert(labels.take(n) =~= labels);
    }
}

} // verus!
