//! The mathematical model of a search tree: a sequence of labelled nodes in
//! the order in which they were inserted, and what makes it a tree.

use vstd::prelude::*;
use crate::label::Label;
use crate::network::VertexId;
use crate::search::direction::Direction;
use crate::search::search_tree_node::SearchTreeNodeView;

verus! {

/// One labelled node.
pub type Entry = (Label, SearchTreeNodeView);

/// The labelled nodes of a tree, oldest first.
pub type Entries = Seq<Entry>;

/// The sum of `f` over the items of `s`.
pub open spec fn sum_by<A>(s: Seq<A>, f: spec_fn(A) -> nat) -> nat
    decreases s.len(),
{
    if s.len() == 0 {
        0
    } else {
        sum_by(s.drop_last(), f) + f(s.last())
    }
}

/// Counts an entry as 1 when it is a child of `label`.
pub open spec fn child_indicator(label: Label) -> spec_fn(Entry) -> nat {
    |e: Entry| if e.1.is_child_of(label) { 1nat } else { 0nat }
}

/// The child count that an entry records.
pub open spec fn recorded_children() -> spec_fn(Entry) -> nat {
    |e: Entry| e.1.children()
}

/// The number of entries whose parent is `label`.
pub open spec fn count_children(s: Entries, label: Label) -> nat {
    sum_by(s, child_indicator(label))
}

/// The sum of the child counts that the entries record.
pub open spec fn total_children(s: Entries) -> nat {
    sum_by(s, recorded_children())
}

/// Whether some entry is labelled `label`.
pub open spec fn has_label(s: Entries, label: Label) -> bool {
    exists|i: int| 0 <= i < s.len() && (#[trigger] s[i]).0 == label
}

/// The position of the entry labelled `label`, where there is one.
pub open spec fn index_of(s: Entries, label: Label) -> int {
    choose|i: int| 0 <= i < s.len() && (#[trigger] s[i]).0 == label
}

/// No label occurs twice.
pub open spec fn distinct_labels(s: Entries) -> bool {
    forall|i: int, j: int| 0 <= i < j < s.len() ==> (#[trigger] s[i]).0 != (#[trigger] s[j]).0
}

/// The entry at `i` is a branch whose parent stands before it.
pub open spec fn parent_before(s: Entries, i: int) -> bool {
    s[i].1 is Branch && has_label(s.take(i), s[i].1->parent)
}

/// The first entry, if any, is the one root; every later entry is a branch
/// whose parent stands before it.
pub open spec fn parents_precede(s: Entries) -> bool {
    &&& s.len() > 0 ==> s[0].1 is Root
    &&& forall|i: int| 0 < i < s.len() ==> #[trigger] parent_before(s, i)
}

/// The entry at `i` records exactly as many children as there are entries
/// whose parent it is.
pub open spec fn count_exact(s: Entries, i: int) -> bool {
    s[i].1.children() == count_children(s, s[i].0)
}

/// Every entry records exactly as many children as there are entries whose
/// parent it is.
pub open spec fn counts_exact(s: Entries) -> bool {
    forall|i: int| 0 <= i < s.len() ==> #[trigger] count_exact(s, i)
}

/// Every entry has the orientation `direction`.
pub open spec fn oriented(s: Entries, direction: Direction) -> bool {
    forall|i: int| 0 <= i < s.len() ==> (#[trigger] s[i]).1.orientation() == direction
}

/// What makes a sequence of labelled nodes a search tree.
pub open spec fn tree_wf(s: Entries, direction: Direction) -> bool {
    &&& distinct_labels(s)
    &&& parents_precede(s)
    &&& counts_exact(s)
    &&& oriented(s, direction)
    &&& s.len() > 0 ==> total_children(s) == s.len() - 1
}

/// The labels of the entries that stand at `vertex`, oldest first.
pub open spec fn labels_at(s: Entries, vertex: VertexId) -> Seq<Label>
    decreases s.len(),
{
    if s.len() == 0 {
        Seq::empty()
    } else if s.last().0.vertex() == vertex {
        labels_at(s.drop_last(), vertex).push(s.last().0)
    } else {
        labels_at(s.drop_last(), vertex)
    }
}

/// The entry at `i` with its child count replaced by `count`.
pub open spec fn recount(s: Entries, i: int, count: usize) -> Entries {
    s.update(i, (s[i].0, s[i].1.with_children(count)))
}

/// The tree after `child` was added with the node `node` under `parent`:
/// the parent records one child more, and the new entry stands at the end.
pub open spec fn insert_spec(
    s: Entries,
    parent: Label,
    node: SearchTreeNodeView,
    child: Label,
) -> Entries {
    let j = index_of(s, parent);
    recount(s, j, (s[j].1.children() + 1) as usize).push((child, node))
}

/// The tree after an attempt to remove `label`: a node without children
/// leaves, and its parent records one child fewer; any other attempt
/// changes nothing.
pub open spec fn remove_spec(s: Entries, label: Label) -> Entries {
    if has_label(s, label) && s[index_of(s, label)].1.children() == 0 {
        let i = index_of(s, label);
        match s[i].1 {
            SearchTreeNodeView::Root { .. } => s.remove(i),
            SearchTreeNodeView::Branch { parent, .. } => {
                let j = index_of(s, parent);
                recount(s, j, (s[j].1.children() - 1) as usize).remove(i)
            },
        }
    } else {
        s
    }
}

/// In a sequence without repeated labels, the entry labelled `s[i].0` is the
/// one at `i`.
pub proof fn lemma_index_of(s: Entries, i: int)
    requires
        distinct_labels(s),
        0 <= i < s.len(),
    ensures
        has_label(s, s[i].0),
        index_of(s, s[i].0) == i,
{
    let l = s[i].0;
    assert(has_label(s, l));
    let k = index_of(s, l);
    assert(0 <= k < s.len() && s[k].0 == l);
    if k < i {
        assert(s[k].0 != s[i].0);
    } else if i < k {
        assert(s[i].0 != s[k].0);
    }
}

/// Appending an item adds what it counts.
pub proof fn lemma_sum_push<A>(s: Seq<A>, f: spec_fn(A) -> nat, a: A)
    ensures
        sum_by(s.push(a), f) == sum_by(s, f) + f(a),
{
    assert(s.push(a).drop_last() =~= s);
}

/// Replacing an item exchanges what it counts.
pub proof fn lemma_sum_update<A>(s: Seq<A>, f: spec_fn(A) -> nat, i: int, a: A)
    requires
        0 <= i < s.len(),
    ensures
        sum_by(s.update(i, a), f) + f(s[i]) == sum_by(s, f) + f(a),
    decreases s.len(),
{
    if i == s.len() - 1 {
        assert(s.update(i, a).drop_last() =~= s.drop_last());
    } else {
        lemma_sum_update(s.drop_last(), f, i, a);
        assert(s.update(i, a).drop_last() =~= s.drop_last().update(i, a));
    }
}

/// Removing an item takes away what it counts.
pub proof fn lemma_sum_remove<A>(s: Seq<A>, f: spec_fn(A) -> nat, i: int)
    requires
        0 <= i < s.len(),
    ensures
        sum_by(s.remove(i), f) + f(s[i]) == sum_by(s, f),
    decreases s.len(),
{
    if i == s.len() - 1 {
        assert(s.remove(i) =~= s.drop_last());
    } else {
        lemma_sum_remove(s.drop_last(), f, i);
        assert(s.remove(i).drop_last() =~= s.drop_last().remove(i));
        assert(s.remove(i).last() == s.last());
    }
}

/// A sum is zero exactly when every item counts zero.
pub proof fn lemma_sum_zero<A>(s: Seq<A>, f: spec_fn(A) -> nat)
    ensures
        sum_by(s, f) == 0 <==> forall|i: int| 0 <= i < s.len() ==> f(#[trigger] s[i]) == 0,
    decreases s.len(),
{
    if s.len() > 0 {
        lemma_sum_zero(s.drop_last(), f);
        if sum_by(s, f) == 0 {
            assert forall|i: int| 0 <= i < s.len() implies f(#[trigger] s[i]) == 0 by {
                if i < s.len() - 1 {
                    assert(s.drop_last()[i] == s[i]);
                }
            }
        } else {
            if forall|i: int| 0 <= i < s.len() ==> f(#[trigger] s[i]) == 0 {
                assert forall|i: int| 0 <= i < s.drop_last().len() implies f(
                    #[trigger] s.drop_last()[i],
                ) == 0 by {
                    assert(s.drop_last()[i] == s[i]);
                }
                assert(f(s[s.len() - 1]) == 0);
            }
        }
    }
}

/// An item that counts at least one makes the sum at least one.
pub proof fn lemma_sum_positive<A>(s: Seq<A>, f: spec_fn(A) -> nat, i: int)
    requires
        0 <= i < s.len(),
        f(s[i]) >= 1,
    ensures
        sum_by(s, f) >= 1,
{
    lemma_sum_zero(s, f);
}


/// A sum of items that each count at most one is at most the length.
pub proof fn lemma_count_bounded(s: Entries, label: Label)
    ensures
        count_children(s, label) <= s.len(),
    decreases s.len(),
{
    if s.len() > 0 {
        lemma_count_bounded(s.drop_last(), label);
    }
}

/// Replacing a child count changes no parent link, so no count of children.
pub proof fn lemma_recount_keeps_counts(s: Entries, j: int, count: usize, label: Label)
    requires
        0 <= j < s.len(),
    ensures
        count_children(recount(s, j, count), label) == count_children(s, label),
{
    lemma_sum_update(s, child_indicator(label), j, (s[j].0, s[j].1.with_children(count)));
}

/// An entry without recorded children is nobody's parent.
pub proof fn lemma_childless(s: Entries, direction: Direction, i: int, k: int)
    requires
        tree_wf(s, direction),
        0 <= i < s.len(),
        0 <= k < s.len(),
        s[i].1.children() == 0,
    ensures
        !s[k].1.is_child_of(s[i].0),
{
    assert(count_exact(s, i));
    lemma_sum_zero(s, child_indicator(s[i].0));
    assert(child_indicator(s[i].0)(s[k]) == 0);
}

/// The position of a branch's parent is before the branch.
pub proof fn lemma_parent_position(s: Entries, i: int)
    requires
        distinct_labels(s),
        parents_precede(s),
        0 < i < s.len(),
    ensures
        s[i].1 is Branch,
        has_label(s, s[i].1->parent),
        0 <= index_of(s, s[i].1->parent) < i,
        s[index_of(s, s[i].1->parent)].0 == s[i].1->parent,
{
    let p = s[i].1->parent;
    let t = s.take(i);
    assert(parent_before(s, i));
    assert(has_label(t, p));
    let k = index_of(t, p);
    assert(0 <= k < i && t[k].0 == p);
    assert(s[k].0 == p);
    lemma_index_of(s, k);
}

/// Whether the entry at `k` is a child of `label`.
pub open spec fn is_child_at(s: Entries, k: int, label: Label) -> bool {
    s[k].1.is_child_of(label)
}

/// The tree after the childless branch at `i` left and its parent at `j` was
/// told.
pub open spec fn unlink(s: Entries, i: int, j: int) -> Entries {
    recount(s, j, (s[j].1.children() - 1) as usize).remove(i)
}

/// Taking an entry out leaves no label twice.
proof fn lemma_unlink_distinct(s: Entries, i: int, j: int)
    requires
        distinct_labels(s),
        0 <= j < s.len(),
        0 <= i < s.len(),
    ensures
        distinct_labels(unlink(s, i, j)),
{
    let r = unlink(s, i, j);
    assert forall|a: int, b: int| 0 <= a < b < r.len() implies (#[trigger] r[a]).0 != (
    #[trigger] r[b]).0 by {
        let a0 = if a < i { a } else { a + 1 };
        let b0 = if b < i { b } else { b + 1 };
        assert(r[a].0 == s[a0].0 && r[b].0 == s[b0].0);
    }
}

/// Taking a childless entry out leaves every parent before its children.
proof fn lemma_unlink_parents(s: Entries, i: int, j: int)
    requires
        distinct_labels(s),
        parents_precede(s),
        0 <= j < i < s.len(),
        forall|k: int| 0 <= k < s.len() ==> !#[trigger] is_child_at(s, k, s[i].0),
    ensures
        parents_precede(unlink(s, i, j)),
{
    let r = unlink(s, i, j);
    let u = recount(s, j, (s[j].1.children() - 1) as usize);
    assert forall|k: int| 0 < k < r.len() implies #[trigger] parent_before(r, k) by {
        let k0 = if k < i { k } else { k + 1 };
        assert(r[k].1 == u[k0].1);
        assert(parent_before(s, k0));
        let q = s[k0].1->parent;
        assert(r[k].1->parent == q);
        lemma_parent_position(s, k0);
        let m0 = index_of(s, q);
        assert(s[m0].0 == q);
        assert(is_child_at(s, k0, q));
        assert(!is_child_at(s, k0, s[i].0));
        assert(m0 != i);
        let m = if m0 < i { m0 } else { m0 - 1 };
        assert(r.take(k)[m].0 == q);
    }
    assert(r[0].1 == u[0].1);
    assert(s[0].1 is Root);
}

/// Taking a child out and telling its parent leaves every child count
/// exact.
pub proof fn lemma_unlink_counts(s: Entries, i: int, j: int)
    requires
        distinct_labels(s),
        counts_exact(s),
        0 <= j < s.len(),
        0 <= i < s.len(),
        i != j,
        s[i].1.is_child_of(s[j].0),
    ensures
        counts_exact(unlink(s, i, j)),
        s[j].1.children() >= 1,
{
    let p = s[j].0;
    lemma_sum_positive(s, child_indicator(p), i);
    assert(count_exact(s, j));
    let c = (s[j].1.children() - 1) as usize;
    let u = recount(s, j, c);
    let r = unlink(s, i, j);
    assert forall|k: int| 0 <= k < r.len() implies #[trigger] count_exact(r, k) by {
        let k0 = if k < i { k } else { k + 1 };
        let l = s[k0].0;
        assert(count_exact(s, k0));
        assert(r[k] == u[k0]);
        lemma_recount_keeps_counts(s, j, c, l);
        lemma_sum_remove(u, child_indicator(l), i);
        assert(u[i] == s[i]);
        if k0 != j {
            assert(l != p);
            assert(r[k].1 == s[k0].1);
        }
    }
}

/// Taking a childless entry out and telling its parent leaves the
/// orientation, and the child counts add up to one less than before.
proof fn lemma_unlink_rest(s: Entries, direction: Direction, i: int, j: int)
    requires
        oriented(s, direction),
        total_children(s) == s.len() - 1,
        0 <= j < s.len(),
        0 <= i < s.len(),
        i != j,
        s[i].1.children() == 0,
        s[j].1.children() >= 1,
    ensures
        oriented(unlink(s, i, j), direction),
        total_children(unlink(s, i, j)) == unlink(s, i, j).len() - 1,
{
    let c = (s[j].1.children() - 1) as usize;
    let u = recount(s, j, c);
    let r = unlink(s, i, j);
    assert forall|k: int| 0 <= k < r.len() implies (#[trigger] r[k]).1.orientation()
        == direction by {
        let k0 = if k < i { k } else { k + 1 };
        assert(r[k].1 == u[k0].1);
        assert(s[k0].1.orientation() == direction);
    }
    lemma_sum_update(s, recorded_children(), j, (s[j].0, s[j].1.with_children(c)));
    lemma_sum_remove(u, recorded_children(), i);
    assert(u[i] == s[i]);
}

/// Removing a childless node, and telling its parent, leaves a search tree.
pub proof fn lemma_remove_preserves_wf(s: Entries, direction: Direction, label: Label)
    requires
        tree_wf(s, direction),
    ensures
        tree_wf(remove_spec(s, label), direction),
{
    if has_label(s, label) && s[index_of(s, label)].1.children() == 0 {
        let i = index_of(s, label);
        lemma_index_of(s, i);
        assert forall|k: int| 0 <= k < s.len() implies !#[trigger] is_child_at(s, k, s[i].0) by {
            lemma_childless(s, direction, i, k);
        }
        if i == 0 {
            if s.len() > 1 {
                lemma_parent_position(s, 1);
                assert(is_child_at(s, 1, s[0].0));
            }
            assert(s.remove(i) =~= Seq::<Entry>::empty());
            assert(s[i].1 is Root);
        } else {
            lemma_parent_position(s, i);
            let j = index_of(s, s[i].1->parent);
            assert(s[j].0 == s[i].1->parent);
            assert(parent_before(s, i));
            assert(s[i].1.is_child_of(s[j].0));
            assert(remove_spec(s, label) == unlink(s, i, j));
            lemma_unlink_distinct(s, i, j);
            lemma_unlink_parents(s, i, j);
            lemma_unlink_counts(s, i, j);
            lemma_unlink_rest(s, direction, i, j);
        }
    }
}

/// Adding a childless branch under a node of the tree, and telling that
/// node, leaves a search tree.
pub proof fn lemma_insert_preserves_wf(
    s: Entries,
    direction: Direction,
    parent: Label,
    node: SearchTreeNodeView,
    child: Label,
)
    requires
        tree_wf(s, direction),
        has_label(s, parent),
        !has_label(s, child),
        node is Branch,
        node->parent == parent,
        node.children() == 0,
        node.orientation() == direction,
        s.len() < usize::MAX,
    ensures
        tree_wf(insert_spec(s, parent, node, child), direction),
        s[index_of(s, parent)].1.children() < usize::MAX,
{
    let j = index_of(s, parent);
    lemma_index_of(s, j);
    lemma_count_bounded(s, parent);
    assert(count_exact(s, j));
    let c = (s[j].1.children() + 1) as usize;
    let u = recount(s, j, c);
    let r = u.push((child, node));
    assert(r == insert_spec(s, parent, node, child));
    assert forall|a: int, b: int| 0 <= a < b < r.len() implies (#[trigger] r[a]).0 != (
    #[trigger] r[b]).0 by {
        assert(r[a].0 == s[a].0);
        if b < s.len() {
            assert(r[b].0 == s[b].0);
        }
    }
    assert forall|k: int| 0 < k < r.len() implies #[trigger] parent_before(r, k) by {
        if k < s.len() {
            assert(parent_before(s, k));
            let q = s[k].1->parent;
            lemma_parent_position(s, k);
            let m = index_of(s, q);
            assert(s[m].0 == q);
            assert(r.take(k)[m].0 == q);
        } else {
            assert(r.take(k)[j].0 == parent);
        }
    }
    if s.len() > 0 {
        assert(r[0].1 is Root);
    }
    assert forall|k: int| 0 <= k < r.len() implies #[trigger] count_exact(r, k) by {
        let l = r[k].0;
        lemma_recount_keeps_counts(s, j, c, l);
        lemma_sum_push(u, child_indicator(l), (child, node));
        if k < s.len() {
            assert(count_exact(s, k));
            assert(l == s[k].0);
            if k != j {
                lemma_index_of(s, k);
                assert(l != parent);
            }
        } else {
            assert(l == child);
            assert(child != parent);
            lemma_sum_zero(s, child_indicator(child));
            assert forall|m: int| 0 <= m < s.len() implies child_indicator(child)(
                #[trigger] s[m],
            ) == 0 by {
                if m > 0 {
                    lemma_parent_position(s, m);
                }
            }
        }
    }
    assert forall|k: int| 0 <= k < r.len() implies (#[trigger] r[k]).1.orientation()
        == direction by {
        if k < s.len() {
            assert(s[k].1.orientation() == direction);
        }
    }
    lemma_sum_update(s, recorded_children(), j, (s[j].0, s[j].1.with_children(c)));
    lemma_sum_push(u, recorded_children(), (child, node));
}


/// Whether some entry stands at `vertex`.
pub open spec fn covers(s: Entries, vertex: VertexId) -> bool {
    exists|i: int| 0 <= i < s.len() && (#[trigger] s[i]).0.vertex() == vertex
}

/// Removing a label leaves every other vertex covered.
pub proof fn lemma_remove_keeps_cover(s: Entries, direction: Direction, label: Label, vertex: VertexId)
    requires
        tree_wf(s, direction),
        covers(s, vertex),
        vertex != label.vertex(),
    ensures
        covers(remove_spec(s, label), vertex),
{
    let k = choose|k: int| 0 <= k < s.len() && (#[trigger] s[k]).0.vertex() == vertex;
    let r = remove_spec(s, label);
    if has_label(s, label) && s[index_of(s, label)].1.children() == 0 {
        let i = index_of(s, label);
        assert(k != i);
        let m = if k < i { k } else { k - 1 };
        if i == 0 {
            assert(s[i].1 is Root);
            assert(r[m].0 == s[k].0);
        } else {
            lemma_parent_position(s, i);
            assert(r[m].0 == s[k].0);
        }
    }
}

/// Adding a branch leaves every vertex covered and covers the vertex of the
/// new label.
pub proof fn lemma_insert_covers(
    s: Entries,
    parent: Label,
    node: SearchTreeNodeView,
    child: Label,
    vertex: VertexId,
)
    requires
        has_label(s, parent),
        covers(s, vertex) || vertex == child.vertex(),
    ensures
        covers(insert_spec(s, parent, node, child), vertex),
{
    let r = insert_spec(s, parent, node, child);
    if vertex == child.vertex() {
        assert(r[s.len() as int].0 == child);
    } else {
        let k = choose|k: int| 0 <= k < s.len() && (#[trigger] s[k]).0.vertex() == vertex;
        assert(r[k].0 == s[k].0);
    }
}


/// Whether two nodes are the same but for their child counts.
pub open spec fn same_node(a: SearchTreeNodeView, b: SearchTreeNodeView) -> bool {
    a.with_children(0) == b.with_children(0)
}

/// Whether two entries are the same but for their child counts.
pub open spec fn same_entry(a: Entry, b: Entry) -> bool {
    a.0 == b.0 && same_node(a.1, b.1)
}

/// Whether `e` is an entry of `s`, but for its child count.
pub open spec fn drawn(e: Entry, s: Entries) -> bool {
    exists|j: int| 0 <= j < s.len() && same_entry(e, #[trigger] s[j])
}

/// Whether every entry of `r` is an entry of `s`, but for its child count.
pub open spec fn drawn_from(r: Entries, s: Entries) -> bool {
    forall|k: int| 0 <= k < r.len() ==> drawn(#[trigger] r[k], s)
}

/// Whether `r` is empty or starts with the label that `s` starts with.
pub open spec fn same_root(r: Entries, s: Entries) -> bool {
    r.len() == 0 || (s.len() > 0 && r[0].0 == s[0].0)
}

/// Every entry is drawn from itself.
pub proof fn lemma_drawn_refl(s: Entries)
    ensures
        drawn_from(s, s),
{
    assert forall|k: int| 0 <= k < s.len() implies drawn(#[trigger] s[k], s) by {
        assert(same_entry(s[k], s[k]));
    }
}

/// What is drawn from what is drawn from a tree is drawn from the tree.
pub proof fn lemma_drawn_trans(a: Entries, b: Entries, c: Entries)
    requires
        drawn_from(a, b),
        drawn_from(b, c),
    ensures
        drawn_from(a, c),
{
    assert forall|k: int| 0 <= k < a.len() implies drawn(#[trigger] a[k], c) by {
        assert(drawn(a[k], b));
        let m = choose|m: int| 0 <= m < b.len() && same_entry(a[k], #[trigger] b[m]);
        assert(drawn(b[m], c));
        let j = choose|j: int| 0 <= j < c.len() && same_entry(b[m], #[trigger] c[j]);
        assert(same_entry(a[k], c[j]));
    }
}

/// Removing a label leaves entries of the tree, and leaves the root where
/// it was unless the tree is left empty.
pub proof fn lemma_remove_drawn(s: Entries, direction: Direction, label: Label)
    requires
        tree_wf(s, direction),
    ensures
        drawn_from(remove_spec(s, label), s),
        same_root(remove_spec(s, label), s),
{
    let r = remove_spec(s, label);
    if has_label(s, label) && s[index_of(s, label)].1.children() == 0 {
        let i = index_of(s, label);
        if i == 0 {
            lemma_remove_preserves_wf(s, direction, label);
            assert(s[i].1 is Root);
            if s.len() > 1 {
                lemma_parent_position(s, 1);
                assert(count_exact(s, 0));
                lemma_sum_positive(s, child_indicator(s[0].0), 1);
            }
            assert(r.len() == 0);
        } else {
            lemma_parent_position(s, i);
            let j = index_of(s, s[i].1->parent);
            assert(r == unlink(s, i, j));
            assert forall|k: int| 0 <= k < r.len() implies drawn(#[trigger] r[k], s) by {
                let k0 = if k < i { k } else { k + 1 };
                assert(same_entry(r[k], s[k0]));
            }
            assert(r[0].0 == s[0].0);
        }
    } else {
        lemma_drawn_refl(s);
    }
}

/// Whether every entry of `r` is `added` or an entry of `s`, but for its
/// child count.
pub open spec fn grown_from(r: Entries, s: Entries, added: Entry) -> bool {
    forall|k: int| 0 <= k < r.len() ==> (#[trigger] r[k]) == added || drawn(r[k], s)
}

/// Adding a branch to what is drawn from a tree gives the tree grown by
/// the branch.
pub proof fn lemma_insert_grown(
    s: Entries,
    pruned: Entries,
    parent: Label,
    node: SearchTreeNodeView,
    child: Label,
)
    requires
        drawn_from(pruned, s),
        same_root(pruned, s),
        has_label(pruned, parent),
    ensures
        grown_from(insert_spec(pruned, parent, node, child), s, (child, node)),
        same_root(insert_spec(pruned, parent, node, child), s),
        insert_spec(pruned, parent, node, child).len() > 0,
{
    let r = insert_spec(pruned, parent, node, child);
    assert forall|k: int| 0 <= k < r.len() implies (#[trigger] r[k]) == (child, node) || drawn(
        r[k],
        s,
    ) by {
        if k < pruned.len() {
            assert(drawn(pruned[k], s));
            let j = choose|j: int| 0 <= j < s.len() && same_entry(pruned[k], #[trigger] s[j]);
            assert(same_entry(r[k], s[j]));
        }
    }
    assert(r[0].0 == pruned[0].0);
}

} // verus!
