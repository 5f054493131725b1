//! The output plugin that reports routes and trees.

use vstd::prelude::*;
use crate::route_output::named_op;
use crate::summary::SummaryOp;

verus! {

/// The form in which a route or a tree is written out.
#[derive(Clone, Copy, Debug, PartialEq, Eq, Structural, Hash)]
pub enum TraversalOutputFormat {
    Wkt,
    Json,
    GeoJson,
    EdgeId,
}

/// Why an output plugin failed.
#[derive(Debug)]
pub enum OutputPluginError {
    OutputPluginFailed(String),
}

/// What is stored under the route key of a response.
#[derive(Clone, Copy, Debug, PartialEq, Eq, Structural)]
pub enum RouteShape {
    /// Nothing: there is no route.
    Null,
    /// The report of the one route.
    Single,
    /// A list of the reports of the routes.
    Many,
}

/// Reports the routes and trees of a search in the formats that it was
/// configured with.
#[derive(Debug)]
pub struct TraversalPlugin {
    pub route: Option<TraversalOutputFormat>,
    pub tree: Option<TraversalOutputFormat>,
    pub summary_ops: Vec<(String, SummaryOp)>,
    pub route_key: String,
    pub tree_key: String,
}

impl TraversalPlugin {
    /// A plugin that writes routes as `route` and trees as `tree`, where
    /// given, under the keys `route` and `tree` of a response.
    pub fn new(
        route: Option<TraversalOutputFormat>,
        tree: Option<TraversalOutputFormat>,
        summary_ops: Vec<(String, SummaryOp)>,
    ) -> (r: Result<TraversalPlugin, OutputPluginError>)
        ensures
            r matches Ok(plugin) && plugin.route == route && plugin.tree == tree
                && plugin.summary_ops == summary_ops && plugin.route_key@ == "route"@
                && plugin.tree_key@ == "tree"@,
    {
        Ok(
            TraversalPlugin {
                route,
                tree,
                summary_ops,
                route_key: "route".to_string(),
                tree_key: "tree".to_string(),
            },
        )
    }

    /// The summary operations for a query: what the query asks for, and for
    /// the names that it does not mention what the plugin was configured
    /// with.
    pub fn summary_ops_for(&self, query_ops: &Vec<(String, SummaryOp)>) -> (merged: Vec<
        (String, SummaryOp),
    >)
        ensures
            forall|name: Seq<char>|
                #[trigger] named_op(merged@, name) == match named_op(query_ops@, name) {
                    Some(op) => Some(op),
                    None => named_op(self.summary_ops@, name),
                },
    {
        let mut merged: Vec<(String, SummaryOp)> = Vec::new();
        let mut i: usize = 0;
        while i < query_ops.len()
            invariant
                i <= query_ops.len(),
                merged@.len() == i,
                forall|k: int|
                    0 <= k < i ==> (#[trigger] merged@[k]).0@ == query_ops@[k].0@ && merged@[k].1
                        == query_ops@[k].1,
            decreases query_ops.len() - i,
        {
            merged.push((query_ops[i].0.clone(), query_ops[i].1));
            i += 1;
        }
        let mut j: usize = 0;
        while j < self.summary_ops.len()
            invariant
                j <= self.summary_ops.len(),
                merged@.len() == query_ops@.len() + j,
                forall|k: int|
                    0 <= k < query_ops@.len() ==> (#[trigger] merged@[k]).0@ == query_ops@[k].0@
                        && merged@[k].1 == query_ops@[k].1,
                forall|k: int|
                    0 <= k < j ==> (#[trigger] merged@[query_ops@.len() + k]).0@
                        == self.summary_ops@[k].0@ && merged@[query_ops@.len() + k].1
                        == self.summary_ops@[k].1,
            decreases self.summary_ops.len() - j,
        {
            merged.push((self.summary_ops[j].0.clone(), self.summary_ops[j].1));
            j += 1;
        }
        proof {
            assert forall|name: Seq<char>|
                #[trigger] named_op(merged@, name) == match named_op(query_ops@, name) {
                    Some(op) => Some(op),
                    None => named_op(self.summary_ops@, name),
                } by {
                lemma_named_op_joined(merged@, query_ops@, self.summary_ops@, name);
            }
        }
        merged
    }

    /// What is stored under the route key for `routes` routes: nothing for
    /// none, the report for one, a list of reports for more.
    pub fn route_shape(routes: usize) -> (shape: RouteShape)
        ensures
            shape == if routes == 0 {
                RouteShape::Null
            } else if routes == 1 {
                RouteShape::Single
            } else {
                RouteShape::Many
            },
    {
        if routes == 0 {
            RouteShape::Null
        } else if routes == 1 {
            RouteShape::Single
        } else {
            RouteShape::Many
        }
    }
}

/// A list that holds the names and operations of `first` and then of
/// `second` names what `first` names, and else what `second` names.
proof fn lemma_named_op_joined(
    joined: Seq<(String, SummaryOp)>,
    first: Seq<(String, SummaryOp)>,
    second: Seq<(String, SummaryOp)>,
    name: Seq<char>,
)
    requires
        joined.len() == first.len() + second.len(),
        forall|k: int|
            0 <= k < first.len() ==> (#[trigger] joined[k]).0@ == first[k].0@ && joined[k].1
                == first[k].1,
        forall|k: int|
            0 <= k < second.len() ==> (#[trigger] joined[first.len() + k]).0@ == second[k].0@
                && joined[first.len() + k].1 == second[k].1,
    ensures
        named_op(joined, name) == match named_op(first, name) {
            Some(op) => Some(op),
            None => named_op(second, name),
        },
    decreases joined.len(),
{
    if first.len() > 0 {
        assert(joined[0].0@ == first[0].0@ && joined[0].1 == first[0].1);
        if joined[0].0@ != name {
            let j = joined.drop_first();
            let f = first.drop_first();
            assert forall|k: int| 0 <= k < f.len() implies (#[trigger] j[k]).0@ == f[k].0@ && j[k].1
                == f[k].1 by {
                assert(joined[k + 1].0@ == first[k + 1].0@ && joined[k + 1].1 == first[k + 1].1);
            }
            assert forall|k: int| 0 <= k < second.len() implies (#[trigger] j[f.len() + k]).0@
                == second[k].0@ && j[f.len() + k].1 == second[k].1 by {
                assert(joined[first.len() + k].0@ == second[k].0@ && joined[first.len() + k].1
                    == second[k].1);
            }
            lemma_named_op_joined(j, f, second, name);
        }
    } else if second.len() > 0 {
        assert(joined[first.len() + 0int].0@ == second[0].0@ && joined[first.len() + 0int].1
            == second[0].1);
        if joined[0].0@ != name {
            let j = joined.drop_first();
            let s2 = second.drop_first();
            assert forall|k: int| 0 <= k < s2.len() implies (#[trigger] j[first.len() + k]).0@
                == s2[k].0@ && j[first.len() + k].1 == s2[k].1 by {
                assert(joined[first.len() + (k + 1)].0@ == second[k + 1].0@ && joined[first.len()
                    + (k + 1)].1 == second[k + 1].1);
            }
            lemma_named_op_joined(j, first, s2, name);
        }
    }
}

} // verus!
