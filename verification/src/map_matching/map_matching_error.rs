//! Failures of map matching.

use vstd::prelude::*;
use crate::search::search_error::SearchError;
use crate::search::search_tree::SearchTreeError;

verus! {

/// Why a trace could not be matched.
#[derive(Debug)]
pub enum MapMatchingError {
    /// The trace has no point.
    EmptyTrace,
    /// Backtracking a search tree failed.
    SearchTreeError(SearchTreeError),
    /// A shortest-path search failed.
    SearchError(SearchError),
    /// The matcher was set up or used in a way that it does not support.
    InternalError(String),
}

} // verus!
