//! Map matching by longest-common-subsequence similarity between a trace
//! and candidate paths.

pub mod compress;
pub mod cutting_points;
pub mod join;
pub mod lcss_map_matching;
pub mod lcss_map_matching_builder;
pub mod lcss_ops;
pub mod refinement;
pub mod scoring;
pub mod stationary;
pub mod trajectory_segment;
