//! Map matching: fitting a GPS trace to a path through the road network.

pub mod distance;
pub mod map_matching_error;
pub mod map_matching_result;
pub mod map_matching_trace;
pub mod map_model;
pub mod lcss;
