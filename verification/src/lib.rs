//! Core search and map-matching machinery of a road-network routing engine.
//!
//! The crate holds a labelled shortest-path search over an edge-list graph
//! (search tree, frontier, Pareto pruning of dominated labels, A* driver),
//! an LCSS map matcher, the summaries of a route, and a weight-balanced
//! batch scheduler.
//!
//! Every quantity is a whole number in a fixed unit, so that each function
//! carries a contract that is checked statically: costs are in cost units,
//! distances in millimeters, similarities and scores in parts per million,
//! coordinates in units of 1e-7 degrees, and state variables in the
//! fixed-point scale of their state model. What needs floating point or a
//! spatial index, the geometry of the map, comes in through the
//! [`map_matching::map_model::MapModel`] that the caller supplies.

pub mod network;
pub mod cost;
pub mod state;
pub mod label;
pub mod graph;
pub mod search;
pub mod map_matching;
pub mod summary;
pub mod constraint;
pub mod route_output;
pub mod scheduler;
pub mod traversal_plugin;
pub mod generator;
pub mod traversal_builders;
