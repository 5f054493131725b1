//! Labelled shortest-path search: tree, pruning and frontier.

pub mod direction;
pub mod edge_traversal;
pub mod search_tree_node;
pub mod tree_model;
pub mod search_tree;
pub mod search_pruning;
pub mod pruning_law;
pub mod priority_queue;
pub mod search_error;
pub mod frontier_instance;
pub mod models;
pub mod search_instance;
pub mod expansion;
pub mod a_star;
