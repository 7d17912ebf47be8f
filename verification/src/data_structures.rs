//! The data structures behind the path-finding demo.
pub mod graph;
