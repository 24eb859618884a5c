//! Tasks: the dependency graph, the store and the tools over it.

pub mod cycle;
pub mod graph;
pub mod model;
pub mod spawn;
pub mod store;
pub mod tools;
