//! A synthetic network generator for the Erdos-Renyi random graph model.
//!
//! Given a target node count and an edge probability, the generator populates
//! an existing time-indexed graph with new nodes and, independently for each
//! ordered pair of distinct nodes, a directed edge. Generation is reproducible
//! when an explicit 32-byte seed is supplied, and entropy-seeded otherwise.

pub mod generator;
pub mod graph;
pub mod prob;
pub mod rng;
