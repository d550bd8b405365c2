//! Procedural generation of 2D tile-based level skeletons.
//!
//! A seeded random walker carves a tunnel through a solid grid; a
//! deterministic post-processing pipeline then repairs structural
//! invariants (freeze buffers, open-area limits), places start and
//! finish rooms, synthesizes shortcut tunnels and removes isolated
//! freeze blobs. Everything is driven by an explicit seeded random
//! source, so one seed and one configuration always give one map.

pub mod block;
pub mod config;
pub mod error;
pub mod generator;
pub mod grid;
pub mod kernel;
pub mod position;
pub mod postprocess;
pub mod random;
pub mod walker;
