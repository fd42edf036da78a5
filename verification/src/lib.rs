//! Boolean gate trees: evaluation and the least number of gate changes
//! that brings the root to a wanted value.

pub mod builder;
pub mod cost;
pub mod flat;
pub mod gate;
pub mod input;
pub mod laws;
pub mod optimal;
pub mod rule;
pub mod tree;
