//! Proofs about the model: that its operations keep the tree invariant.

pub mod lists;
pub mod frames;
pub mod ancestry;
pub mod moves;
pub mod operations;
