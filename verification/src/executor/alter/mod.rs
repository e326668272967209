//! Creates and drops.
pub mod function;
pub mod laws;
