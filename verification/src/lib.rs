//! Evaluates SQL expressions, and creates and drops the functions that they can call.
//!
//! The library decides; it never waits. Where it needs something of its host (a value computed,
//! a row read, a function stored) it hands out a question, and goes on from the answer.
pub mod ast;
pub mod context;
pub mod data;
pub mod executor;
pub mod result;
