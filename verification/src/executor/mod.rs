//! Executes the parts of a statement.
pub mod alter;
pub mod evaluate;
