//! Errors.
use vstd::prelude::*;

use crate::ast::Aggregate;

verus! {

/// An error of evaluating an expression.
#[derive(Debug, PartialEq, Eq)]
pub enum EvaluateError {
    UnreachableEmptyContext,
    UnreachableEmptyAggregateValue(Aggregate),
    ValueNotFound(String),
    SchemalessProjectionForSubQuery,
    SchemalessProjectionForInSubQuery,
    MoreThanOneRowReturned,
    UnsupportedFunction(String),
    FunctionArgsLengthNotWithinRange {
        name: String,
        expected_minimum: usize,
        expected_maximum: usize,
        found: usize,
    },
}

/// An error of creating or dropping.
#[derive(Debug, PartialEq, Eq)]
pub enum AlterError {
    FunctionAlreadyExists(String),
}

/// An error. One that arose elsewhere is held by its number.
#[derive(Debug, PartialEq, Eq)]
pub enum Error {
    Evaluate(EvaluateError),
    Alter(AlterError),
    Other(u64),
}

} // verus!
