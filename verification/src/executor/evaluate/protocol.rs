//! What evaluation asks of its host, and what the host answers.
use std::rc::Rc;

use chrono::NaiveDateTime;
use vstd::prelude::*;

use crate::ast::{
    AstLiteral, BinaryOperator, CustomFunction, DataType, DateTimeField, Function, Query,
    UnaryOperator,
};
use crate::context::{ContextView, Row, RowContext};
use crate::data::{Evaluated, Interval, Value};
use crate::executor::evaluate::operands::Routine;
use crate::result::Error;

verus! {

/// The rows that a query yields one by one, by their number.
#[derive(Clone, Copy, Debug, PartialEq, Eq)]
pub struct Cursor(pub u64);

/// A question to the host.
#[derive(Debug, PartialEq, Eq)]
#[allow(inconsistent_fields)]
pub enum Request<'a> {
    /// The value of a literal. Answered by `Evaluated`.
    Literal(AstLiteral),
    /// The value of a string that is to be of a data type. Answered by `Evaluated`.
    TypedString { data_type: DataType, value: &'a String },
    /// What the context holds under a name. Answered by `Found`.
    GetValue { context: Rc<RowContext>, ident: &'a String },
    /// What the context holds under a name of a table. Answered by `Found`.
    GetAliasValue { context: Rc<RowContext>, alias: &'a String, ident: &'a String },
    /// The result of a binary operator. Answered by `Evaluated`.
    BinaryOp { op: BinaryOperator, left: Evaluated, right: Evaluated },
    /// The result of a unary operator. Answered by `Evaluated`.
    UnaryOp { op: UnaryOperator, operand: Evaluated },
    /// Whether a value lies between two others. Answered by `Evaluated`.
    Between { target: Evaluated, negated: bool, low: Evaluated, high: Evaluated },
    /// Whether a value matches a pattern. Answered by `Evaluated`.
    Like { target: Evaluated, pattern: Evaluated, case_sensitive: bool },
    /// The element of a value at the indexes. Answered by `Evaluated`.
    ArrayIndex { obj: Evaluated, indexes: Vec<Evaluated> },
    /// The result of a function call, the call itself telling its name. Answered by
    /// `Evaluated`.
    Call { func: &'a Function, routine: Routine, operands: Vec<Option<Evaluated>> },
    /// Whether the left equals the right. Answered by `Equal`.
    Compare { left: Evaluated, right: Evaluated },
    /// The value that something evaluated comes to. Answered by `Value`.
    Convert(Evaluated),
    /// The text of a value. Answered by `Text`.
    Print(Value),
    /// The interval that a text denotes. Answered by `Interval`.
    ParseInterval {
        text: String,
        leading_field: Option<DateTimeField>,
        last_field: Option<DateTimeField>,
    },
    /// Begins a query. Answered by `Cursor`.
    Select { query: Query, context: Option<Rc<RowContext>> },
    /// The next row of a query. Answered by `Row`.
    NextRow(Cursor),
    /// Looks a custom function up. Answered by `Function`.
    FetchFunction(&'a String),
    /// Checks that a value is of a data type. Answered by `Checked`.
    ValidateType { value: Value, data_type: DataType },
    /// Checks that a value may be `NULL`, where it is. Answered by `Checked`.
    ValidateNull { value: Value, nullable: bool },
    /// The time of day. Answered by `Instant`.
    Now,
}

/// What a question is made of.
#[allow(inconsistent_fields)]
pub enum RequestView {
    Literal(AstLiteral),
    TypedString { data_type: DataType, value: Seq<char> },
    GetValue { context: ContextView, ident: Seq<char> },
    GetAliasValue { context: ContextView, alias: Seq<char>, ident: Seq<char> },
    BinaryOp { op: BinaryOperator, left: Evaluated, right: Evaluated },
    UnaryOp { op: UnaryOperator, operand: Evaluated },
    Between { target: Evaluated, negated: bool, low: Evaluated, high: Evaluated },
    Like { target: Evaluated, pattern: Evaluated, case_sensitive: bool },
    ArrayIndex { obj: Evaluated, indexes: Seq<Evaluated> },
    Call { func: Function, routine: Routine, operands: Seq<Option<Evaluated>> },
    Compare { left: Evaluated, right: Evaluated },
    Convert(Evaluated),
    Print(Value),
    ParseInterval {
        text: Seq<char>,
        leading_field: Option<DateTimeField>,
        last_field: Option<DateTimeField>,
    },
    Select { query: Query, context: Option<ContextView> },
    NextRow(Cursor),
    FetchFunction(Seq<char>),
    ValidateType { value: Value, data_type: DataType },
    ValidateNull { value: Value, nullable: bool },
    Now,
}

/// What a context that may be missing is made of.
pub open spec fn context_view(context: Option<Rc<RowContext>>) -> Option<ContextView> {
    match context {
        Some(context) => Some((*context)@),
        None => None,
    }
}

impl<'a> View for Request<'a> {
    type V = RequestView;

    open spec fn view(&self) -> RequestView {
        match *self {
            Request::Literal(literal) => RequestView::Literal(literal),
            Request::TypedString { data_type, value } =>
                RequestView::TypedString { data_type, value: value@ },
            Request::GetValue { context, ident } =>
                RequestView::GetValue { context: (*context)@, ident: ident@ },
            Request::GetAliasValue { context, alias, ident } =>
                RequestView::GetAliasValue {
                    context: (*context)@,
                    alias: alias@,
                    ident: ident@,
                },
            Request::BinaryOp { op, left, right } => RequestView::BinaryOp { op, left, right },
            Request::UnaryOp { op, operand } => RequestView::UnaryOp { op, operand },
            Request::Between { target, negated, low, high } =>
                RequestView::Between { target, negated, low, high },
            Request::Like { target, pattern, case_sensitive } =>
                RequestView::Like { target, pattern, case_sensitive },
            Request::ArrayIndex { obj, indexes } =>
                RequestView::ArrayIndex { obj, indexes: indexes@ },
            Request::Call { func, routine, operands } =>
                RequestView::Call { func: *func, routine, operands: operands@ },
            Request::Compare { left, right } => RequestView::Compare { left, right },
            Request::Convert(evaluated) => RequestView::Convert(evaluated),
            Request::Print(value) => RequestView::Print(value),
            Request::ParseInterval { text, leading_field, last_field } =>
                RequestView::ParseInterval { text: text@, leading_field, last_field },
            Request::Select { query, context } =>
                RequestView::Select { query, context: context_view(context) },
            Request::NextRow(cursor) => RequestView::NextRow(cursor),
            Request::FetchFunction(name) => RequestView::FetchFunction(name@),
            Request::ValidateType { value, data_type } =>
                RequestView::ValidateType { value, data_type },
            Request::ValidateNull { value, nullable } =>
                RequestView::ValidateNull { value, nullable },
            Request::Now => RequestView::Now,
        }
    }
}

/// An answer of the host.
#[derive(Debug, PartialEq, Eq)]
pub enum Answer<'a> {
    Evaluated(Result<Evaluated, Error>),
    Found(Option<Value>),
    Equal(bool),
    Value(Result<Value, Error>),
    Text(String),
    Interval(Result<Interval, Error>),
    Cursor(Result<Cursor, Error>),
    Row(Result<Option<Row>, Error>),
    Function(Result<Option<&'a CustomFunction>, Error>),
    Checked(Result<(), Error>),
    Instant(NaiveDateTime),
}

/// Why an evaluation can neither go on nor end.
#[derive(Clone, Copy, Debug, PartialEq, Eq)]
pub enum Fault {
    /// The answer is not one to the question.
    Misfit,
    /// An argument or a default of a custom function comes to no value.
    Inconvertible,
    /// More parameters of a custom function go without an argument than there are defaults.
    MissingDefault,
}

} // verus!
