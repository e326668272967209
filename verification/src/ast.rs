//! The syntax tree that is evaluated.
//!
//! Parts of the tree that evaluation hands on unread (literals, operators, data types, queries)
//! are held by their number in the tables of whoever built the tree.
use vstd::prelude::*;

verus! {

/// A literal as it was parsed, by its number.
#[derive(Clone, Copy, Debug, PartialEq, Eq)]
pub struct AstLiteral(pub u64);

/// A data type, by its number.
#[derive(Clone, Copy, Debug, PartialEq, Eq)]
pub struct DataType(pub u64);

/// A query, by its number.
#[derive(Clone, Copy, Debug, PartialEq, Eq)]
pub struct Query(pub u64);

/// An aggregate expression, by its number.
#[derive(Clone, Copy, Debug, PartialEq, Eq)]
pub struct Aggregate(pub u64);

/// A binary operator, by its number.
#[derive(Clone, Copy, Debug, PartialEq, Eq)]
pub struct BinaryOperator(pub u64);

/// A unary operator, by its number.
#[derive(Clone, Copy, Debug, PartialEq, Eq)]
pub struct UnaryOperator(pub u64);

/// A field of a date or a time, by its number.
#[derive(Clone, Copy, Debug, PartialEq, Eq)]
pub struct DateTimeField(pub u64);

/// The side that `TRIM` works on, by its number.
#[derive(Clone, Copy, Debug, PartialEq, Eq)]
pub struct TrimWhereField(pub u64);

/// An expression.
#[derive(Debug, PartialEq, Eq)]
#[allow(inconsistent_fields)]
pub enum Expr {
    Literal(AstLiteral),
    TypedString { data_type: DataType, value: String },
    Identifier(String),
    Nested(Box<Expr>),
    CompoundIdentifier { alias: String, ident: String },
    Subquery(Query),
    BinaryOp { op: BinaryOperator, left: Box<Expr>, right: Box<Expr> },
    UnaryOp { op: UnaryOperator, expr: Box<Expr> },
    Aggregate(Aggregate),
    Function(Box<Function>),
    InList { expr: Box<Expr>, list: Vec<Expr>, negated: bool },
    InSubquery { expr: Box<Expr>, subquery: Query, negated: bool },
    Between { expr: Box<Expr>, negated: bool, low: Box<Expr>, high: Box<Expr> },
    Like { expr: Box<Expr>, negated: bool, pattern: Box<Expr> },
    ILike { expr: Box<Expr>, negated: bool, pattern: Box<Expr> },
    Exists { subquery: Query, negated: bool },
    IsNull(Box<Expr>),
    IsNotNull(Box<Expr>),
    Case {
        operand: Option<Box<Expr>>,
        when_then: Vec<(Expr, Expr)>,
        else_result: Option<Box<Expr>>,
    },
    ArrayIndex { obj: Box<Expr>, indexes: Vec<Expr> },
    Interval {
        expr: Box<Expr>,
        leading_field: Option<DateTimeField>,
        last_field: Option<DateTimeField>,
    },
}

/// A call of a function.
#[derive(Debug, PartialEq, Eq)]
#[allow(inconsistent_fields)]
pub enum Function {
    // text
    Concat(Vec<Expr>),
    Custom { name: String, exprs: Vec<Expr> },
    ConcatWs { separator: Expr, exprs: Vec<Expr> },
    IfNull { expr: Expr, then: Expr },
    Lower(Expr),
    Upper(Expr),
    Left { expr: Expr, size: Expr },
    Right { expr: Expr, size: Expr },
    Lpad { expr: Expr, size: Expr, fill: Option<Expr> },
    Rpad { expr: Expr, size: Expr, fill: Option<Expr> },
    Trim { expr: Expr, filter_chars: Option<Expr>, trim_where_field: Option<TrimWhereField> },
    Ltrim { expr: Expr, chars: Option<Expr> },
    Rtrim { expr: Expr, chars: Option<Expr> },
    Reverse(Expr),
    Repeat { expr: Expr, num: Expr },
    Substr { expr: Expr, start: Expr, count: Option<Expr> },
    Ascii(Expr),
    Chr(Expr),
    // float
    Abs(Expr),
    Sign(Expr),
    Sqrt(Expr),
    Power { expr: Expr, power: Expr },
    Ceil(Expr),
    Rand(Option<Expr>),
    Round(Expr),
    Floor(Expr),
    Radians(Expr),
    Degrees(Expr),
    Pi(),
    Exp(Expr),
    Log { antilog: Expr, base: Expr },
    Ln(Expr),
    Log2(Expr),
    Log10(Expr),
    Sin(Expr),
    Cos(Expr),
    Tan(Expr),
    Asin(Expr),
    Acos(Expr),
    Atan(Expr),
    // integer
    Div { dividend: Expr, divisor: Expr },
    Mod { dividend: Expr, divisor: Expr },
    Gcd { left: Expr, right: Expr },
    Lcm { left: Expr, right: Expr },
    // etc
    Unwrap { expr: Expr, selector: Expr },
    GenerateUuid(),
    Now(),
    Format { expr: Expr, format: Expr },
    ToDate { expr: Expr, format: Expr },
    ToTimestamp { expr: Expr, format: Expr },
    ToTime { expr: Expr, format: Expr },
    Position { from_expr: Expr, sub_expr: Expr },
    FindIdx { from_expr: Expr, sub_expr: Expr, start: Option<Expr> },
    Cast { expr: Expr, data_type: DataType },
    Extract { field: DateTimeField, expr: Expr },
    // list
    Append { expr: Expr, value: Expr },
}

/// A parameter of a custom function.
#[derive(Debug, PartialEq, Eq)]
pub struct OperateFunctionArg {
    pub name: String,
    pub data_type: DataType,
    pub default: Option<Expr>,
}

/// A function that was defined by `CREATE FUNCTION`.
#[derive(Debug, PartialEq, Eq)]
pub struct CustomFunction {
    pub func_name: String,
    pub args: Option<Vec<OperateFunctionArg>>,
    pub return_: Option<Expr>,
}

} // verus!
