//! What evaluating an expression comes to, given what the host has answered so far.
//!
//! Every function here takes the host's answers as a sequence, the `log`, and the position `at`
//! of the first one that was not used yet. It says which question comes next, where the answers
//! run out, or what the result is and how many answers went into it.
//!
//! `floor` is the position at which the innermost call of a custom function had its arguments
//! evaluated. The defaults and the body that the function brings in are no part of the
//! expression, so that it is the rising of the floor, which the log bounds, that makes every
//! evaluation come to an end.
use vstd::prelude::*;

use crate::ast::{
    Aggregate, CustomFunction, DateTimeField, Expr, Function, OperateFunctionArg, Query,
};
use crate::context::{ContextView, Row};
use crate::data::{Evaluated, Literal, Value};
use crate::executor::evaluate::operands::{
    boxed_size, deferred_size, lemma_item_size, lemma_operand_size, lemma_pair_size,
    lemma_size, list_size, operands, routine, size, slot_size,
};
use crate::executor::evaluate::protocol::{Answer, Cursor, Fault, RequestView};
use crate::result::{Error, EvaluateError};

verus! {

/// What an evaluation comes to.
pub enum Outcome {
    /// The answers ran out: this is the next question.
    Asks(RequestView),
    /// The result, and the position of the first answer that did not go into it.
    Returns(Result<Evaluated, Error>, nat),
    /// The answers are none that an evaluation can go on from.
    Faults(Fault),
}

/// What an expression is evaluated in.
pub struct Scope {
    /// What identifiers are found in.
    pub context: Option<ContextView>,
    /// The values of the aggregates.
    pub aggregated: Option<Map<u64, Value>>,
}

/// A result.
pub open spec fn give(evaluated: Evaluated, at: nat) -> Outcome {
    Outcome::Returns(Ok(evaluated), at)
}

/// A value as the result.
pub open spec fn give_value(value: Value, at: nat) -> Outcome {
    give(Evaluated::Value(value), at)
}

/// A truth value as the result.
pub open spec fn give_bool(b: bool, at: nat) -> Outcome {
    give_value(Value::Bool(b), at)
}

/// An error as the result.
pub open spec fn fail(error: EvaluateError, at: nat) -> Outcome {
    Outcome::Returns(Err(Error::Evaluate(error)), at)
}

/// An error that came with an answer as the result.
pub open spec fn pass(error: Error, at: nat) -> Outcome {
    Outcome::Returns(Err(error), at)
}

/// An answer that does not fit its question.
pub open spec fn misfit() -> Outcome {
    Outcome::Faults(Fault::Misfit)
}

/// A question whose answer is the result.
pub open spec fn ask_evaluated(request: RequestView, log: Seq<Answer>, at: nat) -> Outcome {
    if at < log.len() {
        match log[at as int] {
            Answer::Evaluated(result) => Outcome::Returns(result, at + 1),
            _ => misfit(),
        }
    } else {
        Outcome::Asks(request)
    }
}

/// Looks an identifier up: what is found is the result.
pub open spec fn look_up(
    request: RequestView,
    ident: String,
    log: Seq<Answer>,
    at: nat,
) -> Outcome {
    if at < log.len() {
        match log[at as int] {
            Answer::Found(Some(value)) => give_value(value, at + 1),
            Answer::Found(None) => fail(EvaluateError::ValueNotFound(ident), at + 1),
            _ => misfit(),
        }
    } else {
        Outcome::Asks(request)
    }
}

/// The value of an aggregate, which must have been computed before.
pub open spec fn look_up_aggregate(
    aggregated: Option<Map<u64, Value>>,
    aggregate: Aggregate,
    at: nat,
) -> Outcome {
    match aggregated {
        Some(values) if values.contains_key(aggregate.0) => give_value(values[aggregate.0], at),
        _ => fail(EvaluateError::UnreachableEmptyAggregateValue(aggregate), at),
    }
}

/// `LIKE` gives what matching the pattern gives. `NOT LIKE` gives whether that is `FALSE`.
pub open spec fn match_pattern(
    target: Evaluated,
    pattern: Evaluated,
    case_sensitive: bool,
    negated: bool,
    log: Seq<Answer>,
    at: nat,
) -> Outcome {
    let request = RequestView::Like { target, pattern, case_sensitive };
    if !negated {
        ask_evaluated(request, log, at)
    } else if at < log.len() {
        match log[at as int] {
            Answer::Evaluated(Ok(matched)) => compare_to_false(matched, log, at + 1),
            Answer::Evaluated(Err(error)) => pass(error, at + 1),
            _ => misfit(),
        }
    } else {
        Outcome::Asks(request)
    }
}

/// Whether something is `FALSE`.
pub open spec fn compare_to_false(evaluated: Evaluated, log: Seq<Answer>, at: nat) -> Outcome {
    if at < log.len() {
        match log[at as int] {
            Answer::Equal(equal) => give_bool(equal, at + 1),
            _ => misfit(),
        }
    } else {
        Outcome::Asks(
            RequestView::Compare {
                left: evaluated,
                right: Evaluated::Literal(Literal::Boolean(false)),
            },
        )
    }
}

/// The interval that something evaluated denotes, by way of its value and that value's text.
pub open spec fn convert_interval(
    evaluated: Evaluated,
    leading_field: Option<DateTimeField>,
    last_field: Option<DateTimeField>,
    log: Seq<Answer>,
    at: nat,
) -> Outcome {
    if at < log.len() {
        match log[at as int] {
            Answer::Value(Ok(value)) =>
                print_interval(value, leading_field, last_field, log, at + 1),
            Answer::Value(Err(error)) => pass(error, at + 1),
            _ => misfit(),
        }
    } else {
        Outcome::Asks(RequestView::Convert(evaluated))
    }
}

/// The interval that the text of a value denotes.
pub open spec fn print_interval(
    value: Value,
    leading_field: Option<DateTimeField>,
    last_field: Option<DateTimeField>,
    log: Seq<Answer>,
    at: nat,
) -> Outcome {
    if at < log.len() {
        match log[at as int] {
            Answer::Text(text) => parse_interval(text@, leading_field, last_field, log, at + 1),
            _ => misfit(),
        }
    } else {
        Outcome::Asks(RequestView::Print(value))
    }
}

/// The interval that a text denotes.
pub open spec fn parse_interval(
    text: Seq<char>,
    leading_field: Option<DateTimeField>,
    last_field: Option<DateTimeField>,
    log: Seq<Answer>,
    at: nat,
) -> Outcome {
    if at < log.len() {
        match log[at as int] {
            Answer::Interval(Ok(interval)) => give_value(Value::Interval(interval), at + 1),
            Answer::Interval(Err(error)) => pass(error, at + 1),
            _ => misfit(),
        }
    } else {
        Outcome::Asks(RequestView::ParseInterval { text, leading_field, last_field })
    }
}

/// The time of day.
pub open spec fn read_clock(log: Seq<Answer>, at: nat) -> Outcome {
    if at < log.len() {
        match log[at as int] {
            Answer::Instant(now) => give_value(Value::Timestamp(now), at + 1),
            _ => misfit(),
        }
    } else {
        Outcome::Asks(RequestView::Now)
    }
}

/// The first value of a row, or `NULL` where the row has none.
pub open spec fn first_value(values: Seq<Value>) -> Value {
    if values.len() > 0 {
        values[0]
    } else {
        Value::Null
    }
}

/// What a query is for.
#[derive(Clone, Copy)]
pub enum Purpose {
    /// Its only row's first value is the result.
    Scalar,
    /// Whether some row's first value equals the target is the result.
    Search { target: Evaluated, negated: bool },
    /// Whether it has a row is the result.
    Probe { negated: bool },
}

/// Runs a query for a purpose.
pub open spec fn run_query(
    query: Query,
    context: Option<ContextView>,
    purpose: Purpose,
    log: Seq<Answer>,
    at: nat,
) -> Outcome {
    if at < log.len() {
        match log[at as int] {
            Answer::Cursor(Ok(cursor)) => match purpose {
                Purpose::Scalar => read_only_row(cursor, log, at + 1),
                Purpose::Search { target, negated } =>
                    search_rows(cursor, target, negated, log, at + 1),
                Purpose::Probe { negated } => probe_rows(cursor, negated, log, at + 1),
            },
            Answer::Cursor(Err(error)) => pass(error, at + 1),
            _ => misfit(),
        }
    } else {
        Outcome::Asks(RequestView::Select { query, context })
    }
}

/// The first value of the only row. It is `NULL` where there is no row.
pub open spec fn read_only_row(cursor: Cursor, log: Seq<Answer>, at: nat) -> Outcome {
    if at < log.len() {
        match log[at as int] {
            Answer::Row(Ok(Some(Row::Vec { values }))) =>
                read_no_more_rows(cursor, first_value(values@), log, at + 1),
            Answer::Row(Ok(Some(Row::Schemaless(_)))) =>
                fail(EvaluateError::SchemalessProjectionForSubQuery, at + 1),
            Answer::Row(Ok(None)) => give_value(Value::Null, at + 1),
            Answer::Row(Err(error)) => pass(error, at + 1),
            _ => misfit(),
        }
    } else {
        Outcome::Asks(RequestView::NextRow(cursor))
    }
}

/// A value that is the result unless there is one more row.
pub open spec fn read_no_more_rows(
    cursor: Cursor,
    value: Value,
    log: Seq<Answer>,
    at: nat,
) -> Outcome {
    if at < log.len() {
        match log[at as int] {
            Answer::Row(Ok(Some(Row::Vec { .. }))) =>
                fail(EvaluateError::MoreThanOneRowReturned, at + 1),
            Answer::Row(Ok(Some(Row::Schemaless(_)))) =>
                fail(EvaluateError::SchemalessProjectionForSubQuery, at + 1),
            Answer::Row(Ok(None)) => give_value(value, at + 1),
            Answer::Row(Err(error)) => pass(error, at + 1),
            _ => misfit(),
        }
    } else {
        Outcome::Asks(RequestView::NextRow(cursor))
    }
}

/// Whether some row's first value equals the target. No row after that one is read.
pub open spec fn search_rows(
    cursor: Cursor,
    target: Evaluated,
    negated: bool,
    log: Seq<Answer>,
    at: nat,
) -> Outcome
    decreases log.len() - at, 1int,
{
    if at < log.len() {
        match log[at as int] {
            Answer::Row(Ok(Some(Row::Vec { values }))) =>
                compare_row(cursor, target, negated, first_value(values@), log, at + 1),
            Answer::Row(Ok(Some(Row::Schemaless(_)))) =>
                fail(EvaluateError::SchemalessProjectionForInSubQuery, at + 1),
            Answer::Row(Ok(None)) => give_bool(negated, at + 1),
            Answer::Row(Err(error)) => pass(error, at + 1),
            _ => misfit(),
        }
    } else {
        Outcome::Asks(RequestView::NextRow(cursor))
    }
}

/// Whether the row at hand, or some row after it, equals the target.
pub open spec fn compare_row(
    cursor: Cursor,
    target: Evaluated,
    negated: bool,
    value: Value,
    log: Seq<Answer>,
    at: nat,
) -> Outcome
    decreases log.len() - at, 0int,
{
    if at < log.len() {
        match log[at as int] {
            Answer::Equal(equal) => if equal {
                give_bool(!negated, at + 1)
            } else {
                search_rows(cursor, target, negated, log, at + 1)
            },
            _ => misfit(),
        }
    } else {
        Outcome::Asks(RequestView::Compare { left: Evaluated::Value(value), right: target })
    }
}

/// Whether there is a row, of whatever kind.
pub open spec fn probe_rows(cursor: Cursor, negated: bool, log: Seq<Answer>, at: nat) -> Outcome {
    if at < log.len() {
        match log[at as int] {
            Answer::Row(Ok(row)) => give_bool((row is Some) != negated, at + 1),
            Answer::Row(Err(error)) => pass(error, at + 1),
            _ => misfit(),
        }
    } else {
        Outcome::Asks(RequestView::NextRow(cursor))
    }
}

/// The parameters of a custom function.
pub open spec fn parameters(function: CustomFunction) -> Seq<OperateFunctionArg> {
    match function.args {
        Some(args) => args@,
        None => Seq::empty(),
    }
}

/// The defaults of those parameters that have one.
pub open spec fn defaults(parameters: Seq<OperateFunctionArg>) -> Seq<Expr>
    decreases parameters.len(),
{
    if parameters.len() == 0 {
        Seq::empty()
    } else {
        let before = defaults(parameters.drop_last());
        match parameters.last().default {
            Some(default) => before.push(default),
            None => before,
        }
    }
}

/// The size of the expressions that a custom function brings in.
pub open spec fn function_body_size(function: CustomFunction) -> nat {
    1 + list_size(defaults(parameters(function))) + slot_size(function.return_)
}

/// How far the floor can still rise.
pub open spec fn room(log: Seq<Answer>, floor: nat) -> nat {
    if floor <= log.len() {
        (log.len() - floor) as nat
    } else {
        0
    }
}

/// The items of a list, or the arguments of a call, that an expression evaluates one by one.
pub open spec fn items(e: Expr) -> Seq<Expr> {
    match e {
        Expr::InList { list, .. } => list@,
        Expr::Function(f) => match *f {
            Function::Custom { exprs, .. } => exprs@,
            _ => Seq::empty(),
        },
        _ => Seq::empty(),
    }
}

/// The branches of a `CASE`.
pub open spec fn branches(e: Expr) -> Seq<(Expr, Expr)> {
    match e {
        Expr::Case { when_then, .. } => when_then@,
        _ => Seq::empty(),
    }
}

/// What a `CASE` comes to where no branch is taken.
pub open spec fn otherwise(e: Expr) -> Option<Expr> {
    match e {
        Expr::Case { else_result: Some(result), .. } => Some(*result),
        _ => None,
    }
}

/// Whether a test is negated.
pub open spec fn negation(e: Expr) -> bool {
    match e {
        Expr::InList { negated, .. } => negated,
        _ => false,
    }
}

/// The name that a call of a custom function goes by.
pub open spec fn callee(e: Expr) -> String {
    match e {
        Expr::Function(f) => match *f {
            Function::Custom { name, .. } => name,
            _ => arbitrary(),
        },
        _ => arbitrary(),
    }
}

/// What evaluating an expression comes to.
pub open spec fn evaluation(scope: Scope, e: Expr, log: Seq<Answer>) -> Outcome {
    evaluate_from(scope, e, log, 0, 0)
}

/// What evaluating an expression comes to from a position on.
pub open spec fn evaluate_from(
    scope: Scope,
    e: Expr,
    log: Seq<Answer>,
    floor: nat,
    at: nat,
) -> Outcome {
    evaluate_operands(scope, e, Seq::empty(), log, floor, at)
}

/// What an expression comes to once those of its operands that `done` lists are evaluated. The
/// rest are evaluated from left to right, the first error among them being the result.
pub open spec fn evaluate_operands(
    scope: Scope,
    e: Expr,
    done: Seq<Option<Evaluated>>,
    log: Seq<Answer>,
    floor: nat,
    at: nat,
) -> Outcome
    decreases
            room(log, floor),
            size(e),
            2int,
            if done.len() < operands(e).len() {
                operands(e).len() - done.len()
            } else {
                0
            },
{
    if done.len() < operands(e).len() {
        proof {
            lemma_size(e);
            lemma_operand_size(operands(e), done.len() as int);
        }
        match operands(e)[done.len() as int] {
            Some(operand) => {
                match evaluate_operands(scope, operand, Seq::empty(), log, floor, at) {
                    Outcome::Returns(Ok(evaluated), p) =>
                        evaluate_operands(scope, e, done.push(Some(evaluated)), log, floor, p),
                    outcome => outcome,
                }
            },
            None => evaluate_operands(scope, e, done.push(None), log, floor, at),
        }
    } else {
        combine(scope, e, done, log, floor, at)
    }
}

/// What an expression comes to once all its operands are evaluated.
pub open spec fn combine(
    scope: Scope,
    e: Expr,
    done: Seq<Option<Evaluated>>,
    log: Seq<Answer>,
    floor: nat,
    at: nat,
) -> Outcome
    decreases room(log, floor), size(e), 1int, 0int,
{
    match e {
        Expr::Literal(literal) => ask_evaluated(RequestView::Literal(literal), log, at),
        Expr::TypedString { data_type, value } =>
            ask_evaluated(RequestView::TypedString { data_type, value: value@ }, log, at),
        Expr::Identifier(ident) => match scope.context {
            Some(context) =>
                look_up(RequestView::GetValue { context, ident: ident@ }, ident, log, at),
            None => fail(EvaluateError::UnreachableEmptyContext, at),
        },
        Expr::CompoundIdentifier { alias, ident } => match scope.context {
            Some(context) =>
                look_up(
                    RequestView::GetAliasValue { context, alias: alias@, ident: ident@ },
                    ident,
                    log,
                    at,
                ),
            None => fail(EvaluateError::UnreachableEmptyContext, at),
        },
        Expr::Nested(_) => give(done[0]->0, at),
        Expr::Subquery(query) => run_query(query, scope.context, Purpose::Scalar, log, at),
        Expr::BinaryOp { op, .. } =>
            ask_evaluated(
                RequestView::BinaryOp { op, left: done[0]->0, right: done[1]->0 },
                log,
                at,
            ),
        Expr::UnaryOp { op, .. } =>
            ask_evaluated(RequestView::UnaryOp { op, operand: done[0]->0 }, log, at),
        Expr::Aggregate(aggregate) => look_up_aggregate(scope.aggregated, aggregate, at),
        Expr::Function(f) => match *f {
            Function::Custom { .. } => fetch_function(scope, e, log, floor, at),
            Function::Now() => read_clock(log, at),
            _ =>
                ask_evaluated(
                    RequestView::Call { func: *f, routine: routine(*f)->0, operands: done },
                    log,
                    at,
                ),
        },
        Expr::InList { .. } => search_list(scope, e, done[0]->0, 0, log, floor, at),
        Expr::InSubquery { subquery, negated, .. } =>
            run_query(
                subquery,
                scope.context,
                Purpose::Search { target: done[0]->0, negated },
                log,
                at,
            ),
        Expr::Between { negated, .. } =>
            ask_evaluated(
                RequestView::Between {
                    target: done[0]->0,
                    negated,
                    low: done[1]->0,
                    high: done[2]->0,
                },
                log,
                at,
            ),
        Expr::Like { negated, .. } =>
            match_pattern(done[0]->0, done[1]->0, true, negated, log, at),
        Expr::ILike { negated, .. } =>
            match_pattern(done[0]->0, done[1]->0, false, negated, log, at),
        Expr::Exists { subquery, negated } =>
            run_query(subquery, scope.context, Purpose::Probe { negated }, log, at),
        Expr::IsNull(_) => give_bool((done[0]->0).null(), at),
        Expr::IsNotNull(_) => give_bool(!(done[0]->0).null(), at),
        Expr::Case { .. } => {
            let operand = match done[0] {
                Some(operand) => operand,
                None => Evaluated::Value(Value::Bool(true)),
            };
            take_branch(scope, e, operand, 0, log, floor, at)
        },
        Expr::ArrayIndex { .. } =>
            ask_evaluated(
                RequestView::ArrayIndex {
                    obj: done[0]->0,
                    indexes: Seq::new((done.len() - 1) as nat, |i: int| done[i + 1]->0),
                },
                log,
                at,
            ),
        Expr::Interval { leading_field, last_field, .. } =>
            convert_interval(done[0]->0, leading_field, last_field, log, at),
    }
}

/// Whether some item of the list, from the one at `k` on, equals the target. No item after that
/// one is evaluated.
pub open spec fn search_list(
    scope: Scope,
    e: Expr,
    target: Evaluated,
    k: nat,
    log: Seq<Answer>,
    floor: nat,
    at: nat,
) -> Outcome
    decreases
            room(log, floor),
            size(e),
            0int,
            if k < items(e).len() {
                2 * (items(e).len() - k) + 1
            } else {
                0
            },
{
    if k < items(e).len() {
        proof {
            lemma_size(e);
            lemma_item_size(items(e), k as int);
        }
        match evaluate_operands(scope, items(e)[k as int], Seq::empty(), log, floor, at) {
            Outcome::Returns(Ok(item), p) =>
                compare_item(scope, e, target, k, item, log, floor, p),
            outcome => outcome,
        }
    } else {
        give_bool(negation(e), at)
    }
}

/// Whether the item at `k`, or some item after it, equals the target.
pub open spec fn compare_item(
    scope: Scope,
    e: Expr,
    target: Evaluated,
    k: nat,
    item: Evaluated,
    log: Seq<Answer>,
    floor: nat,
    at: nat,
) -> Outcome
    decreases
            room(log, floor),
            size(e),
            0int,
            if k < items(e).len() {
                2 * (items(e).len() - k)
            } else {
                1
            },
{
    if at < log.len() {
        match log[at as int] {
            Answer::Equal(equal) => if equal {
                give_bool(!negation(e), at + 1)
            } else {
                search_list(scope, e, target, k + 1, log, floor, at + 1)
            },
            _ => misfit(),
        }
    } else {
        Outcome::Asks(RequestView::Compare { left: item, right: target })
    }
}

/// What a `CASE` comes to, given that no branch before the one at `k` is taken.
pub open spec fn take_branch(
    scope: Scope,
    e: Expr,
    operand: Evaluated,
    k: nat,
    log: Seq<Answer>,
    floor: nat,
    at: nat,
) -> Outcome
    decreases
            room(log, floor),
            size(e),
            0int,
            if k < branches(e).len() {
                2 * (branches(e).len() - k) + 1
            } else {
                0
            },
{
    proof {
        lemma_size(e);
    }
    if k < branches(e).len() {
        proof {
            lemma_pair_size(branches(e), k as int);
        }
        match evaluate_operands(scope, branches(e)[k as int].0, Seq::empty(), log, floor, at) {
            Outcome::Returns(Ok(when), p) =>
                compare_branch(scope, e, operand, k, when, log, floor, p),
            outcome => outcome,
        }
    } else {
        match otherwise(e) {
            Some(result) => {
                proof {
                    assert(size(result) < deferred_size(e)) by {
                        match e {
                            Expr::Case { else_result, .. } => {
                                assert(boxed_size(else_result) == 1 + size(result));
                            },
                            _ => {},
                        }
                    }
                }
                evaluate_operands(scope, result, Seq::empty(), log, floor, at)
            },
            None => give_value(Value::Null, at),
        }
    }
}

/// What a `CASE` comes to, given what the condition of the branch at `k` came to.
pub open spec fn compare_branch(
    scope: Scope,
    e: Expr,
    operand: Evaluated,
    k: nat,
    when: Evaluated,
    log: Seq<Answer>,
    floor: nat,
    at: nat,
) -> Outcome
    decreases
            room(log, floor),
            size(e),
            0int,
            if k < branches(e).len() {
                2 * (branches(e).len() - k)
            } else {
                1
            },
{
    if at < log.len() {
        match log[at as int] {
            Answer::Equal(equal) => if equal {
                if k < branches(e).len() {
                    proof {
                        lemma_size(e);
                        lemma_pair_size(branches(e), k as int);
                    }
                    let then = branches(e)[k as int].1;
                    evaluate_operands(scope, then, Seq::empty(), log, floor, at + 1)
                } else {
                    misfit()
                }
            } else {
                take_branch(scope, e, operand, k + 1, log, floor, at + 1)
            },
            _ => misfit(),
        }
    } else {
        Outcome::Asks(RequestView::Compare { left: when, right: operand })
    }
}

/// Calls a custom function: looks it up first.
pub open spec fn fetch_function(
    scope: Scope,
    e: Expr,
    log: Seq<Answer>,
    floor: nat,
    at: nat,
) -> Outcome
    decreases room(log, floor), size(e), 0int, items(e).len() + 1,
{
    if at < log.len() {
        match log[at as int] {
            Answer::Function(Ok(Some(function))) =>
                evaluate_arguments(scope, e, *function, Seq::empty(), log, floor, at + 1),
            Answer::Function(Ok(None)) => fail(
                EvaluateError::UnsupportedFunction(callee(e)),
                at + 1,
            ),
            Answer::Function(Err(error)) => pass(error, at + 1),
            _ => misfit(),
        }
    } else {
        Outcome::Asks(RequestView::FetchFunction(callee(e)@))
    }
}

/// Evaluates the arguments of a call from left to right. With them done, the floor rises.
pub open spec fn evaluate_arguments(
    scope: Scope,
    e: Expr,
    function: CustomFunction,
    done: Seq<Evaluated>,
    log: Seq<Answer>,
    floor: nat,
    at: nat,
) -> Outcome
    decreases
            room(log, floor),
            size(e),
            0int,
            if done.len() < items(e).len() {
                items(e).len() - done.len()
            } else {
                0
            },
{
    if done.len() < items(e).len() {
        proof {
            lemma_size(e);
            lemma_item_size(items(e), done.len() as int);
        }
        let argument = items(e)[done.len() as int];
        match evaluate_operands(scope, argument, Seq::empty(), log, floor, at) {
            Outcome::Returns(Ok(evaluated), p) =>
                evaluate_arguments(scope, e, function, done.push(evaluated), log, floor, p),
            outcome => outcome,
        }
    } else if floor < at <= log.len() {
        convert_arguments(scope, callee(e)@, function, done, Seq::empty(), log, at, at)
    } else {
        misfit()
    }
}

/// Converts the arguments of a call to values.
pub open spec fn convert_arguments(
    scope: Scope,
    name: Seq<char>,
    function: CustomFunction,
    evaluated: Seq<Evaluated>,
    done: Seq<Value>,
    log: Seq<Answer>,
    floor: nat,
    at: nat,
) -> Outcome
    decreases
            room(log, floor),
            function_body_size(function),
            4int,
            if done.len() < evaluated.len() {
                evaluated.len() - done.len()
            } else {
                0
            },
{
    if done.len() < evaluated.len() {
        if at < log.len() {
            match log[at as int] {
                Answer::Value(Ok(value)) =>
                    convert_arguments(
                        scope,
                        name,
                        function,
                        evaluated,
                        done.push(value),
                        log,
                        floor,
                        at + 1,
                    ),
                Answer::Value(Err(_)) => Outcome::Faults(Fault::Inconvertible),
                _ => misfit(),
            }
        } else {
            Outcome::Asks(RequestView::Convert(evaluated[done.len() as int]))
        }
    } else {
        evaluate_defaults(scope, name, function, done, Seq::empty(), log, floor, at)
    }
}

/// Evaluates the defaults of a custom function's parameters from left to right, where the call
/// stands, be they needed or not.
pub open spec fn evaluate_defaults(
    scope: Scope,
    name: Seq<char>,
    function: CustomFunction,
    arguments: Seq<Value>,
    done: Seq<Evaluated>,
    log: Seq<Answer>,
    floor: nat,
    at: nat,
) -> Outcome
    decreases
            room(log, floor),
            function_body_size(function),
            3int,
            if done.len() < defaults(parameters(function)).len() {
                defaults(parameters(function)).len() - done.len()
            } else {
                0
            },
{
    let exprs = defaults(parameters(function));
    if done.len() < exprs.len() {
        proof {
            lemma_item_size(exprs, done.len() as int);
        }
        match evaluate_operands(
            scope,
            exprs[done.len() as int],
            Seq::empty(),
            log,
            floor,
            at,
        ) {
            Outcome::Returns(Ok(evaluated), p) =>
                evaluate_defaults(
                    scope,
                    name,
                    function,
                    arguments,
                    done.push(evaluated),
                    log,
                    floor,
                    p,
                ),
            outcome => outcome,
        }
    } else {
        convert_defaults(scope, name, function, arguments, done, Seq::empty(), log, floor, at)
    }
}

/// Converts the defaults of a custom function's parameters to values. Then the number of
/// arguments must be one that the parameters and the defaults allow.
pub open spec fn convert_defaults(
    scope: Scope,
    name: Seq<char>,
    function: CustomFunction,
    arguments: Seq<Value>,
    evaluated: Seq<Evaluated>,
    done: Seq<Value>,
    log: Seq<Answer>,
    floor: nat,
    at: nat,
) -> Outcome
    decreases
            room(log, floor),
            function_body_size(function),
            2int,
            if done.len() < evaluated.len() {
                evaluated.len() - done.len()
            } else {
                0
            },
{
    if done.len() < evaluated.len() {
        if at < log.len() {
            match log[at as int] {
                Answer::Value(Ok(value)) =>
                    convert_defaults(
                        scope,
                        name,
                        function,
                        arguments,
                        evaluated,
                        done.push(value),
                        log,
                        floor,
                        at + 1,
                    ),
                Answer::Value(Err(_)) => Outcome::Faults(Fault::Inconvertible),
                _ => misfit(),
            }
        } else {
            Outcome::Asks(RequestView::Convert(evaluated[done.len() as int]))
        }
    } else {
        let maximum = parameters(function).len();
        let minimum = maximum - done.len();
        if minimum <= arguments.len() <= maximum {
            bind(scope, name, function, arguments, done, 0, 0, Map::empty(), log, floor, at)
        } else {
            fail(
                EvaluateError::FunctionArgsLengthNotWithinRange {
                    name: function.func_name,
                    expected_minimum: minimum as usize,
                    expected_maximum: maximum as usize,
                    found: arguments.len() as usize,
                },
                at,
            )
        }
    }
}

/// The argument for the parameter at `i`: `NULL` where the call gives none.
pub open spec fn argument(arguments: Seq<Value>, i: nat) -> Value {
    if i < arguments.len() {
        arguments[i as int]
    } else {
        Value::Null
    }
}

/// Binds the parameters from the one at `i` on, `used` defaults having been taken, and then
/// evaluates the body with nothing but the parameters in sight.
pub open spec fn bind(
    scope: Scope,
    name: Seq<char>,
    function: CustomFunction,
    arguments: Seq<Value>,
    spare: Seq<Value>,
    i: nat,
    used: nat,
    row: Map<Seq<char>, Value>,
    log: Seq<Answer>,
    floor: nat,
    at: nat,
) -> Outcome
    decreases
            room(log, floor),
            function_body_size(function),
            1int,
            if i < parameters(function).len() {
                2 * (parameters(function).len() - i) + 1
            } else {
                0
            },
{
    if i < parameters(function).len() {
        if at < log.len() {
            match log[at as int] {
                Answer::Checked(Ok(_)) =>
                    bind_checked(
                        scope,
                        name,
                        function,
                        arguments,
                        spare,
                        i,
                        used,
                        row,
                        log,
                        floor,
                        at + 1,
                    ),
                Answer::Checked(Err(error)) => pass(error, at + 1),
                _ => misfit(),
            }
        } else {
            Outcome::Asks(
                RequestView::ValidateType {
                    value: argument(arguments, i),
                    data_type: parameters(function)[i as int].data_type,
                },
            )
        }
    } else {
        match function.return_ {
            Some(body) => {
                let context = Some(ContextView::Call { name, row });
                evaluate_operands(
                    Scope { context, ..scope },
                    body,
                    Seq::empty(),
                    log,
                    floor,
                    at,
                )
            },
            None => give_value(Value::Null, at),
        }
    }
}

/// Binds the parameter at `i`, whose argument is of the right type: to the next default where
/// the argument is `NULL`, and else to the argument.
pub open spec fn bind_checked(
    scope: Scope,
    name: Seq<char>,
    function: CustomFunction,
    arguments: Seq<Value>,
    spare: Seq<Value>,
    i: nat,
    used: nat,
    row: Map<Seq<char>, Value>,
    log: Seq<Answer>,
    floor: nat,
    at: nat,
) -> Outcome
    decreases
            room(log, floor),
            function_body_size(function),
            1int,
            if i < parameters(function).len() {
                2 * (parameters(function).len() - i)
            } else {
                1
            },
{
    let parameter = parameters(function)[i as int];
    let given = argument(arguments, i);
    if at < log.len() {
        match log[at as int] {
            Answer::Checked(Ok(_)) => if given is Null {
                if used < spare.len() {
                    bind(
                        scope,
                        name,
                        function,
                        arguments,
                        spare,
                        i + 1,
                        used + 1,
                        row.insert(parameter.name@, spare[used as int]),
                        log,
                        floor,
                        at + 1,
                    )
                } else {
                    Outcome::Faults(Fault::MissingDefault)
                }
            } else {
                bind(
                    scope,
                    name,
                    function,
                    arguments,
                    spare,
                    i + 1,
                    used,
                    row.insert(parameter.name@, given),
                    log,
                    floor,
                    at + 1,
                )
            },
            Answer::Checked(Err(error)) => pass(error, at + 1),
            _ => misfit(),
        }
    } else {
        Outcome::Asks(
            RequestView::ValidateNull { value: given, nullable: parameter.default is Some },
        )
    }
}

} // verus!
