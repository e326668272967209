//! What each kind of expression asks for, and what it makes of the answers.
use chrono::NaiveDateTime;
use vstd::prelude::*;

use crate::ast::{
    Aggregate, AstLiteral, BinaryOperator, DataType, DateTimeField, Expr, Function, Query,
    UnaryOperator,
};
use crate::context::{ContextView, Row};
use crate::data::{Evaluated, Interval, Literal, Value};
use crate::executor::evaluate::compose::{
    all_give, asks, becomes, each_gives, ends_with, gives, hands_on, in_order, joined,
    lemma_first_waits, lemma_gives_within, lemma_in_order, lemma_none_done, lemma_one_done,
    lemma_operands_done, passed_over, stops, waits_for,
};
use crate::executor::evaluate::operands::operands;
use crate::executor::evaluate::protocol::{Answer, Cursor, RequestView};
use crate::executor::evaluate::semantics::{
    ask_evaluated, branches, combine, compare_branch, compare_item, compare_row,
    evaluate_operands, evaluation, items, search_list, search_rows, take_branch, Outcome,
    Scope,
};
use crate::executor::evaluate::shifted::{
    lemma_branch_shift, lemma_operands_shift, lemma_search_list_shift, lemma_search_rows_shift,
    shifted,
};
use crate::result::{Error, EvaluateError};

verus! {

/// A literal is what the host makes of it.
pub proof fn law_literal(scope: Scope, literal: AstLiteral)
    ensures
        hands_on(scope, Expr::Literal(literal), Seq::empty(), RequestView::Literal(literal)),
{
    let e = Expr::Literal(literal);
    lemma_none_done(scope, e, Seq::empty());
    assert forall|result: Result<Evaluated, Error>| #[trigger]
        ends_with(scope, e, Seq::empty().push(Answer::Evaluated(result)), result) by {
        lemma_none_done(scope, e, Seq::empty().push(Answer::Evaluated(result)));
    }
}

/// A typed string is what the host makes of its type and its text.
pub proof fn law_typed_string(scope: Scope, data_type: DataType, value: String)
    ensures
        hands_on(
            scope,
            (Expr::TypedString { data_type, value }),
            Seq::empty(),
            RequestView::TypedString { data_type, value: value@ },
        ),
{
    let e = Expr::TypedString { data_type, value };
    lemma_none_done(scope, e, Seq::empty());
    assert forall|result: Result<Evaluated, Error>| #[trigger]
        ends_with(scope, e, Seq::empty().push(Answer::Evaluated(result)), result) by {
        lemma_none_done(scope, e, Seq::empty().push(Answer::Evaluated(result)));
    }
}

/// An identifier is what the context that it stands in holds under its name, and an error where
/// the context holds nothing.
pub proof fn law_identifier(scope: Scope, context: ContextView, ident: String, found: Value)
    requires
        scope.context == Some(context),
    ensures
        asks(
            scope,
            Expr::Identifier(ident),
            Seq::empty(),
            RequestView::GetValue { context, ident: ident@ },
        ),
        ends_with(
            scope,
            Expr::Identifier(ident),
            seq![Answer::Found(Some(found))],
            Ok(Evaluated::Value(found)),
        ),
        ends_with(
            scope,
            Expr::Identifier(ident),
            seq![Answer::Found(None)],
            Err(Error::Evaluate(EvaluateError::ValueNotFound(ident))),
        ),
{
    let e = Expr::Identifier(ident);
    lemma_none_done(scope, e, Seq::empty());
    lemma_none_done(scope, e, seq![Answer::Found(Some(found))]);
    lemma_none_done(scope, e, seq![Answer::Found(None)]);
}

/// A compound identifier is what the context that it stands in holds under its name for its
/// table, and an error, which tells the name, where the context holds nothing.
pub proof fn law_compound_identifier(
    scope: Scope,
    context: ContextView,
    alias: String,
    ident: String,
    found: Value,
)
    requires
        scope.context == Some(context),
    ensures
        asks(
            scope,
            (Expr::CompoundIdentifier { alias, ident }),
            Seq::empty(),
            RequestView::GetAliasValue { context, alias: alias@, ident: ident@ },
        ),
        ends_with(
            scope,
            (Expr::CompoundIdentifier { alias, ident }),
            seq![Answer::Found(Some(found))],
            Ok(Evaluated::Value(found)),
        ),
        ends_with(
            scope,
            (Expr::CompoundIdentifier { alias, ident }),
            seq![Answer::Found(None)],
            Err(Error::Evaluate(EvaluateError::ValueNotFound(ident))),
        ),
{
    let e = Expr::CompoundIdentifier { alias, ident };
    lemma_none_done(scope, e, Seq::empty());
    lemma_none_done(scope, e, seq![Answer::Found(Some(found))]);
    lemma_none_done(scope, e, seq![Answer::Found(None)]);
}

/// Without a context an identifier of either kind is an error, and nothing is asked.
pub proof fn law_identifiers_need_a_context(
    scope: Scope,
    alias: String,
    ident: String,
    log: Seq<Answer>,
)
    requires
        scope.context is None,
    ensures
        evaluation(scope, Expr::Identifier(ident), log) == Outcome::Returns(
            Err(Error::Evaluate(EvaluateError::UnreachableEmptyContext)),
            0,
        ),
        evaluation(scope, (Expr::CompoundIdentifier { alias, ident }), log) == Outcome::Returns(
            Err(Error::Evaluate(EvaluateError::UnreachableEmptyContext)),
            0,
        ),
{
    lemma_none_done(scope, Expr::Identifier(ident), log);
    lemma_none_done(scope, Expr::CompoundIdentifier { alias, ident }, log);
}

/// An aggregate is the value that was computed for it, and an error where none was. Nothing is
/// asked.
pub proof fn law_aggregate_value(scope: Scope, aggregate: Aggregate, log: Seq<Answer>)
    ensures
        forall|values: Map<u64, Value>|
            scope.aggregated == Some(values) && #[trigger] values.contains_key(aggregate.0)
                ==> evaluation(scope, Expr::Aggregate(aggregate), log) == Outcome::Returns(
                Ok(Evaluated::Value(values[aggregate.0])),
                0,
            ),
        forall|values: Map<u64, Value>|
            scope.aggregated == Some(values) && !#[trigger] values.contains_key(aggregate.0)
                ==> evaluation(scope, Expr::Aggregate(aggregate), log) == Outcome::Returns(
                Err(Error::Evaluate(EvaluateError::UnreachableEmptyAggregateValue(aggregate))),
                0,
            ),
        scope.aggregated is None ==> evaluation(scope, Expr::Aggregate(aggregate), log)
            == Outcome::Returns(
            Err(Error::Evaluate(EvaluateError::UnreachableEmptyAggregateValue(aggregate))),
            0,
        ),
{
    lemma_none_done(scope, Expr::Aggregate(aggregate), log);
}

/// `NOW` asks for the time of day and gives it.
pub proof fn law_now(scope: Scope, now: NaiveDateTime)
    ensures
        asks(
            scope,
            Expr::Function(Box::new(Function::Now())),
            Seq::empty(),
            RequestView::Now,
        ),
        ends_with(
            scope,
            Expr::Function(Box::new(Function::Now())),
            seq![Answer::Instant(now)],
            Ok(Evaluated::Value(Value::Timestamp(now))),
        ),
{
    let e = Expr::Function(Box::new(Function::Now()));
    lemma_none_done(scope, e, Seq::empty());
    lemma_none_done(scope, e, seq![Answer::Instant(now)]);
}

/// Brackets evaluate what they hold where they stand, and change nothing.
pub proof fn law_brackets(scope: Scope, expr: Expr)
    ensures
        becomes(scope, Expr::Nested(Box::new(expr)), Seq::empty(), scope, expr),
{
    let e = Expr::Nested(Box::new(expr));
    assert(operands(e) =~= seq![Some(expr)]);
    assert forall|log: Seq<Answer>|
        evaluation(scope, e, Seq::<Answer>::empty() + log) == shifted(
            #[trigger] evaluation(scope, expr, log),
            0,
        ) by {
        assert(Seq::<Answer>::empty() + log =~= log);
        reveal_with_fuel(evaluate_operands, 3);
    }
}

/// A binary operator evaluates its left and then its right operand where it stands, and hands
/// both, each in its place, to the host.
pub proof fn law_binary_op(
    scope: Scope,
    op: BinaryOperator,
    left: Expr,
    right: Expr,
    logs: Seq<Seq<Answer>>,
    l: Evaluated,
    r: Evaluated,
)
    ensures
        in_order(
            scope,
            (Expr::BinaryOp { op, left: Box::new(left), right: Box::new(right) }),
            seq![Some(left), Some(right)],
        ),
        all_give(scope, seq![Some(left), Some(right)], logs, seq![Some(l), Some(r)])
            ==> hands_on(
            scope,
            (Expr::BinaryOp { op, left: Box::new(left), right: Box::new(right) }),
            joined(logs),
            RequestView::BinaryOp { op, left: l, right: r },
        ),
{
    let e = Expr::BinaryOp { op, left: Box::new(left), right: Box::new(right) };
    let slots = seq![Some(left), Some(right)];
    let values = seq![Some(l), Some(r)];
    assert(operands(e) =~= slots);
    lemma_in_order(scope, e, slots);
    if all_give(scope, slots, logs, values) {
        let request = RequestView::BinaryOp { op, left: l, right: r };
        lemma_hands_on(scope, e, slots, logs, values, request);
    }
}

/// A unary operator evaluates its operand where it stands, and hands it to the host.
pub proof fn law_unary_op(
    scope: Scope,
    op: UnaryOperator,
    expr: Expr,
    logs: Seq<Seq<Answer>>,
    v: Evaluated,
)
    ensures
        in_order(scope, (Expr::UnaryOp { op, expr: Box::new(expr) }), seq![Some(expr)]),
        all_give(scope, seq![Some(expr)], logs, seq![Some(v)]) ==> hands_on(
            scope,
            (Expr::UnaryOp { op, expr: Box::new(expr) }),
            joined(logs),
            RequestView::UnaryOp { op, operand: v },
        ),
{
    let e = Expr::UnaryOp { op, expr: Box::new(expr) };
    let slots = seq![Some(expr)];
    let values = seq![Some(v)];
    assert(operands(e) =~= slots);
    lemma_in_order(scope, e, slots);
    if all_give(scope, slots, logs, values) {
        lemma_hands_on(scope, e, slots, logs, values, RequestView::UnaryOp { op, operand: v });
    }
}

/// `BETWEEN` evaluates the value, the lower and the upper bound where it stands, and hands them,
/// each in its place, to the host.
pub proof fn law_between(
    scope: Scope,
    expr: Expr,
    negated: bool,
    low: Expr,
    high: Expr,
    logs: Seq<Seq<Answer>>,
    v: Evaluated,
    l: Evaluated,
    h: Evaluated,
)
    ensures
        in_order(
            scope,
            (Expr::Between {
                expr: Box::new(expr),
                negated,
                low: Box::new(low),
                high: Box::new(high),
            }),
            seq![Some(expr), Some(low), Some(high)],
        ),
        all_give(
            scope,
            seq![Some(expr), Some(low), Some(high)],
            logs,
            seq![Some(v), Some(l), Some(h)],
        ) ==> hands_on(
            scope,
            (Expr::Between {
                expr: Box::new(expr),
                negated,
                low: Box::new(low),
                high: Box::new(high),
            }),
            joined(logs),
            RequestView::Between { target: v, negated, low: l, high: h },
        ),
{
    let e = Expr::Between {
        expr: Box::new(expr),
        negated,
        low: Box::new(low),
        high: Box::new(high),
    };
    let slots = seq![Some(expr), Some(low), Some(high)];
    let values = seq![Some(v), Some(l), Some(h)];
    assert(operands(e) =~= slots);
    lemma_in_order(scope, e, slots);
    if all_give(scope, slots, logs, values) {
        let request = RequestView::Between { target: v, negated, low: l, high: h };
        lemma_hands_on(scope, e, slots, logs, values, request);
    }
}

/// An index into an array evaluates the array and then the indexes where it stands, and hands
/// them in that order to the host.
pub proof fn law_array_index(
    scope: Scope,
    obj: Expr,
    indexes: Vec<Expr>,
    logs: Seq<Seq<Answer>>,
    o: Evaluated,
    found: Seq<Evaluated>,
)
    ensures
        in_order(
            scope,
            (Expr::ArrayIndex { obj: Box::new(obj), indexes }),
            seq![Some(obj)] + Seq::new(indexes@.len(), |i: int| Some(indexes@[i])),
        ),
        all_give(
            scope,
            seq![Some(obj)] + Seq::new(indexes@.len(), |i: int| Some(indexes@[i])),
            logs,
            seq![Some(o)] + Seq::new(found.len(), |i: int| Some(found[i])),
        ) ==> hands_on(
            scope,
            (Expr::ArrayIndex { obj: Box::new(obj), indexes }),
            joined(logs),
            RequestView::ArrayIndex { obj: o, indexes: found },
        ),
{
    let e = Expr::ArrayIndex { obj: Box::new(obj), indexes };
    let slots = seq![Some(obj)] + Seq::new(indexes@.len(), |i: int| Some(indexes@[i]));
    let values = seq![Some(o)] + Seq::new(found.len(), |i: int| Some(found[i]));
    assert(operands(e) =~= slots);
    lemma_in_order(scope, e, slots);
    if all_give(scope, slots, logs, values) {
        assert(Seq::new((values.len() - 1) as nat, |i: int| values[i + 1]->0) =~= found);
        let request = RequestView::ArrayIndex { obj: o, indexes: found };
        lemma_hands_on(scope, e, slots, logs, values, request);
    }
}

/// An expression that asks the host for its result, once its operands are evaluated.
proof fn lemma_hands_on(
    scope: Scope,
    e: Expr,
    slots: Seq<Option<Expr>>,
    logs: Seq<Seq<Answer>>,
    values: Seq<Option<Evaluated>>,
    request: RequestView,
)
    requires
        operands(e) == slots,
        all_give(scope, slots, logs, values),
        forall|log: Seq<Answer>| #[trigger]
            combine(scope, e, values, log, 0, 0) == ask_evaluated(request, log, 0),
    ensures
        hands_on(scope, e, joined(logs), request),
{
    let log = joined(logs);
    lemma_operands_done(scope, e, slots, logs, values, Seq::empty());
    assert(log + Seq::empty() =~= log);
    assert forall|result: Result<Evaluated, Error>| #[trigger]
        ends_with(scope, e, log.push(Answer::Evaluated(result)), result) by {
        let last = seq![Answer::Evaluated(result)];
        lemma_operands_done(scope, e, slots, logs, values, last);
        assert(log + last =~= log.push(Answer::Evaluated(result)));
    }
}

/// `IS NULL` and `IS NOT NULL` evaluate their operand where they stand, and tell whether it is
/// `NULL`, be it a value or a literal.
pub proof fn law_is_null(scope: Scope, expr: Expr, log: Seq<Answer>, v: Evaluated)
    ensures
        waits_for(scope, Expr::IsNull(Box::new(expr)), Seq::empty(), expr),
        waits_for(scope, Expr::IsNotNull(Box::new(expr)), Seq::empty(), expr),
        gives(scope, expr, log, v) ==> gives(
            scope,
            Expr::IsNull(Box::new(expr)),
            log,
            Evaluated::Value(
                Value::Bool(
                    v == Evaluated::Value(Value::Null) || v == Evaluated::Literal(Literal::Null),
                ),
            ),
        ),
        gives(scope, expr, log, v) ==> gives(
            scope,
            Expr::IsNotNull(Box::new(expr)),
            log,
            Evaluated::Value(
                Value::Bool(
                    v != Evaluated::Value(Value::Null) && v != Evaluated::Literal(Literal::Null),
                ),
            ),
        ),
{
    let positive = Expr::IsNull(Box::new(expr));
    let negative = Expr::IsNotNull(Box::new(expr));
    lemma_first_waits(scope, positive, expr);
    lemma_first_waits(scope, negative, expr);
    if gives(scope, expr, log, v) {
        lemma_one_done(scope, positive, expr, log, v, Seq::empty());
        lemma_one_done(scope, negative, expr, log, v, Seq::empty());
        assert(log + Seq::empty() =~= log);
    }
}

/// The pattern expression that `negated` and `case_sensitive` stand for.
pub open spec fn like_expr(
    expr: Expr,
    negated: bool,
    pattern: Expr,
    case_sensitive: bool,
) -> Expr {
    if case_sensitive {
        Expr::Like { expr: Box::new(expr), negated, pattern: Box::new(pattern) }
    } else {
        Expr::ILike { expr: Box::new(expr), negated, pattern: Box::new(pattern) }
    }
}

/// `LIKE` and `ILIKE` evaluate the text and then the pattern where they stand, and give what
/// matching them gives, `LIKE` telling cases apart and `ILIKE` not. With `NOT` they give whether
/// that is equal to the literal `FALSE`. An error of matching is the result.
pub proof fn law_like(
    scope: Scope,
    expr: Expr,
    pattern: Expr,
    case_sensitive: bool,
    logs: Seq<Seq<Answer>>,
    t: Evaluated,
    p: Evaluated,
    matched: Evaluated,
    equal: bool,
    error: Error,
)
    ensures
        in_order(
            scope,
            like_expr(expr, false, pattern, case_sensitive),
            seq![Some(expr), Some(pattern)],
        ),
        in_order(
            scope,
            like_expr(expr, true, pattern, case_sensitive),
            seq![Some(expr), Some(pattern)],
        ),
        all_give(scope, seq![Some(expr), Some(pattern)], logs, seq![Some(t), Some(p)]) ==> {
            let request = RequestView::Like { target: t, pattern: p, case_sensitive };
            let negative = like_expr(expr, true, pattern, case_sensitive);
            let log = joined(logs);
            let answered = log.push(Answer::Evaluated(Ok(matched)));
            &&& hands_on(scope, like_expr(expr, false, pattern, case_sensitive), log, request)
            &&& asks(scope, negative, log, request)
            &&& asks(
                scope,
                negative,
                answered,
                RequestView::Compare {
                    left: matched,
                    right: Evaluated::Literal(Literal::Boolean(false)),
                },
            )
            &&& ends_with(
                scope,
                negative,
                answered.push(Answer::Equal(equal)),
                Ok(Evaluated::Value(Value::Bool(equal))),
            )
            &&& ends_with(scope, negative, log.push(Answer::Evaluated(Err(error))), Err(error))
        },
{
    let positive = like_expr(expr, false, pattern, case_sensitive);
    let negative = like_expr(expr, true, pattern, case_sensitive);
    let slots = seq![Some(expr), Some(pattern)];
    let values = seq![Some(t), Some(p)];
    assert(operands(positive) =~= slots);
    assert(operands(negative) =~= slots);
    lemma_in_order(scope, positive, slots);
    lemma_in_order(scope, negative, slots);
    if all_give(scope, slots, logs, values) {
        let log = joined(logs);
        let request = RequestView::Like { target: t, pattern: p, case_sensitive };
        lemma_hands_on(scope, positive, slots, logs, values, request);
        let one = seq![Answer::Evaluated(Ok(matched))];
        let two = seq![Answer::Evaluated(Ok(matched)), Answer::Equal(equal)];
        let failed = seq![Answer::Evaluated(Err(error))];
        lemma_operands_done(scope, negative, slots, logs, values, Seq::empty());
        lemma_operands_done(scope, negative, slots, logs, values, one);
        lemma_operands_done(scope, negative, slots, logs, values, two);
        lemma_operands_done(scope, negative, slots, logs, values, failed);
        assert(log + Seq::empty() =~= log);
        assert(log + one =~= log.push(one[0]));
        assert(log + two =~= log.push(one[0]).push(two[1]));
        assert(log + failed =~= log.push(failed[0]));
    }
}

/// `INTERVAL` evaluates its operand where it stands, converts it to a value, prints that, and
/// gives the interval that the text denotes with the fields. An error on the way is the result.
pub proof fn law_interval(
    scope: Scope,
    expr: Expr,
    leading_field: Option<DateTimeField>,
    last_field: Option<DateTimeField>,
    log: Seq<Answer>,
    v: Evaluated,
    value: Value,
    text: String,
    interval: Interval,
    error: Error,
)
    ensures
        ({
            let e = Expr::Interval { expr: Box::new(expr), leading_field, last_field };
            let converted = log.push(Answer::Value(Ok(value)));
            let printed = converted.push(Answer::Text(text));
            &&& waits_for(scope, e, Seq::empty(), expr)
            &&& gives(scope, expr, log, v) ==> {
                &&& asks(scope, e, log, RequestView::Convert(v))
                &&& ends_with(scope, e, log.push(Answer::Value(Err(error))), Err(error))
                &&& asks(scope, e, converted, RequestView::Print(value))
                &&& asks(
                    scope,
                    e,
                    printed,
                    RequestView::ParseInterval { text: text@, leading_field, last_field },
                )
                &&& ends_with(
                    scope,
                    e,
                    printed.push(Answer::Interval(Ok(interval))),
                    Ok(Evaluated::Value(Value::Interval(interval))),
                )
                &&& ends_with(scope, e, printed.push(Answer::Interval(Err(error))), Err(error))
            }
        }),
{
    let e = Expr::Interval { expr: Box::new(expr), leading_field, last_field };
    lemma_first_waits(scope, e, expr);
    if gives(scope, expr, log, v) {
        let c = Answer::Value(Ok(value));
        let t = Answer::Text(text);
        let i = Answer::Interval(Ok(interval));
        let f = Answer::Interval(Err(error));
        let unconverted = Answer::Value(Err(error));
        lemma_one_done(scope, e, expr, log, v, Seq::empty());
        lemma_one_done(scope, e, expr, log, v, seq![unconverted]);
        lemma_one_done(scope, e, expr, log, v, seq![c]);
        lemma_one_done(scope, e, expr, log, v, seq![c, t]);
        lemma_one_done(scope, e, expr, log, v, seq![c, t, i]);
        lemma_one_done(scope, e, expr, log, v, seq![c, t, f]);
        assert(log + Seq::empty() =~= log);
        assert(log + seq![unconverted] =~= log.push(unconverted));
        assert(log + seq![c] =~= log.push(c));
        assert(log + seq![c, t] =~= log.push(c).push(t));
        assert(log + seq![c, t, i] =~= log.push(c).push(t).push(i));
        assert(log + seq![c, t, f] =~= log.push(c).push(t).push(f));
    }
}

/// A subquery is run in the context that it stands in, and no more than two of its rows are
/// read: without a row it gives `NULL`, with one it gives that row's first value, or `NULL`
/// where the row is empty, and two are an error. A row without a schema is an error too, and so
/// is whatever error comes up on the way.
pub proof fn law_scalar_subquery(
    scope: Scope,
    query: Query,
    cursor: Cursor,
    first: Row,
    second: Row,
    error: Error,
)
    ensures
        ({
            let e = Expr::Subquery(query);
            let begun = seq![Answer::Cursor(Ok(cursor))];
            let read = begun.push(Answer::Row(Ok(Some(first))));
            let schemaless = Err(
                Error::Evaluate(EvaluateError::SchemalessProjectionForSubQuery),
            );
            &&& asks(
                scope,
                e,
                Seq::empty(),
                RequestView::Select { query, context: scope.context },
            )
            &&& ends_with(scope, e, seq![Answer::Cursor(Err(error))], Err(error))
            &&& asks(scope, e, begun, RequestView::NextRow(cursor))
            &&& ends_with(scope, e, begun.push(Answer::Row(Err(error))), Err(error))
            &&& ends_with(
                scope,
                e,
                begun.push(Answer::Row(Ok(None))),
                Ok(Evaluated::Value(Value::Null)),
            )
            &&& first is Schemaless ==> ends_with(scope, e, read, schemaless)
            &&& first matches Row::Vec { values } ==> {
                let value = if values@.len() > 0 {
                    values@[0]
                } else {
                    Value::Null
                };
                &&& asks(scope, e, read, RequestView::NextRow(cursor))
                &&& ends_with(scope, e, read.push(Answer::Row(Err(error))), Err(error))
                &&& ends_with(
                    scope,
                    e,
                    read.push(Answer::Row(Ok(None))),
                    Ok(Evaluated::Value(value)),
                )
                &&& ends_with(
                    scope,
                    e,
                    read.push(Answer::Row(Ok(Some(second)))),
                    if second is Schemaless {
                        schemaless
                    } else {
                        Err(Error::Evaluate(EvaluateError::MoreThanOneRowReturned))
                    },
                )
            }
        }),
{
    let e = Expr::Subquery(query);
    let begun = seq![Answer::Cursor(Ok(cursor))];
    let read = begun.push(Answer::Row(Ok(Some(first))));
    lemma_none_done(scope, e, Seq::empty());
    lemma_none_done(scope, e, seq![Answer::Cursor(Err(error))]);
    lemma_none_done(scope, e, begun);
    lemma_none_done(scope, e, begun.push(Answer::Row(Err(error))));
    lemma_none_done(scope, e, begun.push(Answer::Row(Ok(None))));
    lemma_none_done(scope, e, read);
    lemma_none_done(scope, e, read.push(Answer::Row(Err(error))));
    lemma_none_done(scope, e, read.push(Answer::Row(Ok(None))));
    lemma_none_done(scope, e, read.push(Answer::Row(Ok(Some(second)))));
}

/// `EXISTS` runs its subquery in the context that it stands in, reads one row, and gives whether
/// there is one, of whatever kind. `NOT EXISTS` gives whether there is none. An error on the way
/// is the result.
pub proof fn law_exists_reads_one_row(
    scope: Scope,
    subquery: Query,
    negated: bool,
    cursor: Cursor,
    row: Row,
    error: Error,
)
    ensures
        ({
            let e = Expr::Exists { subquery, negated };
            let begun = seq![Answer::Cursor(Ok(cursor))];
            &&& asks(
                scope,
                e,
                Seq::empty(),
                RequestView::Select { query: subquery, context: scope.context },
            )
            &&& ends_with(scope, e, seq![Answer::Cursor(Err(error))], Err(error))
            &&& asks(scope, e, begun, RequestView::NextRow(cursor))
            &&& ends_with(scope, e, begun.push(Answer::Row(Err(error))), Err(error))
            &&& ends_with(
                scope,
                e,
                begun.push(Answer::Row(Ok(Some(row)))),
                Ok(Evaluated::Value(Value::Bool(!negated))),
            )
            &&& ends_with(
                scope,
                e,
                begun.push(Answer::Row(Ok(None))),
                Ok(Evaluated::Value(Value::Bool(negated))),
            )
        }),
{
    let e = Expr::Exists { subquery, negated };
    let begun = seq![Answer::Cursor(Ok(cursor))];
    lemma_none_done(scope, e, Seq::empty());
    lemma_none_done(scope, e, seq![Answer::Cursor(Err(error))]);
    lemma_none_done(scope, e, begun);
    lemma_none_done(scope, e, begun.push(Answer::Row(Err(error))));
    lemma_none_done(scope, e, begun.push(Answer::Row(Ok(Some(row)))));
    lemma_none_done(scope, e, begun.push(Answer::Row(Ok(None))));
}

/// The items of a list that do not equal the target are passed over.
proof fn lemma_items_passed(
    scope: Scope,
    e: Expr,
    target: Evaluated,
    logs: Seq<Seq<Answer>>,
    values: Seq<Evaluated>,
    rest: Seq<Answer>,
    log: Seq<Answer>,
    k: int,
    at: nat,
)
    requires
        logs.len() <= items(e).len(),
        each_gives(scope, items(e).take(logs.len() as int), logs, values),
        0 <= k <= logs.len(),
        at <= log.len(),
        log.skip(at as int) == joined(passed_over(logs).skip(k)) + rest,
    ensures
        search_list(scope, e, target, k as nat, log, 0, at) == shifted(
            search_list(scope, e, target, logs.len(), rest, 0, 0),
            at + joined(passed_over(logs).skip(k)).len(),
        ),
    decreases logs.len() - k,
{
    let blocks = passed_over(logs);
    if k < logs.len() {
        let later = blocks.skip(k + 1);
        let tail = seq![Answer::Equal(false)] + (joined(later) + rest);
        assert(blocks.skip(k).skip(1) =~= later);
        assert(joined(blocks.skip(k)) =~= blocks[k] + joined(later));
        assert(joined(blocks.skip(k)) + rest =~= logs[k] + tail);
        assert(items(e).take(logs.len() as int)[k] == items(e)[k]);
        lemma_gives_within(scope, items(e)[k], logs[k], values[k], tail, log, 0, at);
        let p: nat = at + logs[k].len();
        assert(log[p as int] == log.skip(p as int)[0]);
        assert(log.skip(p as int + 1) =~= log.skip(p as int).skip(1));
        assert(tail.skip(1) =~= joined(later) + rest);
        assert(compare_item(scope, e, target, k as nat, values[k], log, 0, p) == search_list(
            scope,
            e,
            target,
            (k + 1) as nat,
            log,
            0,
            p + 1,
        ));
        lemma_items_passed(scope, e, target, logs, values, rest, log, k + 1, p + 1);
    } else {
        assert(blocks.skip(k).len() == 0);
        assert(joined(blocks.skip(k)) + rest =~= rest);
        lemma_search_list_shift(scope, e, target, logs.len(), log, at, 0, 0, 0);
    }
}

/// A search of a list goes on after the items that do not equal the target.
proof fn lemma_list_searched(
    scope: Scope,
    expr: Expr,
    list: Vec<Expr>,
    negated: bool,
    log: Seq<Answer>,
    target: Evaluated,
    logs: Seq<Seq<Answer>>,
    values: Seq<Evaluated>,
    rest: Seq<Answer>,
)
    requires
        gives(scope, expr, log, target),
        logs.len() <= list@.len(),
        each_gives(scope, list@.take(logs.len() as int), logs, values),
    ensures
        evaluation(
            scope,
            (Expr::InList { expr: Box::new(expr), list, negated }),
            (log + joined(passed_over(logs))) + rest,
        ) == shifted(
            search_list(
                scope,
                (Expr::InList { expr: Box::new(expr), list, negated }),
                target,
                logs.len(),
                rest,
                0,
                0,
            ),
            log.len() + joined(passed_over(logs)).len(),
        ),
{
    let e = Expr::InList { expr: Box::new(expr), list, negated };
    let all = joined(passed_over(logs)) + rest;
    lemma_one_done(scope, e, expr, log, target, all);
    assert((log + joined(passed_over(logs))) + rest =~= log + all);
    assert(passed_over(logs).skip(0) =~= passed_over(logs));
    assert(all.skip(0) =~= all);
    lemma_items_passed(scope, e, target, logs, values, rest, all, 0, 0);
}

/// `IN` a list evaluates the value where it stands, and then item after item, each of which it
/// compares with the value, until one is equal: then it gives `TRUE`. It gives `FALSE` where all
/// items were passed over. With `NOT` it is the other way round.
pub proof fn law_in_list(
    scope: Scope,
    expr: Expr,
    list: Vec<Expr>,
    negated: bool,
    log: Seq<Answer>,
    target: Evaluated,
    logs: Seq<Seq<Answer>>,
    values: Seq<Evaluated>,
    next: Seq<Answer>,
    item: Evaluated,
)
    ensures
        ({
            let e = Expr::InList { expr: Box::new(expr), list, negated };
            let n = logs.len() as int;
            let before = log + joined(passed_over(logs));
            &&& waits_for(scope, e, Seq::empty(), expr)
            &&& gives(scope, expr, log, target) && n <= list@.len() && each_gives(
                scope,
                list@.take(n),
                logs,
                values,
            ) ==> {
                &&& n < list@.len() ==> waits_for(scope, e, before, list@[n])
                &&& n < list@.len() && gives(scope, list@[n], next, item) ==> {
                    &&& asks(
                        scope,
                        e,
                        before + next,
                        RequestView::Compare { left: item, right: target },
                    )
                    &&& ends_with(
                        scope,
                        e,
                        (before + next).push(Answer::Equal(true)),
                        Ok(Evaluated::Value(Value::Bool(!negated))),
                    )
                }
                &&& n == list@.len() ==> ends_with(
                    scope,
                    e,
                    before,
                    Ok(Evaluated::Value(Value::Bool(negated))),
                )
            }
        }),
{
    let e = Expr::InList { expr: Box::new(expr), list, negated };
    let n = logs.len() as int;
    let before = log + joined(passed_over(logs));
    lemma_first_waits(scope, e, expr);
    if gives(scope, expr, log, target) && n <= list@.len() && each_gives(
        scope,
        list@.take(n),
        logs,
        values,
    ) {
        if n < list@.len() {
            assert forall|rest: Seq<Answer>|
                stops(#[trigger] evaluation(scope, list@[n], rest)) implies evaluation(
                scope,
                e,
                before + rest,
            ) == shifted(evaluation(scope, list@[n], rest), before.len()) by {
                lemma_list_searched(
                    scope,
                    expr,
                    list,
                    negated,
                    log,
                    target,
                    logs,
                    values,
                    rest,
                );
            }
            if gives(scope, list@[n], next, item) {
                let none = Seq::<Answer>::empty();
                let last = seq![Answer::Equal(true)];
                let (a, b) = (next + none, next + last);
                lemma_list_searched(scope, expr, list, negated, log, target, logs, values, a);
                lemma_list_searched(scope, expr, list, negated, log, target, logs, values, b);
                assert(a.skip(0) =~= a);
                assert(b.skip(0) =~= b);
                lemma_gives_within(scope, list@[n], next, item, none, a, 0, 0);
                lemma_gives_within(scope, list@[n], next, item, last, b, 0, 0);
                assert(before + a =~= before + next);
                assert(before + b =~= (before + next).push(Answer::Equal(true)));
                assert(b[next.len() as int] == Answer::Equal(true));
                reveal_with_fuel(search_list, 2);
                reveal_with_fuel(compare_item, 2);
            }
        } else {
            let none = Seq::<Answer>::empty();
            lemma_list_searched(scope, expr, list, negated, log, target, logs, values, none);
            assert(before + none =~= before);
        }
    }
}

/// The branches of a `CASE` whose condition does not equal the operand are passed over.
proof fn lemma_branches_passed(
    scope: Scope,
    e: Expr,
    operand: Evaluated,
    logs: Seq<Seq<Answer>>,
    values: Seq<Evaluated>,
    rest: Seq<Answer>,
    log: Seq<Answer>,
    k: int,
    at: nat,
)
    requires
        logs.len() <= branches(e).len(),
        values.len() == logs.len(),
        forall|i: int|
            0 <= i < logs.len() ==> gives(
                scope,
                (#[trigger] branches(e)[i]).0,
                logs[i],
                values[i],
            ),
        0 <= k <= logs.len(),
        at <= log.len(),
        log.skip(at as int) == joined(passed_over(logs).skip(k)) + rest,
    ensures
        take_branch(scope, e, operand, k as nat, log, 0, at) == shifted(
            take_branch(scope, e, operand, logs.len(), rest, 0, 0),
            at + joined(passed_over(logs).skip(k)).len(),
        ),
    decreases logs.len() - k,
{
    let blocks = passed_over(logs);
    if k < logs.len() {
        let later = blocks.skip(k + 1);
        let tail = seq![Answer::Equal(false)] + (joined(later) + rest);
        assert(blocks.skip(k).skip(1) =~= later);
        assert(joined(blocks.skip(k)) =~= blocks[k] + joined(later));
        assert(joined(blocks.skip(k)) + rest =~= logs[k] + tail);
        lemma_gives_within(scope, branches(e)[k].0, logs[k], values[k], tail, log, 0, at);
        let p: nat = at + logs[k].len();
        assert(log[p as int] == log.skip(p as int)[0]);
        assert(log.skip(p as int + 1) =~= log.skip(p as int).skip(1));
        assert(tail.skip(1) =~= joined(later) + rest);
        assert(compare_branch(scope, e, operand, k as nat, values[k], log, 0, p) == take_branch(
            scope,
            e,
            operand,
            (k + 1) as nat,
            log,
            0,
            p + 1,
        ));
        lemma_branches_passed(scope, e, operand, logs, values, rest, log, k + 1, p + 1);
    } else {
        assert(blocks.skip(k).len() == 0);
        assert(joined(blocks.skip(k)) + rest =~= rest);
        lemma_branch_shift(scope, e, operand, logs.len(), log, at, 0, 0, 0);
    }
}

/// Whether these answers make a `CASE` compare its conditions with the value: that of its
/// operand, or `TRUE` where it has none.
pub open spec fn compares_with(
    scope: Scope,
    operand: Option<Box<Expr>>,
    log: Seq<Answer>,
    v: Evaluated,
) -> bool {
    match operand {
        Some(expr) => gives(scope, *expr, log, v),
        None => log.len() == 0 && v == Evaluated::Value(Value::Bool(true)),
    }
}

/// Whether the conditions of the first branches give these results.
pub open spec fn conditions_give(
    scope: Scope,
    when_then: Seq<(Expr, Expr)>,
    logs: Seq<Seq<Answer>>,
    values: Seq<Evaluated>,
) -> bool {
    &&& logs.len() <= when_then.len()
    &&& values.len() == logs.len()
    &&& forall|i: int|
        0 <= i < logs.len() ==> gives(scope, (#[trigger] when_then[i]).0, logs[i], values[i])
}

/// A `CASE` goes on after the branches whose condition does not equal the operand.
proof fn lemma_case_tried(
    scope: Scope,
    e: Expr,
    operand: Option<Box<Expr>>,
    when_then: Vec<(Expr, Expr)>,
    else_result: Option<Box<Expr>>,
    log: Seq<Answer>,
    v: Evaluated,
    logs: Seq<Seq<Answer>>,
    values: Seq<Evaluated>,
    rest: Seq<Answer>,
)
    requires
        e == (Expr::Case { operand, when_then, else_result }),
        compares_with(scope, operand, log, v),
        conditions_give(scope, when_then@, logs, values),
    ensures
        evaluation(scope, e, (log + joined(passed_over(logs))) + rest) == shifted(
            take_branch(scope, e, v, logs.len(), rest, 0, 0),
            log.len() + joined(passed_over(logs)).len(),
        ),
{
    let all = joined(passed_over(logs)) + rest;
    assert((log + joined(passed_over(logs))) + rest =~= log + all);
    match operand {
        Some(expr) => {
            lemma_one_done(scope, e, *expr, log, v, all);
        },
        None => {
            let slots: Seq<Option<Expr>> = seq![None];
            let single = seq![log];
            assert(operands(e) =~= slots);
            assert(single.skip(1).len() == 0);
            assert(joined(single.skip(1)) =~= Seq::<Answer>::empty());
            assert(joined(single) =~= log);
            lemma_operands_done(scope, e, slots, single, seq![None], all);
        },
    }
    assert(passed_over(logs).skip(0) =~= passed_over(logs));
    assert(all.skip(0) =~= all);
    lemma_branches_passed(scope, e, v, logs, values, rest, all, 0, 0);
}

/// `CASE` evaluates its operand where it stands, and then condition after condition, each of
/// which it compares with what the operand gave, or with `TRUE` where there is no operand. From
/// the first condition that is equal on, it is what that branch leads to. Where all branches
/// were passed over it is its `ELSE`, whatever the operand, and `NULL` where it has none.
pub proof fn law_case(
    scope: Scope,
    operand: Option<Box<Expr>>,
    when_then: Vec<(Expr, Expr)>,
    else_result: Option<Box<Expr>>,
    log: Seq<Answer>,
    v: Evaluated,
    logs: Seq<Seq<Answer>>,
    values: Seq<Evaluated>,
    next: Seq<Answer>,
    when: Evaluated,
)
    ensures
        ({
            let e = Expr::Case { operand, when_then, else_result };
            let n = logs.len() as int;
            let before = log + joined(passed_over(logs));
            &&& operand matches Some(expr) ==> waits_for(scope, e, Seq::empty(), *expr)
            &&& compares_with(scope, operand, log, v) && conditions_give(
                scope,
                when_then@,
                logs,
                values,
            ) ==> {
                &&& n < when_then@.len() ==> waits_for(scope, e, before, when_then@[n].0)
                &&& n < when_then@.len() && gives(scope, when_then@[n].0, next, when) ==> {
                    &&& asks(
                        scope,
                        e,
                        before + next,
                        RequestView::Compare { left: when, right: v },
                    )
                    &&& becomes(
                        scope,
                        e,
                        (before + next).push(Answer::Equal(true)),
                        scope,
                        when_then@[n].1,
                    )
                }
                &&& n == when_then@.len() ==> match else_result {
                    Some(result) => becomes(scope, e, before, scope, *result),
                    None => gives(scope, e, before, Evaluated::Value(Value::Null)),
                }
            }
        }),
{
    let e = Expr::Case { operand, when_then, else_result };
    let n = logs.len() as int;
    let before = log + joined(passed_over(logs));
    if let Some(expr) = operand {
        lemma_first_waits(scope, e, *expr);
    }
    if compares_with(scope, operand, log, v) && conditions_give(scope, when_then@, logs, values) {
        if n < when_then@.len() {
            let condition = when_then@[n].0;
            let then = when_then@[n].1;
            assert forall|rest: Seq<Answer>|
                stops(#[trigger] evaluation(scope, condition, rest)) implies evaluation(
                scope,
                e,
                before + rest,
            ) == shifted(evaluation(scope, condition, rest), before.len()) by {
                lemma_case_tried(
                    scope,
                    e,
                    operand,
                    when_then,
                    else_result,
                    log,
                    v,
                    logs,
                    values,
                    rest,
                );
            }
            if gives(scope, condition, next, when) {
                let none = Seq::<Answer>::empty();
                let a = next + none;
                lemma_case_tried(
                    scope,
                    e,
                    operand,
                    when_then,
                    else_result,
                    log,
                    v,
                    logs,
                    values,
                    a,
                );
                assert(a.skip(0) =~= a);
                lemma_gives_within(scope, condition, next, when, none, a, 0, 0);
                assert(before + a =~= before + next);
                assert(compare_branch(scope, e, v, n as nat, when, a, 0, next.len())
                    == Outcome::Asks(RequestView::Compare { left: when, right: v }));
                let taken = (before + next).push(Answer::Equal(true));
                assert forall|rest: Seq<Answer>|
                    evaluation(scope, e, taken + rest) == shifted(
                        #[trigger] evaluation(scope, then, rest),
                        taken.len(),
                    ) by {
                    let tail = seq![Answer::Equal(true)] + rest;
                    let b = next + tail;
                    lemma_case_tried(
                        scope,
                        e,
                        operand,
                        when_then,
                        else_result,
                        log,
                        v,
                        logs,
                        values,
                        b,
                    );
                    assert(b.skip(0) =~= b);
                    lemma_gives_within(scope, condition, next, when, tail, b, 0, 0);
                    assert(before + b =~= taken + rest);
                    let p: nat = next.len();
                    assert(b[p as int] == Answer::Equal(true));
                    assert(b.skip(p as int + 1) =~= rest);
                    lemma_operands_shift(scope, then, Seq::empty(), b, p + 1, 0, 0, 0);
                    assert(compare_branch(scope, e, v, n as nat, when, b, 0, p)
                        == evaluate_operands(scope, then, Seq::empty(), b, 0, p + 1));
                }
            }
        } else {
            match else_result {
                Some(result) => {
                    assert forall|rest: Seq<Answer>|
                        evaluation(scope, e, before + rest) == shifted(
                            #[trigger] evaluation(scope, *result, rest),
                            before.len(),
                        ) by {
                        lemma_case_tried(
                            scope,
                            e,
                            operand,
                            when_then,
                            else_result,
                            log,
                            v,
                            logs,
                            values,
                            rest,
                        );
                    }
                },
                None => {
                    let none = Seq::<Answer>::empty();
                    lemma_case_tried(
                        scope,
                        e,
                        operand,
                        when_then,
                        else_result,
                        log,
                        v,
                        logs,
                        values,
                        none,
                    );
                    assert(before + none =~= before);
                },
            }
        }
    }
}

/// Whether these are the answers of a query that yields the rows, each of them followed by the
/// answer that it does not equal the target.
pub open spec fn rows_passed_over(log: Seq<Answer>, rows: Seq<Row>) -> bool {
    &&& log.len() == 2 * rows.len()
    &&& forall|i: int|
        0 <= i < rows.len() ==> {
            &&& #[trigger] rows[i] is Vec
            &&& log[2 * i] == Answer::Row(Ok(Some(rows[i])))
            &&& log[2 * i + 1] == Answer::Equal(false)
        }
}

/// Rows that do not equal the target are passed over.
proof fn lemma_rows_passed(
    cursor: Cursor,
    target: Evaluated,
    negated: bool,
    passed: Seq<Answer>,
    rows: Seq<Row>,
    log: Seq<Answer>,
    at: nat,
    k: int,
)
    requires
        rows_passed_over(passed, rows),
        0 <= k <= rows.len(),
        at + passed.len() <= log.len(),
        forall|i: int| 0 <= i < passed.len() ==> log[at + i] == #[trigger] passed[i],
    ensures
        search_rows(cursor, target, negated, log, (at + 2 * k) as nat) == search_rows(
            cursor,
            target,
            negated,
            log,
            at + passed.len(),
        ),
    decreases rows.len() - k,
{
    if k < rows.len() {
        assert(rows[k] is Vec);
        assert(log[at + 2 * k] == passed[2 * k]);
        assert(log[at + (2 * k + 1)] == passed[2 * k + 1]);
        reveal_with_fuel(search_rows, 2);
        reveal_with_fuel(compare_row, 2);
        lemma_rows_passed(cursor, target, negated, passed, rows, log, at, k + 1);
    }
}

/// A search of the rows of a subquery goes on after those that do not equal the target.
proof fn lemma_rows_searched(
    scope: Scope,
    expr: Expr,
    subquery: Query,
    negated: bool,
    log: Seq<Answer>,
    target: Evaluated,
    cursor: Cursor,
    passed: Seq<Answer>,
    rows: Seq<Row>,
    rest: Seq<Answer>,
)
    requires
        gives(scope, expr, log, target),
        rows_passed_over(passed, rows),
    ensures
        evaluation(
            scope,
            (Expr::InSubquery { expr: Box::new(expr), subquery, negated }),
            (log.push(Answer::Cursor(Ok(cursor))) + passed) + rest,
        ) == shifted(
            search_rows(cursor, target, negated, rest, 0),
            log.len() + 1 + passed.len(),
        ),
{
    let e = Expr::InSubquery { expr: Box::new(expr), subquery, negated };
    let all = seq![Answer::Cursor(Ok(cursor))] + passed + rest;
    lemma_one_done(scope, e, expr, log, target, all);
    assert((log.push(Answer::Cursor(Ok(cursor))) + passed) + rest =~= log + all);
    assert forall|i: int| 0 <= i < passed.len() implies all[1 + i] == #[trigger] passed[i] by {
    }
    lemma_rows_passed(cursor, target, negated, passed, rows, all, 1, 0);
    let by: nat = 1 + passed.len();
    assert(all.skip(by as int) =~= rest);
    lemma_search_rows_shift(cursor, target, negated, all, by, 0);
}

/// `IN` a subquery evaluates the value, runs the subquery in the context that it stands in, and
/// reads row after row. It compares each row's first value, or `NULL` where the row is empty,
/// with the value, until one is equal: then it gives `TRUE`. It gives `FALSE` where the rows
/// have come to an end. With `NOT` it is the other way round. A row without a schema is an
/// error, and so is whatever error comes up on the way.
pub proof fn law_in_subquery(
    scope: Scope,
    expr: Expr,
    subquery: Query,
    negated: bool,
    log: Seq<Answer>,
    target: Evaluated,
    cursor: Cursor,
    passed: Seq<Answer>,
    rows: Seq<Row>,
    row: Row,
    error: Error,
)
    ensures
        ({
            let e = Expr::InSubquery { expr: Box::new(expr), subquery, negated };
            let before = log.push(Answer::Cursor(Ok(cursor))) + passed;
            let read = before.push(Answer::Row(Ok(Some(row))));
            &&& waits_for(scope, e, Seq::empty(), expr)
            &&& gives(scope, expr, log, target) ==> {
                &&& asks(
                    scope,
                    e,
                    log,
                    RequestView::Select { query: subquery, context: scope.context },
                )
                &&& ends_with(scope, e, log.push(Answer::Cursor(Err(error))), Err(error))
            }
            &&& gives(scope, expr, log, target) && rows_passed_over(passed, rows) ==> {
                &&& asks(scope, e, before, RequestView::NextRow(cursor))
                &&& ends_with(scope, e, before.push(Answer::Row(Err(error))), Err(error))
                &&& ends_with(
                    scope,
                    e,
                    before.push(Answer::Row(Ok(None))),
                    Ok(Evaluated::Value(Value::Bool(negated))),
                )
                &&& row is Schemaless ==> ends_with(
                    scope,
                    e,
                    read,
                    Err(Error::Evaluate(EvaluateError::SchemalessProjectionForInSubQuery)),
                )
                &&& row matches Row::Vec { values } ==> {
                    let value = if values@.len() > 0 {
                        values@[0]
                    } else {
                        Value::Null
                    };
                    &&& asks(
                        scope,
                        e,
                        read,
                        RequestView::Compare { left: Evaluated::Value(value), right: target },
                    )
                    &&& ends_with(
                        scope,
                        e,
                        read.push(Answer::Equal(true)),
                        Ok(Evaluated::Value(Value::Bool(!negated))),
                    )
                }
            }
        }),
{
    let e = Expr::InSubquery { expr: Box::new(expr), subquery, negated };
    let begun = log.push(Answer::Cursor(Ok(cursor)));
    let before = begun + passed;
    let read = before.push(Answer::Row(Ok(Some(row))));
    lemma_first_waits(scope, e, expr);
    if gives(scope, expr, log, target) {
        let none = Seq::<Answer>::empty();
        let refused = seq![Answer::Cursor(Err(error))];
        lemma_one_done(scope, e, expr, log, target, none);
        lemma_one_done(scope, e, expr, log, target, refused);
        assert(log + none =~= log);
        assert(log + refused =~= log.push(refused[0]));
        if rows_passed_over(passed, rows) {
            let broken = seq![Answer::Row(Err(error))];
            let ended = seq![Answer::Row(Ok(None))];
            let one = seq![Answer::Row(Ok(Some(row)))];
            let two = one.push(Answer::Equal(true));
            let n = negated;
            let t = target;
            lemma_rows_searched(scope, expr, subquery, n, log, t, cursor, passed, rows, none);
            lemma_rows_searched(scope, expr, subquery, n, log, t, cursor, passed, rows, broken);
            lemma_rows_searched(scope, expr, subquery, n, log, t, cursor, passed, rows, ended);
            lemma_rows_searched(scope, expr, subquery, n, log, t, cursor, passed, rows, one);
            lemma_rows_searched(scope, expr, subquery, n, log, t, cursor, passed, rows, two);
            assert(before + none =~= before);
            assert(before + broken =~= before.push(broken[0]));
            assert(before + ended =~= before.push(ended[0]));
            assert(before + one =~= read);
            assert(before + two =~= read.push(Answer::Equal(true)));
            reveal_with_fuel(search_rows, 2);
            reveal_with_fuel(compare_row, 2);
        }
    }
}

} // verus!
