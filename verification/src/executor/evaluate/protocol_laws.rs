//! What the questions, the contexts and the steps of an evaluation stand for.
use std::rc::Rc;

use chrono::NaiveDateTime;
use im_rc::HashMap;
use vstd::prelude::*;

use crate::ast::{
    AstLiteral, BinaryOperator, DataType, DateTimeField, Expr, Function, Query, UnaryOperator,
};
use crate::context::{Bindings, ContextView, RowContext};
use crate::data::{aggregate_values, Evaluated, Value};
use crate::executor::evaluate::compose::lemma_none_done;
use crate::executor::evaluate::machine::{Step, Trace};
use crate::executor::evaluate::operands::{operands, Routine};
use crate::executor::evaluate::protocol::{Answer, Cursor, Request, RequestView};
use crate::executor::evaluate::semantics::{evaluation, Outcome, Scope};
use crate::executor::evaluate::{asks_clock, reaches_with, read_on};

verus! {

/// A context is made of just what it holds.
pub proof fn law_contexts_are_what_they_hold(number: u64, name: String, row: Bindings)
    ensures
        RowContext::Outer(number)@ == ContextView::Outer(number),
        (RowContext::Call { name, row })@ == (ContextView::Call { name: name@, row: row@ }),
{
}

/// A question about names and texts is made of just what it holds, each part in its place.
pub proof fn law_requests_about_names<'a>(
    literal: AstLiteral,
    data_type: DataType,
    value: &'a String,
    context: Rc<RowContext>,
    alias: &'a String,
    ident: &'a String,
)
    ensures
        Request::Literal(literal)@ == RequestView::Literal(literal),
        (Request::TypedString { data_type, value })@ == (RequestView::TypedString {
            data_type,
            value: value@,
        }),
        (Request::GetValue { context, ident })@ == (RequestView::GetValue {
            context: (*context)@,
            ident: ident@,
        }),
        (Request::GetAliasValue { context, alias, ident })@ == (RequestView::GetAliasValue {
            context: (*context)@,
            alias: alias@,
            ident: ident@,
        }),
        Request::FetchFunction(ident)@ == RequestView::FetchFunction(ident@),
{
}

/// A question about what was evaluated is made of just what it holds, each part in its place.
pub proof fn law_requests_about_results<'a>(
    binary: BinaryOperator,
    unary: UnaryOperator,
    a: Evaluated,
    b: Evaluated,
    c: Evaluated,
    flag: bool,
    indexes: Vec<Evaluated>,
    func: &'a Function,
    routine: Routine,
    operands: Vec<Option<Evaluated>>,
)
    ensures
        (Request::BinaryOp { op: binary, left: a, right: b })@ == (RequestView::BinaryOp {
            op: binary,
            left: a,
            right: b,
        }),
        (Request::UnaryOp { op: unary, operand: a })@ == (RequestView::UnaryOp {
            op: unary,
            operand: a,
        }),
        (Request::Between { target: a, negated: flag, low: b, high: c })@
            == (RequestView::Between { target: a, negated: flag, low: b, high: c }),
        (Request::Like { target: a, pattern: b, case_sensitive: flag })@ == (RequestView::Like {
            target: a,
            pattern: b,
            case_sensitive: flag,
        }),
        (Request::ArrayIndex { obj: a, indexes })@ == (RequestView::ArrayIndex {
            obj: a,
            indexes: indexes@,
        }),
        (Request::Call { func, routine, operands })@ == (RequestView::Call {
            func: *func,
            routine,
            operands: operands@,
        }),
        (Request::Compare { left: a, right: b })@ == (RequestView::Compare { left: a, right: b }),
        Request::Convert(a)@ == RequestView::Convert(a),
{
}

/// A question about values, rows or the time is made of just what it holds, each part in its
/// place.
pub proof fn law_requests_about_values(
    value: Value,
    text: String,
    leading_field: Option<DateTimeField>,
    last_field: Option<DateTimeField>,
    query: Query,
    context: Rc<RowContext>,
    cursor: Cursor,
    data_type: DataType,
    nullable: bool,
)
    ensures
        Request::Print(value)@ == RequestView::Print(value),
        (Request::ParseInterval { text, leading_field, last_field })@
            == (RequestView::ParseInterval { text: text@, leading_field, last_field }),
        (Request::Select { query, context: Some(context) })@ == (RequestView::Select {
            query,
            context: Some((*context)@),
        }),
        (Request::Select { query, context: None })@ == (RequestView::Select {
            query,
            context: None,
        }),
        Request::NextRow(cursor)@ == RequestView::NextRow(cursor),
        (Request::ValidateType { value, data_type })@ == (RequestView::ValidateType {
            value,
            data_type,
        }),
        (Request::ValidateNull { value, nullable })@ == (RequestView::ValidateNull {
            value,
            nullable,
        }),
        Request::Now@ == RequestView::Now,
{
}

/// An evaluation begins without answers, in the context and with the aggregates that it is
/// given, or without them.
pub proof fn law_evaluation_begins(
    context: Rc<RowContext>,
    aggregated: Rc<HashMap<u64, Value>>,
    expr: Expr,
)
    ensures
        Trace::of(Some(context), Some(aggregated), expr) == (Trace {
            scope: Scope {
                context: Some((*context)@),
                aggregated: Some(aggregate_values(*aggregated)),
            },
            expr,
            log: Seq::empty(),
        }),
        Trace::of(Some(context), None, expr) == (Trace {
            scope: Scope { context: Some((*context)@), aggregated: None },
            expr,
            log: Seq::empty(),
        }),
        Trace::of(None, Some(aggregated), expr) == (Trace {
            scope: Scope { context: None, aggregated: Some(aggregate_values(*aggregated)) },
            expr,
            log: Seq::empty(),
        }),
        Trace::of(None, None, expr) == (Trace {
            scope: Scope { context: None, aggregated: None },
            expr,
            log: Seq::empty(),
        }),
{
}

/// A step is a question, the result or a fault, as the evaluation of the expression in its scope
/// comes to one or another with the answers so far. A question goes on from the answer to it.
pub proof fn law_step<'a>(
    step: Step<'a>,
    scope: Scope,
    expr: Expr,
    log: Seq<Answer<'a>>,
    answer: Answer<'a>,
)
    requires
        step.reaches(Trace { scope, expr, log }),
    ensures
        match evaluation(scope, expr, log) {
            Outcome::Asks(asked) => {
                &&& step matches Step::Ask { request, evaluation }
                &&& request@ == asked
                &&& evaluation@ == (Trace { scope, expr, log })
                &&& evaluation@.answered(answer) == (Trace { scope, expr, log: log.push(answer) })
            },
            Outcome::Returns(result, used) => {
                &&& step matches Step::Done(given) && given == result
                &&& used == log.len()
            },
            Outcome::Faults(fault) => step matches Step::Fault(given) && given == fault,
        },
{
}

/// A step that was reached with readings of the clock is one that is reached with these as the
/// answers, and asks for no more of them.
pub proof fn law_step_with_readings<'a>(
    step: Step<'a>,
    scope: Scope,
    expr: Expr,
    log: Seq<Answer<'a>>,
    readings: Seq<NaiveDateTime>,
)
    requires
        reaches_with(step, Trace { scope, expr, log }, readings),
    ensures
        ({
            let answers = Seq::new(readings.len(), |i: int| Answer::Instant(readings[i]));
            &&& step.reaches(Trace { scope, expr, log: log + answers })
            &&& evaluation(scope, expr, log + answers) != Outcome::Asks(RequestView::Now)
            &&& forall|k: int|
                0 <= k < readings.len() ==> #[trigger] evaluation(
                    scope,
                    expr,
                    log + answers.take(k),
                ) == Outcome::Asks(RequestView::Now)
        }),
{
    let trace = Trace { scope, expr, log };
    let answers = Seq::new(readings.len(), |i: int| Answer::Instant(readings[i]));
    assert(read_on(trace, readings).log =~= log + answers);
    assert forall|k: int| 0 <= k < readings.len() implies #[trigger] evaluation(
        scope,
        expr,
        log + answers.take(k),
    ) == Outcome::Asks(RequestView::Now) by {
        assert(read_on(trace, readings.take(k)).log =~= log + answers.take(k));
        assert(asks_clock(read_on(trace, readings.take(k))));
    }
}

/// Evaluating `NOW` reads the clock once and gives what it shows.
pub proof fn law_now_is_one_reading<'a>(
    step: Step<'a>,
    scope: Scope,
    readings: Seq<NaiveDateTime>,
)
    requires
        reaches_with(
            step,
            Trace {
                scope,
                expr: Expr::Function(Box::new(Function::Now())),
                log: Seq::empty(),
            },
            readings,
        ),
    ensures
        readings.len() == 1,
        step matches Step::Done(Ok(Evaluated::Value(Value::Timestamp(now)))) && now
            == readings[0],
{
    let expr = Expr::Function(Box::new(Function::Now()));
    let none = Seq::<Answer>::empty();
    let answers = Seq::new(readings.len(), |i: int| Answer::Instant(readings[i]));
    law_step_with_readings(step, scope, expr, none, readings);
    assert(operands(expr).len() == 0);
    lemma_none_done(scope, expr, none + answers);
    if readings.len() > 1 {
        lemma_none_done(scope, expr, none + answers.take(1));
        assert(evaluation(scope, expr, none + answers.take(1)) == Outcome::Asks(
            RequestView::Now,
        ));
    }
}

} // verus!
