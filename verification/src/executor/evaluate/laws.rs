//! What holds of every evaluation.
use chrono::NaiveDateTime;
use vstd::prelude::*;

use crate::ast::{Aggregate, Expr, Query};
use crate::context::Row;
use crate::data::{Evaluated, Value};
use crate::executor::evaluate::fitting::{fits, lemma_operands_fits};
use crate::executor::evaluate::machine::{Step, Trace};
use crate::executor::evaluate::misfitting::lemma_operands_misfits;
use crate::executor::evaluate::operands::operands;
use crate::executor::evaluate::protocol::{Answer, Cursor, Fault, RequestView};
use crate::executor::evaluate::semantics::{
    branches, combine, compare_branch, compare_item, compare_row, evaluate_from,
    evaluate_operands, evaluation, first_value, items, look_up_aggregate, negation,
    search_list, search_rows, take_branch, Outcome, Scope,
};
use crate::executor::evaluate::settled::{agree, lemma_operands_settled};
use crate::executor::evaluate::shifted::{lemma_operands_shift, shifted};
use crate::executor::evaluate::{asks_clock, reaches_with, read_on};
use crate::result::{Error, EvaluateError};

verus! {

/// A result rests on the answers that went into it: there are as many of them as it says, and
/// every log that has them in common comes to the same result.
pub proof fn law_result_rests_on_its_answers(
    scope: Scope,
    e: Expr,
    log: Seq<Answer>,
    other: Seq<Answer>,
)
    ensures
        evaluation(scope, e, log) matches Outcome::Returns(_, used) ==> {
            &&& used <= log.len()
            &&& agree(log, other, used) ==> evaluation(scope, e, other) == evaluation(
                scope,
                e,
                log,
            )
        },
{
    match evaluation(scope, e, log) {
        Outcome::Returns(_, used) => {
            let common = if agree(log, other, used) {
                used
            } else {
                0
            };
            lemma_operands_settled(scope, e, Seq::empty(), log, other, common, 0, 0);
        },
        _ => {},
    }
}

/// A fault stays a fault, whatever is answered after it.
pub proof fn law_fault_is_final(
    scope: Scope,
    e: Expr,
    log: Seq<Answer>,
    further: Seq<Answer>,
)
    ensures
        evaluation(scope, e, log) is Faults ==> evaluation(scope, e, log + further)
            == evaluation(scope, e, log),
{
    lemma_operands_settled(scope, e, Seq::empty(), log, log + further, log.len(), 0, 0);
}

/// Whether each answer is of the kind that the question before it asks for.
pub open spec fn all_fit(scope: Scope, e: Expr, log: Seq<Answer>) -> bool {
    forall|i: int|
        0 <= i < log.len() ==> (#[trigger] evaluation(scope, e, log.take(i)) matches Outcome::Asks(
            request,
        ) ==> fits(request, log[i]))
}

/// Answers of the kinds that are asked for are never misfits: all that can break such an
/// evaluation off is an argument or a default without a value, or a default that is missing.
pub proof fn law_fitting_answers_are_no_misfits(scope: Scope, e: Expr, log: Seq<Answer>)
    requires
        all_fit(scope, e, log),
    ensures
        evaluation(scope, e, log) != Outcome::Faults(Fault::Misfit),
    decreases log.len(),
{
    if log.len() > 0 {
        let shorter = log.drop_last();
        assert(shorter =~= log.take(log.len() - 1));
        assert forall|i: int| 0 <= i < shorter.len() implies (#[trigger] evaluation(
            scope,
            e,
            shorter.take(i),
        ) matches Outcome::Asks(request) ==> fits(request, shorter[i])) by {
            assert(shorter.take(i) =~= log.take(i));
        }
        law_fitting_answers_are_no_misfits(scope, e, shorter);
        if evaluation(scope, e, shorter) is Asks {
            lemma_operands_fits(scope, e, Seq::empty(), log, 0, 0);
        } else {
            lemma_operands_settled(scope, e, Seq::empty(), shorter, log, shorter.len(), 0, 0);
        }
    } else {
        lemma_operands_fits(scope, e, Seq::empty(), log, 0, 0);
    }
}

/// An answer that is not of the kind that is asked for breaks an evaluation off.
pub proof fn law_misfitting_answer_breaks_off(
    scope: Scope,
    e: Expr,
    log: Seq<Answer>,
    request: RequestView,
    answer: Answer,
)
    requires
        evaluation(scope, e, log) == Outcome::Asks(request),
        !fits(request, answer),
    ensures
        evaluation(scope, e, log.push(answer)) == Outcome::Faults(Fault::Misfit),
{
    let longer = log.push(answer);
    assert(longer.drop_last() =~= log);
    lemma_operands_misfits(scope, e, Seq::empty(), longer, 0, 0);
}

/// The clock is read where an evaluation asks for the time of day, and only there: one that does
/// not ask for it comes to what it comes to without any reading.
pub proof fn law_clock_is_read_when_asked_for<'a>(
    step: Step<'a>,
    trace: Trace<'a>,
    readings: Seq<NaiveDateTime>,
)
    requires
        reaches_with(step, trace, readings),
    ensures
        readings.len() > 0 <==> asks_clock(trace),
        !asks_clock(trace) ==> step.reaches(trace),
{
    assert(read_on(trace, readings.take(0)).log =~= trace.log);
    if readings.len() == 0 {
        assert(read_on(trace, readings).log =~= trace.log);
    }
}

/// Where in the log the answers stand does not matter: an expression that is evaluated from a
/// position on comes to what it comes to on the rest of the log alone.
pub proof fn law_position_does_not_matter(
    scope: Scope,
    e: Expr,
    log: Seq<Answer>,
    floor: nat,
    at: nat,
)
    requires
        floor <= at <= log.len(),
    ensures
        evaluate_from(scope, e, log, floor, at) == shifted(
            evaluation(scope, e, log.skip(at as int)),
            at,
        ),
{
    lemma_operands_shift(scope, e, Seq::empty(), log, at, floor, 0, 0);
}

/// Brackets change nothing.
pub proof fn law_nested(scope: Scope, e: Expr, log: Seq<Answer>)
    ensures
        evaluation(scope, Expr::Nested(Box::new(e)), log) == evaluation(scope, e, log),
{
    let nested = Expr::Nested(Box::new(e));
    reveal_with_fuel(evaluate_operands, 3);
    assert(operands(nested) =~= seq![Some(e)]);
}

/// Operands are evaluated from left to right: as long as one of them has no result, or has an
/// error for a result, that is what the expression comes to, and no operand after it is
/// evaluated.
pub proof fn law_operand_decides(
    scope: Scope,
    e: Expr,
    operand: Expr,
    done: Seq<Option<Evaluated>>,
    log: Seq<Answer>,
    floor: nat,
    at: nat,
)
    requires
        done.len() < operands(e).len(),
        operands(e)[done.len() as int] == Some(operand),
        !(evaluate_from(scope, operand, log, floor, at) matches Outcome::Returns(Ok(_), _)),
    ensures
        evaluate_operands(scope, e, done, log, floor, at) == evaluate_from(
            scope,
            operand,
            log,
            floor,
            at,
        ),
{
}

/// A result with its truth value turned round.
pub open spec fn turned(outcome: Outcome) -> Outcome {
    match outcome {
        Outcome::Returns(Ok(Evaluated::Value(Value::Bool(b))), at) => Outcome::Returns(
            Ok(Evaluated::Value(Value::Bool(!b))),
            at,
        ),
        _ => outcome,
    }
}

/// `IS NOT NULL` is true where `IS NULL` is false.
pub proof fn law_is_not_null(scope: Scope, e: Expr, log: Seq<Answer>)
    ensures
        evaluation(scope, Expr::IsNotNull(Box::new(e)), log) == turned(
            evaluation(scope, Expr::IsNull(Box::new(e)), log),
        ),
{
    reveal_with_fuel(evaluate_operands, 3);
    assert(operands(Expr::IsNull(Box::new(e))) =~= seq![Some(e)]);
    assert(operands(Expr::IsNotNull(Box::new(e))) =~= seq![Some(e)]);
}

/// Two searches of one list, from an item on.
proof fn lemma_not_in_list(
    scope: Scope,
    e: Expr,
    negative: Expr,
    target: Evaluated,
    k: nat,
    log: Seq<Answer>,
    floor: nat,
    at: nat,
)
    requires
        items(e) == items(negative),
        negation(e) != negation(negative),
    ensures
        search_list(scope, negative, target, k, log, floor, at) == turned(
            search_list(scope, e, target, k, log, floor, at),
        ),
    decreases
            if k < items(e).len() {
                items(e).len() - k
            } else {
                0
            },
{
    if k < items(e).len() {
        match evaluate_from(scope, items(e)[k as int], log, floor, at) {
            Outcome::Returns(Ok(item), p) => {
                lemma_not_in_list(scope, e, negative, target, k + 1, log, floor, p + 1);
                assert(compare_item(scope, negative, target, k, item, log, floor, p) == turned(
                    compare_item(scope, e, target, k, item, log, floor, p),
                ));
            },
            _ => {},
        }
    }
}

/// `NOT IN` a list is true where `IN` the list is false.
pub proof fn law_not_in_list(scope: Scope, expr: Expr, list: Vec<Expr>, log: Seq<Answer>)
    ensures
        evaluation(
            scope,
            (Expr::InList { expr: Box::new(expr), list, negated: true }),
            log,
        ) == turned(
            evaluation(
                scope,
                (Expr::InList { expr: Box::new(expr), list, negated: false }),
                log,
            ),
        ),
{
    let e = Expr::InList { expr: Box::new(expr), list, negated: false };
    let negative = Expr::InList { expr: Box::new(expr), list, negated: true };
    reveal_with_fuel(evaluate_operands, 3);
    assert(operands(e) =~= seq![Some(expr)]);
    assert(operands(negative) =~= seq![Some(expr)]);
    match evaluation(scope, expr, log) {
        Outcome::Returns(Ok(target), p) => {
            lemma_not_in_list(scope, e, negative, target, 0, log, 0, p);
        },
        _ => {},
    }
}

/// Two searches of the rows of one query.
proof fn lemma_not_in_rows(
    cursor: Cursor,
    target: Evaluated,
    log: Seq<Answer>,
    at: nat,
)
    ensures
        search_rows(cursor, target, true, log, at) == turned(
            search_rows(cursor, target, false, log, at),
        ),
    decreases log.len() - at,
{
    reveal_with_fuel(search_rows, 2);
    reveal_with_fuel(compare_row, 2);
    if at + 1 < log.len() {
        lemma_not_in_rows(cursor, target, log, at + 2);
    }
}

/// `NOT IN` a subquery is true where `IN` the subquery is false.
pub proof fn law_not_in_subquery(scope: Scope, expr: Expr, subquery: Query, log: Seq<Answer>)
    ensures
        evaluation(
            scope,
            (Expr::InSubquery { expr: Box::new(expr), subquery, negated: true }),
            log,
        ) == turned(
            evaluation(
                scope,
                (Expr::InSubquery { expr: Box::new(expr), subquery, negated: false }),
                log,
            ),
        ),
{
    let e = Expr::InSubquery { expr: Box::new(expr), subquery, negated: false };
    let negative = Expr::InSubquery { expr: Box::new(expr), subquery, negated: true };
    reveal_with_fuel(evaluate_operands, 3);
    assert(operands(e) =~= seq![Some(expr)]);
    assert(operands(negative) =~= seq![Some(expr)]);
    match evaluation(scope, expr, log) {
        Outcome::Returns(Ok(target), p) => {
            if p < log.len() {
                match log[p as int] {
                    Answer::Cursor(Ok(cursor)) => {
                        lemma_not_in_rows(cursor, target, log, p + 1);
                    },
                    _ => {},
                }
            }
        },
        _ => {},
    }
}

/// `IN` a subquery ends at the first row that equals the target: no row after it is read.
pub proof fn law_in_subquery_ends_at_equal_row(
    cursor: Cursor,
    target: Evaluated,
    negated: bool,
    row: Row,
    log: Seq<Answer>,
    at: nat,
)
    requires
        at + 1 < log.len(),
        log[at as int] == Answer::Row(Ok(Some(row))),
        row is Vec,
        log[at as int + 1] == Answer::Equal(true),
    ensures
        search_rows(cursor, target, negated, log, at) == Outcome::Returns(
            Ok(Evaluated::Value(Value::Bool(!negated))),
            at + 2,
        ),
{
    reveal_with_fuel(search_rows, 2);
    reveal_with_fuel(compare_row, 2);
}

/// `NOT EXISTS` is true where `EXISTS` is false.
pub proof fn law_not_exists(scope: Scope, subquery: Query, log: Seq<Answer>)
    ensures
        evaluation(scope, (Expr::Exists { subquery, negated: true }), log) == turned(
            evaluation(scope, (Expr::Exists { subquery, negated: false }), log),
        ),
{
    reveal_with_fuel(evaluate_operands, 2);
    reveal_with_fuel(combine, 2);
    assert(operands(Expr::Exists { subquery, negated: true }).len() == 0);
    assert(operands(Expr::Exists { subquery, negated: false }).len() == 0);
}

/// `IN` a list ends at the first item that equals the target: no item after it is evaluated.
pub proof fn law_in_list_ends_at_equal_item(
    scope: Scope,
    e: Expr,
    target: Evaluated,
    k: nat,
    item: Evaluated,
    log: Seq<Answer>,
    floor: nat,
    at: nat,
    p: nat,
)
    requires
        k < items(e).len(),
        evaluate_from(scope, items(e)[k as int], log, floor, at) == Outcome::Returns(
            Ok(item),
            p,
        ),
        p < log.len(),
        log[p as int] == Answer::Equal(true),
    ensures
        search_list(scope, e, target, k, log, floor, at) == Outcome::Returns(
            Ok(Evaluated::Value(Value::Bool(!negation(e)))),
            p + 1,
        ),
{
    reveal_with_fuel(search_list, 2);
    reveal_with_fuel(compare_item, 2);
}

/// `IN` a list passes over an item that does not equal the target, and is false where no item is
/// left.
pub proof fn law_in_list_passes_over_item(
    scope: Scope,
    e: Expr,
    target: Evaluated,
    k: nat,
    item: Evaluated,
    log: Seq<Answer>,
    floor: nat,
    at: nat,
    p: nat,
)
    requires
        k < items(e).len(),
        evaluate_from(scope, items(e)[k as int], log, floor, at) == Outcome::Returns(
            Ok(item),
            p,
        ),
        p < log.len(),
        log[p as int] == Answer::Equal(false),
    ensures
        search_list(scope, e, target, k, log, floor, at) == if k + 1 < items(e).len() {
            search_list(scope, e, target, k + 1, log, floor, p + 1)
        } else {
            Outcome::Returns(Ok(Evaluated::Value(Value::Bool(negation(e)))), p + 1)
        },
{
    reveal_with_fuel(search_list, 3);
    reveal_with_fuel(compare_item, 3);
}

/// `CASE` takes the first branch whose condition equals the operand: what it leads to is the
/// result, and nothing else is evaluated.
pub proof fn law_case_takes_equal_branch(
    scope: Scope,
    e: Expr,
    operand: Evaluated,
    k: nat,
    when: Evaluated,
    log: Seq<Answer>,
    floor: nat,
    at: nat,
    p: nat,
)
    requires
        k < branches(e).len(),
        evaluate_from(scope, branches(e)[k as int].0, log, floor, at) == Outcome::Returns(
            Ok(when),
            p,
        ),
        p < log.len(),
        log[p as int] == Answer::Equal(true),
    ensures
        take_branch(scope, e, operand, k, log, floor, at) == evaluate_from(
            scope,
            branches(e)[k as int].1,
            log,
            floor,
            p + 1,
        ),
{
    reveal_with_fuel(take_branch, 3);
    reveal_with_fuel(compare_branch, 3);
}

/// `CASE` passes over a branch whose condition does not equal the operand: what it leads to is
/// not evaluated.
pub proof fn law_case_passes_over_branch(
    scope: Scope,
    e: Expr,
    operand: Evaluated,
    k: nat,
    when: Evaluated,
    log: Seq<Answer>,
    floor: nat,
    at: nat,
    p: nat,
)
    requires
        k < branches(e).len(),
        evaluate_from(scope, branches(e)[k as int].0, log, floor, at) == Outcome::Returns(
            Ok(when),
            p,
        ),
        p < log.len(),
        log[p as int] == Answer::Equal(false),
    ensures
        take_branch(scope, e, operand, k, log, floor, at) == take_branch(
            scope,
            e,
            operand,
            k + 1,
            log,
            floor,
            p + 1,
        ),
{
    reveal_with_fuel(take_branch, 3);
    reveal_with_fuel(compare_branch, 3);
}

/// What a subquery comes to, once its rows are read.
pub open spec fn subquery_result(rows: Seq<Row>) -> Result<Evaluated, Error> {
    if rows.len() > 0 && rows[0] is Schemaless || rows.len() > 1 && rows[1] is Schemaless {
        Err(Error::Evaluate(EvaluateError::SchemalessProjectionForSubQuery))
    } else if rows.len() > 1 {
        Err(Error::Evaluate(EvaluateError::MoreThanOneRowReturned))
    } else if rows.len() == 1 {
        Ok(Evaluated::Value(first_value(rows[0]->values@)))
    } else {
        Ok(Evaluated::Value(Value::Null))
    }
}

/// Whether the answers from a position on are those of a query that yields the rows, as far as
/// so many rows are read.
pub open spec fn yields(log: Seq<Answer>, at: nat, rows: Seq<Row>, limit: nat) -> bool {
    &&& forall|i: int|
        0 <= i < rows.len() && i < limit ==> at + i < log.len() && log[at + i] == Answer::Row(
            Ok(Some(#[trigger] rows[i])),
        )
    &&& rows.len() < limit ==> at + rows.len() < log.len() && log[(at + rows.len()) as int]
        == Answer::Row(Ok(None))
}

/// A subquery has no result but that of a single row, and `NULL` where there is none. More than
/// one row is an error, and so is a row without a schema among the first two.
pub proof fn law_subquery(
    scope: Scope,
    query: Query,
    cursor: Cursor,
    rows: Seq<Row>,
    log: Seq<Answer>,
)
    requires
        log.len() > 0,
        log[0] == Answer::Cursor(Ok(cursor)),
        yields(log, 1, rows, 2),
    ensures
        evaluation(scope, Expr::Subquery(query), log) matches Outcome::Returns(result, _)
            && result == subquery_result(rows),
{
    reveal_with_fuel(evaluate_operands, 2);
    reveal_with_fuel(combine, 2);
    assert(operands(Expr::Subquery(query)).len() == 0);
    if rows.len() > 0 {
        assert(log[1] == Answer::Row(Ok(Some(rows[0]))));
    }
    if rows.len() > 1 {
        assert(log[2] == Answer::Row(Ok(Some(rows[1]))));
    }
}

/// `EXISTS` is whether the query yields a row, whatever the row.
pub proof fn law_exists(
    scope: Scope,
    subquery: Query,
    negated: bool,
    cursor: Cursor,
    rows: Seq<Row>,
    log: Seq<Answer>,
)
    requires
        log.len() > 0,
        log[0] == Answer::Cursor(Ok(cursor)),
        yields(log, 1, rows, 1),
    ensures
        evaluation(scope, (Expr::Exists { subquery, negated }), log) == Outcome::Returns(
            Ok(Evaluated::Value(Value::Bool((rows.len() > 0) != negated))),
            2,
        ),
{
    reveal_with_fuel(evaluate_operands, 2);
    reveal_with_fuel(combine, 2);
    assert(operands(Expr::Exists { subquery, negated }).len() == 0);
    if rows.len() > 0 {
        assert(log[1] == Answer::Row(Ok(Some(rows[0]))));
    }
}

/// The value of an aggregate is the one that was computed before. The host is not asked.
pub proof fn law_aggregate(scope: Scope, aggregate: Aggregate, log: Seq<Answer>)
    ensures
        evaluation(scope, Expr::Aggregate(aggregate), log) == look_up_aggregate(
            scope.aggregated,
            aggregate,
            0,
        ),
{
    reveal_with_fuel(evaluate_operands, 2);
    reveal_with_fuel(combine, 2);
    assert(operands(Expr::Aggregate(aggregate)).len() == 0);
}

/// Without a context an identifier is an error. The host is not asked.
pub proof fn law_identifier_needs_context(
    aggregated: Option<Map<u64, Value>>,
    ident: String,
    log: Seq<Answer>,
)
    ensures
        evaluation(Scope { context: None, aggregated }, Expr::Identifier(ident), log)
            == Outcome::Returns(Err(Error::Evaluate(EvaluateError::UnreachableEmptyContext)), 0),
{
    reveal_with_fuel(evaluate_operands, 2);
    reveal_with_fuel(combine, 2);
    assert(operands(Expr::Identifier(ident)).len() == 0);
}

/// Whether an expression is a test that the evaluation itself decides.
pub open spec fn is_test(e: Expr) -> bool {
    match e {
        Expr::IsNull(_)
        | Expr::IsNotNull(_)
        | Expr::InList { .. }
        | Expr::InSubquery { .. }
        | Expr::Exists { .. } => true,
        Expr::Like { negated, .. } | Expr::ILike { negated, .. } => negated,
        _ => false,
    }
}

/// Whether an outcome, where it is no error, is a truth value.
pub open spec fn is_truth(outcome: Outcome) -> bool {
    outcome matches Outcome::Returns(Ok(evaluated), _) ==> evaluated matches Evaluated::Value(
        Value::Bool(_),
    )
}

/// A search of a list gives a truth value.
proof fn lemma_search_list_is_truth(
    scope: Scope,
    e: Expr,
    target: Evaluated,
    k: nat,
    log: Seq<Answer>,
    floor: nat,
    at: nat,
)
    ensures
        is_truth(search_list(scope, e, target, k, log, floor, at)),
    decreases
            if k < items(e).len() {
                items(e).len() - k
            } else {
                0
            },
{
    if k < items(e).len() {
        match evaluate_from(scope, items(e)[k as int], log, floor, at) {
            Outcome::Returns(Ok(item), p) => {
                lemma_search_list_is_truth(scope, e, target, k + 1, log, floor, p + 1);
                assert(is_truth(compare_item(scope, e, target, k, item, log, floor, p)));
            },
            _ => {},
        }
    }
}

/// A search of the rows of a query gives a truth value.
proof fn lemma_search_rows_is_truth(
    cursor: Cursor,
    target: Evaluated,
    negated: bool,
    log: Seq<Answer>,
    at: nat,
)
    ensures
        is_truth(search_rows(cursor, target, negated, log, at)),
    decreases log.len() - at,
{
    reveal_with_fuel(search_rows, 2);
    reveal_with_fuel(compare_row, 2);
    if at + 1 < log.len() {
        lemma_search_rows_is_truth(cursor, target, negated, log, at + 2);
    }
}

/// Once its operands are evaluated, a test gives a truth value.
proof fn lemma_combine_is_truth(
    scope: Scope,
    e: Expr,
    done: Seq<Option<Evaluated>>,
    log: Seq<Answer>,
    floor: nat,
    at: nat,
)
    requires
        is_test(e),
    ensures
        is_truth(combine(scope, e, done, log, floor, at)),
{
    match e {
        Expr::InList { .. } => {
            lemma_search_list_is_truth(scope, e, done[0]->0, 0, log, floor, at);
        },
        Expr::InSubquery { negated, .. } => {
            if at < log.len() {
                match log[at as int] {
                    Answer::Cursor(Ok(cursor)) => {
                        lemma_search_rows_is_truth(cursor, done[0]->0, negated, log, at + 1);
                    },
                    _ => {},
                }
            }
        },
        _ => {},
    }
}

/// A test gives a truth value, from its operands on.
proof fn lemma_test_is_truth(
    scope: Scope,
    e: Expr,
    done: Seq<Option<Evaluated>>,
    log: Seq<Answer>,
    floor: nat,
    at: nat,
)
    requires
        is_test(e),
    ensures
        is_truth(evaluate_operands(scope, e, done, log, floor, at)),
    decreases
            if done.len() < operands(e).len() {
                operands(e).len() - done.len()
            } else {
                0
            },
{
    if done.len() < operands(e).len() {
        match operands(e)[done.len() as int] {
            Some(operand) => {
                match evaluate_from(scope, operand, log, floor, at) {
                    Outcome::Returns(Ok(evaluated), p) => {
                        lemma_test_is_truth(
                            scope,
                            e,
                            done.push(Some(evaluated)),
                            log,
                            floor,
                            p,
                        );
                    },
                    _ => {},
                }
            },
            None => {
                lemma_test_is_truth(scope, e, done.push(None), log, floor, at);
            },
        }
    } else {
        lemma_combine_is_truth(scope, e, done, log, floor, at);
    }
}

/// `[NOT] IN`, `[NOT] EXISTS`, `IS [NOT] NULL` and `NOT LIKE` give a truth value, and never
/// `NULL`.
pub proof fn law_tests_give_truth_values(scope: Scope, e: Expr, log: Seq<Answer>)
    requires
        is_test(e),
    ensures
        evaluation(scope, e, log) matches Outcome::Returns(Ok(evaluated), _)
            ==> evaluated matches Evaluated::Value(Value::Bool(_)),
{
    lemma_test_is_truth(scope, e, Seq::empty(), log, 0, 0);
}

} // verus!
