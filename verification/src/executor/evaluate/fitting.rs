//! Answers that fit their questions never break an evaluation off as misfits.
use vstd::prelude::*;

use crate::ast::{CustomFunction, Expr, Query};
use crate::context::ContextView;
use crate::data::{Evaluated, Value};
use crate::executor::evaluate::operands::{
    boxed_size, lemma_item_size, lemma_operand_size, lemma_pair_size, lemma_size, operands,
    size,
};
use crate::executor::evaluate::protocol::{Answer, Cursor, Fault, RequestView};
use crate::executor::evaluate::semantics::{
    argument, bind, bind_checked, branches, callee, combine, compare_branch, compare_item,
    compare_row, convert_arguments, convert_defaults, defaults, evaluate_arguments,
    evaluate_defaults, evaluate_operands, fetch_function, function_body_size, items, otherwise,
    parameters, room, run_query, search_list, search_rows, take_branch, Outcome, Purpose,
    Scope,
};
use crate::executor::evaluate::settled::lemma_operands_settled;

verus! {

/// Whether an answer is of the kind that a question asks for.
pub open spec fn fits(request: RequestView, answer: Answer) -> bool {
    match request {
        RequestView::Literal(_)
        | RequestView::TypedString { .. }
        | RequestView::BinaryOp { .. }
        | RequestView::UnaryOp { .. }
        | RequestView::Between { .. }
        | RequestView::Like { .. }
        | RequestView::ArrayIndex { .. }
        | RequestView::Call { .. } => answer is Evaluated,
        RequestView::GetValue { .. } | RequestView::GetAliasValue { .. } => answer is Found,
        RequestView::Compare { .. } => answer is Equal,
        RequestView::Convert(_) => answer is Value,
        RequestView::Print(_) => answer is Text,
        RequestView::ParseInterval { .. } => answer is Interval,
        RequestView::Select { .. } => answer is Cursor,
        RequestView::NextRow(_) => answer is Row,
        RequestView::FetchFunction(_) => answer is Function,
        RequestView::ValidateType { .. } | RequestView::ValidateNull { .. } => answer is Checked,
        RequestView::Now => answer is Instant,
    }
}

/// Whether an outcome is no misfit.
pub open spec fn fitting(outcome: Outcome) -> bool {
    outcome != Outcome::Faults(Fault::Misfit)
}

/// Whether a position is the end of the log, or the last answer of the log fits the question
/// that the log without it comes to.
pub open spec fn last_fits(log: Seq<Answer>, at: nat, before: Outcome) -> bool {
    if at < log.len() {
        before matches Outcome::Asks(request) && fits(request, log.last())
    } else {
        at == log.len()
    }
}

/// What an expression without the last answer comes to, and what it comes to with it.
pub proof fn lemma_last_answer(scope: Scope, e: Expr, log: Seq<Answer>, floor: nat, at: nat)
    requires
        floor <= at <= log.len(),
    ensures
        evaluate_operands(scope, e, Seq::empty(), log, floor, at) matches Outcome::Returns(_, p)
            ==> at <= p <= log.len(),
        at < log.len() ==> {
            let before = evaluate_operands(scope, e, Seq::empty(), log.drop_last(), floor, at);
            let after = evaluate_operands(scope, e, Seq::empty(), log, floor, at);
            match before {
                Outcome::Asks(_) => after matches Outcome::Returns(_, p) ==> p == log.len(),
                Outcome::Returns(_, p) => at <= p < log.len() && after == before,
                Outcome::Faults(_) => after == before,
            }
        },
{
    lemma_operands_settled(scope, e, Seq::empty(), log, log, 0, floor, at);
    if at < log.len() {
        let shorter = log.drop_last();
        let common = shorter.len();
        lemma_operands_settled(scope, e, Seq::empty(), shorter, log, common, floor, at);
        lemma_operands_settled(scope, e, Seq::empty(), log, shorter, common, floor, at);
    }
}

/// The rows that are searched for a target.
proof fn lemma_search_rows_fits(
    cursor: Cursor,
    target: Evaluated,
    negated: bool,
    log: Seq<Answer>,
    at: nat,
)
    requires
        at <= log.len(),
        last_fits(log, at, search_rows(cursor, target, negated, log.drop_last(), at)),
    ensures
        fitting(search_rows(cursor, target, negated, log, at)),
    decreases log.len() - at,
{
    reveal_with_fuel(search_rows, 3);
    reveal_with_fuel(compare_row, 3);
    if at + 1 < log.len() {
        if log[at as int] matches Answer::Row(Ok(Some(_))) && log[at as int + 1]
            == Answer::Equal(false) {
            lemma_search_rows_fits(cursor, target, negated, log, at + 2);
        }
    }
}

/// A query.
proof fn lemma_query_fits(
    query: Query,
    context: Option<ContextView>,
    purpose: Purpose,
    log: Seq<Answer>,
    at: nat,
)
    requires
        at <= log.len(),
        last_fits(log, at, run_query(query, context, purpose, log.drop_last(), at)),
    ensures
        fitting(run_query(query, context, purpose, log, at)),
{
    if at < log.len() {
        if let Purpose::Search { target, negated } = purpose {
            if let Answer::Cursor(Ok(cursor)) = log[at as int] {
                lemma_search_rows_fits(cursor, target, negated, log, at + 1);
            }
        }
    }
}

/// An expression whose operands are evaluated as far as `done` lists them.
pub proof fn lemma_operands_fits(
    scope: Scope,
    e: Expr,
    done: Seq<Option<Evaluated>>,
    log: Seq<Answer>,
    floor: nat,
    at: nat,
)
    requires
        floor <= at <= log.len(),
        last_fits(log, at, evaluate_operands(scope, e, done, log.drop_last(), floor, at)),
    ensures
        fitting(evaluate_operands(scope, e, done, log, floor, at)),
    decreases
            room(log, floor),
            size(e),
            2int,
            if done.len() < operands(e).len() {
                operands(e).len() - done.len()
            } else {
                0
            },
{
    if done.len() < operands(e).len() {
        lemma_size(e);
        lemma_operand_size(operands(e), done.len() as int);
        match operands(e)[done.len() as int] {
            Some(operand) => {
                lemma_last_answer(scope, operand, log, floor, at);
                let shorter = log.drop_last();
                let before = evaluate_operands(
                    scope,
                    operand,
                    Seq::empty(),
                    shorter,
                    floor,
                    at,
                );
                let after = evaluate_operands(scope, operand, Seq::empty(), log, floor, at);
                if at == log.len() || before is Asks {
                    lemma_operands_fits(scope, operand, Seq::empty(), log, floor, at);
                }
                if let Outcome::Returns(Ok(evaluated), p) = after {
                    lemma_operands_fits(scope, e, done.push(Some(evaluated)), log, floor, p);
                }
            },
            None => {
                lemma_operands_fits(scope, e, done.push(None), log, floor, at);
            },
        }
    } else {
        lemma_combine_fits(scope, e, done, log, floor, at);
    }
}

/// An expression whose operands are all evaluated.
proof fn lemma_combine_fits(
    scope: Scope,
    e: Expr,
    done: Seq<Option<Evaluated>>,
    log: Seq<Answer>,
    floor: nat,
    at: nat,
)
    requires
        floor <= at <= log.len(),
        last_fits(log, at, combine(scope, e, done, log.drop_last(), floor, at)),
    ensures
        fitting(combine(scope, e, done, log, floor, at)),
    decreases room(log, floor), size(e), 1int, 0int,
{
    match e {
        Expr::Subquery(query) => {
            lemma_query_fits(query, scope.context, Purpose::Scalar, log, at);
        },
        Expr::InSubquery { subquery, negated, .. } => {
            let purpose = Purpose::Search { target: done[0]->0, negated };
            lemma_query_fits(subquery, scope.context, purpose, log, at);
        },
        Expr::Exists { subquery, negated } => {
            let purpose = Purpose::Probe { negated };
            lemma_query_fits(subquery, scope.context, purpose, log, at);
        },
        Expr::Function(f) => {
            if *f is Custom {
                lemma_fetch_fits(scope, e, log, floor, at);
            }
        },
        Expr::InList { .. } => {
            lemma_search_list_fits(scope, e, done[0]->0, 0, log, floor, at);
        },
        Expr::Case { .. } => {
            let operand = match done[0] {
                Some(operand) => operand,
                None => Evaluated::Value(Value::Bool(true)),
            };
            lemma_branch_fits(scope, e, operand, 0, log, floor, at);
        },
        _ => {},
    }
}

/// A list that is searched for a target.
proof fn lemma_search_list_fits(
    scope: Scope,
    e: Expr,
    target: Evaluated,
    k: nat,
    log: Seq<Answer>,
    floor: nat,
    at: nat,
)
    requires
        floor <= at <= log.len(),
        last_fits(log, at, search_list(scope, e, target, k, log.drop_last(), floor, at)),
    ensures
        fitting(search_list(scope, e, target, k, log, floor, at)),
    decreases
            room(log, floor),
            size(e),
            0int,
            if k < items(e).len() {
                items(e).len() - k
            } else {
                0
            },
{
    if k < items(e).len() {
        lemma_size(e);
        lemma_item_size(items(e), k as int);
        let expr = items(e)[k as int];
        lemma_last_answer(scope, expr, log, floor, at);
        let shorter = log.drop_last();
        let before = evaluate_operands(scope, expr, Seq::empty(), shorter, floor, at);
        let after = evaluate_operands(scope, expr, Seq::empty(), log, floor, at);
        if at == log.len() || before is Asks {
            lemma_operands_fits(scope, expr, Seq::empty(), log, floor, at);
        }
        if let Outcome::Returns(Ok(item), p) = after {
            if p < log.len() && log[p as int] == Answer::Equal(false) {
                if p < shorter.len() {
                    assert(compare_item(scope, e, target, k, item, shorter, floor, p)
                        == search_list(scope, e, target, k + 1, shorter, floor, p + 1));
                }
                lemma_search_list_fits(scope, e, target, k + 1, log, floor, p + 1);
            }
            assert(fitting(compare_item(scope, e, target, k, item, log, floor, p)));
        }
    }
}

/// A `CASE` from a branch on.
proof fn lemma_branch_fits(
    scope: Scope,
    e: Expr,
    operand: Evaluated,
    k: nat,
    log: Seq<Answer>,
    floor: nat,
    at: nat,
)
    requires
        floor <= at <= log.len(),
        last_fits(log, at, take_branch(scope, e, operand, k, log.drop_last(), floor, at)),
    ensures
        fitting(take_branch(scope, e, operand, k, log, floor, at)),
    decreases
            room(log, floor),
            size(e),
            0int,
            if k < branches(e).len() {
                branches(e).len() - k
            } else {
                0
            },
{
    let shorter = log.drop_last();
    lemma_size(e);
    if k < branches(e).len() {
        lemma_pair_size(branches(e), k as int);
        let (condition, then) = branches(e)[k as int];
        lemma_last_answer(scope, condition, log, floor, at);
        let before = evaluate_operands(scope, condition, Seq::empty(), shorter, floor, at);
        let after = evaluate_operands(scope, condition, Seq::empty(), log, floor, at);
        if at == log.len() || before is Asks {
            lemma_operands_fits(scope, condition, Seq::empty(), log, floor, at);
        }
        if let Outcome::Returns(Ok(when), p) = after {
            if p < log.len() && log[p as int] == Answer::Equal(true) {
                if p < shorter.len() {
                    assert(compare_branch(scope, e, operand, k, when, shorter, floor, p)
                        == evaluate_operands(
                        scope,
                        then,
                        Seq::empty(),
                        shorter,
                        floor,
                        p + 1,
                    ));
                }
                lemma_operands_fits(scope, then, Seq::empty(), log, floor, p + 1);
            }
            if p < log.len() && log[p as int] == Answer::Equal(false) {
                if p < shorter.len() {
                    assert(compare_branch(scope, e, operand, k, when, shorter, floor, p)
                        == take_branch(scope, e, operand, k + 1, shorter, floor, p + 1));
                }
                lemma_branch_fits(scope, e, operand, k + 1, log, floor, p + 1);
            }
            assert(fitting(compare_branch(scope, e, operand, k, when, log, floor, p)));
        }
    } else if let Some(result) = otherwise(e) {
        match e {
            Expr::Case { else_result, .. } => {
                assert(boxed_size(else_result) == 1 + size(result));
            },
            _ => {},
        }
        lemma_operands_fits(scope, result, Seq::empty(), log, floor, at);
    }
}

/// A call of a custom function.
proof fn lemma_fetch_fits(
    scope: Scope,
    e: Expr,
    log: Seq<Answer>,
    floor: nat,
    at: nat,
)
    requires
        floor <= at <= log.len(),
        last_fits(log, at, fetch_function(scope, e, log.drop_last(), floor, at)),
    ensures
        fitting(fetch_function(scope, e, log, floor, at)),
    decreases room(log, floor), size(e), 0int, items(e).len() + 1,
{
    if at < log.len() {
        if let Answer::Function(Ok(Some(function))) = log[at as int] {
            lemma_arguments_fits(scope, e, *function, Seq::empty(), log, floor, at + 1);
        }
    }
}

/// A call of a custom function that was found.
proof fn lemma_arguments_fits(
    scope: Scope,
    e: Expr,
    function: CustomFunction,
    done: Seq<Evaluated>,
    log: Seq<Answer>,
    floor: nat,
    at: nat,
)
    requires
        floor < at <= log.len(),
        last_fits(
            log,
            at,
            evaluate_arguments(scope, e, function, done, log.drop_last(), floor, at),
        ),
    ensures
        fitting(evaluate_arguments(scope, e, function, done, log, floor, at)),
    decreases
            room(log, floor),
            size(e),
            0int,
            if done.len() < items(e).len() {
                items(e).len() - done.len()
            } else {
                0
            },
{
    let shorter = log.drop_last();
    if done.len() < items(e).len() {
        lemma_size(e);
        lemma_item_size(items(e), done.len() as int);
        let argument = items(e)[done.len() as int];
        lemma_last_answer(scope, argument, log, floor, at);
        let before = evaluate_operands(scope, argument, Seq::empty(), shorter, floor, at);
        let after = evaluate_operands(scope, argument, Seq::empty(), log, floor, at);
        if at == log.len() || before is Asks {
            lemma_operands_fits(scope, argument, Seq::empty(), log, floor, at);
        }
        if let Outcome::Returns(Ok(evaluated), p) = after {
            lemma_arguments_fits(scope, e, function, done.push(evaluated), log, floor, p);
        }
    } else {
        lemma_conversion_fits(
            scope,
            callee(e)@,
            function,
            done,
            Seq::empty(),
            log,
            at,
            at,
        );
    }
}

/// A call whose arguments are converted.
proof fn lemma_conversion_fits(
    scope: Scope,
    name: Seq<char>,
    function: CustomFunction,
    evaluated: Seq<Evaluated>,
    done: Seq<Value>,
    log: Seq<Answer>,
    floor: nat,
    at: nat,
)
    requires
        floor <= at <= log.len(),
        last_fits(
            log,
            at,
            convert_arguments(
                scope,
                name,
                function,
                evaluated,
                done,
                log.drop_last(),
                floor,
                at,
            ),
        ),
    ensures
        fitting(convert_arguments(scope, name, function, evaluated, done, log, floor, at)),
    decreases
            room(log, floor),
            function_body_size(function),
            4int,
            if done.len() < evaluated.len() {
                evaluated.len() - done.len()
            } else {
                0
            },
{
    if done.len() < evaluated.len() {
        if at < log.len() {
            if let Answer::Value(Ok(value)) = log[at as int] {
                lemma_conversion_fits(
                    scope,
                    name,
                    function,
                    evaluated,
                    done.push(value),
                    log,
                    floor,
                    at + 1,
                );
            }
        }
    } else {
        lemma_defaults_fits(scope, name, function, done, Seq::empty(), log, floor, at);
    }
}

/// A call whose defaults are evaluated.
proof fn lemma_defaults_fits(
    scope: Scope,
    name: Seq<char>,
    function: CustomFunction,
    arguments: Seq<Value>,
    done: Seq<Evaluated>,
    log: Seq<Answer>,
    floor: nat,
    at: nat,
)
    requires
        floor <= at <= log.len(),
        last_fits(
            log,
            at,
            evaluate_defaults(
                scope,
                name,
                function,
                arguments,
                done,
                log.drop_last(),
                floor,
                at,
            ),
        ),
    ensures
        fitting(evaluate_defaults(scope, name, function, arguments, done, log, floor, at)),
    decreases
            room(log, floor),
            function_body_size(function),
            3int,
            if done.len() < defaults(parameters(function)).len() {
                defaults(parameters(function)).len() - done.len()
            } else {
                0
            },
{
    let shorter = log.drop_last();
    let exprs = defaults(parameters(function));
    if done.len() < exprs.len() {
        lemma_item_size(exprs, done.len() as int);
        let default = exprs[done.len() as int];
        lemma_last_answer(scope, default, log, floor, at);
        let before = evaluate_operands(scope, default, Seq::empty(), shorter, floor, at);
        let after = evaluate_operands(scope, default, Seq::empty(), log, floor, at);
        if at == log.len() || before is Asks {
            lemma_operands_fits(scope, default, Seq::empty(), log, floor, at);
        }
        if let Outcome::Returns(Ok(evaluated), p) = after {
            lemma_defaults_fits(
                scope,
                name,
                function,
                arguments,
                done.push(evaluated),
                log,
                floor,
                p,
            );
        }
    } else {
        lemma_default_conversion_fits(
            scope,
            name,
            function,
            arguments,
            done,
            Seq::empty(),
            log,
            floor,
            at,
        );
    }
}

/// A call whose defaults are converted.
proof fn lemma_default_conversion_fits(
    scope: Scope,
    name: Seq<char>,
    function: CustomFunction,
    arguments: Seq<Value>,
    evaluated: Seq<Evaluated>,
    done: Seq<Value>,
    log: Seq<Answer>,
    floor: nat,
    at: nat,
)
    requires
        floor <= at <= log.len(),
        last_fits(
            log,
            at,
            convert_defaults(
                scope,
                name,
                function,
                arguments,
                evaluated,
                done,
                log.drop_last(),
                floor,
                at,
            ),
        ),
    ensures
        fitting(
            convert_defaults(scope, name, function, arguments, evaluated, done, log, floor, at),
        ),
    decreases
            room(log, floor),
            function_body_size(function),
            2int,
            if done.len() < evaluated.len() {
                evaluated.len() - done.len()
            } else {
                0
            },
{
    if done.len() < evaluated.len() {
        if at < log.len() {
            if let Answer::Value(Ok(value)) = log[at as int] {
                lemma_default_conversion_fits(
                    scope,
                    name,
                    function,
                    arguments,
                    evaluated,
                    done.push(value),
                    log,
                    floor,
                    at + 1,
                );
            }
        }
    } else {
        let maximum = parameters(function).len();
        if maximum - done.len() <= arguments.len() <= maximum {
            lemma_bind_fits(
                scope,
                name,
                function,
                arguments,
                done,
                0,
                0,
                Map::empty(),
                log,
                floor,
                at,
            );
        }
    }
}

/// A call whose parameters are bound.
proof fn lemma_bind_fits(
    scope: Scope,
    name: Seq<char>,
    function: CustomFunction,
    arguments: Seq<Value>,
    spare: Seq<Value>,
    i: nat,
    used: nat,
    row: Map<Seq<char>, Value>,
    log: Seq<Answer>,
    floor: nat,
    at: nat,
)
    requires
        floor <= at <= log.len(),
        last_fits(
            log,
            at,
            bind(
                scope,
                name,
                function,
                arguments,
                spare,
                i,
                used,
                row,
                log.drop_last(),
                floor,
                at,
            ),
        ),
    ensures
        fitting(bind(scope, name, function, arguments, spare, i, used, row, log, floor, at)),
    decreases
            room(log, floor),
            function_body_size(function),
            1int,
            if i < parameters(function).len() {
                parameters(function).len() - i
            } else {
                0
            },
{
    let shorter = log.drop_last();
    if i < parameters(function).len() {
        reveal_with_fuel(bind, 3);
        reveal_with_fuel(bind_checked, 3);
        if at + 1 < log.len() {
            let first = log[at as int] matches Answer::Checked(Ok(_));
            let second = log[at as int + 1] matches Answer::Checked(Ok(_));
            let parameter = parameters(function)[i as int].name@;
            let given = argument(arguments, i);
            if first && second && given is Null && used < spare.len() {
                lemma_bind_fits(
                    scope,
                    name,
                    function,
                    arguments,
                    spare,
                    i + 1,
                    used + 1,
                    row.insert(parameter, spare[used as int]),
                    log,
                    floor,
                    at + 2,
                );
            } else if first && second && !(given is Null) {
                lemma_bind_fits(
                    scope,
                    name,
                    function,
                    arguments,
                    spare,
                    i + 1,
                    used,
                    row.insert(parameter, given),
                    log,
                    floor,
                    at + 2,
                );
            }
        }
    } else if let Some(body) = function.return_ {
        let inner = Scope { context: Some(ContextView::Call { name, row }), ..scope };
        lemma_operands_fits(inner, body, Seq::empty(), log, floor, at);
    }
}

} // verus!
