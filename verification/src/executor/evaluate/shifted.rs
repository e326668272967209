//! What an evaluation comes to does not depend on where in the log its answers stand.
use vstd::prelude::*;

use crate::ast::{CustomFunction, Expr, Query};
use crate::context::ContextView;
use crate::data::{Evaluated, Value};
use crate::executor::evaluate::operands::{
    boxed_size, lemma_item_size, lemma_operand_size, lemma_pair_size, lemma_size, operands,
    size,
};
use crate::executor::evaluate::protocol::{Answer, Cursor};
use crate::executor::evaluate::semantics::{
    argument, bind, bind_checked, branches, callee, combine, compare_branch, compare_item,
    compare_row, convert_arguments, convert_defaults, defaults, evaluate_arguments,
    evaluate_defaults, evaluate_operands, fetch_function, function_body_size, items, otherwise,
    parameters, room, run_query, search_list, search_rows, take_branch, Outcome, Purpose,
    Scope,
};
use crate::executor::evaluate::settled::lemma_operands_settled;

verus! {

/// An outcome, its position counted from so many answers earlier.
pub open spec fn shifted(outcome: Outcome, by: nat) -> Outcome {
    match outcome {
        Outcome::Returns(result, p) => Outcome::Returns(result, p + by),
        _ => outcome,
    }
}

/// The rows that are searched for a target.
pub proof fn lemma_search_rows_shift(
    cursor: Cursor,
    target: Evaluated,
    negated: bool,
    log: Seq<Answer>,
    by: nat,
    at: nat,
)
    requires
        by + at <= log.len(),
    ensures
        search_rows(cursor, target, negated, log, at + by) == shifted(
            search_rows(cursor, target, negated, log.skip(by as int), at),
            by,
        ),
    decreases log.len() - at,
{
    reveal_with_fuel(search_rows, 2);
    reveal_with_fuel(compare_row, 2);
    if at + by + 1 < log.len() {
        lemma_search_rows_shift(cursor, target, negated, log, by, at + 2);
    }
}

/// A query.
proof fn lemma_query_shift(
    query: Query,
    context: Option<ContextView>,
    purpose: Purpose,
    log: Seq<Answer>,
    by: nat,
    at: nat,
)
    requires
        by + at <= log.len(),
    ensures
        run_query(query, context, purpose, log, at + by) == shifted(
            run_query(query, context, purpose, log.skip(by as int), at),
            by,
        ),
{
    if at + by < log.len() {
        if let Purpose::Search { target, negated } = purpose {
            if let Answer::Cursor(Ok(cursor)) = log[(at + by) as int] {
                lemma_search_rows_shift(cursor, target, negated, log, by, at + 1);
            }
        }
    }
}

/// The result of an expression lies within the log.
proof fn lemma_within(scope: Scope, e: Expr, log: Seq<Answer>, floor: nat, at: nat)
    requires
        floor <= at <= log.len(),
    ensures
        evaluate_operands(scope, e, Seq::empty(), log, floor, at) matches Outcome::Returns(_, p)
            ==> at <= p <= log.len(),
{
    lemma_operands_settled(scope, e, Seq::empty(), log, log, 0, floor, at);
}

/// An expression whose operands are evaluated as far as `done` lists them.
pub proof fn lemma_operands_shift(
    scope: Scope,
    e: Expr,
    done: Seq<Option<Evaluated>>,
    log: Seq<Answer>,
    by: nat,
    floor: nat,
    rest_floor: nat,
    at: nat,
)
    requires
        by + at <= log.len(),
        floor <= at + by,
        rest_floor <= at,
    ensures
        evaluate_operands(scope, e, done, log, floor, at + by) == shifted(
            evaluate_operands(scope, e, done, log.skip(by as int), rest_floor, at),
            by,
        ),
    decreases
            room(log, floor),
            size(e),
            2int,
            if done.len() < operands(e).len() {
                operands(e).len() - done.len()
            } else {
                0
            },
{
    let rest = log.skip(by as int);
    if done.len() < operands(e).len() {
        lemma_size(e);
        lemma_operand_size(operands(e), done.len() as int);
        match operands(e)[done.len() as int] {
            Some(operand) => {
                lemma_operands_shift(scope, operand, Seq::empty(), log, by, floor, rest_floor, at);
                lemma_within(scope, operand, rest, rest_floor, at);
                let outcome = evaluate_operands(
                    scope,
                    operand,
                    Seq::empty(),
                    rest,
                    rest_floor,
                    at,
                );
                if let Outcome::Returns(Ok(evaluated), p) = outcome {
                    let done = done.push(Some(evaluated));
                    lemma_operands_shift(scope, e, done, log, by, floor, rest_floor, p);
                }
            },
            None => {
                lemma_operands_shift(scope, e, done.push(None), log, by, floor, rest_floor, at);
            },
        }
    } else {
        lemma_combine_shift(scope, e, done, log, by, floor, rest_floor, at);
    }
}

/// An expression whose operands are all evaluated.
pub proof fn lemma_combine_shift(
    scope: Scope,
    e: Expr,
    done: Seq<Option<Evaluated>>,
    log: Seq<Answer>,
    by: nat,
    floor: nat,
    rest_floor: nat,
    at: nat,
)
    requires
        by + at <= log.len(),
        floor <= at + by,
        rest_floor <= at,
    ensures
        combine(scope, e, done, log, floor, at + by) == shifted(
            combine(scope, e, done, log.skip(by as int), rest_floor, at),
            by,
        ),
    decreases room(log, floor), size(e), 1int, 0int,
{
    match e {
        Expr::Subquery(query) => {
            lemma_query_shift(query, scope.context, Purpose::Scalar, log, by, at);
        },
        Expr::InSubquery { subquery, negated, .. } => {
            let purpose = Purpose::Search { target: done[0]->0, negated };
            lemma_query_shift(subquery, scope.context, purpose, log, by, at);
        },
        Expr::Exists { subquery, negated } => {
            let purpose = Purpose::Probe { negated };
            lemma_query_shift(subquery, scope.context, purpose, log, by, at);
        },
        Expr::Function(f) => {
            if *f is Custom {
                lemma_fetch_shift(scope, e, log, by, floor, rest_floor, at);
            }
        },
        Expr::InList { .. } => {
            lemma_search_list_shift(scope, e, done[0]->0, 0, log, by, floor, rest_floor, at);
        },
        Expr::Case { .. } => {
            let operand = match done[0] {
                Some(operand) => operand,
                None => Evaluated::Value(Value::Bool(true)),
            };
            lemma_branch_shift(scope, e, operand, 0, log, by, floor, rest_floor, at);
        },
        _ => {},
    }
}

/// A list that is searched for a target.
pub proof fn lemma_search_list_shift(
    scope: Scope,
    e: Expr,
    target: Evaluated,
    k: nat,
    log: Seq<Answer>,
    by: nat,
    floor: nat,
    rest_floor: nat,
    at: nat,
)
    requires
        by + at <= log.len(),
        floor <= at + by,
        rest_floor <= at,
    ensures
        search_list(scope, e, target, k, log, floor, at + by) == shifted(
            search_list(scope, e, target, k, log.skip(by as int), rest_floor, at),
            by,
        ),
    decreases
            room(log, floor),
            size(e),
            0int,
            if k < items(e).len() {
                items(e).len() - k
            } else {
                0
            },
{
    let rest = log.skip(by as int);
    if k < items(e).len() {
        lemma_size(e);
        lemma_item_size(items(e), k as int);
        let item = items(e)[k as int];
        lemma_operands_shift(scope, item, Seq::empty(), log, by, floor, rest_floor, at);
        lemma_within(scope, item, rest, rest_floor, at);
        let outcome = evaluate_operands(scope, item, Seq::empty(), rest, rest_floor, at);
        if let Outcome::Returns(Ok(item), p) = outcome {
            if p < rest.len() {
                lemma_search_list_shift(
                    scope,
                    e,
                    target,
                    k + 1,
                    log,
                    by,
                    floor,
                    rest_floor,
                    p + 1,
                );
            }
            assert(compare_item(scope, e, target, k, item, log, floor, p + by) == shifted(
                compare_item(scope, e, target, k, item, rest, rest_floor, p),
                by,
            ));
        }
    }
}

/// A `CASE` from a branch on.
pub proof fn lemma_branch_shift(
    scope: Scope,
    e: Expr,
    operand: Evaluated,
    k: nat,
    log: Seq<Answer>,
    by: nat,
    floor: nat,
    rest_floor: nat,
    at: nat,
)
    requires
        by + at <= log.len(),
        floor <= at + by,
        rest_floor <= at,
    ensures
        take_branch(scope, e, operand, k, log, floor, at + by) == shifted(
            take_branch(scope, e, operand, k, log.skip(by as int), rest_floor, at),
            by,
        ),
    decreases
            room(log, floor),
            size(e),
            0int,
            if k < branches(e).len() {
                branches(e).len() - k
            } else {
                0
            },
{
    let rest = log.skip(by as int);
    lemma_size(e);
    if k < branches(e).len() {
        lemma_pair_size(branches(e), k as int);
        let (when, then) = branches(e)[k as int];
        lemma_operands_shift(scope, when, Seq::empty(), log, by, floor, rest_floor, at);
        lemma_within(scope, when, rest, rest_floor, at);
        let outcome = evaluate_operands(scope, when, Seq::empty(), rest, rest_floor, at);
        if let Outcome::Returns(Ok(when), p) = outcome {
            if p < rest.len() {
                let none = Seq::empty();
                lemma_operands_shift(scope, then, none, log, by, floor, rest_floor, p + 1);
                lemma_branch_shift(
                    scope,
                    e,
                    operand,
                    k + 1,
                    log,
                    by,
                    floor,
                    rest_floor,
                    p + 1,
                );
            }
            assert(compare_branch(scope, e, operand, k, when, log, floor, p + by) == shifted(
                compare_branch(scope, e, operand, k, when, rest, rest_floor, p),
                by,
            ));
        }
    } else if let Some(result) = otherwise(e) {
        match e {
            Expr::Case { else_result, .. } => {
                assert(boxed_size(else_result) == 1 + size(result));
            },
            _ => {},
        }
        lemma_operands_shift(scope, result, Seq::empty(), log, by, floor, rest_floor, at);
    }
}

/// A call of a custom function.
proof fn lemma_fetch_shift(
    scope: Scope,
    e: Expr,
    log: Seq<Answer>,
    by: nat,
    floor: nat,
    rest_floor: nat,
    at: nat,
)
    requires
        by + at <= log.len(),
        floor <= at + by,
        rest_floor <= at,
    ensures
        fetch_function(scope, e, log, floor, at + by) == shifted(
            fetch_function(scope, e, log.skip(by as int), rest_floor, at),
            by,
        ),
    decreases room(log, floor), size(e), 0int, items(e).len() + 1,
{
    if at + by < log.len() {
        if let Answer::Function(Ok(Some(function))) = log[(at + by) as int] {
            let none = Seq::empty();
            lemma_arguments_shift(
                scope,
                e,
                *function,
                none,
                log,
                by,
                floor,
                rest_floor,
                at + 1,
            );
        }
    }
}

/// A call of a custom function that was found.
pub proof fn lemma_arguments_shift(
    scope: Scope,
    e: Expr,
    function: CustomFunction,
    done: Seq<Evaluated>,
    log: Seq<Answer>,
    by: nat,
    floor: nat,
    rest_floor: nat,
    at: nat,
)
    requires
        by + at <= log.len(),
        floor < at + by,
        rest_floor < at,
    ensures
        evaluate_arguments(scope, e, function, done, log, floor, at + by) == shifted(
            evaluate_arguments(scope, e, function, done, log.skip(by as int), rest_floor, at),
            by,
        ),
    decreases
            room(log, floor),
            size(e),
            0int,
            if done.len() < items(e).len() {
                items(e).len() - done.len()
            } else {
                0
            },
{
    let rest = log.skip(by as int);
    if done.len() < items(e).len() {
        lemma_size(e);
        lemma_item_size(items(e), done.len() as int);
        let argument = items(e)[done.len() as int];
        lemma_operands_shift(scope, argument, Seq::empty(), log, by, floor, rest_floor, at);
        lemma_within(scope, argument, rest, rest_floor, at);
        let outcome = evaluate_operands(scope, argument, Seq::empty(), rest, rest_floor, at);
        if let Outcome::Returns(Ok(evaluated), p) = outcome {
            let done = done.push(evaluated);
            lemma_arguments_shift(scope, e, function, done, log, by, floor, rest_floor, p);
        }
    } else {
        lemma_conversion_shift(
            scope,
            callee(e)@,
            function,
            done,
            Seq::empty(),
            log,
            by,
            at + by,
            at,
            at,
        );
    }
}

/// A call whose arguments are converted.
pub proof fn lemma_conversion_shift(
    scope: Scope,
    name: Seq<char>,
    function: CustomFunction,
    evaluated: Seq<Evaluated>,
    done: Seq<Value>,
    log: Seq<Answer>,
    by: nat,
    floor: nat,
    rest_floor: nat,
    at: nat,
)
    requires
        by + at <= log.len(),
        floor <= at + by,
        rest_floor <= at,
    ensures
        convert_arguments(scope, name, function, evaluated, done, log, floor, at + by) == shifted(
            convert_arguments(
                scope,
                name,
                function,
                evaluated,
                done,
                log.skip(by as int),
                rest_floor,
                at,
            ),
            by,
        ),
    decreases
            room(log, floor),
            function_body_size(function),
            4int,
            if done.len() < evaluated.len() {
                evaluated.len() - done.len()
            } else {
                0
            },
{
    if done.len() < evaluated.len() {
        if at + by < log.len() {
            if let Answer::Value(Ok(value)) = log[(at + by) as int] {
                lemma_conversion_shift(
                    scope,
                    name,
                    function,
                    evaluated,
                    done.push(value),
                    log,
                    by,
                    floor,
                    rest_floor,
                    at + 1,
                );
            }
        }
    } else {
        let none = Seq::empty();
        lemma_defaults_shift(scope, name, function, done, none, log, by, floor, rest_floor, at);
    }
}

/// A call whose defaults are evaluated.
pub proof fn lemma_defaults_shift(
    scope: Scope,
    name: Seq<char>,
    function: CustomFunction,
    arguments: Seq<Value>,
    done: Seq<Evaluated>,
    log: Seq<Answer>,
    by: nat,
    floor: nat,
    rest_floor: nat,
    at: nat,
)
    requires
        by + at <= log.len(),
        floor <= at + by,
        rest_floor <= at,
    ensures
        evaluate_defaults(scope, name, function, arguments, done, log, floor, at + by) == shifted(
            evaluate_defaults(
                scope,
                name,
                function,
                arguments,
                done,
                log.skip(by as int),
                rest_floor,
                at,
            ),
            by,
        ),
    decreases
            room(log, floor),
            function_body_size(function),
            3int,
            if done.len() < defaults(parameters(function)).len() {
                defaults(parameters(function)).len() - done.len()
            } else {
                0
            },
{
    let rest = log.skip(by as int);
    let exprs = defaults(parameters(function));
    if done.len() < exprs.len() {
        lemma_item_size(exprs, done.len() as int);
        let default = exprs[done.len() as int];
        lemma_operands_shift(scope, default, Seq::empty(), log, by, floor, rest_floor, at);
        lemma_within(scope, default, rest, rest_floor, at);
        let outcome = evaluate_operands(scope, default, Seq::empty(), rest, rest_floor, at);
        if let Outcome::Returns(Ok(evaluated), p) = outcome {
            lemma_defaults_shift(
                scope,
                name,
                function,
                arguments,
                done.push(evaluated),
                log,
                by,
                floor,
                rest_floor,
                p,
            );
        }
    } else {
        lemma_default_conversion_shift(
            scope,
            name,
            function,
            arguments,
            done,
            Seq::empty(),
            log,
            by,
            floor,
            rest_floor,
            at,
        );
    }
}

/// A call whose defaults are converted.
pub proof fn lemma_default_conversion_shift(
    scope: Scope,
    name: Seq<char>,
    function: CustomFunction,
    arguments: Seq<Value>,
    evaluated: Seq<Evaluated>,
    done: Seq<Value>,
    log: Seq<Answer>,
    by: nat,
    floor: nat,
    rest_floor: nat,
    at: nat,
)
    requires
        by + at <= log.len(),
        floor <= at + by,
        rest_floor <= at,
    ensures
        convert_defaults(
            scope,
            name,
            function,
            arguments,
            evaluated,
            done,
            log,
            floor,
            at + by,
        ) == shifted(
            convert_defaults(
                scope,
                name,
                function,
                arguments,
                evaluated,
                done,
                log.skip(by as int),
                rest_floor,
                at,
            ),
            by,
        ),
    decreases
            room(log, floor),
            function_body_size(function),
            2int,
            if done.len() < evaluated.len() {
                evaluated.len() - done.len()
            } else {
                0
            },
{
    if done.len() < evaluated.len() {
        if at + by < log.len() {
            if let Answer::Value(Ok(value)) = log[(at + by) as int] {
                lemma_default_conversion_shift(
                    scope,
                    name,
                    function,
                    arguments,
                    evaluated,
                    done.push(value),
                    log,
                    by,
                    floor,
                    rest_floor,
                    at + 1,
                );
            }
        }
    } else {
        lemma_bind_shift(
            scope,
            name,
            function,
            arguments,
            done,
            0,
            0,
            Map::empty(),
            log,
            by,
            floor,
            rest_floor,
            at,
        );
    }
}

/// A call whose parameters are bound.
pub proof fn lemma_bind_shift(
    scope: Scope,
    name: Seq<char>,
    function: CustomFunction,
    arguments: Seq<Value>,
    spare: Seq<Value>,
    i: nat,
    used: nat,
    row: Map<Seq<char>, Value>,
    log: Seq<Answer>,
    by: nat,
    floor: nat,
    rest_floor: nat,
    at: nat,
)
    requires
        by + at <= log.len(),
        floor <= at + by,
        rest_floor <= at,
    ensures
        bind(scope, name, function, arguments, spare, i, used, row, log, floor, at + by) == shifted(
            bind(
                scope,
                name,
                function,
                arguments,
                spare,
                i,
                used,
                row,
                log.skip(by as int),
                rest_floor,
                at,
            ),
            by,
        ),
    decreases
            room(log, floor),
            function_body_size(function),
            1int,
            if i < parameters(function).len() {
                parameters(function).len() - i
            } else {
                0
            },
{
    let rest = log.skip(by as int);
    if i < parameters(function).len() {
        if at + by + 1 < log.len() {
            let parameter = parameters(function)[i as int].name@;
            let given = argument(arguments, i);
            lemma_bind_shift(
                scope,
                name,
                function,
                arguments,
                spare,
                i + 1,
                used + 1,
                row.insert(parameter, spare[used as int]),
                log,
                by,
                floor,
                rest_floor,
                at + 2,
            );
            lemma_bind_shift(
                scope,
                name,
                function,
                arguments,
                spare,
                i + 1,
                used,
                row.insert(parameter, given),
                log,
                by,
                floor,
                rest_floor,
                at + 2,
            );
        }
        let p: nat = at + 1;
        if at + by < log.len() {
            assert(bind_checked(
                scope,
                name,
                function,
                arguments,
                spare,
                i,
                used,
                row,
                log,
                floor,
                p + by,
            ) == shifted(
                bind_checked(
                    scope,
                    name,
                    function,
                    arguments,
                    spare,
                    i,
                    used,
                    row,
                    rest,
                    rest_floor,
                    p,
                ),
                by,
            ));
        }
    } else if let Some(body) = function.return_ {
        let inner = Scope { context: Some(ContextView::Call { name, row }), ..scope };
        lemma_operands_shift(inner, body, Seq::empty(), log, by, floor, rest_floor, at);
    }
}

} // verus!
