//! What an evaluation comes to rests on the answers that went into it, and on no others.
use vstd::prelude::*;

use crate::ast::{CustomFunction, Expr, Query};
use crate::context::ContextView;
use crate::data::{Evaluated, Value};
use crate::executor::evaluate::operands::{
    boxed_size, lemma_item_size, lemma_operand_size, lemma_pair_size, lemma_size, operands,
    size,
};
use crate::executor::evaluate::protocol::{Answer, Cursor};
use crate::executor::evaluate::semantics::{
    argument, bind, bind_checked, branches, callee, combine, compare_branch, compare_item,
    compare_row, convert_arguments, convert_defaults, defaults, evaluate_arguments,
    evaluate_defaults, evaluate_operands, fetch_function, function_body_size, items, otherwise,
    parameters, room, run_query, search_list, search_rows, take_branch, Outcome, Purpose,
    Scope,
};

verus! {

/// Whether two logs have the first answers in common.
pub open spec fn agree(one: Seq<Answer>, other: Seq<Answer>, common: nat) -> bool {
    &&& common <= one.len()
    &&& common <= other.len()
    &&& forall|i: int| 0 <= i < common ==> one[i] == #[trigger] other[i]
}

/// Whether what one log comes to from a position on lies within the log, and is what every other
/// log comes to that has in common with it the answers that went into it.
pub open spec fn settled(
    one: Seq<Answer>,
    at: nat,
    common: nat,
    outcome: Outcome,
    other_outcome: Outcome,
) -> bool {
    match outcome {
        Outcome::Asks(_) => true,
        Outcome::Returns(_, p) => at <= p <= one.len() && (p <= common ==> other_outcome
            == outcome),
        Outcome::Faults(_) => common == one.len() ==> other_outcome == outcome,
    }
}

/// The rows that are searched for a target.
proof fn lemma_search_rows_settled(
    cursor: Cursor,
    target: Evaluated,
    negated: bool,
    one: Seq<Answer>,
    other: Seq<Answer>,
    common: nat,
    at: nat,
)
    requires
        agree(one, other, common),
        at <= one.len(),
    ensures
        settled(
            one,
            at,
            common,
            search_rows(cursor, target, negated, one, at),
            search_rows(cursor, target, negated, other, at),
        ),
    decreases one.len() - at,
{
    reveal_with_fuel(search_rows, 2);
    reveal_with_fuel(compare_row, 2);
    if at + 1 < one.len() {
        lemma_search_rows_settled(cursor, target, negated, one, other, common, at + 2);
    }
}

/// A query.
proof fn lemma_query_settled(
    query: Query,
    context: Option<ContextView>,
    purpose: Purpose,
    one: Seq<Answer>,
    other: Seq<Answer>,
    common: nat,
    at: nat,
)
    requires
        agree(one, other, common),
        at <= one.len(),
    ensures
        settled(
            one,
            at,
            common,
            run_query(query, context, purpose, one, at),
            run_query(query, context, purpose, other, at),
        ),
{
    if at < one.len() {
        if let Purpose::Search { target, negated } = purpose {
            if let Answer::Cursor(Ok(cursor)) = one[at as int] {
                lemma_search_rows_settled(cursor, target, negated, one, other, common, at + 1);
            }
        }
    }
}

/// An expression whose operands are evaluated as far as `done` lists them.
pub proof fn lemma_operands_settled(
    scope: Scope,
    e: Expr,
    done: Seq<Option<Evaluated>>,
    one: Seq<Answer>,
    other: Seq<Answer>,
    common: nat,
    floor: nat,
    at: nat,
)
    requires
        agree(one, other, common),
        floor <= at <= one.len(),
    ensures
        settled(
            one,
            at,
            common,
            evaluate_operands(scope, e, done, one, floor, at),
            evaluate_operands(scope, e, done, other, floor, at),
        ),
    decreases
            room(one, floor),
            size(e),
            2int,
            if done.len() < operands(e).len() {
                operands(e).len() - done.len()
            } else {
                0
            },
{
    if done.len() < operands(e).len() {
        lemma_size(e);
        lemma_operand_size(operands(e), done.len() as int);
        match operands(e)[done.len() as int] {
            Some(operand) => {
                lemma_operands_settled(
                    scope,
                    operand,
                    Seq::empty(),
                    one,
                    other,
                    common,
                    floor,
                    at,
                );
                let outcome = evaluate_operands(scope, operand, Seq::empty(), one, floor, at);
                if let Outcome::Returns(Ok(evaluated), p) = outcome {
                    lemma_operands_settled(
                        scope,
                        e,
                        done.push(Some(evaluated)),
                        one,
                        other,
                        common,
                        floor,
                        p,
                    );
                }
            },
            None => {
                lemma_operands_settled(
                    scope,
                    e,
                    done.push(None),
                    one,
                    other,
                    common,
                    floor,
                    at,
                );
            },
        }
    } else {
        lemma_combine_settled(scope, e, done, one, other, common, floor, at);
    }
}

/// An expression whose operands are all evaluated.
proof fn lemma_combine_settled(
    scope: Scope,
    e: Expr,
    done: Seq<Option<Evaluated>>,
    one: Seq<Answer>,
    other: Seq<Answer>,
    common: nat,
    floor: nat,
    at: nat,
)
    requires
        agree(one, other, common),
        floor <= at <= one.len(),
    ensures
        settled(
            one,
            at,
            common,
            combine(scope, e, done, one, floor, at),
            combine(scope, e, done, other, floor, at),
        ),
    decreases room(one, floor), size(e), 1int, 0int,
{
    match e {
        Expr::Subquery(query) => {
            lemma_query_settled(
                query,
                scope.context,
                Purpose::Scalar,
                one,
                other,
                common,
                at,
            );
        },
        Expr::InSubquery { subquery, negated, .. } => {
            let purpose = Purpose::Search { target: done[0]->0, negated };
            lemma_query_settled(subquery, scope.context, purpose, one, other, common, at);
        },
        Expr::Exists { subquery, negated } => {
            let purpose = Purpose::Probe { negated };
            lemma_query_settled(subquery, scope.context, purpose, one, other, common, at);
        },
        Expr::Function(f) => {
            if *f is Custom {
                lemma_fetch_settled(scope, e, one, other, common, floor, at);
            }
        },
        Expr::InList { .. } => {
            lemma_search_list_settled(scope, e, done[0]->0, 0, one, other, common, floor, at);
        },
        Expr::Case { .. } => {
            let operand = match done[0] {
                Some(operand) => operand,
                None => Evaluated::Value(Value::Bool(true)),
            };
            lemma_branch_settled(scope, e, operand, 0, one, other, common, floor, at);
        },
        _ => {},
    }
}

/// A list that is searched for a target.
proof fn lemma_search_list_settled(
    scope: Scope,
    e: Expr,
    target: Evaluated,
    k: nat,
    one: Seq<Answer>,
    other: Seq<Answer>,
    common: nat,
    floor: nat,
    at: nat,
)
    requires
        agree(one, other, common),
        floor <= at <= one.len(),
    ensures
        settled(
            one,
            at,
            common,
            search_list(scope, e, target, k, one, floor, at),
            search_list(scope, e, target, k, other, floor, at),
        ),
    decreases
            room(one, floor),
            size(e),
            0int,
            if k < items(e).len() {
                items(e).len() - k
            } else {
                0
            },
{
    if k < items(e).len() {
        lemma_size(e);
        lemma_item_size(items(e), k as int);
        let item = items(e)[k as int];
        lemma_operands_settled(scope, item, Seq::empty(), one, other, common, floor, at);
        let outcome = evaluate_operands(scope, item, Seq::empty(), one, floor, at);
        if let Outcome::Returns(Ok(item), p) = outcome {
            if p < one.len() {
                lemma_search_list_settled(
                    scope,
                    e,
                    target,
                    k + 1,
                    one,
                    other,
                    common,
                    floor,
                    p + 1,
                );
            }
            assert(settled(
                one,
                p,
                common,
                compare_item(scope, e, target, k, item, one, floor, p),
                compare_item(scope, e, target, k, item, other, floor, p),
            ));
        }
    }
}

/// A `CASE` from a branch on.
proof fn lemma_branch_settled(
    scope: Scope,
    e: Expr,
    operand: Evaluated,
    k: nat,
    one: Seq<Answer>,
    other: Seq<Answer>,
    common: nat,
    floor: nat,
    at: nat,
)
    requires
        agree(one, other, common),
        floor <= at <= one.len(),
    ensures
        settled(
            one,
            at,
            common,
            take_branch(scope, e, operand, k, one, floor, at),
            take_branch(scope, e, operand, k, other, floor, at),
        ),
    decreases
            room(one, floor),
            size(e),
            0int,
            if k < branches(e).len() {
                branches(e).len() - k
            } else {
                0
            },
{
    lemma_size(e);
    if k < branches(e).len() {
        lemma_pair_size(branches(e), k as int);
        let (when, then) = branches(e)[k as int];
        lemma_operands_settled(scope, when, Seq::empty(), one, other, common, floor, at);
        let outcome = evaluate_operands(scope, when, Seq::empty(), one, floor, at);
        if let Outcome::Returns(Ok(when), p) = outcome {
            if p < one.len() {
                lemma_operands_settled(
                    scope,
                    then,
                    Seq::empty(),
                    one,
                    other,
                    common,
                    floor,
                    p + 1,
                );
                lemma_branch_settled(
                    scope,
                    e,
                    operand,
                    k + 1,
                    one,
                    other,
                    common,
                    floor,
                    p + 1,
                );
            }
            assert(settled(
                one,
                p,
                common,
                compare_branch(scope, e, operand, k, when, one, floor, p),
                compare_branch(scope, e, operand, k, when, other, floor, p),
            ));
        }
    } else if let Some(result) = otherwise(e) {
        match e {
            Expr::Case { else_result, .. } => {
                assert(boxed_size(else_result) == 1 + size(result));
            },
            _ => {},
        }
        lemma_operands_settled(scope, result, Seq::empty(), one, other, common, floor, at);
    }
}

/// A call of a custom function.
proof fn lemma_fetch_settled(
    scope: Scope,
    e: Expr,
    one: Seq<Answer>,
    other: Seq<Answer>,
    common: nat,
    floor: nat,
    at: nat,
)
    requires
        agree(one, other, common),
        floor <= at <= one.len(),
    ensures
        settled(
            one,
            at,
            common,
            fetch_function(scope, e, one, floor, at),
            fetch_function(scope, e, other, floor, at),
        ),
    decreases room(one, floor), size(e), 0int, items(e).len() + 1,
{
    if at < one.len() {
        if let Answer::Function(Ok(Some(function))) = one[at as int] {
            lemma_arguments_settled(
                scope,
                e,
                *function,
                Seq::empty(),
                one,
                other,
                common,
                floor,
                at + 1,
            );
        }
    }
}

/// A call of a custom function that was found.
proof fn lemma_arguments_settled(
    scope: Scope,
    e: Expr,
    function: CustomFunction,
    done: Seq<Evaluated>,
    one: Seq<Answer>,
    other: Seq<Answer>,
    common: nat,
    floor: nat,
    at: nat,
)
    requires
        agree(one, other, common),
        floor < at <= one.len(),
    ensures
        settled(
            one,
            at,
            common,
            evaluate_arguments(scope, e, function, done, one, floor, at),
            evaluate_arguments(scope, e, function, done, other, floor, at),
        ),
    decreases
            room(one, floor),
            size(e),
            0int,
            if done.len() < items(e).len() {
                items(e).len() - done.len()
            } else {
                0
            },
{
    if done.len() < items(e).len() {
        lemma_size(e);
        lemma_item_size(items(e), done.len() as int);
        let argument = items(e)[done.len() as int];
        lemma_operands_settled(scope, argument, Seq::empty(), one, other, common, floor, at);
        let outcome = evaluate_operands(scope, argument, Seq::empty(), one, floor, at);
        if let Outcome::Returns(Ok(evaluated), p) = outcome {
            lemma_arguments_settled(
                scope,
                e,
                function,
                done.push(evaluated),
                one,
                other,
                common,
                floor,
                p,
            );
        }
    } else {
        lemma_conversion_settled(
            scope,
            callee(e)@,
            function,
            done,
            Seq::empty(),
            one,
            other,
            common,
            at,
            at,
        );
    }
}

/// A call whose arguments are converted.
proof fn lemma_conversion_settled(
    scope: Scope,
    name: Seq<char>,
    function: CustomFunction,
    evaluated: Seq<Evaluated>,
    done: Seq<Value>,
    one: Seq<Answer>,
    other: Seq<Answer>,
    common: nat,
    floor: nat,
    at: nat,
)
    requires
        agree(one, other, common),
        floor <= at <= one.len(),
    ensures
        settled(
            one,
            at,
            common,
            convert_arguments(scope, name, function, evaluated, done, one, floor, at),
            convert_arguments(scope, name, function, evaluated, done, other, floor, at),
        ),
    decreases
            room(one, floor),
            function_body_size(function),
            4int,
            if done.len() < evaluated.len() {
                evaluated.len() - done.len()
            } else {
                0
            },
{
    if done.len() < evaluated.len() {
        if at < one.len() {
            if let Answer::Value(Ok(value)) = one[at as int] {
                lemma_conversion_settled(
                    scope,
                    name,
                    function,
                    evaluated,
                    done.push(value),
                    one,
                    other,
                    common,
                    floor,
                    at + 1,
                );
            }
        }
    } else {
        lemma_defaults_settled(
            scope,
            name,
            function,
            done,
            Seq::empty(),
            one,
            other,
            common,
            floor,
            at,
        );
    }
}

/// A call whose defaults are evaluated.
proof fn lemma_defaults_settled(
    scope: Scope,
    name: Seq<char>,
    function: CustomFunction,
    arguments: Seq<Value>,
    done: Seq<Evaluated>,
    one: Seq<Answer>,
    other: Seq<Answer>,
    common: nat,
    floor: nat,
    at: nat,
)
    requires
        agree(one, other, common),
        floor <= at <= one.len(),
    ensures
        settled(
            one,
            at,
            common,
            evaluate_defaults(scope, name, function, arguments, done, one, floor, at),
            evaluate_defaults(scope, name, function, arguments, done, other, floor, at),
        ),
    decreases
            room(one, floor),
            function_body_size(function),
            3int,
            if done.len() < defaults(parameters(function)).len() {
                defaults(parameters(function)).len() - done.len()
            } else {
                0
            },
{
    let exprs = defaults(parameters(function));
    if done.len() < exprs.len() {
        lemma_item_size(exprs, done.len() as int);
        let default = exprs[done.len() as int];
        lemma_operands_settled(scope, default, Seq::empty(), one, other, common, floor, at);
        let outcome = evaluate_operands(scope, default, Seq::empty(), one, floor, at);
        if let Outcome::Returns(Ok(evaluated), p) = outcome {
            lemma_defaults_settled(
                scope,
                name,
                function,
                arguments,
                done.push(evaluated),
                one,
                other,
                common,
                floor,
                p,
            );
        }
    } else {
        lemma_default_conversion_settled(
            scope,
            name,
            function,
            arguments,
            done,
            Seq::empty(),
            one,
            other,
            common,
            floor,
            at,
        );
    }
}

/// A call whose defaults are converted.
proof fn lemma_default_conversion_settled(
    scope: Scope,
    name: Seq<char>,
    function: CustomFunction,
    arguments: Seq<Value>,
    evaluated: Seq<Evaluated>,
    done: Seq<Value>,
    one: Seq<Answer>,
    other: Seq<Answer>,
    common: nat,
    floor: nat,
    at: nat,
)
    requires
        agree(one, other, common),
        floor <= at <= one.len(),
    ensures
        settled(
            one,
            at,
            common,
            convert_defaults(scope, name, function, arguments, evaluated, done, one, floor, at),
            convert_defaults(scope, name, function, arguments, evaluated, done, other, floor, at),
        ),
    decreases
            room(one, floor),
            function_body_size(function),
            2int,
            if done.len() < evaluated.len() {
                evaluated.len() - done.len()
            } else {
                0
            },
{
    if done.len() < evaluated.len() {
        if at < one.len() {
            if let Answer::Value(Ok(value)) = one[at as int] {
                lemma_default_conversion_settled(
                    scope,
                    name,
                    function,
                    arguments,
                    evaluated,
                    done.push(value),
                    one,
                    other,
                    common,
                    floor,
                    at + 1,
                );
            }
        }
    } else {
        lemma_bind_settled(
            scope,
            name,
            function,
            arguments,
            done,
            0,
            0,
            Map::empty(),
            one,
            other,
            common,
            floor,
            at,
        );
    }
}

/// A call whose parameters are bound.
proof fn lemma_bind_settled(
    scope: Scope,
    name: Seq<char>,
    function: CustomFunction,
    arguments: Seq<Value>,
    spare: Seq<Value>,
    i: nat,
    used: nat,
    row: Map<Seq<char>, Value>,
    one: Seq<Answer>,
    other: Seq<Answer>,
    common: nat,
    floor: nat,
    at: nat,
)
    requires
        agree(one, other, common),
        floor <= at <= one.len(),
    ensures
        settled(
            one,
            at,
            common,
            bind(scope, name, function, arguments, spare, i, used, row, one, floor, at),
            bind(scope, name, function, arguments, spare, i, used, row, other, floor, at),
        ),
    decreases
            room(one, floor),
            function_body_size(function),
            1int,
            if i < parameters(function).len() {
                parameters(function).len() - i
            } else {
                0
            },
{
    if i < parameters(function).len() {
        if at + 1 < one.len() {
            let name_of = parameters(function)[i as int].name@;
            let given = argument(arguments, i);
            lemma_bind_settled(
                scope,
                name,
                function,
                arguments,
                spare,
                i + 1,
                used + 1,
                row.insert(name_of, spare[used as int]),
                one,
                other,
                common,
                floor,
                at + 2,
            );
            lemma_bind_settled(
                scope,
                name,
                function,
                arguments,
                spare,
                i + 1,
                used,
                row.insert(name_of, given),
                one,
                other,
                common,
                floor,
                at + 2,
            );
        }
        assert(settled(
            one,
            at + 1,
            common,
            bind_checked(
                scope,
                name,
                function,
                arguments,
                spare,
                i,
                used,
                row,
                one,
                floor,
                at + 1,
            ),
            bind_checked(
                scope,
                name,
                function,
                arguments,
                spare,
                i,
                used,
                row,
                other,
                floor,
                at + 1,
            ),
        ));
    } else if let Some(body) = function.return_ {
        let inner = Scope { context: Some(ContextView::Call { name, row }), ..scope };
        lemma_operands_settled(inner, body, Seq::empty(), one, other, common, floor, at);
    }
}

} // verus!
