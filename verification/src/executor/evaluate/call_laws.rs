//! What holds of every call of a custom function.
use vstd::prelude::*;

use crate::ast::{CustomFunction, Expr, Function, OperateFunctionArg};
use crate::context::ContextView;
use crate::data::{Evaluated, Value};
use crate::executor::evaluate::compose::{
    asks, becomes, each_gives, ends_with, gives, joined, lemma_gives_within, lemma_none_done,
    stops, waits_for,
};
use crate::executor::evaluate::operands::operands;
use crate::executor::evaluate::protocol::{Answer, Fault, RequestView};
use crate::executor::evaluate::semantics::{
    argument, bind, bind_checked, callee, combine, convert_arguments, convert_defaults,
    defaults, evaluate_arguments, evaluate_defaults, evaluate_operands, evaluation,
    fetch_function, items, parameters, Outcome, Scope,
};
use crate::executor::evaluate::shifted::{
    lemma_conversion_shift, lemma_default_conversion_shift, lemma_defaults_shift,
    lemma_operands_shift, shifted,
};
use crate::result::{Error, EvaluateError};

verus! {

/// A call is an error where the number of arguments is less than that of the parameters without
/// a default, or more than that of all parameters. Otherwise the parameters are bound.
pub proof fn law_number_of_arguments(
    scope: Scope,
    name: Seq<char>,
    function: CustomFunction,
    arguments: Seq<Value>,
    evaluated: Seq<Evaluated>,
    spare: Seq<Value>,
    log: Seq<Answer>,
    floor: nat,
    at: nat,
)
    requires
        spare.len() == evaluated.len(),
    ensures
        convert_defaults(scope, name, function, arguments, evaluated, spare, log, floor, at)
            == if parameters(function).len() - spare.len() <= arguments.len() <= parameters(
            function,
        ).len() {
            bind(scope, name, function, arguments, spare, 0, 0, Map::empty(), log, floor, at)
        } else {
            Outcome::Returns(
                Err(
                    Error::Evaluate(
                        EvaluateError::FunctionArgsLengthNotWithinRange {
                            name: function.func_name,
                            expected_minimum: (parameters(function).len()
                                - spare.len()) as usize,
                            expected_maximum: parameters(function).len() as usize,
                            found: arguments.len() as usize,
                        },
                    ),
                ),
                at,
            )
        },
{
}

/// What the parameters from the one at `i` on are bound to. There is nothing where the defaults
/// run out.
pub open spec fn bound_row(
    parameters: Seq<OperateFunctionArg>,
    arguments: Seq<Value>,
    spare: Seq<Value>,
    i: nat,
    used: nat,
    row: Map<Seq<char>, Value>,
) -> Option<Map<Seq<char>, Value>>
    decreases parameters.len() - i,
{
    if i >= parameters.len() {
        Some(row)
    } else if !(argument(arguments, i) is Null) {
        let row = row.insert(parameters[i as int].name@, argument(arguments, i));
        bound_row(parameters, arguments, spare, i + 1, used, row)
    } else if used < spare.len() {
        let row = row.insert(parameters[i as int].name@, spare[used as int]);
        bound_row(parameters, arguments, spare, i + 1, used + 1, row)
    } else {
        None
    }
}

/// Whether so many answers from a position on say that a check was passed.
pub open spec fn passed(log: Seq<Answer>, at: nat, count: nat) -> bool {
    &&& at + count <= log.len()
    &&& forall|i: int| at <= i < at + count ==> (#[trigger] log[i] matches Answer::Checked(Ok(_)))
}

/// What the body of a function comes to with the parameters bound.
pub open spec fn evaluate_body(
    aggregated: Option<Map<u64, Value>>,
    name: Seq<char>,
    function: CustomFunction,
    row: Map<Seq<char>, Value>,
    log: Seq<Answer>,
) -> Outcome {
    match function.return_ {
        Some(body) => evaluation(
            Scope { context: Some(ContextView::Call { name, row }), aggregated },
            body,
            log,
        ),
        None => Outcome::Returns(Ok(Evaluated::Value(Value::Null)), 0),
    }
}

/// Once each argument has passed its two checks, a call comes to what the body comes to with the
/// parameters bound. Nothing but the parameters is in sight there: the context of the call does
/// not matter. A function without a body gives `NULL`.
pub proof fn law_call_evaluates_body(
    scope: Scope,
    name: Seq<char>,
    function: CustomFunction,
    arguments: Seq<Value>,
    spare: Seq<Value>,
    i: nat,
    used: nat,
    row: Map<Seq<char>, Value>,
    log: Seq<Answer>,
    floor: nat,
    at: nat,
)
    requires
        floor <= at,
        i <= parameters(function).len(),
        passed(log, at, (2 * (parameters(function).len() - i)) as nat),
    ensures
        bind(scope, name, function, arguments, spare, i, used, row, log, floor, at) == ({
            let end = (at + 2 * (parameters(function).len() - i)) as nat;
            match bound_row(parameters(function), arguments, spare, i, used, row) {
                Some(row) => shifted(
                    evaluate_body(
                        scope.aggregated,
                        name,
                        function,
                        row,
                        log.skip(end as int),
                    ),
                    end,
                ),
                None => Outcome::Faults(Fault::MissingDefault),
            }
        }),
    decreases parameters(function).len() - i,
{
    if i < parameters(function).len() {
        assert(log[at as int] matches Answer::Checked(Ok(_)));
        assert(log[at as int + 1] matches Answer::Checked(Ok(_)));
        reveal_with_fuel(bind, 2);
        reveal_with_fuel(bind_checked, 2);
        let parameter = parameters(function)[i as int].name@;
        let given = argument(arguments, i);
        if !(given is Null) {
            law_call_evaluates_body(
                scope,
                name,
                function,
                arguments,
                spare,
                i + 1,
                used,
                row.insert(parameter, given),
                log,
                floor,
                at + 2,
            );
        } else if used < spare.len() {
            law_call_evaluates_body(
                scope,
                name,
                function,
                arguments,
                spare,
                i + 1,
                used + 1,
                row.insert(parameter, spare[used as int]),
                log,
                floor,
                at + 2,
            );
        }
    } else if let Some(body) = function.return_ {
        let inner = Scope { context: Some(ContextView::Call { name, row }), ..scope };
        assert(inner == Scope {
            context: Some(ContextView::Call { name, row }),
            aggregated: scope.aggregated,
        });
        lemma_operands_shift(inner, body, Seq::empty(), log, at, floor, 0, 0);
    }
}

/// What a call gives for the parameter at `i`: `NULL` where it has no such argument.
pub open spec fn given(arguments: Seq<Value>, i: nat) -> Value {
    if i < arguments.len() {
        arguments[i as int]
    } else {
        Value::Null
    }
}

/// How many of the first parameters go without an argument.
pub open spec fn missing(arguments: Seq<Value>, i: nat) -> nat
    decreases i,
{
    if i == 0 {
        0
    } else {
        missing(arguments, (i - 1) as nat) + if given(arguments, (i - 1) as nat) is Null {
            1nat
        } else {
            0
        }
    }
}

/// Whether a parameter is the last one of its name among the first `end`.
pub open spec fn last_of_its_name(
    parameters: Seq<OperateFunctionArg>,
    j: int,
    end: int,
) -> bool {
    &&& 0 <= j < end
    &&& forall|l: int| j < l < end ==> #[trigger] parameters[l].name@ != parameters[j].name@
}

/// Whether some parameter among the first `end` has the name.
pub open spec fn is_name(parameters: Seq<OperateFunctionArg>, name: Seq<char>, end: int) -> bool {
    exists|j: int| 0 <= j < end && #[trigger] parameters[j].name@ == name
}

/// Whether the names in a row are those of the first `end` parameters, and each has the value
/// that the last parameter of that name is bound to.
pub open spec fn binds(
    row: Map<Seq<char>, Value>,
    parameters: Seq<OperateFunctionArg>,
    arguments: Seq<Value>,
    spare: Seq<Value>,
    end: int,
) -> bool {
    &&& forall|name: Seq<char>| #[trigger]
        row.contains_key(name) <==> is_name(parameters, name, end)
    &&& forall|j: int| #[trigger]
        last_of_its_name(parameters, j, end) ==> row[parameters[j].name@] == bound_value(
            arguments,
            spare,
            j as nat,
        )
}

/// What a parameter is bound to: its argument, or, where that is `NULL`, the default whose
/// number is that of the parameters before it that go without an argument.
pub open spec fn bound_value(arguments: Seq<Value>, spare: Seq<Value>, i: nat) -> Value {
    if given(arguments, i) is Null {
        spare[missing(arguments, i) as int]
    } else {
        given(arguments, i)
    }
}

/// One more parameter is bound.
proof fn lemma_binds_one_more(
    parameters: Seq<OperateFunctionArg>,
    arguments: Seq<Value>,
    spare: Seq<Value>,
    i: nat,
    row: Map<Seq<char>, Value>,
)
    requires
        i < parameters.len(),
        binds(row, parameters, arguments, spare, i as int),
    ensures
        binds(
            row.insert(parameters[i as int].name@, bound_value(arguments, spare, i)),
            parameters,
            arguments,
            spare,
            i as int + 1,
        ),
{
    let end = i as int + 1;
    let name = parameters[i as int].name@;
    let next = row.insert(name, bound_value(arguments, spare, i));
    assert forall|other: Seq<char>| #[trigger]
        next.contains_key(other) <==> is_name(parameters, other, end) by {
        if other == name {
            assert(parameters[i as int].name@ == other);
        } else if is_name(parameters, other, end) {
            let j = choose|j: int| 0 <= j < end && #[trigger] parameters[j].name@ == other;
            assert(j < i);
            assert(is_name(parameters, other, i as int));
        } else {
            assert(!is_name(parameters, other, i as int)) by {
                if is_name(parameters, other, i as int) {
                    let j = choose|j: int| 0 <= j < i && #[trigger] parameters[j].name@ == other;
                    assert(0 <= j < end && parameters[j].name@ == other);
                }
            }
        }
    }
    assert forall|j: int| #[trigger] last_of_its_name(parameters, j, end) implies next[
        parameters[j].name@] == bound_value(arguments, spare, j as nat) by {
        if j < i {
            assert(parameters[i as int].name@ != parameters[j].name@);
            assert(last_of_its_name(parameters, j, i as int));
        }
    }
}

/// A row that parameters are bound in, from the one at `i` on.
proof fn lemma_bound_row(
    parameters: Seq<OperateFunctionArg>,
    arguments: Seq<Value>,
    spare: Seq<Value>,
    i: nat,
    row: Map<Seq<char>, Value>,
)
    requires
        i <= parameters.len(),
        binds(row, parameters, arguments, spare, i as int),
    ensures
        bound_row(parameters, arguments, spare, i, missing(arguments, i), row) matches Some(
            bound,
        ) ==> binds(bound, parameters, arguments, spare, parameters.len() as int),
    decreases parameters.len() - i,
{
    if i < parameters.len() {
        let value = bound_value(arguments, spare, i);
        let next = row.insert(parameters[i as int].name@, value);
        lemma_binds_one_more(parameters, arguments, spare, i, row);
        lemma_bound_row(parameters, arguments, spare, i + 1, next);
    }
}

/// The names in sight of a function's body are those of its parameters. Each is bound to its
/// argument, or, where that is `NULL`, to the next default that was not used yet. Of parameters
/// with one name the last one counts.
pub proof fn law_parameters_are_bound(
    parameters: Seq<OperateFunctionArg>,
    arguments: Seq<Value>,
    spare: Seq<Value>,
)
    ensures
        bound_row(parameters, arguments, spare, 0, 0, Map::empty()) matches Some(bound)
            ==> binds(bound, parameters, arguments, spare, parameters.len() as int),
{
    lemma_bound_row(parameters, arguments, spare, 0, Map::empty());
}

/// Defaults of the first parameters come first.
proof fn lemma_defaults_take(parameters: Seq<OperateFunctionArg>, i: int)
    requires
        0 <= i <= parameters.len(),
    ensures
        defaults(parameters.take(i)).len() <= defaults(parameters).len(),
        forall|k: int|
            0 <= k < defaults(parameters.take(i)).len() ==> defaults(parameters)[k]
                == #[trigger] defaults(parameters.take(i))[k],
    decreases parameters.len() - i,
{
    if i < parameters.len() {
        lemma_defaults_take(parameters, i + 1);
        assert(parameters.take(i + 1).drop_last() =~= parameters.take(i));
        let before = defaults(parameters.take(i));
        let after = defaults(parameters.take(i + 1));
        assert forall|k: int| 0 <= k < before.len() implies defaults(parameters)[k]
            == #[trigger] before[k] by {
            assert(after[k] == before[k]);
        }
    } else {
        assert(parameters.take(i) =~= parameters);
    }
}

/// A parameter that goes without an argument is bound to its own default where as many
/// parameters before it go without one as have a default.
pub proof fn law_own_default(
    parameters: Seq<OperateFunctionArg>,
    arguments: Seq<Value>,
    i: nat,
    default: Expr,
)
    requires
        i < parameters.len(),
        parameters[i as int].default == Some(default),
        missing(arguments, i) == defaults(parameters.take(i as int)).len(),
    ensures
        missing(arguments, i) < defaults(parameters).len(),
        defaults(parameters)[missing(arguments, i) as int] == default,
{
    let after = parameters.take(i as int + 1);
    assert(after.drop_last() =~= parameters.take(i as int));
    lemma_defaults_take(parameters, i as int + 1);
    assert(defaults(after)[missing(arguments, i) as int] == default);
}

/// A call of a function that the store does not have is an error, whatever its arguments: none
/// of them is evaluated.
pub proof fn law_unknown_function(
    scope: Scope,
    name: String,
    exprs: Vec<Expr>,
    log: Seq<Answer>,
)
    requires
        log.len() > 0,
        log[0] == Answer::Function(Ok(None)),
    ensures
        evaluation(scope, Expr::Function(Box::new(Function::Custom { name, exprs })), log)
            == Outcome::Returns(
            Err(Error::Evaluate(EvaluateError::UnsupportedFunction(name))),
            1,
        ),
{
    let e = Expr::Function(Box::new(Function::Custom { name, exprs }));
    reveal_with_fuel(evaluate_operands, 3);
    reveal_with_fuel(combine, 3);
    reveal_with_fuel(fetch_function, 3);
    assert(operands(e).len() == 0);
}

/// A call without arguments of a function without parameters comes to what its body comes to
/// with nothing in sight.
pub proof fn law_call_without_parameters(
    scope: Scope,
    name: String,
    exprs: Vec<Expr>,
    function: &CustomFunction,
    log: Seq<Answer>,
)
    requires
        exprs@.len() == 0,
        parameters(*function).len() == 0,
        log.len() > 0,
        log[0] == Answer::Function(Ok(Some(function))),
    ensures
        evaluation(scope, Expr::Function(Box::new(Function::Custom { name, exprs })), log)
            == shifted(
            evaluate_body(scope.aggregated, name@, *function, Map::empty(), log.skip(1)),
            1,
        ),
{
    let e = Expr::Function(Box::new(Function::Custom { name, exprs }));
    assert(operands(e).len() == 0);
    assert(items(e) == exprs@);
    assert(evaluation(scope, e, log) == combine(scope, e, Seq::empty(), log, 0, 0));
    assert(combine(scope, e, Seq::empty(), log, 0, 0) == fetch_function(scope, e, log, 0, 0));
    let none = Seq::<Evaluated>::empty();
    let empty = Seq::<Value>::empty();
    assert(fetch_function(scope, e, log, 0, 0) == evaluate_arguments(
        scope,
        e,
        *function,
        none,
        log,
        0,
        1,
    ));
    assert(evaluate_arguments(scope, e, *function, none, log, 0, 1) == convert_arguments(
        scope,
        name@,
        *function,
        none,
        empty,
        log,
        1,
        1,
    ));
    assert(convert_arguments(scope, name@, *function, none, empty, log, 1, 1)
        == evaluate_defaults(scope, name@, *function, empty, none, log, 1, 1));
    assert(defaults(parameters(*function)).len() == 0);
    assert(evaluate_defaults(scope, name@, *function, empty, none, log, 1, 1)
        == convert_defaults(scope, name@, *function, empty, none, empty, log, 1, 1));
    law_number_of_arguments(scope, name@, *function, empty, none, empty, log, 1, 1);
    law_call_evaluates_body(
        scope,
        name@,
        *function,
        empty,
        empty,
        0,
        0,
        Map::empty(),
        log,
        1,
        1,
    );
}

/// The parameters that a function declares.
pub open spec fn declared(function: CustomFunction) -> Seq<OperateFunctionArg> {
    match function.args {
        Some(args) => args@,
        None => Seq::empty(),
    }
}

/// The defaults among them, in their order.
pub open spec fn declared_defaults(function: CustomFunction) -> Seq<Expr> {
    declared(function).filter(|p: OperateFunctionArg| p.default is Some).map_values(
        |p: OperateFunctionArg| p.default->0,
    )
}

/// The defaults that are evaluated are those that are declared.
proof fn lemma_defaults_declared(parameters: Seq<OperateFunctionArg>)
    ensures
        defaults(parameters) == parameters.filter(
            |p: OperateFunctionArg| p.default is Some,
        ).map_values(|p: OperateFunctionArg| p.default->0),
    decreases parameters.len(),
{
    let has = |p: OperateFunctionArg| p.default is Some;
    let get = |p: OperateFunctionArg| p.default->0;
    reveal(Seq::filter);
    if parameters.len() == 0 {
        assert(parameters.filter(has).map_values(get) =~= Seq::<Expr>::empty());
    } else {
        let before = parameters.drop_last();
        lemma_defaults_declared(before);
        if has(parameters.last()) {
            assert(before.filter(has).push(parameters.last()).map_values(get)
                =~= before.filter(has).map_values(get).push(get(parameters.last())));
        }
    }
}

/// A call of a custom function.
pub open spec fn call_of(name: String, exprs: Vec<Expr>) -> Expr {
    Expr::Function(Box::new(Function::Custom { name, exprs }))
}

/// The answer of a store that has the function.
pub open spec fn fetched<'a>(function: &'a CustomFunction) -> Seq<Answer<'a>> {
    seq![Answer::Function(Ok(Some(function)))]
}

/// The answers of a host that converts to these values.
pub open spec fn converted<'a>(values: Seq<Value>) -> Seq<Answer<'a>> {
    Seq::new(values.len(), |i: int| Answer::Value(Ok(values[i])))
}

/// The arguments that logs were given for are evaluated.
proof fn lemma_arguments_reached(
    scope: Scope,
    e: Expr,
    function: CustomFunction,
    logs: Seq<Seq<Answer>>,
    values: Seq<Evaluated>,
    rest: Seq<Answer>,
    log: Seq<Answer>,
    k: int,
    at: nat,
)
    requires
        logs.len() <= items(e).len(),
        each_gives(scope, items(e).take(logs.len() as int), logs, values),
        0 <= k <= logs.len(),
        at <= log.len(),
        log.skip(at as int) == joined(logs.skip(k)) + rest,
    ensures
        evaluate_arguments(scope, e, function, values.take(k), log, 0, at) == evaluate_arguments(
            scope,
            e,
            function,
            values,
            log,
            0,
            at + joined(logs.skip(k)).len(),
        ),
        at + joined(logs.skip(k)).len() <= log.len(),
        log.skip((at + joined(logs.skip(k)).len()) as int) == rest,
    decreases logs.len() - k,
{
    if k < logs.len() {
        let later = logs.skip(k + 1);
        assert(logs.skip(k).skip(1) =~= later);
        assert(joined(logs.skip(k)) =~= logs[k] + joined(later));
        assert(joined(logs.skip(k)) + rest =~= logs[k] + (joined(later) + rest));
        assert(items(e).take(logs.len() as int)[k] == items(e)[k]);
        assert(values.take(k + 1) =~= values.take(k).push(values[k]));
        let tail = joined(later) + rest;
        lemma_gives_within(scope, items(e)[k], logs[k], values[k], tail, log, 0, at);
        let p: nat = at + logs[k].len();
        lemma_arguments_reached(scope, e, function, logs, values, rest, log, k + 1, p);
    } else {
        assert(logs.skip(k).len() == 0);
        assert(values.take(k) =~= values);
        assert(joined(logs.skip(k)) + rest =~= rest);
    }
}

/// A call whose function was found goes on after the arguments that logs were given for.
proof fn lemma_call_begun<'a>(
    scope: Scope,
    name: String,
    exprs: Vec<Expr>,
    function: &'a CustomFunction,
    logs: Seq<Seq<Answer<'a>>>,
    values: Seq<Evaluated>,
    rest: Seq<Answer<'a>>,
)
    requires
        logs.len() <= exprs@.len(),
        each_gives(scope, exprs@.take(logs.len() as int), logs, values),
    ensures
        ({
            let log = (fetched(function) + joined(logs)) + rest;
            let at = 1 + joined(logs).len();
            &&& log.skip(at as int) == rest
            &&& evaluation(scope, call_of(name, exprs), log) == evaluate_arguments(
                scope,
                call_of(name, exprs),
                *function,
                values,
                log,
                0,
                at,
            )
        }),
{
    let e = call_of(name, exprs);
    let log = (fetched(function) + joined(logs)) + rest;
    assert(operands(e).len() == 0);
    assert(items(e) == exprs@);
    assert(evaluation(scope, e, log) == combine(scope, e, Seq::empty(), log, 0, 0));
    assert(combine(scope, e, Seq::empty(), log, 0, 0) == fetch_function(scope, e, log, 0, 0));
    assert(log[0] == Answer::Function(Ok(Some(function))));
    assert(fetch_function(scope, e, log, 0, 0) == evaluate_arguments(
        scope,
        e,
        *function,
        Seq::empty(),
        log,
        0,
        1,
    ));
    assert(log.skip(1) =~= joined(logs) + rest);
    assert(logs.skip(0) =~= logs);
    assert(values.take(0) =~= Seq::<Evaluated>::empty());
    lemma_arguments_reached(scope, e, *function, logs, values, rest, log, 0, 1);
}

/// A call is looked up in the store before anything else. An error of looking it up is the
/// result.
pub proof fn law_call_is_looked_up(scope: Scope, name: String, exprs: Vec<Expr>, error: Error)
    ensures
        asks(
            scope,
            call_of(name, exprs),
            Seq::empty(),
            RequestView::FetchFunction(name@),
        ),
        ends_with(
            scope,
            call_of(name, exprs),
            seq![Answer::Function(Err(error))],
            Err(error),
        ),
        ends_with(
            scope,
            call_of(name, exprs),
            seq![Answer::Function(Ok(None))],
            Err(Error::Evaluate(EvaluateError::UnsupportedFunction(name))),
        ),
{
    let e = call_of(name, exprs);
    assert(operands(e).len() == 0);
    lemma_none_done(scope, e, Seq::empty());
    lemma_none_done(scope, e, seq![Answer::Function(Err(error))]);
    lemma_none_done(scope, e, seq![Answer::Function(Ok(None))]);
    reveal_with_fuel(combine, 2);
    reveal_with_fuel(fetch_function, 2);
}

/// The arguments of a call see what the call itself sees: once the function was found, they are
/// evaluated one after the other in the very scope of the call.
pub proof fn law_arguments_see_what_the_call_sees<'a>(
    scope: Scope,
    name: String,
    exprs: Vec<Expr>,
    function: &'a CustomFunction,
    logs: Seq<Seq<Answer<'a>>>,
    values: Seq<Evaluated>,
)
    requires
        logs.len() < exprs@.len(),
        each_gives(scope, exprs@.take(logs.len() as int), logs, values),
    ensures
        waits_for(
            scope,
            call_of(name, exprs),
            fetched(function) + joined(logs),
            exprs@[logs.len() as int],
        ),
{
    let e = call_of(name, exprs);
    let argument = exprs@[logs.len() as int];
    let before = fetched(function) + joined(logs);
    assert forall|rest: Seq<Answer>| stops(#[trigger] evaluation(scope, argument, rest)) implies
        evaluation(scope, e, before + rest) == shifted(
        evaluation(scope, argument, rest),
        before.len(),
    ) by {
        lemma_call_begun(scope, name, exprs, function, logs, values, rest);
        let log = before + rest;
        lemma_operands_shift(scope, argument, Seq::empty(), log, before.len(), 0, 0, 0);
    }
}

/// Arguments are converted one after the other.
proof fn lemma_conversions(
    scope: Scope,
    name: Seq<char>,
    function: CustomFunction,
    evaluated: Seq<Evaluated>,
    values: Seq<Value>,
    rest: Seq<Answer>,
    k: int,
)
    requires
        values.len() <= evaluated.len(),
        0 <= k <= values.len(),
    ensures
        convert_arguments(
            scope,
            name,
            function,
            evaluated,
            values.take(k),
            converted(values) + rest,
            0,
            k as nat,
        ) == shifted(
            convert_arguments(scope, name, function, evaluated, values, rest, 0, 0),
            values.len(),
        ),
    decreases values.len() - k,
{
    let log = converted(values) + rest;
    if k < values.len() {
        assert(log[k] == Answer::Value(Ok(values[k])));
        assert(values.take(k + 1) =~= values.take(k).push(values[k]));
        lemma_conversions(scope, name, function, evaluated, values, rest, k + 1);
    } else {
        assert(values.take(k) =~= values);
        assert(log.skip(k) =~= rest);
        lemma_conversion_shift(
            scope,
            name,
            function,
            evaluated,
            values,
            log,
            values.len(),
            0,
            0,
            0,
        );
    }
}

/// A call goes on after the arguments that were converted.
proof fn lemma_call_converted<'a>(
    scope: Scope,
    name: String,
    exprs: Vec<Expr>,
    function: &'a CustomFunction,
    logs: Seq<Seq<Answer<'a>>>,
    evaluated: Seq<Evaluated>,
    values: Seq<Value>,
    rest: Seq<Answer<'a>>,
)
    requires
        each_gives(scope, exprs@, logs, evaluated),
        values.len() <= evaluated.len(),
    ensures
        evaluation(
            scope,
            call_of(name, exprs),
            (fetched(function) + joined(logs) + converted(values)) + rest,
        ) == shifted(
            convert_arguments(scope, name@, *function, evaluated, values, rest, 0, 0),
            1 + joined(logs).len() + values.len(),
        ),
{
    let e = call_of(name, exprs);
    let tail = converted(values) + rest;
    let log = (fetched(function) + joined(logs)) + tail;
    let at: nat = 1 + joined(logs).len();
    assert(exprs@.take(logs.len() as int) =~= exprs@);
    assert((fetched(function) + joined(logs) + converted(values)) + rest =~= log);
    lemma_call_begun(scope, name, exprs, function, logs, evaluated, tail);
    assert(items(e) == exprs@);
    assert(callee(e) == name);
    let none = Seq::<Value>::empty();
    assert(evaluate_arguments(scope, e, *function, evaluated, log, 0, at) == convert_arguments(
        scope,
        name@,
        *function,
        evaluated,
        none,
        log,
        at,
        at,
    ));
    lemma_conversion_shift(scope, name@, *function, evaluated, none, log, at, at, 0, 0);
    assert(values.take(0) =~= none);
    lemma_conversions(scope, name@, *function, evaluated, values, rest, 0);
}

/// Once they are evaluated, the arguments of a call are converted to values one after the other.
/// One that cannot be converted breaks the evaluation off.
pub proof fn law_arguments_are_converted<'a>(
    scope: Scope,
    name: String,
    exprs: Vec<Expr>,
    function: &'a CustomFunction,
    logs: Seq<Seq<Answer<'a>>>,
    evaluated: Seq<Evaluated>,
    values: Seq<Value>,
    error: Error,
)
    requires
        each_gives(scope, exprs@, logs, evaluated),
        values.len() < exprs@.len(),
    ensures
        ({
            let e = call_of(name, exprs);
            let log = fetched(function) + joined(logs) + converted(values);
            &&& asks(scope, e, log, RequestView::Convert(evaluated[values.len() as int]))
            &&& evaluation(scope, e, log.push(Answer::Value(Err(error)))) == Outcome::Faults(
                Fault::Inconvertible,
            )
        }),
{
    let log = fetched(function) + joined(logs) + converted(values);
    let none = Seq::<Answer>::empty();
    let refused = seq![Answer::Value(Err(error))];
    lemma_call_converted(scope, name, exprs, function, logs, evaluated, values, none);
    lemma_call_converted(scope, name, exprs, function, logs, evaluated, values, refused);
    assert(log + none =~= log);
    assert(log + refused =~= log.push(refused[0]));
}

/// The defaults that logs were given for are evaluated.
proof fn lemma_defaults_reached(
    scope: Scope,
    name: Seq<char>,
    function: CustomFunction,
    arguments: Seq<Value>,
    logs: Seq<Seq<Answer>>,
    values: Seq<Evaluated>,
    rest: Seq<Answer>,
    log: Seq<Answer>,
    k: int,
    at: nat,
)
    requires
        logs.len() <= defaults(parameters(function)).len(),
        each_gives(
            scope,
            defaults(parameters(function)).take(logs.len() as int),
            logs,
            values,
        ),
        0 <= k <= logs.len(),
        at <= log.len(),
        log.skip(at as int) == joined(logs.skip(k)) + rest,
    ensures
        evaluate_defaults(scope, name, function, arguments, values.take(k), log, 0, at)
            == shifted(
            evaluate_defaults(scope, name, function, arguments, values, rest, 0, 0),
            at + joined(logs.skip(k)).len(),
        ),
    decreases logs.len() - k,
{
    let exprs = defaults(parameters(function));
    if k < logs.len() {
        let later = logs.skip(k + 1);
        assert(logs.skip(k).skip(1) =~= later);
        assert(joined(logs.skip(k)) =~= logs[k] + joined(later));
        assert(joined(logs.skip(k)) + rest =~= logs[k] + (joined(later) + rest));
        assert(exprs.take(logs.len() as int)[k] == exprs[k]);
        assert(values.take(k + 1) =~= values.take(k).push(values[k]));
        let tail = joined(later) + rest;
        lemma_gives_within(scope, exprs[k], logs[k], values[k], tail, log, 0, at);
        let p: nat = at + logs[k].len();
        lemma_defaults_reached(
            scope,
            name,
            function,
            arguments,
            logs,
            values,
            rest,
            log,
            k + 1,
            p,
        );
    } else {
        assert(logs.skip(k).len() == 0);
        assert(values.take(k) =~= values);
        assert(joined(logs.skip(k)) + rest =~= rest);
        lemma_defaults_shift(scope, name, function, arguments, values, log, at, 0, 0, 0);
    }
}

/// A call goes on after the defaults that logs were given for.
proof fn lemma_call_with_defaults<'a>(
    scope: Scope,
    name: String,
    exprs: Vec<Expr>,
    function: &'a CustomFunction,
    logs: Seq<Seq<Answer<'a>>>,
    evaluated: Seq<Evaluated>,
    arguments: Seq<Value>,
    default_logs: Seq<Seq<Answer<'a>>>,
    default_values: Seq<Evaluated>,
    rest: Seq<Answer<'a>>,
)
    requires
        each_gives(scope, exprs@, logs, evaluated),
        arguments.len() == exprs@.len(),
        default_logs.len() <= declared_defaults(*function).len(),
        each_gives(
            scope,
            declared_defaults(*function).take(default_logs.len() as int),
            default_logs,
            default_values,
        ),
    ensures
        defaults(parameters(*function)) == declared_defaults(*function),
        evaluation(
            scope,
            call_of(name, exprs),
            (fetched(function) + joined(logs) + converted(arguments) + joined(default_logs)) + rest,
        ) == shifted(
            evaluate_defaults(scope, name@, *function, arguments, default_values, rest, 0, 0),
            1 + joined(logs).len() + arguments.len() + joined(default_logs).len(),
        ),
{
    let tail = joined(default_logs) + rest;
    lemma_defaults_declared(declared(*function));
    assert(parameters(*function) == declared(*function));
    lemma_call_converted(scope, name, exprs, function, logs, evaluated, arguments, tail);
    assert((fetched(function) + joined(logs) + converted(arguments) + joined(default_logs)) + rest
        =~= (fetched(function) + joined(logs) + converted(arguments)) + tail);
    let none = Seq::<Evaluated>::empty();
    assert(convert_arguments(scope, name@, *function, evaluated, arguments, tail, 0, 0)
        == evaluate_defaults(scope, name@, *function, arguments, none, tail, 0, 0));
    assert(default_logs.skip(0) =~= default_logs);
    assert(default_values.take(0) =~= none);
    assert(tail.skip(0) =~= tail);
    lemma_defaults_reached(
        scope,
        name@,
        *function,
        arguments,
        default_logs,
        default_values,
        rest,
        tail,
        0,
        0,
    );
}

/// After its arguments, a call evaluates all defaults that the function declares, one after the
/// other, in the very scope of the call, be they needed or not.
pub proof fn law_defaults_see_what_the_call_sees<'a>(
    scope: Scope,
    name: String,
    exprs: Vec<Expr>,
    function: &'a CustomFunction,
    logs: Seq<Seq<Answer<'a>>>,
    evaluated: Seq<Evaluated>,
    arguments: Seq<Value>,
    default_logs: Seq<Seq<Answer<'a>>>,
    default_values: Seq<Evaluated>,
)
    requires
        each_gives(scope, exprs@, logs, evaluated),
        arguments.len() == exprs@.len(),
        default_logs.len() < declared_defaults(*function).len(),
        each_gives(
            scope,
            declared_defaults(*function).take(default_logs.len() as int),
            default_logs,
            default_values,
        ),
    ensures
        waits_for(
            scope,
            call_of(name, exprs),
            fetched(function) + joined(logs) + converted(arguments) + joined(default_logs),
            declared_defaults(*function)[default_logs.len() as int],
        ),
{
    let e = call_of(name, exprs);
    let default = declared_defaults(*function)[default_logs.len() as int];
    let before = fetched(function) + joined(logs) + converted(arguments) + joined(default_logs);
    assert forall|rest: Seq<Answer>| stops(#[trigger] evaluation(scope, default, rest)) implies
        evaluation(scope, e, before + rest) == shifted(
        evaluation(scope, default, rest),
        before.len(),
    ) by {
        lemma_call_with_defaults(
            scope,
            name,
            exprs,
            function,
            logs,
            evaluated,
            arguments,
            default_logs,
            default_values,
            rest,
        );
    }
}

/// Defaults are converted one after the other.
proof fn lemma_default_conversions(
    scope: Scope,
    name: Seq<char>,
    function: CustomFunction,
    arguments: Seq<Value>,
    evaluated: Seq<Evaluated>,
    values: Seq<Value>,
    rest: Seq<Answer>,
    k: int,
)
    requires
        values.len() <= evaluated.len(),
        0 <= k <= values.len(),
    ensures
        convert_defaults(
            scope,
            name,
            function,
            arguments,
            evaluated,
            values.take(k),
            converted(values) + rest,
            0,
            k as nat,
        ) == shifted(
            convert_defaults(scope, name, function, arguments, evaluated, values, rest, 0, 0),
            values.len(),
        ),
    decreases values.len() - k,
{
    let log = converted(values) + rest;
    if k < values.len() {
        assert(log[k] == Answer::Value(Ok(values[k])));
        assert(values.take(k + 1) =~= values.take(k).push(values[k]));
        lemma_default_conversions(
            scope,
            name,
            function,
            arguments,
            evaluated,
            values,
            rest,
            k + 1,
        );
    } else {
        assert(values.take(k) =~= values);
        assert(log.skip(k) =~= rest);
        lemma_default_conversion_shift(
            scope,
            name,
            function,
            arguments,
            evaluated,
            values,
            log,
            values.len(),
            0,
            0,
            0,
        );
    }
}

/// Whether a call has its arguments and the defaults that the function declares evaluated, and
/// the arguments converted to these values.
pub open spec fn call_evaluated<'a>(
    scope: Scope,
    exprs: Vec<Expr>,
    function: &'a CustomFunction,
    logs: Seq<Seq<Answer<'a>>>,
    evaluated: Seq<Evaluated>,
    arguments: Seq<Value>,
    default_logs: Seq<Seq<Answer<'a>>>,
    default_values: Seq<Evaluated>,
) -> bool {
    &&& each_gives(scope, exprs@, logs, evaluated)
    &&& arguments.len() == exprs@.len()
    &&& each_gives(scope, declared_defaults(*function), default_logs, default_values)
}

/// The answers of such a call, with so many of the defaults converted.
pub open spec fn call_log<'a>(
    function: &'a CustomFunction,
    logs: Seq<Seq<Answer<'a>>>,
    arguments: Seq<Value>,
    default_logs: Seq<Seq<Answer<'a>>>,
    spare: Seq<Value>,
) -> Seq<Answer<'a>> {
    fetched(function) + joined(logs) + converted(arguments) + joined(default_logs) + converted(
        spare,
    )
}

/// A call goes on after the defaults that were converted.
proof fn lemma_call_prepared<'a>(
    scope: Scope,
    name: String,
    exprs: Vec<Expr>,
    function: &'a CustomFunction,
    logs: Seq<Seq<Answer<'a>>>,
    evaluated: Seq<Evaluated>,
    arguments: Seq<Value>,
    default_logs: Seq<Seq<Answer<'a>>>,
    default_values: Seq<Evaluated>,
    spare: Seq<Value>,
    rest: Seq<Answer<'a>>,
)
    requires
        call_evaluated(
            scope,
            exprs,
            function,
            logs,
            evaluated,
            arguments,
            default_logs,
            default_values,
        ),
        spare.len() <= default_values.len(),
    ensures
        evaluation(
            scope,
            call_of(name, exprs),
            call_log(function, logs, arguments, default_logs, spare) + rest,
        ) == shifted(
            convert_defaults(
                scope,
                name@,
                *function,
                arguments,
                default_values,
                spare,
                rest,
                0,
                0,
            ),
            call_log(function, logs, arguments, default_logs, spare).len(),
        ),
{
    let tail = converted(spare) + rest;
    let n = default_logs.len() as int;
    assert(declared_defaults(*function).take(n) =~= declared_defaults(*function));
    lemma_call_with_defaults(
        scope,
        name,
        exprs,
        function,
        logs,
        evaluated,
        arguments,
        default_logs,
        default_values,
        tail,
    );
    assert(call_log(function, logs, arguments, default_logs, spare) + rest =~= (fetched(function)
        + joined(logs) + converted(arguments) + joined(default_logs)) + tail);
    let none = Seq::<Value>::empty();
    assert(evaluate_defaults(scope, name@, *function, arguments, default_values, tail, 0, 0)
        == convert_defaults(
        scope,
        name@,
        *function,
        arguments,
        default_values,
        none,
        tail,
        0,
        0,
    ));
    assert(spare.take(0) =~= none);
    lemma_default_conversions(
        scope,
        name@,
        *function,
        arguments,
        default_values,
        spare,
        rest,
        0,
    );
}

/// Once they are evaluated, the defaults of a function are converted to values one after the
/// other. One that cannot be converted breaks the evaluation off.
pub proof fn law_defaults_are_converted<'a>(
    scope: Scope,
    name: String,
    exprs: Vec<Expr>,
    function: &'a CustomFunction,
    logs: Seq<Seq<Answer<'a>>>,
    evaluated: Seq<Evaluated>,
    arguments: Seq<Value>,
    default_logs: Seq<Seq<Answer<'a>>>,
    default_values: Seq<Evaluated>,
    spare: Seq<Value>,
    error: Error,
)
    requires
        call_evaluated(
            scope,
            exprs,
            function,
            logs,
            evaluated,
            arguments,
            default_logs,
            default_values,
        ),
        spare.len() < default_values.len(),
    ensures
        ({
            let e = call_of(name, exprs);
            let log = call_log(function, logs, arguments, default_logs, spare);
            &&& asks(scope, e, log, RequestView::Convert(default_values[spare.len() as int]))
            &&& evaluation(scope, e, log.push(Answer::Value(Err(error)))) == Outcome::Faults(
                Fault::Inconvertible,
            )
        }),
{
    let log = call_log(function, logs, arguments, default_logs, spare);
    let none = Seq::<Answer>::empty();
    let refused = seq![Answer::Value(Err(error))];
    lemma_call_prepared(
        scope,
        name,
        exprs,
        function,
        logs,
        evaluated,
        arguments,
        default_logs,
        default_values,
        spare,
        none,
    );
    lemma_call_prepared(
        scope,
        name,
        exprs,
        function,
        logs,
        evaluated,
        arguments,
        default_logs,
        default_values,
        spare,
        refused,
    );
    assert(log + none =~= log);
    assert(log + refused =~= log.push(refused[0]));
}

/// Whether a call with so many arguments has one for each parameter without a default, and none
/// too many.
pub open spec fn has_right_number(function: CustomFunction, count: nat) -> bool {
    declared(function).len() - declared_defaults(function).len() <= count <= declared(
        function,
    ).len()
}

/// A call with too few or too many arguments is an error, which tells the name of the function
/// as it is stored, the bounds, and how many arguments there are.
pub proof fn law_wrong_number_of_arguments<'a>(
    scope: Scope,
    name: String,
    exprs: Vec<Expr>,
    function: &'a CustomFunction,
    logs: Seq<Seq<Answer<'a>>>,
    evaluated: Seq<Evaluated>,
    arguments: Seq<Value>,
    default_logs: Seq<Seq<Answer<'a>>>,
    default_values: Seq<Evaluated>,
    spare: Seq<Value>,
)
    requires
        call_evaluated(
            scope,
            exprs,
            function,
            logs,
            evaluated,
            arguments,
            default_logs,
            default_values,
        ),
        spare.len() == default_values.len(),
        !has_right_number(*function, exprs@.len()),
    ensures
        ends_with(
            scope,
            call_of(name, exprs),
            call_log(function, logs, arguments, default_logs, spare),
            Err(
                Error::Evaluate(
                    EvaluateError::FunctionArgsLengthNotWithinRange {
                        name: function.func_name,
                        expected_minimum: (declared(*function).len() - declared_defaults(
                            *function,
                        ).len()) as usize,
                        expected_maximum: declared(*function).len() as usize,
                        found: exprs@.len() as usize,
                    },
                ),
            ),
        ),
{
    let log = call_log(function, logs, arguments, default_logs, spare);
    let none = Seq::<Answer>::empty();
    lemma_call_prepared(
        scope,
        name,
        exprs,
        function,
        logs,
        evaluated,
        arguments,
        default_logs,
        default_values,
        spare,
        none,
    );
    assert(log + none =~= log);
    assert(parameters(*function) == declared(*function));
}

/// The parameters that have passed their checks are bound.
proof fn lemma_bind_reached(
    scope: Scope,
    name: Seq<char>,
    function: CustomFunction,
    arguments: Seq<Value>,
    spare: Seq<Value>,
    log: Seq<Answer>,
    j: nat,
) -> (row: Map<Seq<char>, Value>)
    requires
        j <= declared(function).len(),
        passed(log, 0, 2 * j),
        missing(arguments, j) <= spare.len(),
    ensures
        binds(row, declared(function), arguments, spare, j as int),
        bind(scope, name, function, arguments, spare, 0, 0, Map::empty(), log, 0, 0) == bind(
            scope,
            name,
            function,
            arguments,
            spare,
            j,
            missing(arguments, j),
            row,
            log,
            0,
            2 * j,
        ),
    decreases j,
{
    let params = declared(function);
    assert(parameters(function) == params);
    if j == 0 {
        Map::empty()
    } else {
        let i = (j - 1) as nat;
        let before = lemma_bind_reached(scope, name, function, arguments, spare, log, i);
        let row = before.insert(params[i as int].name@, bound_value(arguments, spare, i));
        lemma_binds_one_more(params, arguments, spare, i, before);
        let at: nat = 2 * i;
        assert(log[at as int] matches Answer::Checked(Ok(_)));
        assert(log[at as int + 1] matches Answer::Checked(Ok(_)));
        reveal_with_fuel(bind, 2);
        reveal_with_fuel(bind_checked, 2);
        assert(argument(arguments, i) == given(arguments, i));
        row
    }
}

/// Whether so many answers say, all of them, that a check was passed.
pub open spec fn checks_passed(log: Seq<Answer>, count: nat) -> bool {
    &&& log.len() == count
    &&& forall|i: int| 0 <= i < count ==> (#[trigger] log[i] matches Answer::Checked(Ok(_)))
}

/// With the right number of arguments, each parameter is checked in turn: that what the call
/// gives for it is of its type, and that it is not `NULL` unless the parameter has a default.
/// What the call does not give counts as `NULL`. A check that fails is the result. Where more
/// parameters go without an argument than there are defaults, the evaluation is broken off.
pub proof fn law_parameters_are_checked<'a>(
    scope: Scope,
    name: String,
    exprs: Vec<Expr>,
    function: &'a CustomFunction,
    logs: Seq<Seq<Answer<'a>>>,
    evaluated: Seq<Evaluated>,
    arguments: Seq<Value>,
    default_logs: Seq<Seq<Answer<'a>>>,
    default_values: Seq<Evaluated>,
    spare: Seq<Value>,
    checked: Seq<Answer<'a>>,
    j: nat,
    error: Error,
)
    requires
        call_evaluated(
            scope,
            exprs,
            function,
            logs,
            evaluated,
            arguments,
            default_logs,
            default_values,
        ),
        spare.len() == default_values.len(),
        has_right_number(*function, exprs@.len()),
        j < declared(*function).len(),
        checks_passed(checked, 2 * j),
        missing(arguments, j) <= spare.len(),
    ensures
        ({
            let e = call_of(name, exprs);
            let parameter = declared(*function)[j as int];
            let value = given(arguments, j);
            let log = call_log(function, logs, arguments, default_logs, spare) + checked;
            let next = log.push(Answer::Checked(Ok(())));
            &&& asks(
                scope,
                e,
                log,
                RequestView::ValidateType { value, data_type: parameter.data_type },
            )
            &&& ends_with(scope, e, log.push(Answer::Checked(Err(error))), Err(error))
            &&& asks(
                scope,
                e,
                next,
                RequestView::ValidateNull { value, nullable: parameter.default is Some },
            )
            &&& ends_with(scope, e, next.push(Answer::Checked(Err(error))), Err(error))
            &&& value is Null && missing(arguments, j) == spare.len() ==> evaluation(
                scope,
                e,
                next.push(Answer::Checked(Ok(()))),
            ) == Outcome::Faults(Fault::MissingDefault)
        }),
{
    let prepared = call_log(function, logs, arguments, default_logs, spare);
    let log = prepared + checked;
    let pass = Answer::Checked(Ok(()));
    let fail = Answer::Checked(Err(error));
    let next = log.push(pass);
    lemma_checked_step(
        scope,
        name,
        exprs,
        function,
        logs,
        evaluated,
        arguments,
        default_logs,
        default_values,
        spare,
        checked,
        Seq::empty(),
        j,
    );
    lemma_checked_step(
        scope,
        name,
        exprs,
        function,
        logs,
        evaluated,
        arguments,
        default_logs,
        default_values,
        spare,
        checked,
        seq![fail],
        j,
    );
    lemma_checked_step(
        scope,
        name,
        exprs,
        function,
        logs,
        evaluated,
        arguments,
        default_logs,
        default_values,
        spare,
        checked,
        seq![pass],
        j,
    );
    lemma_checked_step(
        scope,
        name,
        exprs,
        function,
        logs,
        evaluated,
        arguments,
        default_logs,
        default_values,
        spare,
        checked,
        seq![pass, fail],
        j,
    );
    lemma_checked_step(
        scope,
        name,
        exprs,
        function,
        logs,
        evaluated,
        arguments,
        default_logs,
        default_values,
        spare,
        checked,
        seq![pass, pass],
        j,
    );
    assert(prepared + (checked + Seq::empty()) =~= log);
    assert(prepared + (checked + seq![fail]) =~= log.push(fail));
    assert(prepared + (checked + seq![pass]) =~= next);
    assert(prepared + (checked + seq![pass, fail]) =~= next.push(fail));
    assert(prepared + (checked + seq![pass, pass]) =~= next.push(pass));
    reveal_with_fuel(bind, 2);
    reveal_with_fuel(bind_checked, 2);
    assert(argument(arguments, j) == given(arguments, j));
    assert(parameters(*function) == declared(*function));
}

/// A call goes on after the parameters that have passed their checks.
proof fn lemma_checked_step<'a>(
    scope: Scope,
    name: String,
    exprs: Vec<Expr>,
    function: &'a CustomFunction,
    logs: Seq<Seq<Answer<'a>>>,
    evaluated: Seq<Evaluated>,
    arguments: Seq<Value>,
    default_logs: Seq<Seq<Answer<'a>>>,
    default_values: Seq<Evaluated>,
    spare: Seq<Value>,
    checked: Seq<Answer<'a>>,
    rest: Seq<Answer<'a>>,
    j: nat,
) -> (row: Map<Seq<char>, Value>)
    requires
        call_evaluated(
            scope,
            exprs,
            function,
            logs,
            evaluated,
            arguments,
            default_logs,
            default_values,
        ),
        spare.len() == default_values.len(),
        has_right_number(*function, exprs@.len()),
        j <= declared(*function).len(),
        checks_passed(checked, 2 * j),
        missing(arguments, j) <= spare.len(),
    ensures
        binds(row, declared(*function), arguments, spare, j as int),
        evaluation(
            scope,
            call_of(name, exprs),
            call_log(function, logs, arguments, default_logs, spare) + (checked + rest),
        ) == shifted(
            bind(
                scope,
                name@,
                *function,
                arguments,
                spare,
                j,
                missing(arguments, j),
                row,
                checked + rest,
                0,
                2 * j,
            ),
            call_log(function, logs, arguments, default_logs, spare).len(),
        ),
{
    let all = checked + rest;
    lemma_call_prepared(
        scope,
        name,
        exprs,
        function,
        logs,
        evaluated,
        arguments,
        default_logs,
        default_values,
        spare,
        all,
    );
    assert(parameters(*function) == declared(*function));
    assert forall|i: int| 0 <= i < 2 * j implies (#[trigger] all[i] matches Answer::Checked(
        Ok(_),
    )) by {
        assert(checked[i] matches Answer::Checked(Ok(_)));
    }
    lemma_bind_reached(scope, name@, *function, arguments, spare, all, j)
}

/// Once all parameters have passed their checks, a call is what the body of the function is with
/// the parameters, and nothing else, in sight, and with the aggregates of the call. Each
/// parameter is bound to what the call gives for it, or, where that is `NULL`, to the next
/// default that was not used yet; of parameters with one name the last one counts. A function
/// without a body gives `NULL`.
pub proof fn law_call_is_its_body<'a>(
    scope: Scope,
    name: String,
    exprs: Vec<Expr>,
    function: &'a CustomFunction,
    logs: Seq<Seq<Answer<'a>>>,
    evaluated: Seq<Evaluated>,
    arguments: Seq<Value>,
    default_logs: Seq<Seq<Answer<'a>>>,
    default_values: Seq<Evaluated>,
    spare: Seq<Value>,
    checked: Seq<Answer<'a>>,
)
    requires
        call_evaluated(
            scope,
            exprs,
            function,
            logs,
            evaluated,
            arguments,
            default_logs,
            default_values,
        ),
        spare.len() == default_values.len(),
        has_right_number(*function, exprs@.len()),
        checks_passed(checked, 2 * declared(*function).len()),
        missing(arguments, declared(*function).len()) <= spare.len(),
    ensures
        ({
            let e = call_of(name, exprs);
            let params = declared(*function);
            let log = call_log(function, logs, arguments, default_logs, spare) + checked;
            match function.return_ {
                Some(body) => exists|row: Map<Seq<char>, Value>| #[trigger]
                    binds(row, params, arguments, spare, params.len() as int) && becomes(
                        scope,
                        e,
                        log,
                        Scope {
                            context: Some(ContextView::Call { name: name@, row }),
                            aggregated: scope.aggregated,
                        },
                        body,
                    ),
                None => gives(scope, e, log, Evaluated::Value(Value::Null)),
            }
        }),
{
    let e = call_of(name, exprs);
    let params = declared(*function);
    let prepared = call_log(function, logs, arguments, default_logs, spare);
    let log = prepared + checked;
    let n = params.len();
    let none = Seq::<Answer>::empty();
    assert(parameters(*function) == params);
    let row = lemma_checked_step(
        scope,
        name,
        exprs,
        function,
        logs,
        evaluated,
        arguments,
        default_logs,
        default_values,
        spare,
        checked,
        none,
        n,
    );
    assert(prepared + (checked + none) =~= log);
    if let Some(body) = function.return_ {
        let inner = Scope {
            context: Some(ContextView::Call { name: name@, row }),
            aggregated: scope.aggregated,
        };
        assert forall|rest: Seq<Answer>|
            evaluation(scope, e, log + rest) == shifted(
                #[trigger] evaluation(inner, body, rest),
                log.len(),
            ) by {
            let other = lemma_checked_step(
                scope,
                name,
                exprs,
                function,
                logs,
                evaluated,
                arguments,
                default_logs,
                default_values,
                spare,
                checked,
                rest,
                n,
            );
            lemma_binds_same(row, other, params, arguments, spare);
            let all = checked + rest;
            assert(prepared + all =~= log + rest);
            assert(all.skip(2 * n as int) =~= rest);
            lemma_operands_shift(inner, body, Seq::empty(), all, 2 * n, 0, 0, 0);
        }
    }
}

/// The last parameter of a name.
proof fn lemma_last_of_its_name(
    parameters: Seq<OperateFunctionArg>,
    name: Seq<char>,
    end: int,
) -> (j: int)
    requires
        0 <= end <= parameters.len(),
        is_name(parameters, name, end),
    ensures
        last_of_its_name(parameters, j, end),
        parameters[j].name@ == name,
    decreases end,
{
    if parameters[end - 1].name@ == name {
        end - 1
    } else {
        let i = choose|i: int| 0 <= i < end && #[trigger] parameters[i].name@ == name;
        assert(i < end - 1);
        assert(is_name(parameters, name, end - 1));
        let j = lemma_last_of_its_name(parameters, name, end - 1);
        assert forall|l: int| j < l < end implies #[trigger] parameters[l].name@
            != parameters[j].name@ by {
            assert(l == end - 1 || l < end - 1);
        }
        j
    }
}

/// There is one row that the parameters of a call are bound in.
proof fn lemma_binds_same(
    row: Map<Seq<char>, Value>,
    other: Map<Seq<char>, Value>,
    parameters: Seq<OperateFunctionArg>,
    arguments: Seq<Value>,
    spare: Seq<Value>,
)
    requires
        binds(row, parameters, arguments, spare, parameters.len() as int),
        binds(other, parameters, arguments, spare, parameters.len() as int),
    ensures
        row == other,
{
    let end = parameters.len() as int;
    assert forall|name: Seq<char>| row.contains_key(name) implies row[name] == other[name] by {
        assert(is_name(parameters, name, end));
        let j = lemma_last_of_its_name(parameters, name, end);
        assert(last_of_its_name(parameters, j, end));
    }
    assert forall|name: Seq<char>| row.contains_key(name) <==> other.contains_key(name) by {
        assert(row.contains_key(name) <==> is_name(parameters, name, end));
        assert(other.contains_key(name) <==> is_name(parameters, name, end));
    }
    assert(row =~= other);
}

} // verus!
