//! How an evaluation is put together from those of its operands.
use vstd::prelude::*;

use crate::ast::Expr;
use crate::data::Evaluated;
use crate::executor::evaluate::operands::operands;
use crate::executor::evaluate::protocol::{Answer, RequestView};
use crate::executor::evaluate::semantics::{combine, evaluate_operands, evaluation, Outcome, Scope};
use crate::executor::evaluate::settled::{agree, lemma_operands_settled};
use crate::executor::evaluate::shifted::{lemma_combine_shift, lemma_operands_shift, shifted};
use crate::result::Error;

verus! {

/// Whether these answers, all of them, make an expression give a result that is no error.
pub open spec fn gives(scope: Scope, e: Expr, log: Seq<Answer>, evaluated: Evaluated) -> bool {
    evaluation(scope, e, log) == Outcome::Returns(Ok(evaluated), log.len())
}

/// Whether these answers, all of them, make an expression end with an error or a result.
pub open spec fn ends_with(
    scope: Scope,
    e: Expr,
    log: Seq<Answer>,
    result: Result<Evaluated, Error>,
) -> bool {
    evaluation(scope, e, log) == Outcome::Returns(result, log.len())
}

/// Whether an expression asks the question after these answers.
pub open spec fn asks(scope: Scope, e: Expr, log: Seq<Answer>, request: RequestView) -> bool {
    evaluation(scope, e, log) == Outcome::Asks(request)
}

/// Whether an expression asks the question after these answers, and ends with the answer to it,
/// be it a result or an error.
pub open spec fn hands_on(
    scope: Scope,
    e: Expr,
    log: Seq<Answer>,
    request: RequestView,
) -> bool {
    &&& asks(scope, e, log, request)
    &&& forall|result: Result<Evaluated, Error>| #[trigger]
        ends_with(scope, e, log.push(Answer::Evaluated(result)), result)
}

/// Whether an outcome is anything but a result that is no error.
pub open spec fn stops(outcome: Outcome) -> bool {
    !(outcome matches Outcome::Returns(Ok(_), _))
}

/// Whether an expression evaluates another one in the scope that it stands in itself, right
/// after these answers, and comes to what that one comes to as long as that is no result.
pub open spec fn waits_for(scope: Scope, e: Expr, before: Seq<Answer>, operand: Expr) -> bool {
    forall|log: Seq<Answer>|
        stops(#[trigger] evaluation(scope, operand, log)) ==> evaluation(scope, e, before + log)
            == shifted(evaluation(scope, operand, log), before.len())
}

/// Whether an expression comes to just what another one comes to in the scope, right after these
/// answers.
pub open spec fn becomes(
    scope: Scope,
    e: Expr,
    before: Seq<Answer>,
    inner: Scope,
    other: Expr,
) -> bool {
    forall|log: Seq<Answer>|
        evaluation(scope, e, before + log) == shifted(
            #[trigger] evaluation(inner, other, log),
            before.len(),
        )
}

/// The logs one after the other.
pub open spec fn joined(logs: Seq<Seq<Answer>>) -> Seq<Answer>
    decreases logs.len(),
{
    if logs.len() == 0 {
        Seq::empty()
    } else {
        logs[0] + joined(logs.skip(1))
    }
}

/// Whether each operand that is there gives its result with its log. One that is not there has
/// neither.
pub open spec fn all_give(
    scope: Scope,
    slots: Seq<Option<Expr>>,
    logs: Seq<Seq<Answer>>,
    values: Seq<Option<Evaluated>>,
) -> bool {
    &&& logs.len() == slots.len()
    &&& values.len() == slots.len()
    &&& forall|i: int|
        0 <= i < slots.len() ==> match #[trigger] slots[i] {
            Some(operand) => values[i] matches Some(evaluated) && gives(
                scope,
                operand,
                logs[i],
                evaluated,
            ),
            None => values[i] is None && logs[i].len() == 0,
        }
}

/// Whether an expression evaluates its operands from left to right, each in the scope that it
/// stands in itself, and ends with the first that ends with an error.
pub open spec fn in_order(scope: Scope, e: Expr, slots: Seq<Option<Expr>>) -> bool {
    forall|logs: Seq<Seq<Answer>>, values: Seq<Option<Evaluated>>|
        logs.len() < slots.len() && slots[logs.len() as int] is Some && #[trigger] all_give(
            scope,
            slots.take(logs.len() as int),
            logs,
            values,
        ) ==> waits_for(scope, e, joined(logs), slots[logs.len() as int]->0)
}

/// An expression that gives a result gives it whatever is answered after it.
pub proof fn lemma_gives(
    scope: Scope,
    e: Expr,
    log: Seq<Answer>,
    evaluated: Evaluated,
    rest: Seq<Answer>,
)
    requires
        gives(scope, e, log, evaluated),
    ensures
        evaluation(scope, e, log + rest) == Outcome::Returns(Ok(evaluated), log.len()),
{
    assert(agree(log, log + rest, log.len()));
    lemma_operands_settled(scope, e, Seq::empty(), log, log + rest, log.len(), 0, 0);
}

/// The same in the midst of a log.
pub proof fn lemma_gives_within(
    scope: Scope,
    e: Expr,
    part: Seq<Answer>,
    evaluated: Evaluated,
    rest: Seq<Answer>,
    log: Seq<Answer>,
    floor: nat,
    at: nat,
)
    requires
        gives(scope, e, part, evaluated),
        floor <= at <= log.len(),
        log.skip(at as int) == part + rest,
    ensures
        evaluate_operands(scope, e, Seq::empty(), log, floor, at) == Outcome::Returns(
            Ok(evaluated),
            at + part.len(),
        ),
        at + part.len() <= log.len(),
        log.skip((at + part.len()) as int) == rest,
{
    lemma_gives(scope, e, part, evaluated, rest);
    lemma_operands_shift(scope, e, Seq::empty(), log, at, floor, 0, 0);
    assert(log.skip(at as int).len() == part.len() + rest.len());
    assert(log.skip((at + part.len()) as int) =~= log.skip(at as int).skip(part.len() as int));
    assert((part + rest).skip(part.len() as int) =~= rest);
}

/// The operands that logs were given for are evaluated.
proof fn lemma_operands_reached(
    scope: Scope,
    e: Expr,
    logs: Seq<Seq<Answer>>,
    values: Seq<Option<Evaluated>>,
    rest: Seq<Answer>,
    log: Seq<Answer>,
    k: int,
    at: nat,
)
    requires
        logs.len() <= operands(e).len(),
        all_give(scope, operands(e).take(logs.len() as int), logs, values),
        0 <= k <= logs.len(),
        at <= log.len(),
        log.skip(at as int) == joined(logs.skip(k)) + rest,
    ensures
        evaluate_operands(scope, e, values.take(k), log, 0, at) == evaluate_operands(
            scope,
            e,
            values,
            log,
            0,
            at + joined(logs.skip(k)).len(),
        ),
        at + joined(logs.skip(k)).len() <= log.len(),
        log.skip((at + joined(logs.skip(k)).len()) as int) == rest,
    decreases logs.len() - k,
{
    if k < logs.len() {
        let later = logs.skip(k + 1);
        assert(logs.skip(k).skip(1) =~= later);
        assert(joined(logs.skip(k)) =~= logs[k] + joined(later));
        assert(joined(logs.skip(k)) + rest =~= logs[k] + (joined(later) + rest));
        assert(operands(e).take(logs.len() as int)[k] == operands(e)[k]);
        assert(values.take(k + 1) =~= values.take(k).push(values[k]));
        match operands(e)[k] {
            Some(operand) => {
                lemma_gives_within(
                    scope,
                    operand,
                    logs[k],
                    values[k]->0,
                    joined(later) + rest,
                    log,
                    0,
                    at,
                );
                lemma_operands_reached(
                    scope,
                    e,
                    logs,
                    values,
                    rest,
                    log,
                    k + 1,
                    at + logs[k].len(),
                );
            },
            None => {
                assert(logs[k] + (joined(later) + rest) =~= joined(later) + rest);
                lemma_operands_reached(scope, e, logs, values, rest, log, k + 1, at);
            },
        }
    } else {
        assert(logs.skip(k).len() == 0);
        assert(values.take(k) =~= values);
        assert(joined(logs.skip(k)) + rest =~= rest);
    }
}

/// With all its operands evaluated, an expression comes to what is made of them.
pub proof fn lemma_operands_done(
    scope: Scope,
    e: Expr,
    slots: Seq<Option<Expr>>,
    logs: Seq<Seq<Answer>>,
    values: Seq<Option<Evaluated>>,
    rest: Seq<Answer>,
)
    requires
        operands(e) == slots,
        all_give(scope, slots, logs, values),
    ensures
        evaluation(scope, e, joined(logs) + rest) == shifted(
            combine(scope, e, values, rest, 0, 0),
            joined(logs).len(),
        ),
{
    let log = joined(logs) + rest;
    assert(logs.skip(0) =~= logs);
    assert(log.skip(0) =~= log);
    assert(values.take(0) =~= Seq::<Option<Evaluated>>::empty());
    assert(operands(e).take(logs.len() as int) =~= operands(e));
    lemma_operands_reached(scope, e, logs, values, rest, log, 0, 0);
    lemma_combine_shift(scope, e, values, log, joined(logs).len(), 0, 0, 0);
}

/// Operands are evaluated in their order.
pub proof fn lemma_in_order(scope: Scope, e: Expr, slots: Seq<Option<Expr>>)
    requires
        operands(e) == slots,
    ensures
        in_order(scope, e, slots),
{
    assert forall|logs: Seq<Seq<Answer>>, values: Seq<Option<Evaluated>>|
        logs.len() < slots.len() && slots[logs.len() as int] is Some && #[trigger] all_give(
            scope,
            slots.take(logs.len() as int),
            logs,
            values,
        ) implies waits_for(scope, e, joined(logs), slots[logs.len() as int]->0) by {
        let operand = slots[logs.len() as int]->0;
        assert forall|rest: Seq<Answer>|
            stops(#[trigger] evaluation(scope, operand, rest)) implies evaluation(
            scope,
            e,
            joined(logs) + rest,
        ) == shifted(evaluation(scope, operand, rest), joined(logs).len()) by {
            let log = joined(logs) + rest;
            assert(logs.skip(0) =~= logs);
            assert(log.skip(0) =~= log);
            assert(values.take(0) =~= Seq::<Option<Evaluated>>::empty());
            lemma_operands_reached(scope, e, logs, values, rest, log, 0, 0);
            lemma_operands_shift(
                scope,
                operand,
                Seq::empty(),
                log,
                joined(logs).len(),
                0,
                0,
                0,
            );
        }
    }
}

/// Whether each expression gives its result with its log.
pub open spec fn each_gives(
    scope: Scope,
    exprs: Seq<Expr>,
    logs: Seq<Seq<Answer>>,
    values: Seq<Evaluated>,
) -> bool {
    &&& logs.len() == exprs.len()
    &&& values.len() == exprs.len()
    &&& forall|i: int|
        0 <= i < exprs.len() ==> gives(scope, #[trigger] exprs[i], logs[i], values[i])
}

/// The logs, each followed by the answer that what it gave is not equal to what it was compared
/// with.
pub open spec fn passed_over(logs: Seq<Seq<Answer>>) -> Seq<Seq<Answer>> {
    Seq::new(logs.len(), |i: int| logs[i].push(Answer::Equal(false)))
}

/// An expression of one operand, with that evaluated, comes to what is made of it.
pub proof fn lemma_one_done(
    scope: Scope,
    e: Expr,
    operand: Expr,
    log: Seq<Answer>,
    evaluated: Evaluated,
    rest: Seq<Answer>,
)
    requires
        operands(e) =~= seq![Some(operand)],
        gives(scope, operand, log, evaluated),
    ensures
        evaluation(scope, e, log + rest) == shifted(
            combine(scope, e, seq![Some(evaluated)], rest, 0, 0),
            log.len(),
        ),
{
    let logs = seq![log];
    assert(logs.skip(1).len() == 0);
    assert(joined(logs.skip(1)) =~= Seq::<Answer>::empty());
    assert(joined(logs) =~= log);
    lemma_operands_done(
        scope,
        e,
        seq![Some(operand)],
        logs,
        seq![Some(evaluated)],
        rest,
    );
}

/// An expression waits for its first operand.
pub proof fn lemma_first_waits(scope: Scope, e: Expr, operand: Expr)
    requires
        operands(e).len() > 0,
        operands(e)[0] == Some(operand),
    ensures
        waits_for(scope, e, Seq::empty(), operand),
{
    assert forall|log: Seq<Answer>| stops(#[trigger] evaluation(scope, operand, log)) implies
        evaluation(scope, e, Seq::<Answer>::empty() + log) == shifted(
        evaluation(scope, operand, log),
        0,
    ) by {
        assert(Seq::<Answer>::empty() + log =~= log);
    }
}

/// An expression without operands comes to what is made of none.
pub proof fn lemma_none_done(scope: Scope, e: Expr, log: Seq<Answer>)
    requires
        operands(e).len() == 0,
    ensures
        evaluation(scope, e, log) == combine(scope, e, Seq::empty(), log, 0, 0),
{
}

} // verus!
