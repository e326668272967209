//! Evaluates expressions.
//!
//! An evaluation asks its host for whatever it does not decide itself: operators and functions on
//! values, the rows of queries, the custom functions that are stored. It stops at each question
//! and goes on from the answer.
pub mod call_laws;
pub mod compose;
pub mod expression_laws;
pub mod fitting;
pub mod function_laws;
pub mod laws;
pub mod machine;
pub mod misfitting;
pub mod operands;
pub mod protocol;
pub mod protocol_laws;
pub mod semantics;
pub mod settled;
pub mod shifted;

use std::rc::Rc;

use chrono::NaiveDateTime;
use im_rc::HashMap;
use vstd::prelude::*;

use crate::ast::Expr;
use crate::context::RowContext;
use crate::data::{utc_now, Value};
use crate::executor::evaluate::machine::{begin_run, Evaluation, Step, Trace};
use crate::executor::evaluate::protocol::{Answer, Request, RequestView};
use crate::executor::evaluate::semantics::Outcome;

verus! {

/// The evaluation with the readings of the clock as further answers.
pub open spec fn read_on<'a>(trace: Trace<'a>, readings: Seq<NaiveDateTime>) -> Trace<'a> {
    Trace {
        log: trace.log + Seq::new(readings.len(), |i: int| Answer::Instant(readings[i])),
        ..trace
    }
}

/// Whether the evaluation asks for the time of day.
pub open spec fn asks_clock<'a>(trace: Trace<'a>) -> bool {
    trace.outcome() == Outcome::Asks(RequestView::Now)
}

/// Whether this is what an evaluation comes to with some readings of the clock, each of which it
/// asked for, and after which it asks for no more.
pub open spec fn reaches_with<'a>(
    step: Step<'a>,
    trace: Trace<'a>,
    readings: Seq<NaiveDateTime>,
) -> bool {
    &&& step.reaches(read_on(trace, readings))
    &&& !asks_clock(read_on(trace, readings))
    &&& forall|k: int|
        0 <= k < readings.len() ==> asks_clock(#[trigger] read_on(trace, readings.take(k)))
}

/// Answers the questions for the time of day.
fn settle<'a>(start: Step<'a>, trace: Ghost<Trace<'a>>) -> (step: Step<'a>)
    requires
        start.reaches(trace@),
        start.tells_clock(),
    ensures
        exists|readings: Seq<NaiveDateTime>| reaches_with(step, trace@, readings),
{
    let mut step = start;
    let mut readings: Ghost<Seq<NaiveDateTime>> = Ghost(Seq::empty());
    proof {
        assert(read_on(trace@, readings@).log =~= trace@.log);
    }
    loop
        invariant
            step.reaches(read_on(trace@, readings@)),
            step.tells_clock(),
            forall|k: int|
                0 <= k < readings@.len() ==> asks_clock(
                    #[trigger] read_on(trace@, readings@.take(k)),
                ),
        decreases step.work(),
    {
        match step {
            Step::Ask { request: Request::Now, evaluation } => {
                let now = utc_now();
                let ghost before = readings@;
                let ghost after = readings@.push(now);
                proof {
                    assert(read_on(trace@, after).log =~= read_on(trace@, before).answered(
                        Answer::Instant(now),
                    ).log);
                    assert forall|k: int| 0 <= k < after.len() implies asks_clock(
                        #[trigger] read_on(trace@, after.take(k)),
                    ) by {
                        if k < before.len() {
                            assert(after.take(k) =~= before.take(k));
                        } else {
                            assert(after.take(k) =~= before);
                        }
                    }
                    readings@ = after;
                }
                step = evaluation.proceed(Answer::Instant(now));
            },
            settled => {
                proof {
                    assert(reaches_with(settled, trace@, readings@));
                }
                return settled;
            },
        }
    }
}

/// Evaluates an expression, up to the first question to the host. Identifiers are found in the
/// context, and the values of aggregates in `aggregated`. The clock is read as it is asked for.
pub fn evaluate<'a>(
    context: Option<Rc<RowContext>>,
    aggregated: Option<Rc<HashMap<u64, Value>>>,
    expr: &'a Expr,
) -> (step: Step<'a>)
    ensures
        exists|readings: Seq<NaiveDateTime>|
            reaches_with(step, Trace::of(context, aggregated, *expr), readings),
{
    let trace: Ghost<Trace<'a>> = Ghost(Trace::of(context, aggregated, *expr));
    let step = begin_run(context, aggregated, expr);
    settle(step, trace)
}

impl<'a> Evaluation<'a> {
    /// Goes on from an answer, up to the next question to the host. The clock is read as it is
    /// asked for.
    pub fn resume(self, answer: Answer<'a>) -> (step: Step<'a>)
        ensures
            exists|readings: Seq<NaiveDateTime>|
                reaches_with(step, self@.answered(answer), readings),
    {
        let trace: Ghost<Trace<'a>> = Ghost(self@.answered(answer));
        let step = self.proceed(answer);
        settle(step, trace)
    }
}

} // verus!
