//! What holds of every creation and every dropping of functions.
use vstd::prelude::*;

use crate::ast::{CustomFunction, Expr, OperateFunctionArg};
use crate::executor::alter::function::{
    checks, delete_from, deletion, deletion_reaches, insert_from, insertion,
    insertion_questions, insertion_reaches, judge_deletion, judge_insertion, AlterStep,
    Deletion, DeletionTrace, Insertion, InsertionTrace, Progress, StoreAnswer, StoreRequest,
    StoreRequestView,
};
use crate::result::{AlterError, Error};

verus! {

/// Whether an answer lets the creation of a function go on.
pub open spec fn lets_go_on(
    function: CustomFunction,
    or_replace: bool,
    log: Seq<StoreAnswer>,
    i: int,
) -> bool {
    judge_insertion(
        function.func_name,
        or_replace,
        insertion_questions(function)[i],
        log[i],
    ) is GoOn
}

/// The creation of a function from a question on.
proof fn lemma_insert_from(
    function: CustomFunction,
    or_replace: bool,
    log: Seq<StoreAnswer>,
    k: nat,
)
    requires
        k <= insertion_questions(function).len(),
    ensures
        insert_from(function, or_replace, log, k) matches Progress::Asks(request) ==> {
            let asked = if k <= log.len() {
                log.len()
            } else {
                k
            };
            &&& asked < insertion_questions(function).len()
            &&& request == insertion_questions(function)[asked as int]
            &&& forall|i: int|
                k <= i < asked ==> #[trigger] lets_go_on(function, or_replace, log, i)
        },
        insert_from(function, or_replace, log, k) == Progress::Returns(
            Ok(()),
            insertion_questions(function).len(),
        ) <==> {
            &&& k < insertion_questions(function).len() ==> insertion_questions(function).len()
                <= log.len()
            &&& forall|i: int|
                k <= i < insertion_questions(function).len() ==> #[trigger] lets_go_on(
                    function,
                    or_replace,
                    log,
                    i,
                )
        },
    decreases insertion_questions(function).len() - k,
{
    if k < insertion_questions(function).len() && k < log.len() {
        if lets_go_on(function, or_replace, log, k as int) {
            lemma_insert_from(function, or_replace, log, k + 1);
        }
    }
}

/// The questions of a creation are put in their order, each once those before it have been
/// answered so that it goes on.
pub proof fn law_insertion_asks_in_order(
    function: CustomFunction,
    or_replace: bool,
    log: Seq<StoreAnswer>,
)
    ensures
        insertion(function, or_replace, log) matches Progress::Asks(request) ==> {
            &&& log.len() < insertion_questions(function).len()
            &&& request == insertion_questions(function)[log.len() as int]
            &&& forall|i: int|
                0 <= i < log.len() ==> #[trigger] lets_go_on(function, or_replace, log, i)
        },
{
    lemma_insert_from(function, or_replace, log, 0);
}

/// A creation succeeds where every question has been answered so that it goes on, and only
/// there.
pub proof fn law_insertion_succeeds(
    function: CustomFunction,
    or_replace: bool,
    log: Seq<StoreAnswer>,
)
    ensures
        insertion(function, or_replace, log) == Progress::Returns(
            Ok(()),
            insertion_questions(function).len(),
        ) <==> {
            &&& insertion_questions(function).len() <= log.len()
            &&& forall|i: int|
                0 <= i < insertion_questions(function).len() ==> #[trigger] lets_go_on(
                    function,
                    or_replace,
                    log,
                    i,
                )
        },
{
    lemma_insert_from(function, or_replace, log, 0);
}

/// Whether a question changes the store.
pub open spec fn changes_store(request: StoreRequestView) -> bool {
    request is DeleteFunction || request is InsertFunction
}

/// Whether all parameters have passed their checks.
pub open spec fn checks_passed(function: CustomFunction, log: Seq<StoreAnswer>) -> bool {
    &&& checks(function.args).len() <= log.len()
    &&& forall|i: int|
        0 <= i < checks(function.args).len() ==> (#[trigger] log[i] matches StoreAnswer::Checked(
            Ok(_),
        ))
}

/// The store is left alone unless all parameters have passed their checks and either it has no
/// function of that name or that function is to be replaced.
pub proof fn law_store_is_left_alone(
    function: CustomFunction,
    or_replace: bool,
    log: Seq<StoreAnswer>,
)
    ensures
        insertion(function, or_replace, log) matches Progress::Asks(request) && changes_store(
            request,
        ) ==> {
            &&& checks_passed(function, log)
            &&& checks(function.args).len() < log.len()
            &&& log[checks(function.args).len() as int] matches StoreAnswer::Found(Ok(found))
            &&& !found || or_replace
        },
{
    lemma_insert_from(function, or_replace, log, 0);
    match insertion(function, or_replace, log) {
        Progress::Asks(request) => {
            if changes_store(request) {
                assert forall|i: int| 0 <= i < checks(function.args).len() implies (
                #[trigger] log[i] matches StoreAnswer::Checked(Ok(_))) by {
                    assert(lets_go_on(function, or_replace, log, i));
                }
                assert(lets_go_on(
                    function,
                    or_replace,
                    log,
                    checks(function.args).len() as int,
                ));
            }
        },
        _ => {},
    }
}

/// A function is inserted only right after the one of its name has been deleted.
pub proof fn law_deletion_precedes_insertion(
    function: CustomFunction,
    or_replace: bool,
    log: Seq<StoreAnswer>,
)
    ensures
        insertion(function, or_replace, log) matches Progress::Asks(
            StoreRequestView::InsertFunction(inserted),
        ) ==> {
            &&& inserted == function
            &&& log.len() > 0
            &&& insertion_questions(function)[log.len() - 1] == StoreRequestView::DeleteFunction(
                function.func_name@,
            )
            &&& log.last() matches StoreAnswer::Stored(Ok(_))
        },
{
    lemma_insert_from(function, or_replace, log, 0);
    match insertion(function, or_replace, log) {
        Progress::Asks(StoreRequestView::InsertFunction(inserted)) => {
            assert(lets_go_on(function, or_replace, log, log.len() - 1));
        },
        _ => {},
    }
}

/// The creation of a function whose parameters have passed their checks up to a question.
proof fn lemma_checks_passed(
    function: CustomFunction,
    or_replace: bool,
    log: Seq<StoreAnswer>,
    k: nat,
)
    requires
        checks_passed(function, log),
        k <= checks(function.args).len(),
    ensures
        insert_from(function, or_replace, log, k) == insert_from(
            function,
            or_replace,
            log,
            checks(function.args).len(),
        ),
    decreases checks(function.args).len() - k,
{
    if k < checks(function.args).len() {
        assert(log[k as int] matches StoreAnswer::Checked(Ok(_)));
        lemma_checks_passed(function, or_replace, log, k + 1);
    }
}

/// A function of a name that the store already has is refused unless it is to replace that one.
/// The store is not asked for anything more.
pub proof fn law_existing_function_is_kept(function: CustomFunction, log: Seq<StoreAnswer>)
    requires
        checks_passed(function, log),
        checks(function.args).len() < log.len(),
        log[checks(function.args).len() as int] == StoreAnswer::Found(Ok(true)),
    ensures
        insertion(function, false, log) == Progress::Returns(
            Err(
                Error::Alter(
                    AlterError::FunctionAlreadyExists(function.func_name),
                ),
            ),
            checks(function.args).len() + 1,
        ),
{
    lemma_checks_passed(function, false, log, 0);
}

/// The dropping of functions from one on.
proof fn lemma_delete_from(
    func_names: Seq<String>,
    if_exists: bool,
    log: Seq<StoreAnswer>,
    k: nat,
)
    requires
        k <= func_names.len(),
        k <= log.len(),
    ensures
        match delete_from(func_names, if_exists, log, k) {
            Progress::Asks(request) => {
                &&& log.len() < func_names.len()
                &&& request == StoreRequestView::DeleteFunction(func_names[log.len() as int]@)
            },
            Progress::Returns(Ok(unit), used) => {
                &&& unit == ()
                &&& used == func_names.len() <= log.len()
                &&& forall|i: int|
                    k <= i < used ==> (#[trigger] log[i] matches StoreAnswer::Stored(result)
                        && (if_exists || result is Ok))
            },
            Progress::Returns(Err(error), used) => {
                &&& !if_exists
                &&& k < used <= func_names.len()
                &&& used <= log.len()
                &&& log[used - 1] == StoreAnswer::Stored(Err(error))
                &&& forall|i: int|
                    k <= i < used - 1 ==> (#[trigger] log[i] matches StoreAnswer::Stored(Ok(_)))
            },
            Progress::Misfits => exists|i: int|
                k <= i < func_names.len() && i < log.len() && !(#[trigger] log[i] is Stored),
        },
    decreases func_names.len() - k,
{
    if k < func_names.len() && k < log.len() {
        if judge_deletion(if_exists, log[k as int]) is GoOn {
            lemma_delete_from(func_names, if_exists, log, k + 1);
        }
    }
}

/// Functions are dropped in the order in which they are named.
pub proof fn law_deletion_asks_in_order(
    func_names: Seq<String>,
    if_exists: bool,
    log: Seq<StoreAnswer>,
)
    ensures
        deletion(func_names, if_exists, log) matches Progress::Asks(request) ==> {
            &&& log.len() < func_names.len()
            &&& request == StoreRequestView::DeleteFunction(func_names[log.len() as int]@)
        },
{
    lemma_delete_from(func_names, if_exists, log, 0);
}

/// Dropping functions succeeds where each was dropped or need not exist, and only there.
pub proof fn law_deletion_succeeds(
    func_names: Seq<String>,
    if_exists: bool,
    log: Seq<StoreAnswer>,
)
    ensures
        deletion(func_names, if_exists, log) == Progress::Returns(Ok(()), func_names.len()) <==> {
            &&& func_names.len() <= log.len()
            &&& forall|i: int|
                0 <= i < func_names.len() ==> (#[trigger] log[i] matches StoreAnswer::Stored(
                    result,
                ) && (if_exists || result is Ok))
        },
{
    lemma_delete_from(func_names, if_exists, log, 0);
}

/// Dropping functions that need not exist never fails.
pub proof fn law_deletion_if_exists_never_fails(func_names: Seq<String>, log: Seq<StoreAnswer>)
    ensures
        deletion(func_names, true, log) matches Progress::Returns(result, _) ==> result is Ok,
{
    lemma_delete_from(func_names, true, log, 0);
}

/// Dropping functions fails at the first that cannot be dropped, with that error, and drops no
/// more.
pub proof fn law_deletion_fails_at_first_error(func_names: Seq<String>, log: Seq<StoreAnswer>)
    ensures
        deletion(func_names, false, log) matches Progress::Returns(Err(error), used) ==> {
            &&& 0 < used <= log.len()
            &&& log[used - 1] == StoreAnswer::Stored(Err(error))
            &&& forall|i: int|
                0 <= i < used - 1 ==> (#[trigger] log[i] matches StoreAnswer::Stored(Ok(_)))
        },
        deletion(func_names, false, log) matches Progress::Returns(Ok(_), used) ==> {
            &&& used == func_names.len() <= log.len()
            &&& forall|i: int|
                0 <= i < used ==> (#[trigger] log[i] matches StoreAnswer::Stored(Ok(_)))
        },
{
    lemma_delete_from(func_names, false, log, 0);
}

/// Whether an answer is of the kind that a question asks for.
pub open spec fn store_answer_fits(request: StoreRequestView, answer: StoreAnswer) -> bool {
    match request {
        StoreRequestView::ValidateArgNames(_) | StoreRequestView::ValidateArg(_) =>
            answer is Checked,
        StoreRequestView::FetchFunction(_) => answer is Found,
        StoreRequestView::DeleteFunction(_) | StoreRequestView::InsertFunction(_) =>
            answer is Stored,
    }
}

/// A creation from a question on, with answers of the kinds that are asked for.
proof fn lemma_fitting_insertion(
    function: CustomFunction,
    or_replace: bool,
    log: Seq<StoreAnswer>,
    k: nat,
)
    requires
        forall|i: int|
            0 <= i < log.len() && i < insertion_questions(function).len()
                ==> store_answer_fits(insertion_questions(function)[i], #[trigger] log[i]),
    ensures
        !(insert_from(function, or_replace, log, k) is Misfits),
    decreases insertion_questions(function).len() - k,
{
    if k < insertion_questions(function).len() && k < log.len() {
        assert(store_answer_fits(insertion_questions(function)[k as int], log[k as int]));
        lemma_fitting_insertion(function, or_replace, log, k + 1);
    }
}

/// Answers of the kinds that are asked for never break a creation off.
pub proof fn law_fitting_answers_carry_insertion(
    function: CustomFunction,
    or_replace: bool,
    log: Seq<StoreAnswer>,
)
    requires
        forall|i: int|
            0 <= i < log.len() && i < insertion_questions(function).len()
                ==> store_answer_fits(insertion_questions(function)[i], #[trigger] log[i]),
    ensures
        !(insertion(function, or_replace, log) is Misfits),
{
    lemma_fitting_insertion(function, or_replace, log, 0);
}

/// Answers of the kind that is asked for never break a dropping off.
pub proof fn law_fitting_answers_carry_deletion(
    func_names: Seq<String>,
    if_exists: bool,
    log: Seq<StoreAnswer>,
)
    requires
        forall|i: int| 0 <= i < log.len() ==> (#[trigger] log[i] is Stored),
    ensures
        !(deletion(func_names, if_exists, log) is Misfits),
{
    lemma_delete_from(func_names, if_exists, log, 0);
}

/// Whether all answers say that a check was passed.
pub open spec fn only_passed_checks(log: Seq<StoreAnswer>) -> bool {
    forall|i: int| 0 <= i < log.len() ==> (#[trigger] log[i] matches StoreAnswer::Checked(Ok(_)))
}

/// The checks that were passed let a creation go on.
proof fn lemma_some_checks_passed(
    function: CustomFunction,
    or_replace: bool,
    log: Seq<StoreAnswer>,
    k: nat,
)
    requires
        k <= checks(function.args).len(),
        k <= log.len(),
        forall|i: int| 0 <= i < k ==> (#[trigger] log[i] matches StoreAnswer::Checked(Ok(_))),
    ensures
        insertion(function, or_replace, log) == insert_from(function, or_replace, log, k),
    decreases k,
{
    if k > 0 {
        let i = (k - 1) as nat;
        lemma_some_checks_passed(function, or_replace, log, i);
        assert(log[i as int] matches StoreAnswer::Checked(Ok(_)));
    }
}

/// The creation of a function with parameters checks their names, and then each of them in turn.
/// A check that fails is the result.
pub proof fn law_insertion_checks_parameters(
    function: CustomFunction,
    args: Vec<OperateFunctionArg>,
    or_replace: bool,
    log: Seq<StoreAnswer>,
    error: Error,
)
    requires
        function.args == Some(args),
        log.len() <= args@.len(),
        only_passed_checks(log),
    ensures
        insertion(function, or_replace, log) == Progress::Asks(
            if log.len() == 0 {
                StoreRequestView::ValidateArgNames(args@)
            } else {
                StoreRequestView::ValidateArg(args@[log.len() - 1])
            },
        ),
        insertion(function, or_replace, log.push(StoreAnswer::Checked(Err(error))))
            == Progress::Returns(Err(error), log.len() + 1),
{
    let k = log.len();
    let failed = log.push(StoreAnswer::Checked(Err(error)));
    assert forall|i: int| 0 <= i < k implies (#[trigger] failed[i] matches StoreAnswer::Checked(
        Ok(_),
    )) by {
        assert(log[i] matches StoreAnswer::Checked(Ok(_)));
    }
    lemma_some_checks_passed(function, or_replace, log, k);
    lemma_some_checks_passed(function, or_replace, failed, k);
}

/// Once the parameters have passed their checks, a creation looks the name up. Where the store
/// has a function of that name that is not to be replaced, this is an error. Otherwise that name
/// is deleted, be there a function or not, and then the function is inserted: with that the
/// creation has succeeded. Any error of the store is the result.
pub proof fn law_insertion_stores_function(
    function: CustomFunction,
    or_replace: bool,
    log: Seq<StoreAnswer>,
    found: bool,
    error: Error,
)
    requires
        only_passed_checks(log),
        log.len() == match function.args {
            Some(args) => 1 + args@.len(),
            None => 0,
        },
    ensures
        ({
            let name = function.func_name@;
            let n = log.len();
            let looked_up = log.push(StoreAnswer::Found(Ok(found)));
            let deleted = looked_up.push(StoreAnswer::Stored(Ok(())));
            &&& insertion(function, or_replace, log) == Progress::Asks(
                StoreRequestView::FetchFunction(name),
            )
            &&& insertion(function, or_replace, log.push(StoreAnswer::Found(Err(error))))
                == Progress::Returns(Err(error), n + 1)
            &&& found && !or_replace ==> insertion(function, or_replace, looked_up)
                == Progress::Returns(
                Err(Error::Alter(AlterError::FunctionAlreadyExists(function.func_name))),
                n + 1,
            )
            &&& !found || or_replace ==> {
                &&& insertion(function, or_replace, looked_up) == Progress::Asks(
                    StoreRequestView::DeleteFunction(name),
                )
                &&& insertion(
                    function,
                    or_replace,
                    looked_up.push(StoreAnswer::Stored(Err(error))),
                ) == Progress::Returns(Err(error), n + 2)
                &&& insertion(function, or_replace, deleted) == Progress::Asks(
                    StoreRequestView::InsertFunction(function),
                )
                &&& insertion(
                    function,
                    or_replace,
                    deleted.push(StoreAnswer::Stored(Err(error))),
                ) == Progress::Returns(Err(error), n + 3)
                &&& insertion(function, or_replace, deleted.push(StoreAnswer::Stored(Ok(()))))
                    == Progress::Returns(Ok(()), n + 3)
            }
        }),
{
    let n = log.len();
    let looked_up = log.push(StoreAnswer::Found(Ok(found)));
    let deleted = looked_up.push(StoreAnswer::Stored(Ok(())));
    assert(checks(function.args).len() == n);
    lemma_checked_log(function, or_replace, log, log);
    lemma_checked_log(function, or_replace, log, log.push(StoreAnswer::Found(Err(error))));
    lemma_checked_log(function, or_replace, log, looked_up);
    lemma_checked_log(
        function,
        or_replace,
        log,
        looked_up.push(StoreAnswer::Stored(Err(error))),
    );
    lemma_checked_log(function, or_replace, log, deleted);
    lemma_checked_log(
        function,
        or_replace,
        log,
        deleted.push(StoreAnswer::Stored(Err(error))),
    );
    lemma_checked_log(function, or_replace, log, deleted.push(StoreAnswer::Stored(Ok(()))));
    reveal_with_fuel(insert_from, 5);
}

/// A creation whose log begins with checks that were passed.
proof fn lemma_checked_log(
    function: CustomFunction,
    or_replace: bool,
    checked: Seq<StoreAnswer>,
    log: Seq<StoreAnswer>,
)
    requires
        only_passed_checks(checked),
        checked.len() == checks(function.args).len(),
        checked.len() <= log.len(),
        forall|i: int| 0 <= i < checked.len() ==> #[trigger] log[i] == checked[i],
    ensures
        insertion(function, or_replace, log) == insert_from(
            function,
            or_replace,
            log,
            checked.len(),
        ),
{
    assert forall|i: int| 0 <= i < checked.len() implies (
    #[trigger] log[i] matches StoreAnswer::Checked(Ok(_))) by {
        assert(checked[i] matches StoreAnswer::Checked(Ok(_)));
    }
    lemma_some_checks_passed(function, or_replace, log, checked.len());
}

/// The functions that were dropped let a dropping go on.
proof fn lemma_some_dropped(
    func_names: Seq<String>,
    if_exists: bool,
    log: Seq<StoreAnswer>,
    k: nat,
)
    requires
        k <= func_names.len(),
        k <= log.len(),
        forall|i: int|
            0 <= i < k ==> (#[trigger] log[i] matches StoreAnswer::Stored(result) && (if_exists
                || result is Ok)),
    ensures
        deletion(func_names, if_exists, log) == delete_from(func_names, if_exists, log, k),
    decreases k,
{
    if k > 0 {
        let i = (k - 1) as nat;
        lemma_some_dropped(func_names, if_exists, log, i);
        assert(log[i as int] matches StoreAnswer::Stored(result) && (if_exists || result is Ok));
    }
}

/// Functions are dropped one after the other, in the order in which they are named. With all of
/// them dropped the dropping has succeeded. One that cannot be dropped ends it with that error,
/// unless functions need not exist: then it is passed over.
pub proof fn law_deletion_drops_each(
    func_names: Seq<String>,
    if_exists: bool,
    log: Seq<StoreAnswer>,
    error: Error,
)
    requires
        log.len() <= func_names.len(),
        forall|i: int|
            0 <= i < log.len() ==> (#[trigger] log[i] matches StoreAnswer::Stored(result) && (
            if_exists || result is Ok)),
    ensures
        log.len() < func_names.len() ==> deletion(func_names, if_exists, log) == Progress::Asks(
            StoreRequestView::DeleteFunction(func_names[log.len() as int]@),
        ),
        log.len() < func_names.len() && !if_exists ==> deletion(
            func_names,
            if_exists,
            log.push(StoreAnswer::Stored(Err(error))),
        ) == Progress::Returns(Err(error), log.len() + 1),
        log.len() == func_names.len() ==> deletion(func_names, if_exists, log)
            == Progress::Returns(Ok(()), log.len()),
{
    let failed = log.push(StoreAnswer::Stored(Err(error)));
    lemma_some_dropped(func_names, if_exists, log, log.len());
    assert forall|i: int| 0 <= i < log.len() implies (
    #[trigger] failed[i] matches StoreAnswer::Stored(result) && (if_exists || result is Ok)) by {
        assert(log[i] matches StoreAnswer::Stored(result) && (if_exists || result is Ok));
    }
    lemma_some_dropped(func_names, if_exists, failed, log.len());
}

/// A question to the store is made of just what it holds.
pub proof fn law_store_requests_are_what_they_hold<'a>(
    list: &'a Vec<OperateFunctionArg>,
    arg: &'a OperateFunctionArg,
    func_name: &'a String,
    args: &'a Option<Vec<OperateFunctionArg>>,
    return_: &'a Option<Expr>,
)
    ensures
        StoreRequest::ValidateArgNames(list)@ == StoreRequestView::ValidateArgNames(list@),
        StoreRequest::ValidateArg(arg)@ == StoreRequestView::ValidateArg(*arg),
        StoreRequest::FetchFunction(func_name)@ == StoreRequestView::FetchFunction(func_name@),
        StoreRequest::DeleteFunction(func_name)@ == StoreRequestView::DeleteFunction(func_name@),
        (StoreRequest::InsertFunction { func_name, args, return_ })@
            == StoreRequestView::InsertFunction(
            CustomFunction { func_name: *func_name, args: *args, return_: *return_ },
        ),
{
}

/// What a creation has come to is a question where its questions are not all answered, and goes
/// on from the answer to it. Otherwise it is the result.
pub proof fn law_insertion_step<'a>(
    step: AlterStep<'a, Insertion<'a>>,
    function: CustomFunction,
    or_replace: bool,
    log: Seq<StoreAnswer>,
    answer: StoreAnswer,
)
    requires
        insertion_reaches(step, InsertionTrace { function, or_replace, log }),
    ensures
        match insertion(function, or_replace, log) {
            Progress::Asks(asked) => {
                &&& step matches AlterStep::Ask { request, rest }
                &&& request@ == asked
                &&& rest@ == (InsertionTrace { function, or_replace, log })
                &&& rest@.answered(answer) == (InsertionTrace {
                    function,
                    or_replace,
                    log: log.push(answer),
                })
            },
            Progress::Returns(result, used) => {
                &&& step matches AlterStep::Done(given) && given == result
                &&& used == log.len()
            },
            Progress::Misfits => step is Misfit,
        },
{
}

/// What a dropping has come to is a question where its questions are not all answered, and goes
/// on from the answer to it. Otherwise it is the result.
pub proof fn law_deletion_step<'a>(
    step: AlterStep<'a, Deletion<'a>>,
    func_names: Seq<String>,
    if_exists: bool,
    log: Seq<StoreAnswer>,
    answer: StoreAnswer,
)
    requires
        deletion_reaches(step, DeletionTrace { func_names, if_exists, log }),
    ensures
        match deletion(func_names, if_exists, log) {
            Progress::Asks(asked) => {
                &&& step matches AlterStep::Ask { request, rest }
                &&& request@ == asked
                &&& rest@ == (DeletionTrace { func_names, if_exists, log })
                &&& rest@.answered(answer) == (DeletionTrace {
                    func_names,
                    if_exists,
                    log: log.push(answer),
                })
            },
            Progress::Returns(result, used) => {
                &&& step matches AlterStep::Done(given) && given == result
                &&& used == log.len()
            },
            Progress::Misfits => step is Misfit,
        },
{
}

/// A creation from a question on, with a last answer that does not fit.
proof fn lemma_misfitting_insertion(
    function: CustomFunction,
    or_replace: bool,
    log: Seq<StoreAnswer>,
    answer: StoreAnswer,
    k: nat,
)
    requires
        k <= log.len(),
        insert_from(function, or_replace, log, k) matches Progress::Asks(request)
            && !store_answer_fits(request, answer),
    ensures
        insert_from(function, or_replace, log.push(answer), k) is Misfits,
    decreases log.len() - k,
{
    if k < log.len() {
        assert(log.push(answer)[k as int] == log[k as int]);
        lemma_misfitting_insertion(function, or_replace, log, answer, k + 1);
    }
}

/// A dropping from a function on, with a last answer that does not fit.
proof fn lemma_misfitting_deletion(
    func_names: Seq<String>,
    if_exists: bool,
    log: Seq<StoreAnswer>,
    answer: StoreAnswer,
    k: nat,
)
    requires
        k <= log.len(),
        delete_from(func_names, if_exists, log, k) matches Progress::Asks(request)
            && !store_answer_fits(request, answer),
    ensures
        delete_from(func_names, if_exists, log.push(answer), k) is Misfits,
    decreases log.len() - k,
{
    if k < log.len() {
        assert(log.push(answer)[k as int] == log[k as int]);
        lemma_misfitting_deletion(func_names, if_exists, log, answer, k + 1);
    }
}

/// An answer that is not of the kind that is asked for breaks a creation or a dropping off.
pub proof fn law_misfitting_answer_breaks_off(
    function: CustomFunction,
    or_replace: bool,
    func_names: Seq<String>,
    if_exists: bool,
    log: Seq<StoreAnswer>,
    answer: StoreAnswer,
)
    ensures
        insertion(function, or_replace, log) matches Progress::Asks(request)
            && !store_answer_fits(request, answer) ==> insertion(
            function,
            or_replace,
            log.push(answer),
        ) is Misfits,
        deletion(func_names, if_exists, log) matches Progress::Asks(request)
            && !store_answer_fits(request, answer) ==> deletion(
            func_names,
            if_exists,
            log.push(answer),
        ) is Misfits,
{
    match insertion(function, or_replace, log) {
        Progress::Asks(request) => {
            if !store_answer_fits(request, answer) {
                lemma_misfitting_insertion(function, or_replace, log, answer, 0);
            }
        },
        _ => {},
    }
    match deletion(func_names, if_exists, log) {
        Progress::Asks(request) => {
            if !store_answer_fits(request, answer) {
                lemma_misfitting_deletion(func_names, if_exists, log, answer, 0);
            }
        },
        _ => {},
    }
}

} // verus!
