//! Creates and drops custom functions.
//!
//! Both put a fixed list of questions to the store, one after the other, until an answer stops
//! them.
use vstd::prelude::*;

use crate::ast::{CustomFunction, Expr, OperateFunctionArg};
use crate::result::{AlterError, Error};

verus! {

/// A question to the store.
#[derive(Debug, PartialEq, Eq)]
pub enum StoreRequest<'a> {
    /// Checks the names of the parameters. Answered by `Checked`.
    ValidateArgNames(&'a Vec<OperateFunctionArg>),
    /// Checks a parameter. Answered by `Checked`.
    ValidateArg(&'a OperateFunctionArg),
    /// Whether the store has a function of that name. Answered by `Found`.
    FetchFunction(&'a String),
    /// Deletes the function of that name. Answered by `Stored`.
    DeleteFunction(&'a String),
    /// Inserts a function. Answered by `Stored`.
    InsertFunction {
        func_name: &'a String,
        args: &'a Option<Vec<OperateFunctionArg>>,
        return_: &'a Option<Expr>,
    },
}

/// What a question to the store is made of.
pub enum StoreRequestView {
    ValidateArgNames(Seq<OperateFunctionArg>),
    ValidateArg(OperateFunctionArg),
    FetchFunction(Seq<char>),
    DeleteFunction(Seq<char>),
    InsertFunction(CustomFunction),
}

impl<'a> View for StoreRequest<'a> {
    type V = StoreRequestView;

    open spec fn view(&self) -> StoreRequestView {
        match *self {
            StoreRequest::ValidateArgNames(args) => StoreRequestView::ValidateArgNames(args@),
            StoreRequest::ValidateArg(arg) => StoreRequestView::ValidateArg(*arg),
            StoreRequest::FetchFunction(name) => StoreRequestView::FetchFunction(name@),
            StoreRequest::DeleteFunction(name) => StoreRequestView::DeleteFunction(name@),
            StoreRequest::InsertFunction { func_name, args, return_ } =>
                StoreRequestView::InsertFunction(
                    CustomFunction { func_name: *func_name, args: *args, return_: *return_ },
                ),
        }
    }
}

/// An answer of the store.
#[derive(Debug, PartialEq, Eq)]
pub enum StoreAnswer {
    Checked(Result<(), Error>),
    Found(Result<bool, Error>),
    Stored(Result<(), Error>),
}

/// What an answer means for the questions that are left.
pub enum Verdict {
    /// The next question is put.
    GoOn,
    /// The error is the result, and no more is asked.
    Stop(Error),
    /// The answer is not one to the question.
    Misfit,
}

/// What putting the questions comes to.
pub enum Progress {
    /// The answers ran out: this is the next question.
    Asks(StoreRequestView),
    /// The result, and the number of answers that went into it.
    Returns(Result<(), Error>, nat),
    /// An answer is not one to its question.
    Misfits,
}

/// The questions of which creating a function consists.
pub open spec fn insertion_questions(function: CustomFunction) -> Seq<StoreRequestView> {
    let name = function.func_name@;
    checks(function.args) + seq![
        StoreRequestView::FetchFunction(name),
        StoreRequestView::DeleteFunction(name),
        StoreRequestView::InsertFunction(function),
    ]
}

/// The checks that the parameters of a function must pass: that of their names, and then that
/// of each of them.
pub open spec fn checks(args: Option<Vec<OperateFunctionArg>>) -> Seq<StoreRequestView> {
    match args {
        Some(args) => seq![StoreRequestView::ValidateArgNames(args@)] + Seq::new(
            args@.len(),
            |i: int| StoreRequestView::ValidateArg(args@[i]),
        ),
        None => Seq::empty(),
    }
}

/// What an answer means for the creation of a function. An error ends it, and so does a function
/// of the same name that is not to be replaced.
pub open spec fn judge_insertion(
    func_name: String,
    or_replace: bool,
    request: StoreRequestView,
    answer: StoreAnswer,
) -> Verdict {
    match (request, answer) {
        (StoreRequestView::ValidateArgNames(_), StoreAnswer::Checked(result))
        | (StoreRequestView::ValidateArg(_), StoreAnswer::Checked(result))
        | (StoreRequestView::DeleteFunction(_), StoreAnswer::Stored(result))
        | (StoreRequestView::InsertFunction(_), StoreAnswer::Stored(result)) => match result {
            Ok(_) => Verdict::GoOn,
            Err(error) => Verdict::Stop(error),
        },
        (StoreRequestView::FetchFunction(_), StoreAnswer::Found(result)) => match result {
            Ok(found) => if found && !or_replace {
                Verdict::Stop(Error::Alter(AlterError::FunctionAlreadyExists(func_name)))
            } else {
                Verdict::GoOn
            },
            Err(error) => Verdict::Stop(error),
        },
        _ => Verdict::Misfit,
    }
}

/// What creating a function comes to from the question at `k` on.
pub open spec fn insert_from(
    function: CustomFunction,
    or_replace: bool,
    log: Seq<StoreAnswer>,
    k: nat,
) -> Progress
    decreases insertion_questions(function).len() - k,
{
    if k >= insertion_questions(function).len() {
        Progress::Returns(Ok(()), k)
    } else if k >= log.len() {
        Progress::Asks(insertion_questions(function)[k as int])
    } else {
        match judge_insertion(
            function.func_name,
            or_replace,
            insertion_questions(function)[k as int],
            log[k as int],
        ) {
            Verdict::GoOn => insert_from(function, or_replace, log, k + 1),
            Verdict::Stop(error) => Progress::Returns(Err(error), k + 1),
            Verdict::Misfit => Progress::Misfits,
        }
    }
}

/// What creating a function comes to.
pub open spec fn insertion(
    function: CustomFunction,
    or_replace: bool,
    log: Seq<StoreAnswer>,
) -> Progress {
    insert_from(function, or_replace, log, 0)
}

/// What an answer means for the dropping of functions. An error ends it, unless a function need
/// not exist.
pub open spec fn judge_deletion(if_exists: bool, answer: StoreAnswer) -> Verdict {
    match answer {
        StoreAnswer::Stored(Ok(_)) => Verdict::GoOn,
        StoreAnswer::Stored(Err(error)) => if if_exists {
            Verdict::GoOn
        } else {
            Verdict::Stop(error)
        },
        _ => Verdict::Misfit,
    }
}

/// What dropping functions comes to from the one at `k` on.
pub open spec fn delete_from(
    func_names: Seq<String>,
    if_exists: bool,
    log: Seq<StoreAnswer>,
    k: nat,
) -> Progress
    decreases func_names.len() - k,
{
    if k >= func_names.len() {
        Progress::Returns(Ok(()), k)
    } else if k >= log.len() {
        Progress::Asks(StoreRequestView::DeleteFunction(func_names[k as int]@))
    } else {
        match judge_deletion(if_exists, log[k as int]) {
            Verdict::GoOn => delete_from(func_names, if_exists, log, k + 1),
            Verdict::Stop(error) => Progress::Returns(Err(error), k + 1),
            Verdict::Misfit => Progress::Misfits,
        }
    }
}

/// What dropping functions comes to.
pub open spec fn deletion(
    func_names: Seq<String>,
    if_exists: bool,
    log: Seq<StoreAnswer>,
) -> Progress {
    delete_from(func_names, if_exists, log, 0)
}

/// Whether a log goes on from another one.
spec fn continues(log: Seq<StoreAnswer>, history: Seq<StoreAnswer>) -> bool {
    &&& history.len() <= log.len()
    &&& forall|i: int| 0 <= i < history.len() ==> log[i] == #[trigger] history[i]
}

/// A question of the creation of a function.
enum Stage {
    Names,
    Arg(usize),
    Fetch,
    Delete,
    Insert,
}

/// The creation of a function, and what the store has answered so far.
pub struct InsertionTrace {
    pub function: CustomFunction,
    pub or_replace: bool,
    pub log: Seq<StoreAnswer>,
}

impl InsertionTrace {
    /// What the creation comes to.
    pub open spec fn progress(self) -> Progress {
        insertion(self.function, self.or_replace, self.log)
    }

    /// The creation with one more answer.
    pub open spec fn answered(self, answer: StoreAnswer) -> InsertionTrace {
        InsertionTrace { log: self.log.push(answer), ..self }
    }

    /// Whether no answer so far has stopped the creation.
    spec fn goes_on(self) -> bool {
        forall|log: Seq<StoreAnswer>|
            continues(log, self.log) ==> insertion(self.function, self.or_replace, log)
                == #[trigger] insert_from(self.function, self.or_replace, log, self.log.len())
    }
}

/// The creation of a function that waits for an answer.
pub struct Insertion<'a> {
    func_name: &'a String,
    args: &'a Option<Vec<OperateFunctionArg>>,
    or_replace: bool,
    return_: &'a Option<Expr>,
    stage: Stage,
    log: Ghost<Seq<StoreAnswer>>,
}

impl<'a> View for Insertion<'a> {
    type V = InsertionTrace;

    closed spec fn view(&self) -> InsertionTrace {
        InsertionTrace {
            function: CustomFunction {
                func_name: *self.func_name,
                args: *self.args,
                return_: *self.return_,
            },
            or_replace: self.or_replace,
            log: self.log@,
        }
    }
}

/// The number of a question.
spec fn position(args: Option<Vec<OperateFunctionArg>>, stage: Stage) -> int {
    let fetch = checks(args).len() as int;
    match stage {
        Stage::Names => 0,
        Stage::Arg(i) => i + 1,
        Stage::Fetch => fetch,
        Stage::Delete => fetch + 1,
        Stage::Insert => fetch + 2,
    }
}

/// Whether there is such a question.
spec fn stands(args: Option<Vec<OperateFunctionArg>>, stage: Stage) -> bool {
    match stage {
        Stage::Names => args is Some,
        Stage::Arg(i) => args is Some && i < (args->0)@.len(),
        _ => true,
    }
}

impl<'a> Insertion<'a> {
    #[verifier::type_invariant]
    spec fn well_formed(self) -> bool {
        &&& stands(*self.args, self.stage)
        &&& position(*self.args, self.stage) == self.log@.len()
        &&& self@.goes_on()
    }

    /// The question that the creation waits at.
    fn request(&self) -> (request: StoreRequest<'a>)
        ensures
            request@ == insertion_questions(self@.function)[self@.log.len() as int],
            self@.log.len() < insertion_questions(self@.function).len(),
            self@.progress() == Progress::Asks(request@),
    {
        proof {
            use_type_invariant(self);
            assert(continues(self@.log, self@.log));
            assert(self@.progress() == insert_from(
                self@.function,
                self@.or_replace,
                self@.log,
                self@.log.len(),
            ));
        }
        match (&self.stage, self.args) {
            (Stage::Names, Some(args)) => StoreRequest::ValidateArgNames(args),
            (Stage::Arg(i), Some(args)) => StoreRequest::ValidateArg(&args[*i]),
            (Stage::Fetch, _) => StoreRequest::FetchFunction(self.func_name),
            (Stage::Delete, _) => StoreRequest::DeleteFunction(self.func_name),
            (Stage::Insert, _) => StoreRequest::InsertFunction {
                func_name: self.func_name,
                args: self.args,
                return_: self.return_,
            },
            (_, None) => vstd::pervasive::unreached(),
        }
    }
}

/// What creating or dropping has come to.
pub enum AlterStep<'a, P> {
    /// A question to the store. What is left goes on from the answer.
    Ask { request: StoreRequest<'a>, rest: P },
    /// The result.
    Done(Result<(), Error>),
    /// The answer is not one to the question.
    Misfit,
}

/// Whether this is what the creation of a function comes to. Each answer has gone into it.
pub open spec fn insertion_reaches<'a>(
    step: AlterStep<'a, Insertion<'a>>,
    trace: InsertionTrace,
) -> bool {
    match trace.progress() {
        Progress::Asks(asked) => {
            &&& step matches AlterStep::Ask { request, rest }
            &&& request@ == asked
            &&& rest@ == trace
        },
        Progress::Returns(result, used) => step == AlterStep::<'a, Insertion<'a>>::Done(result)
            && used == trace.log.len(),
        Progress::Misfits => step == AlterStep::<'a, Insertion<'a>>::Misfit,
    }
}

/// Puts a question.
fn ask<'a>(insertion: Insertion<'a>) -> (step: AlterStep<'a, Insertion<'a>>)
    ensures
        insertion_reaches(step, insertion@),
{
    AlterStep::Ask { request: insertion.request(), rest: insertion }
}

/// Creates a function, up to the first question to the store. A function of the same name is
/// replaced where `or_replace` is set, and is an error otherwise.
pub fn insert_function<'a>(
    func_name: &'a String,
    args: &'a Option<Vec<OperateFunctionArg>>,
    or_replace: bool,
    return_: &'a Option<Expr>,
) -> (step: AlterStep<'a, Insertion<'a>>)
    ensures
        insertion_reaches(
            step,
            InsertionTrace {
                function: CustomFunction {
                    func_name: *func_name,
                    args: *args,
                    return_: *return_,
                },
                or_replace,
                log: Seq::empty(),
            },
        ),
{
    let stage = match args {
        Some(_) => Stage::Names,
        None => Stage::Fetch,
    };
    ask(Insertion { func_name, args, or_replace, return_, stage, log: Ghost(Seq::empty()) })
}

impl<'a> Insertion<'a> {
    /// The question after the one at hand. There is none after the insertion.
    fn next_stage(&self) -> (next: Option<Stage>)
        ensures
            match next {
                Some(stage) => stands(*self.args, stage) && position(*self.args, stage)
                    == self@.log.len() + 1,
                None => self@.log.len() + 1 == insertion_questions(self@.function).len(),
            },
    {
        proof {
            use_type_invariant(self);
        }
        match (&self.stage, self.args) {
            (Stage::Names, Some(args)) => if args.len() > 0 {
                Some(Stage::Arg(0))
            } else {
                Some(Stage::Fetch)
            },
            (Stage::Arg(i), Some(args)) => if *i < args.len() - 1 {
                Some(Stage::Arg(*i + 1))
            } else {
                Some(Stage::Fetch)
            },
            (Stage::Fetch, _) => Some(Stage::Delete),
            (Stage::Delete, _) => Some(Stage::Insert),
            (Stage::Insert, _) => None,
            (_, None) => vstd::pervasive::unreached(),
        }
    }

    /// What an answer means.
    fn judge(&self, answer: StoreAnswer) -> (verdict: Verdict)
        ensures
            verdict == judge_insertion(
                self@.function.func_name,
                self@.or_replace,
                insertion_questions(self@.function)[self@.log.len() as int],
                answer,
            ),
    {
        let request = self.request();
        match (request, answer) {
            (StoreRequest::ValidateArgNames(_), StoreAnswer::Checked(result))
            | (StoreRequest::ValidateArg(_), StoreAnswer::Checked(result))
            | (StoreRequest::DeleteFunction(_), StoreAnswer::Stored(result))
            | (StoreRequest::InsertFunction { .. }, StoreAnswer::Stored(result)) => match result {
                Ok(_) => Verdict::GoOn,
                Err(error) => Verdict::Stop(error),
            },
            (StoreRequest::FetchFunction(_), StoreAnswer::Found(result)) => match result {
                Ok(found) => if found && !self.or_replace {
                    Verdict::Stop(
                        Error::Alter(AlterError::FunctionAlreadyExists(self.func_name.clone())),
                    )
                } else {
                    Verdict::GoOn
                },
                Err(error) => Verdict::Stop(error),
            },
            _ => Verdict::Misfit,
        }
    }

    /// Goes on from an answer to the question.
    pub fn answer(self, answer: StoreAnswer) -> (step: AlterStep<'a, Insertion<'a>>)
        ensures
            insertion_reaches(step, self@.answered(answer)),
    {
        let ghost trace = self@.answered(answer);
        let log: Ghost<Seq<StoreAnswer>> = Ghost(trace.log);
        proof {
            use_type_invariant(&self);
            assert forall|log: Seq<StoreAnswer>| continues(log, trace.log) implies insertion(
                trace.function,
                trace.or_replace,
                log,
            ) == #[trigger] insert_from(
                trace.function,
                trace.or_replace,
                log,
                self@.log.len(),
            ) && log[self@.log.len() as int] == answer by {
                assert(trace.log[self@.log.len() as int] == answer);
                assert forall|i: int| 0 <= i < self@.log.len() implies log[i]
                    == #[trigger] self@.log[i] by {
                    assert(log[i] == trace.log[i]);
                }
                assert(continues(log, self@.log));
            }
            assert(continues(trace.log, trace.log));
            assert(insert_from(trace.function, trace.or_replace, trace.log, self@.log.len())
                == trace.progress());
        }
        match self.judge(answer) {
            Verdict::GoOn => {
                let next = self.next_stage();
                let Insertion { func_name, args, or_replace, return_, .. } = self;
                match next {
                    Some(stage) => {
                        proof {
                            assert forall|log: Seq<StoreAnswer>|
                                continues(log, trace.log) implies insertion(
                                trace.function,
                                trace.or_replace,
                                log,
                            ) == #[trigger] insert_from(
                                trace.function,
                                trace.or_replace,
                                log,
                                trace.log.len(),
                            ) by {
                                assert(insert_from(
                                    trace.function,
                                    trace.or_replace,
                                    log,
                                    self@.log.len(),
                                ) == insertion(trace.function, trace.or_replace, log));
                            }
                        }
                        ask(Insertion { func_name, args, or_replace, return_, stage, log })
                    },
                    None => {
                        assert(insert_from(
                            trace.function,
                            trace.or_replace,
                            trace.log,
                            trace.log.len(),
                        ) == Progress::Returns(Ok(()), trace.log.len()));
                        AlterStep::Done(Ok(()))
                    },
                }
            },
            Verdict::Stop(error) => AlterStep::Done(Err(error)),
            Verdict::Misfit => AlterStep::Misfit,
        }
    }
}

/// The dropping of functions, and what the store has answered so far.
pub struct DeletionTrace {
    pub func_names: Seq<String>,
    pub if_exists: bool,
    pub log: Seq<StoreAnswer>,
}

impl DeletionTrace {
    /// What the dropping comes to.
    pub open spec fn progress(self) -> Progress {
        deletion(self.func_names, self.if_exists, self.log)
    }

    /// The dropping with one more answer.
    pub open spec fn answered(self, answer: StoreAnswer) -> DeletionTrace {
        DeletionTrace { log: self.log.push(answer), ..self }
    }

    /// Whether no answer so far has stopped the dropping.
    spec fn goes_on(self) -> bool {
        forall|log: Seq<StoreAnswer>|
            continues(log, self.log) ==> deletion(self.func_names, self.if_exists, log)
                == #[trigger] delete_from(self.func_names, self.if_exists, log, self.log.len())
    }
}

/// The dropping of functions that waits for an answer.
pub struct Deletion<'a> {
    func_names: &'a Vec<String>,
    if_exists: bool,
    k: usize,
    log: Ghost<Seq<StoreAnswer>>,
}

impl<'a> View for Deletion<'a> {
    type V = DeletionTrace;

    closed spec fn view(&self) -> DeletionTrace {
        DeletionTrace {
            func_names: self.func_names@,
            if_exists: self.if_exists,
            log: self.log@,
        }
    }
}

/// Whether this is what the dropping of functions comes to. Each answer has gone into it.
pub open spec fn deletion_reaches<'a>(
    step: AlterStep<'a, Deletion<'a>>,
    trace: DeletionTrace,
) -> bool {
    match trace.progress() {
        Progress::Asks(asked) => {
            &&& step matches AlterStep::Ask { request, rest }
            &&& request@ == asked
            &&& rest@ == trace
        },
        Progress::Returns(result, used) => step == AlterStep::<'a, Deletion<'a>>::Done(result)
            && used == trace.log.len(),
        Progress::Misfits => step == AlterStep::<'a, Deletion<'a>>::Misfit,
    }
}

/// Drops the functions from the one at `k` on, up to the next question to the store.
fn delete_next<'a>(
    func_names: &'a Vec<String>,
    if_exists: bool,
    k: usize,
    log: Ghost<Seq<StoreAnswer>>,
) -> (step: AlterStep<'a, Deletion<'a>>)
    requires
        k == log@.len(),
        k <= func_names@.len(),
        (DeletionTrace { func_names: func_names@, if_exists, log: log@ }).goes_on(),
    ensures
        deletion_reaches(
            step,
            DeletionTrace { func_names: func_names@, if_exists, log: log@ },
        ),
{
    proof {
        assert(continues(log@, log@));
        assert(delete_from(func_names@, if_exists, log@, log@.len()) == deletion(
            func_names@,
            if_exists,
            log@,
        ));
    }
    if k < func_names.len() {
        AlterStep::Ask {
            request: StoreRequest::DeleteFunction(&func_names[k]),
            rest: Deletion { func_names, if_exists, k, log },
        }
    } else {
        AlterStep::Done(Ok(()))
    }
}

/// Drops functions, up to the first question to the store. Where `if_exists` is set, one that
/// cannot be dropped is passed over.
pub fn delete_function<'a>(func_names: &'a Vec<String>, if_exists: bool) -> (step: AlterStep<
    'a,
    Deletion<'a>,
>)
    ensures
        deletion_reaches(
            step,
            DeletionTrace { func_names: func_names@, if_exists, log: Seq::empty() },
        ),
{
    delete_next(func_names, if_exists, 0, Ghost(Seq::empty()))
}

impl<'a> Deletion<'a> {
    #[verifier::type_invariant]
    spec fn well_formed(self) -> bool {
        &&& self.k == self.log@.len()
        &&& self.k < self.func_names@.len()
        &&& self@.goes_on()
    }

    /// Goes on from an answer to the question.
    pub fn answer(self, answer: StoreAnswer) -> (step: AlterStep<'a, Deletion<'a>>)
        ensures
            deletion_reaches(step, self@.answered(answer)),
    {
        let ghost trace = self@.answered(answer);
        proof {
            use_type_invariant(&self);
            assert forall|log: Seq<StoreAnswer>| continues(log, trace.log) implies deletion(
                trace.func_names,
                trace.if_exists,
                log,
            ) == #[trigger] delete_from(
                trace.func_names,
                trace.if_exists,
                log,
                self@.log.len(),
            ) && log[self@.log.len() as int] == answer by {
                assert(trace.log[self@.log.len() as int] == answer);
                assert forall|i: int| 0 <= i < self@.log.len() implies log[i]
                    == #[trigger] self@.log[i] by {
                    assert(log[i] == trace.log[i]);
                }
                assert(continues(log, self@.log));
            }
            assert(continues(trace.log, trace.log));
            assert(delete_from(trace.func_names, trace.if_exists, trace.log, self@.log.len())
                == trace.progress());
        }
        let stop = match answer {
            StoreAnswer::Stored(result) => match result {
                Ok(_) => None,
                Err(error) => if self.if_exists {
                    None
                } else {
                    Some(error)
                },
            },
            _ => {
                return AlterStep::Misfit;
            },
        };
        match stop {
            Some(error) => AlterStep::Done(Err(error)),
            None => {
                proof {
                    assert forall|log: Seq<StoreAnswer>| continues(log, trace.log) implies deletion(
                        trace.func_names,
                        trace.if_exists,
                        log,
                    ) == #[trigger] delete_from(
                        trace.func_names,
                        trace.if_exists,
                        log,
                        trace.log.len(),
                    ) by {
                        assert(delete_from(
                            trace.func_names,
                            trace.if_exists,
                            log,
                            self@.log.len(),
                        ) == deletion(trace.func_names, trace.if_exists, log));
                    }
                }
                let count: usize = self.func_names.len();
                assert(self.k < count);
                delete_next(self.func_names, self.if_exists, self.k + 1, Ghost(trace.log))
            },
        }
    }
}

} // verus!
