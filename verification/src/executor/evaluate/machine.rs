//! An evaluation that can be suspended: it stops at each question to the host and goes on from
//! the answer.
use std::rc::Rc;

use im_rc::HashMap;
use vstd::prelude::*;

use crate::ast::{
    Aggregate, CustomFunction, DateTimeField, Expr, Function, OperateFunctionArg, Query,
};
use crate::context::{Bindings, ContextView, Row, RowContext};
use crate::data::{aggregate_value, aggregates_view, share, Evaluated, Literal, Value};
use crate::executor::evaluate::operands::{
    boxed_size, deferred_size, find_routine, lemma_item_size, lemma_operand_size,
    lemma_pair_size, lemma_size, list_operands, list_size, operands, operands_size, refer_to,
    routine, size,
};
use crate::executor::evaluate::protocol::{
    context_view, Answer, Cursor, Fault, Request, RequestView,
};
use crate::executor::evaluate::semantics::{
    argument, ask_evaluated, bind, bind_checked, branches, callee, combine, compare_branch,
    compare_item, compare_row, compare_to_false, convert_arguments, convert_defaults,
    convert_interval, defaults, evaluate_arguments, evaluate_defaults, evaluate_from,
    evaluate_operands, evaluation, fetch_function, first_value, items, look_up,
    look_up_aggregate, match_pattern, negation, otherwise, parameters, parse_interval,
    print_interval, probe_rows, read_clock, read_no_more_rows, read_only_row, run_query,
    search_list, search_rows, take_branch, Outcome, Purpose, Scope,
};
use crate::result::{Error, EvaluateError};

verus! {

/// A list that is searched for a target.
struct ListSearch<'a> {
    context: Option<Rc<RowContext>>,
    node: &'a Expr,
    list: &'a Vec<Expr>,
    negated: bool,
    target: Evaluated,
    k: usize,
    floor: Ghost<nat>,
}

/// A `CASE` whose branches are tried.
struct BranchChoice<'a> {
    context: Option<Rc<RowContext>>,
    node: &'a Expr,
    when_then: &'a Vec<(Expr, Expr)>,
    else_result: &'a Option<Box<Expr>>,
    operand: Evaluated,
    k: usize,
    floor: Ghost<nat>,
}

/// A call of a custom function that was not found yet, or whose arguments are evaluated.
struct CallSite<'a> {
    context: Option<Rc<RowContext>>,
    node: &'a Expr,
    name: &'a String,
    exprs: &'a Vec<Expr>,
    floor: Ghost<nat>,
}

/// A call of a custom function whose arguments are evaluated.
struct Call<'a> {
    context: Option<Rc<RowContext>>,
    name: &'a String,
    function: &'a CustomFunction,
    floor: Ghost<nat>,
}

/// A call of a custom function whose parameters are bound.
struct Binding<'a> {
    call: Call<'a>,
    arguments: Vec<Value>,
    spare: Vec<Value>,
    i: usize,
    used: usize,
    row: Bindings,
}

/// What waits for an expression to be evaluated.
#[allow(inconsistent_fields)]
enum Frame<'a> {
    Operands {
        context: Option<Rc<RowContext>>,
        node: &'a Expr,
        slots: Vec<Option<&'a Expr>>,
        done: Vec<Option<Evaluated>>,
        floor: Ghost<nat>,
    },
    Item(ListSearch<'a>),
    Branch(BranchChoice<'a>),
    Argument { site: CallSite<'a>, function: &'a CustomFunction, done: Vec<Evaluated> },
    Default {
        call: Call<'a>,
        arguments: Vec<Value>,
        exprs: Vec<&'a Expr>,
        done: Vec<Evaluated>,
    },
}

/// What waits for an answer.
#[allow(inconsistent_fields)]
enum Pending<'a> {
    Evaluated(Ghost<RequestView>),
    LookUp { request: Ghost<RequestView>, ident: &'a String },
    NotLike { target: Evaluated, pattern: Evaluated, case_sensitive: bool },
    CompareToFalse(Evaluated),
    ConvertInterval {
        evaluated: Evaluated,
        leading_field: Option<DateTimeField>,
        last_field: Option<DateTimeField>,
    },
    PrintInterval {
        value: Value,
        leading_field: Option<DateTimeField>,
        last_field: Option<DateTimeField>,
    },
    ParseInterval {
        text: Ghost<Seq<char>>,
        leading_field: Option<DateTimeField>,
        last_field: Option<DateTimeField>,
    },
    Clock,
    RunQuery { query: Query, context: Ghost<Option<ContextView>>, purpose: Purpose },
    ReadOnlyRow(Cursor),
    ReadNoMoreRows { cursor: Cursor, value: Value },
    SearchRows { cursor: Cursor, target: Evaluated, negated: bool },
    CompareRow { cursor: Cursor, target: Evaluated, negated: bool, value: Value },
    ProbeRows { cursor: Cursor, negated: bool },
    CompareItem(ListSearch<'a>, Evaluated),
    CompareBranch(BranchChoice<'a>, Evaluated),
    Fetch(CallSite<'a>),
    ConvertArguments { call: Call<'a>, evaluated: Vec<Evaluated>, done: Vec<Value> },
    ConvertDefaults {
        call: Call<'a>,
        arguments: Vec<Value>,
        evaluated: Vec<Evaluated>,
        done: Vec<Value>,
    },
    Bind(Binding<'a>),
    BindChecked(Binding<'a>),
}

/// What an evaluation does next.
enum Focus<'a> {
    /// Evaluates an expression.
    Eval { context: Option<Rc<RowContext>>, expr: &'a Expr, floor: Ghost<nat> },
    /// Hands a result to whatever waits for it.
    Give(Evaluated),
    /// Ends with an error.
    Fail(Error),
    /// Asks the host.
    Wait(Request<'a>, Pending<'a>),
    /// Gives up.
    Break(Fault),
}

/// What an expression is evaluated in.
spec fn scope_of(context: Option<Rc<RowContext>>, aggregated: Option<Map<u64, Value>>) -> Scope {
    Scope { context: context_view(context), aggregated }
}

impl<'a> ListSearch<'a> {
    spec fn valid(self, at: nat) -> bool {
        &&& *self.node is InList
        &&& self.list@ == items(*self.node)
        &&& self.negated == negation(*self.node)
        &&& self.k < self.list@.len()
        &&& self.floor@ <= at
    }
}

impl<'a> BranchChoice<'a> {
    spec fn valid(self, at: nat) -> bool {
        &&& *self.node is Case
        &&& self.when_then@ == branches(*self.node)
        &&& otherwise(*self.node) == (match *self.else_result {
            Some(result) => Some(*result),
            None => None,
        })
        &&& self.k < self.when_then@.len()
        &&& self.floor@ <= at
    }
}

impl<'a> CallSite<'a> {
    spec fn valid(self, at: nat) -> bool {
        &&& *self.node is Function
        &&& self.name == callee(*self.node)
        &&& self.exprs@ == items(*self.node)
        &&& self.floor@ <= at
    }
}

impl<'a> Call<'a> {
    spec fn valid(self, at: nat) -> bool {
        self.floor@ <= at
    }
}

impl<'a> Binding<'a> {
    spec fn valid(self, at: nat) -> bool {
        &&& self.call.valid(at)
        &&& self.i < parameters(*self.call.function).len()
        &&& self.used <= self.i
    }
}

/// Whether the references are those to the expressions.
spec fn refer_to_all(slots: Seq<&Expr>, exprs: Seq<Expr>) -> bool {
    &&& slots.len() == exprs.len()
    &&& forall|i: int| 0 <= i < slots.len() ==> *(#[trigger] slots[i]) == exprs[i]
}

/// Whether those operands are evaluated that are there.
spec fn evaluated_as_listed(done: Seq<Option<Evaluated>>, slots: Seq<Option<Expr>>) -> bool {
    &&& done.len() <= slots.len()
    &&& forall|i: int| 0 <= i < done.len() ==> ((#[trigger] done[i]) is Some <==> slots[i] is Some)
}

impl<'a> Frame<'a> {
    spec fn valid(self, at: nat) -> bool {
        match self {
            Frame::Operands { context, node, slots, done, floor } => {
                &&& refer_to(slots@, operands(*node))
                &&& done@.len() < slots@.len()
                &&& slots@[done@.len() as int] is Some
                &&& evaluated_as_listed(done@, operands(*node))
                &&& floor@ <= at
            },
            Frame::Item(search) => search.valid(at),
            Frame::Branch(choice) => choice.valid(at),
            Frame::Argument { site, function, done } => {
                &&& site.valid(at)
                &&& site.floor@ < at
                &&& done@.len() < site.exprs@.len()
            },
            Frame::Default { call, arguments, exprs, done } => {
                &&& call.valid(at)
                &&& refer_to_all(exprs@, defaults(parameters(*call.function)))
                &&& done@.len() < exprs@.len()
            },
        }
    }

    /// What the evaluation comes to once the frame has the result that it waits for.
    spec fn resumed(
        self,
        aggregated: Option<Map<u64, Value>>,
        evaluated: Evaluated,
        log: Seq<Answer<'a>>,
        at: nat,
    ) -> Outcome {
        match self {
            Frame::Operands { context, node, slots, done, floor } => evaluate_operands(
                scope_of(context, aggregated),
                *node,
                done@.push(Some(evaluated)),
                log,
                floor@,
                at,
            ),
            Frame::Item(search) => compare_item(
                scope_of(search.context, aggregated),
                *search.node,
                search.target,
                search.k as nat,
                evaluated,
                log,
                search.floor@,
                at,
            ),
            Frame::Branch(choice) => compare_branch(
                scope_of(choice.context, aggregated),
                *choice.node,
                choice.operand,
                choice.k as nat,
                evaluated,
                log,
                choice.floor@,
                at,
            ),
            Frame::Argument { site, function, done } => evaluate_arguments(
                scope_of(site.context, aggregated),
                *site.node,
                *function,
                done@.push(evaluated),
                log,
                site.floor@,
                at,
            ),
            Frame::Default { call, arguments, exprs, done } => evaluate_defaults(
                scope_of(call.context, aggregated),
                call.name@,
                *call.function,
                arguments@,
                done@.push(evaluated),
                log,
                call.floor@,
                at,
            ),
        }
    }

    /// What the evaluation comes to, given what the frame's expression comes to.
    spec fn after(
        self,
        aggregated: Option<Map<u64, Value>>,
        outcome: Outcome,
        log: Seq<Answer<'a>>,
    ) -> Outcome {
        match outcome {
            Outcome::Returns(Ok(evaluated), at) => self.resumed(aggregated, evaluated, log, at),
            outcome => outcome,
        }
    }

    /// How much work the frame still stands for.
    spec fn work(self) -> nat {
        match self {
            Frame::Operands { node, done, .. } => 1 + operands_size(
                operands(*node).skip(done@.len() as int + 1),
            ) + deferred_size(*node),
            Frame::Item(_) => 0,
            Frame::Branch(_) => 0,
            Frame::Argument { site, done, .. } => 1 + list_size(
                site.exprs@.skip(done@.len() as int + 1),
            ),
            Frame::Default { call, done, .. } => 1 + list_size(
                defaults(parameters(*call.function)).skip(done@.len() as int + 1),
            ),
        }
    }
}

impl<'a> Pending<'a> {
    spec fn valid(self, at: nat) -> bool {
        match self {
            Pending::CompareItem(search, _) => search.valid(at),
            Pending::CompareBranch(choice, _) => choice.valid(at),
            Pending::Fetch(site) => site.valid(at),
            Pending::ConvertArguments { call, evaluated, done } => {
                &&& call.valid(at)
                &&& done@.len() < evaluated@.len()
            },
            Pending::ConvertDefaults { call, arguments, evaluated, done } => {
                &&& call.valid(at)
                &&& done@.len() < evaluated@.len()
                &&& evaluated@.len() == defaults(parameters(*call.function)).len()
            },
            Pending::Bind(binding) => binding.valid(at),
            Pending::BindChecked(binding) => binding.valid(at),
            _ => true,
        }
    }

    /// What the evaluation comes to from the question on.
    spec fn outcome(
        self,
        aggregated: Option<Map<u64, Value>>,
        log: Seq<Answer<'a>>,
        at: nat,
    ) -> Outcome {
        match self {
            Pending::Evaluated(request) => ask_evaluated(request@, log, at),
            Pending::LookUp { request, ident } => look_up(request@, *ident, log, at),
            Pending::NotLike { target, pattern, case_sensitive } => match_pattern(
                target,
                pattern,
                case_sensitive,
                true,
                log,
                at,
            ),
            Pending::CompareToFalse(evaluated) => compare_to_false(evaluated, log, at),
            Pending::ConvertInterval { evaluated, leading_field, last_field } =>
                convert_interval(evaluated, leading_field, last_field, log, at),
            Pending::PrintInterval { value, leading_field, last_field } =>
                print_interval(value, leading_field, last_field, log, at),
            Pending::ParseInterval { text, leading_field, last_field } =>
                parse_interval(text@, leading_field, last_field, log, at),
            Pending::Clock => read_clock(log, at),
            Pending::RunQuery { query, context, purpose } =>
                run_query(query, context@, purpose, log, at),
            Pending::ReadOnlyRow(cursor) => read_only_row(cursor, log, at),
            Pending::ReadNoMoreRows { cursor, value } =>
                read_no_more_rows(cursor, value, log, at),
            Pending::SearchRows { cursor, target, negated } =>
                search_rows(cursor, target, negated, log, at),
            Pending::CompareRow { cursor, target, negated, value } =>
                compare_row(cursor, target, negated, value, log, at),
            Pending::ProbeRows { cursor, negated } => probe_rows(cursor, negated, log, at),
            Pending::CompareItem(search, item) => compare_item(
                scope_of(search.context, aggregated),
                *search.node,
                search.target,
                search.k as nat,
                item,
                log,
                search.floor@,
                at,
            ),
            Pending::CompareBranch(choice, when) => compare_branch(
                scope_of(choice.context, aggregated),
                *choice.node,
                choice.operand,
                choice.k as nat,
                when,
                log,
                choice.floor@,
                at,
            ),
            Pending::Fetch(site) => fetch_function(
                scope_of(site.context, aggregated),
                *site.node,
                log,
                site.floor@,
                at,
            ),
            Pending::ConvertArguments { call, evaluated, done } => convert_arguments(
                scope_of(call.context, aggregated),
                call.name@,
                *call.function,
                evaluated@,
                done@,
                log,
                call.floor@,
                at,
            ),
            Pending::ConvertDefaults { call, arguments, evaluated, done } => convert_defaults(
                scope_of(call.context, aggregated),
                call.name@,
                *call.function,
                arguments@,
                evaluated@,
                done@,
                log,
                call.floor@,
                at,
            ),
            Pending::Bind(binding) => bind(
                scope_of(binding.call.context, aggregated),
                binding.call.name@,
                *binding.call.function,
                binding.arguments@,
                binding.spare@,
                binding.i as nat,
                binding.used as nat,
                binding.row@,
                log,
                binding.call.floor@,
                at,
            ),
            Pending::BindChecked(binding) => bind_checked(
                scope_of(binding.call.context, aggregated),
                binding.call.name@,
                *binding.call.function,
                binding.arguments@,
                binding.spare@,
                binding.i as nat,
                binding.used as nat,
                binding.row@,
                log,
                binding.call.floor@,
                at,
            ),
        }
    }

    /// Whether the question is about the rows of a query.
    spec fn about_rows(self) -> bool {
        ||| self is RunQuery
        ||| self is ReadOnlyRow
        ||| self is ReadNoMoreRows
        ||| self is SearchRows
        ||| self is CompareRow
        ||| self is ProbeRows
    }

    /// Whether the question is about a call of a custom function.
    spec fn about_call(self) -> bool {
        ||| self is Fetch
        ||| self is ConvertArguments
        ||| self is ConvertDefaults
        ||| self is Bind
        ||| self is BindChecked
    }

    /// Whether a step goes on from an answer to the question.
    spec fn goes_on(self, answer: Answer<'a>, at: nat, next: Move<'a>) -> bool {
        &&& next.valid(at + 1)
        &&& forall|aggregated: Option<Map<u64, Value>>, log: Seq<Answer<'a>>|
            at < log.len() && log[at as int] == answer ==> #[trigger] next.outcome(
                aggregated,
                log,
                at + 1,
            ) == self.outcome(aggregated, log, at)
    }

    /// How much work the question still stands for.
    spec fn work(self) -> nat {
        if self is Clock {
            2
        } else {
            0
        }
    }
}

impl<'a> Focus<'a> {
    spec fn valid(self, at: nat) -> bool {
        match self {
            Focus::Eval { floor, .. } => floor@ <= at,
            Focus::Wait(request, pending) => {
                &&& pending.valid(at)
                &&& (request is Now <==> pending is Clock)
            },
            _ => true,
        }
    }

    /// What the evaluation comes to from here on, up to the result for which a frame waits.
    spec fn outcome(
        self,
        aggregated: Option<Map<u64, Value>>,
        log: Seq<Answer<'a>>,
        at: nat,
    ) -> Outcome {
        match self {
            Focus::Eval { context, expr, floor } => evaluate_from(
                scope_of(context, aggregated),
                *expr,
                log,
                floor@,
                at,
            ),
            Focus::Give(evaluated) => Outcome::Returns(Ok(evaluated), at),
            Focus::Fail(error) => Outcome::Returns(Err(error), at),
            Focus::Wait(request, pending) => if at < log.len() {
                pending.outcome(aggregated, log, at)
            } else {
                Outcome::Asks(request@)
            },
            Focus::Break(fault) => Outcome::Faults(fault),
        }
    }

    /// How much work is still to be done up to the result.
    spec fn work(self) -> nat {
        match self {
            Focus::Eval { expr, .. } => 1 + size(*expr),
            Focus::Give(_) => 1,
            Focus::Wait(_, pending) => pending.work(),
            _ => 0,
        }
    }
}

/// A step of an evaluation: a frame that it adds, and what it does next.
struct Move<'a> {
    frame: Option<Frame<'a>>,
    focus: Focus<'a>,
}

impl<'a> Move<'a> {
    spec fn valid(self, at: nat) -> bool {
        &&& self.focus.valid(at)
        &&& self.frame is Some ==> (self.frame->0).valid(at)
    }

    spec fn outcome(
        self,
        aggregated: Option<Map<u64, Value>>,
        log: Seq<Answer<'a>>,
        at: nat,
    ) -> Outcome {
        let outcome = self.focus.outcome(aggregated, log, at);
        match self.frame {
            Some(frame) => frame.after(aggregated, outcome, log),
            None => outcome,
        }
    }

    spec fn work(self) -> nat {
        self.focus.work() + match self.frame {
            Some(frame) => frame.work(),
            None => 0,
        }
    }
}

/// Another pointer to the context, where there is one.
fn share_context(context: &Option<Rc<RowContext>>) -> (copy: Option<Rc<RowContext>>)
    ensures
        copy == *context,
{
    match context {
        Some(context) => Some(share(context)),
        None => None,
    }
}

/// The operand at an index.
fn operand(done: &Vec<Option<Evaluated>>, i: usize) -> (evaluated: Evaluated)
    requires
        i < done@.len(),
        done@[i as int] is Some,
    ensures
        evaluated == done@[i as int]->0,
{
    done[i].unwrap()
}

/// A step without a frame.
fn just<'a>(focus: Focus<'a>) -> (next: Move<'a>)
    ensures
        next == (Move { frame: None, focus }),
{
    Move { frame: None, focus }
}

/// Ends with an error of evaluation.
fn fail_with<'a>(error: EvaluateError) -> (next: Move<'a>)
    ensures
        next == (Move { frame: None, focus: Focus::Fail(Error::Evaluate(error)) }),
{
    just(Focus::Fail(Error::Evaluate(error)))
}

/// Hands a truth value on.
fn give_truth<'a>(b: bool) -> (next: Move<'a>)
    ensures
        next == (Move { frame: None, focus: Focus::Give(Evaluated::Value(Value::Bool(b))) }),
{
    just(Focus::Give(Evaluated::Value(Value::Bool(b))))
}

/// Asks the host for the result.
fn ask_result<'a>(request: Request<'a>) -> (next: Move<'a>)
    requires
        !(request is Now),
    ensures
        next.frame is None,
        next.valid(0),
        next.work() == 0,
        next.focus is Wait,
        forall|at: nat| #[trigger] next.valid(at),
        forall|aggregated: Option<Map<u64, Value>>, log: Seq<Answer<'a>>, at: nat|
            #[trigger] next.outcome(aggregated, log, at) == ask_evaluated(request@, log, at),
{
    let ghost view = request@;
    just(Focus::Wait(request, Pending::Evaluated(Ghost(view))))
}

/// Asks the host what the context holds under a name.
fn ask_found<'a>(request: Request<'a>, ident: &'a String) -> (next: Move<'a>)
    requires
        !(request is Now),
    ensures
        next.work() == 0,
        forall|at: nat| #[trigger] next.valid(at),
        forall|aggregated: Option<Map<u64, Value>>, log: Seq<Answer<'a>>, at: nat|
            #[trigger] next.outcome(aggregated, log, at) == look_up(request@, *ident, log, at),
{
    let ghost view = request@;
    just(Focus::Wait(request, Pending::LookUp { request: Ghost(view), ident }))
}

/// Begins a query.
fn begin_query<'a>(query: Query, context: &Option<Rc<RowContext>>, purpose: Purpose) -> (next:
    Move<'a>)
    ensures
        next.work() == 0,
        forall|at: nat| #[trigger] next.valid(at),
        forall|aggregated: Option<Map<u64, Value>>, log: Seq<Answer<'a>>, at: nat|
            #[trigger] next.outcome(aggregated, log, at) == run_query(
                query,
                context_view(*context),
                purpose,
                log,
                at,
            ),
{
    let ghost view = context_view(*context);
    just(
        Focus::Wait(
            Request::Select { query, context: share_context(context) },
            Pending::RunQuery { query, context: Ghost(view), purpose },
        ),
    )
}

/// Matches a pattern.
fn begin_match<'a>(
    target: Evaluated,
    pattern: Evaluated,
    case_sensitive: bool,
    negated: bool,
) -> (next: Move<'a>)
    ensures
        next.work() == 0,
        forall|at: nat| #[trigger] next.valid(at),
        forall|aggregated: Option<Map<u64, Value>>, log: Seq<Answer<'a>>, at: nat|
            #[trigger] next.outcome(aggregated, log, at) == match_pattern(
                target,
                pattern,
                case_sensitive,
                negated,
                log,
                at,
            ),
{
    let request: Request<'a> = Request::Like { target, pattern, case_sensitive };
    if negated {
        just(Focus::Wait(request, Pending::NotLike { target, pattern, case_sensitive }))
    } else {
        ask_result(request)
    }
}

/// Searches a list from its beginning.
fn begin_search<'a>(
    context: &Option<Rc<RowContext>>,
    node: &'a Expr,
    list: &'a Vec<Expr>,
    negated: bool,
    target: Evaluated,
    floor: Ghost<nat>,
) -> (next: Move<'a>)
    requires
        *node is InList,
        list@ == items(*node),
        negated == negation(*node),
    ensures
        next.work() <= 1 + deferred_size(*node),
        forall|at: nat| floor@ <= at ==> #[trigger] next.valid(at),
        forall|aggregated: Option<Map<u64, Value>>, log: Seq<Answer<'a>>, at: nat|
            #[trigger] next.outcome(aggregated, log, at) == search_list(
                scope_of(*context, aggregated),
                *node,
                target,
                0,
                log,
                floor@,
                at,
            ),
{
    if list.len() == 0 {
        give_truth(negated)
    } else {
        proof {
            lemma_item_size(list@, 0);
        }
        Move {
            frame: Some(
                Frame::Item(
                    ListSearch {
                        context: share_context(context),
                        node,
                        list,
                        negated,
                        target,
                        k: 0,
                        floor,
                    },
                ),
            ),
            focus: Focus::Eval { context: share_context(context), expr: &list[0], floor },
        }
    }
}

/// What a `CASE` comes to where no branch is taken.
fn take_otherwise<'a>(
    context: &Option<Rc<RowContext>>,
    else_result: &'a Option<Box<Expr>>,
    floor: Ghost<nat>,
) -> (next: Move<'a>)
    ensures
        next.work() <= 1 + boxed_size(*else_result),
        forall|at: nat| floor@ <= at ==> #[trigger] next.valid(at),
        forall|aggregated: Option<Map<u64, Value>>, log: Seq<Answer<'a>>, at: nat|
            #[trigger] next.outcome(aggregated, log, at) == match *else_result {
                Some(result) => evaluate_from(
                    scope_of(*context, aggregated),
                    *result,
                    log,
                    floor@,
                    at,
                ),
                None => Outcome::Returns(Ok(Evaluated::Value(Value::Null)), at),
            },
{
    match else_result {
        Some(result) => just(
            Focus::Eval { context: share_context(context), expr: &**result, floor },
        ),
        None => just(Focus::Give(Evaluated::Value(Value::Null))),
    }
}

/// Tries the branches of a `CASE` from the first on.
fn begin_choice<'a>(
    context: &Option<Rc<RowContext>>,
    node: &'a Expr,
    when_then: &'a Vec<(Expr, Expr)>,
    else_result: &'a Option<Box<Expr>>,
    operand: Evaluated,
    floor: Ghost<nat>,
) -> (next: Move<'a>)
    requires
        *node == (Expr::Case {
            operand: node->operand,
            when_then: *when_then,
            else_result: *else_result,
        }),
    ensures
        next.work() <= 1 + deferred_size(*node),
        forall|at: nat| floor@ <= at ==> #[trigger] next.valid(at),
        forall|aggregated: Option<Map<u64, Value>>, log: Seq<Answer<'a>>, at: nat|
            #[trigger] next.outcome(aggregated, log, at) == take_branch(
                scope_of(*context, aggregated),
                *node,
                operand,
                0,
                log,
                floor@,
                at,
            ),
{
    if when_then.len() == 0 {
        take_otherwise(context, else_result, floor)
    } else {
        proof {
            lemma_pair_size(when_then@, 0);
        }
        Move {
            frame: Some(
                Frame::Branch(
                    BranchChoice {
                        context: share_context(context),
                        node,
                        when_then,
                        else_result,
                        operand,
                        k: 0,
                        floor,
                    },
                ),
            ),
            focus: Focus::Eval { context: share_context(context), expr: &when_then[0].0, floor },
        }
    }
}

/// Looks an aggregate's value up.
fn find_aggregate<'a>(
    aggregated: &Option<Rc<HashMap<u64, Value>>>,
    aggregate: Aggregate,
) -> (next: Move<'a>)
    ensures
        next.work() <= 1,
        forall|at: nat| #[trigger] next.valid(at),
        forall|log: Seq<Answer<'a>>, at: nat|
            #[trigger] next.outcome(aggregates_view(*aggregated), log, at) == look_up_aggregate(
                aggregates_view(*aggregated),
                aggregate,
                at,
            ),
{
    let value = match aggregated {
        Some(values) => aggregate_value(&**values, aggregate.0),
        None => None,
    };
    match value {
        Some(value) => just(Focus::Give(Evaluated::Value(value))),
        None => fail_with(EvaluateError::UnreachableEmptyAggregateValue(aggregate)),
    }
}

/// The operands from the second one on.
fn operands_after_first(done: &Vec<Option<Evaluated>>) -> (rest: Vec<Evaluated>)
    requires
        done@.len() > 0,
        forall|i: int| 0 <= i < done@.len() ==> (#[trigger] done@[i]) is Some,
    ensures
        rest@ =~= Seq::new((done@.len() - 1) as nat, |i: int| done@[i + 1]->0),
{
    let mut rest: Vec<Evaluated> = Vec::new();
    for i in 1..done.len()
        invariant
            rest@.len() == i - 1,
            forall|j: int| 0 <= j < done@.len() ==> (#[trigger] done@[j]) is Some,
            forall|j: int| 0 <= j < rest@.len() ==> rest@[j] == done@[j + 1]->0,
    {
        rest.push(operand(done, i));
    }
    rest
}

/// Evaluates a function call whose operands are evaluated.
fn evaluate_function<'a>(
    context: &Option<Rc<RowContext>>,
    node: &'a Expr,
    func: &'a Function,
    done: Vec<Option<Evaluated>>,
    floor: Ghost<nat>,
) -> (next: Move<'a>)
    requires
        *node == Expr::Function(Box::new(*func)),
    ensures
        next.work() <= if *func is Now { 2nat } else { 1 },
        forall|at: nat| floor@ <= at ==> #[trigger] next.valid(at),
        forall|aggregated: Option<Map<u64, Value>>, log: Seq<Answer<'a>>, at: nat|
            #[trigger] next.outcome(aggregated, log, at) == combine(
                scope_of(*context, aggregated),
                *node,
                done@,
                log,
                floor@,
                at,
            ),
{
    match find_routine(func) {
        Some(routine) => ask_result(Request::Call { func, routine, operands: done }),
        None => match func {
            Function::Custom { name, exprs } => {
                let site = CallSite { context: share_context(context), node, name, exprs, floor };
                just(Focus::Wait(Request::FetchFunction(name), Pending::Fetch(site)))
            },
            _ => just(Focus::Wait(Request::Now, Pending::Clock)),
        },
    }
}

/// Evaluates an expression whose operands are evaluated.
fn finish<'a>(
    context: &Option<Rc<RowContext>>,
    aggregated: &Option<Rc<HashMap<u64, Value>>>,
    node: &'a Expr,
    done: Vec<Option<Evaluated>>,
    floor: Ghost<nat>,
) -> (next: Move<'a>)
    requires
        evaluated_as_listed(done@, operands(*node)),
        done@.len() == operands(*node).len(),
    ensures
        next.work() <= 2 + deferred_size(*node),
        done@.len() > 0 ==> next.work() <= 1 + deferred_size(*node),
        forall|at: nat| floor@ <= at ==> #[trigger] next.valid(at),
        forall|log: Seq<Answer<'a>>, at: nat|
            #[trigger] next.outcome(aggregates_view(*aggregated), log, at) == combine(
                scope_of(*context, aggregates_view(*aggregated)),
                *node,
                done@,
                log,
                floor@,
                at,
            ),
{
    match node {
        Expr::Literal(literal) => ask_result(Request::Literal(*literal)),
        Expr::TypedString { data_type, value } => {
            ask_result(Request::TypedString { data_type: *data_type, value })
        },
        Expr::Identifier(ident) => match context {
            Some(context) => ask_found(
                Request::GetValue { context: share(context), ident },
                ident,
            ),
            None => fail_with(EvaluateError::UnreachableEmptyContext),
        },
        Expr::CompoundIdentifier { alias, ident } => match context {
            Some(context) => ask_found(
                Request::GetAliasValue { context: share(context), alias, ident },
                ident,
            ),
            None => fail_with(EvaluateError::UnreachableEmptyContext),
        },
        Expr::Nested(_) => just(Focus::Give(operand(&done, 0))),
        Expr::Subquery(query) => begin_query(*query, context, Purpose::Scalar),
        Expr::BinaryOp { op, .. } => ask_result(
            Request::BinaryOp { op: *op, left: operand(&done, 0), right: operand(&done, 1) },
        ),
        Expr::UnaryOp { op, .. } => ask_result(
            Request::UnaryOp { op: *op, operand: operand(&done, 0) },
        ),
        Expr::Aggregate(aggregate) => find_aggregate(aggregated, *aggregate),
        Expr::Function(func) => evaluate_function(context, node, &**func, done, floor),
        Expr::InList { list, negated, .. } => begin_search(
            context,
            node,
            list,
            *negated,
            operand(&done, 0),
            floor,
        ),
        Expr::InSubquery { subquery, negated, .. } => begin_query(
            *subquery,
            context,
            Purpose::Search { target: operand(&done, 0), negated: *negated },
        ),
        Expr::Between { negated, .. } => ask_result(
            Request::Between {
                target: operand(&done, 0),
                negated: *negated,
                low: operand(&done, 1),
                high: operand(&done, 2),
            },
        ),
        Expr::Like { negated, .. } => begin_match(
            operand(&done, 0),
            operand(&done, 1),
            true,
            *negated,
        ),
        Expr::ILike { negated, .. } => begin_match(
            operand(&done, 0),
            operand(&done, 1),
            false,
            *negated,
        ),
        Expr::Exists { subquery, negated } => begin_query(
            *subquery,
            context,
            Purpose::Probe { negated: *negated },
        ),
        Expr::IsNull(_) => give_truth(operand(&done, 0).is_null()),
        Expr::IsNotNull(_) => give_truth(!operand(&done, 0).is_null()),
        Expr::Case { when_then, else_result, .. } => {
            let operand = match done[0] {
                Some(operand) => operand,
                None => Evaluated::Value(Value::Bool(true)),
            };
            begin_choice(context, node, when_then, else_result, operand, floor)
        },
        Expr::ArrayIndex { .. } => ask_result(
            Request::ArrayIndex { obj: operand(&done, 0), indexes: operands_after_first(&done) },
        ),
        Expr::Interval { leading_field, last_field, .. } => {
            let evaluated = operand(&done, 0);
            just(
                Focus::Wait(
                    Request::Convert(evaluated),
                    Pending::ConvertInterval {
                        evaluated,
                        leading_field: *leading_field,
                        last_field: *last_field,
                    },
                ),
            )
        },
    }
}

/// Evaluates the next operand of an expression, or the expression where none is left.
fn advance<'a>(
    context: Option<Rc<RowContext>>,
    aggregated: &Option<Rc<HashMap<u64, Value>>>,
    node: &'a Expr,
    slots: Vec<Option<&'a Expr>>,
    start: Vec<Option<Evaluated>>,
    floor: Ghost<nat>,
) -> (next: Move<'a>)
    requires
        refer_to(slots@, operands(*node)),
        evaluated_as_listed(start@, operands(*node)),
    ensures
        next.work() <= 2 + operands_size(operands(*node).skip(start@.len() as int))
            + deferred_size(*node),
        operands(*node).len() > 0 ==> next.work() <= 1 + operands_size(
            operands(*node).skip(start@.len() as int),
        ) + deferred_size(*node),
        forall|at: nat| floor@ <= at ==> #[trigger] next.valid(at),
        forall|log: Seq<Answer<'a>>, at: nat|
            #[trigger] next.outcome(aggregates_view(*aggregated), log, at) == evaluate_operands(
                scope_of(context, aggregates_view(*aggregated)),
                *node,
                start@,
                log,
                floor@,
                at,
            ),
{
    let ghost before = start@;
    let mut done = start;
    let ghost scope = scope_of(context, aggregates_view(*aggregated));
    while done.len() < slots.len()
        invariant
            refer_to(slots@, operands(*node)),
            evaluated_as_listed(done@, operands(*node)),
            before == start@,
            before.len() <= done@.len(),
            scope == scope_of(context, aggregates_view(*aggregated)),
            operands_size(operands(*node).skip(done@.len() as int)) <= operands_size(
                operands(*node).skip(before.len() as int),
            ),
            forall|log: Seq<Answer<'a>>, at: nat|
                evaluate_operands(scope, *node, before, log, floor@, at)
                    == #[trigger] evaluate_operands(scope, *node, done@, log, floor@, at),
        decreases slots.len() - done.len(),
    {
        proof {
            lemma_operand_size(operands(*node), done@.len() as int);
        }
        let k: usize = done.len();
        match slots[k] {
            Some(expr) => {
                let inner = share_context(&context);
                let ghost filled = done@;
                proof {
                    assert forall|log: Seq<Answer<'a>>, at: nat|
                        evaluate_operands(scope, *node, before, log, floor@, at) == (
                        match #[trigger] evaluate_from(scope, *expr, log, floor@, at) {
                            Outcome::Returns(Ok(evaluated), p) => evaluate_operands(
                                scope,
                                *node,
                                filled.push(Some(evaluated)),
                                log,
                                floor@,
                                p,
                            ),
                            outcome => outcome,
                        }) by {
                        assert(evaluate_operands(scope, *node, before, log, floor@, at)
                            == evaluate_operands(scope, *node, filled, log, floor@, at));
                    }
                }
                return Move {
                    frame: Some(Frame::Operands { context, node, slots, done, floor }),
                    focus: Focus::Eval { context: inner, expr, floor },
                };
            },
            None => {
                let ghost last = done@;
                done.push(None);
                assert forall|log: Seq<Answer<'a>>, at: nat|
                    evaluate_operands(scope, *node, before, log, floor@, at)
                        == #[trigger] evaluate_operands(scope, *node, done@, log, floor@, at) by {
                    assert(evaluate_operands(scope, *node, last, log, floor@, at)
                        == evaluate_operands(scope, *node, done@, log, floor@, at));
                }
            },
        }
    }
    assert forall|log: Seq<Answer<'a>>, at: nat|
        evaluate_operands(scope, *node, before, log, floor@, at) == #[trigger] combine(
            scope,
            *node,
            done@,
            log,
            floor@,
            at,
        ) by {
        assert(evaluate_operands(scope, *node, before, log, floor@, at) == evaluate_operands(
            scope,
            *node,
            done@,
            log,
            floor@,
            at,
        ));
    }
    finish(&context, aggregated, node, done, floor)
}

/// There are no more defaults than parameters.
proof fn lemma_defaults_len(parameters: Seq<OperateFunctionArg>)
    ensures
        defaults(parameters).len() <= parameters.len(),
    decreases parameters.len(),
{
    if parameters.len() > 0 {
        lemma_defaults_len(parameters.drop_last());
    }
}

/// Lists the defaults of a custom function's parameters.
fn list_defaults<'a>(function: &'a CustomFunction) -> (exprs: Vec<&'a Expr>)
    ensures
        refer_to_all(exprs@, defaults(parameters(*function))),
{
    let mut exprs: Vec<&'a Expr> = Vec::new();
    if let Some(args) = &function.args {
        for i in 0..args.len()
            invariant
                refer_to_all(exprs@, defaults(args@.take(i as int))),
        {
            assert(args@.take(i + 1).drop_last() =~= args@.take(i as int));
            if let Some(default) = &args[i].default {
                exprs.push(default);
            }
        }
        assert(args@.take(args@.len() as int) =~= args@);
    }
    exprs
}

/// The number of a custom function's parameters.
fn count_parameters(function: &CustomFunction) -> (count: usize)
    ensures
        count == parameters(*function).len(),
{
    match &function.args {
        Some(args) => args.len(),
        None => 0,
    }
}

/// A parameter of a custom function.
fn parameter<'a>(function: &'a CustomFunction, i: usize) -> (found: &'a OperateFunctionArg)
    requires
        i < parameters(*function).len(),
    ensures
        *found == parameters(*function)[i as int],
{
    match &function.args {
        Some(args) => &args[i],
        None => vstd::pervasive::unreached(),
    }
}

/// The argument for a parameter.
fn find_argument(arguments: &Vec<Value>, i: usize) -> (value: Value)
    ensures
        value == argument(arguments@, i as nat),
{
    if i < arguments.len() {
        arguments[i]
    } else {
        Value::Null
    }
}

/// Binds the next parameter, or evaluates the body where none is left.
fn next_binding<'a>(binding: Binding<'a>, at: Ghost<nat>) -> (next: Move<'a>)
    requires
        binding.call.valid(at@),
        binding.i <= parameters(*binding.call.function).len(),
        binding.used <= binding.i,
    ensures
        next.valid(at@),
        forall|aggregated: Option<Map<u64, Value>>, log: Seq<Answer<'a>>|
            #[trigger] next.outcome(aggregated, log, at@) == bind(
                scope_of(binding.call.context, aggregated),
                binding.call.name@,
                *binding.call.function,
                binding.arguments@,
                binding.spare@,
                binding.i as nat,
                binding.used as nat,
                binding.row@,
                log,
                binding.call.floor@,
                at@,
            ),
{
    let function = binding.call.function;
    if binding.i < count_parameters(function) {
        let request: Request<'a> = Request::ValidateType {
            value: find_argument(&binding.arguments, binding.i),
            data_type: parameter(function, binding.i).data_type,
        };
        just(Focus::Wait(request, Pending::Bind(binding)))
    } else {
        match &function.return_ {
            Some(body) => {
                let floor = binding.call.floor;
                let context = RowContext::Call {
                    name: binding.call.name.clone(),
                    row: binding.row,
                };
                just(Focus::Eval { context: Some(Rc::new(context)), expr: body, floor })
            },
            None => just(Focus::Give(Evaluated::Value(Value::Null))),
        }
    }
}

/// Converts the next default to a value, or checks the number of arguments where none is left.
fn next_default_conversion<'a>(
    call: Call<'a>,
    arguments: Vec<Value>,
    evaluated: Vec<Evaluated>,
    done: Vec<Value>,
    at: Ghost<nat>,
) -> (next: Move<'a>)
    requires
        call.valid(at@),
        done@.len() <= evaluated@.len(),
        evaluated@.len() == defaults(parameters(*call.function)).len(),
    ensures
        next.valid(at@),
        done@.len() < evaluated@.len() ==> next.work() == 0,
        forall|aggregated: Option<Map<u64, Value>>, log: Seq<Answer<'a>>|
            #[trigger] next.outcome(aggregated, log, at@) == convert_defaults(
                scope_of(call.context, aggregated),
                call.name@,
                *call.function,
                arguments@,
                evaluated@,
                done@,
                log,
                call.floor@,
                at@,
            ),
{
    if done.len() < evaluated.len() {
        let request: Request<'a> = Request::Convert(evaluated[done.len()]);
        just(Focus::Wait(request, Pending::ConvertDefaults { call, arguments, evaluated, done }))
    } else {
        proof {
            lemma_defaults_len(parameters(*call.function));
        }
        let maximum: usize = count_parameters(call.function);
        let minimum: usize = maximum - done.len();
        let found: usize = arguments.len();
        if minimum <= found && found <= maximum {
            next_binding(
                Binding { call, arguments, spare: done, i: 0, used: 0, row: Bindings::new() },
                at,
            )
        } else {
            fail_with(
                EvaluateError::FunctionArgsLengthNotWithinRange {
                    name: call.function.func_name.clone(),
                    expected_minimum: minimum,
                    expected_maximum: maximum,
                    found,
                },
            )
        }
    }
}

/// Evaluates the next default, or begins to convert them where none is left.
fn next_default<'a>(
    call: Call<'a>,
    arguments: Vec<Value>,
    exprs: Vec<&'a Expr>,
    done: Vec<Evaluated>,
    at: Ghost<nat>,
) -> (next: Move<'a>)
    requires
        call.valid(at@),
        refer_to_all(exprs@, defaults(parameters(*call.function))),
        done@.len() <= exprs@.len(),
    ensures
        next.valid(at@),
        done@.len() > 0 ==> next.work() <= 1 + list_size(
            defaults(parameters(*call.function)).skip(done@.len() as int),
        ),
        forall|aggregated: Option<Map<u64, Value>>, log: Seq<Answer<'a>>|
            #[trigger] next.outcome(aggregated, log, at@) == evaluate_defaults(
                scope_of(call.context, aggregated),
                call.name@,
                *call.function,
                arguments@,
                done@,
                log,
                call.floor@,
                at@,
            ),
{
    if done.len() < exprs.len() {
        proof {
            lemma_item_size(defaults(parameters(*call.function)), done@.len() as int);
        }
        let context = share_context(&call.context);
        let floor = call.floor;
        let expr = exprs[done.len()];
        Move {
            frame: Some(Frame::Default { call, arguments, exprs, done }),
            focus: Focus::Eval { context, expr, floor },
        }
    } else {
        next_default_conversion(call, arguments, done, Vec::new(), at)
    }
}

/// Converts the next argument to a value, or begins to evaluate the defaults where none is
/// left.
fn next_conversion<'a>(
    call: Call<'a>,
    evaluated: Vec<Evaluated>,
    done: Vec<Value>,
    at: Ghost<nat>,
) -> (next: Move<'a>)
    requires
        call.valid(at@),
        done@.len() <= evaluated@.len(),
    ensures
        next.valid(at@),
        done@.len() < evaluated@.len() ==> next.work() == 0,
        forall|aggregated: Option<Map<u64, Value>>, log: Seq<Answer<'a>>|
            #[trigger] next.outcome(aggregated, log, at@) == convert_arguments(
                scope_of(call.context, aggregated),
                call.name@,
                *call.function,
                evaluated@,
                done@,
                log,
                call.floor@,
                at@,
            ),
{
    if done.len() < evaluated.len() {
        let request: Request<'a> = Request::Convert(evaluated[done.len()]);
        just(Focus::Wait(request, Pending::ConvertArguments { call, evaluated, done }))
    } else {
        let exprs = list_defaults(call.function);
        next_default(call, done, exprs, Vec::new(), at)
    }
}

/// Evaluates the next argument, or begins to convert them where none is left.
fn next_argument<'a>(
    site: CallSite<'a>,
    function: &'a CustomFunction,
    done: Vec<Evaluated>,
    at: Ghost<nat>,
) -> (next: Move<'a>)
    requires
        site.valid(at@),
        site.floor@ < at@,
        done@.len() <= site.exprs@.len(),
    ensures
        next.valid(at@),
        done@.len() > 0 ==> next.work() <= 1 + list_size(site.exprs@.skip(done@.len() as int)),
        forall|aggregated: Option<Map<u64, Value>>, log: Seq<Answer<'a>>|
            at@ <= log.len() ==> #[trigger] next.outcome(aggregated, log, at@)
                == evaluate_arguments(
                scope_of(site.context, aggregated),
                *site.node,
                *function,
                done@,
                log,
                site.floor@,
                at@,
            ),
{
    if done.len() < site.exprs.len() {
        proof {
            lemma_item_size(site.exprs@, done@.len() as int);
        }
        let context = share_context(&site.context);
        let floor = site.floor;
        let expr = &site.exprs[done.len()];
        Move {
            frame: Some(Frame::Argument { site, function, done }),
            focus: Focus::Eval { context, expr, floor },
        }
    } else {
        let call = Call { context: site.context, name: site.name, function, floor: at };
        next_conversion(call, done, Vec::new(), at)
    }
}

/// Hands a frame the result that it waits for.
fn resume_frame<'a>(
    frame: Frame<'a>,
    aggregated: &Option<Rc<HashMap<u64, Value>>>,
    evaluated: Evaluated,
    at: Ghost<nat>,
) -> (next: Move<'a>)
    requires
        frame.valid(at@),
    ensures
        next.valid(at@),
        next.work() <= frame.work(),
        forall|log: Seq<Answer<'a>>|
            at@ <= log.len() ==> #[trigger] next.outcome(
                aggregates_view(*aggregated),
                log,
                at@,
            ) == frame.resumed(aggregates_view(*aggregated), evaluated, log, at@),
{
    match frame {
        Frame::Operands { context, node, slots, done, floor } => {
            let mut done = done;
            done.push(Some(evaluated));
            advance(context, aggregated, node, slots, done, floor)
        },
        Frame::Item(search) => just(
            Focus::Wait(
                Request::Compare { left: evaluated, right: search.target },
                Pending::CompareItem(search, evaluated),
            ),
        ),
        Frame::Branch(choice) => just(
            Focus::Wait(
                Request::Compare { left: evaluated, right: choice.operand },
                Pending::CompareBranch(choice, evaluated),
            ),
        ),
        Frame::Argument { site, function, done } => {
            let mut done = done;
            done.push(evaluated);
            next_argument(site, function, done, at)
        },
        Frame::Default { call, arguments, exprs, done } => {
            let mut done = done;
            done.push(evaluated);
            next_default(call, arguments, exprs, done, at)
        },
    }
}

/// Goes on from the comparison of an item with the target.
fn next_item<'a>(
    search: ListSearch<'a>,
    item: Ghost<Evaluated>,
    equal: bool,
    at: Ghost<nat>,
) -> (next: Move<'a>)
    requires
        search.valid(at@),
    ensures
        next.valid(at@ + 1),
        forall|aggregated: Option<Map<u64, Value>>, log: Seq<Answer<'a>>|
            at@ < log.len() && log[at@ as int] == Answer::<'a>::Equal(equal)
                ==> #[trigger] next.outcome(aggregated, log, at@ + 1) == compare_item(
                scope_of(search.context, aggregated),
                *search.node,
                search.target,
                search.k as nat,
                item@,
                log,
                search.floor@,
                at@,
            ),
{
    if equal {
        give_truth(!search.negated)
    } else if search.k < search.list.len() - 1 {
        let k: usize = search.k + 1;
        let context = share_context(&search.context);
        let floor = search.floor;
        let expr = &search.list[k];
        Move {
            frame: Some(Frame::Item(ListSearch { k, ..search })),
            focus: Focus::Eval { context, expr, floor },
        }
    } else {
        give_truth(search.negated)
    }
}

/// Goes on from the comparison of a branch's condition with the operand.
fn next_branch<'a>(
    choice: BranchChoice<'a>,
    when: Ghost<Evaluated>,
    equal: bool,
    at: Ghost<nat>,
) -> (next: Move<'a>)
    requires
        choice.valid(at@),
    ensures
        next.valid(at@ + 1),
        forall|aggregated: Option<Map<u64, Value>>, log: Seq<Answer<'a>>|
            at@ < log.len() && log[at@ as int] == Answer::<'a>::Equal(equal)
                ==> #[trigger] next.outcome(aggregated, log, at@ + 1) == compare_branch(
                scope_of(choice.context, aggregated),
                *choice.node,
                choice.operand,
                choice.k as nat,
                when@,
                log,
                choice.floor@,
                at@,
            ),
{
    if equal {
        let then = &choice.when_then[choice.k].1;
        just(Focus::Eval { context: choice.context, expr: then, floor: choice.floor })
    } else if choice.k < choice.when_then.len() - 1 {
        let k: usize = choice.k + 1;
        let context = share_context(&choice.context);
        let floor = choice.floor;
        let expr = &choice.when_then[k].0;
        Move {
            frame: Some(Frame::Branch(BranchChoice { k, ..choice })),
            focus: Focus::Eval { context, expr, floor },
        }
    } else {
        take_otherwise(&choice.context, choice.else_result, choice.floor)
    }
}

/// The first value of a row.
fn take_first(values: &Vec<Value>) -> (value: Value)
    ensures
        value == first_value(values@),
{
    if values.len() > 0 {
        values[0]
    } else {
        Value::Null
    }
}

/// Ends with an error that came with an answer.
fn pass_on<'a>(error: Error) -> (next: Move<'a>)
    ensures
        next == (Move { frame: None, focus: Focus::Fail(error) }),
{
    just(Focus::Fail(error))
}

/// Gives up on an answer that is not one to the question.
fn misfitted<'a>() -> (next: Move<'a>)
    ensures
        next == (Move::<'a> { frame: None, focus: Focus::Break(Fault::Misfit) }),
{
    just(Focus::Break(Fault::Misfit))
}

/// Reads the next row of a query.
fn next_row<'a>(cursor: Cursor, pending: Pending<'a>) -> (next: Move<'a>)
    ensures
        next == (Move { frame: None, focus: Focus::Wait(Request::NextRow(cursor), pending) }),
{
    just(Focus::Wait(Request::NextRow(cursor), pending))
}

/// Binds the parameter whose argument was checked.
fn bind_parameter<'a>(binding: Binding<'a>, at: Ghost<nat>) -> (next: Move<'a>)
    requires
        binding.valid(at@),
    ensures
        next.valid(at@ + 1),
        forall|aggregated: Option<Map<u64, Value>>, log: Seq<Answer<'a>>|
            at@ < log.len() && (log[at@ as int] matches Answer::Checked(Ok(_)))
                ==> #[trigger] next.outcome(aggregated, log, at@ + 1) == bind_checked(
                scope_of(binding.call.context, aggregated),
                binding.call.name@,
                *binding.call.function,
                binding.arguments@,
                binding.spare@,
                binding.i as nat,
                binding.used as nat,
                binding.row@,
                log,
                binding.call.floor@,
                at@,
            ),
{
    let name = parameter(binding.call.function, binding.i).name.clone();
    let given = find_argument(&binding.arguments, binding.i);
    let count: usize = count_parameters(binding.call.function);
    assert(binding.i < count);
    let i: usize = binding.i + 1;
    let next_at: Ghost<nat> = Ghost(at@ + 1);
    let mut row = binding.row;
    if given.is_null() {
        if binding.used < binding.spare.len() {
            let used: usize = binding.used + 1;
            row.insert(name, binding.spare[binding.used]);
            next_binding(Binding { i, used, row, ..binding }, next_at)
        } else {
            just(Focus::Break(Fault::MissingDefault))
        }
    } else {
        row.insert(name, given);
        next_binding(Binding { i, row, ..binding }, next_at)
    }
}

/// Goes on from an answer about the rows of a query.
fn receive_row<'a>(pending: Pending<'a>, answer: Answer<'a>, at: Ghost<nat>) -> (next: Move<'a>)
    requires
        pending.about_rows(),
    ensures
        pending.goes_on(answer, at@, next),
{
    match pending {
        Pending::RunQuery { purpose, .. } => match answer {
            Answer::Cursor(Ok(cursor)) => match purpose {
                Purpose::Scalar => next_row(cursor, Pending::ReadOnlyRow(cursor)),
                Purpose::Search { target, negated } => next_row(
                    cursor,
                    Pending::SearchRows { cursor, target, negated },
                ),
                Purpose::Probe { negated } => next_row(
                    cursor,
                    Pending::ProbeRows { cursor, negated },
                ),
            },
            Answer::Cursor(Err(error)) => pass_on(error),
            _ => misfitted(),
        },
        Pending::ReadOnlyRow(cursor) => match answer {
            Answer::Row(Ok(Some(Row::Vec { values }))) => {
                let value = take_first(&values);
                next_row(cursor, Pending::ReadNoMoreRows { cursor, value })
            },
            Answer::Row(Ok(Some(Row::Schemaless(_)))) => fail_with(
                EvaluateError::SchemalessProjectionForSubQuery,
            ),
            Answer::Row(Ok(None)) => just(Focus::Give(Evaluated::Value(Value::Null))),
            Answer::Row(Err(error)) => pass_on(error),
            _ => misfitted(),
        },
        Pending::ReadNoMoreRows { value, .. } => match answer {
            Answer::Row(Ok(Some(Row::Vec { .. }))) => fail_with(
                EvaluateError::MoreThanOneRowReturned,
            ),
            Answer::Row(Ok(Some(Row::Schemaless(_)))) => fail_with(
                EvaluateError::SchemalessProjectionForSubQuery,
            ),
            Answer::Row(Ok(None)) => just(Focus::Give(Evaluated::Value(value))),
            Answer::Row(Err(error)) => pass_on(error),
            _ => misfitted(),
        },
        Pending::SearchRows { cursor, target, negated } => match answer {
            Answer::Row(Ok(Some(Row::Vec { values }))) => {
                let value = take_first(&values);
                just(
                    Focus::Wait(
                        Request::Compare { left: Evaluated::Value(value), right: target },
                        Pending::CompareRow { cursor, target, negated, value },
                    ),
                )
            },
            Answer::Row(Ok(Some(Row::Schemaless(_)))) => fail_with(
                EvaluateError::SchemalessProjectionForInSubQuery,
            ),
            Answer::Row(Ok(None)) => give_truth(negated),
            Answer::Row(Err(error)) => pass_on(error),
            _ => misfitted(),
        },
        Pending::CompareRow { cursor, target, negated, .. } => match answer {
            Answer::Equal(equal) => if equal {
                give_truth(!negated)
            } else {
                next_row(cursor, Pending::SearchRows { cursor, target, negated })
            },
            _ => misfitted(),
        },
        Pending::ProbeRows { negated, .. } => match answer {
            Answer::Row(Ok(row)) => give_truth(row.is_some() != negated),
            Answer::Row(Err(error)) => pass_on(error),
            _ => misfitted(),
        },
        _ => vstd::pervasive::unreached(),
    }
}

/// Goes on from an answer about a call of a custom function.
fn receive_for_call<'a>(pending: Pending<'a>, answer: Answer<'a>, at: Ghost<nat>) -> (next: Move<
    'a,
>)
    requires
        pending.about_call(),
        pending.valid(at@),
    ensures
        pending.goes_on(answer, at@, next),
{
    let next_at: Ghost<nat> = Ghost(at@ + 1);
    match pending {
        Pending::Fetch(site) => match answer {
            Answer::Function(Ok(Some(function))) => next_argument(
                site,
                function,
                Vec::new(),
                next_at,
            ),
            Answer::Function(Ok(None)) => fail_with(
                EvaluateError::UnsupportedFunction(site.name.clone()),
            ),
            Answer::Function(Err(error)) => pass_on(error),
            _ => misfitted(),
        },
        Pending::ConvertArguments { call, evaluated, done } => match answer {
            Answer::Value(Ok(value)) => {
                let mut done = done;
                done.push(value);
                next_conversion(call, evaluated, done, next_at)
            },
            Answer::Value(Err(_)) => just(Focus::Break(Fault::Inconvertible)),
            _ => misfitted(),
        },
        Pending::ConvertDefaults { call, arguments, evaluated, done } => match answer {
            Answer::Value(Ok(value)) => {
                let mut done = done;
                done.push(value);
                next_default_conversion(call, arguments, evaluated, done, next_at)
            },
            Answer::Value(Err(_)) => just(Focus::Break(Fault::Inconvertible)),
            _ => misfitted(),
        },
        Pending::Bind(binding) => match answer {
            Answer::Checked(Ok(_)) => {
                let request: Request<'a> = Request::ValidateNull {
                    value: find_argument(&binding.arguments, binding.i),
                    nullable: parameter(binding.call.function, binding.i).default.is_some(),
                };
                just(Focus::Wait(request, Pending::BindChecked(binding)))
            },
            Answer::Checked(Err(error)) => pass_on(error),
            _ => misfitted(),
        },
        Pending::BindChecked(binding) => match answer {
            Answer::Checked(Ok(_)) => bind_parameter(binding, at),
            Answer::Checked(Err(error)) => pass_on(error),
            _ => misfitted(),
        },
        _ => vstd::pervasive::unreached(),
    }
}

/// Goes on from an answer.
fn receive<'a>(pending: Pending<'a>, answer: Answer<'a>, at: Ghost<nat>) -> (next: Move<'a>)
    requires
        pending.valid(at@),
    ensures
        pending.goes_on(answer, at@, next),
        pending is Clock ==> next.work() < pending.work(),
{
    match pending {
        Pending::Evaluated(_) => match answer {
            Answer::Evaluated(Ok(evaluated)) => just(Focus::Give(evaluated)),
            Answer::Evaluated(Err(error)) => pass_on(error),
            _ => misfitted(),
        },
        Pending::LookUp { ident, .. } => match answer {
            Answer::Found(Some(value)) => just(Focus::Give(Evaluated::Value(value))),
            Answer::Found(None) => fail_with(EvaluateError::ValueNotFound(ident.clone())),
            _ => misfitted(),
        },
        Pending::NotLike { .. } => match answer {
            Answer::Evaluated(Ok(matched)) => just(
                Focus::Wait(
                    Request::Compare {
                        left: matched,
                        right: Evaluated::Literal(Literal::Boolean(false)),
                    },
                    Pending::CompareToFalse(matched),
                ),
            ),
            Answer::Evaluated(Err(error)) => pass_on(error),
            _ => misfitted(),
        },
        Pending::CompareToFalse(_) => match answer {
            Answer::Equal(equal) => give_truth(equal),
            _ => misfitted(),
        },
        Pending::ConvertInterval { leading_field, last_field, .. } => match answer {
            Answer::Value(Ok(value)) => just(
                Focus::Wait(
                    Request::Print(value),
                    Pending::PrintInterval { value, leading_field, last_field },
                ),
            ),
            Answer::Value(Err(error)) => pass_on(error),
            _ => misfitted(),
        },
        Pending::PrintInterval { leading_field, last_field, .. } => match answer {
            Answer::Text(text) => {
                let ghost view = text@;
                just(
                    Focus::Wait(
                        Request::ParseInterval { text, leading_field, last_field },
                        Pending::ParseInterval { text: Ghost(view), leading_field, last_field },
                    ),
                )
            },
            _ => misfitted(),
        },
        Pending::ParseInterval { .. } => match answer {
            Answer::Interval(Ok(interval)) => just(
                Focus::Give(Evaluated::Value(Value::Interval(interval))),
            ),
            Answer::Interval(Err(error)) => pass_on(error),
            _ => misfitted(),
        },
        Pending::Clock => match answer {
            Answer::Instant(now) => just(Focus::Give(Evaluated::Value(Value::Timestamp(now)))),
            _ => misfitted(),
        },
        Pending::CompareItem(search, item) => match answer {
            Answer::Equal(equal) => next_item(search, Ghost(item), equal, at),
            _ => misfitted(),
        },
        Pending::CompareBranch(choice, when) => match answer {
            Answer::Equal(equal) => next_branch(choice, Ghost(when), equal, at),
            _ => misfitted(),
        },
        Pending::RunQuery { .. }
        | Pending::ReadOnlyRow(_)
        | Pending::ReadNoMoreRows { .. }
        | Pending::SearchRows { .. }
        | Pending::CompareRow { .. }
        | Pending::ProbeRows { .. } => receive_row(pending, answer, at),
        Pending::Fetch(_)
        | Pending::ConvertArguments { .. }
        | Pending::ConvertDefaults { .. }
        | Pending::Bind(_)
        | Pending::BindChecked(_) => receive_for_call(pending, answer, at),
    }
}

/// Evaluates an expression: begins with its operands.
fn begin<'a>(
    context: Option<Rc<RowContext>>,
    aggregated: &Option<Rc<HashMap<u64, Value>>>,
    expr: &'a Expr,
    floor: Ghost<nat>,
) -> (next: Move<'a>)
    ensures
        next.work() <= size(*expr),
        forall|at: nat| floor@ <= at ==> #[trigger] next.valid(at),
        forall|log: Seq<Answer<'a>>, at: nat|
            #[trigger] next.outcome(aggregates_view(*aggregated), log, at) == evaluate_from(
                scope_of(context, aggregates_view(*aggregated)),
                *expr,
                log,
                floor@,
                at,
            ),
{
    let slots = list_operands(expr);
    proof {
        lemma_size(*expr);
        assert(operands(*expr).skip(0) =~= operands(*expr));
    }
    advance(context, aggregated, expr, slots, Vec::new(), floor)
}

/// What the evaluation comes to, given what the innermost expression comes to. The last frame is
/// the innermost one.
spec fn unwind<'a>(
    frames: Seq<Frame<'a>>,
    aggregated: Option<Map<u64, Value>>,
    outcome: Outcome,
    log: Seq<Answer<'a>>,
) -> Outcome
    decreases frames.len(),
{
    if frames.len() == 0 {
        outcome
    } else {
        unwind(frames.drop_last(), aggregated, frames.last().after(aggregated, outcome, log), log)
    }
}

/// How much work the frames still stand for.
spec fn frames_work<'a>(frames: Seq<Frame<'a>>) -> nat
    decreases frames.len(),
{
    if frames.len() == 0 {
        0
    } else {
        frames_work(frames.drop_last()) + frames.last().work()
    }
}

/// Only a result goes through the frames: everything else is what the evaluation comes to.
proof fn lemma_unwind<'a>(
    frames: Seq<Frame<'a>>,
    aggregated: Option<Map<u64, Value>>,
    outcome: Outcome,
    log: Seq<Answer<'a>>,
)
    requires
        !(outcome matches Outcome::Returns(Ok(_), _)),
    ensures
        unwind(frames, aggregated, outcome, log) == outcome,
    decreases frames.len(),
{
    if frames.len() > 0 {
        lemma_unwind(frames.drop_last(), aggregated, outcome, log);
    }
}

/// Whether a log goes on from another one.
spec fn continues<'a>(log: Seq<Answer<'a>>, history: Seq<Answer<'a>>) -> bool {
    &&& history.len() <= log.len()
    &&& forall|i: int| 0 <= i < history.len() ==> log[i] == #[trigger] history[i]
}

/// An evaluation and what the host has answered so far.
pub struct Trace<'a> {
    pub scope: Scope,
    pub expr: Expr,
    pub log: Seq<Answer<'a>>,
}

impl<'a> Trace<'a> {
    /// The evaluation of an expression before the first answer.
    pub open spec fn of(
        context: Option<Rc<RowContext>>,
        aggregated: Option<Rc<HashMap<u64, Value>>>,
        expr: Expr,
    ) -> Trace<'a> {
        Trace {
            scope: Scope {
                context: context_view(context),
                aggregated: aggregates_view(aggregated),
            },
            expr,
            log: Seq::empty(),
        }
    }

    /// What the evaluation comes to.
    pub open spec fn outcome(self) -> Outcome {
        evaluation(self.scope, self.expr, self.log)
    }

    /// The evaluation with one more answer.
    pub open spec fn answered(self, answer: Answer<'a>) -> Trace<'a> {
        Trace { log: self.log.push(answer), ..self }
    }

    /// Whether the evaluation comes to what the frames make of what the focus comes to.
    spec fn follows(self, frames: Seq<Frame<'a>>, focus: Focus<'a>) -> bool {
        let aggregated = self.scope.aggregated;
        forall|log: Seq<Answer<'a>>|
            continues(log, self.log) ==> #[trigger] evaluation(self.scope, self.expr, log)
                == unwind(frames, aggregated, focus.outcome(aggregated, log, self.log.len()), log)
    }

    /// Whether the evaluation, with one more answer, comes to what the frames make of what the
    /// question comes to.
    spec fn awaits(self, frames: Seq<Frame<'a>>, pending: Pending<'a>) -> bool {
        let aggregated = self.scope.aggregated;
        forall|log: Seq<Answer<'a>>|
            continues(log, self.log) && self.log.len() < log.len() ==> #[trigger] evaluation(
                self.scope,
                self.expr,
                log,
            ) == unwind(frames, aggregated, pending.outcome(aggregated, log, self.log.len()), log)
    }
}

/// An evaluation that waits for an answer.
pub struct Evaluation<'a> {
    aggregated: Option<Rc<HashMap<u64, Value>>>,
    frames: Vec<Frame<'a>>,
    pending: Pending<'a>,
    trace: Ghost<Trace<'a>>,
}

impl<'a> View for Evaluation<'a> {
    type V = Trace<'a>;

    closed spec fn view(&self) -> Trace<'a> {
        self.trace@
    }
}

/// Whether each frame is valid.
spec fn all_valid<'a>(frames: Seq<Frame<'a>>, at: nat) -> bool {
    forall|i: int| 0 <= i < frames.len() ==> (#[trigger] frames[i]).valid(at)
}

impl<'a> Evaluation<'a> {
    #[verifier::type_invariant]
    spec fn well_formed(self) -> bool {
        let at = self.trace@.log.len();
        &&& self.trace@.scope.aggregated == aggregates_view(self.aggregated)
        &&& all_valid(self.frames@, at)
        &&& self.pending.valid(at)
        &&& self.trace@.awaits(self.frames@, self.pending)
    }

    /// Whether the evaluation waits for the time of day.
    pub(crate) closed spec fn reads_clock(self) -> bool {
        self.pending is Clock
    }

    /// How much work the evaluation still stands for up to the next question of another kind.
    pub(crate) closed spec fn work(self) -> nat {
        frames_work(self.frames@) + self.pending.work()
    }
}

/// What an evaluation has come to.
pub enum Step<'a> {
    /// A question to the host. The evaluation goes on from the answer.
    Ask { request: Request<'a>, evaluation: Evaluation<'a> },
    /// The result.
    Done(Result<Evaluated, Error>),
    /// The answers are none that an evaluation can go on from.
    Fault(Fault),
}

impl<'a> Step<'a> {
    /// Whether this is what an evaluation comes to. Each answer has gone into it.
    pub open spec fn reaches(self, trace: Trace<'a>) -> bool {
        match trace.outcome() {
            Outcome::Asks(asked) => {
                &&& self matches Step::Ask { request, evaluation }
                &&& request@ == asked
                &&& evaluation@ == trace
            },
            Outcome::Returns(result, at) => self == Step::<'a>::Done(result) && at
                == trace.log.len(),
            Outcome::Faults(fault) => self == Step::<'a>::Fault(fault),
        }
    }

    /// Whether a question is for the time of day just where the evaluation waits for it.
    pub(crate) open spec fn tells_clock(self) -> bool {
        self matches Step::Ask { request, evaluation } ==> (request is Now
            <==> evaluation.reads_clock())
    }

    /// How much work is left.
    pub(crate) open spec fn work(self) -> nat {
        match self {
            Step::Ask { evaluation, .. } => evaluation.work(),
            _ => 0,
        }
    }
}

/// Applies a step to the frames.
fn apply<'a>(stack: Vec<Frame<'a>>, next: Move<'a>, at: Ghost<nat>) -> (applied: (
    Vec<Frame<'a>>,
    Focus<'a>,
))
    requires
        all_valid(stack@, at@),
        next.valid(at@),
    ensures
        all_valid(applied.0@, at@),
        applied.1.valid(at@),
        frames_work(applied.0@) + applied.1.work() == frames_work(stack@) + next.work(),
        forall|aggregated: Option<Map<u64, Value>>, log: Seq<Answer<'a>>|
            unwind(
                applied.0@,
                aggregated,
                #[trigger] applied.1.outcome(aggregated, log, at@),
                log,
            ) == unwind(stack@, aggregated, next.outcome(aggregated, log, at@), log),
{
    let mut frames = stack;
    if let Some(frame) = next.frame {
        frames.push(frame);
        assert(frames@.drop_last() =~= stack@);
    }
    (frames, next.focus)
}

/// Hands a result to the innermost frame.
fn hand_over<'a>(
    aggregated: &Option<Rc<HashMap<u64, Value>>>,
    stack: Vec<Frame<'a>>,
    evaluated: Evaluated,
    trace: Ghost<Trace<'a>>,
) -> (applied: (Vec<Frame<'a>>, Focus<'a>))
    requires
        stack@.len() > 0,
        trace@.scope.aggregated == aggregates_view(*aggregated),
        all_valid(stack@, trace@.log.len()),
        trace@.follows(stack@, Focus::Give(evaluated)),
    ensures
        all_valid(applied.0@, trace@.log.len()),
        applied.1.valid(trace@.log.len()),
        frames_work(applied.0@) + applied.1.work() <= frames_work(stack@),
        trace@.follows(applied.0@, applied.1),
{
    let at: Ghost<nat> = Ghost(trace@.log.len());
    let ghost before = stack@;
    let mut rest = stack;
    match rest.pop() {
        Some(frame) => {
            assert(rest@ =~= before.drop_last());
            let next = resume_frame(frame, aggregated, evaluated, at);
            apply(rest, next, at)
        },
        None => vstd::pervasive::unreached(),
    }
}

/// Evaluates an expression for the innermost frame.
fn descend<'a>(
    aggregated: &Option<Rc<HashMap<u64, Value>>>,
    stack: Vec<Frame<'a>>,
    context: Option<Rc<RowContext>>,
    expr: &'a Expr,
    floor: Ghost<nat>,
    trace: Ghost<Trace<'a>>,
) -> (applied: (Vec<Frame<'a>>, Focus<'a>))
    requires
        trace@.scope.aggregated == aggregates_view(*aggregated),
        all_valid(stack@, trace@.log.len()),
        floor@ <= trace@.log.len(),
        trace@.follows(stack@, Focus::Eval { context, expr, floor }),
    ensures
        all_valid(applied.0@, trace@.log.len()),
        applied.1.valid(trace@.log.len()),
        frames_work(applied.0@) + applied.1.work() <= frames_work(stack@) + size(*expr),
        trace@.follows(applied.0@, applied.1),
{
    let at: Ghost<nat> = Ghost(trace@.log.len());
    let next = begin(context, aggregated, expr, floor);
    apply(stack, next, at)
}

/// A focus that is no result is what the evaluation comes to.
proof fn lemma_stops<'a>(trace: Trace<'a>, frames: Seq<Frame<'a>>, focus: Focus<'a>)
    requires
        trace.follows(frames, focus),
        !(focus is Give),
        !(focus is Eval),
    ensures
        trace.outcome() == focus.outcome(trace.scope.aggregated, trace.log, trace.log.len()),
{
    assert(continues(trace.log, trace.log));
    lemma_unwind(
        frames,
        trace.scope.aggregated,
        focus.outcome(trace.scope.aggregated, trace.log, trace.log.len()),
        trace.log,
    );
}

/// Goes on until the host must be asked or the evaluation ends.
fn run<'a>(
    aggregated: Option<Rc<HashMap<u64, Value>>>,
    stack: Vec<Frame<'a>>,
    start: Focus<'a>,
    trace: Ghost<Trace<'a>>,
) -> (step: Step<'a>)
    requires
        trace@.scope.aggregated == aggregates_view(aggregated),
        all_valid(stack@, trace@.log.len()),
        start.valid(trace@.log.len()),
        trace@.follows(stack@, start),
    ensures
        step.reaches(trace@),
        step.tells_clock(),
        step.work() <= frames_work(stack@) + start.work(),
{
    let mut frames = stack;
    let mut focus = start;
    loop
        invariant
            trace@.scope.aggregated == aggregates_view(aggregated),
            all_valid(frames@, trace@.log.len()),
            focus.valid(trace@.log.len()),
            frames_work(frames@) + focus.work() <= frames_work(stack@) + start.work(),
            trace@.follows(frames@, focus),
        decreases frames_work(frames@) + focus.work(),
    {
        match focus {
            Focus::Eval { context, expr, floor } => {
                let applied = descend(&aggregated, frames, context, expr, floor, trace);
                frames = applied.0;
                focus = applied.1;
            },
            Focus::Give(evaluated) => {
                if frames.len() == 0 {
                    proof {
                        assert(continues(trace@.log, trace@.log));
                    }
                    return Step::Done(Ok(evaluated));
                }
                let applied = hand_over(&aggregated, frames, evaluated, trace);
                frames = applied.0;
                focus = applied.1;
            },
            Focus::Fail(error) => {
                proof {
                    lemma_stops(trace@, frames@, Focus::Fail(error));
                }
                return Step::Done(Err(error));
            },
            Focus::Wait(request, pending) => {
                proof {
                    lemma_stops(trace@, frames@, Focus::Wait(request, pending));
                }
                return Step::Ask {
                    request,
                    evaluation: Evaluation { aggregated, frames, pending, trace },
                };
            },
            Focus::Break(fault) => {
                proof {
                    lemma_stops(trace@, frames@, Focus::Break(fault));
                }
                return Step::Fault(fault);
            },
        }
    }
}

/// Begins to evaluate an expression.
pub fn start<'a>(
    context: Option<Rc<RowContext>>,
    aggregated: Option<Rc<HashMap<u64, Value>>>,
    expr: &'a Expr,
) -> (step: Step<'a>)
    ensures
        step.reaches(Trace::of(context, aggregated, *expr)),
{
    begin_run(context, aggregated, expr)
}

/// Begins to evaluate an expression, and says what it waits for.
pub(crate) fn begin_run<'a>(
    context: Option<Rc<RowContext>>,
    aggregated: Option<Rc<HashMap<u64, Value>>>,
    expr: &'a Expr,
) -> (step: Step<'a>)
    ensures
        step.reaches(Trace::of(context, aggregated, *expr)),
        step.tells_clock(),
{
    let floor: Ghost<nat> = Ghost(0);
    let trace: Ghost<Trace<'a>> = Ghost(Trace::of(context, aggregated, *expr));
    let focus = Focus::Eval { context, expr, floor };
    run(aggregated, Vec::new(), focus, trace)
}

impl<'a> Evaluation<'a> {
    /// Goes on from an answer to the question.
    pub fn answer(self, answer: Answer<'a>) -> (step: Step<'a>)
        ensures
            step.reaches(self@.answered(answer)),
    {
        self.proceed(answer)
    }

    /// Goes on from an answer to the question, and says what is left to do.
    pub(crate) fn proceed(self, answer: Answer<'a>) -> (step: Step<'a>)
        ensures
            step.reaches(self@.answered(answer)),
            step.tells_clock(),
            self.reads_clock() ==> step.work() < self.work(),
    {
        proof {
            use_type_invariant(&self);
        }
        let at: Ghost<nat> = Ghost(self.trace@.log.len());
        let trace: Ghost<Trace<'a>> = Ghost(self.trace@.answered(answer));
        let next_at: Ghost<nat> = Ghost(at@ + 1);
        let ghost pending = self.pending;
        let ghost stack = self.frames@;
        let ghost before = self.trace@;
        let next = receive(self.pending, answer, at);
        let applied = apply(self.frames, next, next_at);
        proof {
            let aggregated = before.scope.aggregated;
            assert forall|log: Seq<Answer<'a>>| continues(log, trace@.log) implies #[trigger]
                evaluation(trace@.scope, trace@.expr, log) == unwind(
                applied.0@,
                aggregated,
                applied.1.outcome(aggregated, log, next_at@),
                log,
            ) by {
                assert(trace@.log[at@ as int] == answer);
                assert forall|i: int| 0 <= i < before.log.len() implies log[i]
                    == #[trigger] before.log[i] by {
                    assert(log[i] == trace@.log[i]);
                }
                assert(continues(log, before.log));
                assert(next.outcome(aggregated, log, next_at@) == pending.outcome(
                    aggregated,
                    log,
                    at@,
                ));
            }
        }
        run(self.aggregated, applied.0, applied.1, trace)
    }
}

} // verus!
