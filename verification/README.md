# glue_evaluate

The part of an SQL engine that evaluates expressions, and that creates and drops the functions
that expressions can call. It is written in Verus: each function states what it does, and the
statement is proved.

## How it works

Evaluation needs things that it cannot compute itself: operators and functions on values, the rows
of subqueries, the custom functions in the store. It does not call for them. It stops with a
question (`Request`) and goes on from the answer (`Answer`), so that whoever runs it may take as
long as it likes over the answer.

```text
evaluate(context, aggregated, expr) -> Step
Step::Ask { request, evaluation }   evaluation.resume(answer) -> Step
Step::Done(result)
Step::Fault(fault)
```

Only the clock is read by the library. `start` and `Evaluation::answer` are the same without
that: there the time of day is a question like any other.

## Layout

- `src/ast.rs`, `src/data.rs`, `src/context.rs`, `src/result.rs`: what is evaluated, to what, in
  what, and the errors.
- `src/executor/evaluate/semantics.rs`: what an expression comes to, as a function of the answers.
- `src/executor/evaluate/operands.rs`: the operands of each expression and function.
- `src/executor/evaluate/protocol.rs`: questions and answers.
- `src/executor/evaluate/machine.rs`: the evaluation that stops and goes on.
- `src/executor/evaluate/laws.rs`, `call_laws.rs`: what holds of every evaluation, and of every
  call of a custom function. `settled.rs`, `shifted.rs` and `fitting.rs` hold the inductions behind
  them.
- `src/executor/alter/`: the creation and dropping of functions, and their laws.
- `app/`: runs all of this against an asynchronous store.
