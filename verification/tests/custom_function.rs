use std::rc::Rc;

use glue_evaluate::ast::{
    Aggregate, AstLiteral, CustomFunction, DataType, Expr, Function, OperateFunctionArg,
};
use glue_evaluate::context::{Bindings, RowContext};
use glue_evaluate::data::{Evaluated, Value};
use glue_evaluate::executor::evaluate::evaluate;
use glue_evaluate::executor::evaluate::machine::Step;
use glue_evaluate::executor::evaluate::protocol::{Answer, Fault, Request};
use glue_evaluate::result::{Error, EvaluateError};
use im_rc::HashMap;

/// How a call ends.
#[derive(Debug, PartialEq)]
enum Outcome {
    /// The answers ran out at the last question.
    Waiting,
    Done(Result<Evaluated, Error>),
    Broken(Fault),
}

fn call<'a>(expr: &'a Expr, answers: Vec<Answer<'a>>) -> (Vec<Request<'a>>, Outcome) {
    let mut asked = Vec::new();
    let mut answers = answers.into_iter();
    let mut values = HashMap::new();
    values.insert(1, Value::Other(77));
    let context = Some(Rc::new(RowContext::Outer(5)));
    let mut step = evaluate(context, Some(Rc::new(values)), expr);
    loop {
        match step {
            Step::Ask { request, evaluation } => {
                asked.push(request);
                match answers.next() {
                    Some(answer) => step = evaluation.resume(answer),
                    None => return (asked, Outcome::Waiting),
                }
            }
            Step::Done(result) => {
                assert!(answers.next().is_none());
                return (asked, Outcome::Done(result));
            }
            Step::Fault(fault) => return (asked, Outcome::Broken(fault)),
        }
    }
}

fn number(n: u64) -> Expr {
    Expr::Literal(AstLiteral(n))
}

fn ident(name: &str) -> Expr {
    Expr::Identifier(name.to_string())
}

fn custom(exprs: Vec<Expr>) -> Expr {
    Expr::Function(Box::new(Function::Custom { name: "F".to_string(), exprs }))
}

fn parameter(name: &str, data_type: u64, default: Option<Expr>) -> OperateFunctionArg {
    OperateFunctionArg { name: name.to_string(), data_type: DataType(data_type), default }
}

fn function(args: Option<Vec<OperateFunctionArg>>, return_: Option<Expr>) -> CustomFunction {
    CustomFunction { func_name: "f".to_string(), args, return_ }
}

fn fetched(function: &CustomFunction) -> Answer<'_> {
    Answer::Function(Ok(Some(function)))
}

fn given(n: u64) -> Answer<'static> {
    Answer::Evaluated(Ok(Evaluated::Value(Value::Other(n))))
}

fn converted(value: Value) -> Answer<'static> {
    Answer::Value(Ok(value))
}

fn checked() -> Answer<'static> {
    Answer::Checked(Ok(()))
}

fn call_context(pairs: Vec<(&str, Value)>) -> Rc<RowContext> {
    let mut row = Bindings::new();
    for (name, value) in pairs {
        row.insert(name.to_string(), value);
    }
    Rc::new(RowContext::Call { name: "F".to_string(), row })
}

#[test]
fn function_that_is_not_stored_is_an_error() {
    let e = custom(vec![number(1)]);
    let name = "F".to_string();
    let (asked, end) = call(&e, vec![Answer::Function(Ok(None))]);
    assert_eq!(asked, vec![Request::FetchFunction(&name)]);
    assert_eq!(
        end,
        Outcome::Done(Err(Error::Evaluate(EvaluateError::UnsupportedFunction("F".to_string()))))
    );
    let (_, end) = call(&e, vec![Answer::Function(Err(Error::Other(2)))]);
    assert_eq!(end, Outcome::Done(Err(Error::Other(2))));
}

#[test]
fn body_sees_the_parameters() {
    let args = vec![parameter("a", 1, None), parameter("b", 2, None)];
    let f = function(Some(args), Some(ident("b")));
    let e = custom(vec![number(1), number(2)]);
    let (asked, end) = call(
        &e,
        vec![
            fetched(&f),
            given(10),
            given(20),
            converted(Value::Other(11)),
            converted(Value::Other(21)),
            checked(),
            checked(),
            checked(),
            checked(),
            Answer::Found(Some(Value::Other(21))),
        ],
    );
    assert_eq!(asked[1], Request::Literal(AstLiteral(1)));
    assert_eq!(asked[2], Request::Literal(AstLiteral(2)));
    assert_eq!(asked[3], Request::Convert(Evaluated::Value(Value::Other(10))));
    assert_eq!(asked[4], Request::Convert(Evaluated::Value(Value::Other(20))));
    assert_eq!(
        asked[5],
        Request::ValidateType { value: Value::Other(11), data_type: DataType(1) }
    );
    assert_eq!(asked[6], Request::ValidateNull { value: Value::Other(11), nullable: false });
    assert_eq!(
        asked[7],
        Request::ValidateType { value: Value::Other(21), data_type: DataType(2) }
    );
    assert_eq!(asked[8], Request::ValidateNull { value: Value::Other(21), nullable: false });
    let context = call_context(vec![("a", Value::Other(11)), ("b", Value::Other(21))]);
    assert_eq!(asked[9], Request::GetValue { context, ident: &"b".to_string() });
    assert_eq!(end, Outcome::Done(Ok(Evaluated::Value(Value::Other(21)))));
}

#[test]
fn body_sees_the_aggregates_of_the_call() {
    let f = function(None, Some(Expr::Aggregate(Aggregate(1))));
    let e = custom(vec![]);
    let (asked, end) = call(&e, vec![fetched(&f)]);
    assert_eq!(asked.len(), 1);
    assert_eq!(end, Outcome::Done(Ok(Evaluated::Value(Value::Other(77)))));
}

#[test]
fn function_without_body_gives_null() {
    let f = function(None, None);
    let e = custom(vec![]);
    let (_, end) = call(&e, vec![fetched(&f)]);
    assert_eq!(end, Outcome::Done(Ok(Evaluated::Value(Value::Null))));
}

#[test]
fn parameterless_function_sees_nothing() {
    let f = function(Some(vec![]), Some(ident("x")));
    let e = custom(vec![]);
    let (asked, end) = call(&e, vec![fetched(&f), Answer::Found(None)]);
    let context = call_context(vec![]);
    assert_eq!(asked[1], Request::GetValue { context, ident: &"x".to_string() });
    assert_eq!(
        end,
        Outcome::Done(Err(Error::Evaluate(EvaluateError::ValueNotFound("x".to_string()))))
    );
}

#[test]
fn too_many_arguments_are_an_error() {
    let f = function(Some(vec![parameter("a", 1, None)]), None);
    let e = custom(vec![number(1), number(2)]);
    let answers = vec![
        fetched(&f),
        given(10),
        given(20),
        converted(Value::Other(11)),
        converted(Value::Other(21)),
    ];
    let (_, end) = call(&e, answers);
    assert_eq!(
        end,
        Outcome::Done(Err(Error::Evaluate(
            EvaluateError::FunctionArgsLengthNotWithinRange {
                name: "f".to_string(),
                expected_minimum: 1,
                expected_maximum: 1,
                found: 2,
            }
        )))
    );
}

#[test]
fn too_few_arguments_are_an_error() {
    let args = vec![
        parameter("a", 1, None),
        parameter("b", 1, None),
        parameter("c", 1, Some(number(5))),
    ];
    let f = function(Some(args), None);
    let e = custom(vec![number(1)]);
    let answers = vec![
        fetched(&f),
        given(10),
        converted(Value::Other(11)),
        given(50),
        converted(Value::Other(51)),
    ];
    let (asked, end) = call(&e, answers);
    assert_eq!(asked[3], Request::Literal(AstLiteral(5)));
    assert_eq!(asked[4], Request::Convert(Evaluated::Value(Value::Other(50))));
    assert_eq!(
        end,
        Outcome::Done(Err(Error::Evaluate(
            EvaluateError::FunctionArgsLengthNotWithinRange {
                name: "f".to_string(),
                expected_minimum: 2,
                expected_maximum: 3,
                found: 1,
            }
        )))
    );
}

#[test]
fn default_stands_in_for_a_missing_argument() {
    let args = vec![parameter("a", 1, None), parameter("b", 2, Some(number(5)))];
    let f = function(Some(args), Some(ident("b")));
    let e = custom(vec![number(1)]);
    let (asked, _) = call(
        &e,
        vec![
            fetched(&f),
            given(10),
            converted(Value::Other(11)),
            given(50),
            converted(Value::Other(51)),
            checked(),
            checked(),
            checked(),
            checked(),
        ],
    );
    assert_eq!(
        asked[7],
        Request::ValidateType { value: Value::Null, data_type: DataType(2) }
    );
    assert_eq!(asked[8], Request::ValidateNull { value: Value::Null, nullable: true });
    let context = call_context(vec![("a", Value::Other(11)), ("b", Value::Other(51))]);
    assert_eq!(asked[9], Request::GetValue { context, ident: &"b".to_string() });
}

#[test]
fn defaults_are_used_up_in_order() {
    let args = vec![
        parameter("a", 1, Some(number(5))),
        parameter("b", 1, Some(number(6))),
    ];
    let f = function(Some(args), Some(ident("b")));
    let e = custom(vec![number(1)]);
    let (asked, _) = call(
        &e,
        vec![
            fetched(&f),
            given(10),
            converted(Value::Other(11)),
            given(50),
            given(60),
            converted(Value::Other(51)),
            converted(Value::Other(61)),
            checked(),
            checked(),
            checked(),
            checked(),
        ],
    );
    let context = call_context(vec![("a", Value::Other(11)), ("b", Value::Other(51))]);
    assert_eq!(asked[11], Request::GetValue { context, ident: &"b".to_string() });
}

#[test]
fn last_parameter_of_a_name_counts() {
    let args = vec![parameter("a", 1, None), parameter("a", 1, None)];
    let f = function(Some(args), Some(ident("a")));
    let e = custom(vec![number(1), number(2)]);
    let (asked, _) = call(
        &e,
        vec![
            fetched(&f),
            given(10),
            given(20),
            converted(Value::Other(11)),
            converted(Value::Other(21)),
            checked(),
            checked(),
            checked(),
            checked(),
        ],
    );
    let context = call_context(vec![("a", Value::Other(21))]);
    assert_eq!(asked[9], Request::GetValue { context, ident: &"a".to_string() });
}

#[test]
fn argument_of_the_wrong_type_is_an_error() {
    let f = function(Some(vec![parameter("a", 1, None)]), Some(number(9)));
    let e = custom(vec![number(1)]);
    let refused = Answer::Checked(Err(Error::Other(3)));
    let (_, end) = call(
        &e,
        vec![fetched(&f), given(10), converted(Value::Other(11)), refused],
    );
    assert_eq!(end, Outcome::Done(Err(Error::Other(3))));
}

#[test]
fn null_for_a_parameter_without_default_is_an_error() {
    let f = function(Some(vec![parameter("a", 1, None)]), Some(number(9)));
    let e = custom(vec![number(1)]);
    let refused = Answer::Checked(Err(Error::Other(4)));
    let (asked, end) = call(
        &e,
        vec![fetched(&f), given(10), converted(Value::Null), checked(), refused],
    );
    assert_eq!(asked[4], Request::ValidateNull { value: Value::Null, nullable: false });
    assert_eq!(end, Outcome::Done(Err(Error::Other(4))));
}

#[test]
fn running_out_of_defaults_breaks_the_evaluation() {
    let f = function(Some(vec![parameter("a", 1, None)]), Some(number(9)));
    let e = custom(vec![number(1)]);
    let (_, end) = call(
        &e,
        vec![fetched(&f), given(10), converted(Value::Null), checked(), checked()],
    );
    assert_eq!(end, Outcome::Broken(Fault::MissingDefault));
}

#[test]
fn argument_that_comes_to_no_value_breaks_the_evaluation() {
    let f = function(Some(vec![parameter("a", 1, Some(number(5)))]), None);
    let e = custom(vec![number(1)]);
    let refused = || Answer::Value(Err(Error::Other(1)));
    let (_, end) = call(&e, vec![fetched(&f), given(10), refused()]);
    assert_eq!(end, Outcome::Broken(Fault::Inconvertible));
    let (_, end) = call(
        &e,
        vec![fetched(&f), given(10), converted(Value::Other(11)), given(50), refused()],
    );
    assert_eq!(end, Outcome::Broken(Fault::Inconvertible));
}

#[test]
fn argument_error_is_the_result() {
    let f = function(Some(vec![parameter("a", 1, Some(number(5)))]), None);
    let e = custom(vec![number(1)]);
    let failed = || Answer::Evaluated(Err(Error::Other(6)));
    let (_, end) = call(&e, vec![fetched(&f), failed()]);
    assert_eq!(end, Outcome::Done(Err(Error::Other(6))));
    let (_, end) = call(
        &e,
        vec![fetched(&f), given(10), converted(Value::Other(11)), failed()],
    );
    assert_eq!(end, Outcome::Done(Err(Error::Other(6))));
}

#[test]
fn functions_can_call_themselves() {
    let f = function(None, Some(custom(vec![])));
    let g = function(None, Some(number(8)));
    let e = custom(vec![]);
    let (asked, end) = call(&e, vec![fetched(&f), fetched(&f), fetched(&g), given(80)]);
    assert_eq!(asked.len(), 4);
    assert_eq!(asked[3], Request::Literal(AstLiteral(8)));
    assert_eq!(end, Outcome::Done(Ok(Evaluated::Value(Value::Other(80)))));
}
