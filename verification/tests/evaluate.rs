use std::rc::Rc;

use chrono::{NaiveDateTime, Utc};
use glue_evaluate::ast::{
    Aggregate, AstLiteral, BinaryOperator, DataType, DateTimeField, Expr, Function, Query,
    TrimWhereField, UnaryOperator,
};
use glue_evaluate::context::{Bindings, Row, RowContext};
use glue_evaluate::data::{Evaluated, Interval, Literal, Value};
use glue_evaluate::executor::evaluate::evaluate;
use glue_evaluate::executor::evaluate::machine::{start, Step};
use glue_evaluate::executor::evaluate::operands::Routine;
use glue_evaluate::executor::evaluate::protocol::{Answer, Cursor, Fault, Request};
use glue_evaluate::result::{Error, EvaluateError};
use im_rc::HashMap;

/// How an evaluation ends.
#[derive(Debug, PartialEq)]
enum End {
    /// The answers ran out at the last question.
    Waiting,
    Done(Result<Evaluated, Error>),
    Broken(Fault),
}

fn drive_in<'a>(
    context: Option<Rc<RowContext>>,
    aggregated: Option<Rc<HashMap<u64, Value>>>,
    expr: &'a Expr,
    answers: Vec<Answer<'a>>,
) -> (Vec<Request<'a>>, End) {
    let mut asked = Vec::new();
    let mut answers = answers.into_iter();
    let mut step = evaluate(context, aggregated, expr);
    loop {
        match step {
            Step::Ask { request, evaluation } => {
                asked.push(request);
                match answers.next() {
                    Some(answer) => step = evaluation.resume(answer),
                    None => return (asked, End::Waiting),
                }
            }
            Step::Done(result) => {
                assert!(answers.next().is_none());
                return (asked, End::Done(result));
            }
            Step::Fault(fault) => return (asked, End::Broken(fault)),
        }
    }
}

fn drive<'a>(expr: &'a Expr, answers: Vec<Answer<'a>>) -> (Vec<Request<'a>>, End) {
    drive_in(None, None, expr, answers)
}

fn literal(n: u64) -> Expr {
    Expr::Literal(AstLiteral(n))
}

fn boxed(n: u64) -> Box<Expr> {
    Box::new(literal(n))
}

fn value(n: u64) -> Evaluated {
    Evaluated::Value(Value::Other(n))
}

fn truth(b: bool) -> End {
    End::Done(Ok(Evaluated::Value(Value::Bool(b))))
}

fn gives(evaluated: Evaluated) -> End {
    End::Done(Ok(evaluated))
}

fn fails(error: EvaluateError) -> End {
    End::Done(Err(Error::Evaluate(error)))
}

fn passes(n: u64) -> End {
    End::Done(Err(Error::Other(n)))
}

fn ok(n: u64) -> Answer<'static> {
    Answer::Evaluated(Ok(value(n)))
}

fn err(n: u64) -> Answer<'static> {
    Answer::Evaluated(Err(Error::Other(n)))
}

fn cursor(n: u64) -> Answer<'static> {
    Answer::Cursor(Ok(Cursor(n)))
}

fn row(values: Vec<Value>) -> Answer<'static> {
    Answer::Row(Ok(Some(Row::Vec { values })))
}

fn schemaless() -> Answer<'static> {
    Answer::Row(Ok(Some(Row::Schemaless(Bindings::new()))))
}

fn no_row() -> Answer<'static> {
    Answer::Row(Ok(None))
}

fn equal(b: bool) -> Answer<'static> {
    Answer::Equal(b)
}

fn outer() -> Option<Rc<RowContext>> {
    Some(Rc::new(RowContext::Outer(3)))
}

fn instant(seconds: i64) -> NaiveDateTime {
    chrono::DateTime::from_timestamp(seconds, 0).unwrap().naive_utc()
}

#[test]
fn literal_is_what_the_host_makes_of_it() {
    let e = literal(5);
    let (asked, end) = drive(&e, vec![ok(50)]);
    assert_eq!(asked, vec![Request::Literal(AstLiteral(5))]);
    assert_eq!(end, gives(value(50)));
    assert_eq!(drive(&e, vec![err(1)]).1, passes(1));
}

#[test]
fn typed_string_is_asked() {
    let e = Expr::TypedString { data_type: DataType(2), value: "2020-01-01".to_string() };
    let (asked, end) = drive(&e, vec![ok(1)]);
    let text = "2020-01-01".to_string();
    assert_eq!(asked, vec![Request::TypedString { data_type: DataType(2), value: &text }]);
    assert_eq!(end, gives(value(1)));
}

#[test]
fn identifier_is_looked_up_in_the_context() {
    let e = Expr::Identifier("id".to_string());
    let id = "id".to_string();
    let (asked, end) = drive_in(outer(), None, &e, vec![Answer::Found(Some(Value::Other(9)))]);
    assert_eq!(
        asked,
        vec![Request::GetValue { context: Rc::new(RowContext::Outer(3)), ident: &id }]
    );
    assert_eq!(end, gives(value(9)));
}

#[test]
fn identifier_that_is_not_found_is_an_error() {
    let e = Expr::Identifier("id".to_string());
    let (_, end) = drive_in(outer(), None, &e, vec![Answer::Found(None)]);
    assert_eq!(end, fails(EvaluateError::ValueNotFound("id".to_string())));
}

#[test]
fn identifier_without_context_is_an_error() {
    let e = Expr::Identifier("id".to_string());
    let (asked, end) = drive(&e, vec![]);
    assert_eq!(asked.len(), 0);
    assert_eq!(end, fails(EvaluateError::UnreachableEmptyContext));
    let e = Expr::CompoundIdentifier { alias: "t".to_string(), ident: "id".to_string() };
    assert_eq!(drive(&e, vec![]).1, fails(EvaluateError::UnreachableEmptyContext));
}

#[test]
fn compound_identifier_is_looked_up_under_its_table() {
    let e = Expr::CompoundIdentifier { alias: "t".to_string(), ident: "id".to_string() };
    let (alias, ident) = ("t".to_string(), "id".to_string());
    let (asked, end) = drive_in(outer(), None, &e, vec![Answer::Found(Some(Value::Null))]);
    let context = Rc::new(RowContext::Outer(3));
    assert_eq!(asked, vec![Request::GetAliasValue { context, alias: &alias, ident: &ident }]);
    assert_eq!(end, gives(Evaluated::Value(Value::Null)));
    let (_, end) = drive_in(outer(), None, &e, vec![Answer::Found(None)]);
    assert_eq!(end, fails(EvaluateError::ValueNotFound("id".to_string())));
}

#[test]
fn brackets_change_nothing() {
    let e = Expr::Nested(Box::new(Expr::Nested(boxed(5))));
    let (asked, end) = drive(&e, vec![ok(50)]);
    assert_eq!(asked, vec![Request::Literal(AstLiteral(5))]);
    assert_eq!(end, gives(value(50)));
    assert_eq!(drive(&e, vec![err(2)]).1, passes(2));
}

#[test]
fn binary_operator_evaluates_left_and_then_right() {
    let e = Expr::BinaryOp { op: BinaryOperator(4), left: boxed(1), right: boxed(2) };
    let (asked, end) = drive(&e, vec![ok(10), ok(20), ok(30)]);
    assert_eq!(
        asked,
        vec![
            Request::Literal(AstLiteral(1)),
            Request::Literal(AstLiteral(2)),
            Request::BinaryOp { op: BinaryOperator(4), left: value(10), right: value(20) },
        ]
    );
    assert_eq!(end, gives(value(30)));
}

#[test]
fn operand_error_is_the_result() {
    let e = Expr::BinaryOp { op: BinaryOperator(4), left: boxed(1), right: boxed(2) };
    let (asked, end) = drive(&e, vec![err(7)]);
    assert_eq!(asked.len(), 1);
    assert_eq!(end, passes(7));
    let (asked, end) = drive(&e, vec![ok(10), err(8)]);
    assert_eq!(asked.len(), 2);
    assert_eq!(end, passes(8));
}

#[test]
fn unary_operator_is_asked_with_its_operand() {
    let e = Expr::UnaryOp { op: UnaryOperator(6), expr: boxed(1) };
    let (asked, end) = drive(&e, vec![ok(10), ok(11)]);
    assert_eq!(asked[1], Request::UnaryOp { op: UnaryOperator(6), operand: value(10) });
    assert_eq!(end, gives(value(11)));
}

#[test]
fn between_evaluates_target_low_high() {
    let e = Expr::Between { expr: boxed(1), negated: true, low: boxed(2), high: boxed(3) };
    let (asked, end) = drive(&e, vec![ok(10), ok(20), ok(30), ok(40)]);
    assert_eq!(
        asked[3],
        Request::Between { target: value(10), negated: true, low: value(20), high: value(30) }
    );
    assert_eq!(end, gives(value(40)));
}

#[test]
fn array_index_evaluates_object_and_indexes() {
    let e = Expr::ArrayIndex { obj: boxed(1), indexes: vec![literal(2), literal(3)] };
    let (asked, end) = drive(&e, vec![ok(10), ok(20), ok(30), ok(40)]);
    assert_eq!(
        asked[3],
        Request::ArrayIndex { obj: value(10), indexes: vec![value(20), value(30)] }
    );
    assert_eq!(end, gives(value(40)));
    assert_eq!(drive(&e, vec![ok(10), err(3)]).1, passes(3));
}

#[test]
fn subquery_without_rows_is_null() {
    let e = Expr::Subquery(Query(8));
    let (asked, end) = drive_in(outer(), None, &e, vec![cursor(1), no_row()]);
    assert_eq!(
        asked,
        vec![
            Request::Select {
                query: Query(8),
                context: Some(Rc::new(RowContext::Outer(3))),
            },
            Request::NextRow(Cursor(1)),
        ]
    );
    assert_eq!(end, gives(Evaluated::Value(Value::Null)));
}

#[test]
fn subquery_with_one_row_is_its_first_value() {
    let e = Expr::Subquery(Query(8));
    let one = row(vec![Value::Other(4), Value::Other(5)]);
    let (asked, end) = drive(&e, vec![cursor(1), one, no_row()]);
    assert_eq!(asked.len(), 3);
    assert_eq!(asked[2], Request::NextRow(Cursor(1)));
    assert_eq!(end, gives(value(4)));
    let (_, end) = drive(&e, vec![cursor(1), row(vec![]), no_row()]);
    assert_eq!(end, gives(Evaluated::Value(Value::Null)));
}

#[test]
fn subquery_with_two_rows_is_an_error() {
    let e = Expr::Subquery(Query(8));
    let answers = vec![cursor(1), row(vec![Value::Other(4)]), row(vec![Value::Other(5)])];
    assert_eq!(drive(&e, answers).1, fails(EvaluateError::MoreThanOneRowReturned));
}

#[test]
fn subquery_without_schema_is_an_error() {
    let e = Expr::Subquery(Query(8));
    let error = || fails(EvaluateError::SchemalessProjectionForSubQuery);
    assert_eq!(drive(&e, vec![cursor(1), schemaless()]).1, error());
    assert_eq!(drive(&e, vec![cursor(1), row(vec![]), schemaless()]).1, error());
}

#[test]
fn subquery_passes_errors_on() {
    let e = Expr::Subquery(Query(8));
    let refused = Answer::Cursor(Err(Error::Other(1)));
    assert_eq!(drive(&e, vec![refused]).1, passes(1));
    let broken = Answer::Row(Err(Error::Other(2)));
    assert_eq!(drive(&e, vec![cursor(1), broken]).1, passes(2));
    let broken = Answer::Row(Err(Error::Other(3)));
    assert_eq!(drive(&e, vec![cursor(1), row(vec![]), broken]).1, passes(3));
}

#[test]
fn aggregate_is_found_in_the_map() {
    let mut map = HashMap::new();
    map.insert(11, Value::Other(70));
    map.insert(12, Value::Bool(true));
    let aggregated = Some(Rc::new(map));
    let e = Expr::Aggregate(Aggregate(11));
    let (asked, end) = drive_in(None, aggregated.clone(), &e, vec![]);
    assert_eq!(asked.len(), 0);
    assert_eq!(end, gives(value(70)));
    let e = Expr::Aggregate(Aggregate(12));
    assert_eq!(drive_in(None, aggregated, &e, vec![]).1, truth(true));
}

#[test]
fn aggregate_that_was_not_computed_is_an_error() {
    let e = Expr::Aggregate(Aggregate(11));
    let error = || fails(EvaluateError::UnreachableEmptyAggregateValue(Aggregate(11)));
    assert_eq!(drive(&e, vec![]).1, error());
    let mut map = HashMap::new();
    map.insert(12, Value::Bool(true));
    assert_eq!(drive_in(None, Some(Rc::new(map)), &e, vec![]).1, error());
}

#[test]
fn in_list_ends_at_the_first_equal_item() {
    let list = vec![literal(2), literal(3), literal(4)];
    let e = Expr::InList { expr: boxed(1), list, negated: false };
    let (asked, end) = drive(&e, vec![ok(10), ok(20), equal(false), ok(30), equal(true)]);
    assert_eq!(asked[2], Request::Compare { left: value(20), right: value(10) });
    assert_eq!(asked[3], Request::Literal(AstLiteral(3)));
    assert_eq!(asked[4], Request::Compare { left: value(30), right: value(10) });
    assert_eq!(asked.len(), 5);
    assert_eq!(end, truth(true));
}

#[test]
fn in_list_without_equal_item_is_false() {
    let e = Expr::InList { expr: boxed(1), list: vec![literal(2)], negated: false };
    assert_eq!(drive(&e, vec![ok(10), ok(20), equal(false)]).1, truth(false));
    let e = Expr::InList { expr: boxed(1), list: vec![], negated: false };
    assert_eq!(drive(&e, vec![ok(10)]).1, truth(false));
}

#[test]
fn not_in_list_turns_the_result_round() {
    let e = Expr::InList { expr: boxed(1), list: vec![literal(2)], negated: true };
    assert_eq!(drive(&e, vec![ok(10), ok(20), equal(false)]).1, truth(true));
    assert_eq!(drive(&e, vec![ok(10), ok(20), equal(true)]).1, truth(false));
    assert_eq!(drive(&e, vec![ok(10), err(6)]).1, passes(6));
}

#[test]
fn in_subquery_ends_at_the_first_equal_row() {
    let e = Expr::InSubquery { expr: boxed(1), subquery: Query(8), negated: false };
    let (asked, end) = drive(
        &e,
        vec![
            ok(10),
            cursor(1),
            row(vec![Value::Other(20)]),
            equal(false),
            row(vec![]),
            equal(true),
        ],
    );
    assert_eq!(asked[3], Request::Compare { left: value(20), right: value(10) });
    assert_eq!(
        asked[5],
        Request::Compare { left: Evaluated::Value(Value::Null), right: value(10) }
    );
    assert_eq!(end, truth(true));
}

#[test]
fn in_subquery_without_equal_row_is_false() {
    let e = Expr::InSubquery { expr: boxed(1), subquery: Query(8), negated: false };
    let answers = vec![ok(10), cursor(1), row(vec![Value::Null]), equal(false), no_row()];
    assert_eq!(drive(&e, answers).1, truth(false));
    let e = Expr::InSubquery { expr: boxed(1), subquery: Query(8), negated: true };
    assert_eq!(drive(&e, vec![ok(10), cursor(1), no_row()]).1, truth(true));
    let answers = vec![ok(10), cursor(1), row(vec![Value::Null]), equal(true)];
    assert_eq!(drive(&e, answers).1, truth(false));
}

#[test]
fn in_subquery_without_schema_is_an_error() {
    let e = Expr::InSubquery { expr: boxed(1), subquery: Query(8), negated: false };
    assert_eq!(
        drive(&e, vec![ok(10), cursor(1), schemaless()]).1,
        fails(EvaluateError::SchemalessProjectionForInSubQuery)
    );
}

#[test]
fn like_is_what_matching_gives() {
    let e = Expr::Like { expr: boxed(1), negated: false, pattern: boxed(2) };
    let (asked, end) = drive(&e, vec![ok(10), ok(20), ok(30)]);
    assert_eq!(
        asked[2],
        Request::Like { target: value(10), pattern: value(20), case_sensitive: true }
    );
    assert_eq!(end, gives(value(30)));
}

#[test]
fn not_like_is_whether_matching_gives_false() {
    let e = Expr::Like { expr: boxed(1), negated: true, pattern: boxed(2) };
    let matched = Evaluated::Literal(Literal::Boolean(true));
    let answers = vec![ok(10), ok(20), Answer::Evaluated(Ok(matched)), equal(false)];
    let (asked, end) = drive(&e, answers);
    assert_eq!(
        asked[3],
        Request::Compare {
            left: matched,
            right: Evaluated::Literal(Literal::Boolean(false)),
        }
    );
    assert_eq!(end, truth(false));
    assert_eq!(drive(&e, vec![ok(10), ok(20), ok(30), equal(true)]).1, truth(true));
    assert_eq!(drive(&e, vec![ok(10), ok(20), err(4)]).1, passes(4));
}

#[test]
fn ilike_does_not_tell_cases_apart() {
    let e = Expr::ILike { expr: boxed(1), negated: false, pattern: boxed(2) };
    let (asked, _) = drive(&e, vec![ok(10), ok(20)]);
    assert_eq!(
        asked[2],
        Request::Like { target: value(10), pattern: value(20), case_sensitive: false }
    );
    let e = Expr::ILike { expr: boxed(1), negated: true, pattern: boxed(2) };
    assert_eq!(drive(&e, vec![ok(10), ok(20), ok(30), equal(true)]).1, truth(true));
}

#[test]
fn exists_is_whether_there_is_a_row() {
    let e = Expr::Exists { subquery: Query(8), negated: false };
    let (asked, end) = drive_in(outer(), None, &e, vec![cursor(2), row(vec![])]);
    assert_eq!(asked[1], Request::NextRow(Cursor(2)));
    assert_eq!(end, truth(true));
    assert_eq!(drive(&e, vec![cursor(2), schemaless()]).1, truth(true));
    assert_eq!(drive(&e, vec![cursor(2), no_row()]).1, truth(false));
    let broken = Answer::Row(Err(Error::Other(2)));
    assert_eq!(drive(&e, vec![cursor(2), broken]).1, passes(2));
}

#[test]
fn not_exists_turns_the_result_round() {
    let e = Expr::Exists { subquery: Query(8), negated: true };
    assert_eq!(drive(&e, vec![cursor(2), row(vec![])]).1, truth(false));
    assert_eq!(drive(&e, vec![cursor(2), no_row()]).1, truth(true));
}

#[test]
fn is_null_holds_of_both_kinds_of_null() {
    let e = Expr::IsNull(boxed(1));
    let negative = Expr::IsNotNull(boxed(1));
    for (evaluated, null) in [
        (Evaluated::Value(Value::Null), true),
        (Evaluated::Literal(Literal::Null), true),
        (Evaluated::Value(Value::Bool(false)), false),
        (Evaluated::Literal(Literal::Other(1)), false),
    ] {
        assert_eq!(drive(&e, vec![Answer::Evaluated(Ok(evaluated))]).1, truth(null));
        assert_eq!(drive(&negative, vec![Answer::Evaluated(Ok(evaluated))]).1, truth(!null));
    }
    assert_eq!(drive(&negative, vec![err(1)]).1, passes(1));
}

#[test]
fn case_takes_the_first_equal_branch() {
    let e = Expr::Case {
        operand: Some(boxed(1)),
        when_then: vec![(literal(2), literal(3)), (literal(4), literal(5))],
        else_result: Some(boxed(6)),
    };
    let (asked, end) = drive(&e, vec![ok(10), ok(20), equal(false), ok(40), equal(true), ok(50)]);
    assert_eq!(asked[2], Request::Compare { left: value(20), right: value(10) });
    assert_eq!(asked[3], Request::Literal(AstLiteral(4)));
    assert_eq!(asked[5], Request::Literal(AstLiteral(5)));
    assert_eq!(end, gives(value(50)));
    let (asked, end) = drive(&e, vec![ok(10), ok(20), equal(true), ok(30)]);
    assert_eq!(asked[3], Request::Literal(AstLiteral(3)));
    assert_eq!(end, gives(value(30)));
}

#[test]
fn case_without_equal_branch_is_its_else() {
    let e = Expr::Case {
        operand: None,
        when_then: vec![(literal(2), literal(3))],
        else_result: Some(boxed(6)),
    };
    let (asked, end) = drive(&e, vec![ok(20), equal(false), ok(60)]);
    assert_eq!(
        asked[1],
        Request::Compare { left: value(20), right: Evaluated::Value(Value::Bool(true)) }
    );
    assert_eq!(asked[2], Request::Literal(AstLiteral(6)));
    assert_eq!(end, gives(value(60)));
}

#[test]
fn case_without_else_is_null() {
    let when_then = vec![(literal(2), literal(3))];
    let e = Expr::Case { operand: None, when_then, else_result: None };
    let null = || gives(Evaluated::Value(Value::Null));
    assert_eq!(drive(&e, vec![ok(20), equal(false)]).1, null());
    let e = Expr::Case { operand: None, when_then: vec![], else_result: None };
    assert_eq!(drive(&e, vec![]).1, null());
}

#[test]
fn interval_goes_by_way_of_the_text() {
    let e = Expr::Interval {
        expr: boxed(1),
        leading_field: Some(DateTimeField(2)),
        last_field: None,
    };
    let (asked, end) = drive(
        &e,
        vec![
            ok(10),
            Answer::Value(Ok(Value::Other(11))),
            Answer::Text("3".to_string()),
            Answer::Interval(Ok(Interval(12))),
        ],
    );
    assert_eq!(asked[1], Request::Convert(value(10)));
    assert_eq!(asked[2], Request::Print(Value::Other(11)));
    assert_eq!(
        asked[3],
        Request::ParseInterval {
            text: "3".to_string(),
            leading_field: Some(DateTimeField(2)),
            last_field: None,
        }
    );
    assert_eq!(end, gives(Evaluated::Value(Value::Interval(Interval(12)))));
}

#[test]
fn interval_passes_errors_on() {
    let e = Expr::Interval { expr: boxed(1), leading_field: None, last_field: None };
    let unconverted = Answer::Value(Err(Error::Other(1)));
    assert_eq!(drive(&e, vec![ok(10), unconverted]).1, passes(1));
    let answers = vec![
        ok(10),
        Answer::Value(Ok(Value::Null)),
        Answer::Text(String::new()),
        Answer::Interval(Err(Error::Other(2))),
    ];
    assert_eq!(drive(&e, answers).1, passes(2));
}

#[test]
fn functions_are_called_with_their_operands() {
    let cases = vec![
        (Function::Concat(vec![literal(1), literal(2)]), Routine::Concat, 2),
        (
            Function::ConcatWs { separator: literal(1), exprs: vec![literal(2), literal(3)] },
            Routine::ConcatWs,
            3,
        ),
        (Function::Left { expr: literal(1), size: literal(2) }, Routine::LeftOrRight, 2),
        (Function::Right { expr: literal(1), size: literal(2) }, Routine::LeftOrRight, 2),
        (Function::Mod { dividend: literal(1), divisor: literal(2) }, Routine::Modulo, 2),
        (
            Function::Substr { expr: literal(1), start: literal(2), count: Some(literal(3)) },
            Routine::Substr,
            3,
        ),
        (
            Function::Cast { expr: literal(1), data_type: DataType(5) },
            Routine::Cast(DataType(5)),
            1,
        ),
        (
            Function::Extract { field: DateTimeField(6), expr: literal(1) },
            Routine::Extract(DateTimeField(6)),
            1,
        ),
        (Function::Pi(), Routine::Pi, 0),
        (Function::GenerateUuid(), Routine::GenerateUuid, 0),
        (Function::Append { expr: literal(1), value: literal(2) }, Routine::Append, 2),
    ];
    for (func, routine, count) in cases {
        let e = Expr::Function(Box::new(func));
        let mut answers: Vec<Answer> = (1..=count).map(|n| ok(10 * n)).collect();
        answers.push(ok(99));
        let (asked, end) = drive(&e, answers);
        assert_eq!(asked.len() as u64, count + 1);
        for n in 1..=count {
            assert_eq!(asked[(n - 1) as usize], Request::Literal(AstLiteral(n)));
        }
        match asked.last().unwrap() {
            Request::Call { func, routine: called, operands } => {
                assert!(matches!(&e, Expr::Function(f) if **f == **func));
                assert_eq!(*called, routine);
                let expected: Vec<Option<Evaluated>> =
                    (1..=count).map(|n| Some(value(10 * n))).collect();
                assert_eq!(*operands, expected);
            }
            other => panic!("no call: {:?}", other),
        }
        assert_eq!(end, gives(value(99)));
    }
}

#[test]
fn missing_operands_are_handed_on_as_missing() {
    let func = Function::Lpad { expr: literal(1), size: literal(2), fill: None };
    let e = Expr::Function(Box::new(func));
    let (asked, _) = drive(&e, vec![ok(10), ok(20)]);
    match &asked[2] {
        Request::Call { routine, operands, .. } => {
            assert_eq!(*routine, Routine::LpadOrRpad);
            assert_eq!(*operands, vec![Some(value(10)), Some(value(20)), None]);
        }
        other => panic!("no call: {:?}", other),
    }
    let func = Function::Trim {
        expr: literal(1),
        filter_chars: None,
        trim_where_field: Some(TrimWhereField(3)),
    };
    let e = Expr::Function(Box::new(func));
    let (asked, _) = drive(&e, vec![ok(10)]);
    match &asked[1] {
        Request::Call { routine, operands, .. } => {
            assert_eq!(*routine, Routine::Trim(Some(TrimWhereField(3))));
            assert_eq!(*operands, vec![Some(value(10)), None]);
        }
        other => panic!("no call: {:?}", other),
    }
    let e = Expr::Function(Box::new(Function::Rand(None)));
    let (asked, end) = drive(&e, vec![ok(5)]);
    match &asked[0] {
        Request::Call { routine, operands, .. } => {
            assert_eq!(*routine, Routine::Rand);
            assert_eq!(*operands, vec![None]);
        }
        other => panic!("no call: {:?}", other),
    }
    assert_eq!(end, gives(value(5)));
}

#[test]
fn now_is_read_from_the_clock() {
    let e = Expr::Function(Box::new(Function::Now()));
    let before = Utc::now().naive_utc();
    let (asked, end) = drive(&e, vec![]);
    let after = Utc::now().naive_utc();
    assert_eq!(asked.len(), 0);
    match end {
        End::Done(Ok(Evaluated::Value(Value::Timestamp(now)))) => {
            assert!(before <= now && now <= after);
        }
        other => panic!("no timestamp: {:?}", other),
    }
}

#[test]
fn now_is_read_between_questions() {
    let now = || Box::new(Expr::Function(Box::new(Function::Now())));
    let e = Expr::BinaryOp {
        op: BinaryOperator(1),
        left: boxed(1),
        right: Box::new(Expr::BinaryOp { op: BinaryOperator(2), left: now(), right: now() }),
    };
    let (asked, end) = drive(&e, vec![ok(10), ok(20), ok(30)]);
    assert_eq!(asked.len(), 3);
    match &asked[1] {
        Request::BinaryOp { op, left, right } => {
            assert_eq!(*op, BinaryOperator(2));
            assert!(matches!(left, Evaluated::Value(Value::Timestamp(_))));
            assert!(matches!(right, Evaluated::Value(Value::Timestamp(_))));
        }
        other => panic!("no operator: {:?}", other),
    }
    assert_eq!(
        asked[2],
        Request::BinaryOp { op: BinaryOperator(1), left: value(10), right: value(20) }
    );
    assert_eq!(end, gives(value(30)));
}

#[test]
fn now_can_be_answered() {
    let e = Expr::Function(Box::new(Function::Now()));
    match start(None, None, &e) {
        Step::Ask { request: Request::Now, evaluation } => {
            match evaluation.answer(Answer::Instant(instant(1_000))) {
                Step::Done(result) => {
                    assert_eq!(
                        result,
                        Ok(Evaluated::Value(Value::Timestamp(instant(1_000))))
                    );
                }
                _ => panic!("no result"),
            }
        }
        _ => panic!("the time was not asked for"),
    }
}

#[test]
fn answers_that_do_not_fit_break_the_evaluation() {
    let e = literal(1);
    assert_eq!(drive(&e, vec![equal(true)]).1, End::Broken(Fault::Misfit));
    let e = Expr::Subquery(Query(1));
    assert_eq!(drive(&e, vec![ok(1)]).1, End::Broken(Fault::Misfit));
    assert_eq!(drive(&e, vec![cursor(1), cursor(2)]).1, End::Broken(Fault::Misfit));
    let e = Expr::InList { expr: boxed(1), list: vec![literal(2)], negated: false };
    assert_eq!(drive(&e, vec![ok(1), ok(2), ok(3)]).1, End::Broken(Fault::Misfit));
}

#[test]
fn same_answers_give_the_same_result_wherever_they_stand() {
    let list = || Expr::InList { expr: boxed(1), list: vec![literal(2)], negated: false };
    let answers = || vec![ok(10), ok(20), equal(true)];
    let e = list();
    let (alone, end) = drive(&e, answers());
    assert_eq!(end, truth(true));
    assert_eq!(drive(&e, answers()).1, truth(true));
    let right = Box::new(list());
    let e = Expr::BinaryOp { op: BinaryOperator(4), left: boxed(7), right };
    let mut log = vec![ok(70)];
    log.extend(answers());
    let (within, _) = drive(&e, log);
    assert_eq!(within[1..4], alone[..]);
    assert_eq!(
        within[4],
        Request::BinaryOp {
            op: BinaryOperator(4),
            left: value(70),
            right: Evaluated::Value(Value::Bool(true)),
        }
    );
}

#[test]
fn bindings_hold_the_last_value_of_a_name() {
    let mut bindings = Bindings::new();
    assert_eq!(bindings.get(&"a".to_string()), None);
    bindings.insert("a".to_string(), Value::Other(1));
    bindings.insert("b".to_string(), Value::Other(2));
    bindings.insert("a".to_string(), Value::Other(3));
    assert_eq!(bindings.get(&"a".to_string()), Some(Value::Other(3)));
    assert_eq!(bindings.get(&"b".to_string()), Some(Value::Other(2)));
    assert_eq!(bindings.get(&"c".to_string()), None);
}

#[test]
fn null_is_told_from_other_values() {
    assert!(Value::Null.is_null());
    assert!(!Value::Bool(false).is_null());
    assert!(Evaluated::Literal(Literal::Null).is_null());
    assert!(!Evaluated::Literal(Literal::Boolean(false)).is_null());
}
