use glue_evaluate::ast::{AstLiteral, DataType, Expr, OperateFunctionArg};
use glue_evaluate::executor::alter::function::{
    delete_function, insert_function, AlterStep, Deletion, Insertion, StoreAnswer, StoreRequest,
};
use glue_evaluate::result::{AlterError, Error};

fn arg(name: &str) -> OperateFunctionArg {
    OperateFunctionArg { name: name.to_string(), data_type: DataType(1), default: None }
}

fn passed() -> StoreAnswer {
    StoreAnswer::Checked(Ok(()))
}

fn stored() -> StoreAnswer {
    StoreAnswer::Stored(Ok(()))
}

fn found(found: bool) -> StoreAnswer {
    StoreAnswer::Found(Ok(found))
}

/// Answers the questions of a creation, and says how many were put and what came of them.
fn insert<'a>(
    step: AlterStep<'a, Insertion<'a>>,
    answers: Vec<StoreAnswer>,
) -> (Vec<StoreRequest<'a>>, Option<Result<(), Error>>) {
    let mut asked = Vec::new();
    let mut answers = answers.into_iter();
    let mut step = step;
    loop {
        match step {
            AlterStep::Ask { request, rest } => {
                asked.push(request);
                match answers.next() {
                    Some(answer) => step = rest.answer(answer),
                    None => return (asked, None),
                }
            }
            AlterStep::Done(result) => {
                assert!(answers.next().is_none());
                return (asked, Some(result));
            }
            AlterStep::Misfit => panic!("the answer does not fit"),
        }
    }
}

/// Answers the questions of a dropping, and says how many were put and what came of them.
fn delete<'a>(
    step: AlterStep<'a, Deletion<'a>>,
    answers: Vec<StoreAnswer>,
) -> (Vec<StoreRequest<'a>>, Option<Result<(), Error>>) {
    let mut asked = Vec::new();
    let mut answers = answers.into_iter();
    let mut step = step;
    loop {
        match step {
            AlterStep::Ask { request, rest } => {
                asked.push(request);
                match answers.next() {
                    Some(answer) => step = rest.answer(answer),
                    None => return (asked, None),
                }
            }
            AlterStep::Done(result) => {
                assert!(answers.next().is_none());
                return (asked, Some(result));
            }
            AlterStep::Misfit => panic!("the answer does not fit"),
        }
    }
}

#[test]
fn insert_new_function_without_parameters() {
    let name = "f".to_string();
    let args = None;
    let body = Some(Expr::Literal(AstLiteral(7)));
    let step = insert_function(&name, &args, false, &body);
    let (asked, result) = insert(step, vec![found(false), stored(), stored()]);
    assert_eq!(
        asked,
        vec![
            StoreRequest::FetchFunction(&name),
            StoreRequest::DeleteFunction(&name),
            StoreRequest::InsertFunction { func_name: &name, args: &args, return_: &body },
        ]
    );
    assert_eq!(result, Some(Ok(())));
}

#[test]
fn insert_checks_names_and_then_each_parameter() {
    let name = "f".to_string();
    let args = Some(vec![arg("a"), arg("b")]);
    let step = insert_function(&name, &args, false, &None);
    let (asked, result) = insert(
        step,
        vec![passed(), passed(), passed(), found(false), stored(), stored()],
    );
    let list = args.as_ref().unwrap();
    assert_eq!(asked.len(), 6);
    assert_eq!(asked[0], StoreRequest::ValidateArgNames(list));
    assert_eq!(asked[1], StoreRequest::ValidateArg(&list[0]));
    assert_eq!(asked[2], StoreRequest::ValidateArg(&list[1]));
    assert_eq!(asked[3], StoreRequest::FetchFunction(&name));
    assert_eq!(result, Some(Ok(())));
}

#[test]
fn insert_with_empty_parameter_list_checks_names_only() {
    let name = "f".to_string();
    let args = Some(vec![]);
    let step = insert_function(&name, &args, false, &None);
    let (asked, result) = insert(step, vec![passed(), found(false), stored(), stored()]);
    assert_eq!(asked[0], StoreRequest::ValidateArgNames(args.as_ref().unwrap()));
    assert_eq!(asked[1], StoreRequest::FetchFunction(&name));
    assert_eq!(asked.len(), 4);
    assert_eq!(result, Some(Ok(())));
}

#[test]
fn insert_existing_function_is_refused() {
    let name = "f".to_string();
    let step = insert_function(&name, &None, false, &None);
    let (asked, result) = insert(step, vec![found(true)]);
    assert_eq!(asked, vec![StoreRequest::FetchFunction(&name)]);
    assert_eq!(
        result,
        Some(Err(Error::Alter(AlterError::FunctionAlreadyExists("f".to_string()))))
    );
}

#[test]
fn insert_or_replace_deletes_first() {
    let name = "f".to_string();
    let step = insert_function(&name, &None, true, &None);
    let (asked, result) = insert(step, vec![found(true), stored(), stored()]);
    assert_eq!(asked[1], StoreRequest::DeleteFunction(&name));
    assert_eq!(
        asked[2],
        StoreRequest::InsertFunction { func_name: &name, args: &None, return_: &None }
    );
    assert_eq!(result, Some(Ok(())));
}

#[test]
fn insert_stops_at_bad_names() {
    let name = "f".to_string();
    let args = Some(vec![arg("a"), arg("a")]);
    let step = insert_function(&name, &args, true, &None);
    let (asked, result) = insert(step, vec![StoreAnswer::Checked(Err(Error::Other(4)))]);
    assert_eq!(asked.len(), 1);
    assert_eq!(result, Some(Err(Error::Other(4))));
}

#[test]
fn insert_stops_at_bad_parameter() {
    let name = "f".to_string();
    let args = Some(vec![arg("a"), arg("b"), arg("c")]);
    let step = insert_function(&name, &args, true, &None);
    let bad = StoreAnswer::Checked(Err(Error::Other(5)));
    let (asked, result) = insert(step, vec![passed(), passed(), bad]);
    assert_eq!(asked.len(), 3);
    assert_eq!(asked[2], StoreRequest::ValidateArg(&args.as_ref().unwrap()[1]));
    assert_eq!(result, Some(Err(Error::Other(5))));
}

#[test]
fn insert_passes_fetch_error_on_even_if_replacing() {
    let name = "f".to_string();
    let step = insert_function(&name, &None, true, &None);
    let (asked, result) = insert(step, vec![StoreAnswer::Found(Err(Error::Other(6)))]);
    assert_eq!(asked.len(), 1);
    assert_eq!(result, Some(Err(Error::Other(6))));
}

#[test]
fn insert_passes_store_errors_on() {
    let name = "f".to_string();
    let step = insert_function(&name, &None, false, &None);
    let failed = StoreAnswer::Stored(Err(Error::Other(7)));
    let (asked, result) = insert(step, vec![found(false), failed]);
    assert_eq!(asked.len(), 2);
    assert_eq!(result, Some(Err(Error::Other(7))));

    let step = insert_function(&name, &None, false, &None);
    let failed = StoreAnswer::Stored(Err(Error::Other(8)));
    let (asked, result) = insert(step, vec![found(false), stored(), failed]);
    assert_eq!(asked.len(), 3);
    assert_eq!(result, Some(Err(Error::Other(8))));
}

#[test]
fn insert_gives_up_on_misfit() {
    let name = "f".to_string();
    match insert_function(&name, &None, false, &None) {
        AlterStep::Ask { rest, .. } => assert!(matches!(rest.answer(stored()), AlterStep::Misfit)),
        _ => panic!("nothing was asked"),
    }
}

#[test]
fn delete_each_function_in_order() {
    let names = vec!["f".to_string(), "g".to_string()];
    let (asked, result) = delete(delete_function(&names, false), vec![stored(), stored()]);
    assert_eq!(
        asked,
        vec![StoreRequest::DeleteFunction(&names[0]), StoreRequest::DeleteFunction(&names[1])]
    );
    assert_eq!(result, Some(Ok(())));
}

#[test]
fn delete_nothing() {
    let names = vec![];
    let (asked, result) = delete(delete_function(&names, false), vec![]);
    assert_eq!(asked.len(), 0);
    assert_eq!(result, Some(Ok(())));
}

#[test]
fn delete_stops_at_first_error() {
    let names = vec!["f".to_string(), "g".to_string(), "h".to_string()];
    let failed = StoreAnswer::Stored(Err(Error::Other(9)));
    let (asked, result) = delete(delete_function(&names, false), vec![stored(), failed]);
    assert_eq!(asked.len(), 2);
    assert_eq!(result, Some(Err(Error::Other(9))));
}

#[test]
fn delete_if_exists_passes_over_errors() {
    let names = vec!["f".to_string(), "g".to_string()];
    let answers = vec![
        StoreAnswer::Stored(Err(Error::Other(1))),
        StoreAnswer::Stored(Err(Error::Other(2))),
    ];
    let (asked, result) = delete(delete_function(&names, true), answers);
    assert_eq!(asked.len(), 2);
    assert_eq!(result, Some(Ok(())));
}

#[test]
fn delete_gives_up_on_misfit() {
    let names = vec!["f".to_string()];
    match delete_function(&names, true) {
        AlterStep::Ask { rest, .. } => {
            assert!(matches!(rest.answer(found(true)), AlterStep::Misfit))
        }
        _ => panic!("nothing was asked"),
    }
}
