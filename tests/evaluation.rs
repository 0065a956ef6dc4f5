use exprlang::expression::{evaluate, evaluate_expression, Expression};
use exprlang::literal::{ArithOp, EvalError, Literal, Num};
use exprlang::scope::{Function, FunctionTable, Scope};
use exprlang::token::{tokenify, Token};

fn number_value(n: &Num) -> f64 {
    match n {
        Num::Lit(s) => s.parse::<f64>().unwrap(),
        Num::Add(a, b) => number_value(a) + number_value(b),
        Num::Sub(a, b) => number_value(a) - number_value(b),
        Num::Mul(a, b) => number_value(a) * number_value(b),
        Num::Div(a, b) => number_value(a) / number_value(b),
        Num::Neg(a) => -number_value(a),
    }
}

fn run(text: &str, functions: &mut FunctionTable) -> Result<Literal, EvalError> {
    let toks = tokenify(text.to_string()).unwrap();
    evaluate(&toks, &Scope::new(), &Scope::new(), functions)
}

fn eval_number(text: &str) -> f64 {
    match run(text, &mut FunctionTable::new()) {
        Ok(Literal::Number(n)) => number_value(&n),
        other => panic!("not a number: {:?}", other),
    }
}

#[test]
fn number_addition() {
    assert_eq!(eval_number("2 + 3"), 5.0);
    assert_eq!(eval_number("0.5 + 0.25"), 0.75);
}

#[test]
fn number_subtraction_multiplication_division() {
    assert_eq!(eval_number("7 - 10"), -3.0);
    assert_eq!(eval_number("4 * 2.5"), 10.0);
    assert_eq!(eval_number("9 / 4"), 2.25);
}

#[test]
fn division_by_zero_is_not_an_error() {
    assert_eq!(eval_number("1 / 0"), f64::INFINITY);
    assert_eq!(eval_number("0 - 1 / 0"), f64::NEG_INFINITY);
    assert!(eval_number("0 / 0").is_nan());
}

#[test]
fn sum_is_the_term_of_its_operands() {
    let r = run("2 + 3", &mut FunctionTable::new()).unwrap();
    let expected = Literal::Number(Num::Add(
        Box::new(Num::Lit("2".to_string())),
        Box::new(Num::Lit("3".to_string())),
    ));
    assert_eq!(r, expected);
}

#[test]
fn text_concatenation() {
    let r = run("\"Hello \" + \"World!\"", &mut FunctionTable::new());
    assert_eq!(r, Ok(Literal::Text("Hello World!".to_string())));
}

#[test]
fn multiplication_binds_tighter_than_addition() {
    assert_eq!(eval_number("1 + 2 * 3"), 7.0);
    assert_eq!(eval_number("(1 + 2) * 3"), 9.0);
}

#[test]
fn subtraction_is_left_associative() {
    assert_eq!(eval_number("10 - 3 - 2"), 5.0);
    assert_eq!(eval_number("16 / 4 / 2"), 2.0);
}

#[test]
fn negation_chain() {
    assert_eq!(eval_number("-(-(-(-(-(1.5)))))"), -1.5);
    assert_eq!(eval_number("-(-(2))"), 2.0);
    assert_eq!(eval_number("-2 * 3"), -6.0);
}

#[test]
fn empty_brackets_are_unit() {
    assert_eq!(run("()", &mut FunctionTable::new()), Ok(Literal::Unit));
}

#[test]
fn define_then_call() {
    let mut fns = FunctionTable::new();
    assert_eq!(run("fn f a b => a + b", &mut fns), Ok(Literal::Unit));
    match run("f 2 3", &mut fns) {
        Ok(Literal::Number(n)) => assert_eq!(number_value(&n), 5.0),
        other => panic!("unexpected {:?}", other),
    }
}

#[test]
fn non_local_body_is_rejected_and_not_recorded() {
    let mut fns = FunctionTable::new();
    assert_eq!(run("fn bad a => a + z", &mut fns), Err(EvalError::NonLocalVariableError));
    assert!(fns.get(&"bad".to_string()).is_none());
    assert_eq!(run("bad 1", &mut fns), Err(EvalError::UnknownIdentifier));
}

#[test]
fn body_calling_another_function_is_rejected() {
    let mut fns = FunctionTable::new();
    assert_eq!(run("fn g x => x * 2", &mut fns), Ok(Literal::Unit));
    assert_eq!(run("fn h y => g y + 1", &mut fns), Err(EvalError::NonLocalVariableError));
}

#[test]
fn call_result_as_argument() {
    let mut fns = FunctionTable::new();
    assert_eq!(run("fn g x => x * 2", &mut fns), Ok(Literal::Unit));
    assert_eq!(run("fn h y => y + 1", &mut fns), Ok(Literal::Unit));
    match run("h g 3", &mut fns) {
        Ok(Literal::Number(n)) => assert_eq!(number_value(&n), 7.0),
        other => panic!("unexpected {:?}", other),
    }
}

#[test]
fn too_few_arguments() {
    let mut fns = FunctionTable::new();
    assert_eq!(run("fn f a b => a + b", &mut fns), Ok(Literal::Unit));
    assert_eq!(run("f 1", &mut fns), Err(EvalError::ArityError));
}

#[test]
fn number_plus_text_is_a_type_error() {
    assert_eq!(
        run("1 + \"a\"", &mut FunctionTable::new()),
        Err(EvalError::ArithmeticTypeError(ArithOp::Add))
    );
    assert_eq!(
        run("\"a\" * 2", &mut FunctionTable::new()),
        Err(EvalError::ArithmeticTypeError(ArithOp::Multiply))
    );
    assert_eq!(
        run("-\"a\"", &mut FunctionTable::new()),
        Err(EvalError::ArithmeticTypeError(ArithOp::Negate))
    );
    assert_eq!(
        run("\"a\" - \"b\"", &mut FunctionTable::new()),
        Err(EvalError::ArithmeticTypeError(ArithOp::Subtract))
    );
    assert_eq!(
        run("\"a\" / 1", &mut FunctionTable::new()),
        Err(EvalError::ArithmeticTypeError(ArithOp::Divide))
    );
}

#[test]
fn evaluating_twice_gives_the_same_result() {
    let mut vars = Scope::new();
    vars.insert("x".to_string(), Literal::Text("ab".to_string()));
    let toks = tokenify("x + \"c\"".to_string()).unwrap();
    let mut e = Expression::from_tokens(toks, vars, Scope::new(), FunctionTable::new());
    let first = evaluate_expression(&mut e);
    let second = evaluate_expression(&mut e);
    assert_eq!(first, Ok(Literal::Text("abc".to_string())));
    assert_eq!(first, second);
}

#[test]
fn driver_examples() {
    let mut fns = FunctionTable::new();
    assert_eq!(run("fn test_function a b c => -a + 5 * c", &mut fns), Ok(Literal::Unit));
    assert_eq!(run("fn test_function_two a b  => a + 2 * b", &mut fns), Ok(Literal::Unit));
    let r = run(
        "((1 + 2) -  1) * test_function test_function_two 1 3 4 7 + 3 - -(-(-(-(-(1.5)))))",
        &mut fns,
    );
    match r {
        Ok(Literal::Number(n)) => assert_eq!(number_value(&n), 60.5),
        other => panic!("unexpected {:?}", other),
    }
    assert_eq!(
        run("\"Hello \" + \"World!\"", &mut fns),
        Ok(Literal::Text("Hello World!".to_string()))
    );
}

#[test]
fn lookup_order_arguments_then_variables_then_functions() {
    let mut vars = Scope::new();
    vars.insert("v".to_string(), Literal::Text("var".to_string()));
    let mut args = Scope::new();
    args.insert("v".to_string(), Literal::Text("arg".to_string()));
    let mut fns = FunctionTable::new();
    let toks = tokenify("v".to_string()).unwrap();
    assert_eq!(evaluate(&toks, &vars, &args, &mut fns), Ok(Literal::Text("arg".to_string())));
    assert_eq!(evaluate(&toks, &vars, &Scope::new(), &mut fns), Ok(Literal::Text("var".to_string())));
}

#[test]
fn function_name_of_a_variable_is_rejected() {
    let mut vars = Scope::new();
    vars.insert("f".to_string(), Literal::Unit);
    let mut fns = FunctionTable::new();
    let toks = tokenify("fn f a => a".to_string()).unwrap();
    assert_eq!(evaluate(&toks, &vars, &Scope::new(), &mut fns), Err(EvalError::DuplicateName));
}

#[test]
fn redefinition_replaces() {
    let mut fns = FunctionTable::new();
    assert_eq!(run("fn f a => a", &mut fns), Ok(Literal::Unit));
    assert_eq!(run("fn f a => \"new\"", &mut fns), Ok(Literal::Unit));
    assert_eq!(run("f 1", &mut fns), Ok(Literal::Text("new".to_string())));
}

#[test]
fn evaluation_errors() {
    let mut fns = FunctionTable::new();
    assert_eq!(run("", &mut fns), Err(EvalError::InvalidExpression));
    assert_eq!(run("+ 1", &mut fns), Err(EvalError::InvalidExpression));
    assert_eq!(run("(1 + 2", &mut fns), Err(EvalError::UnmatchedBracket));
    assert_eq!(run("1 % 2", &mut fns), Err(EvalError::UnexpectedToken));
    assert_eq!(run("1 + * 2", &mut fns), Err(EvalError::UnexpectedToken));
    assert_eq!(run("y", &mut fns), Err(EvalError::UnknownIdentifier));
    assert_eq!(run("fn f", &mut fns), Err(EvalError::MalformedFunctionDefinition));
    assert_eq!(run("fn 1 a => a", &mut fns), Err(EvalError::MalformedFunctionDefinition));
    assert_eq!(run("fn f a + => a", &mut fns), Err(EvalError::MalformedFunctionDefinition));
    assert_eq!(run("fn f a b c", &mut fns), Err(EvalError::MalformedFunctionDefinition));
    assert_eq!(run("fn f a => a", &mut fns), Ok(Literal::Unit));
    assert_eq!(run("f +", &mut fns), Err(EvalError::InvalidArgument));
}

#[test]
fn runaway_recursion_stops_at_the_depth_limit() {
    let mut fns = FunctionTable::new();
    fns.insert(
        "r".to_string(),
        Function { params: vec![], body: vec![Token::Identifier("r".to_string())] },
    );
    assert_eq!(run("r", &mut fns), Err(EvalError::CallDepthExceeded));
}

#[test]
fn short_definition_under_a_variable_name_is_a_duplicate() {
    let mut vars = Scope::new();
    vars.insert("f".to_string(), Literal::Unit);
    let mut fns = FunctionTable::new();
    let toks = tokenify("fn f".to_string()).unwrap();
    assert_eq!(evaluate(&toks, &vars, &Scope::new(), &mut fns), Err(EvalError::DuplicateName));
    let toks = tokenify("fn f =>".to_string()).unwrap();
    assert_eq!(evaluate(&toks, &vars, &Scope::new(), &mut fns), Err(EvalError::DuplicateName));
    assert!(fns.get(&"f".to_string()).is_none());
}

#[test]
fn definition_with_empty_body() {
    let mut fns = FunctionTable::new();
    assert_eq!(run("fn f =>", &mut fns), Ok(Literal::Unit));
    assert!(fns.get(&"f".to_string()).is_some());
    assert_eq!(run("fn g a =>", &mut fns), Ok(Literal::Unit));
    assert_eq!(run("f", &mut fns), Err(EvalError::UnexpectedToken));
}

#[test]
fn definition_without_a_name() {
    let mut fns = FunctionTable::new();
    assert_eq!(run("fn", &mut fns), Err(EvalError::MalformedFunctionDefinition));
    assert_eq!(run("fn =>", &mut fns), Err(EvalError::MalformedFunctionDefinition));
}

#[test]
fn negation_chains_of_any_length() {
    for n in 0..6 {
        let text = format!("{}2.5{}", "-(".repeat(n), ")".repeat(n));
        let expected = if n % 2 == 1 { -2.5 } else { 2.5 };
        assert_eq!(eval_number(&text), expected);
    }
}
