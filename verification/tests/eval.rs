use keystone_lang::ast::{Expr, Operator, Statement};
use keystone_lang::error::EvalError;
use keystone_lang::eval::{
    apply_operator, evaluate, execute, execute_block, run_program, Environment,
};

fn var(name: &str) -> Expr {
    Expr::Variable(name.to_string())
}

fn binary(left: Expr, op: Operator, right: Expr) -> Expr {
    Expr::BinaryOp(Box::new(left), op, Box::new(right))
}

#[test]
fn environment_defaults_to_zero() {
    let mut env = Environment::new();
    assert_eq!(env.get("x"), 0);
    assert!(!env.contains("x"));
    env.set("x", 5);
    assert_eq!(env.get("x"), 5);
    assert!(env.contains("x"));
    assert_eq!(env.get("y"), 0);
    env.set("x", -6);
    assert_eq!(env.get("x"), -6);
    env.set("y", 0);
    assert!(env.contains("y"));
    assert_eq!(env.get("y"), 0);
}

#[test]
fn operators_on_small_values() {
    assert_eq!(apply_operator(Operator::Add, 2, 3), Ok(5));
    assert_eq!(apply_operator(Operator::Sub, 2, 3), Ok(-1));
    assert_eq!(apply_operator(Operator::Mul, -4, 3), Ok(-12));
    assert_eq!(apply_operator(Operator::Div, 12, 3), Ok(4));
}

#[test]
fn division_rounds_toward_zero() {
    assert_eq!(apply_operator(Operator::Div, 7, 2), Ok(3));
    assert_eq!(apply_operator(Operator::Div, -7, 2), Ok(-3));
    assert_eq!(apply_operator(Operator::Div, 7, -2), Ok(-3));
    assert_eq!(apply_operator(Operator::Div, -7, -2), Ok(3));
    assert_eq!(apply_operator(Operator::Div, 1, 2), Ok(0));
    assert_eq!(apply_operator(Operator::Div, -1, 2), Ok(0));
    assert_eq!(apply_operator(Operator::Div, 0, -5), Ok(0));
    assert_eq!(apply_operator(Operator::Div, i64::MIN, 1), Ok(i64::MIN));
    assert_eq!(apply_operator(Operator::Div, i64::MAX, -1), Ok(-i64::MAX));
    assert_eq!(apply_operator(Operator::Div, i64::MIN, 2), Ok(-4611686018427387904));
}

#[test]
fn division_by_zero_is_an_error() {
    assert_eq!(apply_operator(Operator::Div, 7, 0), Err(EvalError::DivisionByZero));
    assert_eq!(apply_operator(Operator::Div, 0, 0), Err(EvalError::DivisionByZero));
    assert_eq!(apply_operator(Operator::Div, i64::MIN, 0), Err(EvalError::DivisionByZero));
}

#[test]
fn operators_wrap_around() {
    assert_eq!(apply_operator(Operator::Add, i64::MAX, 1), Ok(i64::MIN));
    assert_eq!(apply_operator(Operator::Add, i64::MIN, -1), Ok(i64::MAX));
    assert_eq!(apply_operator(Operator::Sub, i64::MIN, 1), Ok(i64::MAX));
    assert_eq!(apply_operator(Operator::Sub, 0, i64::MIN), Ok(i64::MIN));
    assert_eq!(apply_operator(Operator::Mul, i64::MAX, 2), Ok(-2));
    assert_eq!(apply_operator(Operator::Mul, i64::MIN, -1), Ok(i64::MIN));
    assert_eq!(apply_operator(Operator::Div, i64::MIN, -1), Ok(i64::MIN));
}

#[test]
fn evaluates_nested_operations_left_first() {
    let mut env = Environment::new();
    env.set("a", 10);
    let nested = binary(
        binary(var("a"), Operator::Sub, Expr::Number(4)),
        Operator::Mul,
        binary(Expr::Number(9), Operator::Div, var("b")),
    );
    assert_eq!(evaluate(&nested, &env), Err(EvalError::DivisionByZero));
    env.set("b", 2);
    assert_eq!(evaluate(&nested, &env), Ok(24));
    assert_eq!(evaluate(&Expr::Number(-5), &env), Ok(-5));
    assert_eq!(evaluate(&var("unknown"), &env), Ok(0));
}

#[test]
fn assignment_overwrites() {
    let mut env = Environment::new();
    let mut output: Vec<i64> = Vec::new();
    let first = Statement::Assignment("x".to_string(), Expr::Number(1));
    let second = Statement::Assignment(
        "x".to_string(),
        binary(var("x"), Operator::Add, Expr::Number(10)),
    );
    assert_eq!(execute(&first, &mut env, &mut output), Ok(()));
    assert_eq!(env.get("x"), 1);
    assert_eq!(execute(&second, &mut env, &mut output), Ok(()));
    assert_eq!(env.get("x"), 11);
    assert!(output.is_empty());
}

#[test]
fn failed_assignment_assigns_nothing() {
    let mut env = Environment::new();
    let mut output: Vec<i64> = vec![1];
    env.set("x", 3);
    let bad = Statement::Assignment(
        "x".to_string(),
        binary(Expr::Number(1), Operator::Div, Expr::Number(0)),
    );
    assert_eq!(execute(&bad, &mut env, &mut output), Err(EvalError::DivisionByZero));
    assert_eq!(env.get("x"), 3);
    assert_eq!(output, vec![1]);
}

#[test]
fn if_runs_body_in_the_same_environment() {
    let mut env = Environment::new();
    let mut output: Vec<i64> = Vec::new();
    let body = vec![
        Statement::Assignment("seen".to_string(), Expr::Number(1)),
        Statement::Print(var("seen")),
    ];
    let skipped = Statement::If(Expr::Number(0), vec![Statement::Print(Expr::Number(1))]);
    assert_eq!(execute(&skipped, &mut env, &mut output), Ok(()));
    assert!(output.is_empty());
    let taken = Statement::If(Expr::Number(-1), body);
    assert_eq!(execute(&taken, &mut env, &mut output), Ok(()));
    assert_eq!(output, vec![1]);
    assert_eq!(env.get("seen"), 1);
}

#[test]
fn failing_condition_skips_the_body() {
    let mut env = Environment::new();
    let mut output: Vec<i64> = Vec::new();
    let statement = Statement::If(
        binary(Expr::Number(1), Operator::Div, Expr::Number(0)),
        vec![Statement::Print(Expr::Number(1))],
    );
    assert_eq!(execute(&statement, &mut env, &mut output), Err(EvalError::DivisionByZero));
    assert!(output.is_empty());
}

#[test]
fn loop_counts_of_zero_and_less_run_nothing() {
    let mut env = Environment::new();
    let mut output: Vec<i64> = Vec::new();
    for count in [0, -1, i64::MIN] {
        let statement = Statement::Loop(count, vec![Statement::Print(Expr::Number(1))]);
        assert_eq!(execute(&statement, &mut env, &mut output), Ok(()));
    }
    assert!(output.is_empty());
}

#[test]
fn loop_stops_at_the_first_failing_round() {
    let mut env = Environment::new();
    let mut output: Vec<i64> = Vec::new();
    env.set("d", 2);
    let body = vec![
        Statement::Print(binary(Expr::Number(10), Operator::Div, var("d"))),
        Statement::Assignment(
            "d".to_string(),
            binary(var("d"), Operator::Sub, Expr::Number(1)),
        ),
    ];
    let statement = Statement::Loop(5, body);
    assert_eq!(execute(&statement, &mut env, &mut output), Err(EvalError::DivisionByZero));
    assert_eq!(output, vec![5, 10]);
    assert_eq!(env.get("d"), 0);
}

#[test]
fn block_runs_in_order() {
    let mut env = Environment::new();
    let mut output: Vec<i64> = Vec::new();
    let block = vec![
        Statement::Print(var("x")),
        Statement::Assignment("x".to_string(), Expr::Number(2)),
        Statement::Print(var("x")),
    ];
    assert_eq!(execute_block(&block, &mut env, &mut output), Ok(()));
    assert_eq!(output, vec![0, 2]);
    assert_eq!(execute_block(&vec![], &mut env, &mut output), Ok(()));
    assert_eq!(output, vec![0, 2]);
}

#[test]
fn program_starts_with_nothing_assigned() {
    let program = vec![
        Statement::Print(var("x")),
        Statement::Assignment("x".to_string(), Expr::Number(2)),
    ];
    let mut output: Vec<i64> = Vec::new();
    assert_eq!(run_program(&program, &mut output), Ok(()));
    assert_eq!(run_program(&program, &mut output), Ok(()));
    assert_eq!(output, vec![0, 0]);
}
