use calculator::environment::Environment;
use calculator::evaluator::{eval, run_statement, unbound_variables, Outcome};
use calculator::expr::{BinaryOperator, Expr, UnaryOperator};
use calculator::grammar::{parse_equation, Command, Statement};
use calculator::lexer::{Expectation, ParseError};

/// The numeric value of an evaluated tree, in double precision.
fn value(e: &Expr) -> f64 {
    match e {
        Expr::Integer { value } => *value as f64,
        Expr::Float { literal } => literal.parse::<f64>().unwrap(),
        Expr::BoundVariable { variable } => value(&variable.expr),
        Expr::UnboundVariable { .. } => f64::NAN,
        Expr::BinaryOperation { lhs, op, rhs } => {
            let (l, r) = (value(lhs), value(rhs));
            match op {
                BinaryOperator::Add => l + r,
                BinaryOperator::Subtract => l - r,
                BinaryOperator::Multiply => l * r,
                BinaryOperator::Divide => l / r,
                BinaryOperator::Modulo => l % r,
                BinaryOperator::Power => l.powf(r),
            }
        }
        Expr::UnaryOperation { op: UnaryOperator::Minus, expr } => -value(expr),
        Expr::Assignment { .. } => panic!("an assignment has no value"),
    }
}

fn expression(input: &str) -> Expr {
    match parse_equation(input).unwrap() {
        Statement::Expression { expr } => expr,
        other => panic!("not an expression: {:?}", other),
    }
}

fn float(v: &str) -> Expr {
    Expr::Float { literal: v.to_string() }
}

fn env_ab() -> Environment {
    let mut env = Environment::new();
    env.insert("a".to_string(), float("10.0"));
    env.insert("b".to_string(), float("20.0"));
    env
}

#[test]
fn test_precedence() {
    let result = eval(expression("1 + 4 * 3"), &Environment::new());
    assert_eq!(value(&result), 13.0);
}

#[test]
fn test_bracket_precedence() {
    let result = eval(expression("(1 + 4) * 3"), &Environment::new());
    assert_eq!(value(&result), 15.0);
}

#[test]
fn test_unary_minus() {
    let result = eval(expression("1 + 4 * -3"), &Environment::new());
    assert_eq!(value(&result), -11.0);
}

#[test]
fn test_variables() {
    let result = eval(expression("a + b"), &env_ab());
    assert_eq!(value(&result), 30.0);
}

#[test]
fn test_unbound_variables() {
    let result = eval(expression("a + (b * c)"), &env_ab());
    assert!(value(&result).is_nan());
}

#[test]
fn unbound_analyzer_reports_c() {
    let result = eval(expression("a + (b * c)"), &env_ab());
    assert_eq!(unbound_variables(&result), vec!["c".to_string()]);
}

#[test]
fn unbound_names_are_reported_once() {
    let result = eval(expression("x * x + y"), &Environment::new());
    assert_eq!(unbound_variables(&result), vec!["x".to_string(), "y".to_string()]);
}

#[test]
fn power_groups_to_the_right() {
    let result = eval(expression("2 ^ 3 ^ 2"), &Environment::new());
    assert_eq!(value(&result), 512.0);
}

#[test]
fn minus_applies_after_power() {
    let e = expression("-2 ^ 2");
    assert!(matches!(e, Expr::UnaryOperation { op: UnaryOperator::Minus, .. }));
    assert_eq!(value(&e), -4.0);
}

#[test]
fn multiplicative_operators_group_to_the_left() {
    assert_eq!(value(&expression("8 / 4 / 2")), 1.0);
    assert_eq!(value(&expression("10 - 4 - 3")), 3.0);
    assert_eq!(value(&expression("7 % 4 * 2")), 6.0);
}

#[test]
fn floats_and_comments() {
    assert_eq!(value(&expression("1.5 * 2 # doubled")), 3.0);
}

#[test]
fn signed_integer_literal() {
    assert!(matches!(expression("+7"), Expr::Integer { value: 7 }));
}

#[test]
fn division_by_zero_is_not_an_error() {
    assert_eq!(value(&expression("1 / 0")), f64::INFINITY);
}

#[test]
fn reentered_value_round_trips() {
    // 13 is what `1 + 4 * 3` displays; entering it again gives the same number.
    let shown = format!("{}", value(&expression("1 + 4 * 3")));
    assert_eq!(value(&expression(&shown)), 13.0);
    let shown = format!("{}", value(&expression("1 + 4 * -3")));
    assert_eq!(value(&expression(&shown)), -11.0);
    let shown = format!("{}", value(&expression("2.5 * 3")));
    assert_eq!(value(&expression(&shown)), 7.5);
}

#[test]
fn assignment_statement() {
    match parse_equation("x = 1 + 2").unwrap() {
        Statement::Assignment { identifier, expr } => {
            assert_eq!(identifier, "x");
            assert_eq!(value(&expr), 3.0);
        }
        other => panic!("not an assignment: {:?}", other),
    }
}

#[test]
fn commands() {
    assert!(matches!(
        parse_equation(":state").unwrap(),
        Statement::Command { command: Command::State }
    ));
    assert!(matches!(
        parse_equation(":reset").unwrap(),
        Statement::Command { command: Command::Reset }
    ));
    assert!(matches!(
        parse_equation(":debug").unwrap(),
        Statement::Command { command: Command::Debug }
    ));
    match parse_equation(":quit").unwrap() {
        Statement::Command { command: Command::Unknown { name } } => assert_eq!(name, "quit"),
        other => panic!("not a command: {:?}", other),
    }
}

#[test]
fn parse_errors() {
    assert_eq!(
        parse_equation("1 + $").unwrap_err(),
        ParseError { offset: 4, expected: Expectation::Token }
    );
    assert_eq!(
        parse_equation("1 +").unwrap_err(),
        ParseError { offset: 3, expected: Expectation::Operand }
    );
    assert_eq!(
        parse_equation("(1 + 2").unwrap_err(),
        ParseError { offset: 6, expected: Expectation::CloseParen }
    );
    assert_eq!(
        parse_equation("1 2").unwrap_err(),
        ParseError { offset: 2, expected: Expectation::EndOfInput }
    );
    assert_eq!(
        parse_equation(": 3").unwrap_err(),
        ParseError { offset: 2, expected: Expectation::CommandName }
    );
    assert_eq!(
        parse_equation("2147483648").unwrap_err(),
        ParseError { offset: 0, expected: Expectation::IntegerInRange }
    );
    assert_eq!(
        parse_equation("").unwrap_err(),
        ParseError { offset: 0, expected: Expectation::Operand }
    );
}

#[test]
fn integer_limits() {
    assert!(matches!(expression("2147483647"), Expr::Integer { value: 2147483647 }));
    assert!(matches!(expression("--2147483648"), Expr::UnaryOperation { .. }));
}

#[test]
fn assignment_commits_when_bound() {
    let mut env = env_ab();
    let outcome = run_statement(parse_equation("c = a * 2").unwrap(), &mut env);
    match outcome {
        Outcome::Evaluated { expr, unbound } => {
            assert!(unbound.is_empty());
            assert_eq!(value(&expr), 20.0);
        }
        other => panic!("not evaluated: {:?}", other),
    }
    let c = env.get(&"c".to_string()).expect("c is bound");
    assert_eq!(value(c), 20.0);
}

#[test]
fn assignment_with_unbound_variable_is_not_committed() {
    let mut env = env_ab();
    let outcome = run_statement(parse_equation("d = a + z").unwrap(), &mut env);
    match outcome {
        Outcome::Evaluated { expr, unbound } => {
            assert_eq!(unbound, vec!["z".to_string()]);
            assert!(value(&expr).is_nan());
        }
        other => panic!("not evaluated: {:?}", other),
    }
    assert!(env.get(&"d".to_string()).is_none());
    assert_eq!(env.bindings().len(), 2);
}

#[test]
fn reassignment_replaces_binding() {
    let mut env = env_ab();
    env.insert("a".to_string(), float("1.0"));
    assert_eq!(env.bindings().len(), 2);
    assert_eq!(value(env.get(&"a".to_string()).unwrap()), 1.0);
}

#[test]
fn reset_clears_environment() {
    let mut env = env_ab();
    assert!(matches!(
        run_statement(parse_equation(":reset").unwrap(), &mut env),
        Outcome::Reset
    ));
    assert!(env.get(&"a".to_string()).is_none());
    assert!(env.bindings().is_empty());
}

#[test]
fn bound_variable_carries_its_expression() {
    let result = eval(expression("a"), &env_ab());
    match result {
        Expr::BoundVariable { variable } => {
            assert_eq!(variable.name, "a");
            assert_eq!(value(&variable.expr), 10.0);
        }
        other => panic!("not bound: {:?}", other),
    }
}
