use std::f64::consts::E;
use std::f64::consts::PI;
use tcalc::ast::Ast;
use tcalc::parsing::parse;
use tcalc::running::Runner;

fn solve(input: &str) -> f64 {
    let ast = match parse(input) {
        Some(ast) => ast,
        None => panic!("Expected Ast for input \"{}\", but found None", input),
    };

    let expr = match ast {
        Ast::Expression(expr) => expr,
        _ => panic!(
            "Expected Expression for input \"{}\", but found {:?}",
            input, ast
        ),
    };

    match Runner::new().run_expression(&expr) {
        Ok(v) => f64::from_bits(v),
        Err(msg) => panic!("Error for input \"{}\": {:?}", input, msg),
    }
}

#[test]
fn solve_literal() {
    assert_eq!(solve("123"), 123f64);
    assert_eq!(solve("123.456"), 123.456f64);
    assert_eq!(solve("1_234.567"), 1_234.567f64);
}

#[test]
fn solve_assignment() {
    assert_eq!(solve("a=123"), 123f64);
}

#[test]
fn solve_variable() {
    assert_eq!(solve("e"), E);
}

#[test]
fn solve_parens() {
    assert_eq!(solve("(123)"), 123f64);
    assert_eq!(solve("(pi)"), PI);
}

#[test]
fn solve_unary_ops() {
    assert_eq!(solve("-123"), -123f64);
    assert_eq!(solve("!e"), !(E as i64) as f64);
}

#[test]
fn solve_binary_ops() {
    assert_eq!(solve("2&7"), 2f64);
    assert_eq!(solve("2|7"), 7f64);
    assert_eq!(solve("2^7"), 5f64);
    assert_eq!(solve("2/7"), 2f64 / 7f64);
    assert_eq!(solve("2**7"), 128f64);
    assert_eq!(solve("2<<7"), 256f64);
    assert_eq!(solve("2-7"), -5f64);
    assert_eq!(solve("2%7"), 2f64);
    assert_eq!(solve("2*7"), 14f64);
    assert_eq!(solve("2+7"), 9f64);
    assert_eq!(solve("2>>7"), 0f64);
}

#[test]
fn solve_pemdas() {
    assert_eq!(solve("6/3-2"), 0f64);
    assert_eq!(solve("6/(3-2)"), 6f64);
    assert_eq!(solve("6*3**2"), 54f64);
    assert_eq!(solve("(6*3)**2"), 324f64);
}

#[test]
fn solve_call() {
    assert_eq!(solve("abs(-7)"), 7f64);
    assert_eq!(solve("ceil(3.4)"), 4f64);
    assert_eq!(solve("floor(3.5)"), 3f64);
    assert_eq!(solve("round(3.5)"), 4f64);

    assert_eq!(solve("a = abs(ceil(floor(-1.234 * 10) / 10))"), 1f64);
}
