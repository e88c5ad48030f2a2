use std::f64::consts::E;
use tcalc::ast::Ast;
use tcalc::parsing::parse;
use tcalc::running::ArityKind;
use tcalc::running::RunError;
use tcalc::running::Runner;

fn expr_of(input: &str) -> tcalc::ast::Expression {
    match parse(input) {
        Some(Ast::Expression(expr)) => expr,
        other => panic!("Expected Expression for \"{}\", found {:?}", input, other),
    }
}

fn stmt_of(input: &str) -> tcalc::ast::Statement {
    match parse(input) {
        Some(Ast::Statement(stmt)) => stmt,
        other => panic!("Expected Statement for \"{}\", found {:?}", input, other),
    }
}

fn eval(runner: &mut Runner, input: &str) -> Result<f64, RunError> {
    runner.run_expression(&expr_of(input)).map(f64::from_bits)
}

/// Round-trip: a literal accepted by the scanner evaluates to the host
/// language's radix-aware parse of the same numeral.
#[test]
fn literal_round_trip() {
    let mut r = Runner::new();
    assert_eq!(eval(&mut r, "12345.67890").unwrap(), "12345.67890".parse::<f64>().unwrap());
    assert_eq!(eval(&mut r, "0.5").unwrap(), "0.5".parse::<f64>().unwrap());
    assert_eq!(eval(&mut r, "9007199254740993").unwrap(), "9007199254740993".parse::<f64>().unwrap());
    assert_eq!(eval(&mut r, "0b1011").unwrap(), u64::from_str_radix("1011", 2).unwrap() as f64);
    assert_eq!(eval(&mut r, "0o755").unwrap(), u64::from_str_radix("755", 8).unwrap() as f64);
    assert_eq!(eval(&mut r, "0x1F").unwrap(), u64::from_str_radix("1F", 16).unwrap() as f64);
    assert_eq!(eval(&mut r, "0d12.5").unwrap(), 12.5f64);
    assert_eq!(
        eval(&mut r, "0xFFFFFFFFFFFFFFFF").unwrap(),
        u64::MAX as f64,
    );
}

/// Associativity: `a=b=5` binds both names to 5.
#[test]
fn chained_assignment_binds_both() {
    let mut r = Runner::new();
    assert_eq!(eval(&mut r, "a=b=5").unwrap(), 5f64);
    assert_eq!(eval(&mut r, "a").unwrap(), 5f64);
    assert_eq!(eval(&mut r, "b").unwrap(), 5f64);
}

/// Scope shadowing: assignment shadows a builtin, deletion uncovers it.
#[test]
fn shadow_builtin_and_delete() {
    let mut r = Runner::new();
    assert_eq!(eval(&mut r, "e").unwrap(), E);
    assert_eq!(eval(&mut r, "e=1").unwrap(), 1f64);
    assert_eq!(eval(&mut r, "e").unwrap(), 1f64);
    r.run_statement(&stmt_of("delete e")).unwrap();
    assert_eq!(eval(&mut r, "e").unwrap(), E);
}

#[test]
fn delete_undefined_fails() {
    let mut r = Runner::new();
    let err = r.run_statement(&stmt_of("delete nothing_here")).unwrap_err();
    assert_eq!(
        err,
        RunError::UndefinedVariable {
            name: "nothing_here".to_string()
        }
    );
}

/// Deleting a builtin that was never shadowed is an error: the builtin
/// layer itself is immutable.
#[test]
fn delete_builtin_fails() {
    let mut r = Runner::new();
    let err = r.run_statement(&stmt_of("delete pi")).unwrap_err();
    assert_eq!(
        err,
        RunError::UndefinedVariable {
            name: "pi".to_string()
        }
    );
    assert!(eval(&mut r, "pi").is_ok());
}

/// Division and modulo by zero fail; an exponent of zero does not.
#[test]
fn divide_by_zero() {
    let mut r = Runner::new();
    assert_eq!(eval(&mut r, "1/0").unwrap_err(), RunError::DivideByZero);
    assert_eq!(eval(&mut r, "1%0").unwrap_err(), RunError::DivideByZero);
    assert_eq!(eval(&mut r, "1**0").unwrap(), 1f64);
}

/// Bitwise operators truncate their operands to integers first.
#[test]
fn bitwise_truncation() {
    let mut r = Runner::new();
    assert_eq!(eval(&mut r, "2.9 & 7").unwrap(), 2f64);
    assert_eq!(eval(&mut r, "!2.9").unwrap(), !(2.9f64 as i64) as f64);
}

/// An identifier bound in no layer is an undefined variable.
#[test]
fn undefined_reference() {
    let mut r = Runner::new();
    assert_eq!(
        eval(&mut r, "undefined_name").unwrap_err(),
        RunError::UndefinedVariable {
            name: "undefined_name".to_string()
        }
    );
}

#[test]
fn undefined_function() {
    let mut r = Runner::new();
    assert_eq!(
        eval(&mut r, "frobnicate(1)").unwrap_err(),
        RunError::UndefinedFunction {
            name: "frobnicate".to_string()
        }
    );
}

#[test]
fn arity_errors() {
    let mut r = Runner::new();
    assert_eq!(
        eval(&mut r, "abs()").unwrap_err(),
        RunError::ArityMismatch {
            name: "abs".to_string(),
            expected: 1,
            found: 0,
            kind: ArityKind::Few
        }
    );
    assert_eq!(
        eval(&mut r, "ceil(1 2)").unwrap_err(),
        RunError::ArityMismatch {
            name: "ceil".to_string(),
            expected: 1,
            found: 2,
            kind: ArityKind::Many
        }
    );
}

/// Every successful evaluation binds `ans` to its result.
#[test]
fn ans_is_bound() {
    let mut r = Runner::new();
    assert_eq!(eval(&mut r, "2+7").unwrap(), 9f64);
    assert_eq!(eval(&mut r, "ans").unwrap(), 9f64);
}

/// A failed evaluation leaves the scopes as the completed part of the
/// expression left them, and `ans` untouched.
#[test]
fn failure_keeps_state() {
    let mut r = Runner::new();
    assert_eq!(eval(&mut r, "3*4").unwrap(), 12f64);
    assert!(eval(&mut r, "(c=5)+(1/0)").is_err());
    assert_eq!(eval(&mut r, "c").unwrap(), 5f64);
}

#[test]
fn exponent_edge_cases() {
    let mut r = Runner::new();
    // a negative base with an integral exponent follows the sign rule
    assert_eq!(eval(&mut r, "-2**2").unwrap(), 4f64);
    assert_eq!(eval(&mut r, "-2**3").unwrap(), -8f64);
    // a fractional exponent of a negative base has no real value
    assert!(eval(&mut r, "-2**0.5").unwrap().is_nan());
    // a fractional exponent of a positive base is the real power
    let got = eval(&mut r, "2**0.5").unwrap();
    assert!((got - 2f64.powf(0.5)).abs() <= f64::EPSILON);
    assert_eq!(eval(&mut r, "0**3").unwrap(), 0f64);
    assert_eq!(eval(&mut r, "10**3").unwrap(), 1000f64);
}

#[test]
fn negative_zero_divisor_fails() {
    let mut r = Runner::new();
    assert_eq!(eval(&mut r, "1/(0-0.0)").unwrap_err(), RunError::DivideByZero);
    assert_eq!(eval(&mut r, "1/-0.0").unwrap_err(), RunError::DivideByZero);
}

#[test]
fn shift_operators() {
    let mut r = Runner::new();
    assert_eq!(eval(&mut r, "1<<10").unwrap(), 1024f64);
    assert_eq!(eval(&mut r, "1024>>3").unwrap(), 128f64);
}
