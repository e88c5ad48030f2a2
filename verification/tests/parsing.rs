use tcalc::ast::Assignment;
use tcalc::ast::Ast;
use tcalc::ast::Binary;
use tcalc::ast::BinaryOp;
use tcalc::ast::Call;
use tcalc::ast::Command;
use tcalc::ast::Expression;
use tcalc::ast::Literal;
use tcalc::ast::Statement;
use tcalc::ast::Unary;
use tcalc::ast::UnaryOp;
use tcalc::ast::Variable;
use tcalc::parsing::parse;

fn expect(input: &str, expected: Ast) {
    let result = match parse(input) {
        Some(ast) => ast,
        None => panic!("Expected Ast for input \"{}\", but found None", input),
    };

    assert_eq!(result, expected);
}

fn assign_expr(name: &str, right: Expression) -> Expression {
    Expression::Assignment(Assignment {
        var: var(name),
        right: Box::new(right),
    })
}

fn assign_ast(name: &str, right: Expression) -> Ast {
    Ast::Expression(assign_expr(name, right))
}

fn bin_op_expr(left: Expression, op: BinaryOp, right: Expression) -> Expression {
    Expression::Binary(Binary {
        left: Box::new(left),
        op,
        right: Box::new(right),
    })
}

fn bin_op_ast(left: Expression, op: BinaryOp, right: Expression) -> Ast {
    Ast::Expression(bin_op_expr(left, op, right))
}

fn comp_assign_ast(name: &str, op: BinaryOp, right: Expression) -> Ast {
    assign_ast(name, bin_op_expr(var_expr(name), op, right))
}

fn num_expr(value: f64) -> Expression {
    Expression::Literal(Literal::Number(value.to_bits()))
}

fn num_ast(value: f64) -> Ast {
    Ast::Expression(num_expr(value))
}

fn uni_op_expr(op: UnaryOp, right: Expression) -> Expression {
    Expression::Unary(Unary {
        op,
        right: Box::new(right),
    })
}

fn uni_op_ast(op: UnaryOp, right: Expression) -> Ast {
    Ast::Expression(uni_op_expr(op, right))
}

fn var(name: &str) -> Variable {
    Variable {
        name: name.to_string(),
    }
}

fn var_expr(name: &str) -> Expression {
    Expression::Variable(var(name))
}

fn var_ast(name: &str) -> Ast {
    Ast::Expression(var_expr(name))
}

#[test]
fn parse_literal() {
    expect("0b11", num_ast(3f64));
    expect("0o11", num_ast(9f64));
    expect("0x11", num_ast(17f64));
    expect("11", num_ast(11f64));
    expect("0_123_456_789", num_ast(123_456_789f64));
    expect("12345.67890", num_ast(12345.6789f64));
}

#[test]
fn parse_variable() {
    expect("e", var_ast("e"));
}

#[test]
fn parse_parens() {
    expect("(123)", num_ast(123f64));
    expect("(e)", var_ast("e"));
}

#[test]
fn parse_negate() {
    expect("-123", uni_op_ast(UnaryOp::Negate, num_expr(123f64)));
}

#[test]
fn parse_not() {
    expect("!e", uni_op_ast(UnaryOp::Not, var_expr("e")));
}

fn parse_bin_op(str_op: &str, op: BinaryOp) {
    expect(
        &format!("2 {} 7", str_op),
        bin_op_ast(num_expr(2f64), op, num_expr(7f64)),
    );
}

fn parse_comp_assign(str_op: &str, op: BinaryOp) {
    expect(
        &format!("a {} 7", str_op),
        comp_assign_ast("a", op, num_expr(7f64)),
    );
}

#[test]
fn parse_bit_and() {
    parse_bin_op("&", BinaryOp::BitAnd);
}

#[test]
fn parse_bit_and_assign() {
    parse_comp_assign("&=", BinaryOp::BitAnd);
}

#[test]
fn parse_bit_or() {
    parse_bin_op("|", BinaryOp::BitOr);
}

#[test]
fn parse_bit_or_assign() {
    parse_comp_assign("|=", BinaryOp::BitOr);
}

#[test]
fn parse_bit_xor() {
    parse_bin_op("^", BinaryOp::BitXor);
}

#[test]
fn parse_bit_xor_assign() {
    parse_comp_assign("^=", BinaryOp::BitXor);
}

#[test]
fn parse_decrement() {
    expect("a--", comp_assign_ast("a", BinaryOp::Minus, num_expr(1f64)))
}

#[test]
fn parse_divide() {
    parse_bin_op("/", BinaryOp::Divide);
}

#[test]
fn parse_divide_assign() {
    parse_comp_assign("/=", BinaryOp::Divide);
}

#[test]
fn parse_exponent() {
    parse_bin_op("**", BinaryOp::Exponent);
}

#[test]
fn parse_exponent_assign() {
    parse_comp_assign("**=", BinaryOp::Exponent);
}

#[test]
fn parse_increment() {
    expect("a++", comp_assign_ast("a", BinaryOp::Plus, num_expr(1f64)))
}

#[test]
fn parse_left_shift() {
    parse_bin_op("<<", BinaryOp::LeftShift);
}

#[test]
fn parse_left_shift_assign() {
    parse_comp_assign("<<=", BinaryOp::LeftShift);
}

#[test]
fn parse_minus() {
    parse_bin_op("-", BinaryOp::Minus);
}

#[test]
fn parse_minus_assign() {
    parse_comp_assign("-=", BinaryOp::Minus);
}

#[test]
fn parse_modulo() {
    parse_bin_op("%", BinaryOp::Modulo);
}

#[test]
fn parse_modulo_assign() {
    parse_comp_assign("%=", BinaryOp::Modulo);
}

#[test]
fn parse_multiply() {
    parse_bin_op("*", BinaryOp::Multiply);
}

#[test]
fn parse_multiply_assign() {
    parse_comp_assign("*=", BinaryOp::Multiply);
}

#[test]
fn parse_plus() {
    parse_bin_op("+", BinaryOp::Plus);
}

#[test]
fn parse_plus_assign() {
    parse_comp_assign("+=", BinaryOp::Plus);
}

#[test]
fn parse_right_shift() {
    parse_bin_op(">>", BinaryOp::RightShift);
}

#[test]
fn parse_right_shift_assign() {
    parse_comp_assign(">>=", BinaryOp::RightShift);
}

#[test]
fn parse_assignment() {
    expect("a=8", assign_ast("a", num_expr(8f64)));
}

#[test]
fn parse_command() {
    expect("exit", Ast::Command(Command::Exit));
    expect("quit", Ast::Command(Command::Exit));
}

#[test]
fn parse_pemdas() {
    expect(
        "6/3-2",
        bin_op_ast(
            bin_op_expr(num_expr(6f64), BinaryOp::Divide, num_expr(3f64)),
            BinaryOp::Minus,
            num_expr(2f64),
        ),
    );

    expect(
        "6/(3-2)",
        bin_op_ast(
            num_expr(6f64),
            BinaryOp::Divide,
            bin_op_expr(num_expr(3f64), BinaryOp::Minus, num_expr(2f64)),
        ),
    );

    expect(
        "6*3**2",
        bin_op_ast(
            num_expr(6f64),
            BinaryOp::Multiply,
            bin_op_expr(num_expr(3f64), BinaryOp::Exponent, num_expr(2f64)),
        ),
    );

    expect(
        "(6*3)**2",
        bin_op_ast(
            bin_op_expr(num_expr(6f64), BinaryOp::Multiply, num_expr(3f64)),
            BinaryOp::Exponent,
            num_expr(2f64),
        ),
    );
}

#[test]
fn parse_unexpected_terminal() {
    assert_eq!(parse("1+2)"), None);
}

#[test]
fn parse_statement_delete() {
    assert_eq!(
        parse("delete a"),
        Some(Ast::Statement(Statement::DeleteVar(var("a"))))
    );
}

#[test]
fn parse_call_one_param() {
    expect(
        "abs(-7)",
        Ast::Expression(Expression::Call(Call {
            name: "abs".to_string(),
            params: vec![uni_op_expr(UnaryOp::Negate, num_expr(7f64))],
        })),
    );
}

#[test]
fn parse_call_no_params() {
    expect(
        "f()",
        Ast::Expression(Expression::Call(Call {
            name: "f".to_string(),
            params: vec![],
        })),
    );
}

#[test]
fn parse_reparse_is_equal() {
    for input in ["6*3**2", "a=b=5", "abs(-7)", "0x1f", "1+2)"] {
        assert_eq!(parse(input), parse(input));
    }
}

#[test]
fn parse_radix_digit_too_large_is_rejected() {
    assert_eq!(parse("0b12"), None);
    assert_eq!(parse("0o9"), None);
}

#[test]
fn parse_radix_overflow_is_rejected() {
    assert_eq!(parse("0x0123456789abcdefABCDEF"), None);
}

#[test]
fn parse_empty_digits_is_rejected() {
    assert_eq!(parse("0x"), None);
}

#[test]
fn parse_trailing_operator_keeps_left_side() {
    // a matched operator whose right-hand side fails to parse ends the
    // binary loop and keeps the expression built so far
    expect("1+", num_ast(1f64));
}

#[test]
fn parse_missing_assignment_rhs() {
    assert_eq!(parse("a="), None);
    assert_eq!(parse("a+="), None);
}

#[test]
fn parse_assignment_needs_bare_variable() {
    // a literal on the left of `=` is not an assignment target; the stray
    // `=` then fails the whole line at the terminal check
    assert_eq!(parse("1=2"), None);
}
