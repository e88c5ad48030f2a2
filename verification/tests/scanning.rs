use tcalc::scanning::Scanner;
use tcalc::scanning::TokenType;

fn setup(input: &str) -> Scanner {
    Scanner::new(input)
}

fn expect(scanner: &mut Scanner, tt: TokenType) {
    let token = match scanner.next() {
        Some(token) => token,
        None => panic!("Expected Token {:?} but found None", tt),
    };

    assert_eq!(token.token_type, tt);
}

#[test]
fn scan_ampersand() {
    let mut s = setup("&");
    expect(&mut s, TokenType::Ampersand);
}

#[test]
fn scan_bang() {
    let mut s = setup("!");
    expect(&mut s, TokenType::Bang);
}

#[test]
fn scan_caret() {
    let mut s = setup("^");
    expect(&mut s, TokenType::Caret);
}

#[test]
fn scan_forward_slash() {
    let mut s = setup("/");
    expect(&mut s, TokenType::ForwardSlash);
}

#[test]
fn scan_identifier() {
    let mut s = setup("ans");
    expect(
        &mut s,
        TokenType::Identifier {
            str: "ans".to_string(),
        },
    );
}

#[test]
fn scan_left_angle_bracket_x2() {
    let mut s = setup("<<");
    expect(&mut s, TokenType::LeftAngleBracketX2);
}

#[test]
fn scan_left_paren() {
    let mut s = setup("(");
    expect(&mut s, TokenType::LeftParen);
}

#[test]
fn scan_minus() {
    let mut s = setup("-");
    expect(&mut s, TokenType::Minus);
}

#[test]
fn scan_equal() {
    let mut s = setup("=");
    expect(&mut s, TokenType::Equal);
}

#[test]
fn scan_new_line() {
    let mut s = setup("\n");
    expect(&mut s, TokenType::NewLine);
}

#[test]
fn scan_number() {
    let mut s = setup("0b01 0o01234567 0x0123456789abcdefABCDEF 0123456789 11_11 11.11");
    expect(
        &mut s,
        TokenType::Number {
            str: "01".to_string(),
            prefix: "0b".to_string(),
        },
    );
    expect(
        &mut s,
        TokenType::Number {
            str: "01234567".to_string(),
            prefix: "0o".to_string(),
        },
    );
    expect(
        &mut s,
        TokenType::Number {
            str: "0123456789abcdefABCDEF".to_string(),
            prefix: "0x".to_string(),
        },
    );
    expect(
        &mut s,
        TokenType::Number {
            str: "0123456789".to_string(),
            prefix: "".to_string(),
        },
    );
    expect(
        &mut s,
        TokenType::Number {
            str: "1111".to_string(),
            prefix: "".to_string(),
        },
    );
    expect(
        &mut s,
        TokenType::Number {
            str: "11.11".to_string(),
            prefix: "".to_string(),
        },
    );
}

#[test]
fn scan_percent() {
    let mut s = setup("%");
    expect(&mut s, TokenType::Percent);
}

#[test]
fn scan_pipe() {
    let mut s = setup("|");
    expect(&mut s, TokenType::Pipe);
}

#[test]
fn scan_plus() {
    let mut s = setup("+");
    expect(&mut s, TokenType::Plus);
}

#[test]
fn scan_right_angle_bracket_x2() {
    let mut s = setup(">>");
    expect(&mut s, TokenType::RightAngleBracketX2);
}

#[test]
fn scan_right_paren() {
    let mut s = setup(")");
    expect(&mut s, TokenType::RightParen);
}

#[test]
fn scan_star() {
    let mut s = setup("*");
    expect(&mut s, TokenType::Star);
}

#[test]
fn scan_star_x2() {
    let mut s = setup("**");
    expect(&mut s, TokenType::StarX2);
}

#[test]
fn scan_increment_decrement() {
    let mut s = setup("++ --");
    expect(&mut s, TokenType::PlusX2);
    expect(&mut s, TokenType::MinusX2);
}

#[test]
fn scan_positions() {
    let mut s = setup("1 + 23\n");
    let t1 = s.next().expect("number");
    assert_eq!((t1.line, t1.column, t1.length), (1, 1, 1));
    let t2 = s.next().expect("plus");
    assert_eq!((t2.line, t2.column, t2.length), (1, 3, 1));
    let t3 = s.next().expect("number");
    assert_eq!((t3.line, t3.column, t3.length), (1, 5, 2));
    let t4 = s.next().expect("newline");
    assert_eq!(t4.token_type, TokenType::NewLine);
    assert!(s.next().is_none());
}

#[test]
fn scan_lone_angle_bracket_fails() {
    let mut s = setup("<");
    assert!(s.next().is_none());
}

#[test]
fn scan_unexpected_char_fails() {
    let mut s = setup("#");
    assert!(s.next().is_none());
}
