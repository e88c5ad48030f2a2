//! The parser: consumes tokens into an `Ast` by precedence climbing, with
//! one token of pushback, and interprets numeric literals in their radix.

use vstd::prelude::*;
use crate::ast::Assignment;
use crate::ast::Ast;
use crate::ast::Binary;
use crate::ast::BinaryOp;
use crate::ast::Call;
use crate::ast::Command;
use crate::ast::Expression;
use crate::ast::Literal;
use crate::ast::Statement;
use crate::ast::Unary;
use crate::ast::UnaryOp;
use crate::ast::Variable;
use crate::diag::Diag;
use crate::numeric::ONE_BITS;
use crate::numeric::dec_bits;
use crate::numeric::u64_to_bits;
use crate::numeric::bits_of_u64;
use crate::numeric::dec_of;
use crate::numeric::has_dec_digit;
use crate::scanning::Scanner;
use crate::scanning::str_chars;
use crate::scanning::clean_end;
use crate::scanning::scan_step;
use crate::scanning::ScanStep;
use crate::scanning::tokenize;
use crate::scanning::tokv;
use crate::scanning::Token;
use crate::scanning::TokenType;
use crate::scanning::TokV;
use crate::scanning::token_wf;

verus! {

/// The numeric value of one digit character, or 99 for a character that is
/// a digit in no radix up to 36.
pub open spec fn digit_val(c: char) -> nat {
    let u = c as u32;
    if ('0' as u32) <= u && u <= ('9' as u32) {
        (u - ('0' as u32)) as nat
    } else if ('a' as u32) <= u && u <= ('z' as u32) {
        (u - ('a' as u32) + 10) as nat
    } else if ('A' as u32) <= u && u <= ('Z' as u32) {
        (u - ('A' as u32) + 10) as nat
    } else {
        99
    }
}

/// The value of a digit string read in the given radix, or `None` if some
/// character is no digit of that radix.  The empty string has value zero
/// here; `parse_radix` rejects it separately.
pub open spec fn radix_fold(s: Seq<char>, radix: nat) -> Option<nat>
    decreases s.len(),
{
    if s.len() == 0 {
        Some(0)
    } else {
        match radix_fold(s.drop_last(), radix) {
            Some(v) => if digit_val(s.last()) < radix {
                Some(v * radix + digit_val(s.last()))
            } else {
                None
            },
            None => None,
        }
    }
}

fn digit_value(c: char) -> (r: u32)
    ensures
        r == digit_val(c),
{
    let u = c as u32;
    if 48 <= u && u <= 57 {
        u - 48
    } else if 97 <= u && u <= 122 {
        u - 97 + 10
    } else if 65 <= u && u <= 90 {
        u - 65 + 10
    } else {
        99
    }
}

/// Reads an unsigned 64-bit integer in the given radix, as
/// `u64::from_str_radix` does: every character must be a digit of the
/// radix, the empty string is rejected, and overflow is rejected.
fn parse_radix(digits: &Vec<char>, radix: u32) -> (r: Option<u64>)
    requires
        2 <= radix <= 36,
    ensures
        r matches Some(n) ==> digits@.len() > 0 && radix_fold(digits@, radix as nat) == Some(
            n as nat,
        ),
        r is None ==> digits@.len() == 0 || radix_fold(digits@, radix as nat) is None
            || (radix_fold(digits@, radix as nat) matches Some(v) && v > u64::MAX),
{
    if digits.len() == 0 {
        return None;
    }
    let mut val: u64 = 0;
    let mut i: usize = 0;
    while i < digits.len()
        invariant
            0 <= i <= digits@.len(),
            2 <= radix <= 36,
            radix_fold(digits@.take(i as int), radix as nat) == Some(val as nat),
        decreases digits@.len() - i,
    {
        let d = digit_value(digits[i]);
        if d >= radix {
            proof {
                lemma_radix_fold_invalid(digits@, radix as nat, i as int);
            }
            return None;
        }
        let next = match val.checked_mul(radix as u64) {
            Some(m) => m.checked_add(d as u64),
            None => None,
        };
        match next {
            Some(n) => {
                proof {
                    assert(digits@.take(i + 1).drop_last() =~= digits@.take(i as int));
                    assert(digits@.take(i + 1).last() == digits@[i as int]);
                }
                val = n;
                i = i + 1;
            },
            None => {
                proof {
                    lemma_radix_fold_overflow(digits@, radix as nat, i as int, val as nat);
                }
                return None;
            },
        }
    }
    proof {
        assert(digits@.take(digits@.len() as int) =~= digits@);
    }
    Some(val)
}

/// If some character of `s` is no digit of the radix, the whole string has
/// no value in that radix.
proof fn lemma_radix_fold_invalid(s: Seq<char>, radix: nat, i: int)
    requires
        0 <= i < s.len(),
        digit_val(s[i]) >= radix,
    ensures
        radix_fold(s, radix) is None,
    decreases s.len(),
{
    if s.len() > 0 {
        if i == s.len() - 1 {
        } else {
            lemma_radix_fold_invalid(s.drop_last(), radix, i);
        }
    }
}

/// The value of a digit string never shrinks as digits are appended, so a
/// prefix that already exceeds `u64::MAX` dooms the whole string.
proof fn lemma_radix_fold_overflow(s: Seq<char>, radix: nat, i: int, val: nat)
    requires
        2 <= radix,
        0 <= i < s.len(),
        radix_fold(s.take(i), radix) == Some(val),
        digit_val(s[i]) < radix,
        val * radix + digit_val(s[i]) > u64::MAX,
    ensures
        radix_fold(s, radix) is None || (radix_fold(s, radix) matches Some(v) && v > u64::MAX),
    decreases s.len() - i,
{
    let t = s.take(i + 1);
    assert(t.drop_last() =~= s.take(i));
    assert(t.last() == s[i]);
    let v1 = (val * radix + digit_val(s[i])) as nat;
    assert(radix_fold(t, radix) == Some(v1));
    if i + 1 == s.len() {
        assert(s.take(i + 1) =~= s);
    } else {
        lemma_radix_fold_grows(s, radix, i + 1, v1);
    }
}

/// From position `i` on, either some later digit is invalid or the final
/// value is at least the value of the prefix.
proof fn lemma_radix_fold_grows(s: Seq<char>, radix: nat, i: int, val: nat)
    requires
        2 <= radix,
        0 <= i <= s.len(),
        radix_fold(s.take(i), radix) == Some(val),
    ensures
        radix_fold(s, radix) is None || (radix_fold(s, radix) matches Some(v) && v >= val),
    decreases s.len() - i,
{
    if i == s.len() {
        assert(s.take(i) =~= s);
    } else {
        let t = s.take(i + 1);
        assert(t.drop_last() =~= s.take(i));
        assert(t.last() == s[i]);
        if digit_val(s[i]) < radix {
            let v1 = (val * radix + digit_val(s[i])) as nat;
            assert(val * radix >= val * 2) by (nonlinear_arith)
                requires
                    radix >= 2,
                    val >= 0,
            ;
            lemma_radix_fold_grows(s, radix, i + 1, v1);
        } else {
            lemma_radix_fold_none_extends(s, radix, i + 1);
        }
    }
}

/// Once a prefix has no value, no extension of it has one.
proof fn lemma_radix_fold_none_extends(s: Seq<char>, radix: nat, i: int)
    requires
        0 <= i <= s.len(),
        radix_fold(s.take(i), radix) is None,
    ensures
        radix_fold(s, radix) is None,
    decreases s.len() - i,
{
    if i == s.len() {
        assert(s.take(i) =~= s);
    } else {
        let t = s.take(i + 1);
        assert(t.drop_last() =~= s.take(i));
        lemma_radix_fold_none_extends(s, radix, i + 1);
    }
}

/// The operator table of one precedence level, as `Parser::level_op`
/// consults it; level 7 binds loosest.
pub open spec fn level_op_spec(level: u8, tt: TokenType) -> Option<BinaryOp> {
    if tt is Pipe && level == 7 {
        Some(BinaryOp::BitOr)
    } else if tt is Caret && level == 6 {
        Some(BinaryOp::BitXor)
    } else if tt is Ampersand && level == 5 {
        Some(BinaryOp::BitAnd)
    } else if tt is LeftAngleBracketX2 && level == 4 {
        Some(BinaryOp::LeftShift)
    } else if tt is RightAngleBracketX2 && level == 4 {
        Some(BinaryOp::RightShift)
    } else if tt is Plus && level == 3 {
        Some(BinaryOp::Plus)
    } else if tt is Minus && level == 3 {
        Some(BinaryOp::Minus)
    } else if tt is Star && level == 2 {
        Some(BinaryOp::Multiply)
    } else if tt is ForwardSlash && level == 2 {
        Some(BinaryOp::Divide)
    } else if tt is Percent && level == 2 {
        Some(BinaryOp::Modulo)
    } else if tt is StarX2 && level == 1 {
        Some(BinaryOp::Exponent)
    } else {
        None
    }
}

/// The binary operator a compound-assignment token folds in, as
/// `Parser::parse_assign` maps it.
pub open spec fn compound_op(tt: TokenType) -> Option<BinaryOp> {
    if tt is AmpersandEqual {
        Some(BinaryOp::BitAnd)
    } else if tt is CaretEqual {
        Some(BinaryOp::BitXor)
    } else if tt is ForwardSlashEqual {
        Some(BinaryOp::Divide)
    } else if tt is LeftAngleBracketX2Equal {
        Some(BinaryOp::LeftShift)
    } else if tt is MinusEqual {
        Some(BinaryOp::Minus)
    } else if tt is PercentEqual {
        Some(BinaryOp::Modulo)
    } else if tt is PipeEqual {
        Some(BinaryOp::BitOr)
    } else if tt is PlusEqual {
        Some(BinaryOp::Plus)
    } else if tt is RightAngleBracketX2Equal {
        Some(BinaryOp::RightShift)
    } else if tt is StarEqual {
        Some(BinaryOp::Multiply)
    } else if tt is StarX2Equal {
        Some(BinaryOp::Exponent)
    } else {
        None
    }
}

/// Whether a token is the `exit` or `quit` command word.
pub open spec fn tok_is_exit(tv: TokV) -> bool {
    tv matches TokV::Ident(text) && (text == "exit"@ || text == "quit"@)
}

/// Whether a token is the `delete` statement word.
pub open spec fn tok_is_delete(tv: TokV) -> bool {
    tv matches TokV::Ident(text) && text == "delete"@
}

/// The representation of the double a number token denotes, or `None`
/// when the parser rejects the numeral: a prefixed literal is an unsigned
/// 64-bit integer in its radix converted to the nearest double, anything
/// else is a correctly rounded decimal.
pub open spec fn lit_value(tv: TokV) -> Option<u64> {
    match tv {
        TokV::Num(text, pfx) => {
            if pfx == "0b"@ {
                radix_value(text, 2)
            } else if pfx == "0o"@ {
                radix_value(text, 8)
            } else if pfx == "0x"@ {
                radix_value(text, 16)
            } else if has_dec_digit(text) {
                Some(dec_of(text))
            } else {
                None
            }
        },
        _ => None,
    }
}

/// See `lit_value`.
pub open spec fn radix_value(text: Seq<char>, radix: nat) -> Option<u64> {
    if text.len() > 0 && (radix_fold(text, radix) matches Some(v) && v <= u64::MAX) {
        Some(bits_of_u64(radix_fold(text, radix)->0 as u64))
    } else {
        None
    }
}


/// The shape of an expression, with names and digits as character
/// sequences: what the grammar determines, free of the text's `String`
/// allocations.
pub enum ExprV {
    Lit(u64),
    Var(Seq<char>),
    Un(UnaryOp, Box<ExprV>),
    Bin(BinaryOp, Box<ExprV>, Box<ExprV>),
    Asg(Seq<char>, Box<ExprV>),
    CallV(Seq<char>, Seq<ExprV>),
}

/// The shape of a whole line.
pub enum AstV {
    Cmd(Command),
    Del(Seq<char>),
    Expr(ExprV),
}

/// The shape of an expression node.
pub open spec fn expr_v(e: Expression) -> ExprV
    decreases e,
{
    match e {
        Expression::Literal(lit) => match lit {
            Literal::Number(n) => ExprV::Lit(n),
        },
        Expression::Variable(v) => ExprV::Var(v.name@),
        Expression::Unary(u) => ExprV::Un(u.op, Box::new(expr_v(*u.right))),
        Expression::Binary(b) => ExprV::Bin(
            b.op,
            Box::new(expr_v(*b.left)),
            Box::new(expr_v(*b.right)),
        ),
        Expression::Assignment(a) => ExprV::Asg(a.var.name@, Box::new(expr_v(*a.right))),
        Expression::Call(c) => ExprV::CallV(
            c.name@,
            Seq::new(
                c.params@.len(),
                |i: int|
                    if 0 <= i < c.params@.len() {
                        expr_v(c.params@[i])
                    } else {
                        ExprV::Lit(0)
                    },
            ),
        ),
    }
}

/// The shape of a parsed line.
pub open spec fn ast_v(a: Ast) -> AstV {
    match a {
        Ast::Command(c) => AstV::Cmd(c),
        Ast::Statement(st) => match st {
            Statement::DeleteVar(v) => AstV::Del(v.name@),
        },
        Ast::Expression(e) => AstV::Expr(expr_v(e)),
    }
}

/// The shapes of a parameter list, elementwise.
pub open spec fn exprs_v(s: Seq<Expression>) -> Seq<ExprV> {
    Seq::new(
        s.len(),
        |i: int|
            if 0 <= i < s.len() {
                expr_v(s[i])
            } else {
                ExprV::Lit(0)
            },
    )
}

/// The shape of a call node is its name with its parameters' shapes.
pub proof fn lemma_call_view(c: Call)
    ensures
        expr_v(Expression::Call(c)) == ExprV::CallV(c.name@, exprs_v(c.params@)),
{
    let v = expr_v(Expression::Call(c));
    assert(v is CallV && v->CallV_0 == c.name@);
    assert(v->CallV_1 =~= exprs_v(c.params@));
}

/// ---- the grammar, as one specification parser over token views ----
///
/// Each function mirrors one parser routine: it maps the tokens still to
/// be consumed to the node produced (as a shape, `ExprV`) and the tokens
/// left over.  `parse` is proved against `p_ast` below, so these
/// functions are the contract of the whole grammar: precedence levels,
/// left-associative folding, right-binding assignment, grouping, call
/// syntax, and the trailing-input rules.  The `len` guards on recursive
/// calls only discharge termination; each guard provably holds whenever
/// the function is reached from `p_ast`.

/// A primary expression: a literal, a variable, a call, or a
/// parenthesized expression.
pub open spec fn p_primary(ts: Seq<TokV>) -> (Option<ExprV>, Seq<TokV>)
    decreases ts.len(), 1int,
{
    if ts.len() == 0 {
        (None, ts)
    } else {
        match ts[0] {
            TokV::Num(text, pfx) => match lit_value(ts[0]) {
                Some(v) => (Some(ExprV::Lit(v)), ts.skip(1)),
                None => (None, ts.skip(1)),
            },
            TokV::Ident(name) => {
                if ts.len() > 1 && ts[1] == TokV::Simple(TokenType::LeftParen) {
                    p_call(name, ts.skip(2))
                } else {
                    (Some(ExprV::Var(name)), ts.skip(1))
                }
            },
            TokV::Simple(tt) => {
                if tt == TokenType::LeftParen {
                    let inner = p_expr(ts.skip(1));
                    if inner.1.len() > 0 && inner.1[0] == TokV::Simple(TokenType::RightParen) {
                        (inner.0, inner.1.skip(1))
                    } else if inner.1.len() > 0 {
                        (None, inner.1.skip(1))
                    } else {
                        (None, inner.1)
                    }
                } else {
                    (None, ts.skip(1))
                }
            },
        }
    }
}

/// A call's parameter list, after the opening parenthesis.
pub open spec fn p_call(name: Seq<char>, ts: Seq<TokV>) -> (Option<ExprV>, Seq<TokV>)
    decreases ts.len(), 14int,
{
    if ts.len() == 0 {
        (None, ts)
    } else if ts[0] == TokV::Simple(TokenType::RightParen) {
        (Some(ExprV::CallV(name, Seq::empty())), ts.skip(1))
    } else {
        p_call_params(name, Seq::empty(), ts)
    }
}

/// See `p_call`: the remaining parameters, with those already parsed.
pub open spec fn p_call_params(name: Seq<char>, acc: Seq<ExprV>, ts: Seq<TokV>) -> (
    Option<ExprV>,
    Seq<TokV>,
)
    decreases ts.len(), 13int,
{
    let e = p_expr(ts);
    match e.0 {
        None => (None, e.1),
        Some(param) => {
            let ts2 = e.1;
            if ts2.len() == 0 {
                (None, ts2)
            } else if ts2[0] == TokV::Simple(TokenType::RightParen) {
                (Some(ExprV::CallV(name, acc.push(param))), ts2.skip(1))
            } else {
                if ts2.len() < ts.len() {
                    p_call_params(name, acc.push(param), ts2)
                } else {
                    (None, ts2)
                }
            }
        },
    }
}

/// A unary expression: negation and complement bind tighter than any
/// binary operator and nest.
pub open spec fn p_unary(ts: Seq<TokV>) -> (Option<ExprV>, Seq<TokV>)
    decreases ts.len(), 2int,
{
    if ts.len() == 0 {
        (None, ts)
    } else if ts[0] == TokV::Simple(TokenType::Minus) || ts[0] == TokV::Simple(TokenType::Bang) {
        let op = if ts[0] == TokV::Simple(TokenType::Minus) {
            UnaryOp::Negate
        } else {
            UnaryOp::Not
        };
        let inner = p_unary(ts.skip(1));
        match inner.0 {
            Some(e) => (Some(ExprV::Un(op, Box::new(e))), inner.1),
            None => (None, inner.1),
        }
    } else {
        p_primary(ts)
    }
}

/// One precedence level: the tighter level, then operators of this level.
pub open spec fn p_binary(ts: Seq<TokV>, level: u8) -> (Option<ExprV>, Seq<TokV>)
    decreases ts.len(), 3int + level,
{
    let first = if level <= 1 {
        p_unary(ts)
    } else {
        p_binary(ts, (level - 1) as u8)
    };
    match first.0 {
        None => (None, first.1),
        Some(e) => {
            if first.1.len() < ts.len() {
                p_binloop(first.1, level, e)
            } else {
                (Some(e), first.1)
            }
        },
    }
}

/// See `p_binary`: fold further operators of this level onto `acc`,
/// left-associatively; a right-hand side that fails to parse ends the
/// fold, keeping the expression built so far.
pub open spec fn p_binloop(ts: Seq<TokV>, level: u8, acc: ExprV) -> (Option<ExprV>, Seq<TokV>)
    decreases ts.len(), 3int + level,
{
    if ts.len() == 0 {
        (Some(acc), ts)
    } else {
        match ts[0] {
            TokV::Simple(tt) => match level_op_spec(level, tt) {
                Some(op) => {
                    let rhs = if level <= 1 {
                        p_unary(ts.skip(1))
                    } else {
                        p_binary(ts.skip(1), (level - 1) as u8)
                    };
                    match rhs.0 {
                        None => (Some(acc), rhs.1),
                        Some(r) => {
                            let acc2 = ExprV::Bin(op, Box::new(acc), Box::new(r));
                            if rhs.1.len() < ts.len() {
                                p_binloop(rhs.1, level, acc2)
                            } else {
                                (Some(acc2), rhs.1)
                            }
                        },
                    }
                },
                None => (Some(acc), ts),
            },
            _ => (Some(acc), ts),
        }
    }
}

/// An assignment, recognized after the fact: only a bare variable can be
/// a target, the right side is parsed recursively (so `=` binds right),
/// compound operators fold the old value in, and increment and decrement
/// synthesize a literal one.
pub open spec fn p_assign(ts: Seq<TokV>) -> (Option<ExprV>, Seq<TokV>)
    decreases ts.len(), 11int,
{
    let e = p_binary(ts, 7);
    match e.0 {
        Some(ev) => match ev {
            ExprV::Var(name) => {
                let ts2 = e.1;
                if ts2.len() == 0 {
                    (Some(ExprV::Var(name)), ts2)
                } else {
                    match ts2[0] {
                        TokV::Simple(tt) => {
                            if tt == TokenType::Equal {
                                let rhs = if ts2.skip(1).len() < ts.len() {
                                    p_assign(ts2.skip(1))
                                } else {
                                    (None, ts2.skip(1))
                                };
                                match rhs.0 {
                                    None => (None, rhs.1),
                                    Some(r) => (
                                        Some(ExprV::Asg(name, Box::new(r))),
                                        rhs.1,
                                    ),
                                }
                            } else if compound_op(tt) is Some {
                                let rhs = if ts2.skip(1).len() < ts.len() {
                                    p_assign(ts2.skip(1))
                                } else {
                                    (None, ts2.skip(1))
                                };
                                match rhs.0 {
                                    None => (None, rhs.1),
                                    Some(r) => (
                                        Some(
                                            ExprV::Asg(
                                                name,
                                                Box::new(
                                                    ExprV::Bin(
                                                        compound_op(tt)->0,
                                                        Box::new(ExprV::Var(name)),
                                                        Box::new(r),
                                                    ),
                                                ),
                                            ),
                                        ),
                                        rhs.1,
                                    ),
                                }
                            } else if tt == TokenType::PlusX2 || tt == TokenType::MinusX2 {
                                let op = if tt == TokenType::PlusX2 {
                                    BinaryOp::Plus
                                } else {
                                    BinaryOp::Minus
                                };
                                (
                                    Some(
                                        ExprV::Asg(
                                            name,
                                            Box::new(
                                                ExprV::Bin(
                                                    op,
                                                    Box::new(ExprV::Var(name)),
                                                    Box::new(ExprV::Lit(ONE_BITS)),
                                                ),
                                            ),
                                        ),
                                    ),
                                    ts2.skip(1),
                                )
                            } else {
                                (Some(ExprV::Var(name)), ts2)
                            }
                        },
                        _ => (Some(ExprV::Var(name)), ts2),
                    }
                }
            },
            _ => (Some(ev), e.1),
        },
        None => (None, e.1),
    }
}

/// A full expression is an assignment-level parse.
pub open spec fn p_expr(ts: Seq<TokV>) -> (Option<ExprV>, Seq<TokV>)
    decreases ts.len(), 12int,
{
    p_assign(ts)
}

/// A lone `exit` or `quit` word.
pub open spec fn p_command(ts: Seq<TokV>) -> (Option<Command>, Seq<TokV>) {
    if ts.len() > 0 && tok_is_exit(ts[0]) {
        (Some(Command::Exit), ts.skip(1))
    } else {
        (None, ts)
    }
}

/// A `delete <identifier>` statement; the name of the deleted variable.
pub open spec fn p_statement(ts: Seq<TokV>) -> (Option<Seq<char>>, Seq<TokV>) {
    if ts.len() > 0 && tok_is_delete(ts[0]) {
        if ts.len() == 1 {
            (None, ts.skip(1))
        } else if ts[1] is Ident {
            (Some(ts[1]->Ident_0), ts.skip(2))
        } else {
            (None, ts)
        }
    } else {
        (None, ts)
    }
}

/// One logical line: a command, a statement or an expression, which must
/// be followed by a newline token or the end of the input; any other
/// trailing token fails the whole line.
pub open spec fn p_ast(ts: Seq<TokV>) -> Option<AstV>
    decreases ts.len(), 15int,
{
    let c = p_command(ts);
    let parsed: (Option<AstV>, Seq<TokV>) = if c.0 is Some {
        (Some(AstV::Cmd(c.0->0)), c.1)
    } else {
        let st = p_statement(c.1);
        if st.0 is Some {
            (Some(AstV::Del(st.0->0)), st.1)
        } else {
            let e = p_expr(st.1);
            (
                match e.0 {
                    Some(ev) => Some(AstV::Expr(ev)),
                    None => None,
                },
                e.1,
            )
        }
    };
    if parsed.1.len() == 0 {
        parsed.0
    } else if parsed.1[0] == TokV::Simple(TokenType::NewLine) {
        parsed.0
    } else {
        None
    }
}

/// Bounds of the specification parser: no function hands back more
/// tokens than it was given, and every produced node consumed at least
/// one token (the binary fold alone may return its accumulator without
/// consuming).  These facts discharge the `len` guards above.
pub proof fn lemma_primary_bounds(ts: Seq<TokV>)
    ensures
        p_primary(ts).1.len() <= ts.len(),
        p_primary(ts).0 is Some ==> p_primary(ts).1.len() < ts.len(),
    decreases ts.len(), 1int,
{
    if ts.len() > 0 {
        match ts[0] {
            TokV::Num(_, _) => {
            },
            TokV::Ident(name) => {
                if ts.len() > 1 && ts[1] == TokV::Simple(TokenType::LeftParen) {
                    lemma_call_bounds(name, ts.skip(2));
                }
            },
            TokV::Simple(tt) => {
                if tt == TokenType::LeftParen {
                    lemma_expr_bounds(ts.skip(1));
                }
            },
        }
    }
}

/// See `lemma_primary_bounds`.
pub proof fn lemma_call_bounds(name: Seq<char>, ts: Seq<TokV>)
    ensures
        p_call(name, ts).1.len() <= ts.len(),
        p_call(name, ts).0 is Some ==> p_call(name, ts).1.len() < ts.len(),
    decreases ts.len(), 14int,
{
    if ts.len() > 0 && ts[0] != TokV::Simple(TokenType::RightParen) {
        lemma_call_params_bounds(name, Seq::empty(), ts);
    }
}

/// See `lemma_primary_bounds`.
pub proof fn lemma_call_params_bounds(name: Seq<char>, acc: Seq<ExprV>, ts: Seq<TokV>)
    ensures
        p_call_params(name, acc, ts).1.len() <= ts.len(),
        p_call_params(name, acc, ts).0 is Some ==> p_call_params(name, acc, ts).1.len()
            < ts.len(),
    decreases ts.len(), 13int,
{
    lemma_expr_bounds(ts);
    let e = p_expr(ts);
    match e.0 {
        None => {
        },
        Some(_) => {
            let ts2 = e.1;
            if ts2.len() > 0 && ts2[0] != TokV::Simple(TokenType::RightParen) {
                if ts2.len() < ts.len() {
                    lemma_call_params_bounds(name, acc.push(e.0->0), ts2);
                }
            }
        },
    }
}

/// See `lemma_primary_bounds`.
pub proof fn lemma_unary_bounds(ts: Seq<TokV>)
    ensures
        p_unary(ts).1.len() <= ts.len(),
        p_unary(ts).0 is Some ==> p_unary(ts).1.len() < ts.len(),
    decreases ts.len(), 2int,
{
    if ts.len() == 0 {
    } else if ts[0] == TokV::Simple(TokenType::Minus) || ts[0] == TokV::Simple(TokenType::Bang) {
        lemma_unary_bounds(ts.skip(1));
    } else {
        lemma_primary_bounds(ts);
    }
}

/// See `lemma_primary_bounds`.
pub proof fn lemma_binary_bounds(ts: Seq<TokV>, level: u8)
    ensures
        p_binary(ts, level).1.len() <= ts.len(),
        p_binary(ts, level).0 is Some ==> p_binary(ts, level).1.len() < ts.len(),
    decreases ts.len(), 3int + level,
{
    if level <= 1 {
        lemma_unary_bounds(ts);
    } else {
        lemma_binary_bounds(ts, (level - 1) as u8);
    }
    let first = if level <= 1 {
        p_unary(ts)
    } else {
        p_binary(ts, (level - 1) as u8)
    };
    if first.0 is Some && first.1.len() < ts.len() {
        lemma_binloop_bounds(first.1, level, first.0->0);
    }
}

/// See `lemma_primary_bounds`; the fold may return without consuming.
pub proof fn lemma_binloop_bounds(ts: Seq<TokV>, level: u8, acc: ExprV)
    ensures
        p_binloop(ts, level, acc).1.len() <= ts.len(),
    decreases ts.len(), 3int + level,
{
    if ts.len() > 0 {
        match ts[0] {
            TokV::Simple(tt) => match level_op_spec(level, tt) {
                Some(op) => {
                    if level <= 1 {
                        lemma_unary_bounds(ts.skip(1));
                    } else {
                        lemma_binary_bounds(ts.skip(1), (level - 1) as u8);
                    }
                    let rhs = if level <= 1 {
                        p_unary(ts.skip(1))
                    } else {
                        p_binary(ts.skip(1), (level - 1) as u8)
                    };
                    match rhs.0 {
                        None => {
                        },
                        Some(r) => {
                            if rhs.1.len() < ts.len() {
                                lemma_binloop_bounds(
                                    rhs.1,
                                    level,
                                    ExprV::Bin(op, Box::new(acc), Box::new(r)),
                                );
                            }
                        },
                    }
                },
                None => {
                },
            },
            _ => {
            },
        }
    }
}

/// See `lemma_primary_bounds`.
pub proof fn lemma_assign_bounds(ts: Seq<TokV>)
    ensures
        p_assign(ts).1.len() <= ts.len(),
        p_assign(ts).0 is Some ==> p_assign(ts).1.len() < ts.len(),
    decreases ts.len(), 11int,
{
    lemma_binary_bounds(ts, 7);
    let e = p_binary(ts, 7);
    match e.0 {
        Some(ev) => match ev {
            ExprV::Var(name) => {
                let ts2 = e.1;
                if ts2.len() > 0 {
                    match ts2[0] {
                        TokV::Simple(tt) => {
                            if tt == TokenType::Equal || compound_op(tt) is Some {
                                if ts2.skip(1).len() < ts.len() {
                                    lemma_assign_bounds(ts2.skip(1));
                                }
                            }
                        },
                        _ => {
                        },
                    }
                }
            },
            _ => {
            },
        },
        None => {
        },
    }
}

/// See `lemma_primary_bounds`.
pub proof fn lemma_expr_bounds(ts: Seq<TokV>)
    ensures
        p_expr(ts).1.len() <= ts.len(),
        p_expr(ts).0 is Some ==> p_expr(ts).1.len() < ts.len(),
    decreases ts.len(), 12int,
{
    lemma_assign_bounds(ts);
}

struct Parser {
    scanner: Scanner,
    buf: Vec<Token>,
    diags: Vec<Diag>,
}

impl Parser {
    /// Tokens buffered for pushback plus characters the scanner has not
    /// consumed: shrinks with every token taken and never grows across a
    /// parsing step.
    pub closed spec fn measure(&self) -> nat {
        self.buf@.len() + self.scanner.measure()
    }

    /// Every buffered token satisfies the scanner's guarantee.
    pub closed spec fn wf(&self) -> bool {
        forall|i: int| 0 <= i < self.buf@.len() ==> token_wf(#[trigger] self.buf@[i])
    }

    /// The tokens still to be consumed: pushed-back tokens first (most
    /// recent first), then whatever the scanner makes of the unconsumed
    /// characters.
    pub closed spec fn token_stream(&self) -> Seq<TokV> {
        self.buf@.map_values(|t: Token| tokv(t.token_type)).reverse() + tokenize(
            self.scanner.pending(),
        )
    }

    /// Whether the unconsumed characters scan to the end of the input
    /// without a scan failure.
    pub closed spec fn clean(&self) -> bool {
        clean_end(self.scanner.pending())
    }

    /// How many diagnostics have been recorded, counting those still held
    /// by the scanner.
    pub closed spec fn diags_n(&self) -> nat {
        self.diags@.len() + self.scanner.diag_count()
    }

    fn new(input: &str) -> (p: Parser)
        ensures
            p.wf(),
            p.token_stream() == tokenize(input@),
            p.clean() == clean_end(input@),
    {
        let p = Parser { scanner: Scanner::new(input), buf: Vec::new(), diags: Vec::new() }

        ;
        proof {
            assert(p.buf@.map_values(|t: Token| tokv(t.token_type)).reverse() =~= Seq::<
                TokV,
            >::empty());
            assert(p.token_stream() =~= tokenize(input@));
        }
        p
    }

    fn unexpected_token(&mut self, found: &Token)
        requires
            old(self).wf(),
        ensures
            final(self).diags_n() >= old(self).diags_n(),
            final(self).diags_n() > old(self).diags_n(),
            final(self).wf(),
            final(self).measure() == old(self).measure(),
            final(self).token_stream() == old(self).token_stream(),
            final(self).clean() == old(self).clean(),
    {
        let d = Diag::UnexpectedToken {
            token_type: found.token_type.clone(),
            line: found.line,
            column: found.column,
        };
        self.diags.push(d);
    }

    fn get_token(&mut self) -> (r: Option<Token>)
        requires
            old(self).wf(),
        ensures
            final(self).diags_n() >= old(self).diags_n(),
            final(self).wf(),
            r matches Some(t) ==> token_wf(t) && final(self).measure() < old(self).measure(),
            r is None ==> final(self).measure() <= old(self).measure(),
            r matches Some(t) ==> old(self).token_stream().len() > 0 && tokv(t.token_type)
                == old(self).token_stream()[0] && final(self).token_stream() == old(self).token_stream().skip(1),
            r is None ==> old(self).token_stream().len() == 0,
            (r is None && old(self).clean()) ==> final(self).token_stream().len() == 0 && final(self).clean(),
            r is Some ==> final(self).clean() == old(self).clean(),
    {
        if self.buf.len() == 0 {
            let ghost p = self.scanner.pending();
            proof {
                assert(self.buf@.map_values(|t: Token| tokv(t.token_type)).reverse()
                    =~= Seq::<TokV>::empty());
                assert(old(self).token_stream() =~= tokenize(p));
            }
            let r = self.scanner.next();
            proof {
                old(self).scanner.lemma_pending_measure();
                self.scanner.lemma_pending_measure();
                match scan_step(p) {
                    ScanStep::Op(_tt, rest) => {
                        assert(rest.len() < p.len());
                        assert(tokenize(p).skip(1) =~= tokenize(rest));
                    },
                    ScanStep::Num(_t, _f, rest) => {
                        assert(rest.len() < p.len());
                        assert(tokenize(p).skip(1) =~= tokenize(rest));
                    },
                    ScanStep::Ident(_t, rest) => {
                        assert(rest.len() < p.len());
                        assert(tokenize(p).skip(1) =~= tokenize(rest));
                    },
                    ScanStep::End => {
                    },
                    ScanStep::Fail(_rest) => {
                    },
                }
            }
            let mut scan_diags = self.scanner.take_diags();
            self.diags.append(&mut scan_diags);
            r
        } else {
            let ghost bm = self.buf@.map_values(|t: Token| tokv(t.token_type));
            let ghost ts0 = old(self).token_stream();
            let r = self.buf.pop();
            proof {
                assert(bm.len() > 0);
                assert(bm.reverse()[0] == bm.last());
                assert(self.buf@.map_values(|t: Token| tokv(t.token_type)) =~= bm.drop_last());
                assert(bm.drop_last().reverse() =~= bm.reverse().skip(1));
                assert(ts0.skip(1) =~= bm.reverse().skip(1) + tokenize(self.scanner.pending()));
                assert(ts0[0] == bm.reverse()[0]);
            }
            r
        }
    }

    fn put_token(&mut self, t: Token)
        requires
            old(self).wf(),
            token_wf(t),
        ensures
            final(self).diags_n() >= old(self).diags_n(),
            final(self).wf(),
            final(self).measure() == old(self).measure() + 1,
            final(self).token_stream() == seq![tokv(t.token_type)] + old(self).token_stream(),
            final(self).clean() == old(self).clean(),
    {
        let ghost bm = self.buf@.map_values(|tok: Token| tokv(tok.token_type));
        self.buf.push(t);
        proof {
            assert(self.buf@.map_values(|tok: Token| tokv(tok.token_type)) =~= bm.push(
                tokv(t.token_type),
            ));
            assert(bm.push(tokv(t.token_type)).reverse() =~= seq![tokv(t.token_type)]
                + bm.reverse());
            assert(final(self).token_stream() =~= seq![tokv(t.token_type)] + old(self).token_stream());
        }
    }

    fn expect_token(&mut self) -> (r: Option<Token>)
        requires
            old(self).wf(),
        ensures
            final(self).diags_n() >= old(self).diags_n(),
            r is None ==> final(self).diags_n() > old(self).diags_n(),
            final(self).wf(),
            r matches Some(t) ==> token_wf(t) && final(self).measure() < old(self).measure(),
            r is None ==> final(self).measure() <= old(self).measure(),
            r matches Some(t) ==> old(self).token_stream().len() > 0 && tokv(t.token_type)
                == old(self).token_stream()[0] && final(self).token_stream() == old(self).token_stream().skip(1),
            r is None ==> old(self).token_stream().len() == 0,
            (r is None && old(self).clean()) ==> final(self).token_stream().len() == 0 && final(self).clean(),
            r is Some ==> final(self).clean() == old(self).clean(),
    {
        match self.get_token() {
            Some(t) => Some(t),
            None => {
                self.diags.push(Diag::UnexpectedEndOfTokens);
                None
            },
        }
    }

    /// A logical line must end in a newline token or the end of the input.
    fn expect_terminal(&mut self) -> (r: bool)
        requires
            old(self).wf(),
        ensures
            final(self).diags_n() >= old(self).diags_n(),
            !r ==> final(self).diags_n() > old(self).diags_n(),
            final(self).wf(),
            final(self).measure() <= old(self).measure(),
            (old(self).clean() && old(self).token_stream().len() == 0) ==> r,
            old(self).token_stream().len() > 0 ==> (r <==> old(self).token_stream()[0]
                == TokV::Simple(TokenType::NewLine)),
            old(self).token_stream().len() > 0 ==> final(self).token_stream() == old(
                self,
            ).token_stream().skip(1) && final(self).clean() == old(self).clean(),
    {
        let t = match self.get_token() {
            None => {
                return true;
            },
            Some(t) => t,
        };

        match t.token_type {
            TokenType::NewLine => true,
            _ => {
                self.unexpected_token(&t);
                false
            },
        }
    }

    fn parse_ast(&mut self) -> (r: Option<Ast>)
        requires
            old(self).wf(),
        ensures
            final(self).diags_n() >= old(self).diags_n(),
            r is None ==> final(self).diags_n() > old(self).diags_n(),
            final(self).wf(),
            final(self).measure() <= old(self).measure(),
            old(self).clean() ==> ({
                let a = p_ast(old(self).token_stream());
                &&& (r is Some <==> a is Some)
                &&& (r matches Some(ast) ==> ast_v(ast) == a->0)
            }),
        decreases old(self).measure(), 15int,
    {
        let ast = if let Some(cmd) = self.parse_command() {
            Some(Ast::Command(cmd))
        } else if let Some(stmt) = self.parse_statement() {
            Some(Ast::Statement(stmt))
        } else if let Some(expr) = self.parse_expression() {
            Some(Ast::Expression(expr))
        } else {
            None
        };

        if !self.expect_terminal() {
            return None;
        }

        ast
    }

    fn parse_command(&mut self) -> (r: Option<Command>)
        requires
            old(self).wf(),
        ensures
            final(self).diags_n() >= old(self).diags_n(),
            final(self).wf(),
            final(self).measure() <= old(self).measure(),
            r is Some ==> final(self).measure() < old(self).measure(),
            old(self).clean() ==> ({
                let t = p_command(old(self).token_stream());
                &&& r == t.0
                &&& final(self).token_stream() == t.1
                &&& final(self).clean()
            }),
            (r is None && old(self).token_stream().len() > 0) ==> final(self).token_stream()
                == old(self).token_stream() && final(self).clean() == old(self).clean(),
        decreases old(self).measure(), 13int,
    {
        let ghost ts0 = old(self).token_stream();
        let t = match self.get_token() {
            None => {
                return None;
            },
            Some(t) => t,
        };

        let is_exit = match &t.token_type {
            TokenType::Identifier { str } => {
                let exit_word = "exit".to_owned();
                let quit_word = "quit".to_owned();
                *str == exit_word || *str == quit_word
            },
            _ => false,
        };

        if is_exit {
            return Some(Command::Exit);
        }

        self.put_token(t);
        proof {
            assert(seq![ts0[0]] + ts0.skip(1) =~= ts0);
        }

        None
    }

    fn parse_statement(&mut self) -> (r: Option<Statement>)
        requires
            old(self).wf(),
        ensures
            final(self).diags_n() >= old(self).diags_n(),
            final(self).wf(),
            final(self).measure() <= old(self).measure(),
            r is Some ==> final(self).measure() < old(self).measure(),
            old(self).clean() ==> ({
                let t = p_statement(old(self).token_stream());
                &&& (r is Some <==> t.0 is Some)
                &&& (r matches Some(st) ==> (st matches Statement::DeleteVar(v) && v.name@
                    == t.0->0))
                &&& final(self).token_stream() == t.1
                &&& final(self).clean()
            }),
        decreases old(self).measure(), 14int,
    {
        let ghost ts0 = old(self).token_stream();
        let t = match self.get_token() {
            None => {
                return None;
            },
            Some(t) => t,
        };
        proof {
            if ts0.len() > 1 {
                assert(ts0.skip(1)[0] == ts0[1]);
                assert(ts0.skip(1).skip(1) =~= ts0.skip(2));
            }
        }

        let is_delete = match &t.token_type {
            TokenType::Identifier { str } => {
                let delete_word = "delete".to_owned();
                *str == delete_word
            },
            _ => false,
        };

        if is_delete {
            let tvar = match self.expect_token() {
                None => {
                    proof {
                        if old(self).clean() {
                            assert(self.token_stream() =~= ts0.skip(1));
                        }
                    }
                    return None;
                },
                Some(tvar) => tvar,
            };
            match tvar.token_type {
                TokenType::Identifier { str } => {
                    return Some(Statement::DeleteVar(Variable { name: str }));
                },
                tt => {
                    self.put_token(Token { token_type: tt, line: tvar.line, column: tvar.column, length: tvar.length });
                    proof {
                        assert(seq![ts0.skip(1)[0]] + ts0.skip(1).skip(1) =~= ts0.skip(1));
                    }
                },
            }
        }

        self.put_token(t);
        proof {
            assert(seq![ts0[0]] + ts0.skip(1) =~= ts0);
        }

        None
    }

    fn parse_expression(&mut self) -> (r: Option<Expression>)
        requires
            old(self).wf(),
        ensures
            final(self).diags_n() >= old(self).diags_n(),
            r is None ==> final(self).diags_n() > old(self).diags_n(),
            final(self).wf(),
            final(self).measure() <= old(self).measure(),
            r is Some ==> final(self).measure() < old(self).measure(),
            old(self).clean() ==> ({
                let t = p_expr(old(self).token_stream());
                &&& (r is Some <==> t.0 is Some)
                &&& (r matches Some(e) ==> expr_v(e) == t.0->0)
                &&& final(self).token_stream() == t.1
                &&& final(self).clean()
            }),
        decreases old(self).measure(), 12int,
    {
        self.parse_assign()
    }

    #[verifier::rlimit(80)]
    #[verifier::spinoff_prover]
    fn parse_assign(&mut self) -> (r: Option<Expression>)
        requires
            old(self).wf(),
        ensures
            final(self).diags_n() >= old(self).diags_n(),
            r is None ==> final(self).diags_n() > old(self).diags_n(),
            final(self).wf(),
            final(self).measure() <= old(self).measure(),
            r is Some ==> final(self).measure() < old(self).measure(),
            old(self).clean() ==> ({
                let t = p_assign(old(self).token_stream());
                &&& (r is Some <==> t.0 is Some)
                &&& (r matches Some(e) ==> expr_v(e) == t.0->0)
                &&& final(self).token_stream() == t.1
                &&& final(self).clean()
            }),
        decreases old(self).measure(), 11int,
    {
        let ghost ts0 = old(self).token_stream();
        let ghost cl0 = old(self).clean();

        // parse expression
        let expr = self.parse_bitor();
        proof {
            if cl0 {
                lemma_binary_bounds(ts0, 7);
            }
        }

        // check if it was a variable
        let var = match expr {
            Some(Expression::Variable(var)) => var,
            _ => {
                return expr;
            },
        };
        let ghost ts1 = self.token_stream();

        // check if the next token is an assignment operator
        let op_opt: Option<BinaryOp>;
        let mut right_opt: Option<Expression> = None;
        match self.get_token() {
            Some(t) => {
                match t.token_type {
                    TokenType::AmpersandEqual => {
                        op_opt = Some(BinaryOp::BitAnd);
                    },
                    TokenType::CaretEqual => {
                        op_opt = Some(BinaryOp::BitXor);
                    },
                    TokenType::Equal => {
                        op_opt = None;
                    },
                    TokenType::ForwardSlashEqual => {
                        op_opt = Some(BinaryOp::Divide);
                    },
                    TokenType::LeftAngleBracketX2Equal => {
                        op_opt = Some(BinaryOp::LeftShift);
                    },
                    TokenType::MinusEqual => {
                        op_opt = Some(BinaryOp::Minus);
                    },
                    TokenType::MinusX2 => {
                        op_opt = Some(BinaryOp::Minus);
                        right_opt = Some(Expression::Literal(Literal::Number(ONE_BITS)));
                    },
                    TokenType::PercentEqual => {
                        op_opt = Some(BinaryOp::Modulo);
                    },
                    TokenType::PipeEqual => {
                        op_opt = Some(BinaryOp::BitOr);
                    },
                    TokenType::PlusEqual => {
                        op_opt = Some(BinaryOp::Plus);
                    },
                    TokenType::PlusX2 => {
                        op_opt = Some(BinaryOp::Plus);
                        right_opt = Some(Expression::Literal(Literal::Number(ONE_BITS)));
                    },
                    TokenType::RightAngleBracketX2Equal => {
                        op_opt = Some(BinaryOp::RightShift);
                    },
                    TokenType::StarEqual => {
                        op_opt = Some(BinaryOp::Multiply);
                    },
                    TokenType::StarX2Equal => {
                        op_opt = Some(BinaryOp::Exponent);
                    },
                    tt => {
                        self.put_token(Token { token_type: tt, line: t.line, column: t.column, length: t.length });
                        proof {
                            assert(seq![ts1[0]] + ts1.skip(1) =~= ts1);
                        }
                        return Some(Expression::Variable(var));
                    },
                }
            },
            None => {
                return Some(Expression::Variable(var));
            },
        }

        if right_opt.is_none() {
            right_opt = self.parse_assign();
        }

        // parse the right-hand expression
        let mut right = match right_opt {
            Some(right) => right,
            None => {
                self.diags.push(Diag::MissingAssignmentRhs { name: var.name });
                return None;
            },
        };

        if let Some(op) = op_opt {
            right = Expression::Binary(Binary {
                left: Box::new(Expression::Variable(Variable { name: var.name.clone() })),
                op,
                right: Box::new(right),
            });
        }

        let ghost rv = expr_v(right);
        let ghost vname = var.name@;
        let e = Expression::Assignment(Assignment { var, right: Box::new(right) });
        proof {
            if cl0 {
                reveal_with_fuel(p_assign, 2);
                assert(expr_v(e) is Asg);
                assert(expr_v(e)->Asg_0 == vname);
                assert(expr_v(e)->Asg_1 == Box::new(rv));
                let t = p_assign(ts0);
                assert(t.0 is Some);
                assert(t.0->0 is Asg);
                assert(t.0->0->Asg_0 == vname);
                assert(t.0->0->Asg_1 == Box::new(rv));
            }
        }
        Some(e)
    }

    /// The operator table of one precedence level; level 7 binds loosest.
    fn level_op(level: u8, tt: &TokenType) -> (r: Option<BinaryOp>)
        ensures
            r == level_op_spec(level, *tt),
    {
        match tt {
            TokenType::Pipe if level == 7 => Some(BinaryOp::BitOr),
            TokenType::Caret if level == 6 => Some(BinaryOp::BitXor),
            TokenType::Ampersand if level == 5 => Some(BinaryOp::BitAnd),
            TokenType::LeftAngleBracketX2 if level == 4 => Some(BinaryOp::LeftShift),
            TokenType::RightAngleBracketX2 if level == 4 => Some(BinaryOp::RightShift),
            TokenType::Plus if level == 3 => Some(BinaryOp::Plus),
            TokenType::Minus if level == 3 => Some(BinaryOp::Minus),
            TokenType::Star if level == 2 => Some(BinaryOp::Multiply),
            TokenType::ForwardSlash if level == 2 => Some(BinaryOp::Divide),
            TokenType::Percent if level == 2 => Some(BinaryOp::Modulo),
            TokenType::StarX2 if level == 1 => Some(BinaryOp::Exponent),
            _ => None,
        }
    }

    /// One binary level: parse the tighter level, then fold operators of
    /// this level left-associatively.  A right-hand side that fails to
    /// parse ends the loop, keeping the expression built so far.
    /// One binary level: parse the tighter level, then fold operators of
    /// this level left-associatively.  A right-hand side that fails to
    /// parse ends the loop, keeping the expression built so far.
    fn parse_binary(&mut self, level: u8) -> (r: Option<Expression>)
        requires
            old(self).wf(),
            1 <= level <= 7,
        ensures
            final(self).diags_n() >= old(self).diags_n(),
            r is None ==> final(self).diags_n() > old(self).diags_n(),
            final(self).wf(),
            final(self).measure() <= old(self).measure(),
            r is Some ==> final(self).measure() < old(self).measure(),
            old(self).clean() ==> ({
                let t = p_binary(old(self).token_stream(), level);
                &&& (r is Some <==> t.0 is Some)
                &&& (r matches Some(e) ==> expr_v(e) == t.0->0)
                &&& final(self).token_stream() == t.1
                &&& final(self).clean()
            }),
        decreases old(self).measure(), level + 2int,
    {
        let ghost m0 = self.measure();
        let ghost ts0 = old(self).token_stream();
        let ghost cl0 = old(self).clean();
        let first = if level == 1 {
            self.parse_unary()
        } else {
            self.parse_binary(level - 1)
        };
        let mut expr = match first {
            Some(e) => e,
            None => {
                return None;
            },
        };
        proof {
            if cl0 {
                if level == 1 {
                    lemma_unary_bounds(ts0);
                } else {
                    lemma_binary_bounds(ts0, (level - 1) as u8);
                }
            }
        }

        loop
            invariant_except_break
                cl0 ==> (self.clean() && p_binloop(self.token_stream(), level, expr_v(expr))
                    == p_binary(ts0, level)),
            invariant
                self.wf(),
                1 <= level <= 7,
                m0 == old(self).measure(),
                ts0 == old(self).token_stream(),
                cl0 == old(self).clean(),
                self.measure() < m0,
                self.diags_n() >= old(self).diags_n(),
            ensures
                self.wf(),
                self.measure() < m0,
                cl0 ==> (self.clean() && p_binary(ts0, level) == (
                    Some(expr_v(expr)),
                    self.token_stream(),
                )),
            decreases self.measure(),
        {
            let ghost ts_i = self.token_stream();
            let t = match self.get_token() {
                Some(t) => t,
                None => {
                    break;
                },
            };

            let op = match Self::level_op(level, &t.token_type) {
                Some(op) => op,
                None => {
                    self.put_token(t);
                    proof {
                        if cl0 {
                            assert(seq![ts_i[0]] + ts_i.skip(1) =~= ts_i);
                        }
                    }
                    break;
                },
            };

            let right = if level == 1 {
                self.parse_unary()
            } else {
                self.parse_binary(level - 1)
            };
            proof {
                if cl0 {
                    if level == 1 {
                        lemma_unary_bounds(ts_i.skip(1));
                    } else {
                        lemma_binary_bounds(ts_i.skip(1), (level - 1) as u8);
                    }
                }
            }
            let right = match right {
                Some(r) => r,
                None => {
                    break;
                },
            };

            expr = Expression::Binary(Binary { left: Box::new(expr), op, right: Box::new(right) });
        }

        Some(expr)
    }

    fn parse_bitor(&mut self) -> (r: Option<Expression>)
        requires
            old(self).wf(),
        ensures
            final(self).diags_n() >= old(self).diags_n(),
            r is None ==> final(self).diags_n() > old(self).diags_n(),
            final(self).wf(),
            final(self).measure() <= old(self).measure(),
            r is Some ==> final(self).measure() < old(self).measure(),
            old(self).clean() ==> ({
                let t = p_binary(old(self).token_stream(), 7);
                &&& (r is Some <==> t.0 is Some)
                &&& (r matches Some(e) ==> expr_v(e) == t.0->0)
                &&& final(self).token_stream() == t.1
                &&& final(self).clean()
            }),
        decreases old(self).measure(), 10int,
    {
        self.parse_binary(7)
    }

    fn parse_unary(&mut self) -> (r: Option<Expression>)
        requires
            old(self).wf(),
        ensures
            final(self).diags_n() >= old(self).diags_n(),
            r is None ==> final(self).diags_n() > old(self).diags_n(),
            final(self).wf(),
            final(self).measure() <= old(self).measure(),
            r is Some ==> final(self).measure() < old(self).measure(),
            old(self).clean() ==> ({
                let t = p_unary(old(self).token_stream());
                &&& (r is Some <==> t.0 is Some)
                &&& (r matches Some(e) ==> expr_v(e) == t.0->0)
                &&& final(self).token_stream() == t.1
                &&& final(self).clean()
            }),
        decreases old(self).measure(), 2int,
    {
        let ghost ts0 = old(self).token_stream();
        let ghost cl0 = old(self).clean();
        let t = match self.expect_token() {
            None => {
                proof {
                    if cl0 {
                        assert(self.token_stream() =~= ts0);
                    }
                }
                return None;
            },
            Some(t) => t,
        };

        let op = match t.token_type {
            TokenType::Minus => UnaryOp::Negate,
            TokenType::Bang => UnaryOp::Not,
            tt => {
                self.put_token(Token { token_type: tt, line: t.line, column: t.column, length: t.length });
                proof {
                    assert(seq![ts0[0]] + ts0.skip(1) =~= ts0);
                }
                return self.parse_primary();
            },
        };

        match self.parse_unary() {
            Some(right) => Some(Expression::Unary(Unary { op, right: Box::new(right) })),
            None => None,
        }
    }

    fn parse_primary(&mut self) -> (r: Option<Expression>)
        requires
            old(self).wf(),
        ensures
            final(self).diags_n() >= old(self).diags_n(),
            r is None ==> final(self).diags_n() > old(self).diags_n(),
            final(self).wf(),
            final(self).measure() <= old(self).measure(),
            r is Some ==> final(self).measure() < old(self).measure(),
            old(self).clean() ==> ({
                let t = p_primary(old(self).token_stream());
                &&& (r is Some <==> t.0 is Some)
                &&& (r matches Some(e) ==> expr_v(e) == t.0->0)
                &&& final(self).token_stream() == t.1
                &&& final(self).clean()
            }),
        decreases old(self).measure(), 1int,
    {
        let ghost ts0 = old(self).token_stream();
        let ghost cl0 = old(self).clean();
        let t = match self.expect_token() {
            None => {
                proof {
                    if cl0 {
                        assert(self.token_stream() =~= ts0);
                    }
                }
                return None;
            },
            Some(t) => t,
        };
        proof {
            if ts0.len() > 1 {
                assert(ts0.skip(1)[0] == ts0[1]);
                assert(ts0.skip(1).skip(1) =~= ts0.skip(2));
            }
        }

        match t.token_type {
            TokenType::Number { str, prefix } => {
                let b_word = "0b".to_owned();
                let o_word = "0o".to_owned();
                let x_word = "0x".to_owned();
                let digits = str_chars(str.as_str());
                if prefix == b_word {
                    self.number_in_radix(digits, 2, str, prefix)
                } else if prefix == o_word {
                    self.number_in_radix(digits, 8, str, prefix)
                } else if prefix == x_word {
                    self.number_in_radix(digits, 16, str, prefix)
                } else {
                    // decimal, with or without the "0d" prefix: an IEEE-754
                    // double, correctly rounded
                    match dec_bits(str.as_str()) {
                        Some(bits) => Some(Expression::Literal(Literal::Number(bits))),
                        None => {
                            self.diags.push(Diag::BadNumber { prefix, digits: str });
                            None
                        },
                    }
                }
            },
            TokenType::Identifier { str } => {
                match self.get_token() {
                    Some(t2) => {
                        match t2.token_type {
                            TokenType::LeftParen => self.parse_call(str),
                            tt => {
                                self.put_token(Token {
                                    token_type: tt,
                                    line: t2.line,
                                    column: t2.column,
                                    length: t2.length,
                                });
                                proof {
                                    assert(seq![ts0.skip(1)[0]] + ts0.skip(1).skip(1)
                                        =~= ts0.skip(1));
                                }
                                Some(Expression::Variable(Variable { name: str }))
                            },
                        }
                    },
                    None => Some(Expression::Variable(Variable { name: str })),
                }
            },
            TokenType::LeftParen => {
                let expr = self.parse_expression();
                let ghost tsi = self.token_stream();
                match self.expect_token() {
                    Some(t2) => {
                        match t2.token_type {
                            TokenType::RightParen => expr,
                            _ => {
                                self.unexpected_token(&t2);
                                None
                            },
                        }
                    },
                    None => {
                        proof {
                            if cl0 {
                                assert(self.token_stream() =~= tsi);
                            }
                        }
                        None
                    },
                }
            },
            tt => {
                let t = Token { token_type: tt, line: t.line, column: t.column, length: t.length };
                self.unexpected_token(&t);
                None
            },
        }
    }

    /// The parameters of a call, after the opening parenthesis: expressions
    /// up to the matching closing parenthesis.
    /// The parameters of a call, after the opening parenthesis: expressions
    /// up to the matching closing parenthesis.
    fn parse_call(&mut self, name: String) -> (r: Option<Expression>)
        requires
            old(self).wf(),
        ensures
            final(self).diags_n() >= old(self).diags_n(),
            r is None ==> final(self).diags_n() > old(self).diags_n(),
            final(self).wf(),
            final(self).measure() <= old(self).measure(),
            old(self).clean() ==> ({
                let t = p_call(name@, old(self).token_stream());
                &&& (r is Some <==> t.0 is Some)
                &&& (r matches Some(e) ==> expr_v(e) == t.0->0)
                &&& final(self).token_stream() == t.1
                &&& final(self).clean()
            }),
        decreases old(self).measure(), 13int,
    {
        let ghost namev = name@;
        let ghost m0 = self.measure();
        let ghost ts0 = old(self).token_stream();
        let ghost cl0 = old(self).clean();
        let mut params: Vec<Expression> = Vec::new();
        proof {
            assert(exprs_v(params@) =~= Seq::<ExprV>::empty());
        }

        // an empty parameter list
        match self.get_token() {
            Some(t) => {
                match t.token_type {
                    TokenType::RightParen => {
                        let r = Some(Expression::Call(Call { name, params }));
                        proof {
                            if cl0 {
                                lemma_call_view(r->0->Call_0);
                            }
                        }
                        return r;
                    },
                    tt => {
                        self.put_token(Token {
                            token_type: tt,
                            line: t.line,
                            column: t.column,
                            length: t.length,
                        });
                        proof {
                            assert(seq![ts0[0]] + ts0.skip(1) =~= ts0);
                        }
                    },
                }
            },
            None => {
                self.diags.push(Diag::UnexpectedEndOfTokens);
                proof {
                    if cl0 {
                        assert(self.token_stream() =~= ts0);
                    }
                }
                return None;
            },
        }

        loop
            invariant
                self.wf(),
                m0 == old(self).measure(),
                ts0 == old(self).token_stream(),
                cl0 == old(self).clean(),
                namev == name@,
                self.measure() <= m0,
                self.diags_n() >= old(self).diags_n(),
                cl0 ==> (self.clean() && p_call_params(namev, exprs_v(params@),
                self.token_stream()) == p_call(namev, ts0)),
            decreases self.measure(),
        {
            let ghost ts_i = self.token_stream();
            let param = match self.parse_expression() {
                Some(e) => e,
                None => {
                    proof {
                        if cl0 {
                            assert(p_expr(ts_i).0 is None);
                            assert(p_call_params(namev, exprs_v(params@), ts_i) == (
                                None::<ExprV>,
                                p_expr(ts_i).1,
                            ));
                            assert(self.token_stream() == p_expr(ts_i).1);
                        }
                    }
                    return None;
                },
            };
            proof {
                if cl0 {
                    lemma_expr_bounds(ts_i);
                }
            }
            let ghost prevp = params@;
            params.push(param);
            proof {
                assert(exprs_v(params@) =~= exprs_v(prevp).push(expr_v(params@.last())));
            }

            let ghost ts_ap = self.token_stream();
            proof {
                if cl0 {
                    assert(p_expr(ts_i).0 == Some(expr_v(param)));
                    assert(p_expr(ts_i).1 == ts_ap);
                }
            }
            let t = match self.expect_token() {
                Some(t) => t,
                None => {
                    proof {
                        if cl0 {
                            assert(ts_ap.len() == 0);
                            assert(p_call_params(namev, exprs_v(prevp), ts_i) == (
                                None::<ExprV>,
                                ts_ap,
                            ));
                        }
                    }
                    return None;
                },
            };
            match t.token_type {
                TokenType::RightParen => {
                    let r = Some(Expression::Call(Call { name, params }));
                    proof {
                        if cl0 {
                            lemma_call_view(r->0->Call_0);
                            assert(ts_ap[0] == TokV::Simple(TokenType::RightParen));
                            assert(p_call_params(namev, exprs_v(prevp), ts_i) == (
                                Some(ExprV::CallV(namev, exprs_v(prevp).push(expr_v(param)))),
                                ts_ap.skip(1),
                            ));
                            assert(expr_v(r->0) == ExprV::CallV(namev, exprs_v(params@)));
                        }
                    }
                    return r;
                },
                tt => {
                    self.put_token(Token {
                        token_type: tt,
                        line: t.line,
                        column: t.column,
                        length: t.length,
                    });
                    proof {
                        if cl0 {
                            assert(seq![ts_ap[0]] + ts_ap.skip(1) =~= ts_ap);
                        }
                    }
                },
            }
        }
    }

    /// A literal with an explicit radix prefix: an unsigned 64-bit integer
    /// in that radix, converted to the nearest double.
    fn number_in_radix(&mut self, digits: Vec<char>, radix: u32, str: String, prefix: String) -> (r:
        Option<Expression>)
        requires
            old(self).wf(),
            2 <= radix <= 36,
        ensures
            final(self).diags_n() >= old(self).diags_n(),
            r is None ==> final(self).diags_n() > old(self).diags_n(),
            final(self).wf(),
            final(self).measure() == old(self).measure(),
            final(self).token_stream() == old(self).token_stream(),
            final(self).clean() == old(self).clean(),
            r matches Some(e) ==> (radix_fold(digits@, radix as nat) matches Some(v) && v
                <= u64::MAX && e == Expression::Literal(Literal::Number(
                crate::numeric::bits_of_u64(v as u64),
            ))),
            r is Some <==> radix_value(digits@, radix as nat) is Some,
            r matches Some(e) ==> Some(e) == (match radix_value(digits@, radix as nat) {
                Some(v) => Some(Expression::Literal(Literal::Number(v))),
                None => None,
            }),
    {
        match parse_radix(&digits, radix) {
            Some(n) => Some(Expression::Literal(Literal::Number(u64_to_bits(n)))),
            None => {
                self.diags.push(Diag::BadNumber { prefix, digits: str });
                None
            },
        }
    }
}

/// Parse one logical line into at most one `Ast` node; scan or parse
/// failures yield `None`, with the reasons recorded as diagnostics.  On
/// an input whose characters scan cleanly, the result is exactly what the
/// specification parser `p_ast` makes of the input's tokens.
pub fn parse_line(input: &str) -> (r: (Option<Ast>, Vec<Diag>))
    ensures
        r.0 is None ==> r.1@.len() > 0,
        clean_end(input@) ==> ({
            let a = p_ast(tokenize(input@));
            &&& (r.0 is Some <==> a is Some)
            &&& (r.0 matches Some(ast) ==> ast_v(ast) == a->0)
        }),
{
    let mut parser = Parser::new(input);
    let ast = parser.parse_ast();
    let mut scan_diags = parser.scanner.take_diags();
    parser.diags.append(&mut scan_diags);
    (ast, parser.diags)
}

/// Parse one logical line into at most one `Ast` node, discarding the
/// diagnostics; see `parse_line`.
pub fn parse(input: &str) -> (r: Option<Ast>)
    ensures
        clean_end(input@) ==> ({
            let a = p_ast(tokenize(input@));
            &&& (r is Some <==> a is Some)
            &&& (r matches Some(ast) ==> ast_v(ast) == a->0)
        }),
{
    let (ast, _) = parse_line(input);
    ast
}

} // verus!
