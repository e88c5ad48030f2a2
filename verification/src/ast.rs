//! The data model: one tagged-union node per syntactic category, owning its
//! sub-expressions exclusively, with no behaviour of its own.
//!
//! A numeric literal carries the 64-bit representation of its IEEE-754
//! double-precision value.

use vstd::prelude::*;

verus! {

#[derive(Debug, PartialEq)]
pub enum Ast {
    Command(Command),
    Expression(Expression),
    Statement(Statement),
}

#[derive(Debug, PartialEq)]
pub enum Command {
    Exit,
}

#[derive(Debug, PartialEq)]
pub enum Expression {
    Assignment(Assignment),
    Binary(Binary),
    Call(Call),
    Literal(Literal),
    Unary(Unary),
    Variable(Variable),
}

#[derive(Debug, PartialEq)]
pub enum Statement {
    DeleteVar(Variable),
}

#[derive(Debug, PartialEq)]
pub struct Assignment {
    pub var: Variable,
    pub right: Box<Expression>,
}

#[derive(Debug, PartialEq)]
pub struct Binary {
    pub left: Box<Expression>,
    pub op: BinaryOp,
    pub right: Box<Expression>,
}

#[derive(Debug, PartialEq, Clone, Copy)]
pub enum BinaryOp {
    BitAnd,
    BitOr,
    BitXor,
    Divide,
    Exponent,
    LeftShift,
    Minus,
    Modulo,
    Multiply,
    Plus,
    RightShift,
}

#[derive(Debug, PartialEq)]
pub struct Call {
    pub name: String,
    pub params: Vec<Expression>,
}

#[derive(Debug, PartialEq)]
pub struct Unary {
    pub op: UnaryOp,
    pub right: Box<Expression>,
}

#[derive(Debug, PartialEq, Clone, Copy)]
pub enum UnaryOp {
    Negate,
    Not,
}

#[derive(Debug, PartialEq)]
pub struct Variable {
    pub name: String,
}

/// A numeric literal, as the bit pattern of an IEEE-754 double.
#[derive(Debug, PartialEq)]
pub enum Literal {
    Number(u64),
}

} // verus!
