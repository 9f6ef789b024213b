//! The syntax tree that the generator takes: what a front end hands over once
//! it has read a source text.

use vstd::prelude::*;

verus! {

/// A literal of the language.
///
/// `Num` holds the 64 bits of a double.
#[derive(Debug, PartialEq)]
pub enum Value {
    Null,
    Bool(bool),
    Num(u64),
    Str(String),
    List(Vec<Value>),
}

/// The operators that take two operands.
#[derive(Debug, Clone, Copy, PartialEq, Eq, Structural)]
pub enum BinaryOp {
    Add,
    Sub,
    Mul,
    Div,
    Eq,
    NotEq,
    LowerT,
    GreaterT,
    ListAt,
}

/// An expression. Every construct of the language is one: a binding and an
/// assignment carry the expression that follows them.
#[derive(Debug, PartialEq)]
pub enum Expr {
    /// A literal.
    Value(Value),
    /// The value of a parameter or of a bound name.
    LocalVar(String),
    /// `let name = value; rest`
    Let(String, Box<Expr>, Box<Expr>),
    /// `first; second`
    Then(Box<Expr>, Box<Expr>),
    /// `left op right`
    Binary(Box<Expr>, BinaryOp, Box<Expr>),
    /// `callee(arguments)`
    Call(String, Vec<Expr>),
    /// `if condition { then } else { otherwise }`
    If(Box<Expr>, Box<Expr>, Box<Expr>),
    /// `print value`
    Print(Box<Expr>),
    /// `return value`
    Return(Box<Expr>),
    /// `name = value; rest`, for a name that is bound already
    Assign(String, Box<Expr>, Box<Expr>),
    /// `loop condition { body }`
    Loop(Box<Expr>, Box<Expr>),
}

/// A function: its name, the names of its parameters in order, and its body.
#[derive(Debug, PartialEq)]
pub struct Func {
    pub name: String,
    pub args: Vec<String>,
    pub body: Expr,
}

} // verus!
