//! The abstract syntax tree the parser produces.
//!
//! Every node carries its span.  A parse failure becomes an [`Expr_::Error`]
//! placeholder node (still carrying a span) rather than aborting the parse,
//! so downstream stages can keep reporting locations.

use vstd::prelude::*;

use crate::location::FileLocation;

verus! {

/// Binary (infix) operators.
#[derive(Debug, Clone, Copy, PartialEq, Eq, Structural)]
pub enum OpInfix {
    Assign,
    Range,
    Or,
    And,
    Eq,
    Ne,
    Le,
    Lt,
    Ge,
    Gt,
    Plus,
    Minus,
    Mul,
    Div,
    DivFloor,
    Mod,
    Exp,
    Comma,
}

/// Unary prefix operators.
#[derive(Debug, Clone, Copy, PartialEq, Eq, Structural)]
pub enum OpPrefix {
    Not,
    Neg,
}

/// Postfix operators: a call or an index, both marked with `$` in source.
#[derive(Debug, Clone, Copy, PartialEq, Eq, Structural)]
pub enum OpPostfix {
    Call,
    Index,
}

/// A constant expression.
#[derive(Debug, PartialEq)]
pub enum Const {
    /// `nil`
    Nil,
    /// `true` or `false`
    Bool(bool),
    /// An integer literal.
    Int(i64),
    /// A float literal, as its scanned text.
    Float(String),
    /// A string literal, unescaped.
    Str(String),
    /// A list literal: `[]`, or `[` inner expression `]`.
    List(Option<Box<Expr>>),
}

/// An expression node.
#[derive(Debug, PartialEq)]
pub enum Expr_ {
    /// An identifier.
    Id(String),
    /// A constant.
    Const(Const),
    /// A prefix operator applied to an operand.
    Prefix(OpPrefix, Box<Expr>),
    /// An infix operator applied to two operands.
    Infix(OpInfix, Box<Expr>, Box<Expr>),
    /// A call or index on a base expression, with an optional argument
    /// expression (`None` for an empty call).
    Postfix(OpPostfix, Box<Expr>, Option<Box<Expr>>),
    /// A conditional: condition/block expressions alternating, closed by a
    /// trailing else-block.
    If(Vec<Expr>),
    /// A `do` ... `end` block.
    Block(Vec<Expr>),
    /// A function literal: optional name, optional parameter-declaration
    /// expression, and the body.
    Def(Option<String>, Option<Box<Expr>>, Box<Expr>),
    /// A parse failure placeholder.
    Error,
}

/// An expression with its span.
#[derive(Debug, PartialEq)]
pub struct Expr {
    pub loc: FileLocation,
    pub val: Expr_,
}

/// A statement body.
#[derive(Debug, PartialEq)]
pub enum Stat_ {
    /// An expression statement.
    Expr(Box<Expr>),
}

/// A statement with its span.
#[derive(Debug, PartialEq)]
pub struct Stat {
    pub loc: FileLocation,
    pub val: Stat_,
}

/// The accumulated syntax tree: statements in parse order, append-only.
#[derive(Debug, PartialEq)]
pub struct Ast {
    pub statements: Vec<Stat>,
}

impl Ast {
    pub fn new() -> (r: Self)
        ensures
            r.statements@.len() == 0,
    {
        Ast { statements: Vec::new() }
    }
}

} // verus!
