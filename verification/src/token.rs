//! Tokens produced by the lexer.
//!
//! A token is a string, integer or float literal, an identifier, a keyword,
//! or an operator.  Float literals carry their scanned text (with digit
//! separators removed) rather than a machine float; decoding that text into
//! a numeric value is the embedder's concern.

use vstd::prelude::*;

verus! {

/// All keywords of the language.
#[derive(Debug, Clone, Copy, PartialEq, Eq, Structural)]
pub enum Keyword {
    /// `true`
    True,
    /// `false`
    False,
    /// `do`
    Do,
    /// `end`
    End,
    /// `if`
    If,
    /// `then`
    Then,
    /// `else`
    Else,
    /// `elsif`
    Elsif,
    /// `case`
    Case,
    /// `in`
    In,
    /// `for`
    For,
    /// `nil`
    Nil,
    /// `assert`
    Assert,
    /// `return`
    Return,
    /// `break`
    Break,
    /// `continue`
    Continue,
    /// `loop`
    Loop,
    /// `class`
    Class,
    /// `def`
    Def,
}

/// All operators of the language.
#[derive(Debug, Clone, Copy, PartialEq, Eq, Structural)]
pub enum Operator {
    /// `+`
    Plus,
    /// `-`
    Minus,
    /// `**`
    Exp,
    /// `*`
    Mul,
    /// `//`
    DivFloor,
    /// `/`
    Div,
    /// `%`
    Mod,
    /// `..`
    Range,
    /// `and`
    And,
    /// `or`
    Or,
    /// `not`
    Not,
    /// `>`
    Gt,
    /// `>=`
    Ge,
    /// `==`
    Eq,
    /// `<>`
    Ne,
    /// `<`
    Lt,
    /// `<=`
    Le,
    /// `=`
    Assign,
    /// `,`
    Comma,
    /// `.`
    Member,
    /// `|>`
    Pipeline,
    /// `(`
    LPar,
    /// `)`
    RPar,
    /// `[`
    LBrk,
    /// `]`
    RBrk,
    /// `{`
    LBrc,
    /// `}`
    RBrc,
    /// `:`
    Colon,
    /// `$`, the postfix call/index marker
    Call,
}

/// A single token.
#[derive(Debug, Clone, PartialEq)]
pub enum Token {
    /// A string literal, already unescaped.
    Str(String),
    /// An integer literal.
    Integer(i64),
    /// A float literal: the scanned text with digit separators removed.
    Float(String),
    /// An identifier.
    Id(String),
    /// A keyword.
    Key(Keyword),
    /// An operator.
    Op(Operator),
}

/// The mathematical value of a [`Token`]: text payloads become character
/// sequences.
pub enum TokenView {
    Str(Seq<char>),
    Integer(i64),
    Float(Seq<char>),
    Id(Seq<char>),
    Key(Keyword),
    Op(Operator),
}

impl View for Token {
    type V = TokenView;

    open spec fn view(&self) -> TokenView {
        match self {
            Token::Str(s) => TokenView::Str(s@),
            Token::Integer(i) => TokenView::Integer(*i),
            Token::Float(s) => TokenView::Float(s@),
            Token::Id(s) => TokenView::Id(s@),
            Token::Key(k) => TokenView::Key(*k),
            Token::Op(o) => TokenView::Op(*o),
        }
    }
}

/// The token is the given operator.
pub open spec fn is_op(t: TokenView, op: Operator) -> bool {
    match t {
        TokenView::Op(o) => o == op,
        _ => false,
    }
}

/// The token is the given keyword.
pub open spec fn is_key(t: TokenView, k: Keyword) -> bool {
    match t {
        TokenView::Key(kk) => kk == k,
        _ => false,
    }
}

/// Token-kind equality that ignores payloads: two tokens match when they are
/// the same keyword, or the same operator.  Tokens of any other kind never
/// match.  This is the projection used by the parser's error recovery.
pub open spec fn same_tag(a: TokenView, b: TokenView) -> bool {
    match (a, b) {
        (TokenView::Key(x), TokenView::Key(y)) => x == y,
        (TokenView::Op(x), TokenView::Op(y)) => x == y,
        _ => false,
    }
}

impl Token {
    /// An owned copy of this token, equal to it at the view level.
    pub fn duplicate(&self) -> (r: Token)
        ensures
            r@ == self@,
    {
        match self {
            Token::Str(s) => Token::Str(s.clone()),
            Token::Integer(i) => Token::Integer(*i),
            Token::Float(s) => Token::Float(s.clone()),
            Token::Id(s) => Token::Id(s.clone()),
            Token::Key(k) => Token::Key(*k),
            Token::Op(o) => Token::Op(*o),
        }
    }

    /// Token-kind equality ignoring payloads, as [`same_tag`].
    pub fn tag_matches(&self, other: &Token) -> (r: bool)
        ensures
            r == same_tag(self@, other@),
    {
        match (self, other) {
            (Token::Key(x), Token::Key(y)) => *x == *y,
            (Token::Op(x), Token::Op(y)) => *x == *y,
            _ => false,
        }
    }
}

} // verus!
