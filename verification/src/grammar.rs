//! The specification-level parser: what parsing a token sequence produces.
//!
//! These functions define, over the mathematical values of a token stream,
//! exactly which syntax tree, which diagnostics, and which final cursor
//! state the parser's precedence-climbing and recovery routines yield.  The
//! executable parser's contracts are stated against them, the same way the
//! lexer's are stated against its specification-level lex.
//!
//! Trees here are spec values with character sequences for text payloads;
//! [`expr_matches`] relates the executable nodes to them.

use vstd::prelude::*;

use crate::ast::{Const, Expr, Expr_, OpInfix, OpPostfix, OpPrefix, Stat, Stat_};
use crate::diag::{is_eof_kind, ErrorTypeView};
use crate::location::{FileLocation, LineLocation};
use crate::token::{Keyword, Operator, TokenView};

verus! {

/// A constant, at the specification level.
pub enum ConstS {
    Nil,
    Bool(bool),
    Int(i64),
    Float(Seq<char>),
    Str(Seq<char>),
    List(Option<Box<ExprS>>),
}

/// An expression body, at the specification level.
pub enum ExprS_ {
    Id(Seq<char>),
    Const(ConstS),
    Prefix(OpPrefix, Box<ExprS>),
    Infix(OpInfix, Box<ExprS>, Box<ExprS>),
    Postfix(OpPostfix, Box<ExprS>, Option<Box<ExprS>>),
    If(Seq<ExprS>),
    Block(Seq<ExprS>),
    Def(Option<Seq<char>>, Option<Box<ExprS>>, Box<ExprS>),
    Error,
}

/// An expression with its span, at the specification level.
pub struct ExprS {
    pub loc: FileLocation,
    pub val: ExprS_,
}

/// A statement with its span, at the specification level.
pub struct StatS {
    pub loc: FileLocation,
    pub expr: ExprS,
}

/// The executable expression node carries exactly the specification-level
/// tree: same spans, same shape, text payloads equal as character
/// sequences.
pub open spec fn expr_matches(e: &Expr, s: ExprS) -> bool
    decreases s,
{
    e.loc == s.loc && match (&e.val, s.val) {
        (Expr_::Id(n), ExprS_::Id(m)) => n@ == m,
        (Expr_::Const(c), ExprS_::Const(cs)) => match (c, cs) {
            (Const::Nil, ConstS::Nil) => true,
            (Const::Bool(a), ConstS::Bool(b)) => *a == b,
            (Const::Int(a), ConstS::Int(b)) => *a == b,
            (Const::Float(a), ConstS::Float(b)) => a@ == b,
            (Const::Str(a), ConstS::Str(b)) => a@ == b,
            (Const::List(None), ConstS::List(None)) => true,
            (Const::List(Some(x)), ConstS::List(Some(y))) => expr_matches(x, *y),
            _ => false,
        },
        (Expr_::Prefix(op, x), ExprS_::Prefix(ops, y)) => *op == ops && expr_matches(x, *y),
        (Expr_::Infix(op, a, b), ExprS_::Infix(ops, c, d)) => *op == ops && expr_matches(a, *c)
            && expr_matches(b, *d),
        (Expr_::Postfix(op, a, arg), ExprS_::Postfix(ops, c, args)) => *op == ops && expr_matches(
            a,
            *c,
        ) && match (arg, args) {
            (None, None) => true,
            (Some(x), Some(y)) => expr_matches(x, *y),
            _ => false,
        },
        (Expr_::If(v), ExprS_::If(w)) => exprs_match(v, w),
        (Expr_::Block(v), ExprS_::Block(w)) => exprs_match(v, w),
        (Expr_::Def(n, d, b), ExprS_::Def(ns, ds, bs)) => {
            &&& (match (n, ns) {
                (None, None) => true,
                (Some(x), Some(y)) => x@ == y,
                _ => false,
            })
            &&& (match (d, ds) {
                (None, None) => true,
                (Some(x), Some(y)) => expr_matches(x, *y),
                _ => false,
            })
            &&& expr_matches(b, *bs)
        },
        (Expr_::Error, ExprS_::Error) => true,
        _ => false,
    }
}

/// Element-wise [`expr_matches`] over node sequences.
pub open spec fn exprs_match(v: &Vec<Expr>, w: Seq<ExprS>) -> bool
    decreases w,
{
    v@.len() == w.len() && forall|i: int| 0 <= i < w.len() ==> expr_matches(&v@[i], #[trigger] w[i])
}

/// The executable statement carries exactly the specification-level one.
pub open spec fn stat_matches(st: &Stat, s: StatS) -> bool {
    st.loc == s.loc && match &st.val {
        Stat_::Expr(e) => expr_matches(e, s.expr),
    }
}

/// The cursor state the parser threads: position, running span, and
/// whether an end-of-input error has been recorded (which gates the
/// deduplication).  Diagnostics appended by each production are returned
/// beside it, not threaded.
pub struct PState {
    pub pos: int,
    pub loc: FileLocation,
    pub eof: bool,
}

/// What recording one diagnostic does: an end-of-input-type record is
/// dropped when one was already recorded; anything else is appended and
/// raises the corresponding flag.
pub open spec fn p_add(st: PState, e: ErrorTypeView, l: FileLocation) -> (
    PState,
    Seq<(ErrorTypeView, FileLocation)>,
) {
    if is_eof_kind(e) && st.eof {
        (st, Seq::empty())
    } else {
        (PState { eof: st.eof || is_eof_kind(e), ..st }, seq![(e, l)])
    }
}

/// Consuming one token: the position advances and the running span's end
/// moves to the consumed token's end; at the end of input nothing changes.
pub open spec fn p_next(toks: Seq<(TokenView, FileLocation)>, st: PState) -> PState {
    if 0 <= st.pos < toks.len() {
        PState {
            pos: st.pos + 1,
            loc: FileLocation { start: st.loc.start, end: toks[st.pos].1.end },
            eof: st.eof,
        }
    } else {
        st
    }
}

/// The span of the next token; at the end of input, a zero-width span at
/// the running span's end.
pub open spec fn p_peek_loc(toks: Seq<(TokenView, FileLocation)>, st: PState) -> FileLocation {
    if 0 <= st.pos < toks.len() {
        toks[st.pos].1
    } else {
        FileLocation { start: st.loc.end, end: st.loc.end }
    }
}

/// The state `b` lies properly after `a` within the stream: what every
/// consuming production guarantees, and what the recursions here are
/// guarded by.
pub open spec fn p_progress(a: PState, b: PState, toks: Seq<(TokenView, FileLocation)>) -> bool {
    a.pos < b.pos <= toks.len()
}

/// A zero-width span at the origin, used by the unfinished-conditional
/// error nodes.
pub open spec fn zero_span() -> FileLocation {
    FileLocation {
        start: LineLocation { line: 0, offset: 0 },
        end: LineLocation { line: 0, offset: 0 },
    }
}

/// What skipping to an operator produces.
pub struct PResBool {
    pub st: PState,
    pub ds: Seq<(ErrorTypeView, FileLocation)>,
    pub eof: bool,
}

/// What parsing an expression (or a conditional arm) produces.
pub struct PRes {
    pub st: PState,
    pub ds: Seq<(ErrorTypeView, FileLocation)>,
    pub e: ExprS,
}

/// What parsing a condition-plus-`then` produces.
pub struct PResOpt {
    pub st: PState,
    pub ds: Seq<(ErrorTypeView, FileLocation)>,
    pub e: Option<ExprS>,
}

/// What the statement loop produces.
pub struct PResStats {
    pub st: PState,
    pub ds: Seq<(ErrorTypeView, FileLocation)>,
    pub stats: Seq<StatS>,
}

/// Discard tokens until the expected operator is consumed or the input
/// ends: the tail of the panic-mode recovery.
pub open spec fn p_skip_op(
    toks: Seq<(TokenView, FileLocation)>,
    st: PState,
    expected: Operator,
) -> PResBool
    decreases toks.len() - st.pos,
{
    if !(0 <= st.pos <= toks.len()) {
        PResBool { st, ds: Seq::empty(), eof: true }
    } else if st.pos < toks.len() && crate::token::is_op(toks[st.pos].0, expected) {
        PResBool { st: p_next(toks, st), ds: Seq::empty(), eof: false }
    } else if st.pos < toks.len() {
        p_skip_op(toks, p_next(toks, st), expected)
    } else {
        let (st1, d1) = p_add(st, ErrorTypeView::UnexpectedEof, st.loc);
        PResBool { st: st1, ds: d1, eof: true }
    }
}

/// Discard tokens until the expected keyword is consumed or the input
/// ends.
pub open spec fn p_skip_key(
    toks: Seq<(TokenView, FileLocation)>,
    st: PState,
    expected: Keyword,
) -> PResBool
    decreases toks.len() - st.pos,
{
    if !(0 <= st.pos <= toks.len()) {
        PResBool { st, ds: Seq::empty(), eof: true }
    } else if st.pos < toks.len() && crate::token::is_key(toks[st.pos].0, expected) {
        PResBool { st: p_next(toks, st), ds: Seq::empty(), eof: false }
    } else if st.pos < toks.len() {
        p_skip_key(toks, p_next(toks, st), expected)
    } else {
        let (st1, d1) = p_add(st, ErrorTypeView::UnexpectedEof, st.loc);
        PResBool { st: st1, ds: d1, eof: true }
    }
}

/// Skip to an expected operator: consume it silently when it is next,
/// else report one unexpected token (with the expected kind and the
/// supplied context) and discard tokens until it is found or the input
/// ends.
pub open spec fn p_to_op(
    toks: Seq<(TokenView, FileLocation)>,
    st: PState,
    expected: Operator,
    prev: Option<(TokenView, FileLocation)>,
) -> PResBool {
    if 0 <= st.pos < toks.len() && crate::token::is_op(toks[st.pos].0, expected) {
        PResBool { st: p_next(toks, st), ds: Seq::empty(), eof: false }
    } else {
        let found = if 0 <= st.pos < toks.len() {
            Some(toks[st.pos].0)
        } else {
            None
        };
        let st1 = p_next(toks, st);
        let (st2, d2) = p_add(
            st1,
            ErrorTypeView::UnexpectedToken {
                found,
                expected: Some(TokenView::Op(expected)),
                previous: prev,
            },
            st1.loc,
        );
        let r = p_skip_op(toks, st2, expected);
        PResBool { st: r.st, ds: d2 + r.ds, eof: r.eof }
    }
}

/// Skip to an expected keyword, as [`p_to_op`] does for operators.
pub open spec fn p_to_key(
    toks: Seq<(TokenView, FileLocation)>,
    st: PState,
    expected: Keyword,
    prev: Option<(TokenView, FileLocation)>,
) -> PResBool {
    if 0 <= st.pos < toks.len() && crate::token::is_key(toks[st.pos].0, expected) {
        PResBool { st: p_next(toks, st), ds: Seq::empty(), eof: false }
    } else {
        let found = if 0 <= st.pos < toks.len() {
            Some(toks[st.pos].0)
        } else {
            None
        };
        let st1 = p_next(toks, st);
        let (st2, d2) = p_add(
            st1,
            ErrorTypeView::UnexpectedToken {
                found,
                expected: Some(TokenView::Key(expected)),
                previous: prev,
            },
            st1.loc,
        );
        let r = p_skip_key(toks, st2, expected);
        PResBool { st: r.st, ds: d2 + r.ds, eof: r.eof }
    }
}

/// Parse one condition and its required `then`.
pub open spec fn p_cond_then(toks: Seq<(TokenView, FileLocation)>, st: PState) -> PResOpt
    decreases toks.len() - st.pos, 2int,
{
    let start = st.loc;
    let a = p_expr(toks, st, 0, Some(TokenView::Key(Keyword::Then)));
    let b = p_to_key(toks, a.st, Keyword::Then, Some((TokenView::Key(Keyword::If), start)));
    PResOpt {
        st: b.st,
        ds: a.ds + b.ds,
        e: if !b.eof {
            Some(a.e)
        } else {
            None
        },
    }
}

/// Parse one conditional expression, standing on its `if` keyword.
pub open spec fn p_if(toks: Seq<(TokenView, FileLocation)>, st: PState) -> PRes
    decreases toks.len() - st.pos, 0int,
{
    if !(0 <= st.pos < toks.len()) {
        PRes { st, ds: Seq::empty(), e: ExprS { loc: zero_span(), val: ExprS_::Error } }
    } else {
        let st1 = p_next(toks, st);
        let start = st1.loc;
        let c = p_cond_then(toks, st1);
        match c.e {
            None => PRes {
                st: c.st,
                ds: c.ds,
                e: ExprS {
                    loc: FileLocation { start: start.start, end: c.st.loc.end },
                    val: ExprS_::Error,
                },
            },
            Some(cond) => {
                if !p_progress(st, c.st, toks) {
                    PRes { st: c.st, ds: c.ds, e: ExprS { loc: zero_span(), val: ExprS_::Error } }
                } else {
                    let r = p_if_arms(
                        toks,
                        c.st,
                        seq![cond],
                        Seq::empty(),
                        p_peek_loc(toks, c.st),
                        start,
                    );
                    PRes { st: r.st, ds: c.ds + r.ds, e: r.e }
                }
            },
        }
    }
}

/// The conditional's collecting loop: gather block expressions until an
/// `elsif` restarts condition parsing, an `else` opens the final block, or
/// the input ends.
pub open spec fn p_if_arms(
    toks: Seq<(TokenView, FileLocation)>,
    st: PState,
    exprs: Seq<ExprS>,
    block: Seq<ExprS>,
    block_start: FileLocation,
    start: FileLocation,
) -> PRes
    decreases toks.len() - st.pos, 2int,
{
    if !(0 <= st.pos <= toks.len()) {
        PRes { st, ds: Seq::empty(), e: ExprS { loc: zero_span(), val: ExprS_::Error } }
    } else if st.pos < toks.len() && crate::token::is_key(toks[st.pos].0, Keyword::Elsif) {
        let exprs1 = exprs.push(
            ExprS {
                loc: FileLocation { start: block_start.start, end: st.loc.end },
                val: ExprS_::Block(block),
            },
        );
        let st1 = p_next(toks, st);
        let c = p_cond_then(toks, st1);
        match c.e {
            None => PRes {
                st: c.st,
                ds: c.ds,
                e: ExprS {
                    loc: FileLocation { start: start.start, end: c.st.loc.end },
                    val: ExprS_::Error,
                },
            },
            Some(cond) => {
                if !p_progress(st, c.st, toks) {
                    PRes { st: c.st, ds: c.ds, e: ExprS { loc: zero_span(), val: ExprS_::Error } }
                } else {
                    let r = p_if_arms(
                        toks,
                        c.st,
                        exprs1.push(cond),
                        Seq::empty(),
                        p_peek_loc(toks, c.st),
                        start,
                    );
                    PRes { st: r.st, ds: c.ds + r.ds, e: r.e }
                }
            },
        }
    } else if st.pos < toks.len() && crate::token::is_key(toks[st.pos].0, Keyword::Else) {
        let exprs1 = exprs.push(
            ExprS {
                loc: FileLocation { start: block_start.start, end: st.loc.end },
                val: ExprS_::Block(block),
            },
        );
        let st1 = p_next(toks, st);
        p_else_arms(toks, st1, exprs1, Seq::empty(), block_start, start)
    } else if st.pos >= toks.len() {
        let (st1, d1) = p_add(
            st,
            ErrorTypeView::UnexpectedToken {
                found: None,
                expected: Some(TokenView::Key(Keyword::Else)),
                previous: Some((TokenView::Key(Keyword::If), start)),
            },
            st.loc,
        );
        PRes { st: st1, ds: d1, e: ExprS { loc: zero_span(), val: ExprS_::Error } }
    } else {
        let a = p_expr(toks, st, 0, Some(TokenView::Key(Keyword::Else)));
        if !p_progress(st, a.st, toks) {
            PRes { st: a.st, ds: a.ds, e: ExprS { loc: zero_span(), val: ExprS_::Error } }
        } else {
            let r = p_if_arms(toks, a.st, exprs, block.push(a.e), block_start, start);
            PRes { st: r.st, ds: a.ds + r.ds, e: r.e }
        }
    }
}

/// The conditional's else-block loop: gather expressions until the `end`
/// closes the conditional or the input ends.
pub open spec fn p_else_arms(
    toks: Seq<(TokenView, FileLocation)>,
    st: PState,
    exprs: Seq<ExprS>,
    block: Seq<ExprS>,
    block_start: FileLocation,
    start: FileLocation,
) -> PRes
    decreases toks.len() - st.pos, 2int,
{
    if !(0 <= st.pos <= toks.len()) {
        PRes { st, ds: Seq::empty(), e: ExprS { loc: zero_span(), val: ExprS_::Error } }
    } else if st.pos < toks.len() && crate::token::is_key(toks[st.pos].0, Keyword::End) {
        let exprs1 = exprs.push(
            ExprS {
                loc: FileLocation { start: block_start.start, end: st.loc.end },
                val: ExprS_::Block(block),
            },
        );
        let st1 = p_next(toks, st);
        PRes {
            st: st1,
            ds: Seq::empty(),
            e: ExprS {
                loc: FileLocation { start: start.start, end: st1.loc.end },
                val: ExprS_::If(exprs1),
            },
        }
    } else if st.pos >= toks.len() {
        let (st1, d1) = p_add(st, ErrorTypeView::UnexpectedEof, st.loc);
        PRes { st: st1, ds: d1, e: ExprS { loc: zero_span(), val: ExprS_::Error } }
    } else {
        let a = p_expr(toks, st, 0, Some(TokenView::Key(Keyword::End)));
        if !p_progress(st, a.st, toks) {
            PRes { st: a.st, ds: a.ds, e: ExprS { loc: zero_span(), val: ExprS_::Error } }
        } else {
            let r = p_else_arms(toks, a.st, exprs, block.push(a.e), block_start, start);
            PRes { st: r.st, ds: a.ds + r.ds, e: r.e }
        }
    }
}

/// Parse one function literal, standing on its `def` keyword.
pub open spec fn p_def(toks: Seq<(TokenView, FileLocation)>, st: PState) -> PRes
    decreases toks.len() - st.pos, 0int,
{
    if !(0 <= st.pos < toks.len()) {
        PRes { st, ds: Seq::empty(), e: ExprS { loc: zero_span(), val: ExprS_::Error } }
    } else {
        let st1 = p_next(toks, st);
        let start = st1.loc;
        let name: Option<Seq<char>> = if st1.pos < toks.len() {
            match toks[st1.pos].0 {
                TokenView::Id(n) => Some(n),
                _ => None,
            }
        } else {
            None
        };
        let st2 = if name is Some {
            p_next(toks, st1)
        } else {
            st1
        };
        let a = p_to_op(toks, st2, Operator::LPar, Some((TokenView::Key(Keyword::Def), start)));
        if a.eof {
            PRes {
                st: a.st,
                ds: a.ds,
                e: ExprS {
                    loc: FileLocation { start: start.start, end: a.st.loc.end },
                    val: ExprS_::Error,
                },
            }
        } else if !p_progress(st, a.st, toks) {
            PRes { st: a.st, ds: a.ds, e: ExprS { loc: zero_span(), val: ExprS_::Error } }
        } else {
            let decl_start = a.st.loc;
            if a.st.pos < toks.len() && crate::token::is_op(toks[a.st.pos].0, Operator::RPar) {
                let st4 = p_next(toks, a.st);
                let b = p_expr(toks, st4, 0, None::<TokenView>);
                PRes {
                    st: b.st,
                    ds: a.ds + b.ds,
                    e: ExprS {
                        loc: FileLocation { start: start.start, end: b.st.loc.end },
                        val: ExprS_::Def(name, None, Box::new(b.e)),
                    },
                }
            } else {
                let d = p_expr(toks, a.st, 0, Some(TokenView::Op(Operator::RPar)));
                let c = p_to_op(
                    toks,
                    d.st,
                    Operator::RPar,
                    Some((TokenView::Op(Operator::LPar), decl_start)),
                );
                if c.eof {
                    PRes {
                        st: c.st,
                        ds: a.ds + d.ds + c.ds,
                        e: ExprS {
                            loc: FileLocation { start: start.start, end: c.st.loc.end },
                            val: ExprS_::Error,
                        },
                    }
                } else if !p_progress(st, c.st, toks) {
                    PRes {
                        st: c.st,
                        ds: a.ds + d.ds + c.ds,
                        e: ExprS { loc: zero_span(), val: ExprS_::Error },
                    }
                } else {
                    let b = p_expr(toks, c.st, 0, None::<TokenView>);
                    PRes {
                        st: b.st,
                        ds: a.ds + d.ds + c.ds + b.ds,
                        e: ExprS {
                            loc: FileLocation { start: start.start, end: b.st.loc.end },
                            val: ExprS_::Def(name, Some(Box::new(d.e)), Box::new(b.e)),
                        },
                    }
                }
            }
        }
    }
}

/// Parse one `do` ... `end` block, standing on its `do` keyword.
pub open spec fn p_block(toks: Seq<(TokenView, FileLocation)>, st: PState) -> PRes
    decreases toks.len() - st.pos, 0int,
{
    if !(0 <= st.pos < toks.len()) {
        PRes { st, ds: Seq::empty(), e: ExprS { loc: zero_span(), val: ExprS_::Error } }
    } else {
        let st1 = p_next(toks, st);
        p_block_items(toks, st1, Seq::empty(), st1.loc)
    }
}

/// The block's collecting loop: gather expressions until `end` or the end
/// of input.
pub open spec fn p_block_items(
    toks: Seq<(TokenView, FileLocation)>,
    st: PState,
    items: Seq<ExprS>,
    start: FileLocation,
) -> PRes
    decreases toks.len() - st.pos, 2int,
{
    if !(0 <= st.pos <= toks.len()) {
        PRes { st, ds: Seq::empty(), e: ExprS { loc: zero_span(), val: ExprS_::Error } }
    } else if st.pos < toks.len() && crate::token::is_key(toks[st.pos].0, Keyword::End) {
        let st1 = p_next(toks, st);
        PRes {
            st: st1,
            ds: Seq::empty(),
            e: ExprS {
                loc: FileLocation { start: start.start, end: st1.loc.end },
                val: ExprS_::Block(items),
            },
        }
    } else if st.pos >= toks.len() {
        let (st1, d1) = p_add(st, ErrorTypeView::UnexpectedEof, st.loc);
        PRes {
            st: st1,
            ds: d1,
            e: ExprS {
                loc: FileLocation { start: start.start, end: st.loc.end },
                val: ExprS_::Block(items),
            },
        }
    } else {
        let a = p_expr(toks, st, 0, Some(TokenView::Key(Keyword::End)));
        if !p_progress(st, a.st, toks) {
            PRes { st: a.st, ds: a.ds, e: ExprS { loc: zero_span(), val: ExprS_::Error } }
        } else {
            let r = p_block_items(toks, a.st, items.push(a.e), start);
            PRes { st: r.st, ds: a.ds + r.ds, e: r.e }
        }
    }
}

/// The forbidden-next-token matches, by payload-ignoring kind equality.
pub open spec fn avoid_hit(t: TokenView, avoid: Option<TokenView>) -> bool {
    match avoid {
        Some(av) => crate::token::same_tag(t, av),
        None => false,
    }
}

/// The left and right binding powers of an infix operator.  The left power
/// is strictly below the right one, which makes every infix operator
/// left-associative under precedence climbing.
pub open spec fn infix_binding(op: OpInfix) -> (u32, u32) {
    match op {
        OpInfix::Assign => (1u32, 2u32),
        OpInfix::Comma => (3u32, 4u32),
        OpInfix::Range => (5u32, 6u32),
        OpInfix::Or => (7u32, 8u32),
        OpInfix::And => (9u32, 10u32),
        OpInfix::Eq | OpInfix::Ne | OpInfix::Le | OpInfix::Lt | OpInfix::Gt | OpInfix::Ge => (
            11u32,
            12u32,
        ),
        OpInfix::Plus | OpInfix::Minus => (13u32, 14u32),
        OpInfix::Mul | OpInfix::Div | OpInfix::DivFloor | OpInfix::Mod => (15u32, 16u32),
        OpInfix::Exp => (17u32, 18u32),
    }
}

/// The infix operator a token's operator denotes, if any.
pub open spec fn spec_infix_of(op: Operator) -> Option<OpInfix> {
    match op {
        Operator::Assign => Some(OpInfix::Assign),
        Operator::Range => Some(OpInfix::Range),
        Operator::Or => Some(OpInfix::Or),
        Operator::And => Some(OpInfix::And),
        Operator::Eq => Some(OpInfix::Eq),
        Operator::Ne => Some(OpInfix::Ne),
        Operator::Le => Some(OpInfix::Le),
        Operator::Lt => Some(OpInfix::Lt),
        Operator::Ge => Some(OpInfix::Ge),
        Operator::Gt => Some(OpInfix::Gt),
        Operator::Plus => Some(OpInfix::Plus),
        Operator::Minus => Some(OpInfix::Minus),
        Operator::Mul => Some(OpInfix::Mul),
        Operator::Div => Some(OpInfix::Div),
        Operator::DivFloor => Some(OpInfix::DivFloor),
        Operator::Mod => Some(OpInfix::Mod),
        Operator::Exp => Some(OpInfix::Exp),
        Operator::Comma => Some(OpInfix::Comma),
        _ => None,
    }
}

/// Parse one expression by precedence climbing: a primary or prefix
/// production first, then [`p_climb`] extends it.  A token that starts no
/// primary production is consumed and reported — unless its kind matches
/// `avoid`, in which case one missing-expression record is left and the
/// token stays for the caller.
pub open spec fn p_expr(
    toks: Seq<(TokenView, FileLocation)>,
    st: PState,
    min: u32,
    avoid: Option<TokenView>,
) -> PRes
    decreases toks.len() - st.pos, 1int,
{
    if !(0 <= st.pos <= toks.len()) {
        PRes { st, ds: Seq::empty(), e: ExprS { loc: zero_span(), val: ExprS_::Error } }
    } else {
        let start = p_peek_loc(toks, st);
        if st.pos >= toks.len() {
            let (st1, d1) = p_add(st, ErrorTypeView::UnexpectedEof, start);
            PRes { st: st1, ds: d1, e: ExprS { loc: start, val: ExprS_::Error } }
        } else {
            match toks[st.pos].0 {
                TokenView::Id(n) => p_climb(
                    toks,
                    p_next(toks, st),
                    min,
                    avoid,
                    ExprS { loc: start, val: ExprS_::Id(n) },
                    start,
                ),
                TokenView::Str(n) => p_climb(
                    toks,
                    p_next(toks, st),
                    min,
                    avoid,
                    ExprS { loc: start, val: ExprS_::Const(ConstS::Str(n)) },
                    start,
                ),
                TokenView::Float(n) => p_climb(
                    toks,
                    p_next(toks, st),
                    min,
                    avoid,
                    ExprS { loc: start, val: ExprS_::Const(ConstS::Float(n)) },
                    start,
                ),
                TokenView::Integer(i) => p_climb(
                    toks,
                    p_next(toks, st),
                    min,
                    avoid,
                    ExprS { loc: start, val: ExprS_::Const(ConstS::Int(i)) },
                    start,
                ),
                TokenView::Key(Keyword::Nil) => p_climb(
                    toks,
                    p_next(toks, st),
                    min,
                    avoid,
                    ExprS { loc: start, val: ExprS_::Const(ConstS::Nil) },
                    start,
                ),
                TokenView::Key(Keyword::True) => p_climb(
                    toks,
                    p_next(toks, st),
                    min,
                    avoid,
                    ExprS { loc: start, val: ExprS_::Const(ConstS::Bool(true)) },
                    start,
                ),
                TokenView::Key(Keyword::False) => p_climb(
                    toks,
                    p_next(toks, st),
                    min,
                    avoid,
                    ExprS { loc: start, val: ExprS_::Const(ConstS::Bool(false)) },
                    start,
                ),
                TokenView::Key(Keyword::Def) => {
                    let a = p_def(toks, st);
                    if !p_progress(st, a.st, toks) {
                        a
                    } else {
                        let r = p_climb(toks, a.st, min, avoid, a.e, start);
                        PRes { st: r.st, ds: a.ds + r.ds, e: r.e }
                    }
                },
                TokenView::Key(Keyword::If) => {
                    let a = p_if(toks, st);
                    if !p_progress(st, a.st, toks) {
                        a
                    } else {
                        let r = p_climb(toks, a.st, min, avoid, a.e, start);
                        PRes { st: r.st, ds: a.ds + r.ds, e: r.e }
                    }
                },
                TokenView::Key(Keyword::Do) => {
                    let a = p_block(toks, st);
                    if !p_progress(st, a.st, toks) {
                        a
                    } else {
                        let r = p_climb(toks, a.st, min, avoid, a.e, start);
                        PRes { st: r.st, ds: a.ds + r.ds, e: r.e }
                    }
                },
                TokenView::Op(Operator::LPar) => {
                    let st1 = p_next(toks, st);
                    let a = p_expr(toks, st1, 0, Some(TokenView::Op(Operator::RPar)));
                    let b = p_to_op(
                        toks,
                        a.st,
                        Operator::RPar,
                        Some((TokenView::Op(Operator::LPar), start)),
                    );
                    if !p_progress(st, b.st, toks) {
                        PRes { st: b.st, ds: a.ds + b.ds, e: a.e }
                    } else {
                        let r = p_climb(toks, b.st, min, avoid, a.e, start);
                        PRes { st: r.st, ds: a.ds + b.ds + r.ds, e: r.e }
                    }
                },
                TokenView::Op(Operator::Not) => {
                    let st1 = p_next(toks, st);
                    let a = p_expr(toks, st1, 100, avoid);
                    let lhs = ExprS {
                        loc: FileLocation { start: start.start, end: a.st.loc.end },
                        val: ExprS_::Prefix(OpPrefix::Not, Box::new(a.e)),
                    };
                    if !p_progress(st, a.st, toks) {
                        PRes { st: a.st, ds: a.ds, e: lhs }
                    } else {
                        let r = p_climb(toks, a.st, min, avoid, lhs, start);
                        PRes { st: r.st, ds: a.ds + r.ds, e: r.e }
                    }
                },
                TokenView::Op(Operator::Minus) => {
                    let st1 = p_next(toks, st);
                    let a = p_expr(toks, st1, 100, avoid);
                    let lhs = ExprS {
                        loc: FileLocation { start: start.start, end: a.st.loc.end },
                        val: ExprS_::Prefix(OpPrefix::Neg, Box::new(a.e)),
                    };
                    if !p_progress(st, a.st, toks) {
                        PRes { st: a.st, ds: a.ds, e: lhs }
                    } else {
                        let r = p_climb(toks, a.st, min, avoid, lhs, start);
                        PRes { st: r.st, ds: a.ds + r.ds, e: r.e }
                    }
                },
                TokenView::Op(Operator::LBrk) => {
                    let st1 = p_next(toks, st);
                    if st1.pos < toks.len() && crate::token::is_op(
                        toks[st1.pos].0,
                        Operator::RBrk,
                    ) {
                        let st2 = p_next(toks, st1);
                        let lhs = ExprS {
                            loc: FileLocation { start: start.start, end: st2.loc.end },
                            val: ExprS_::Const(ConstS::List(None)),
                        };
                        p_climb(toks, st2, min, avoid, lhs, start)
                    } else {
                        let a = p_expr(toks, st1, 0, Some(TokenView::Op(Operator::RBrk)));
                        let b = p_to_op(
                            toks,
                            a.st,
                            Operator::RBrk,
                            Some((TokenView::Op(Operator::LBrk), start)),
                        );
                        let lhs = ExprS {
                            loc: FileLocation { start: start.start, end: b.st.loc.end },
                            val: ExprS_::Const(ConstS::List(Some(Box::new(a.e)))),
                        };
                        if !p_progress(st, b.st, toks) {
                            PRes { st: b.st, ds: a.ds + b.ds, e: lhs }
                        } else {
                            let r = p_climb(toks, b.st, min, avoid, lhs, start);
                            PRes { st: r.st, ds: a.ds + b.ds + r.ds, e: r.e }
                        }
                    }
                },
                t => {
                    if avoid_hit(t, avoid) {
                        let (st1, d1) = p_add(st, ErrorTypeView::MissingExpr(st.loc), start);
                        PRes { st: st1, ds: d1, e: ExprS { loc: start, val: ExprS_::Error } }
                    } else {
                        let st1 = p_next(toks, st);
                        let (st2, d2) = p_add(
                            st1,
                            ErrorTypeView::UnexpectedToken {
                                found: Some(t),
                                expected: None,
                                previous: None,
                            },
                            start,
                        );
                        PRes { st: st2, ds: d2, e: ExprS { loc: start, val: ExprS_::Error } }
                    }
                },
            }
        }
    }
}

/// The climbing loop: as long as the next token is the postfix marker or
/// an infix operator whose left binding power reaches `min`, extend the
/// accumulated left-hand side.
pub open spec fn p_climb(
    toks: Seq<(TokenView, FileLocation)>,
    st: PState,
    min: u32,
    avoid: Option<TokenView>,
    lhs: ExprS,
    start: FileLocation,
) -> PRes
    decreases toks.len() - st.pos, 0int,
{
    if !(0 <= st.pos <= toks.len()) || st.pos >= toks.len() {
        PRes { st, ds: Seq::empty(), e: lhs }
    } else if crate::token::is_op(toks[st.pos].0, Operator::Call) {
        if st.pos + 1 >= toks.len() {
            let st1 = p_next(toks, st);
            let (st2, d2) = p_add(st1, ErrorTypeView::UnexpectedEof, st1.loc);
            PRes { st: st2, ds: d2, e: lhs }
        } else {
            let t2 = toks[st.pos + 1].0;
            if crate::token::is_op(t2, Operator::LPar) {
                if 101 <= min {
                    PRes { st, ds: Seq::empty(), e: lhs }
                } else {
                    let st1 = p_next(toks, st);
                    let l = st1.loc;
                    let st2 = p_next(toks, st1);
                    let ml = st2.loc;
                    if st2.pos < toks.len() && crate::token::is_op(
                        toks[st2.pos].0,
                        Operator::RPar,
                    ) {
                        let st3 = p_next(toks, st2);
                        let end = st3.loc;
                        let lhs1 = ExprS {
                            loc: FileLocation { start: l.start, end: end.end },
                            val: ExprS_::Postfix(OpPostfix::Call, Box::new(lhs), None),
                        };
                        p_climb(toks, st3, min, avoid, lhs1, end)
                    } else {
                        let a = p_expr(toks, st2, 0, Some(TokenView::Op(Operator::RPar)));
                        let b = p_to_op(
                            toks,
                            a.st,
                            Operator::RPar,
                            Some((TokenView::Op(Operator::LPar), ml)),
                        );
                        let end = b.st.loc;
                        let lhs1 = ExprS {
                            loc: FileLocation { start: l.start, end: end.end },
                            val: ExprS_::Postfix(
                                OpPostfix::Call,
                                Box::new(lhs),
                                Some(Box::new(a.e)),
                            ),
                        };
                        if !p_progress(st, b.st, toks) {
                            PRes { st: b.st, ds: a.ds + b.ds, e: lhs1 }
                        } else {
                            let r = p_climb(
                                toks,
                                b.st,
                                min,
                                avoid,
                                lhs1,
                                p_peek_loc(toks, b.st),
                            );
                            PRes { st: r.st, ds: a.ds + b.ds + r.ds, e: r.e }
                        }
                    }
                }
            } else if crate::token::is_op(t2, Operator::LBrk) {
                if 101 <= min {
                    PRes { st, ds: Seq::empty(), e: lhs }
                } else {
                    let st1 = p_next(toks, st);
                    let l = st1.loc;
                    let st2 = p_next(toks, st1);
                    let ml = st2.loc;
                    let a = p_expr(toks, st2, 0, Some(TokenView::Op(Operator::RBrk)));
                    let b = p_to_op(
                        toks,
                        a.st,
                        Operator::RBrk,
                        Some((TokenView::Op(Operator::LBrk), ml)),
                    );
                    let end = b.st.loc;
                    let lhs1 = ExprS {
                        loc: FileLocation { start: l.start, end: end.end },
                        val: ExprS_::Postfix(OpPostfix::Index, Box::new(lhs), Some(Box::new(a.e))),
                    };
                    if !p_progress(st, b.st, toks) {
                        PRes { st: b.st, ds: a.ds + b.ds, e: lhs1 }
                    } else {
                        let r = p_climb(toks, b.st, min, avoid, lhs1, end);
                        PRes { st: r.st, ds: a.ds + b.ds + r.ds, e: r.e }
                    }
                }
            } else {
                let st1 = p_next(toks, st);
                let l = st1.loc;
                let st2 = p_next(toks, st1);
                let lt = st2.loc;
                let (st3, d3) = p_add(
                    st2,
                    ErrorTypeView::UnexpectedToken {
                        found: Some(t2),
                        expected: None,
                        previous: Some((TokenView::Op(Operator::Colon), l)),
                    },
                    lt,
                );
                PRes { st: st3, ds: d3, e: lhs }
            }
        }
    } else {
        match toks[st.pos].0 {
            TokenView::Op(o) => match spec_infix_of(o) {
                Some(iop) => {
                    let lb = infix_binding(iop).0;
                    let rb = infix_binding(iop).1;
                    if lb < min {
                        PRes { st, ds: Seq::empty(), e: lhs }
                    } else {
                        let st1 = p_next(toks, st);
                        let a = p_expr(toks, st1, rb, avoid);
                        let end = a.st.loc;
                        let lhs1 = ExprS {
                            loc: FileLocation { start: start.start, end: end.end },
                            val: ExprS_::Infix(iop, Box::new(lhs), Box::new(a.e)),
                        };
                        if !p_progress(st, a.st, toks) {
                            PRes { st: a.st, ds: a.ds, e: lhs1 }
                        } else {
                            let r = p_climb(toks, a.st, min, avoid, lhs1, end);
                            PRes { st: r.st, ds: a.ds + r.ds, e: r.e }
                        }
                    }
                },
                None => PRes { st, ds: Seq::empty(), e: lhs },
            },
            _ => PRes { st, ds: Seq::empty(), e: lhs },
        }
    }
}

/// What one statement parse produces.
pub struct PResStat {
    pub st: PState,
    pub ds: Seq<(ErrorTypeView, FileLocation)>,
    pub stat: StatS,
}

/// The class keyword, an open extension point: reported as an unexpected
/// token, the statement degrades to an `Error` node.
pub open spec fn p_class(toks: Seq<(TokenView, FileLocation)>, st: PState) -> PResStat {
    let start = p_peek_loc(toks, st);
    let found = if 0 <= st.pos < toks.len() {
        Some(toks[st.pos].0)
    } else {
        None
    };
    let st1 = p_next(toks, st);
    let (st2, d2) = p_add(
        st1,
        ErrorTypeView::UnexpectedToken { found, expected: None, previous: None },
        start,
    );
    PResStat {
        st: st2,
        ds: d2,
        stat: StatS { loc: start, expr: ExprS { loc: start, val: ExprS_::Error } },
    }
}

/// The statement loop: one statement per expression (or class keyword)
/// until the tokens are exhausted.
pub open spec fn p_stmts(
    toks: Seq<(TokenView, FileLocation)>,
    st: PState,
    acc: Seq<StatS>,
) -> PResStats
    decreases toks.len() - st.pos, 2int,
{
    if !(0 <= st.pos <= toks.len()) || st.pos >= toks.len() {
        PResStats { st, ds: Seq::empty(), stats: acc }
    } else if crate::token::is_key(toks[st.pos].0, Keyword::Class) {
        let c = p_class(toks, st);
        let r = p_stmts(toks, c.st, acc.push(c.stat));
        PResStats { st: r.st, ds: c.ds + r.ds, stats: r.stats }
    } else {
        let start = p_peek_loc(toks, st);
        let a = p_expr(toks, st, 0, None::<TokenView>);
        let stat = StatS {
            loc: FileLocation { start: start.start, end: a.st.loc.end },
            expr: a.e,
        };
        if !p_progress(st, a.st, toks) {
            PResStats { st: a.st, ds: a.ds, stats: acc.push(stat) }
        } else {
            let r = p_stmts(toks, a.st, acc.push(stat));
            PResStats { st: r.st, ds: a.ds + r.ds, stats: r.stats }
        }
    }
}

} // verus!
