//! Diagnostics: structured error records and their rendering.
//!
//! Lexical errors (bad numeral, bad string, bad operator character) and
//! syntactic errors (unexpected token, unexpected end of input, missing
//! expression) are recorded as structured values keyed by span, and rendered
//! to text only on demand.  Rendering is a pure function of the recorded
//! values, so re-rendering an unchanged log yields identical text.

use vstd::prelude::*;
use vstd::string::StringExecFns;

use crate::location::FileLocation;
use crate::strings::push_char;
use crate::token::{Token, TokenView};

verus! {

/// A structured description of one error.
#[derive(Debug, Clone, PartialEq)]
pub enum ErrorType {
    /// A token that does not fit here: the token found (`None` at end of
    /// input), the token kind expected, if one was, and the token and span
    /// that opened the construct, if that context helps the message.
    UnexpectedToken {
        found: Option<Token>,
        expected: Option<Token>,
        previous: Option<(Token, FileLocation)>,
    },
    /// The input ended inside an unfinished construct.
    UnexpectedEof,
    /// A numeric literal that does not scan, with the reason.
    InvalidNum(String),
    /// A string literal that does not scan, with the reason.
    InvalidStr(String),
    /// A punctuation character that starts no operator.
    InvalidOp(String),
    /// An expression was required and none was found; carries the span of
    /// the token that stands where the expression should be.
    MissingExpr(FileLocation),
    /// A source file that could not be resolved or read.
    NoSuchFile(String),
}

/// The mathematical value of an [`ErrorType`].
pub enum ErrorTypeView {
    UnexpectedToken {
        found: Option<TokenView>,
        expected: Option<TokenView>,
        previous: Option<(TokenView, FileLocation)>,
    },
    UnexpectedEof,
    InvalidNum(Seq<char>),
    InvalidStr(Seq<char>),
    InvalidOp(Seq<char>),
    MissingExpr(FileLocation),
    NoSuchFile(Seq<char>),
}

impl View for ErrorType {
    type V = ErrorTypeView;

    open spec fn view(&self) -> ErrorTypeView {
        match self {
            ErrorType::UnexpectedToken { found, expected, previous } => {
                ErrorTypeView::UnexpectedToken {
                    found: match found {
                        Some(t) => Some(t@),
                        None => None,
                    },
                    expected: match expected {
                        Some(t) => Some(t@),
                        None => None,
                    },
                    previous: match previous {
                        Some(p) => Some((p.0@, p.1)),
                        None => None,
                    },
                }
            },
            ErrorType::UnexpectedEof => ErrorTypeView::UnexpectedEof,
            ErrorType::InvalidNum(m) => ErrorTypeView::InvalidNum(m@),
            ErrorType::InvalidStr(m) => ErrorTypeView::InvalidStr(m@),
            ErrorType::InvalidOp(m) => ErrorTypeView::InvalidOp(m@),
            ErrorType::MissingExpr(l) => ErrorTypeView::MissingExpr(*l),
            ErrorType::NoSuchFile(m) => ErrorTypeView::NoSuchFile(m@),
        }
    }
}

/// The error speaks of running out of input: more input could complete the
/// construct rather than the construct being malformed.  These are the
/// unexpected-end-of-input record, an unexpected-token record with nothing
/// found, and an unterminated string literal.
pub open spec fn is_eof_kind(k: ErrorTypeView) -> bool {
    match k {
        ErrorTypeView::UnexpectedEof => true,
        ErrorTypeView::UnexpectedToken { found, .. } => found is None,
        ErrorTypeView::InvalidStr(m) => m == "String is not terminated"@,
        _ => false,
    }
}

impl ErrorType {
    /// Exec mirror of [`is_eof_kind`].
    pub fn eof_kind(&self) -> (r: bool)
        ensures
            r == is_eof_kind(self@),
    {
        match self {
            ErrorType::UnexpectedEof => true,
            ErrorType::UnexpectedToken { found, .. } => found.is_none(),
            ErrorType::InvalidStr(m) => *m == "String is not terminated".to_owned(),
            _ => false,
        }
    }
}

/// The decimal digit character for one digit value.
pub open spec fn digit_char(d: int) -> char {
    if d == 0 {
        '0'
    } else if d == 1 {
        '1'
    } else if d == 2 {
        '2'
    } else if d == 3 {
        '3'
    } else if d == 4 {
        '4'
    } else if d == 5 {
        '5'
    } else if d == 6 {
        '6'
    } else if d == 7 {
        '7'
    } else if d == 8 {
        '8'
    } else {
        '9'
    }
}

/// The decimal rendering of a number, most significant digit first.
pub open spec fn dec_str(n: nat) -> Seq<char>
    decreases n,
{
    if n < 10 {
        seq![digit_char(n as int)]
    } else {
        dec_str(n / 10).push(digit_char((n % 10) as int))
    }
}

/// Append the decimal rendering of `n`.
pub fn push_usize(s: &mut String, n: usize)
    ensures
        final(s)@ == old(s)@ + dec_str(n as nat),
    decreases n,
{
    let d: usize = n % 10;
    let c: char = if d == 0 {
        '0'
    } else if d == 1 {
        '1'
    } else if d == 2 {
        '2'
    } else if d == 3 {
        '3'
    } else if d == 4 {
        '4'
    } else if d == 5 {
        '5'
    } else if d == 6 {
        '6'
    } else if d == 7 {
        '7'
    } else if d == 8 {
        '8'
    } else {
        '9'
    };
    if n < 10 {
        push_char(s, c);
        proof {
            assert(old(s)@.push(c) =~= old(s)@ + dec_str(n as nat));
        }
    } else {
        proof {
            assert(n / 10 < n) by (nonlinear_arith)
                requires
                    n >= 10,
            ;
        }
        push_usize(s, n / 10);
        push_char(s, c);
        proof {
            assert((old(s)@ + dec_str((n / 10) as nat)).push(c) =~= old(s)@ + dec_str(n as nat));
        }
    }
}

/// The message text for one error record.
pub open spec fn kind_msg(k: ErrorTypeView) -> Seq<char> {
    match k {
        ErrorTypeView::UnexpectedToken { .. } => "unexpected token"@,
        ErrorTypeView::UnexpectedEof => "unexpected end of input"@,
        ErrorTypeView::InvalidNum(m) => "invalid numeric literal: "@ + m,
        ErrorTypeView::InvalidStr(m) => "invalid string literal: "@ + m,
        ErrorTypeView::InvalidOp(m) => "invalid operator: "@ + m,
        ErrorTypeView::MissingExpr(_) => "missing expression"@,
        ErrorTypeView::NoSuchFile(m) => "no such file: "@ + m,
    }
}

/// Append the message text for one error record.
pub fn push_kind_msg(s: &mut String, k: &ErrorType)
    ensures
        final(s)@ == old(s)@ + kind_msg(k@),
{
    match k {
        ErrorType::UnexpectedToken { .. } => {
            s.append("unexpected token");
        },
        ErrorType::UnexpectedEof => {
            s.append("unexpected end of input");
        },
        ErrorType::InvalidNum(m) => {
            s.append("invalid numeric literal: ");
            s.append(m.as_str());
            proof {
                assert((old(s)@ + "invalid numeric literal: "@) + m@ =~= old(s)@ + (
                "invalid numeric literal: "@ + m@));
            }
        },
        ErrorType::InvalidStr(m) => {
            s.append("invalid string literal: ");
            s.append(m.as_str());
            proof {
                assert((old(s)@ + "invalid string literal: "@) + m@ =~= old(s)@ + (
                "invalid string literal: "@ + m@));
            }
        },
        ErrorType::InvalidOp(m) => {
            s.append("invalid operator: ");
            s.append(m.as_str());
            proof {
                assert((old(s)@ + "invalid operator: "@) + m@ =~= old(s)@ + ("invalid operator: "@
                    + m@));
            }
        },
        ErrorType::MissingExpr(_) => {
            s.append("missing expression");
        },
        ErrorType::NoSuchFile(m) => {
            s.append("no such file: ");
            s.append(m.as_str());
            proof {
                assert((old(s)@ + "no such file: "@) + m@ =~= old(s)@ + ("no such file: "@ + m@));
            }
        },
    }
}

/// One rendered line: `file:line:offset-line:offset: message`, positions as
/// recorded.
pub open spec fn render_line(file: Seq<char>, loc: FileLocation, k: ErrorTypeView) -> Seq<char> {
    file + ":"@ + dec_str(loc.start.line as nat) + ":"@ + dec_str(loc.start.offset as nat) + "-"@
        + dec_str(loc.end.line as nat) + ":"@ + dec_str(loc.end.offset as nat) + ": "@ + kind_msg(
        k,
    ) + "\n"@
}

/// Append one rendered line, as [`render_line`].
pub fn push_render_line(s: &mut String, file: &str, loc: &FileLocation, k: &ErrorType)
    ensures
        final(s)@ == old(s)@ + render_line(file@, *loc, k@),
{
    s.append(file);
    s.append(":");
    push_usize(s, loc.start.line);
    s.append(":");
    push_usize(s, loc.start.offset);
    s.append("-");
    push_usize(s, loc.end.line);
    s.append(":");
    push_usize(s, loc.end.offset);
    s.append(": ");
    push_kind_msg(s, k);
    s.append("\n");
    proof {
        assert(s@ =~= old(s)@ + render_line(file@, *loc, k@));
    }
}

} // verus!
