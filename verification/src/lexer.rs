//! The lexer: one pass over a source buffer producing located tokens and a
//! private diagnostic log.
//!
//! Lexing never fails fatally: a malformed numeral, string or operator
//! produces a diagnostic record and scanning continues with the next
//! character class.  A `#!` first line is skipped, `--` starts a line
//! comment, whitespace separates tokens, and everything else dispatches on
//! its character class: digit, quote, punctuation, or identifier character.

use vstd::prelude::*;

use crate::diag::{ErrorType, ErrorTypeView};
use crate::location::{FileLocation, LineLocation};
use crate::numbers::{
    digits_ok, digits_val, float_ok, float_text_ok, int_body, int_overflows, int_radix, is_dec,
    is_punct, is_ws, parse_int, punct_char, scan_num, ws_char,
};
use crate::strings::{chars_string, consume_escape, push_char, str_scan};
use crate::token::{Keyword, Operator, Token, TokenView};
use crate::util::{adv_line, adv_offset, lemma_adv_bounds, FileIterator, TokenIterator};

verus! {

broadcast use vstd::utf8::char_is_scalar;

/// The position reached after reading the first `i` characters of `s`.
pub open spec fn loc_at(s: Seq<char>, i: int) -> LineLocation {
    LineLocation { line: adv_line(s.take(i)) as usize, offset: adv_offset(s.take(i)) as usize }
}

/// The span from position `i` to position `j` of `s`.
pub open spec fn span_at(s: Seq<char>, i: int, j: int) -> FileLocation {
    FileLocation { start: loc_at(s, i), end: loc_at(s, j) }
}

/// An identifier character: `_`, or anything that is neither punctuation nor
/// whitespace.  This admits all non-ASCII characters.
pub open spec fn is_id_char(c: char) -> bool {
    c == '_' || (!is_punct(c) && !is_ws(c))
}

/// The first position at or after `i` whose character ends an identifier.
pub open spec fn id_end(s: Seq<char>, i: int) -> int
    decreases s.len() - i,
{
    if i < 0 || i >= s.len() || !is_id_char(s[i]) {
        i
    } else {
        id_end(s, i + 1)
    }
}

pub proof fn lemma_id_end_bounds(s: Seq<char>, i: int)
    requires
        0 <= i <= s.len(),
    ensures
        i <= id_end(s, i) <= s.len(),
    decreases s.len() - i,
{
    if i < s.len() && is_id_char(s[i]) {
        lemma_id_end_bounds(s, i + 1);
    }
}

/// The first position at or after `i` holding a newline, or the end of `s`.
pub open spec fn first_nl(s: Seq<char>, i: int) -> int
    decreases s.len() - i,
{
    if i < 0 || i >= s.len() {
        s.len() as int
    } else if s[i] == '\n' {
        i
    } else {
        first_nl(s, i + 1)
    }
}

pub proof fn lemma_first_nl_bounds(s: Seq<char>, i: int)
    requires
        0 <= i <= s.len(),
    ensures
        i <= first_nl(s, i) <= s.len(),
    decreases s.len() - i,
{
    if i < s.len() && s[i] != '\n' {
        lemma_first_nl_bounds(s, i + 1);
    }
}

/// The token that an identifier-shaped word denotes: a keyword, one of the
/// word-shaped operators `and`, `or`, `not`, or an identifier.
pub open spec fn keyword_token(name: Seq<char>) -> TokenView {
    if name == "and"@ {
        TokenView::Op(Operator::And)
    } else if name == "or"@ {
        TokenView::Op(Operator::Or)
    } else if name == "not"@ {
        TokenView::Op(Operator::Not)
    } else if name == "true"@ {
        TokenView::Key(Keyword::True)
    } else if name == "false"@ {
        TokenView::Key(Keyword::False)
    } else if name == "do"@ {
        TokenView::Key(Keyword::Do)
    } else if name == "end"@ {
        TokenView::Key(Keyword::End)
    } else if name == "if"@ {
        TokenView::Key(Keyword::If)
    } else if name == "then"@ {
        TokenView::Key(Keyword::Then)
    } else if name == "else"@ {
        TokenView::Key(Keyword::Else)
    } else if name == "elsif"@ {
        TokenView::Key(Keyword::Elsif)
    } else if name == "case"@ {
        TokenView::Key(Keyword::Case)
    } else if name == "in"@ {
        TokenView::Key(Keyword::In)
    } else if name == "for"@ {
        TokenView::Key(Keyword::For)
    } else if name == "nil"@ {
        TokenView::Key(Keyword::Nil)
    } else if name == "return"@ {
        TokenView::Key(Keyword::Return)
    } else if name == "assert"@ {
        TokenView::Key(Keyword::Assert)
    } else if name == "continue"@ {
        TokenView::Key(Keyword::Continue)
    } else if name == "break"@ {
        TokenView::Key(Keyword::Break)
    } else if name == "loop"@ {
        TokenView::Key(Keyword::Loop)
    } else if name == "class"@ {
        TokenView::Key(Keyword::Class)
    } else if name == "def"@ {
        TokenView::Key(Keyword::Def)
    } else {
        TokenView::Id(name)
    }
}

/// The operator written with the two given characters, if any.
pub open spec fn op2(c1: char, c2: char) -> Option<Operator> {
    if c1 == '/' && c2 == '/' {
        Some(Operator::DivFloor)
    } else if c1 == '*' && c2 == '*' {
        Some(Operator::Exp)
    } else if c1 == '.' && c2 == '.' {
        Some(Operator::Range)
    } else if c1 == '>' && c2 == '=' {
        Some(Operator::Ge)
    } else if c1 == '<' && c2 == '=' {
        Some(Operator::Le)
    } else if c1 == '=' && c2 == '=' {
        Some(Operator::Eq)
    } else if c1 == '<' && c2 == '>' {
        Some(Operator::Ne)
    } else if c1 == '|' && c2 == '>' {
        Some(Operator::Pipeline)
    } else {
        None
    }
}

/// The operator written with the single given character, if any.
pub open spec fn op1(c: char) -> Option<Operator> {
    if c == '+' {
        Some(Operator::Plus)
    } else if c == '-' {
        Some(Operator::Minus)
    } else if c == '*' {
        Some(Operator::Mul)
    } else if c == '/' {
        Some(Operator::Div)
    } else if c == '%' {
        Some(Operator::Mod)
    } else if c == '=' {
        Some(Operator::Assign)
    } else if c == ',' {
        Some(Operator::Comma)
    } else if c == '.' {
        Some(Operator::Member)
    } else if c == '>' {
        Some(Operator::Gt)
    } else if c == '<' {
        Some(Operator::Lt)
    } else if c == '(' {
        Some(Operator::LPar)
    } else if c == ')' {
        Some(Operator::RPar)
    } else if c == '[' {
        Some(Operator::LBrk)
    } else if c == ']' {
        Some(Operator::RBrk)
    } else if c == '{' {
        Some(Operator::LBrc)
    } else if c == '}' {
        Some(Operator::RBrc)
    } else if c == ':' {
        Some(Operator::Colon)
    } else if c == '$' {
        Some(Operator::Call)
    } else {
        None
    }
}

/// Everything one pass of the lexer produces: the located tokens and the
/// located error records, each in source order.
pub struct LexOut {
    pub toks: Seq<(TokenView, FileLocation)>,
    pub errs: Seq<(ErrorTypeView, FileLocation)>,
}

/// The token and error that a scanned numeral produces.
pub open spec fn num_out(s: Seq<char>, i: int) -> (Option<TokenView>, Option<ErrorTypeView>) {
    let sc = scan_num(s, i, false);
    if sc.is_float {
        if float_text_ok(sc.kept) {
            (Some(TokenView::Float(sc.kept)), None)
        } else {
            (None, Some(ErrorTypeView::InvalidNum("invalid float literal"@)))
        }
    } else {
        let radix = int_radix(sc.kept);
        let body = int_body(sc.kept);
        if digits_ok(body, radix) && digits_val(body, radix) <= i64::MAX {
            (Some(TokenView::Integer(digits_val(body, radix) as i64)), None)
        } else if int_overflows(body, radix) {
            (None, Some(ErrorTypeView::InvalidNum("Integer overflow 64-bits."@)))
        } else {
            (None, Some(ErrorTypeView::InvalidNum("Invalid Digit"@)))
        }
    }
}

/// The token and error that a scanned string literal produces.
pub open spec fn str_out(s: Seq<char>, i: int) -> (Option<TokenView>, Option<ErrorTypeView>) {
    let st = str_scan(s, i + 1, s[i]);
    if st.terminated && !st.invalid {
        (Some(TokenView::Str(st.text)), None)
    } else if st.terminated {
        (None, Some(ErrorTypeView::InvalidStr("String contains invalid escape sequence."@)))
    } else {
        (None, Some(ErrorTypeView::InvalidStr("String is not terminated"@)))
    }
}

/// One token or error prepended to the rest of a lex.
pub open spec fn lex_cons(
    out: (Option<TokenView>, Option<ErrorTypeView>),
    span: FileLocation,
    rest: LexOut,
) -> LexOut {
    LexOut {
        toks: (match out.0 {
            Some(t) => seq![(t, span)],
            None => Seq::empty(),
        }) + rest.toks,
        errs: (match out.1 {
            Some(e) => seq![(e, span)],
            None => Seq::empty(),
        }) + rest.errs,
    }
}

/// The whole lex of `s` from position `i`: the dispatch loop of the lexer,
/// one character class per step.
pub open spec fn lex(s: Seq<char>, i: int) -> LexOut
    decreases s.len() - i,
    via lex_dec
{
    if i < 0 || i >= s.len() {
        LexOut { toks: Seq::empty(), errs: Seq::empty() }
    } else {
        let c = s[i];
        if c == '-' && i + 1 < s.len() && s[i + 1] == '-' {
            lex(s, first_nl(s, i))
        } else if is_ws(c) {
            lex(s, i + 1)
        } else if is_dec(c) {
            let sc = scan_num(s, i, false);
            lex_cons(num_out(s, i), span_at(s, i, sc.pos), lex(s, sc.pos))
        } else if c == '"' || c == '\'' {
            let st = str_scan(s, i + 1, c);
            lex_cons(str_out(s, i), span_at(s, i, st.end), lex(s, st.end))
        } else if is_punct(c) {
            if i + 1 < s.len() && op2(c, s[i + 1]) is Some {
                lex_cons(
                    (Some(TokenView::Op(op2(c, s[i + 1]).unwrap())), None),
                    span_at(s, i, i + 2),
                    lex(s, i + 2),
                )
            } else if op1(c) is Some {
                lex_cons(
                    (Some(TokenView::Op(op1(c).unwrap())), None),
                    span_at(s, i, i + 1),
                    lex(s, i + 1),
                )
            } else {
                lex_cons(
                    (None, Some(ErrorTypeView::InvalidOp(seq![c]))),
                    span_at(s, i, i + 1),
                    lex(s, i + 1),
                )
            }
        } else {
            let e = id_end(s, i);
            lex_cons(
                (Some(keyword_token(s.subrange(i, e))), None),
                span_at(s, i, e),
                lex(s, e),
            )
        }
    }
}

#[via_fn]
proof fn lex_dec(s: Seq<char>, i: int) {
    if 0 <= i && i < s.len() {
        let c = s[i];
        if c == '-' && i + 1 < s.len() && s[i + 1] == '-' {
            lemma_first_nl_bounds(s, i + 1);
        } else if is_ws(c) {
        } else if is_dec(c) {
            crate::numbers::lemma_scan_num_bounds(s, i + 1, false);
        } else if c == '"' || c == '\'' {
            crate::strings::lemma_str_scan_bounds(s, i + 1, c);
        } else if is_punct(c) {
        } else {
            lemma_id_end_bounds(s, i + 1);
        }
    }
}

/// Where lexing starts: after the shebang line, when the buffer begins with
/// `#!`, else at the beginning.
pub open spec fn shebang_end(s: Seq<char>) -> int {
    if s.len() >= 2 && s[0] == '#' && s[1] == '!' {
        if first_nl(s, 0) < s.len() {
            first_nl(s, 0) + 1
        } else {
            s.len() as int
        }
    } else {
        0
    }
}

/// Everything lexing the buffer `s` produces.
pub open spec fn lex_source(s: Seq<char>) -> LexOut {
    lex(s, shebang_end(s))
}

/// The views of a located token sequence.
pub open spec fn tviews(v: Seq<(Token, FileLocation)>) -> Seq<(TokenView, FileLocation)> {
    v.map_values(|p: (Token, FileLocation)| (p.0@, p.1))
}

/// The views of a located error sequence.
pub open spec fn eviews(v: Seq<(ErrorType, FileLocation)>) -> Seq<(ErrorTypeView, FileLocation)> {
    v.map_values(|p: (ErrorType, FileLocation)| (p.0@, p.1))
}

/// The rendering of the first `k` error records against one file name.
pub open spec fn render_pre(
    name: Seq<char>,
    errs: Seq<(ErrorTypeView, FileLocation)>,
    k: int,
) -> Seq<char>
    decreases k,
{
    if k <= 0 {
        Seq::empty()
    } else {
        render_pre(name, errs, k - 1) + crate::diag::render_line(name, errs[k - 1].1, errs[k - 1].0)
    }
}

/// The rendering of a lexer's whole error log.
pub open spec fn render_lex(name: Seq<char>, errs: Seq<(ErrorTypeView, FileLocation)>) -> Seq<
    char,
> {
    render_pre(name, errs, errs.len() as int)
}

/// The lexer: it scans a whole source buffer once, on construction, into a
/// token sequence and an error log, and keeps the buffer for rendering.
pub struct Lexer {
    file_content: String,
    file_name: String,
    errors: Vec<(ErrorType, FileLocation)>,
    tokens: Vec<(Token, FileLocation)>,
}

impl Lexer {
    /// The characters of the source buffer.
    pub closed spec fn content(&self) -> Seq<char> {
        self.file_content@
    }

    /// The file name the buffer was registered under.
    pub closed spec fn name(&self) -> Seq<char> {
        self.file_name@
    }

    /// The located tokens, as stored.
    pub closed spec fn raw_toks(&self) -> Seq<(Token, FileLocation)> {
        self.tokens@
    }

    /// The located error records, as stored.
    pub closed spec fn raw_errs(&self) -> Seq<(ErrorType, FileLocation)> {
        self.errors@
    }

    /// The located tokens, at the view level.
    pub open spec fn toks(&self) -> Seq<(TokenView, FileLocation)> {
        tviews(self.raw_toks())
    }

    /// The located error records, at the view level.
    pub open spec fn errs(&self) -> Seq<(ErrorTypeView, FileLocation)> {
        eviews(self.raw_errs())
    }

    /// Lex a whole buffer.  The tokens and errors produced are exactly those
    /// of the specification-level lex of the buffer's characters.
    pub fn new(file_content: String, file_name: String) -> (r: Self)
        ensures
            r.content() == file_content@,
            r.name() == file_name@,
            r.toks() == lex_source(file_content@).toks,
            r.errs() == lex_source(file_content@).errs,
    {
        let mut iter = FileIterator::new(file_content.as_str());
        let mut tokens: Vec<(Token, FileLocation)> = Vec::new();
        let mut errors: Vec<(ErrorType, FileLocation)> = Vec::new();
        Self::consume(&mut iter, &mut tokens, &mut errors);
        Lexer { file_content, file_name, tokens, errors }
    }

    /// Whether any diagnostic was recorded while lexing.
    pub fn has_error(&self) -> (r: bool)
        ensures
            r == (self.errs().len() > 0),
    {
        self.errors.len() > 0
    }

    /// Whether any recorded diagnostic is of end-of-input type (an
    /// unterminated string).
    pub fn has_eof_error(&self) -> (r: bool)
        ensures
            r == exists|k: int|
                0 <= k < self.errs().len() && crate::diag::is_eof_kind(#[trigger] self.errs()[k].0),
    {
        let mut i: usize = 0;
        while i < self.errors.len()
            invariant
                0 <= i <= self.raw_errs().len(),
                forall|k: int| 0 <= k < i ==> !crate::diag::is_eof_kind(#[trigger] self.errs()[k].0),
            decreases self.raw_errs().len() - i,
        {
            if self.errors[i].0.eof_kind() {
                proof {
                    assert(self.errs()[i as int].0 == self.raw_errs()[i as int].0@);
                }
                return true;
            }
            i = i + 1;
        }
        false
    }

    /// Whether any recorded diagnostic is not of end-of-input type.
    pub fn has_non_eof_error(&self) -> (r: bool)
        ensures
            r == exists|k: int|
                0 <= k < self.errs().len() && !crate::diag::is_eof_kind(
                    #[trigger] self.errs()[k].0,
                ),
    {
        let mut i: usize = 0;
        while i < self.errors.len()
            invariant
                0 <= i <= self.raw_errs().len(),
                forall|k: int| 0 <= k < i ==> crate::diag::is_eof_kind(#[trigger] self.errs()[k].0),
            decreases self.raw_errs().len() - i,
        {
            if !self.errors[i].0.eof_kind() {
                proof {
                    assert(self.errs()[i as int].0 == self.raw_errs()[i as int].0@);
                }
                return true;
            }
            i = i + 1;
        }
        false
    }

    /// How many diagnostics were recorded.
    pub fn diagnostic_count(&self) -> (r: usize)
        ensures
            r == self.errs().len(),
    {
        self.errors.len()
    }

    /// Drop every recorded diagnostic; the tokens stay.
    pub fn clear_diagnoses(&mut self)
        ensures
            final(self).errs().len() == 0,
            final(self).toks() == old(self).toks(),
            final(self).content() == old(self).content(),
            final(self).name() == old(self).name(),
    {
        self.errors = Vec::new();
        proof {
            assert(self.errs() =~= Seq::<(ErrorTypeView, FileLocation)>::empty());
        }
    }

    /// Render the whole error log against the file name, one line per
    /// record.  Rendering is a pure function of the log: rendering twice
    /// yields identical text.
    pub fn render_error(&self) -> (r: String)
        ensures
            r@ == render_lex(self.name(), self.errs()),
    {
        let mut out = String::new();
        let mut i: usize = 0;
        while i < self.errors.len()
            invariant
                0 <= i <= self.raw_errs().len(),
                out@ == render_pre(self.name(), self.errs(), i as int),
            decreases self.raw_errs().len() - i,
        {
            let e = &self.errors[i];
            crate::diag::push_render_line(&mut out, self.file_name.as_str(), &e.1, &e.0);
            proof {
                let j = i as int;
                assert(self.errs()[j] == (self.raw_errs()[j].0@, self.raw_errs()[j].1));
            }
            i = i + 1;
        }
        out
    }

    /// A cursor over this lexer's token sequence.
    pub fn iter<'a>(&'a self) -> (r: TokenIterator<'a>)
        ensures
            r.wf(),
            r.toks() == self.raw_toks(),
            r.pos() == 0,
            r.loc() == (FileLocation {
                start: LineLocation { line: 0, offset: 0 },
                end: LineLocation { line: 0, offset: 0 },
            }),
    {
        TokenIterator::new(&self.tokens)
    }

    /// Scan one numeric literal from the cursor, which stands on a decimal
    /// digit (or anywhere a numeral may start).  Digit separators are
    /// dropped; a `.`, `e` or `E` marks the literal as a float, whose text
    /// must fit the decimal-float grammar; integer literals are decoded in
    /// their radix and must fit 64 signed bits.
    pub fn consume_num(iter: &mut FileIterator) -> (r: Result<
        (Token, FileLocation),
        (ErrorType, FileLocation),
    >)
        requires
            old(iter).wf(),
        ensures
            final(iter).wf(),
            final(iter).src() == old(iter).src(),
            ({
                let s = old(iter).src();
                let p0 = old(iter).pos();
                let sc = scan_num(s, p0, false);
                let span = FileLocation { start: old(iter).loc(), end: final(iter).loc() };
                &&& final(iter).pos() == sc.pos
                &&& (match r {
                    Ok((t, l)) => num_out(s, p0).0 == Some(t@) && num_out(s, p0).1 is None && l
                        == span,
                    Err((e, l)) => num_out(s, p0).1 == Some(e@) && num_out(s, p0).0 is None && l
                        == span,
                })
            }),
    {
        let ghost s = iter.src();
        let ghost p0 = iter.pos();
        proof {
            iter.bounds();
        }
        let start = iter.get_location();
        let mut num: Vec<char> = Vec::new();
        let mut e_flag = false;
        let mut float_flag = false;
        loop
            invariant
                iter.wf(),
                s == old(iter).src(),
                p0 == old(iter).pos(),
                iter.src() == s,
                0 <= p0 <= iter.pos() <= s.len(),
                scan_num(s, p0, false).pos == scan_num(s, iter.pos(), e_flag).pos,
                scan_num(s, p0, false).kept =~= num@ + scan_num(s, iter.pos(), e_flag).kept,
                scan_num(s, p0, false).is_float == (float_flag || scan_num(
                    s,
                    iter.pos(),
                    e_flag,
                ).is_float),
            ensures
                iter.wf(),
                iter.src() == s,
                0 <= p0 <= iter.pos() <= s.len(),
                scan_num(s, p0, false).pos == iter.pos(),
                scan_num(s, p0, false).kept =~= num@,
                scan_num(s, p0, false).is_float == float_flag,
            decreases s.len() - iter.pos(),
        {
            let (o1, o2) = iter.peek2();
            let c = match o1 {
                Some(c) => c,
                None => {
                    break ;
                },
            };
            let two_dots = c == '.' && (match o2 {
                Some(c2) => c2 == '.',
                None => false,
            });
            let mut push = false;
            if two_dots {
                break ;
            } else if (c == '+' || c == '-') && e_flag {
                push = true;
            } else if c == '_' {
                push = false;
            } else if c == '.' {
                push = true;
            } else if punct_char(c) || ws_char(c) {
                break ;
            } else {
                push = true;
            }
            proof {
                let p = iter.pos();
                assert(scan_num(s, p, e_flag) == crate::numbers::scan_num_step(s, p, push));
            }
            if push {
                num.push(c);
            }
            float_flag = float_flag || c == '.' || c == 'e' || c == 'E';
            e_flag = c == 'e' || c == 'E';
            iter.next();
        }
        let end = iter.get_location();
        let location = FileLocation::new(start, end);
        proof {
            assert(scan_num(s, p0, false).kept =~= num@);
        }
        if float_flag {
            if float_ok(&num) {
                Ok((Token::Float(chars_string(&num)), location))
            } else {
                Err((ErrorType::InvalidNum("invalid float literal".to_owned()), location))
            }
        } else {
            match parse_int(&num) {
                Ok(v) => Ok((Token::Integer(v), location)),
                Err(m) => Err((ErrorType::InvalidNum(m), location)),
            }
        }
    }

    /// Scan one identifier or keyword from the cursor: `_` and every
    /// character outside the punctuation and whitespace classes extend the
    /// word; the finished word is matched against the keyword table, with
    /// `and`, `or` and `not` lexed as operators.  Never fails.
    pub fn consume_id_or_key(iter: &mut FileIterator) -> (r: Result<
        (Token, FileLocation),
        (ErrorType, FileLocation),
    >)
        requires
            old(iter).wf(),
        ensures
            final(iter).wf(),
            final(iter).src() == old(iter).src(),
            ({
                let s = old(iter).src();
                let p0 = old(iter).pos();
                let e = id_end(s, p0);
                &&& final(iter).pos() == e
                &&& (match r {
                    Ok((t, l)) => t@ == keyword_token(s.subrange(p0, e)) && l == (FileLocation {
                        start: old(iter).loc(),
                        end: final(iter).loc(),
                    }),
                    Err(_) => false,
                })
            }),
    {
        let ghost s = iter.src();
        let ghost p0 = iter.pos();
        proof {
            iter.bounds();
        }
        let start = iter.get_location();
        let mut buf: Vec<char> = Vec::new();
        loop
            invariant
                iter.wf(),
                s == old(iter).src(),
                p0 == old(iter).pos(),
                iter.src() == s,
                0 <= p0 <= iter.pos() <= s.len(),
                id_end(s, p0) == id_end(s, iter.pos()),
                buf@ =~= s.subrange(p0, iter.pos()),
            ensures
                iter.wf(),
                iter.src() == s,
                0 <= p0 <= iter.pos() <= s.len(),
                id_end(s, p0) == iter.pos(),
                buf@ =~= s.subrange(p0, iter.pos()),
            decreases s.len() - iter.pos(),
        {
            let c = match iter.peek() {
                Some(c) => c,
                None => {
                    break ;
                },
            };
            if c == '_' {
            } else if punct_char(c) || ws_char(c) {
                break ;
            }
            proof {
                assert(is_id_char(s[iter.pos()]));
                assert(s.subrange(p0, iter.pos() + 1) =~= s.subrange(p0, iter.pos()).push(c));
            }
            buf.push(c);
            iter.next();
        }
        let location = FileLocation::new(start, iter.get_location());
        let t: Token = if buf_is(&buf, "and") {
            Token::Op(Operator::And)
        } else if buf_is(&buf, "or") {
            Token::Op(Operator::Or)
        } else if buf_is(&buf, "not") {
            Token::Op(Operator::Not)
        } else if buf_is(&buf, "true") {
            Token::Key(Keyword::True)
        } else if buf_is(&buf, "false") {
            Token::Key(Keyword::False)
        } else if buf_is(&buf, "do") {
            Token::Key(Keyword::Do)
        } else if buf_is(&buf, "end") {
            Token::Key(Keyword::End)
        } else if buf_is(&buf, "if") {
            Token::Key(Keyword::If)
        } else if buf_is(&buf, "then") {
            Token::Key(Keyword::Then)
        } else if buf_is(&buf, "else") {
            Token::Key(Keyword::Else)
        } else if buf_is(&buf, "elsif") {
            Token::Key(Keyword::Elsif)
        } else if buf_is(&buf, "case") {
            Token::Key(Keyword::Case)
        } else if buf_is(&buf, "in") {
            Token::Key(Keyword::In)
        } else if buf_is(&buf, "for") {
            Token::Key(Keyword::For)
        } else if buf_is(&buf, "nil") {
            Token::Key(Keyword::Nil)
        } else if buf_is(&buf, "return") {
            Token::Key(Keyword::Return)
        } else if buf_is(&buf, "assert") {
            Token::Key(Keyword::Assert)
        } else if buf_is(&buf, "continue") {
            Token::Key(Keyword::Continue)
        } else if buf_is(&buf, "break") {
            Token::Key(Keyword::Break)
        } else if buf_is(&buf, "loop") {
            Token::Key(Keyword::Loop)
        } else if buf_is(&buf, "class") {
            Token::Key(Keyword::Class)
        } else if buf_is(&buf, "def") {
            Token::Key(Keyword::Def)
        } else {
            Token::Id(chars_string(&buf))
        };
        Ok((t, location))
    }

    /// Scan one string literal from the cursor, which stands on the opening
    /// quote.  The matching quote terminates the literal; a bad escape marks
    /// it invalid without stopping the scan; end of input before the closing
    /// quote is the distinct unterminated case.
    pub fn consume_string(iter: &mut FileIterator) -> (r: Result<
        (Token, FileLocation),
        (ErrorType, FileLocation),
    >)
        requires
            old(iter).wf(),
            old(iter).pos() < old(iter).src().len(),
            old(iter).src()[old(iter).pos()] == '"' || old(iter).src()[old(iter).pos()] == '\'',
        ensures
            final(iter).wf(),
            final(iter).src() == old(iter).src(),
            ({
                let s = old(iter).src();
                let p0 = old(iter).pos();
                let st = str_scan(s, p0 + 1, s[p0]);
                let span = FileLocation { start: old(iter).loc(), end: final(iter).loc() };
                &&& final(iter).pos() == st.end
                &&& (match r {
                    Ok((t, l)) => st.terminated && !st.invalid && t@ == TokenView::Str(st.text)
                        && l == span,
                    Err((e, l)) => l == span && (if st.terminated {
                        st.invalid && e@ == ErrorTypeView::InvalidStr(
                            "String contains invalid escape sequence."@,
                        )
                    } else {
                        e@ == ErrorTypeView::InvalidStr("String is not terminated"@)
                    }),
                })
            }),
    {
        let ghost s = iter.src();
        let ghost p0 = iter.pos();
        proof {
            iter.bounds();
        }
        let start = iter.get_location();
        let qc = match iter.next() {
            Some(c) => c,
            None => {
                proof {
                    assert(false);
                }
                '"'
            },
        };
        let mut resbuf = String::new();
        let mut invalid = false;
        loop
            invariant
                iter.wf(),
                s == old(iter).src(),
                p0 == old(iter).pos(),
                iter.src() == s,
                qc == s[p0],
                start == old(iter).loc(),
                0 <= p0,
                p0 + 1 <= iter.pos() <= s.len(),
                str_scan(s, p0 + 1, qc).end == str_scan(s, iter.pos(), qc).end,
                str_scan(s, p0 + 1, qc).text =~= resbuf@ + str_scan(s, iter.pos(), qc).text,
                str_scan(s, p0 + 1, qc).invalid == (invalid || str_scan(
                    s,
                    iter.pos(),
                    qc,
                ).invalid),
                str_scan(s, p0 + 1, qc).terminated == str_scan(s, iter.pos(), qc).terminated,
            decreases s.len() - iter.pos(),
        {
            let ghost p = iter.pos();
            let c = match iter.next() {
                Some(c) => c,
                None => {
                    return Err(
                        (
                            ErrorType::InvalidStr("String is not terminated".to_owned()),
                            FileLocation::new(start, iter.get_location()),
                        ),
                    );
                },
            };
            if c == qc {
                proof {
                    assert(str_scan(s, p0 + 1, qc).text =~= resbuf@);
                }
                let location = FileLocation::new(start, iter.get_location());
                if !invalid {
                    return Ok((Token::Str(resbuf), location));
                } else {
                    return Err(
                        (
                            ErrorType::InvalidStr(
                                "String contains invalid escape sequence.".to_owned(),
                            ),
                            location,
                        ),
                    );
                }
            } else if c == '\\' {
                match consume_escape(iter) {
                    Ok(c2) => {
                        push_char(&mut resbuf, c2);
                    },
                    Err(_) => {
                        invalid = true;
                    },
                }
                proof {
                    iter.bounds();
                    crate::strings::lemma_esc_scan_bounds(s, p + 1);
                }
            } else {
                push_char(&mut resbuf, c);
            }
        }
    }

    /// Scan one operator from the cursor, which stands on a punctuation
    /// character: the two-character operators are matched greedily, then the
    /// single-character ones; any other punctuation character is an invalid
    /// operator.
    pub fn consume_op(iter: &mut FileIterator) -> (r: Result<
        (Token, FileLocation),
        (ErrorType, FileLocation),
    >)
        requires
            old(iter).wf(),
            old(iter).pos() < old(iter).src().len(),
        ensures
            final(iter).wf(),
            final(iter).src() == old(iter).src(),
            ({
                let s = old(iter).src();
                let p0 = old(iter).pos();
                let c = s[p0];
                let span = FileLocation { start: old(iter).loc(), end: final(iter).loc() };
                if p0 + 1 < s.len() && op2(c, s[p0 + 1]) is Some {
                    &&& final(iter).pos() == p0 + 2
                    &&& r == Ok::<(Token, FileLocation), (ErrorType, FileLocation)>(
                        (Token::Op(op2(c, s[p0 + 1]).unwrap()), span),
                    )
                } else if op1(c) is Some {
                    &&& final(iter).pos() == p0 + 1
                    &&& r == Ok::<(Token, FileLocation), (ErrorType, FileLocation)>(
                        (Token::Op(op1(c).unwrap()), span),
                    )
                } else {
                    &&& final(iter).pos() == p0 + 1
                    &&& (match r {
                        Ok(_) => false,
                        Err((e, l)) => e@ == ErrorTypeView::InvalidOp(seq![c]) && l == span,
                    })
                }
            }),
    {
        proof {
            iter.bounds();
        }
        let start = iter.get_location();
        let (o1, o2) = iter.peek2();
        let c = match o1 {
            Some(c) => c,
            None => {
                proof {
                    assert(false);
                }
                ' '
            },
        };
        let two: Option<Operator> = match o2 {
            Some(c2) => op2_exec(c, c2),
            None => None,
        };
        match two {
            Some(op) => {
                iter.next();
                iter.next();
                let location = FileLocation::new(start, iter.get_location());
                Ok((Token::Op(op), location))
            },
            None => {
                iter.next();
                let location = FileLocation::new(start, iter.get_location());
                match op1_exec(c) {
                    Some(op) => Ok((Token::Op(op), location)),
                    None => {
                        let mut t = String::new();
                        push_char(&mut t, c);
                        proof {
                            assert(t@ =~= seq![c]);
                        }
                        Err((ErrorType::InvalidOp(t), location))
                    },
                }
            },
        }
    }

    /// The dispatch loop: skip a shebang line, then scan token after token
    /// until the buffer is exhausted, appending tokens and error records in
    /// source order.
    fn consume(
        iter: &mut FileIterator,
        tokens: &mut Vec<(Token, FileLocation)>,
        errors: &mut Vec<(ErrorType, FileLocation)>,
    )
        requires
            old(iter).wf(),
            old(iter).pos() == 0,
            old(tokens)@.len() == 0,
            old(errors)@.len() == 0,
        ensures
            tviews(final(tokens)@) == lex_source(old(iter).src()).toks,
            eviews(final(errors)@) == lex_source(old(iter).src()).errs,
    {
        let ghost s = iter.src();
        // Skip a shebang (#!...) first line.
        let (a, b) = iter.peek2();
        let shebang = (match a {
            Some(c) => c == '#',
            None => false,
        }) && (match b {
            Some(c) => c == '!',
            None => false,
        });
        if shebang {
            proof {
                lemma_first_nl_bounds(s, 0);
            }
            loop
                invariant
                    iter.wf(),
                    s == old(iter).src(),
                    iter.src() == s,
                    0 <= iter.pos() <= s.len(),
                    first_nl(s, 0) == first_nl(s, iter.pos()),
                    iter.pos() <= first_nl(s, 0),
                ensures
                    iter.wf(),
                    iter.src() == s,
                    iter.pos() == first_nl(s, 0),
                decreases s.len() - iter.pos(),
            {
                let stop = match iter.peek() {
                    Some(c) => c == '\n',
                    None => true,
                };
                if stop {
                    break ;
                }
                proof {
                    lemma_first_nl_bounds(s, iter.pos() + 1);
                }
                iter.next();
            }
            match iter.peek() {
                Some(_) => {
                    iter.next();
                },
                None => {},
            }
            proof {
                assert(iter.pos() == shebang_end(s));
            }
        }
        proof {
            assert(iter.pos() == shebang_end(s));
        }
        // Scan token after token.
        loop
            invariant
                iter.wf(),
                s == old(iter).src(),
                iter.src() == s,
                0 <= iter.pos() <= s.len(),
                lex_source(s).toks =~= tviews(tokens@) + lex(s, iter.pos()).toks,
                lex_source(s).errs =~= eviews(errors@) + lex(s, iter.pos()).errs,
            ensures
                iter.pos() >= s.len(),
                lex_source(s).toks =~= tviews(tokens@) + lex(s, iter.pos()).toks,
                lex_source(s).errs =~= eviews(errors@) + lex(s, iter.pos()).errs,
            decreases s.len() - iter.pos(),
        {
            let ghost p = iter.pos();
            let (o1, o2) = iter.peek2();
            let c = match o1 {
                Some(c) => c,
                None => {
                    break ;
                },
            };
            let comment = c == '-' && (match o2 {
                Some(c2) => c2 == '-',
                None => false,
            });
            if comment {
                proof {
                    lemma_first_nl_bounds(s, p);
                }
                // Skip to (not including) the next newline.
                loop
                    invariant
                        iter.wf(),
                        iter.src() == s,
                        0 <= iter.pos() <= s.len(),
                        first_nl(s, p) == first_nl(s, iter.pos()),
                        iter.pos() <= first_nl(s, p),
                    ensures
                        iter.wf(),
                        iter.src() == s,
                        iter.pos() == first_nl(s, p),
                    decreases s.len() - iter.pos(),
                {
                    match iter.peek() {
                        Some(c2) => {
                            if c2 == '\n' {
                                break ;
                            }
                        },
                        None => {
                            break ;
                        },
                    }
                    proof {
                        lemma_first_nl_bounds(s, iter.pos() + 1);
                    }
                    iter.next();
                }
                proof {
                    lemma_first_nl_bounds(s, p + 1);
                    assert(iter.pos() == first_nl(s, p));
                }
            } else if ws_char(c) {
                iter.next();
            } else if crate::numbers::dec_char(c) {
                proof {
                    iter.bounds();
                    lemma_adv_bounds(s.take(p));
                    crate::numbers::lemma_scan_num_bounds(s, p + 1, false);
                }
                let r = Self::consume_num(iter);
                proof {
                    iter.bounds();
                    lemma_adv_bounds(s.take(iter.pos()));
                }
                match r {
                    Ok(x) => {
                        tokens.push(x);
                    },
                    Err(x) => {
                        errors.push(x);
                    },
                }
            } else if c == '"' || c == '\'' {
                proof {
                    iter.bounds();
                    lemma_adv_bounds(s.take(p));
                    crate::strings::lemma_str_scan_bounds(s, p + 1, c);
                }
                let r = Self::consume_string(iter);
                proof {
                    iter.bounds();
                    lemma_adv_bounds(s.take(iter.pos()));
                }
                match r {
                    Ok(x) => {
                        tokens.push(x);
                    },
                    Err(x) => {
                        errors.push(x);
                    },
                }
            } else if punct_char(c) {
                proof {
                    iter.bounds();
                    lemma_adv_bounds(s.take(p));
                }
                let r = Self::consume_op(iter);
                proof {
                    iter.bounds();
                    lemma_adv_bounds(s.take(iter.pos()));
                }
                match r {
                    Ok(x) => {
                        tokens.push(x);
                    },
                    Err(x) => {
                        errors.push(x);
                    },
                }
            } else {
                proof {
                    iter.bounds();
                    lemma_adv_bounds(s.take(p));
                    lemma_id_end_bounds(s, p + 1);
                }
                let r = Self::consume_id_or_key(iter);
                proof {
                    iter.bounds();
                    lemma_adv_bounds(s.take(iter.pos()));
                }
                match r {
                    Ok(x) => {
                        tokens.push(x);
                    },
                    Err(_) => {},
                }
            }
        }
        proof {
            assert(lex(s, iter.pos()).toks =~= Seq::<(TokenView, FileLocation)>::empty());
            assert(lex(s, iter.pos()).errs =~= Seq::<(ErrorTypeView, FileLocation)>::empty());
            assert(tviews(tokens@) =~= lex_source(s).toks);
            assert(eviews(errors@) =~= lex_source(s).errs);
        }
    }
}

/// The word equals the given literal, character for character.
fn buf_is(buf: &Vec<char>, s: &str) -> (r: bool)
    ensures
        r == (buf@ == s@),
{
    let n = s.unicode_len();
    if buf.len() != n {
        proof {
            assert(buf@ != s@) by {
                if buf@ == s@ {
                    assert(buf@.len() == s@.len());
                }
            }
        }
        return false;
    }
    let mut i: usize = 0;
    while i < n
        invariant
            0 <= i <= n,
            n == s@.len(),
            buf@.len() == n,
            forall|j: int| 0 <= j < i ==> buf@[j] == s@[j],
        decreases n - i,
    {
        if buf[i] != s.get_char(i) {
            proof {
                assert(buf@[i as int] != s@[i as int]);
            }
            return false;
        }
        i = i + 1;
    }
    proof {
        assert(buf@ =~= s@);
    }
    true
}

/// Exec mirror of [`op2`].
fn op2_exec(c1: char, c2: char) -> (r: Option<Operator>)
    ensures
        r == op2(c1, c2),
{
    if c1 == '/' && c2 == '/' {
        Some(Operator::DivFloor)
    } else if c1 == '*' && c2 == '*' {
        Some(Operator::Exp)
    } else if c1 == '.' && c2 == '.' {
        Some(Operator::Range)
    } else if c1 == '>' && c2 == '=' {
        Some(Operator::Ge)
    } else if c1 == '<' && c2 == '=' {
        Some(Operator::Le)
    } else if c1 == '=' && c2 == '=' {
        Some(Operator::Eq)
    } else if c1 == '<' && c2 == '>' {
        Some(Operator::Ne)
    } else if c1 == '|' && c2 == '>' {
        Some(Operator::Pipeline)
    } else {
        None
    }
}

/// Exec mirror of [`op1`].
fn op1_exec(c: char) -> (r: Option<Operator>)
    ensures
        r == op1(c),
{
    if c == '+' {
        Some(Operator::Plus)
    } else if c == '-' {
        Some(Operator::Minus)
    } else if c == '*' {
        Some(Operator::Mul)
    } else if c == '/' {
        Some(Operator::Div)
    } else if c == '%' {
        Some(Operator::Mod)
    } else if c == '=' {
        Some(Operator::Assign)
    } else if c == ',' {
        Some(Operator::Comma)
    } else if c == '.' {
        Some(Operator::Member)
    } else if c == '>' {
        Some(Operator::Gt)
    } else if c == '<' {
        Some(Operator::Lt)
    } else if c == '(' {
        Some(Operator::LPar)
    } else if c == ')' {
        Some(Operator::RPar)
    } else if c == '[' {
        Some(Operator::LBrk)
    } else if c == ']' {
        Some(Operator::RBrk)
    } else if c == '{' {
        Some(Operator::LBrc)
    } else if c == '}' {
        Some(Operator::RBrc)
    } else if c == ':' {
        Some(Operator::Colon)
    } else if c == '$' {
        Some(Operator::Call)
    } else {
        None
    }
}


} // verus!
