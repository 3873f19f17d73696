//! The parser: precedence-climbing expression parsing and statement-level
//! recursive descent over one token cursor per source unit, with panic-mode
//! error recovery.
//!
//! Nothing is ever fatal: every malformed construct degrades to an
//! [`Expr_::Error`] node plus diagnostics, and parsing continues.  The
//! statement sequence is append-only, and callers can retrieve just the
//! statements produced since their last retrieval.

use vstd::prelude::*;
use vstd::string::StringExecFns;

use crate::ast::{Ast, Const, Expr, Expr_, OpInfix, OpPostfix, OpPrefix, Stat, Stat_};
use crate::grammar::{
    expr_matches, infix_binding, p_add, p_block, p_block_items, p_class, p_cond_then, p_climb,
    p_def, p_expr, p_if, p_if_arms, p_else_arms, p_next, p_peek_loc, p_skip_key, p_skip_op,
    p_stmts, p_to_key, p_to_op, spec_infix_of, stat_matches, PState,
};
use crate::diag::{is_eof_kind, render_line, ErrorType, ErrorTypeView};
use crate::lexer::{render_lex, Lexer};
use crate::location::{FileLocation, LineLocation};
use crate::pathmap::{path_entries, path_map_get, path_map_insert, path_map_new};
use crate::token::{is_key, is_op, same_tag, Keyword, Operator, Token, TokenView};
use crate::util::TokenIterator;

verus! {

/// The binding powers of an infix operator, low to high: assignment, comma,
/// range, `or`, `and`, comparisons, additive, multiplicative, exponent.
pub fn precedence_infix(op: OpInfix) -> (r: (u32, u32))
    ensures
        r == infix_binding(op),
        r.0 < r.1,
{
    match op {
        OpInfix::Assign => (1, 2),
        OpInfix::Comma => (3, 4),
        OpInfix::Range => (5, 6),
        OpInfix::Or => (7, 8),
        OpInfix::And => (9, 10),
        OpInfix::Eq | OpInfix::Ne | OpInfix::Le | OpInfix::Lt | OpInfix::Gt | OpInfix::Ge => (
            11,
            12,
        ),
        OpInfix::Plus | OpInfix::Minus => (13, 14),
        OpInfix::Mul | OpInfix::Div | OpInfix::DivFloor | OpInfix::Mod => (15, 16),
        OpInfix::Exp => (17, 18),
    }
}

/// The binding power of a prefix operator: above every infix operator.
pub fn precedence_prefix() -> (r: u32)
    ensures
        r == 100,
{
    100
}

/// The binding power of a postfix operator: above everything, so postfixes
/// bind tighter than any binary combination.
pub fn precedence_postfix() -> (r: u32)
    ensures
        r == 101,
{
    101
}

/// The view of an optional token.
pub open spec fn view_opt(t: Option<Token>) -> Option<TokenView> {
    match t {
        Some(t) => Some(t@),
        None => None,
    }
}

/// The view of an optional previous-context token and span.
pub open spec fn view_prev(p: Option<(Token, FileLocation)>) -> Option<(TokenView, FileLocation)> {
    match p {
        Some(q) => Some((q.0@, q.1)),
        None => None,
    }
}

/// The token's kind matches the caller-supplied forbidden-next-token, by
/// the payload-ignoring kind equality.
pub open spec fn avoid_matches(t: TokenView, a: Option<TokenView>) -> bool {
    match a {
        Some(av) => same_tag(t, av),
        None => false,
    }
}

/// The token cannot extend an expression: it is neither an infix operator
/// nor the postfix marker, so the climbing loop stops in front of it.
pub open spec fn stops_climb(t: TokenView) -> bool {
    match t {
        TokenView::Op(o) => spec_infix_of(o) is None && o != Operator::Call,
        _ => true,
    }
}

/// The token is a payload-free leaf: an integer literal, `nil`, `true` or
/// `false`, which parses to exactly one constant node.
pub open spec fn simple_leaf(t: TokenView) -> bool {
    match t {
        TokenView::Integer(_) => true,
        TokenView::Key(k) => k == Keyword::Nil || k == Keyword::True || k == Keyword::False,
        _ => false,
    }
}

/// The constant node a payload-free leaf token parses to.
pub open spec fn leaf_val(t: TokenView) -> Expr_ {
    match t {
        TokenView::Integer(i) => Expr_::Const(Const::Int(i)),
        TokenView::Key(Keyword::Nil) => Expr_::Const(Const::Nil),
        TokenView::Key(Keyword::True) => Expr_::Const(Const::Bool(true)),
        TokenView::Key(Keyword::False) => Expr_::Const(Const::Bool(false)),
        _ => Expr_::Error,
    }
}

/// An owned copy of an optional token, equal at the view level.
fn dup_opt(t: &Option<Token>) -> (r: Option<Token>)
    ensures
        view_opt(r) == view_opt(*t),
{
    match t {
        Some(t) => Some(t.duplicate()),
        None => None,
    }
}

/// The views of the parser's diagnostic records.
pub open spec fn dviews(v: Seq<(ErrorType, FileLocation, usize)>) -> Seq<
    (ErrorTypeView, FileLocation, usize),
> {
    v.map_values(|p: (ErrorType, FileLocation, usize)| (p.0@, p.1, p.2))
}

/// The parser-level records a production appended, tagged with the file id
/// they were recorded under.
pub open spec fn tag_diags(d: Seq<(ErrorTypeView, FileLocation)>, id: usize) -> Seq<
    (ErrorTypeView, FileLocation, usize),
> {
    d.map_values(|p: (ErrorTypeView, FileLocation)| (p.0, p.1, id))
}

/// Tagging distributes over concatenation of diagnostic runs.
pub proof fn lemma_tag_chain(
    base: Seq<(ErrorTypeView, FileLocation, usize)>,
    a: Seq<(ErrorTypeView, FileLocation)>,
    b: Seq<(ErrorTypeView, FileLocation)>,
    id: usize,
)
    ensures
        base + tag_diags(a + b, id) == (base + tag_diags(a, id)) + tag_diags(b, id),
{
    assert(base + tag_diags(a + b, id) =~= (base + tag_diags(a, id)) + tag_diags(b, id));
}

/// Tagging one appended record.
pub proof fn lemma_tag_push(
    base: Seq<(ErrorTypeView, FileLocation, usize)>,
    a: Seq<(ErrorTypeView, FileLocation)>,
    e: ErrorTypeView,
    l: FileLocation,
    id: usize,
)
    ensures
        base + tag_diags(a.push((e, l)), id) == (base + tag_diags(a, id)).push((e, l, id)),
        base + tag_diags(a + seq![(e, l)], id) == (base + tag_diags(a, id)).push((e, l, id)),
{
    assert(base + tag_diags(a.push((e, l)), id) =~= (base + tag_diags(a, id)).push((e, l, id)));
    assert(base + tag_diags(a + seq![(e, l)], id) =~= (base + tag_diags(a, id)).push((e, l, id)));
}

/// Tagging nothing.
pub proof fn lemma_tag_empty(base: Seq<(ErrorTypeView, FileLocation, usize)>, id: usize)
    ensures
        base + tag_diags(Seq::empty(), id) == base,
{
    assert(base + tag_diags(Seq::<(ErrorTypeView, FileLocation)>::empty(), id) =~= base);
}

/// Some record in the log is of end-of-input type.
pub open spec fn has_eof_rec(d: Seq<(ErrorTypeView, FileLocation, usize)>) -> bool {
    exists|k: int| 0 <= k < d.len() && is_eof_kind(#[trigger] d[k].0)
}

/// Some record in the log is not of end-of-input type.
pub open spec fn has_non_eof_rec(d: Seq<(ErrorTypeView, FileLocation, usize)>) -> bool {
    exists|k: int| 0 <= k < d.len() && !is_eof_kind(#[trigger] d[k].0)
}

/// Appending to a diagnostic log preserves the fact that something was
/// recorded past a baseline, or that an end-of-input record already stood
/// at the baseline: the shape every error path leaves behind.
pub proof fn lemma_diag_growth(
    a: Seq<(ErrorTypeView, FileLocation, usize)>,
    b: Seq<(ErrorTypeView, FileLocation, usize)>,
    c: Seq<(ErrorTypeView, FileLocation, usize)>,
)
    requires
        a.is_prefix_of(b),
        b.is_prefix_of(c),
        c.len() > b.len() || has_eof_rec(b),
    ensures
        c.len() > a.len() || has_eof_rec(a),
{
    if !(c.len() > b.len()) {
        let k = choose|k: int| 0 <= k < b.len() && is_eof_kind(#[trigger] b[k].0);
        if k < a.len() {
            assert(a[k] == b.subrange(0, a.len() as int)[k]);
            assert(is_eof_kind(a[k].0));
        }
    }
}

/// Some registered lexer recorded an end-of-input-type diagnostic.
pub open spec fn lexers_have_eof(ls: Seq<Lexer>) -> bool {
    exists|i: int, k: int|
        0 <= i < ls.len() && 0 <= k < ls[i].errs().len() && is_eof_kind(
            #[trigger] ls[i].errs()[k].0,
        )
}

/// Some registered lexer recorded a diagnostic that is not of
/// end-of-input type.
pub open spec fn lexers_have_non_eof(ls: Seq<Lexer>) -> bool {
    exists|i: int, k: int|
        0 <= i < ls.len() && 0 <= k < ls[i].errs().len() && !is_eof_kind(
            #[trigger] ls[i].errs()[k].0,
        )
}

/// The total number of diagnostics in the registered lexers.
pub open spec fn lex_err_total(ls: Seq<Lexer>) -> int
    decreases ls.len(),
{
    if ls.len() == 0 {
        0
    } else {
        lex_err_total(ls.drop_last()) + ls.last().errs().len()
    }
}

/// The rendering of every registered lexer's error log, first `k` lexers.
pub open spec fn render_lexers(ls: Seq<Lexer>, k: int) -> Seq<char>
    decreases k,
{
    if k <= 0 {
        Seq::empty()
    } else {
        render_lexers(ls, k - 1) + render_lex(ls[k - 1].name(), ls[k - 1].errs())
    }
}

/// The rendering of the first `k` parser records against the registered
/// file names (an unregistered file id renders with an empty name).
pub open spec fn render_precs(
    names: Seq<Seq<char>>,
    d: Seq<(ErrorTypeView, FileLocation, usize)>,
    k: int,
) -> Seq<char>
    decreases k,
{
    if k <= 0 {
        Seq::empty()
    } else {
        render_precs(names, d, k - 1) + render_line(
            if d[k - 1].2 < names.len() {
                names[d[k - 1].2 as int]
            } else {
                Seq::empty()
            },
            d[k - 1].1,
            d[k - 1].0,
        )
    }
}

/// The parser: it owns one lexer per registered source unit (keyed by
/// path, re-parsing a path replaces its lexer), an append-only statement
/// sequence, and a diagnostic log in which end-of-input errors are
/// deduplicated per session.
pub struct Parser {
    files: ahash::AHashMap<String, usize>,
    lexers: Vec<Lexer>,
    file_names: Vec<String>,
    ast: Ast,
    diags: Vec<(ErrorType, FileLocation, usize)>,
    current_file_id: usize,
    consumed: usize,
    has_eof_error: bool,
    has_non_eof_error: bool,
}

impl Parser {
    /// The statements parsed so far, in parse order.
    pub closed spec fn stats(&self) -> Seq<Stat> {
        self.ast.statements@
    }

    /// The parser-level diagnostic records, in the order they were
    /// detected.
    pub closed spec fn diags(&self) -> Seq<(ErrorTypeView, FileLocation, usize)> {
        dviews(self.diags@)
    }

    /// The registered lexers, in slot order.
    pub closed spec fn lexers_seq(&self) -> Seq<Lexer> {
        self.lexers@
    }

    /// The registered file names, one per file id.
    pub closed spec fn names(&self) -> Seq<Seq<char>> {
        self.file_names@.map_values(|s: String| s@)
    }

    /// The path table's contents.
    pub closed spec fn files_map(&self) -> Map<Seq<char>, usize> {
        path_entries(self.files)
    }

    /// How many statements have been handed out.
    pub closed spec fn consumed_n(&self) -> int {
        self.consumed as int
    }

    /// The file id diagnostics are currently recorded under.
    pub closed spec fn cur_id(&self) -> usize {
        self.current_file_id
    }

    /// The parser is consistent: the hand-out mark is within the statement
    /// sequence, the end-of-input flags agree with the records, and every
    /// path in the table points at a registered lexer.
    pub closed spec fn wf(&self) -> bool {
        &&& self.consumed <= self.ast.statements@.len()
        &&& self.has_eof_error == has_eof_rec(self.diags())
        &&& self.has_non_eof_error == has_non_eof_rec(self.diags())
        &&& forall|p: Seq<char>|
            path_entries(self.files).contains_key(p) ==> #[trigger] path_entries(self.files)[p]
                < self.lexers@.len()
    }

    /// Both states hold the same registered files and hand-out mark.
    pub open spec fn same_session(a: &Parser, b: &Parser) -> bool {
        &&& a.lexers_seq() == b.lexers_seq()
        &&& a.names() == b.names()
        &&& a.files_map() == b.files_map()
        &&& a.cur_id() == b.cur_id()
        &&& a.consumed_n() == b.consumed_n()
    }

    pub fn new() -> (r: Self)
        ensures
            r.wf(),
            r.stats().len() == 0,
            r.diags().len() == 0,
            r.lexers_seq().len() == 0,
            r.names().len() == 0,
            r.consumed_n() == 0,
    {
        let r = Parser {
            files: path_map_new(),
            lexers: Vec::new(),
            file_names: Vec::new(),
            ast: Ast::new(),
            diags: Vec::new(),
            current_file_id: 0,
            consumed: 0,
            has_eof_error: false,
            has_non_eof_error: false,
        };
        proof {
            assert(r.diags() =~= Seq::<(ErrorTypeView, FileLocation, usize)>::empty());
            assert(r.names() =~= Seq::<Seq<char>>::empty());
        }
        r
    }

    /// Record one diagnostic under the current file id.  End-of-input
    /// errors are deduplicated per session: after the first, further ones
    /// are dropped, so nested recovery loops cannot cascade.
    fn add_diagnostic(&mut self, error: ErrorType, loc: FileLocation)
        requires
            old(self).wf(),
        ensures
            final(self).wf(),
            Self::same_session(old(self), final(self)),
            final(self).stats() == old(self).stats(),
            final(self).diags() == (if is_eof_kind(error@) && has_eof_rec(old(self).diags()) {
                old(self).diags()
            } else {
                old(self).diags().push((error@, loc, old(self).cur_id()))
            }),
            has_eof_rec(final(self).diags()) == (has_eof_rec(old(self).diags()) || is_eof_kind(
                error@,
            )),
    {
        let eof = error.eof_kind();
        if eof && self.has_eof_error {
            return ;
        }
        if eof {
            self.has_eof_error = true;
        } else {
            self.has_non_eof_error = true;
        }
        let ghost pre = self.diags();
        let id = self.current_file_id;
        self.diags.push((error, loc, id));
        proof {
            assert(self.diags() =~= pre.push((error@, loc, id)));
            let d = self.diags();
            assert(d[d.len() - 1].0 == error@);
            if is_eof_kind(error@) {
                assert(has_eof_rec(d)) by {
                    assert(is_eof_kind(d[d.len() - 1].0));
                }
                assert(self.has_non_eof_error == has_non_eof_rec(d)) by {
                    if has_non_eof_rec(pre) {
                        let k = choose|k: int|
                            0 <= k < pre.len() && !is_eof_kind(#[trigger] pre[k].0);
                        assert(!is_eof_kind(d[k].0));
                    }
                    if has_non_eof_rec(d) {
                        let k = choose|k: int|
                            0 <= k < d.len() && !is_eof_kind(#[trigger] d[k].0);
                        if k < pre.len() {
                            assert(!is_eof_kind(pre[k].0));
                        }
                    }
                }
            } else {
                assert(has_non_eof_rec(d)) by {
                    assert(!is_eof_kind(d[d.len() - 1].0));
                }
                assert(self.has_eof_error == has_eof_rec(d)) by {
                    if has_eof_rec(pre) {
                        let k = choose|k: int| 0 <= k < pre.len() && is_eof_kind(#[trigger] pre[k].0);
                        assert(is_eof_kind(d[k].0));
                    }
                    if has_eof_rec(d) {
                        let k = choose|k: int| 0 <= k < d.len() && is_eof_kind(#[trigger] d[k].0);
                        if k < pre.len() {
                            assert(is_eof_kind(pre[k].0));
                        }
                    }
                }
            }
        }
    }

    /// Record that a source path could not be resolved or read, as a
    /// diagnostic at a zero-width span under the synthetic file id zero.
    pub fn report_no_such_file(&mut self, path: &str)
        requires
            old(self).wf(),
        ensures
            final(self).wf(),
            Self::same_session(old(self), final(self)),
            final(self).stats() == old(self).stats(),
            final(self).diags() == old(self).diags().push(
                (
                    ErrorTypeView::NoSuchFile(path@),
                    FileLocation {
                        start: LineLocation { line: 0, offset: 0 },
                        end: LineLocation { line: 0, offset: 0 },
                    },
                    0usize,
                ),
            ),
    {
        let ghost pre = self.diags();
        let loc = FileLocation {
            start: LineLocation { line: 0, offset: 0 },
            end: LineLocation { line: 0, offset: 0 },
        };
        self.has_non_eof_error = true;
        self.diags.push((ErrorType::NoSuchFile(path.to_owned()), loc, 0));
        proof {
            let d = self.diags();
            assert(d =~= pre.push((ErrorTypeView::NoSuchFile(path@), loc, 0usize)));
            assert(!is_eof_kind(d[d.len() - 1].0));
            assert(has_non_eof_rec(d)) by {
                assert(!is_eof_kind(d[d.len() - 1].0));
            }
            assert(self.has_eof_error == has_eof_rec(d)) by {
                if has_eof_rec(pre) {
                    let k = choose|k: int| 0 <= k < pre.len() && is_eof_kind(#[trigger] pre[k].0);
                    assert(is_eof_kind(d[k].0));
                }
                if has_eof_rec(d) {
                    let k = choose|k: int| 0 <= k < d.len() && is_eof_kind(#[trigger] d[k].0);
                    if k < pre.len() {
                        assert(is_eof_kind(pre[k].0));
                    }
                }
            }
        }
    }

    /// The statements appended since the previous retrieval; the next
    /// retrieval starts after them.
    pub fn get_incremental<'a>(&'a mut self) -> (r: &'a [Stat])
        requires
            old(self).wf(),
        ensures
            final(self).wf(),
            r@ == old(self).stats().subrange(old(self).consumed_n(), old(self).stats().len() as int),
            final(self).stats() == old(self).stats(),
            final(self).diags() == old(self).diags(),
            final(self).consumed_n() == final(self).stats().len(),
            final(self).lexers_seq() == old(self).lexers_seq(),
            final(self).names() == old(self).names(),
            final(self).files_map() == old(self).files_map(),
    {
        let last = self.consumed;
        self.consumed = self.ast.statements.len();
        vstd::slice::slice_subrange(self.ast.statements.as_slice(), last, self.ast.statements.len())
    }

    /// Every recorded error, across the registered lexers and the current
    /// session, is of end-of-input type, and there is at least one: more
    /// input might complete the statement rather than it being malformed.
    pub fn input_can_continue(&self) -> (r: bool)
        requires
            self.wf(),
        ensures
            r == (!lexers_have_non_eof(self.lexers_seq()) && !has_non_eof_rec(self.diags()) && (
            lexers_have_eof(self.lexers_seq()) || has_eof_rec(self.diags()))),
    {
        if self.has_non_eof_error {
            return false;
        }
        let mut any_eof = self.has_eof_error;
        let mut i: usize = 0;
        while i < self.lexers.len()
            invariant
                0 <= i <= self.lexers_seq().len(),
                forall|a: int, k: int|
                    0 <= a < i && 0 <= k < self.lexers_seq()[a].errs().len() ==> is_eof_kind(
                        #[trigger] self.lexers_seq()[a].errs()[k].0,
                    ),
                any_eof == (has_eof_rec(self.diags()) || exists|a: int, k: int|
                    0 <= a < i && 0 <= k < self.lexers_seq()[a].errs().len() && is_eof_kind(
                        #[trigger] self.lexers_seq()[a].errs()[k].0,
                    )),
            decreases self.lexers_seq().len() - i,
        {
            if self.lexers[i].has_non_eof_error() {
                proof {
                    let k = choose|k: int|
                        0 <= k < self.lexers_seq()[i as int].errs().len() && !is_eof_kind(
                            #[trigger] self.lexers_seq()[i as int].errs()[k].0,
                        );
                    assert(lexers_have_non_eof(self.lexers_seq())) by {
                        assert(0 <= i && (i as int) < self.lexers_seq().len() && 0 <= k
                            < self.lexers_seq()[i as int].errs().len() && !is_eof_kind(
                            self.lexers_seq()[i as int].errs()[k].0,
                        ));
                    }
                }
                return false;
            }
            if self.lexers[i].has_eof_error() {
                proof {
                    let k = choose|k: int|
                        0 <= k < self.lexers_seq()[i as int].errs().len() && is_eof_kind(
                            #[trigger] self.lexers_seq()[i as int].errs()[k].0,
                        );
                    assert(0 <= i && (i as int) < self.lexers_seq().len() && 0 <= k
                        < self.lexers_seq()[i as int].errs().len() && is_eof_kind(
                        self.lexers_seq()[i as int].errs()[k].0,
                    ));
                }
                any_eof = true;
            }
            i = i + 1;
        }
        proof {
            if lexers_have_non_eof(self.lexers_seq()) {
                let (a, k) = choose|a: int, k: int|
                    0 <= a < self.lexers_seq().len() && 0 <= k
                        < self.lexers_seq()[a].errs().len() && !is_eof_kind(
                        #[trigger] self.lexers_seq()[a].errs()[k].0,
                    );
                assert(is_eof_kind(self.lexers_seq()[a].errs()[k].0));
            }
        }
        any_eof
    }

    /// Drop every diagnostic, in the session and in every registered
    /// lexer's log; statements and registered files stay.
    pub fn clear_diagnoses(&mut self)
        requires
            old(self).wf(),
        ensures
            final(self).wf(),
            final(self).diags().len() == 0,
            final(self).stats() == old(self).stats(),
            final(self).consumed_n() == old(self).consumed_n(),
            final(self).names() == old(self).names(),
            final(self).files_map() == old(self).files_map(),
            final(self).lexers_seq().len() == old(self).lexers_seq().len(),
            forall|i: int| #![trigger final(self).lexers_seq()[i]]
                0 <= i < final(self).lexers_seq().len() ==> {
                    &&& final(self).lexers_seq()[i].errs().len() == 0
                    &&& final(self).lexers_seq()[i].toks() == old(self).lexers_seq()[i].toks()
                    &&& final(self).lexers_seq()[i].name() == old(self).lexers_seq()[i].name()
                },
    {
        self.has_eof_error = false;
        self.has_non_eof_error = false;
        self.diags = Vec::new();
        let ghost pre = old(self).lexers_seq();
        let mut i: usize = 0;
        while i < self.lexers.len()
            invariant
                0 <= i <= self.lexers@.len(),
                self.lexers@.len() == pre.len(),
                self.diags@.len() == 0,
                !self.has_eof_error,
                !self.has_non_eof_error,
                self.stats() == old(self).stats(),
                self.consumed == old(self).consumed,
                self.consumed <= self.ast.statements@.len(),
                self.file_names@ == old(self).file_names@,
                self.files == old(self).files,
                self.current_file_id == old(self).current_file_id,
                forall|p: Seq<char>|
                    path_entries(self.files).contains_key(p) ==> #[trigger] path_entries(
                        self.files,
                    )[p] < self.lexers@.len(),
                forall|j: int|
                    i <= j < pre.len() ==> #[trigger] self.lexers@[j] == pre[j],
                forall|j: int|
                    0 <= j < i ==> (#[trigger] self.lexers@[j]).errs().len() == 0
                        && self.lexers@[j].toks() == pre[j].toks() && self.lexers@[j].name()
                        == pre[j].name(),
            decreases self.lexers@.len() - i,
        {
            let l = &mut self.lexers;
            vstd::std_specs::vec::vec_index_mut(l, i).clear_diagnoses();
            i = i + 1;
        }
        proof {
            assert(self.diags() =~= Seq::<(ErrorTypeView, FileLocation, usize)>::empty());
        }
    }

    /// The number of diagnostics recorded, across the session and every
    /// registered lexer, saturating at the machine limit.
    pub fn diagnostic_count(&self) -> (r: usize)
        ensures
            r as int == (if self.diags().len() + lex_err_total(self.lexers_seq()) <= usize::MAX {
                self.diags().len() + lex_err_total(self.lexers_seq())
            } else {
                usize::MAX as int
            }),
    {
        let mut count: usize = self.diags.len();
        let mut i: usize = 0;
        proof {
            assert(self.lexers_seq().take(0) =~= Seq::<Lexer>::empty());
        }
        while i < self.lexers.len()
            invariant
                0 <= i <= self.lexers_seq().len(),
                count as int == (if self.diags().len() + lex_err_total(
                    self.lexers_seq().take(i as int),
                ) <= usize::MAX {
                    self.diags().len() + lex_err_total(self.lexers_seq().take(i as int))
                } else {
                    usize::MAX as int
                }),
            decreases self.lexers_seq().len() - i,
        {
            let d = self.lexers[i].diagnostic_count();
            proof {
                let t1 = self.lexers_seq().take(i as int + 1);
                assert(t1.drop_last() =~= self.lexers_seq().take(i as int));
                assert(t1.last() == self.lexers_seq()[i as int]);
                lemma_lex_err_total_nonneg(self.lexers_seq().take(i as int));
            }
            if count <= usize::MAX - d {
                count = count + d;
            } else {
                count = usize::MAX;
            }
            i = i + 1;
        }
        proof {
            assert(self.lexers_seq().take(self.lexers_seq().len() as int) =~= self.lexers_seq());
        }
        count
    }

    /// Render every diagnostic as text: first each registered lexer's log,
    /// then the session's records, one line per record.  The text is a pure
    /// function of the recorded values.
    pub fn render_diagnoses(&self) -> (r: String)
        ensures
            r@ == render_lexers(self.lexers_seq(), self.lexers_seq().len() as int) + render_precs(
                self.names(),
                self.diags(),
                self.diags().len() as int,
            ),
    {
        let mut out = String::new();
        let mut i: usize = 0;
        while i < self.lexers.len()
            invariant
                0 <= i <= self.lexers_seq().len(),
                out@ == render_lexers(self.lexers_seq(), i as int),
            decreases self.lexers_seq().len() - i,
        {
            let part = self.lexers[i].render_error();
            out.append(part.as_str());
            i = i + 1;
        }
        let mut k: usize = 0;
        let ghost base = out@;
        while k < self.diags.len()
            invariant
                0 <= k <= self.diags@.len(),
                base == render_lexers(self.lexers_seq(), self.lexers_seq().len() as int),
                out@ == base + render_precs(self.names(), self.diags(), k as int),
                self.names().len() == self.file_names@.len(),
            decreases self.diags@.len() - k,
        {
            let rec = &self.diags[k];
            let ghost pre = out@;
            if rec.2 < self.file_names.len() {
                crate::diag::push_render_line(&mut out, self.file_names[rec.2].as_str(), &rec.1, &rec.0);
            } else {
                crate::diag::push_render_line(&mut out, "", &rec.1, &rec.0);
                proof {
                    reveal_strlit("");
                    assert(""@ =~= Seq::<char>::empty());
                }
            }
            proof {
                let j = k as int;
                let id = self.diags@[j].2 as int;
                assert(self.diags()[j] == (self.diags@[j].0@, self.diags@[j].1, self.diags@[j].2));
                if id < self.file_names@.len() {
                    assert(self.names()[id] == self.file_names@[id]@);
                }
                assert(out@ =~= base + render_precs(self.names(), self.diags(), j + 1));
            }
            k = k + 1;
        }
        out
    }

    /// Render the one-line summary of how many errors and warnings were
    /// generated while parsing.  This core records no warnings.
    pub fn render_diagnoses_summary(&self) -> (r: String)
        ensures
            r@ == "Summary: "@ + crate::diag::dec_str(
                (if self.diags().len() + lex_err_total(self.lexers_seq()) <= usize::MAX {
                    self.diags().len() + lex_err_total(self.lexers_seq())
                } else {
                    usize::MAX as int
                }) as nat,
            ) + " errors and 0 warnings are generated while parsing."@,
    {
        let n = self.diagnostic_count();
        let mut out = String::new();
        out.append("Summary: ");
        crate::diag::push_usize(&mut out, n);
        out.append(" errors and 0 warnings are generated while parsing.");
        proof {
            assert(out@ =~= "Summary: "@ + crate::diag::dec_str(n as nat)
                + " errors and 0 warnings are generated while parsing."@);
        }
        out
    }
}


/// The lexer registered for a parsed source unit: it holds exactly that
/// path, that text, and what lexing the text yields.
pub open spec fn reg_lexer(l: Lexer, path: Seq<char>, content: Seq<char>) -> bool {
    &&& l.name() == path
    &&& l.content() == content
    &&& l.toks() == crate::lexer::lex_source(content).toks
    &&& l.errs() == crate::lexer::lex_source(content).errs
}

/// The statements and diagnostics one parsed source unit appends: what the
/// specification-level statement parse of the lexed tokens yields.
pub open spec fn parse_out(content: Seq<char>, eof0: bool) -> crate::grammar::PResStats {
    p_stmts(
        crate::lexer::lex_source(content).toks,
        PState { pos: 0, loc: crate::grammar::zero_span(), eof: eof0 },
        Seq::empty(),
    )
}

/// The cursor only moved forward over the same token sequence.
pub open spec fn cursor_step<'a>(a: &TokenIterator<'a>, b: &TokenIterator<'a>) -> bool {
    &&& b.wf()
    &&& b.toks() == a.toks()
    &&& a.pos() <= b.pos() <= a.toks().len()
}

impl Parser {
    /// The step every expression-level routine takes: registered files and
    /// the hand-out mark stay, no statement is touched, and diagnostics are
    /// only appended.
    pub open spec fn expr_step(a: &Parser, b: &Parser) -> bool {
        &&& b.wf()
        &&& Self::same_session(a, b)
        &&& b.stats() == a.stats()
        &&& a.diags().is_prefix_of(b.diags())
    }

    /// Skip to an expected operator: if the next token already is it, consume
    /// it silently; otherwise report one unexpected-token diagnostic (with
    /// the expected kind and the supplied opening context) and discard
    /// tokens until the operator is found and consumed, or the input ends
    /// (reporting a deduplicated end-of-input diagnostic).
    ///
    /// Returns true exactly when the input ended first.
    pub fn consume_to_op<'a>(
        &mut self,
        iter: &mut TokenIterator<'a>,
        expected: Operator,
        previous: Option<(Token, FileLocation)>,
    ) -> (eof: bool)
        requires
            old(self).wf(),
            old(iter).wf(),
        ensures
            Self::expr_step(old(self), final(self)),
            cursor_step(old(iter), final(iter)),
            !eof ==> final(iter).pos() > old(iter).pos() && is_op(
                final(iter).toks()[final(iter).pos() - 1].0@,
                expected,
            ),
            eof ==> final(iter).pos() == final(iter).toks().len(),
            eof ==> final(self).diags().len() > old(self).diags().len() || has_eof_rec(
                old(self).diags(),
            ),
            ({
                let res = p_to_op(
                    crate::lexer::tviews(old(iter).toks()),
                    PState {
                        pos: old(iter).pos(),
                        loc: old(iter).loc(),
                        eof: has_eof_rec(old(self).diags()),
                    },
                    expected,
                    view_prev(previous),
                );
                &&& final(iter).pos() == res.st.pos
                &&& final(iter).loc() == res.st.loc
                &&& final(self).diags() == old(self).diags() + tag_diags(
                    res.ds,
                    old(self).cur_id(),
                )
                &&& has_eof_rec(final(self).diags()) == res.st.eof
                &&& eof == res.eof
            }),
    {
        proof {
            iter.bounds();
        }
        let ghost tv = crate::lexer::tviews(old(iter).toks());
        let ghost st0 = PState {
            pos: old(iter).pos(),
            loc: old(iter).loc(),
            eof: has_eof_rec(old(self).diags()),
        };
        let ghost pv = view_prev(previous);
        let ghost target = p_to_op(tv, st0, expected, pv);
        proof {
            if st0.pos < tv.len() {
                assert(tv[st0.pos] == (old(iter).toks()[st0.pos].0@, old(iter).toks()[st0.pos].1));
            }
        }
        let m = match iter.peek() {
            Some(Token::Op(op)) => *op == expected,
            _ => false,
        };
        if m {
            iter.next();
            proof {
                lemma_tag_empty(old(self).diags(), old(self).cur_id());
            }
            return false;
        }
        let t = match iter.next() {
            Some(tok) => Some(tok.duplicate()),
            None => None,
        };
        let loc_now = iter.get_location();
        self.add_diagnostic(
            ErrorType::UnexpectedToken {
                found: t,
                expected: Some(Token::Op(expected)),
                previous,
            },
            loc_now,
        );
        let ghost mut pst = p_add(
            p_next(tv, st0),
            ErrorTypeView::UnexpectedToken {
                found: if st0.pos < tv.len() {
                    Some(tv[st0.pos].0)
                } else {
                    None
                },
                expected: Some(TokenView::Op(expected)),
                previous: pv,
            },
            p_next(tv, st0).loc,
        ).0;
        let ghost mut dsacc = p_add(
            p_next(tv, st0),
            ErrorTypeView::UnexpectedToken {
                found: if st0.pos < tv.len() {
                    Some(tv[st0.pos].0)
                } else {
                    None
                },
                expected: Some(TokenView::Op(expected)),
                previous: pv,
            },
            p_next(tv, st0).loc,
        ).1;
        proof {
            if dsacc.len() > 0 {
                lemma_tag_push(old(self).diags(), Seq::empty(), dsacc[0].0, dsacc[0].1, old(self).cur_id());
                assert(tag_diags(Seq::<(ErrorTypeView, FileLocation)>::empty().push(dsacc[0]), old(self).cur_id()) =~= tag_diags(dsacc, old(self).cur_id()));
            } else {
                lemma_tag_empty(old(self).diags(), old(self).cur_id());
            }
            assert(self.diags() == old(self).diags() + tag_diags(dsacc, old(self).cur_id()));
        }
        loop
            invariant
                self.wf(),
                iter.wf(),
                iter.toks() == old(iter).toks(),
                old(iter).pos() <= iter.pos() <= iter.toks().len(),
                Self::same_session(old(self), self),
                self.stats() == old(self).stats(),
                old(self).diags().is_prefix_of(self.diags()),
                self.diags().len() > old(self).diags().len() || has_eof_rec(old(self).diags()),
                tv == crate::lexer::tviews(old(iter).toks()),
                target == p_to_op(
                    tv,
                    PState {
                        pos: old(iter).pos(),
                        loc: old(iter).loc(),
                        eof: has_eof_rec(old(self).diags()),
                    },
                    expected,
                    view_prev(previous),
                ),
                pst.pos == iter.pos(),
                pst.loc == iter.loc(),
                pst.eof == has_eof_rec(self.diags()),
                0 <= pst.pos <= tv.len(),
                self.diags() == old(self).diags() + tag_diags(dsacc, old(self).cur_id()),
                target.st == p_skip_op(tv, pst, expected).st,
                target.eof == p_skip_op(tv, pst, expected).eof,
                target.ds =~= dsacc + p_skip_op(tv, pst, expected).ds,
            decreases iter.toks().len() - iter.pos(),
        {
            proof {
                if pst.pos < tv.len() {
                    assert(tv[pst.pos] == (old(iter).toks()[pst.pos].0@, old(
                        iter,
                    ).toks()[pst.pos].1));
                }
            }
            let m2 = match iter.peek() {
                Some(Token::Op(op)) => *op == expected,
                _ => false,
            };
            if m2 {
                iter.next();
                proof {
                    assert(target.ds =~= dsacc);
                }
                return false;
            }
            match iter.next() {
                Some(_) => {
                    proof {
                        pst = p_next(tv, pst);
                    }
                },
                None => {
                    let l = iter.get_location();
                    self.add_diagnostic(ErrorType::UnexpectedEof, l);
                    proof {
                        let step = p_add(pst, ErrorTypeView::UnexpectedEof, pst.loc);
                        let pre = dsacc;
                        if step.1.len() > 0 {
                            lemma_tag_push(
                                old(self).diags(),
                                pre,
                                ErrorTypeView::UnexpectedEof,
                                pst.loc,
                                old(self).cur_id(),
                            );
                        }
                        pst = step.0;
                        dsacc = pre + step.1;
                        if step.1.len() == 0 {
                            assert(dsacc =~= pre);
                        }
                        assert(target.ds =~= dsacc);
                    }
                    return true;
                },
            }
        }
    }

    /// Skip to an expected keyword, exactly as [`Parser::consume_to_op`]
    /// does for operators.
    pub fn consume_to_key<'a>(
        &mut self,
        iter: &mut TokenIterator<'a>,
        expected: Keyword,
        previous: Option<(Token, FileLocation)>,
    ) -> (eof: bool)
        requires
            old(self).wf(),
            old(iter).wf(),
        ensures
            Self::expr_step(old(self), final(self)),
            cursor_step(old(iter), final(iter)),
            !eof ==> final(iter).pos() > old(iter).pos() && is_key(
                final(iter).toks()[final(iter).pos() - 1].0@,
                expected,
            ),
            eof ==> final(iter).pos() == final(iter).toks().len(),
            eof ==> final(self).diags().len() > old(self).diags().len() || has_eof_rec(
                old(self).diags(),
            ),
            ({
                let res = p_to_key(
                    crate::lexer::tviews(old(iter).toks()),
                    PState {
                        pos: old(iter).pos(),
                        loc: old(iter).loc(),
                        eof: has_eof_rec(old(self).diags()),
                    },
                    expected,
                    view_prev(previous),
                );
                &&& final(iter).pos() == res.st.pos
                &&& final(iter).loc() == res.st.loc
                &&& final(self).diags() == old(self).diags() + tag_diags(
                    res.ds,
                    old(self).cur_id(),
                )
                &&& has_eof_rec(final(self).diags()) == res.st.eof
                &&& eof == res.eof
            }),
    {
        proof {
            iter.bounds();
        }
        let ghost tv = crate::lexer::tviews(old(iter).toks());
        let ghost st0 = PState {
            pos: old(iter).pos(),
            loc: old(iter).loc(),
            eof: has_eof_rec(old(self).diags()),
        };
        let ghost pv = view_prev(previous);
        let ghost target = p_to_key(tv, st0, expected, pv);
        proof {
            if st0.pos < tv.len() {
                assert(tv[st0.pos] == (old(iter).toks()[st0.pos].0@, old(iter).toks()[st0.pos].1));
            }
        }
        let m = match iter.peek() {
            Some(Token::Key(k)) => *k == expected,
            _ => false,
        };
        if m {
            iter.next();
            proof {
                lemma_tag_empty(old(self).diags(), old(self).cur_id());
            }
            return false;
        }
        let t = match iter.next() {
            Some(tok) => Some(tok.duplicate()),
            None => None,
        };
        let loc_now = iter.get_location();
        self.add_diagnostic(
            ErrorType::UnexpectedToken {
                found: t,
                expected: Some(Token::Key(expected)),
                previous,
            },
            loc_now,
        );
        let ghost mut pst = p_add(
            p_next(tv, st0),
            ErrorTypeView::UnexpectedToken {
                found: if st0.pos < tv.len() {
                    Some(tv[st0.pos].0)
                } else {
                    None
                },
                expected: Some(TokenView::Key(expected)),
                previous: pv,
            },
            p_next(tv, st0).loc,
        ).0;
        let ghost mut dsacc = p_add(
            p_next(tv, st0),
            ErrorTypeView::UnexpectedToken {
                found: if st0.pos < tv.len() {
                    Some(tv[st0.pos].0)
                } else {
                    None
                },
                expected: Some(TokenView::Key(expected)),
                previous: pv,
            },
            p_next(tv, st0).loc,
        ).1;
        proof {
            if dsacc.len() > 0 {
                lemma_tag_push(old(self).diags(), Seq::empty(), dsacc[0].0, dsacc[0].1, old(self).cur_id());
                assert(tag_diags(Seq::<(ErrorTypeView, FileLocation)>::empty().push(dsacc[0]), old(self).cur_id()) =~= tag_diags(dsacc, old(self).cur_id()));
            } else {
                lemma_tag_empty(old(self).diags(), old(self).cur_id());
            }
            assert(self.diags() == old(self).diags() + tag_diags(dsacc, old(self).cur_id()));
        }
        loop
            invariant
                self.wf(),
                iter.wf(),
                iter.toks() == old(iter).toks(),
                old(iter).pos() <= iter.pos() <= iter.toks().len(),
                Self::same_session(old(self), self),
                self.stats() == old(self).stats(),
                old(self).diags().is_prefix_of(self.diags()),
                self.diags().len() > old(self).diags().len() || has_eof_rec(old(self).diags()),
                tv == crate::lexer::tviews(old(iter).toks()),
                target == p_to_key(
                    tv,
                    PState {
                        pos: old(iter).pos(),
                        loc: old(iter).loc(),
                        eof: has_eof_rec(old(self).diags()),
                    },
                    expected,
                    view_prev(previous),
                ),
                pst.pos == iter.pos(),
                pst.loc == iter.loc(),
                pst.eof == has_eof_rec(self.diags()),
                0 <= pst.pos <= tv.len(),
                self.diags() == old(self).diags() + tag_diags(dsacc, old(self).cur_id()),
                target.st == p_skip_key(tv, pst, expected).st,
                target.eof == p_skip_key(tv, pst, expected).eof,
                target.ds =~= dsacc + p_skip_key(tv, pst, expected).ds,
            decreases iter.toks().len() - iter.pos(),
        {
            proof {
                if pst.pos < tv.len() {
                    assert(tv[pst.pos] == (old(iter).toks()[pst.pos].0@, old(
                        iter,
                    ).toks()[pst.pos].1));
                }
            }
            let m2 = match iter.peek() {
                Some(Token::Key(k)) => *k == expected,
                _ => false,
            };
            if m2 {
                iter.next();
                proof {
                    assert(target.ds =~= dsacc);
                }
                return false;
            }
            match iter.next() {
                Some(_) => {
                    proof {
                        pst = p_next(tv, pst);
                    }
                },
                None => {
                    let l = iter.get_location();
                    self.add_diagnostic(ErrorType::UnexpectedEof, l);
                    proof {
                        let step = p_add(pst, ErrorTypeView::UnexpectedEof, pst.loc);
                        let pre = dsacc;
                        if step.1.len() > 0 {
                            lemma_tag_push(
                                old(self).diags(),
                                pre,
                                ErrorTypeView::UnexpectedEof,
                                pst.loc,
                                old(self).cur_id(),
                            );
                        }
                        pst = step.0;
                        dsacc = pre + step.1;
                        if step.1.len() == 0 {
                            assert(dsacc =~= pre);
                        }
                        assert(target.ds =~= dsacc);
                    }
                    return true;
                },
            }
        }
    }
}


impl Parser {
    /// Parse one condition followed by its required `then`, recovering to
    /// the `then` keyword if needed.  Yields the condition, or nothing when
    /// the input ended before a `then` was found.
    #[verifier::rlimit(100)]
    pub fn consume_cond_then<'a>(&mut self, iter: &mut TokenIterator<'a>) -> (r: Option<Expr>)
        requires
            old(self).wf(),
            old(iter).wf(),
        ensures
            Self::expr_step(old(self), final(self)),
            cursor_step(old(iter), final(iter)),
            r is Some ==> final(iter).pos() > old(iter).pos(),
            r is None ==> final(self).diags().len() > old(self).diags().len() || has_eof_rec(
                old(self).diags(),
            ),
            ({
                let res = p_cond_then(
                    crate::lexer::tviews(old(iter).toks()),
                    PState {
                        pos: old(iter).pos(),
                        loc: old(iter).loc(),
                        eof: has_eof_rec(old(self).diags()),
                    },
                );
                &&& final(iter).pos() == res.st.pos
                &&& final(iter).loc() == res.st.loc
                &&& final(self).diags() == old(self).diags() + tag_diags(
                    res.ds,
                    old(self).cur_id(),
                )
                &&& has_eof_rec(final(self).diags()) == res.st.eof
                &&& (match r {
                    Some(e) => res.e matches Some(es) && expr_matches(&e, es),
                    None => res.e is None,
                })
            }),
        decreases old(iter).remaining(), 2int,
    {
        proof {
            iter.bounds();
        }
        let ghost tv = crate::lexer::tviews(old(iter).toks());
        let ghost st0 = PState {
            pos: old(iter).pos(),
            loc: old(iter).loc(),
            eof: has_eof_rec(old(self).diags()),
        };
        let ghost ares = p_expr(tv, st0, 0, Some(TokenView::Key(Keyword::Then)));
        let start = iter.get_location();
        let condition = self.consume_expr(iter, 0, Some(Token::Key(Keyword::Then)));
        let ghost dmid = self.diags();
        let ghost bres = p_to_key(
            tv,
            ares.st,
            Keyword::Then,
            Some((TokenView::Key(Keyword::If), st0.loc)),
        );
        let eof = self.consume_to_key(iter, Keyword::Then, Some((Token::Key(Keyword::If), start)));
        proof {
            lemma_tag_chain(old(self).diags(), ares.ds, bres.ds, old(self).cur_id());
        }
        if !eof {
            Some(condition)
        } else {
            proof {
                lemma_diag_growth(old(self).diags(), dmid, self.diags());
            }
            None
        }
    }

    /// Parse one conditional expression, standing on its `if` keyword:
    /// condition and `then`, a block until `elsif`, `else` or `end`,
    /// repeating for each `elsif`, then an else-block until `end`.  A
    /// missing `then` or an unfinished conditional yields one `Error` node
    /// for the whole conditional.
    #[verifier::rlimit(100)]
    pub fn consume_if<'a>(&mut self, iter: &mut TokenIterator<'a>) -> (r: Expr)
        requires
            old(self).wf(),
            old(iter).wf(),
            old(iter).pos() < old(iter).toks().len(),
        ensures
            Self::expr_step(old(self), final(self)),
            cursor_step(old(iter), final(iter)),
            final(iter).pos() > old(iter).pos(),
            r.val is Error ==> final(self).diags().len() > old(self).diags().len() || has_eof_rec(
                old(self).diags(),
            ),
            ({
                let res = p_if(
                    crate::lexer::tviews(old(iter).toks()),
                    PState {
                        pos: old(iter).pos(),
                        loc: old(iter).loc(),
                        eof: has_eof_rec(old(self).diags()),
                    },
                );
                &&& final(iter).pos() == res.st.pos
                &&& final(iter).loc() == res.st.loc
                &&& final(self).diags() == old(self).diags() + tag_diags(
                    res.ds,
                    old(self).cur_id(),
                )
                &&& has_eof_rec(final(self).diags()) == res.st.eof
                &&& expr_matches(&r, res.e)
            }),
        decreases old(iter).remaining(), 0int,
    {
        proof {
            iter.bounds();
        }
        let ghost tv = crate::lexer::tviews(old(iter).toks());
        let ghost st0 = PState {
            pos: old(iter).pos(),
            loc: old(iter).loc(),
            eof: has_eof_rec(old(self).diags()),
        };
        let ghost target = p_if(tv, st0);
        proof {
            assert(tv[st0.pos] == (old(iter).toks()[st0.pos].0@, old(iter).toks()[st0.pos].1));
        }
        iter.next();
        let start = iter.get_location();
        let ghost sstart = p_next(tv, st0).loc;
        let mut exprs: Vec<Expr> = Vec::new();
        let ghost cres = p_cond_then(tv, p_next(tv, st0));
        let ghost mut exprs_s: Seq<crate::grammar::ExprS> = Seq::empty();
        match self.consume_cond_then(iter) {
            Some(expr) => {
                let ghost pre_ev = exprs@;
                exprs.push(expr);
                proof {
                    exprs_s = exprs_s.push(cres.e.unwrap());
                    assert(exprs_s =~= seq![cres.e.unwrap()]);
                }
            },
            None => {
                let end = iter.get_location();
                return Expr {
                    loc: FileLocation { start: start.start, end: end.end },
                    val: Expr_::Error,
                };
            },
        }
        let ghost mut pst = cres.st;
        let ghost mut dsacc = cres.ds;
        let mut block: Vec<Expr> = Vec::new();
        let ghost mut block_s: Seq<crate::grammar::ExprS> = Seq::empty();
        let mut block_start = iter.peek_location();
        let ghost mut bs_s = p_peek_loc(tv, cres.st);
        loop
            invariant
                self.wf(),
                iter.wf(),
                iter.toks() == old(iter).toks(),
                old(iter).pos() < iter.pos() <= iter.toks().len(),
                Self::same_session(old(self), self),
                self.stats() == old(self).stats(),
                old(self).diags().is_prefix_of(self.diags()),
                tv == crate::lexer::tviews(old(iter).toks()),
                target == p_if(
                    tv,
                    PState {
                        pos: old(iter).pos(),
                        loc: old(iter).loc(),
                        eof: has_eof_rec(old(self).diags()),
                    },
                ),
                pst.pos == iter.pos(),
                pst.loc == iter.loc(),
                pst.eof == has_eof_rec(self.diags()),
                0 <= pst.pos <= tv.len(),
                start == p_next(
                    tv,
                    PState {
                        pos: old(iter).pos(),
                        loc: old(iter).loc(),
                        eof: has_eof_rec(old(self).diags()),
                    },
                ).loc,
                start == sstart,
                block_start == bs_s,
                self.diags() == old(self).diags() + tag_diags(dsacc, old(self).cur_id()),
                crate::grammar::exprs_match(&exprs, exprs_s),
                crate::grammar::exprs_match(&block, block_s),
                target.st == p_if_arms(tv, pst, exprs_s, block_s, bs_s, sstart).st,
                target.e == p_if_arms(tv, pst, exprs_s, block_s, bs_s, sstart).e,
                target.ds =~= dsacc + p_if_arms(tv, pst, exprs_s, block_s, bs_s, sstart).ds,
            decreases iter.toks().len() - iter.pos(),
        {
            proof {
                if pst.pos < tv.len() {
                    assert(tv[pst.pos] == (old(iter).toks()[pst.pos].0@, old(
                        iter,
                    ).toks()[pst.pos].1));
                }
            }
            let is_elsif = match iter.peek() {
                Some(Token::Key(Keyword::Elsif)) => true,
                _ => false,
            };
            let is_else = match iter.peek() {
                Some(Token::Key(Keyword::Else)) => true,
                _ => false,
            };
            let at_end = match iter.peek() {
                Some(_) => false,
                None => true,
            };
            if is_elsif {
                let l = iter.get_location();
                let ghost pre_ev = exprs@;
                let ghost bpre = block@;
                exprs.push(
                    Expr {
                        loc: FileLocation { start: block_start.start, end: l.end },
                        val: Expr_::Block(block),
                    },
                );
                proof {
                    let node = crate::grammar::ExprS {
                        loc: FileLocation { start: bs_s.start, end: pst.loc.end },
                        val: crate::grammar::ExprS_::Block(block_s),
                    };
                    let pre_items = exprs_s;
                    exprs_s = exprs_s.push(node);
                    assert forall|i: int|
                        0 <= i < exprs_s.len() implies expr_matches(
                        &exprs@[i],
                        #[trigger] exprs_s[i],
                    ) by {
                        if i < pre_items.len() {
                            assert(exprs@[i] == pre_ev[i]);
                            assert(expr_matches(&pre_ev[i], pre_items[i]));
                        }
                    }
                }
                block = Vec::new();
                proof {
                    block_s = Seq::empty();
                }
                iter.next();
                let ghost c2 = p_cond_then(tv, p_next(tv, pst));
                match self.consume_cond_then(iter) {
                    Some(expr) => {
                        let ghost pre_ev2 = exprs@;
                        exprs.push(expr);
                        proof {
                            lemma_tag_chain(old(self).diags(), dsacc, c2.ds, old(self).cur_id());
                            let pre_items2 = exprs_s;
                            exprs_s = exprs_s.push(c2.e.unwrap());
                            assert forall|i: int|
                                0 <= i < exprs_s.len() implies expr_matches(
                                &exprs@[i],
                                #[trigger] exprs_s[i],
                            ) by {
                                if i < pre_items2.len() {
                                    assert(exprs@[i] == pre_ev2[i]);
                                    assert(expr_matches(&pre_ev2[i], pre_items2[i]));
                                }
                            }
                            pst = c2.st;
                            dsacc = dsacc + c2.ds;
                        }
                    },
                    None => {
                        proof {
                            lemma_tag_chain(old(self).diags(), dsacc, c2.ds, old(self).cur_id());
                        }
                        let end = iter.get_location();
                        return Expr {
                            loc: FileLocation { start: start.start, end: end.end },
                            val: Expr_::Error,
                        };
                    },
                }
                block_start = iter.peek_location();
                proof {
                    bs_s = p_peek_loc(tv, pst);
                    if pst.pos < tv.len() {
                        assert(tv[pst.pos] == (old(iter).toks()[pst.pos].0@, old(
                            iter,
                        ).toks()[pst.pos].1));
                    }
                }
            } else if is_else {
                let l = iter.get_location();
                let ghost pre_ev = exprs@;
                exprs.push(
                    Expr {
                        loc: FileLocation { start: block_start.start, end: l.end },
                        val: Expr_::Block(block),
                    },
                );
                proof {
                    let node = crate::grammar::ExprS {
                        loc: FileLocation { start: bs_s.start, end: pst.loc.end },
                        val: crate::grammar::ExprS_::Block(block_s),
                    };
                    let pre_items = exprs_s;
                    exprs_s = exprs_s.push(node);
                    assert forall|i: int|
                        0 <= i < exprs_s.len() implies expr_matches(
                        &exprs@[i],
                        #[trigger] exprs_s[i],
                    ) by {
                        if i < pre_items.len() {
                            assert(exprs@[i] == pre_ev[i]);
                            assert(expr_matches(&pre_ev[i], pre_items[i]));
                        }
                    }
                }
                block = Vec::new();
                proof {
                    block_s = Seq::empty();
                }
                iter.next();
                proof {
                    pst = p_next(tv, pst);
                }
                loop
                    invariant
                        self.wf(),
                        iter.wf(),
                        iter.toks() == old(iter).toks(),
                        old(iter).pos() < iter.pos() <= iter.toks().len(),
                        Self::same_session(old(self), self),
                        self.stats() == old(self).stats(),
                        old(self).diags().is_prefix_of(self.diags()),
                        tv == crate::lexer::tviews(old(iter).toks()),
                        target == p_if(
                            tv,
                            PState {
                                pos: old(iter).pos(),
                                loc: old(iter).loc(),
                                eof: has_eof_rec(old(self).diags()),
                            },
                        ),
                        pst.pos == iter.pos(),
                        pst.loc == iter.loc(),
                        pst.eof == has_eof_rec(self.diags()),
                        0 <= pst.pos <= tv.len(),
                        start == sstart,
                        block_start == bs_s,
                        self.diags() == old(self).diags() + tag_diags(dsacc, old(self).cur_id()),
                        crate::grammar::exprs_match(&exprs, exprs_s),
                        crate::grammar::exprs_match(&block, block_s),
                        target.st == p_else_arms(tv, pst, exprs_s, block_s, bs_s, sstart).st,
                        target.e == p_else_arms(tv, pst, exprs_s, block_s, bs_s, sstart).e,
                        target.ds =~= dsacc + p_else_arms(tv, pst, exprs_s, block_s, bs_s, sstart).ds,
                    decreases iter.toks().len() - iter.pos(),
                {
                    proof {
                        if pst.pos < tv.len() {
                            assert(tv[pst.pos] == (old(iter).toks()[pst.pos].0@, old(
                                iter,
                            ).toks()[pst.pos].1));
                        }
                    }
                    let end_now = match iter.peek() {
                        Some(Token::Key(Keyword::End)) => true,
                        _ => false,
                    };
                    let none_now = match iter.peek() {
                        Some(_) => false,
                        None => true,
                    };
                    if end_now {
                        let l2 = iter.get_location();
                        let ghost pre_ev2 = exprs@;
                        exprs.push(
                            Expr {
                                loc: FileLocation { start: block_start.start, end: l2.end },
                                val: Expr_::Block(block),
                            },
                        );
                        proof {
                            let node = crate::grammar::ExprS {
                                loc: FileLocation { start: bs_s.start, end: pst.loc.end },
                                val: crate::grammar::ExprS_::Block(block_s),
                            };
                            let pre_items2 = exprs_s;
                            exprs_s = exprs_s.push(node);
                            assert forall|i: int|
                                0 <= i < exprs_s.len() implies expr_matches(
                                &exprs@[i],
                                #[trigger] exprs_s[i],
                            ) by {
                                if i < pre_items2.len() {
                                    assert(exprs@[i] == pre_ev2[i]);
                                    assert(expr_matches(&pre_ev2[i], pre_items2[i]));
                                }
                            }
                        }
                        proof {
                            let stn = p_next(tv, pst);
                            assert(target.e == crate::grammar::ExprS {
                                loc: FileLocation { start: sstart.start, end: stn.loc.end },
                                val: crate::grammar::ExprS_::If(exprs_s),
                            });
                            assert(crate::grammar::exprs_match(&exprs, exprs_s));
                        }
                        iter.next();
                        let end = iter.get_location();
                        proof {
                            assert(target.ds =~= dsacc);
                        }
                        let out = Expr {
                            loc: FileLocation { start: start.start, end: end.end },
                            val: Expr_::If(exprs),
                        };
                        proof {
                            assert(expr_matches(&out, target.e));
                        }
                        return out;
                    } else if none_now {
                        let end = iter.get_location();
                        let ghost dmid = self.diags();
                        self.add_diagnostic(ErrorType::UnexpectedEof, end);
                        proof {
                            lemma_diag_growth(old(self).diags(), dmid, self.diags());
                            let step = p_add(pst, ErrorTypeView::UnexpectedEof, pst.loc);
                            let pre = dsacc;
                            if step.1.len() > 0 {
                                lemma_tag_push(
                                    old(self).diags(),
                                    pre,
                                    ErrorTypeView::UnexpectedEof,
                                    pst.loc,
                                    old(self).cur_id(),
                                );
                            }
                            dsacc = pre + step.1;
                            if step.1.len() == 0 {
                                assert(dsacc =~= pre);
                            }
                            assert(target.ds =~= dsacc);
                        }
                        return Expr {
                            loc: FileLocation {
                                start: LineLocation { line: 0, offset: 0 },
                                end: LineLocation { line: 0, offset: 0 },
                            },
                            val: Expr_::Error,
                        };
                    } else {
                        let ghost sub = p_expr(tv, pst, 0, Some(TokenView::Key(Keyword::End)));
                        let expr = self.consume_expr(iter, 0, Some(Token::Key(Keyword::End)));
                        let ghost bpre = block@;
                        block.push(expr);
                        proof {
                            lemma_tag_chain(old(self).diags(), dsacc, sub.ds, old(self).cur_id());
                            pst = sub.st;
                            dsacc = dsacc + sub.ds;
                            let pre_items = block_s;
                            block_s = block_s.push(sub.e);
                            assert forall|i: int|
                                0 <= i < block_s.len() implies expr_matches(
                                &block@[i],
                                #[trigger] block_s[i],
                            ) by {
                                if i < pre_items.len() {
                                    assert(block@[i] == bpre[i]);
                                    assert(expr_matches(&bpre[i], pre_items[i]));
                                }
                            }
                        }
                    }
                }
            } else if at_end {
                let end = iter.get_location();
                let ghost dmid = self.diags();
                self.add_diagnostic(
                    ErrorType::UnexpectedToken {
                        found: None,
                        expected: Some(Token::Key(Keyword::Else)),
                        previous: Some((Token::Key(Keyword::If), start)),
                    },
                    end,
                );
                proof {
                    lemma_diag_growth(old(self).diags(), dmid, self.diags());
                    let e2 = ErrorTypeView::UnexpectedToken {
                        found: None,
                        expected: Some(TokenView::Key(Keyword::Else)),
                        previous: Some((TokenView::Key(Keyword::If), sstart)),
                    };
                    let step = p_add(pst, e2, pst.loc);
                    let pre = dsacc;
                    if step.1.len() > 0 {
                        lemma_tag_push(old(self).diags(), pre, e2, pst.loc, old(self).cur_id());
                    }
                    dsacc = pre + step.1;
                    if step.1.len() == 0 {
                        assert(dsacc =~= pre);
                    }
                    assert(target.ds =~= dsacc);
                }
                return Expr {
                    loc: FileLocation {
                        start: LineLocation { line: 0, offset: 0 },
                        end: LineLocation { line: 0, offset: 0 },
                    },
                    val: Expr_::Error,
                };
            } else {
                let ghost sub = p_expr(tv, pst, 0, Some(TokenView::Key(Keyword::Else)));
                let expr = self.consume_expr(iter, 0, Some(Token::Key(Keyword::Else)));
                let ghost bpre = block@;
                block.push(expr);
                proof {
                    lemma_tag_chain(old(self).diags(), dsacc, sub.ds, old(self).cur_id());
                    pst = sub.st;
                    dsacc = dsacc + sub.ds;
                    let pre_items = block_s;
                    block_s = block_s.push(sub.e);
                    assert forall|i: int|
                        0 <= i < block_s.len() implies expr_matches(
                        &block@[i],
                        #[trigger] block_s[i],
                    ) by {
                        if i < pre_items.len() {
                            assert(block@[i] == bpre[i]);
                            assert(expr_matches(&bpre[i], pre_items[i]));
                        }
                    }
                }
            }
        }
    }

    /// Class declarations are an open extension point of the grammar, not
    /// yet a production: the `class` keyword is reported as an unexpected
    /// token and the statement degrades to an `Error` node, so parsing
    /// continues.
    #[verifier::rlimit(100)]
    pub fn consume_class<'a>(&mut self, iter: &mut TokenIterator<'a>) -> (r: Stat)
        requires
            old(self).wf(),
            old(iter).wf(),
            old(iter).pos() < old(iter).toks().len(),
        ensures
            Self::expr_step(old(self), final(self)),
            cursor_step(old(iter), final(iter)),
            final(iter).pos() == old(iter).pos() + 1,
            ({
                let res = p_class(
                    crate::lexer::tviews(old(iter).toks()),
                    PState {
                        pos: old(iter).pos(),
                        loc: old(iter).loc(),
                        eof: has_eof_rec(old(self).diags()),
                    },
                );
                &&& final(iter).pos() == res.st.pos
                &&& final(iter).loc() == res.st.loc
                &&& final(self).diags() == old(self).diags() + tag_diags(
                    res.ds,
                    old(self).cur_id(),
                )
                &&& has_eof_rec(final(self).diags()) == res.st.eof
                &&& stat_matches(&r, res.stat)
            }),
    {
        proof {
            iter.bounds();
        }
        let ghost tv = crate::lexer::tviews(old(iter).toks());
        let ghost st0 = PState {
            pos: old(iter).pos(),
            loc: old(iter).loc(),
            eof: has_eof_rec(old(self).diags()),
        };
        proof {
            assert(tv[st0.pos] == (old(iter).toks()[st0.pos].0@, old(iter).toks()[st0.pos].1));
        }
        let start = iter.peek_location();
        let tok = match iter.next() {
            Some(t) => Some(t.duplicate()),
            None => None,
        };
        self.add_diagnostic(
            ErrorType::UnexpectedToken { found: tok, expected: None, previous: None },
            start,
        );
        proof {
            let res = p_class(tv, st0);
            if res.ds.len() > 0 {
                lemma_tag_push(
                    old(self).diags(),
                    Seq::empty(),
                    res.ds[0].0,
                    res.ds[0].1,
                    old(self).cur_id(),
                );
                assert(tag_diags(
                    Seq::<(ErrorTypeView, FileLocation)>::empty().push(res.ds[0]),
                    old(self).cur_id(),
                ) =~= tag_diags(res.ds, old(self).cur_id()));
            } else {
                lemma_tag_empty(old(self).diags(), old(self).cur_id());
            }
        }
        Stat {
            loc: start,
            val: Stat_::Expr(Box::new(Expr { loc: start, val: Expr_::Error })),
        }
    }

    /// Parse one function literal, standing on its `def` keyword: an
    /// optional name, a mandatory parenthesised parameter declaration
    /// (empty parentheses allowed), and a single body expression.
    #[verifier::rlimit(100)]
    pub fn consume_def<'a>(&mut self, iter: &mut TokenIterator<'a>) -> (r: Expr)
        requires
            old(self).wf(),
            old(iter).wf(),
            old(iter).pos() < old(iter).toks().len(),
        ensures
            Self::expr_step(old(self), final(self)),
            cursor_step(old(iter), final(iter)),
            final(iter).pos() > old(iter).pos(),
            r.val is Error ==> final(self).diags().len() > old(self).diags().len() || has_eof_rec(
                old(self).diags(),
            ),
            ({
                let res = p_def(
                    crate::lexer::tviews(old(iter).toks()),
                    PState {
                        pos: old(iter).pos(),
                        loc: old(iter).loc(),
                        eof: has_eof_rec(old(self).diags()),
                    },
                );
                &&& final(iter).pos() == res.st.pos
                &&& final(iter).loc() == res.st.loc
                &&& final(self).diags() == old(self).diags() + tag_diags(
                    res.ds,
                    old(self).cur_id(),
                )
                &&& has_eof_rec(final(self).diags()) == res.st.eof
                &&& expr_matches(&r, res.e)
            }),
        decreases old(iter).remaining(), 0int,
    {
        proof {
            iter.bounds();
        }
        let ghost tv = crate::lexer::tviews(old(iter).toks());
        let ghost st0 = PState {
            pos: old(iter).pos(),
            loc: old(iter).loc(),
            eof: has_eof_rec(old(self).diags()),
        };
        let ghost target = p_def(tv, st0);
        proof {
            assert(tv[st0.pos] == (old(iter).toks()[st0.pos].0@, old(iter).toks()[st0.pos].1));
        }
        iter.next();
        let ghost st1 = p_next(tv, st0);
        let start = iter.get_location();
        proof {
            if st1.pos < tv.len() {
                assert(tv[st1.pos] == (old(iter).toks()[st1.pos].0@, old(iter).toks()[st1.pos].1));
            }
        }
        let name: Option<String> = match iter.peek() {
            Some(Token::Id(n)) => {
                let n2 = n.clone();
                iter.next();
                Some(n2)
            },
            _ => None,
        };
        let ghost st2 = if name is Some {
            p_next(tv, st1)
        } else {
            st1
        };
        let ghost dmid = self.diags();
        let ghost ares = p_to_op(
            tv,
            st2,
            Operator::LPar,
            Some((TokenView::Key(Keyword::Def), st1.loc)),
        );
        let eof = self.consume_to_op(
            iter,
            Operator::LPar,
            Some((Token::Key(Keyword::Def), start)),
        );
        if eof {
            proof {
                lemma_diag_growth(old(self).diags(), dmid, self.diags());
            }
            let e = iter.get_location();
            return Expr { loc: FileLocation { start: start.start, end: e.end }, val: Expr_::Error };
        }
        let decl_start = iter.get_location();
        proof {
            if ares.st.pos < tv.len() {
                assert(tv[ares.st.pos] == (old(iter).toks()[ares.st.pos].0@, old(
                    iter,
                ).toks()[ares.st.pos].1));
            }
        }
        let rpar_now = match iter.peek() {
            Some(Token::Op(Operator::RPar)) => true,
            _ => false,
        };
        if rpar_now {
            iter.next();
            let ghost st4 = p_next(tv, ares.st);
            let ghost bres = p_expr(tv, st4, 0, None::<TokenView>);
            let body = self.consume_expr(iter, 0, None);
            let e = iter.get_location();
            proof {
                lemma_tag_chain(old(self).diags(), ares.ds, bres.ds, old(self).cur_id());
            }
            Expr {
                loc: FileLocation { start: start.start, end: e.end },
                val: Expr_::Def(name, None, Box::new(body)),
            }
        } else {
            let ghost dres = p_expr(tv, ares.st, 0, Some(TokenView::Op(Operator::RPar)));
            let d = self.consume_expr(iter, 0, Some(Token::Op(Operator::RPar)));
            let ghost dmid2 = self.diags();
            let ghost cres = p_to_op(
                tv,
                dres.st,
                Operator::RPar,
                Some((TokenView::Op(Operator::LPar), ares.st.loc)),
            );
            let eof2 = self.consume_to_op(
                iter,
                Operator::RPar,
                Some((Token::Op(Operator::LPar), decl_start)),
            );
            proof {
                lemma_tag_chain(old(self).diags(), ares.ds, dres.ds, old(self).cur_id());
                lemma_tag_chain(old(self).diags(), ares.ds + dres.ds, cres.ds, old(self).cur_id());
            }
            if eof2 {
                proof {
                    lemma_diag_growth(old(self).diags(), dmid2, self.diags());
                }
                let e = iter.get_location();
                return Expr {
                    loc: FileLocation { start: start.start, end: e.end },
                    val: Expr_::Error,
                };
            }
            let ghost bres = p_expr(tv, cres.st, 0, None::<TokenView>);
            let body = self.consume_expr(iter, 0, None);
            let e = iter.get_location();
            proof {
                lemma_tag_chain(
                    old(self).diags(),
                    ares.ds + dres.ds + cres.ds,
                    bres.ds,
                    old(self).cur_id(),
                );
            }
            Expr {
                loc: FileLocation { start: start.start, end: e.end },
                val: Expr_::Def(name, Some(Box::new(d)), Box::new(body)),
            }
        }
    }

    /// Parse one `do` ... `end` block, standing on its `do` keyword: each
    /// expression before `end` becomes one block member; reaching the end
    /// of input first is reported but still yields the (incomplete) block.
    #[verifier::rlimit(100)]
    pub fn consume_block<'a>(&mut self, iter: &mut TokenIterator<'a>) -> (r: Expr)
        requires
            old(self).wf(),
            old(iter).wf(),
            old(iter).pos() < old(iter).toks().len(),
        ensures
            Self::expr_step(old(self), final(self)),
            cursor_step(old(iter), final(iter)),
            final(iter).pos() > old(iter).pos(),
            r.val is Error ==> final(self).diags().len() > old(self).diags().len() || has_eof_rec(
                old(self).diags(),
            ),
            ({
                let res = p_block(
                    crate::lexer::tviews(old(iter).toks()),
                    PState {
                        pos: old(iter).pos(),
                        loc: old(iter).loc(),
                        eof: has_eof_rec(old(self).diags()),
                    },
                );
                &&& final(iter).pos() == res.st.pos
                &&& final(iter).loc() == res.st.loc
                &&& final(self).diags() == old(self).diags() + tag_diags(
                    res.ds,
                    old(self).cur_id(),
                )
                &&& has_eof_rec(final(self).diags()) == res.st.eof
                &&& expr_matches(&r, res.e)
            }),
        decreases old(iter).remaining(), 0int,
    {
        proof {
            iter.bounds();
        }
        let ghost tv = crate::lexer::tviews(old(iter).toks());
        let ghost st0 = PState {
            pos: old(iter).pos(),
            loc: old(iter).loc(),
            eof: has_eof_rec(old(self).diags()),
        };
        let ghost target = p_block(tv, st0);
        proof {
            assert(tv[st0.pos] == (old(iter).toks()[st0.pos].0@, old(iter).toks()[st0.pos].1));
        }
        iter.next();
        let start = iter.get_location();
        let ghost mut pst = p_next(tv, st0);
        let ghost sstart = pst.loc;
        let ghost mut dsacc: Seq<(ErrorTypeView, FileLocation)> = Seq::empty();
        let ghost mut items_s: Seq<crate::grammar::ExprS> = Seq::empty();
        let mut exprs: Vec<Expr> = Vec::new();
        proof {
            lemma_tag_empty(old(self).diags(), old(self).cur_id());
        }
        loop
            invariant
                self.wf(),
                iter.wf(),
                iter.toks() == old(iter).toks(),
                old(iter).pos() < iter.pos() <= iter.toks().len(),
                Self::same_session(old(self), self),
                self.stats() == old(self).stats(),
                old(self).diags().is_prefix_of(self.diags()),
                tv == crate::lexer::tviews(old(iter).toks()),
                target == p_block(
                    tv,
                    PState {
                        pos: old(iter).pos(),
                        loc: old(iter).loc(),
                        eof: has_eof_rec(old(self).diags()),
                    },
                ),
                pst.pos == iter.pos(),
                pst.loc == iter.loc(),
                pst.eof == has_eof_rec(self.diags()),
                0 <= pst.pos <= tv.len(),
                start == sstart,
                self.diags() == old(self).diags() + tag_diags(dsacc, old(self).cur_id()),
                crate::grammar::exprs_match(&exprs, items_s),
                target.st == p_block_items(tv, pst, items_s, sstart).st,
                target.e == p_block_items(tv, pst, items_s, sstart).e,
                target.ds =~= dsacc + p_block_items(tv, pst, items_s, sstart).ds,
            decreases iter.toks().len() - iter.pos(),
        {
            proof {
                if pst.pos < tv.len() {
                    assert(tv[pst.pos] == (old(iter).toks()[pst.pos].0@, old(
                        iter,
                    ).toks()[pst.pos].1));
                }
            }
            let end_now = match iter.peek() {
                Some(Token::Key(Keyword::End)) => true,
                _ => false,
            };
            let none_now = match iter.peek() {
                Some(_) => false,
                None => true,
            };
            if end_now {
                iter.next();
                let end = iter.get_location();
                proof {
                    assert(target.ds =~= dsacc);
                }
                return Expr {
                    loc: FileLocation { start: start.start, end: end.end },
                    val: Expr_::Block(exprs),
                };
            } else if none_now {
                let end = iter.get_location();
                self.add_diagnostic(ErrorType::UnexpectedEof, end);
                proof {
                    let step = p_add(pst, ErrorTypeView::UnexpectedEof, pst.loc);
                    let pre = dsacc;
                    if step.1.len() > 0 {
                        lemma_tag_push(
                            old(self).diags(),
                            pre,
                            ErrorTypeView::UnexpectedEof,
                            pst.loc,
                            old(self).cur_id(),
                        );
                    }
                    dsacc = pre + step.1;
                    if step.1.len() == 0 {
                        assert(dsacc =~= pre);
                    }
                    assert(target.ds =~= dsacc);
                }
                return Expr {
                    loc: FileLocation { start: start.start, end: end.end },
                    val: Expr_::Block(exprs),
                };
            } else {
                let ghost sub = p_expr(
                    tv,
                    pst,
                    0,
                    Some(TokenView::Key(Keyword::End)),
                );
                let expr = self.consume_expr(iter, 0, Some(Token::Key(Keyword::End)));
                let ghost pre_ev = exprs@;
                exprs.push(expr);
                proof {
                    lemma_tag_chain(old(self).diags(), dsacc, sub.ds, old(self).cur_id());
                    pst = sub.st;
                    dsacc = dsacc + sub.ds;
                    let pre_items = items_s;
                    items_s = items_s.push(sub.e);
                    assert forall|i: int|
                        0 <= i < items_s.len() implies expr_matches(
                        &exprs@[i],
                        #[trigger] items_s[i],
                    ) by {
                        if i < pre_items.len() {
                            assert(exprs@[i] == pre_ev[i]);
                            assert(expr_matches(&pre_ev[i], pre_items[i]));
                        }
                    }
                }
            }
        }
    }

    /// Parse one expression by precedence climbing.  A primary or prefix
    /// production is read first; then, as long as the next operator's left
    /// binding power reaches `min_precedence`, the operator and its right
    /// operand extend the expression, with postfix call/index binding
    /// tighter than everything.
    ///
    /// When no primary production starts here, the offending token is
    /// consumed and reported — unless its kind matches
    /// `not_take_on_error`, in which case one missing-expression
    /// diagnostic is recorded and the token is left for the caller.
    /// Either way an `Error` placeholder comes back and no further
    /// recovery happens here.
    #[verifier::rlimit(100)]
    pub fn consume_expr<'a>(
        &mut self,
        iter: &mut TokenIterator<'a>,
        min_precedence: u32,
        not_take_on_error: Option<Token>,
    ) -> (r: Expr)
        requires
            old(self).wf(),
            old(iter).wf(),
        ensures
            Self::expr_step(old(self), final(self)),
            cursor_step(old(iter), final(iter)),
            final(iter).pos() == old(iter).pos() ==> (old(iter).pos() >= old(iter).toks().len()
                || avoid_matches(
                old(iter).toks()[old(iter).pos()].0@,
                view_opt(not_take_on_error),
            )),
            r.val is Error ==> final(self).diags().len() > old(self).diags().len() || has_eof_rec(
                old(self).diags(),
            ),
            ({
                let res = p_expr(
                    crate::lexer::tviews(old(iter).toks()),
                    PState {
                        pos: old(iter).pos(),
                        loc: old(iter).loc(),
                        eof: has_eof_rec(old(self).diags()),
                    },
                    min_precedence,
                    view_opt(not_take_on_error),
                );
                &&& final(iter).pos() == res.st.pos
                &&& final(iter).loc() == res.st.loc
                &&& final(self).diags() == old(self).diags() + tag_diags(
                    res.ds,
                    old(self).cur_id(),
                )
                &&& has_eof_rec(final(self).diags()) == res.st.eof
                &&& expr_matches(&r, res.e)
            }),
        decreases old(iter).remaining(), 1int,
    {
        proof {
            iter.bounds();
        }
        let ghost tv = crate::lexer::tviews(old(iter).toks());
        let ghost st0 = PState {
            pos: old(iter).pos(),
            loc: old(iter).loc(),
            eof: has_eof_rec(old(self).diags()),
        };
        let ghost avoidv = view_opt(not_take_on_error);
        let ghost target = p_expr(tv, st0, min_precedence, avoidv);
        proof {
            if st0.pos < tv.len() {
                assert(tv[st0.pos] == (old(iter).toks()[st0.pos].0@, old(iter).toks()[st0.pos].1));
            }
            lemma_tag_empty(old(self).diags(), old(self).cur_id());
        }
        let mut start = iter.peek_location();
        let ghost mut start_s = p_peek_loc(tv, st0);
        let ghost mut pst = st0;
        let ghost mut dsacc: Seq<(ErrorTypeView, FileLocation)> = Seq::empty();
        let ghost mut lhs_s = crate::grammar::ExprS {
            loc: start_s,
            val: crate::grammar::ExprS_::Error,
        };
        let kind: u8 = match iter.peek() {
            Some(Token::Id(_)) => 0,
            Some(Token::Key(Keyword::Nil)) => 1,
            Some(Token::Key(Keyword::Def)) => 2,
            Some(Token::Str(_)) => 3,
            Some(Token::Float(_)) => 4,
            Some(Token::Integer(_)) => 5,
            Some(Token::Key(Keyword::True)) => 6,
            Some(Token::Key(Keyword::False)) => 7,
            Some(Token::Op(Operator::LPar)) => 8,
            Some(Token::Op(Operator::Not)) => 9,
            Some(Token::Op(Operator::Minus)) => 10,
            Some(Token::Key(Keyword::If)) => 11,
            Some(Token::Key(Keyword::Do)) => 12,
            Some(Token::Op(Operator::LBrk)) => 13,
            Some(_) => 14,
            None => 15,
        };
        let mut lhs: Expr = if kind == 0 {
            let s2 = match iter.peek() {
                Some(Token::Id(n)) => n.clone(),
                _ => String::new(),
            };
            iter.next();
            proof {
                pst = p_next(tv, st0);
                lhs_s = crate::grammar::ExprS {
                    loc: start_s,
                    val: crate::grammar::ExprS_::Id(s2@),
                };
            }
            Expr { loc: start, val: Expr_::Id(s2) }
        } else if kind == 1 {
            iter.next();
            proof {
                pst = p_next(tv, st0);
                lhs_s = crate::grammar::ExprS {
                    loc: start_s,
                    val: crate::grammar::ExprS_::Const(crate::grammar::ConstS::Nil),
                };
            }
            Expr { loc: start, val: Expr_::Const(Const::Nil) }
        } else if kind == 2 {
            let ghost dmid = self.diags();
            let ghost ad = p_def(tv, st0);
            let sub = self.consume_def(iter);
            proof {
                if sub.val is Error {
                    lemma_diag_growth(old(self).diags(), dmid, self.diags());
                }
                pst = ad.st;
                dsacc = ad.ds;
                lhs_s = ad.e;
            }
            sub
        } else if kind == 3 {
            let s2 = match iter.peek() {
                Some(Token::Str(n)) => n.clone(),
                _ => String::new(),
            };
            iter.next();
            proof {
                pst = p_next(tv, st0);
                lhs_s = crate::grammar::ExprS {
                    loc: start_s,
                    val: crate::grammar::ExprS_::Const(crate::grammar::ConstS::Str(s2@)),
                };
            }
            Expr { loc: start, val: Expr_::Const(Const::Str(s2)) }
        } else if kind == 4 {
            let s2 = match iter.peek() {
                Some(Token::Float(n)) => n.clone(),
                _ => String::new(),
            };
            iter.next();
            proof {
                pst = p_next(tv, st0);
                lhs_s = crate::grammar::ExprS {
                    loc: start_s,
                    val: crate::grammar::ExprS_::Const(crate::grammar::ConstS::Float(s2@)),
                };
            }
            Expr { loc: start, val: Expr_::Const(Const::Float(s2)) }
        } else if kind == 5 {
            let v: i64 = match iter.peek() {
                Some(Token::Integer(i)) => *i,
                _ => 0,
            };
            iter.next();
            proof {
                pst = p_next(tv, st0);
                lhs_s = crate::grammar::ExprS {
                    loc: start_s,
                    val: crate::grammar::ExprS_::Const(crate::grammar::ConstS::Int(v)),
                };
            }
            Expr { loc: start, val: Expr_::Const(Const::Int(v)) }
        } else if kind == 6 {
            iter.next();
            proof {
                pst = p_next(tv, st0);
                lhs_s = crate::grammar::ExprS {
                    loc: start_s,
                    val: crate::grammar::ExprS_::Const(crate::grammar::ConstS::Bool(true)),
                };
            }
            Expr { loc: start, val: Expr_::Const(Const::Bool(true)) }
        } else if kind == 7 {
            iter.next();
            proof {
                pst = p_next(tv, st0);
                lhs_s = crate::grammar::ExprS {
                    loc: start_s,
                    val: crate::grammar::ExprS_::Const(crate::grammar::ConstS::Bool(false)),
                };
            }
            Expr { loc: start, val: Expr_::Const(Const::Bool(false)) }
        } else if kind == 8 {
            iter.next();
            let ghost dmid = self.diags();
            let ghost ia = p_expr(tv, p_next(tv, st0), 0, Some(TokenView::Op(Operator::RPar)));
            let inner = self.consume_expr(iter, 0, Some(Token::Op(Operator::RPar)));
            proof {
                if inner.val is Error {
                    lemma_diag_growth(old(self).diags(), dmid, self.diags());
                }
            }
            let ghost ib = p_to_op(tv, ia.st, Operator::RPar, Some((TokenView::Op(Operator::LPar), start_s)));
            self.consume_to_op(iter, Operator::RPar, Some((Token::Op(Operator::LPar), start)));
            proof {
                lemma_tag_chain(old(self).diags(), ia.ds, ib.ds, old(self).cur_id());
                pst = ib.st;
                dsacc = ia.ds + ib.ds;
                lhs_s = ia.e;
            }
            inner
        } else if kind == 9 || kind == 10 {
            let op = if kind == 9 {
                OpPrefix::Not
            } else {
                OpPrefix::Neg
            };
            iter.next();
            let ghost ra = p_expr(tv, p_next(tv, st0), 100, avoidv);
            let rhs = self.consume_expr(iter, precedence_prefix(), dup_opt(&not_take_on_error));
            let end = iter.get_location();
            proof {
                pst = ra.st;
                dsacc = ra.ds;
                lhs_s = crate::grammar::ExprS {
                    loc: FileLocation { start: start_s.start, end: ra.st.loc.end },
                    val: crate::grammar::ExprS_::Prefix(
                        if kind == 9 {
                            OpPrefix::Not
                        } else {
                            OpPrefix::Neg
                        },
                        Box::new(ra.e),
                    ),
                };
            }
            Expr {
                loc: FileLocation { start: start.start, end: end.end },
                val: Expr_::Prefix(op, Box::new(rhs)),
            }
        } else if kind == 11 {
            let ghost dmid = self.diags();
            let ghost ad = p_if(tv, st0);
            let sub = self.consume_if(iter);
            proof {
                if sub.val is Error {
                    lemma_diag_growth(old(self).diags(), dmid, self.diags());
                }
                pst = ad.st;
                dsacc = ad.ds;
                lhs_s = ad.e;
            }
            sub
        } else if kind == 12 {
            let ghost ad = p_block(tv, st0);
            let sub = self.consume_block(iter);
            proof {
                pst = ad.st;
                dsacc = ad.ds;
                lhs_s = ad.e;
            }
            sub
        } else if kind == 13 {
            iter.next();
            proof {
                pst = p_next(tv, st0);
                if pst.pos < tv.len() {
                    assert(tv[pst.pos] == (old(iter).toks()[pst.pos].0@, old(
                        iter,
                    ).toks()[pst.pos].1));
                }
            }
            let rbrk_now = match iter.peek() {
                Some(Token::Op(Operator::RBrk)) => true,
                _ => false,
            };
            if rbrk_now {
                iter.next();
                let end = iter.get_location();
                proof {
                    pst = p_next(tv, pst);
                    lhs_s = crate::grammar::ExprS {
                        loc: FileLocation { start: start_s.start, end: pst.loc.end },
                        val: crate::grammar::ExprS_::Const(crate::grammar::ConstS::List(None)),
                    };
                }
                Expr {
                    loc: FileLocation { start: start.start, end: end.end },
                    val: Expr_::Const(Const::List(None)),
                }
            } else {
                let ghost ia = p_expr(tv, pst, 0, Some(TokenView::Op(Operator::RBrk)));
                let inner = self.consume_expr(iter, 0, Some(Token::Op(Operator::RBrk)));
                let ghost ib = p_to_op(tv, ia.st, Operator::RBrk, Some((TokenView::Op(Operator::LBrk), start_s)));
                self.consume_to_op(iter, Operator::RBrk, Some((Token::Op(Operator::LBrk), start)));
                let end = iter.get_location();
                proof {
                    lemma_tag_chain(old(self).diags(), ia.ds, ib.ds, old(self).cur_id());
                    pst = ib.st;
                    dsacc = ia.ds + ib.ds;
                    lhs_s = crate::grammar::ExprS {
                        loc: FileLocation { start: start_s.start, end: ib.st.loc.end },
                        val: crate::grammar::ExprS_::Const(
                            crate::grammar::ConstS::List(Some(Box::new(ia.e))),
                        ),
                    };
                }
                Expr {
                    loc: FileLocation { start: start.start, end: end.end },
                    val: Expr_::Const(Const::List(Some(Box::new(inner)))),
                }
            }
        } else if kind == 14 {
            let should_not_consume = match (iter.peek(), &not_take_on_error) {
                (Some(t), Some(avoid)) => t.tag_matches(avoid),
                _ => false,
            };
            if should_not_consume {
                self.add_diagnostic(ErrorType::MissingExpr(iter.get_location()), start);
                proof {
                    let step = p_add(st0, ErrorTypeView::MissingExpr(st0.loc), start_s);
                    if step.1.len() > 0 {
                        lemma_tag_push(
                            old(self).diags(),
                            Seq::empty(),
                            step.1[0].0,
                            step.1[0].1,
                            old(self).cur_id(),
                        );
                        assert(tag_diags(
                            Seq::<(ErrorTypeView, FileLocation)>::empty().push(step.1[0]),
                            old(self).cur_id(),
                        ) =~= tag_diags(step.1, old(self).cur_id()));
                    }
                }
            } else {
                let tok = match iter.peek() {
                    Some(t) => Some(t.duplicate()),
                    None => None,
                };
                iter.next();
                self.add_diagnostic(
                    ErrorType::UnexpectedToken { found: tok, expected: None, previous: None },
                    start,
                );
                proof {
                    let e2 = ErrorTypeView::UnexpectedToken {
                        found: Some(tv[st0.pos].0),
                        expected: None,
                        previous: None,
                    };
                    let step = p_add(p_next(tv, st0), e2, start_s);
                    if step.1.len() > 0 {
                        lemma_tag_push(
                            old(self).diags(),
                            Seq::empty(),
                            step.1[0].0,
                            step.1[0].1,
                            old(self).cur_id(),
                        );
                        assert(tag_diags(
                            Seq::<(ErrorTypeView, FileLocation)>::empty().push(step.1[0]),
                            old(self).cur_id(),
                        ) =~= tag_diags(step.1, old(self).cur_id()));
                    }
                }
            }
            return Expr { loc: start, val: Expr_::Error };
        } else {
            self.add_diagnostic(ErrorType::UnexpectedEof, start);
            proof {
                let step = p_add(st0, ErrorTypeView::UnexpectedEof, start_s);
                if step.1.len() > 0 {
                    lemma_tag_push(
                        old(self).diags(),
                        Seq::empty(),
                        step.1[0].0,
                        step.1[0].1,
                        old(self).cur_id(),
                    );
                    assert(tag_diags(
                        Seq::<(ErrorTypeView, FileLocation)>::empty().push(step.1[0]),
                        old(self).cur_id(),
                    ) =~= tag_diags(step.1, old(self).cur_id()));
                }
            }
            return Expr { loc: start, val: Expr_::Error };
        };
        loop
            invariant
                self.wf(),
                iter.wf(),
                iter.toks() == old(iter).toks(),
                old(iter).pos() < iter.pos() <= iter.toks().len(),
                Self::same_session(old(self), self),
                self.stats() == old(self).stats(),
                old(self).diags().is_prefix_of(self.diags()),
                lhs.val is Error ==> self.diags().len() > old(self).diags().len() || has_eof_rec(
                    old(self).diags(),
                ),
                tv == crate::lexer::tviews(old(iter).toks()),
                avoidv == view_opt(not_take_on_error),
                target == p_expr(
                    tv,
                    PState {
                        pos: old(iter).pos(),
                        loc: old(iter).loc(),
                        eof: has_eof_rec(old(self).diags()),
                    },
                    min_precedence,
                    view_opt(not_take_on_error),
                ),
                pst.pos == iter.pos(),
                pst.loc == iter.loc(),
                pst.eof == has_eof_rec(self.diags()),
                0 <= pst.pos <= tv.len(),
                start == start_s,
                self.diags() == old(self).diags() + tag_diags(dsacc, old(self).cur_id()),
                expr_matches(&lhs, lhs_s),
                target.st == p_climb(tv, pst, min_precedence, avoidv, lhs_s, start_s).st,
                target.e == p_climb(tv, pst, min_precedence, avoidv, lhs_s, start_s).e,
                target.ds =~= dsacc + p_climb(tv, pst, min_precedence, avoidv, lhs_s, start_s).ds,
            decreases iter.toks().len() - iter.pos(),
        {
            proof {
                if pst.pos < tv.len() {
                    assert(tv[pst.pos] == (old(iter).toks()[pst.pos].0@, old(
                        iter,
                    ).toks()[pst.pos].1));
                }
                if pst.pos + 1 < tv.len() {
                    assert(tv[pst.pos + 1] == (old(iter).toks()[pst.pos + 1].0@, old(
                        iter,
                    ).toks()[pst.pos + 1].1));
                }
            }
            let marker = match iter.peek() {
                Some(Token::Op(Operator::Call)) => true,
                _ => false,
            };
            if marker {
                let (_, o2) = iter.peek2();
                let post: u8 = match o2 {
                    Some(Token::Op(Operator::LPar)) => 0,
                    Some(Token::Op(Operator::LBrk)) => 1,
                    Some(_) => 2,
                    None => 3,
                };
                if post == 2 {
                    let tok = match o2 {
                        Some(t) => Some(t.duplicate()),
                        None => None,
                    };
                    iter.next();
                    let l = iter.get_location();
                    iter.next();
                    let loc_token = iter.get_location();
                    self.add_diagnostic(
                        ErrorType::UnexpectedToken {
                            found: tok,
                            expected: None,
                            previous: Some((Token::Op(Operator::Colon), l)),
                        },
                        loc_token,
                    );
                    proof {
                        let st2 = p_next(tv, p_next(tv, pst));
                        let e2 = ErrorTypeView::UnexpectedToken {
                            found: Some(tv[pst.pos + 1].0),
                            expected: None,
                            previous: Some((TokenView::Op(Operator::Colon), p_next(tv, pst).loc)),
                        };
                        let step = p_add(st2, e2, st2.loc);
                        let pre = dsacc;
                        if step.1.len() > 0 {
                            lemma_tag_push(old(self).diags(), pre, e2, st2.loc, old(self).cur_id());
                        }
                        pst = step.0;
                        dsacc = pre + step.1;
                        if step.1.len() == 0 {
                            assert(dsacc =~= pre);
                        }
                        assert(target.ds =~= dsacc);
                    }
                    return lhs;
                }
                if post == 3 {
                    iter.next();
                    let l = iter.get_location();
                    self.add_diagnostic(ErrorType::UnexpectedEof, l);
                    proof {
                        let st1 = p_next(tv, pst);
                        let step = p_add(st1, ErrorTypeView::UnexpectedEof, st1.loc);
                        let pre = dsacc;
                        if step.1.len() > 0 {
                            lemma_tag_push(
                                old(self).diags(),
                                pre,
                                ErrorTypeView::UnexpectedEof,
                                st1.loc,
                                old(self).cur_id(),
                            );
                        }
                        pst = step.0;
                        dsacc = pre + step.1;
                        if step.1.len() == 0 {
                            assert(dsacc =~= pre);
                        }
                        assert(target.ds =~= dsacc);
                    }
                    return lhs;
                }
                if precedence_postfix() <= min_precedence {
                    proof {
                        assert(target.ds =~= dsacc);
                    }
                    return lhs;
                }
                if post == 0 {
                    iter.next();
                    let l = iter.get_location();
                    iter.next();
                    let match_loc = iter.get_location();
                    proof {
                        pst = p_next(tv, p_next(tv, pst));
                        if pst.pos < tv.len() {
                            assert(tv[pst.pos] == (old(iter).toks()[pst.pos].0@, old(
                                iter,
                            ).toks()[pst.pos].1));
                        }
                    }
                    let rpar_now = match iter.peek() {
                        Some(Token::Op(Operator::RPar)) => true,
                        _ => false,
                    };
                    if rpar_now {
                        iter.next();
                        let end = iter.get_location();
                        proof {
                            pst = p_next(tv, pst);
                            lhs_s = crate::grammar::ExprS {
                                loc: FileLocation { start: l.start, end: pst.loc.end },
                                val: crate::grammar::ExprS_::Postfix(
                                    OpPostfix::Call,
                                    Box::new(lhs_s),
                                    None,
                                ),
                            };
                            start_s = pst.loc;
                        }
                        lhs = Expr {
                            loc: FileLocation { start: l.start, end: end.end },
                            val: Expr_::Postfix(OpPostfix::Call, Box::new(lhs), None),
                        };
                        start = end;
                    } else {
                        let ghost ia = p_expr(tv, pst, 0, Some(TokenView::Op(Operator::RPar)));
                        let arg = self.consume_expr(iter, 0, Some(Token::Op(Operator::RPar)));
                        let ghost ib = p_to_op(
                            tv,
                            ia.st,
                            Operator::RPar,
                            Some((TokenView::Op(Operator::LPar), pst.loc)),
                        );
                        self.consume_to_op(
                            iter,
                            Operator::RPar,
                            Some((Token::Op(Operator::LPar), match_loc)),
                        );
                        let end = iter.get_location();
                        proof {
                            lemma_tag_chain(old(self).diags(), dsacc, ia.ds, old(self).cur_id());
                            lemma_tag_chain(
                                old(self).diags(),
                                dsacc + ia.ds,
                                ib.ds,
                                old(self).cur_id(),
                            );
                            pst = ib.st;
                            dsacc = dsacc + ia.ds + ib.ds;
                            lhs_s = crate::grammar::ExprS {
                                loc: FileLocation { start: l.start, end: ib.st.loc.end },
                                val: crate::grammar::ExprS_::Postfix(
                                    OpPostfix::Call,
                                    Box::new(lhs_s),
                                    Some(Box::new(ia.e)),
                                ),
                            };
                            start_s = p_peek_loc(tv, ib.st);
                            if pst.pos < tv.len() {
                                assert(tv[pst.pos] == (old(iter).toks()[pst.pos].0@, old(
                                    iter,
                                ).toks()[pst.pos].1));
                            }
                        }
                        lhs = Expr {
                            loc: FileLocation { start: l.start, end: end.end },
                            val: Expr_::Postfix(OpPostfix::Call, Box::new(lhs), Some(Box::new(arg))),
                        };
                        start = iter.peek_location();
                    }
                    continue ;
                } else {
                    iter.next();
                    let l = iter.get_location();
                    iter.next();
                    let match_loc = iter.get_location();
                    proof {
                        pst = p_next(tv, p_next(tv, pst));
                    }
                    let ghost ia = p_expr(tv, pst, 0, Some(TokenView::Op(Operator::RBrk)));
                    let arg = self.consume_expr(iter, 0, Some(Token::Op(Operator::RBrk)));
                    let ghost ib = p_to_op(
                        tv,
                        ia.st,
                        Operator::RBrk,
                        Some((TokenView::Op(Operator::LBrk), pst.loc)),
                    );
                    self.consume_to_op(
                        iter,
                        Operator::RBrk,
                        Some((Token::Op(Operator::LBrk), match_loc)),
                    );
                    let end = iter.get_location();
                    proof {
                        lemma_tag_chain(old(self).diags(), dsacc, ia.ds, old(self).cur_id());
                        lemma_tag_chain(
                            old(self).diags(),
                            dsacc + ia.ds,
                            ib.ds,
                            old(self).cur_id(),
                        );
                        pst = ib.st;
                        dsacc = dsacc + ia.ds + ib.ds;
                        lhs_s = crate::grammar::ExprS {
                            loc: FileLocation { start: l.start, end: ib.st.loc.end },
                            val: crate::grammar::ExprS_::Postfix(
                                OpPostfix::Index,
                                Box::new(lhs_s),
                                Some(Box::new(ia.e)),
                            ),
                        };
                        start_s = ib.st.loc;
                    }
                    lhs = Expr {
                        loc: FileLocation { start: l.start, end: end.end },
                        val: Expr_::Postfix(OpPostfix::Index, Box::new(lhs), Some(Box::new(arg))),
                    };
                    start = end;
                    continue ;
                }
            }
            let op_opt: Option<OpInfix> = match iter.peek() {
                Some(Token::Op(op)) => infix_of(*op),
                _ => None,
            };
            let op = match op_opt {
                Some(op) => op,
                None => {
                    proof {
                        assert(target.ds =~= dsacc);
                    }
                    return lhs;
                },
            };
            let precedence = precedence_infix(op);
            if precedence.0 < min_precedence {
                proof {
                    assert(target.ds =~= dsacc);
                }
                return lhs;
            }
            iter.next();
            let ghost ra = p_expr(tv, p_next(tv, pst), precedence.1, avoidv);
            let rhs = self.consume_expr(iter, precedence.1, dup_opt(&not_take_on_error));
            let end = iter.get_location();
            proof {
                lemma_tag_chain(old(self).diags(), dsacc, ra.ds, old(self).cur_id());
                pst = ra.st;
                dsacc = dsacc + ra.ds;
                lhs_s = crate::grammar::ExprS {
                    loc: FileLocation { start: start_s.start, end: ra.st.loc.end },
                    val: crate::grammar::ExprS_::Infix(op, Box::new(lhs_s), Box::new(ra.e)),
                };
                start_s = ra.st.loc;
            }
            lhs = Expr {
                loc: FileLocation { start: start.start, end: end.end },
                val: Expr_::Infix(op, Box::new(lhs), Box::new(rhs)),
            };
            start = end;
        }
    }
}

/// The infix operator a token's operator denotes, if any.
fn infix_of(op: Operator) -> (r: Option<OpInfix>)
    ensures
        r == spec_infix_of(op),
{
    match op {
        Operator::Assign => Some(OpInfix::Assign),
        Operator::Range => Some(OpInfix::Range),
        Operator::Or => Some(OpInfix::Or),
        Operator::And => Some(OpInfix::And),
        Operator::Eq => Some(OpInfix::Eq),
        Operator::Ne => Some(OpInfix::Ne),
        Operator::Le => Some(OpInfix::Le),
        Operator::Lt => Some(OpInfix::Lt),
        Operator::Ge => Some(OpInfix::Ge),
        Operator::Gt => Some(OpInfix::Gt),
        Operator::Plus => Some(OpInfix::Plus),
        Operator::Minus => Some(OpInfix::Minus),
        Operator::Mul => Some(OpInfix::Mul),
        Operator::Div => Some(OpInfix::Div),
        Operator::DivFloor => Some(OpInfix::DivFloor),
        Operator::Mod => Some(OpInfix::Mod),
        Operator::Exp => Some(OpInfix::Exp),
        Operator::Comma => Some(OpInfix::Comma),
        _ => None,
    }
}


impl Parser {
    /// Parse an in-memory source unit and append what it yields: lex the
    /// text, parse statement after statement until the tokens are
    /// exhausted, and register the lexer under the path (re-parsing a path
    /// replaces its registered lexer).  Statements and diagnostics are only
    /// ever appended; empty source appends nothing and records nothing.
    pub fn parse_str(&mut self, path: &str, content: &str)
        requires
            old(self).wf(),
        ensures
            final(self).wf(),
            old(self).stats().is_prefix_of(final(self).stats()),
            old(self).diags().is_prefix_of(final(self).diags()),
            final(self).consumed_n() == old(self).consumed_n(),
            final(self).names() == old(self).names().push(path@),
            old(self).lexers_seq().len() <= final(self).lexers_seq().len() <= old(self).lexers_seq().len() + 1,
            crate::lexer::lex_source(content@).toks.len() > 0 ==> final(self).stats().len() > old(
                self,
            ).stats().len(),
            ({
                let res = parse_out(content@, has_eof_rec(old(self).diags()));
                &&& final(self).cur_id() == old(self).names().len()
                &&& final(self).stats().len() == old(self).stats().len() + res.stats.len()
                &&& (forall|i: int|
                    0 <= i < res.stats.len() ==> stat_matches(
                        &final(self).stats()[old(self).stats().len() + i],
                        #[trigger] res.stats[i],
                    ))
                &&& final(self).diags() == old(self).diags() + tag_diags(
                    res.ds,
                    final(self).cur_id(),
                )
                &&& has_eof_rec(final(self).diags()) == res.st.eof
            }),
            (if old(self).files_map().contains_key(path@) {
                &&& final(self).files_map() == old(self).files_map()
                &&& final(self).lexers_seq().len() == old(self).lexers_seq().len()
                &&& reg_lexer(
                    final(self).lexers_seq()[old(self).files_map()[path@] as int],
                    path@,
                    content@,
                )
                &&& (forall|i: int|
                    0 <= i < final(self).lexers_seq().len() && i != old(self).files_map()[path@]
                        ==> final(self).lexers_seq()[i] == old(self).lexers_seq()[i])
            } else {
                &&& final(self).files_map() == old(self).files_map().insert(
                    path@,
                    old(self).lexers_seq().len() as usize,
                )
                &&& final(self).lexers_seq().len() == old(self).lexers_seq().len() + 1
                &&& reg_lexer(final(self).lexers_seq().last(), path@, content@)
                &&& (forall|i: int|
                    0 <= i < old(self).lexers_seq().len() ==> final(self).lexers_seq()[i] == old(
                        self,
                    ).lexers_seq()[i])
            }),
            content@.len() == 0 ==> final(self).stats() == old(self).stats() && final(self).diags()
                == old(self).diags() && (forall|i: int|
                0 <= i < final(self).lexers_seq().len() ==> (#[trigger] final(self).lexers_seq()[i]).errs().len() == 0 || (i < old(self).lexers_seq().len() && final(self).lexers_seq()[i] == old(self).lexers_seq()[i])),
    {
        self.parse_file(path, content)
    }

    /// The statement loop behind [`Parser::parse_str`].
    #[verifier::rlimit(100)]
    fn parse_file(&mut self, path: &str, content: &str)
        requires
            old(self).wf(),
        ensures
            final(self).wf(),
            old(self).stats().is_prefix_of(final(self).stats()),
            old(self).diags().is_prefix_of(final(self).diags()),
            final(self).consumed_n() == old(self).consumed_n(),
            final(self).names() == old(self).names().push(path@),
            old(self).lexers_seq().len() <= final(self).lexers_seq().len() <= old(self).lexers_seq().len() + 1,
            crate::lexer::lex_source(content@).toks.len() > 0 ==> final(self).stats().len() > old(
                self,
            ).stats().len(),
            ({
                let res = parse_out(content@, has_eof_rec(old(self).diags()));
                &&& final(self).cur_id() == old(self).names().len()
                &&& final(self).stats().len() == old(self).stats().len() + res.stats.len()
                &&& (forall|i: int|
                    0 <= i < res.stats.len() ==> stat_matches(
                        &final(self).stats()[old(self).stats().len() + i],
                        #[trigger] res.stats[i],
                    ))
                &&& final(self).diags() == old(self).diags() + tag_diags(
                    res.ds,
                    final(self).cur_id(),
                )
                &&& has_eof_rec(final(self).diags()) == res.st.eof
            }),
            (if old(self).files_map().contains_key(path@) {
                &&& final(self).files_map() == old(self).files_map()
                &&& final(self).lexers_seq().len() == old(self).lexers_seq().len()
                &&& reg_lexer(
                    final(self).lexers_seq()[old(self).files_map()[path@] as int],
                    path@,
                    content@,
                )
                &&& (forall|i: int|
                    0 <= i < final(self).lexers_seq().len() && i != old(self).files_map()[path@]
                        ==> final(self).lexers_seq()[i] == old(self).lexers_seq()[i])
            } else {
                &&& final(self).files_map() == old(self).files_map().insert(
                    path@,
                    old(self).lexers_seq().len() as usize,
                )
                &&& final(self).lexers_seq().len() == old(self).lexers_seq().len() + 1
                &&& reg_lexer(final(self).lexers_seq().last(), path@, content@)
                &&& (forall|i: int|
                    0 <= i < old(self).lexers_seq().len() ==> final(self).lexers_seq()[i] == old(
                        self,
                    ).lexers_seq()[i])
            }),
            content@.len() == 0 ==> final(self).stats() == old(self).stats() && final(self).diags()
                == old(self).diags() && (forall|i: int|
                0 <= i < final(self).lexers_seq().len() ==> (#[trigger] final(self).lexers_seq()[i]).errs().len() == 0 || (i < old(self).lexers_seq().len() && final(self).lexers_seq()[i] == old(self).lexers_seq()[i])),
    {
        let lexer = Lexer::new(content.to_owned(), path.to_owned());
        let ghost glex = lexer;
        let ghost tvs = crate::lexer::lex_source(content@).toks;
        let ghost target = parse_out(content@, has_eof_rec(old(self).diags()));
        proof {
            if content@.len() == 0 {
                assert(crate::lexer::shebang_end(content@) == 0);
                assert(crate::lexer::lex(content@, 0).toks =~= Seq::<
                    (TokenView, FileLocation),
                >::empty());
                assert(crate::lexer::lex(content@, 0).errs =~= Seq::<
                    (ErrorTypeView, FileLocation),
                >::empty());
                assert(lexer.toks().len() == 0);
                assert(lexer.errs().len() == 0);
                assert(lexer.raw_toks().len() == lexer.toks().len());
            }
        }
        let id = self.file_names.len();
        self.current_file_id = id;
        self.file_names.push(path.to_owned());
        proof {
            assert(self.names() =~= old(self).names().push(path@));
        }
        let ghost mut pst = PState {
            pos: 0,
            loc: crate::grammar::zero_span(),
            eof: has_eof_rec(old(self).diags()),
        };
        let ghost mut dsacc: Seq<(ErrorTypeView, FileLocation)> = Seq::empty();
        let ghost mut stats_s: Seq<crate::grammar::StatS> = Seq::empty();
        {
            let mut iter = lexer.iter();
            proof {
                lemma_tag_empty(old(self).diags(), self.cur_id());
                assert(crate::lexer::tviews(iter.toks()) == glex.toks());
            }
            loop
                invariant
                    self.wf(),
                    iter.wf(),
                    iter.toks() == glex.raw_toks(),
                    0 <= iter.pos() <= iter.toks().len(),
                    old(self).stats().is_prefix_of(self.stats()),
                    old(self).diags().is_prefix_of(self.diags()),
                    self.consumed_n() == old(self).consumed_n(),
                    self.lexers_seq() == old(self).lexers_seq(),
                    self.names() == old(self).names().push(path@),
                    self.files_map() == old(self).files_map(),
                    glex.raw_toks().len() == 0 ==> self.stats() == old(self).stats()
                        && self.diags() == old(self).diags(),
                    iter.pos() > 0 ==> self.stats().len() > old(self).stats().len(),
                    tvs == crate::lexer::lex_source(content@).toks,
                    tvs == crate::lexer::tviews(iter.toks()),
                    target == parse_out(content@, has_eof_rec(old(self).diags())),
                    self.cur_id() == old(self).names().len(),
                    pst.pos == iter.pos(),
                    pst.loc == iter.loc(),
                    pst.eof == has_eof_rec(self.diags()),
                    0 <= pst.pos <= tvs.len(),
                    self.diags() == old(self).diags() + tag_diags(dsacc, self.cur_id()),
                    self.stats().len() == old(self).stats().len() + stats_s.len(),
                    forall|i: int|
                        0 <= i < stats_s.len() ==> stat_matches(
                            &self.stats()[old(self).stats().len() + i],
                            #[trigger] stats_s[i],
                        ),
                    target.st == p_stmts(tvs, pst, stats_s).st,
                    target.stats == p_stmts(tvs, pst, stats_s).stats,
                    target.ds =~= dsacc + p_stmts(tvs, pst, stats_s).ds,
                ensures
                    self.wf(),
                    old(self).stats().is_prefix_of(self.stats()),
                    old(self).diags().is_prefix_of(self.diags()),
                    self.consumed_n() == old(self).consumed_n(),
                    self.lexers_seq() == old(self).lexers_seq(),
                    self.names() == old(self).names().push(path@),
                    self.files_map() == old(self).files_map(),
                    glex.raw_toks().len() == 0 ==> self.stats() == old(self).stats()
                        && self.diags() == old(self).diags(),
                    glex.raw_toks().len() > 0 ==> self.stats().len() > old(self).stats().len(),
                    self.cur_id() == old(self).names().len(),
                    self.stats().len() == old(self).stats().len() + target.stats.len(),
                    forall|i: int|
                        0 <= i < target.stats.len() ==> stat_matches(
                            &self.stats()[old(self).stats().len() + i],
                            #[trigger] target.stats[i],
                        ),
                    self.diags() == old(self).diags() + tag_diags(target.ds, self.cur_id()),
                    has_eof_rec(self.diags()) == target.st.eof,
                decreases iter.toks().len() - iter.pos(),
            {
                proof {
                    if pst.pos < tvs.len() {
                        assert(tvs[pst.pos] == (iter.toks()[pst.pos].0@, iter.toks()[pst.pos].1));
                    }
                }
                let none_now = match iter.peek() {
                    Some(_) => false,
                    None => true,
                };
                if none_now {
                    proof {
                        assert(target.ds =~= dsacc);
                    }
                    break ;
                }
                let is_class = match iter.peek() {
                    Some(Token::Key(Keyword::Class)) => true,
                    _ => false,
                };
                let ghost pre_stats = self.stats();
                let ghost pre_ss = stats_s;
                let ghost spst = pst;
                let start = iter.peek_location();
                let stat: Stat = if is_class {
                    let ghost c = p_class(tvs, pst);
                    let st2 = self.consume_class(&mut iter);
                    proof {
                        lemma_tag_chain(old(self).diags(), dsacc, c.ds, self.cur_id());
                        pst = c.st;
                        dsacc = dsacc + c.ds;
                        stats_s = stats_s.push(c.stat);
                    }
                    st2
                } else {
                    let ghost a = p_expr(tvs, pst, 0, None::<TokenView>);
                    let expr = self.consume_expr(&mut iter, 0, None);
                    let end = iter.get_location();
                    proof {
                        lemma_tag_chain(old(self).diags(), dsacc, a.ds, self.cur_id());
                        let sstat = crate::grammar::StatS {
                            loc: FileLocation {
                                start: p_peek_loc(tvs, pst).start,
                                end: a.st.loc.end,
                            },
                            expr: a.e,
                        };
                        pst = a.st;
                        dsacc = dsacc + a.ds;
                        stats_s = stats_s.push(sstat);
                    }
                    Stat {
                        loc: FileLocation { start: start.start, end: end.end },
                        val: Stat_::Expr(Box::new(expr)),
                    }
                };
                self.ast.statements.push(stat);
                proof {
                    assert(old(self).stats().is_prefix_of(self.stats())) by {
                        let n = old(self).stats().len() as int;
                        assert(self.stats().subrange(0, n) =~= pre_stats.subrange(0, n));
                    }
                    assert forall|i: int|
                        0 <= i < stats_s.len() implies stat_matches(
                        &self.stats()[old(self).stats().len() + i],
                        #[trigger] stats_s[i],
                    ) by {
                        if i < pre_ss.len() {
                            assert(self.stats()[old(self).stats().len() + i] == pre_stats[old(
                                self,
                            ).stats().len() + i]);
                            assert(stat_matches(
                                &pre_stats[old(self).stats().len() + i],
                                pre_ss[i],
                            ));
                        } else {
                            assert(self.stats()[old(self).stats().len() + i] == self.stats().last());
                        }
                    }
                }
            }
        }
        proof {
            assert(glex.toks().len() == glex.raw_toks().len());
        }
        // Register the lexer under its path: a re-parse of the same path
        // replaces the earlier lexer.
        let slot_opt = path_map_get(&self.files, path);
        match slot_opt {
            Some(slot) => {
                let ghost pre = self.lexers@;
                let l = vstd::std_specs::vec::vec_index_mut(&mut self.lexers, slot);
                *l = lexer;
                proof {
                    assert(self.lexers@ =~= pre.update(slot as int, glex));
                    assert(reg_lexer(glex, path@, content@));
                }
            },
            None => {
                let n = self.lexers.len();
                path_map_insert(&mut self.files, path.to_owned(), n);
                self.lexers.push(lexer);
                proof {
                    assert(reg_lexer(glex, path@, content@));
                    assert forall|p: Seq<char>|
                        path_entries(self.files).contains_key(p) implies #[trigger] path_entries(
                        self.files,
                    )[p] < self.lexers@.len() by {
                        if p == path@ {
                        } else {
                            assert(path_entries(old(self).files).contains_key(p));
                        }
                    }
                }
            },
        }
    }
}


/// Re-rendering an unchanged diagnostic log yields identical text: what
/// [`Parser::render_diagnoses`] returns is a function of the registered
/// lexers, the registered file names and the recorded records alone, so two
/// renderings without an intervening change are the same text.
pub proof fn lemma_render_deterministic(a: &Parser, b: &Parser)
    requires
        a.lexers_seq() == b.lexers_seq(),
        a.names() == b.names(),
        a.diags() == b.diags(),
    ensures
        render_lexers(a.lexers_seq(), a.lexers_seq().len() as int) + render_precs(
            a.names(),
            a.diags(),
            a.diags().len() as int,
        ) == render_lexers(b.lexers_seq(), b.lexers_seq().len() as int) + render_precs(
            b.names(),
            b.diags(),
            b.diags().len() as int,
        ),
{
}

/// A session whose lexers all have empty logs has no lexer diagnostics at
/// all.
pub proof fn lemma_lex_err_total_zero(ls: Seq<Lexer>)
    requires
        forall|i: int| 0 <= i < ls.len() ==> (#[trigger] ls[i]).errs().len() == 0,
    ensures
        lex_err_total(ls) == 0,
    decreases ls.len(),
{
    if ls.len() > 0 {
        lemma_lex_err_total_zero(ls.drop_last());
    }
}

/// A fresh session that has recorded nothing — no parser records and only
/// lexers with empty logs, as parsing empty source leaves behind — has
/// nothing to count: zero statements were appended and zero diagnostics
/// exist.
pub proof fn lemma_clean_session_counts(p: &Parser)
    requires
        p.diags().len() == 0,
        forall|i: int| 0 <= i < p.lexers_seq().len() ==> (#[trigger] p.lexers_seq()[i]).errs().len()
            == 0,
    ensures
        p.diags().len() + lex_err_total(p.lexers_seq()) == 0,
{
    lemma_lex_err_total_zero(p.lexers_seq());
}

/// Lexer error totals are never negative.
pub proof fn lemma_lex_err_total_nonneg(ls: Seq<Lexer>)
    ensures
        lex_err_total(ls) >= 0,
    decreases ls.len(),
{
    if ls.len() > 0 {
        lemma_lex_err_total_nonneg(ls.drop_last());
    }
}

} // verus!
