//! Numeric literal scanning and decoding.
//!
//! A numeral is first scanned out of the source (digit separators dropped,
//! two-character lookahead keeping `..` intact), then decoded: integer text
//! is folded digit by digit in its radix with a 64-bit overflow check, float
//! text is validated against the decimal-float grammar and kept as text.

use vstd::prelude::*;
use vstd::string::StringExecFns;

verus! {

broadcast use vstd::utf8::char_is_scalar;

/// ASCII punctuation: the character classes that terminate numerals and
/// identifiers and start operator scanning.
pub open spec fn is_punct(c: char) -> bool {
    (0x21 <= c as u32 && c as u32 <= 0x2f) || (0x3a <= c as u32 && c as u32 <= 0x40) || (0x5b
        <= c as u32 && c as u32 <= 0x60) || (0x7b <= c as u32 && c as u32 <= 0x7e)
}

/// Whitespace: space, tab, carriage return, newline.
pub open spec fn is_ws(c: char) -> bool {
    c == ' ' || c == '\t' || c == '\r' || c == '\n'
}

/// Exec mirror of [`is_punct`].
pub fn punct_char(c: char) -> (r: bool)
    ensures
        r == is_punct(c),
{
    let u = c as u32;
    (0x21 <= u && u <= 0x2f) || (0x3a <= u && u <= 0x40) || (0x5b <= u && u <= 0x60) || (0x7b <= u
        && u <= 0x7e)
}

/// Exec mirror of [`is_dec`].
pub fn dec_char(c: char) -> (r: bool)
    ensures
        r == is_dec(c),
{
    let u = c as u32;
    0x30 <= u && u <= 0x39
}

/// Exec mirror of [`is_ws`].
pub fn ws_char(c: char) -> (r: bool)
    ensures
        r == is_ws(c),
{
    c == ' ' || c == '\t' || c == '\r' || c == '\n'
}

/// What scanning a numeral from position `i` produces: the position after
/// the last consumed character, the kept characters (separators dropped),
/// and whether a float marker (`.`, `e`, `E`) was seen.
pub struct NumScan {
    pub pos: int,
    pub kept: Seq<char>,
    pub is_float: bool,
}

/// The numeral scan.  `e_flag` records whether the previous kept character
/// was an exponent marker, which is the only position where a sign extends
/// the numeral.  Scanning stops at `..`, at punctuation, at whitespace, and
/// at the end of input; `_` is dropped; everything else is kept.
pub open spec fn scan_num(s: Seq<char>, i: int, e_flag: bool) -> NumScan
    decreases s.len() - i, 2int,
{
    if i < 0 || i >= s.len() {
        NumScan { pos: if i < 0 { 0 } else { i }, kept: Seq::empty(), is_float: false }
    } else {
        let c = s[i];
        if c == '.' && i + 1 < s.len() && s[i + 1] == '.' {
            NumScan { pos: i, kept: Seq::empty(), is_float: false }
        } else if (c == '+' || c == '-') && e_flag {
            scan_num_step(s, i, true)
        } else if c == '_' {
            scan_num_step(s, i, false)
        } else if c == '.' {
            scan_num_step(s, i, true)
        } else if is_punct(c) || is_ws(c) {
            NumScan { pos: i, kept: Seq::empty(), is_float: false }
        } else {
            scan_num_step(s, i, true)
        }
    }
}

/// One consuming step of [`scan_num`]: keep or drop `s[i]`, then scan on.
pub open spec fn scan_num_step(s: Seq<char>, i: int, keep: bool) -> NumScan
    decreases s.len() - i, 1int
        when 0 <= i < s.len()
{
    let c = s[i];
    let rest = scan_num(s, i + 1, c == 'e' || c == 'E');
    NumScan {
        pos: rest.pos,
        kept: (if keep {
            seq![c]
        } else {
            Seq::empty()
        }) + rest.kept,
        is_float: (c == '.' || c == 'e' || c == 'E') || rest.is_float,
    }
}

/// The scan never moves backwards and never runs past the end.
pub proof fn lemma_scan_num_bounds(s: Seq<char>, i: int, e_flag: bool)
    requires
        0 <= i <= s.len(),
    ensures
        i <= scan_num(s, i, e_flag).pos <= s.len(),
    decreases s.len() - i,
{
    if i < s.len() {
        lemma_scan_num_bounds(s, i + 1, s[i] == 'e' || s[i] == 'E');
    }
}

/// The character is a valid digit in the given radix.
pub open spec fn digit_ok(c: char, radix: int) -> bool {
    if radix == 16 {
        (0x30 <= c as u32 && c as u32 <= 0x39) || (0x61 <= c as u32 && c as u32 <= 0x66) || (0x41
            <= c as u32 && c as u32 <= 0x46)
    } else {
        0x30 <= c as u32 && c as u32 <= 0x30 + radix - 1
    }
}

/// The numeric value of one digit character.
pub open spec fn digit_val(c: char) -> int {
    if 0x61 <= c as u32 && c as u32 <= 0x66 {
        c as u32 - 0x61 + 10
    } else if 0x41 <= c as u32 && c as u32 <= 0x46 {
        c as u32 - 0x41 + 10
    } else {
        c as u32 - 0x30
    }
}

/// The mathematical value of a digit string in the given radix.
pub open spec fn digits_val(s: Seq<char>, radix: int) -> int
    decreases s.len(),
{
    if s.len() == 0 {
        0
    } else {
        digits_val(s.drop_last(), radix) * radix + digit_val(s.last())
    }
}

/// Every character of `s` is a valid digit in the given radix.
pub open spec fn digits_ok(s: Seq<char>, radix: int) -> bool {
    forall|k: int| 0 <= k < s.len() ==> digit_ok(#[trigger] s[k], radix)
}

/// Folding a valid digit string left to right exceeds `i64::MAX` at some
/// point: the overflow that the decoder reports.
pub open spec fn int_overflows(s: Seq<char>, radix: int) -> bool {
    exists|k: int|
        0 <= k <= s.len() && digits_ok(#[trigger] s.take(k), radix) && digits_val(s.take(k), radix)
            > i64::MAX
}

/// The radix of an integer literal: fixed by its two-character prefix.
pub open spec fn int_radix(s: Seq<char>) -> int {
    if s.len() >= 2 && s[0] == '0' && (s[1] == 'x' || s[1] == 'X') {
        16
    } else if s.len() >= 2 && s[0] == '0' && (s[1] == 'o' || s[1] == 'O') {
        8
    } else if s.len() >= 2 && s[0] == '0' && (s[1] == 'b' || s[1] == 'B') {
        2
    } else {
        10
    }
}

/// The digits of an integer literal: everything after the radix prefix.
pub open spec fn int_body(s: Seq<char>) -> Seq<char> {
    if int_radix(s) == 10 {
        s
    } else {
        s.skip(2)
    }
}

/// A valid digit string has a non-negative value.
pub proof fn lemma_digits_val_nonneg(s: Seq<char>, radix: int)
    requires
        radix >= 2,
        digits_ok(s, radix),
    ensures
        digits_val(s, radix) >= 0,
    decreases s.len(),
{
    if s.len() > 0 {
        assert(digits_ok(s.drop_last(), radix)) by {
            assert(forall|k: int|
                0 <= k < s.drop_last().len() ==> s.drop_last()[k] == #[trigger] s[k]);
        }
        lemma_digits_val_nonneg(s.drop_last(), radix);
        let v = digits_val(s.drop_last(), radix);
        assert(v * radix >= 0) by (nonlinear_arith)
            requires
                v >= 0,
                radix >= 2,
        ;
        assert(digit_val(s.last()) >= 0);
    }
}

/// A prefix of a valid digit string has a value no larger than the whole.
pub proof fn lemma_digits_val_mono(s: Seq<char>, radix: int, j: int, k: int)
    requires
        radix >= 2,
        0 <= j <= k <= s.len(),
        digits_ok(s.take(k), radix),
    ensures
        digits_val(s.take(j), radix) <= digits_val(s.take(k), radix),
    decreases k - j,
{
    if j < k {
        let a = s.take(k);
        let b = s.take(k - 1);
        assert(a.drop_last() =~= b);
        assert(digits_ok(b, radix)) by {
            assert(forall|m: int| 0 <= m < b.len() ==> b[m] == #[trigger] a[m]);
        }
        lemma_digits_val_mono(s, radix, j, k - 1);
        lemma_digits_val_nonneg(b, radix);
        let v = digits_val(b, radix);
        assert(v * radix >= v) by (nonlinear_arith)
            requires
                v >= 0,
                radix >= 2,
        ;
        assert(digit_ok(a.last(), radix));
        assert(digit_val(a.last()) >= 0);
    }
}

/// Decode an integer literal (with optional `0x`/`0o`/`0b` prefix, separators
/// already dropped) by folding its digits in the detected radix.
///
/// Succeeds exactly when every character is a valid digit for the radix and
/// the value fits in `i64`; an overflow during the left-to-right fold is
/// reported as overflow even when a bad digit follows further right.
pub fn parse_int(num: &Vec<char>) -> (r: Result<i64, String>)
    ensures
        ({
            let radix = int_radix(num@);
            let body = int_body(num@);
            match r {
                Ok(v) => digits_ok(body, radix) && digits_val(body, radix) <= i64::MAX && v
                    == digits_val(body, radix),
                Err(m) => {
                    &&& !(digits_ok(body, radix) && digits_val(body, radix) <= i64::MAX)
                    &&& (if int_overflows(body, radix) {
                        m@ == "Integer overflow 64-bits."@
                    } else {
                        !digits_ok(body, radix) && m@ == "Invalid Digit"@
                    })
                },
            }
        }),
{
    let ghost radix_g = int_radix(num@);
    let ghost body = int_body(num@);
    let len = num.len();
    let (radix, start): (i64, usize) = if len >= 2 && num[0] == '0' && (num[1] == 'x' || num[1]
        == 'X') {
        (16, 2)
    } else if len >= 2 && num[0] == '0' && (num[1] == 'o' || num[1] == 'O') {
        (8, 2)
    } else if len >= 2 && num[0] == '0' && (num[1] == 'b' || num[1] == 'B') {
        (2, 2)
    } else {
        (10, 0)
    };
    proof {
        assert(radix == radix_g);
        assert(body =~= num@.skip(start as int));
    }
    let mut i: i64 = 0;
    let mut k: usize = start;
    while k < len
        invariant
            start <= k <= len,
            len == num@.len(),
            radix == radix_g,
            radix_g == int_radix(num@),
            body == int_body(num@),
            radix == 2 || radix == 8 || radix == 10 || radix == 16,
            body == num@.skip(start as int),
            body.len() == len - start,
            digits_ok(body.take(k - start), radix as int),
            i == digits_val(body.take(k - start), radix as int),
            0 <= i <= i64::MAX,
        decreases len - k,
    {
        let c = num[k];
        let u = c as u32;
        let d: i64 = if 0x30 <= u && u <= 0x39 {
            (u - 0x30) as i64
        } else if 0x61 <= u && u <= 0x66 {
            (u - 0x61 + 10) as i64
        } else if 0x41 <= u && u <= 0x46 {
            (u - 0x41 + 10) as i64
        } else {
            16
        };
        let ok = d < radix;
        proof {
            assert(body[k - start] == c);
            assert(ok == digit_ok(c, radix as int));
            if ok {
                assert(d == digit_val(c));
            }
        }
        if !ok {
            proof {
                let m = k - start;
                assert(body.take(m + 1).last() == c);
                assert(!digits_ok(body, radix as int)) by {
                    assert(body[m] == c && !digit_ok(c, radix as int));
                }
                // No overflow was possible: every valid prefix stops at m.
                if int_overflows(body, radix as int) {
                    let w = choose|w: int|
                        0 <= w <= body.len() && digits_ok(#[trigger] body.take(w), radix as int)
                            && digits_val(body.take(w), radix as int) > i64::MAX;
                    if w > m {
                        assert(body.take(w)[m] == body[m]);
                        assert(false);
                    } else {
                        lemma_digits_val_mono(body, radix as int, w, m);
                        assert(false);
                    }
                }
            }
            proof {
                assert(!digits_ok(int_body(num@), int_radix(num@)));
                assert(!int_overflows(int_body(num@), int_radix(num@)));
            }
            let msg = "Invalid Digit".to_owned();
            proof {
                assert(msg@ == "Invalid Digit"@);
            }
            return Err(msg);
        }
        if i > (i64::MAX - d) / radix {
            proof {
                let m = k - start;
                assert(body.take(m + 1) =~= body.take(m).push(c));
                assert(body.take(m + 1).drop_last() =~= body.take(m));
                assert(digits_val(body.take(m + 1), radix as int) == i * radix + d);
                assert(i * radix + d > i64::MAX) by (nonlinear_arith)
                    requires
                        i > (i64::MAX - d) / (radix as int),
                        2 <= radix <= 16,
                        0 <= d < radix,
                        0 <= i,
                ;
                assert(digits_ok(body.take(m + 1), radix as int)) by {
                    assert(forall|q: int|
                        0 <= q < m ==> #[trigger] body.take(m + 1)[q] == body.take(m)[q]);
                    assert(body.take(m + 1)[m] == c);
                }
                assert(int_overflows(body, radix as int)) by {
                    assert(0 <= m + 1 <= body.len() && digits_ok(
                        #[trigger] body.take(m + 1),
                        radix as int,
                    ) && digits_val(body.take(m + 1), radix as int) > i64::MAX);
                }
                assert(!(digits_ok(body, radix as int) && digits_val(body, radix as int)
                    <= i64::MAX)) by {
                    if digits_ok(body, radix as int) {
                        lemma_digits_val_mono(body, radix as int, m + 1, body.len() as int);
                        assert(body.take(body.len() as int) =~= body);
                    }
                }
            }
            return Err("Integer overflow 64-bits.".to_owned());
        }
        proof {
            assert(i * radix + d <= i64::MAX) by (nonlinear_arith)
                requires
                    i <= (i64::MAX - d) / (radix as int),
                    2 <= radix <= 16,
                    0 <= d < radix,
                    0 <= i,
            ;
            assert(i * radix >= 0) by (nonlinear_arith)
                requires
                    0 <= i,
                    2 <= radix,
            ;
            let m = k - start;
            assert(body.take(m + 1) =~= body.take(m).push(c));
            assert(body.take(m + 1).drop_last() =~= body.take(m));
            assert(digits_ok(body.take(m + 1), radix as int)) by {
                assert(forall|q: int|
                    0 <= q < m ==> #[trigger] body.take(m + 1)[q] == body.take(m)[q]);
                assert(body.take(m + 1)[m] == c);
            }
        }
        i = i * radix + d;
        k = k + 1;
    }
    proof {
        assert(body.take(k - start) =~= body);
    }
    Ok(i)
}

/// The recognizer states for decimal-float text.
#[derive(Debug, Clone, Copy, PartialEq, Eq, Structural)]
pub enum FloatState {
    /// Reading integer digits; the flag records whether one was seen.
    MantInt(bool),
    /// Reading fractional digits after the dot.
    MantFrac,
    /// Right after the exponent marker: a sign or a digit may follow.
    ExpStart,
    /// Reading exponent digits; the flag records whether one was seen.
    ExpDigits(bool),
    /// The text can no longer be a float.
    Reject,
}

/// The character is a decimal digit.
pub open spec fn is_dec(c: char) -> bool {
    0x30 <= c as u32 && c as u32 <= 0x39
}

/// One step of the decimal-float recognizer.
pub open spec fn float_step(st: FloatState, c: char) -> FloatState {
    match st {
        FloatState::MantInt(seen) => if is_dec(c) {
            FloatState::MantInt(true)
        } else if c == '.' && seen {
            FloatState::MantFrac
        } else if (c == 'e' || c == 'E') && seen {
            FloatState::ExpStart
        } else {
            FloatState::Reject
        },
        FloatState::MantFrac => if is_dec(c) {
            FloatState::MantFrac
        } else if c == 'e' || c == 'E' {
            FloatState::ExpStart
        } else {
            FloatState::Reject
        },
        FloatState::ExpStart => if is_dec(c) {
            FloatState::ExpDigits(true)
        } else if c == '+' || c == '-' {
            FloatState::ExpDigits(false)
        } else {
            FloatState::Reject
        },
        FloatState::ExpDigits(seen) => if is_dec(c) {
            FloatState::ExpDigits(true)
        } else {
            FloatState::Reject
        },
        FloatState::Reject => FloatState::Reject,
    }
}

/// Run the recognizer over `s` from position `i`.
pub open spec fn float_run(s: Seq<char>, i: int, st: FloatState) -> FloatState
    decreases s.len() - i,
{
    if i < 0 || i >= s.len() {
        st
    } else {
        float_run(s, i + 1, float_step(st, s[i]))
    }
}

/// The recognizer accepts in this state.
pub open spec fn float_accepting(st: FloatState) -> bool {
    match st {
        FloatState::MantInt(seen) => seen,
        FloatState::MantFrac => true,
        FloatState::ExpDigits(seen) => seen,
        _ => false,
    }
}

/// The text is valid decimal-float text: `Digits ('.' Digits?)?
/// (('e'|'E') ('+'|'-')? Digits)?`, which is the decimal part of the
/// standard float grammar reachable from a numeral scan.
pub open spec fn float_text_ok(s: Seq<char>) -> bool {
    float_accepting(float_run(s, 0, FloatState::MantInt(false)))
}

/// Exec mirror of [`float_step`].
fn float_step_exec(st: FloatState, c: char) -> (r: FloatState)
    ensures
        r == float_step(st, c),
{
    let u = c as u32;
    let dec = 0x30 <= u && u <= 0x39;
    match st {
        FloatState::MantInt(seen) => if dec {
            FloatState::MantInt(true)
        } else if c == '.' && seen {
            FloatState::MantFrac
        } else if (c == 'e' || c == 'E') && seen {
            FloatState::ExpStart
        } else {
            FloatState::Reject
        },
        FloatState::MantFrac => if dec {
            FloatState::MantFrac
        } else if c == 'e' || c == 'E' {
            FloatState::ExpStart
        } else {
            FloatState::Reject
        },
        FloatState::ExpStart => if dec {
            FloatState::ExpDigits(true)
        } else if c == '+' || c == '-' {
            FloatState::ExpDigits(false)
        } else {
            FloatState::Reject
        },
        FloatState::ExpDigits(_) => if dec {
            FloatState::ExpDigits(true)
        } else {
            FloatState::Reject
        },
        FloatState::Reject => FloatState::Reject,
    }
}

/// Whether `num` is valid decimal-float text, per [`float_text_ok`].
pub fn float_ok(num: &Vec<char>) -> (r: bool)
    ensures
        r == float_text_ok(num@),
{
    let mut st = FloatState::MantInt(false);
    let mut k: usize = 0;
    while k < num.len()
        invariant
            k <= num@.len(),
            float_run(num@, 0, FloatState::MantInt(false)) == float_run(num@, k as int, st),
        decreases num@.len() - k,
    {
        st = float_step_exec(st, num[k]);
        k = k + 1;
    }
    match st {
        FloatState::MantInt(seen) => seen,
        FloatState::MantFrac => true,
        FloatState::ExpDigits(seen) => seen,
        _ => false,
    }
}

} // verus!
