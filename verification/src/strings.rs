//! String literal scanning: escape decoding and its specification.
//!
//! A string literal runs from an opening quote to the matching closing quote
//! (the other quote character is ordinary content).  Escapes are `\\ \t \n
//! \r \" \'` and the fixed-width hex forms `\xHH`, `\uHHHH`, `\UHHHHHHHH`,
//! whose value must be a Unicode scalar.  A bad escape marks the whole
//! literal invalid but scanning continues to the closing quote, so one
//! precise diagnostic can cover the literal; running out of input first is a
//! distinct condition.

use vstd::prelude::*;

use crate::numbers::{digit_ok, digit_val};
use crate::util::FileIterator;

verus! {

broadcast use vstd::utf8::char_is_scalar, vstd::utf8::char_u32_cast;

/// What scanning up to `count` hex digits from position `i` produces:
/// how many characters were consumed, the accumulated value, and whether all
/// `count` digits were present.
pub struct HexScan {
    pub used: int,
    pub val: int,
    pub ok: bool,
}

/// Scan `count` hex digits starting at `i`, folding them onto `acc`.
/// Stops early (without consuming the offending character) on a non-hex
/// character or the end of input.
pub open spec fn hex_scan(s: Seq<char>, i: int, count: int, acc: int) -> HexScan
    decreases count,
{
    if count <= 0 {
        HexScan { used: 0, val: acc, ok: true }
    } else if i < 0 || i >= s.len() || !digit_ok(s[i], 16) {
        HexScan { used: 0, val: 0, ok: false }
    } else {
        let rest = hex_scan(s, i + 1, count - 1, acc * 16 + digit_val(s[i]));
        HexScan { used: rest.used + 1, val: rest.val, ok: rest.ok }
    }
}

/// A hex scan consumes at most `count` characters and never runs past the
/// end of input.
pub proof fn lemma_hex_scan_bounds(s: Seq<char>, i: int, count: int, acc: int)
    requires
        0 <= i <= s.len(),
        0 <= count,
    ensures
        0 <= hex_scan(s, i, count, acc).used <= count,
        i + hex_scan(s, i, count, acc).used <= s.len(),
    decreases count,
{
    if count > 0 && i < s.len() && digit_ok(s[i], 16) {
        lemma_hex_scan_bounds(s, i + 1, count - 1, acc * 16 + digit_val(s[i]));
    }
}

/// The value is a Unicode scalar value: not a surrogate, and within range.
pub open spec fn valid_scalar(v: int) -> bool {
    (0 <= v < 0xD800) || (0xE000 <= v < 0x110000)
}

/// What scanning one escape sequence produces, starting at the character
/// right after the backslash: how many characters were consumed, and the
/// decoded character (`None` for an invalid escape).
pub struct EscScan {
    pub used: int,
    pub out: Option<char>,
}

/// Scan one escape sequence.  A backslash at the end of input consumes
/// nothing and is invalid.
pub open spec fn esc_scan(s: Seq<char>, i: int) -> EscScan {
    if i < 0 || i >= s.len() {
        EscScan { used: 0, out: None }
    } else {
        let c = s[i];
        if c == '\\' {
            EscScan { used: 1, out: Some('\\') }
        } else if c == 't' {
            EscScan { used: 1, out: Some('\t') }
        } else if c == 'n' {
            EscScan { used: 1, out: Some('\n') }
        } else if c == 'r' {
            EscScan { used: 1, out: Some('\r') }
        } else if c == '"' {
            EscScan { used: 1, out: Some('"') }
        } else if c == '\'' {
            EscScan { used: 1, out: Some('\'') }
        } else if c == 'x' {
            esc_hex(s, i, 2)
        } else if c == 'u' {
            esc_hex(s, i, 4)
        } else if c == 'U' {
            esc_hex(s, i, 8)
        } else {
            EscScan { used: 1, out: None }
        }
    }
}

/// The hex arm of [`esc_scan`]: the kind character plus `count` digits.
pub open spec fn esc_hex(s: Seq<char>, i: int, count: int) -> EscScan {
    let hx = hex_scan(s, i + 1, count, 0);
    EscScan {
        used: 1 + hx.used,
        out: if hx.ok && valid_scalar(hx.val) {
            Some((hx.val as u32) as char)
        } else {
            None
        },
    }
}

/// An escape scan never consumes a character that is not there.
pub proof fn lemma_esc_scan_bounds(s: Seq<char>, i: int)
    requires
        0 <= i <= s.len(),
    ensures
        0 <= esc_scan(s, i).used,
        i + esc_scan(s, i).used <= s.len(),
{
    if i < s.len() {
        lemma_hex_scan_bounds(s, i + 1, 2, 0);
        lemma_hex_scan_bounds(s, i + 1, 4, 0);
        lemma_hex_scan_bounds(s, i + 1, 8, 0);
    }
}

/// What scanning string-literal content from position `i` to the closing
/// `quote` produces: the position after the last consumed character, the
/// decoded text, whether any escape was invalid, and whether the closing
/// quote was found before the end of input.
pub struct StrScan {
    pub end: int,
    pub text: Seq<char>,
    pub invalid: bool,
    pub terminated: bool,
}

/// Scan string-literal content.  Every character is content except the
/// closing quote, which terminates, and backslash, which starts an escape;
/// an invalid escape contributes no character but marks the scan invalid.
pub open spec fn str_scan(s: Seq<char>, i: int, quote: char) -> StrScan
    decreases s.len() - i,
    via str_scan_dec
{
    if i < 0 || i >= s.len() {
        StrScan { end: s.len() as int, text: Seq::empty(), invalid: false, terminated: false }
    } else if s[i] == quote {
        StrScan { end: i + 1, text: Seq::empty(), invalid: false, terminated: true }
    } else if s[i] == '\\' {
        let e = esc_scan(s, i + 1);
        let rest = str_scan(s, i + 1 + e.used, quote);
        StrScan {
            end: rest.end,
            text: (match e.out {
                Some(c) => seq![c],
                None => Seq::empty(),
            }) + rest.text,
            invalid: e.out is None || rest.invalid,
            terminated: rest.terminated,
        }
    } else {
        let rest = str_scan(s, i + 1, quote);
        StrScan {
            end: rest.end,
            text: seq![s[i]] + rest.text,
            invalid: rest.invalid,
            terminated: rest.terminated,
        }
    }
}

#[via_fn]
proof fn str_scan_dec(s: Seq<char>, i: int, quote: char) {
    if 0 <= i && i < s.len() && s[i] != quote && s[i] == '\\' {
        if i + 1 <= s.len() {
            lemma_esc_scan_bounds(s, i + 1);
        }
    }
}

/// A string-literal scan ends within the input and after its start.
pub proof fn lemma_str_scan_bounds(s: Seq<char>, i: int, quote: char)
    requires
        0 <= i <= s.len(),
    ensures
        i <= str_scan(s, i, quote).end <= s.len(),
    decreases s.len() - i,
{
    if i < s.len() && s[i] != quote {
        if s[i] == '\\' {
            lemma_esc_scan_bounds(s, i + 1);
            lemma_str_scan_bounds(s, i + 1 + esc_scan(s, i + 1).used, quote);
        } else {
            lemma_str_scan_bounds(s, i + 1, quote);
        }
    }
}

/// Append one character to a string.
///
/// Relies on `String::push`: it appends exactly the given character.
#[verifier::external_body]
pub(crate) fn push_char(s: &mut String, c: char)
    ensures
        final(s)@ == old(s)@.push(c),
{
    s.push(c);
}

/// A `String` holding exactly the given characters, built by appending them
/// one by one.
pub(crate) fn chars_string(v: &Vec<char>) -> (r: String)
    ensures
        r@ == v@,
{
    let mut r = String::new();
    let mut i: usize = 0;
    while i < v.len()
        invariant
            i <= v@.len(),
            r@ == v@.take(i as int),
        decreases v@.len() - i,
    {
        push_char(&mut r, v[i]);
        i = i + 1;
        proof {
            assert(r@ =~= v@.take(i as int));
        }
    }
    proof {
        assert(v@.take(v@.len() as int) =~= v@);
    }
    r
}

/// Decode a hex value into a character.
///
/// Relies on `char::from_u32`: it returns `Some` exactly for Unicode scalar
/// values (not a surrogate, at most `0x10FFFF`), and the returned character
/// has the given value.
#[verifier::external_body]
pub(crate) fn char_from_u32(x: u32) -> (r: Option<char>)
    ensures
        r matches Some(c) ==> c as u32 == x,
        r is Some <==> valid_scalar(x as int),
    {
    char::from_u32(x)
}

/// Powers of sixteen, for bounding hex accumulators.
pub open spec fn pow16(n: nat) -> int
    decreases n,
{
    if n == 0 {
        1
    } else {
        16 * pow16((n - 1) as nat)
    }
}

/// Scan exactly `count` hex digits from the cursor and decode their value as
/// a character.  On a missing or non-hex digit, or a value that is not a
/// Unicode scalar, the offending character is not consumed and the escape is
/// reported invalid.
pub(crate) fn consume_hex_escape(iter: &mut FileIterator, count: u8) -> (r: Result<char, ()>)
    requires
        old(iter).wf(),
        count == 2 || count == 4 || count == 8,
    ensures
        final(iter).wf(),
        final(iter).src() == old(iter).src(),
        ({
            let hx = hex_scan(old(iter).src(), old(iter).pos(), count as int, 0);
            &&& final(iter).pos() == old(iter).pos() + hx.used
            &&& (match r {
                Ok(c) => hx.ok && valid_scalar(hx.val) && c as u32 == hx.val,
                Err(_) => !hx.ok || !valid_scalar(hx.val),
            })
        }),
{
    let ghost s = iter.src();
    let ghost p0 = iter.pos();
    let mut x: u32 = 0;
    let mut j: u8 = 0;
    proof {
        iter.bounds();
        lemma_hex_scan_bounds(s, p0, count as int, 0);
        assert(pow16(0) == 1);
    }
    while j < count
        invariant
            iter.wf(),
            s == old(iter).src(),
            p0 == old(iter).pos(),
            iter.src() == s,
            0 <= j <= count,
            count == 2 || count == 4 || count == 8,
            iter.pos() == p0 + j,
            0 <= p0 <= s.len(),
            p0 + j <= s.len(),
            x < pow16(j as nat),
            hex_scan(s, p0, count as int, 0).ok == hex_scan(s, p0 + j, (count - j) as int, x as int).ok,
            hex_scan(s, p0, count as int, 0).val == hex_scan(s, p0 + j, (count - j) as int, x as int).val,
            hex_scan(s, p0, count as int, 0).used == j + hex_scan(s, p0 + j, (count - j) as int, x as int).used,
        decreases count - j,
    {
        let c_opt = iter.peek();
        let (d, ok): (u32, bool) = match c_opt {
            Some(c) => {
                let u = c as u32;
                if 0x30 <= u && u <= 0x39 {
                    (u - 0x30, true)
                } else if 0x61 <= u && u <= 0x66 {
                    (u - 0x61 + 10, true)
                } else if 0x41 <= u && u <= 0x46 {
                    (u - 0x41 + 10, true)
                } else {
                    (0, false)
                }
            },
            None => (0, false),
        };
        if !ok {
            return Err(());
        }
        proof {
            assert(p0 + j < s.len());
            assert(digit_ok(s[p0 + j], 16));
            assert(d == digit_val(s[p0 + j]));
            lemma_pow16_le(j as nat, 7);
            assert(pow16(7) == 0x10000000) by {
                reveal_with_fuel(pow16, 9);
            }
            assert(x < 0x10000000);
            assert(x as int * 16 <= 0x100000000 - 16) by (nonlinear_arith)
                requires
                    x < 0x10000000,
                ;
            assert(16 * pow16(j as nat) == pow16((j + 1) as nat));
            assert(x as int * 16 + d < 16 * pow16(j as nat)) by (nonlinear_arith)
                requires
                    x < pow16(j as nat),
                    0 <= d < 16,
                    pow16(j as nat) >= 1,
                ;
            lemma_pow16_pos(j as nat);
        }
        x = x * 16 + d;
        iter.next();
        j = j + 1;
    }
    match char_from_u32(x) {
        Some(c) => Ok(c),
        None => Err(()),
    }
}

/// Powers of sixteen are positive.
pub proof fn lemma_pow16_pos(n: nat)
    ensures
        pow16(n) >= 1,
    decreases n,
{
    if n > 0 {
        lemma_pow16_pos((n - 1) as nat);
    }
}

/// Powers of sixteen are monotone.
pub proof fn lemma_pow16_le(a: nat, b: nat)
    requires
        a <= b,
    ensures
        pow16(a) <= pow16(b),
    decreases b,
{
    if a < b {
        lemma_pow16_le(a, (b - 1) as nat);
        lemma_pow16_pos((b - 1) as nat);
    }
}

/// Scan one escape sequence from the cursor, which stands right after the
/// backslash.  Consumes exactly the characters the escape grammar accepts
/// and returns the decoded character, or reports the escape invalid.
pub(crate) fn consume_escape(iter: &mut FileIterator) -> (r: Result<char, ()>)
    requires
        old(iter).wf(),
    ensures
        final(iter).wf(),
        final(iter).src() == old(iter).src(),
        ({
            let e = esc_scan(old(iter).src(), old(iter).pos());
            &&& final(iter).pos() == old(iter).pos() + e.used
            &&& (match r {
                Ok(c) => e.out == Some(c),
                Err(_) => e.out is None,
            })
        }),
{
    let c = match iter.peek() {
        Some(c) => c,
        None => {
            return Err(());
        },
    };
    proof {
        iter.bounds();
    }
    if c == '\\' || c == 't' || c == 'n' || c == 'r' || c == '"' || c == '\'' {
        iter.next();
        Ok(
            if c == '\\' {
                '\\'
            } else if c == 't' {
                '\t'
            } else if c == 'n' {
                '\n'
            } else if c == 'r' {
                '\r'
            } else if c == '"' {
                '"'
            } else {
                '\''
            },
        )
    } else if c == 'x' || c == 'u' || c == 'U' {
        let ghost i0 = iter.pos();
        iter.next();
        let count: u8 = if c == 'x' {
            2
        } else if c == 'u' {
            4
        } else {
            8
        };
        let r = consume_hex_escape(iter, count);
        proof {
            let hx = hex_scan(old(iter).src(), i0 + 1, count as int, 0);
            if let Ok(cc) = r {
                vstd::utf8::char_u32_cast(cc, (hx.val as u32));
            }
        }
        r
    } else {
        iter.next();
        Err(())
    }
}

} // verus!
