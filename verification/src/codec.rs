//! The persisted snapshot format.
//!
//! The registry is written as one JSON object, `{"nodes":[...]}`, with every
//! field of every node in a fixed order and no whitespace.  The encoder and
//! the parser are both defined as mathematical functions on character
//! sequences, the executable writer and reader are proved to implement
//! them, and parsing an encoded snapshot is proved to give back exactly the
//! encoded registry.

use vstd::prelude::*;

use crate::text::{
    dec_digits, digit_char, digit_val, digits_val, int_digits, is_digit_char,
    lemma_dec_digits_shape, lemma_dec_digits_val, lemma_digits_val_take_le, starts_with,
};

use crate::node::{JobView, NodeView, ThalamusNode, ThalamusNodeJob};
use crate::registry::{ClientView, ThalamusClient};
use crate::stats::ThalamusNodeStats;

verus! {

// ---------------------------------------------------------------------------
// Encoding, primitive values
// ---------------------------------------------------------------------------
/// The code point of `c`.
pub open spec fn char_code(c: char) -> nat {
    c as nat
}

/// The character with code `n`, for codes below 256.
pub open spec fn code_char(n: nat) -> char
    recommends
        n < 256,
{
    (n as u8) as char
}

/// A character with a short escape of its own: the quote, the backslash,
/// and the five control characters JSON names.
pub open spec fn short_escape(c: char) -> bool {
    c == '"' || c == '\\' || c == '\u{8}' || c == '\t' || c == '\n' || c == '\u{c}' || c == '\r'
}

/// The character standing after the backslash in a short escape sequence.
pub open spec fn esc_code(c: char) -> char {
    if c == '\u{8}' {
        'b'
    } else if c == '\t' {
        't'
    } else if c == '\n' {
        'n'
    } else if c == '\u{c}' {
        'f'
    } else if c == '\r' {
        'r'
    } else {
        c
    }
}

/// The character a short escape sequence stands for.
pub open spec fn unesc_code(e: char) -> char {
    if e == 'b' {
        '\u{8}'
    } else if e == 't' {
        '\t'
    } else if e == 'n' {
        '\n'
    } else if e == 'f' {
        '\u{c}'
    } else if e == 'r' {
        '\r'
    } else {
        e
    }
}

/// A hexadecimal digit character.
pub open spec fn is_hex_digit(c: char) -> bool {
    is_digit_char(c) || ('a' <= c && c <= 'f') || ('A' <= c && c <= 'F')
}

/// The value of a hexadecimal digit character.
pub open spec fn hex_val(c: char) -> nat {
    if is_digit_char(c) {
        digit_val(c)
    } else if c == 'a' || c == 'A' {
        10
    } else if c == 'b' || c == 'B' {
        11
    } else if c == 'c' || c == 'C' {
        12
    } else if c == 'd' || c == 'D' {
        13
    } else if c == 'e' || c == 'E' {
        14
    } else {
        15
    }
}

/// The lowercase hexadecimal digit character for a value below sixteen.
pub open spec fn hex_digit_char(d: nat) -> char
    recommends
        d < 16,
{
    if d < 10 {
        digit_char(d)
    } else if d == 10 {
        'a'
    } else if d == 11 {
        'b'
    } else if d == 12 {
        'c'
    } else if d == 13 {
        'd'
    } else if d == 14 {
        'e'
    } else {
        'f'
    }
}

/// A string character as escaped inside a JSON string: quotes, backslashes
/// and the named control characters get a short escape, every other
/// control character a `\u00XX` escape, everything else stands for
/// itself.  Opaque: proofs that need the cases reveal it.
#[verifier::opaque]
pub open spec fn esc_char(c: char) -> Seq<char> {
    if short_escape(c) {
        seq!['\\', esc_code(c)]
    } else if char_code(c) < 0x20 {
        seq!['\\', 'u', '0', '0', hex_digit_char(char_code(c) / 16), hex_digit_char(
            char_code(c) % 16,
        )]
    } else {
        seq![c]
    }
}

/// A whole string body, escaped.
pub open spec fn esc(s: Seq<char>) -> Seq<char>
    decreases s.len(),
{
    if s.len() == 0 {
        seq![]
    } else {
        esc_char(s[0]) + esc(s.skip(1))
    }
}

/// A quoted, escaped JSON string.  Opaque: proofs work with its inversion
/// lemma and the writer's contract.
#[verifier::opaque]
pub open spec fn enc_str(s: Seq<char>) -> Seq<char> {
    seq!['"'] + esc(s) + seq!['"']
}

/// An optional score: `null` when absent, signed decimal digits otherwise.
pub open spec fn enc_opt_i64(v: Option<i64>) -> Seq<char> {
    match v {
        None => "null"@,
        Some(x) => int_digits(x),
    }
}

/// A boolean literal.
pub open spec fn enc_bool(b: bool) -> Seq<char> {
    if b {
        "true"@
    } else {
        "false"@
    }
}

// ---------------------------------------------------------------------------
// Parsing, primitive values
// ---------------------------------------------------------------------------
/// Consumes an exact literal, or fails.
pub open spec fn p_lit(s: Seq<char>, lit: Seq<char>) -> Option<Seq<char>> {
    if starts_with(s, lit) {
        Some(s.skip(lit.len() as int))
    } else {
        None
    }
}

/// Consumes a string body up to its closing quote, undoing escapes.
pub open spec fn p_str_body(s: Seq<char>) -> Option<(Seq<char>, Seq<char>)>
    decreases s.len(),
{
    if s.len() == 0 {
        None
    } else if s[0] == '"' {
        Some((seq![], s.skip(1)))
    } else if s[0] == '\\' {
        if s.len() >= 2 && (s[1] == '"' || s[1] == '\\' || s[1] == '/' || s[1] == 'b' || s[1]
            == 'f' || s[1] == 'n' || s[1] == 'r' || s[1] == 't') {
            match p_str_body(s.skip(2)) {
                None => None,
                Some((t, r)) => Some((seq![unesc_code(s[1])] + t, r)),
            }
        } else if s.len() >= 6 && s[1] == 'u' && is_hex_digit(s[2]) && is_hex_digit(s[3])
            && is_hex_digit(s[4]) && is_hex_digit(s[5]) {
            let n = ((hex_val(s[2]) * 16 + hex_val(s[3])) * 16 + hex_val(s[4])) * 16 + hex_val(
                s[5],
            );
            if n < 256 {
                match p_str_body(s.skip(6)) {
                    None => None,
                    Some((t, r)) => Some((seq![code_char(n)] + t, r)),
                }
            } else {
                None
            }
        } else {
            None
        }
    } else {
        match p_str_body(s.skip(1)) {
            None => None,
            Some((t, r)) => Some((seq![s[0]] + t, r)),
        }
    }
}

/// Consumes a quoted string.
pub open spec fn p_string(s: Seq<char>) -> Option<(Seq<char>, Seq<char>)> {
    if s.len() > 0 && s[0] == '"' {
        p_str_body(s.skip(1))
    } else {
        None
    }
}

/// How many digits `s` starts with.
pub open spec fn digit_run(s: Seq<char>) -> int
    decreases s.len(),
{
    if s.len() > 0 && is_digit_char(s[0]) {
        1 + digit_run(s.skip(1))
    } else {
        0
    }
}

/// Consumes an unsigned decimal number that fits in a `u64`.
pub open spec fn p_u64(s: Seq<char>) -> Option<(u64, Seq<char>)> {
    let k = digit_run(s);
    if k == 0 {
        None
    } else {
        let v = digits_val(s.take(k));
        if v <= u64::MAX {
            Some((v as u64, s.skip(k)))
        } else {
            None
        }
    }
}

/// Consumes a signed decimal number that fits in an `i64`.
pub open spec fn p_i64(s: Seq<char>) -> Option<(i64, Seq<char>)> {
    if s.len() > 0 && s[0] == '-' {
        match p_u64(s.skip(1)) {
            None => None,
            Some((m, r)) => if m as int <= i64::MAX as int + 1 {
                Some(((-(m as int)) as i64, r))
            } else {
                None
            },
        }
    } else {
        match p_u64(s) {
            None => None,
            Some((m, r)) => if m as int <= i64::MAX as int {
                Some((m as i64, r))
            } else {
                None
            },
        }
    }
}

/// Consumes `null` or a signed number.
pub open spec fn p_opt_i64(s: Seq<char>) -> Option<(Option<i64>, Seq<char>)> {
    if starts_with(s, "null"@) {
        Some((None, s.skip(4)))
    } else {
        match p_i64(s) {
            None => None,
            Some((v, r)) => Some((Some(v), r)),
        }
    }
}

/// Consumes a boolean literal.
pub open spec fn p_bool(s: Seq<char>) -> Option<(bool, Seq<char>)> {
    if starts_with(s, "true"@) {
        Some((true, s.skip(4)))
    } else if starts_with(s, "false"@) {
        Some((false, s.skip(5)))
    } else {
        None
    }
}

// ---------------------------------------------------------------------------
// Inversion lemmas, primitive values
// ---------------------------------------------------------------------------
/// A literal followed by anything parses back to that anything.
pub proof fn lemma_p_lit(lit: Seq<char>, rest: Seq<char>)
    ensures
        p_lit(lit + rest, lit) == Some(rest),
{
    assert((lit + rest).take(lit.len() as int) =~= lit);
    assert((lit + rest).skip(lit.len() as int) =~= rest);
}

/// A hexadecimal digit below sixteen prints as a hex character and reads
/// back as itself.
proof fn lemma_hex_digit(d: nat)
    requires
        d < 16,
    ensures
        is_hex_digit(hex_digit_char(d)),
        hex_val(hex_digit_char(d)) == d,
{
    if d < 10 {
        crate::text::lemma_digit_char_val(d);
    }
}

/// An escaped string body followed by its closing quote parses back to the
/// original string.
pub proof fn lemma_p_str_body(s: Seq<char>, rest: Seq<char>)
    ensures
        p_str_body(esc(s) + seq!['"'] + rest) == Some((s, rest)),
    decreases s.len(),
{
    reveal(esc_char);
    let whole = esc(s) + seq!['"'] + rest;
    if s.len() == 0 {
        assert(whole =~= seq!['"'] + rest);
        assert(whole[0] == '"');
        assert(whole.skip(1) =~= rest);
    } else {
        let c = s[0];
        lemma_p_str_body(s.skip(1), rest);
        if short_escape(c) {
            assert(whole =~= seq!['\\', esc_code(c)] + (esc(s.skip(1)) + seq!['"'] + rest));
            assert(whole[0] == '\\');
            assert(whole[1] == esc_code(c));
            assert(unesc_code(esc_code(c)) == c);
            assert(whole.skip(2) =~= esc(s.skip(1)) + seq!['"'] + rest);
            assert(seq![c] + s.skip(1) =~= s);
        } else if char_code(c) < 0x20 {
            let q = char_code(c) / 16;
            let m = char_code(c) % 16;
            lemma_hex_digit(q);
            lemma_hex_digit(m);
            assert(whole =~= seq!['\\', 'u', '0', '0', hex_digit_char(q), hex_digit_char(m)] + (
            esc(s.skip(1)) + seq!['"'] + rest));
            assert(whole[0] == '\\');
            assert(whole[1] == 'u');
            assert(whole[2] == '0' && whole[3] == '0');
            assert(whole[4] == hex_digit_char(q) && whole[5] == hex_digit_char(m));
            assert(is_hex_digit(whole[2]) && hex_val(whole[2]) == 0);
            assert(((hex_val(whole[2]) * 16 + hex_val(whole[3])) * 16 + hex_val(whole[4])) * 16
                + hex_val(whole[5]) == char_code(c));
            assert(code_char(char_code(c)) == c);
            assert(whole.skip(6) =~= esc(s.skip(1)) + seq!['"'] + rest);
            assert(seq![c] + s.skip(1) =~= s);
        } else {
            assert(whole =~= seq![c] + (esc(s.skip(1)) + seq!['"'] + rest));
            assert(whole[0] == c);
            assert(whole.skip(1) =~= esc(s.skip(1)) + seq!['"'] + rest);
            assert(seq![c] + s.skip(1) =~= s);
        }
    }
}

/// An encoded string followed by anything parses back to the string.
pub proof fn lemma_p_string(s: Seq<char>, rest: Seq<char>)
    ensures
        p_string(enc_str(s) + rest) == Some((s, rest)),
{
    reveal(enc_str);
    let whole = enc_str(s) + rest;
    assert(whole[0] == '"');
    assert(whole.skip(1) =~= esc(s) + seq!['"'] + rest);
    lemma_p_str_body(s, rest);
}

/// A run of digits followed by a non-digit is measured exactly.
proof fn lemma_digit_run_boundary(s: Seq<char>, m: int)
    requires
        0 <= m <= s.len(),
        forall|k: int| 0 <= k < m ==> is_digit_char(s[k]),
        m == s.len() || !is_digit_char(s[m]),
    ensures
        digit_run(s) == m,
    decreases m,
{
    if m == 0 {
    } else {
        lemma_digit_run_boundary(s.skip(1), m - 1);
    }
}

/// The printed digits of a value, followed by anything that does not start
/// with a digit, parse back to the value.
pub proof fn lemma_p_u64(n: u64, rest: Seq<char>)
    requires
        rest.len() == 0 || !is_digit_char(rest[0]),
    ensures
        p_u64(dec_digits(n as nat) + rest) == Some((n, rest)),
{
    let ds = dec_digits(n as nat);
    let whole = ds + rest;
    lemma_dec_digits_shape(n as nat);
    lemma_dec_digits_val(n as nat);
    lemma_digit_run_boundary(whole, ds.len() as int);
    assert(whole.take(ds.len() as int) =~= ds);
    assert(whole.skip(ds.len() as int) =~= rest);
}

/// As `lemma_p_u64`, for signed values.
pub proof fn lemma_p_i64(v: i64, rest: Seq<char>)
    requires
        rest.len() == 0 || !is_digit_char(rest[0]),
    ensures
        p_i64(int_digits(v) + rest) == Some((v, rest)),
{
    let whole = int_digits(v) + rest;
    if v >= 0 {
        assert(whole =~= dec_digits(v as nat) + rest);
        lemma_p_u64(v as u64, rest);
        lemma_dec_digits_shape(v as nat);
        assert(whole[0] == dec_digits(v as nat)[0]);
        assert(!(whole[0] == '-'));
    } else {
        let m = (-(v as int)) as nat;
        assert(whole[0] == '-');
        assert(whole.skip(1) =~= dec_digits(m) + rest);
        assert(m <= u64::MAX as nat) by {
            assert(v as int >= i64::MIN as int);
        }
        lemma_p_u64(m as u64, rest);
    }
}

/// As `lemma_p_u64`, for optional values.
pub proof fn lemma_p_opt_i64(v: Option<i64>, rest: Seq<char>)
    requires
        rest.len() == 0 || !is_digit_char(rest[0]),
    ensures
        p_opt_i64(enc_opt_i64(v) + rest) == Some((v, rest)),
{
    reveal_strlit("null");
    let whole = enc_opt_i64(v) + rest;
    match v {
        None => {
            assert(starts_with(whole, "null"@)) by {
                assert(whole.take(4) =~= "null"@);
            }
            assert(whole.skip(4) =~= rest);
        },
        Some(x) => {
            lemma_p_i64(x, rest);
            assert(whole =~= int_digits(x) + rest);
            assert(whole[0] == int_digits(x)[0]);
            if x >= 0 {
                lemma_dec_digits_shape(x as nat);
                assert(is_digit_char(whole[0]));
            } else {
                lemma_dec_digits_shape((-(x as int)) as nat);
            }
            assert(whole[0] != 'n');
            if starts_with(whole, "null"@) {
                assert(whole.take(4)[0] == whole[0]);
                assert(whole[0] == 'n');
            }
        },
    }
}

/// A boolean literal followed by anything parses back to the boolean.
pub proof fn lemma_p_bool(b: bool, rest: Seq<char>)
    ensures
        p_bool(enc_bool(b) + rest) == Some((b, rest)),
{
    reveal_strlit("true");
    reveal_strlit("false");
    let whole = enc_bool(b) + rest;
    if b {
        assert(starts_with(whole, "true"@)) by {
            assert(whole.take(4) =~= "true"@);
        }
        assert(whole.skip(4) =~= rest);
    } else {
        if starts_with(whole, "true"@) {
            assert(whole.take(4)[0] == whole[0]);
        }
        assert(starts_with(whole, "false"@)) by {
            assert(whole.take(5) =~= "false"@);
        }
        assert(whole.skip(5) =~= rest);
    }
}

// ---------------------------------------------------------------------------
// Executable writers, primitive values
// ---------------------------------------------------------------------------
/// Appends one string, quoted and escaped.
pub fn write_quoted(buf: &mut Vec<char>, s: &str)
    ensures
        final(buf)@ == old(buf)@ + enc_str(s@),
{
    buf.push('"');
    let n = s.unicode_len();
    let mut i: usize = 0;
    while i < n
        invariant
            n == s@.len(),
            i <= n,
            buf@ =~= old(buf)@ + seq!['"'] + esc(s@.take(i as int)),
        decreases n - i,
    {
        let c = s.get_char(i);
        if c == '"' || c == '\\' {
            buf.push('\\');
            buf.push(c);
        } else if c == '\u{8}' {
            buf.push('\\');
            buf.push('b');
        } else if c == '\t' {
            buf.push('\\');
            buf.push('t');
        } else if c == '\n' {
            buf.push('\\');
            buf.push('n');
        } else if c == '\u{c}' {
            buf.push('\\');
            buf.push('f');
        } else if c == '\r' {
            buf.push('\\');
            buf.push('r');
        } else if (c as u32) < 0x20 {
            let code = c as u32;
            buf.push('\\');
            buf.push('u');
            buf.push('0');
            buf.push('0');
            buf.push(hex_to_char((code / 16) as u64));
            buf.push(hex_to_char((code % 16) as u64));
        } else {
            buf.push(c);
        }
        proof {
            reveal(esc_char);
            lemma_esc_snoc(s@.take(i as int), s@[i as int]);
            assert(s@.take(i + 1) =~= s@.take(i as int).push(s@[i as int]));
            assert(buf@ =~= old(buf)@ + seq!['"'] + esc(s@.take(i + 1)));
        }
        i = i + 1;
    }
    buf.push('"');
    proof {
        reveal(enc_str);
        assert(s@.take(n as int) =~= s@);
        assert(buf@ =~= old(buf)@ + enc_str(s@));
    }
}

/// The lowercase hexadecimal digit character of a value below sixteen, as
/// executable code.
fn hex_to_char(d: u64) -> (c: char)
    requires
        d < 16,
    ensures
        c == hex_digit_char(d as nat),
{
    if d < 10 {
        crate::text::digit_to_char(d)
    } else if d == 10 {
        'a'
    } else if d == 11 {
        'b'
    } else if d == 12 {
        'c'
    } else if d == 13 {
        'd'
    } else if d == 14 {
        'e'
    } else {
        'f'
    }
}

/// Escaping one more character appends its escape sequence.
proof fn lemma_esc_snoc(s: Seq<char>, c: char)
    ensures
        esc(s.push(c)) == esc(s) + esc_char(c),
    decreases s.len(),
{
    reveal_with_fuel(esc, 2);
    if s.len() == 0 {
        assert(s.push(c)[0] == c);
        assert(s.push(c).skip(1) =~= Seq::<char>::empty());
        assert(esc(s.push(c)) =~= esc(s) + esc_char(c));
    } else {
        lemma_esc_snoc(s.skip(1), c);
        assert(s.push(c)[0] == s[0]);
        assert(s.push(c).skip(1) =~= s.skip(1).push(c));
        assert(esc(s.push(c)) == esc_char(s[0]) + esc(s.skip(1).push(c)));
        assert(esc_char(s[0]) + (esc(s.skip(1)) + esc_char(c)) =~= (esc_char(s[0]) + esc(
            s.skip(1),
        )) + esc_char(c));
        assert(esc(s.push(c)) =~= esc(s) + esc_char(c));
    }
}

/// Appends an optional score.
pub fn write_opt_i64(buf: &mut Vec<char>, v: Option<i64>)
    ensures
        final(buf)@ == old(buf)@ + enc_opt_i64(v),
{
    match v {
        None => {
            crate::text::write_str(buf, "null");
        },
        Some(x) => {
            crate::text::write_i64(buf, x);
        },
    }
}

/// Appends a boolean literal.
pub fn write_bool(buf: &mut Vec<char>, b: bool)
    ensures
        final(buf)@ == old(buf)@ + enc_bool(b),
{
    if b {
        crate::text::write_str(buf, "true");
    } else {
        crate::text::write_str(buf, "false");
    }
}

// ---------------------------------------------------------------------------
// Executable readers, primitive values
// ---------------------------------------------------------------------------
/// The digit value of `c`, when `c` is a digit.
fn char_digit(c: char) -> (r: Option<u64>)
    ensures
        match r {
            Some(d) => is_digit_char(c) && d == digit_val(c) && d < 10,
            None => !is_digit_char(c),
        },
{
    if c == '0' {
        Some(0)
    } else if c == '1' {
        Some(1)
    } else if c == '2' {
        Some(2)
    } else if c == '3' {
        Some(3)
    } else if c == '4' {
        Some(4)
    } else if c == '5' {
        Some(5)
    } else if c == '6' {
        Some(6)
    } else if c == '7' {
        Some(7)
    } else if c == '8' {
        Some(8)
    } else if c == '9' {
        Some(9)
    } else {
        None
    }
}

/// The hexadecimal digit value of `c`, when `c` is one.
fn char_hex(c: char) -> (r: Option<u64>)
    ensures
        match r {
            Some(d) => is_hex_digit(c) && d == hex_val(c) && d < 16,
            None => !is_hex_digit(c),
        },
{
    match char_digit(c) {
        Some(d) => Some(d),
        None => {
            if c == 'a' || c == 'A' {
                Some(10)
            } else if c == 'b' || c == 'B' {
                Some(11)
            } else if c == 'c' || c == 'C' {
                Some(12)
            } else if c == 'd' || c == 'D' {
                Some(13)
            } else if c == 'e' || c == 'E' {
                Some(14)
            } else if c == 'f' || c == 'F' {
                Some(15)
            } else {
                None
            }
        },
    }
}

/// Consumes the literal `lit` at position `i`.
pub fn parse_lit(buf: &Vec<char>, i: usize, lit: &str) -> (r: Option<usize>)
    requires
        i <= buf@.len(),
    ensures
        match r {
            Some(j) => i <= j <= buf@.len() && j - i == lit@.len() && p_lit(
                buf@.skip(i as int),
                lit@,
            ) == Some(buf@.skip(j as int)),
            None => p_lit(buf@.skip(i as int), lit@) is None,
        },
{
    let m = lit.unicode_len();
    let n = buf.len();
    if m > n - i {
        proof {
            assert(!starts_with(buf@.skip(i as int), lit@));
        }
        return None;
    }
    let mut k: usize = 0;
    while k < m
        invariant
            m == lit@.len(),
            n == buf@.len(),
            i + m <= n,
            k <= m,
            forall|t: int| 0 <= t < k ==> buf@[i + t] == lit@[t],
        decreases m - k,
    {
        if buf[i + k] != lit.get_char(k) {
            proof {
                if starts_with(buf@.skip(i as int), lit@) {
                    assert(buf@.skip(i as int).take(m as int)[k as int] == buf@[i + k]);
                }
            }
            return None;
        }
        k = k + 1;
    }
    proof {
        assert(buf@.skip(i as int).take(m as int) =~= lit@);
        assert(buf@.skip(i as int).skip(m as int) =~= buf@.skip(i + m));
    }
    Some(i + m)
}

/// Consumes a quoted string at position `i`, undoing escapes.
pub fn parse_string(buf: &Vec<char>, i: usize) -> (r: Option<(String, usize)>)
    requires
        i <= buf@.len(),
    ensures
        match r {
            Some((v, j)) => i < j <= buf@.len() && p_string(buf@.skip(i as int)) == Some(
                (v@, buf@.skip(j as int)),
            ),
            None => p_string(buf@.skip(i as int)) is None,
        },
{
    let n = buf.len();
    if i >= n || buf[i] != '"' {
        proof {
            if i < n {
                assert(buf@.skip(i as int)[0] == buf@[i as int]);
            }
        }
        return None;
    }
    let ghost s0 = buf@.skip(i + 1);
    proof {
        assert(buf@.skip(i as int)[0] == buf@[i as int]);
        assert(buf@.skip(i as int).skip(1) =~= s0);
    }
    let mut acc: Vec<char> = Vec::new();
    let mut j: usize = i + 1;
    proof {
        match p_str_body(s0) {
            Some((t, r)) => {
                assert(Seq::<char>::empty() + t =~= t);
            },
            None => {},
        }
    }
    while j < n
        invariant
            n == buf@.len(),
            i + 1 <= j <= n,
            s0 == buf@.skip(i + 1),
            p_string(buf@.skip(i as int)) == p_str_body(s0),
            ({
                let cur = buf@.skip(j as int);
                p_str_body(s0) == match p_str_body(cur) {
                    None => None::<(Seq<char>, Seq<char>)>,
                    Some((t, r)) => Some((acc@ + t, r)),
                }
            }),
        decreases n - j,
    {
        let ghost cur = buf@.skip(j as int);
        let ghost prev = acc@;
        let c = buf[j];
        proof {
            assert(cur[0] == c);
        }
        if c == '"' {
            proof {
                assert(cur.skip(1) =~= buf@.skip(j + 1));
                assert(acc@ + Seq::<char>::empty() =~= acc@);
            }
            return Some((crate::text::chars_to_string(&acc), j + 1));
        } else if c == '\\' {
            if j + 1 >= n {
                proof {
                    assert(cur.len() < 2);
                }
                return None;
            }
            let e = buf[j + 1];
            proof {
                assert(cur[1] == e);
            }
            if e == '"' || e == '\\' || e == '/' || e == 'b' || e == 'f' || e == 'n' || e == 'r'
                || e == 't' {
                let u = if e == 'b' {
                    '\u{8}'
                } else if e == 'f' {
                    '\u{c}'
                } else if e == 'n' {
                    '\n'
                } else if e == 'r' {
                    '\r'
                } else if e == 't' {
                    '\t'
                } else {
                    e
                };
                proof {
                    assert(u == unesc_code(cur[1]));
                }
                acc.push(u);
                proof {
                    assert(cur.skip(2) =~= buf@.skip(j + 2));
                    match p_str_body(buf@.skip(j + 2)) {
                        Some((t, r)) => {
                            assert(prev + (seq![u] + t) =~= acc@ + t);
                        },
                        None => {},
                    }
                }
                j = j + 2;
            } else if e == 'u' {
                if n - j < 6 {
                    proof {
                        assert(cur.len() < 6);
                    }
                    return None;
                }
                let h2 = char_hex(buf[j + 2]);
                let h3 = char_hex(buf[j + 3]);
                let h4 = char_hex(buf[j + 4]);
                let h5 = char_hex(buf[j + 5]);
                proof {
                    assert(cur[2] == buf@[j + 2]);
                    assert(cur[3] == buf@[j + 3]);
                    assert(cur[4] == buf@[j + 4]);
                    assert(cur[5] == buf@[j + 5]);
                }
                match (h2, h3, h4, h5) {
                    (Some(d2), Some(d3), Some(d4), Some(d5)) => {
                        let code = ((d2 * 16 + d3) * 16 + d4) * 16 + d5;
                        if code >= 256 {
                            return None;
                        }
                        let u = (code as u8) as char;
                        proof {
                            assert(u == code_char(
                                ((hex_val(cur[2]) * 16 + hex_val(cur[3])) * 16 + hex_val(cur[4]))
                                    * 16 + hex_val(cur[5]),
                            ));
                        }
                        acc.push(u);
                        proof {
                            assert(cur.skip(6) =~= buf@.skip(j + 6));
                            match p_str_body(buf@.skip(j + 6)) {
                                Some((t, r)) => {
                                    assert(prev + (seq![u] + t) =~= acc@ + t);
                                },
                                None => {},
                            }
                        }
                        j = j + 6;
                    },
                    _ => {
                        return None;
                    },
                }
            } else {
                return None;
            }
        } else {
            acc.push(c);
            proof {
                assert(cur.skip(1) =~= buf@.skip(j + 1));
                match p_str_body(buf@.skip(j + 1)) {
                    Some((t, r)) => {
                        assert(prev + (seq![c] + t) =~= acc@ + t);
                    },
                    None => {},
                }
            }
            j = j + 1;
        }
    }
    proof {
        assert(buf@.skip(n as int).len() == 0);
    }
    None
}

/// Consumes an unsigned number at position `i`.
pub fn parse_u64(buf: &Vec<char>, i: usize) -> (r: Option<(u64, usize)>)
    requires
        i <= buf@.len(),
    ensures
        match r {
            Some((v, j)) => i < j <= buf@.len() && p_u64(buf@.skip(i as int)) == Some(
                (v, buf@.skip(j as int)),
            ),
            None => p_u64(buf@.skip(i as int)) is None,
        },
{
    let ghost s0 = buf@.skip(i as int);
    let n = buf.len();
    let mut j: usize = i;
    let mut acc: u64 = 0;
    let mut overflowed = false;
    let mut stopped = false;
    while j < n && !overflowed && !stopped
        invariant
            n == buf@.len(),
            i <= j <= n,
            s0 == buf@.skip(i as int),
            forall|k: int| 0 <= k < j - i ==> is_digit_char(s0[k]),
            !overflowed ==> acc == digits_val(s0.take(j - i)),
            overflowed ==> j > i && digits_val(s0.take(j - i)) > u64::MAX,
            stopped ==> !overflowed && digit_run(s0) == j - i,
        decreases n - j + (if stopped {
            0int
        } else {
            1int
        }),
    {
        let d_opt = char_digit(buf[j]);
        match d_opt {
            None => {
                proof {
                    assert(s0[j - i] == buf@[j as int]);
                    lemma_digit_run_boundary(s0, j - i);
                }
                stopped = true;
            },
            Some(d) => {
                proof {
                    assert(s0[j - i] == buf@[j as int]);
                }
                if acc > u64::MAX / 10 || (acc == u64::MAX / 10 && d > u64::MAX % 10) {
                    proof {
                        assert(s0.take(j - i + 1).drop_last() =~= s0.take(j - i));
                        assert(s0.take(j - i + 1).last() == s0[j - i]);
                        assert(digits_val(s0.take(j - i + 1)) > u64::MAX);
                    }
                    overflowed = true;
                } else {
                    proof {
                        assert(s0.take(j - i + 1).drop_last() =~= s0.take(j - i));
                        assert(s0.take(j - i + 1).last() == s0[j - i]);
                    }
                    acc = acc * 10 + d;
                }
                j = j + 1;
            },
        }
    }
    if overflowed {
        // The number is too large for a u64; the whole run is rejected,
        // mirroring the mathematical parser's failure on oversized values.
        proof {
            lemma_digit_run_boundary_ge(s0, j - i);
            lemma_digit_run_le(s0);
            let k = digit_run(s0);
            assert(s0.take(j - i) =~= s0.take(k).take(j - i));
            lemma_digits_val_take_le(s0.take(k), j - i);
        }
        return None;
    }
    proof {
        if !stopped {
            lemma_digit_run_boundary(s0, j - i);
        }
    }
    if j == i {
        return None;
    }
    proof {
        assert(s0.skip(j - i) =~= buf@.skip(j as int));
    }
    Some((acc, j))
}

/// The digit run never leaves the sequence.
proof fn lemma_digit_run_le(s: Seq<char>)
    ensures
        0 <= digit_run(s) <= s.len(),
    decreases s.len(),
{
    if s.len() > 0 && is_digit_char(s[0]) {
        lemma_digit_run_le(s.skip(1));
    }
}

/// A sequence whose first `m` characters are digits has a digit run of at
/// least `m`.
proof fn lemma_digit_run_boundary_ge(s: Seq<char>, m: int)
    requires
        0 <= m <= s.len(),
        forall|k: int| 0 <= k < m ==> is_digit_char(s[k]),
    ensures
        digit_run(s) >= m,
    decreases m, s.len(),
{
    if m == 0 {
        if s.len() > 0 && is_digit_char(s[0]) {
            lemma_digit_run_boundary_ge(s.skip(1), 0);
        }
    } else {
        assert(is_digit_char(s[0]));
        assert forall|k: int| 0 <= k < m - 1 implies is_digit_char(#[trigger] s.skip(1)[k]) by {
            assert(s.skip(1)[k] == s[k + 1]);
            assert(is_digit_char(s[k + 1]));
        }
        lemma_digit_run_boundary_ge(s.skip(1), m - 1);
        assert(digit_run(s) == 1 + digit_run(s.skip(1)));
    }
}

/// Consumes a signed number at position `i`.
pub fn parse_i64(buf: &Vec<char>, i: usize) -> (r: Option<(i64, usize)>)
    requires
        i <= buf@.len(),
    ensures
        match r {
            Some((v, j)) => i < j <= buf@.len() && p_i64(buf@.skip(i as int)) == Some(
                (v, buf@.skip(j as int)),
            ),
            None => p_i64(buf@.skip(i as int)) is None,
        },
{
    let n = buf.len();
    if i < n && buf[i] == '-' {
        proof {
            assert(buf@.skip(i as int)[0] == '-');
            assert(buf@.skip(i as int).skip(1) =~= buf@.skip(i + 1));
        }
        match parse_u64(buf, i + 1) {
            None => None,
            Some((m, j)) => {
                if m <= 9223372036854775807u64 {
                    Some((-(m as i64), j))
                } else if m == 9223372036854775808u64 {
                    Some((i64::MIN, j))
                } else {
                    None
                }
            },
        }
    } else {
        proof {
            if i < n {
                assert(buf@.skip(i as int)[0] == buf@[i as int]);
            }
        }
        match parse_u64(buf, i) {
            None => None,
            Some((m, j)) => {
                if m <= 9223372036854775807u64 {
                    Some((m as i64, j))
                } else {
                    None
                }
            },
        }
    }
}

/// Consumes `null` or a signed number at position `i`.
pub fn parse_opt_i64(buf: &Vec<char>, i: usize) -> (r: Option<(Option<i64>, usize)>)
    requires
        i <= buf@.len(),
    ensures
        match r {
            Some((v, j)) => i < j <= buf@.len() && p_opt_i64(buf@.skip(i as int)) == Some(
                (v, buf@.skip(j as int)),
            ),
            None => p_opt_i64(buf@.skip(i as int)) is None,
        },
{
    match parse_lit(buf, i, "null") {
        Some(j) => {
            proof {
                reveal_strlit("null");
                assert(starts_with(buf@.skip(i as int), "null"@));
            }
            Some((None, j))
        },
        None => {
            proof {
                assert(!starts_with(buf@.skip(i as int), "null"@));
            }
            match parse_i64(buf, i) {
                None => None,
                Some((v, j)) => Some((Some(v), j)),
            }
        },
    }
}

/// Consumes a boolean literal at position `i`.
pub fn parse_bool(buf: &Vec<char>, i: usize) -> (r: Option<(bool, usize)>)
    requires
        i <= buf@.len(),
    ensures
        match r {
            Some((v, j)) => i < j <= buf@.len() && p_bool(buf@.skip(i as int)) == Some(
                (v, buf@.skip(j as int)),
            ),
            None => p_bool(buf@.skip(i as int)) is None,
        },
{
    match parse_lit(buf, i, "true") {
        Some(j) => {
            proof {
                reveal_strlit("true");
            }
            Some((true, j))
        },
        None => {
            match parse_lit(buf, i, "false") {
                Some(j) => {
                    proof {
                        reveal_strlit("false");
                    }
                    Some((false, j))
                },
                None => None,
            }
        },
    }
}

// ---------------------------------------------------------------------------
// Jobs
// ---------------------------------------------------------------------------
/// One job as a JSON object.
pub open spec fn enc_job(j: JobView) -> Seq<char> {
    "{\"oid\":"@ + enc_str(j.oid) + ",\"url\":"@ + enc_str(j.url) + ",\"started_at\":"@
        + int_digits(j.started_at) + seq!['}']
}

/// A job list's elements and its closing bracket.
pub open spec fn enc_jobs_items(js: Seq<JobView>) -> Seq<char>
    decreases js.len(),
{
    if js.len() == 0 {
        seq![']']
    } else if js.len() == 1 {
        enc_job(js[0]) + seq![']']
    } else {
        enc_job(js[0]) + seq![','] + enc_jobs_items(js.skip(1))
    }
}

/// A whole job list.
pub open spec fn enc_jobs(js: Seq<JobView>) -> Seq<char> {
    seq!['['] + enc_jobs_items(js)
}

/// Consumes one job object.  Opaque: its callers work with the inversion
/// lemma, not the definition.
#[verifier::opaque]
pub open spec fn p_job(s: Seq<char>) -> Option<(JobView, Seq<char>)> {
    match p_lit(s, "{\"oid\":"@) {
        None => None,
        Some(s1) => match p_string(s1) {
            None => None,
            Some((oid, s2)) => match p_lit(s2, ",\"url\":"@) {
                None => None,
                Some(s3) => match p_string(s3) {
                    None => None,
                    Some((url, s4)) => match p_lit(s4, ",\"started_at\":"@) {
                        None => None,
                        Some(s5) => match p_i64(s5) {
                            None => None,
                            Some((sa, s6)) => match p_lit(s6, seq!['}']) {
                                None => None,
                                Some(s7) => Some(
                                    (JobView { oid: oid, url: url, started_at: sa }, s7),
                                ),
                            },
                        },
                    },
                },
            },
        },
    }
}

/// Consumes a job list's elements up to the closing bracket.
pub open spec fn p_jobs_items(s: Seq<char>) -> Option<(Seq<JobView>, Seq<char>)>
    decreases s.len(),
{
    if s.len() == 0 {
        None
    } else if s[0] == ']' {
        Some((seq![], s.skip(1)))
    } else {
        match p_job(s) {
            None => None,
            Some((j, r)) => if r.len() < s.len() {
                if r.len() > 0 && r[0] == ',' {
                    match p_jobs_items(r.skip(1)) {
                        None => None,
                        Some((js, r2)) => Some((seq![j] + js, r2)),
                    }
                } else if r.len() > 0 && r[0] == ']' {
                    Some((seq![j], r.skip(1)))
                } else {
                    None
                }
            } else {
                None
            },
        }
    }
}

/// Consumes a whole job list.
pub open spec fn p_jobs(s: Seq<char>) -> Option<(Seq<JobView>, Seq<char>)> {
    if s.len() > 0 && s[0] == '[' {
        p_jobs_items(s.skip(1))
    } else {
        None
    }
}

/// An encoded job followed by anything parses back to the job.
pub proof fn lemma_p_job(j: JobView, rest: Seq<char>)
    ensures
        p_job(enc_job(j) + rest) == Some((j, rest)),
{
    reveal(p_job);
    let whole = enc_job(j) + rest;
    let t6 = seq!['}'] + rest;
    let t5 = int_digits(j.started_at) + t6;
    let t4 = ",\"started_at\":"@ + t5;
    let t3 = enc_str(j.url) + t4;
    let t2 = ",\"url\":"@ + t3;
    let t1 = enc_str(j.oid) + t2;
    assert(whole =~= "{\"oid\":"@ + t1);
    lemma_p_lit("{\"oid\":"@, t1);
    lemma_p_string(j.oid, t2);
    lemma_p_lit(",\"url\":"@, t3);
    lemma_p_string(j.url, t4);
    lemma_p_lit(",\"started_at\":"@, t5);
    assert(t6[0] == '}');
    lemma_p_i64(j.started_at, t6);
    lemma_p_lit(seq!['}'], rest);
}

/// An encoded job is never empty and never starts with a bracket.
proof fn lemma_enc_job_shape(j: JobView)
    ensures
        enc_job(j).len() > 0,
        enc_job(j)[0] == '{',
{
    reveal_strlit("{\"oid\":");
    assert(enc_job(j)[0] == "{\"oid\":"@[0]);
}

/// An encoded job list followed by anything parses back to the list.
pub proof fn lemma_p_jobs_items(js: Seq<JobView>, rest: Seq<char>)
    ensures
        p_jobs_items(enc_jobs_items(js) + rest) == Some((js, rest)),
    decreases js.len(),
{
    let whole = enc_jobs_items(js) + rest;
    if js.len() == 0 {
        assert(whole[0] == ']');
        assert(whole.skip(1) =~= rest);
        assert(js =~= Seq::<JobView>::empty());
    } else {
        lemma_enc_job_shape(js[0]);
        assert(whole[0] == enc_job(js[0])[0]);
        if js.len() == 1 {
            let t = seq![']'] + rest;
            assert(whole =~= enc_job(js[0]) + t);
            lemma_p_job(js[0], t);
            assert(t[0] == ']');
            assert(t.skip(1) =~= rest);
            assert(seq![js[0]] =~= js);
        } else {
            let t2 = enc_jobs_items(js.skip(1)) + rest;
            let t = seq![','] + t2;
            assert(whole =~= enc_job(js[0]) + t);
            lemma_p_job(js[0], t);
            assert(t[0] == ',');
            assert(t.skip(1) =~= t2);
            lemma_p_jobs_items(js.skip(1), rest);
            assert(seq![js[0]] + js.skip(1) =~= js);
            assert(t.len() < whole.len());
        }
    }
}

/// A whole encoded job list followed by anything parses back to the list.
pub proof fn lemma_p_jobs(js: Seq<JobView>, rest: Seq<char>)
    ensures
        p_jobs(enc_jobs(js) + rest) == Some((js, rest)),
{
    let whole = enc_jobs(js) + rest;
    assert(whole[0] == '[');
    assert(whole.skip(1) =~= enc_jobs_items(js) + rest);
    lemma_p_jobs_items(js, rest);
}

/// Appends one job.
fn write_job(buf: &mut Vec<char>, job: &ThalamusNodeJob)
    ensures
        final(buf)@ == old(buf)@ + enc_job(job@),
{
    crate::text::write_str(buf, "{\"oid\":");
    write_quoted(buf, job.oid.as_str());
    crate::text::write_str(buf, ",\"url\":");
    write_quoted(buf, job.url.as_str());
    crate::text::write_str(buf, ",\"started_at\":");
    crate::text::write_i64(buf, job.started_at);
    buf.push('}');
    proof {
        assert(buf@ =~= old(buf)@ + enc_job(job@));
    }
}

/// Appends a whole job list, walking it from position `idx` on.
fn write_jobs_items(buf: &mut Vec<char>, jobs: &Vec<ThalamusNodeJob>, idx: usize)
    requires
        idx <= jobs@.len(),
    ensures
        final(buf)@ == old(buf)@ + enc_jobs_items(
            jobs@.map_values(|j: ThalamusNodeJob| j@).skip(idx as int),
        ),
    decreases jobs@.len() - idx,
{
    let ghost views = jobs@.map_values(|j: ThalamusNodeJob| j@);
    let n = jobs.len();
    if idx == n {
        buf.push(']');
        proof {
            assert(views.skip(idx as int).len() == 0);
            assert(buf@ =~= old(buf)@ + enc_jobs_items(views.skip(idx as int)));
        }
    } else if idx == n - 1 {
        write_job(buf, &jobs[idx]);
        buf.push(']');
        proof {
            assert(views.skip(idx as int).len() == 1);
            assert(views.skip(idx as int)[0] == jobs@[idx as int]@);
            assert(buf@ =~= old(buf)@ + enc_jobs_items(views.skip(idx as int)));
        }
    } else {
        write_job(buf, &jobs[idx]);
        buf.push(',');
        let ghost mid = buf@;
        write_jobs_items(buf, jobs, idx + 1);
        proof {
            assert(views.skip(idx as int).len() >= 2);
            assert(views.skip(idx as int)[0] == jobs@[idx as int]@);
            assert(views.skip(idx as int).skip(1) =~= views.skip(idx + 1));
            assert(buf@ =~= old(buf)@ + enc_jobs_items(views.skip(idx as int)));
        }
    }
}

/// Appends a whole job list.
fn write_jobs(buf: &mut Vec<char>, jobs: &Vec<ThalamusNodeJob>)
    ensures
        final(buf)@ == old(buf)@ + enc_jobs(jobs@.map_values(|j: ThalamusNodeJob| j@)),
{
    buf.push('[');
    write_jobs_items(buf, jobs, 0);
    proof {
        let views = jobs@.map_values(|j: ThalamusNodeJob| j@);
        assert(views.skip(0) =~= views);
        assert(buf@ =~= old(buf)@ + enc_jobs(views));
    }
}

/// Consumes one job object at position `i`.
fn parse_job(buf: &Vec<char>, i: usize) -> (r: Option<(ThalamusNodeJob, usize)>)
    requires
        i <= buf@.len(),
    ensures
        match r {
            Some((v, j)) => i < j <= buf@.len() && p_job(buf@.skip(i as int)) == Some(
                (v@, buf@.skip(j as int)),
            ),
            None => p_job(buf@.skip(i as int)) is None,
        },
{
    proof {
        reveal(p_job);
    }
    let i1 = match parse_lit(buf, i, "{\"oid\":") {
        None => {
            return None;
        },
        Some(x) => x,
    };
    let (oid, i2) = match parse_string(buf, i1) {
        None => {
            return None;
        },
        Some(x) => x,
    };
    let i3 = match parse_lit(buf, i2, ",\"url\":") {
        None => {
            return None;
        },
        Some(x) => x,
    };
    let (url, i4) = match parse_string(buf, i3) {
        None => {
            return None;
        },
        Some(x) => x,
    };
    let i5 = match parse_lit(buf, i4, ",\"started_at\":") {
        None => {
            return None;
        },
        Some(x) => x,
    };
    let (sa, i6) = match parse_i64(buf, i5) {
        None => {
            return None;
        },
        Some(x) => x,
    };
    proof {
        reveal_strlit("}");
        assert("}"@ =~= seq!['}']);
    }
    let i7 = match parse_lit(buf, i6, "}") {
        None => {
            return None;
        },
        Some(x) => x,
    };
    Some((ThalamusNodeJob { oid, url, started_at: sa }, i7))
}

/// Consumes a job list's elements at position `i`.
fn parse_jobs_items(buf: &Vec<char>, i: usize) -> (r: Option<(Vec<ThalamusNodeJob>, usize)>)
    requires
        i <= buf@.len(),
    ensures
        match r {
            Some((v, j)) => i < j <= buf@.len() && p_jobs_items(buf@.skip(i as int)) == Some(
                (v@.map_values(|jb: ThalamusNodeJob| jb@), buf@.skip(j as int)),
            ),
            None => p_jobs_items(buf@.skip(i as int)) is None,
        },
    decreases buf@.len() - i,
{
    let ghost s = buf@.skip(i as int);
    let n = buf.len();
    if i >= n {
        return None;
    }
    if buf[i] == ']' {
        let out: Vec<ThalamusNodeJob> = Vec::new();
        proof {
            assert(s[0] == ']');
            assert(s.skip(1) =~= buf@.skip(i + 1));
            assert(out@.map_values(|jb: ThalamusNodeJob| jb@) =~= Seq::<JobView>::empty());
        }
        return Some((out, i + 1));
    }
    proof {
        assert(s[0] == buf@[i as int]);
    }
    let (job, j1) = match parse_job(buf, i) {
        None => {
            return None;
        },
        Some(x) => x,
    };
    let ghost r0 = buf@.skip(j1 as int);
    proof {
        assert(r0.len() < s.len());
    }
    if j1 < n && buf[j1] == ',' {
        proof {
            assert(r0[0] == ',');
            assert(r0.skip(1) =~= buf@.skip(j1 + 1));
        }
        let (mut tail, j2) = match parse_jobs_items(buf, j1 + 1) {
            None => {
                return None;
            },
            Some(x) => x,
        };
        let ghost prev = tail@;
        tail.insert(0, job);
        proof {
            assert(tail@ =~= seq![job] + prev);
            assert(tail@.map_values(|jb: ThalamusNodeJob| jb@) =~= seq![job@] + prev.map_values(
                |jb: ThalamusNodeJob| jb@,
            ));
        }
        Some((tail, j2))
    } else if j1 < n && buf[j1] == ']' {
        proof {
            assert(r0[0] == ']');
            assert(r0.skip(1) =~= buf@.skip(j1 + 1));
        }
        let mut out: Vec<ThalamusNodeJob> = Vec::new();
        out.push(job);
        proof {
            assert(out@.map_values(|jb: ThalamusNodeJob| jb@) =~= seq![job@]);
        }
        Some((out, j1 + 1))
    } else {
        proof {
            if r0.len() > 0 {
                assert(r0[0] == buf@[j1 as int]);
            }
        }
        None
    }
}

/// Consumes a whole job list at position `i`.
fn parse_jobs(buf: &Vec<char>, i: usize) -> (r: Option<(Vec<ThalamusNodeJob>, usize)>)
    requires
        i <= buf@.len(),
    ensures
        match r {
            Some((v, j)) => i < j <= buf@.len() && p_jobs(buf@.skip(i as int)) == Some(
                (v@.map_values(|jb: ThalamusNodeJob| jb@), buf@.skip(j as int)),
            ),
            None => p_jobs(buf@.skip(i as int)) is None,
        },
{
    let n = buf.len();
    if i >= n || buf[i] != '[' {
        proof {
            if i < n {
                assert(buf@.skip(i as int)[0] == buf@[i as int]);
            }
        }
        return None;
    }
    proof {
        assert(buf@.skip(i as int)[0] == buf@[i as int]);
        assert(buf@.skip(i as int).skip(1) =~= buf@.skip(i + 1));
    }
    parse_jobs_items(buf, i + 1)
}

// ---------------------------------------------------------------------------
// Benchmark scores as one JSON object, field by field
// ---------------------------------------------------------------------------
/// The value of score field number `k`, in declaration order.
pub open spec fn stats_field(st: ThalamusNodeStats, k: int) -> Option<i64> {
    if k == 0 {
        st.apple_tts
    } else if k == 1 {
        st.bark_tts
    } else if k == 2 {
        st.deepspeech_tts
    } else if k == 3 {
        st.espeak_tts
    } else if k == 4 {
        st.watson_tts
    } else if k == 5 {
        st.tts_score
    } else if k == 6 {
        st.llama_7b
    } else if k == 7 {
        st.llama_13b
    } else if k == 8 {
        st.llama_30b
    } else if k == 9 {
        st.llama_65b
    } else if k == 10 {
        st.llama_score
    } else if k == 11 {
        st.nst_score
    } else if k == 12 {
        st.srgan_score
    } else if k == 13 {
        st.whisper_stt_tiny
    } else if k == 14 {
        st.whisper_stt_base
    } else if k == 15 {
        st.whisper_stt_medium
    } else if k == 16 {
        st.whisper_stt_large
    } else if k == 17 {
        st.whisper_stt_score
    } else if k == 18 {
        st.whisper_vwav_tiny
    } else if k == 19 {
        st.whisper_vwav_base
    } else if k == 20 {
        st.whisper_vwav_medium
    } else if k == 21 {
        st.whisper_vwav_large
    } else {
        st.whisper_vwav_score
    }
}

/// The object text introducing score field number `k`: the opening brace
/// or separating comma, the quoted field name, and the colon.
pub open spec fn stats_key(k: int) -> Seq<char> {
    if k == 0 {
        "{\"apple_tts\":"@
    } else if k == 1 {
        ",\"bark_tts\":"@
    } else if k == 2 {
        ",\"deepspeech_tts\":"@
    } else if k == 3 {
        ",\"espeak_tts\":"@
    } else if k == 4 {
        ",\"watson_tts\":"@
    } else if k == 5 {
        ",\"tts_score\":"@
    } else if k == 6 {
        ",\"llama_7b\":"@
    } else if k == 7 {
        ",\"llama_13b\":"@
    } else if k == 8 {
        ",\"llama_30b\":"@
    } else if k == 9 {
        ",\"llama_65b\":"@
    } else if k == 10 {
        ",\"llama_score\":"@
    } else if k == 11 {
        ",\"nst_score\":"@
    } else if k == 12 {
        ",\"srgan_score\":"@
    } else if k == 13 {
        ",\"whisper_stt_tiny\":"@
    } else if k == 14 {
        ",\"whisper_stt_base\":"@
    } else if k == 15 {
        ",\"whisper_stt_medium\":"@
    } else if k == 16 {
        ",\"whisper_stt_large\":"@
    } else if k == 17 {
        ",\"whisper_stt_score\":"@
    } else if k == 18 {
        ",\"whisper_vwav_tiny\":"@
    } else if k == 19 {
        ",\"whisper_vwav_base\":"@
    } else if k == 20 {
        ",\"whisper_vwav_medium\":"@
    } else if k == 21 {
        ",\"whisper_vwav_large\":"@
    } else {
        ",\"whisper_vwav_score\":"@
    }
}

/// Every key text is nonempty and starts with the brace or a comma.
proof fn lemma_stats_key_shape(k: int)
    requires
        0 <= k < 23,
    ensures
        stats_key(k).len() > 0,
        k == 0 ==> stats_key(k)[0] == '{',
        k > 0 ==> stats_key(k)[0] == ',',
{
    reveal_strlit("{\"apple_tts\":");
    reveal_strlit(",\"bark_tts\":");
    reveal_strlit(",\"deepspeech_tts\":");
    reveal_strlit(",\"espeak_tts\":");
    reveal_strlit(",\"watson_tts\":");
    reveal_strlit(",\"tts_score\":");
    reveal_strlit(",\"llama_7b\":");
    reveal_strlit(",\"llama_13b\":");
    reveal_strlit(",\"llama_30b\":");
    reveal_strlit(",\"llama_65b\":");
    reveal_strlit(",\"llama_score\":");
    reveal_strlit(",\"nst_score\":");
    reveal_strlit(",\"srgan_score\":");
    reveal_strlit(",\"whisper_stt_tiny\":");
    reveal_strlit(",\"whisper_stt_base\":");
    reveal_strlit(",\"whisper_stt_medium\":");
    reveal_strlit(",\"whisper_stt_large\":");
    reveal_strlit(",\"whisper_stt_score\":");
    reveal_strlit(",\"whisper_vwav_tiny\":");
    reveal_strlit(",\"whisper_vwav_base\":");
    reveal_strlit(",\"whisper_vwav_medium\":");
    reveal_strlit(",\"whisper_vwav_large\":");
    reveal_strlit(",\"whisper_vwav_score\":");
}

/// The executable key text for score field number `k`.
fn stats_key_str(k: usize) -> (r: &'static str)
    requires
        k < 23,
    ensures
        r@ == stats_key(k as int),
{
    if k == 0 {
        "{\"apple_tts\":"
    } else if k == 1 {
        ",\"bark_tts\":"
    } else if k == 2 {
        ",\"deepspeech_tts\":"
    } else if k == 3 {
        ",\"espeak_tts\":"
    } else if k == 4 {
        ",\"watson_tts\":"
    } else if k == 5 {
        ",\"tts_score\":"
    } else if k == 6 {
        ",\"llama_7b\":"
    } else if k == 7 {
        ",\"llama_13b\":"
    } else if k == 8 {
        ",\"llama_30b\":"
    } else if k == 9 {
        ",\"llama_65b\":"
    } else if k == 10 {
        ",\"llama_score\":"
    } else if k == 11 {
        ",\"nst_score\":"
    } else if k == 12 {
        ",\"srgan_score\":"
    } else if k == 13 {
        ",\"whisper_stt_tiny\":"
    } else if k == 14 {
        ",\"whisper_stt_base\":"
    } else if k == 15 {
        ",\"whisper_stt_medium\":"
    } else if k == 16 {
        ",\"whisper_stt_large\":"
    } else if k == 17 {
        ",\"whisper_stt_score\":"
    } else if k == 18 {
        ",\"whisper_vwav_tiny\":"
    } else if k == 19 {
        ",\"whisper_vwav_base\":"
    } else if k == 20 {
        ",\"whisper_vwav_medium\":"
    } else if k == 21 {
        ",\"whisper_vwav_large\":"
    } else {
        ",\"whisper_vwav_score\":"
    }
}

/// The executable value of score field number `k`.
fn stats_field_get(st: &ThalamusNodeStats, k: usize) -> (r: Option<i64>)
    requires
        k < 23,
    ensures
        r == stats_field(*st, k as int),
{
    if k == 0 {
        st.apple_tts
    } else if k == 1 {
        st.bark_tts
    } else if k == 2 {
        st.deepspeech_tts
    } else if k == 3 {
        st.espeak_tts
    } else if k == 4 {
        st.watson_tts
    } else if k == 5 {
        st.tts_score
    } else if k == 6 {
        st.llama_7b
    } else if k == 7 {
        st.llama_13b
    } else if k == 8 {
        st.llama_30b
    } else if k == 9 {
        st.llama_65b
    } else if k == 10 {
        st.llama_score
    } else if k == 11 {
        st.nst_score
    } else if k == 12 {
        st.srgan_score
    } else if k == 13 {
        st.whisper_stt_tiny
    } else if k == 14 {
        st.whisper_stt_base
    } else if k == 15 {
        st.whisper_stt_medium
    } else if k == 16 {
        st.whisper_stt_large
    } else if k == 17 {
        st.whisper_stt_score
    } else if k == 18 {
        st.whisper_vwav_tiny
    } else if k == 19 {
        st.whisper_vwav_base
    } else if k == 20 {
        st.whisper_vwav_medium
    } else if k == 21 {
        st.whisper_vwav_large
    } else {
        st.whisper_vwav_score
    }
}

/// The score record carrying the 23 parsed values, in declaration order.
pub open spec fn stats_from_vals(vs: Seq<Option<i64>>) -> ThalamusNodeStats {
    if vs.len() == 23 {
        ThalamusNodeStats {
            apple_tts: vs[0],
            bark_tts: vs[1],
            deepspeech_tts: vs[2],
            espeak_tts: vs[3],
            watson_tts: vs[4],
            tts_score: vs[5],
            llama_7b: vs[6],
            llama_13b: vs[7],
            llama_30b: vs[8],
            llama_65b: vs[9],
            llama_score: vs[10],
            nst_score: vs[11],
            srgan_score: vs[12],
            whisper_stt_tiny: vs[13],
            whisper_stt_base: vs[14],
            whisper_stt_medium: vs[15],
            whisper_stt_large: vs[16],
            whisper_stt_score: vs[17],
            whisper_vwav_tiny: vs[18],
            whisper_vwav_base: vs[19],
            whisper_vwav_medium: vs[20],
            whisper_vwav_large: vs[21],
            whisper_vwav_score: vs[22],
        }
    } else {
        ThalamusNodeStats::empty()
    }
}

/// The executable score record from the 23 parsed values.
fn stats_from_vec(vs: &Vec<Option<i64>>) -> (r: ThalamusNodeStats)
    requires
        vs@.len() == 23,
    ensures
        r == stats_from_vals(vs@),
{
    ThalamusNodeStats {
        apple_tts: vs[0],
        bark_tts: vs[1],
        deepspeech_tts: vs[2],
        espeak_tts: vs[3],
        watson_tts: vs[4],
        tts_score: vs[5],
        llama_7b: vs[6],
        llama_13b: vs[7],
        llama_30b: vs[8],
        llama_65b: vs[9],
        llama_score: vs[10],
        nst_score: vs[11],
        srgan_score: vs[12],
        whisper_stt_tiny: vs[13],
        whisper_stt_base: vs[14],
        whisper_stt_medium: vs[15],
        whisper_stt_large: vs[16],
        whisper_stt_score: vs[17],
        whisper_vwav_tiny: vs[18],
        whisper_vwav_base: vs[19],
        whisper_vwav_medium: vs[20],
        whisper_vwav_large: vs[21],
        whisper_vwav_score: vs[22],
    }
}

/// The score object from field `k` on, through the closing brace.
pub open spec fn enc_stats_fields(st: ThalamusNodeStats, k: int) -> Seq<char>
    decreases 23 - k,
{
    if k < 0 || k >= 23 {
        seq!['}']
    } else {
        stats_key(k) + enc_opt_i64(stats_field(st, k)) + enc_stats_fields(st, k + 1)
    }
}

/// A whole score object.
pub open spec fn enc_stats(st: ThalamusNodeStats) -> Seq<char> {
    enc_stats_fields(st, 0)
}

/// Consumes the score object from field `k` on, yielding the values read.
pub open spec fn p_stats_fields(s: Seq<char>, k: int) -> Option<(Seq<Option<i64>>, Seq<char>)>
    decreases 23 - k,
{
    if k < 0 || k >= 23 {
        match p_lit(s, seq!['}']) {
            None => None,
            Some(r) => Some((seq![], r)),
        }
    } else {
        match p_lit(s, stats_key(k)) {
            None => None,
            Some(s1) => match p_opt_i64(s1) {
                None => None,
                Some((v, s2)) => match p_stats_fields(s2, k + 1) {
                    None => None,
                    Some((vs, r)) => Some((seq![v] + vs, r)),
                },
            },
        }
    }
}

/// Consumes a whole score object.
pub open spec fn p_stats(s: Seq<char>) -> Option<(ThalamusNodeStats, Seq<char>)> {
    match p_stats_fields(s, 0) {
        None => None,
        Some((vs, r)) => Some((stats_from_vals(vs), r)),
    }
}

/// The encoded score fields from `k` on, followed by anything, parse back
/// to exactly the encoded field values.
pub proof fn lemma_p_stats_fields(st: ThalamusNodeStats, k: int, rest: Seq<char>)
    requires
        0 <= k <= 23,
    ensures
        ({
            let pr = p_stats_fields(enc_stats_fields(st, k) + rest, k);
            &&& pr is Some
            &&& pr->Some_0.1 == rest
            &&& pr->Some_0.0.len() == 23 - k
            &&& forall|m: int|
                0 <= m < 23 - k ==> pr->Some_0.0[m] == stats_field(st, k + m)
        }),
    decreases 23 - k,
{
    let whole = enc_stats_fields(st, k) + rest;
    if k == 23 {
        assert(whole =~= seq!['}'] + rest);
        lemma_p_lit(seq!['}'], rest);
    } else {
        let t2 = enc_stats_fields(st, k + 1) + rest;
        let t1 = enc_opt_i64(stats_field(st, k)) + t2;
        assert(whole =~= stats_key(k) + t1);
        lemma_p_lit(stats_key(k), t1);
        if k + 1 == 23 {
            assert(t2[0] == '}');
        } else {
            lemma_stats_key_shape(k + 1);
            assert(enc_stats_fields(st, k + 1)[0] == stats_key(k + 1)[0]);
            assert(t2[0] == ',');
        }
        lemma_p_opt_i64(stats_field(st, k), t2);
        lemma_p_stats_fields(st, k + 1, rest);
        let tail = p_stats_fields(t2, k + 1)->Some_0.0;
        assert forall|m: int| 0 <= m < 23 - k implies (seq![stats_field(st, k)] + tail)[m]
            == stats_field(st, k + m) by {
            if m > 0 {
                assert((seq![stats_field(st, k)] + tail)[m] == tail[m - 1]);
            }
        }
    }
}

/// A whole encoded score object followed by anything parses back to the
/// same scores.
pub proof fn lemma_p_stats(st: ThalamusNodeStats, rest: Seq<char>)
    ensures
        p_stats(enc_stats(st) + rest) == Some((st, rest)),
{
    lemma_p_stats_fields(st, 0, rest);
    let vs = p_stats_fields(enc_stats(st) + rest, 0)->Some_0.0;
    assert(stats_from_vals(vs) == st);
}

/// Appends the score object from field `k` on.
fn write_stats_fields(buf: &mut Vec<char>, st: &ThalamusNodeStats, k: usize)
    requires
        k <= 23,
    ensures
        final(buf)@ == old(buf)@ + enc_stats_fields(*st, k as int),
    decreases 23 - k,
{
    if k == 23 {
        buf.push('}');
        proof {
            assert(buf@ =~= old(buf)@ + enc_stats_fields(*st, k as int));
        }
    } else {
        crate::text::write_str(buf, stats_key_str(k));
        write_opt_i64(buf, stats_field_get(st, k));
        write_stats_fields(buf, st, k + 1);
        proof {
            assert(buf@ =~= old(buf)@ + enc_stats_fields(*st, k as int));
        }
    }
}

/// Appends a whole score object.
fn write_stats(buf: &mut Vec<char>, st: &ThalamusNodeStats)
    ensures
        final(buf)@ == old(buf)@ + enc_stats(*st),
{
    write_stats_fields(buf, st, 0);
}

/// Consumes the score object from field `k` on at position `i`.
fn parse_stats_fields(buf: &Vec<char>, i: usize, k: usize) -> (r: Option<(
    Vec<Option<i64>>,
    usize,
)>)
    requires
        i <= buf@.len(),
        k <= 23,
    ensures
        match r {
            Some((v, j)) => i < j <= buf@.len() && p_stats_fields(buf@.skip(i as int), k as int)
                == Some((v@, buf@.skip(j as int))),
            None => p_stats_fields(buf@.skip(i as int), k as int) is None,
        },
    decreases 23 - k,
{
    if k == 23 {
        let j = match parse_lit(buf, i, "}") {
            None => {
                proof {
                    reveal_strlit("}");
                    assert("}"@ =~= seq!['}']);
                }
                return None;
            },
            Some(x) => x,
        };
        proof {
            reveal_strlit("}");
            assert("}"@ =~= seq!['}']);
        }
        let out: Vec<Option<i64>> = Vec::new();
        proof {
            assert(out@ =~= Seq::<Option<i64>>::empty());
        }
        Some((out, j))
    } else {
        let i1 = match parse_lit(buf, i, stats_key_str(k)) {
            None => {
                return None;
            },
            Some(x) => x,
        };
        let (v, i2) = match parse_opt_i64(buf, i1) {
            None => {
                return None;
            },
            Some(x) => x,
        };
        let (mut tail, j) = match parse_stats_fields(buf, i2, k + 1) {
            None => {
                return None;
            },
            Some(x) => x,
        };
        let ghost prev = tail@;
        tail.insert(0, v);
        proof {
            assert(tail@ =~= seq![v] + prev);
        }
        Some((tail, j))
    }
}

/// Consumes a whole score object at position `i`.
fn parse_stats(buf: &Vec<char>, i: usize) -> (r: Option<(ThalamusNodeStats, usize)>)
    requires
        i <= buf@.len(),
    ensures
        match r {
            Some((v, j)) => i < j <= buf@.len() && p_stats(buf@.skip(i as int)) == Some(
                (v, buf@.skip(j as int)),
            ),
            None => p_stats(buf@.skip(i as int)) is None,
        },
{
    match parse_stats_fields(buf, i, 0) {
        None => None,
        Some((vs, j)) => {
            proof {
                lemma_p_stats_fields_len(buf@.skip(i as int), 0);
            }
            Some((stats_from_vec(&vs), j))
        },
    }
}

/// Whatever the score-field parser accepts has one value per remaining
/// field.
proof fn lemma_p_stats_fields_len(s: Seq<char>, k: int)
    requires
        0 <= k <= 23,
    ensures
        p_stats_fields(s, k) is Some ==> p_stats_fields(s, k)->Some_0.0.len() == 23 - k,
    decreases 23 - k,
{
    if k < 23 {
        match p_lit(s, stats_key(k)) {
            None => {},
            Some(s1) => {
                match p_opt_i64(s1) {
                    None => {},
                    Some((v, s2)) => {
                        lemma_p_stats_fields_len(s2, k + 1);
                    },
                }
            },
        }
    }
}

// ---------------------------------------------------------------------------
// Nodes and the whole registry
// ---------------------------------------------------------------------------
/// One node as a JSON object.
pub open spec fn enc_node(n: NodeView) -> Seq<char> {
    "{\"pid\":"@ + enc_str(n.pid) + ",\"ip_address\":"@ + enc_str(n.ip_address) + ",\"version\":"@
        + enc_str(n.version) + ",\"port\":"@ + dec_digits(n.port as nat) + ",\"jobs\":"@
        + enc_jobs(n.jobs) + ",\"last_ping\":"@ + int_digits(n.last_ping) + ",\"stats\":"@
        + enc_stats(n.stats) + ",\"is_online\":"@ + enc_bool(n.is_online) + seq!['}']
}

/// A node list's elements and its closing bracket.
pub open spec fn enc_nodes_items(ns: Seq<NodeView>) -> Seq<char>
    decreases ns.len(),
{
    if ns.len() == 0 {
        seq![']']
    } else if ns.len() == 1 {
        enc_node(ns[0]) + seq![']']
    } else {
        enc_node(ns[0]) + seq![','] + enc_nodes_items(ns.skip(1))
    }
}

/// A whole node list.
pub open spec fn enc_nodes(ns: Seq<NodeView>) -> Seq<char> {
    seq!['['] + enc_nodes_items(ns)
}

/// The whole registry as a JSON object.
pub open spec fn enc_client(c: ClientView) -> Seq<char> {
    "{\"nodes\":"@ + enc_nodes(c.nodes) + seq!['}']
}

/// Consumes one node object.  Opaque: its callers work with the inversion
/// lemma, not the definition.
#[verifier::opaque]
pub open spec fn p_node(s: Seq<char>) -> Option<(NodeView, Seq<char>)> {
    match p_lit(s, "{\"pid\":"@) {
        None => None,
        Some(s1) => match p_string(s1) {
            None => None,
            Some((pid, s2)) => match p_lit(s2, ",\"ip_address\":"@) {
                None => None,
                Some(s3) => match p_string(s3) {
                    None => None,
                    Some((ip, s4)) => match p_lit(s4, ",\"version\":"@) {
                        None => None,
                        Some(s5) => match p_string(s5) {
                            None => None,
                            Some((ver, s6)) => match p_lit(s6, ",\"port\":"@) {
                                None => None,
                                Some(s7) => match p_u64(s7) {
                                    None => None,
                                    Some((port, s8)) => if port > u16::MAX as u64 {
                                        None
                                    } else {
                                        match p_lit(s8, ",\"jobs\":"@) {
                                            None => None,
                                            Some(s9) => match p_jobs(s9) {
                                                None => None,
                                                Some((jobs, s10)) => match p_lit(
                                                    s10,
                                                    ",\"last_ping\":"@,
                                                ) {
                                                    None => None,
                                                    Some(s11) => match p_i64(s11) {
                                                        None => None,
                                                        Some((lp, s12)) => match p_lit(
                                                            s12,
                                                            ",\"stats\":"@,
                                                        ) {
                                                            None => None,
                                                            Some(s13) => match p_stats(s13) {
                                                                None => None,
                                                                Some((st, s14)) => match p_lit(
                                                                    s14,
                                                                    ",\"is_online\":"@,
                                                                ) {
                                                                    None => None,
                                                                    Some(s15) => match p_bool(
                                                                        s15,
                                                                    ) {
                                                                        None => None,
                                                                        Some((online, s16)) => match p_lit(
                                                                            s16,
                                                                            seq!['}'],
                                                                        ) {
                                                                            None => None,
                                                                            Some(s17) => Some(
                                                                                (
                                                                                    NodeView {
                                                                                        pid: pid,
                                                                                        ip_address: ip,
                                                                                        version: ver,
                                                                                        port: port as u16,
                                                                                        jobs: jobs,
                                                                                        last_ping: lp,
                                                                                        stats: st,
                                                                                        is_online: online,
                                                                                    },
                                                                                    s17,
                                                                                ),
                                                                            ),
                                                                        },
                                                                    },
                                                                },
                                                            },
                                                        },
                                                    },
                                                },
                                            },
                                        }
                                    },
                                },
                            },
                        },
                    },
                },
            },
        },
    }
}

/// Consumes a node list's elements up to the closing bracket.
pub open spec fn p_nodes_items(s: Seq<char>) -> Option<(Seq<NodeView>, Seq<char>)>
    decreases s.len(),
{
    if s.len() == 0 {
        None
    } else if s[0] == ']' {
        Some((seq![], s.skip(1)))
    } else {
        match p_node(s) {
            None => None,
            Some((nv, r)) => if r.len() < s.len() {
                if r.len() > 0 && r[0] == ',' {
                    match p_nodes_items(r.skip(1)) {
                        None => None,
                        Some((ns, r2)) => Some((seq![nv] + ns, r2)),
                    }
                } else if r.len() > 0 && r[0] == ']' {
                    Some((seq![nv], r.skip(1)))
                } else {
                    None
                }
            } else {
                None
            },
        }
    }
}

/// Consumes a whole node list.
pub open spec fn p_nodes(s: Seq<char>) -> Option<(Seq<NodeView>, Seq<char>)> {
    if s.len() > 0 && s[0] == '[' {
        p_nodes_items(s.skip(1))
    } else {
        None
    }
}

/// Consumes a whole registry object.
pub open spec fn p_client(s: Seq<char>) -> Option<(ClientView, Seq<char>)> {
    match p_lit(s, "{\"nodes\":"@) {
        None => None,
        Some(s1) => match p_nodes(s1) {
            None => None,
            Some((ns, s2)) => match p_lit(s2, seq!['}']) {
                None => None,
                Some(s3) => Some((ClientView { nodes: ns }, s3)),
            },
        },
    }
}

/// A snapshot text that decodes completely, or nothing.
pub open spec fn parsed_snapshot(s: Seq<char>) -> Option<ClientView> {
    match p_client(s) {
        None => None,
        Some((c, r)) => if r.len() == 0 {
            Some(c)
        } else {
            None
        },
    }
}

/// An encoded node followed by anything parses back to the node.
#[verifier::rlimit(100)]
pub proof fn lemma_p_node(n: NodeView, rest: Seq<char>)
    ensures
        p_node(enc_node(n) + rest) == Some((n, rest)),
{
    reveal(p_node);
    let whole = enc_node(n) + rest;
    let t16 = seq!['}'] + rest;
    let t15 = enc_bool(n.is_online) + t16;
    let t14 = ",\"is_online\":"@ + t15;
    let t13 = enc_stats(n.stats) + t14;
    let t12 = ",\"stats\":"@ + t13;
    let t11 = int_digits(n.last_ping) + t12;
    let t10 = ",\"last_ping\":"@ + t11;
    let t9 = enc_jobs(n.jobs) + t10;
    let t8 = ",\"jobs\":"@ + t9;
    let t7 = dec_digits(n.port as nat) + t8;
    let t6 = ",\"port\":"@ + t7;
    let t5 = enc_str(n.version) + t6;
    let t4 = ",\"version\":"@ + t5;
    let t3 = enc_str(n.ip_address) + t4;
    let t2 = ",\"ip_address\":"@ + t3;
    let t1 = enc_str(n.pid) + t2;
    assert(whole =~= "{\"pid\":"@ + t1);
    lemma_p_lit("{\"pid\":"@, t1);
    lemma_p_string(n.pid, t2);
    lemma_p_lit(",\"ip_address\":"@, t3);
    lemma_p_string(n.ip_address, t4);
    lemma_p_lit(",\"version\":"@, t5);
    lemma_p_string(n.version, t6);
    lemma_p_lit(",\"port\":"@, t7);
    reveal_strlit(",\"jobs\":");
    assert(t8[0] == ',');
    lemma_p_u64(n.port as u64, t8);
    lemma_p_lit(",\"jobs\":"@, t9);
    lemma_p_jobs(n.jobs, t10);
    lemma_p_lit(",\"last_ping\":"@, t11);
    reveal_strlit(",\"stats\":");
    assert(t12[0] == ',');
    lemma_p_i64(n.last_ping, t12);
    lemma_p_lit(",\"stats\":"@, t13);
    lemma_p_stats(n.stats, t14);
    lemma_p_lit(",\"is_online\":"@, t15);
    lemma_p_bool(n.is_online, t16);
    lemma_p_lit(seq!['}'], rest);
}

/// An encoded node is never empty and starts with its opening brace.
proof fn lemma_enc_node_shape(n: NodeView)
    ensures
        enc_node(n).len() > 0,
        enc_node(n)[0] == '{',
{
    reveal_strlit("{\"pid\":");
    assert(enc_node(n)[0] == "{\"pid\":"@[0]);
}

/// An encoded node list followed by anything parses back to the list.
pub proof fn lemma_p_nodes_items(ns: Seq<NodeView>, rest: Seq<char>)
    ensures
        p_nodes_items(enc_nodes_items(ns) + rest) == Some((ns, rest)),
    decreases ns.len(),
{
    let whole = enc_nodes_items(ns) + rest;
    if ns.len() == 0 {
        assert(whole[0] == ']');
        assert(whole.skip(1) =~= rest);
        assert(ns =~= Seq::<NodeView>::empty());
    } else {
        lemma_enc_node_shape(ns[0]);
        assert(whole[0] == enc_node(ns[0])[0]);
        if ns.len() == 1 {
            let t = seq![']'] + rest;
            assert(whole =~= enc_node(ns[0]) + t);
            lemma_p_node(ns[0], t);
            assert(t[0] == ']');
            assert(t.skip(1) =~= rest);
            assert(seq![ns[0]] =~= ns);
        } else {
            let t2 = enc_nodes_items(ns.skip(1)) + rest;
            let t = seq![','] + t2;
            assert(whole =~= enc_node(ns[0]) + t);
            lemma_p_node(ns[0], t);
            assert(t[0] == ',');
            assert(t.skip(1) =~= t2);
            lemma_p_nodes_items(ns.skip(1), rest);
            assert(seq![ns[0]] + ns.skip(1) =~= ns);
            assert(t.len() < whole.len());
        }
    }
}

/// A whole encoded node list followed by anything parses back to the list.
pub proof fn lemma_p_nodes(ns: Seq<NodeView>, rest: Seq<char>)
    ensures
        p_nodes(enc_nodes(ns) + rest) == Some((ns, rest)),
{
    let whole = enc_nodes(ns) + rest;
    assert(whole[0] == '[');
    assert(whole.skip(1) =~= enc_nodes_items(ns) + rest);
    lemma_p_nodes_items(ns, rest);
}

/// An encoded registry followed by anything parses back to the registry.
pub proof fn lemma_p_client(c: ClientView, rest: Seq<char>)
    ensures
        p_client(enc_client(c) + rest) == Some((c, rest)),
{
    let whole = enc_client(c) + rest;
    let t2 = seq!['}'] + rest;
    let t1 = enc_nodes(c.nodes) + t2;
    assert(whole =~= "{\"nodes\":"@ + t1);
    lemma_p_lit("{\"nodes\":"@, t1);
    lemma_p_nodes(c.nodes, t2);
    lemma_p_lit(seq!['}'], rest);
    assert(ClientView { nodes: c.nodes } =~= c);
}

/// Law (round trip): decoding an encoded snapshot yields exactly the
/// registry that was encoded — same identities, same field values, absent
/// scores staying absent.
pub proof fn lemma_snapshot_round_trip(c: ClientView)
    ensures
        parsed_snapshot(enc_client(c)) == Some(c),
{
    lemma_p_client(c, Seq::<char>::empty());
    assert(enc_client(c) + Seq::<char>::empty() =~= enc_client(c));
}

/// Law (self-healing closes): the snapshot a healed registry writes out
/// decodes to that same empty registry, so a second restore stays empty.
pub proof fn lemma_self_heal_round_trip()
    ensures
        parsed_snapshot(enc_client(ClientView::empty())) == Some(ClientView::empty()),
{
    lemma_snapshot_round_trip(ClientView::empty());
}

/// Appends one node.
fn write_node(buf: &mut Vec<char>, node: &ThalamusNode)
    ensures
        final(buf)@ == old(buf)@ + enc_node(node@),
{
    crate::text::write_str(buf, "{\"pid\":");
    write_quoted(buf, node.pid.as_str());
    crate::text::write_str(buf, ",\"ip_address\":");
    write_quoted(buf, node.ip_address.as_str());
    crate::text::write_str(buf, ",\"version\":");
    write_quoted(buf, node.version.as_str());
    crate::text::write_str(buf, ",\"port\":");
    crate::text::write_u64(buf, node.port as u64);
    crate::text::write_str(buf, ",\"jobs\":");
    write_jobs(buf, &node.jobs);
    crate::text::write_str(buf, ",\"last_ping\":");
    crate::text::write_i64(buf, node.last_ping);
    crate::text::write_str(buf, ",\"stats\":");
    write_stats(buf, &node.stats);
    crate::text::write_str(buf, ",\"is_online\":");
    write_bool(buf, node.is_online);
    buf.push('}');
    proof {
        assert(buf@ =~= old(buf)@ + enc_node(node@));
    }
}

/// Appends a whole node list, walking it from position `idx` on.
#[verifier::rlimit(50)]
fn write_nodes_items(buf: &mut Vec<char>, nodes: &Vec<ThalamusNode>, idx: usize)
    requires
        idx <= nodes@.len(),
    ensures
        final(buf)@ == old(buf)@ + enc_nodes_items(
            nodes@.map_values(|n: ThalamusNode| n@).skip(idx as int),
        ),
    decreases nodes@.len() - idx,
{
    let ghost views = nodes@.map_values(|n: ThalamusNode| n@);
    let n = nodes.len();
    if idx == n {
        buf.push(']');
        proof {
            assert(views.skip(idx as int).len() == 0);
            assert(buf@ =~= old(buf)@ + enc_nodes_items(views.skip(idx as int)));
        }
    } else if idx == n - 1 {
        write_node(buf, &nodes[idx]);
        buf.push(']');
        proof {
            assert(views.skip(idx as int).len() == 1);
            assert(views.skip(idx as int)[0] == nodes@[idx as int]@);
            assert(buf@ =~= old(buf)@ + enc_nodes_items(views.skip(idx as int)));
        }
    } else {
        write_node(buf, &nodes[idx]);
        buf.push(',');
        write_nodes_items(buf, nodes, idx + 1);
        proof {
            assert(views.skip(idx as int).len() >= 2);
            assert(views.skip(idx as int)[0] == nodes@[idx as int]@);
            assert(views.skip(idx as int).skip(1) =~= views.skip(idx + 1));
            assert(buf@ =~= old(buf)@ + enc_nodes_items(views.skip(idx as int)));
        }
    }
}

/// Appends the whole registry object.
fn write_client(buf: &mut Vec<char>, client: &ThalamusClient)
    ensures
        final(buf)@ == old(buf)@ + enc_client(client@),
{
    crate::text::write_str(buf, "{\"nodes\":");
    buf.push('[');
    write_nodes_items(buf, &client.nodes, 0);
    buf.push('}');
    proof {
        let views = client.nodes@.map_values(|n: ThalamusNode| n@);
        assert(views.skip(0) =~= views);
        assert(buf@ =~= old(buf)@ + enc_client(client@));
    }
}

/// Consumes one node object at position `i`.
fn parse_node(buf: &Vec<char>, i: usize) -> (r: Option<(ThalamusNode, usize)>)
    requires
        i <= buf@.len(),
    ensures
        match r {
            Some((v, j)) => i < j <= buf@.len() && p_node(buf@.skip(i as int)) == Some(
                (v@, buf@.skip(j as int)),
            ),
            None => p_node(buf@.skip(i as int)) is None,
        },
{
    proof {
        reveal(p_node);
    }
    let i1 = match parse_lit(buf, i, "{\"pid\":") {
        None => {
            return None;
        },
        Some(x) => x,
    };
    let (pid, i2) = match parse_string(buf, i1) {
        None => {
            return None;
        },
        Some(x) => x,
    };
    let i3 = match parse_lit(buf, i2, ",\"ip_address\":") {
        None => {
            return None;
        },
        Some(x) => x,
    };
    let (ip, i4) = match parse_string(buf, i3) {
        None => {
            return None;
        },
        Some(x) => x,
    };
    let i5 = match parse_lit(buf, i4, ",\"version\":") {
        None => {
            return None;
        },
        Some(x) => x,
    };
    let (ver, i6) = match parse_string(buf, i5) {
        None => {
            return None;
        },
        Some(x) => x,
    };
    let i7 = match parse_lit(buf, i6, ",\"port\":") {
        None => {
            return None;
        },
        Some(x) => x,
    };
    let (port, i8) = match parse_u64(buf, i7) {
        None => {
            return None;
        },
        Some(x) => x,
    };
    if port > 65535 {
        return None;
    }
    let i9 = match parse_lit(buf, i8, ",\"jobs\":") {
        None => {
            return None;
        },
        Some(x) => x,
    };
    let (jobs, i10) = match parse_jobs(buf, i9) {
        None => {
            return None;
        },
        Some(x) => x,
    };
    let i11 = match parse_lit(buf, i10, ",\"last_ping\":") {
        None => {
            return None;
        },
        Some(x) => x,
    };
    let (lp, i12) = match parse_i64(buf, i11) {
        None => {
            return None;
        },
        Some(x) => x,
    };
    let i13 = match parse_lit(buf, i12, ",\"stats\":") {
        None => {
            return None;
        },
        Some(x) => x,
    };
    let (st, i14) = match parse_stats(buf, i13) {
        None => {
            return None;
        },
        Some(x) => x,
    };
    let i15 = match parse_lit(buf, i14, ",\"is_online\":") {
        None => {
            return None;
        },
        Some(x) => x,
    };
    let (online, i16) = match parse_bool(buf, i15) {
        None => {
            return None;
        },
        Some(x) => x,
    };
    proof {
        reveal_strlit("}");
        assert("}"@ =~= seq!['}']);
    }
    let i17 = match parse_lit(buf, i16, "}") {
        None => {
            return None;
        },
        Some(x) => x,
    };
    let node = ThalamusNode {
        pid,
        ip_address: ip,
        version: ver,
        port: port as u16,
        jobs,
        last_ping: lp,
        stats: st,
        is_online: online,
    };
    Some((node, i17))
}

/// Consumes a node list's elements at position `i`.
fn parse_nodes_items(buf: &Vec<char>, i: usize) -> (r: Option<(Vec<ThalamusNode>, usize)>)
    requires
        i <= buf@.len(),
    ensures
        match r {
            Some((v, j)) => i < j <= buf@.len() && p_nodes_items(buf@.skip(i as int)) == Some(
                (v@.map_values(|n: ThalamusNode| n@), buf@.skip(j as int)),
            ),
            None => p_nodes_items(buf@.skip(i as int)) is None,
        },
    decreases buf@.len() - i,
{
    let ghost s = buf@.skip(i as int);
    let n = buf.len();
    if i >= n {
        return None;
    }
    if buf[i] == ']' {
        let out: Vec<ThalamusNode> = Vec::new();
        proof {
            assert(s[0] == ']');
            assert(s.skip(1) =~= buf@.skip(i + 1));
            assert(out@.map_values(|nd: ThalamusNode| nd@) =~= Seq::<NodeView>::empty());
        }
        return Some((out, i + 1));
    }
    proof {
        assert(s[0] == buf@[i as int]);
    }
    let (node, j1) = match parse_node(buf, i) {
        None => {
            return None;
        },
        Some(x) => x,
    };
    let ghost r0 = buf@.skip(j1 as int);
    proof {
        assert(r0.len() < s.len());
    }
    if j1 < n && buf[j1] == ',' {
        proof {
            assert(r0[0] == ',');
            assert(r0.skip(1) =~= buf@.skip(j1 + 1));
        }
        let (mut tail, j2) = match parse_nodes_items(buf, j1 + 1) {
            None => {
                return None;
            },
            Some(x) => x,
        };
        let ghost prev = tail@;
        tail.insert(0, node);
        proof {
            assert(tail@ =~= seq![node] + prev);
            assert(tail@.map_values(|nd: ThalamusNode| nd@) =~= seq![node@] + prev.map_values(
                |nd: ThalamusNode| nd@,
            ));
        }
        Some((tail, j2))
    } else if j1 < n && buf[j1] == ']' {
        proof {
            assert(r0[0] == ']');
            assert(r0.skip(1) =~= buf@.skip(j1 + 1));
        }
        let mut out: Vec<ThalamusNode> = Vec::new();
        out.push(node);
        proof {
            assert(out@.map_values(|nd: ThalamusNode| nd@) =~= seq![node@]);
        }
        Some((out, j1 + 1))
    } else {
        proof {
            if r0.len() > 0 {
                assert(r0[0] == buf@[j1 as int]);
            }
        }
        None
    }
}

/// Consumes the whole registry object at position `i`.
fn parse_client(buf: &Vec<char>, i: usize) -> (r: Option<(ThalamusClient, usize)>)
    requires
        i <= buf@.len(),
    ensures
        match r {
            Some((v, j)) => i < j <= buf@.len() && p_client(buf@.skip(i as int)) == Some(
                (v@, buf@.skip(j as int)),
            ),
            None => p_client(buf@.skip(i as int)) is None,
        },
{
    let i1 = match parse_lit(buf, i, "{\"nodes\":") {
        None => {
            return None;
        },
        Some(x) => x,
    };
    let n = buf.len();
    if i1 >= n || buf[i1] != '[' {
        proof {
            if i1 < n {
                assert(buf@.skip(i1 as int)[0] == buf@[i1 as int]);
            }
        }
        return None;
    }
    proof {
        assert(buf@.skip(i1 as int)[0] == buf@[i1 as int]);
        assert(buf@.skip(i1 as int).skip(1) =~= buf@.skip(i1 + 1));
    }
    let (nodes, i2) = match parse_nodes_items(buf, i1 + 1) {
        None => {
            return None;
        },
        Some(x) => x,
    };
    proof {
        reveal_strlit("}");
        assert("}"@ =~= seq!['}']);
    }
    let i3 = match parse_lit(buf, i2, "}") {
        None => {
            return None;
        },
        Some(x) => x,
    };
    Some((ThalamusClient { nodes }, i3))
}

impl ThalamusClient {
    /// The registry serialized as its snapshot text, ready to be written to
    /// durable storage as one full overwrite.
    pub fn save(&self) -> (r: String)
        ensures
            r@ == enc_client(self@),
    {
        let mut buf: Vec<char> = Vec::new();
        write_client(&mut buf, self);
        proof {
            assert(Seq::<char>::empty() + enc_client(self@) =~= enc_client(self@));
        }
        crate::text::chars_to_string(&buf)
    }

    /// Rebuilds a registry from the stored snapshot text, `None` standing
    /// for a missing or unreadable file.
    ///
    /// A snapshot that decodes completely comes back as-is, with nothing to
    /// write.  Anything else self-heals: the result is a fresh empty
    /// registry together with its own snapshot text, which the caller
    /// persists at once so that the next restore finds a well-formed file.
    pub fn load(data: Option<&str>) -> (r: (ThalamusClient, Option<String>))
        ensures
            ({
                let healed = r.0@ == ClientView::empty() && match r.1 {
                    Some(t) => t@ == enc_client(ClientView::empty()),
                    None => false,
                };
                match data {
                    Some(s) => match parsed_snapshot(s@) {
                        Some(cv) => r.0@ == cv && r.1 is None,
                        None => healed,
                    },
                    None => healed,
                }
            }),
    {
        match data {
            Some(s) => {
                let chars = crate::text::str_to_chars(s);
                proof {
                    assert(chars@.skip(0) =~= s@);
                }
                match parse_client(&chars, 0) {
                    Some((c, j)) => {
                        if j == chars.len() {
                            proof {
                                assert(chars@.skip(j as int).len() == 0);
                            }
                            (c, None)
                        } else {
                            Self::fresh_persisted()
                        }
                    },
                    None => Self::fresh_persisted(),
                }
            },
            None => Self::fresh_persisted(),
        }
    }

    /// A fresh empty registry together with its snapshot text.
    fn fresh_persisted() -> (r: (ThalamusClient, Option<String>))
        ensures
            r.0@ == ClientView::empty(),
            match r.1 {
                Some(t) => t@ == enc_client(ClientView::empty()),
                None => false,
            },
    {
        let c = ThalamusClient::new();
        let text = c.save();
        (c, Some(text))
    }
}

} // verus!
