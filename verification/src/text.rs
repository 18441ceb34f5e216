//! Character-level text helpers: decimal digits, substring search, and
//! conversions between `String` and `Vec<char>`.

use vstd::prelude::*;

verus! {

/// An ASCII decimal digit.
pub open spec fn is_digit_char(c: char) -> bool {
    '0' <= c && c <= '9'
}

/// The digit character for a value below ten.
pub open spec fn digit_char(d: nat) -> char {
    if d == 0 {
        '0'
    } else if d == 1 {
        '1'
    } else if d == 2 {
        '2'
    } else if d == 3 {
        '3'
    } else if d == 4 {
        '4'
    } else if d == 5 {
        '5'
    } else if d == 6 {
        '6'
    } else if d == 7 {
        '7'
    } else if d == 8 {
        '8'
    } else {
        '9'
    }
}

/// The value of a digit character.
pub open spec fn digit_val(c: char) -> nat {
    if c == '0' {
        0
    } else if c == '1' {
        1
    } else if c == '2' {
        2
    } else if c == '3' {
        3
    } else if c == '4' {
        4
    } else if c == '5' {
        5
    } else if c == '6' {
        6
    } else if c == '7' {
        7
    } else if c == '8' {
        8
    } else {
        9
    }
}

/// The canonical decimal digit string of `n`, most significant first.
pub open spec fn dec_digits(n: nat) -> Seq<char>
    decreases n,
{
    if n < 10 {
        seq![digit_char(n)]
    } else {
        dec_digits(n / 10).push(digit_char(n % 10))
    }
}

/// The value of a digit string, read most significant first.
pub open spec fn digits_val(s: Seq<char>) -> nat
    decreases s.len(),
{
    if s.len() == 0 {
        0
    } else {
        digits_val(s.drop_last()) * 10 + digit_val(s.last())
    }
}

/// A digit below ten prints as a digit character and reads back as itself.
pub proof fn lemma_digit_char_val(d: nat)
    requires
        d < 10,
    ensures
        is_digit_char(digit_char(d)),
        digit_val(digit_char(d)) == d,
{
}

/// Digit strings hold only digits and are never empty.
pub proof fn lemma_dec_digits_shape(n: nat)
    ensures
        dec_digits(n).len() >= 1,
        forall|i: int| 0 <= i < dec_digits(n).len() ==> is_digit_char(#[trigger] dec_digits(n)[i]),
    decreases n,
{
    if n < 10 {
        lemma_digit_char_val(n);
    } else {
        lemma_dec_digits_shape(n / 10);
        lemma_digit_char_val(n % 10);
        assert forall|i: int| 0 <= i < dec_digits(n).len() implies is_digit_char(
            #[trigger] dec_digits(n)[i],
        ) by {
            if i < dec_digits(n).len() - 1 {
                assert(dec_digits(n)[i] == dec_digits(n / 10)[i]);
            } else {
                assert(dec_digits(n)[i] == digit_char(n % 10));
            }
        }
    }
}

/// Printing and re-reading a value is the identity.
pub proof fn lemma_dec_digits_val(n: nat)
    ensures
        digits_val(dec_digits(n)) == n,
    decreases n,
{
    if n < 10 {
        lemma_digit_char_val(n);
        assert(dec_digits(n).drop_last() =~= Seq::<char>::empty());
        assert(dec_digits(n).last() == digit_char(n));
        assert(digits_val(Seq::<char>::empty()) == 0);
        assert(digits_val(dec_digits(n)) == digits_val(dec_digits(n).drop_last()) * 10 + digit_val(
            dec_digits(n).last(),
        ));
    } else {
        lemma_dec_digits_val(n / 10);
        lemma_digit_char_val(n % 10);
        assert(dec_digits(n).drop_last() =~= dec_digits(n / 10));
        assert(dec_digits(n).last() == digit_char(n % 10));
    }
}

/// The value of a digit string bounds the value of each of its prefixes.
pub proof fn lemma_digits_val_take_le(s: Seq<char>, i: int)
    requires
        0 <= i <= s.len(),
    ensures
        digits_val(s.take(i)) <= digits_val(s),
    decreases s.len() - i,
{
    if i < s.len() {
        lemma_digits_val_take_le(s, i + 1);
        assert(s.take(i + 1).drop_last() =~= s.take(i));
        assert(s.take(i + 1).last() == s[i]);
    } else {
        assert(s.take(i) =~= s);
    }
}

/// The signed decimal digit string of `v`: a minus sign for negative values,
/// then the digits of the magnitude.
pub open spec fn int_digits(v: i64) -> Seq<char> {
    if v < 0 {
        seq!['-'] + dec_digits((-(v as int)) as nat)
    } else {
        seq![] + dec_digits(v as nat)
    }
}

/// The digit character of a value below ten, as executable code.
pub fn digit_to_char(d: u64) -> (c: char)
    requires
        d < 10,
    ensures
        c == digit_char(d as nat),
{
    if d == 0 {
        '0'
    } else if d == 1 {
        '1'
    } else if d == 2 {
        '2'
    } else if d == 3 {
        '3'
    } else if d == 4 {
        '4'
    } else if d == 5 {
        '5'
    } else if d == 6 {
        '6'
    } else if d == 7 {
        '7'
    } else if d == 8 {
        '8'
    } else {
        '9'
    }
}

/// Appends the decimal digits of `n` to `buf`.
pub fn write_u64(buf: &mut Vec<char>, n: u64)
    ensures
        final(buf)@ == old(buf)@ + dec_digits(n as nat),
    decreases n,
{
    if n >= 10 {
        write_u64(buf, n / 10);
    }
    buf.push(digit_to_char(n % 10));
    proof {
        if n < 10 {
            assert(old(buf)@.push(digit_char(n as nat)) =~= old(buf)@ + dec_digits(n as nat));
        } else {
            assert((old(buf)@ + dec_digits(n as nat / 10)).push(digit_char(n as nat % 10)) =~= old(
                buf,
            )@ + dec_digits(n as nat));
        }
    }
}

/// Appends the signed decimal digits of `v` to `buf`.
pub fn write_i64(buf: &mut Vec<char>, v: i64)
    ensures
        final(buf)@ == old(buf)@ + int_digits(v),
{
    if v >= 0 {
        write_u64(buf, v as u64);
        proof {
            assert(old(buf)@ + dec_digits(v as nat) =~= old(buf)@ + int_digits(v));
        }
    } else {
        buf.push('-');
        let mag: u64 = ((-1 - v) as u64) + 1;
        proof {
            assert(mag as int == -(v as int));
        }
        write_u64(buf, mag);
        proof {
            assert(old(buf)@.push('-') + dec_digits(mag as nat) =~= old(buf)@ + int_digits(v));
        }
    }
}

/// Appends every character of `s` to `buf`.
pub fn write_str(buf: &mut Vec<char>, s: &str)
    ensures
        final(buf)@ == old(buf)@ + s@,
{
    let n = s.unicode_len();
    let mut i: usize = 0;
    while i < n
        invariant
            n == s@.len(),
            i <= n,
            buf@ =~= old(buf)@ + s@.take(i as int),
        decreases n - i,
    {
        buf.push(s.get_char(i));
        proof {
            assert(old(buf)@ + s@.take(i as int + 1) =~= (old(buf)@ + s@.take(i as int)).push(
                s@[i as int],
            ));
        }
        i = i + 1;
    }
    proof {
        assert(s@.take(n as int) =~= s@);
    }
}

/// Appends every character of `v` to `buf`.
pub fn write_chars(buf: &mut Vec<char>, v: &Vec<char>)
    ensures
        final(buf)@ == old(buf)@ + v@,
{
    let n = v.len();
    let mut i: usize = 0;
    while i < n
        invariant
            n == v@.len(),
            i <= n,
            buf@ =~= old(buf)@ + v@.take(i as int),
        decreases n - i,
    {
        buf.push(v[i]);
        proof {
            assert(old(buf)@ + v@.take(i as int + 1) =~= (old(buf)@ + v@.take(i as int)).push(
                v@[i as int],
            ));
        }
        i = i + 1;
    }
    proof {
        assert(v@.take(n as int) =~= v@);
    }
}

/// The characters of `s`, in order.
pub fn str_to_chars(s: &str) -> (r: Vec<char>)
    ensures
        r@ == s@,
{
    let mut buf: Vec<char> = Vec::new();
    write_str(&mut buf, s);
    proof {
        assert(Seq::<char>::empty() + s@ =~= s@);
    }
    buf
}

/// Relies on `String`'s `FromIterator<char>` implementation: collecting an
/// iterator of characters yields the string of exactly those characters in
/// order.
#[verifier::external_body]
pub fn chars_to_string(v: &Vec<char>) -> (r: String)
    ensures
        r@ == v@,
{
    v.iter().collect()
}

/// `p` occurs in `s` starting at position 0.
pub open spec fn starts_with(s: Seq<char>, p: Seq<char>) -> bool {
    p.len() <= s.len() && s.take(p.len() as int) == p
}

/// `sub` occurs somewhere in `s`.
pub open spec fn contains_sub(s: Seq<char>, sub: Seq<char>) -> bool
    decreases s.len(),
{
    starts_with(s, sub) || (s.len() > 0 && contains_sub(s.skip(1), sub))
}

/// `c` occurs in `s`.
pub open spec fn contains_char(s: Seq<char>, c: char) -> bool {
    exists|i: int| 0 <= i < s.len() && s[i] == c
}

/// Whether `s`, from position `i` on, starts with `p`.
fn starts_with_at(s: &str, p: &str, i: usize) -> (r: bool)
    requires
        i <= s@.len(),
    ensures
        r == starts_with(s@.skip(i as int), p@),
{
    let n = s.unicode_len();
    let m = p.unicode_len();
    if m > n - i {
        return false;
    }
    let mut j: usize = 0;
    while j < m
        invariant
            n == s@.len(),
            m == p@.len(),
            i + m <= n,
            j <= m,
            forall|k: int| 0 <= k < j ==> s@[i + k] == p@[k],
        decreases m - j,
    {
        if s.get_char(i + j) != p.get_char(j) {
            proof {
                assert(s@.skip(i as int).take(m as int)[j as int] == s@[i + j]);
            }
            return false;
        }
        j = j + 1;
    }
    proof {
        assert(s@.skip(i as int).take(m as int) =~= p@);
    }
    true
}

/// Whether `s` starts with `p`.
pub fn str_starts_with(s: &str, p: &str) -> (r: bool)
    ensures
        r == starts_with(s@, p@),
{
    proof {
        assert(s@.skip(0) =~= s@);
    }
    starts_with_at(s, p, 0)
}

/// Whether `sub` occurs in `s`, by scanning every start position.
pub fn str_contains(s: &str, sub: &str) -> (r: bool)
    ensures
        r == contains_sub(s@, sub@),
{
    let n = s.unicode_len();
    let mut i: usize = 0;
    proof {
        assert(s@.skip(0) =~= s@);
    }
    while i < n
        invariant
            n == s@.len(),
            i <= n,
            contains_sub(s@, sub@) == contains_sub(s@.skip(i as int), sub@),
        decreases n - i,
    {
        if starts_with_at(s, sub, i) {
            return true;
        }
        proof {
            assert(s@.skip(i as int).skip(1) =~= s@.skip(i as int + 1));
        }
        i = i + 1;
    }
    proof {
        assert(s@.skip(n as int) =~= Seq::<char>::empty());
    }
    starts_with_at(s, sub, n)
}

/// Position of the last `.` in `s`, or -1 when there is none.
pub open spec fn last_dot(s: Seq<char>) -> int
    decreases s.len(),
{
    if s.len() == 0 {
        -1
    } else if s[s.len() - 1] == '.' {
        s.len() - 1
    } else {
        last_dot(s.drop_last())
    }
}

/// `last_dot` stays in bounds and finds a dot whenever one exists.
pub proof fn lemma_last_dot_bounds(s: Seq<char>)
    ensures
        -1 <= last_dot(s) < s.len(),
        contains_char(s, '.') ==> last_dot(s) >= 0,
    decreases s.len(),
{
    if s.len() > 0 && s[s.len() - 1] != '.' {
        lemma_last_dot_bounds(s.drop_last());
        if contains_char(s, '.') {
            let w = choose|i: int| 0 <= i < s.len() && s[i] == '.';
            assert(w < s.len() - 1);
            assert(s.drop_last()[w] == '.');
            assert(contains_char(s.drop_last(), '.'));
        }
    }
}

/// The index just past the last `.` of `s`, or 0 when `s` has none.
pub fn dot_boundary(s: &str) -> (r: usize)
    ensures
        r as int == last_dot(s@) + 1,
{
    let n = s.unicode_len();
    let mut j: usize = n;
    let mut found = false;
    proof {
        assert(s@.take(n as int) =~= s@);
    }
    while !found && j > 0
        invariant
            n == s@.len(),
            j <= n,
            found ==> j >= 1 && s@[j - 1] == '.' && last_dot(s@) == j - 1,
            !found ==> last_dot(s@) == last_dot(s@.take(j as int)),
        decreases j + (if found {
            0int
        } else {
            1int
        }),
    {
        if s.get_char(j - 1) == '.' {
            proof {
                assert(s@.take(j as int)[j - 1] == s@[j - 1]);
            }
            found = true;
        } else {
            proof {
                assert(s@.take(j as int).drop_last() =~= s@.take(j - 1));
                assert(s@.take(j as int)[j - 1] == s@[j - 1]);
            }
            j = j - 1;
        }
    }
    proof {
        if !found {
            assert(s@.take(0) =~= Seq::<char>::empty());
            assert(j == 0);
        }
    }
    j
}

/// Appends the characters of `s` from position `from` on to `buf`.
pub fn write_str_skip(buf: &mut Vec<char>, s: &str, from: usize)
    requires
        from <= s@.len(),
    ensures
        final(buf)@ == old(buf)@ + s@.skip(from as int),
{
    let n = s.unicode_len();
    let mut i: usize = from;
    proof {
        assert(buf@ =~= old(buf)@ + s@.subrange(from as int, from as int));
    }
    while i < n
        invariant
            n == s@.len(),
            from <= i <= n,
            buf@ =~= old(buf)@ + s@.subrange(from as int, i as int),
        decreases n - i,
    {
        buf.push(s.get_char(i));
        proof {
            assert(old(buf)@ + s@.subrange(from as int, i + 1) =~= (old(buf)@ + s@.subrange(
                from as int,
                i as int,
            )).push(s@[i as int]));
        }
        i = i + 1;
    }
    proof {
        assert(s@.subrange(from as int, n as int) =~= s@.skip(from as int));
    }
}

/// Whether `c` occurs in `s`.
pub fn str_contains_char(s: &str, c: char) -> (r: bool)
    ensures
        r == contains_char(s@, c),
{
    let n = s.unicode_len();
    let mut i: usize = 0;
    while i < n
        invariant
            n == s@.len(),
            i <= n,
            forall|k: int| 0 <= k < i ==> s@[k] != c,
        decreases n - i,
    {
        if s.get_char(i) == c {
            return true;
        }
        i = i + 1;
    }
    false
}

} // verus!
