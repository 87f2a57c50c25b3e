//! Character-level helpers shared by the escaper, the segment codec and
//! the tokenizer: classification of the characters that may appear in
//! segment tags and field names, ASCII lower-casing, decimal rendering
//! and parsing of integers, and conversions between `String` and
//! `Vec<char>`.

use vstd::prelude::*;
use vstd::string::StrSliceExecFns;

verus! {

/// Characters accepted in a segment tag or field name: ASCII letters,
/// digits and the underscore.
pub open spec fn is_word_char(c: char) -> bool {
    ('a' as u32) <= (c as u32) <= ('z' as u32)
    || ('A' as u32) <= (c as u32) <= ('Z' as u32)
    || ('0' as u32) <= (c as u32) <= ('9' as u32)
    || c == '_'
}

pub fn word_char(c: char) -> (b: bool)
    ensures
        b == is_word_char(c),
{
    let u = c as u32;
    (97 <= u && u <= 122) || (65 <= u && u <= 90) || (48 <= u && u <= 57) || c == '_'
}

/// ASCII lower-casing of a single character; all other characters are
/// left unchanged.
pub open spec fn lower_char(c: char) -> char {
    if ('A' as u32) <= (c as u32) <= ('Z' as u32) {
        ((c as u32) + 32) as char
    } else {
        c
    }
}

pub open spec fn lower_chars(s: Seq<char>) -> Seq<char> {
    s.map_values(|c: char| lower_char(c))
}

pub fn to_lower_char(c: char) -> (r: char)
    ensures
        r == lower_char(c),
{
    let u = c as u32;
    if 65 <= u && u <= 90 {
        ((u + 32) as u8) as char
    } else {
        c
    }
}

pub fn to_lower_chars(s: &Vec<char>) -> (r: Vec<char>)
    ensures
        r@ == lower_chars(s@),
{
    let mut out: Vec<char> = Vec::new();
    let mut i: usize = 0;
    while i < s.len()
        invariant
            i <= s.len(),
            out@ == lower_chars(s@.take(i as int)),
        decreases s.len() - i,
    {
        out.push(to_lower_char(s[i]));
        i = i + 1;
        proof {
            assert(s@.take(i as int).map_values(|c: char| lower_char(c))
                =~= s@.take(i - 1).map_values(|c: char| lower_char(c)).push(lower_char(s@[i - 1])));
        }
    }
    proof {
        assert(s@.take(s@.len() as int) =~= s@);
    }
    out
}

/// The characters of a `&str`, in order, as a vector.
pub fn str_chars(s: &str) -> (r: Vec<char>)
    ensures
        r@ == s@,
{
    let n = s.unicode_len();
    let mut out: Vec<char> = Vec::new();
    let mut i: usize = 0;
    while i < n
        invariant
            i <= n,
            n == s@.len(),
            out@ == s@.take(i as int),
        decreases n - i,
    {
        out.push(s.get_char(i));
        i = i + 1;
        proof {
            assert(s@.take(i as int) =~= s@.take(i - 1).push(s@[i - 1]));
        }
    }
    proof {
        assert(s@.take(n as int) =~= s@);
    }
    out
}

/// Relies on `String::push`: appends one character to the string.
#[verifier::external_body]
fn push_char(s: &mut String, c: char)
    ensures
        final(s)@ == old(s)@.push(c),
{
    s.push(c)
}

/// A `String` holding exactly the given characters.
pub fn string_of_chars(v: &Vec<char>) -> (r: String)
    ensures
        r@ == v@,
{
    let mut out = String::new();
    let mut i: usize = 0;
    while i < v.len()
        invariant
            i <= v.len(),
            out@ == v@.take(i as int),
        decreases v.len() - i,
    {
        push_char(&mut out, v[i]);
        i = i + 1;
        proof {
            assert(v@.take(i as int) =~= v@.take(i - 1).push(v@[i - 1]));
        }
    }
    proof {
        assert(v@.take(v@.len() as int) =~= v@);
    }
    out
}

/// Whether two character vectors hold the same characters.
pub fn chars_eq(a: &Vec<char>, b: &Vec<char>) -> (r: bool)
    ensures
        r == (a@ == b@),
{
    if a.len() != b.len() {
        proof {
            assert(a@ != b@);
        }
        return false;
    }
    let mut i: usize = 0;
    while i < a.len()
        invariant
            i <= a.len(),
            a@.len() == b@.len(),
            a@.take(i as int) == b@.take(i as int),
        decreases a.len() - i,
    {
        if a[i] != b[i] {
            proof {
                assert(a@[i as int] != b@[i as int]);
            }
            return false;
        }
        proof {
            assert(a@.take(i + 1) =~= a@.take(i as int).push(a@[i as int]));
            assert(b@.take(i + 1) =~= b@.take(i as int).push(b@[i as int]));
        }
        i = i + 1;
    }
    proof {
        assert(a@.take(a@.len() as int) =~= a@);
        assert(b@.take(b@.len() as int) =~= b@);
    }
    true
}

/// A copy of the characters of `s` between `a` and `b`.
pub fn chars_sub(s: &Vec<char>, a: usize, b: usize) -> (r: Vec<char>)
    requires
        a <= b <= s@.len(),
    ensures
        r@ == s@.subrange(a as int, b as int),
{
    let mut out: Vec<char> = Vec::new();
    let mut i: usize = a;
    while i < b
        invariant
            a <= i <= b <= s@.len(),
            out@ == s@.subrange(a as int, i as int),
        decreases b - i,
    {
        out.push(s[i]);
        proof {
            assert(s@.subrange(a as int, i + 1) =~= s@.subrange(a as int, i as int).push(s@[i as int]));
        }
        i = i + 1;
    }
    out
}

pub open spec fn is_digit_char(c: char) -> bool {
    ('0' as u32) <= (c as u32) <= ('9' as u32)
}

pub open spec fn digit_char(d: int) -> char {
    ((48 + d) as u8) as char
}

pub open spec fn digit_val(c: char) -> int {
    (c as u32) - 48
}

pub open spec fn all_digits(s: Seq<char>) -> bool {
    forall|i: int| 0 <= i < s.len() ==> is_digit_char(#[trigger] s[i])
}

/// The decimal digits of a non-negative integer, most significant first,
/// with no leading zero except for the number zero itself.
pub open spec fn dec_digits(n: nat) -> Seq<char>
    decreases n,
{
    if n < 10 {
        seq![digit_char(n as int)]
    } else {
        dec_digits(n / 10).push(digit_char((n % 10) as int))
    }
}

/// The decimal rendering of an integer: digits, with a leading `-` when
/// negative.
pub open spec fn int_dec_chars(v: int) -> Seq<char> {
    if v < 0 {
        seq!['-'] + dec_digits((-v) as nat)
    } else {
        dec_digits(v as nat)
    }
}

/// The value of a digit string, most significant digit first.
pub open spec fn dec_val(s: Seq<char>) -> int
    decreases s.len(),
{
    if s.len() == 0 {
        0
    } else {
        dec_val(s.drop_last()) * 10 + digit_val(s.last())
    }
}

/// Integer parsing as `from_str` accepts it: an optional sign followed
/// by one or more decimal digits.
pub open spec fn parse_sint(s: Seq<char>) -> Option<int> {
    if s.len() >= 1 && (s[0] == '-' || s[0] == '+') {
        let rest = s.subrange(1, s.len() as int);
        if rest.len() > 0 && all_digits(rest) {
            if s[0] == '-' {
                Some(-dec_val(rest))
            } else {
                Some(dec_val(rest))
            }
        } else {
            None
        }
    } else if s.len() > 0 && all_digits(s) {
        Some(dec_val(s))
    } else {
        None
    }
}

/// Parsing into a bounded integer type: the parsed value must also lie
/// within the type's range.
pub open spec fn parse_sint_in(s: Seq<char>, lo: int, hi: int) -> Option<int> {
    match parse_sint(s) {
        Some(v) => if lo <= v <= hi {
            Some(v)
        } else {
            None
        },
        None => None,
    }
}

pub proof fn lemma_digit_char(d: int)
    requires
        0 <= d <= 9,
    ensures
        is_digit_char(digit_char(d)),
        digit_val(digit_char(d)) == d,
        digit_char(d) != '-',
        digit_char(d) != '+',
{
    assert((48 + d) as u8 == 48 + d);
    assert((digit_char(d)) as u32 == 48 + d);
}

pub proof fn lemma_dec_digits(n: nat)
    ensures
        dec_digits(n).len() >= 1,
        all_digits(dec_digits(n)),
        dec_val(dec_digits(n)) == n,
    decreases n,
{
    if n < 10 {
        lemma_digit_char(n as int);
        let s = seq![digit_char(n as int)];
        assert(s.drop_last() =~= Seq::<char>::empty());
        assert(dec_val(Seq::<char>::empty()) == 0);
        assert(s.last() == digit_char(n as int));
        assert(dec_val(s) == 0 * 10 + digit_val(digit_char(n as int)));
    } else {
        lemma_dec_digits(n / 10);
        lemma_digit_char((n % 10) as int);
        let s = dec_digits(n);
        assert(s.drop_last() =~= dec_digits(n / 10));
        assert(dec_val(s) == dec_val(dec_digits(n / 10)) * 10 + digit_val(digit_char((n % 10) as int)));
        assert(forall|i: int| 0 <= i < s.len() ==> is_digit_char(#[trigger] s[i])) by {
            assert(forall|i: int| 0 <= i < s.len() - 1 ==> s[i] == #[trigger] dec_digits(n / 10)[i]);
        }
    }
}

/// Rendering then parsing an integer gives the integer back.
pub proof fn lemma_parse_of_rendered(v: int)
    ensures
        parse_sint(int_dec_chars(v)) == Some(v),
{
    if v < 0 {
        lemma_dec_digits((-v) as nat);
        let s = int_dec_chars(v);
        assert(s[0] == '-');
        assert(s.subrange(1, s.len() as int) =~= dec_digits((-v) as nat));
    } else {
        lemma_dec_digits(v as nat);
        let s = int_dec_chars(v);
        assert(is_digit_char(s[0]));
    }
}

/// A rendered integer is non-empty and holds only digits and `-`, so it
/// never holds one of the inline notation's reserved characters.
pub proof fn lemma_rendered_int_chars(v: int)
    ensures
        int_dec_chars(v).len() >= 1,
        forall|i: int| 0 <= i < int_dec_chars(v).len()
            ==> (is_digit_char(#[trigger] int_dec_chars(v)[i]) || int_dec_chars(v)[i] == '-'),
{
    let s = int_dec_chars(v);
    if v < 0 {
        lemma_dec_digits((-v) as nat);
        assert(forall|i: int| 1 <= i < s.len() ==> #[trigger] s[i] == dec_digits((-v) as nat)[i - 1]);
    } else {
        lemma_dec_digits(v as nat);
    }
}

/// Appends the decimal digits of `n` to `out`.
pub fn push_dec_u64(n: u64, out: &mut Vec<char>)
    ensures
        final(out)@ == old(out)@ + dec_digits(n as nat),
    decreases n,
{
    if n < 10 {
        out.push(((48 + n) as u8) as char);
        proof {
            assert(final(out)@ =~= old(out)@ + dec_digits(n as nat));
        }
    } else {
        push_dec_u64(n / 10, out);
        out.push(((48 + n % 10) as u8) as char);
        proof {
            assert(final(out)@ =~= old(out)@ + dec_digits(n as nat));
        }
    }
}

/// Appends the decimal rendering of `v` to `out`.
pub fn push_dec_i64(v: i64, out: &mut Vec<char>)
    ensures
        final(out)@ == old(out)@ + int_dec_chars(v as int),
{
    if v < 0 {
        out.push('-');
        let mag = (-(v as i128)) as u64;
        push_dec_u64(mag, out);
        proof {
            assert(final(out)@ =~= old(out)@ + int_dec_chars(v as int));
        }
    } else {
        push_dec_u64(v as u64, out);
    }
}

/// Parses `s` as a decimal integer that must lie in `[lo, hi]`, as
/// `from_str` for the matching integer type would.
pub fn parse_dec_in(s: &Vec<char>, lo: i64, hi: i64) -> (r: Option<i64>)
    requires
        lo <= 0 <= hi,
    ensures
        match r {
            Some(v) => parse_sint_in(s@, lo as int, hi as int) == Some(v as int),
            None => parse_sint_in(s@, lo as int, hi as int) is None,
        },
{
    let n = s.len();
    if n == 0 {
        return None;
    }
    let neg = s[0] == '-';
    let signed = neg || s[0] == '+';
    let start: usize = if signed { 1 } else { 0 };
    if start == n {
        return None;
    }
    let ghost digits = s@.subrange(start as int, n as int);
    let cap: u64 = if neg {
        (-(lo as i128)) as u64
    } else {
        hi as u64
    };
    let mut acc: u64 = 0;
    let mut i: usize = start;
    while i < n
        invariant
            start <= i <= n,
            1 <= n == s@.len(),
            lo <= 0 <= hi,
            neg == (s@[0] == '-'),
            signed == (neg || s@[0] == '+'),
            start == (if signed { 1usize } else { 0usize }),
            start < n,
            cap as int == (if neg { -(lo as int) } else { hi as int }),
            digits == s@.subrange(start as int, n as int),
            all_digits(s@.subrange(start as int, i as int)),
            acc <= cap,
            acc == dec_val(s@.subrange(start as int, i as int)),
        decreases n - i,
    {
        let c = s[i];
        let u = c as u32;
        if !(48 <= u && u <= 57) {
            proof {
                assert(!is_digit_char(digits[i - start]));
                if signed {
                    assert(digits =~= s@.subrange(1, s@.len() as int));
                } else {
                    assert(digits =~= s@);
                }
            }
            return None;
        }
        let d = (u - 48) as u64;
        proof {
            assert(s@.subrange(start as int, i + 1 as int).drop_last()
                =~= s@.subrange(start as int, i as int));
        }
        if d > cap || acc > (cap - d) / 10 {
            // The value read so far already exceeds the range; any further
            // digits only increase it.
            proof {
                let pre = s@.subrange(start as int, i + 1 as int);
                assert(dec_val(pre) == acc * 10 + d);
                assert(dec_val(pre) > cap);
                if signed {
                    assert(digits =~= s@.subrange(1, s@.len() as int));
                } else {
                    assert(digits =~= s@);
                }
                if all_digits(digits) {
                    assert(pre =~= digits.subrange(0, pre.len() as int));
                    lemma_dec_val_prefix_le(digits, pre);
                    assert(dec_val(digits) > cap);
                }
            }
            return None;
        }
        proof {
            assert(acc * 10 <= ((cap - d) / 10) * 10);
            assert(((cap - d) / 10) * 10 <= cap - d);
        }
        acc = acc * 10 + d;
        i = i + 1;
    }
    proof {
        assert(s@.subrange(start as int, n as int) =~= digits);
        if signed {
            assert(digits =~= s@.subrange(1, s@.len() as int));
        } else {
            assert(digits =~= s@);
        }
    }
    if neg {
        let v = -(acc as i128);
        proof {
            assert(lo as i128 <= v <= 0);
        }
        Some(v as i64)
    } else {
        proof {
            assert(acc <= hi as u64);
        }
        Some(acc as i64)
    }
}

/// When a digit string extends a prefix, its value is at least the
/// prefix's value.
proof fn lemma_dec_val_prefix_le(s: Seq<char>, pre: Seq<char>)
    requires
        all_digits(s),
        pre.len() <= s.len(),
        pre =~= s.subrange(0, pre.len() as int),
    ensures
        dec_val(s) >= dec_val(pre),
        dec_val(s) >= 0,
    decreases s.len(),
{
    lemma_dec_val_nonneg(s);
    if pre.len() == s.len() {
        assert(pre =~= s);
    } else {
        let shorter = s.drop_last();
        lemma_dec_val_nonneg(shorter);
        assert(pre =~= shorter.subrange(0, pre.len() as int));
        lemma_dec_val_prefix_le(shorter, pre);
        assert(dec_val(s) == dec_val(shorter) * 10 + digit_val(s.last()));
        assert(is_digit_char(s.last()));
        assert(digit_val(s.last()) >= 0);
        assert(dec_val(shorter) * 10 >= dec_val(shorter));
    }
}

proof fn lemma_dec_val_nonneg(s: Seq<char>)
    requires
        all_digits(s),
    ensures
        dec_val(s) >= 0,
    decreases s.len(),
{
    if s.len() > 0 {
        let shorter = s.drop_last();
        assert(all_digits(shorter));
        lemma_dec_val_nonneg(shorter);
        assert(is_digit_char(s.last()));
    }
}

} // verus!
