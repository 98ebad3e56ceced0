//! Character classes used by the lexers.
//!
//! White space and the ASCII classes are defined here; the Unicode
//! `Alphabetic` and `Alphanumeric` classes come from `char`'s own methods.

use vstd::prelude::*;

verus! {

/// Whether `c` has the Unicode `White_Space` property, the set that
/// `char::is_whitespace` tests: tab through carriage return, space, next
/// line, no-break space, ogham space mark, the en quad through hair space,
/// line and paragraph separators, narrow no-break space, medium
/// mathematical space and ideographic space.
pub open spec fn unicode_whitespace(c: char) -> bool {
    let v = c as u32;
    ||| 0x09 <= v <= 0x0D
    ||| v == 0x20
    ||| v == 0x85
    ||| v == 0xA0
    ||| v == 0x1680
    ||| 0x2000 <= v <= 0x200A
    ||| v == 0x2028
    ||| v == 0x2029
    ||| v == 0x202F
    ||| v == 0x205F
    ||| v == 0x3000
}

/// Whether `c` has the Unicode `Alphabetic` property (as `char::is_alphabetic`
/// decides).
pub uninterp spec fn unicode_alphabetic(c: char) -> bool;

/// Whether `c` is alphabetic or numeric in Unicode (as
/// `char::is_alphanumeric` decides).
pub uninterp spec fn unicode_alphanumeric(c: char) -> bool;

/// Whether `c` is Unicode white space (see [`unicode_whitespace`]).
pub(crate) fn is_whitespace(c: char) -> (r: bool)
    ensures
        r == unicode_whitespace(c),
{
    let v = c as u32;
    (0x09 <= v && v <= 0x0D) || v == 0x20 || v == 0x85 || v == 0xA0 || v == 0x1680 || (0x2000 <= v && v
        <= 0x200A) || v == 0x2028 || v == 0x2029 || v == 0x202F || v == 0x205F || v == 0x3000
}

/// `char::is_alphabetic`. Its result is named by [`unicode_alphabetic`]; the
/// Unicode table behind it is not restated here.
#[verifier::external_body]
pub(crate) fn is_alphabetic(c: char) -> (r: bool)
    ensures
        r == unicode_alphabetic(c),
{
    c.is_alphabetic()
}

/// `char::is_alphanumeric`. Its result is named by [`unicode_alphanumeric`];
/// the Unicode table behind it is not restated here. As documented, every
/// alphabetic character is alphanumeric.
#[verifier::external_body]
pub(crate) fn is_alphanumeric(c: char) -> (r: bool)
    ensures
        r == unicode_alphanumeric(c),
        unicode_alphabetic(c) ==> r,
{
    c.is_alphanumeric()
}

/// Whether two string slices hold the same characters.
pub(crate) fn str_equal(a: &str, b: &str) -> (r: bool)
    ensures
        r == (a@ == b@),
{
    let n = a.unicode_len();
    if n != b.unicode_len() {
        return false;
    }
    let mut i: usize = 0;
    while i < n
        invariant
            n == a@.len(),
            n == b@.len(),
            i <= n,
            forall|j: int| 0 <= j < i ==> a@[j] == b@[j],
        decreases n - i,
    {
        if a.get_char(i) != b.get_char(i) {
            return false;
        }
        i = i + 1;
    }
    assert(a@ =~= b@);
    true
}

/// An ASCII decimal digit.
pub open spec fn is_digit_spec(c: char) -> bool {
    '0' <= c && c <= '9'
}

/// An ASCII hexadecimal digit.
pub open spec fn is_hex_spec(c: char) -> bool {
    ('0' <= c && c <= '9') || ('a' <= c && c <= 'f') || ('A' <= c && c <= 'F')
}

/// The value of an ASCII hexadecimal digit.
pub open spec fn hex_value(c: char) -> nat {
    if '0' <= c && c <= '9' {
        (c as nat - '0' as nat) as nat
    } else if 'a' <= c && c <= 'f' {
        (c as nat - 'a' as nat + 10) as nat
    } else {
        (c as nat - 'A' as nat + 10) as nat
    }
}

pub fn is_digit(c: char) -> (r: bool)
    ensures
        r == is_digit_spec(c),
{
    '0' <= c && c <= '9'
}

pub fn is_hex_digit(c: char) -> (r: bool)
    ensures
        r == is_hex_spec(c),
{
    ('0' <= c && c <= '9') || ('a' <= c && c <= 'f') || ('A' <= c && c <= 'F')
}

pub fn hex_digit_value(c: char) -> (v: u8)
    requires
        is_hex_spec(c),
    ensures
        v == hex_value(c),
        v < 16,
{
    if '0' <= c && c <= '9' {
        ((c as u32) - ('0' as u32)) as u8
    } else if 'a' <= c && c <= 'f' {
        ((c as u32) - ('a' as u32) + 10) as u8
    } else {
        ((c as u32) - ('A' as u32) + 10) as u8
    }
}

/// The low byte of a character's code point (`c as u8`).
pub fn char_low_byte(c: char) -> (b: u8)
    ensures
        b == (c as nat) % 256,
{
    let v = c as u32;
    assert(v & 0xff == v % 256) by (bit_vector);
    (v & 0xff) as u8
}

/// The decimal value of a run of ASCII digits.
pub open spec fn digits_value(s: Seq<char>) -> nat
    decreases s.len(),
{
    if s.len() == 0 {
        0
    } else {
        (digits_value(s.drop_last()) * 10 + (s.last() as nat - '0' as nat)) as nat
    }
}

/// The value of the run of ASCII digits `s[start..end]` when it fits in a
/// `u64`.
pub fn parse_digits(s: &Vec<char>, start: usize, end: usize) -> (r: Option<u64>)
    requires
        start <= end <= s@.len(),
        forall|i: int| start <= i < end ==> is_digit_spec(#[trigger] s@[i]),
    ensures
        r == (if digits_value(s@.subrange(start as int, end as int)) <= u64::MAX {
            Some(digits_value(s@.subrange(start as int, end as int)) as u64)
        } else {
            None::<u64>
        }),
{
    let ghost run = s@.subrange(start as int, end as int);
    let mut v: u64 = 0;
    let mut i: usize = start;
    while i < end
        invariant
            start <= i <= end <= s@.len(),
            run == s@.subrange(start as int, end as int),
            forall|k: int| start <= k < end ==> is_digit_spec(#[trigger] s@[k]),
            v == digits_value(run.take(i - start)),
        decreases end - i,
    {
        assert(run.take(i - start + 1).drop_last() =~= run.take(i - start));
        assert(run[i - start] == s@[i as int]);
        let d = ((s[i] as u32) - ('0' as u32)) as u64;
        if v > (u64::MAX - d) / 10 {
            proof {
                assert forall|k: int| 0 <= k < run.len() implies is_digit_spec(#[trigger] run[k]) by {
                    assert(run[k] == s@[start + k]);
                }
                lemma_digits_grow(run, i - start + 1);
                assert(digits_value(run.take(i - start + 1)) > u64::MAX) by (nonlinear_arith)
                    requires
                        digits_value(run.take(i - start + 1)) == v * 10 + d,
                        v > (u64::MAX - d) / 10,
                        d < 10;
            }
            return None;
        }
        v = v * 10 + d;
        i = i + 1;
    }
    assert(run.take(end - start) =~= run);
    Some(v)
}

/// A longer run of digits never has a smaller value.
proof fn lemma_digits_grow(s: Seq<char>, k: int)
    requires
        0 <= k <= s.len(),
        forall|i: int| 0 <= i < s.len() ==> is_digit_spec(#[trigger] s[i]),
    ensures
        digits_value(s.take(k)) <= digits_value(s),
    decreases s.len() - k,
{
    if k < s.len() {
        lemma_digits_grow(s, k + 1);
        assert(s.take(k + 1).drop_last() =~= s.take(k));
        assert(is_digit_spec(s[k]));
    } else {
        assert(s.take(k) =~= s);
    }
}

} // verus!
