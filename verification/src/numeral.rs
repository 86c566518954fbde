//! Unsigned decimal numerals over byte strings.
//!
//! A guess arrives as the raw bytes of one input line.  The line counts as a
//! valid guess exactly when, after surrounding whitespace is removed, what
//! is left is an optional `+` sign followed by one or more decimal digits
//! whose value fits in a `u32` — the texts `str::parse::<u32>` accepts on
//! the `str::trim` of the line.  Whitespace is therefore the Unicode
//! `White_Space` set that `str::trim` strips, met here as UTF-8 byte
//! sequences of one, two or three bytes.  `parse_guess` decides all of
//! that, and is verified against the specification below.

use vstd::prelude::*;

verus! {

/// One-byte whitespace: tab, line feed, vertical tab, form feed, carriage
/// return, space (U+0009 through U+000D and U+0020).
pub open spec fn is_single_byte_whitespace(b: u8) -> bool {
    b == 0x09 || b == 0x0A || b == 0x0B || b == 0x0C || b == 0x0D || b == 0x20
}

/// Two-byte UTF-8 whitespace: next line U+0085 and no-break space U+00A0.
pub open spec fn is_two_byte_whitespace(b0: u8, b1: u8) -> bool {
    b0 == 0xC2 && (b1 == 0x85 || b1 == 0xA0)
}

/// Three-byte UTF-8 whitespace: ogham space mark U+1680, the spaces U+2000
/// through U+200A, line separator U+2028, paragraph separator U+2029,
/// narrow no-break space U+202F, medium mathematical space U+205F, and
/// ideographic space U+3000.
pub open spec fn is_three_byte_whitespace(b0: u8, b1: u8, b2: u8) -> bool {
    ||| b0 == 0xE1 && b1 == 0x9A && b2 == 0x80
    ||| b0 == 0xE2 && b1 == 0x80 && (0x80 <= b2 <= 0x8A || b2 == 0xA8 || b2 == 0xA9 || b2 == 0xAF)
    ||| b0 == 0xE2 && b1 == 0x81 && b2 == 0x9F
    ||| b0 == 0xE3 && b1 == 0x80 && b2 == 0x80
}

/// Length of the encoding of a leading whitespace character, 0 if the text
/// starts with none.
pub open spec fn leading_whitespace_len(s: Seq<u8>) -> nat {
    if s.len() >= 1 && is_single_byte_whitespace(s[0]) {
        1
    } else if s.len() >= 2 && is_two_byte_whitespace(s[0], s[1]) {
        2
    } else if s.len() >= 3 && is_three_byte_whitespace(s[0], s[1], s[2]) {
        3
    } else {
        0
    }
}

/// Length of the encoding of a trailing whitespace character, 0 if the text
/// ends with none.
pub open spec fn trailing_whitespace_len(s: Seq<u8>) -> nat {
    if s.len() >= 1 && is_single_byte_whitespace(s.last()) {
        1
    } else if s.len() >= 2 && is_two_byte_whitespace(s[s.len() - 2], s.last()) {
        2
    } else if s.len() >= 3 && is_three_byte_whitespace(s[s.len() - 3], s[s.len() - 2], s.last()) {
        3
    } else {
        0
    }
}

/// `s` with leading whitespace characters removed.
pub open spec fn trim_front(s: Seq<u8>) -> Seq<u8>
    decreases s.len(),
{
    let k = leading_whitespace_len(s);
    if k == 0 {
        s
    } else {
        trim_front(s.skip(k as int))
    }
}

/// `s` with trailing whitespace characters removed.
pub open spec fn trim_back(s: Seq<u8>) -> Seq<u8>
    decreases s.len(),
{
    let k = trailing_whitespace_len(s);
    if k == 0 {
        s
    } else {
        trim_back(s.take(s.len() - k))
    }
}

/// `s` with both leading and trailing whitespace removed.
pub open spec fn trimmed(s: Seq<u8>) -> Seq<u8> {
    trim_back(trim_front(s))
}

/// ASCII decimal digit, `'0'` through `'9'`.
pub open spec fn is_ascii_digit(b: u8) -> bool {
    48 <= b <= 57
}

/// Numeric value of one digit byte.
pub open spec fn digit_value(b: u8) -> nat
    recommends
        is_ascii_digit(b),
{
    (b - 48) as nat
}

/// Every byte of `s` is a decimal digit.
pub open spec fn all_digits(s: Seq<u8>) -> bool {
    forall|i: int| 0 <= i < s.len() ==> is_ascii_digit(#[trigger] s[i])
}

/// Value of a digit string read in base 10, most significant digit first.
pub open spec fn digits_value(s: Seq<u8>) -> nat
    decreases s.len(),
{
    if s.len() == 0 {
        0
    } else {
        digits_value(s.drop_last()) * 10 + digit_value(s.last())
    }
}

/// The digit part of a numeral: everything after an optional leading `+`.
pub open spec fn digits_of(s: Seq<u8>) -> Seq<u8> {
    if s.len() > 0 && s.first() == 43 {
        s.drop_first()
    } else {
        s
    }
}

/// The bytes form a valid `u32` numeral once surrounding whitespace is
/// removed: at least one digit, digits only after the optional sign, and a
/// value no larger than `u32::MAX`.
pub open spec fn is_u32_numeral(s: Seq<u8>) -> bool {
    let d = digits_of(trimmed(s));
    d.len() > 0 && all_digits(d) && digits_value(d) <= u32::MAX
}

/// The numeric value of a valid numeral.
pub open spec fn numeral_value(s: Seq<u8>) -> nat
    recommends
        is_u32_numeral(s),
{
    digits_value(digits_of(trimmed(s)))
}

/// Reading one more digit multiplies the prefix value by ten and adds it.
proof fn lemma_digits_value_step(s: Seq<u8>, i: int)
    requires
        0 <= i < s.len(),
    ensures
        digits_value(s.take(i + 1)) == digits_value(s.take(i)) * 10 + digit_value(s[i]),
{
    assert(s.take(i + 1).drop_last() =~= s.take(i));
    assert(s.take(i + 1).last() == s[i]);
}

/// The value of a digit string is at least the value of any of its prefixes.
proof fn lemma_digits_value_prefix_le(s: Seq<u8>, i: int)
    requires
        0 <= i <= s.len(),
    ensures
        digits_value(s.take(i)) <= digits_value(s),
    decreases s.len() - i,
{
    if i == s.len() {
        assert(s.take(i) =~= s);
    } else {
        lemma_digits_value_step(s, i);
        lemma_digits_value_prefix_le(s, i + 1);
    }
}

fn is_single_ws_byte(b: u8) -> (r: bool)
    ensures
        r == is_single_byte_whitespace(b),
{
    b == 0x09 || b == 0x0A || b == 0x0B || b == 0x0C || b == 0x0D || b == 0x20
}

fn is_two_ws_bytes(b0: u8, b1: u8) -> (r: bool)
    ensures
        r == is_two_byte_whitespace(b0, b1),
{
    b0 == 0xC2 && (b1 == 0x85 || b1 == 0xA0)
}

fn is_three_ws_bytes(b0: u8, b1: u8, b2: u8) -> (r: bool)
    ensures
        r == is_three_byte_whitespace(b0, b1, b2),
{
    (b0 == 0xE1 && b1 == 0x9A && b2 == 0x80) || (b0 == 0xE2 && b1 == 0x80 && (0x80 <= b2 && b2
        <= 0x8A || b2 == 0xA8 || b2 == 0xA9 || b2 == 0xAF)) || (b0 == 0xE2 && b1 == 0x81 && b2
        == 0x9F) || (b0 == 0xE3 && b1 == 0x80 && b2 == 0x80)
}

/// Length of the whitespace character that `input` carries at position
/// `lo`, 0 if none starts there.
fn leading_ws_at(input: &[u8], lo: usize) -> (k: usize)
    requires
        lo <= input@.len(),
    ensures
        k == leading_whitespace_len(input@.skip(lo as int)),
        lo + k <= input@.len(),
{
    let n: usize = input.len();
    proof {
        let t = input@.skip(lo as int);
        if lo < n {
            assert(t[0] == input@[lo as int]);
        }
        if lo + 1 < n {
            assert(t[1] == input@[lo as int + 1]);
        }
        if lo + 2 < n {
            assert(t[2] == input@[lo as int + 2]);
        }
    }
    if lo < n && is_single_ws_byte(input[lo]) {
        1
    } else if n - lo >= 2 && is_two_ws_bytes(input[lo], input[lo + 1]) {
        2
    } else if n - lo >= 3 && is_three_ws_bytes(input[lo], input[lo + 1], input[lo + 2]) {
        3
    } else {
        0
    }
}

/// Length of the whitespace character on which the region `lo..hi` of
/// `input` ends, 0 if it ends on none.
fn trailing_ws_at(input: &[u8], lo: usize, hi: usize) -> (k: usize)
    requires
        lo <= hi <= input@.len(),
    ensures
        k == trailing_whitespace_len(input@.subrange(lo as int, hi as int)),
        k <= hi - lo,
{
    proof {
        let u = input@.subrange(lo as int, hi as int);
        if hi - lo >= 1 {
            assert(u.last() == input@[hi as int - 1]);
        }
        if hi - lo >= 2 {
            assert(u[u.len() - 2] == input@[hi as int - 2]);
        }
        if hi - lo >= 3 {
            assert(u[u.len() - 3] == input@[hi as int - 3]);
        }
    }
    if hi > lo && is_single_ws_byte(input[hi - 1]) {
        1
    } else if hi - lo >= 2 && is_two_ws_bytes(input[hi - 2], input[hi - 1]) {
        2
    } else if hi - lo >= 3 && is_three_ws_bytes(input[hi - 3], input[hi - 2], input[hi - 1]) {
        3
    } else {
        0
    }
}

/// Parse the bytes of one input line as a `u32` guess.
///
/// Returns `Some` with the numeral's value exactly when the line is a valid
/// `u32` numeral, and `None` on every other input: empty or all-whitespace
/// text, a stray sign, any non-digit byte, or a value above `u32::MAX`.
pub fn parse_guess(input: &[u8]) -> (r: Option<u32>)
    ensures
        is_u32_numeral(input@) ==> r == Some(numeral_value(input@) as u32),
        !is_u32_numeral(input@) ==> r is None,
{
    let n: usize = input.len();

    let mut lo: usize = 0;
    proof {
        assert(input@.skip(0) =~= input@);
    }
    loop
        invariant
            lo <= n,
            n == input@.len(),
            trim_front(input@) == trim_front(input@.skip(lo as int)),
        ensures
            lo <= n,
            n == input@.len(),
            trim_front(input@) == input@.skip(lo as int),
        decreases n - lo,
    {
        let k = leading_ws_at(input, lo);
        if k == 0 {
            break;
        }
        proof {
            assert(input@.skip(lo as int).skip(k as int) =~= input@.skip(lo as int + k));
        }
        lo = lo + k;
    }

    let mut hi: usize = n;
    proof {
        assert(input@.skip(lo as int) =~= input@.subrange(lo as int, n as int));
    }
    loop
        invariant
            lo <= hi <= n,
            n == input@.len(),
            trim_front(input@) == input@.skip(lo as int),
            trim_back(input@.skip(lo as int)) == trim_back(
                input@.subrange(lo as int, hi as int),
            ),
        ensures
            lo <= hi <= n,
            n == input@.len(),
            trimmed(input@) == input@.subrange(lo as int, hi as int),
        decreases hi,
    {
        let k = trailing_ws_at(input, lo, hi);
        if k == 0 {
            break;
        }
        proof {
            let u = input@.subrange(lo as int, hi as int);
            assert(u.take(u.len() - k) =~= input@.subrange(lo as int, hi as int - k));
        }
        hi = hi - k;
    }

    let ghost t = input@.subrange(lo as int, hi as int);

    if lo == hi {
        return None;
    }

    let start: usize = if input[lo] == 43 {
        lo + 1
    } else {
        lo
    };
    let ghost d = input@.subrange(start as int, hi as int);
    proof {
        if input@[lo as int] == 43 {
            assert(t.first() == 43);
            assert(t.drop_first() =~= d);
        } else {
            assert(t =~= d);
        }
        assert(digits_of(trimmed(input@)) == d);
    }

    if start == hi {
        return None;
    }

    let mut acc: u32 = 0;
    let mut i: usize = start;
    proof {
        assert(d.take(0) =~= Seq::<u8>::empty());
    }
    while i < hi
        invariant
            start <= i <= hi <= n,
            n == input@.len(),
            start < hi,
            d == input@.subrange(start as int, hi as int),
            digits_of(trimmed(input@)) == d,
            all_digits(d.take(i - start)),
            acc == digits_value(d.take(i - start)),
        decreases hi - i,
    {
        let b = input[i];
        proof {
            assert(d[i - start] == input@[i as int]);
        }
        if b < 48 || b > 57 {
            proof {
                assert(!is_ascii_digit(d[i - start]));
            }
            return None;
        }
        let dig: u32 = (b - 48) as u32;
        proof {
            lemma_digits_value_step(d, i - start);
        }
        let wide: u64 = acc as u64 * 10 + dig as u64;
        if wide > u32::MAX as u64 {
            proof {
                lemma_digits_value_prefix_le(d, i - start + 1);
                assert(digits_value(d) > u32::MAX);
            }
            return None;
        }
        acc = wide as u32;
        i = i + 1;
    }
    proof {
        assert(d.take(hi - start) =~= d);
        assert(is_u32_numeral(input@));
    }
    Some(acc)
}

} // verus!
