//! The number that a census tract's identifier ends in.

use vstd::prelude::*;

verus! {

/// How many characters of an identifier stand before its number.
pub const TRACT_PREFIX_LEN: usize = 5;

/// Whether `c` is one of the digits `0` to `9`.
pub open spec fn is_digit(c: char) -> bool {
    '0' <= c <= '9'
}

/// The number a digit stands for.
pub open spec fn digit_value(c: char) -> int {
    c as int - '0' as int
}

/// Whether `s` holds digits only.
pub open spec fn all_digits(s: Seq<char>) -> bool {
    forall|i: int| 0 <= i < s.len() ==> is_digit(#[trigger] s[i])
}

/// The number that a run of digits writes in base ten.
pub open spec fn digits_value(s: Seq<char>) -> int
    decreases s.len(),
{
    if s.len() == 0 {
        0
    } else {
        digits_value(s.drop_last()) * 10 + digit_value(s.last())
    }
}

/// The number that one digit or more write behind a sign, where it fits in
/// 32 bits.
pub open spec fn number_of_digits(digits: Seq<char>, negative: bool) -> Option<int> {
    let value = if negative { -digits_value(digits) } else { digits_value(digits) };
    if digits.len() > 0 && all_digits(digits) && i32::MIN <= value <= i32::MAX {
        Some(value)
    } else {
        None
    }
}

/// The number that `s` writes: an optional sign, then one digit or more and
/// nothing else, with a value that fits in 32 bits. `None` for any other text.
pub open spec fn signed_number(s: Seq<char>) -> Option<int> {
    let signed = s.len() > 0 && (s[0] == '-' || s[0] == '+');
    let digits = if signed { s.drop_first() } else { s };
    number_of_digits(digits, signed && s[0] == '-')
}

/// What follows the prefix of an identifier; nothing where the identifier is
/// no longer than the prefix.
pub open spec fn tract_suffix(id: Seq<char>) -> Seq<char> {
    if id.len() <= TRACT_PREFIX_LEN {
        Seq::empty()
    } else {
        id.subrange(TRACT_PREFIX_LEN as int, id.len() as int)
    }
}

/// The number of the tract `id`, where what follows its prefix writes one.
pub open spec fn tract_number(id: Seq<char>) -> Option<int> {
    signed_number(tract_suffix(id))
}

/// A run of digits writes a number that is not negative.
pub proof fn lemma_digits_value_nonnegative(s: Seq<char>)
    requires
        all_digits(s),
    ensures
        digits_value(s) >= 0,
    decreases s.len(),
{
    if s.len() > 0 {
        lemma_digits_value_nonnegative(s.drop_last());
    }
}

/// The first `k` digits of a run write a number no greater than the whole run.
pub proof fn lemma_digits_value_prefix(s: Seq<char>, k: int)
    requires
        all_digits(s),
        0 <= k <= s.len(),
    ensures
        digits_value(s.subrange(0, k)) <= digits_value(s),
    decreases s.len() - k,
{
    if k == s.len() {
        assert(s.subrange(0, k) =~= s);
    } else {
        lemma_digits_value_prefix(s, k + 1);
        let longer = s.subrange(0, k + 1);
        assert(longer.drop_last() =~= s.subrange(0, k));
        assert(is_digit(s[k]));
        assert(longer.last() == s[k]);
        assert(all_digits(s.subrange(0, k))) by {
            assert forall|i: int| 0 <= i < k implies is_digit(#[trigger] s.subrange(0, k)[i]) by {
                assert(s.subrange(0, k)[i] == s[i]);
            }
        }
        lemma_digits_value_nonnegative(s.subrange(0, k));
    }
}

/// The number of the tract `id`: its first five characters are passed over
/// and the rest is read as a signed number of 32 bits.
pub fn tract_number_of(id: &str) -> (number: Option<i32>)
    ensures
        match number {
            Some(n) => tract_number(id@) == Some(n as int),
            None => tract_number(id@) is None,
        },
{
    let len: usize = id.unicode_len();
    if len <= TRACT_PREFIX_LEN {
        return None;
    }
    let ghost suffix = tract_suffix(id@);
    let first: char = id.get_char(TRACT_PREFIX_LEN);
    let signed: bool = first == '-' || first == '+';
    let negative: bool = first == '-';
    let start: usize = if signed { TRACT_PREFIX_LEN + 1 } else { TRACT_PREFIX_LEN };
    let ghost digits = if signed { suffix.drop_first() } else { suffix };
    assert(suffix[0] == first);
    assert(digits =~= id@.subrange(start as int, len as int));
    assert(tract_number(id@) == number_of_digits(digits, negative));
    if start == len {
        return None;
    }
    let mut magnitude: i64 = 0;
    let mut i: usize = start;
    while i < len
        invariant
            start <= i <= len,
            len == id@.len(),
            digits == id@.subrange(start as int, len as int),
            tract_number(id@) == number_of_digits(digits, negative),
            all_digits(digits.subrange(0, i - start)),
            magnitude == digits_value(digits.subrange(0, i - start)),
            0 <= magnitude <= 2147483648,
        decreases len - i,
    {
        let c: char = id.get_char(i);
        assert(digits[i - start] == c);
        if !('0' <= c && c <= '9') {
            return None;
        }
        let digit: i64 = (c as u32 - '0' as u32) as i64;
        let ghost shorter = digits.subrange(0, i - start);
        let ghost longer = digits.subrange(0, i - start + 1);
        assert(longer.drop_last() =~= shorter);
        assert(longer.last() == c);
        assert(all_digits(longer)) by {
            assert forall|k: int| 0 <= k < longer.len() implies is_digit(#[trigger] longer[k]) by {
                if k < shorter.len() {
                    assert(longer[k] == shorter[k]);
                }
            }
        }
        let next: i64 = magnitude * 10 + digit;
        assert(next == digits_value(longer));
        if next > 2147483648 {
            proof {
                if all_digits(digits) {
                    lemma_digits_value_prefix(digits, i - start + 1);
                }
            }
            return None;
        }
        magnitude = next;
        i = i + 1;
    }
    assert(digits.subrange(0, len - start) =~= digits);
    if negative {
        Some((-magnitude) as i32)
    } else if magnitude <= 2147483647 {
        Some(magnitude as i32)
    } else {
        None
    }
}

} // verus!
