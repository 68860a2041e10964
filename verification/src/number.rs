//! Decimal numerals for 64-bit unsigned integers.

use vstd::prelude::*;

verus! {

/// The text is no numeral of a 64-bit unsigned integer.
#[derive(Debug, Clone, Copy, PartialEq, Eq, Structural)]
pub struct ParseError;

/// Whether `c` is one of the decimal digits `0` to `9`.
pub open spec fn digit(c: char) -> bool {
    '0' <= c <= '9'
}

/// The value of the decimal digit `c`.
pub open spec fn digit_value(c: char) -> nat
    recommends
        digit(c),
{
    (c as u32 - '0' as u32) as nat
}

/// Whether `s` holds decimal digits only.
pub open spec fn all_digits(s: Seq<char>) -> bool {
    forall|i: int| 0 <= i < s.len() ==> digit(#[trigger] s[i])
}

/// The number that the decimal digits `s` write, most significant digit
/// first. No digits write 0.
pub open spec fn decimal_value(s: Seq<char>) -> nat
    decreases s.len(),
{
    if s.len() == 0 {
        0
    } else {
        10 * decimal_value(s.drop_last()) + digit_value(s.last())
    }
}

/// The digits of a numeral: what follows one leading `+`, or else the whole.
pub open spec fn digits_of(s: Seq<char>) -> Seq<char> {
    if s.len() > 0 && s.first() == '+' {
        s.drop_first()
    } else {
        s
    }
}

/// Whether `s` is a numeral: one or more decimal digits, with at most one `+`
/// before them and nothing else before, between or after them.
pub open spec fn numeral(s: Seq<char>) -> bool {
    digits_of(s).len() > 0 && all_digits(digits_of(s))
}

/// The number that `s` writes where `s` is a numeral whose value fits in 64
/// bits, and the error for every other text.
pub open spec fn parsed(s: Seq<char>) -> Result<u64, ParseError> {
    if numeral(s) && decimal_value(digits_of(s)) <= u64::MAX {
        Ok(decimal_value(digits_of(s)) as u64)
    } else {
        Err(ParseError)
    }
}

/// The digits that begin a run of digits write no more than the whole run.
pub proof fn lemma_decimal_value_prefix(s: Seq<char>, k: int)
    requires
        0 <= k <= s.len(),
    ensures
        decimal_value(s.take(k)) <= decimal_value(s),
    decreases s.len(),
{
    if k == s.len() {
        assert(s.take(k) == s);
    } else {
        assert(s.drop_last().take(k) == s.take(k));
        lemma_decimal_value_prefix(s.drop_last(), k);
    }
}

/// Reads `word` as the decimal numeral of a 64-bit unsigned integer.
///
/// The word holds nothing but the numeral: white space, a `-` or a second
/// sign make it an error, and so does a value above `u64::MAX`.
pub fn parse_number(word: &[char]) -> (r: Result<u64, ParseError>)
    ensures
        r == parsed(word@),
{
    let n: usize = word.len();
    let first: usize = if n > 0 && word[0] == '+' {
        1
    } else {
        0
    };
    if first == n {
        return Err(ParseError);
    }
    let ghost digits = digits_of(word@);
    let mut value: u64 = 0;
    let mut i: usize = first;
    while i < n
        invariant
            n == word@.len(),
            first <= i <= n,
            digits == digits_of(word@),
            digits == word@.subrange(first as int, n as int),
            all_digits(digits.take(i - first)),
            value == decimal_value(digits.take(i - first)),
        decreases n - i,
    {
        let c: char = word[i];
        if !('0' <= c && c <= '9') {
            assert(!digit(digits[i - first]));
            return Err(ParseError);
        }
        let d: u64 = (c as u32 - '0' as u32) as u64;
        proof {
            let next = digits.take(i - first + 1);
            assert(next.drop_last() == digits.take(i - first));
            assert(next.last() == c);
            lemma_decimal_value_prefix(digits, i - first + 1);
        }
        if value > (u64::MAX - d) / 10 {
            return Err(ParseError);
        }
        value = 10 * value + d;
        i = i + 1;
    }
    assert(digits.take(n - first) == digits);
    Ok(value)
}

} // verus!
