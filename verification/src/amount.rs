//! Reading an amount from a line of text.

use crate::text::{trim, trimmed};
use vstd::prelude::*;

verus! {

/// Whether `c` is one of the decimal digits `0` to `9`.
pub open spec fn is_digit(c: char) -> bool {
    '0' <= c <= '9'
}

/// The number that the digit `c` stands for.
pub open spec fn digit_value(c: char) -> int {
    c as int - '0' as int
}

/// Whether `s` is made of decimal digits only.
pub open spec fn all_digits(s: Seq<char>) -> bool {
    forall|i: int| 0 <= i < s.len() ==> is_digit(#[trigger] s[i])
}

/// The number that the digits of `s` denote in base ten; 0 for no digits.
pub open spec fn digits_value(s: Seq<char>) -> int
    decreases s.len(),
{
    if s.len() == 0 {
        0
    } else {
        10 * digits_value(s.drop_last()) + digit_value(s.last())
    }
}

/// Whether `s` starts with a sign, `+` or `-`.
pub open spec fn has_sign(s: Seq<char>) -> bool {
    s.len() > 0 && (s[0] == '+' || s[0] == '-')
}

/// The integer that `s` denotes: an optional sign followed by one or more
/// decimal digits and nothing else.
pub open spec fn integer_of(s: Seq<char>) -> Option<int> {
    let digits = if has_sign(s) { s.drop_first() } else { s };
    if digits.len() == 0 || !all_digits(digits) {
        None
    } else if s[0] == '-' {
        Some(-digits_value(digits))
    } else {
        Some(digits_value(digits))
    }
}

/// The amount that a line of input denotes: the integer written on it,
/// whitespace around it aside, if it is one that an `i32` can hold.
pub open spec fn amount_of(line: Seq<char>) -> Option<int> {
    match integer_of(trimmed(line)) {
        Some(value) => if i32::MIN <= value <= i32::MAX { Some(value) } else { None },
        None => None,
    }
}

/// Appending a digit multiplies the value by ten and adds the digit.
proof fn lemma_digits_value_push(s: Seq<char>, c: char)
    ensures
        digits_value(s.push(c)) == 10 * digits_value(s) + digit_value(c),
{
    assert(s.push(c).drop_last() =~= s);
}

/// The digits read so far never denote more than all the digits do.
proof fn lemma_digits_value_grows(s: Seq<char>, k: int)
    requires
        all_digits(s),
        0 <= k <= s.len(),
    ensures
        0 <= digits_value(s.subrange(0, k)) <= digits_value(s),
    decreases s.len() - k,
{
    if k == s.len() {
        assert(s.subrange(0, k) =~= s);
        lemma_digits_value_nonnegative(s);
    } else {
        let rest = s.drop_last();
        assert(is_digit(s[s.len() - 1]));
        assert forall|i: int| 0 <= i < rest.len() implies is_digit(#[trigger] rest[i]) by {
            assert(rest[i] == s[i]);
        }
        lemma_digits_value_grows(rest, k);
        assert(rest.subrange(0, k) =~= s.subrange(0, k));
    }
}

/// Digits denote a number that is not negative.
proof fn lemma_digits_value_nonnegative(s: Seq<char>)
    requires
        all_digits(s),
    ensures
        0 <= digits_value(s),
    decreases s.len(),
{
    if s.len() > 0 {
        let rest = s.drop_last();
        assert(is_digit(s[s.len() - 1]));
        assert forall|i: int| 0 <= i < rest.len() implies is_digit(#[trigger] rest[i]) by {
            assert(rest[i] == s[i]);
        }
        lemma_digits_value_nonnegative(rest);
    }
}

/// Reads the amount written on `line`, as `str::parse::<i32>` reads the
/// trimmed line: `None` if the line is not an integer or the integer does
/// not fit.
pub fn parse_amount(line: &str) -> (amount: Option<i32>)
    ensures
        match amount {
            Some(value) => amount_of(line@) == Some(value as int),
            None => amount_of(line@) is None,
        },
{
    let text = trim(line);
    let len = text.unicode_len();
    let mut negative = false;
    let mut signed = false;
    let mut value: i64 = 0;
    let mut i: usize = 0;
    for c in it: text.chars()
        invariant
            i == it.index(),
            it.seq() == text@,
            text@.len() == len,
            text@ == trimmed(line@),
            signed ==> 0 < i && has_sign(text@),
            0 < i && has_sign(text@) ==> signed,
            negative == (signed && text@[0] == '-'),
            all_digits(text@.subrange(if signed { 1int } else { 0int }, i as int)),
            value == digits_value(text@.subrange(if signed { 1int } else { 0int }, i as int)),
            0 <= value <= 2147483648,
    {
        let ghost from = if signed { 1int } else { 0int };
        let ghost read = text@.subrange(from, i as int);
        let ghost digits = if has_sign(text@) { text@.drop_first() } else { text@ };
        if i == 0 && (c == '+' || c == '-') {
            signed = true;
            negative = c == '-';
            proof {
                assert(text@.subrange(1, 1) =~= Seq::<char>::empty());
            }
        } else if '0' <= c && c <= '9' {
            let digit = (c as u32 - '0' as u32) as i64;
            proof {
                lemma_digits_value_push(read, c);
                assert(read.push(c) =~= text@.subrange(from, i + 1));
            }
            value = value * 10 + digit;
            if value > 2147483648 {
                proof {
                    if all_digits(digits) {
                        assert(digits.subrange(0, i + 1 - from) =~= text@.subrange(from, i + 1));
                        lemma_digits_value_grows(digits, i + 1 - from);
                    }
                }
                return None;
            }
        } else {
            proof {
                assert(digits[i - from] == c);
            }
            return None;
        }
        i = i + 1;
    }
    let ghost from = if signed { 1int } else { 0int };
    let ghost digits = if has_sign(text@) { text@.drop_first() } else { text@ };
    proof {
        assert(text@.subrange(from, i as int) =~= digits);
    }
    if i == 0 || (signed && i == 1) {
        None
    } else if negative {
        Some((-value) as i32)
    } else if value > 2147483647 {
        None
    } else {
        Some(value as i32)
    }
}

} // verus!
