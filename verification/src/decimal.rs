use crate::classify::{is_digit, is_int_literal};
use vstd::prelude::*;

verus! {

/// The number that the digit `c` stands for.
pub open spec fn digit_value(c: char) -> int {
    c as int - '0' as int
}

/// The number that `digits` denotes in base ten; leading zeros do not count.
pub open spec fn decimal_value(digits: Seq<char>) -> int
    decreases digits.len(),
{
    if digits.len() == 0 {
        0
    } else {
        10 * decimal_value(digits.drop_last()) + digit_value(digits.last())
    }
}

/// The character that stands for the digit `d`.
pub open spec fn digit_char(d: int) -> char {
    ('0' as int + d) as char
}

/// How the number `n` is written in base ten, without leading zeros.
pub open spec fn decimal_text(n: nat) -> Seq<char>
    decreases n,
{
    if n < 10 {
        seq![digit_char(n as int)]
    } else {
        decimal_text(n / 10).push(digit_char((n % 10) as int))
    }
}

/// What is written for a number is an integer literal and denotes that number.
pub proof fn lemma_decimal_text(n: nat)
    ensures
        is_int_literal(decimal_text(n)),
        decimal_value(decimal_text(n)) == n,
    decreases n,
{
    let text = decimal_text(n);
    if n < 10 {
        assert(decimal_value(text.drop_last()) == 0);
    } else {
        lemma_decimal_text(n / 10);
        assert(text.drop_last() =~= decimal_text(n / 10));
    }
}

/// A number in base ten is no smaller than the number that its first digits denote.
pub proof fn lemma_decimal_value_prefix(digits: Seq<char>, n: int)
    requires
        is_int_literal(digits),
        0 <= n <= digits.len(),
    ensures
        0 <= decimal_value(digits.take(n)) <= decimal_value(digits),
    decreases digits.len() - n,
{
    lemma_decimal_value_nonnegative(digits.take(n));
    if n < digits.len() {
        let next = digits.take(n + 1);
        assert(next.drop_last() == digits.take(n));
        lemma_decimal_value_prefix(digits, n + 1);
    } else {
        assert(digits.take(n) == digits);
    }
}

/// Digits denote no negative number.
pub proof fn lemma_decimal_value_nonnegative(digits: Seq<char>)
    requires
        forall|i: int| 0 <= i < digits.len() ==> is_digit(#[trigger] digits[i]),
    ensures
        0 <= decimal_value(digits),
    decreases digits.len(),
{
    if digits.len() > 0 {
        lemma_decimal_value_nonnegative(digits.drop_last());
    }
}

/// The number that the integer literal `digits` denotes, if an `i32` can hold it.
pub(crate) fn parse_decimal(digits: &Vec<char>) -> (out: Option<i32>)
    requires
        is_int_literal(digits@),
    ensures
        out is Some <==> decimal_value(digits@) <= i32::MAX,
        out matches Some(n) ==> n == decimal_value(digits@),
{
    let mut value: i32 = 0;
    let mut i: usize = 0;
    while i < digits.len()
        invariant
            is_int_literal(digits@),
            i <= digits.len(),
            value == decimal_value(digits@.take(i as int)),
            0 <= value,
        decreases digits.len() - i,
    {
        let c = digits[i];
        let d: i64 = (c as u32 - '0' as u32) as i64;
        let next: i64 = 10 * (value as i64) + d;
        proof {
            assert(digits@.take(i + 1).drop_last() == digits@.take(i as int));
            lemma_decimal_value_prefix(digits@, i + 1);
        }
        if next > i32::MAX as i64 {
            return None;
        }
        value = next as i32;
        i += 1;
    }
    assert(digits@.take(i as int) == digits@);
    Some(value)
}

/// Whether `chars` is an integer literal.
pub(crate) fn all_digits(chars: &Vec<char>) -> (yes: bool)
    ensures
        yes == is_int_literal(chars@),
{
    let mut i: usize = 0;
    while i < chars.len()
        invariant
            i <= chars.len(),
            forall|k: int| 0 <= k < i ==> is_digit(#[trigger] chars@[k]),
        decreases chars.len() - i,
    {
        let c = chars[i];
        if !('0' <= c && c <= '9') {
            return false;
        }
        i += 1;
    }
    chars.len() > 0
}

} // verus!
