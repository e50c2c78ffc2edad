use crate::lexer::{is_digit, spec_is_digit};
use crate::text::chars_of;
use vstd::prelude::*;

verus! {

/// The number that a decimal digit stands for.
pub open spec fn digit_value(c: char) -> nat {
    (c as int - '0' as int) as nat
}

/// The number that a string of decimal digits stands for; 0 for the empty
/// string.
pub open spec fn decimal_value(digits: Seq<char>) -> nat
    decreases digits.len(),
{
    if digits.len() == 0 {
        0
    } else {
        10 * decimal_value(digits.drop_last()) + digit_value(digits.last())
    }
}

/// A non-empty string of decimal digits.
pub open spec fn is_decimal(text: Seq<char>) -> bool {
    text.len() > 0 && forall|i: int| 0 <= i < text.len() ==> spec_is_digit(#[trigger] text[i])
}

/// The value of an integer literal: the number its digits stand for, where
/// the text is a non-empty string of decimal digits and the number fits in a
/// signed 64-bit integer.
pub open spec fn integer_literal_value(text: Seq<char>) -> Option<int> {
    if is_decimal(text) && decimal_value(text) <= i64::MAX {
        Some(decimal_value(text) as int)
    } else {
        None
    }
}

/// A string of digits stands for at least as much as each of its prefixes.
pub proof fn lemma_decimal_value_prefix(digits: Seq<char>, n: int)
    requires
        0 <= n <= digits.len(),
        forall|i: int| 0 <= i < digits.len() ==> spec_is_digit(#[trigger] digits[i]),
    ensures
        decimal_value(digits.take(n)) <= decimal_value(digits),
    decreases digits.len() - n,
{
    if n == digits.len() {
        assert(digits.take(n) =~= digits);
    } else {
        assert(digits.take(n + 1).drop_last() =~= digits.take(n));
        assert(digits.take(n + 1).last() == digits[n]);
        assert(spec_is_digit(digits[n]));
        lemma_decimal_value_prefix(digits, n + 1);
    }
}

/// The number of a decimal digit.
pub fn digit_of(c: char) -> (d: i64)
    requires
        spec_is_digit(c),
    ensures
        d == digit_value(c),
        0 <= d <= 9,
{
    (c as u32 - '0' as u32) as i64
}

/// Reads an integer literal. `None` where the text is not a non-empty
/// string of decimal digits, or the number does not fit in 64 bits.
pub fn parse_integer(text: &str) -> (value: Option<i64>)
    ensures
        match value {
            Some(v) => integer_literal_value(text@) == Some(v as int),
            None => integer_literal_value(text@) is None,
        },
{
    let digits = chars_of(text);
    if digits.len() == 0 {
        return None;
    }
    let mut total: i64 = 0;
    let mut i: usize = 0;
    assert(digits@.take(0) =~= Seq::<char>::empty());
    while i < digits.len()
        invariant
            i <= digits.len(),
            digits@ == text@,
            forall|k: int| 0 <= k < i ==> spec_is_digit(#[trigger] digits@[k]),
            0 <= total,
            total == decimal_value(digits@.take(i as int)),
        decreases digits.len() - i,
    {
        let c = digits[i];
        if !is_digit(c) {
            return None;
        }
        let d = digit_of(c);
        proof {
            assert(digits@.take(i + 1).drop_last() =~= digits@.take(i as int));
            assert(digits@.take(i + 1).last() == c);
        }
        let scaled = match total.checked_mul(10) {
            Some(scaled) => scaled,
            None => {
                proof {
                    if is_decimal(text@) {
                        lemma_decimal_value_prefix(digits@, i + 1);
                    }
                }
                return None;
            },
        };
        total = match scaled.checked_add(d) {
            Some(sum) => sum,
            None => {
                proof {
                    if is_decimal(text@) {
                        lemma_decimal_value_prefix(digits@, i + 1);
                    }
                }
                return None;
            },
        };
        i += 1;
    }
    assert(digits@.take(digits.len() as int) =~= digits@);
    Some(total)
}

} // verus!
