//! Reading a field or a literal as an integer.
//!
//! An integer is written as an optional sign, `+` or `-`, and then one or more decimal
//! digits. Nothing may stand before, between or after them, and the number must fit in
//! 32 bits with a sign.

use vstd::prelude::*;

verus! {

/// Whether `c` is one of `0` to `9`.
pub open spec fn is_digit(c: char) -> bool {
    '0' <= c && c <= '9'
}

/// The number that the digit `c` stands for.
pub open spec fn digit_value(c: char) -> int {
    c as int - '0' as int
}

/// Whether `text` holds digits only.
pub open spec fn all_digits(text: Seq<char>) -> bool {
    forall|i: int| 0 <= i < text.len() ==> is_digit(#[trigger] text[i])
}

/// The number that a run of digits stands for, read in base ten.
pub open spec fn digits_value(digits: Seq<char>) -> int
    decreases digits.len(),
{
    if digits.len() == 0 {
        0
    } else {
        digits_value(digits.drop_last()) * 10 + digit_value(digits.last())
    }
}

/// Whether `text` begins with a minus sign.
pub open spec fn is_negative(text: Seq<char>) -> bool {
    text.len() > 0 && text[0] == '-'
}

/// `text` without its sign, where it has one.
pub open spec fn unsigned_part(text: Seq<char>) -> Seq<char> {
    if text.len() > 0 && (text[0] == '-' || text[0] == '+') {
        text.drop_first()
    } else {
        text
    }
}

/// The integer that `text` is, or `None` where it is none that fits in 32 bits.
pub open spec fn parse_int(text: Seq<char>) -> Option<int> {
    let digits = unsigned_part(text);
    let value = if is_negative(text) {
        -digits_value(digits)
    } else {
        digits_value(digits)
    };
    if digits.len() > 0 && all_digits(digits) && i32::MIN <= value <= i32::MAX {
        Some(value)
    } else {
        None
    }
}

/// A run of digits stands for no negative number, and grows with every digit added.
pub proof fn lemma_digits_value_grows(digits: Seq<char>, c: char)
    requires
        all_digits(digits),
        is_digit(c),
    ensures
        0 <= digits_value(digits),
        digits_value(digits.push(c)) == digits_value(digits) * 10 + digit_value(c),
        digits_value(digits) <= digits_value(digits.push(c)),
    decreases digits.len(),
{
    assert(digits.push(c).drop_last() =~= digits);
    if digits.len() > 0 {
        let shorter = digits.drop_last();
        assert forall|i: int| 0 <= i < shorter.len() implies is_digit(#[trigger] shorter[i]) by {
            assert(shorter[i] == digits[i]);
        }
        assert(is_digit(digits[digits.len() - 1]));
        lemma_digits_value_grows(shorter, digits.last());
        assert(shorter.push(digits.last()) =~= digits);
    }
}

/// Reads `text` as an integer.
pub fn parse_i32(text: &str) -> (number: Option<i32>)
    ensures
        match number {
            Some(value) => parse_int(text@) == Some(value as int),
            None => parse_int(text@) is None,
        },
{
    let mut first = true;
    let mut negative = false;
    let mut valid = true;
    let mut any_digit = false;
    let mut too_large = false;
    let mut magnitude: i64 = 0;
    for c in it: text.chars()
        invariant
            it.seq() == text@,
            first == (it.index() == 0),
            negative == is_negative(text@.take(it.index() as int)),
            valid == all_digits(unsigned_part(text@.take(it.index() as int))),
            any_digit == (unsigned_part(text@.take(it.index() as int)).len() > 0),
            valid && !too_large ==> magnitude == digits_value(
                unsigned_part(text@.take(it.index() as int)),
            ),
            valid && too_large ==> digits_value(unsigned_part(text@.take(it.index() as int)))
                > 0x8000_0000,
            0 <= magnitude <= 0x8000_0000,
    {
        let ghost done = it.index() as int;
        let ghost seen = text@.take(done);
        let ghost longer = text@.take(done + 1);
        let ghost digits = unsigned_part(seen);
        proof {
            assert(longer.drop_last() =~= seen);
            assert(longer.last() == c);
            if done > 0 {
                assert(longer[0] == seen[0]);
                assert(unsigned_part(longer) =~= digits.push(c));
            } else {
                assert(seen =~= Seq::empty());
                assert(longer =~= seq![c]);
                if c == '-' || c == '+' {
                    assert(unsigned_part(longer) =~= Seq::empty());
                } else {
                    assert(unsigned_part(longer) =~= digits.push(c));
                }
            }
        }
        if first && (c == '-' || c == '+') {
            negative = c == '-';
        } else if '0' <= c && c <= '9' {
            proof {
                if valid {
                    lemma_digits_value_grows(digits, c);
                }
                assert forall|i: int| 0 <= i < digits.push(c).len() implies is_digit(
                    #[trigger] digits.push(c)[i],
                ) == (i == digits.len() || is_digit(digits[i])) by {}
                assert(all_digits(digits.push(c)) == valid) by {
                    if valid {
                        assert forall|i: int| 0 <= i < digits.push(c).len() implies is_digit(
                            #[trigger] digits.push(c)[i],
                        ) by {
                            if i < digits.len() {
                                assert(is_digit(digits[i]));
                            }
                        }
                    } else {
                        let k = choose|k: int| 0 <= k < digits.len() && !is_digit(digits[k]);
                        assert(digits.push(c)[k] == digits[k]);
                    }
                }
            }
            any_digit = true;
            if !too_large {
                let digit = (c as u32 - '0' as u32) as i64;
                let next = magnitude * 10 + digit;
                if next > 0x8000_0000 {
                    too_large = true;
                } else {
                    magnitude = next;
                }
            }
        } else {
            proof {
                assert(!is_digit(digits.push(c)[digits.len() as int]));
            }
            valid = false;
            any_digit = true;
        }
        first = false;
    }
    proof {
        assert(text@.take(text@.len() as int) =~= text@);
    }
    if !valid || !any_digit || too_large {
        None
    } else if negative {
        Some((-magnitude) as i32)
    } else if magnitude <= 0x7fff_ffff {
        Some(magnitude as i32)
    } else {
        None
    }
}

} // verus!
