//! Reading integer tag values, such as ratings, for storage.

use vstd::prelude::*;

verus! {

pub open spec fn is_digit(c: char) -> bool {
    '0' <= c && c <= '9'
}

/// The value of a run of decimal digits.
pub open spec fn digits_value(s: Seq<char>) -> int
    decreases s.len(),
{
    if s.len() == 0 {
        0
    } else {
        digits_value(s.drop_last()) * 10 + (s.last() as int - '0' as int)
    }
}

/// The integer that `s` writes: an optional `+` or `-`, then one or more
/// decimal digits, and nothing else.
pub open spec fn integer_of(s: Seq<char>) -> Option<int> {
    let signed = s.len() > 0 && (s[0] == '+' || s[0] == '-');
    let digits = if signed { s.drop_first() } else { s };
    if digits.len() == 0 || !(forall|i: int| 0 <= i < digits.len() ==> is_digit(#[trigger] digits[i])) {
        None
    } else if signed && s[0] == '-' {
        Some(-digits_value(digits))
    } else {
        Some(digits_value(digits))
    }
}

pub open spec fn fits_i32(v: int) -> bool {
    i32::MIN <= v <= i32::MAX
}

/// Relies on `str::parse::<i32>` (`i32::from_str`), which accepts an optional
/// sign and decimal digits, and fails on anything else and on values out of range.
#[verifier::external_body]
fn parse_i32(s: &str) -> (r: Option<i32>)
    ensures
        match integer_of(s@) {
            Some(v) if fits_i32(v) => r == Some(v as i32),
            _ => r is None,
        },
{
    s.parse::<i32>().ok()
}

/// The integer that a tag value writes; 0 when there is no value or it is not
/// an integer that fits in an `i32`.
pub fn parse_to_number(o: Option<&String>) -> (r: i32)
    ensures
        match o {
            Some(n) => match integer_of(n@) {
                Some(v) if fits_i32(v) => r == v,
                _ => r == 0,
            },
            None => r == 0,
        },
{
    match o {
        Some(n) => match parse_i32(n.as_str()) {
            Some(v) => v,
            None => 0,
        },
        None => 0,
    }
}

} // verus!
