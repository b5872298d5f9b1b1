use vstd::prelude::*;
use crate::lex::{byte_at, is_digit, DOT, LOWER_E, MINUS, PLUS, UPPER_E};

verus! {

/// The end of the run of decimal digits that starts at `i`.
pub open spec fn digit_end(t: Seq<u8>, i: int) -> int
    decreases t.len() - i,
{
    if 0 <= i < t.len() && is_digit(t[i]) {
        digit_end(t, i + 1)
    } else {
        i
    }
}

proof fn lemma_digit_end(t: Seq<u8>, i: int)
    requires
        0 <= i,
    ensures
        i <= digit_end(t, i),
        i <= t.len() ==> digit_end(t, i) <= t.len(),
    decreases t.len() - i,
{
    if 0 <= i < t.len() && is_digit(t[i]) {
        lemma_digit_end(t, i + 1);
    }
}

/// A number never reaches past the end of the text.
proof fn lemma_float_within(t: Seq<u8>)
    ensures
        float_rule(t) matches Some(n) ==> 0 < n <= t.len(),
{
    let a = if sign_at(t, 0) { 1int } else { 0int };
    lemma_digit_end(t, a);
    let d = digit_end(t, a);
    lemma_digit_end(t, d + 1);
    lemma_digit_end(t, a + 1);
    if let Some(m) = mantissa_end(t, a) {
        let b = if sign_at(t, m + 1) { m + 2 } else { m + 1 };
        lemma_digit_end(t, b);
    }
}

pub open spec fn sign_at(t: Seq<u8>, i: int) -> bool {
    byte_at(t, i, PLUS) || byte_at(t, i, MINUS)
}

/// The end of the mantissa of a number that starts at `a` (after its sign):
/// digits with an optional `.` and optional fraction digits, or `.` and digits.
pub open spec fn mantissa_end(t: Seq<u8>, a: int) -> Option<int> {
    let d = digit_end(t, a);
    if d > a {
        if byte_at(t, d, DOT) {
            Some(digit_end(t, d + 1))
        } else {
            Some(d)
        }
    } else if byte_at(t, a, DOT) && digit_end(t, a + 1) > a + 1 {
        Some(digit_end(t, a + 1))
    } else {
        None
    }
}

/// The length of the decimal number at the start of `t`: an optional sign, a
/// mantissa and an optional exponent (`e` or `E`, an optional sign, digits).
/// An exponent marker with no digits after it spoils the number.
pub open spec fn float_rule(t: Seq<u8>) -> Option<int> {
    let a = if sign_at(t, 0) { 1int } else { 0int };
    match mantissa_end(t, a) {
        Some(m) => if byte_at(t, m, LOWER_E) || byte_at(t, m, UPPER_E) {
            let b = if sign_at(t, m + 1) { m + 2 } else { m + 1 };
            if digit_end(t, b) > b {
                Some(digit_end(t, b))
            } else {
                None
            }
        } else {
            Some(m)
        },
        None => None,
    }
}

/// Relies on nom::number::complete::recognize_float over bytes: it recognizes the
/// number that `float_rule` describes at the start of `t`, and fails (with an
/// error or a failure) where there is none.
#[verifier::external_body]
fn recognize_number(t: &[u8]) -> (r: Option<usize>)
    ensures
        match r {
            Some(n) => float_rule(t@) == Some(n as int),
            None => float_rule(t@) is None,
        },
{
    match nom::number::complete::recognize_float::<&[u8], nom::error::Error<&[u8]>>(t) {
        Ok((_, num)) => Some(num.len()),
        Err(_) => None,
    }
}

/// A decimal number at `i`, integer or floating-point. Gives its end.
pub open spec fn number_rule(s: Seq<u8>, i: int) -> Option<int> {
    if 0 <= i <= s.len() {
        match float_rule(s.subrange(i, s.len() as int)) {
            Some(n) => Some(i + n),
            None => None,
        }
    } else {
        None
    }
}

/// Recognizes a decimal number at `i` and gives the position after it.
pub fn number(s: &[u8], i: usize) -> (r: Option<usize>)
    requires
        i <= s@.len(),
    ensures
        match r {
            Some(j) => number_rule(s@, i as int) == Some(j as int),
            None => number_rule(s@, i as int) is None,
        },
{
    let rest = vstd::slice::slice_subrange(s, i, s.len());
    let r = recognize_number(rest);
    proof {
        lemma_float_within(rest@);
    }
    match r {
        Some(n) => Some(i + n),
        None => None,
    }
}

} // verus!
