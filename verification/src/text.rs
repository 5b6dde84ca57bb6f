//! Text normalization for header matching, and rendering of non-text cells.
//!
//! Header comparison is case- and whitespace-insensitive: both sides are
//! uppercased and trimmed before they are compared. Uppercasing and trimming
//! follow Unicode rules, so both are delegated to std and their results are
//! only named here, never restated.

use vstd::prelude::*;

verus! {

/// The Unicode uppercase mapping of a character sequence.
pub uninterp spec fn upper_of(s: Seq<char>) -> Seq<char>;

/// Relies on `str::to_uppercase`: the result is the Unicode uppercase
/// mapping of the input and depends on the input characters alone.
#[verifier::external_body]
pub(crate) fn to_upper(s: &str) -> (r: String)
    ensures
        r@ == upper_of(s@),
{
    s.to_uppercase()
}

/// The input without its leading and trailing Unicode whitespace.
pub uninterp spec fn trim_of(s: Seq<char>) -> Seq<char>;

/// Relies on `str::trim`: the result is the input without leading and
/// trailing whitespace and depends on the input characters alone.
#[verifier::external_body]
pub(crate) fn trim_text(s: &str) -> (r: String)
    ensures
        r@ == trim_of(s@),
{
    s.trim().to_string()
}

/// The comparison key of a piece of header text: uppercase it, then trim it.
pub open spec fn norm_key(s: Seq<char>) -> Seq<char> {
    trim_of(upper_of(s))
}

/// Normalizes header text for comparison: uppercase, then trim.
pub fn normalize(s: &str) -> (r: String)
    ensures
        r@ == norm_key(s@),
{
    let u = to_upper(s);
    trim_text(u.as_str())
}

/// The decimal digits of a natural number, most significant first.
pub open spec fn dec_digits(n: nat) -> Seq<char>
    decreases n,
{
    let digits = seq!['0', '1', '2', '3', '4', '5', '6', '7', '8', '9'];
    if n < 10 {
        seq![digits[n as int]]
    } else {
        dec_digits((n / 10) as nat).push(digits[(n % 10) as int])
    }
}

/// The canonical decimal rendering of an integer: a leading `-` for negative
/// values, then the decimal digits without leading zeros.
pub open spec fn int_text(i: int) -> Seq<char> {
    if i < 0 {
        seq!['-'] + dec_digits((-i) as nat)
    } else {
        dec_digits(i as nat)
    }
}

/// Relies on `i64`'s `Display` implementation: it renders the value in
/// decimal, with a leading `-` for negative values and nothing else.
#[verifier::external_body]
pub(crate) fn int_to_text(d: i64) -> (r: String)
    ensures
        r@ == int_text(d as int),
{
    d.to_string()
}

} // verus!
