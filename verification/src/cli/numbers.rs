//! Decimal integers in configuration and subset files.

use vstd::prelude::*;

verus! {

/// Whether every character is a decimal digit.
pub open spec fn all_digits(d: Seq<char>) -> bool {
    forall|i: int| 0 <= i < d.len() ==> '0' <= #[trigger] d[i] <= '9'
}

/// The value of a string of decimal digits.
pub open spec fn digits_value(d: Seq<char>) -> nat
    decreases d.len(),
{
    if d.len() == 0 {
        0
    } else {
        digits_value(d.drop_last()) * 10 + (d.last() as nat - '0' as nat) as nat
    }
}

/// The digits of an unsigned decimal: the text after an optional `+`.
pub open spec fn unsigned_digits(s: Seq<char>) -> Seq<char> {
    if s.len() > 0 && s[0] == '+' {
        s.drop_first()
    } else {
        s
    }
}

/// The value of an unsigned decimal (an optional `+`, then one or more
/// digits) that is at most `max`.
pub open spec fn unsigned_value(s: Seq<char>, max: nat) -> Option<nat> {
    let d = unsigned_digits(s);
    if d.len() > 0 && all_digits(d) && digits_value(d) <= max {
        Some(digits_value(d))
    } else {
        None
    }
}

/// The message of the error that parsing `s` as a `u64` reports.
pub uninterp spec fn u64_error_text(s: Seq<char>) -> Seq<char>;

/// The message of the error that parsing `s` as a `usize` reports.
pub uninterp spec fn usize_error_text(s: Seq<char>) -> Seq<char>;

/// Calls `u64::from_str`, which accepts an optional `+` followed by decimal
/// digits whose value fits, and renders its error with `to_string`.
#[verifier::external_body]
pub(crate) fn parse_u64(s: &str) -> (r: Result<u64, String>)
    ensures
        match r {
            Ok(n) => unsigned_value(s@, u64::MAX as nat) == Some(n as nat),
            Err(m) => unsigned_value(s@, u64::MAX as nat) is None && m@ == u64_error_text(s@),
        },
{
    s.parse::<u64>().map_err(|err| err.to_string())
}

/// Calls `usize::from_str`, which accepts an optional `+` followed by decimal
/// digits whose value fits, and renders its error with `to_string`.
#[verifier::external_body]
pub(crate) fn parse_usize(s: &str) -> (r: Result<usize, String>)
    ensures
        match r {
            Ok(n) => unsigned_value(s@, usize::MAX as nat) == Some(n as nat),
            Err(m) => unsigned_value(s@, usize::MAX as nat) is None && m@ == usize_error_text(s@),
        },
{
    s.parse::<usize>().map_err(|err| err.to_string())
}

} // verus!
