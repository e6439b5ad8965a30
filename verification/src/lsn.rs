//! Log sequence numbers: positions in the upstream write-ahead log.

use std::str::FromStr;
use tokio_postgres::types::PgLsn;
use vstd::prelude::*;

verus! {

/// The LSN that the upstream's textual form denotes, `None` where the text
/// is not such a form.
pub uninterp spec fn lsn_from_text(text: Seq<char>) -> Option<u64>;

/// Reads an LSN in the upstream's textual form with `PgLsn::from_str`. The
/// contract only names the outcome: it is a function of the text alone.
#[verifier::external_body]
pub(crate) fn parse_lsn(text: &str) -> (lsn: Option<u64>)
    ensures
        lsn == lsn_from_text(text@),
{
    PgLsn::from_str(text).ok().map(u64::from)
}

/// The character of a hexadecimal digit, in upper case.
pub open spec fn hex_digit_char(d: nat) -> char {
    if d == 0 {
        '0'
    } else if d == 1 {
        '1'
    } else if d == 2 {
        '2'
    } else if d == 3 {
        '3'
    } else if d == 4 {
        '4'
    } else if d == 5 {
        '5'
    } else if d == 6 {
        '6'
    } else if d == 7 {
        '7'
    } else if d == 8 {
        '8'
    } else if d == 9 {
        '9'
    } else if d == 10 {
        'A'
    } else if d == 11 {
        'B'
    } else if d == 12 {
        'C'
    } else if d == 13 {
        'D'
    } else if d == 14 {
        'E'
    } else {
        'F'
    }
}

/// A number in hexadecimal, most significant digit first, without padding.
pub open spec fn hex_text(n: nat) -> Seq<char>
    decreases n,
{
    if n < 16 {
        seq![hex_digit_char(n)]
    } else {
        hex_text(n / 16).push(hex_digit_char(n % 16))
    }
}

/// An LSN in the upstream's textual form: the upper and the lower 32 bits in
/// hexadecimal, with a slash between them.
pub open spec fn lsn_text(lsn: u64) -> Seq<char> {
    hex_text((lsn / 0x1_0000_0000) as nat) + seq!['/'] + hex_text((lsn % 0x1_0000_0000) as nat)
}

/// Writes an LSN in the upstream's textual form with the `Display` of
/// `PgLsn`, which formats the upper and the lower 32 bits with `{:X}` and
/// puts a slash between them.
#[verifier::external_body]
pub(crate) fn format_lsn(lsn: u64) -> (text: String)
    ensures
        text@ == lsn_text(lsn),
{
    PgLsn::from(lsn).to_string()
}

/// The frontier that follows `lsn`: the least position at which later data
/// can still arrive.
pub open spec fn frontier_after(lsn: u64) -> int {
    lsn + 1
}

/// Steps from a sealed LSN to the frontier behind it.
pub fn next_frontier(lsn: u64) -> (frontier: u64)
    requires
        lsn < u64::MAX,
    ensures
        frontier == frontier_after(lsn),
{
    lsn + 1
}

} // verus!
