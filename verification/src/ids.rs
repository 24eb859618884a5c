//! Fresh identifiers and the clock.

use vstd::prelude::*;

verus! {

/// Length of an identifier.
pub const ID_LEN: usize = 26;

/// The characters of Crockford's base 32: digits and upper-case letters
/// without I, L, O and U.
pub open spec fn is_id_char(c: char) -> bool {
    ('0' <= c && c <= '9') || ('A' <= c && c <= 'Z' && c != 'I' && c != 'L' && c != 'O' && c
        != 'U')
}

/// The shape of an identifier.
pub open spec fn is_id(s: Seq<char>) -> bool {
    s.len() == ID_LEN && forall|i: int| 0 <= i < s.len() ==> is_id_char(#[trigger] s[i])
}

/// A fresh identifier: `ulid::Ulid::new`, written out by its `to_string`.
///
/// The claim is the shape alone: 26 characters of Crockford's base 32. Which
/// identifier comes depends on the clock and on chance.
#[verifier::external_body]
pub(crate) fn fresh_id() -> (r: String)
    ensures
        is_id(r@),
{
    ulid::Ulid::new().to_string()
}

/// The time in nanoseconds of Unix time: `time::OffsetDateTime::now_utc` and
/// its `unix_timestamp_nanos`.
///
/// Nothing is claimed of what the clock says.
#[verifier::external_body]
pub(crate) fn unix_now() -> i128 {
    time::OffsetDateTime::now_utc().unix_timestamp_nanos()
}

} // verus!
