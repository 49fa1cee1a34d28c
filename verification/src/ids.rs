//! Wrappers around the id generator and the clock.
//!
//! Every store and sync operation takes the identifier and the timestamp
//! it needs as plain arguments, so the logic is verified for every value
//! these wrappers could hand back.

use vstd::prelude::*;

verus! {

/// A lower-case hexadecimal digit, as the hyphenated UUID form uses.
pub open spec fn is_lower_hex_digit(c: char) -> bool {
    ('0' <= c && c <= '9') || ('a' <= c && c <= 'f')
}

/// Relies on uuid::Uuid::new_v4 and its Display impl: a fresh random
/// UUID rendered in the hyphenated lower-case form — 36 characters,
/// hyphens at positions 8, 13, 18 and 23, hex digits elsewhere.
/// Nothing else can be promised of a random identifier; callers that
/// need freshness test it against the store themselves.
#[verifier::external_body]
pub fn generate_id() -> (r: String)
    ensures
        r@.len() == 36,
        r@[8] == '-' && r@[13] == '-' && r@[18] == '-' && r@[23] == '-',
        forall|i: int|
            0 <= i < 36 && i != 8 && i != 13 && i != 18 && i != 23
                ==> is_lower_hex_digit(#[trigger] r@[i]),
{
    uuid::Uuid::new_v4().to_string()
}

/// Relies on chrono::Utc::now together with DateTime::timestamp: the
/// number of non-leap seconds since the Unix epoch.  The clock is
/// outside the proofs, so nothing is promised of the value; callers
/// compare it against the store's own clock before they use it.
#[verifier::external_body]
pub fn current_timestamp() -> (r: i64) {
    chrono::Utc::now().timestamp()
}

} // verus!
