//! Identifiers and the clock, from outside crates.
use vstd::prelude::*;

verus! {

/// Relies on `ulid::Ulid::new` and `u128::from(Ulid)`: a fresh identifier;
/// nothing is promised of its value.
#[verifier::external_body]
pub(crate) fn new_id() -> (r: u128) {
    u128::from(ulid::Ulid::new())
}

/// Relies on `chrono::Utc::now` and `DateTime::timestamp_millis`: the current
/// time in milliseconds since the Unix epoch; nothing is promised of its value.
#[verifier::external_body]
pub(crate) fn now_millis() -> (r: i64) {
    chrono::Utc::now().timestamp_millis()
}

/// What `uuid::Uuid::hyphenated` writes for the identifier.
pub uninterp spec fn hyphenated_of(id: u128) -> Seq<char>;

/// Relies on `uuid::Uuid::from_u128` and the `Display` of `Hyphenated`: the
/// identifier as 36 ASCII characters, hex digits grouped 8-4-4-4-12 by hyphens.
#[verifier::external_body]
pub(crate) fn hyphenated(id: u128) -> (r: String)
    ensures
        r@ == hyphenated_of(id),
        r@.len() == 36,
        r.is_ascii(),
{
    uuid::Uuid::from_u128(id).hyphenated().to_string()
}

} // verus!
