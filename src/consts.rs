use vstd::prelude::*;

verus! {

/// A pending registration accepts no more attempts once this many have failed.
pub const REGISTRATION_MAX_FAILED_ATTEMPTS: i64 = 5;

/// A registration code is valid for thirty minutes, in milliseconds.
pub const REGISTRATION_CODE_LIFETIME_MS: i64 = 1_800_000;

/// Bounds, in milliseconds, of the random pause before a registration attempt.
pub const SLEEP_MIN_MS: u64 = 500;

pub const SLEEP_MAX_MS: u64 = 1_500;

/// Largest accepted contact import payload, in bytes.
pub const MAX_IMPORT_CONTACTS_CSV_LENGTH: usize = 5_000_000;

pub const NAMESPACE_MIN_LENGTH: usize = 4;

pub const NAMESPACE_MAX_LENGTH: usize = 32;

pub const GROUP_NAME_MAX_LENGTH: usize = 64;

pub const GROUP_DESCRIPTION_MAX_LENGTH: usize = 350;

pub const EMAIL_MAX_LENGTH: usize = 256;

pub const CONTACT_NAME_MAX_LENGTH: usize = 128;

} // verus!
