//! Credential manager: one-way password hashing and verification.
//!
//! Hashing draws a fresh random salt per call and derives a memory-hard
//! digest, so the same password encodes differently on every call, yet each
//! encoding verifies against the password it was made from. A wrong password
//! is an ordinary `false`; only a stored hash that cannot be checked at all
//! is an error.

use vstd::prelude::*;
use crate::response::ApiError;
use argon2::{PasswordHasher, PasswordVerifier};

verus! {

/// Whether argon2's check of `pw` against the PHC-encoded `stored` runs to a
/// digest comparison that succeeds: deterministic in the two arguments, since
/// the salt and parameters are embedded in `stored`.
pub uninterp spec fn credential_ok(pw: Seq<u8>, stored: Seq<char>) -> bool;

/// Whether that check runs to a digest comparison that fails: a checkable
/// stored hash, a wrong password. Also deterministic in the two arguments.
pub uninterp spec fn credential_rejected(pw: Seq<u8>, stored: Seq<char>) -> bool;

/// How one argon2 check of a password against a stored hash can end.
enum CredentialCheck {
    Match,
    Mismatch,
    Malformed,
}

/// Relies on argon2's `PasswordHash::new` and `Argon2::verify_password`:
/// parsing `stored` and re-deriving the digest from `pw` with the salt and
/// parameters embedded in it is a function of the two arguments alone. A
/// wrong password surfaces as `password_hash::Error::Password`; every other
/// failure means `stored` is not a hash this verifier can check.
#[verifier::external_body]
fn argon2_check(pw: &[u8], stored: &str) -> (r: CredentialCheck)
    ensures
        (r is Match) == credential_ok(pw@, stored@),
        (r is Mismatch) == credential_rejected(pw@, stored@),
{
    let parsed = match argon2::PasswordHash::new(stored) {
        Ok(h) => h,
        Err(_) => return CredentialCheck::Malformed,
    };
    match argon2::Argon2::default().verify_password(pw, &parsed) {
        Ok(()) => CredentialCheck::Match,
        Err(argon2::password_hash::Error::Password) => CredentialCheck::Mismatch,
        Err(_) => CredentialCheck::Malformed,
    }
}

/// Relies on argon2's `SaltString::generate` (16 bytes of OS randomness) and
/// `Argon2::hash_password`: whatever salt is drawn, the returned PHC string
/// is one that `Argon2::verify_password` accepts for `pw`.
#[verifier::external_body]
fn argon2_hash(pw: &[u8]) -> (r: Result<String, ()>)
    ensures
        r matches Ok(h) ==> credential_ok(pw@, h@),
{
    let salt = argon2::password_hash::SaltString::generate(&mut rand_core::OsRng);
    match argon2::Argon2::default().hash_password(pw, &salt) {
        Ok(h) => Ok(h.to_string()),
        Err(_) => Err(()),
    }
}

/// Hash a password under a fresh random salt, returning the encoded string
/// that bundles algorithm parameters, salt and digest. The encoding always
/// verifies against the password it was derived from.
pub fn hash_password(pw: &[u8]) -> (r: Result<String, ApiError>)
    ensures
        r matches Ok(h) ==> credential_ok(pw@, h@),
        r matches Err(e) ==> e is InternalServerError,
{
    match argon2_hash(pw) {
        Ok(h) => Ok(h),
        Err(()) => Err(
            ApiError::InternalServerError("password hashing failed".to_owned()),
        ),
    }
}

/// Check a password against a stored credential hash. `Ok(true)` exactly when
/// the password re-derives the stored digest; `Ok(false)` is a wrong
/// password; an error means the stored hash itself is malformed — an internal
/// inconsistency, deliberately distinct from a mismatch.
pub fn verify_password(pw: &[u8], stored: &str) -> (r: Result<bool, ApiError>)
    ensures
        r matches Ok(b) ==> b == credential_ok(pw@, stored@),
        r matches Ok(b) && !b ==> credential_rejected(pw@, stored@),
        r matches Err(e) ==> e is InternalServerError && !credential_ok(pw@, stored@)
            && !credential_rejected(pw@, stored@),
{
    match argon2_check(pw, stored) {
        CredentialCheck::Match => Ok(true),
        CredentialCheck::Mismatch => Ok(false),
        CredentialCheck::Malformed => Err(
            ApiError::InternalServerError("stored credential hash is malformed".to_owned()),
        ),
    }
}

} // verus!
