//! Password hashing, left to bcrypt.

use vstd::prelude::*;
use bcrypt::{hash, verify, DEFAULT_COST};

verus! {

/// What holding a password against a stored bcrypt hash gives: whether the
/// two belong together, or nothing where the stored text is no bcrypt hash.
pub uninterp spec fn bcrypt_verdict(password: Seq<char>, stored: Seq<char>) -> Option<bool>;

/// Holds a password against a stored hash.
///
/// Calls `bcrypt::verify`. Trusted: the answer depends on the two texts
/// alone, which is all that the name [`bcrypt_verdict`] says; an error of
/// bcrypt comes back as `None`.
#[verifier::external_body]
pub(crate) fn verify_password(password: &str, stored: &str) -> (r: Option<bool>)
    ensures
        r == bcrypt_verdict(password@, stored@),
{
    match verify(password, stored) {
        Ok(matches) => Some(matches),
        Err(_) => None,
    }
}

/// Hashes a password with a fresh random salt at bcrypt's default cost.
///
/// Calls `bcrypt::hash`. The salt is drawn anew on every call, so the hash
/// itself is not named, and an error of bcrypt comes back as `None`.
/// Trusted: a hash that comes back belongs to the password, that is,
/// `bcrypt::verify` recomputes it from the cost and salt that the hash's
/// text carries and finds the two equal.
#[verifier::external_body]
pub(crate) fn hash_password(password: &str) -> (r: Option<String>)
    ensures
        r matches Some(hashed) ==> bcrypt_verdict(password@, hashed@) == Some(true),
{
    match hash(password, DEFAULT_COST) {
        Ok(hashed) => Some(hashed),
        Err(_) => None,
    }
}

} // verus!
