//! Calls into the outside crates that mint identifiers and handle passwords.
use vstd::prelude::*;
use argon2::password_hash::phc::PasswordHash;
use argon2::password_hash::{PasswordHasher, PasswordVerifier};
use argon2::Argon2;
use rand::rngs::SysRng;
use rand::TryRng;

verus! {

/// Whether argon2 accepts `password` against the stored PHC string `stored`.
pub uninterp spec fn password_matches(password: Seq<char>, stored: Seq<char>) -> bool;

/// Relies on rand's `SysRng::try_fill_bytes`, which reports a failure of
/// the system's random source as an error, and uuid's
/// `Builder::from_random_bytes`, which sets the version-4 and variant bits:
/// a random version-4 UUID as its 128-bit value, or `None` where the random
/// source failed.  Nothing is promised of the value.
#[verifier::external_body]
pub(crate) fn new_uuid() -> (r: Option<u128>) {
    let mut bytes = [0u8; 16];
    match SysRng.try_fill_bytes(&mut bytes) {
        Ok(()) => Some(uuid::Builder::from_random_bytes(bytes).into_uuid().as_u128()),
        Err(_) => None,
    }
}

/// Relies on argon2's `PasswordHasher::hash_password` with the default
/// parameters and a fresh random salt: the PHC string of the hash, or `None`
/// where hashing failed.  The string records the algorithm, version,
/// parameters, salt and output, and verifying recomputes the hash from exactly
/// those, so a returned string accepts the password it was made from.
#[verifier::external_body]
pub(crate) fn hash_password(password: &str) -> (r: Option<String>)
    ensures
        r matches Some(h) ==> password_matches(password@, h@),
{
    match Argon2::default().hash_password(password.as_bytes()) {
        Ok(h) => Some(h.to_string()),
        Err(_) => None,
    }
}

/// Relies on argon2's `PasswordHash::new` and `PasswordVerifier::verify_password`:
/// parses the stored PHC string and checks the password against it, with the
/// parameters the string records.  The answer depends on the two texts alone.
#[verifier::external_body]
pub(crate) fn verify_password(password: &str, stored: &str) -> (r: bool)
    ensures
        r == password_matches(password@, stored@),
{
    match PasswordHash::new(stored) {
        Ok(parsed) => Argon2::default().verify_password(password.as_bytes(), &parsed).is_ok(),
        Err(_) => false,
    }
}

} // verus!
