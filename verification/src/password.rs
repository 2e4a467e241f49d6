//! Checking a password against the hash that is kept for it.

use vstd::prelude::*;

verus! {

/// What the check of a password against a stored hash can object to.
#[derive(Debug, Copy, Clone, PartialEq, Eq, Structural)]
pub enum CheckError {
    /// The password does not hash to the stored value.
    HashMismatch,
    /// The stored value is not a hash in the expected format.
    InvalidFormat,
}

/// What `pbkdf2::pbkdf2_check` returns for a password and a stored hash.
pub uninterp spec fn pbkdf2_outcome(password: Seq<char>, hash: Seq<char>) -> Result<(), CheckError>;

/// Calls `pbkdf2::pbkdf2_check`, which parses `hashed_value`, hashes
/// `password` with the salt and the iteration count found in it, and
/// compares. Its body is not verified. All that is taken on trust is that
/// the result depends on the two strings alone, so that it can go by the
/// name above; nothing is claimed of which passwords pass.
#[verifier::external_body]
pub(crate) fn pbkdf2_check(password: &str, hashed_value: &str) -> (outcome: Result<(), CheckError>)
    ensures
        outcome == pbkdf2_outcome(password@, hashed_value@),
{
    match pbkdf2::pbkdf2_check(password, hashed_value) {
        Ok(()) => Ok(()),
        Err(pbkdf2::CheckError::HashMismatch) => Err(CheckError::HashMismatch),
        Err(pbkdf2::CheckError::InvalidFormat) => Err(CheckError::InvalidFormat),
    }
}

/// Whether a password is accepted, given what its check against the stored
/// hash said: only a check without objection lets a user in.
pub fn password_accepted(outcome: Result<(), CheckError>) -> (accepted: bool)
    ensures
        accepted == (outcome is Ok),
{
    outcome.is_ok()
}

} // verus!
