//! The credential manager: one-way password hashing and verification.

use vstd::prelude::*;
use crate::domain_error::DomainError;

verus! {

/// Whether `password` matches the salted digest `hash`, as bcrypt's
/// verification decides it. The digest embeds its own salt and cost
/// parameters, so the outcome depends on the two arguments alone.
pub uninterp spec fn password_matches(password: Seq<char>, hash: Seq<char>) -> bool;

/// The fixed shape of a bcrypt digest string: sixty characters opening with
/// the `$2` version tag. No plaintext of another shape can collide with a
/// stored digest.
pub open spec fn is_bcrypt_digest(s: Seq<char>) -> bool {
    s.len() == 60 && s[0] == '$' && s[1] == '2'
}

/// Relies on bcrypt::hash: it produces a salted, adaptive-cost digest of the
/// password, formatted as the fixed sixty-character `$2b` hash string, and
/// bcrypt::verify accepts that digest for that same password.
#[verifier::external_body]
pub(crate) fn hash_password(password: &str) -> (r: Result<String, DomainError>)
    ensures
        r matches Ok(h) ==> password_matches(password@, h@) && is_bcrypt_digest(h@),
        r matches Err(e) ==> e matches DomainError::Infra(_),
{
    match bcrypt::hash(password, bcrypt::DEFAULT_COST) {
        Ok(h) => Ok(h),
        Err(e) => Err(DomainError::Infra(format!("Error hashing password: {:?}", e))),
    }
}

/// Relies on bcrypt::verify: it recomputes the digest with the salt and cost
/// embedded in `hash` and reports whether it matches; a wrong password yields
/// `false`, and only a malformed digest yields an error.
#[verifier::external_body]
pub(crate) fn verify_password(password: &str, hash: &str) -> (r: Result<bool, DomainError>)
    ensures
        r matches Ok(b) ==> b == password_matches(password@, hash@),
        r matches Err(e) ==> e matches DomainError::Infra(_),
{
    match bcrypt::verify(password, hash) {
        Ok(b) => Ok(b),
        Err(e) => Err(DomainError::Infra(format!("Error verifying password: {:?}", e))),
    }
}

} // verus!
