//! The closed error taxonomy shared by every component of the core.
//!
//! Every operation of the library returns either its value or exactly one of
//! these kinds; the boundary layer maps each kind to one outward status.

use vstd::prelude::*;

verus! {

/// The five failure kinds of the domain, each carrying a human-readable
/// message. No other kind exists.
#[derive(Debug, Clone, PartialEq, Eq)]
pub enum DomainError {
    /// A required input was missing or malformed at creation time.
    InvalidData(String),
    /// A referenced entity is absent.
    NotFound(String),
    /// A uniqueness rule (the user email) was violated.
    Conflict(String),
    /// An underlying storage or cryptographic operation failed unexpectedly.
    Infra(String),
    /// A credential was missing, malformed or expired, or an identity did
    /// not match the targeted resource.
    Unauthorized(String),
}

impl DomainError {
    /// The message carried by the error, whatever its kind.
    pub open spec fn message_view(&self) -> Seq<char> {
        match self {
            DomainError::InvalidData(s) => s@,
            DomainError::NotFound(s) => s@,
            DomainError::Conflict(s) => s@,
            DomainError::Infra(s) => s@,
            DomainError::Unauthorized(s) => s@,
        }
    }

    /// Borrow the human-readable message of the error.
    pub fn message(&self) -> (m: &String)
        ensures
            m@ == self.message_view(),
    {
        match self {
            DomainError::InvalidData(s) => s,
            DomainError::NotFound(s) => s,
            DomainError::Conflict(s) => s,
            DomainError::Infra(s) => s,
            DomainError::Unauthorized(s) => s,
        }
    }
}

} // verus!
