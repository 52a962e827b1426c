//! Identity and access-control core of a bounty/issue-tracking service.
//!
//! The crate holds the verified domain logic: the closed error taxonomy,
//! the entity records and their business rules, password credential
//! handling, stateless session-token issuance and validation, the
//! authorization guard, and the per-entity usecases over an abstract
//! persistence interface.

pub mod credential;
pub mod domain_error;
pub mod guard;
mod ids;
pub mod issue;
pub mod project;
pub mod strutil;
pub mod token;
pub mod user;

pub use domain_error::DomainError;
