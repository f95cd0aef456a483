//! Verified core of an authentication session service.
//!
//! Accounts own revocable session tokens ("refresh tokens"); a short-lived
//! signed access credential is minted for authenticated requests.  The
//! aggregate state machine, the record store that keeps accounts and their
//! session records consistent, and the orchestrating services are verified;
//! password hashing, token-secret generation and credential signing are
//! performed by outside crates behind trusted wrappers.

pub mod access_token;
pub mod auth_service;
pub mod errors;
pub mod refresh_cookie;
pub mod repository;
pub mod token;
pub mod user;
pub mod user_service;
