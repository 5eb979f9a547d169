//! Authentication and session core of a game-account backend.
//!
//! Three components compose bottom-up: a token codec that signs and verifies
//! time-bounded claim sets for two token kinds with a shared secret, an
//! in-memory session registry that maps each live refresh id to its account
//! and enforces a single active session per account, and a service that
//! combines the two into register, refresh and logout operations.

pub mod base64url;
pub mod bearer;
pub mod claims;
pub mod codec;
pub mod config;
pub mod error;
pub mod hex;
pub mod registry;
pub mod service;
pub mod time;
pub mod validation;
