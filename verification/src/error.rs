//! Error taxonomy of the authentication core.

use vstd::prelude::*;

verus! {

/// Why an authentication operation failed.
///
/// The first six kinds are kept distinct for diagnostics even though an HTTP
/// boundary would collapse them into a single unauthorized outcome.
#[derive(Clone, Copy, Debug, PartialEq, Eq, Structural)]
pub enum AuthError {
    /// The refresh id is unknown: never issued, already revoked, or
    /// superseded by a newer login. Deliberately a single kind, so a caller
    /// cannot tell these cases apart.
    SessionNotFound,
    /// The token string cannot be decoded into claims.
    TokenMalformed,
    /// The token decodes, but its signature does not match the secret.
    InvalidSignature,
    /// The claims' expiry is not in the future.
    Expired,
    /// A subject is configured and the claims carry a different one.
    SubjectMismatch,
    /// An audience is configured and the claims carry a different one.
    AudienceMismatch,
    /// Producing a signed token failed; fatal, not retried.
    SigningFailure,
    /// The shared registry's lock was left in an inconsistent state; fatal.
    LockCorrupted,
}

impl AuthError {
    /// A short stable name of the error kind, for logs.
    pub fn name(&self) -> (r: &'static str)
        ensures
            self is SessionNotFound ==> r@ == "session not found"@,
            self is TokenMalformed ==> r@ == "token malformed"@,
            self is InvalidSignature ==> r@ == "invalid signature"@,
            self is Expired ==> r@ == "token expired"@,
            self is SubjectMismatch ==> r@ == "subject mismatch"@,
            self is AudienceMismatch ==> r@ == "audience mismatch"@,
            self is SigningFailure ==> r@ == "signing failure"@,
            self is LockCorrupted ==> r@ == "lock corrupted"@,
    {
        match self {
            AuthError::SessionNotFound => "session not found",
            AuthError::TokenMalformed => "token malformed",
            AuthError::InvalidSignature => "invalid signature",
            AuthError::Expired => "token expired",
            AuthError::SubjectMismatch => "subject mismatch",
            AuthError::AudienceMismatch => "audience mismatch",
            AuthError::SigningFailure => "signing failure",
            AuthError::LockCorrupted => "lock corrupted",
        }
    }
}

/// Why a request field was rejected.
pub enum ValidationError {
    Unknown,
    MinLength { field: &'static str, min: usize },
    MaxLength { field: &'static str, max: usize },
    Ascii { field: &'static str },
    Alphanumeric { field: &'static str },
    Pattern { field: &'static str, value: String },
    InvalidData,
    AccountAlreadyExists,
    EmailAlreadyExists,
    IndistinctPasswords,
    InvalidCurrentPassword,
    TooManyCharacters,
    PlayerAlreadyExists,
}

} // verus!
