//! Bearer-token extraction: what the HTTP boundary asks the core once it
//! has pulled a raw token string out of a request.
//!
//! Each checker verifies the token against the configuration at the
//! current instant and hands back the identity the claims carry. Every
//! reason a token might be bad collapses to `None` here; the distinct
//! error kinds are for diagnostics below this boundary.

use vstd::prelude::*;

use crate::codec::{verify_access, verify_access_spec, verify_refresh, verify_refresh_spec};
use crate::config::{Jwt, JwtView};

verus! {

/// Marks an endpoint whose failures are traced: a client error passes
/// through unchanged, while any other failure is logged and replaced by
/// its bare status, so internals do not leak to the caller.
pub struct TraceError;

impl TraceError {
    /// Whether an error response with this status must be scrubbed and
    /// logged rather than passed through: exactly the non-client errors.
    pub fn scrub(status: u16) -> (r: bool)
        ensures
            r <==> !(400 <= status < 500),
    {
        !(400 <= status && status < 500)
    }
}

/// The grouping of the boundary's endpoints.
pub enum Tags {
    Account,
    Character,
    Highscores,
    Online,
    Deaths,
    Validation,
}

/// An account identity proven by a valid access token.
pub struct JwtAccountId(pub i64);

impl From<JwtAccountId> for i64 {
    fn from(value: JwtAccountId) -> (r: i64) {
        value.0
    }
}

impl vstd::std_specs::convert::FromSpecImpl<JwtAccountId> for i64 {
    open spec fn obeys_from_spec() -> bool {
        true
    }

    open spec fn from_spec(v: JwtAccountId) -> i64 {
        v.0
    }
}

/// What a refresh-token bearer carries: the refresh id the claims embed,
/// and the raw token itself, which the caller hands back unchanged.
pub struct JwtRefreshIdData {
    pub rid: u128,
    pub refresh_token: String,
}

/// A session identity proven by a valid refresh token.
pub struct JwtRefreshId(pub JwtRefreshIdData);

/// What checking an access bearer at one instant yields: on success the
/// account the verified claims carry; nothing exactly when verification
/// fails at that instant.
pub open spec fn access_check(
    cfg: JwtView,
    token: Seq<char>,
    at: u64,
    r: Option<JwtAccountId>,
) -> bool {
    match r {
        Some(j) => verify_access_spec(cfg, vstd::utf8::encode_utf8(token), at) matches Ok(c)
            && c.aid == j.0,
        None => verify_access_spec(cfg, vstd::utf8::encode_utf8(token), at) is Err,
    }
}

/// What checking a refresh bearer at one instant yields: on success the
/// refresh id the verified claims carry, with the raw token kept; nothing
/// exactly when verification fails at that instant.
pub open spec fn refresh_check(
    cfg: JwtView,
    token: Seq<char>,
    at: u64,
    r: Option<JwtRefreshId>,
) -> bool {
    match r {
        Some(j) => j.0.refresh_token@ == token && (verify_refresh_spec(
            cfg,
            vstd::utf8::encode_utf8(token),
            at,
        ) matches Ok(c) && c.rid == j.0.rid),
        None => verify_refresh_spec(cfg, vstd::utf8::encode_utf8(token), at) is Err,
    }
}

impl JwtAccountId {
    /// Checks a bearer access token at the current instant; yields the
    /// account id its claims carry exactly if it verifies then.
    pub fn from_token(cfg: &Jwt, token: &str) -> (r: Option<JwtAccountId>)
        ensures
            exists|at: u64| #[trigger] access_check(cfg@, token@, at, r),
    {
        let at = crate::time::now();
        let r = match verify_access(cfg, token, at) {
            Ok(c) => Some(JwtAccountId(c.aid())),
            Err(_) => None,
        };
        proof {
            assert(access_check(cfg@, token@, at, r));
        }
        r
    }
}

impl JwtRefreshId {
    /// Checks a bearer refresh token at the current instant; yields the
    /// refresh id its claims carry, with the raw token, exactly if it
    /// verifies then.
    pub fn from_token(cfg: &Jwt, token: &str) -> (r: Option<JwtRefreshId>)
        ensures
            exists|at: u64| #[trigger] refresh_check(cfg@, token@, at, r),
    {
        let at = crate::time::now();
        let r = match verify_refresh(cfg, token, at) {
            Ok(c) => Some(
                JwtRefreshId(JwtRefreshIdData { rid: c.rid(), refresh_token: token.to_owned() }),
            ),
            Err(_) => None,
        };
        proof {
            assert(refresh_check(cfg@, token@, at, r));
        }
        r
    }
}

} // verus!
