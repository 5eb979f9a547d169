//! Token codec behaviour: round trips, expiry, and each failure kind.

use delirium_auth::claims::{AccountClaims, RefreshClaims};
use delirium_auth::codec::{sign_access, sign_refresh, verify_access, verify_refresh};
use delirium_auth::config::Jwt;
use delirium_auth::error::AuthError;

fn test_cfg() -> Jwt {
    Jwt {
        secret: "shared-test-secret".to_owned(),
        subject: Some("delirium".to_owned()),
        audience: Some("players".to_owned()),
        time: 900,
        refresh_time: 604800,
    }
}

#[test]
fn access_round_trip() {
    let cfg = test_cfg();
    let claims = AccountClaims {
        aud: "players".to_owned(),
        sub: "delirium".to_owned(),
        iat: 1_700_000_000,
        exp: 1_700_000_900,
        aid: 42,
    };
    let token = sign_access(&cfg, &claims).unwrap();
    let decoded = verify_access(&cfg, &token, 1_700_000_100).unwrap();
    assert_eq!(decoded.aud, "players");
    assert_eq!(decoded.sub, "delirium");
    assert_eq!(decoded.iat, 1_700_000_000);
    assert_eq!(decoded.exp, 1_700_000_900);
    assert_eq!(decoded.aid(), 42);
}

#[test]
fn refresh_round_trip() {
    let cfg = test_cfg();
    let claims = RefreshClaims {
        aud: "players".to_owned(),
        sub: "delirium".to_owned(),
        iat: 1_700_000_000,
        exp: 1_700_604_800,
        rid: 0x0123_4567_89ab_cdef_0123_4567_89ab_cdef,
    };
    let token = sign_refresh(&cfg, &claims).unwrap();
    let decoded = verify_refresh(&cfg, &token, 1_700_000_100).unwrap();
    assert_eq!(decoded.aud, "players");
    assert_eq!(decoded.sub, "delirium");
    assert_eq!(decoded.iat, 1_700_000_000);
    assert_eq!(decoded.exp, 1_700_604_800);
    assert_eq!(decoded.rid(), 0x0123_4567_89ab_cdef_0123_4567_89ab_cdef);
}

#[test]
fn round_trip_with_unicode_subject() {
    let mut cfg = test_cfg();
    cfg.subject = Some("sujet numéro π".to_owned());
    cfg.audience = None;
    let claims = AccountClaims {
        aud: String::new(),
        sub: "sujet numéro π".to_owned(),
        iat: 10,
        exp: 20,
        aid: -7,
    };
    let token = sign_access(&cfg, &claims).unwrap();
    let decoded = verify_access(&cfg, &token, 15).unwrap();
    assert_eq!(decoded.sub, "sujet numéro π");
    assert_eq!(decoded.aid(), -7);
}

#[test]
fn token_has_three_segments() {
    let cfg = test_cfg();
    let claims = AccountClaims {
        aud: "players".to_owned(),
        sub: "delirium".to_owned(),
        iat: 1,
        exp: 2,
        aid: 1,
    };
    let token = sign_access(&cfg, &claims).unwrap();
    let segments: Vec<&str> = token.split('.').collect();
    assert_eq!(segments.len(), 3);
    assert_eq!(segments[0], "eyJhbGciOiJIUzI1NiIsInR5cCI6IkpXVCJ9");
}

#[test]
fn expired_token_fails_with_expired() {
    let cfg = test_cfg();
    let claims = AccountClaims {
        aud: "players".to_owned(),
        sub: "delirium".to_owned(),
        iat: 100,
        exp: 200,
        aid: 5,
    };
    let token = sign_access(&cfg, &claims).unwrap();
    assert!(matches!(verify_access(&cfg, &token, 200), Err(AuthError::Expired)));
    assert!(matches!(verify_access(&cfg, &token, 10_000), Err(AuthError::Expired)));
    assert!(verify_access(&cfg, &token, 199).is_ok());
}

#[test]
fn wrong_secret_fails_with_invalid_signature() {
    let cfg = test_cfg();
    let claims = AccountClaims {
        aud: "players".to_owned(),
        sub: "delirium".to_owned(),
        iat: 100,
        exp: 200,
        aid: 5,
    };
    let token = sign_access(&cfg, &claims).unwrap();
    let mut other = test_cfg();
    other.secret = "a-different-secret".to_owned();
    assert!(matches!(verify_access(&other, &token, 150), Err(AuthError::InvalidSignature)));
}

#[test]
fn tampered_token_is_rejected() {
    let cfg = test_cfg();
    let claims = AccountClaims {
        aud: "players".to_owned(),
        sub: "delirium".to_owned(),
        iat: 100,
        exp: 200,
        aid: 5,
    };
    let token = sign_access(&cfg, &claims).unwrap();
    let truncated = &token[..token.len() - 1];
    assert!(matches!(verify_access(&cfg, truncated, 150), Err(AuthError::InvalidSignature)));
    let mut extended = token.clone();
    extended.push('x');
    assert!(matches!(verify_access(&cfg, &extended, 150), Err(AuthError::InvalidSignature)));
}

#[test]
fn garbage_tokens_are_malformed() {
    let cfg = test_cfg();
    assert!(matches!(verify_access(&cfg, "", 0), Err(AuthError::TokenMalformed)));
    assert!(matches!(verify_access(&cfg, "abc", 0), Err(AuthError::TokenMalformed)));
    assert!(matches!(verify_access(&cfg, "a.b.c", 0), Err(AuthError::TokenMalformed)));
    assert!(matches!(verify_access(&cfg, "eyJhbGciOiJIUzI1NiIsInR5cCI6IkpXVCJ9", 0), Err(AuthError::TokenMalformed)));
    assert!(matches!(verify_access(&cfg, "eyJhbGciOiJIUzI1NiIsInR5cCI6IkpXVCJ9.???.sig", 0), Err(AuthError::TokenMalformed)));
}

#[test]
fn access_token_is_not_a_refresh_token() {
    let cfg = test_cfg();
    let claims = AccountClaims {
        aud: "players".to_owned(),
        sub: "delirium".to_owned(),
        iat: 100,
        exp: 200,
        aid: 5,
    };
    let token = sign_access(&cfg, &claims).unwrap();
    assert!(matches!(verify_refresh(&cfg, &token, 150), Err(AuthError::TokenMalformed)));
}

#[test]
fn subject_mismatch_detected() {
    let cfg = test_cfg();
    let claims = AccountClaims {
        aud: "players".to_owned(),
        sub: "someone else".to_owned(),
        iat: 100,
        exp: 200,
        aid: 5,
    };
    let token = sign_access(&cfg, &claims).unwrap();
    assert!(matches!(verify_access(&cfg, &token, 150), Err(AuthError::SubjectMismatch)));
}

#[test]
fn audience_mismatch_detected() {
    let cfg = test_cfg();
    let claims = AccountClaims {
        aud: "npcs".to_owned(),
        sub: "delirium".to_owned(),
        iat: 100,
        exp: 200,
        aid: 5,
    };
    let token = sign_access(&cfg, &claims).unwrap();
    assert!(matches!(verify_access(&cfg, &token, 150), Err(AuthError::AudienceMismatch)));
}

#[test]
fn unconfigured_subject_and_audience_accept_anything() {
    let mut cfg = test_cfg();
    cfg.subject = None;
    cfg.audience = None;
    let claims = AccountClaims {
        aud: "whatever".to_owned(),
        sub: "anyone".to_owned(),
        iat: 100,
        exp: 200,
        aid: 5,
    };
    let token = sign_access(&cfg, &claims).unwrap();
    assert!(verify_access(&cfg, &token, 150).is_ok());
}

#[test]
fn expiry_precedes_subject_and_audience_checks() {
    let cfg = test_cfg();
    let claims = AccountClaims {
        aud: "npcs".to_owned(),
        sub: "someone else".to_owned(),
        iat: 100,
        exp: 200,
        aid: 5,
    };
    let token = sign_access(&cfg, &claims).unwrap();
    assert!(matches!(verify_access(&cfg, &token, 300), Err(AuthError::Expired)));
}
