//! Service behaviour: registration, refresh, logout, and the
//! single-session policy, end to end with real randomness and clock.

use delirium_auth::bearer::{JwtAccountId, JwtRefreshId};
use delirium_auth::config::Jwt;
use delirium_auth::error::AuthError;
use delirium_auth::service;
use delirium_auth::time;

fn test_cfg() -> Jwt {
    Jwt {
        secret: "shared-test-secret".to_owned(),
        subject: Some("delirium".to_owned()),
        audience: Some("players".to_owned()),
        time: 900,
        refresh_time: 604800,
    }
}

fn rid_of(cfg: &Jwt, refresh_token: &str) -> u128 {
    JwtRefreshId::from_token(cfg, refresh_token).expect("valid refresh token").0.rid
}

fn aid_of(cfg: &Jwt, access_token: &str) -> i64 {
    JwtAccountId::from_token(cfg, access_token).expect("valid access token").0
}

/// Waits until the clock advances, so a newly signed token carries a
/// different issue instant.
fn wait_for_next_second() {
    let start = time::now();
    loop {
        if time::now() > start {
            return;
        }
    }
}

#[test]
fn end_to_end_register_refresh_logout() {
    let cfg = test_cfg();
    let mut svc = service::new();
    let (a1, r1) = svc.register(&cfg, 42).unwrap();
    assert_eq!(aid_of(&cfg, &a1), 42);
    let rid = rid_of(&cfg, &r1);
    wait_for_next_second();
    let a2 = svc.refresh(&cfg, rid).unwrap();
    assert_ne!(a1, a2);
    assert_eq!(aid_of(&cfg, &a2), 42);
    svc.unregister_token(rid);
    assert!(matches!(svc.refresh(&cfg, rid), Err(AuthError::SessionNotFound)));
}

#[test]
fn second_login_invalidates_first() {
    let cfg = test_cfg();
    let mut svc = service::new();
    let (_, r1) = svc.register(&cfg, 7).unwrap();
    let (_, r2) = svc.register(&cfg, 7).unwrap();
    let rid1 = rid_of(&cfg, &r1);
    let rid2 = rid_of(&cfg, &r2);
    assert_ne!(rid1, rid2);
    assert!(matches!(svc.refresh(&cfg, rid1), Err(AuthError::SessionNotFound)));
    assert!(svc.refresh(&cfg, rid2).is_ok());
}

#[test]
fn logout_then_refresh_fails_with_session_not_found() {
    let cfg = test_cfg();
    let mut svc = service::new();
    let (_, r1) = svc.register(&cfg, 3).unwrap();
    let rid = rid_of(&cfg, &r1);
    svc.unregister_token(rid);
    assert!(matches!(svc.refresh(&cfg, rid), Err(AuthError::SessionNotFound)));
}

#[test]
fn logout_is_idempotent() {
    let cfg = test_cfg();
    let mut svc = service::new();
    let (_, r1) = svc.register(&cfg, 3).unwrap();
    let rid = rid_of(&cfg, &r1);
    svc.unregister_token(rid);
    svc.unregister_token(rid);
    svc.unregister_token(999);
    assert!(matches!(svc.refresh(&cfg, rid), Err(AuthError::SessionNotFound)));
}

#[test]
fn repeated_logins_leave_one_session_per_account() {
    let cfg = test_cfg();
    let mut svc = service::new();
    for _ in 0..10 {
        svc.register(&cfg, 1).unwrap();
    }
    assert_eq!(svc.session_count(), 1);
    svc.register(&cfg, 2).unwrap();
    svc.register(&cfg, 3).unwrap();
    assert_eq!(svc.session_count(), 3);
}

#[test]
fn refresh_of_unknown_id_fails() {
    let cfg = test_cfg();
    let svc = service::new();
    assert!(matches!(svc.refresh(&cfg, 12345), Err(AuthError::SessionNotFound)));
}

#[test]
fn sessions_of_different_accounts_are_independent() {
    let cfg = test_cfg();
    let mut svc = service::new();
    let (_, ra) = svc.register(&cfg, 10).unwrap();
    let (_, rb) = svc.register(&cfg, 20).unwrap();
    let rid_a = rid_of(&cfg, &ra);
    let rid_b = rid_of(&cfg, &rb);
    svc.unregister_token(rid_a);
    assert!(matches!(svc.refresh(&cfg, rid_a), Err(AuthError::SessionNotFound)));
    let t = svc.refresh(&cfg, rid_b).unwrap();
    assert_eq!(aid_of(&cfg, &t), 20);
}

#[test]
fn refreshed_token_carries_registered_account() {
    let cfg = test_cfg();
    let mut svc = service::new();
    let (_, r1) = svc.register(&cfg, -99).unwrap();
    let rid = rid_of(&cfg, &r1);
    let access = svc.refresh(&cfg, rid).unwrap();
    assert_eq!(aid_of(&cfg, &access), -99);
}

#[test]
fn bearer_checkers_reject_bad_tokens() {
    let cfg = test_cfg();
    assert!(JwtAccountId::from_token(&cfg, "not a token").is_none());
    assert!(JwtRefreshId::from_token(&cfg, "not a token").is_none());
    let mut svc = service::new();
    let (a1, r1) = svc.register(&cfg, 8).unwrap();
    assert!(JwtAccountId::from_token(&cfg, &a1).is_some());
    assert!(JwtRefreshId::from_token(&cfg, &r1).is_some());
    assert!(JwtAccountId::from_token(&cfg, &r1).is_none());
    assert!(JwtRefreshId::from_token(&cfg, &a1).is_none());
    let kept = JwtRefreshId::from_token(&cfg, &r1).unwrap();
    assert_eq!(kept.0.refresh_token, r1);
}
