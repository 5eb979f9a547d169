//! The authentication service: registration, refresh and logout, built
//! from the session registry and the token codec.
//!
//! Per account the conceptual session states are anonymous, then active
//! under a refresh id, then anonymous again; a second login moves straight
//! to a new refresh id and silently invalidates the old one. The embedding
//! application serializes calls that mutate the service, so each operation
//! is one atomic step of the shared registry.

use vstd::prelude::*;

use crate::claims::{AccountClaims, AccountClaimsView, RefreshClaims, RefreshClaimsView};
use crate::codec::{access_token_bytes, key_of, refresh_token_bytes, sign_access, sign_refresh,
    verify_access_spec, subject_ok, audience_ok, lemma_sign_verify_round_trip_access};
use crate::config::{Jwt, JwtView};
use crate::error::AuthError;
use crate::registry::{without_account, SessionRegistry};

verus! {

/// The configured string, or empty where none is configured.
pub open spec fn or_empty(s: Option<Seq<char>>) -> Seq<char> {
    match s {
        Some(v) => v,
        None => Seq::empty(),
    }
}

/// The access claims the service signs at a given instant.
pub open spec fn access_claims_of(cfg: JwtView, aid: i64, at: u64) -> AccountClaimsView {
    AccountClaimsView {
        aud: or_empty(cfg.audience),
        sub: or_empty(cfg.subject),
        iat: at,
        exp: (at + cfg.time) as u64,
        aid,
    }
}

/// The refresh claims the service signs at a given instant.
pub open spec fn refresh_claims_of(cfg: JwtView, rid: u128, at: u64) -> RefreshClaimsView {
    RefreshClaimsView {
        aud: or_empty(cfg.audience),
        sub: or_empty(cfg.subject),
        iat: at,
        exp: (at + cfg.refresh_time) as u64,
        rid,
    }
}

/// One registration step: the refresh id was not live before, and the map
/// afterwards is the map before with the account's old session evicted and
/// the new id added.
pub open spec fn register_step(m0: Map<u128, i64>, m1: Map<u128, i64>, rid: u128, aid: i64) -> bool {
    &&& !m0.contains_key(rid)
    &&& m1 == without_account(m0, aid).insert(rid, aid)
}

/// An access token string signed for the account at the given instant.
pub open spec fn issued_access(cfg: JwtView, aid: i64, at: u64, tok: Seq<char>) -> bool {
    &&& at + cfg.time <= u64::MAX
    &&& vstd::utf8::encode_utf8(tok) == access_token_bytes(
        access_claims_of(cfg, aid, at),
        key_of(cfg.secret),
    )
}

/// A token pair signed at one instant: an access token for the account and
/// a refresh token for the refresh id.
pub open spec fn issued_pair(
    cfg: JwtView,
    aid: i64,
    rid: u128,
    at: u64,
    acc: Seq<char>,
    rt: Seq<char>,
) -> bool {
    &&& issued_access(cfg, aid, at, acc)
    &&& at + cfg.refresh_time <= u64::MAX
    &&& vstd::utf8::encode_utf8(rt) == refresh_token_bytes(
        refresh_claims_of(cfg, rid, at),
        key_of(cfg.secret),
    )
}

/// The result of one registration at one instant: success exactly when
/// both token lifetimes fit the clock, and on success the pair is the one
/// signed at that instant.
pub open spec fn register_outcome(
    cfg: JwtView,
    aid: i64,
    rid: u128,
    at: u64,
    r: Result<(String, String), AuthError>,
) -> bool {
    &&& (r is Ok <==> at + cfg.time <= u64::MAX && at + cfg.refresh_time <= u64::MAX)
    &&& (r matches Ok(p) ==> issued_pair(cfg, aid, rid, at, p.0@, p.1@))
    &&& (r matches Err(e) ==> e == AuthError::SigningFailure)
}

/// The result of one refresh of a live id at one instant: success exactly
/// when the access lifetime fits the clock, and on success the token is
/// the one signed at that instant for the id's account.
pub open spec fn refresh_outcome(cfg: JwtView, aid: i64, at: u64, r: Result<
    String,
    AuthError,
>) -> bool {
    &&& (r is Ok <==> at + cfg.time <= u64::MAX)
    &&& (r matches Ok(t) ==> issued_access(cfg, aid, at, t@))
    &&& (r matches Err(e) ==> e == AuthError::SigningFailure)
}

/// Whether a map holds at most one live refresh id per account.
pub open spec fn single_session(m: Map<u128, i64>) -> bool {
    forall|r1: u128, r2: u128|
        m.contains_key(r1) && m.contains_key(r2) && #[trigger] m[r1] == #[trigger] m[r2] ==> r1
            == r2
}

/// The authentication service. Its view is the registry's map from live
/// refresh ids to accounts.
pub struct Service {
    registry: SessionRegistry,
}

impl View for Service {
    type V = Map<u128, i64>;

    closed spec fn view(&self) -> Map<u128, i64> {
        self.registry@
    }
}

/// A service with an empty registry.
pub fn new() -> (s: Service)
    ensures
        s.wf(),
        s@ == Map::<u128, i64>::empty(),
{
    Service { registry: SessionRegistry::new() }
}

impl Service {
    /// The internal registry invariant.
    pub closed spec fn wf(&self) -> bool {
        self.registry.wf()
    }

    /// Signs a fresh access token for an account at an instant. Succeeds
    /// exactly when the lifetime fits the clock.
    fn issue_access_token(&self, cfg: &Jwt, aid: i64, at: u64) -> (r: Result<String, AuthError>)
        ensures
            r is Ok <==> at + cfg@.time <= u64::MAX,
            r matches Ok(t) ==> vstd::utf8::encode_utf8(t@) == access_token_bytes(
                access_claims_of(cfg@, aid, at),
                key_of(cfg@.secret),
            ),
            r matches Err(e) ==> e == AuthError::SigningFailure,
    {
        let exp = match at.checked_add(cfg.time) {
            Some(e) => e,
            None => {
                return Err(AuthError::SigningFailure);
            },
        };
        let aud = match &cfg.audience {
            Some(a) => a.clone(),
            None => String::new(),
        };
        let sub = match &cfg.subject {
            Some(s) => s.clone(),
            None => String::new(),
        };
        let c = AccountClaims { aud, sub, iat: at, exp, aid };
        proof {
            assert(c@ == access_claims_of(cfg@, aid, at));
        }
        sign_access(cfg, &c)
    }

    /// Registers a login: issues a fresh refresh id for the account,
    /// evicting any previous session, and signs an access and a refresh
    /// token carrying the same issue instant. Fails exactly when a token
    /// lifetime added to that instant overflows the clock; the new
    /// session is registered either way.
    pub fn register(&mut self, cfg: &Jwt, aid: i64) -> (r: Result<(String, String), AuthError>)
        requires
            old(self).wf(),
        ensures
            final(self).wf(),
            r matches Err(e) ==> e == AuthError::SigningFailure,
            exists|rid: u128|
                #[trigger] register_step(old(self)@, final(self)@, rid, aid) && exists|at: u64|
                    #[trigger] register_outcome(cfg@, aid, rid, at, r),
    {
        let rid = self.registry.issue(aid);
        proof {
            assert(register_step(old(self)@, self@, rid, aid));
        }
        let at = crate::time::now();
        let token = match self.issue_access_token(cfg, aid, at) {
            Ok(t) => t,
            Err(e) => {
                let result: Result<(String, String), AuthError> = Err(e);
                proof {
                    lemma_register_exists(old(self)@, self@, cfg@, aid, rid, at, result);
                }
                return result;
            },
        };
        let exp = match at.checked_add(cfg.refresh_time) {
            Some(e) => e,
            None => {
                let result: Result<(String, String), AuthError> = Err(
                    AuthError::SigningFailure,
                );
                proof {
                    lemma_register_exists(old(self)@, self@, cfg@, aid, rid, at, result);
                }
                return result;
            },
        };
        let aud = match &cfg.audience {
            Some(a) => a.clone(),
            None => String::new(),
        };
        let sub = match &cfg.subject {
            Some(s) => s.clone(),
            None => String::new(),
        };
        let rc = RefreshClaims { aud, sub, iat: at, exp, rid };
        proof {
            assert(rc@ == refresh_claims_of(cfg@, rid, at));
        }
        let refresh_token = match sign_refresh(cfg, &rc) {
            Ok(t) => t,
            Err(e) => {
                let result: Result<(String, String), AuthError> = Err(e);
                proof {
                    lemma_register_exists(old(self)@, self@, cfg@, aid, rid, at, result);
                }
                return result;
            },
        };
        let result: Result<(String, String), AuthError> = Ok((token, refresh_token));
        proof {
            assert(issued_pair(cfg@, aid, rid, at, token@, refresh_token@));
            lemma_register_exists(old(self)@, self@, cfg@, aid, rid, at, result);
        }
        result
    }

    /// Logs a session out: the refresh id is dead afterwards. Idempotent;
    /// revoking an unknown id is not an error.
    pub fn unregister_token(&mut self, rid: u128)
        requires
            old(self).wf(),
        ensures
            final(self).wf(),
            final(self)@ == old(self)@.remove(rid),
    {
        self.registry.revoke(rid);
    }

    /// Exchanges a live refresh id for a fresh access token of its
    /// account. Fails with the session error exactly when the id is not
    /// live: never issued, revoked, or superseded by a newer login. The
    /// refresh id itself is not rotated.
    pub fn refresh(&self, cfg: &Jwt, rid: u128) -> (r: Result<String, AuthError>)
        ensures
            !self@.contains_key(rid) <==> r == Err::<String, AuthError>(
                AuthError::SessionNotFound,
            ),
            self@.contains_key(rid) ==> exists|at: u64|
                #[trigger] refresh_outcome(cfg@, self@[rid], at, r),
            r matches Err(e) ==> e == AuthError::SessionNotFound || e
                == AuthError::SigningFailure,
    {
        let aid = match self.registry.lookup(rid) {
            Some(a) => a,
            None => {
                return Err(AuthError::SessionNotFound);
            },
        };
        let at = crate::time::now();
        let r = self.issue_access_token(cfg, aid, at);
        proof {
            assert(self@[rid] == aid);
            assert(refresh_outcome(cfg@, self@[rid], at, r));
        }
        r
    }

    /// Law: a well-formed service holds at most one live refresh id per
    /// account, whatever operations led to its state.
    pub proof fn lemma_single_session(&self)
        requires
            self.wf(),
        ensures
            single_session(self@),
    {
        self.registry.lemma_single_session();
    }

    /// The number of live sessions.
    pub fn session_count(&self) -> (r: usize)
        ensures
            r == self@.dom().len(),
    {
        self.registry.len()
    }
}

/// The registration postcondition, given the witnesses of the step.
proof fn lemma_register_exists(
    m0: Map<u128, i64>,
    m1: Map<u128, i64>,
    cfg: JwtView,
    aid: i64,
    rid: u128,
    at: u64,
    r: Result<(String, String), AuthError>,
)
    requires
        register_step(m0, m1, rid, aid),
        register_outcome(cfg, aid, rid, at, r),
    ensures
        exists|rid2: u128|
            #[trigger] register_step(m0, m1, rid2, aid) && exists|at2: u64|
                #[trigger] register_outcome(cfg, aid, rid2, at2, r),
{
    assert(register_step(m0, m1, rid, aid) && exists|at2: u64|
        #[trigger] register_outcome(cfg, aid, rid, at2, r));
}

/// Law: two sequential registrations for one account yield two different
/// refresh ids, and the first id is dead once the second is issued.
pub proof fn lemma_relogin_invalidates(
    m0: Map<u128, i64>,
    m1: Map<u128, i64>,
    m2: Map<u128, i64>,
    rid1: u128,
    rid2: u128,
    aid: i64,
)
    requires
        !m0.contains_key(rid1),
        m1 == without_account(m0, aid).insert(rid1, aid),
        !m1.contains_key(rid2),
        m2 == without_account(m1, aid).insert(rid2, aid),
    ensures
        rid2 != rid1,
        !m2.contains_key(rid1),
{
    assert(m1.contains_key(rid1) && m1[rid1] == aid);
    assert(!without_account(m1, aid).contains_key(rid1));
}

/// Law: a logged-out refresh id is no longer live, so a subsequent
/// refresh on it fails with the session error.
pub proof fn lemma_logout_invalidates(m: Map<u128, i64>, rid: u128)
    ensures
        !m.remove(rid).contains_key(rid),
{
}

/// Law: however many registrations for one account are interleaved, each
/// one leaves exactly its own refresh id live for the account, and keeps
/// every account at a single session; so once all have completed, exactly
/// one entry maps to the account.
pub proof fn lemma_register_single_session(m0: Map<u128, i64>, m1: Map<u128, i64>, rid: u128, aid: i64)
    requires
        single_session(m0),
        !m0.contains_key(rid),
        m1 == without_account(m0, aid).insert(rid, aid),
    ensures
        single_session(m1),
        forall|r: u128| m1.contains_key(r) && #[trigger] m1[r] == aid <==> r == rid,
{
    assert forall|r1: u128, r2: u128|
        m1.contains_key(r1) && m1.contains_key(r2) && #[trigger] m1[r1] == #[trigger] m1[r2]
            implies r1 == r2 by {
        if r1 != rid && r2 != rid {
            assert(m0.contains_key(r1) && m0.contains_key(r2) && m0[r1] == m0[r2]);
        }
    }
}

/// Law: a token obtained through refresh decodes to the account that the
/// registration producing the refresh id was made for.
pub proof fn lemma_refresh_token_account(
    cfg: JwtView,
    m0: Map<u128, i64>,
    m1: Map<u128, i64>,
    rid: u128,
    aid: i64,
    at: u64,
    now: u64,
    t: Seq<u8>,
)
    requires
        m1 == without_account(m0, aid).insert(rid, aid),
        t == access_token_bytes(access_claims_of(cfg, m1[rid], at), key_of(cfg.secret)),
        or_empty(cfg.subject).len() < crate::hex::pow16(16),
        at + cfg.time <= u64::MAX,
        now < at + cfg.time,
    ensures
        verify_access_spec(cfg, t, now) matches Ok(c) && c.aid == aid,
{
    assert(m1[rid] == aid);
    let c = access_claims_of(cfg, aid, at);
    assert(subject_ok(cfg, c.sub));
    assert(audience_ok(cfg, c.aud));
    lemma_sign_verify_round_trip_access(cfg, c, now);
}

} // verus!
