//! The token codec: production and verification of compact signed expiring
//! tokens for the two claim kinds, sharing one secret.
//!
//! A token is three segments joined by dots. The first is the base64url
//! encoding of a constant header naming the algorithm, the second the
//! base64url encoding of the canonical claim payload, and the third the
//! HMAC-SHA256 signature of the first two segments, as the signing routine
//! returns it. Everything but the signature itself is computed and checked
//! by verified code; the signature is named and trusted.

use vstd::prelude::*;

use crate::base64url::{b64_decode, b64_decode_spec, b64_encode, b64_push_encoded, b64_shape,
    is_b64_byte, lemma_encode_len_eq, lemma_encode_round_trip, lemma_shape_alphabet};
use crate::claims::{access_payload, lemma_access_payload_injective, lemma_access_payload_props,
    lemma_refresh_payload_injective, parse_access_payload, parse_refresh_payload, refresh_payload,
    render_access_payload, render_refresh_payload, wf_account_claims, wf_refresh_claims,
    AccountClaims, AccountClaimsView, RefreshClaims, RefreshClaimsView};
use crate::config::{Jwt, JwtView};
use crate::hex::pow16;
use crate::error::AuthError;

verus! {

/// The constant token header: the JSON object naming HMAC-SHA256.
pub open spec fn header_bytes() -> Seq<u8> {
    seq![
        0x7bu8, 0x22, 0x61, 0x6c, 0x67, 0x22, 0x3a, 0x22, 0x48, 0x53, 0x32, 0x35, 0x36, 0x22,
        0x2c, 0x22, 0x74, 0x79, 0x70, 0x22, 0x3a, 0x22, 0x4a, 0x57, 0x54, 0x22, 0x7d,
    ]
}

/// Builds the constant token header.
fn make_header() -> (r: Vec<u8>)
    ensures
        r@ =~= header_bytes(),
{
    let mut out: Vec<u8> = Vec::new();
    out.push(0x7b);
    out.push(0x22);
    out.push(0x61);
    out.push(0x6c);
    out.push(0x67);
    out.push(0x22);
    out.push(0x3a);
    out.push(0x22);
    out.push(0x48);
    out.push(0x53);
    out.push(0x32);
    out.push(0x35);
    out.push(0x36);
    out.push(0x22);
    out.push(0x2c);
    out.push(0x22);
    out.push(0x74);
    out.push(0x79);
    out.push(0x70);
    out.push(0x22);
    out.push(0x3a);
    out.push(0x22);
    out.push(0x4a);
    out.push(0x57);
    out.push(0x54);
    out.push(0x22);
    out.push(0x7d);
    out
}

/// The bytes a token's signature covers: the encoded header, a dot, and the
/// encoded payload.
pub open spec fn signing_input(payload: Seq<u8>) -> Seq<u8> {
    b64_encode(header_bytes()) + seq![0x2eu8] + b64_encode(payload)
}

/// The UTF-8 bytes of the configured secret, as the signing key.
pub open spec fn key_of(secret: Seq<char>) -> Seq<u8> {
    vstd::utf8::encode_utf8(secret)
}

/// What signing a message with a key returns: the base64url HMAC-SHA256
/// signature's bytes. A pure function of message and key, provided the
/// process keeps jsonwebtoken's default crypto provider: this crate's
/// feature selection fixes it to the RustCrypto one and nothing here
/// installs another.
pub uninterp spec fn hs256_tag(message: Seq<u8>, key: Seq<u8>) -> Seq<u8>;

/// Relies on jsonwebtoken::crypto::sign with HMAC-SHA256 and a key made by
/// EncodingKey::from_secret: the returned base64url signature depends on
/// the message and the secret alone. The call cannot fail: the signer
/// factory rejects only keys of a non-HMAC family, from_secret always
/// yields an HMAC key, HMAC accepts secrets of any length, and HMAC
/// signing itself is infallible; the fallback arm below is dead.
#[verifier::external_body]
fn hs256_sign(message: &[u8], secret: &[u8]) -> (r: String)
    ensures
        vstd::utf8::encode_utf8(r@) == hs256_tag(message@, secret@),
{
    let key = jsonwebtoken::EncodingKey::from_secret(secret);
    match jsonwebtoken::crypto::sign(message, &key, jsonwebtoken::Algorithm::HS256) {
        Ok(s) => s,
        Err(_) => String::new(),
    }
}

/// Relies on jsonwebtoken::crypto::verify with HMAC-SHA256: it re-signs the
/// message and compares in constant time, accepting exactly the canonical
/// base64url signature that jsonwebtoken::crypto::sign returns.
#[verifier::external_body]
fn hs256_check(sig: &[u8], message: &[u8], secret: &[u8]) -> (r: bool)
    ensures
        r <==> sig@ == hs256_tag(message@, secret@),
{
    let sig_str = match core::str::from_utf8(sig) {
        Ok(s) => s,
        Err(_) => return false,
    };
    let key = jsonwebtoken::DecodingKey::from_secret(secret);
    jsonwebtoken::crypto::verify(sig_str, message, &key, jsonwebtoken::Algorithm::HS256).unwrap_or(
        false,
    )
}

/// Relies on String::from_utf8: the returned string's UTF-8 encoding is
/// the input bytes. Bytes below 0x80 are one-byte UTF-8 sequences, so on
/// such input the call cannot fail and the fallback arm below is dead.
#[verifier::external_body]
fn ascii_to_string(v: Vec<u8>) -> (r: String)
    requires
        forall|i: int| 0 <= i < v@.len() ==> v@[i] < 0x80,
    ensures
        vstd::utf8::encode_utf8(r@) == v@,
{
    match String::from_utf8(v) {
        Ok(s) => s,
        Err(_) => String::new(),
    }
}

/// UTF-8 encoding distributes over concatenation.
proof fn lemma_encode_utf8_concat(a: Seq<char>, b: Seq<char>)
    ensures
        vstd::utf8::encode_utf8(a + b) =~= vstd::utf8::encode_utf8(a) + vstd::utf8::encode_utf8(
            b,
        ),
    decreases a.len(),
{
    if a.len() == 0 {
        assert(a + b =~= b);
    } else {
        lemma_encode_utf8_concat(a.drop_first(), b);
        assert((a + b).drop_first() =~= a.drop_first() + b);
        assert((a + b).len() > 0);
        assert((a + b)[0] == a[0]);
    }
}

/// Every byte of a signing input, the final dot included, is ASCII: the
/// segments hold only alphabet bytes and the separator is a dot.
proof fn lemma_signing_input_ascii(payload: Seq<u8>)
    ensures
        forall|i: int|
            0 <= i < signing_input(payload).len() + 1 ==> #[trigger] (signing_input(
                payload,
            ).push(0x2eu8))[i] < 0x80,
{
    let hb = b64_encode(header_bytes());
    let e = b64_encode(payload);
    let si = signing_input(payload).push(0x2eu8);
    lemma_encode_round_trip(header_bytes());
    lemma_encode_round_trip(payload);
    lemma_shape_alphabet(hb);
    lemma_shape_alphabet(e);
    assert forall|i: int| 0 <= i < si.len() implies #[trigger] si[i] < 0x80 by {
        if i < hb.len() {
            assert(si[i] == hb[i]);
            assert(is_b64_byte(hb[i]));
        } else if i == hb.len() || i == si.len() - 1 {
        } else {
            assert(si[i] == e[i - hb.len() - 1]);
            assert(is_b64_byte(e[i - hb.len() - 1]));
        }
    }
}

/// The complete token bytes of an access claim set under a key.
pub open spec fn access_token_bytes(c: AccountClaimsView, key: Seq<u8>) -> Seq<u8> {
    signing_input(access_payload(c)) + seq![0x2eu8] + hs256_tag(
        signing_input(access_payload(c)),
        key,
    )
}

/// The complete token bytes of a refresh claim set under a key.
pub open spec fn refresh_token_bytes(c: RefreshClaimsView, key: Seq<u8>) -> Seq<u8> {
    signing_input(refresh_payload(c)) + seq![0x2eu8] + hs256_tag(
        signing_input(refresh_payload(c)),
        key,
    )
}

/// Copies the bytes of s from `start` to `end`.
fn copy_range(s: &Vec<u8>, start: usize, end: usize) -> (r: Vec<u8>)
    requires
        start <= end <= s@.len(),
    ensures
        r@ =~= s@.subrange(start as int, end as int),
{
    let mut out: Vec<u8> = Vec::new();
    let mut i: usize = start;
    while i < end
        invariant
            start <= i <= end <= s@.len(),
            out@ =~= s@.subrange(start as int, i as int),
        decreases end - i,
    {
        out.push(s[i]);
        proof {
            assert(s@.subrange(start as int, i as int + 1) =~= s@.subrange(
                start as int,
                i as int,
            ).push(s@[i as int]));
        }
        i = i + 1;
    }
    out
}

/// Builds the signing input of a payload: encoded header, dot, encoded
/// payload.
fn build_signing_input(payload: &Vec<u8>) -> (r: Vec<u8>)
    ensures
        r@ =~= signing_input(payload@),
{
    let header = make_header();
    let mut si: Vec<u8> = Vec::new();
    b64_push_encoded(&mut si, &header);
    si.push(0x2e);
    b64_push_encoded(&mut si, payload);
    si
}

/// Signs an access claim set: produces the three-segment token string.
/// Succeeds on every claim set; the error kind is kept in the signature
/// for the boundary's taxonomy only.
pub fn sign_access(cfg: &Jwt, c: &AccountClaims) -> (r: Result<String, AuthError>)
    ensures
        r is Ok,
        r matches Ok(t) ==> vstd::utf8::encode_utf8(t@) == access_token_bytes(
            c@,
            key_of(cfg@.secret),
        ),
{
    let payload = render_access_payload(c);
    let mut si = build_signing_input(&payload);
    let secret = cfg.secret.as_str().as_bytes();
    let tag = hs256_sign(si.as_slice(), secret);
    si.push(0x2e);
    proof {
        lemma_signing_input_ascii(payload@);
        assert(si@ =~= signing_input(payload@).push(0x2eu8));
    }
    let mut token = ascii_to_string(si);
    let ghost head = token@;
    token.append(tag.as_str());
    proof {
        lemma_encode_utf8_concat(head, tag@);
        assert(token@ =~= head + tag@);
        assert(vstd::utf8::encode_utf8(token@) =~= access_token_bytes(c@, key_of(cfg@.secret)));
    }
    Ok(token)
}

/// Signs a refresh claim set: produces the three-segment token string.
/// Succeeds on every claim set; the error kind is kept in the signature
/// for the boundary's taxonomy only.
pub fn sign_refresh(cfg: &Jwt, c: &RefreshClaims) -> (r: Result<String, AuthError>)
    ensures
        r is Ok,
        r matches Ok(t) ==> vstd::utf8::encode_utf8(t@) == refresh_token_bytes(
            c@,
            key_of(cfg@.secret),
        ),
{
    let payload = render_refresh_payload(c);
    let mut si = build_signing_input(&payload);
    let secret = cfg.secret.as_str().as_bytes();
    let tag = hs256_sign(si.as_slice(), secret);
    si.push(0x2e);
    proof {
        lemma_signing_input_ascii(payload@);
        assert(si@ =~= signing_input(payload@).push(0x2eu8));
    }
    let mut token = ascii_to_string(si);
    let ghost head = token@;
    token.append(tag.as_str());
    proof {
        lemma_encode_utf8_concat(head, tag@);
        assert(token@ =~= head + tag@);
        assert(vstd::utf8::encode_utf8(token@) =~= refresh_token_bytes(c@, key_of(cfg@.secret)));
    }
    Ok(token)
}

/// The first position at or after `from` holding a dot, or the length.
pub open spec fn find_dot(s: Seq<u8>, from: int) -> int
    recommends
        0 <= from <= s.len(),
    decreases s.len() - from,
{
    if from < 0 || from >= s.len() {
        s.len() as int
    } else if s[from] == 0x2e {
        from
    } else {
        find_dot(s, from + 1)
    }
}

/// find_dot yields exactly the position after a dot-free stretch.
pub proof fn lemma_find_dot_at(s: Seq<u8>, from: int, j: int)
    requires
        0 <= from <= j <= s.len(),
        forall|k: int| from <= k < j ==> s[k] != 0x2e,
        j < s.len() ==> s[j] == 0x2e,
    ensures
        find_dot(s, from) == j,
    decreases j - from,
{
    if from < j {
        lemma_find_dot_at(s, from + 1, j);
    }
}

/// Whether the claims' subject passes the configured subject, if any.
pub open spec fn subject_ok(cfg: JwtView, sub: Seq<char>) -> bool {
    match cfg.subject {
        Some(s) => sub == s,
        None => true,
    }
}

/// Whether the claims' audience passes the configured audience, if any.
pub open spec fn audience_ok(cfg: JwtView, aud: Seq<char>) -> bool {
    match cfg.audience {
        Some(a) => aud == a,
        None => true,
    }
}

/// What verifying an access token yields, over the token's UTF-8 bytes:
/// the decoded claims, or the first failure in order of precedence.
pub open spec fn verify_access_spec(cfg: JwtView, t: Seq<u8>, now: u64) -> Result<
    AccountClaimsView,
    AuthError,
> {
    let hb = b64_encode(header_bytes());
    let hlen = hb.len() as int;
    if t.len() <= hlen || t.take(hlen) != hb || t[hlen] != 0x2e {
        Err(AuthError::TokenMalformed)
    } else {
        let j = find_dot(t, hlen + 1);
        if j == t.len() {
            Err(AuthError::TokenMalformed)
        } else {
            let seg = t.subrange(hlen + 1, j);
            if !b64_shape(seg) {
                Err(AuthError::TokenMalformed)
            } else {
                let p = b64_decode_spec(seg);
                if !(exists|cv: AccountClaimsView|
                    wf_account_claims(cv) && p == access_payload(cv)) {
                    Err(AuthError::TokenMalformed)
                } else {
                    let cv = choose|cv: AccountClaimsView|
                        wf_account_claims(cv) && p == access_payload(cv);
                    let sig = t.subrange(j + 1, t.len() as int);
                    if sig != hs256_tag(t.take(j), key_of(cfg.secret)) {
                        Err(AuthError::InvalidSignature)
                    } else if cv.exp <= now {
                        Err(AuthError::Expired)
                    } else if !subject_ok(cfg, cv.sub) {
                        Err(AuthError::SubjectMismatch)
                    } else if !audience_ok(cfg, cv.aud) {
                        Err(AuthError::AudienceMismatch)
                    } else {
                        Ok(cv)
                    }
                }
            }
        }
    }
}

/// What verifying a refresh token yields, over the token's UTF-8 bytes.
pub open spec fn verify_refresh_spec(cfg: JwtView, t: Seq<u8>, now: u64) -> Result<
    RefreshClaimsView,
    AuthError,
> {
    let hb = b64_encode(header_bytes());
    let hlen = hb.len() as int;
    if t.len() <= hlen || t.take(hlen) != hb || t[hlen] != 0x2e {
        Err(AuthError::TokenMalformed)
    } else {
        let j = find_dot(t, hlen + 1);
        if j == t.len() {
            Err(AuthError::TokenMalformed)
        } else {
            let seg = t.subrange(hlen + 1, j);
            if !b64_shape(seg) {
                Err(AuthError::TokenMalformed)
            } else {
                let p = b64_decode_spec(seg);
                if !(exists|cv: RefreshClaimsView|
                    wf_refresh_claims(cv) && p == refresh_payload(cv)) {
                    Err(AuthError::TokenMalformed)
                } else {
                    let cv = choose|cv: RefreshClaimsView|
                        wf_refresh_claims(cv) && p == refresh_payload(cv);
                    let sig = t.subrange(j + 1, t.len() as int);
                    if sig != hs256_tag(t.take(j), key_of(cfg.secret)) {
                        Err(AuthError::InvalidSignature)
                    } else if cv.exp <= now {
                        Err(AuthError::Expired)
                    } else if !subject_ok(cfg, cv.sub) {
                        Err(AuthError::SubjectMismatch)
                    } else if !audience_ok(cfg, cv.aud) {
                        Err(AuthError::AudienceMismatch)
                    } else {
                        Ok(cv)
                    }
                }
            }
        }
    }
}

/// Verifies an access token: recomputes and checks the signature, then the
/// expiry, then subject and audience against the configuration.
pub fn verify_access(cfg: &Jwt, token: &str, now: u64) -> (r: Result<AccountClaims, AuthError>)
    ensures
        r matches Ok(c) ==> verify_access_spec(cfg@, vstd::utf8::encode_utf8(token@), now)
            == Ok::<AccountClaimsView, AuthError>(c@),
        r matches Err(e) ==> verify_access_spec(cfg@, vstd::utf8::encode_utf8(token@), now)
            == Err::<AccountClaimsView, AuthError>(e),
{
    let ghost tspec = vstd::utf8::encode_utf8(token@);
    let tb = token.as_bytes_vec();
    proof {
        assert(tb@ == tspec);
    }
    let tlen = tb.len();
    let header = make_header();
    let mut pre: Vec<u8> = Vec::new();
    b64_push_encoded(&mut pre, &header);
    let hlen = pre.len();
    if tlen <= hlen {
        return Err(AuthError::TokenMalformed);
    }
    let mut i: usize = 0;
    while i < hlen
        invariant
            i <= hlen,
            hlen < tlen,
            tlen == tb@.len(),
            tb@ == tspec,
            tspec == vstd::utf8::encode_utf8(token@),
            hlen == pre@.len(),
            pre@ =~= b64_encode(header_bytes()),
            forall|k: int| 0 <= k < i ==> tb@[k] == pre@[k],
        decreases hlen - i,
    {
        if tb[i] != pre[i] {
            proof {
                assert(tb@.take(hlen as int) != pre@);
            }
            return Err(AuthError::TokenMalformed);
        }
        i = i + 1;
    }
    proof {
        assert(tb@.take(hlen as int) =~= pre@);
    }
    if tb[hlen] != 0x2e {
        return Err(AuthError::TokenMalformed);
    }
    let mut j: usize = hlen + 1;
    while j < tlen && tb[j] != 0x2e
        invariant
            hlen + 1 <= j <= tlen,
            tlen == tb@.len(),
            forall|k: int| hlen + 1 <= k < j ==> tb@[k] != 0x2e,
        decreases tlen - j,
    {
        j = j + 1;
    }
    proof {
        lemma_find_dot_at(tb@, hlen as int + 1, j as int);
    }
    if j == tlen {
        return Err(AuthError::TokenMalformed);
    }
    let seg = copy_range(&tb, hlen + 1, j);
    let payload = match b64_decode(&seg, 0) {
        Some(p) => p,
        None => {
            proof {
                assert(seg@.skip(0) =~= seg@);
            }
            return Err(AuthError::TokenMalformed);
        },
    };
    proof {
        assert(seg@.skip(0) =~= seg@);
    }
    let c = match parse_access_payload(&payload) {
        Some(c) => c,
        None => {
            proof {
                assert forall|cv: AccountClaimsView| !(wf_account_claims(cv) && b64_decode_spec(
                    tspec.subrange(hlen as int + 1, j as int),
                ) == access_payload(cv)) by {
                    assert(b64_decode_spec(tspec.subrange(hlen as int + 1, j as int))
                        =~= payload@);
                }
            }
            return Err(AuthError::TokenMalformed);
        },
    };
    proof {
        let p = b64_decode_spec(tspec.subrange(hlen as int + 1, j as int));
        assert(p =~= payload@);
        assert(wf_account_claims(c@) && p == access_payload(c@));
        let cv0 = choose|cv: AccountClaimsView| wf_account_claims(cv) && p == access_payload(cv);
        assert(access_payload(cv0) =~= access_payload(c@));
        lemma_access_payload_injective(cv0, c@);
    }
    let message = copy_range(&tb, 0, j);
    let sig = copy_range(&tb, j + 1, tlen);
    let secret = cfg.secret.as_str().as_bytes();
    if !hs256_check(sig.as_slice(), message.as_slice(), secret) {
        return Err(AuthError::InvalidSignature);
    }
    if c.exp <= now {
        return Err(AuthError::Expired);
    }
    match &cfg.subject {
        Some(s) => {
            if !(*s == c.sub) {
                return Err(AuthError::SubjectMismatch);
            }
        },
        None => {},
    }
    match &cfg.audience {
        Some(a) => {
            if !(*a == c.aud) {
                return Err(AuthError::AudienceMismatch);
            }
        },
        None => {},
    }
    Ok(c)
}

/// Verifies a refresh token: recomputes and checks the signature, then the
/// expiry, then subject and audience against the configuration.
pub fn verify_refresh(cfg: &Jwt, token: &str, now: u64) -> (r: Result<RefreshClaims, AuthError>)
    ensures
        r matches Ok(c) ==> verify_refresh_spec(cfg@, vstd::utf8::encode_utf8(token@), now)
            == Ok::<RefreshClaimsView, AuthError>(c@),
        r matches Err(e) ==> verify_refresh_spec(cfg@, vstd::utf8::encode_utf8(token@), now)
            == Err::<RefreshClaimsView, AuthError>(e),
{
    let ghost tspec = vstd::utf8::encode_utf8(token@);
    let tb = token.as_bytes_vec();
    proof {
        assert(tb@ == tspec);
    }
    let tlen = tb.len();
    let header = make_header();
    let mut pre: Vec<u8> = Vec::new();
    b64_push_encoded(&mut pre, &header);
    let hlen = pre.len();
    if tlen <= hlen {
        return Err(AuthError::TokenMalformed);
    }
    let mut i: usize = 0;
    while i < hlen
        invariant
            i <= hlen,
            hlen < tlen,
            tlen == tb@.len(),
            tb@ == tspec,
            tspec == vstd::utf8::encode_utf8(token@),
            hlen == pre@.len(),
            pre@ =~= b64_encode(header_bytes()),
            forall|k: int| 0 <= k < i ==> tb@[k] == pre@[k],
        decreases hlen - i,
    {
        if tb[i] != pre[i] {
            proof {
                assert(tb@.take(hlen as int) != pre@);
            }
            return Err(AuthError::TokenMalformed);
        }
        i = i + 1;
    }
    proof {
        assert(tb@.take(hlen as int) =~= pre@);
    }
    if tb[hlen] != 0x2e {
        return Err(AuthError::TokenMalformed);
    }
    let mut j: usize = hlen + 1;
    while j < tlen && tb[j] != 0x2e
        invariant
            hlen + 1 <= j <= tlen,
            tlen == tb@.len(),
            forall|k: int| hlen + 1 <= k < j ==> tb@[k] != 0x2e,
        decreases tlen - j,
    {
        j = j + 1;
    }
    proof {
        lemma_find_dot_at(tb@, hlen as int + 1, j as int);
    }
    if j == tlen {
        return Err(AuthError::TokenMalformed);
    }
    let seg = copy_range(&tb, hlen + 1, j);
    let payload = match b64_decode(&seg, 0) {
        Some(p) => p,
        None => {
            proof {
                assert(seg@.skip(0) =~= seg@);
            }
            return Err(AuthError::TokenMalformed);
        },
    };
    proof {
        assert(seg@.skip(0) =~= seg@);
    }
    let c = match parse_refresh_payload(&payload) {
        Some(c) => c,
        None => {
            proof {
                assert forall|cv: RefreshClaimsView| !(wf_refresh_claims(cv) && b64_decode_spec(
                    tspec.subrange(hlen as int + 1, j as int),
                ) == refresh_payload(cv)) by {
                    assert(b64_decode_spec(tspec.subrange(hlen as int + 1, j as int))
                        =~= payload@);
                }
            }
            return Err(AuthError::TokenMalformed);
        },
    };
    proof {
        let p = b64_decode_spec(tspec.subrange(hlen as int + 1, j as int));
        assert(p =~= payload@);
        assert(wf_refresh_claims(c@) && p == refresh_payload(c@));
        let cv0 = choose|cv: RefreshClaimsView| wf_refresh_claims(cv) && p == refresh_payload(cv);
        assert(refresh_payload(cv0) =~= refresh_payload(c@));
        lemma_refresh_payload_injective(cv0, c@);
    }
    let message = copy_range(&tb, 0, j);
    let sig = copy_range(&tb, j + 1, tlen);
    let secret = cfg.secret.as_str().as_bytes();
    if !hs256_check(sig.as_slice(), message.as_slice(), secret) {
        return Err(AuthError::InvalidSignature);
    }
    if c.exp <= now {
        return Err(AuthError::Expired);
    }
    match &cfg.subject {
        Some(s) => {
            if !(*s == c.sub) {
                return Err(AuthError::SubjectMismatch);
            }
        },
        None => {},
    }
    match &cfg.audience {
        Some(a) => {
            if !(*a == c.aud) {
                return Err(AuthError::AudienceMismatch);
            }
        },
        None => {},
    }
    Ok(c)
}

/// A canonically signed access token decodes to exactly its claims, and
/// fails only on the expiry, subject and audience checks, in that order.
pub proof fn lemma_access_token_decodes(cfg: JwtView, c: AccountClaimsView, now: u64)
    requires
        wf_account_claims(c),
    ensures
        verify_access_spec(cfg, access_token_bytes(c, key_of(cfg.secret)), now) == (if c.exp
            <= now {
            Err::<AccountClaimsView, AuthError>(AuthError::Expired)
        } else if !subject_ok(cfg, c.sub) {
            Err::<AccountClaimsView, AuthError>(AuthError::SubjectMismatch)
        } else if !audience_ok(cfg, c.aud) {
            Err::<AccountClaimsView, AuthError>(AuthError::AudienceMismatch)
        } else {
            Ok::<AccountClaimsView, AuthError>(c)
        }),
{
    let key = key_of(cfg.secret);
    let p = access_payload(c);
    let e = b64_encode(p);
    let hb = b64_encode(header_bytes());
    let hlen = hb.len() as int;
    let si = signing_input(p);
    let tag = hs256_tag(si, key);
    let t = access_token_bytes(c, key);
    assert(t =~= hb + seq![0x2eu8] + e + seq![0x2eu8] + tag);
    let j = hlen + 1 + e.len() as int;
    assert(t.len() == j + 1 + tag.len());
    assert(t.take(hlen) =~= hb);
    assert(t[hlen] == 0x2e);
    lemma_encode_round_trip(p);
    lemma_encode_round_trip(header_bytes());
    lemma_shape_alphabet(e);
    assert forall|k: int| hlen + 1 <= k < j implies t[k] != 0x2e by {
        assert(t[k] == e[k - hlen - 1]);
        assert(is_b64_byte(e[k - hlen - 1]));
    }
    assert(t[j] == 0x2e);
    lemma_find_dot_at(t, hlen + 1, j);
    assert(j < t.len());
    let seg = t.subrange(hlen + 1, j);
    assert(seg =~= e);
    assert(b64_shape(seg));
    assert(b64_decode_spec(seg) =~= p);
    assert(wf_account_claims(c) && b64_decode_spec(seg) == access_payload(c));
    let cv = choose|cv: AccountClaimsView|
        wf_account_claims(cv) && b64_decode_spec(seg) == access_payload(cv);
    assert(wf_account_claims(cv) && b64_decode_spec(seg) == access_payload(cv));
    assert(access_payload(cv) =~= access_payload(c));
    lemma_access_payload_injective(cv, c);
    let sig = t.subrange(j + 1, t.len() as int);
    assert(sig =~= tag);
    assert(t.take(j) =~= si);
}

/// A canonically signed refresh token decodes to exactly its claims, and
/// fails only on the expiry, subject and audience checks, in that order.
pub proof fn lemma_refresh_token_decodes(cfg: JwtView, c: RefreshClaimsView, now: u64)
    requires
        wf_refresh_claims(c),
    ensures
        verify_refresh_spec(cfg, refresh_token_bytes(c, key_of(cfg.secret)), now) == (if c.exp
            <= now {
            Err::<RefreshClaimsView, AuthError>(AuthError::Expired)
        } else if !subject_ok(cfg, c.sub) {
            Err::<RefreshClaimsView, AuthError>(AuthError::SubjectMismatch)
        } else if !audience_ok(cfg, c.aud) {
            Err::<RefreshClaimsView, AuthError>(AuthError::AudienceMismatch)
        } else {
            Ok::<RefreshClaimsView, AuthError>(c)
        }),
{
    let key = key_of(cfg.secret);
    let p = refresh_payload(c);
    let e = b64_encode(p);
    let hb = b64_encode(header_bytes());
    let hlen = hb.len() as int;
    let si = signing_input(p);
    let tag = hs256_tag(si, key);
    let t = refresh_token_bytes(c, key);
    assert(t =~= hb + seq![0x2eu8] + e + seq![0x2eu8] + tag);
    let j = hlen + 1 + e.len() as int;
    assert(t.len() == j + 1 + tag.len());
    assert(t.take(hlen) =~= hb);
    assert(t[hlen] == 0x2e);
    lemma_encode_round_trip(p);
    lemma_encode_round_trip(header_bytes());
    lemma_shape_alphabet(e);
    assert forall|k: int| hlen + 1 <= k < j implies t[k] != 0x2e by {
        assert(t[k] == e[k - hlen - 1]);
        assert(is_b64_byte(e[k - hlen - 1]));
    }
    assert(t[j] == 0x2e);
    lemma_find_dot_at(t, hlen + 1, j);
    assert(j < t.len());
    let seg = t.subrange(hlen + 1, j);
    assert(seg =~= e);
    assert(b64_shape(seg));
    assert(b64_decode_spec(seg) =~= p);
    assert(wf_refresh_claims(c) && b64_decode_spec(seg) == refresh_payload(c));
    let cv = choose|cv: RefreshClaimsView|
        wf_refresh_claims(cv) && b64_decode_spec(seg) == refresh_payload(cv);
    assert(wf_refresh_claims(cv) && b64_decode_spec(seg) == refresh_payload(cv));
    assert(refresh_payload(cv) =~= refresh_payload(c));
    lemma_refresh_payload_injective(cv, c);
    let sig = t.subrange(j + 1, t.len() as int);
    assert(sig =~= tag);
    assert(t.take(j) =~= si);
}

/// Law: verifying a signed token round-trips to claims equal to the
/// original, for the access kind, whenever the claims are fresh and carry
/// the configured subject and audience.
pub proof fn lemma_sign_verify_round_trip_access(cfg: JwtView, c: AccountClaimsView, now: u64)
    requires
        wf_account_claims(c),
        c.exp > now,
        subject_ok(cfg, c.sub),
        audience_ok(cfg, c.aud),
    ensures
        verify_access_spec(cfg, access_token_bytes(c, key_of(cfg.secret)), now)
            == Ok::<AccountClaimsView, AuthError>(c),
{
    lemma_access_token_decodes(cfg, c, now);
}

/// Law: verifying a signed token round-trips to claims equal to the
/// original, for the refresh kind, whenever the claims are fresh and carry
/// the configured subject and audience.
pub proof fn lemma_sign_verify_round_trip_refresh(cfg: JwtView, c: RefreshClaimsView, now: u64)
    requires
        wf_refresh_claims(c),
        c.exp > now,
        subject_ok(cfg, c.sub),
        audience_ok(cfg, c.aud),
    ensures
        verify_refresh_spec(cfg, refresh_token_bytes(c, key_of(cfg.secret)), now)
            == Ok::<RefreshClaimsView, AuthError>(c),
{
    lemma_refresh_token_decodes(cfg, c, now);
}

/// Law: a token signed with an already-elapsed expiry fails verification
/// with the expiry error, for either kind.
pub proof fn lemma_expired_access_token(cfg: JwtView, c: AccountClaimsView, now: u64)
    requires
        wf_account_claims(c),
        c.exp <= now,
    ensures
        verify_access_spec(cfg, access_token_bytes(c, key_of(cfg.secret)), now)
            == Err::<AccountClaimsView, AuthError>(AuthError::Expired),
{
    lemma_access_token_decodes(cfg, c, now);
}

/// Law: a refresh token signed with an already-elapsed expiry fails
/// verification with the expiry error.
pub proof fn lemma_expired_refresh_token(cfg: JwtView, c: RefreshClaimsView, now: u64)
    requires
        wf_refresh_claims(c),
        c.exp <= now,
    ensures
        verify_refresh_spec(cfg, refresh_token_bytes(c, key_of(cfg.secret)), now)
            == Err::<RefreshClaimsView, AuthError>(AuthError::Expired),
{
    lemma_refresh_token_decodes(cfg, c, now);
}

/// Law: access tokens signed at different instants differ as byte strings,
/// for one configuration, account and claim strings. Two signings within
/// the same clock second carry the same issue instant and so produce the
/// same token; that is the one case this law leaves out.
pub proof fn lemma_distinct_instants_distinct_access_tokens(
    cfg: JwtView,
    aud: Seq<char>,
    sub: Seq<char>,
    aid: i64,
    exp1: u64,
    exp2: u64,
    at1: u64,
    at2: u64,
)
    requires
        at1 != at2,
    ensures
        ({
            let c1 = AccountClaimsView { aud, sub, iat: at1, exp: exp1, aid };
            let c2 = AccountClaimsView { aud, sub, iat: at2, exp: exp2, aid };
            access_token_bytes(c1, key_of(cfg.secret)) != access_token_bytes(
                c2,
                key_of(cfg.secret),
            )
        }),
{
    let key = key_of(cfg.secret);
    let c1 = AccountClaimsView { aud, sub, iat: at1, exp: exp1, aid };
    let c2 = AccountClaimsView { aud, sub, iat: at2, exp: exp2, aid };
    let p1 = access_payload(c1);
    let p2 = access_payload(c2);
    let e1 = b64_encode(p1);
    let e2 = b64_encode(p2);
    let hb = b64_encode(header_bytes());
    let hlen = hb.len() as int;
    let t1 = access_token_bytes(c1, key);
    let t2 = access_token_bytes(c2, key);
    lemma_access_payload_props(c1);
    lemma_access_payload_props(c2);
    lemma_encode_len_eq(p1, p2);
    if t1 == t2 {
        assert(e1 =~= e2) by {
            assert forall|i: int| 0 <= i < e1.len() implies e1[i] == e2[i] by {
                assert(t1[hlen + 1 + i] == e1[i]);
                assert(t2[hlen + 1 + i] == e2[i]);
            }
        }
        lemma_encode_round_trip(p1);
        lemma_encode_round_trip(p2);
        assert(p1 =~= p2);
        assert(p1.subrange(1, 17) =~= p2.subrange(1, 17));
        assert(pow16(16) == 0x1_0000_0000_0000_0000) by {
            reveal_with_fuel(pow16, 17);
        }
        crate::hex::lemma_hex_of_value(at1 as nat, 16);
        crate::hex::lemma_hex_of_value(at2 as nat, 16);
        assert(false);
    }
}

} // verus!
