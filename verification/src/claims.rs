//! The claim sets embedded in tokens, and their canonical payload encoding.
//!
//! A payload is a single ASCII byte string: a kind tag, then the fixed-width
//! hex fields (issued-at, expiry, and the account or refresh id), then the
//! subject's length and the subject and audience, each character as six hex
//! digits of its code point. Fixed widths make the encoding canonical, and
//! the proofs here show rendering and parsing invert each other.

use vstd::prelude::*;

use crate::hex::{hex_of, hex_value, is_hex_seq, lemma_hex_canonical, lemma_hex_of_shape,
    lemma_hex_of_value, pow16, parse_hex, push_hex};

verus! {

/// The stateless claims of an access token. Validity is determined purely
/// by signature and expiry; nothing is stored server-side.
pub struct AccountClaims {
    pub aud: String,
    pub sub: String,
    pub iat: u64,
    pub exp: u64,
    pub aid: i64,
}

/// The mathematical value of an [`AccountClaims`].
pub struct AccountClaimsView {
    pub aud: Seq<char>,
    pub sub: Seq<char>,
    pub iat: u64,
    pub exp: u64,
    pub aid: i64,
}

impl View for AccountClaims {
    type V = AccountClaimsView;

    open spec fn view(&self) -> AccountClaimsView {
        AccountClaimsView {
            aud: self.aud@,
            sub: self.sub@,
            iat: self.iat,
            exp: self.exp,
            aid: self.aid,
        }
    }
}

impl AccountClaims {
    /// The account the token was issued for.
    pub fn aid(&self) -> (r: i64)
        ensures
            r == self@.aid,
    {
        self.aid
    }
}

/// The claims of a refresh token. The embedded refresh id must additionally
/// exist in the session registry to be honored.
pub struct RefreshClaims {
    pub aud: String,
    pub sub: String,
    pub iat: u64,
    pub exp: u64,
    pub rid: u128,
}

/// The mathematical value of a [`RefreshClaims`].
pub struct RefreshClaimsView {
    pub aud: Seq<char>,
    pub sub: Seq<char>,
    pub iat: u64,
    pub exp: u64,
    pub rid: u128,
}

impl View for RefreshClaims {
    type V = RefreshClaimsView;

    open spec fn view(&self) -> RefreshClaimsView {
        RefreshClaimsView {
            aud: self.aud@,
            sub: self.sub@,
            iat: self.iat,
            exp: self.exp,
            rid: self.rid,
        }
    }
}

impl RefreshClaims {
    /// The refresh id the token carries.
    pub fn rid(&self) -> (r: u128)
        ensures
            r == self@.rid,
    {
        self.rid
    }
}

/// Each character as the six hex digits of its code point, concatenated.
pub open spec fn str_hex(s: Seq<char>) -> Seq<u8>
    decreases s.len(),
{
    if s.len() == 0 {
        Seq::empty()
    } else {
        hex_of(s[0] as u32 as nat, 6) + str_hex(s.skip(1))
    }
}

/// str_hex is six bytes per character, all hex digits, and group k carries
/// the code point of character k.
pub proof fn lemma_str_hex_props(s: Seq<char>)
    ensures
        str_hex(s).len() == 6 * s.len(),
        is_hex_seq(str_hex(s)),
        forall|k: int|
            0 <= k < s.len() ==> #[trigger] str_hex(s).subrange(6 * k, 6 * k + 6) =~= hex_of(
                s[k] as u32 as nat,
                6,
            ),
    decreases s.len(),
{
    if s.len() > 0 {
        let c0 = s[0] as u32 as nat;
        assert(c0 < pow16(6)) by {
            vstd::utf8::char_is_scalar(s[0]);
            assert(pow16(6) == 0x1000000) by {
                reveal_with_fuel(pow16, 7);
            }
        }
        lemma_hex_of_value(c0, 6);
        lemma_str_hex_props(s.skip(1));
        let t = str_hex(s);
        assert(t.subrange(0, 6) =~= hex_of(c0, 6));
        assert forall|k: int| 0 <= k < s.len() implies #[trigger] t.subrange(6 * k, 6 * k + 6)
            =~= hex_of(s[k] as u32 as nat, 6) by {
            if k > 0 {
                assert(str_hex(s.skip(1)).subrange(6 * (k - 1), 6 * (k - 1) + 6) =~= hex_of(
                    s.skip(1)[k - 1] as u32 as nat,
                    6,
                ));
                assert(s.skip(1)[k - 1] == s[k]);
                assert(t.subrange(6 * k, 6 * k + 6) =~= str_hex(s.skip(1)).subrange(
                    6 * (k - 1),
                    6 * (k - 1) + 6,
                ));
            }
        }
    }
}

/// Two character strings with the same hex rendering are equal.
pub proof fn lemma_str_hex_injective(a: Seq<char>, b: Seq<char>)
    requires
        str_hex(a) =~= str_hex(b),
    ensures
        a =~= b,
{
    lemma_str_hex_props(a);
    lemma_str_hex_props(b);
    assert(a.len() == b.len());
    assert forall|k: int| 0 <= k < a.len() implies a[k] == b[k] by {
        assert(str_hex(a).subrange(6 * k, 6 * k + 6) =~= hex_of(a[k] as u32 as nat, 6));
        assert(str_hex(b).subrange(6 * k, 6 * k + 6) =~= hex_of(b[k] as u32 as nat, 6));
        assert(hex_value(hex_of(a[k] as u32 as nat, 6)) == a[k] as u32 as nat) by {
            vstd::utf8::char_is_scalar(a[k]);
            assert(pow16(6) == 0x1000000) by {
                reveal_with_fuel(pow16, 7);
            }
            lemma_hex_of_value(a[k] as u32 as nat, 6);
        }
        assert(hex_value(hex_of(b[k] as u32 as nat, 6)) == b[k] as u32 as nat) by {
            vstd::utf8::char_is_scalar(b[k]);
            assert(pow16(6) == 0x1000000) by {
                reveal_with_fuel(pow16, 7);
            }
            lemma_hex_of_value(b[k] as u32 as nat, 6);
        }
        assert(a[k] as u32 == b[k] as u32);
        vstd::utf8::char_u32_cast(a[k], a[k] as u32);
        vstd::utf8::char_u32_cast(b[k], b[k] as u32);
    }
}

/// Consuming one character extends the rendering by one hex group.
proof fn lemma_str_hex_snoc(s: Seq<char>, i: int)
    requires
        0 <= i < s.len(),
    ensures
        str_hex(s.take(i + 1)) =~= str_hex(s.take(i)) + hex_of(s[i] as u32 as nat, 6),
    decreases i,
{
    if i == 0 {
        assert(s.take(1) =~= seq![s[0]]);
        assert(s.take(1).skip(1) =~= Seq::<char>::empty());
        assert(s.take(0) =~= Seq::<char>::empty());
    } else {
        lemma_str_hex_snoc(s.skip(1), i - 1);
        assert(s.take(i + 1).skip(1) =~= s.skip(1).take(i));
        assert(s.take(i).skip(1) =~= s.skip(1).take(i - 1));
        assert(s.take(i + 1).len() > 0 && s.take(i).len() > 0);
        assert(s.take(i + 1)[0] == s[0] && s.take(i)[0] == s[0]);
        assert(s.skip(1)[i - 1] == s[i]);
    }
}

/// Relies on char::from_u32: any non-surrogate code point below 0x110000 is
/// the value of exactly one character.
#[verifier::external_body]
fn char_from_u32(v: u32) -> (r: char)
    requires
        v < 0xD800 || (0xE000 <= v < 0x110000),
    ensures
        r as u32 == v,
{
    char::from_u32(v).unwrap_or(' ')
}

/// Relies on String::push: appends one character.
#[verifier::external_body]
fn string_push_char(s: &mut String, c: char)
    ensures
        final(s)@ =~= old(s)@.push(c),
{
    s.push(c);
}

/// Appends the hex rendering of every character of s.
pub fn push_str_hex(out: &mut Vec<u8>, s: &str)
    ensures
        final(out)@ =~= old(out)@ + str_hex(s@),
{
    let len = s.unicode_len();
    let mut i: usize = 0;
    proof {
        assert(s@.take(0) =~= Seq::<char>::empty());
    }
    while i < len
        invariant
            i <= len,
            len == s@.len(),
            out@ =~= old(out)@ + str_hex(s@.take(i as int)),
        decreases len - i,
    {
        let c = s.get_char(i);
        push_hex(out, c as u128, 6);
        proof {
            vstd::utf8::char_is_scalar(c);
            assert(c as u128 as nat == c as u32 as nat);
            lemma_str_hex_snoc(s@, i as int);
        }
        i = i + 1;
    }
    proof {
        assert(s@.take(len as int) =~= s@);
    }
}

/// Parses the bytes of b from `start` to `end` as a hex-rendered character
/// string; succeeds exactly when some string renders to them.
pub fn parse_str_hex(b: &Vec<u8>, start: usize, end: usize) -> (r: Option<String>)
    requires
        start <= end <= b@.len(),
    ensures
        r matches Some(s) ==> str_hex(s@) =~= b@.subrange(start as int, end as int),
        r is None ==> forall|s: Seq<char>| str_hex(s) !~= b@.subrange(start as int, end as int),
{
    let ghost whole = b@.subrange(start as int, end as int);
    let n = end - start;
    if n % 6 != 0 {
        proof {
            assert forall|s: Seq<char>| str_hex(s) !~= whole by {
                lemma_str_hex_props(s);
            }
        }
        return None;
    }
    let mut out = String::new();
    let mut i: usize = 0;
    proof {
        assert(whole.subrange(0, 0) =~= Seq::<u8>::empty());
        assert(str_hex(out@) =~= Seq::<u8>::empty());
    }
    while i < n
        invariant
            i <= n,
            n == end - start,
            start <= end <= b@.len(),
            i % 6 == 0,
            n % 6 == 0,
            whole == b@.subrange(start as int, end as int),
            str_hex(out@) =~= whole.subrange(0, i as int),
            out@.len() * 6 == i,
        decreases n - i,
    {
        let v = match parse_hex(b, start + i, 6) {
            Some(v) => v,
            None => {
                proof {
                    let seg = b@.subrange(start + i as int, start + i as int + 6);
                    assert forall|s: Seq<char>| str_hex(s) !~= whole by {
                        if str_hex(s) =~= whole {
                            lemma_str_hex_props(s);
                            let k = (i as int) / 6;
                            assert(6 * k == i as int);
                            assert(0 <= k < s.len());
                            assert(str_hex(s).subrange(6 * k, 6 * k + 6) =~= hex_of(
                                s[k] as u32 as nat,
                                6,
                            ));
                            assert(seg =~= whole.subrange(i as int, i as int + 6));
                            assert(seg =~= hex_of(s[k] as u32 as nat, 6));
                            assert(pow16(6) == 0x1000000) by {
                                reveal_with_fuel(pow16, 7);
                            }
                            vstd::utf8::char_is_scalar(s[k]);
                            lemma_hex_of_value(s[k] as u32 as nat, 6);
                            assert(is_hex_seq(seg));
                        }
                    }
                }
                return None;
            },
        };
        let ghost seg = b@.subrange(start + i as int, start + i as int + 6);
        proof {
            lemma_hex_canonical(seg);
            assert(pow16(6) == 0x1000000) by {
                reveal_with_fuel(pow16, 7);
            }
        }
        if !(v < 0xD800 || (0xE000 <= v && v < 0x110000)) {
            proof {
                assert forall|s: Seq<char>| str_hex(s) !~= whole by {
                    if str_hex(s) =~= whole {
                        lemma_str_hex_props(s);
                        let k = (i as int) / 6;
                        assert(6 * k == i as int);
                        assert(0 <= k < s.len());
                        assert(str_hex(s).subrange(6 * k, 6 * k + 6) =~= hex_of(
                            s[k] as u32 as nat,
                            6,
                        ));
                        assert(seg =~= whole.subrange(i as int, i as int + 6));
                        assert(seg =~= hex_of(s[k] as u32 as nat, 6));
                        vstd::utf8::char_is_scalar(s[k]);
                        lemma_hex_of_value(s[k] as u32 as nat, 6);
                        assert(hex_value(seg) == s[k] as u32 as nat);
                    }
                }
            }
            return None;
        }
        let ghost prev = out@;
        let c = char_from_u32(v as u32);
        string_push_char(&mut out, c);
        proof {
            assert(c as u32 as u128 == v);
            assert(hex_value(seg) == v as nat);
            assert(seg =~= hex_of(c as u32 as nat, 6));
            let m = out@.len() as int;
            lemma_str_hex_snoc(out@, m - 1);
            assert(out@.take(m) =~= out@);
            assert(out@.take(m - 1) =~= prev);
            assert(out@[m - 1] == c);
            assert(str_hex(out@) =~= str_hex(prev) + seg);
            assert(whole.subrange(0, i as int) + seg =~= whole.subrange(0, i as int + 6));
        }
        i = i + 6;
    }
    proof {
        assert(whole.subrange(0, n as int) =~= whole);
    }
    Some(out)
}

/// An account id shifted into unsigned range; a bijection between i64 and
/// the values a 16-digit hex field carries.
pub open spec fn biased_aid(aid: i64) -> nat {
    (aid as int + 0x8000_0000_0000_0000) as nat
}

/// Whether a claims view could belong to real strings: the subject fits its
/// 16-digit length field. Every executable string satisfies this.
pub open spec fn wf_account_claims(c: AccountClaimsView) -> bool {
    c.sub.len() < pow16(16)
}

/// As [`wf_account_claims`], for refresh claims.
pub open spec fn wf_refresh_claims(c: RefreshClaimsView) -> bool {
    c.sub.len() < pow16(16)
}

/// The canonical payload of an access token: tag byte, issued-at, expiry,
/// biased account id and subject length as 16 hex digits each, then the
/// subject and audience characters.
pub open spec fn access_payload(c: AccountClaimsView) -> Seq<u8> {
    seq![0x61u8] + hex_of(c.iat as nat, 16) + hex_of(c.exp as nat, 16) + hex_of(
        biased_aid(c.aid),
        16,
    ) + hex_of(c.sub.len(), 16) + str_hex(c.sub) + str_hex(c.aud)
}

/// The canonical payload of a refresh token: as the access payload, with a
/// different tag and the refresh id as 32 hex digits.
pub open spec fn refresh_payload(c: RefreshClaimsView) -> Seq<u8> {
    seq![0x72u8] + hex_of(c.iat as nat, 16) + hex_of(c.exp as nat, 16) + hex_of(c.rid as nat, 32)
        + hex_of(c.sub.len(), 16) + str_hex(c.sub) + str_hex(c.aud)
}

/// Field positions of an access payload.
pub proof fn lemma_access_payload_props(c: AccountClaimsView)
    ensures
        access_payload(c).len() == 65 + 6 * c.sub.len() + 6 * c.aud.len(),
        access_payload(c)[0] == 0x61u8,
        access_payload(c).subrange(1, 17) =~= hex_of(c.iat as nat, 16),
        access_payload(c).subrange(17, 33) =~= hex_of(c.exp as nat, 16),
        access_payload(c).subrange(33, 49) =~= hex_of(biased_aid(c.aid), 16),
        access_payload(c).subrange(49, 65) =~= hex_of(c.sub.len(), 16),
        access_payload(c).subrange(65, 65 + 6 * c.sub.len() as int) =~= str_hex(c.sub),
        access_payload(c).subrange(
            65 + 6 * c.sub.len() as int,
            access_payload(c).len() as int,
        ) =~= str_hex(c.aud),
{
    lemma_hex_of_shape(c.iat as nat, 16);
    lemma_hex_of_shape(c.exp as nat, 16);
    lemma_hex_of_shape(biased_aid(c.aid), 16);
    lemma_hex_of_shape(c.sub.len(), 16);
    lemma_str_hex_props(c.sub);
    lemma_str_hex_props(c.aud);
}

/// Field positions of a refresh payload.
pub proof fn lemma_refresh_payload_props(c: RefreshClaimsView)
    ensures
        refresh_payload(c).len() == 81 + 6 * c.sub.len() + 6 * c.aud.len(),
        refresh_payload(c)[0] == 0x72u8,
        refresh_payload(c).subrange(1, 17) =~= hex_of(c.iat as nat, 16),
        refresh_payload(c).subrange(17, 33) =~= hex_of(c.exp as nat, 16),
        refresh_payload(c).subrange(33, 65) =~= hex_of(c.rid as nat, 32),
        refresh_payload(c).subrange(65, 81) =~= hex_of(c.sub.len(), 16),
        refresh_payload(c).subrange(81, 81 + 6 * c.sub.len() as int) =~= str_hex(c.sub),
        refresh_payload(c).subrange(
            81 + 6 * c.sub.len() as int,
            refresh_payload(c).len() as int,
        ) =~= str_hex(c.aud),
{
    lemma_hex_of_shape(c.iat as nat, 16);
    lemma_hex_of_shape(c.exp as nat, 16);
    lemma_hex_of_shape(c.rid as nat, 32);
    lemma_hex_of_shape(c.sub.len(), 16);
    lemma_str_hex_props(c.sub);
    lemma_str_hex_props(c.aud);
}

/// Two well-formed claim views with the same access payload are equal.
pub proof fn lemma_access_payload_injective(c1: AccountClaimsView, c2: AccountClaimsView)
    requires
        wf_account_claims(c1),
        wf_account_claims(c2),
        access_payload(c1) =~= access_payload(c2),
    ensures
        c1 == c2,
{
    lemma_access_payload_props(c1);
    lemma_access_payload_props(c2);
    assert(c1.sub.len() == c2.sub.len()) by {
        assert(hex_of(c1.sub.len(), 16) =~= hex_of(c2.sub.len(), 16));
        lemma_hex_of_value(c1.sub.len(), 16);
        lemma_hex_of_value(c2.sub.len(), 16);
        assert(hex_value(hex_of(c1.sub.len(), 16)) == c1.sub.len());
    }
    assert(c1.iat == c2.iat && c1.exp == c2.exp && c1.aid == c2.aid) by {
        assert(pow16(16) == 0x1_0000_0000_0000_0000) by {
            reveal_with_fuel(pow16, 17);
        }
        lemma_hex_of_value(c1.iat as nat, 16);
        lemma_hex_of_value(c2.iat as nat, 16);
        lemma_hex_of_value(c1.exp as nat, 16);
        lemma_hex_of_value(c2.exp as nat, 16);
        lemma_hex_of_value(biased_aid(c1.aid), 16);
        lemma_hex_of_value(biased_aid(c2.aid), 16);
        assert(pow16(16) == 0x1_0000_0000_0000_0000) by {
            reveal_with_fuel(pow16, 17);
        }
    }
    assert(c1.sub =~= c2.sub) by {
        lemma_str_hex_injective(c1.sub, c2.sub);
    }
    assert(c1.aud =~= c2.aud) by {
        assert(access_payload(c1).len() == access_payload(c2).len());
        lemma_str_hex_injective(c1.aud, c2.aud);
    }
}

/// Two well-formed claim views with the same refresh payload are equal.
pub proof fn lemma_refresh_payload_injective(c1: RefreshClaimsView, c2: RefreshClaimsView)
    requires
        wf_refresh_claims(c1),
        wf_refresh_claims(c2),
        refresh_payload(c1) =~= refresh_payload(c2),
    ensures
        c1 == c2,
{
    lemma_refresh_payload_props(c1);
    lemma_refresh_payload_props(c2);
    assert(c1.sub.len() == c2.sub.len()) by {
        assert(hex_of(c1.sub.len(), 16) =~= hex_of(c2.sub.len(), 16));
        lemma_hex_of_value(c1.sub.len(), 16);
        lemma_hex_of_value(c2.sub.len(), 16);
        assert(hex_value(hex_of(c1.sub.len(), 16)) == c1.sub.len());
    }
    assert(c1.iat == c2.iat && c1.exp == c2.exp && c1.rid == c2.rid) by {
        assert(pow16(16) == 0x1_0000_0000_0000_0000) by {
            reveal_with_fuel(pow16, 17);
        }
        assert(pow16(32) == 0x1_0000_0000_0000_0000_0000_0000_0000_0000) by {
            reveal_with_fuel(pow16, 33);
        }
        lemma_hex_of_value(c1.iat as nat, 16);
        lemma_hex_of_value(c2.iat as nat, 16);
        lemma_hex_of_value(c1.exp as nat, 16);
        lemma_hex_of_value(c2.exp as nat, 16);
        lemma_hex_of_value(c1.rid as nat, 32);
        lemma_hex_of_value(c2.rid as nat, 32);
        assert(pow16(16) == 0x1_0000_0000_0000_0000) by {
            reveal_with_fuel(pow16, 17);
        }
        assert(pow16(32) == 0x1_0000_0000_0000_0000_0000_0000_0000_0000) by {
            reveal_with_fuel(pow16, 33);
        }
    }
    assert(c1.sub =~= c2.sub) by {
        lemma_str_hex_injective(c1.sub, c2.sub);
    }
    assert(c1.aud =~= c2.aud) by {
        assert(refresh_payload(c1).len() == refresh_payload(c2).len());
        lemma_str_hex_injective(c1.aud, c2.aud);
    }
}

/// Renders the canonical payload of an access token.
pub fn render_access_payload(c: &AccountClaims) -> (r: Vec<u8>)
    ensures
        r@ =~= access_payload(c@),
{
    let mut out: Vec<u8> = Vec::new();
    out.push(0x61);
    push_hex(&mut out, c.iat as u128, 16);
    push_hex(&mut out, c.exp as u128, 16);
    let biased: u64 = ((c.aid as i128) + 0x8000_0000_0000_0000) as u64;
    assert(biased as nat == biased_aid(c.aid));
    push_hex(&mut out, biased as u128, 16);
    let sublen = c.sub.as_str().unicode_len();
    push_hex(&mut out, sublen as u128, 16);
    push_str_hex(&mut out, c.sub.as_str());
    push_str_hex(&mut out, c.aud.as_str());
    out
}

/// Renders the canonical payload of a refresh token.
pub fn render_refresh_payload(c: &RefreshClaims) -> (r: Vec<u8>)
    ensures
        r@ =~= refresh_payload(c@),
{
    let mut out: Vec<u8> = Vec::new();
    out.push(0x72);
    push_hex(&mut out, c.iat as u128, 16);
    push_hex(&mut out, c.exp as u128, 16);
    push_hex(&mut out, c.rid, 32);
    let sublen = c.sub.as_str().unicode_len();
    push_hex(&mut out, sublen as u128, 16);
    push_str_hex(&mut out, c.sub.as_str());
    push_str_hex(&mut out, c.aud.as_str());
    out
}

/// Parses the canonical payload of an access token; succeeds exactly on
/// renderings of a claims view.
pub fn parse_access_payload(p: &Vec<u8>) -> (r: Option<AccountClaims>)
    ensures
        r matches Some(c) ==> p@ =~= access_payload(c@) && wf_account_claims(c@),
        r is None ==> forall|cv: AccountClaimsView| p@ !~= access_payload(cv),
{
    let plen = p.len();
    if plen < 65 || (plen - 65) % 6 != 0 {
        proof {
            assert forall|cv: AccountClaimsView| p@ !~= access_payload(cv) by {
                lemma_access_payload_props(cv);
            }
        }
        return None;
    }
    if p[0] != 0x61 {
        proof {
            assert forall|cv: AccountClaimsView| p@ !~= access_payload(cv) by {
                lemma_access_payload_props(cv);
            }
        }
        return None;
    }
    let iatv = match parse_hex(p, 1, 16) {
        Some(v) => v,
        None => {
            proof {
                assert forall|cv: AccountClaimsView| p@ !~= access_payload(cv) by {
                    if p@ =~= access_payload(cv) {
                        lemma_access_payload_props(cv);
                        lemma_hex_of_shape(cv.iat as nat, 16);
                    }
                }
            }
            return None;
        },
    };
    let expv = match parse_hex(p, 17, 16) {
        Some(v) => v,
        None => {
            proof {
                assert forall|cv: AccountClaimsView| p@ !~= access_payload(cv) by {
                    if p@ =~= access_payload(cv) {
                        lemma_access_payload_props(cv);
                        lemma_hex_of_shape(cv.exp as nat, 16);
                    }
                }
            }
            return None;
        },
    };
    let aidv = match parse_hex(p, 33, 16) {
        Some(v) => v,
        None => {
            proof {
                assert forall|cv: AccountClaimsView| p@ !~= access_payload(cv) by {
                    if p@ =~= access_payload(cv) {
                        lemma_access_payload_props(cv);
                        lemma_hex_of_shape(biased_aid(cv.aid), 16);
                    }
                }
            }
            return None;
        },
    };
    let sublenv = match parse_hex(p, 49, 16) {
        Some(v) => v,
        None => {
            proof {
                assert forall|cv: AccountClaimsView| p@ !~= access_payload(cv) by {
                    if p@ =~= access_payload(cv) {
                        lemma_access_payload_props(cv);
                        lemma_hex_of_shape(cv.sub.len(), 16);
                    }
                }
            }
            return None;
        },
    };
    proof {
        assert(pow16(16) == 0x1_0000_0000_0000_0000) by {
            reveal_with_fuel(pow16, 17);
        }
    }
    if sublenv * 6 > (plen - 65) as u128 {
        proof {
            assert forall|cv: AccountClaimsView| p@ !~= access_payload(cv) by {
                if p@ =~= access_payload(cv) {
                    lemma_access_payload_props(cv);
                    assert(6 * cv.sub.len() <= plen - 65);
                    assert(cv.sub.len() < pow16(16)) by {
                        assert(pow16(16) == 0x1_0000_0000_0000_0000) by {
                            reveal_with_fuel(pow16, 17);
                        }
                    }
                    lemma_hex_of_value(cv.sub.len(), 16);
                    lemma_hex_canonical(p@.subrange(49, 65));
                    assert(sublenv as nat == cv.sub.len());
                }
            }
        }
        return None;
    }
    let subu: usize = (sublenv as u64) as usize * 6;
    proof {
        assert(sublenv * 6 <= (plen - 65) as u128);
        assert(subu == sublenv * 6);
    }
    let mid: usize = 65 + subu;
    let sub = match parse_str_hex(p, 65, mid) {
        Some(s) => s,
        None => {
            proof {
                assert forall|cv: AccountClaimsView| p@ !~= access_payload(cv) by {
                    if p@ =~= access_payload(cv) {
                        lemma_access_payload_props(cv);
                        assert(cv.sub.len() < pow16(16)) by {
                            assert(pow16(16) == 0x1_0000_0000_0000_0000) by {
                                reveal_with_fuel(pow16, 17);
                            }
                        }
                        lemma_hex_of_value(cv.sub.len(), 16);
                        lemma_hex_canonical(p@.subrange(49, 65));
                        assert(sublenv as nat == cv.sub.len());
                        assert(p@.subrange(65, mid as int) =~= str_hex(cv.sub));
                    }
                }
            }
            return None;
        },
    };
    let aud = match parse_str_hex(p, mid, plen) {
        Some(s) => s,
        None => {
            proof {
                assert forall|cv: AccountClaimsView| p@ !~= access_payload(cv) by {
                    if p@ =~= access_payload(cv) {
                        lemma_access_payload_props(cv);
                        assert(cv.sub.len() < pow16(16)) by {
                            assert(pow16(16) == 0x1_0000_0000_0000_0000) by {
                                reveal_with_fuel(pow16, 17);
                            }
                        }
                        lemma_hex_of_value(cv.sub.len(), 16);
                        lemma_hex_canonical(p@.subrange(49, 65));
                        assert(sublenv as nat == cv.sub.len());
                        assert(p@.subrange(mid as int, plen as int) =~= str_hex(cv.aud));
                    }
                }
            }
            return None;
        },
    };
    let aid: i64 = ((aidv as u64) as i128 - 0x8000_0000_0000_0000) as i64;
    let c = AccountClaims { aud, sub, iat: iatv as u64, exp: expv as u64, aid };
    proof {
        assert(pow16(16) == 0x1_0000_0000_0000_0000) by {
            reveal_with_fuel(pow16, 17);
        }
        lemma_hex_canonical(p@.subrange(1, 17));
        lemma_hex_canonical(p@.subrange(17, 33));
        lemma_hex_canonical(p@.subrange(33, 49));
        lemma_hex_canonical(p@.subrange(49, 65));
        assert(c@.iat as nat == iatv as nat);
        assert(c@.exp as nat == expv as nat);
        assert(biased_aid(c@.aid) == aidv as nat);
        lemma_str_hex_props(c@.sub);
        assert(6 * c@.sub.len() == subu);
        assert(c@.sub.len() == sublenv as nat);
        assert(p@ =~= seq![p@[0]] + p@.subrange(1, 17) + p@.subrange(17, 33) + p@.subrange(33, 49)
            + p@.subrange(49, 65) + p@.subrange(65, mid as int) + p@.subrange(
            mid as int,
            plen as int,
        ));
        assert(p@ =~= access_payload(c@));
    }
    Some(c)
}

/// Parses the canonical payload of a refresh token; succeeds exactly on
/// renderings of a claims view.
pub fn parse_refresh_payload(p: &Vec<u8>) -> (r: Option<RefreshClaims>)
    ensures
        r matches Some(c) ==> p@ =~= refresh_payload(c@) && wf_refresh_claims(c@),
        r is None ==> forall|cv: RefreshClaimsView| p@ !~= refresh_payload(cv),
{
    let plen = p.len();
    if plen < 81 || (plen - 81) % 6 != 0 {
        proof {
            assert forall|cv: RefreshClaimsView| p@ !~= refresh_payload(cv) by {
                lemma_refresh_payload_props(cv);
            }
        }
        return None;
    }
    if p[0] != 0x72 {
        proof {
            assert forall|cv: RefreshClaimsView| p@ !~= refresh_payload(cv) by {
                lemma_refresh_payload_props(cv);
            }
        }
        return None;
    }
    let iatv = match parse_hex(p, 1, 16) {
        Some(v) => v,
        None => {
            proof {
                assert forall|cv: RefreshClaimsView| p@ !~= refresh_payload(cv) by {
                    if p@ =~= refresh_payload(cv) {
                        lemma_refresh_payload_props(cv);
                        lemma_hex_of_shape(cv.iat as nat, 16);
                    }
                }
            }
            return None;
        },
    };
    let expv = match parse_hex(p, 17, 16) {
        Some(v) => v,
        None => {
            proof {
                assert forall|cv: RefreshClaimsView| p@ !~= refresh_payload(cv) by {
                    if p@ =~= refresh_payload(cv) {
                        lemma_refresh_payload_props(cv);
                        lemma_hex_of_shape(cv.exp as nat, 16);
                    }
                }
            }
            return None;
        },
    };
    let ridv = match parse_hex(p, 33, 32) {
        Some(v) => v,
        None => {
            proof {
                assert forall|cv: RefreshClaimsView| p@ !~= refresh_payload(cv) by {
                    if p@ =~= refresh_payload(cv) {
                        lemma_refresh_payload_props(cv);
                        lemma_hex_of_shape(cv.rid as nat, 32);
                    }
                }
            }
            return None;
        },
    };
    let sublenv = match parse_hex(p, 65, 16) {
        Some(v) => v,
        None => {
            proof {
                assert forall|cv: RefreshClaimsView| p@ !~= refresh_payload(cv) by {
                    if p@ =~= refresh_payload(cv) {
                        lemma_refresh_payload_props(cv);
                        lemma_hex_of_shape(cv.sub.len(), 16);
                    }
                }
            }
            return None;
        },
    };
    proof {
        assert(pow16(16) == 0x1_0000_0000_0000_0000) by {
            reveal_with_fuel(pow16, 17);
        }
    }
    if sublenv * 6 > (plen - 81) as u128 {
        proof {
            assert forall|cv: RefreshClaimsView| p@ !~= refresh_payload(cv) by {
                if p@ =~= refresh_payload(cv) {
                    lemma_refresh_payload_props(cv);
                    assert(6 * cv.sub.len() <= plen - 81);
                    assert(cv.sub.len() < pow16(16)) by {
                        assert(pow16(16) == 0x1_0000_0000_0000_0000) by {
                            reveal_with_fuel(pow16, 17);
                        }
                    }
                    lemma_hex_of_value(cv.sub.len(), 16);
                    lemma_hex_canonical(p@.subrange(65, 81));
                    assert(sublenv as nat == cv.sub.len());
                }
            }
        }
        return None;
    }
    let subu: usize = (sublenv as u64) as usize * 6;
    proof {
        assert(sublenv * 6 <= (plen - 81) as u128);
        assert(subu == sublenv * 6);
    }
    let mid: usize = 81 + subu;
    let sub = match parse_str_hex(p, 81, mid) {
        Some(s) => s,
        None => {
            proof {
                assert forall|cv: RefreshClaimsView| p@ !~= refresh_payload(cv) by {
                    if p@ =~= refresh_payload(cv) {
                        lemma_refresh_payload_props(cv);
                        assert(cv.sub.len() < pow16(16)) by {
                            assert(pow16(16) == 0x1_0000_0000_0000_0000) by {
                                reveal_with_fuel(pow16, 17);
                            }
                        }
                        lemma_hex_of_value(cv.sub.len(), 16);
                        lemma_hex_canonical(p@.subrange(65, 81));
                        assert(sublenv as nat == cv.sub.len());
                        assert(p@.subrange(81, mid as int) =~= str_hex(cv.sub));
                    }
                }
            }
            return None;
        },
    };
    let aud = match parse_str_hex(p, mid, plen) {
        Some(s) => s,
        None => {
            proof {
                assert forall|cv: RefreshClaimsView| p@ !~= refresh_payload(cv) by {
                    if p@ =~= refresh_payload(cv) {
                        lemma_refresh_payload_props(cv);
                        assert(cv.sub.len() < pow16(16)) by {
                            assert(pow16(16) == 0x1_0000_0000_0000_0000) by {
                                reveal_with_fuel(pow16, 17);
                            }
                        }
                        lemma_hex_of_value(cv.sub.len(), 16);
                        lemma_hex_canonical(p@.subrange(65, 81));
                        assert(sublenv as nat == cv.sub.len());
                        assert(p@.subrange(mid as int, plen as int) =~= str_hex(cv.aud));
                    }
                }
            }
            return None;
        },
    };
    let c = RefreshClaims { aud, sub, iat: iatv as u64, exp: expv as u64, rid: ridv };
    proof {
        assert(pow16(16) == 0x1_0000_0000_0000_0000) by {
            reveal_with_fuel(pow16, 17);
        }
        lemma_hex_canonical(p@.subrange(1, 17));
        lemma_hex_canonical(p@.subrange(17, 33));
        lemma_hex_canonical(p@.subrange(33, 65));
        lemma_hex_canonical(p@.subrange(65, 81));
        assert(c@.iat as nat == iatv as nat);
        assert(c@.exp as nat == expv as nat);
        assert(c@.rid as nat == ridv as nat);
        lemma_str_hex_props(c@.sub);
        assert(6 * c@.sub.len() == subu);
        assert(c@.sub.len() == sublenv as nat);
        assert(p@ =~= seq![p@[0]] + p@.subrange(1, 17) + p@.subrange(17, 33) + p@.subrange(33, 65)
            + p@.subrange(65, 81) + p@.subrange(81, mid as int) + p@.subrange(
            mid as int,
            plen as int,
        ));
        assert(p@ =~= refresh_payload(c@));
    }
    Some(c)
}

} // verus!
