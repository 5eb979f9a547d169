//! The session registry: the authoritative in-memory record of which
//! refresh ids are currently valid and which account each belongs to.
//!
//! At most one entry exists per account at any instant: issuing a new id
//! for an account evicts its previous one, so a second login invalidates
//! the first. The registry never performs I/O; the embedding application
//! serializes access to it, so each operation here is one atomic step of
//! the shared state.
//!
//! The registry does not expire entries on its own: a refresh claim's
//! lifetime is enforced only where tokens are verified, so an entry stays
//! live until explicit logout or process end. Nothing is persisted; a
//! restart invalidates every outstanding refresh id.

use vstd::prelude::*;

use std::collections::HashMap;

verus! {

broadcast use vstd::std_specs::hash::group_hash_axioms;

/// Relies on rand::random: a 128-bit value from the thread-local
/// generator. Nothing is promised of which value comes back.
#[verifier::external_body]
fn random_u128() -> u128 {
    rand::random::<u128>()
}

/// The id k steps after base, wrapping at the end of the 128-bit space.
spec fn wrap_id(base: u128, k: nat) -> u128
    recommends
        k < 0x1_0000_0000_0000_0000_0000_0000_0000_0000,
{
    if k <= u128::MAX - base {
        (base + k) as u128
    } else {
        (k - (u128::MAX - base) - 1) as u128
    }
}

/// Distinct step counts reach distinct ids within one wrap of the space.
proof fn lemma_wrap_id_injective(base: u128, k1: nat, k2: nat)
    requires
        k1 < 0x1_0000_0000_0000_0000_0000_0000_0000_0000,
        k2 < 0x1_0000_0000_0000_0000_0000_0000_0000_0000,
        wrap_id(base, k1) == wrap_id(base, k2),
    ensures
        k1 == k2,
{
    let w = (u128::MAX - base) as nat;
    if k1 <= w && k2 > w {
        assert(wrap_id(base, k1) >= base);
        assert((wrap_id(base, k2) as nat) < base);
    } else if k1 > w && k2 <= w {
        assert(wrap_id(base, k2) >= base);
        assert((wrap_id(base, k1) as nat) < base);
    }
}

/// The first n ids reached from base.
spec fn ids_from(base: u128, n: nat) -> Set<u128> {
    Set::new(|x: u128| exists|k: nat| k < n && x == wrap_id(base, k))
}

proof fn lemma_ids_from_len(base: u128, n: nat)
    requires
        n <= 0x1_0000_0000_0000_0000_0000_0000_0000_0000,
    ensures
        ids_from(base, n).finite(),
        ids_from(base, n).len() == n,
    decreases n,
{
    if n == 0 {
        assert(ids_from(base, 0) =~= Set::empty());
    } else {
        let n1 = (n - 1) as nat;
        lemma_ids_from_len(base, n1);
        assert(ids_from(base, n) =~= ids_from(base, n1).insert(wrap_id(base, n1))) by {
            assert forall|x: u128| ids_from(base, n).contains(x) implies ids_from(
                base,
                n1,
            ).insert(wrap_id(base, n1)).contains(x) by {
                let k = choose|k: nat| k < n && x == wrap_id(base, k);
                if k < n1 {
                    assert(ids_from(base, n1).contains(x));
                }
            }
            assert forall|x: u128| ids_from(base, n1).insert(wrap_id(base, n1)).contains(
                x,
            ) implies ids_from(base, n).contains(x) by {
                if ids_from(base, n1).contains(x) {
                    let k = choose|k: nat| k < n1 && x == wrap_id(base, k);
                    assert(k < n && x == wrap_id(base, k));
                } else {
                    assert(n1 < n && x == wrap_id(base, n1));
                }
            }
        }
        assert(!ids_from(base, n1).contains(wrap_id(base, n1))) by {
            if ids_from(base, n1).contains(wrap_id(base, n1)) {
                let k = choose|k: nat| k < n1 && wrap_id(base, n1) == wrap_id(base, k);
                lemma_wrap_id_injective(base, k, n1);
            }
        }
    }
}

/// The map with every entry of the given account removed.
pub open spec fn without_account(m: Map<u128, i64>, aid: i64) -> Map<u128, i64> {
    m.remove_keys(m.dom().filter(|r: u128| m[r] == aid))
}

/// The registry: live refresh ids, each mapped to its account, together
/// with the reverse index that makes eviction by account a single lookup.
pub struct SessionRegistry {
    tokens: HashMap<u128, i64>,
    accounts: HashMap<i64, u128>,
}

impl View for SessionRegistry {
    type V = Map<u128, i64>;

    closed spec fn view(&self) -> Map<u128, i64> {
        self.tokens@
    }
}

impl SessionRegistry {
    /// The two indexes agree: r maps to a exactly when a maps back to r.
    pub closed spec fn wf(&self) -> bool {
        &&& forall|r: u128|
            #[trigger] self.tokens@.contains_key(r) ==> self.accounts@.contains_key(
                self.tokens@[r],
            ) && self.accounts@[self.tokens@[r]] == r
        &&& forall|a: i64|
            #[trigger] self.accounts@.contains_key(a) ==> self.tokens@.contains_key(
                self.accounts@[a],
            ) && self.tokens@[self.accounts@[a]] == a
    }

    /// An empty registry.
    pub fn new() -> (r: SessionRegistry)
        ensures
            r.wf(),
            r@ == Map::<u128, i64>::empty(),
    {
        SessionRegistry { tokens: HashMap::new(), accounts: HashMap::new() }
    }

    /// Law: the registry holds at most one entry per account.
    pub proof fn lemma_single_session(&self)
        requires
            self.wf(),
        ensures
            forall|r1: u128, r2: u128|
                self@.contains_key(r1) && self@.contains_key(r2) && #[trigger] self@[r1]
                    == #[trigger] self@[r2] ==> r1 == r2,
    {
    }

    /// Issues a fresh refresh id for the account, evicting any entry the
    /// account already had. The returned id was not live before the call.
    pub fn issue(&mut self, aid: i64) -> (rid: u128)
        requires
            old(self).wf(),
        ensures
            final(self).wf(),
            !old(self)@.contains_key(rid),
            final(self)@ == without_account(old(self)@, aid).insert(rid, aid),
    {
        let rid = self.fresh_id();
        match self.accounts.get(&aid) {
            Some(old_rid_ref) => {
                let old_rid = *old_rid_ref;
                self.tokens.remove(&old_rid);
            },
            None => {},
        }
        self.tokens.insert(rid, aid);
        self.accounts.insert(aid, rid);
        proof {
            let m0 = old(self)@;
            let evicted = without_account(m0, aid);
            if m0.contains_key(rid) {
                assert(false);
            }
            if old(self).accounts@.contains_key(aid) {
                let prev = old(self).accounts@[aid];
                assert(self.tokens@ =~= m0.remove(prev).insert(rid, aid));
                assert forall|r: u128| evicted.contains_key(r) implies m0.remove(
                    prev,
                ).contains_key(r) && evicted[r] == m0.remove(prev)[r] by {
                    assert(m0[r] != aid);
                }
                assert forall|r: u128| m0.remove(prev).contains_key(r) implies evicted.contains_key(
                    r,
                ) by {
                    if m0[r] == aid {
                        assert(old(self).accounts@[aid] == r);
                    }
                }
                assert(evicted =~= m0.remove(prev));
                assert(self.tokens@ =~= evicted.insert(rid, aid));
            } else {
                assert forall|r: u128| m0.contains_key(r) implies m0[r] != aid by {
                    if m0[r] == aid {
                        assert(old(self).accounts@.contains_key(aid));
                    }
                }
                assert(evicted =~= m0);
                assert(self.tokens@ =~= evicted.insert(rid, aid));
            }
        }
        rid
    }

    /// A refresh id that is not live. Random candidates are drawn from the
    /// 128-bit space, where a collision is overwhelmingly unlikely; after a
    /// bounded number of collisions the finitely many live ids are swept
    /// from a fresh random base instead, where one of the first len + 1
    /// steps must reach a free id.
    fn fresh_id(&self) -> (rid: u128)
        ensures
            !self@.contains_key(rid),
    {
        let mut attempts: usize = 0;
        while attempts < 64
            invariant
                attempts <= 64,
            decreases 64 - attempts,
        {
            let rid = random_u128();
            if !self.tokens.contains_key(&rid) {
                return rid;
            }
            attempts = attempts + 1;
        }
        let n = self.tokens.len();
        let base = random_u128();
        let w = u128::MAX - base;
        let mut k: u128 = 0;
        while k < n as u128 + 1
            invariant
                k <= n as u128 + 1,
                n == self.tokens@.dom().len(),
                w == u128::MAX - base,
                forall|j: u128|
                    j < k ==> self.tokens@.contains_key(#[trigger] wrap_id(base, j as nat)),
            decreases n as u128 + 1 - k,
        {
            let candidate: u128 = if k <= w {
                base + k
            } else {
                k - w - 1
            };
            proof {
                assert(candidate == wrap_id(base, k as nat));
            }
            if !self.tokens.contains_key(&candidate) {
                return candidate;
            }
            k = k + 1;
        }
        proof {
            let dom = self.tokens@.dom();
            assert(ids_from(base, n as nat + 1).subset_of(dom)) by {
                assert forall|x: u128| ids_from(base, n as nat + 1).contains(x) implies dom.contains(
                    x,
                ) by {
                    let j = choose|j: nat| j < n as nat + 1 && x == wrap_id(base, j);
                    assert((j as u128) < k);
                    assert(self.tokens@.contains_key(wrap_id(base, (j as u128) as nat)));
                }
            }
            lemma_ids_from_len(base, n as nat + 1);
            vstd::set_lib::lemma_len_subset(ids_from(base, n as nat + 1), dom);
            assert(false);
        }
        0
    }

    /// A pure read: the account of a live refresh id, if any.
    pub fn lookup(&self, rid: u128) -> (r: Option<i64>)
        ensures
            r matches Some(a) ==> self@.contains_key(rid) && self@[rid] == a,
            r is None ==> !self@.contains_key(rid),
    {
        match self.tokens.get(&rid) {
            Some(a) => Some(*a),
            None => None,
        }
    }

    /// Revokes a refresh id. Absence is not an error: the operation is
    /// idempotent and always leaves the id dead.
    pub fn revoke(&mut self, rid: u128)
        requires
            old(self).wf(),
        ensures
            final(self).wf(),
            final(self)@ == old(self)@.remove(rid),
    {
        match self.tokens.get(&rid) {
            Some(aid_ref) => {
                let aid = *aid_ref;
                self.tokens.remove(&rid);
                self.accounts.remove(&aid);
                proof {
                    assert(self.tokens@ =~= old(self)@.remove(rid));
                }
            },
            None => {
                proof {
                    assert(self.tokens@ =~= old(self)@.remove(rid));
                }
            },
        }
    }

    /// The number of live sessions.
    pub fn len(&self) -> (r: usize)
        ensures
            r == self@.dom().len(),
    {
        self.tokens.len()
    }
}

} // verus!
