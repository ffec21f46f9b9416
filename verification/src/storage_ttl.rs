//! Time-to-live policies for storage keys: setting and extending a key's
//! lifetime, asking whether it has expired, sweeping expired keys, and
//! extending the keys that ask for it.
use vstd::prelude::*;
use crate::bytes::{Bytes, Stored};
use crate::collections::{KeyedMap, SwapSet};

verus! {

/// Seconds `auto_extend_ttls` adds to each key it extends (24 hours).
pub const AUTO_EXTENSION_SECONDS: u64 = 86_400;

/// The lifetime policy of one storage key. Times are in seconds.
pub struct StorageTTLPolicy {
    pub key: Bytes,
    pub ttl_seconds: u64,
    pub created_at: u64,
    pub last_accessed: u64,
    pub auto_extend: bool,
}

pub struct StorageTTLPolicyView {
    pub key: Seq<u8>,
    pub ttl_seconds: u64,
    pub created_at: u64,
    pub last_accessed: u64,
    pub auto_extend: bool,
}

impl View for StorageTTLPolicy {
    type V = StorageTTLPolicyView;

    open spec fn view(&self) -> StorageTTLPolicyView {
        StorageTTLPolicyView {
            key: self.key@,
            ttl_seconds: self.ttl_seconds,
            created_at: self.created_at,
            last_accessed: self.last_accessed,
            auto_extend: self.auto_extend,
        }
    }
}

impl Stored for StorageTTLPolicy {
    fn dup(&self) -> (r: StorageTTLPolicy) {
        StorageTTLPolicy {
            key: self.key.dup(),
            ttl_seconds: self.ttl_seconds,
            created_at: self.created_at,
            last_accessed: self.last_accessed,
            auto_extend: self.auto_extend,
        }
    }
}

/// When a policy's key expires.
pub open spec fn expiration(p: StorageTTLPolicyView) -> int {
    p.created_at + p.ttl_seconds
}

/// A key has expired once the time is past its expiration.
pub open spec fn expired_at(p: StorageTTLPolicyView, now: u64) -> bool {
    now > expiration(p)
}

/// Seconds left before expiration, 0 once it is reached.
pub open spec fn remaining_at(p: StorageTTLPolicyView, now: u64) -> int {
    if now >= expiration(p) {
        0
    } else {
        expiration(p) - now
    }
}

/// The policy pushed `additional` seconds further, touched at `now`.
pub open spec fn extended(p: StorageTTLPolicyView, additional: u64, now: u64) -> StorageTTLPolicyView {
    StorageTTLPolicyView {
        ttl_seconds: (p.ttl_seconds + additional) as u64,
        last_accessed: now,
        ..p
    }
}

/// A policy `auto_extend_ttls` extends at `now`.
pub open spec fn due_at(p: StorageTTLPolicyView, now: u64) -> bool {
    p.auto_extend && expired_at(p, now)
}

/// `s` with each item of `xs` appended unless already present, in order.
pub open spec fn add_each<A>(s: Seq<A>, xs: Seq<A>) -> Seq<A>
    decreases xs.len(),
{
    if xs.len() == 0 {
        s
    } else {
        let p = add_each(s, xs.drop_last());
        if p.contains(xs.last()) {
            p
        } else {
            p.push(xs.last())
        }
    }
}

/// The module's storage as values: the policies, their keys in iteration
/// order, the swept keys, and the number of extensions made.
#[verifier::ext_equal]
pub struct TtlState {
    pub policies: Map<Seq<u8>, StorageTTLPolicyView>,
    pub order: Seq<Seq<u8>>,
    pub expired_keys: Seq<Seq<u8>>,
    pub extension_count: u64,
}

/// Each policy is stored under its own key, the order lists each key once,
/// and no key is recorded as swept twice.
pub open spec fn ttl_inv(s: TtlState) -> bool {
    &&& s.order.no_duplicates()
    &&& forall|k: Seq<u8>| #[trigger] s.policies.contains_key(k) <==> s.order.contains(k)
    &&& forall|k: Seq<u8>| #[trigger] s.policies.contains_key(k) ==> s.policies[k].key == k
    &&& s.expired_keys.no_duplicates()
}

pub open spec fn set_policy_next(s: TtlState, key: Seq<u8>, ttl_seconds: u64, auto_extend: bool, now: u64) -> TtlState {
    TtlState {
        policies: s.policies.insert(
            key,
            StorageTTLPolicyView {
                key,
                ttl_seconds,
                created_at: now,
                last_accessed: now,
                auto_extend,
            },
        ),
        order: if s.policies.contains_key(key) {
            s.order
        } else {
            s.order.push(key)
        },
        ..s
    }
}

pub open spec fn extend_next(s: TtlState, key: Seq<u8>, additional: u64, now: u64) -> (TtlState, bool) {
    if s.policies.contains_key(key) {
        (
            TtlState {
                policies: s.policies.insert(key, extended(s.policies[key], additional, now)),
                extension_count: (s.extension_count + 1) as u64,
                ..s
            },
            true,
        )
    } else {
        (s, false)
    }
}

pub open spec fn remove_next(s: TtlState, key: Seq<u8>) -> (TtlState, bool) {
    if s.policies.contains_key(key) {
        (
            TtlState {
                policies: s.policies.remove(key),
                order: s.order.remove(s.order.index_of(key)),
                ..s
            },
            true,
        )
    } else {
        (s, false)
    }
}

/// The keys whose policy has expired at `now`, in iteration order.
pub open spec fn expired_in(s: TtlState, now: u64) -> Seq<Seq<u8>> {
    s.order.filter(|k: Seq<u8>| expired_at(s.policies[k], now))
}

/// The keys whose policy `auto_extend_ttls` extends at `now`, in iteration order.
pub open spec fn due_in(s: TtlState, now: u64) -> Seq<Seq<u8>> {
    s.order.filter(|k: Seq<u8>| due_at(s.policies[k], now))
}

/// Sweeping at `now` drops every expired policy, keeps the others in their
/// order, records the dropped keys as swept, and counts them.
pub open spec fn cleanup_next(s: TtlState, now: u64) -> (TtlState, u64) {
    (
        TtlState {
            policies: Map::new(
                |k: Seq<u8>| s.policies.contains_key(k) && !expired_at(s.policies[k], now),
                |k: Seq<u8>| s.policies[k],
            ),
            order: s.order.filter(|k: Seq<u8>| !expired_at(s.policies[k], now)),
            expired_keys: add_each(s.expired_keys, expired_in(s, now)),
            ..s
        },
        expired_in(s, now).len() as u64,
    )
}

/// Auto-extension at `now` pushes every due policy a day further and counts
/// the extensions.
pub open spec fn auto_extend_next(s: TtlState, now: u64) -> (TtlState, u64) {
    (
        TtlState {
            policies: Map::new(
                |k: Seq<u8>| s.policies.contains_key(k),
                |k: Seq<u8>|
                    if due_at(s.policies[k], now) {
                        extended(s.policies[k], AUTO_EXTENSION_SECONDS, now)
                    } else {
                        s.policies[k]
                    },
            ),
            extension_count: (s.extension_count + due_in(s, now).len()) as u64,
            ..s
        },
        due_in(s, now).len() as u64,
    )
}

/// One more item of `s` through a filter.
pub proof fn lemma_filter_take_step<A>(s: Seq<A>, p: spec_fn(A) -> bool, i: int)
    requires
        0 <= i < s.len(),
    ensures
        s.take(i + 1).filter(p) == (if p(s[i]) {
            s.take(i).filter(p).push(s[i])
        } else {
            s.take(i).filter(p)
        }),
{
    reveal(Seq::filter);
    assert(s.take(i + 1).drop_last() =~= s.take(i));
    assert(s.take(i + 1).last() == s[i]);
}

/// One more item of `s` in a prefix.
pub proof fn lemma_take_step_contains<A>(s: Seq<A>, i: int)
    requires
        0 <= i < s.len(),
    ensures
        forall|x: A| #[trigger] s.take(i + 1).contains(x) <==> (s.take(i).contains(x) || x == s[i]),
        s.no_duplicates() ==> !s.take(i).contains(s[i]),
{
    assert(s.take(i + 1) =~= s.take(i).push(s[i]));
    assert forall|x: A| #[trigger] s.take(i + 1).contains(x) <==> (s.take(i).contains(x) || x == s[i]) by {
        let t0 = s.take(i);
        let t1 = s.take(i + 1);
        if t1.contains(x) && x != s[i] {
            let j = choose|j: int| 0 <= j < t1.len() && t1[j] == x;
            assert(t0[j] == x);
        }
        if t0.contains(x) {
            let j = choose|j: int| 0 <= j < t0.len() && t0[j] == x;
            assert(t1[j] == x);
        }
        if x == s[i] {
            assert(t1[i] == x);
        }
    }
    if s.no_duplicates() && s.take(i).contains(s[i]) {
        let t0 = s.take(i);
        let j = choose|j: int| 0 <= j < t0.len() && t0[j] == s[i];
        assert(s[j] == s[i]);
    }
}

/// A prefix passes no more items through a filter than the whole sequence.
pub proof fn lemma_filter_take_len<A>(s: Seq<A>, p: spec_fn(A) -> bool, i: int)
    requires
        0 <= i <= s.len(),
    ensures
        s.take(i).filter(p).len() <= s.filter(p).len(),
{
    assert(s =~= s.take(i) + s.skip(i));
    Seq::filter_distributes_over_add(s.take(i), s.skip(i), p);
}

/// Filtering a sequence without duplicates leaves none.
pub proof fn lemma_filter_no_dup<A>(s: Seq<A>, p: spec_fn(A) -> bool)
    requires
        s.no_duplicates(),
    ensures
        s.filter(p).no_duplicates(),
    decreases s.len(),
{
    reveal(Seq::filter);
    if s.len() > 0 {
        let d = s.drop_last();
        assert(d.no_duplicates());
        lemma_filter_no_dup(d, p);
        let f = d.filter(p);
        let x = s.last();
        if p(x) {
            assert(!f.contains(x)) by {
                if f.contains(x) {
                    d.lemma_filter_contains_rev(p, x);
                    let k = choose|k: int| 0 <= k < d.len() && d[k] == x;
                    assert(s[k] == s[s.len() - 1]);
                }
            }
            assert forall|i: int, j: int|
                0 <= i < f.len() + 1 && 0 <= j < f.len() + 1 && i != j implies f.push(x)[i] != f.push(
                x,
            )[j] by {
                if i == f.len() && j < f.len() {
                    assert(f[j] != x) by {
                        if f[j] == x {
                            assert(f.contains(x));
                        }
                    }
                } else if j == f.len() && i < f.len() {
                    assert(f[i] != x) by {
                        if f[i] == x {
                            assert(f.contains(x));
                        }
                    }
                }
            }
        }
    }
}

/// What `add_each` holds.
pub proof fn lemma_add_each<A>(s: Seq<A>, xs: Seq<A>)
    requires
        s.no_duplicates(),
    ensures
        add_each(s, xs).no_duplicates(),
        forall|x: A| #[trigger] add_each(s, xs).contains(x) <==> (s.contains(x) || xs.contains(x)),
    decreases xs.len(),
{
    if xs.len() > 0 {
        let q = xs.drop_last();
        lemma_add_each(s, q);
        let p = add_each(s, q);
        let y = xs.last();
        if !p.contains(y) {
            assert forall|i: int, j: int|
                0 <= i < p.len() + 1 && 0 <= j < p.len() + 1 && i != j implies p.push(y)[i] != p.push(
                y,
            )[j] by {
                if i == p.len() && j < p.len() {
                    assert(p[j] != y) by {
                        if p[j] == y {
                            assert(p.contains(y));
                        }
                    }
                } else if j == p.len() && i < p.len() {
                    assert(p[i] != y) by {
                        if p[i] == y {
                            assert(p.contains(y));
                        }
                    }
                }
            }
        }
        assert forall|x: A| #[trigger] add_each(s, xs).contains(x) <==> (s.contains(x) || xs.contains(x)) by {
            if xs.contains(x) && !q.contains(x) {
                let k = choose|k: int| 0 <= k < xs.len() && xs[k] == x;
                if k < q.len() {
                    assert(q[k] == x);
                }
                assert(x == y);
                if !p.contains(y) {
                    assert(p.push(y)[p.len() as int] == y);
                }
            }
            if q.contains(x) {
                let k = choose|k: int| 0 <= k < q.len() && q[k] == x;
                assert(xs[k] == x);
            }
            if add_each(s, xs).contains(x) && !p.contains(x) {
                let k = choose|k: int| 0 <= k < add_each(s, xs).len() && add_each(s, xs)[k] == x;
                if k < p.len() {
                    assert(p[k] == x);
                }
                assert(x == y);
                assert(xs[xs.len() - 1] == y);
            }
            if p.contains(x) {
                let k = choose|k: int| 0 <= k < p.len() && p[k] == x;
                if !p.contains(y) {
                    assert(p.push(y)[k] == x);
                }
            }
        }
    }
}

/// A policy's remaining time is zero exactly when the time has reached its
/// expiration, so an expired key has none left, and a key with time left has
/// not expired.
pub proof fn law_remaining_vs_expired(p: StorageTTLPolicyView, now: u64)
    ensures
        remaining_at(p, now) == 0 <==> now >= expiration(p),
        expired_at(p, now) ==> remaining_at(p, now) == 0,
        remaining_at(p, now) > 0 ==> !expired_at(p, now),
        remaining_at(p, now) >= 0,
{
}

/// Extending moves the expiration by exactly the added seconds, from the
/// same creation time: the policy's TTL grows by the added seconds, it is
/// marked as touched now, and its key and auto-extension setting stay. Every
/// other policy, the key order and the swept keys stay; one extension is
/// counted. A key without a policy changes nothing.
pub proof fn law_extend_moves_expiration(s: TtlState, key: Seq<u8>, additional: u64, now: u64)
    requires
        s.policies.contains_key(key),
        expiration(s.policies[key]) + additional <= u64::MAX,
    ensures
        ({
            let (s2, r) = extend_next(s, key, additional, now);
            let p = s.policies[key];
            let q = s2.policies[key];
            &&& r
            &&& expiration(q) == expiration(p) + additional
            &&& q.created_at == p.created_at
            &&& q.ttl_seconds == p.ttl_seconds + additional
            &&& q.last_accessed == now
            &&& q.key == p.key
            &&& q.auto_extend == p.auto_extend
            &&& s2.policies.dom() == s.policies.dom()
            &&& forall|j: Seq<u8>| #[trigger] s.policies.contains_key(j) && j != key ==> s2.policies[j]
                == s.policies[j]
            &&& s2.order == s.order
            &&& s2.expired_keys == s.expired_keys
            &&& s.extension_count < u64::MAX ==> s2.extension_count == s.extension_count + 1
        }),
        forall|k: Seq<u8>| !s.policies.contains_key(k) ==> #[trigger] extend_next(s, k, additional, now) == (s, false),
{
    let s2 = extend_next(s, key, additional, now).0;
    assert(s2.policies.dom() =~= s.policies.dom());
}

/// Two extensions of a key at the same time leave its policy as one extension
/// by their sum does, and count as two extensions.
pub proof fn law_extend_composes(s: TtlState, key: Seq<u8>, a: u64, b: u64, now: u64)
    requires
        s.policies.contains_key(key),
        expiration(s.policies[key]) + a + b <= u64::MAX,
        s.extension_count + 2 <= u64::MAX,
    ensures
        ({
            let twice = extend_next(extend_next(s, key, a, now).0, key, b, now).0;
            let once = extend_next(s, key, (a + b) as u64, now).0;
            &&& twice.policies == once.policies
            &&& twice.order == once.order
            &&& twice.extension_count == s.extension_count + 2
            &&& once.extension_count == s.extension_count + 1
        }),
{
    let twice = extend_next(extend_next(s, key, a, now).0, key, b, now).0;
    let once = extend_next(s, key, (a + b) as u64, now).0;
    assert(twice.policies =~= once.policies);
}

/// After a sweep no remaining policy has expired, every key that had expired
/// is recorded as swept, no unexpired policy is lost, and the invariant holds.
pub proof fn law_cleanup(s: TtlState, now: u64)
    requires
        ttl_inv(s),
    ensures
        ({
            let s2 = cleanup_next(s, now).0;
            &&& forall|k: Seq<u8>| #[trigger] s2.policies.contains_key(k) ==> !expired_at(
                s2.policies[k],
                now,
            )
            &&& forall|k: Seq<u8>|
                #[trigger] s.policies.contains_key(k) && expired_at(s.policies[k], now)
                    ==> s2.expired_keys.contains(k) && !s2.policies.contains_key(k)
            &&& forall|k: Seq<u8>|
                #[trigger] s.policies.contains_key(k) && !expired_at(s.policies[k], now)
                    ==> s2.policies.contains_key(k) && s2.policies[k] == s.policies[k]
            &&& ttl_inv(s2)
        }),
{
    let s2 = cleanup_next(s, now).0;
    let keep = |k: Seq<u8>| !expired_at(s.policies[k], now);
    let drop = |k: Seq<u8>| expired_at(s.policies[k], now);
    let ex = expired_in(s, now);
    lemma_add_each(s.expired_keys, ex);
    broadcast use vstd::seq_lib::group_filter_ensures;
    assert forall|k: Seq<u8>|
        #[trigger] s.policies.contains_key(k) && expired_at(s.policies[k], now) implies s2.expired_keys.contains(k) by {
        assert(s.order.contains(k));
        let i = choose|i: int| 0 <= i < s.order.len() && s.order[i] == k;
        assert(drop(s.order[i]));
        assert(ex.contains(s.order[i]));
    }
    assert forall|k: Seq<u8>| #[trigger] s2.policies.contains_key(k) <==> s2.order.contains(k) by {
        if s2.policies.contains_key(k) {
            assert(s.order.contains(k));
            let i = choose|i: int| 0 <= i < s.order.len() && s.order[i] == k;
            assert(keep(s.order[i]));
        }
        if s2.order.contains(k) {
            let i = choose|i: int| 0 <= i < s2.order.len() && s2.order[i] == k;
            assert(keep(s2.order[i]));
            assert(s.order.to_set().contains(k) ==> s.order.contains(k));
            s.order.lemma_filter_contains_rev(keep, k);
        }
    }
    lemma_filter_no_dup(s.order, keep);
}

/// Auto-extension touches exactly the due policies, pushing each a day
/// further from the same creation time, and keeps the invariant.
pub proof fn law_auto_extend(s: TtlState, now: u64, k: Seq<u8>)
    requires
        ttl_inv(s),
        s.policies.contains_key(k),
        due_at(s.policies[k], now) ==> expiration(s.policies[k]) + AUTO_EXTENSION_SECONDS <= u64::MAX,
    ensures
        ({
            let s2 = auto_extend_next(s, now).0;
            &&& s2.policies.contains_key(k)
            &&& due_at(s.policies[k], now) ==> expiration(s2.policies[k]) == expiration(s.policies[k])
                + AUTO_EXTENSION_SECONDS && s2.policies[k].last_accessed == now
            &&& !due_at(s.policies[k], now) ==> s2.policies[k] == s.policies[k]
            &&& due_at(s.policies[k], now) ==> s2.policies[k].ttl_seconds == s.policies[k].ttl_seconds
                + AUTO_EXTENSION_SECONDS
            &&& s2.policies[k].created_at == s.policies[k].created_at
            &&& s2.policies[k].key == s.policies[k].key
            &&& s2.policies[k].auto_extend == s.policies[k].auto_extend
            &&& ttl_inv(s2)
        }),
{
    let s2 = auto_extend_next(s, now).0;
    assert forall|j: Seq<u8>| #[trigger] s2.policies.contains_key(j) implies s2.policies[j].key == j by {
        assert(s.policies.contains_key(j));
    }
}

/// The policy book.
pub struct StorageTTLModule {
    policies: KeyedMap<Bytes, StorageTTLPolicy>,
    expired_keys: SwapSet<Bytes>,
    ttl_extension_count: u64,
}

impl View for StorageTTLModule {
    type V = TtlState;

    closed spec fn view(&self) -> TtlState {
        TtlState {
            policies: self.policies@,
            order: self.policies.order(),
            expired_keys: self.expired_keys@,
            extension_count: self.ttl_extension_count,
        }
    }
}

impl StorageTTLModule {
    pub closed spec fn wf(self) -> bool {
        &&& self.policies.wf()
        &&& self.expired_keys.wf()
        &&& forall|k: Seq<u8>| #[trigger] self.policies@.contains_key(k) ==> self.policies@[k].key == k
    }

    /// What a well-formed book guarantees of its value.
    pub proof fn lemma_inv(self)
        requires
            self.wf(),
        ensures
            ttl_inv(self@),
    {
        self.policies.lemma_wf();
    }

    /// Empty storage.
    pub fn new() -> (r: Self)
        ensures
            r.wf(),
            r@.policies == Map::<Seq<u8>, StorageTTLPolicyView>::empty(),
            r@.order == Seq::<Seq<u8>>::empty(),
            r@.expired_keys == Seq::<Seq<u8>>::empty(),
            r@.extension_count == 0,
    {
        StorageTTLModule {
            policies: KeyedMap::new(),
            expired_keys: SwapSet::new(),
            ttl_extension_count: 0,
        }
    }

    /// Number of extensions made so far.
    pub fn ttl_extension_count(&self) -> (r: u64)
        ensures
            r == self@.extension_count,
    {
        self.ttl_extension_count
    }

    /// The keys swept so far, in listing order.
    pub fn get_expired_keys(&self) -> (r: Vec<Bytes>)
        ensures
            r@.map_values(|b: Bytes| b@) == self@.expired_keys,
    {
        self.expired_keys.to_vec()
    }

    /// Gives `key` a policy created at `now` lasting `ttl_seconds`,
    /// replacing any earlier one.
    pub fn set_ttl_policy(&mut self, key: Bytes, ttl_seconds: u64, auto_extend: bool, now: u64)
        requires
            old(self).wf(),
        ensures
            final(self).wf(),
            final(self)@ == set_policy_next(old(self)@, key@, ttl_seconds, auto_extend, now),
    {
        let policy = StorageTTLPolicy {
            key: key.dup(),
            ttl_seconds,
            created_at: now,
            last_accessed: now,
            auto_extend,
        };
        let ghost kv = key@;
        self.policies.insert(key, policy);
        assert(self@ =~= set_policy_next(old(self)@, kv, ttl_seconds, auto_extend, now));
    }

    /// Extends the policy at position `i`.
    fn extend_at(&mut self, i: usize, additional_seconds: u64, now: u64)
        requires
            old(self).wf(),
            i < old(self)@.order.len(),
            expiration(old(self)@.policies[old(self)@.order[i as int]]) + additional_seconds
                <= u64::MAX,
            old(self)@.extension_count < u64::MAX,
        ensures
            final(self).wf(),
            final(self)@ == extend_next(old(self)@, old(self)@.order[i as int], additional_seconds, now).0,
    {
        let p = self.policies.value_at(i);
        let current_expiration = p.created_at + p.ttl_seconds;
        let new_expiration = current_expiration + additional_seconds;
        let updated = StorageTTLPolicy {
            key: p.key.dup(),
            ttl_seconds: new_expiration - p.created_at,
            created_at: p.created_at,
            last_accessed: now,
            auto_extend: p.auto_extend,
        };
        let ghost k = self@.order[i as int];
        proof {
            self.policies.lemma_wf();
            assert(self.policies.order()[i as int] == k);
            assert(self@.order.contains(k));
            assert(self@.policies.contains_key(k));
        }
        assert(updated@ == extended(old(self)@.policies[k], additional_seconds, now));
        self.policies.swap_value_at(i, updated);
        self.ttl_extension_count = self.ttl_extension_count + 1;
        assert(self@ =~= extend_next(old(self)@, k, additional_seconds, now).0);
    }

    /// Pushes the expiration of `key` back by `additional_seconds`; tells
    /// whether the key has a policy.
    pub fn extend_ttl(&mut self, key: &Bytes, additional_seconds: u64, now: u64) -> (r: bool)
        requires
            old(self).wf(),
            old(self)@.policies.contains_key(key@) ==> expiration(old(self)@.policies[key@])
                + additional_seconds <= u64::MAX && old(self)@.extension_count < u64::MAX,
        ensures
            final(self).wf(),
            (final(self)@, r) == extend_next(old(self)@, key@, additional_seconds, now),
            r == old(self)@.policies.contains_key(key@),
            !r ==> final(self)@ == old(self)@,
            r ==> final(self)@.policies[key@] == (StorageTTLPolicyView {
                ttl_seconds: (old(self)@.policies[key@].ttl_seconds + additional_seconds) as u64,
                last_accessed: now,
                ..old(self)@.policies[key@]
            }),
    {
        match self.policies.find(key) {
            Some(i) => {
                self.extend_at(i, additional_seconds, now);
                true
            },
            None => false,
        }
    }

    /// Whether `key` has a policy that has expired at `now`.
    pub fn is_expired(&self, key: &Bytes, now: u64) -> (r: bool)
        requires
            self.wf(),
            self@.policies.contains_key(key@) ==> expiration(self@.policies[key@]) <= u64::MAX,
        ensures
            r == (self@.policies.contains_key(key@) && expired_at(self@.policies[key@], now)),
    {
        match self.policies.get(key) {
            Some(p) => now > p.created_at + p.ttl_seconds,
            None => false,
        }
    }

    /// Seconds `key` has left at `now`; 0 without a policy.
    pub fn get_remaining_ttl(&self, key: &Bytes, now: u64) -> (r: u64)
        requires
            self.wf(),
            self@.policies.contains_key(key@) ==> expiration(self@.policies[key@]) <= u64::MAX,
        ensures
            r == (if self@.policies.contains_key(key@) {
                remaining_at(self@.policies[key@], now)
            } else {
                0
            }),
    {
        match self.policies.get(key) {
            Some(p) => {
                let expiration = p.created_at + p.ttl_seconds;
                if now >= expiration {
                    0
                } else {
                    expiration - now
                }
            },
            None => 0,
        }
    }

    /// Drops every policy expired at `now`, records the dropped keys as
    /// swept, and returns how many were dropped.
    pub fn cleanup_expired_keys(&mut self, now: u64) -> (r: u64)
        requires
            old(self).wf(),
            forall|k: Seq<u8>| #[trigger] old(self)@.policies.contains_key(k) ==> expiration(
                old(self)@.policies[k],
            ) <= u64::MAX,
        ensures
            final(self).wf(),
            (final(self)@, r) == cleanup_next(old(self)@, now),
    {
        let ghost s = self@;
        let ghost keep = |k: Seq<u8>| !expired_at(s.policies[k], now);
        let ghost drop = |k: Seq<u8>| expired_at(s.policies[k], now);
        proof {
            self.lemma_inv();
        }
        let mut survivors: KeyedMap<Bytes, StorageTTLPolicy> = KeyedMap::new();
        let mut removed: Vec<Bytes> = Vec::new();
        let n = self.policies.len();
        for i in 0..n
            invariant
                n == s.order.len(),
                self@ == s,
                forall|k: Seq<u8>| #[trigger] keep(k) == !expired_at(s.policies[k], now),
                forall|k: Seq<u8>| #[trigger] drop(k) == expired_at(s.policies[k], now),
                self.wf(),
                ttl_inv(s),
                survivors.wf(),
                survivors.order() == s.order.take(i as int).filter(keep),
                forall|k: Seq<u8>| #[trigger] survivors@.contains_key(k) <==> (s.order.take(
                    i as int,
                ).contains(k) && keep(k)),
                forall|k: Seq<u8>| #[trigger] survivors@.contains_key(k) ==> survivors@[k]
                    == s.policies[k],
                removed@.map_values(|b: Bytes| b@) == s.order.take(i as int).filter(drop),
                forall|k: Seq<u8>| #[trigger] s.policies.contains_key(k) ==> expiration(
                    s.policies[k],
                ) <= u64::MAX,
        {
            proof {
                lemma_filter_take_step(s.order, keep, i as int);
                lemma_filter_take_step(s.order, drop, i as int);
                lemma_take_step_contains(s.order, i as int);
            }
            let k = self.policies.key_at(i);
            let p = self.policies.value_at(i);
            let ghost kv = k@;
            assert(kv == s.order[i as int]);
            assert(s.order.contains(kv));
            assert(s.policies.contains_key(kv));
            assert(p@ == s.policies[kv]);
            assert(!s.order.take(i as int).contains(kv));
            assert(!survivors@.contains_key(kv));
            if now > p.created_at + p.ttl_seconds {
                let ghost before = removed@;
                removed.push(k.dup());
                assert(removed@.map_values(|b: Bytes| b@) =~= before.map_values(|b: Bytes| b@).push(kv));
            } else {
                survivors.insert(k.dup(), p.dup());
            }
        }
        proof {
            assert(s.order.take(n as int) =~= s.order);
        }
        let mut j: usize = 0;
        let ghost ex = s.order.filter(drop);
        let ghost e0 = self.expired_keys@;
        proof {
            assert(ex =~= expired_in(s, now));
        }
        while j < removed.len()
            invariant
                self.expired_keys.wf(),
                self.ttl_extension_count == s.extension_count,
                removed@.map_values(|b: Bytes| b@) == ex,
                self.expired_keys@ == add_each(e0, ex.take(j as int)),
                j <= removed@.len(),
            decreases removed@.len() - j,
        {
            proof {
                assert(ex.take(j + 1).drop_last() =~= ex.take(j as int));
                assert(ex.take(j + 1).last() == ex[j as int]);
                assert(removed@[j as int]@ == ex[j as int]);
            }
            self.expired_keys.insert(removed[j].dup());
            j = j + 1;
        }
        proof {
            assert(ex.take(removed@.len() as int) =~= ex);
            survivors.lemma_wf();
            broadcast use vstd::seq_lib::group_filter_ensures;
        }
        self.policies = survivors;
        proof {
            assert forall|k: Seq<u8>| #[trigger] self.policies@.contains_key(k) <==> (s.policies.contains_key(k)
                && keep(k)) by {
                if self.policies@.contains_key(k) {
                    let i = choose|i: int| 0 <= i < s.order.len() && s.order[i] == k;
                }
                if s.policies.contains_key(k) && keep(k) {
                    assert(s.order.contains(k));
                }
            }
            assert(self@.policies =~= cleanup_next(s, now).0.policies);
            assert(keep =~= (|k: Seq<u8>| !expired_at(s.policies[k], now)));
            assert(self@ =~= cleanup_next(s, now).0);
        }
        removed.len() as u64
    }

    /// Extends by a day every policy that asks for it and has expired at
    /// `now`; returns how many it extended.
    pub fn auto_extend_ttls(&mut self, now: u64) -> (r: u64)
        requires
            old(self).wf(),
            forall|k: Seq<u8>| #[trigger] old(self)@.policies.contains_key(k) && old(self)@.policies[k].auto_extend
                ==> expiration(old(self)@.policies[k]) <= u64::MAX,
            forall|k: Seq<u8>| #[trigger] old(self)@.policies.contains_key(k) && due_at(old(self)@.policies[k], now)
                ==> expiration(old(self)@.policies[k]) + AUTO_EXTENSION_SECONDS <= u64::MAX,
            old(self)@.extension_count + due_in(old(self)@, now).len() <= u64::MAX,
        ensures
            final(self).wf(),
            (final(self)@, r) == auto_extend_next(old(self)@, now),
    {
        let ghost s = self@;
        let ghost due = |k: Seq<u8>| due_at(s.policies[k], now);
        proof {
            self.lemma_inv();
        }
        let mut extended_count: u64 = 0;
        let n = self.policies.len();
        for i in 0..n
            invariant
                n == s.order.len(),
                ttl_inv(s),
                self.wf(),
                forall|k: Seq<u8>| #[trigger] due(k) == due_at(s.policies[k], now),
                self@.order == s.order,
                self@.expired_keys == s.expired_keys,
                forall|k: Seq<u8>| #[trigger] self@.policies.contains_key(k) <==> s.policies.contains_key(k),
                forall|k: Seq<u8>| #[trigger] self@.policies.contains_key(k) ==> self@.policies[k] == (if s.order.take(i as int).contains(k) && due(k) {
                    extended(s.policies[k], AUTO_EXTENSION_SECONDS, now)
                } else {
                    s.policies[k]
                }),
                extended_count == s.order.take(i as int).filter(due).len(),
                self@.extension_count == s.extension_count + extended_count,
                s.extension_count + s.order.filter(due).len() <= u64::MAX,
                forall|k: Seq<u8>| #[trigger] s.policies.contains_key(k) && s.policies[k].auto_extend
                    ==> expiration(s.policies[k]) <= u64::MAX,
                forall|k: Seq<u8>| #[trigger] s.policies.contains_key(k) && due_at(s.policies[k], now)
                    ==> expiration(s.policies[k]) + AUTO_EXTENSION_SECONDS <= u64::MAX,
        {
            let ghost k = s.order[i as int];
            proof {
                lemma_filter_take_step(s.order, due, i as int);
                lemma_filter_take_len(s.order, due, i + 1);
                lemma_take_step_contains(s.order, i as int);
                assert(s.order[i as int] == k);
                assert(s.order.contains(k));
                assert(s.policies.contains_key(k));
                assert(self@.policies.contains_key(k));
                assert(!s.order.take(i as int).contains(k));
                assert(self@.policies[k] == s.policies[k]);
            }
            let p = self.policies.value_at(i);
            if p.auto_extend && now > p.created_at + p.ttl_seconds {
                self.extend_at(i, AUTO_EXTENSION_SECONDS, now);
                extended_count = extended_count + 1;
            }
        }
        proof {
            assert(s.order.take(n as int) =~= s.order);
            assert(self@.policies =~= auto_extend_next(s, now).0.policies);
            assert(self@ =~= auto_extend_next(s, now).0);
        }
        extended_count
    }

    pub fn get_ttl_policy(&self, key: &Bytes) -> (r: Option<StorageTTLPolicy>)
        requires
            self.wf(),
        ensures
            match r {
                Some(p) => self@.policies.contains_key(key@) && self@.policies[key@] == p@,
                None => !self@.policies.contains_key(key@),
            },
    {
        match self.policies.get(key) {
            Some(p) => Some(p.dup()),
            None => None,
        }
    }

    /// Whether the expiration of `key`'s policy, if any, fits in 64 bits
    /// (what `is_expired` and `get_remaining_ttl` need).
    pub fn expiry_fits(&self, key: &Bytes) -> (r: bool)
        requires
            self.wf(),
        ensures
            r == (self@.policies.contains_key(key@) ==> expiration(self@.policies[key@]) <= u64::MAX),
    {
        match self.policies.get(key) {
            Some(p) => p.created_at <= u64::MAX - p.ttl_seconds,
            None => true,
        }
    }

    /// Whether extending `key` by `additional_seconds` stays within 64 bits
    /// (what `extend_ttl` needs).
    pub fn extend_fits(&self, key: &Bytes, additional_seconds: u64) -> (r: bool)
        requires
            self.wf(),
        ensures
            r == (self@.policies.contains_key(key@) ==> expiration(self@.policies[key@])
                + additional_seconds <= u64::MAX && self@.extension_count < u64::MAX),
    {
        match self.policies.get(key) {
            Some(p) => p.created_at <= u64::MAX - p.ttl_seconds && p.created_at + p.ttl_seconds
                <= u64::MAX - additional_seconds && self.ttl_extension_count < u64::MAX,
            None => true,
        }
    }

    /// Whether every expiration fits in 64 bits (what `cleanup_expired_keys` needs).
    pub fn cleanup_fits(&self) -> (r: bool)
        requires
            self.wf(),
        ensures
            r == (forall|k: Seq<u8>| #[trigger] self@.policies.contains_key(k) ==> expiration(
                self@.policies[k],
            ) <= u64::MAX),
    {
        let ghost s = self@;
        proof {
            self.lemma_inv();
        }
        let n = self.policies.len();
        for i in 0..n
            invariant
                n == s.order.len(),
                self@ == s,
                self.wf(),
                ttl_inv(s),
                forall|j: int| 0 <= j < i ==> expiration(s.policies[#[trigger] s.order[j]]) <= u64::MAX,
        {
            let p = self.policies.value_at(i);
            if p.created_at > u64::MAX - p.ttl_seconds {
                proof {
                    let k = s.order[i as int];
                    assert(s.order.contains(k));
                    assert(s.policies.contains_key(k));
                }
                return false;
            }
        }
        proof {
            assert forall|k: Seq<u8>| #[trigger] s.policies.contains_key(k) implies expiration(
                s.policies[k],
            ) <= u64::MAX by {
                assert(s.order.contains(k));
                let j = choose|j: int| 0 <= j < s.order.len() && s.order[j] == k;
            }
        }
        true
    }

    /// Whether auto-extension at `now` stays within 64 bits (what
    /// `auto_extend_ttls` needs).
    pub fn auto_extend_fits(&self, now: u64) -> (r: bool)
        requires
            self.wf(),
        ensures
            r == ((forall|k: Seq<u8>| #[trigger] self@.policies.contains_key(k) && self@.policies[k].auto_extend
                ==> expiration(self@.policies[k]) <= u64::MAX)
                && (forall|k: Seq<u8>| #[trigger] self@.policies.contains_key(k) && due_at(self@.policies[k], now)
                ==> expiration(self@.policies[k]) + AUTO_EXTENSION_SECONDS <= u64::MAX)
                && self@.extension_count + due_in(self@, now).len() <= u64::MAX),
    {
        let ghost s = self@;
        let ghost due = |k: Seq<u8>| due_at(s.policies[k], now);
        proof {
            self.lemma_inv();
        }
        let n = self.policies.len();
        let mut count: u64 = 0;
        for i in 0..n
            invariant
                n == s.order.len(),
                self@ == s,
                self.wf(),
                ttl_inv(s),
                forall|k: Seq<u8>| #[trigger] due(k) == due_at(s.policies[k], now),
                forall|j: int| 0 <= j < i && s.policies[#[trigger] s.order[j]].auto_extend ==> expiration(
                    s.policies[s.order[j]],
                ) <= u64::MAX,
                forall|j: int| 0 <= j < i && due(#[trigger] s.order[j]) ==> expiration(
                    s.policies[s.order[j]],
                ) + AUTO_EXTENSION_SECONDS <= u64::MAX,
                count == s.order.take(i as int).filter(due).len(),
                count <= i,
        {
            let p = self.policies.value_at(i);
            proof {
                lemma_filter_take_step(s.order, due, i as int);
                let k = s.order[i as int];
                assert(s.order.contains(k));
                assert(s.policies.contains_key(k));
            }
            if p.auto_extend {
                if p.created_at > u64::MAX - p.ttl_seconds {
                    return false;
                }
                if now > p.created_at + p.ttl_seconds {
                    if p.created_at + p.ttl_seconds > u64::MAX - AUTO_EXTENSION_SECONDS {
                        return false;
                    }
                    count = count + 1;
                }
            }
        }
        proof {
            assert(s.order.take(n as int) =~= s.order);
            assert(due_in(s, now) == s.order.filter(due));
            assert forall|k: Seq<u8>| #[trigger] s.policies.contains_key(k) && s.policies[k].auto_extend
                implies expiration(s.policies[k]) <= u64::MAX by {
                assert(s.order.contains(k));
                let j = choose|j: int| 0 <= j < s.order.len() && s.order[j] == k;
            }
            assert forall|k: Seq<u8>| #[trigger] s.policies.contains_key(k) && due_at(s.policies[k], now)
                implies expiration(s.policies[k]) + AUTO_EXTENSION_SECONDS <= u64::MAX by {
                assert(s.order.contains(k));
                let j = choose|j: int| 0 <= j < s.order.len() && s.order[j] == k;
                assert(due(s.order[j]));
            }
        }
        self.ttl_extension_count <= u64::MAX - count
    }

    /// Drops the policy of `key`; tells whether there was one.
    pub fn remove_ttl_policy(&mut self, key: &Bytes) -> (r: bool)
        requires
            old(self).wf(),
        ensures
            final(self).wf(),
            (final(self)@, r) == remove_next(old(self)@, key@),
    {
        let r = self.policies.remove(key).is_some();
        assert(self@ =~= remove_next(old(self)@, key@).0);
        r
    }
}

} // verus!
