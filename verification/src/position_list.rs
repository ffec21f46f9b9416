//! The active position keys of each account, for readers and front-end
//! pagination. A full close removes the key; a partial close leaves it.
use vstd::prelude::*;
use crate::bytes::{Bytes, KeyEq, Stored};
use crate::collections::{KeyedMap, SwapSet, swap_removed};

verus! {

/// Identifies a position: account, market, collateral token and side.
pub struct PositionKey {
    pub account: Bytes,
    pub market: Bytes,
    pub collateral_token: Bytes,
    pub is_long: bool,
}

pub struct PositionKeyView {
    pub account: Seq<u8>,
    pub market: Seq<u8>,
    pub collateral_token: Seq<u8>,
    pub is_long: bool,
}

impl View for PositionKey {
    type V = PositionKeyView;

    open spec fn view(&self) -> PositionKeyView {
        PositionKeyView {
            account: self.account@,
            market: self.market@,
            collateral_token: self.collateral_token@,
            is_long: self.is_long,
        }
    }
}

impl Stored for PositionKey {
    fn dup(&self) -> (r: PositionKey) {
        PositionKey {
            account: self.account.dup(),
            market: self.market.dup(),
            collateral_token: self.collateral_token.dup(),
            is_long: self.is_long,
        }
    }
}

impl KeyEq for PositionKey {
    fn key_eq(&self, other: &PositionKey) -> (r: bool) {
        self.is_long == other.is_long && self.account.key_eq(&other.account) && self.market.key_eq(
            &other.market,
        ) && self.collateral_token.key_eq(&other.collateral_token)
    }
}

/// The module's storage as values: each account's listed keys, and each
/// account's stored count.
#[verifier::ext_equal]
pub struct PositionListState {
    pub positions: Map<Seq<u8>, Seq<PositionKeyView>>,
    pub counts: Map<Seq<u8>, u64>,
}

/// The keys listed for an account, in listing order.
pub open spec fn positions_of(s: PositionListState, account: Seq<u8>) -> Seq<PositionKeyView> {
    if s.positions.contains_key(account) {
        s.positions[account]
    } else {
        Seq::empty()
    }
}

/// The stored count of an account (0 when never set).
pub open spec fn count_of(s: PositionListState, account: Seq<u8>) -> u64 {
    if s.counts.contains_key(account) {
        s.counts[account]
    } else {
        0
    }
}

/// Each account's list holds each key once, and its stored count is the
/// length of its list.
pub open spec fn list_inv(s: PositionListState) -> bool {
    &&& forall|a: Seq<u8>| #[trigger] positions_of(s, a).no_duplicates()
    &&& forall|a: Seq<u8>| #[trigger] count_of(s, a) == positions_of(s, a).len()
}

pub open spec fn add_next(s: PositionListState, account: Seq<u8>, key: PositionKeyView) -> PositionListState {
    if positions_of(s, account).contains(key) {
        s
    } else {
        PositionListState {
            positions: s.positions.insert(account, positions_of(s, account).push(key)),
            counts: s.counts.insert(account, (count_of(s, account) + 1) as u64),
        }
    }
}

pub open spec fn remove_next(
    s: PositionListState,
    account: Seq<u8>,
    key: PositionKeyView,
) -> PositionListState {
    let list = positions_of(s, account);
    if list.contains(key) {
        PositionListState {
            positions: s.positions.insert(account, swap_removed(list, list.index_of(key))),
            counts: if count_of(s, account) > 0 {
                s.counts.insert(account, (count_of(s, account) - 1) as u64)
            } else {
                s.counts
            },
        }
    } else {
        s
    }
}

pub open spec fn clear_next(s: PositionListState, account: Seq<u8>) -> PositionListState {
    PositionListState {
        positions: s.positions.insert(account, Seq::empty()),
        counts: s.counts.insert(account, 0),
    }
}

/// Page `page` (counted from 1) of `page_size` items of `s`; empty for page
/// 0, size 0, or a page past the end.
pub open spec fn page_of<A>(s: Seq<A>, page: u64, page_size: u64) -> Seq<A> {
    if page == 0 || page_size == 0 {
        Seq::empty()
    } else {
        let start = (page - 1) * page_size;
        if start >= s.len() {
            Seq::empty()
        } else {
            let end = if start + page_size < s.len() {
                start + page_size
            } else {
                s.len() as int
            };
            s.subrange(start, end)
        }
    }
}

/// The page arithmetic fits in 64 bits: the start offset, and the end offset
/// when the start is within the list.
pub open spec fn page_fits(total: int, page: u64, page_size: u64) -> bool {
    page == 0 || page_size == 0 || ((page - 1) * page_size <= u64::MAX && ((page - 1) * page_size
        >= total || (page - 1) * page_size + page_size <= u64::MAX))
}

/// Removing a key from a list without duplicates leaves a list without
/// duplicates that no longer holds the key and holds every other key it held.
pub proof fn lemma_swap_removed<A>(s: Seq<A>, x: A)
    requires
        s.no_duplicates(),
        s.contains(x),
    ensures
        swap_removed(s, s.index_of(x)).no_duplicates(),
        swap_removed(s, s.index_of(x)).len() == s.len() - 1,
        !swap_removed(s, s.index_of(x)).contains(x),
        forall|y: A| y != x ==> (#[trigger] swap_removed(s, s.index_of(x)).contains(y) <==> s.contains(y)),
{
    let i = s.index_of(x);
    let t = swap_removed(s, i);
    let last = s.len() - 1;
    assert(s[i] == x);
    assert forall|a: int, b: int| 0 <= a < t.len() && 0 <= b < t.len() && a != b implies t[a]
        != t[b] by {
        let oa = if a == i { last } else { a };
        let ob = if b == i { last } else { b };
        assert(t[a] == s[oa]);
        assert(t[b] == s[ob]);
    }
    if t.contains(x) {
        let k = choose|k: int| 0 <= k < t.len() && t[k] == x;
        let ok = if k == i { last } else { k };
        assert(t[k] == s[ok]);
    }
    assert forall|y: A| y != x implies (#[trigger] t.contains(y) <==> s.contains(y)) by {
        if t.contains(y) {
            let k = choose|k: int| 0 <= k < t.len() && t[k] == y;
            let ok = if k == i { last } else { k };
            assert(t[k] == s[ok]);
        }
        if s.contains(y) {
            let k = choose|k: int| 0 <= k < s.len() && s[k] == y;
            if k == last {
                if i != last {
                    assert(t[i] == y);
                }
            } else {
                assert(k != i);
                assert(t[k] == y);
            }
        }
    }
}

/// Adding keeps the invariant; after it the key is listed; adding a listed
/// key changes nothing.
pub proof fn law_add(s: PositionListState, account: Seq<u8>, key: PositionKeyView)
    requires
        list_inv(s),
        !positions_of(s, account).contains(key) ==> count_of(s, account) < u64::MAX,
    ensures
        list_inv(add_next(s, account, key)),
        positions_of(add_next(s, account, key), account).contains(key),
        positions_of(s, account).contains(key) ==> add_next(s, account, key) == s,
        forall|b: Seq<u8>| b != account ==> positions_of(add_next(s, account, key), b)
            == positions_of(s, b),
{
    let s2 = add_next(s, account, key);
    let l = positions_of(s, account);
    assert(l.no_duplicates());
    assert(count_of(s, account) == l.len());
    if !l.contains(key) {
        assert(l.push(key)[l.len() as int] == key);
        assert forall|a: Seq<u8>| #[trigger] positions_of(s2, a).no_duplicates() by {
            if a == account {
                let p = l.push(key);
                assert forall|i: int, j: int| 0 <= i < p.len() && 0 <= j < p.len() && i != j implies p[i]
                    != p[j] by {
                    if i == l.len() && j < l.len() {
                        assert(l[j] != key) by {
                            if l[j] == key {
                                assert(l.contains(key));
                            }
                        }
                    } else if j == l.len() && i < l.len() {
                        assert(l[i] != key) by {
                            if l[i] == key {
                                assert(l.contains(key));
                            }
                        }
                    }
                }
            } else {
                assert(positions_of(s2, a) == positions_of(s, a));
            }
        }
        assert forall|a: Seq<u8>| #[trigger] count_of(s2, a) == positions_of(s2, a).len() by {
            if a != account {
                assert(count_of(s, a) == positions_of(s, a).len());
            }
        }
    }
}

/// Removing keeps the invariant; after it the key is no longer listed, and the
/// other keys of the account are still listed.
pub proof fn law_remove(s: PositionListState, account: Seq<u8>, key: PositionKeyView)
    requires
        list_inv(s),
    ensures
        list_inv(remove_next(s, account, key)),
        !positions_of(remove_next(s, account, key), account).contains(key),
        forall|k: PositionKeyView| k != key ==> (#[trigger] positions_of(
            remove_next(s, account, key),
            account,
        ).contains(k) <==> positions_of(s, account).contains(k)),
        forall|b: Seq<u8>| b != account ==> positions_of(remove_next(s, account, key), b)
            == positions_of(s, b),
{
    let s2 = remove_next(s, account, key);
    let l = positions_of(s, account);
    assert(l.no_duplicates());
    assert(count_of(s, account) == l.len());
    if l.contains(key) {
        lemma_swap_removed(l, key);
        assert forall|a: Seq<u8>| #[trigger] positions_of(s2, a).no_duplicates() by {
            if a != account {
                assert(positions_of(s2, a) == positions_of(s, a));
            }
        }
        assert forall|a: Seq<u8>| #[trigger] count_of(s2, a) == positions_of(s2, a).len() by {
            if a != account {
                assert(count_of(s, a) == positions_of(s, a).len());
            }
        }
    }
}

/// Clearing keeps the invariant and empties the account's list.
pub proof fn law_clear(s: PositionListState, account: Seq<u8>)
    requires
        list_inv(s),
    ensures
        list_inv(clear_next(s, account)),
        positions_of(clear_next(s, account), account).len() == 0,
        count_of(clear_next(s, account), account) == 0,
{
    let s2 = clear_next(s, account);
    assert forall|a: Seq<u8>| #[trigger] positions_of(s2, a).no_duplicates() by {
        if a != account {
            assert(positions_of(s2, a) == positions_of(s, a));
        }
    }
    assert forall|a: Seq<u8>| #[trigger] count_of(s2, a) == positions_of(s2, a).len() by {
        if a != account {
            assert(count_of(s, a) == positions_of(s, a).len());
        }
    }
}

/// Pagination is stable: the item at index `i` of the list is item
/// `i % page_size` of page `i / page_size + 1`.
pub proof fn law_page_holds_item<A>(s: Seq<A>, page_size: u64, i: int)
    requires
        page_size > 0,
        0 <= i < s.len(),
        (i / page_size as int + 1) * page_size <= u64::MAX,
    ensures
        ({
            let page = (i / page_size as int + 1) as u64;
            &&& page_fits(s.len() as int, page, page_size)
            &&& page_of(s, page, page_size)[i % page_size as int] == s[i]
            &&& (i % (page_size as int)) < page_of(s, page, page_size).len()
        }),
{
    let d = page_size as int;
    let q = i / d;
    let r = i % d;
    vstd::arithmetic::div_mod::lemma_fundamental_div_mod(i, d);
    assert(0 <= r < d);
    assert(0 <= q) by {
        vstd::arithmetic::div_mod::lemma_div_pos_is_pos(i, d);
    }
    assert(d * q == q * d) by (nonlinear_arith);
    assert(q + 1 <= (q + 1) * d) by (nonlinear_arith)
        requires
            q >= 0,
            d >= 1,
    ;
    assert((q + 1) * d == q * d + d) by (nonlinear_arith);
    let page = (q + 1) as u64;
    assert(q * d <= i);
    assert(q <= i) by (nonlinear_arith)
        requires
            i == d * q + r,
            0 <= r,
            d >= 1,
            q >= 0,
    ;
    assert(page as int == q + 1);
    assert((page - 1) * page_size == q * d);
    let start = q * d;
    let p = page_of(s, page, page_size);
    assert(start < s.len());
    assert(i == start + r);
    assert(p[r] == s[start + r]);
}

/// Adding a key twice leaves the lists as adding it once.
pub proof fn law_add_idempotent(s: PositionListState, account: Seq<u8>, key: PositionKeyView)
    requires
        list_inv(s),
        !positions_of(s, account).contains(key) ==> count_of(s, account) < u64::MAX,
    ensures
        add_next(add_next(s, account, key), account, key) == add_next(s, account, key),
{
    law_add(s, account, key);
}

/// Adding a key that was not listed and then removing it gives back every
/// account's list, in order, and count.
pub proof fn law_remove_undoes_add(s: PositionListState, account: Seq<u8>, key: PositionKeyView)
    requires
        list_inv(s),
        !positions_of(s, account).contains(key),
        count_of(s, account) < u64::MAX,
    ensures
        forall|b: Seq<u8>| #[trigger] positions_of(remove_next(add_next(s, account, key), account, key), b)
            == positions_of(s, b),
        forall|b: Seq<u8>| #[trigger] count_of(remove_next(add_next(s, account, key), account, key), b)
            == count_of(s, b),
{
    let s1 = add_next(s, account, key);
    let l = positions_of(s, account);
    let p = l.push(key);
    assert(positions_of(s1, account) == p);
    assert(p[l.len() as int] == key);
    assert(p.index_of(key) == l.len()) by {
        assert(p.contains(key));
        let j = p.index_of(key);
        if j != l.len() {
            assert(l[j] == key);
            assert(l.contains(key));
        }
    }
    assert(swap_removed(p, l.len() as int) =~= l);
}

/// The pages `1..=n` of `page_size` items, one after the other.
pub open spec fn pages_upto<A>(s: Seq<A>, page_size: u64, n: nat) -> Seq<A>
    decreases n,
{
    if n == 0 {
        Seq::empty()
    } else {
        pages_upto(s, page_size, (n - 1) as nat) + page_of(s, n as u64, page_size)
    }
}

/// Number of pages of `page_size` items a list of `len` items fills.
pub open spec fn page_count(len: nat, page_size: u64) -> nat {
    ((len + page_size - 1) / page_size as int) as nat
}

/// Pages `1..=n` together are the first `n * page_size` items.
proof fn lemma_pages_upto<A>(s: Seq<A>, page_size: u64, n: nat)
    requires
        page_size > 0,
        n * page_size <= s.len() + page_size,
        n <= u64::MAX,
    ensures
        pages_upto(s, page_size, n) == s.take(if n * page_size < s.len() {
            n * page_size as int
        } else {
            s.len() as int
        }),
    decreases n,
{
    let d = page_size as int;
    if n == 0 {
        assert(s.take(0) =~= Seq::<A>::empty());
    } else {
        let m = (n - 1) as nat;
        assert(m * d <= n * d) by (nonlinear_arith)
            requires
                m == n - 1,
                d > 0,
        ;
        assert(n * d == m * d + d) by (nonlinear_arith)
            requires
                m == n - 1,
        ;
        lemma_pages_upto(s, page_size, m);
        let page = n as u64;
        assert((page - 1) * page_size == m * d);
        let prev_end = if m * d < s.len() { m * d } else { s.len() as int };
        let end = if n * d < s.len() { n * d } else { s.len() as int };
        if m * d < s.len() {
            assert(page_of(s, page, page_size) == s.subrange(m * d, end));
            assert(s.take(prev_end) + s.subrange(m * d, end) =~= s.take(end));
        } else {
            assert(page_of(s, page, page_size) == Seq::<A>::empty());
            assert(s.take(prev_end) + Seq::<A>::empty() =~= s.take(end));
        }
    }
}

/// Pagination covers the list exactly: pages `1..=page_count` together are
/// the whole list, each key once in order, no page is longer than
/// `page_size`, and every later page is empty. Every one of those pages can
/// be asked for exactly when the end of the last one fits in 64 bits.
pub proof fn law_pages_cover_list<A>(s: Seq<A>, page_size: u64)
    requires
        page_size > 0,
        s.len() <= u64::MAX,
    ensures
        pages_upto(s, page_size, page_count(s.len(), page_size)) == s,
        forall|p: u64| #[trigger] page_of(s, p, page_size).len() <= page_size,
        forall|p: u64| p > page_count(s.len(), page_size) ==> #[trigger] page_of(s, p, page_size).len()
            == 0,
        (forall|p: u64| 1 <= p <= page_count(s.len(), page_size) ==> #[trigger] page_fits(
            s.len() as int,
            p,
            page_size,
        )) <==> page_count(s.len(), page_size) * page_size <= u64::MAX,
{
    let d = page_size as int;
    let n = page_count(s.len(), page_size);
    let x = s.len() + d - 1;
    vstd::arithmetic::div_mod::lemma_fundamental_div_mod(x, d);
    assert(0 <= x % d < d);
    assert(n * d == d * (x / d)) by (nonlinear_arith)
        requires
            n == x / d,
    ;
    assert(n * d <= s.len() + d);
    assert(n * d >= s.len());
    assert(n <= s.len()) by (nonlinear_arith)
        requires
            n * d <= s.len() + d - 1,
            d >= 1,
            n >= 0,
    {
        if n >= s.len() + 1 {
            assert(n * d >= (s.len() + 1) * d);
        }
    }
    lemma_pages_upto(s, page_size, n);
    if n * d <= u64::MAX {
        assert forall|p: u64| 1 <= p <= n implies #[trigger] page_fits(s.len() as int, p, page_size) by {
            assert((p - 1) * d + d == p * d) by (nonlinear_arith);
            assert(p * d <= n * d) by (nonlinear_arith)
                requires
                    p <= n,
                    d >= 1,
            ;
        }
    } else if n >= 1 {
        let last = n as u64;
        assert((last - 1) * d + d == n * d) by (nonlinear_arith)
            requires
                last == n,
        ;
        assert((last - 1) * page_size < s.len());
        assert(!page_fits(s.len() as int, last, page_size));
    }
    assert(s.take(s.len() as int) =~= s);
    assert forall|p: u64| p > n implies #[trigger] page_of(s, p, page_size).len() == 0 by {
        if page_size > 0 && p > 0 {
            let q = (p - 1) as int;
            assert(q >= n);
            assert(q * d >= n * d) by (nonlinear_arith)
                requires
                    q >= n,
                    d > 0,
            ;
        }
    }
}

/// The position lists of all accounts.
pub struct PositionListModule {
    positions: KeyedMap<Bytes, SwapSet<PositionKey>>,
    counts: KeyedMap<Bytes, u64>,
}

impl View for PositionListModule {
    type V = PositionListState;

    closed spec fn view(&self) -> PositionListState {
        PositionListState { positions: self.positions@, counts: self.counts@ }
    }
}

impl PositionListModule {
    pub closed spec fn wf(self) -> bool {
        &&& self.positions.wf()
        &&& self.counts.wf()
        &&& list_inv(self@)
    }

    /// What well-formed lists guarantee of their value.
    pub proof fn lemma_inv(self)
        requires
            self.wf(),
        ensures
            list_inv(self@),
    {
    }

    /// Empty storage.
    pub fn new() -> (r: Self)
        ensures
            r.wf(),
            r@.positions == Map::<Seq<u8>, Seq<PositionKeyView>>::empty(),
            r@.counts == Map::<Seq<u8>, u64>::empty(),
    {
        PositionListModule { positions: KeyedMap::new(), counts: KeyedMap::new() }
    }

    fn stored_count(&self, account: &Bytes) -> (r: u64)
        requires
            self.wf(),
        ensures
            r == count_of(self@, account@),
    {
        match self.counts.get(account) {
            Some(c) => *c,
            None => 0,
        }
    }

    /// Lists `position_key` for `account` unless already listed, counting it.
    pub fn add_position_key(&mut self, account: &Bytes, position_key: PositionKey)
        requires
            old(self).wf(),
            !positions_of(old(self)@, account@).contains(position_key@) ==> count_of(
                old(self)@,
                account@,
            ) < u64::MAX,
        ensures
            final(self).wf(),
            final(self)@ == add_next(old(self)@, account@, position_key@),
            positions_of(final(self)@, account@).contains(position_key@),
    {
        let ghost s = self@;
        let ghost a = account@;
        let ghost k = position_key@;
        proof {
            law_add(s, a, k);
        }
        let added = match self.positions.find(account) {
            Some(i) => {
                let mut set = self.positions.swap_value_at(i, SwapSet::new());
                assert(set@ == positions_of(s, a));
                let added = set.insert(position_key);
                self.positions.swap_value_at(i, set);
                added
            },
            None => {
                let mut set: SwapSet<PositionKey> = SwapSet::new();
                set.insert(position_key);
                assert(set@ =~= positions_of(s, a).push(k));
                self.positions.insert(account.dup(), set);
                true
            },
        };
        if added {
            let count = match self.counts.get(account) {
                Some(c) => *c,
                None => 0,
            };
            self.counts.insert(account.dup(), count + 1);
        }
        assert(self@ =~= add_next(s, a, k));
    }

    /// Unlists `position_key` for `account` if listed, lowering the count.
    pub fn remove_position_key(&mut self, account: &Bytes, position_key: &PositionKey)
        requires
            old(self).wf(),
        ensures
            final(self).wf(),
            final(self)@ == remove_next(old(self)@, account@, position_key@),
            !positions_of(final(self)@, account@).contains(position_key@),
            forall|k: PositionKeyView| k != position_key@ ==> (#[trigger] positions_of(
                final(self)@,
                account@,
            ).contains(k) <==> positions_of(old(self)@, account@).contains(k)),
            forall|b: Seq<u8>| b != account@ ==> positions_of(final(self)@, b) == positions_of(
                old(self)@,
                b,
            ),
    {
        let ghost s = self@;
        let ghost a = account@;
        let ghost k = position_key@;
        proof {
            law_remove(s, a, k);
        }
        match self.positions.find(account) {
            Some(i) => {
                let mut set = self.positions.swap_value_at(i, SwapSet::new());
                assert(set@ == positions_of(s, a));
                let removed = set.swap_remove(position_key);
                self.positions.swap_value_at(i, set);
                if removed {
                    let count = match self.counts.get(account) {
                        Some(c) => *c,
                        None => 0,
                    };
                    if count > 0 {
                        self.counts.insert(account.dup(), count - 1);
                    }
                }
            },
            None => {},
        }
        assert(self@ =~= remove_next(s, a, k));
    }

    pub fn has_position_key(&self, account: &Bytes, position_key: &PositionKey) -> (r: bool)
        requires
            self.wf(),
        ensures
            r == positions_of(self@, account@).contains(position_key@),
    {
        match self.positions.get(account) {
            Some(set) => set.contains(position_key),
            None => false,
        }
    }

    /// The account's keys in listing order.
    pub fn get_account_positions(&self, account: &Bytes) -> (r: Vec<PositionKey>)
        requires
            self.wf(),
        ensures
            r@.map_values(|k: PositionKey| k@) == positions_of(self@, account@),
    {
        match self.positions.get(account) {
            Some(set) => set.to_vec(),
            None => {
                let v: Vec<PositionKey> = Vec::new();
                assert(v@.map_values(|k: PositionKey| k@) =~= Seq::<PositionKeyView>::empty());
                v
            },
        }
    }

    /// Page `page` (from 1) of `page_size` keys of the account's list.
    pub fn get_account_positions_paginated(&self, account: &Bytes, page: u64, page_size: u64) -> (r:
        Vec<PositionKey>)
        requires
            self.wf(),
            page_fits(positions_of(self@, account@).len() as int, page, page_size),
        ensures
            r@.map_values(|k: PositionKey| k@) == page_of(positions_of(self@, account@), page, page_size),
    {
        let ghost l = positions_of(self@, account@);
        let mut out: Vec<PositionKey> = Vec::new();
        let set = match self.positions.get(account) {
            Some(set) => set,
            None => {
                assert(out@.map_values(|k: PositionKey| k@) =~= page_of(l, page, page_size));
                return out;
            },
        };
        let total = set.len() as u64;
        if page == 0 || page_size == 0 {
            assert(out@.map_values(|k: PositionKey| k@) =~= page_of(l, page, page_size));
            return out;
        }
        let start = (page - 1) * page_size;
        if start >= total {
            assert(out@.map_values(|k: PositionKey| k@) =~= page_of(l, page, page_size));
            return out;
        }
        let end = if start + page_size < total {
            start + page_size
        } else {
            total
        };
        let mut i = start;
        while i < end
            invariant
                start <= i <= end,
                end <= total,
                total == l.len(),
                total == set@.len(),
                set@.len() <= usize::MAX,
                set@ == l,
                out@.len() == i - start,
                forall|j: int| 0 <= j < out@.len() ==> #[trigger] out@[j]@ == l[start + j],
            decreases end - i,
        {
            out.push(set.item_at(i as usize).dup());
            i = i + 1;
        }
        assert(out@.map_values(|k: PositionKey| k@) =~= page_of(l, page, page_size));
        out
    }

    /// Whether page `page` of `page_size` keys of the account's list can be
    /// computed within 64 bits (what `get_account_positions_paginated` needs).
    pub fn paginated_fits(&self, account: &Bytes, page: u64, page_size: u64) -> (r: bool)
        requires
            self.wf(),
        ensures
            r == page_fits(positions_of(self@, account@).len() as int, page, page_size),
    {
        let total: u64 = match self.positions.get(account) {
            Some(set) => set.len() as u64,
            None => 0,
        };
        if page == 0 || page_size == 0 {
            return true;
        }
        if page - 1 > u64::MAX / page_size {
            proof {
                let d = page_size as int;
                let q = (page - 1) as int;
                assert(q * d > u64::MAX) by (nonlinear_arith)
                    requires
                        q > u64::MAX as int / d,
                        d > 0,
                ;
            }
            return false;
        }
        proof {
            let d = page_size as int;
            let q = (page - 1) as int;
            assert(q * d <= u64::MAX) by (nonlinear_arith)
                requires
                    q <= u64::MAX as int / d,
                    d > 0,
            ;
        }
        let start = (page - 1) * page_size;
        start >= total || start <= u64::MAX - page_size
    }

    /// The account's stored count.
    pub fn get_account_position_count(&self, account: &Bytes) -> (r: u64)
        requires
            self.wf(),
        ensures
            r == count_of(self@, account@),
            r == positions_of(self@, account@).len(),
    {
        self.stored_count(account)
    }

    /// Empties the account's list and resets its count.
    pub fn clear_account_positions(&mut self, account: &Bytes)
        requires
            old(self).wf(),
        ensures
            final(self).wf(),
            final(self)@ == clear_next(old(self)@, account@),
    {
        proof {
            law_clear(self@, account@);
        }
        match self.positions.find(account) {
            Some(i) => {
                self.positions.swap_value_at(i, SwapSet::new());
            },
            None => {
                self.positions.insert(account.dup(), SwapSet::new());
            },
        }
        self.counts.insert(account.dup(), 0);
        assert(self@ =~= clear_next(old(self)@, account@));
    }
}

} // verus!
