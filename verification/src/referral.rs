//! Referral registry: referral codes and their owners, the code each trader
//! uses, referrer tiers and per-tier rebate configuration.
//!
//! Each operation returns, besides its result, the storage keys whose
//! time-to-live the contract extends, in the order it extends them.
use vstd::prelude::*;
use crate::bytes::{Bytes, KeyEq, Stored};
use crate::collections::KeyedMap;

verus! {

/// Ledgers a persistent entry is kept alive for when it is bumped (about 30 days).
pub const PERSISTENT_BUMP_TARGET: u32 = 518_400;

/// An entry is bumped only once its time-to-live falls below this (about 15 days).
pub const MIN_BUMP_THRESHOLD: u32 = 259_200;

/// Highest tier a referrer can hold.
pub const MAX_TIER: u32 = 2;

/// Denominator of basis-point arithmetic.
pub const BPS_DIVISOR: u32 = 10_000;

/// Rebate parameters of a tier.
#[derive(Clone, Copy, PartialEq, Eq, Structural, Debug)]
pub struct TierConfig {
    /// Basis points of the position fee paid back to the referrer.
    pub total_rebate_bps: u32,
    /// Share (in basis points) of that rebate forwarded to the trader as a discount.
    pub discount_share_bps: u32,
}

impl View for TierConfig {
    type V = TierConfig;

    open spec fn view(&self) -> TierConfig {
        *self
    }
}

impl Stored for TierConfig {
    fn dup(&self) -> (r: TierConfig) {
        *self
    }
}

/// Why a referral operation was refused.
#[derive(Clone, Copy, PartialEq, Eq, Structural, Debug)]
pub enum Error {
    AlreadyInitialized,
    Unauthorized,
    CodeAlreadyTaken,
    CodeNotFound,
    InvalidTier,
}

impl Error {
    /// The contract error number of this error.
    pub fn code(&self) -> (r: u32)
        ensures
            r == error_code(*self),
    {
        match self {
            Error::AlreadyInitialized => 1,
            Error::Unauthorized => 2,
            Error::CodeAlreadyTaken => 3,
            Error::CodeNotFound => 4,
            Error::InvalidTier => 5,
        }
    }
}

pub open spec fn error_code(e: Error) -> u32 {
    match e {
        Error::AlreadyInitialized => 1,
        Error::Unauthorized => 2,
        Error::CodeAlreadyTaken => 3,
        Error::CodeNotFound => 4,
        Error::InvalidTier => 5,
    }
}

/// A persistent storage key of the registry.
pub enum ReferralKey {
    CodeOwner(Bytes),
    TraderCode(Bytes),
    ReferrerTier(Bytes),
    TierConfig(u32),
}

pub enum ReferralKeyView {
    CodeOwner(Seq<u8>),
    TraderCode(Seq<u8>),
    ReferrerTier(Seq<u8>),
    TierConfig(u32),
}

impl View for ReferralKey {
    type V = ReferralKeyView;

    open spec fn view(&self) -> ReferralKeyView {
        match self {
            ReferralKey::CodeOwner(c) => ReferralKeyView::CodeOwner(c@),
            ReferralKey::TraderCode(a) => ReferralKeyView::TraderCode(a@),
            ReferralKey::ReferrerTier(a) => ReferralKeyView::ReferrerTier(a@),
            ReferralKey::TierConfig(t) => ReferralKeyView::TierConfig(*t),
        }
    }
}

/// The keys of a list of bumps, as values.
pub open spec fn bumps_view(v: Seq<ReferralKey>) -> Seq<ReferralKeyView> {
    v.map_values(|k: ReferralKey| k@)
}

/// Event published when a code is registered.
pub struct CodeRegistered {
    pub caller: Bytes,
    pub code: Bytes,
}

/// Event published when a trader links a code.
pub struct TraderCodeSet {
    pub trader: Bytes,
    pub code: Bytes,
}

/// The registry's storage as values.
#[verifier::ext_equal]
pub struct ReferralState {
    pub admin: Option<Seq<u8>>,
    pub code_owner: Map<Seq<u8>, Seq<u8>>,
    pub trader_code: Map<Seq<u8>, Seq<u8>>,
    pub referrer_tier: Map<Seq<u8>, u32>,
    pub tier_config: Map<u32, TierConfig>,
}

// ─── The registry as a state machine ─────────────────────────────────────────

pub open spec fn initialize_next(s: ReferralState, admin: Seq<u8>) -> Result<ReferralState, Error> {
    if s.admin is Some {
        Err(Error::AlreadyInitialized)
    } else {
        Ok(ReferralState { admin: Some(admin), ..s })
    }
}

pub open spec fn register_code_next(s: ReferralState, caller: Seq<u8>, code: Seq<u8>) -> Result<
    ReferralState,
    Error,
> {
    if s.code_owner.contains_key(code) {
        Err(Error::CodeAlreadyTaken)
    } else {
        Ok(ReferralState { code_owner: s.code_owner.insert(code, caller), ..s })
    }
}

pub open spec fn set_trader_code_next(s: ReferralState, trader: Seq<u8>, code: Seq<u8>) -> Result<
    ReferralState,
    Error,
> {
    if !s.code_owner.contains_key(code) {
        Err(Error::CodeNotFound)
    } else {
        Ok(ReferralState { trader_code: s.trader_code.insert(trader, code), ..s })
    }
}

/// The admin check and the tier check shared by the two admin operations.
pub open spec fn admin_tier_check(s: ReferralState, admin: Seq<u8>, tier: u32) -> Option<Error> {
    if s.admin != Some(admin) {
        Some(Error::Unauthorized)
    } else if tier > MAX_TIER {
        Some(Error::InvalidTier)
    } else {
        None
    }
}

pub open spec fn set_referrer_tier_next(
    s: ReferralState,
    admin: Seq<u8>,
    referrer: Seq<u8>,
    tier: u32,
) -> Result<ReferralState, Error> {
    match admin_tier_check(s, admin, tier) {
        Some(e) => Err(e),
        None => Ok(ReferralState { referrer_tier: s.referrer_tier.insert(referrer, tier), ..s }),
    }
}

pub open spec fn set_tier_config_next(
    s: ReferralState,
    admin: Seq<u8>,
    tier: u32,
    config: TierConfig,
) -> Result<ReferralState, Error> {
    match admin_tier_check(s, admin, tier) {
        Some(e) => Err(e),
        None => Ok(ReferralState { tier_config: s.tier_config.insert(tier, config), ..s }),
    }
}

/// The referrer a trader is linked to: the owner of the trader's code.
pub open spec fn referrer_of(s: ReferralState, trader: Seq<u8>) -> Option<Seq<u8>> {
    if s.trader_code.contains_key(trader) && s.code_owner.contains_key(s.trader_code[trader]) {
        Some(s.code_owner[s.trader_code[trader]])
    } else {
        None
    }
}

/// The tier of a referrer; a referrer with no tier set is at tier 0.
pub open spec fn tier_of(s: ReferralState, referrer: Seq<u8>) -> u32 {
    if s.referrer_tier.contains_key(referrer) {
        s.referrer_tier[referrer]
    } else {
        0
    }
}

/// The tier configuration that applies to a trader, if the chain
/// trader → code → referrer → tier → config is complete.
pub open spec fn applied_config(s: ReferralState, trader: Seq<u8>) -> Option<TierConfig> {
    match referrer_of(s, trader) {
        Some(r) => {
            let tier = tier_of(s, r);
            if s.tier_config.contains_key(tier) {
                Some(s.tier_config[tier])
            } else {
                None
            }
        },
        None => None,
    }
}

/// The discount in basis points of a configuration.
pub open spec fn discount_of(c: TierConfig) -> int {
    (c.total_rebate_bps * c.discount_share_bps) / 10_000
}

/// The fee discount of a trader: 0 unless a configuration applies.
pub open spec fn trader_discount(s: ReferralState, trader: Seq<u8>) -> int {
    match applied_config(s, trader) {
        Some(c) => discount_of(c),
        None => 0,
    }
}

/// The keys a referrer lookup keeps alive.
pub open spec fn referrer_bumps(s: ReferralState, trader: Seq<u8>) -> Seq<ReferralKeyView> {
    if !s.trader_code.contains_key(trader) {
        seq![]
    } else if !s.code_owner.contains_key(s.trader_code[trader]) {
        seq![ReferralKeyView::TraderCode(trader)]
    } else {
        seq![
            ReferralKeyView::TraderCode(trader),
            ReferralKeyView::CodeOwner(s.trader_code[trader]),
        ]
    }
}

/// The keys a discount lookup keeps alive.
pub open spec fn discount_bumps(s: ReferralState, trader: Seq<u8>) -> Seq<ReferralKeyView> {
    let base = referrer_bumps(s, trader);
    match referrer_of(s, trader) {
        None => base,
        Some(r) => {
            let tier = tier_of(s, r);
            let with_tier = if tier > 0 {
                base.push(ReferralKeyView::ReferrerTier(r))
            } else {
                base
            };
            if s.tier_config.contains_key(tier) {
                with_tier.push(ReferralKeyView::TierConfig(tier))
            } else {
                with_tier
            }
        },
    }
}

/// Every tier stored, as a referrer's tier or as a configured tier, is at most `MAX_TIER`.
pub open spec fn tiers_bounded(s: ReferralState) -> bool {
    &&& forall|r: Seq<u8>| #[trigger] s.referrer_tier.contains_key(r) ==> s.referrer_tier[r] <= MAX_TIER
    &&& forall|t: u32| #[trigger] s.tier_config.contains_key(t) ==> t <= MAX_TIER
}

// ─── Call sequences ──────────────────────────────────────────────────────────

/// A state-changing call on the registry, with its arguments as values.
pub enum ReferralOp {
    Initialize(Seq<u8>),
    RegisterCode(Seq<u8>, Seq<u8>),
    SetTraderCode(Seq<u8>, Seq<u8>),
    SetReferrerTier(Seq<u8>, Seq<u8>, u32),
    SetTierConfig(Seq<u8>, u32, TierConfig),
}

/// What one call does: its transition, or nothing when refused.
pub open spec fn step(s: ReferralState, op: ReferralOp) -> ReferralState {
    let r = match op {
        ReferralOp::Initialize(a) => initialize_next(s, a),
        ReferralOp::RegisterCode(caller, code) => register_code_next(s, caller, code),
        ReferralOp::SetTraderCode(trader, code) => set_trader_code_next(s, trader, code),
        ReferralOp::SetReferrerTier(a, referrer, tier) => set_referrer_tier_next(s, a, referrer, tier),
        ReferralOp::SetTierConfig(a, tier, config) => set_tier_config_next(s, a, tier, config),
    };
    match r {
        Ok(s2) => s2,
        Err(_) => s,
    }
}

/// The state after a sequence of calls.
pub open spec fn run(s: ReferralState, ops: Seq<ReferralOp>) -> ReferralState
    decreases ops.len(),
{
    if ops.len() == 0 {
        s
    } else {
        step(run(s, ops.drop_last()), ops.last())
    }
}

/// Whether `op`, made in state `s`, successfully links `trader`.
pub open spec fn links(s: ReferralState, op: ReferralOp, trader: Seq<u8>) -> bool {
    op matches ReferralOp::SetTraderCode(t, c) && t == trader && s.code_owner.contains_key(c)
}

/// The state after the first `k` calls of `ops`.
pub open spec fn run_upto(s: ReferralState, ops: Seq<ReferralOp>, k: int) -> ReferralState {
    run(s, ops.take(k))
}

proof fn lemma_run_step(s: ReferralState, ops: Seq<ReferralOp>, k: int)
    requires
        0 <= k < ops.len(),
    ensures
        run_upto(s, ops, k + 1) == step(run_upto(s, ops, k), ops[k]),
{
    assert(ops.take(k + 1).drop_last() =~= ops.take(k));
}

/// A call that does not link `trader` leaves the trader's code as it was,
/// and no call takes a registered code from its owner.
proof fn lemma_step_keeps(s: ReferralState, op: ReferralOp, trader: Seq<u8>, code: Seq<u8>)
    ensures
        !links(s, op, trader) ==> (step(s, op).trader_code.contains_key(trader)
            == s.trader_code.contains_key(trader) && (s.trader_code.contains_key(trader)
            ==> step(s, op).trader_code[trader] == s.trader_code[trader])),
        links(s, op, trader) ==> step(s, op).trader_code.contains_key(trader) && step(
            s,
            op,
        ).trader_code[trader] == op->SetTraderCode_1,
        s.code_owner.contains_key(code) ==> step(s, op).code_owner.contains_key(code) && step(
            s,
            op,
        ).code_owner[code] == s.code_owner[code],
{
}

proof fn lemma_linked_from(s: ReferralState, ops: Seq<ReferralOp>, trader: Seq<u8>, i: int, n: int)
    requires
        0 <= i < n <= ops.len(),
        links(run_upto(s, ops, i), ops[i], trader),
        forall|j: int| i < j < ops.len() ==> !links(#[trigger] run_upto(s, ops, j), ops[j], trader),
    ensures
        run_upto(s, ops, n).trader_code.contains_key(trader),
        run_upto(s, ops, n).trader_code[trader] == ops[i]->SetTraderCode_1,
    decreases n,
{
    lemma_run_step(s, ops, n - 1);
    lemma_step_keeps(run_upto(s, ops, n - 1), ops[n - 1], trader, seq![]);
    if n - 1 > i {
        lemma_linked_from(s, ops, trader, i, n - 1);
    }
}

proof fn lemma_owner_from(s: ReferralState, ops: Seq<ReferralOp>, code: Seq<u8>, i: int, n: int)
    requires
        0 <= i <= n <= ops.len(),
        run_upto(s, ops, i).code_owner.contains_key(code),
    ensures
        run_upto(s, ops, n).code_owner.contains_key(code),
        run_upto(s, ops, n).code_owner[code] == run_upto(s, ops, i).code_owner[code],
    decreases n,
{
    if n > i {
        lemma_run_step(s, ops, n - 1);
        lemma_owner_from(s, ops, code, i, n - 1);
        lemma_step_keeps(run_upto(s, ops, n - 1), ops[n - 1], seq![], code);
    }
}

proof fn lemma_unlinked_upto(s: ReferralState, ops: Seq<ReferralOp>, trader: Seq<u8>, n: int)
    requires
        0 <= n <= ops.len(),
        forall|j: int| 0 <= j < ops.len() ==> !links(#[trigger] run_upto(s, ops, j), ops[j], trader),
    ensures
        run_upto(s, ops, n).trader_code.contains_key(trader) == s.trader_code.contains_key(trader),
        s.trader_code.contains_key(trader) ==> run_upto(s, ops, n).trader_code[trader]
            == s.trader_code[trader],
    decreases n,
{
    if n == 0 {
        assert(ops.take(0) =~= Seq::<ReferralOp>::empty());
    } else {
        lemma_run_step(s, ops, n - 1);
        lemma_unlinked_upto(s, ops, trader, n - 1);
        lemma_step_keeps(run_upto(s, ops, n - 1), ops[n - 1], trader, seq![]);
    }
}

/// A trader's code is the code of the trader's last successful link:
/// after any sequence of calls in which call `i` linked the trader to a code
/// and no later call did, the trader's code is that code.
pub proof fn law_code_is_last_link(s: ReferralState, ops: Seq<ReferralOp>, trader: Seq<u8>, i: int)
    requires
        0 <= i < ops.len(),
        links(run_upto(s, ops, i), ops[i], trader),
        forall|j: int| i < j < ops.len() ==> !links(#[trigger] run_upto(s, ops, j), ops[j], trader),
    ensures
        run(s, ops).trader_code.contains_key(trader),
        run(s, ops).trader_code[trader] == ops[i]->SetTraderCode_1,
{
    lemma_linked_from(s, ops, trader, i, ops.len() as int);
    assert(ops.take(ops.len() as int) =~= ops);
}

/// A trader no call linked keeps the code it had (none, from empty storage).
pub proof fn law_code_without_link(s: ReferralState, ops: Seq<ReferralOp>, trader: Seq<u8>)
    requires
        forall|j: int| 0 <= j < ops.len() ==> !links(#[trigger] run_upto(s, ops, j), ops[j], trader),
    ensures
        run(s, ops).trader_code.contains_key(trader) == s.trader_code.contains_key(trader),
        s.trader_code.contains_key(trader) ==> run(s, ops).trader_code[trader] == s.trader_code[trader],
{
    lemma_unlinked_upto(s, ops, trader, ops.len() as int);
    assert(ops.take(ops.len() as int) =~= ops);
}

/// After `r` registered a code (call `i`) and a trader linked it (call `j`,
/// later), with no later successful link of that trader, the trader's
/// referrer is `r`, whatever other calls came in between or after.
pub proof fn law_referrer_after_register_and_link(
    s: ReferralState,
    ops: Seq<ReferralOp>,
    r: Seq<u8>,
    trader: Seq<u8>,
    code: Seq<u8>,
    i: int,
    j: int,
)
    requires
        0 <= i < j < ops.len(),
        ops[i] == ReferralOp::RegisterCode(r, code),
        !run_upto(s, ops, i).code_owner.contains_key(code),
        ops[j] == ReferralOp::SetTraderCode(trader, code),
        forall|k: int| j < k < ops.len() ==> !links(#[trigger] run_upto(s, ops, k), ops[k], trader),
    ensures
        referrer_of(run(s, ops), trader) == Some(r),
{
    lemma_run_step(s, ops, i);
    lemma_owner_from(s, ops, code, i + 1, j);
    lemma_owner_from(s, ops, code, i + 1, ops.len() as int);
    lemma_linked_from(s, ops, trader, j, ops.len() as int);
    assert(ops.take(ops.len() as int) =~= ops);
}

// ─── The registry ────────────────────────────────────────────────────────────

/// The referral registry's storage.
pub struct ReferralStorage {
    admin: Option<Bytes>,
    code_owner: KeyedMap<Bytes, Bytes>,
    trader_code: KeyedMap<Bytes, Bytes>,
    referrer_tier: KeyedMap<Bytes, u32>,
    tier_config: KeyedMap<u32, TierConfig>,
}

impl View for ReferralStorage {
    type V = ReferralState;

    closed spec fn view(&self) -> ReferralState {
        ReferralState {
            admin: match self.admin {
                Some(a) => Some(a@),
                None => None,
            },
            code_owner: self.code_owner@,
            trader_code: self.trader_code@,
            referrer_tier: self.referrer_tier@,
            tier_config: self.tier_config@,
        }
    }
}

impl ReferralStorage {
    pub closed spec fn wf(self) -> bool {
        &&& self.code_owner.wf()
        &&& self.trader_code.wf()
        &&& self.referrer_tier.wf()
        &&& self.tier_config.wf()
    }

    /// Empty storage: not initialized, nothing registered.
    pub fn new() -> (r: Self)
        ensures
            r.wf(),
            r@.admin is None,
            r@.code_owner == Map::<Seq<u8>, Seq<u8>>::empty(),
            r@.trader_code == Map::<Seq<u8>, Seq<u8>>::empty(),
            r@.referrer_tier == Map::<Seq<u8>, u32>::empty(),
            r@.tier_config == Map::<u32, TierConfig>::empty(),
    {
        ReferralStorage {
            admin: None,
            code_owner: KeyedMap::new(),
            trader_code: KeyedMap::new(),
            referrer_tier: KeyedMap::new(),
            tier_config: KeyedMap::new(),
        }
    }

    /// Storage holding exactly the given entries.
    pub fn from_parts(
        admin: Option<Bytes>,
        code_owner: KeyedMap<Bytes, Bytes>,
        trader_code: KeyedMap<Bytes, Bytes>,
        referrer_tier: KeyedMap<Bytes, u32>,
        tier_config: KeyedMap<u32, TierConfig>,
    ) -> (r: Self)
        requires
            code_owner.wf(),
            trader_code.wf(),
            referrer_tier.wf(),
            tier_config.wf(),
        ensures
            r.wf(),
            r@.admin == (match admin {
                Some(a) => Some(a@),
                None => None,
            }),
            r@.code_owner == code_owner@,
            r@.trader_code == trader_code@,
            r@.referrer_tier == referrer_tier@,
            r@.tier_config == tier_config@,
    {
        ReferralStorage { admin, code_owner, trader_code, referrer_tier, tier_config }
    }

    /// The owner of `code`, if registered.
    pub fn code_owner(&self, code: &Bytes) -> (r: Option<Bytes>)
        requires
            self.wf(),
        ensures
            match r {
                Some(o) => self@.code_owner.contains_key(code@) && self@.code_owner[code@] == o@,
                None => !self@.code_owner.contains_key(code@),
            },
    {
        match self.code_owner.get(code) {
            Some(o) => Some(o.dup()),
            None => None,
        }
    }

    /// The stored tier of `referrer`, if one was set.
    pub fn referrer_tier(&self, referrer: &Bytes) -> (r: Option<u32>)
        requires
            self.wf(),
        ensures
            match r {
                Some(t) => self@.referrer_tier.contains_key(referrer@) && self@.referrer_tier[referrer@]
                    == t,
                None => !self@.referrer_tier.contains_key(referrer@),
            },
    {
        match self.referrer_tier.get(referrer) {
            Some(t) => Some(*t),
            None => None,
        }
    }

    /// The configuration of `tier`, if one was set.
    pub fn tier_config(&self, tier: u32) -> (r: Option<TierConfig>)
        requires
            self.wf(),
        ensures
            match r {
                Some(c) => self@.tier_config.contains_key(tier) && self@.tier_config[tier] == c,
                None => !self@.tier_config.contains_key(tier),
            },
    {
        match self.tier_config.get(&tier) {
            Some(c) => Some(*c),
            None => None,
        }
    }

    /// The admin, if the registry was initialized.
    pub fn admin(&self) -> (r: Option<Bytes>)
        ensures
            match r {
                Some(a) => self@.admin == Some(a@),
                None => self@.admin is None,
            },
    {
        match &self.admin {
            Some(a) => Some(a.dup()),
            None => None,
        }
    }

    /// Sets the admin once; a second call is refused.
    pub fn initialize(&mut self, admin: Bytes) -> (r: Result<(), Error>)
        requires
            old(self).wf(),
        ensures
            final(self).wf(),
            initialize_next(old(self)@, admin@) == (match r {
                Ok(_) => Ok(final(self)@),
                Err(e) => Err(e),
            }),
            r is Err ==> final(self)@ == old(self)@,
    {
        if self.admin.is_some() {
            return Err(Error::AlreadyInitialized);
        }
        self.admin = Some(admin);
        Ok(())
    }

    /// Registers `code` with `caller` as its owner. Refused if the code is taken.
    pub fn register_code(&mut self, caller: Bytes, code: Bytes) -> (r: Result<
        (CodeRegistered, Vec<ReferralKey>),
        Error,
    >)
        requires
            old(self).wf(),
        ensures
            final(self).wf(),
            register_code_next(old(self)@, caller@, code@) == (match r {
                Ok(_) => Ok(final(self)@),
                Err(e) => Err(e),
            }),
            r is Err ==> final(self)@ == old(self)@,
            r matches Ok((ev, bumps)) ==> {
                &&& ev.caller@ == caller@
                &&& ev.code@ == code@
                &&& bumps_view(bumps@) == seq![ReferralKeyView::CodeOwner(code@)]
            },
    {
        if self.code_owner.contains_key(&code) {
            return Err(Error::CodeAlreadyTaken);
        }
        let ev = CodeRegistered { caller: caller.dup(), code: code.dup() };
        let bump = ReferralKey::CodeOwner(code.dup());
        self.code_owner.insert(code, caller);
        let mut bumps: Vec<ReferralKey> = Vec::new();
        bumps.push(bump);
        assert(bumps_view(bumps@) =~= seq![ReferralKeyView::CodeOwner(ev.code@)]);
        assert(self@ =~= register_code_next(old(self)@, caller@, code@)->Ok_0);
        Ok((ev, bumps))
    }

    /// Links `trader` to `code`. Refused if the code is not registered.
    pub fn set_trader_referral_code(&mut self, trader: Bytes, code: Bytes) -> (r: Result<
        (TraderCodeSet, Vec<ReferralKey>),
        Error,
    >)
        requires
            old(self).wf(),
        ensures
            final(self).wf(),
            set_trader_code_next(old(self)@, trader@, code@) == (match r {
                Ok(_) => Ok(final(self)@),
                Err(e) => Err(e),
            }),
            r is Err ==> final(self)@ == old(self)@,
            r matches Ok((ev, bumps)) ==> {
                &&& ev.trader@ == trader@
                &&& ev.code@ == code@
                &&& bumps_view(bumps@) == seq![
                    ReferralKeyView::TraderCode(trader@),
                    ReferralKeyView::CodeOwner(code@),
                ]
            },
    {
        if !self.code_owner.contains_key(&code) {
            return Err(Error::CodeNotFound);
        }
        let ev = TraderCodeSet { trader: trader.dup(), code: code.dup() };
        let mut bumps: Vec<ReferralKey> = Vec::new();
        bumps.push(ReferralKey::TraderCode(trader.dup()));
        bumps.push(ReferralKey::CodeOwner(code.dup()));
        self.trader_code.insert(trader, code);
        assert(bumps_view(bumps@) =~= seq![
            ReferralKeyView::TraderCode(ev.trader@),
            ReferralKeyView::CodeOwner(ev.code@),
        ]);
        assert(self@ =~= set_trader_code_next(old(self)@, trader@, code@)->Ok_0);
        Ok((ev, bumps))
    }

    /// The referrer of `trader`: the owner of the code the trader linked.
    pub fn get_trader_referrer(&self, trader: &Bytes) -> (r: (Option<Bytes>, Vec<ReferralKey>))
        requires
            self.wf(),
        ensures
            match r.0 {
                Some(a) => referrer_of(self@, trader@) == Some(a@),
                None => referrer_of(self@, trader@) is None,
            },
            bumps_view(r.1@) == referrer_bumps(self@, trader@),
    {
        let mut bumps: Vec<ReferralKey> = Vec::new();
        let code = match self.trader_code.get(trader) {
            Some(c) => c,
            None => {
                assert(bumps_view(bumps@) =~= referrer_bumps(self@, trader@));
                return (None, bumps);
            },
        };
        bumps.push(ReferralKey::TraderCode(trader.dup()));
        let owner = match self.code_owner.get(code) {
            Some(o) => o,
            None => {
                assert(bumps_view(bumps@) =~= referrer_bumps(self@, trader@));
                return (None, bumps);
            },
        };
        bumps.push(ReferralKey::CodeOwner(code.dup()));
        assert(bumps_view(bumps@) =~= referrer_bumps(self@, trader@));
        (Some(owner.dup()), bumps)
    }

    /// The code `trader` linked, if any.
    pub fn get_trader_referral_code(&self, trader: &Bytes) -> (r: Option<Bytes>)
        requires
            self.wf(),
        ensures
            match r {
                Some(c) => self@.trader_code.contains_key(trader@) && self@.trader_code[trader@]
                    == c@,
                None => !self@.trader_code.contains_key(trader@),
            },
    {
        match self.trader_code.get(trader) {
            Some(c) => Some(c.dup()),
            None => None,
        }
    }

    /// Sets the tier of `referrer`. Only the admin may; the tier is at most `MAX_TIER`.
    pub fn set_referrer_tier(&mut self, admin: &Bytes, referrer: Bytes, tier: u32) -> (r: Result<
        Vec<ReferralKey>,
        Error,
    >)
        requires
            old(self).wf(),
            old(self)@.admin is Some,
        ensures
            final(self).wf(),
            set_referrer_tier_next(old(self)@, admin@, referrer@, tier) == (match r {
                Ok(_) => Ok(final(self)@),
                Err(e) => Err(e),
            }),
            r is Err ==> final(self)@ == old(self)@,
            r matches Ok(bumps) ==> bumps_view(bumps@) == seq![
                ReferralKeyView::ReferrerTier(referrer@),
            ],
    {
        let is_admin = match &self.admin {
            Some(stored) => stored.key_eq(admin),
            None => false,
        };
        if !is_admin {
            return Err(Error::Unauthorized);
        }
        if tier > MAX_TIER {
            return Err(Error::InvalidTier);
        }
        let mut bumps: Vec<ReferralKey> = Vec::new();
        bumps.push(ReferralKey::ReferrerTier(referrer.dup()));
        let ghost rv = referrer@;
        self.referrer_tier.insert(referrer, tier);
        assert(bumps_view(bumps@) =~= seq![ReferralKeyView::ReferrerTier(rv)]);
        assert(self@ =~= set_referrer_tier_next(old(self)@, admin@, rv, tier)->Ok_0);
        Ok(bumps)
    }

    /// Sets the rebate configuration of `tier`. Only the admin may; the tier is at most `MAX_TIER`.
    pub fn set_tier_config(&mut self, admin: &Bytes, tier: u32, config: TierConfig) -> (r: Result<
        Vec<ReferralKey>,
        Error,
    >)
        requires
            old(self).wf(),
            old(self)@.admin is Some,
        ensures
            final(self).wf(),
            set_tier_config_next(old(self)@, admin@, tier, config) == (match r {
                Ok(_) => Ok(final(self)@),
                Err(e) => Err(e),
            }),
            r is Err ==> final(self)@ == old(self)@,
            r matches Ok(bumps) ==> bumps_view(bumps@) == seq![ReferralKeyView::TierConfig(tier)],
    {
        let is_admin = match &self.admin {
            Some(stored) => stored.key_eq(admin),
            None => false,
        };
        if !is_admin {
            return Err(Error::Unauthorized);
        }
        if tier > MAX_TIER {
            return Err(Error::InvalidTier);
        }
        let mut bumps: Vec<ReferralKey> = Vec::new();
        bumps.push(ReferralKey::TierConfig(tier));
        self.tier_config.insert(tier, config);
        assert(bumps_view(bumps@) =~= seq![ReferralKeyView::TierConfig(tier)]);
        assert(self@ =~= set_tier_config_next(old(self)@, admin@, tier, config)->Ok_0);
        Ok(bumps)
    }

    /// Whether the discount product of the configuration that applies to
    /// `trader` fits in 32 bits (what `get_trader_discount_bps` needs).
    pub fn discount_fits(&self, trader: &Bytes) -> (r: bool)
        requires
            self.wf(),
        ensures
            r == (applied_config(self@, trader@) matches Some(c) ==> c.total_rebate_bps
                * c.discount_share_bps <= u32::MAX),
    {
        let code = match self.trader_code.get(trader) {
            Some(c) => c,
            None => return true,
        };
        let referrer = match self.code_owner.get(code) {
            Some(o) => o,
            None => return true,
        };
        let tier: u32 = match self.referrer_tier.get(referrer) {
            Some(t) => *t,
            None => 0,
        };
        match self.tier_config.get(&tier) {
            Some(c) => {
                let a = c.total_rebate_bps as u64;
                let b = c.discount_share_bps as u64;
                assert(a * b <= u32::MAX as int * u32::MAX as int) by (nonlinear_arith)
                    requires
                        a <= u32::MAX,
                        b <= u32::MAX,
                ;
                a * b <= u32::MAX as u64
            },
            None => true,
        }
    }

    /// The fee discount of `trader` in basis points:
    /// `total_rebate_bps * discount_share_bps / 10_000` of the configuration
    /// that applies to the trader, or 0 when none applies.
    pub fn get_trader_discount_bps(&self, trader: &Bytes) -> (r: (u32, Vec<ReferralKey>))
        requires
            self.wf(),
            applied_config(self@, trader@) matches Some(c) ==> c.total_rebate_bps
                * c.discount_share_bps <= u32::MAX,
        ensures
            r.0 == trader_discount(self@, trader@),
            bumps_view(r.1@) == discount_bumps(self@, trader@),
    {
        let ghost s = self@;
        let ghost t = trader@;
        let mut bumps: Vec<ReferralKey> = Vec::new();
        let code = match self.trader_code.get(trader) {
            Some(c) => c,
            None => {
                assert(bumps_view(bumps@) =~= discount_bumps(s, t));
                return (0, bumps);
            },
        };
        bumps.push(ReferralKey::TraderCode(trader.dup()));
        let referrer = match self.code_owner.get(code) {
            Some(o) => o,
            None => {
                assert(bumps_view(bumps@) =~= discount_bumps(s, t));
                return (0, bumps);
            },
        };
        bumps.push(ReferralKey::CodeOwner(code.dup()));
        assert(bumps_view(bumps@) =~= referrer_bumps(s, t));
        let ghost base = bumps@;
        let tier: u32 = match self.referrer_tier.get(referrer) {
            Some(t) => *t,
            None => 0,
        };
        if tier > 0 {
            bumps.push(ReferralKey::ReferrerTier(referrer.dup()));
        }
        let ghost with_tier = bumps@;
        assert(bumps_view(with_tier) =~= (if tier > 0 {
            referrer_bumps(s, t).push(ReferralKeyView::ReferrerTier(referrer@))
        } else {
            referrer_bumps(s, t)
        }));
        let config = match self.tier_config.get(&tier) {
            Some(c) => *c,
            None => {
                assert(bumps_view(bumps@) =~= discount_bumps(s, t));
                return (0, bumps);
            },
        };
        bumps.push(ReferralKey::TierConfig(tier));
        assert(bumps_view(bumps@) =~= discount_bumps(s, t));
        (config.total_rebate_bps * config.discount_share_bps / BPS_DIVISOR, bumps)
    }
}

// ─── Laws ────────────────────────────────────────────────────────────────────

/// The registry is initialized once: after a successful initialization the
/// admin is set, and any further initialization is refused.
pub proof fn law_initialize_once(s: ReferralState, a: Seq<u8>, b: Seq<u8>)
    requires
        initialize_next(s, a) is Ok,
    ensures
        initialize_next(s, a)->Ok_0.admin == Some(a),
        initialize_next(initialize_next(s, a)->Ok_0, b) == Err::<ReferralState, Error>(
            Error::AlreadyInitialized,
        ),
{
}

/// A registered code belongs to its first registrant: it resolves to that
/// owner, and any later registration of the same code is refused.
pub proof fn law_code_first_come(s: ReferralState, caller: Seq<u8>, other: Seq<u8>, code: Seq<u8>)
    requires
        register_code_next(s, caller, code) is Ok,
    ensures
        register_code_next(s, caller, code)->Ok_0.code_owner[code] == caller,
        register_code_next(register_code_next(s, caller, code)->Ok_0, other, code) == Err::<
            ReferralState,
            Error,
        >(Error::CodeAlreadyTaken),
{
}

/// Linking a trader to a registered code makes that code's owner the
/// trader's referrer.
pub proof fn law_link_resolves(s: ReferralState, trader: Seq<u8>, code: Seq<u8>)
    requires
        set_trader_code_next(s, trader, code) is Ok,
    ensures
        referrer_of(set_trader_code_next(s, trader, code)->Ok_0, trader) == Some(s.code_owner[code]),
        set_trader_code_next(s, trader, code)->Ok_0.trader_code[trader] == code,
{
}

/// A trader can link only a registered code.
pub proof fn law_link_needs_code(s: ReferralState, trader: Seq<u8>, code: Seq<u8>)
    ensures
        set_trader_code_next(s, trader, code) is Ok <==> s.code_owner.contains_key(code),
{
}

/// Only the admin changes tiers and tier configurations; anyone else is refused.
pub proof fn law_admin_only(
    s: ReferralState,
    caller: Seq<u8>,
    referrer: Seq<u8>,
    tier: u32,
    config: TierConfig,
)
    requires
        s.admin != Some(caller),
    ensures
        set_referrer_tier_next(s, caller, referrer, tier) == Err::<ReferralState, Error>(
            Error::Unauthorized,
        ),
        set_tier_config_next(s, caller, tier, config) == Err::<ReferralState, Error>(
            Error::Unauthorized,
        ),
{
}

/// Every operation keeps all stored tiers at most `MAX_TIER`.
pub proof fn law_tiers_stay_bounded(
    s: ReferralState,
    a: Seq<u8>,
    b: Seq<u8>,
    tier: u32,
    config: TierConfig,
)
    requires
        tiers_bounded(s),
    ensures
        initialize_next(s, a) matches Ok(s2) ==> tiers_bounded(s2),
        register_code_next(s, a, b) matches Ok(s2) ==> tiers_bounded(s2),
        set_trader_code_next(s, a, b) matches Ok(s2) ==> tiers_bounded(s2),
        set_referrer_tier_next(s, a, b, tier) matches Ok(s2) ==> tiers_bounded(s2),
        set_tier_config_next(s, a, tier, config) matches Ok(s2) ==> tiers_bounded(s2),
{
}

/// The discount never exceeds the tier's total rebate when the trader's share
/// is at most the whole rebate, and a trader without a code gets none.
pub proof fn law_discount_within_rebate(s: ReferralState, trader: Seq<u8>)
    ensures
        applied_config(s, trader) matches Some(c) ==> (c.discount_share_bps <= 10_000
            ==> trader_discount(s, trader) <= c.total_rebate_bps),
        !s.trader_code.contains_key(trader) ==> trader_discount(s, trader) == 0,
{
    if let Some(c) = applied_config(s, trader) {
        if c.discount_share_bps <= 10_000 {
            let t = c.total_rebate_bps as int;
            let d = c.discount_share_bps as int;
            assert(t * d <= t * 10_000) by (nonlinear_arith)
                requires
                    0 <= t,
                    0 <= d <= 10_000,
            ;
            assert((t * d) / 10_000 <= t) by (nonlinear_arith)
                requires
                    0 <= t * d <= t * 10_000,
                    0 <= t,
            ;
        }
    }
}

} // verus!
