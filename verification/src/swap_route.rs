//! Swap routing through markets: the path checks made before any state is
//! touched, the token each hop turns into, the tokens whose prices are
//! fetched once per path, the hop plan, the settlement of one hop, and the
//! running state of a multi-hop swap.
use vstd::prelude::*;
use crate::bytes::{Bytes, KeyEq, Stored};
use crate::collections::SwapSet;

verus! {

/// Upper bound on the number of hops when none is configured.
pub const MAX_SWAP_PATH_LENGTH: usize = 5;

/// Why a swap was refused.
#[derive(Clone, Copy, PartialEq, Eq, Structural, Debug)]
pub enum SwapError {
    /// The incoming token is neither the long nor the short token of the market.
    InvalidTokenIn,
    /// The path has more hops than allowed.
    PathTooLong,
    /// A market appears twice in the path.
    DuplicateMarketInPath,
}

impl SwapError {
    /// The contract error number of this error.
    pub fn code(&self) -> (r: u32)
        ensures
            r == swap_error_code(*self),
    {
        match self {
            SwapError::InvalidTokenIn => 1,
            SwapError::PathTooLong => 2,
            SwapError::DuplicateMarketInPath => 3,
        }
    }
}

pub open spec fn swap_error_code(e: SwapError) -> u32 {
    match e {
        SwapError::InvalidTokenIn => 1,
        SwapError::PathTooLong => 2,
        SwapError::DuplicateMarketInPath => 3,
    }
}

/// The tokens of a market.
pub struct MarketProps {
    pub market_token: Bytes,
    pub index_token: Bytes,
    pub long_token: Bytes,
    pub short_token: Bytes,
}

pub struct MarketPropsView {
    pub market_token: Seq<u8>,
    pub index_token: Seq<u8>,
    pub long_token: Seq<u8>,
    pub short_token: Seq<u8>,
}

impl View for MarketProps {
    type V = MarketPropsView;

    open spec fn view(&self) -> MarketPropsView {
        MarketPropsView {
            market_token: self.market_token@,
            index_token: self.index_token@,
            long_token: self.long_token@,
            short_token: self.short_token@,
        }
    }
}

impl Stored for MarketProps {
    fn dup(&self) -> (r: MarketProps) {
        MarketProps {
            market_token: self.market_token.dup(),
            index_token: self.index_token.dup(),
            long_token: self.long_token.dup(),
            short_token: self.short_token.dup(),
        }
    }
}

/// The values of a list of byte strings.
pub open spec fn bytes_view(v: Seq<Bytes>) -> Seq<Seq<u8>> {
    v.map_values(|b: Bytes| b@)
}

/// The values of a list of markets.
pub open spec fn markets_view(v: Seq<MarketProps>) -> Seq<MarketPropsView> {
    v.map_values(|m: MarketProps| m@)
}

/// The hop cap: the configured value, or `MAX_SWAP_PATH_LENGTH` when it reads as 0.
pub open spec fn path_cap(raw: u128) -> usize {
    if raw as usize == 0 {
        MAX_SWAP_PATH_LENGTH
    } else {
        raw as usize
    }
}

/// A path is accepted when it is within the cap and names no market twice;
/// the length is checked first.
pub open spec fn path_check(path: Seq<Seq<u8>>, max_len: usize) -> Result<(), SwapError> {
    if path.len() > max_len {
        Err(SwapError::PathTooLong)
    } else if !path.no_duplicates() {
        Err(SwapError::DuplicateMarketInPath)
    } else {
        Ok(())
    }
}

/// The token a market turns `token_in` into: the other side of the market.
pub open spec fn other_token(m: MarketPropsView, token_in: Seq<u8>) -> Option<Seq<u8>> {
    if token_in == m.long_token {
        Some(m.short_token)
    } else if token_in == m.short_token {
        Some(m.long_token)
    } else {
        None
    }
}

/// `s` with `x` appended unless already present.
pub open spec fn add_new<A>(s: Seq<A>, x: A) -> Seq<A> {
    if s.contains(x) {
        s
    } else {
        s.push(x)
    }
}

/// The tokens whose prices a path needs, in the order they are fetched:
/// the incoming token, then each market's long and short token not yet seen.
pub open spec fn price_tokens(token_in: Seq<u8>, ms: Seq<MarketPropsView>) -> Seq<Seq<u8>>
    decreases ms.len(),
{
    if ms.len() == 0 {
        seq![token_in]
    } else {
        let prev = price_tokens(token_in, ms.drop_last());
        add_new(add_new(prev, ms.last().long_token), ms.last().short_token)
    }
}

/// The token held before each hop and after the last one, if every hop's
/// market trades the token it receives.
pub open spec fn route_tokens(token_in: Seq<u8>, ms: Seq<MarketPropsView>) -> Option<Seq<Seq<u8>>>
    decreases ms.len(),
{
    if ms.len() == 0 {
        Some(seq![token_in])
    } else {
        match route_tokens(token_in, ms.drop_last()) {
            Some(ts) => match other_token(ms.last(), ts.last()) {
                Some(o) => Some(ts.push(o)),
                None => None,
            },
            None => None,
        }
    }
}

/// Where hop `i` sends its output: the next market, or the final receiver.
pub open spec fn hop_receiver(ms: Seq<MarketPropsView>, receiver: Seq<u8>, i: int) -> Seq<u8> {
    if i + 1 == ms.len() {
        receiver
    } else {
        ms[i + 1].market_token
    }
}

/// One hop of a swap path.
pub struct SwapHop {
    pub market: MarketProps,
    pub token_in: Bytes,
    pub token_out: Bytes,
    pub receiver: Bytes,
}

pub struct SwapHopView {
    pub market: MarketPropsView,
    pub token_in: Seq<u8>,
    pub token_out: Seq<u8>,
    pub receiver: Seq<u8>,
}

impl View for SwapHop {
    type V = SwapHopView;

    open spec fn view(&self) -> SwapHopView {
        SwapHopView {
            market: self.market@,
            token_in: self.token_in@,
            token_out: self.token_out@,
            receiver: self.receiver@,
        }
    }
}

impl Stored for SwapHop {
    fn dup(&self) -> (r: SwapHop) {
        SwapHop {
            market: self.market.dup(),
            token_in: self.token_in.dup(),
            token_out: self.token_out.dup(),
            receiver: self.receiver.dup(),
        }
    }
}

/// The planned hops of a route whose tokens are `ts`.
pub open spec fn planned_hop(ms: Seq<MarketPropsView>, ts: Seq<Seq<u8>>, receiver: Seq<u8>, i: int) -> SwapHopView {
    SwapHopView {
        market: ms[i],
        token_in: ts[i],
        token_out: ts[i + 1],
        receiver: hop_receiver(ms, receiver, i),
    }
}

/// The hop cap from the configured value `raw`.
pub fn max_swap_path_length(raw: u128) -> (r: usize)
    ensures
        r == path_cap(raw),
{
    let configured = raw as usize;
    if configured == 0 {
        MAX_SWAP_PATH_LENGTH
    } else {
        configured
    }
}

/// Checks a path of market addresses against the hop cap and for repeats.
pub fn validate_swap_path(path: &Vec<Bytes>, max_len: usize) -> (r: Result<(), SwapError>)
    ensures
        r == path_check(bytes_view(path@), max_len),
        r is Ok <==> path@.len() <= max_len && bytes_view(path@).no_duplicates(),
        r == Err::<(), SwapError>(SwapError::PathTooLong) <==> path@.len() > max_len,
        r == Err::<(), SwapError>(SwapError::DuplicateMarketInPath) <==> path@.len() <= max_len
            && exists|a: int, b: int|
            0 <= a < b < path@.len() && #[trigger] path@[a]@ == #[trigger] path@[b]@,
{
    let ghost pv = bytes_view(path@);
    let n = path.len();
    if n > max_len {
        return Err(SwapError::PathTooLong);
    }
    let mut i: usize = 0;
    while i < n
        invariant
            n == path@.len(),
            n <= max_len,
            pv == bytes_view(path@),
            i <= n,
            forall|a: int, b: int| 0 <= a < i && a < b < n ==> pv[a] != pv[b],
        decreases n - i,
    {
        let mut j = i + 1;
        while j < n
            invariant
                n == path@.len(),
                n <= max_len,
                pv == bytes_view(path@),
                i < n,
                i + 1 <= j <= n,
                forall|a: int, b: int| 0 <= a < i && a < b < n ==> pv[a] != pv[b],
                forall|b: int| i < b < j ==> pv[i as int] != pv[b],
            decreases n - j,
        {
            if path[i].key_eq(&path[j]) {
                proof {
                    assert(pv[i as int] == pv[j as int]);
                    assert(!pv.no_duplicates());
                }
                return Err(SwapError::DuplicateMarketInPath);
            }
            j = j + 1;
        }
        i = i + 1;
    }
    assert(pv.no_duplicates()) by {
        assert forall|a: int, b: int| 0 <= a < pv.len() && 0 <= b < pv.len() && a != b implies pv[a]
            != pv[b] by {
            if a < b {
            } else {
                assert(pv[b] != pv[a]);
            }
        }
    }
    assert forall|a: int, b: int| 0 <= a < b < path@.len() implies #[trigger] path@[a]@ != #[trigger] path@[b]@ by {
        assert(pv[a] == path@[a]@);
        assert(pv[b] == path@[b]@);
    }
    Ok(())
}

/// The checks a multi-hop swap makes before touching any state: the path
/// is within the cap configured as `raw_cap` and names no market twice.
pub fn check_swap_path(raw_cap: u128, path: &Vec<Bytes>) -> (r: Result<(), SwapError>)
    ensures
        r == path_check(bytes_view(path@), path_cap(raw_cap)),
        r is Ok <==> path@.len() <= path_cap(raw_cap) && bytes_view(path@).no_duplicates(),
{
    let max_len = max_swap_path_length(raw_cap);
    validate_swap_path(path, max_len)
}

/// The token `market` turns `token_in` into.
pub fn swap_token_out(market: &MarketProps, token_in: &Bytes) -> (r: Result<Bytes, SwapError>)
    ensures
        match r {
            Ok(t) => other_token(market@, token_in@) == Some(t@),
            Err(e) => other_token(market@, token_in@) is None && e == SwapError::InvalidTokenIn,
        },
{
    if token_in.key_eq(&market.long_token) {
        Ok(market.short_token.dup())
    } else if token_in.key_eq(&market.short_token) {
        Ok(market.long_token.dup())
    } else {
        Err(SwapError::InvalidTokenIn)
    }
}

/// The one hop of a swap of `token_in` through `market` to `receiver`.
/// Refused if the market does not trade `token_in`.
pub fn plan_single_hop(market: &MarketProps, token_in: &Bytes, receiver: &Bytes) -> (r: Result<
    SwapHop,
    SwapError,
>)
    ensures
        match r {
            Ok(h) => other_token(market@, token_in@) == Some(h.token_out@) && h@ == (SwapHopView {
                market: market@,
                token_in: token_in@,
                token_out: h.token_out@,
                receiver: receiver@,
            }),
            Err(e) => other_token(market@, token_in@) is None && e == SwapError::InvalidTokenIn,
        },
{
    match swap_token_out(market, token_in) {
        Ok(token_out) => Ok(
            SwapHop {
                market: market.dup(),
                token_in: token_in.dup(),
                token_out,
                receiver: receiver.dup(),
            },
        ),
        Err(e) => Err(e),
    }
}

/// The tokens whose prices a path needs, each once, in fetch order.
pub fn price_fetch_order(token_in: &Bytes, markets: &Vec<MarketProps>) -> (r: Vec<Bytes>)
    ensures
        bytes_view(r@) == price_tokens(token_in@, markets_view(markets@)),
{
    let ghost ms = markets_view(markets@);
    let mut seen: SwapSet<Bytes> = SwapSet::new();
    seen.insert(token_in.dup());
    assert(seen@ =~= price_tokens(token_in@, ms.take(0)));
    let n = markets.len();
    for i in 0..n
        invariant
            n == markets@.len(),
            ms == markets_view(markets@),
            seen.wf(),
            seen@ == price_tokens(token_in@, ms.take(i as int)),
    {
        proof {
            assert(ms.take(i + 1).drop_last() =~= ms.take(i as int));
            assert(ms.take(i + 1).last() == ms[i as int]);
            assert(ms[i as int] == markets@[i as int]@);
        }
        seen.insert(markets[i].long_token.dup());
        seen.insert(markets[i].short_token.dup());
    }
    assert(ms.take(n as int) =~= ms);
    let r = seen.to_vec();
    assert(bytes_view(r@) =~= r@.map_values(|b: Bytes| b@));
    r
}

/// The hops of a swap from `token_in` through `markets` to `receiver`:
/// each hop takes the token the previous one produced, intermediate hops
/// send to the next market, the last to the receiver. Refused if some market
/// does not trade the token it would receive.
pub fn plan_swap_route(token_in: &Bytes, markets: &Vec<MarketProps>, receiver: &Bytes) -> (r: Result<
    Vec<SwapHop>,
    SwapError,
>)
    ensures
        match r {
            Ok(hops) => route_tokens(token_in@, markets_view(markets@)) matches Some(ts) && hops@.len()
                == markets@.len() && forall|i: int|
                0 <= i < hops@.len() ==> #[trigger] hops@[i]@ == planned_hop(
                    markets_view(markets@),
                    ts,
                    receiver@,
                    i,
                ),
            Err(e) => e == SwapError::InvalidTokenIn && route_tokens(
                token_in@,
                markets_view(markets@),
            ) is None,
        },
{
    let ghost ms = markets_view(markets@);
    let n = markets.len();
    let mut hops: Vec<SwapHop> = Vec::new();
    let mut current = token_in.dup();
    let ghost mut ts: Seq<Seq<u8>> = seq![token_in@];
    assert(route_tokens(token_in@, ms.take(0)) == Some(ts)) by {
        assert(ms.take(0).len() == 0);
    }
    for i in 0..n
        invariant
            n == markets@.len(),
            ms == markets_view(markets@),
            route_tokens(token_in@, ms.take(i as int)) == Some(ts),
            ts.len() == i + 1,
            current@ == ts.last(),
            hops@.len() == i,
            forall|j: int| 0 <= j < i ==> #[trigger] hops@[j]@ == planned_hop(ms, ts, receiver@, j),
    {
        proof {
            assert(ms.take(i + 1).drop_last() =~= ms.take(i as int));
            assert(ms.take(i + 1).last() == ms[i as int]);
            assert(ms[i as int] == markets@[i as int]@);
        }
        let token_out = match swap_token_out(&markets[i], &current) {
            Ok(t) => t,
            Err(e) => {
                proof {
                    route_none_stays(token_in@, ms, i as int + 1);
                    assert(ms.take(n as int) =~= ms);
                }
                return Err(e);
            },
        };
        let next_receiver = if i + 1 == n {
            receiver.dup()
        } else {
            markets[i + 1].market_token.dup()
        };
        let ghost prev_ts = ts;
        proof {
            ts = ts.push(token_out@);
        }
        hops.push(
            SwapHop {
                market: markets[i].dup(),
                token_in: current,
                token_out: token_out.dup(),
                receiver: next_receiver,
            },
        );
        current = token_out;
        proof {
            assert forall|j: int| 0 <= j < i + 1 implies #[trigger] hops@[j]@ == planned_hop(
                ms,
                ts,
                receiver@,
                j,
            ) by {
                if j < i {
                    assert(planned_hop(ms, prev_ts, receiver@, j) == planned_hop(ms, ts, receiver@, j));
                } else {
                    if i + 1 < n {
                        assert(ms[i + 1] == markets@[i + 1]@);
                    }
                }
            }
        }
    }
    assert(ms.take(n as int) =~= ms);
    Ok(hops)
}

/// Once a prefix of the path fails to route, the whole path does.
proof fn route_none_stays(token_in: Seq<u8>, ms: Seq<MarketPropsView>, k: int)
    requires
        0 <= k <= ms.len(),
        route_tokens(token_in, ms.take(k)) is None,
    ensures
        route_tokens(token_in, ms) is None,
    decreases ms.len() - k,
{
    if k < ms.len() {
        assert(ms.take(k + 1).drop_last() =~= ms.take(k));
        route_none_stays(token_in, ms, k + 1);
    } else {
        assert(ms.take(k) =~= ms);
    }
}

/// Whether a swap improves the pool balance, which selects the fee factor.
pub fn is_positive_impact(impact_usd: i128) -> (r: bool)
    ensures
        r == (impact_usd >= 0),
{
    impact_usd >= 0
}

/// A change to a pool's recorded amount of one token.
pub struct PoolDelta {
    pub token: Bytes,
    pub delta: i128,
}

/// What settling one hop does to storage and balances.
pub struct HopSettlement {
    /// Whether the price impact is applied to the impact pool of `token_out`.
    pub apply_impact: bool,
    /// Changes to the market's recorded pool amounts, in order.
    pub pool_deltas: Vec<PoolDelta>,
    /// Fee added to the market's claimable fees in `token_out` (0: none).
    pub claimable_fee: i128,
    /// Amount of `token_out` withdrawn from the market to the hop's receiver (0: none).
    pub withdraw_amount: i128,
    /// The hop's output amount.
    pub amount_out: i128,
}

/// A hop's settlement as values.
pub struct HopSettlementView {
    pub apply_impact: bool,
    pub pool_deltas: Seq<(Seq<u8>, i128)>,
    pub claimable_fee: i128,
    pub withdraw_amount: i128,
    pub amount_out: i128,
}

pub open spec fn settlement_view(r: HopSettlement) -> HopSettlementView {
    HopSettlementView {
        apply_impact: r.apply_impact,
        pool_deltas: r.pool_deltas@.map_values(|d: PoolDelta| (d.token@, d.delta)),
        claimable_fee: r.claimable_fee,
        withdraw_amount: r.withdraw_amount,
        amount_out: r.amount_out,
    }
}

/// The settlement of a hop with the given input, output and fee.
pub open spec fn settlement_of(hop: SwapHopView, amount_in: i128, amount_out: i128, fee_amount: i128) -> HopSettlementView {
    if amount_out == 0 {
        HopSettlementView {
            apply_impact: false,
            pool_deltas: seq![(hop.token_in, amount_in)],
            claimable_fee: 0,
            withdraw_amount: 0,
            amount_out: 0,
        }
    } else {
        HopSettlementView {
            apply_impact: true,
            pool_deltas: seq![(hop.token_in, amount_in), (hop.token_out, (-amount_out) as i128)],
            claimable_fee: if fee_amount > 0 {
                fee_amount
            } else {
                0
            },
            withdraw_amount: amount_out,
            amount_out,
        }
    }
}

/// Settles a hop once its output and fee are known. The pool always records
/// the input, which has already moved into the market. A hop with no output
/// records nothing more; otherwise the impact is applied, the pool loses the
/// output, a positive fee becomes claimable, and the output is withdrawn to
/// the receiver.
pub fn settle_swap_hop(hop: &SwapHop, amount_in: i128, amount_out: i128, fee_amount: i128) -> (r:
    HopSettlement)
    requires
        amount_out != i128::MIN,
    ensures
        r.amount_out == amount_out,
        amount_out == 0 ==> {
            &&& !r.apply_impact
            &&& r.pool_deltas@.len() == 1
            &&& r.pool_deltas@[0].token@ == hop.token_in@
            &&& r.pool_deltas@[0].delta == amount_in
            &&& r.claimable_fee == 0
            &&& r.withdraw_amount == 0
        },
        amount_out != 0 ==> {
            &&& r.apply_impact
            &&& r.pool_deltas@.len() == 2
            &&& r.pool_deltas@[0].token@ == hop.token_in@
            &&& r.pool_deltas@[0].delta == amount_in
            &&& r.pool_deltas@[1].token@ == hop.token_out@
            &&& r.pool_deltas@[1].delta == -amount_out
            &&& r.claimable_fee == (if fee_amount > 0 { fee_amount } else { 0 })
            &&& r.withdraw_amount == amount_out
            &&& r.pool_deltas@[1].delta + r.withdraw_amount == 0
        },
        settlement_view(r) == settlement_of(hop@, amount_in, amount_out, fee_amount),
{
    let mut pool_deltas: Vec<PoolDelta> = Vec::new();
    pool_deltas.push(PoolDelta { token: hop.token_in.dup(), delta: amount_in });
    if amount_out == 0 {
        let r = HopSettlement {
            apply_impact: false,
            pool_deltas,
            claimable_fee: 0,
            withdraw_amount: 0,
            amount_out: 0,
        };
        assert(settlement_view(r).pool_deltas =~= settlement_of(hop@, amount_in, amount_out, fee_amount).pool_deltas);
        return r;
    }
    pool_deltas.push(PoolDelta { token: hop.token_out.dup(), delta: -amount_out });
    let r = HopSettlement {
        apply_impact: true,
        pool_deltas,
        claimable_fee: if fee_amount > 0 {
            fee_amount
        } else {
            0
        },
        withdraw_amount: amount_out,
        amount_out,
    };
    assert(settlement_view(r).pool_deltas =~= settlement_of(hop@, amount_in, amount_out, fee_amount).pool_deltas);
    r
}

/// A multi-hop swap in progress: the hops, how many are done, and the token
/// and amount currently held.
pub struct SwapRun {
    hops: Vec<SwapHop>,
    done: usize,
    token: Bytes,
    amount: i128,
}

pub struct SwapRunView {
    pub hops: Seq<SwapHopView>,
    pub done: nat,
    pub token: Seq<u8>,
    pub amount: i128,
}

impl View for SwapRun {
    type V = SwapRunView;

    closed spec fn view(&self) -> SwapRunView {
        SwapRunView {
            hops: self.hops@.map_values(|h: SwapHop| h@),
            done: self.done as nat,
            token: self.token@,
            amount: self.amount,
        }
    }
}

impl SwapRun {
    pub closed spec fn wf(self) -> bool {
        self.done <= self.hops@.len()
    }

    /// A run holding `amount_in` of `token_in` before its first hop.
    pub fn start(token_in: Bytes, amount_in: i128, hops: Vec<SwapHop>) -> (r: SwapRun)
        ensures
            r.wf(),
            r@.hops == hops@.map_values(|h: SwapHop| h@),
            r@.done == 0,
            r@.token == token_in@,
            r@.amount == amount_in,
    {
        SwapRun { hops, done: 0, token: token_in, amount: amount_in }
    }

    /// The next hop and the amount it receives, or `None` when all are done.
    pub fn next_hop(&self) -> (r: Option<(&SwapHop, i128)>)
        requires
            self.wf(),
        ensures
            match r {
                Some((h, a)) => self@.done < self@.hops.len() && h@ == self@.hops[self@.done as int]
                    && a == self@.amount,
                None => self@.done == self@.hops.len(),
            },
    {
        if self.done < self.hops.len() {
            Some((&self.hops[self.done], self.amount))
        } else {
            None
        }
    }

    /// Records the output of the next hop: the run now holds that hop's
    /// output token in the given amount.
    pub fn record_output(&mut self, amount_out: i128)
        requires
            old(self).wf(),
            old(self)@.done < old(self)@.hops.len(),
        ensures
            final(self).wf(),
            final(self)@.hops == old(self)@.hops,
            final(self)@.done == old(self)@.done + 1,
            final(self)@.token == old(self)@.hops[old(self)@.done as int].token_out,
            final(self)@.amount == amount_out,
    {
        let n = self.hops.len();
        self.token = self.hops[self.done].token_out.dup();
        self.amount = amount_out;
        self.done = self.done + 1;
        assert(self.done <= n);
    }

    /// The token and amount held: the swap's result once every hop is done.
    pub fn result(&self) -> (r: (Bytes, i128))
        ensures
            r.0@ == self@.token,
            r.1 == self@.amount,
    {
        (self.token.dup(), self.amount)
    }
}

// ─── Laws ────────────────────────────────────────────────────────────────────

/// A routable path chains: it starts at the incoming token, and each hop
/// turns the token before it into the token after it through its market.
pub proof fn law_route_chains(token_in: Seq<u8>, ms: Seq<MarketPropsView>)
    requires
        route_tokens(token_in, ms) is Some,
    ensures
        ({
            let ts = route_tokens(token_in, ms)->Some_0;
            &&& ts.len() == ms.len() + 1
            &&& ts[0] == token_in
            &&& forall|i: int| 0 <= i < ms.len() ==> other_token(ms[i], ts[i]) == Some(
                #[trigger] ts[i + 1],
            )
        }),
    decreases ms.len(),
{
    if ms.len() > 0 {
        let d = ms.drop_last();
        law_route_chains(token_in, d);
        let ps = route_tokens(token_in, d)->Some_0;
        let ts = route_tokens(token_in, ms)->Some_0;
        assert forall|i: int| 0 <= i < ms.len() implies other_token(ms[i], ts[i]) == Some(
            #[trigger] ts[i + 1],
        ) by {
            if i < d.len() {
                assert(d[i] == ms[i]);
                assert(ts[i] == ps[i]);
                assert(ts[i + 1] == ps[i + 1]);
            }
        }
    }
}

/// A path is accepted exactly when it is within the cap and no market occurs
/// in it twice; a path over the cap is refused as too long, and a path within
/// the cap that repeats any market, at any two positions, is refused as
/// naming a market twice.
pub proof fn law_path_check(path: Seq<Seq<u8>>, max_len: usize)
    ensures
        path_check(path, max_len) is Ok <==> path.len() <= max_len && path.no_duplicates(),
        path.len() > max_len ==> path_check(path, max_len) == Err::<(), SwapError>(SwapError::PathTooLong),
        forall|a: int, b: int|
            0 <= a < b < path.len() && path.len() <= max_len && #[trigger] path[a] == #[trigger] path[b]
                ==> path_check(path, max_len) == Err::<(), SwapError>(SwapError::DuplicateMarketInPath),
{
}

/// A path of one market is the single-market swap: it passes any cap of at
/// least one hop, it is routable exactly when the market trades the incoming
/// token, its one hop is the hop a direct swap through that market makes, and
/// its price cache holds the prices that swap fetches.
pub proof fn law_single_market_path(token_in: Seq<u8>, m: MarketPropsView, receiver: Seq<u8>, cap: usize)
    requires
        cap >= 1,
    ensures
        path_check(seq![m.market_token], cap) == Ok::<(), SwapError>(()),
        route_tokens(token_in, seq![m]) is Some <==> other_token(m, token_in) is Some,
        other_token(m, token_in) matches Some(o) ==> {
            &&& route_tokens(token_in, seq![m]) == Some(seq![token_in, o])
            &&& planned_hop(seq![m], seq![token_in, o], receiver, 0) == (SwapHopView {
                market: m,
                token_in,
                token_out: o,
                receiver,
            })
            &&& price_tokens(token_in, seq![m]).contains(token_in)
            &&& price_tokens(token_in, seq![m]).contains(o)
        },
{
    let ms = seq![m];
    assert(ms.drop_last() =~= Seq::<MarketPropsView>::empty());
    assert(ms.last() == m);
    assert(seq![m.market_token].no_duplicates());
    assert(seq![token_in].last() == token_in);
    assert(route_tokens(token_in, ms.drop_last()) == Some(seq![token_in]));
    if let Some(o) = other_token(m, token_in) {
        assert(seq![token_in].push(o) =~= seq![token_in, o]);
        assert(route_tokens(token_in, ms) == Some(seq![token_in, o]));
        law_price_tokens_cover(token_in, ms);
        assert(ms[0] == m);
        assert(hop_receiver(ms, receiver, 0) == receiver);
        assert(planned_hop(ms, seq![token_in, o], receiver, 0).token_in == token_in);
        assert(planned_hop(ms, seq![token_in, o], receiver, 0).token_out == o);
        assert(o == m.long_token || o == m.short_token);
    }
}

/// The price tokens are listed once each and cover the incoming token and
/// both collateral tokens of every market on the path.
pub proof fn law_price_tokens_cover(token_in: Seq<u8>, ms: Seq<MarketPropsView>)
    ensures
        price_tokens(token_in, ms).no_duplicates(),
        price_tokens(token_in, ms).contains(token_in),
        forall|i: int| 0 <= i < ms.len() ==> price_tokens(token_in, ms).contains(
            #[trigger] ms[i].long_token,
        ) && price_tokens(token_in, ms).contains(ms[i].short_token),
    decreases ms.len(),
{
    let p = price_tokens(token_in, ms);
    if ms.len() == 0 {
        assert(p[0] == token_in);
    } else {
        let d = ms.drop_last();
        law_price_tokens_cover(token_in, d);
        let q = price_tokens(token_in, d);
        let m = ms.last();
        lemma_add_new(q, m.long_token);
        lemma_add_new(add_new(q, m.long_token), m.short_token);
        assert forall|i: int| 0 <= i < ms.len() implies p.contains(#[trigger] ms[i].long_token)
            && p.contains(ms[i].short_token) by {
            if i < d.len() {
                assert(d[i] == ms[i]);
            }
        }
    }
}

/// For a routable path the price cache built up front serves every hop:
/// it holds the token before and after each hop, and it holds at most one
/// token more than the path has hops.
pub proof fn law_price_cache_serves_route(token_in: Seq<u8>, ms: Seq<MarketPropsView>)
    requires
        route_tokens(token_in, ms) is Some,
    ensures
        forall|i: int| 0 <= i <= ms.len() ==> price_tokens(token_in, ms).contains(
            #[trigger] route_tokens(token_in, ms)->Some_0[i],
        ),
        price_tokens(token_in, ms).len() <= ms.len() + 1,
    decreases ms.len(),
{
    let ts = route_tokens(token_in, ms)->Some_0;
    let p = price_tokens(token_in, ms);
    law_route_chains(token_in, ms);
    law_price_tokens_cover(token_in, ms);
    if ms.len() == 0 {
        assert(ts[0] == token_in);
    } else {
        let d = ms.drop_last();
        law_price_cache_serves_route(token_in, d);
        law_price_tokens_cover(token_in, d);
        let q = price_tokens(token_in, d);
        let qs = route_tokens(token_in, d)->Some_0;
        let m = ms.last();
        lemma_add_new(q, m.long_token);
        lemma_add_new(add_new(q, m.long_token), m.short_token);
        assert(qs.len() == d.len() + 1);
        assert(q.contains(qs[d.len() as int]));
        assert(qs.last() == qs[d.len() as int]);
        assert(ts == qs.push(ts[ms.len() as int]));
        assert forall|i: int| 0 <= i <= ms.len() implies p.contains(#[trigger] ts[i]) by {
            if i < ms.len() {
                assert(ts[i] == qs[i]);
                assert(q.contains(qs[i]));
            } else {
                assert(ms[ms.len() - 1] == m);
                assert(other_token(ms[ms.len() - 1], ts[ms.len() - 1]) == Some(ts[i]));
            }
        }
    }
}

/// What appending an absent item does.
proof fn lemma_add_new<A>(s: Seq<A>, x: A)
    requires
        s.no_duplicates(),
    ensures
        add_new(s, x).no_duplicates(),
        add_new(s, x).contains(x),
        forall|y: A| s.contains(y) ==> #[trigger] add_new(s, x).contains(y),
{
    if !s.contains(x) {
        let t = s.push(x);
        assert(t[s.len() as int] == x);
        assert forall|i: int, j: int| 0 <= i < t.len() && 0 <= j < t.len() && i != j implies t[i]
            != t[j] by {
            if i == s.len() && j < s.len() {
                assert(s[j] != x) by {
                    if s[j] == x {
                        assert(s.contains(x));
                    }
                }
            } else if j == s.len() && i < s.len() {
                assert(s[i] != x) by {
                    if s[i] == x {
                        assert(s.contains(x));
                    }
                }
            }
        }
        assert forall|y: A| s.contains(y) implies #[trigger] t.contains(y) by {
            let k = choose|k: int| 0 <= k < s.len() && s[k] == y;
            assert(t[k] == y);
        }
    }
}


// ─── Pools and balances across a path ────────────────────────────────────────

/// For each market and token, how far the market's on-chain balance is above
/// the pool amount it records.
pub type Gap = spec_fn(Seq<u8>, Seq<u8>) -> int;

/// Recording pool changes of `market` lowers its gap by each delta.
pub open spec fn gap_after_deltas(g: Gap, market: Seq<u8>, ds: Seq<(Seq<u8>, i128)>) -> Gap
    decreases ds.len(),
{
    if ds.len() == 0 {
        g
    } else {
        let prev = gap_after_deltas(g, market, ds.drop_last());
        let d = ds.last();
        |m: Seq<u8>, t: Seq<u8>| prev(m, t) - (if m == market && t == d.0 { d.1 as int } else { 0 })
    }
}

/// The gaps after a hop is settled: its pool changes are recorded, its output
/// leaves the market, and, unless it is the last hop, arrives at the receiving
/// market.
pub open spec fn gap_after_hop(g: Gap, hop: SwapHopView, st: HopSettlementView, last: bool) -> Gap {
    let g1 = gap_after_deltas(g, hop.market.market_token, st.pool_deltas);
    |m: Seq<u8>, t: Seq<u8>|
        g1(m, t) - (if m == hop.market.market_token && t == hop.token_out {
            st.withdraw_amount as int
        } else {
            0
        }) + (if !last && m == hop.receiver && t == hop.token_out {
            st.withdraw_amount as int
        } else {
            0
        })
}

/// The amount hop `k` receives: the swap's input, then each hop's output.
pub open spec fn hop_input(amount_in: i128, outs: Seq<i128>, k: int) -> i128 {
    if k == 0 {
        amount_in
    } else {
        outs[k - 1]
    }
}

/// The gaps after the first `k` hops, with outputs `outs` and fees `fees`.
pub open spec fn gaps_after(
    g: Gap,
    hops: Seq<SwapHopView>,
    amount_in: i128,
    outs: Seq<i128>,
    fees: Seq<i128>,
    k: nat,
) -> Gap
    decreases k,
{
    if k == 0 {
        g
    } else {
        let i = (k - 1) as int;
        gap_after_hop(
            gaps_after(g, hops, amount_in, outs, fees, (k - 1) as nat),
            hops[i],
            settlement_of(hops[i], hop_input(amount_in, outs, i), outs[i], fees[i]),
            i + 1 == hops.len(),
        )
    }
}

/// Before the first hop: the input has moved into the first market and is
/// not yet recorded in its pool; every other balance matches its record.
pub open spec fn initial_gap(hops: Seq<SwapHopView>, amount_in: i128) -> Gap {
    |m: Seq<u8>, t: Seq<u8>|
        if m == hops[0].market.market_token && t == hops[0].token_in {
            amount_in as int
        } else {
            0
        }
}

proof fn lemma_gaps(
    hops: Seq<SwapHopView>,
    ms: Seq<MarketPropsView>,
    ts: Seq<Seq<u8>>,
    receiver: Seq<u8>,
    amount_in: i128,
    outs: Seq<i128>,
    fees: Seq<i128>,
    k: nat,
)
    requires
        hops.len() > 0,
        hops.len() == ms.len(),
        ts.len() == ms.len() + 1,
        outs.len() == hops.len(),
        fees.len() == hops.len(),
        forall|i: int| 0 <= i < hops.len() ==> #[trigger] hops[i] == planned_hop(ms, ts, receiver, i),
        forall|i: int| 0 <= i < outs.len() ==> #[trigger] outs[i] != i128::MIN,
        k <= hops.len(),
    ensures
        forall|m: Seq<u8>, t: Seq<u8>|
            #[trigger] gaps_after(initial_gap(hops, amount_in), hops, amount_in, outs, fees, k)(m, t)
                == (if k < hops.len() && m == hops[k as int].market.market_token && t == hops[k as int].token_in {
                hop_input(amount_in, outs, k as int) as int
            } else {
                0
            }),
    decreases k,
{
    if k > 0 {
        let i = (k - 1) as int;
        lemma_gaps(hops, ms, ts, receiver, amount_in, outs, fees, (k - 1) as nat);
        let prev = gaps_after(initial_gap(hops, amount_in), hops, amount_in, outs, fees, (k - 1) as nat);
        let h = hops[i];
        assert(h == planned_hop(ms, ts, receiver, i));
        let st = settlement_of(h, hop_input(amount_in, outs, i), outs[i], fees[i]);
        let ds = st.pool_deltas;
        if outs[i] != 0 {
            assert(ds.drop_last().drop_last() =~= Seq::<(Seq<u8>, i128)>::empty());
            assert(ds.drop_last().last() == ds[0]);
        } else {
            assert(ds.drop_last() =~= Seq::<(Seq<u8>, i128)>::empty());
        }
        let g1 = gap_after_deltas(prev, h.market.market_token, ds);
        assert forall|m: Seq<u8>, t: Seq<u8>| #[trigger] g1(m, t) == prev(m, t) - (if m
            == h.market.market_token && t == h.token_in {
            hop_input(amount_in, outs, i) as int
        } else {
            0
        }) + (if m == h.market.market_token && t == h.token_out {
            outs[i] as int
        } else {
            0
        }) by {
            reveal_with_fuel(gap_after_deltas, 3);
        }
        if k < hops.len() {
            let h2 = hops[k as int];
            assert(h2 == planned_hop(ms, ts, receiver, k as int));
            assert(h.receiver == h2.market.market_token);
            assert(h.token_out == h2.token_in);
        }
    }
}

/// Across a whole path, every market's balance of every token ends equal to
/// the pool amount it records: the input moved into the first market and each
/// output moved into the next market are all recorded, also where a hop
/// produces no output. The last hop's output is withdrawn to the receiver.
pub proof fn law_pools_match_balances(
    ms: Seq<MarketPropsView>,
    ts: Seq<Seq<u8>>,
    receiver: Seq<u8>,
    hops: Seq<SwapHopView>,
    amount_in: i128,
    outs: Seq<i128>,
    fees: Seq<i128>,
)
    requires
        hops.len() > 0,
        hops.len() == ms.len(),
        ts.len() == ms.len() + 1,
        outs.len() == hops.len(),
        fees.len() == hops.len(),
        forall|i: int| 0 <= i < hops.len() ==> #[trigger] hops[i] == planned_hop(ms, ts, receiver, i),
        forall|i: int| 0 <= i < outs.len() ==> #[trigger] outs[i] != i128::MIN,
    ensures
        forall|m: Seq<u8>, t: Seq<u8>|
            #[trigger] gaps_after(initial_gap(hops, amount_in), hops, amount_in, outs, fees, hops.len())(
                m,
                t,
            ) == 0,
        settlement_of(
            hops[hops.len() - 1],
            hop_input(amount_in, outs, hops.len() - 1),
            outs[hops.len() - 1],
            fees[hops.len() - 1],
        ).withdraw_amount == outs[hops.len() - 1],
        hops[hops.len() - 1].receiver == receiver,
{
    lemma_gaps(hops, ms, ts, receiver, amount_in, outs, fees, hops.len());
    assert(hops[hops.len() - 1] == planned_hop(ms, ts, receiver, hops.len() - 1));
}

} // verus!
