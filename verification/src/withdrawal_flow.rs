//! Withdrawal requests routed through the exchange router: each request gets a
//! fresh id, a receipt that tracks its status, and a place in its account's
//! list of withdrawals.
use vstd::prelude::*;
use crate::bytes::{Bytes, Stored};
use crate::collections::{KeyedMap, SwapSet};

verus! {

/// Where a withdrawal request stands.
#[derive(Clone, Copy, PartialEq, Eq, Structural, Debug)]
pub enum WithdrawalStatus {
    Pending,
    Processing,
    Completed,
    Failed,
    Cancelled,
}

impl View for WithdrawalStatus {
    type V = WithdrawalStatus;

    open spec fn view(&self) -> WithdrawalStatus {
        *self
    }
}

/// A withdrawal request. The amount is a big unsigned integer, held as its
/// big-endian bytes.
pub struct WithdrawalRequest {
    pub account: Bytes,
    pub token: Bytes,
    pub amount: Bytes,
    pub market: Bytes,
    pub collateral_token: Bytes,
}

pub struct WithdrawalRequestView {
    pub account: Seq<u8>,
    pub token: Seq<u8>,
    pub amount: Seq<u8>,
    pub market: Seq<u8>,
    pub collateral_token: Seq<u8>,
}

impl View for WithdrawalRequest {
    type V = WithdrawalRequestView;

    open spec fn view(&self) -> WithdrawalRequestView {
        WithdrawalRequestView {
            account: self.account@,
            token: self.token@,
            amount: self.amount@,
            market: self.market@,
            collateral_token: self.collateral_token@,
        }
    }
}

impl Stored for WithdrawalRequest {
    fn dup(&self) -> (r: WithdrawalRequest) {
        WithdrawalRequest {
            account: self.account.dup(),
            token: self.token.dup(),
            amount: self.amount.dup(),
            market: self.market.dup(),
            collateral_token: self.collateral_token.dup(),
        }
    }
}

/// The receipt of a withdrawal request.
pub struct WithdrawalReceipt {
    pub request_id: u64,
    pub account: Bytes,
    pub token: Bytes,
    pub amount: Bytes,
    pub status: WithdrawalStatus,
    pub timestamp: u64,
}

pub struct WithdrawalReceiptView {
    pub request_id: u64,
    pub account: Seq<u8>,
    pub token: Seq<u8>,
    pub amount: Seq<u8>,
    pub status: WithdrawalStatus,
    pub timestamp: u64,
}

impl View for WithdrawalReceipt {
    type V = WithdrawalReceiptView;

    open spec fn view(&self) -> WithdrawalReceiptView {
        WithdrawalReceiptView {
            request_id: self.request_id,
            account: self.account@,
            token: self.token@,
            amount: self.amount@,
            status: self.status,
            timestamp: self.timestamp,
        }
    }
}

impl WithdrawalReceipt {
    /// A copy of this receipt with its status replaced.
    pub fn with_status(&self, status: WithdrawalStatus) -> (r: WithdrawalReceipt)
        ensures
            r@ == (WithdrawalReceiptView { status, ..self@ }),
    {
        WithdrawalReceipt {
            request_id: self.request_id,
            account: self.account.dup(),
            token: self.token.dup(),
            amount: self.amount.dup(),
            status,
            timestamp: self.timestamp,
        }
    }
}

impl Stored for WithdrawalReceipt {
    fn dup(&self) -> (r: WithdrawalReceipt) {
        self.with_status(self.status)
    }
}

/// The module's storage as values.
#[verifier::ext_equal]
pub struct WithdrawalFlowState {
    pub requests: Map<u64, WithdrawalRequestView>,
    pub receipts: Map<u64, WithdrawalReceiptView>,
    pub counter: u64,
    pub account_withdrawals: Map<Seq<u8>, Seq<u64>>,
}

/// The request ids of an account, in listing order; none if never recorded.
pub open spec fn withdrawals_of(s: WithdrawalFlowState, account: Seq<u8>) -> Seq<u64> {
    if s.account_withdrawals.contains_key(account) {
        s.account_withdrawals[account]
    } else {
        Seq::empty()
    }
}

/// A receipt mirrors its request.
pub open spec fn receipt_matches(r: WithdrawalReceiptView, id: u64, q: WithdrawalRequestView) -> bool {
    &&& r.request_id == id
    &&& r.account == q.account
    &&& r.token == q.token
    &&& r.amount == q.amount
}

/// What the module's storage always satisfies: the request ids are exactly
/// 1 to the counter, every request has a receipt that mirrors it, and each
/// account's list holds exactly the ids of that account's requests, once each.
pub open spec fn flow_inv(s: WithdrawalFlowState) -> bool {
    &&& forall|id: u64| #[trigger] s.requests.contains_key(id) <==> 0 < id <= s.counter
    &&& forall|id: u64| #[trigger] s.receipts.contains_key(id) <==> s.requests.contains_key(id)
    &&& forall|id: u64| #[trigger]
        s.receipts.contains_key(id) ==> receipt_matches(s.receipts[id], id, s.requests[id])
    &&& forall|a: Seq<u8>| #[trigger] withdrawals_of(s, a).no_duplicates()
    &&& forall|a: Seq<u8>, id: u64| #[trigger]
        withdrawals_of(s, a).contains(id) ==> s.requests.contains_key(id) && s.requests[id].account
            == a
    &&& forall|id: u64| #[trigger]
        s.requests.contains_key(id) ==> withdrawals_of(s, s.requests[id].account).contains(id)
}

pub open spec fn initiate_next(
    s: WithdrawalFlowState,
    account: Seq<u8>,
    token: Seq<u8>,
    amount: Seq<u8>,
    market: Seq<u8>,
    collateral_token: Seq<u8>,
    now: u64,
) -> (WithdrawalFlowState, u64) {
    let id = (s.counter + 1) as u64;
    (
        WithdrawalFlowState {
            requests: s.requests.insert(
                id,
                WithdrawalRequestView { account, token, amount, market, collateral_token },
            ),
            receipts: s.receipts.insert(
                id,
                WithdrawalReceiptView {
                    request_id: id,
                    account,
                    token,
                    amount,
                    status: WithdrawalStatus::Pending,
                    timestamp: now,
                },
            ),
            counter: id,
            account_withdrawals: s.account_withdrawals.insert(account, withdrawals_of(s, account).push(id)),
        },
        id,
    )
}

/// Sets the status of receipt `id`, whatever it was; nothing happens for an unknown id.
pub open spec fn set_status_next(s: WithdrawalFlowState, id: u64, status: WithdrawalStatus) -> (
    WithdrawalFlowState,
    bool,
) {
    if s.receipts.contains_key(id) {
        (
            WithdrawalFlowState {
                receipts: s.receipts.insert(id, WithdrawalReceiptView { status, ..s.receipts[id] }),
                ..s
            },
            true,
        )
    } else {
        (s, false)
    }
}

/// Cancels receipt `id` if it is still pending.
pub open spec fn cancel_next(s: WithdrawalFlowState, id: u64) -> (WithdrawalFlowState, bool) {
    if s.receipts.contains_key(id) && s.receipts[id].status == WithdrawalStatus::Pending {
        set_status_next(s, id, WithdrawalStatus::Cancelled)
    } else {
        (s, false)
    }
}

/// The invariant holds of empty storage.
pub proof fn lemma_empty_inv()
    ensures
        flow_inv(
            WithdrawalFlowState {
                requests: Map::empty(),
                receipts: Map::empty(),
                counter: 0,
                account_withdrawals: Map::empty(),
            },
        ),
{
}

/// A new request gets the id after the counter, which no request had; its
/// receipt is pending and mirrors it; it is listed last for its account; and
/// the invariant is kept.
pub proof fn law_initiate(
    s: WithdrawalFlowState,
    account: Seq<u8>,
    token: Seq<u8>,
    amount: Seq<u8>,
    market: Seq<u8>,
    collateral_token: Seq<u8>,
    now: u64,
)
    requires
        flow_inv(s),
        s.counter < u64::MAX,
    ensures
        ({
            let (s2, id) = initiate_next(s, account, token, amount, market, collateral_token, now);
            &&& id == s.counter + 1
            &&& !s.requests.contains_key(id)
            &&& !s.receipts.contains_key(id)
            &&& forall|j: u64| j != id ==> s2.requests.get(j) == s.requests.get(j) && s2.receipts.get(j)
                == s.receipts.get(j)
            &&& forall|a: Seq<u8>| a != account ==> withdrawals_of(s2, a) == withdrawals_of(s, a)
            &&& s2.receipts[id].status == WithdrawalStatus::Pending
            &&& s2.receipts[id].token == token
            &&& s2.receipts[id].amount == amount
            &&& withdrawals_of(s2, account) == withdrawals_of(s, account).push(id)
            &&& flow_inv(s2)
        }),
{
    let (s2, id) = initiate_next(s, account, token, amount, market, collateral_token, now);
    assert(!s.requests.contains_key(id));
    assert forall|j: u64| j != id implies s2.requests.get(j) == s.requests.get(j) && s2.receipts.get(j)
        == s.receipts.get(j) by {}
    assert(!withdrawals_of(s, account).contains(id));
    assert forall|a: Seq<u8>| #[trigger] withdrawals_of(s2, a).no_duplicates() by {
        if a == account {
            let old_ids = withdrawals_of(s, account);
            assert(old_ids.no_duplicates());
            assert(withdrawals_of(s2, a) == old_ids.push(id));
            assert forall|i: int, j: int|
                0 <= i < old_ids.len() + 1 && 0 <= j < old_ids.len() + 1 && i != j implies old_ids.push(
                id,
            )[i] != old_ids.push(id)[j] by {
                if i == old_ids.len() {
                    assert(old_ids[j] != id) by {
                        if old_ids[j] == id {
                            assert(old_ids.contains(id));
                        }
                    }
                } else if j == old_ids.len() {
                    assert(old_ids[i] != id) by {
                        if old_ids[i] == id {
                            assert(old_ids.contains(id));
                        }
                    }
                }
            }
        } else {
            assert(withdrawals_of(s2, a) == withdrawals_of(s, a));
        }
    }
    assert forall|a: Seq<u8>, x: u64| #[trigger]
        withdrawals_of(s2, a).contains(x) implies s2.requests.contains_key(x) && s2.requests[x].account
        == a by {
        if a == account {
            let old_ids = withdrawals_of(s, account);
            let k = choose|k: int| 0 <= k < withdrawals_of(s2, a).len() && withdrawals_of(s2, a)[k] == x;
            if k < old_ids.len() {
                assert(old_ids[k] == x);
                assert(old_ids.contains(x));
            }
        } else {
            assert(withdrawals_of(s2, a) == withdrawals_of(s, a));
            assert(withdrawals_of(s, a).contains(x));
        }
    }
    assert forall|x: u64| #[trigger] s2.requests.contains_key(x) implies withdrawals_of(
        s2,
        s2.requests[x].account,
    ).contains(x) by {
        if x == id {
            assert(withdrawals_of(s2, account)[withdrawals_of(s, account).len() as int] == id);
        } else {
            let a = s.requests[x].account;
            assert(withdrawals_of(s, a).contains(x));
            let k = choose|k: int| 0 <= k < withdrawals_of(s, a).len() && withdrawals_of(s, a)[k] == x;
            if a == account {
                assert(withdrawals_of(s2, a)[k] == x);
            } else {
                assert(withdrawals_of(s2, a) == withdrawals_of(s, a));
            }
        }
    }
}

/// Changing a status keeps the invariant and touches only that receipt's status.
pub proof fn law_set_status(s: WithdrawalFlowState, id: u64, status: WithdrawalStatus)
    requires
        flow_inv(s),
    ensures
        flow_inv(set_status_next(s, id, status).0),
        set_status_next(s, id, status).1 == s.receipts.contains_key(id),
        set_status_next(s, id, status).1 ==> set_status_next(s, id, status).0.receipts[id].status
            == status,
        !s.receipts.contains_key(id) ==> set_status_next(s, id, status).0 == s,
        set_status_next(s, id, status).0.requests == s.requests,
        set_status_next(s, id, status).0.counter == s.counter,
        set_status_next(s, id, status).0.receipts.dom() == s.receipts.dom(),
        forall|j: u64| #[trigger] s.receipts.contains_key(j) && j != id ==> set_status_next(s, id, status).0.receipts[j]
            == s.receipts[j],
        s.receipts.contains_key(id) ==> set_status_next(s, id, status).0.receipts[id] == (WithdrawalReceiptView {
            status,
            ..s.receipts[id]
        }),
{
    let s2 = set_status_next(s, id, status).0;
    if s.receipts.contains_key(id) {
        assert(s2.receipts.dom() =~= s.receipts.dom());
    }
    assert forall|a: Seq<u8>| #[trigger] withdrawals_of(s2, a) == withdrawals_of(s, a) by {}
}

/// A request can be cancelled only while pending, and only once. A refused
/// cancel changes nothing; an accepted one changes only that receipt's status.
pub proof fn law_cancel_only_pending(s: WithdrawalFlowState, id: u64)
    requires
        flow_inv(s),
    ensures
        cancel_next(s, id).1 <==> (s.receipts.contains_key(id) && s.receipts[id].status
            == WithdrawalStatus::Pending),
        cancel_next(s, id).1 ==> cancel_next(s, id).0.receipts[id].status
            == WithdrawalStatus::Cancelled,
        cancel_next(s, id).1 ==> !cancel_next(cancel_next(s, id).0, id).1,
        !cancel_next(s, id).1 ==> cancel_next(s, id).0 == s,
        cancel_next(s, id).0.requests == s.requests,
        cancel_next(s, id).0.counter == s.counter,
        cancel_next(s, id).0.account_withdrawals == s.account_withdrawals,
        cancel_next(s, id).0.receipts.dom() == s.receipts.dom(),
        forall|j: u64| #[trigger] s.receipts.contains_key(j) && j != id ==> cancel_next(s, id).0.receipts[j]
            == s.receipts[j],
        cancel_next(s, id).1 ==> cancel_next(s, id).0.receipts[id] == (WithdrawalReceiptView {
            status: WithdrawalStatus::Cancelled,
            ..s.receipts[id]
        }),
        flow_inv(cancel_next(s, id).0),
{
    law_set_status(s, id, WithdrawalStatus::Cancelled);
}

/// Each account's list holds exactly the ids of that account's requests,
/// and the receipt of each listed id names that account.
pub proof fn law_account_index(s: WithdrawalFlowState, account: Seq<u8>, id: u64)
    requires
        flow_inv(s),
    ensures
        withdrawals_of(s, account).contains(id) <==> (s.requests.contains_key(id)
            && s.requests[id].account == account),
        withdrawals_of(s, account).contains(id) ==> s.receipts[id].account == account,
{
    if withdrawals_of(s, account).contains(id) {
        assert(s.requests.contains_key(id));
        assert(s.receipts.contains_key(id));
    }
}

/// The withdrawal book.
pub struct WithdrawalFlowModule {
    requests: KeyedMap<u64, WithdrawalRequest>,
    receipts: KeyedMap<u64, WithdrawalReceipt>,
    counter: u64,
    account_withdrawals: KeyedMap<Bytes, SwapSet<u64>>,
}

impl View for WithdrawalFlowModule {
    type V = WithdrawalFlowState;

    closed spec fn view(&self) -> WithdrawalFlowState {
        WithdrawalFlowState {
            requests: self.requests@,
            receipts: self.receipts@,
            counter: self.counter,
            account_withdrawals: self.account_withdrawals@,
        }
    }
}

impl WithdrawalFlowModule {
    pub closed spec fn wf(self) -> bool {
        &&& self.requests.wf()
        &&& self.receipts.wf()
        &&& self.account_withdrawals.wf()
        &&& flow_inv(self@)
    }

    /// What a well-formed book guarantees of its value.
    pub proof fn lemma_inv(self)
        requires
            self.wf(),
        ensures
            flow_inv(self@),
    {
    }

    /// Empty storage.
    pub fn new() -> (r: Self)
        ensures
            r.wf(),
            r@.counter == 0,
            r@.requests == Map::<u64, WithdrawalRequestView>::empty(),
            r@.receipts == Map::<u64, WithdrawalReceiptView>::empty(),
            r@.account_withdrawals == Map::<Seq<u8>, Seq<u64>>::empty(),
    {
        proof {
            lemma_empty_inv();
        }
        WithdrawalFlowModule {
            requests: KeyedMap::new(),
            receipts: KeyedMap::new(),
            counter: 0,
            account_withdrawals: KeyedMap::new(),
        }
    }

    /// The last id handed out (0 before the first request).
    pub fn withdrawal_counter(&self) -> (r: u64)
        ensures
            r == self@.counter,
    {
        self.counter
    }

    /// Records a new pending request and returns its id, one past the counter.
    pub fn initiate_withdrawal(
        &mut self,
        account: &Bytes,
        token: Bytes,
        amount: Bytes,
        market: Bytes,
        collateral_token: Bytes,
        now: u64,
    ) -> (id: u64)
        requires
            old(self).wf(),
            old(self)@.counter < u64::MAX,
        ensures
            final(self).wf(),
            id == old(self)@.counter + 1,
            !old(self)@.requests.contains_key(id),
            !old(self)@.receipts.contains_key(id),
            (final(self)@, id) == initiate_next(
                old(self)@,
                account@,
                token@,
                amount@,
                market@,
                collateral_token@,
                now,
            ),
    {
        let ghost s = self@;
        let ghost gv = (account@, token@, amount@, market@, collateral_token@);
        proof {
            law_initiate(s, gv.0, gv.1, gv.2, gv.3, gv.4, now);
        }
        let request_id = self.counter + 1;
        let receipt = WithdrawalReceipt {
            request_id,
            account: account.dup(),
            token: token.dup(),
            amount: amount.dup(),
            status: WithdrawalStatus::Pending,
            timestamp: now,
        };
        let request = WithdrawalRequest {
            account: account.dup(),
            token,
            amount,
            market,
            collateral_token,
        };
        self.requests.insert(request_id, request);
        self.receipts.insert(request_id, receipt);
        match self.account_withdrawals.find(account) {
            Some(i) => {
                let mut ids = self.account_withdrawals.swap_value_at(i, SwapSet::new());
                assert(ids@ == withdrawals_of(s, gv.0));
                ids.insert(request_id);
                self.account_withdrawals.swap_value_at(i, ids);
            },
            None => {
                let mut ids: SwapSet<u64> = SwapSet::new();
                ids.insert(request_id);
                assert(ids@ =~= withdrawals_of(s, gv.0).push(request_id));
                self.account_withdrawals.insert(account.dup(), ids);
            },
        }
        self.counter = request_id;
        assert(self@ =~= initiate_next(s, gv.0, gv.1, gv.2, gv.3, gv.4, now).0);
        request_id
    }

    /// Sets the status of a known receipt; tells whether the id was known.
    fn set_status(&mut self, request_id: u64, status: WithdrawalStatus) -> (r: bool)
        requires
            old(self).wf(),
        ensures
            final(self).wf(),
            (final(self)@, r) == set_status_next(old(self)@, request_id, status),
    {
        proof {
            law_set_status(self@, request_id, status);
        }
        match self.receipts.find(&request_id) {
            Some(i) => {
                let updated = self.receipts.value_at(i).with_status(status);
                self.receipts.swap_value_at(i, updated);
                assert(self@ =~= set_status_next(old(self)@, request_id, status).0);
                true
            },
            None => false,
        }
    }

    /// Marks a known request as processing, whatever its status.
    pub fn process_withdrawal(&mut self, request_id: u64) -> (r: bool)
        requires
            old(self).wf(),
        ensures
            final(self).wf(),
            (final(self)@, r) == set_status_next(old(self)@, request_id, WithdrawalStatus::Processing),
    {
        self.set_status(request_id, WithdrawalStatus::Processing)
    }

    /// Marks a known request as completed, whatever its status.
    pub fn complete_withdrawal(&mut self, request_id: u64) -> (r: bool)
        requires
            old(self).wf(),
        ensures
            final(self).wf(),
            (final(self)@, r) == set_status_next(old(self)@, request_id, WithdrawalStatus::Completed),
    {
        self.set_status(request_id, WithdrawalStatus::Completed)
    }

    /// Marks a known request as failed, whatever its status.
    pub fn fail_withdrawal(&mut self, request_id: u64) -> (r: bool)
        requires
            old(self).wf(),
        ensures
            final(self).wf(),
            (final(self)@, r) == set_status_next(old(self)@, request_id, WithdrawalStatus::Failed),
    {
        self.set_status(request_id, WithdrawalStatus::Failed)
    }

    /// Cancels a request that is still pending; tells whether it did.
    pub fn cancel_withdrawal(&mut self, request_id: u64) -> (r: bool)
        requires
            old(self).wf(),
        ensures
            final(self).wf(),
            (final(self)@, r) == cancel_next(old(self)@, request_id),
            r == (old(self)@.receipts.contains_key(request_id) && old(self)@.receipts[request_id].status
                == WithdrawalStatus::Pending),
            r ==> final(self)@.receipts[request_id].status == WithdrawalStatus::Cancelled,
            !r ==> final(self)@ == old(self)@,
    {
        let pending = match self.receipts.get(&request_id) {
            Some(receipt) => receipt.status == WithdrawalStatus::Pending,
            None => false,
        };
        if pending {
            self.set_status(request_id, WithdrawalStatus::Cancelled)
        } else {
            false
        }
    }

    pub fn get_withdrawal_request(&self, request_id: u64) -> (r: Option<WithdrawalRequest>)
        requires
            self.wf(),
        ensures
            match r {
                Some(q) => self@.requests.contains_key(request_id) && self@.requests[request_id]
                    == q@,
                None => !self@.requests.contains_key(request_id),
            },
    {
        match self.requests.get(&request_id) {
            Some(q) => Some(q.dup()),
            None => None,
        }
    }

    pub fn get_withdrawal_receipt(&self, request_id: u64) -> (r: Option<WithdrawalReceipt>)
        requires
            self.wf(),
        ensures
            match r {
                Some(q) => self@.receipts.contains_key(request_id) && self@.receipts[request_id]
                    == q@,
                None => !self@.receipts.contains_key(request_id),
            },
    {
        match self.receipts.get(&request_id) {
            Some(q) => Some(q.dup()),
            None => None,
        }
    }

    /// The ids of the account's requests, in listing order.
    pub fn get_account_withdrawals(&self, account: &Bytes) -> (r: Vec<u64>)
        requires
            self.wf(),
        ensures
            r@ == withdrawals_of(self@, account@),
    {
        match self.account_withdrawals.get(account) {
            Some(ids) => {
                let v = ids.to_vec();
                assert(v@.map_values(|x: u64| x@) =~= v@);
                assert(v@ =~= withdrawals_of(self@, account@));
                v
            },
            None => Vec::new(),
        }
    }

    pub fn get_withdrawal_status(&self, request_id: u64) -> (r: Option<WithdrawalStatus>)
        requires
            self.wf(),
        ensures
            match r {
                Some(st) => self@.receipts.contains_key(request_id)
                    && self@.receipts[request_id].status == st,
                None => !self@.receipts.contains_key(request_id),
            },
    {
        match self.receipts.get(&request_id) {
            Some(q) => Some(q.status),
            None => None,
        }
    }

    /// How many requests the account has.
    pub fn get_account_withdrawal_count(&self, account: &Bytes) -> (r: u64)
        requires
            self.wf(),
        ensures
            r == withdrawals_of(self@, account@).len(),
    {
        match self.account_withdrawals.get(account) {
            Some(ids) => ids.len() as u64,
            None => 0,
        }
    }
}

} // verus!
