use so4_markets::bytes::Bytes;
use so4_markets::withdrawal_flow::{WithdrawalFlowModule, WithdrawalStatus};

fn wb(s: &str) -> Bytes {
    Bytes::from_slice(s.as_bytes())
}

fn initiate(m: &mut WithdrawalFlowModule, account: &str, amount: &[u8], now: u64) -> u64 {
    m.initiate_withdrawal(
        &wb(account),
        wb("USDC-123456"),
        Bytes::from_slice(amount),
        wb("market-1"),
        wb("WEGLD-abcdef"),
        now,
    )
}

#[test]
fn withdrawal_ids_count_up_from_one() {
    let mut m = WithdrawalFlowModule::new();
    assert_eq!(m.withdrawal_counter(), 0);
    assert_eq!(initiate(&mut m, "alice", &[1, 0], 100), 1);
    assert_eq!(initiate(&mut m, "bob", &[2], 101), 2);
    assert_eq!(initiate(&mut m, "alice", &[3], 102), 3);
    assert_eq!(m.withdrawal_counter(), 3);
}

#[test]
fn withdrawal_receipt_mirrors_request() {
    let mut m = WithdrawalFlowModule::new();
    let id = initiate(&mut m, "alice", &[0x27, 0x10], 555);
    let req = m.get_withdrawal_request(id).unwrap();
    assert_eq!(req.account, wb("alice"));
    assert_eq!(req.market, wb("market-1"));
    assert_eq!(req.collateral_token, wb("WEGLD-abcdef"));
    let rc = m.get_withdrawal_receipt(id).unwrap();
    assert_eq!(rc.request_id, id);
    assert_eq!(rc.account, wb("alice"));
    assert_eq!(rc.token, wb("USDC-123456"));
    assert_eq!(rc.amount.data, vec![0x27, 0x10]);
    assert_eq!(rc.status, WithdrawalStatus::Pending);
    assert_eq!(rc.timestamp, 555);
}

#[test]
fn withdrawal_status_transitions() {
    let mut m = WithdrawalFlowModule::new();
    let id = initiate(&mut m, "alice", &[1], 1);
    assert!(m.process_withdrawal(id));
    assert_eq!(m.get_withdrawal_status(id), Some(WithdrawalStatus::Processing));
    assert!(m.complete_withdrawal(id));
    assert_eq!(m.get_withdrawal_status(id), Some(WithdrawalStatus::Completed));
    assert!(m.fail_withdrawal(id));
    assert_eq!(m.get_withdrawal_status(id), Some(WithdrawalStatus::Failed));
}

#[test]
fn withdrawal_unknown_id_is_refused() {
    let mut m = WithdrawalFlowModule::new();
    assert!(!m.process_withdrawal(9));
    assert!(!m.complete_withdrawal(9));
    assert!(!m.fail_withdrawal(9));
    assert!(!m.cancel_withdrawal(9));
    assert_eq!(m.get_withdrawal_status(9), None);
    assert!(m.get_withdrawal_request(9).is_none());
    assert!(m.get_withdrawal_receipt(9).is_none());
}

#[test]
fn withdrawal_cancel_only_while_pending() {
    let mut m = WithdrawalFlowModule::new();
    let a = initiate(&mut m, "alice", &[1], 1);
    let b = initiate(&mut m, "alice", &[1], 1);
    assert!(m.cancel_withdrawal(a));
    assert_eq!(m.get_withdrawal_status(a), Some(WithdrawalStatus::Cancelled));
    assert!(!m.cancel_withdrawal(a));
    assert!(m.process_withdrawal(b));
    assert!(!m.cancel_withdrawal(b));
    assert_eq!(m.get_withdrawal_status(b), Some(WithdrawalStatus::Processing));
}

#[test]
fn withdrawal_account_index() {
    let mut m = WithdrawalFlowModule::new();
    let a1 = initiate(&mut m, "alice", &[1], 1);
    let b1 = initiate(&mut m, "bob", &[1], 1);
    let a2 = initiate(&mut m, "alice", &[1], 1);
    assert_eq!(m.get_account_withdrawals(&wb("alice")), vec![a1, a2]);
    assert_eq!(m.get_account_withdrawals(&wb("bob")), vec![b1]);
    assert_eq!(m.get_account_withdrawals(&wb("carol")), Vec::<u64>::new());
    assert_eq!(m.get_account_withdrawal_count(&wb("alice")), 2);
    assert_eq!(m.get_account_withdrawal_count(&wb("carol")), 0);
}

#[test]
fn withdrawal_ids_are_exactly_one_to_counter() {
    let mut m = WithdrawalFlowModule::new();
    for i in 0..4u64 {
        initiate(&mut m, if i % 2 == 0 { "alice" } else { "bob" }, &[1], i);
    }
    m.cancel_withdrawal(2);
    for id in 1..=m.withdrawal_counter() {
        assert!(m.get_withdrawal_request(id).is_some());
        assert_eq!(m.get_withdrawal_receipt(id).unwrap().request_id, id);
    }
    assert!(m.get_withdrawal_request(0).is_none());
    assert!(m.get_withdrawal_request(m.withdrawal_counter() + 1).is_none());
}
