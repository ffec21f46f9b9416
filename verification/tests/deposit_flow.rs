use so4_markets::bytes::Bytes;
use so4_markets::deposit_flow::{DepositFlowModule, DepositStatus};

fn db(s: &str) -> Bytes {
    Bytes::from_slice(s.as_bytes())
}

fn initiate(m: &mut DepositFlowModule, account: &str, amount: &[u8], now: u64) -> u64 {
    m.initiate_deposit(
        &db(account),
        db("USDC-123456"),
        Bytes::from_slice(amount),
        db("market-1"),
        db("WEGLD-abcdef"),
        now,
    )
}

#[test]
fn deposit_ids_count_up_from_one() {
    let mut m = DepositFlowModule::new();
    assert_eq!(m.deposit_counter(), 0);
    assert_eq!(initiate(&mut m, "alice", &[1, 0], 100), 1);
    assert_eq!(initiate(&mut m, "bob", &[2], 101), 2);
    assert_eq!(initiate(&mut m, "alice", &[3], 102), 3);
    assert_eq!(m.deposit_counter(), 3);
}

#[test]
fn deposit_receipt_mirrors_request() {
    let mut m = DepositFlowModule::new();
    let id = initiate(&mut m, "alice", &[0x27, 0x10], 555);
    let req = m.get_deposit_request(id).unwrap();
    assert_eq!(req.account, db("alice"));
    assert_eq!(req.market, db("market-1"));
    assert_eq!(req.collateral_token, db("WEGLD-abcdef"));
    let rc = m.get_deposit_receipt(id).unwrap();
    assert_eq!(rc.request_id, id);
    assert_eq!(rc.account, db("alice"));
    assert_eq!(rc.token, db("USDC-123456"));
    assert_eq!(rc.amount.data, vec![0x27, 0x10]);
    assert_eq!(rc.status, DepositStatus::Pending);
    assert_eq!(rc.timestamp, 555);
}

#[test]
fn deposit_status_transitions() {
    let mut m = DepositFlowModule::new();
    let id = initiate(&mut m, "alice", &[1], 1);
    assert!(m.process_deposit(id));
    assert_eq!(m.get_deposit_status(id), Some(DepositStatus::Processing));
    assert!(m.complete_deposit(id));
    assert_eq!(m.get_deposit_status(id), Some(DepositStatus::Completed));
    assert!(m.fail_deposit(id));
    assert_eq!(m.get_deposit_status(id), Some(DepositStatus::Failed));
}

#[test]
fn deposit_unknown_id_is_refused() {
    let mut m = DepositFlowModule::new();
    assert!(!m.process_deposit(9));
    assert!(!m.complete_deposit(9));
    assert!(!m.fail_deposit(9));
    assert!(!m.cancel_deposit(9));
    assert_eq!(m.get_deposit_status(9), None);
    assert!(m.get_deposit_request(9).is_none());
    assert!(m.get_deposit_receipt(9).is_none());
}

#[test]
fn deposit_cancel_only_while_pending() {
    let mut m = DepositFlowModule::new();
    let a = initiate(&mut m, "alice", &[1], 1);
    let b = initiate(&mut m, "alice", &[1], 1);
    assert!(m.cancel_deposit(a));
    assert_eq!(m.get_deposit_status(a), Some(DepositStatus::Cancelled));
    assert!(!m.cancel_deposit(a));
    assert!(m.process_deposit(b));
    assert!(!m.cancel_deposit(b));
    assert_eq!(m.get_deposit_status(b), Some(DepositStatus::Processing));
}

#[test]
fn deposit_account_index() {
    let mut m = DepositFlowModule::new();
    let a1 = initiate(&mut m, "alice", &[1], 1);
    let b1 = initiate(&mut m, "bob", &[1], 1);
    let a2 = initiate(&mut m, "alice", &[1], 1);
    assert_eq!(m.get_account_deposits(&db("alice")), vec![a1, a2]);
    assert_eq!(m.get_account_deposits(&db("bob")), vec![b1]);
    assert_eq!(m.get_account_deposits(&db("carol")), Vec::<u64>::new());
    assert_eq!(m.get_account_deposit_count(&db("alice")), 2);
    assert_eq!(m.get_account_deposit_count(&db("carol")), 0);
}

#[test]
fn deposit_ids_are_exactly_one_to_counter() {
    let mut m = DepositFlowModule::new();
    for i in 0..4u64 {
        initiate(&mut m, if i % 2 == 0 { "alice" } else { "bob" }, &[1], i);
    }
    m.cancel_deposit(2);
    for id in 1..=m.deposit_counter() {
        assert!(m.get_deposit_request(id).is_some());
        assert_eq!(m.get_deposit_receipt(id).unwrap().request_id, id);
    }
    assert!(m.get_deposit_request(0).is_none());
    assert!(m.get_deposit_request(m.deposit_counter() + 1).is_none());
}
