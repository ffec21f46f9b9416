use so4_markets::bytes::Bytes;
use so4_markets::storage_ttl::StorageTTLModule;

fn tb(s: &str) -> Bytes {
    Bytes::from_slice(s.as_bytes())
}

#[test]
fn set_policy_records_times() {
    let mut m = StorageTTLModule::new();
    m.set_ttl_policy(tb("k1"), 100, false, 1_000);
    let p = m.get_ttl_policy(&tb("k1")).unwrap();
    assert_eq!(p.key, tb("k1"));
    assert_eq!(p.ttl_seconds, 100);
    assert_eq!(p.created_at, 1_000);
    assert_eq!(p.last_accessed, 1_000);
    assert!(!p.auto_extend);
    assert!(m.get_ttl_policy(&tb("k2")).is_none());
}

#[test]
fn expiry_and_remaining() {
    let mut m = StorageTTLModule::new();
    m.set_ttl_policy(tb("k1"), 100, false, 1_000);
    assert_eq!(m.get_remaining_ttl(&tb("k1"), 1_040), 60);
    assert!(!m.is_expired(&tb("k1"), 1_100));
    assert_eq!(m.get_remaining_ttl(&tb("k1"), 1_100), 0);
    assert!(m.is_expired(&tb("k1"), 1_101));
    assert_eq!(m.get_remaining_ttl(&tb("k1"), 2_000), 0);
    assert!(!m.is_expired(&tb("nope"), 5_000));
    assert_eq!(m.get_remaining_ttl(&tb("nope"), 5_000), 0);
}

#[test]
fn extend_moves_expiration() {
    let mut m = StorageTTLModule::new();
    m.set_ttl_policy(tb("k1"), 100, false, 1_000);
    assert!(m.extend_ttl(&tb("k1"), 50, 1_020));
    let p = m.get_ttl_policy(&tb("k1")).unwrap();
    assert_eq!(p.ttl_seconds, 150);
    assert_eq!(p.created_at, 1_000);
    assert_eq!(p.last_accessed, 1_020);
    assert_eq!(m.get_remaining_ttl(&tb("k1"), 1_020), 130);
    assert_eq!(m.ttl_extension_count(), 1);
    assert!(!m.extend_ttl(&tb("nope"), 50, 1_020));
    assert_eq!(m.ttl_extension_count(), 1);
}

#[test]
fn cleanup_sweeps_expired_only() {
    let mut m = StorageTTLModule::new();
    m.set_ttl_policy(tb("a"), 10, false, 0);
    m.set_ttl_policy(tb("b"), 1_000, false, 0);
    m.set_ttl_policy(tb("c"), 20, true, 0);
    assert_eq!(m.cleanup_expired_keys(500), 2);
    assert!(m.get_ttl_policy(&tb("a")).is_none());
    assert!(m.get_ttl_policy(&tb("b")).is_some());
    assert!(m.get_ttl_policy(&tb("c")).is_none());
    assert_eq!(m.get_expired_keys(), vec![tb("a"), tb("c")]);
    // nothing left to sweep
    assert_eq!(m.cleanup_expired_keys(500), 0);
    // a re-created key swept again is not recorded twice
    m.set_ttl_policy(tb("a"), 1, false, 600);
    assert_eq!(m.cleanup_expired_keys(700), 1);
    assert_eq!(m.get_expired_keys(), vec![tb("a"), tb("c")]);
}

#[test]
fn auto_extend_adds_a_day_to_due_keys() {
    let mut m = StorageTTLModule::new();
    m.set_ttl_policy(tb("a"), 10, true, 0);
    m.set_ttl_policy(tb("b"), 10, false, 0);
    m.set_ttl_policy(tb("c"), 1_000, true, 0);
    assert_eq!(m.auto_extend_ttls(100), 1);
    assert_eq!(m.get_ttl_policy(&tb("a")).unwrap().ttl_seconds, 10 + 86_400);
    assert_eq!(m.get_ttl_policy(&tb("a")).unwrap().last_accessed, 100);
    assert_eq!(m.get_ttl_policy(&tb("b")).unwrap().ttl_seconds, 10);
    assert_eq!(m.get_ttl_policy(&tb("c")).unwrap().ttl_seconds, 1_000);
    assert_eq!(m.ttl_extension_count(), 1);
    assert!(!m.is_expired(&tb("a"), 100));
}

#[test]
fn long_lived_auto_policy_does_not_block_extension() {
    let mut m = StorageTTLModule::new();
    m.set_ttl_policy(tb("a"), 10, true, 0);
    m.set_ttl_policy(tb("far"), u64::MAX - 20, true, 10);
    assert!(m.auto_extend_fits(100));
    assert_eq!(m.auto_extend_ttls(100), 1);
    assert_eq!(m.get_ttl_policy(&tb("far")).unwrap().ttl_seconds, u64::MAX - 20);
    let mut n = StorageTTLModule::new();
    n.set_ttl_policy(tb("due"), u64::MAX - 10, true, 0);
    assert!(!n.auto_extend_fits(u64::MAX));
}

#[test]
fn remove_policy() {
    let mut m = StorageTTLModule::new();
    m.set_ttl_policy(tb("a"), 10, true, 0);
    assert!(m.remove_ttl_policy(&tb("a")));
    assert!(!m.remove_ttl_policy(&tb("a")));
    assert!(m.get_ttl_policy(&tb("a")).is_none());
}

#[test]
fn reset_policy_replaces_it() {
    let mut m = StorageTTLModule::new();
    m.set_ttl_policy(tb("a"), 10, true, 0);
    m.set_ttl_policy(tb("a"), 50, false, 7);
    let p = m.get_ttl_policy(&tb("a")).unwrap();
    assert_eq!((p.ttl_seconds, p.created_at, p.auto_extend), (50, 7, false));
}

#[test]
fn two_extensions_equal_one_by_their_sum() {
    let mut m1 = StorageTTLModule::new();
    let mut m2 = StorageTTLModule::new();
    m1.set_ttl_policy(tb("k"), 100, false, 10);
    m2.set_ttl_policy(tb("k"), 100, false, 10);
    m1.extend_ttl(&tb("k"), 30, 50);
    m1.extend_ttl(&tb("k"), 40, 50);
    m2.extend_ttl(&tb("k"), 70, 50);
    let p1 = m1.get_ttl_policy(&tb("k")).unwrap();
    let p2 = m2.get_ttl_policy(&tb("k")).unwrap();
    assert_eq!((p1.ttl_seconds, p1.created_at, p1.last_accessed), (170, 10, 50));
    assert_eq!((p2.ttl_seconds, p2.created_at, p2.last_accessed), (170, 10, 50));
    assert_eq!(m1.ttl_extension_count(), 2);
    assert_eq!(m2.ttl_extension_count(), 1);
}
