use so4_markets::bytes::Bytes;
use so4_markets::position_list::{PositionKey, PositionListModule};

fn pb(s: &str) -> Bytes {
    Bytes::from_slice(s.as_bytes())
}

fn pk(account: &str, market: &str, is_long: bool) -> PositionKey {
    PositionKey {
        account: pb(account),
        market: pb(market),
        collateral_token: pb("USDC"),
        is_long,
    }
}

fn markets(v: &[PositionKey]) -> Vec<(String, bool)> {
    v.iter()
        .map(|k| (String::from_utf8(k.market.data.clone()).unwrap(), k.is_long))
        .collect()
}

#[test]
fn add_lists_key_once() {
    let mut m = PositionListModule::new();
    let a = pb("alice");
    m.add_position_key(&a, pk("alice", "m1", true));
    m.add_position_key(&a, pk("alice", "m1", true));
    assert_eq!(m.get_account_position_count(&a), 1);
    assert!(m.has_position_key(&a, &pk("alice", "m1", true)));
    assert!(!m.has_position_key(&a, &pk("alice", "m1", false)));
}

#[test]
fn full_close_removes_partial_close_keeps() {
    let mut m = PositionListModule::new();
    let a = pb("alice");
    m.add_position_key(&a, pk("alice", "m1", true));
    m.add_position_key(&a, pk("alice", "m2", false));
    // partial close: the key is not removed
    assert!(m.has_position_key(&a, &pk("alice", "m1", true)));
    // full close
    m.remove_position_key(&a, &pk("alice", "m1", true));
    assert!(!m.has_position_key(&a, &pk("alice", "m1", true)));
    assert!(m.has_position_key(&a, &pk("alice", "m2", false)));
    assert_eq!(m.get_account_position_count(&a), 1);
    // removing an absent key changes nothing
    m.remove_position_key(&a, &pk("alice", "m9", true));
    assert_eq!(m.get_account_position_count(&a), 1);
}

#[test]
fn removal_moves_last_key_into_slot() {
    let mut m = PositionListModule::new();
    let a = pb("alice");
    for name in ["m1", "m2", "m3", "m4"] {
        m.add_position_key(&a, pk("alice", name, true));
    }
    m.remove_position_key(&a, &pk("alice", "m2", true));
    assert_eq!(
        markets(&m.get_account_positions(&a)),
        vec![("m1".to_string(), true), ("m4".to_string(), true), ("m3".to_string(), true)]
    );
}

#[test]
fn pagination_pages() {
    let mut m = PositionListModule::new();
    let a = pb("alice");
    for name in ["m1", "m2", "m3", "m4", "m5"] {
        m.add_position_key(&a, pk("alice", name, true));
    }
    let names = |v: Vec<PositionKey>| -> Vec<String> {
        v.iter().map(|k| String::from_utf8(k.market.data.clone()).unwrap()).collect()
    };
    assert_eq!(names(m.get_account_positions_paginated(&a, 1, 2)), vec!["m1", "m2"]);
    assert_eq!(names(m.get_account_positions_paginated(&a, 2, 2)), vec!["m3", "m4"]);
    assert_eq!(names(m.get_account_positions_paginated(&a, 3, 2)), vec!["m5"]);
    assert!(m.get_account_positions_paginated(&a, 4, 2).is_empty());
    assert!(m.get_account_positions_paginated(&a, 0, 2).is_empty());
    assert!(m.get_account_positions_paginated(&a, 1, 0).is_empty());
    assert_eq!(names(m.get_account_positions_paginated(&a, 1, 10)).len(), 5);
    assert!(m.get_account_positions_paginated(&pb("bob"), 1, 10).is_empty());
}

#[test]
fn pagination_item_on_its_page() {
    let mut m = PositionListModule::new();
    let a = pb("alice");
    let all = ["m1", "m2", "m3", "m4", "m5", "m6", "m7"];
    for name in all {
        m.add_position_key(&a, pk("alice", name, false));
    }
    let size = 3u64;
    for (i, name) in all.iter().enumerate() {
        let page = m.get_account_positions_paginated(&a, i as u64 / size + 1, size);
        assert_eq!(page[i % size as usize].market, pb(name));
    }
}

#[test]
fn clear_empties_account_only() {
    let mut m = PositionListModule::new();
    let a = pb("alice");
    let b = pb("bob");
    m.add_position_key(&a, pk("alice", "m1", true));
    m.add_position_key(&b, pk("bob", "m1", true));
    m.clear_account_positions(&a);
    assert_eq!(m.get_account_position_count(&a), 0);
    assert!(m.get_account_positions(&a).is_empty());
    assert_eq!(m.get_account_position_count(&b), 1);
}

#[test]
fn remove_after_add_restores_list() {
    let mut m = PositionListModule::new();
    let a = pb("alice");
    for name in ["m1", "m2", "m3"] {
        m.add_position_key(&a, pk("alice", name, true));
    }
    let before = markets(&m.get_account_positions(&a));
    m.add_position_key(&a, pk("alice", "m9", false));
    m.remove_position_key(&a, &pk("alice", "m9", false));
    assert_eq!(markets(&m.get_account_positions(&a)), before);
    assert_eq!(m.get_account_position_count(&a), 3);
}

#[test]
fn pages_concatenate_to_list() {
    let mut m = PositionListModule::new();
    let a = pb("alice");
    for name in ["m1", "m2", "m3", "m4", "m5", "m6", "m7"] {
        m.add_position_key(&a, pk("alice", name, true));
    }
    let all = markets(&m.get_account_positions(&a));
    let size = 3u64;
    let pages = (all.len() as u64 + size - 1) / size;
    let mut joined = Vec::new();
    for p in 1..=pages {
        let page = m.get_account_positions_paginated(&a, p, size);
        assert!(page.len() as u64 <= size);
        joined.extend(markets(&page));
    }
    assert_eq!(joined, all);
    assert!(m.get_account_positions_paginated(&a, pages + 1, size).is_empty());
}
