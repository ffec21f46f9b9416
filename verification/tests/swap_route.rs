use so4_markets::bytes::Bytes;
use std::collections::HashMap;
use so4_markets::swap_route::{
    check_swap_path, is_positive_impact, max_swap_path_length, plan_single_hop, plan_swap_route,
    price_fetch_order, settle_swap_hop, swap_token_out, validate_swap_path, MarketProps,
    SwapError, SwapRun, MAX_SWAP_PATH_LENGTH,
};

fn sb(s: &str) -> Bytes {
    Bytes::from_slice(s.as_bytes())
}

fn market(name: &str, long: &str, short: &str) -> MarketProps {
    MarketProps {
        market_token: sb(name),
        index_token: sb("IDX"),
        long_token: sb(long),
        short_token: sb(short),
    }
}

fn text(b: &Bytes) -> String {
    String::from_utf8(b.data.clone()).unwrap()
}

#[test]
fn cap_defaults_when_unset() {
    assert_eq!(max_swap_path_length(0), MAX_SWAP_PATH_LENGTH);
    assert_eq!(max_swap_path_length(3), 3);
    assert_eq!(MAX_SWAP_PATH_LENGTH, 5);
}

#[test]
fn path_checks() {
    let ok = vec![sb("m1"), sb("m2"), sb("m3")];
    assert_eq!(validate_swap_path(&ok, 3), Ok(()));
    assert_eq!(validate_swap_path(&ok, 2), Err(SwapError::PathTooLong));
    let dup = vec![sb("m1"), sb("m2"), sb("m1")];
    assert_eq!(validate_swap_path(&dup, 5), Err(SwapError::DuplicateMarketInPath));
    // length is checked before duplicates
    assert_eq!(validate_swap_path(&dup, 2), Err(SwapError::PathTooLong));
    let six: Vec<Bytes> = (0..6).map(|i| sb(&format!("m{}", i))).collect();
    assert_eq!(check_swap_path(0, &six), Err(SwapError::PathTooLong));
    assert_eq!(check_swap_path(6, &six), Ok(()));
    assert_eq!(validate_swap_path(&Vec::new(), 0), Ok(()));
}

#[test]
fn token_out_is_other_side() {
    let m = market("m1", "ETH", "USDC");
    assert_eq!(swap_token_out(&m, &sb("ETH")), Ok(sb("USDC")));
    assert_eq!(swap_token_out(&m, &sb("USDC")), Ok(sb("ETH")));
    assert_eq!(swap_token_out(&m, &sb("BTC")), Err(SwapError::InvalidTokenIn));
}

#[test]
fn price_tokens_once_each_in_fetch_order() {
    let ms = vec![market("m1", "ETH", "USDC"), market("m2", "BTC", "USDC"), market("m3", "ETH", "DAI")];
    let order: Vec<String> = price_fetch_order(&sb("USDC"), &ms).iter().map(text).collect();
    assert_eq!(order, vec!["USDC", "ETH", "BTC", "DAI"]);
}

#[test]
fn route_chains_hops() {
    let ms = vec![market("m1", "ETH", "USDC"), market("m2", "BTC", "USDC")];
    let hops = plan_swap_route(&sb("ETH"), &ms, &sb("bob")).ok().unwrap();
    assert_eq!(hops.len(), 2);
    assert_eq!((text(&hops[0].token_in), text(&hops[0].token_out)), ("ETH".into(), "USDC".into()));
    assert_eq!(text(&hops[0].receiver), "m2");
    assert_eq!((text(&hops[1].token_in), text(&hops[1].token_out)), ("USDC".into(), "BTC".into()));
    assert_eq!(text(&hops[1].receiver), "bob");
    assert_eq!(text(&hops[1].market.market_token), "m2");
    // the price cache of a routable path holds at most one token more than it has hops
    let order: Vec<String> = price_fetch_order(&sb("ETH"), &ms).iter().map(text).collect();
    assert_eq!(order, vec!["ETH", "USDC", "BTC"]);
}

#[test]
fn route_refuses_untraded_token() {
    let ms = vec![market("m1", "ETH", "USDC"), market("m2", "BTC", "DAI")];
    assert_eq!(plan_swap_route(&sb("ETH"), &ms, &sb("bob")).err(), Some(SwapError::InvalidTokenIn));
    assert!(plan_swap_route(&sb("ETH"), &Vec::new(), &sb("bob")).ok().unwrap().is_empty());
}

#[test]
fn hop_settlement() {
    let ms = vec![market("m1", "ETH", "USDC")];
    let hops = plan_swap_route(&sb("ETH"), &ms, &sb("bob")).ok().unwrap();
    let s = settle_swap_hop(&hops[0], 10, 25_000, 30);
    assert!(s.apply_impact);
    assert_eq!(s.pool_deltas.len(), 2);
    assert_eq!((text(&s.pool_deltas[0].token), s.pool_deltas[0].delta), ("ETH".into(), 10));
    assert_eq!((text(&s.pool_deltas[1].token), s.pool_deltas[1].delta), ("USDC".into(), -25_000));
    assert_eq!(s.claimable_fee, 30);
    assert_eq!(s.withdraw_amount, 25_000);
    let none = settle_swap_hop(&hops[0], 10, 0, 30);
    assert!(!none.apply_impact);
    assert_eq!(none.pool_deltas.len(), 1);
    assert_eq!((text(&none.pool_deltas[0].token), none.pool_deltas[0].delta), ("ETH".into(), 10));
    assert_eq!((none.claimable_fee, none.withdraw_amount, none.amount_out), (0, 0, 0));
    let no_fee = settle_swap_hop(&hops[0], 10, 5, 0);
    assert_eq!(no_fee.claimable_fee, 0);
    assert!(is_positive_impact(0));
    assert!(!is_positive_impact(-1));
}

#[test]
fn run_carries_output_to_next_hop() {
    let ms = vec![market("m1", "ETH", "USDC"), market("m2", "BTC", "USDC")];
    let hops = plan_swap_route(&sb("ETH"), &ms, &sb("bob")).ok().unwrap();
    let mut run = SwapRun::start(sb("ETH"), 10, hops);
    let (_, a0) = run.next_hop().unwrap();
    assert_eq!(a0, 10);
    run.record_output(30_000);
    let (h1, a1) = run.next_hop().unwrap();
    assert_eq!(text(&h1.token_in), "USDC");
    assert_eq!(a1, 30_000);
    run.record_output(1);
    assert!(run.next_hop().is_none());
    let (tok, amt) = run.result();
    assert_eq!((text(&tok), amt), ("BTC".into(), 1));
    let empty = SwapRun::start(sb("ETH"), 7, Vec::new());
    assert_eq!(empty.result(), (sb("ETH"), 7));
}

#[test]
fn swap_error_codes() {
    assert_eq!(SwapError::InvalidTokenIn.code(), 1);
    assert_eq!(SwapError::PathTooLong.code(), 2);
    assert_eq!(SwapError::DuplicateMarketInPath.code(), 3);
}

#[test]
fn path_settlements_keep_pools_matching_balances() {
    let ms = vec![market("m1", "ETH", "USDC"), market("m2", "BTC", "USDC")];
    let hops = plan_swap_route(&sb("ETH"), &ms, &sb("bob")).ok().unwrap();
    // gap = on-chain balance minus recorded pool amount, per (market, token)
    let mut gap: HashMap<(String, String), i128> = HashMap::new();
    gap.insert(("m1".into(), "ETH".into()), 10);
    let outs = [25_000i128, 1];
    let mut amount = 10i128;
    for (i, hop) in hops.iter().enumerate() {
        let s = settle_swap_hop(hop, amount, outs[i], 3);
        let m = text(&hop.market.market_token);
        for d in &s.pool_deltas {
            *gap.entry((m.clone(), text(&d.token))).or_insert(0) -= d.delta;
        }
        *gap.entry((m.clone(), text(&hop.token_out))).or_insert(0) -= s.withdraw_amount;
        if i + 1 < hops.len() {
            *gap.entry((text(&hop.receiver), text(&hop.token_out))).or_insert(0) += s.withdraw_amount;
        }
        amount = s.amount_out;
    }
    assert!(gap.values().all(|g| *g == 0));
    assert_eq!(amount, 1);
}

#[test]
fn single_market_path_is_a_single_swap() {
    let m = market("m1", "ETH", "USDC");
    let single = plan_single_hop(&m, &sb("USDC"), &sb("bob")).ok().unwrap();
    assert_eq!(text(&single.market.market_token), "m1");
    assert_eq!(text(&single.token_in), "USDC");
    assert_eq!(text(&single.token_out), "ETH");
    assert_eq!(text(&single.receiver), "bob");
    let path = plan_swap_route(&sb("USDC"), &vec![market("m1", "ETH", "USDC")], &sb("bob")).ok().unwrap();
    assert_eq!(path.len(), 1);
    assert_eq!(text(&path[0].market.market_token), "m1");
    assert_eq!(path[0].token_in, single.token_in);
    assert_eq!(path[0].token_out, single.token_out);
    assert_eq!(path[0].receiver, single.receiver);
    assert_eq!(check_swap_path(1, &vec![sb("m1")]), Ok(()));
    let prices: Vec<String> =
        price_fetch_order(&sb("USDC"), &vec![market("m1", "ETH", "USDC")]).iter().map(text).collect();
    assert!(prices.contains(&"USDC".to_string()) && prices.contains(&"ETH".to_string()));
    assert!(matches!(plan_single_hop(&m, &sb("BTC"), &sb("bob")), Err(SwapError::InvalidTokenIn)));
    assert!(plan_swap_route(&sb("BTC"), &vec![m], &sb("bob")).is_err());
}
