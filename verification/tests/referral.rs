use so4_markets::bytes::Bytes;
use so4_markets::referral::{Error, ReferralKey, ReferralStorage, TierConfig};

fn rb(s: &str) -> Bytes {
    Bytes::from_slice(s.as_bytes())
}

fn code32(fill: u8) -> Bytes {
    Bytes::from_slice(&[fill; 32])
}

fn key_name(k: &ReferralKey) -> String {
    match k {
        ReferralKey::CodeOwner(c) => format!("owner:{:?}", c.data),
        ReferralKey::TraderCode(a) => format!("trader:{:?}", a.data),
        ReferralKey::ReferrerTier(a) => format!("tier:{:?}", a.data),
        ReferralKey::TierConfig(t) => format!("config:{}", t),
    }
}

fn setup() -> ReferralStorage {
    let mut s = ReferralStorage::new();
    s.initialize(rb("admin")).unwrap();
    s
}

#[test]
fn initialize_sets_admin_once() {
    let mut s = ReferralStorage::new();
    assert!(s.admin().is_none());
    assert_eq!(s.initialize(rb("admin")), Ok(()));
    assert_eq!(s.admin(), Some(rb("admin")));
    assert_eq!(s.initialize(rb("other")), Err(Error::AlreadyInitialized));
    assert_eq!(s.admin(), Some(rb("admin")));
}

#[test]
fn register_code_and_refuse_second_owner() {
    let mut s = setup();
    let (ev, bumps) = s.register_code(rb("alice"), code32(7)).unwrap();
    assert_eq!(ev.caller, rb("alice"));
    assert_eq!(ev.code, code32(7));
    assert_eq!(bumps.len(), 1);
    assert_eq!(key_name(&bumps[0]), key_name(&ReferralKey::CodeOwner(code32(7))));
    assert_eq!(s.register_code(rb("bob"), code32(7)).err(), Some(Error::CodeAlreadyTaken));
    // owner unchanged: a trader linking the code resolves to alice
    s.set_trader_referral_code(rb("carol"), code32(7)).unwrap();
    assert_eq!(s.get_trader_referrer(&rb("carol")).0, Some(rb("alice")));
}

#[test]
fn link_requires_registered_code() {
    let mut s = setup();
    assert_eq!(
        s.set_trader_referral_code(rb("carol"), code32(1)).err(),
        Some(Error::CodeNotFound)
    );
    assert_eq!(s.get_trader_referral_code(&rb("carol")), None);
}

#[test]
fn link_resolves_referrer_and_bumps_both_keys() {
    let mut s = setup();
    s.register_code(rb("alice"), code32(2)).unwrap();
    let (ev, bumps) = s.set_trader_referral_code(rb("carol"), code32(2)).unwrap();
    assert_eq!(ev.trader, rb("carol"));
    assert_eq!(ev.code, code32(2));
    let names: Vec<String> = bumps.iter().map(key_name).collect();
    assert_eq!(
        names,
        vec![
            key_name(&ReferralKey::TraderCode(rb("carol"))),
            key_name(&ReferralKey::CodeOwner(code32(2)))
        ]
    );
    assert_eq!(s.get_trader_referral_code(&rb("carol")), Some(code32(2)));
    let (referrer, bumps) = s.get_trader_referrer(&rb("carol"));
    assert_eq!(referrer, Some(rb("alice")));
    assert_eq!(bumps.len(), 2);
}

#[test]
fn referrer_of_unlinked_trader_is_none() {
    let s = setup();
    let (referrer, bumps) = s.get_trader_referrer(&rb("nobody"));
    assert_eq!(referrer, None);
    assert!(bumps.is_empty());
}

#[test]
fn relinking_replaces_code() {
    let mut s = setup();
    s.register_code(rb("alice"), code32(3)).unwrap();
    s.register_code(rb("bob"), code32(4)).unwrap();
    s.set_trader_referral_code(rb("carol"), code32(3)).unwrap();
    s.set_trader_referral_code(rb("carol"), code32(4)).unwrap();
    assert_eq!(s.get_trader_referrer(&rb("carol")).0, Some(rb("bob")));
}

#[test]
fn admin_only_tier_changes() {
    let mut s = setup();
    assert_eq!(s.set_referrer_tier(&rb("mallory"), rb("alice"), 1).err(), Some(Error::Unauthorized));
    let cfg = TierConfig { total_rebate_bps: 1000, discount_share_bps: 5000 };
    assert_eq!(s.set_tier_config(&rb("mallory"), 1, cfg).err(), Some(Error::Unauthorized));
    // the unauthorized check comes before the tier check
    assert_eq!(s.set_referrer_tier(&rb("mallory"), rb("alice"), 9).err(), Some(Error::Unauthorized));
}

#[test]
fn tier_above_two_is_invalid() {
    let mut s = setup();
    assert_eq!(s.set_referrer_tier(&rb("admin"), rb("alice"), 3).err(), Some(Error::InvalidTier));
    let cfg = TierConfig { total_rebate_bps: 1000, discount_share_bps: 5000 };
    assert_eq!(s.set_tier_config(&rb("admin"), 3, cfg).err(), Some(Error::InvalidTier));
    assert!(s.set_referrer_tier(&rb("admin"), rb("alice"), 2).is_ok());
    assert!(s.set_tier_config(&rb("admin"), 2, cfg).is_ok());
}

#[test]
fn discount_formula() {
    let mut s = setup();
    s.register_code(rb("alice"), code32(5)).unwrap();
    s.set_trader_referral_code(rb("carol"), code32(5)).unwrap();
    s.set_referrer_tier(&rb("admin"), rb("alice"), 1).unwrap();
    s.set_tier_config(
        &rb("admin"),
        1,
        TierConfig { total_rebate_bps: 1000, discount_share_bps: 5000 },
    )
    .unwrap();
    let (bps, bumps) = s.get_trader_discount_bps(&rb("carol"));
    // 1000 * 5000 / 10000
    assert_eq!(bps, 500);
    let names: Vec<String> = bumps.iter().map(key_name).collect();
    assert_eq!(
        names,
        vec![
            key_name(&ReferralKey::TraderCode(rb("carol"))),
            key_name(&ReferralKey::CodeOwner(code32(5))),
            key_name(&ReferralKey::ReferrerTier(rb("alice"))),
            key_name(&ReferralKey::TierConfig(1)),
        ]
    );
}

#[test]
fn discount_rounds_down() {
    let mut s = setup();
    s.register_code(rb("alice"), code32(6)).unwrap();
    s.set_trader_referral_code(rb("carol"), code32(6)).unwrap();
    s.set_tier_config(
        &rb("admin"),
        0,
        TierConfig { total_rebate_bps: 333, discount_share_bps: 3333 },
    )
    .unwrap();
    // tier defaults to 0; 333 * 3333 / 10000 = 110.9889 -> 110
    let (bps, bumps) = s.get_trader_discount_bps(&rb("carol"));
    assert_eq!(bps, 110);
    // tier 0 key is not bumped, config key is
    let names: Vec<String> = bumps.iter().map(key_name).collect();
    assert_eq!(
        names,
        vec![
            key_name(&ReferralKey::TraderCode(rb("carol"))),
            key_name(&ReferralKey::CodeOwner(code32(6))),
            key_name(&ReferralKey::TierConfig(0)),
        ]
    );
}

#[test]
fn discount_zero_without_code_or_config() {
    let mut s = setup();
    assert_eq!(s.get_trader_discount_bps(&rb("carol")).0, 0);
    s.register_code(rb("alice"), code32(8)).unwrap();
    s.set_trader_referral_code(rb("carol"), code32(8)).unwrap();
    s.set_referrer_tier(&rb("admin"), rb("alice"), 2).unwrap();
    let (bps, bumps) = s.get_trader_discount_bps(&rb("carol"));
    assert_eq!(bps, 0);
    assert_eq!(bumps.len(), 3);
}

#[test]
fn error_codes_match_contract() {
    assert_eq!(Error::AlreadyInitialized.code(), 1);
    assert_eq!(Error::Unauthorized.code(), 2);
    assert_eq!(Error::CodeAlreadyTaken.code(), 3);
    assert_eq!(Error::CodeNotFound.code(), 4);
    assert_eq!(Error::InvalidTier.code(), 5);
}

#[test]
fn referrer_survives_later_calls() {
    let mut s = setup();
    s.register_code(rb("alice"), code32(10)).unwrap();
    s.set_trader_referral_code(rb("carol"), code32(10)).unwrap();
    // later calls that do not relink carol
    assert!(s.register_code(rb("mallory"), code32(10)).is_err());
    s.register_code(rb("bob"), code32(11)).unwrap();
    s.set_trader_referral_code(rb("dave"), code32(11)).unwrap();
    assert!(s.set_trader_referral_code(rb("carol"), code32(12)).is_err());
    s.set_referrer_tier(&rb("admin"), rb("alice"), 1).unwrap();
    assert_eq!(s.get_trader_referrer(&rb("carol")).0, Some(rb("alice")));
    assert_eq!(s.get_trader_referral_code(&rb("carol")), Some(code32(10)));
    assert_eq!(s.get_trader_referral_code(&rb("erin")), None);
}
