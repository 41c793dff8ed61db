use turboflow::auth::AuthStore;
use turboflow::types::{
    ApiResponse, AuthInfo, Error, EventContract, BTC_USDT_PAIR_ID, DEFAULT_POOL_ID, DURATION_1H,
    DURATION_30S, ETH_USDT_PAIR_ID, ORDER_WAY_HIGHER, ORDER_WAY_LOWER, XAU_USDT_PAIR_ID,
};

#[test]
fn pair_ids_round_trip() {
    for c in [EventContract::BtcUsdt, EventContract::EthUsdt, EventContract::XauUsdt] {
        assert_eq!(EventContract::from_pair_id(c.pair_id()), Some(c));
    }
    assert_eq!(EventContract::BtcUsdt.pair_id(), BTC_USDT_PAIR_ID);
    assert_eq!(EventContract::EthUsdt.pair_id(), ETH_USDT_PAIR_ID);
    assert_eq!(EventContract::XauUsdt.pair_id(), XAU_USDT_PAIR_ID);
    assert_eq!(EventContract::XauUsdt.pair_name(), "XAU/USDT");
    assert_eq!(EventContract::from_pair_id("7"), None);
}

#[test]
fn configs_match_durations() {
    for c in [EventContract::BtcUsdt, EventContract::EthUsdt, EventContract::XauUsdt] {
        let cfg = c.config();
        assert!(cfg.enabled);
        assert_eq!(cfg.pair_id, c.pair_id());
        let ds: Vec<i64> = cfg.order_configs.iter().map(|d| d.duration).collect();
        assert_eq!(ds, cfg.durations);
        for d in &cfg.order_configs {
            assert_eq!(d.min_amount, 2);
        }
    }
    assert_eq!(EventContract::XauUsdt.config().durations.len(), 6);
    assert!(EventContract::XauUsdt.duration_config(DURATION_30S).is_none());
}

#[test]
fn return_rates_by_direction() {
    let btc = EventContract::BtcUsdt;
    assert_eq!(btc.return_rate_for_way(DURATION_30S, ORDER_WAY_HIGHER), Some(872_000));
    assert_eq!(btc.return_rate_for_way(DURATION_30S, ORDER_WAY_LOWER), Some(887_662));
    assert_eq!(btc.return_rate_for_way(DURATION_30S, 9), Some(872_000));
    assert_eq!(btc.return_rate_for_way(45, ORDER_WAY_HIGHER), None);
    assert_eq!(btc.duration_config(DURATION_1H).unwrap().max_amount, 1000);
    assert_eq!(EventContract::EthUsdt.return_rate_for_way(60, ORDER_WAY_LOWER), Some(820_001));
    assert_eq!(DEFAULT_POOL_ID, 1);
}

#[test]
fn into_result_cases() {
    let ok: ApiResponse<i32> = ApiResponse { errno: Some("200".to_string()), msg: None, data: Some(5) };
    assert!(ok.is_ok());
    assert_eq!(ok.into_result().unwrap(), 5);
    let empty: ApiResponse<i32> = ApiResponse { errno: Some("200".to_string()), msg: None, data: None };
    match empty.into_result() {
        Err(Error::Other(m)) => assert_eq!(m, "response data is empty"),
        other => panic!("unexpected {:?}", other),
    }
    let bad: ApiResponse<i32> = ApiResponse { errno: None, msg: Some("nope".to_string()), data: Some(1) };
    assert!(!bad.is_ok());
    match bad.into_result() {
        Err(Error::Api { errno, msg }) => {
            assert_eq!(errno, "");
            assert_eq!(msg, "nope");
        }
        other => panic!("unexpected {:?}", other),
    }
}

#[test]
fn auth_store_paths() {
    assert_eq!(AuthStore::default().path(), "auth.json");
    assert_eq!(AuthStore::new("/tmp/x.json").path(), "/tmp/x.json");
    assert!(AuthStore::is_blank_content(" \n\t"));
    assert!(!AuthStore::is_blank_content("{}"));
    let info = AuthInfo::new("t", "u", "e");
    assert_eq!(info, AuthInfo { token: "t".into(), user_id: "u".into(), email: "e".into() });
    assert_eq!(AuthInfo::default().token, "");
}
