use turboflow::json::{JsonNumber, JsonObject, JsonValue};
use turboflow::trader::{
    balance_entries, build_headers, first_env_value, kline_rows, listed_objects,
    order_config_fields, primary_positions, resolve_credentials, submitted_order,
    user_info_object, BalanceSelection, EnvCredentials, TurboflowTrader, BASE_URL,
};
use turboflow::types::{ApiResponse, AuthInfo, Error};

fn reply_text(s: &str) -> JsonValue {
    JsonValue::String(s.to_string())
}

fn reply_num(n: i64) -> JsonValue {
    JsonValue::Number(JsonNumber::from_i64(n))
}

fn reply_obj(entries: Vec<(&str, JsonValue)>) -> JsonObject {
    let mut o = JsonObject::new();
    for (k, v) in entries {
        o.insert(k.to_string(), v);
    }
    o
}

fn reply_ok(data: JsonValue) -> ApiResponse<JsonValue> {
    ApiResponse { errno: Some("200".to_string()), msg: None, data: Some(data) }
}

fn reply_failed(msg: &str) -> ApiResponse<JsonValue> {
    ApiResponse { errno: Some("500".to_string()), msg: Some(msg.to_string()), data: None }
}

const TOKEN_WITH_USER: &str =
    "eyJhbGciOiJIUzI1NiIsInR5cCI6IkpXVCJ9.eyJ1c2VySWQiOiIgIHUtNDIgIiwiZXhwIjoxNzAwMDAwMDAwfQ.sig";

#[test]
fn test_auth_status_not_configured() {
    let trader = TurboflowTrader::new(None, None, &EnvCredentials::none());
    assert!(!trader.is_configured());
}

#[test]
fn explicit_credentials_are_used() {
    let trader = TurboflowTrader::new(Some("  Bearer tok  "), Some(" 7 "), &EnvCredentials::none());
    assert_eq!(trader.token(), Some("tok"));
    assert_eq!(trader.user_id(), Some("7"));
    assert_eq!(trader.base_url(), BASE_URL);
    assert!(trader.is_configured());
}

#[test]
fn environment_fills_missing_credentials() {
    let env = EnvCredentials {
        tokens: vec!["   ".to_string(), " env-tok ".to_string()],
        user_ids: vec!["".to_string()],
    };
    let (t, u) = resolve_credentials(Some("  "), None, &env);
    assert_eq!(t.as_deref(), Some("env-tok"));
    assert_eq!(u, None);
    let (t2, u2) = resolve_credentials(Some("given"), Some("   "), &env);
    assert_eq!(t2.as_deref(), Some("given"));
    assert_eq!(u2, None);
}

#[test]
fn user_id_is_inferred_from_token() {
    let (t, u) = resolve_credentials(Some(TOKEN_WITH_USER), None, &EnvCredentials::none());
    assert_eq!(t.as_deref(), Some(TOKEN_WITH_USER));
    assert_eq!(u.as_deref(), Some("u-42"));
}

#[test]
fn first_env_value_trims() {
    assert_eq!(first_env_value(&vec![]), None);
    assert_eq!(first_env_value(&vec![" a ".to_string(), "b".to_string()]).as_deref(), Some("a"));
}

#[test]
fn headers_carry_credentials() {
    let hs = build_headers(Some("Bearer Bearer x"), Some("u"), &EnvCredentials::none());
    assert_eq!(hs.len(), 10);
    assert_eq!(hs[0].0, "User-Agent");
    assert_eq!(hs[5], ("biz-pf".to_string(), "6".to_string()));
    assert_eq!(hs[8], ("Authorization".to_string(), "Bearer Bearer x".to_string()));
    assert_eq!(hs[9], ("uid".to_string(), "u".to_string()));
    let plain = build_headers(None, None, &EnvCredentials::none());
    assert_eq!(plain.len(), 8);
    let trader = TurboflowTrader::new(Some("Bearer Bearer x"), Some("u"), &EnvCredentials::none());
    assert_eq!(trader.token(), Some("Bearer x"));
    let auth = trader.headers().iter().find(|h| h.0 == "Authorization").unwrap();
    assert_eq!(auth.1, "Bearer x");
}

#[test]
fn from_auth_ignores_empty_fields() {
    let auth = AuthInfo { token: String::new(), user_id: "9".to_string(), email: String::new() };
    let trader = TurboflowTrader::from_auth(&auth, &EnvCredentials::none());
    assert_eq!(trader.token(), None);
    assert_eq!(trader.user_id(), Some("9"));
    assert!(!trader.is_configured());
}

#[test]
fn auth_status_previews_token() {
    let trader = TurboflowTrader::new(Some("abcdefghijklmnopqrstuvwxyz"), Some("u"), &EnvCredentials::none());
    let status = trader.auth_status(Some("2024-01-01T00:00:00+00:00".to_string()));
    assert!(status.configured);
    assert_eq!(status.user_id, "u");
    assert_eq!(status.token_preview, "abcdefgh...uvwxyz");
    assert_eq!(status.expires_at.as_deref(), Some("2024-01-01T00:00:00+00:00"));
    let short = TurboflowTrader::new(Some("short-token"), None, &EnvCredentials::none());
    let s = short.auth_status(None);
    assert!(!s.configured);
    assert_eq!(s.token_preview, "");
    assert_eq!(s.user_id, "");
}

#[test]
fn orders_need_credentials() {
    let none = TurboflowTrader::new(None, None, &EnvCredentials::none());
    match none.check_configured() {
        Err(Error::Config(m)) => assert_eq!(m, "missing token/user_id"),
        other => panic!("unexpected {:?}", other),
    }
    assert!(matches!(none.order_request("6", "2", 60, 1, None, 1), Err(Error::Config(_))));
    let trader = TurboflowTrader::new(Some("tok"), Some("acct"), &EnvCredentials::none());
    assert!(trader.check_configured().is_ok());
    let req = trader.order_request("6", "2.5", 300, 2, Some(85), 1).unwrap();
    assert_eq!(req.account_id, "acct");
    assert_eq!(req.amount, "2.5");
    assert_eq!(req.duration, 300);
    assert_eq!(req.order_way, 2);
    assert_eq!(req.pair_id, "6");
    assert_eq!(req.pool_id, 1);
    assert_eq!(req.coin_code, "1");
    assert_eq!(req.return_rate, Some(85));
}

#[test]
fn balance_sums_usdt_entries_only() {
    let list = JsonValue::Array(vec![
        JsonValue::Object(reply_obj(vec![("coin_code", reply_text("2")), ("available_balance", reply_num(5))])),
        JsonValue::Object(reply_obj(vec![("coin_code", reply_text("1")), ("available_balance", reply_text("3.5"))])),
        JsonValue::Object(reply_obj(vec![("coin_code", reply_text("1"))])),
        JsonValue::Object(reply_obj(vec![("coin_code", reply_num(1)), ("available_balance", reply_num(9))])),
    ]);
    let resp = reply_ok(JsonValue::Object(reply_obj(vec![("list", list)])));
    match balance_entries(resp) {
        BalanceSelection::Found(v) => {
            assert_eq!(v, vec![reply_text("3.5"), reply_num(0)]);
        }
        other => panic!("unexpected {:?}", other),
    }
}

#[test]
fn balance_reports_missing_usdt_and_errors() {
    let resp = reply_ok(JsonValue::Object(reply_obj(vec![("list", JsonValue::Array(vec![]))])));
    assert_eq!(balance_entries(resp), BalanceSelection::UsdtNotFound);
    assert_eq!(balance_entries(reply_failed("boom")), BalanceSelection::Failed(Some("boom".to_string())));
    assert_eq!(balance_entries(reply_ok(JsonValue::Null)), BalanceSelection::UsdtNotFound);
}

#[test]
fn kline_rows_only_on_success() {
    let rows = vec![reply_obj(vec![("o", reply_num(1))])];
    let good = ApiResponse { errno: Some("200".to_string()), msg: None, data: Some(rows.clone()) };
    assert_eq!(kline_rows(good), rows);
    let bad = ApiResponse { errno: Some("1".to_string()), msg: None, data: Some(rows) };
    assert!(kline_rows(bad).is_empty());
}

fn config_reply() -> ApiResponse<JsonValue> {
    let order_cfgs = JsonValue::Array(vec![
        JsonValue::Object(reply_obj(vec![("duration", reply_num(30)), ("ask_return_rate", reply_text("0.87"))])),
        JsonValue::Object(reply_obj(vec![
            ("duration", reply_num(60)),
            ("ask_return_rate", reply_text("0.868")),
            ("bid_return_rate", reply_text("0.87")),
            ("min_amount", reply_num(2)),
            ("max_amount", reply_num(200)),
        ])),
    ]);
    let pairs = JsonValue::Array(vec![
        JsonValue::Object(reply_obj(vec![("pair_id", reply_text("5"))])),
        JsonValue::Object(reply_obj(vec![("pair_id", reply_text("6")), ("order_configs", order_cfgs)])),
    ]);
    reply_ok(JsonValue::Object(reply_obj(vec![("data", pairs)])))
}

#[test]
fn order_config_selects_pair_and_duration() {
    let f = order_config_fields(config_reply(), "6", 60, 2).unwrap();
    assert_eq!(f.return_rate, reply_text("0.87"));
    assert_eq!(f.min_amount, reply_num(2));
    assert_eq!(f.max_amount, reply_num(200));
    let g = order_config_fields(config_reply(), "6", 30, 1).unwrap();
    assert_eq!(g.return_rate, reply_text("0.87"));
    assert_eq!(g.min_amount, reply_num(0));
    assert!(order_config_fields(config_reply(), "6", 300, 1).is_none());
    assert!(order_config_fields(config_reply(), "5", 60, 1).is_none());
    assert!(order_config_fields(reply_failed("x"), "6", 60, 1).is_none());
}

#[test]
fn positions_from_nested_or_plain_lists() {
    let a = reply_obj(vec![("id", reply_num(1))]);
    let nested = reply_ok(JsonValue::Object(reply_obj(vec![(
        "data",
        JsonValue::Array(vec![JsonValue::Object(a.clone()), reply_num(3)]),
    )])));
    assert_eq!(primary_positions(nested), Some(vec![a.clone()]));
    let plain = reply_ok(JsonValue::Array(vec![JsonValue::Object(a.clone())]));
    assert_eq!(primary_positions(plain), Some(vec![a.clone()]));
    assert_eq!(primary_positions(reply_ok(JsonValue::Object(reply_obj(vec![("data", reply_num(1))])))), None);
    assert_eq!(primary_positions(reply_failed("x")), None);
    let listed = reply_ok(JsonValue::Object(reply_obj(vec![("data", JsonValue::Array(vec![JsonValue::Object(a.clone())]))])));
    assert_eq!(listed_objects(listed), vec![a]);
    assert!(listed_objects(reply_failed("x")).is_empty());
}

#[test]
fn user_info_and_order_answers() {
    let o = reply_obj(vec![("name", reply_text("n"))]);
    assert_eq!(user_info_object(reply_ok(JsonValue::Object(o.clone()))), o);
    assert_eq!(user_info_object(reply_failed("x")).len(), 0);
    let mut rejected = reply_failed("x");
    rejected.data = Some(JsonValue::Object(o.clone()));
    assert_eq!(submitted_order(rejected), o);
    assert_eq!(submitted_order(reply_ok(reply_num(1))).len(), 0);
}

#[test]
fn client_headers_carry_its_own_credentials() {
    let trader = TurboflowTrader::new(Some(" bearer tok "), Some(" u-1 "), &EnvCredentials::none());
    assert_eq!(trader.token(), Some("tok"));
    assert_eq!(trader.user_id(), Some("u-1"));
    let hs = trader.headers();
    assert_eq!(hs.len(), 10);
    assert_eq!(hs[8], ("Authorization".to_string(), "Bearer tok".to_string()));
    assert_eq!(hs[9], ("uid".to_string(), "u-1".to_string()));
    let inferred = TurboflowTrader::new(Some(TOKEN_WITH_USER), None, &EnvCredentials::none());
    let hs = inferred.headers();
    assert_eq!(hs[9], ("uid".to_string(), "u-42".to_string()));
}
