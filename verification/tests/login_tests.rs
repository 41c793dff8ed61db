use turboflow::json::{JsonNumber, JsonObject, JsonValue};
use turboflow::login::{
    exchange_authorization, exchange_tokens, extract_turboflow_token, extract_user_id,
    login_result, TurboflowLogin,
};
use turboflow::types::Error;

fn login_text(s: &str) -> JsonValue {
    JsonValue::String(s.to_string())
}

#[test]
fn test_extract_turboflow_token() {
    let mut inner = JsonObject::new();
    inner.insert("access_token".to_string(), login_text("Bearer abc.def.ghi"));
    let mut data = JsonObject::new();
    data.insert("data".to_string(), JsonValue::Object(inner));
    assert_eq!(extract_turboflow_token(&data), "abc.def.ghi");
}

#[test]
fn test_extract_user_id() {
    let mut data = JsonObject::new();
    data.insert("account_id".to_string(), login_text("12345"));
    assert_eq!(extract_user_id(&data, ""), "12345");
}

#[test]
fn token_keys_are_tried_in_order_before_nested_values() {
    let mut nested = JsonObject::new();
    nested.insert("access_token".to_string(), login_text("nested"));
    let mut data = JsonObject::new();
    data.insert("a".to_string(), JsonValue::Object(nested));
    data.insert("jwt".to_string(), login_text("  top  "));
    data.insert("token".to_string(), login_text("   "));
    assert_eq!(extract_turboflow_token(&data), "top");
}

#[test]
fn missing_token_is_empty() {
    let data = JsonObject::new();
    assert_eq!(extract_turboflow_token(&data), "");
}

#[test]
fn user_id_falls_back_on_token_claims() {
    let data = JsonObject::new();
    let token = "eyJhbGciOiJIUzI1NiIsInR5cCI6IkpXVCJ9.eyJzdWIiOjEyMzQ1fQ.sig";
    assert_eq!(extract_user_id(&data, token), "12345");
    assert_eq!(extract_user_id(&data, "no-dots"), "");
}

#[test]
fn numeric_user_id_is_its_text() {
    let mut data = JsonObject::new();
    data.insert("uid".to_string(), JsonValue::Number(JsonNumber::from_i64(-77)));
    assert_eq!(extract_user_id(&data, ""), "-77");
}

#[test]
fn exchange_tokens_finds_nested_tokens() {
    let mut user = JsonObject::new();
    user.insert("identity_token".to_string(), login_text("id-tok"));
    let mut privy = JsonObject::new();
    privy.insert("token".to_string(), login_text("acc-tok"));
    privy.insert("user".to_string(), JsonValue::Object(user));
    let (access, identity) = exchange_tokens(&privy);
    assert_eq!(access, "acc-tok");
    assert_eq!(identity, "id-tok");
    let (a, i) = exchange_tokens(&JsonObject::new());
    assert_eq!(a, "");
    assert_eq!(i, "");
}

#[test]
fn login_result_gives_credentials() {
    let mut data = JsonObject::new();
    data.insert("token".to_string(), login_text("bearer t0k"));
    data.insert("userId".to_string(), login_text("u1"));
    let info = login_result(&data, "{...}", "me@example.com").unwrap();
    assert_eq!(info.token, "t0k");
    assert_eq!(info.user_id, "u1");
    assert_eq!(info.email, "me@example.com");
}

#[test]
fn login_result_refuses_answer_without_user_id() {
    let mut data = JsonObject::new();
    data.insert("token".to_string(), login_text("t0k"));
    match login_result(&data, "RAW", "me@example.com") {
        Err(Error::Auth(m)) => assert_eq!(
            m,
            "login succeeded but token or user_id is empty; raw response: RAW"
        ),
        other => panic!("unexpected {:?}", other),
    }
}

#[test]
fn login_client_is_unit() {
    let _login = TurboflowLogin::new();
}

#[test]
fn exchange_authorization_is_the_json_of_the_tokens() {
    let mut user = JsonObject::new();
    user.insert("identity_token".to_string(), login_text("id-tok"));
    let mut privy = JsonObject::new();
    privy.insert("token".to_string(), login_text("acc \"tok\""));
    privy.insert("user".to_string(), JsonValue::Object(user));
    assert_eq!(
        exchange_authorization(&privy, "me@example.com"),
        "{\"access_token\":\"acc \\\"tok\\\"\",\"address\":\"me@example.com\",\"identity_token\":\"id-tok\",\"method\":\"email\",\"pf\":\"privy\",\"referral_code\":null}"
    );
    assert_eq!(
        exchange_authorization(&JsonObject::new(), "e"),
        "{\"access_token\":\"\",\"address\":\"e\",\"identity_token\":\"\",\"method\":\"email\",\"pf\":\"privy\",\"referral_code\":null}"
    );
}
