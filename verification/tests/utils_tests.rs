use turboflow::json::{JsonNumber, JsonObject, JsonValue};
use turboflow::types::Error;
use turboflow::utils::{
    base64_error_message, decode_jwt_payload, find_first_key, infer_user_id_from_token,
    is_success_code, Base64Error,
    normalize_token, parse_json_value_as_string, token_expiry_seconds,
};

const HEADER: &str = "eyJhbGciOiJIUzI1NiIsInR5cCI6IkpXVCJ9";

fn jwt(payload: &str) -> String {
    format!("{}.{}.signature", HEADER, payload)
}

#[test]
fn normalize_strips_bearer_and_whitespace() {
    assert_eq!(normalize_token(Some("  Bearer  abc  ")), "abc");
    assert_eq!(normalize_token(Some("bearer xyz")), "xyz");
    assert_eq!(normalize_token(Some("BEARER xyz")), "BEARER xyz");
    assert_eq!(normalize_token(Some("\t tok \n")), "tok");
    assert_eq!(normalize_token(Some("Bearer")), "Bearer");
    assert_eq!(normalize_token(None), "");
    assert_eq!(normalize_token(Some("Bearer Bearer x")), "Bearer x");
}

#[test]
fn jwt_payload_claims() {
    let token = jwt("eyJ1c2VySWQiOiIgIHUtNDIgIiwiZXhwIjoxNzAwMDAwMDAwfQ");
    let payload = decode_jwt_payload(Some(&token)).unwrap();
    assert_eq!(payload.len(), 2);
    assert_eq!(payload.get("userId"), Some(&JsonValue::String("  u-42 ".to_string())));
    assert_eq!(payload.get("exp").and_then(|v| v.as_i64()), Some(1700000000));
    assert_eq!(infer_user_id_from_token(&token).as_deref(), Some("u-42"));
    assert_eq!(token_expiry_seconds(Some(&token)), Some(1700000000));
}

#[test]
fn jwt_payload_needs_padding() {
    let token = jwt("eyJzdWIiOjEyMzQ1fQ");
    assert_eq!(infer_user_id_from_token(&token).as_deref(), Some("12345"));
    assert_eq!(token_expiry_seconds(Some(&token)), None);
}

#[test]
fn blank_claims_are_skipped() {
    let token = jwt("eyJ1aWQiOiIiLCJ1c2VyX2lkIjoiYWJjIn0");
    assert_eq!(infer_user_id_from_token(&token).as_deref(), Some("abc"));
}

#[test]
fn tokens_without_payload_give_empty_objects() {
    assert_eq!(decode_jwt_payload(None).unwrap().len(), 0);
    assert_eq!(decode_jwt_payload(Some("   ")).unwrap().len(), 0);
    assert_eq!(decode_jwt_payload(Some("no-dots-here")).unwrap().len(), 0);
    assert_eq!(decode_jwt_payload(Some(&jwt("WzEsMl0"))).unwrap().len(), 0);
    assert_eq!(infer_user_id_from_token("plain"), None);
}

#[test]
fn bad_payloads_are_errors() {
    match decode_jwt_payload(Some("a.!!!.c")) {
        Err(Error::Other(m)) => assert!(m.starts_with("base64 decode error: ")),
        other => panic!("unexpected {:?}", other),
    }
    assert!(matches!(decode_jwt_payload(Some(&jwt("bm90IGpzb24"))), Err(Error::Json(_))));
    assert_eq!(infer_user_id_from_token("a.!!!.c"), None);
}

#[test]
fn success_code_is_200() {
    assert!(is_success_code(Some("200")));
    assert!(!is_success_code(Some("201")));
    assert!(!is_success_code(Some(" 200")));
    assert!(!is_success_code(None));
}

#[test]
fn scalars_as_strings() {
    assert_eq!(parse_json_value_as_string(&JsonValue::String(" s ".to_string())).as_deref(), Some(" s "));
    assert_eq!(parse_json_value_as_string(&JsonValue::Bool(true)).as_deref(), Some("true"));
    assert_eq!(parse_json_value_as_string(&JsonValue::Bool(false)).as_deref(), Some("false"));
    assert_eq!(
        parse_json_value_as_string(&JsonValue::Number(JsonNumber::from_i64(42))).as_deref(),
        Some("42")
    );
    assert_eq!(parse_json_value_as_string(&JsonValue::Null), None);
    assert_eq!(parse_json_value_as_string(&JsonValue::Array(vec![])), None);
}

#[test]
fn find_first_key_searches_depth_first() {
    let mut deep = JsonObject::new();
    deep.insert("id".to_string(), JsonValue::String("deep".to_string()));
    let mut b = JsonObject::new();
    b.insert("x".to_string(), JsonValue::Object(deep));
    let mut root = JsonObject::new();
    root.insert("b".to_string(), JsonValue::Object(b));
    root.insert(
        "a".to_string(),
        JsonValue::Array(vec![JsonValue::Null, JsonValue::Object({
            let mut o = JsonObject::new();
            o.insert("id".to_string(), JsonValue::Number(JsonNumber::from_i64(7)));
            o
        })]),
    );
    let v = JsonValue::Object(root);
    assert_eq!(find_first_key(&v, &["id"]).as_deref(), Some("7"));
    assert_eq!(find_first_key(&v, &["missing"]), None);
    assert_eq!(find_first_key(&JsonValue::Bool(true), &["id"]), None);
}

#[test]
fn payload_objects_come_in_key_order() {
    let token = jwt("eyJiIjogWzEsIDIuNSwgdHJ1ZV0sICJhIjogbnVsbH0");
    let o = decode_jwt_payload(Some(&token)).unwrap();
    assert_eq!(o.entries[0].0, "a");
    assert_eq!(o.get("a"), Some(&JsonValue::Null));
    let arr = o.get("b").unwrap().as_array().unwrap();
    assert_eq!(arr[0].as_i64(), Some(1));
    match &arr[1] {
        JsonValue::Number(n) => {
            assert_eq!(n.text, "2.5");
            assert_eq!(n.integer, None);
        }
        other => panic!("unexpected {:?}", other),
    }
    assert_eq!(arr[2], JsonValue::Bool(true));
}

#[test]
fn bearer_prefix_and_whitespace_do_not_change_the_user_id() {
    let token = jwt("eyJ1c2VySWQiOiIgIHUtNDIgIiwiZXhwIjoxNzAwMDAwMDAwfQ");
    let plain = infer_user_id_from_token(&token);
    assert_eq!(plain.as_deref(), Some("u-42"));
    assert_eq!(infer_user_id_from_token(&format!("Bearer {token}")), plain);
    assert_eq!(infer_user_id_from_token(&format!("bearer {token}")), plain);
    assert_eq!(infer_user_id_from_token(&format!("  {token}  ")), plain);
    assert_eq!(infer_user_id_from_token(&format!("Bearer Bearer {token}")), plain);
    assert_eq!(token_expiry_seconds(Some(&format!(" Bearer {token}\n"))), Some(1700000000));
}

#[test]
fn signature_segment_is_never_read() {
    let p = "eyJ1c2VySWQiOiIgIHUtNDIgIiwiZXhwIjoxNzAwMDAwMDAwfQ";
    let a = decode_jwt_payload(Some(&format!("{HEADER}.{p}.sig-one"))).unwrap();
    let b = decode_jwt_payload(Some(&format!("{HEADER}.{p}.!!not base64!!"))).unwrap();
    let c = decode_jwt_payload(Some(&format!("Bearer {HEADER}.{p}"))).unwrap();
    assert_eq!(a, b);
    assert_eq!(a, c);
    assert_eq!(a.len(), 2);
    assert!(matches!(decode_jwt_payload(Some("h.!!!.x")), Err(Error::Other(_))));
    assert!(matches!(decode_jwt_payload(Some("h.!!!.y")), Err(Error::Other(_))));
}

#[test]
fn base64_errors_carry_the_decoder_message() {
    match decode_jwt_payload(Some("a.!!!.c")) {
        Err(Error::Other(m)) => assert_eq!(m, "base64 decode error: Invalid symbol 33, offset 0."),
        other => panic!("unexpected {:?}", other),
    }
    assert_eq!(base64_error_message(Base64Error::InvalidByte(12, 61)), "Invalid symbol 61, offset 12.");
    assert_eq!(base64_error_message(Base64Error::InvalidLength(5)), "Invalid input length: 5");
    assert_eq!(
        base64_error_message(Base64Error::InvalidLastSymbol(3, 66)),
        "Invalid last symbol 66, offset 3."
    );
    assert_eq!(base64_error_message(Base64Error::InvalidPadding), "Invalid padding");
}
