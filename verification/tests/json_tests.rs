use turboflow::json::{JsonNumber, JsonObject, JsonValue};

#[test]
fn insert_keeps_keys_in_order() {
    let mut o = JsonObject::new();
    assert!(o.insert("b".to_string(), JsonValue::Null).is_none());
    assert!(o.insert("a".to_string(), JsonValue::Bool(true)).is_none());
    assert!(o.insert("ab".to_string(), JsonValue::Bool(false)).is_none());
    let keys: Vec<&str> = o.entries.iter().map(|e| e.0.as_str()).collect();
    assert_eq!(keys, vec!["a", "ab", "b"]);
    assert_eq!(o.insert("a".to_string(), JsonValue::Null), Some(JsonValue::Bool(true)));
    assert_eq!(o.get("a"), Some(&JsonValue::Null));
    assert_eq!(o.len(), 3);
}

#[test]
fn remove_takes_one_entry() {
    let mut o = JsonObject::new();
    o.insert("x".to_string(), JsonValue::Bool(true));
    o.insert("y".to_string(), JsonValue::Bool(false));
    assert_eq!(o.remove("x"), Some(JsonValue::Bool(true)));
    assert_eq!(o.remove("x"), None);
    assert_eq!(o.get("y"), Some(&JsonValue::Bool(false)));
    assert_eq!(o.len(), 1);
}

#[test]
fn numbers_print_in_decimal() {
    assert_eq!(JsonNumber::from_i64(0).text, "0");
    assert_eq!(JsonNumber::from_i64(1234567).text, "1234567");
    assert_eq!(JsonNumber::from_i64(-5).text, "-5");
    assert_eq!(JsonNumber::from_i64(i64::MIN).text, i64::MIN.to_string());
    assert_eq!(JsonNumber::from_i64(i64::MAX).text, i64::MAX.to_string());
    assert_eq!(JsonNumber::from_i64(-5).integer, Some(-5));
}

#[test]
fn value_accessors() {
    let mut o = JsonObject::new();
    o.insert("k".to_string(), JsonValue::String("v".to_string()));
    let v = JsonValue::Object(o.clone());
    assert_eq!(v.get("k").and_then(|x| x.as_str()), Some("v"));
    assert_eq!(JsonValue::Null.get("k"), None);
    assert_eq!(JsonValue::zero().as_i64(), Some(0));
    assert_eq!(v.clone().into_object(), Some(o));
    assert_eq!(JsonValue::Array(vec![JsonValue::Null]).into_array(), Some(vec![JsonValue::Null]));
    assert_eq!(v.into_field("k"), Some(JsonValue::String("v".to_string())));
}

