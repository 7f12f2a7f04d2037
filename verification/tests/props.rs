use patchcord::props::{normalize_props, PropMap, PropNumber, PropValue};

#[test]
fn normalize_props_keeps_only_scalar_values() {
    let props = vec![
        ("string".to_string(), PropValue::Text("abc".to_string())),
        ("number".to_string(), PropValue::Number(PropNumber::Unsigned(42))),
        ("bool".to_string(), PropValue::Bool(true)),
        ("array".to_string(), PropValue::Array),
        ("object".to_string(), PropValue::Object),
    ];

    let normalized = normalize_props(props);

    assert_eq!(normalized.get("string"), Some("abc"));
    assert_eq!(normalized.get("number"), Some("42"));
    assert_eq!(normalized.get("bool"), Some("true"));
    assert!(normalized.get("array").is_none());
    assert!(normalized.get("object").is_none());
}

#[test]
fn null_is_no_scalar() {
    let normalized = normalize_props(vec![("key".to_string(), PropValue::Null)]);
    assert!(normalized.get("key").is_none());
}

#[test]
fn scalars_become_text() {
    let text = |value: PropValue| value.into_text();
    assert_eq!(text(PropValue::Bool(false)).as_deref(), Some("false"));
    assert_eq!(text(PropValue::Number(PropNumber::Unsigned(0))).as_deref(), Some("0"));
    assert_eq!(
        text(PropValue::Number(PropNumber::Unsigned(u64::MAX))).as_deref(),
        Some("18446744073709551615")
    );
    assert_eq!(text(PropValue::Number(PropNumber::Signed(-17))).as_deref(), Some("-17"));
    assert_eq!(text(PropValue::Number(PropNumber::Signed(17))).as_deref(), Some("17"));
    assert_eq!(
        text(PropValue::Number(PropNumber::Signed(i64::MIN))).as_deref(),
        Some("-9223372036854775808")
    );
    assert_eq!(
        text(PropValue::Number(PropNumber::Fractional("1.5".to_string()))).as_deref(),
        Some("1.5")
    );
    assert_eq!(text(PropValue::Array), None);
}

#[test]
fn later_values_take_the_place_of_earlier_ones() {
    let mut map = PropMap::new();
    assert_eq!(map.get("a"), None);
    map.insert("a".to_string(), "1".to_string());
    map.insert("b".to_string(), "2".to_string());
    map.insert("a".to_string(), "3".to_string());
    assert_eq!(map.get("a"), Some("3"));
    assert_eq!(map.get("b"), Some("2"));
    assert_eq!(map.get("c"), None);

    let copy = map.clone();
    assert_eq!(copy.get("a"), Some("3"));
    assert_eq!(copy.get("b"), Some("2"));
}
