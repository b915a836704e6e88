use milli_postings::flatten::{json_to_string, JsonValue};

fn text(v: &JsonValue) -> Option<String> {
    let mut buffer = String::new();
    json_to_string(v, &mut buffer).map(|s| s.to_string())
}

fn st(s: &str) -> JsonValue {
    JsonValue::String(s.to_string())
}

#[test]
fn null_is_not_indexable() {
    assert_eq!(text(&JsonValue::Null), None);
}

#[test]
fn scalars_give_their_text() {
    assert_eq!(text(&JsonValue::Bool(true)), Some("true".to_string()));
    assert_eq!(text(&JsonValue::Bool(false)), Some("false".to_string()));
    assert_eq!(text(&JsonValue::Number("42".to_string())), Some("42".to_string()));
    assert_eq!(text(&st("hello world")), Some("hello world".to_string()));
    assert_eq!(text(&st("")), Some(String::new()));
}

#[test]
fn string_is_returned_without_the_buffer() {
    let v = st("abc");
    let mut buffer = "left over".to_string();
    assert_eq!(json_to_string(&v, &mut buffer), Some("abc"));
}

#[test]
fn array_joins_elements() {
    let v = JsonValue::Array(vec![st("a"), JsonValue::Null, JsonValue::Number("1".to_string())]);
    assert_eq!(text(&v), Some("a. 1. ".to_string()));
}

#[test]
fn object_writes_key_value_pairs() {
    let v = JsonValue::Object(vec![
        ("name".to_string(), st("kevin")),
        ("skip".to_string(), JsonValue::Null),
        ("age".to_string(), JsonValue::Number("7".to_string())),
    ]);
    assert_eq!(text(&v), Some("name: kevin. age: 7. ".to_string()));
}

#[test]
fn nested_values() {
    let v = JsonValue::Array(vec![
        JsonValue::Object(vec![("a".to_string(), JsonValue::Array(vec![JsonValue::Bool(true)]))]),
        st("b"),
    ]);
    assert_eq!(text(&v), Some("a: true. . . b. ".to_string()));
}

#[test]
fn empty_composites_are_not_indexable() {
    assert_eq!(text(&JsonValue::Array(vec![])), None);
    assert_eq!(text(&JsonValue::Object(vec![])), None);
    let nested = JsonValue::Array(vec![
        JsonValue::Array(vec![]),
        JsonValue::Null,
        JsonValue::Object(vec![("k".to_string(), JsonValue::Object(vec![]))]),
    ]);
    assert_eq!(text(&nested), None);
}

#[test]
fn buffer_is_cleared_between_calls() {
    let mut buffer = String::new();
    let a = JsonValue::Array(vec![st("x")]);
    assert_eq!(json_to_string(&a, &mut buffer), Some("x. "));
    let b = JsonValue::Array(vec![st("y")]);
    assert_eq!(json_to_string(&b, &mut buffer), Some("y. "));
}
