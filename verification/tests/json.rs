use context_codec::json::{JsonObject, JsonValue};
use context_codec::text::str_eq;

fn word(s: &str) -> JsonValue {
    JsonValue::String(s.to_string())
}

#[test]
fn object_insert_get_remove() {
    let mut o = JsonObject::new();
    assert!(o.is_empty());
    assert_eq!(o.len(), 0);
    o.insert("a".to_string(), word("one"));
    o.insert("b".to_string(), word("two"));
    assert!(!o.is_empty());
    assert_eq!(o.len(), 2);
    assert_eq!(o.get("a"), Some(&word("one")));
    assert_eq!(o.get("c"), None);
    assert!(o.contains_key("b"));
    assert!(!o.contains_key("B"));
    assert_eq!(o.remove("a"), Some(word("one")));
    assert_eq!(o.remove("a"), None);
    assert_eq!(o.len(), 1);
    assert_eq!(o.get("b"), Some(&word("two")));
}

#[test]
fn object_insert_replaces_a_member() {
    let mut o = JsonObject::new();
    o.insert("a".to_string(), word("one"));
    o.insert("b".to_string(), word("two"));
    o.insert("a".to_string(), JsonValue::Null);
    assert_eq!(o.len(), 2);
    assert_eq!(o.get("a"), Some(&JsonValue::Null));
    assert_eq!(o.get("b"), Some(&word("two")));
}

#[test]
fn object_pop_takes_each_member_once() {
    let mut o = JsonObject::new();
    o.insert("a".to_string(), word("one"));
    o.insert("b".to_string(), word("two"));
    o.insert("c".to_string(), word("three"));
    let mut seen: Vec<String> = Vec::new();
    while let Some((name, value)) = o.pop() {
        assert!(!o.contains_key(&name));
        assert!(matches!(value, JsonValue::String(_)));
        seen.push(name);
    }
    seen.sort();
    assert_eq!(seen, vec!["a".to_string(), "b".to_string(), "c".to_string()]);
    assert!(o.is_empty());
    assert_eq!(o.pop(), None);
}

#[test]
fn object_names_lists_each_name_once() {
    let mut o = JsonObject::new();
    o.insert("b".to_string(), JsonValue::Null);
    o.insert("a".to_string(), JsonValue::Null);
    o.insert("b".to_string(), JsonValue::Bool(true));
    let mut names = o.names();
    names.sort();
    assert_eq!(names, vec!["a".to_string(), "b".to_string()]);
}

#[test]
fn equality_passes_over_the_order_of_members() {
    let mut x = JsonObject::new();
    x.insert("a".to_string(), word("one"));
    x.insert("b".to_string(), JsonValue::Array(vec![JsonValue::Number(1.5f64.to_bits())]));
    let mut y = JsonObject::new();
    y.insert("b".to_string(), JsonValue::Array(vec![JsonValue::Number(1.5f64.to_bits())]));
    y.insert("a".to_string(), word("one"));
    assert_eq!(x, y);
    assert_eq!(JsonValue::Object(x.clone()), JsonValue::Object(y.clone()));
    y.insert("a".to_string(), word("two"));
    assert_ne!(x, y);
    y.remove("a");
    assert_ne!(x, y);
    y.insert("c".to_string(), word("one"));
    assert_ne!(x, y);
}

#[test]
fn equality_of_arrays_is_in_order() {
    let x = JsonValue::Array(vec![word("a"), word("b")]);
    let y = JsonValue::Array(vec![word("b"), word("a")]);
    assert_ne!(x, y);
    assert_eq!(x, x.clone());
    assert_ne!(x, JsonValue::Array(vec![word("a")]));
    assert_ne!(JsonValue::Null, JsonValue::Bool(false));
    assert_ne!(JsonValue::Number(1.0f64.to_bits()), JsonValue::Number(2.0f64.to_bits()));
    assert_eq!(JsonValue::Number(1.0f64.to_bits()), JsonValue::Number(1.0f64.to_bits()));
}

#[test]
fn clone_is_deep() {
    let mut inner = JsonObject::new();
    inner.insert("x".to_string(), JsonValue::Array(vec![word("a"), JsonValue::Null]));
    let mut outer = JsonObject::new();
    outer.insert("inner".to_string(), JsonValue::Object(inner));
    let value = JsonValue::Object(outer);
    let copy = value.clone();
    assert_eq!(value, copy);
}

#[test]
fn str_eq_compares_characters() {
    assert!(str_eq("", ""));
    assert!(str_eq("héllo", "héllo"));
    assert!(!str_eq("hello", "hellp"));
    assert!(!str_eq("hello", "hell"));
    assert!(!str_eq("é", "e"));
}
