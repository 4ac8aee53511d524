use context_codec::builder::{ContextBuilder, MultiContextBuilder};
use context_codec::codec::encode;
use context_codec::context::AttributeName;
use context_codec::convert::{
    build_context, build_context_from_implicit_user, should_skip_custom_attribute,
    single_kind_context_from,
};
use context_codec::error::{BuildError, KindError};
use context_codec::json::{JsonObject, JsonValue};
use context_codec::kind::Kind;
use context_codec::shapes::{ContextVariant, Meta, SingleKindContext, UserFormat};

fn string(s: &str) -> JsonValue {
    JsonValue::String(s.to_string())
}

fn members(list: Vec<(&str, JsonValue)>) -> JsonObject {
    let mut o = JsonObject::new();
    for (name, value) in list {
        o.insert(name.to_string(), value);
    }
    o
}

fn empty_user(key: &str) -> UserFormat {
    UserFormat {
        key: key.to_string(),
        name: None,
        secondary: None,
        anonymous: None,
        custom: None,
        private_attribute_names: None,
        first_name: None,
        last_name: None,
        avatar: None,
        email: None,
        country: None,
        ip: None,
    }
}

#[test]
fn new_builder_builds_a_user() {
    let context = ContextBuilder::new("k").build().unwrap();
    assert_eq!(context.kind().as_str(), "user");
    assert!(context.kind().is_user());
    assert_eq!(context.key(), "k");
    assert_eq!(context.name(), None);
    assert!(!context.anonymous());
    assert_eq!(context.secondary(), None);
    assert!(context.private_attributes().is_empty());
    assert!(!context.is_multi());
}

#[test]
fn builder_rejects_empty_kind() {
    let mut b = ContextBuilder::new("k");
    b.kind("");
    assert_eq!(b.build().unwrap_err(), BuildError::InvalidKind(KindError::Empty));
}

#[test]
fn builder_rejects_kind_kind() {
    let mut b = ContextBuilder::new("k");
    b.kind("kind");
    assert_eq!(b.build().unwrap_err(), BuildError::InvalidKind(KindError::Reserved));
}

#[test]
fn builder_rejects_kind_multi() {
    let mut b = ContextBuilder::new("k");
    b.kind("multi");
    assert_eq!(b.build().unwrap_err(), BuildError::MultiKind);
}

#[test]
fn builder_rejects_empty_key_unless_allowed() {
    let mut b = ContextBuilder::new("");
    assert_eq!(b.build().unwrap_err(), BuildError::EmptyKey);
    b.allow_empty_key();
    assert_eq!(b.build().unwrap().key(), "");
}

#[test]
fn builder_reports_the_kind_before_the_key() {
    let mut b = ContextBuilder::new("");
    b.kind("");
    assert_eq!(b.build().unwrap_err(), BuildError::InvalidKind(KindError::Empty));
}

#[test]
fn set_value_under_a_reserved_name_sets_the_member() {
    let mut b = ContextBuilder::new("k");
    b.set_value("kind", string("org"))
        .set_value("key", string("other"))
        .set_value("name", string("N"))
        .set_value("anonymous", JsonValue::Bool(true))
        .set_value("_meta", string("x"));
    let context = b.build().unwrap();
    assert_eq!(context.kind().as_str(), "org");
    assert_eq!(context.key(), "other");
    assert_eq!(context.name(), Some("N"));
    assert!(context.anonymous());
    for reserved in ["kind", "key", "name", "anonymous", "_meta"] {
        assert_eq!(context.attribute(reserved), None);
    }
}

#[test]
fn set_value_under_a_reserved_name_ignores_other_types() {
    let mut b = ContextBuilder::new("k");
    b.name("N")
        .set_value("kind", JsonValue::Bool(true))
        .set_value("key", JsonValue::Null)
        .set_value("name", JsonValue::Bool(false))
        .set_value("anonymous", string("yes"));
    let context = b.build().unwrap();
    assert_eq!(context.kind().as_str(), "user");
    assert_eq!(context.key(), "k");
    assert_eq!(context.name(), Some("N"));
    assert!(!context.anonymous());
    b.set_value("name", JsonValue::Null);
    assert_eq!(b.build().unwrap().name(), None);
}

#[test]
fn set_value_replaces_an_attribute() {
    let mut b = ContextBuilder::new("k");
    b.set_string("a", "one").set_bool("a", true).set_string("b", "two");
    let context = b.build().unwrap();
    assert_eq!(context.attribute("a"), Some(&JsonValue::Bool(true)));
    assert_eq!(context.attribute("b"), Some(&string("two")));
}

#[test]
fn builder_can_be_built_twice() {
    let mut b = ContextBuilder::new("k");
    b.set_string("a", "one");
    let first = b.build().unwrap();
    let second = b.build().unwrap();
    assert_eq!(first, second);
}

#[test]
fn private_attributes_keep_their_order() {
    let mut b = ContextBuilder::new("k");
    b.add_private_attribute(AttributeName::new("z".to_string()))
        .add_private_attribute(AttributeName::new("a".to_string()))
        .add_private_attribute(AttributeName::new("z".to_string()));
    let names: Vec<String> = b
        .build()
        .unwrap()
        .private_attributes()
        .into_iter()
        .map(|n| n.into_string())
        .collect();
    assert_eq!(names, vec!["z".to_string(), "a".to_string(), "z".to_string()]);
}

#[test]
fn multi_builder_rejects_no_contexts() {
    assert_eq!(MultiContextBuilder::new().build().unwrap_err(), BuildError::NoContexts);
}

#[test]
fn multi_builder_rejects_duplicate_kinds() {
    let a = ContextBuilder::new("a").build().unwrap();
    let b = ContextBuilder::new("b").build().unwrap();
    let mut org = ContextBuilder::new("c");
    org.kind("org");
    let mut multi = MultiContextBuilder::new();
    multi.add_context(a).add_context(org.build().unwrap()).add_context(b);
    assert_eq!(multi.build().unwrap_err(), BuildError::DuplicateKind);
}

#[test]
fn multi_builder_takes_the_contexts_of_a_multi_context() {
    let user = ContextBuilder::new("u").build().unwrap();
    let mut org = ContextBuilder::new("o");
    org.kind("org");
    let inner = MultiContextBuilder::new()
        .add_context(user)
        .add_context(org.build().unwrap())
        .build()
        .unwrap();
    let mut device = ContextBuilder::new("d");
    device.kind("device");
    let outer = MultiContextBuilder::new()
        .add_context(inner)
        .add_context(device.build().unwrap())
        .build()
        .unwrap();
    assert!(outer.is_multi());
    assert_eq!(outer.as_kind("user").unwrap().key(), "u");
    assert_eq!(outer.as_kind("org").unwrap().key(), "o");
    assert_eq!(outer.as_kind("device").unwrap().key(), "d");
}

#[test]
fn should_skip_custom_attribute_names_the_reserved_names() {
    for reserved in ["kind", "key", "name", "anonymous", "_meta"] {
        assert!(should_skip_custom_attribute(reserved));
    }
    for free in ["", "Kind", "keys", "secondary", "meta", "custom", "ip", "_meta "] {
        assert!(!should_skip_custom_attribute(free));
    }
}

#[test]
fn build_context_applies_a_record() {
    let record = SingleKindContext {
        key: "ignored".to_string(),
        name: Some("N".to_string()),
        anonymous: Some(true),
        attributes: members(vec![("a", string("b")), ("kind", string("routed"))]),
        meta: Some(Meta {
            secondary: Some("two".to_string()),
            private_attributes: Some(vec!["a".to_string(), "b".to_string()]),
        }),
    };
    let mut b = ContextBuilder::new("k");
    let context = build_context(&mut b, record).build().unwrap();
    assert_eq!(context.kind().as_str(), "routed");
    assert_eq!(context.key(), "k");
    assert_eq!(context.name(), Some("N"));
    assert!(context.anonymous());
    assert_eq!(context.secondary(), Some("two"));
    assert_eq!(context.attribute("a"), Some(&string("b")));
    assert_eq!(context.attribute("kind"), None);
    assert_eq!(context.private_attributes().len(), 2);
}

#[test]
fn build_context_from_implicit_user_applies_a_record() {
    let mut user = empty_user("ignored");
    user.first_name = Some("F".to_string());
    user.custom = Some(members(vec![("firstName", string("custom")), ("key", string("x"))]));
    user.private_attribute_names = Some(vec![AttributeName::new("firstName".to_string())]);
    let mut b = ContextBuilder::new("k");
    let context = build_context_from_implicit_user(&mut b, user).build().unwrap();
    assert_eq!(context.kind().as_str(), "user");
    assert_eq!(context.key(), "k");
    assert_eq!(context.attribute("firstName"), Some(&string("custom")));
    assert_eq!(context.attribute("key"), None);
    assert_eq!(context.private_attributes()[0].as_str(), "firstName");
}

#[test]
fn single_kind_context_from_gives_kind_and_record() {
    let mut b = ContextBuilder::new("k");
    b.kind("org").set_string("a", "b");
    let (kind, record) = single_kind_context_from(b.build().unwrap());
    assert_eq!(kind.as_str(), "org");
    assert_eq!(record.key, "k");
    assert_eq!(record.name, None);
    assert_eq!(record.anonymous, Some(false));
    assert_eq!(record.attributes, members(vec![("a", string("b"))]));
    let meta = record.meta.unwrap();
    assert_eq!(meta.secondary, None);
    assert_eq!(meta.private_attributes, None);
}

#[test]
fn record_of_a_context_is_never_that_of_a_legacy_user() {
    let user = ContextBuilder::new("k").build().unwrap();
    assert!(matches!(ContextVariant::from(user.clone()), ContextVariant::Single(_)));
    let mut org = ContextBuilder::new("o");
    org.kind("org");
    let multi = MultiContextBuilder::new()
        .add_context(user)
        .add_context(org.build().unwrap())
        .build()
        .unwrap();
    match ContextVariant::from(multi.clone()) {
        ContextVariant::Multi(record) => {
            assert_eq!(record.kind, "multi");
            assert_eq!(record.contexts.len(), 2);
        }
        _ => panic!("expected the record of a multi-context"),
    }
    assert_eq!(ContextVariant::from(multi.clone()).serialize(), encode(&multi));
}

#[test]
fn kind_is_made_of_any_string_but_two() {
    assert_eq!(Kind::new("".to_string()).unwrap_err(), KindError::Empty);
    assert_eq!(Kind::new("kind".to_string()).unwrap_err(), KindError::Reserved);
    assert_eq!(Kind::new("Kind".to_string()).unwrap().as_str(), "Kind");
    assert!(Kind::new("multi".to_string()).unwrap().is_multi());
    assert!(!Kind::new("Multi".to_string()).unwrap().is_multi());
    assert!(Kind::multi().is_multi());
    assert!(Kind::user().is_user());
    assert_eq!(Kind::user().clone().into_string(), "user");
}

#[test]
fn kind_error_messages() {
    assert_eq!(KindError::Null.message(), "kind cannot be null");
    assert_eq!(KindError::Empty.message(), "kind cannot be empty string");
    assert_eq!(KindError::Reserved.message(), "kind cannot be 'kind'");
    assert_eq!(KindError::NotAString.message(), "kind must be a string");
}
