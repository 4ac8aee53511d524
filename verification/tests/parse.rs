use context_codec::error::{DecodeError, KindError};
use context_codec::json::{JsonObject, JsonValue};
use context_codec::parse::{shape_of, Shape};
use context_codec::shapes::{
    ContextVariant, Meta, MultiKindContext, SingleKindContext, SingleKindStandaloneContext,
    UserFormat,
};

fn s(value: &str) -> JsonValue {
    JsonValue::String(value.to_string())
}

fn obj(list: Vec<(&str, JsonValue)>) -> JsonObject {
    let mut o = JsonObject::new();
    for (name, value) in list {
        o.insert(name.to_string(), value);
    }
    o
}

#[test]
fn shape_is_told_by_kind_alone() {
    assert_eq!(shape_of(&obj(vec![])), Ok(Shape::Implicit));
    assert_eq!(shape_of(&obj(vec![("key", s("a"))])), Ok(Shape::Implicit));
    assert_eq!(shape_of(&obj(vec![("kind", s("multi"))])), Ok(Shape::Multi));
    assert_eq!(shape_of(&obj(vec![("kind", s("user"))])), Ok(Shape::Single));
    assert_eq!(shape_of(&obj(vec![("kind", s("MULTI"))])), Ok(Shape::Single));
    assert_eq!(
        shape_of(&obj(vec![("kind", s(""))])),
        Err(DecodeError::InvalidKind(KindError::Empty))
    );
    assert_eq!(
        shape_of(&obj(vec![("kind", s("kind"))])),
        Err(DecodeError::InvalidKind(KindError::Reserved))
    );
    assert_eq!(
        shape_of(&obj(vec![("kind", JsonValue::Null)])),
        Err(DecodeError::InvalidKind(KindError::Null))
    );
    assert_eq!(
        shape_of(&obj(vec![("kind", JsonValue::Bool(false))])),
        Err(DecodeError::InvalidKind(KindError::NotAString))
    );
}

#[test]
fn single_kind_record_takes_the_other_members_as_attributes() {
    let record = SingleKindContext::parse(obj(vec![
        ("key", s("k")),
        ("name", s("N")),
        ("anonymous", JsonValue::Bool(false)),
        ("_meta", JsonValue::Object(obj(vec![("secondary", s("two")), ("other", s("x"))]))),
        ("kind", s("inside")),
        ("a", JsonValue::Null),
    ]))
    .unwrap();
    assert_eq!(record.key, "k");
    assert_eq!(record.name, Some("N".to_string()));
    assert_eq!(record.anonymous, Some(false));
    let meta = record.meta.unwrap();
    assert_eq!(meta.secondary, Some("two".to_string()));
    assert_eq!(meta.private_attributes, None);
    assert_eq!(record.attributes, obj(vec![("a", JsonValue::Null), ("kind", s("inside"))]));
}

#[test]
fn single_kind_record_reports_the_key_first() {
    assert_eq!(
        SingleKindContext::parse(obj(vec![("name", JsonValue::Bool(true))])).unwrap_err(),
        DecodeError::MissingField
    );
    assert_eq!(
        SingleKindContext::parse(obj(vec![("key", s("")), ("_meta", s("x"))])).unwrap_err(),
        DecodeError::EmptyKey
    );
    assert_eq!(
        SingleKindContext::parse(obj(vec![("key", s("k")), ("name", JsonValue::Bool(true)), ("_meta", s("x"))]))
            .unwrap_err(),
        DecodeError::InvalidField
    );
    assert_eq!(
        SingleKindContext::parse(obj(vec![("key", s("k")), ("_meta", s("x"))])).unwrap_err(),
        DecodeError::MalformedMeta
    );
}

#[test]
fn meta_is_an_object_or_null() {
    assert!(Meta::parse(JsonValue::Null).unwrap().is_none());
    let meta = Meta::parse(JsonValue::Object(obj(vec![(
        "privateAttributes",
        JsonValue::Array(vec![s("a"), s("b")]),
    )])))
    .unwrap()
    .unwrap();
    assert_eq!(meta.secondary, None);
    assert_eq!(meta.private_attributes, Some(vec!["a".to_string(), "b".to_string()]));
    assert_eq!(Meta::parse(JsonValue::Bool(true)).unwrap_err(), DecodeError::MalformedMeta);
    assert_eq!(Meta::parse(JsonValue::Array(vec![])).unwrap_err(), DecodeError::MalformedMeta);
    assert_eq!(
        Meta::parse(JsonValue::Object(obj(vec![(
            "privateAttributes",
            JsonValue::Array(vec![s("a"), JsonValue::Null]),
        )])))
        .unwrap_err(),
        DecodeError::InvalidField
    );
}

#[test]
fn standalone_record_needs_a_kind() {
    let record =
        SingleKindStandaloneContext::parse(obj(vec![("kind", s("org")), ("key", s("k"))])).unwrap();
    assert_eq!(record.kind.as_str(), "org");
    assert_eq!(record.context.key, "k");
    assert!(record.context.attributes.is_empty());
    assert_eq!(
        SingleKindStandaloneContext::parse(obj(vec![("key", s("k"))])).unwrap_err(),
        DecodeError::MissingField
    );
    assert_eq!(
        SingleKindStandaloneContext::parse(obj(vec![("kind", s("")), ("key", s("k"))])).unwrap_err(),
        DecodeError::InvalidKind(KindError::Empty)
    );
}

#[test]
fn multi_record_needs_the_kind_multi() {
    let nested = JsonValue::Object(obj(vec![("key", s("k"))]));
    let record =
        MultiKindContext::parse(obj(vec![("kind", s("multi")), ("org", nested.clone())])).unwrap();
    assert_eq!(record.kind, "multi");
    assert_eq!(record.contexts.len(), 1);
    assert_eq!(record.contexts[0].0.as_str(), "org");
    assert_eq!(record.contexts[0].1.key, "k");
    assert_eq!(
        MultiKindContext::parse(obj(vec![("kind", s("org")), ("org", nested.clone())])).unwrap_err(),
        DecodeError::InvalidKind(KindError::NotMulti)
    );
    assert_eq!(
        MultiKindContext::parse(obj(vec![("org", nested)])).unwrap_err(),
        DecodeError::MissingField
    );
    assert_eq!(KindError::NotMulti.message(), "kind must be 'multi'");
}

#[test]
fn user_record_passes_over_unknown_members() {
    let user = UserFormat::parse(obj(vec![
        ("key", s("")),
        ("kind-of", s("x")),
        ("firstName", s("F")),
        ("first_name", s("ignored")),
        ("custom", JsonValue::Object(obj(vec![("a", s("b"))]))),
        ("privateAttributeNames", JsonValue::Array(vec![s("a")])),
    ]))
    .unwrap();
    assert_eq!(user.key, "");
    assert_eq!(user.first_name, Some("F".to_string()));
    assert_eq!(user.last_name, None);
    assert_eq!(user.custom, Some(obj(vec![("a", s("b"))])));
    assert_eq!(user.private_attribute_names.unwrap()[0].as_str(), "a");
}

#[test]
fn variant_of_each_shape() {
    let multi = JsonValue::Object(obj(vec![
        ("kind", s("multi")),
        ("org", JsonValue::Object(obj(vec![("key", s("k"))]))),
    ]));
    assert!(matches!(ContextVariant::deserialize(multi), Ok(ContextVariant::Multi(_))));
    let single = JsonValue::Object(obj(vec![("kind", s("org")), ("key", s("k"))]));
    assert!(matches!(ContextVariant::deserialize(single), Ok(ContextVariant::Single(_))));
    let user = JsonValue::Object(obj(vec![("key", s("k"))]));
    assert!(matches!(ContextVariant::deserialize(user), Ok(ContextVariant::Implicit(_))));
}
