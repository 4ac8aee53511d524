use context_codec::builder::{ContextBuilder, MultiContextBuilder};
use context_codec::codec::{decode, encode};
use context_codec::context::{AttributeName, Context};
use context_codec::error::{BuildError, DecodeError, KindError};
use context_codec::json::{JsonObject, JsonValue};
use context_codec::shapes::{ContextVariant, UserFormat};

fn text(s: &str) -> JsonValue {
    JsonValue::String(s.to_string())
}

fn number(x: f64) -> JsonValue {
    JsonValue::Number(x.to_bits())
}

fn object(members: Vec<(&str, JsonValue)>) -> JsonValue {
    let mut o = JsonObject::new();
    for (name, value) in members {
        o.insert(name.to_string(), value);
    }
    JsonValue::Object(o)
}

fn name(s: &str) -> AttributeName {
    AttributeName::new(s.to_string())
}

fn check_implicit_conversion(from: JsonValue, to: JsonValue) {
    match ContextVariant::deserialize(from) {
        Ok(variant) => {
            assert!(matches!(variant, ContextVariant::Implicit(_)));
            match Context::try_from(variant) {
                Ok(context) => assert_eq!(to, encode(&context)),
                Err(e) => panic!("variant should convert to context without error: {:?}", e),
            }
        }
        Err(e) => panic!("test JSON should parse without error: {:?}", e),
    }
}

#[test]
fn implicit_context_conversion_key() {
    check_implicit_conversion(
        object(vec![("key", text("foo"))]),
        object(vec![("kind", text("user")), ("key", text("foo"))]),
    );
}

#[test]
fn implicit_context_conversion_name() {
    check_implicit_conversion(
        object(vec![("key", text("foo")), ("name", text("bar"))]),
        object(vec![("kind", text("user")), ("key", text("foo")), ("name", text("bar"))]),
    );
}

#[test]
fn implicit_context_conversion_custom() {
    check_implicit_conversion(
        object(vec![("key", text("foo")), ("custom", object(vec![("a", text("b"))]))]),
        object(vec![("kind", text("user")), ("key", text("foo")), ("a", text("b"))]),
    );
}

#[test]
fn implicit_context_conversion_anonymous() {
    check_implicit_conversion(
        object(vec![("key", text("foo")), ("anonymous", JsonValue::Bool(true))]),
        object(vec![
            ("kind", text("user")),
            ("key", text("foo")),
            ("anonymous", JsonValue::Bool(true)),
        ]),
    );
}

#[test]
fn implicit_context_conversion_secondary() {
    check_implicit_conversion(
        object(vec![("key", text("foo")), ("secondary", text("bar"))]),
        object(vec![
            ("kind", text("user")),
            ("key", text("foo")),
            ("_meta", object(vec![("secondary", text("bar"))])),
        ]),
    );
}

#[test]
fn implicit_context_conversion_private_attribute_names() {
    check_implicit_conversion(
        object(vec![
            ("key", text("foo")),
            ("ip", text("1")),
            ("privateAttributeNames", JsonValue::Array(vec![text("ip")])),
        ]),
        object(vec![
            ("kind", text("user")),
            ("key", text("foo")),
            ("ip", text("1")),
            ("_meta", object(vec![("privateAttributes", JsonValue::Array(vec![text("ip")]))])),
        ]),
    );
}

#[test]
fn implicit_context_conversion_reserved_custom_names() {
    check_implicit_conversion(
        object(vec![
            ("key", text("foo")),
            ("name", text("bar")),
            ("anonymous", JsonValue::Bool(true)),
            (
                "custom",
                object(vec![
                    ("kind", text(".")),
                    ("key", text(".")),
                    ("name", text(".")),
                    ("anonymous", JsonValue::Bool(true)),
                    ("_meta", JsonValue::Bool(true)),
                    ("a", number(1.0)),
                ]),
            ),
        ]),
        object(vec![
            ("kind", text("user")),
            ("key", text("foo")),
            ("name", text("bar")),
            ("anonymous", JsonValue::Bool(true)),
            ("a", number(1.0)),
        ]),
    );
}

fn check_roundtrip_identical(from: JsonValue) {
    match decode(from.clone()) {
        Ok(context) => assert_eq!(from, encode(&context)),
        Err(e) => panic!("test JSON should convert to context without error: {:?}", e),
    }
}

#[test]
fn single_kind_context_roundtrip_identical_org() {
    check_roundtrip_identical(object(vec![("kind", text("org")), ("key", text("foo"))]));
}

#[test]
fn single_kind_context_roundtrip_identical_user() {
    check_roundtrip_identical(object(vec![("kind", text("user")), ("key", text("foo"))]));
}

#[test]
fn single_kind_context_roundtrip_identical_anonymous() {
    check_roundtrip_identical(object(vec![
        ("kind", text("foo")),
        ("key", text("bar")),
        ("anonymous", JsonValue::Bool(true)),
    ]));
}

#[test]
fn single_kind_context_roundtrip_identical_meta() {
    check_roundtrip_identical(object(vec![
        ("kind", text("foo")),
        ("name", text("Foo")),
        ("key", text("bar")),
        ("a", text("b")),
        (
            "_meta",
            object(vec![
                ("secondary", text("baz")),
                ("privateAttributes", JsonValue::Array(vec![text("a")])),
            ]),
        ),
    ]));
}

#[test]
fn single_kind_context_roundtrip_identical_object_attribute() {
    check_roundtrip_identical(object(vec![
        ("kind", text("foo")),
        ("key", text("bar")),
        ("object", object(vec![("a", text("b"))])),
    ]));
}

fn check_kind_rejected(kind: JsonValue, key: &str, expected: KindError) {
    let from = object(vec![("kind", kind), ("key", text(key))]);
    match ContextVariant::deserialize(from.clone()) {
        Err(e) => assert_eq!(e, DecodeError::InvalidKind(expected)),
        Ok(c) => panic!("expected conversion to fail, but got: {:?}", c),
    }
    assert_eq!(decode(from).unwrap_err(), DecodeError::InvalidKind(expected));
}

#[test]
fn reject_null_or_non_string_kind_bool() {
    check_kind_rejected(JsonValue::Bool(true), "a", KindError::NotAString);
}

#[test]
fn reject_null_or_non_string_kind_null() {
    check_kind_rejected(JsonValue::Null, "b", KindError::Null);
}

#[test]
fn reject_null_or_non_string_kind_object() {
    check_kind_rejected(object(vec![]), "c", KindError::NotAString);
}

#[test]
fn reject_null_or_non_string_kind_number() {
    check_kind_rejected(number(1.0), "d", KindError::NotAString);
}

#[test]
fn reject_null_or_non_string_kind_array() {
    check_kind_rejected(JsonValue::Array(vec![]), "e", KindError::NotAString);
}

fn check_rejected(from: JsonValue, expected: DecodeError) {
    match decode(from) {
        Err(e) => assert_eq!(e, expected),
        Ok(c) => panic!("expected conversion to fail, but got: {:?}", encode(&c)),
    }
}

#[test]
fn reject_invalid_contexts_kind_is_kind() {
    check_rejected(
        object(vec![("kind", text("kind")), ("key", text("a"))]),
        DecodeError::InvalidKind(KindError::Reserved),
    );
}

#[test]
fn reject_invalid_contexts_kind_is_empty() {
    check_rejected(
        object(vec![("kind", text("")), ("key", text("a"))]),
        DecodeError::InvalidKind(KindError::Empty),
    );
}

#[test]
fn reject_invalid_contexts_multi_without_nested() {
    check_rejected(object(vec![("kind", text("multi"))]), DecodeError::EmptyMulti);
}

#[test]
fn reject_invalid_contexts_multi_with_scalar_member() {
    check_rejected(
        object(vec![("kind", text("multi")), ("key", text("a"))]),
        DecodeError::NotAnObject,
    );
}

#[test]
fn reject_invalid_contexts_meta_is_a_string() {
    check_rejected(
        object(vec![("kind", text("user")), ("key", text("a")), ("_meta", text("string"))]),
        DecodeError::MalformedMeta,
    );
}

#[test]
fn reject_invalid_contexts_no_shape() {
    check_rejected(object(vec![("a", text("b"))]), DecodeError::MissingField);
}

#[test]
fn reject_invalid_contexts_single_without_key() {
    check_rejected(object(vec![("kind", text("user"))]), DecodeError::MissingField);
}

#[test]
fn reject_invalid_contexts_single_with_empty_key() {
    check_rejected(
        object(vec![("kind", text("user")), ("key", text(""))]),
        DecodeError::EmptyKey,
    );
}

#[test]
fn empty_key_allowed_for_implicit_user() {
    let json_in = object(vec![("key", text(""))]);
    let json_out = object(vec![("kind", text("user")), ("key", text(""))]);

    let context: Context = decode(json_in).unwrap();

    assert_eq!(json_out, encode(&context));
}

#[test]
fn unrecognized_implicit_user_props_are_ignored_without_error() {
    let json = object(vec![
        ("key", text("foo")),
        ("ip", text("b")),
        ("unknown-1", text("ignored")),
        ("unknown-2", text("ignored")),
        ("unknown-3", text("ignored")),
    ]);

    match ContextVariant::deserialize(json) {
        Err(e) => panic!("expected user to deserialize without error: {:?}", e),
        Ok(c) => match c {
            ContextVariant::Implicit(user) => {
                assert_eq!(user.ip.unwrap_or_else(|| "".to_string()), "b");
            }
            _ => panic!("expected user format"),
        },
    }
}

fn multi_document() -> JsonValue {
    object(vec![
        ("kind", text("multi")),
        (
            "foo",
            object(vec![
                ("key", text("foo_key")),
                ("name", text("foo_name")),
                ("anonymous", JsonValue::Bool(true)),
            ]),
        ),
        (
            "bar",
            object(vec![
                ("key", text("bar_key")),
                ("some", text("attribute")),
                (
                    "_meta",
                    object(vec![
                        ("secondary", text("bar_two")),
                        ("privateAttributes", JsonValue::Array(vec![text("some")])),
                    ]),
                ),
            ]),
        ),
        ("baz", object(vec![("key", text("baz_key"))])),
    ])
}

#[test]
fn multi_kind_context_roundtrip() {
    let json = multi_document();

    let multi: Context = decode(json.clone()).unwrap();
    assert_eq!(encode(&multi), json);
}

#[test]
fn builder_generates_correct_single_kind_context() {
    let json = object(vec![
        ("kind", text("org")),
        ("key", text("foo")),
        ("anonymous", JsonValue::Bool(true)),
        (
            "_meta",
            object(vec![
                ("privateAttributes", JsonValue::Array(vec![text("a"), text("b"), text("/c/d")])),
                ("secondary", text("bar")),
            ]),
        ),
        ("a", JsonValue::Bool(true)),
        ("b", JsonValue::Bool(true)),
        ("c", object(vec![("d", text("e"))])),
    ]);

    let mut builder = ContextBuilder::new("foo");
    let result = builder
        .anonymous(true)
        .secondary("bar")
        .kind("org")
        .set_bool("a", true)
        .add_private_attribute(name("a"))
        .set_bool("b", true)
        .add_private_attribute(name("b"))
        .set_value("c", object(vec![("d", text("e"))]))
        .add_private_attribute(name("/c/d"))
        .build()
        .unwrap();

    assert_eq!(json, encode(&result));
}

#[test]
fn build_generates_correct_multi_kind_context() {
    let json = object(vec![
        ("kind", text("multi")),
        ("user", object(vec![("key", text("foo-key"))])),
        ("bar", object(vec![("key", text("bar-key"))])),
        ("baz", object(vec![("key", text("baz-key")), ("anonymous", JsonValue::Bool(true))])),
    ]);

    let user = ContextBuilder::new("foo-key");
    let mut bar = ContextBuilder::new("bar-key");
    bar.kind("bar");

    let mut baz = ContextBuilder::new("baz-key");
    baz.kind("baz");
    baz.anonymous(true);

    let multi = MultiContextBuilder::new()
        .add_context(user.build().expect("failed to build context"))
        .add_context(bar.build().expect("failed to build context"))
        .add_context(baz.build().expect("failed to build context"))
        .build()
        .unwrap();

    assert_eq!(encode(&multi), json);
}

#[test]
#[should_panic]
fn cannot_serialize_implicit_user_context() {
    let x = ContextVariant::Implicit(UserFormat {
        key: "foo".to_string(),
        name: None,
        secondary: None,
        anonymous: None,
        custom: None,
        private_attribute_names: None,
        first_name: None,
        last_name: None,
        avatar: None,
        email: None,
        country: None,
        ip: None,
    });

    let _ = x.serialize();
}

#[test]
fn legacy_named_strings_become_attributes() {
    let from = object(vec![
        ("key", text("k")),
        ("firstName", text("F")),
        ("lastName", text("L")),
        ("avatar", text("A")),
        ("email", text("E")),
        ("country", text("C")),
        ("ip", text("I")),
    ]);
    let to = object(vec![
        ("kind", text("user")),
        ("key", text("k")),
        ("firstName", text("F")),
        ("lastName", text("L")),
        ("avatar", text("A")),
        ("email", text("E")),
        ("country", text("C")),
        ("ip", text("I")),
    ]);
    assert_eq!(encode(&decode(from).unwrap()), to);
}

#[test]
fn legacy_custom_member_replaces_named_string() {
    let from = object(vec![
        ("key", text("k")),
        ("email", text("top")),
        ("custom", object(vec![("email", text("custom"))])),
    ]);
    let to = object(vec![("kind", text("user")), ("key", text("k")), ("email", text("custom"))]);
    assert_eq!(encode(&decode(from).unwrap()), to);
}

#[test]
fn legacy_reserved_custom_names_do_not_reach_the_output() {
    let with_custom = object(vec![
        ("key", text("foo")),
        ("custom", object(vec![("name", text("shadow")), ("_meta", object(vec![]))])),
    ]);
    let without = object(vec![("key", text("foo"))]);
    let a = encode(&decode(with_custom).unwrap());
    let b = encode(&decode(without).unwrap());
    assert_eq!(a, b);
    match a {
        JsonValue::Object(o) => {
            assert!(o.get("name").is_none());
            assert!(o.get("_meta").is_none());
        }
        _ => panic!("expected an object"),
    }
}

#[test]
fn legacy_null_members_are_absent() {
    let from = object(vec![
        ("key", text("k")),
        ("name", JsonValue::Null),
        ("anonymous", JsonValue::Null),
        ("custom", JsonValue::Null),
        ("privateAttributeNames", JsonValue::Null),
        ("ip", JsonValue::Null),
    ]);
    let to = object(vec![("kind", text("user")), ("key", text("k"))]);
    assert_eq!(encode(&decode(from).unwrap()), to);
}

#[test]
fn legacy_member_of_wrong_type_is_rejected() {
    check_rejected(
        object(vec![("key", text("k")), ("ip", number(1.0))]),
        DecodeError::InvalidField,
    );
    check_rejected(
        object(vec![("key", text("k")), ("custom", text("x"))]),
        DecodeError::InvalidField,
    );
    check_rejected(
        object(vec![("key", text("k")), ("privateAttributeNames", JsonValue::Array(vec![number(1.0)]))]),
        DecodeError::InvalidField,
    );
    check_rejected(object(vec![("key", number(1.0))]), DecodeError::InvalidField);
}

#[test]
fn document_that_is_no_object_is_rejected() {
    check_rejected(JsonValue::Array(vec![text("foo")]), DecodeError::NotAnObject);
    check_rejected(text("foo"), DecodeError::NotAnObject);
    check_rejected(JsonValue::Null, DecodeError::NotAnObject);
}

#[test]
fn modern_defaults_are_not_written_back() {
    let from = object(vec![
        ("kind", text("org")),
        ("key", text("k")),
        ("name", JsonValue::Null),
        ("anonymous", JsonValue::Bool(false)),
        ("_meta", object(vec![("privateAttributes", JsonValue::Array(vec![]))])),
        ("a", JsonValue::Null),
    ]);
    let to = object(vec![("kind", text("org")), ("key", text("k")), ("a", JsonValue::Null)]);
    assert_eq!(encode(&decode(from).unwrap()), to);
}

#[test]
fn modern_meta_members_of_wrong_type_are_rejected() {
    check_rejected(
        object(vec![
            ("kind", text("org")),
            ("key", text("k")),
            ("_meta", object(vec![("secondary", number(1.0))])),
        ]),
        DecodeError::InvalidField,
    );
    check_rejected(
        object(vec![("kind", text("org")), ("key", text("k")), ("_meta", JsonValue::Array(vec![]))]),
        DecodeError::MalformedMeta,
    );
    check_rejected(
        object(vec![("kind", text("org")), ("key", text("k")), ("name", number(1.0))]),
        DecodeError::InvalidField,
    );
    check_rejected(
        object(vec![("kind", text("org")), ("key", text("k")), ("anonymous", text("yes"))]),
        DecodeError::InvalidField,
    );
}

#[test]
fn multi_with_nested_kind_multi_is_rejected_by_the_builder() {
    check_rejected(
        object(vec![("kind", text("multi")), ("multi", object(vec![("key", text("a"))]))]),
        DecodeError::BuilderError(BuildError::MultiKind),
    );
}

#[test]
fn multi_with_empty_nested_kind_is_rejected() {
    check_rejected(
        object(vec![("kind", text("multi")), ("", object(vec![("key", text("a"))]))]),
        DecodeError::InvalidKind(KindError::Empty),
    );
}

#[test]
fn multi_with_empty_nested_key_is_rejected() {
    check_rejected(
        object(vec![("kind", text("multi")), ("org", object(vec![("key", text(""))]))]),
        DecodeError::EmptyKey,
    );
}

#[test]
fn multi_with_one_nested_context_stays_multi() {
    let json = object(vec![("kind", text("multi")), ("org", object(vec![("key", text("a"))]))]);
    let context = decode(json.clone()).unwrap();
    assert!(context.is_multi());
    assert_eq!(encode(&context), json);
}

#[test]
fn nested_member_kind_is_no_attribute() {
    let from = object(vec![
        ("kind", text("multi")),
        ("org", object(vec![("key", text("a")), ("kind", text("other"))])),
    ]);
    let to = object(vec![("kind", text("multi")), ("org", object(vec![("key", text("a"))]))]);
    let context = decode(from).unwrap();
    assert_eq!(context.as_kind("org").unwrap().kind().as_str(), "org");
    assert_eq!(encode(&context), to);
}

#[test]
fn kind_is_compared_as_written() {
    let json = object(vec![("kind", text("Multi")), ("key", text("a"))]);
    let context = decode(json.clone()).unwrap();
    assert!(!context.is_multi());
    assert_eq!(context.kind().as_str(), "Multi");
    assert_eq!(encode(&context), json);
    let spaced = object(vec![("kind", text(" ")), ("key", text("a"))]);
    assert_eq!(decode(spaced).unwrap().kind().as_str(), " ");
}

#[test]
fn decoding_what_was_encoded_gives_the_context_back() {
    let mut builder = ContextBuilder::new("foo");
    let single = builder
        .kind("org")
        .name("Foo")
        .anonymous(true)
        .secondary("two")
        .set_string("a", "b")
        .set_value("n", number(2.5))
        .add_private_attribute(name("a"))
        .build()
        .unwrap();
    assert_eq!(decode(encode(&single)).unwrap(), single);

    let other = ContextBuilder::new("bar").build().unwrap();
    assert_ne!(single, other);
    let multi = MultiContextBuilder::new()
        .add_context(single.clone())
        .add_context(other)
        .build()
        .unwrap();
    assert_eq!(decode(encode(&multi)).unwrap(), multi);
    assert_ne!(multi, single);
}

#[test]
fn encoded_context_with_empty_key_cannot_be_decoded() {
    let context = decode(object(vec![("key", text(""))])).unwrap();
    assert_eq!(decode(encode(&context)).unwrap_err(), DecodeError::EmptyKey);
}

#[test]
fn decoded_context_has_the_members_of_the_document() {
    let context = decode(multi_document()).unwrap();
    assert!(context.is_multi());
    assert!(context.kind().is_multi());
    assert_eq!(context.key(), "");
    let foo = context.as_kind("foo").unwrap();
    assert_eq!(foo.key(), "foo_key");
    assert_eq!(foo.name(), Some("foo_name"));
    assert!(foo.anonymous());
    assert_eq!(foo.secondary(), None);
    let bar = context.as_kind("bar").unwrap();
    assert_eq!(bar.secondary(), Some("bar_two"));
    assert_eq!(bar.attribute("some"), Some(&text("attribute")));
    assert_eq!(bar.attribute("other"), None);
    let private: Vec<String> =
        bar.private_attributes().into_iter().map(|n| n.into_string()).collect();
    assert_eq!(private, vec!["some".to_string()]);
    assert!(context.as_kind("qux").is_none());
    assert!(context.as_kind("multi").is_none());
}
