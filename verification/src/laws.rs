//! What holds of the codec as a whole.

use crate::builder::BuilderView;
use crate::codec::{
    decode_entry, decode_single, decode_user, decoded, decoded_entries, encoded, rejects,
};
use crate::context::{ContextView, SingleView};
use crate::convert::{
    built_context, built_from_user, project_single, reserved_names, single_context, user_context,
    with_attributes,
};
use crate::emit::{meta_is_empty, meta_members, single_members, string_items};
use crate::error::{BuildError, DecodeError, KindError};
use crate::json::Json;
use crate::kind::{kind_error, valid_kind};
use crate::parse::{
    all_strings, attributes_of, classify, member, parse_meta, parse_single_kind, parse_standalone,
    parse_user, texts, Shape,
};
use crate::shapes::{MetaView, SingleKindView, UserView};
use crate::text::{is_reserved_name, lemma_wire_names};
use vstd::prelude::*;

verus! {

/// The error for a `kind` member that is there and is no string.
pub open spec fn not_a_string_error(kind: Json) -> DecodeError {
    if kind is Null {
        DecodeError::InvalidKind(KindError::Null)
    } else {
        DecodeError::InvalidKind(KindError::NotAString)
    }
}

/// A `kind` must be a string: an object whose `kind` is null, a boolean, a
/// number, an array or an object denotes no context, whatever else it
/// holds, and the one error with which it is turned down is `InvalidKind`.
pub proof fn law_kind_must_be_a_string(m: Map<Seq<char>, Json>)
    requires
        m.contains_key("kind"@),
        !(m["kind"@] is String),
    ensures
        decoded(Json::Object(m)) is None,
        forall|e: DecodeError|
            rejects(Json::Object(m), e) <==> e == not_a_string_error(m["kind"@]),
        not_a_string_error(m["kind"@]) is InvalidKind,
{
}

/// A kind that is the empty string or the word `kind` is no kind either.
pub proof fn law_kind_must_be_a_kind(m: Map<Seq<char>, Json>, kind: Seq<char>)
    requires
        m.contains_key("kind"@),
        m["kind"@] == Json::String(kind),
        !valid_kind(kind),
    ensures
        decoded(Json::Object(m)) is None,
        forall|e: DecodeError|
            rejects(Json::Object(m), e) <==> e == DecodeError::InvalidKind(kind_error(kind)->0),
{
    lemma_wire_names();
}

/// The record that is read from what is written for a context of a single
/// kind: `anonymous` is there only where it is true, and `_meta` only where
/// it has a member.
pub open spec fn record_read_back(s: SingleView) -> SingleKindView {
    SingleKindView {
        key: s.key,
        name: s.name,
        anonymous: if s.anonymous {
            Some(true)
        } else {
            None
        },
        attributes: s.attributes,
        meta: if s.secondary is None && s.private_attributes is None {
            None
        } else {
            Some(MetaView { secondary: s.secondary, private_attributes: s.private_attributes })
        },
    }
}

/// The strings of the array that is written for a list of strings are that
/// list.
pub proof fn lemma_string_items(names: Seq<Seq<char>>)
    ensures
        all_strings(string_items(names)),
        texts(string_items(names)) == names,
{
    assert(texts(string_items(names)) =~= names);
}

/// An array of strings is the array that is written for its strings.
pub proof fn lemma_texts(items: Seq<Json>)
    requires
        all_strings(items),
    ensures
        string_items(texts(items)) == items,
{
    assert forall|i: int| 0 <= i < items.len() implies string_items(texts(items))[i]
        == items[i] by {
        assert(items[i] is String);
    }
    assert(string_items(texts(items)) =~= items);
}

/// What is written under `_meta` is read back as it was.
pub proof fn lemma_meta_read_back(meta: MetaView)
    requires
        meta.private_attributes matches Some(names) ==> names.len() > 0,
    ensures
        parse_meta(Json::Object(meta_members(meta))) == Ok::<Option<MetaView>, DecodeError>(
            Some(meta),
        ),
{
    lemma_wire_names();
    if let Some(names) = meta.private_attributes {
        lemma_string_items(names);
    }
}

/// What is written for a context of a single kind with a key is read back
/// as `record_read_back` says.
pub proof fn lemma_members_read_back(s: SingleView)
    requires
        s.wf(),
        s.key.len() > 0,
    ensures
        !single_members(project_single(s)).contains_key("kind"@),
        parse_single_kind(single_members(project_single(s))) == Ok::<
            SingleKindView,
            DecodeError,
        >(record_read_back(s)),
{
    lemma_wire_names();
    let p = project_single(s);
    let m = single_members(p);
    assert(is_reserved_name("kind"@) && is_reserved_name("key"@) && is_reserved_name("name"@)
        && is_reserved_name("anonymous"@) && is_reserved_name("_meta"@));
    if !meta_is_empty(p.meta) {
        lemma_meta_read_back(p.meta->0);
    }
    assert(attributes_of(m) =~= s.attributes);
}

/// The context that is built from the record that was read back is the
/// context that was written.
pub proof fn lemma_record_builds(s: SingleView)
    requires
        s.wf(),
        s.key.len() > 0,
    ensures
        single_context(s.kind, record_read_back(s)) == Ok::<SingleView, BuildError>(s),
{
    lemma_wire_names();
    let r = record_read_back(s);
    let b0 = BuilderView::new(s.key);
    let b1 = with_attributes(b0, s.attributes);
    assert(is_reserved_name("kind"@) && is_reserved_name("key"@) && is_reserved_name("name"@)
        && is_reserved_name("anonymous"@) && is_reserved_name("_meta"@));
    assert(s.attributes.remove_keys(reserved_names()) =~= s.attributes);
    assert(b1.attributes =~= s.attributes);
    let b = BuilderView { kind: s.kind, ..built_context(b0, r) };
    assert(b.private_attributes =~= match s.private_attributes {
        Some(names) => names,
        None => Seq::empty(),
    });
    assert(b.context().private_attributes == s.private_attributes);
}

/// Whether every context that `c` holds has a key that is not empty. A
/// context that was read from a legacy user may have an empty key; what is
/// written for such a context cannot be read.
pub open spec fn has_keys(c: ContextView) -> bool {
    match c {
        ContextView::Single(s) => s.key.len() > 0,
        ContextView::Multi(m) => forall|k: Seq<char>| #[trigger]
            m.contains_key(k) ==> m[k].key.len() > 0,
    }
}

/// Reading what was written gives the context back: for every context
/// whose keys are not empty, the document that is written for it denotes
/// it.
pub proof fn law_written_is_read_back(c: ContextView)
    requires
        c.wf(),
        has_keys(c),
    ensures
        decoded(encoded(c)) == Some(c),
{
    lemma_wire_names();
    match c {
        ContextView::Single(s) => {
            lemma_members_read_back(s);
            lemma_record_builds(s);
            let inner = single_members(project_single(s));
            let m = inner.insert("kind"@, Json::String(s.kind));
            assert(m.remove("kind"@) =~= inner);
        },
        ContextView::Multi(contexts) => {
            let f = |s: SingleView| Json::Object(single_members(project_single(s)));
            let m = contexts.map_values(f).insert("kind"@, Json::String("multi"@));
            let entries = m.remove("kind"@);
            assert(!contexts.contains_key("kind"@)) by {
                if contexts.contains_key("kind"@) {
                    assert(contexts["kind"@].wf());
                }
            }
            assert(entries =~= contexts.map_values(f));
            assert forall|k: Seq<char>| #[trigger] entries.contains_key(k) implies decode_entry(
                k,
                entries[k],
            ) == Ok::<SingleView, DecodeError>(contexts[k]) by {
                assert(contexts.contains_key(k));
                lemma_members_read_back(contexts[k]);
                lemma_record_builds(contexts[k]);
            }
            let k0 = choose|k: Seq<char>| contexts.contains_key(k);
            assert(entries.contains_key(k0));
            assert(decoded_entries(entries) =~= contexts);
        },
    }
}

/// The attributes with the string that `m` holds under `name`, where it
/// holds one, as the attribute of that name.
pub open spec fn with_named_string(
    attributes: Map<Seq<char>, Json>,
    m: Map<Seq<char>, Json>,
    name: Seq<char>,
) -> Map<Seq<char>, Json> {
    if member(m, name) is String {
        attributes.insert(name, member(m, name))
    } else {
        attributes
    }
}

/// The attributes of the context of a legacy user: the six named strings,
/// each under its name, and the members of `custom` whose names are not
/// reserved. A member of `custom` stands in place of a named string of the
/// same name.
pub open spec fn legacy_attributes(m: Map<Seq<char>, Json>) -> Map<Seq<char>, Json> {
    let a = Map::<Seq<char>, Json>::empty();
    let a = with_named_string(a, m, "avatar"@);
    let a = with_named_string(a, m, "firstName"@);
    let a = with_named_string(a, m, "lastName"@);
    let a = with_named_string(a, m, "country"@);
    let a = with_named_string(a, m, "email"@);
    let a = with_named_string(a, m, "ip"@);
    match member(m, "custom"@) {
        Json::Object(custom) => a.union_prefer_right(custom.remove_keys(reserved_names())),
        _ => a,
    }
}

/// What is written under `_meta` for a legacy user: its `secondary`, and
/// its `privateAttributeNames` as `privateAttributes` where the list has an
/// entry.
pub open spec fn legacy_meta(m: Map<Seq<char>, Json>) -> Map<Seq<char>, Json> {
    let meta = Map::<Seq<char>, Json>::empty();
    let meta = if member(m, "secondary"@) is String {
        meta.insert("secondary"@, member(m, "secondary"@))
    } else {
        meta
    };
    match member(m, "privateAttributeNames"@) {
        Json::Array(items) => if items.len() > 0 {
            meta.insert("privateAttributes"@, Json::Array(items))
        } else {
            meta
        },
        _ => meta,
    }
}

/// Whether nothing is written under `_meta` for a legacy user.
pub open spec fn legacy_meta_is_empty(m: Map<Seq<char>, Json>) -> bool {
    &&& !(member(m, "secondary"@) is String)
    &&& member(m, "privateAttributeNames"@) matches Json::Array(items) ==> items.len() == 0
}

/// The members that are written for the context of a legacy user with the
/// members `m`: the kind `user`; the key; the name where there is one;
/// `anonymous` where it is true; `_meta` where something is written under
/// it; and the attributes.
pub open spec fn legacy_written(m: Map<Seq<char>, Json>) -> Map<Seq<char>, Json> {
    let out = legacy_attributes(m).insert("kind"@, Json::String("user"@)).insert(
        "key"@,
        member(m, "key"@),
    );
    let out = with_named_string(out, m, "name"@);
    let out = if member(m, "anonymous"@) == Json::Bool(true) {
        out.insert("anonymous"@, Json::Bool(true))
    } else {
        out
    };
    if legacy_meta_is_empty(m) {
        out
    } else {
        out.insert("_meta"@, Json::Object(legacy_meta(m)))
    }
}

/// A legacy user is written as a context of the kind `user`: where an
/// object that states no kind denotes a context, that context has the kind
/// `user`, and what is written for it is `legacy_written` of the object.
pub proof fn law_legacy_user_is_normalized(m: Map<Seq<char>, Json>, c: ContextView)
    requires
        !m.contains_key("kind"@),
        decoded(Json::Object(m)) == Some(c),
    ensures
        c is Single,
        c->Single_0.kind == "user"@,
        encoded(c) == Json::Object(legacy_written(m)),
{
    lemma_wire_names();
    let u = parse_user(m)->Ok_0;
    let s = c->Single_0;
    let b0 = BuilderView { allow_empty_key: true, ..BuilderView::new(u.key) };
    let b = built_from_user(b0, u);
    assert(s == b.context());
    assert(s.attributes =~= legacy_attributes(m));
    if let Json::Array(items) = member(m, "privateAttributeNames"@) {
        lemma_texts(items);
        assert(b.private_attributes =~= texts(items));
    } else {
        assert(b.private_attributes =~= Seq::empty());
    }
    assert(is_reserved_name("kind"@) && is_reserved_name("key"@) && is_reserved_name("name"@)
        && is_reserved_name("anonymous"@) && is_reserved_name("_meta"@));
    let p = project_single(s);
    if !meta_is_empty(p.meta) {
        assert(meta_members(p.meta->0) =~= legacy_meta(m));
    }
    assert(single_members(p).insert("kind"@, Json::String(s.kind)) =~= legacy_written(m));
}

/// The members of a document that is an object.
pub open spec fn members_of_document(j: Json) -> Map<Seq<char>, Json> {
    j->Object_0
}

/// A member of `custom` cannot take the place of a member with a meaning of
/// its own. Where a legacy user denotes a context, it also does so without
/// its `custom`; and under each reserved name, what is written for the one
/// is what is written for the other: the same member, or none for both.
pub proof fn law_reserved_names_are_isolated(
    m: Map<Seq<char>, Json>,
    c: ContextView,
    name: Seq<char>,
)
    requires
        !m.contains_key("kind"@),
        decoded(Json::Object(m)) == Some(c),
        is_reserved_name(name),
    ensures
        decoded(Json::Object(m.remove("custom"@))) is Some,
        ({
            let plain = decoded(Json::Object(m.remove("custom"@)))->0;
            let with_custom = members_of_document(encoded(c));
            let without = members_of_document(encoded(plain));
            &&& with_custom.contains_key(name) == without.contains_key(name)
            &&& with_custom.contains_key(name) ==> with_custom[name] == without[name]
        }),
{
    lemma_wire_names();
    let bare = m.remove("custom"@);
    law_legacy_user_is_normalized(m, c);
    let u = parse_user(m)->Ok_0;
    let v = parse_user(bare)->Ok_0;
    assert(parse_user(bare) is Ok);
    assert(v == UserView { custom: None, ..u });
    assert(user_context(v) is Ok);
    let plain = decoded(Json::Object(bare))->0;
    law_legacy_user_is_normalized(bare, plain);
}

/// The members under `_meta` that say something: a `secondary` that is a
/// string, and a `privateAttributes` that is an array with an item.
pub open spec fn telling_meta(meta: Map<Seq<char>, Json>) -> Map<Seq<char>, Json> {
    let r = Map::<Seq<char>, Json>::empty();
    let r = with_named_string(r, meta, "secondary"@);
    match member(meta, "privateAttributes"@) {
        Json::Array(items) => if items.len() > 0 {
            r.insert("privateAttributes"@, Json::Array(items))
        } else {
            r
        },
        _ => r,
    }
}

/// Whether what stands under `_meta` says nothing: it is no object, or an
/// object without a member that says something.
pub open spec fn meta_tells_nothing(meta: Json) -> bool {
    match meta {
        Json::Object(meta) => {
            &&& !(member(meta, "secondary"@) is String)
            &&& member(meta, "privateAttributes"@) matches Json::Array(items) ==> items.len() == 0
        },
        _ => true,
    }
}

/// The members of a context of a single kind without those that say what is
/// so anyway: a `name` that is null, an `anonymous` that is null or false,
/// a `_meta` that says nothing, and under `_meta` every member that says
/// nothing.
pub open spec fn without_defaults(m: Map<Seq<char>, Json>) -> Map<Seq<char>, Json> {
    let name = member(m, "name"@);
    let anonymous = member(m, "anonymous"@);
    let meta = member(m, "_meta"@);
    let m = if name is String {
        m
    } else {
        m.remove("name"@)
    };
    let m = if anonymous == Json::Bool(true) {
        m
    } else {
        m.remove("anonymous"@)
    };
    if meta_tells_nothing(meta) {
        m.remove("_meta"@)
    } else {
        m.insert("_meta"@, Json::Object(telling_meta(meta->Object_0)))
    }
}

/// A context nested in a multi-context, without what says nothing. Its kind
/// is the name under which it stands: a member `kind` inside it says
/// nothing.
pub open spec fn nested_without_defaults(value: Json) -> Json {
    match value {
        Json::Object(m) => Json::Object(without_defaults(m).remove("kind"@)),
        _ => value,
    }
}

/// A document without the members that say what is so anyway.
pub open spec fn canonical(j: Json) -> Json {
    match j {
        Json::Object(m) => if member(m, "kind"@) == Json::String("multi"@) {
            Json::Object(
                Map::new(
                    |k: Seq<char>| m.contains_key(k),
                    |k: Seq<char>|
                        if k == "kind"@ {
                            m[k]
                        } else {
                            nested_without_defaults(m[k])
                        },
                ),
            )
        } else {
            Json::Object(without_defaults(m))
        },
        _ => j,
    }
}

/// What is written for the context that was built from the record of an
/// object is that object without what says nothing, and without `kind`.
pub proof fn lemma_single_round_trip(m: Map<Seq<char>, Json>, kind: Seq<char>)
    requires
        parse_single_kind(m) is Ok,
        single_context(kind, parse_single_kind(m)->Ok_0) is Ok,
    ensures
        single_members(
            project_single(single_context(kind, parse_single_kind(m)->Ok_0)->Ok_0),
        ) == without_defaults(m).remove("kind"@),
{
    lemma_wire_names();
    let r = parse_single_kind(m)->Ok_0;
    let s = single_context(kind, r)->Ok_0;
    let b0 = BuilderView::new(r.key);
    let b = BuilderView { kind, ..built_context(b0, r) };
    assert(s == b.context());
    assert(is_reserved_name("kind"@) && is_reserved_name("key"@) && is_reserved_name("name"@)
        && is_reserved_name("anonymous"@) && is_reserved_name("_meta"@));
    assert(s.attributes =~= attributes_of(m).remove("kind"@)) by {
        assert(with_attributes(b0, r.attributes).attributes =~= attributes_of(m).remove(
            "kind"@,
        ));
    }
    let p = project_single(s);
    if let Json::Object(meta) = member(m, "_meta"@) {
        if let Json::Array(items) = member(meta, "privateAttributes"@) {
            lemma_texts(items);
            assert(b.private_attributes =~= texts(items));
        } else {
            assert(b.private_attributes =~= Seq::empty());
        }
        if !meta_is_empty(p.meta) {
            assert(meta_members(p.meta->0) =~= telling_meta(meta));
        }
    } else {
        assert(b.private_attributes =~= Seq::empty());
    }
    assert(single_members(p) =~= without_defaults(m).remove("kind"@));
}

/// What was read in a modern shape is written as it was read, but for what
/// says nothing: where an object that states its kind denotes a context,
/// what is written for that context is `canonical` of the object.
pub proof fn law_modern_round_trip(m: Map<Seq<char>, Json>, c: ContextView)
    requires
        m.contains_key("kind"@),
        decoded(Json::Object(m)) == Some(c),
    ensures
        encoded(c) == canonical(Json::Object(m)),
{
    lemma_wire_names();
    match c {
        ContextView::Single(s) => {
            let inner = m.remove("kind"@);
            let record = parse_standalone(m)->Ok_0;
            lemma_single_round_trip(inner, record.kind);
            assert(single_members(project_single(s)).insert("kind"@, Json::String(s.kind))
                =~= without_defaults(m));
        },
        ContextView::Multi(contexts) => {
            let entries = m.remove("kind"@);
            let f = |s: SingleView| Json::Object(single_members(project_single(s)));
            let written = contexts.map_values(f).insert("kind"@, Json::String("multi"@));
            let expected = canonical(Json::Object(m))->Object_0;
            assert forall|k: Seq<char>| written.contains_key(k) implies expected.contains_key(k)
                && written[k] == expected[k] by {
                if k != "kind"@ {
                    assert(entries.contains_key(k));
                    assert(decode_entry(k, entries[k]) is Ok);
                    lemma_single_round_trip(entries[k]->Object_0, k);
                }
            }
            assert(written =~= expected);
        },
    }
}

/// Whether what stands under `_meta` says something with each of its
/// members.
pub open spec fn meta_tells_throughout(meta: Json) -> bool {
    meta matches Json::Object(members) && !meta_tells_nothing(meta) && telling_meta(members)
        == members
}

/// Whether no member of a context of a single kind says what is so anyway.
pub open spec fn states_no_default(m: Map<Seq<char>, Json>) -> bool {
    &&& m.contains_key("name"@) ==> m["name"@] is String
    &&& m.contains_key("anonymous"@) ==> m["anonymous"@] == Json::Bool(true)
    &&& m.contains_key("_meta"@) ==> meta_tells_throughout(m["_meta"@])
}

/// Whether no member of a document in a modern shape says what is so
/// anyway, in the document itself or in a context nested in it.
pub open spec fn is_canonical(m: Map<Seq<char>, Json>) -> bool {
    if member(m, "kind"@) == Json::String("multi"@) {
        forall|k: Seq<char>| #[trigger]
            m.contains_key(k) && k != "kind"@ ==> (m[k] matches Json::Object(nested)
                ==> states_no_default(nested) && !nested.contains_key("kind"@))
    } else {
        states_no_default(m)
    }
}

/// What was read in a modern shape and says nothing that is so anyway is
/// written exactly as it was read.
pub proof fn law_canonical_round_trip(m: Map<Seq<char>, Json>, c: ContextView)
    requires
        m.contains_key("kind"@),
        decoded(Json::Object(m)) == Some(c),
        is_canonical(m),
    ensures
        encoded(c) == Json::Object(m),
{
    lemma_wire_names();
    law_modern_round_trip(m, c);
    let expected = canonical(Json::Object(m))->Object_0;
    if member(m, "kind"@) == Json::String("multi"@) {
        assert forall|k: Seq<char>| m.contains_key(k) implies expected[k] == m[k] by {
            if k != "kind"@ {
                if let Json::Object(nested) = m[k] {
                    assert(without_defaults(nested).remove("kind"@) =~= nested);
                }
            }
        }
        assert(expected =~= m);
    } else {
        assert(without_defaults(m) =~= m);
    }
}

/// A document denotes a context or is turned down, and not both: it denotes
/// a context exactly where there is no error with which it is turned down.
pub proof fn law_decoded_or_rejected(j: Json)
    ensures
        decoded(j) is Some <==> forall|e: DecodeError| !rejects(j, e),
{
    if decoded(j) is Some {
        assert forall|e: DecodeError| !rejects(j, e) by {
            if let Json::Object(m) = j {
                if classify(m) == Ok::<Shape, DecodeError>(Shape::Multi) {
                    let entries = m.remove("kind"@);
                    let k = choose|k: Seq<char>| entries.contains_key(k);
                    assert(entries.contains_key(k));
                }
            }
        }
    } else {
        match j {
            Json::Object(m) => match classify(m) {
                Err(x) => {
                    assert(rejects(j, x));
                },
                Ok(Shape::Implicit) => {
                    assert(rejects(j, decode_user(m)->Err_0));
                },
                Ok(Shape::Single) => {
                    assert(rejects(j, decode_single(m)->Err_0));
                },
                Ok(Shape::Multi) => {
                    let entries = m.remove("kind"@);
                    if entries == Map::<Seq<char>, Json>::empty() {
                        assert(rejects(j, DecodeError::EmptyMulti));
                    } else {
                        if forall|k: Seq<char>| !entries.contains_key(k) {
                            assert(entries =~= Map::<Seq<char>, Json>::empty());
                        }
                        let k = choose|k: Seq<char>| #[trigger]
                            entries.contains_key(k) && !(decode_entry(k, entries[k]) is Ok);
                        assert(entries.contains_key(k) && decode_entry(k, entries[k]) == Err::<
                            SingleView,
                            DecodeError,
                        >(decode_entry(k, entries[k])->Err_0));
                        assert(rejects(j, decode_entry(k, entries[k])->Err_0));
                    }
                },
            },
            _ => {
                assert(rejects(j, DecodeError::NotAnObject));
            },
        }
    }
}

} // verus!
