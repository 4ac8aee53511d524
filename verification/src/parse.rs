//! Reading a JSON document: which of the three shapes it has, and the record
//! of that shape.

use crate::context::names_from;
use crate::error::{DecodeError, KindError};
use crate::json::{
    distinct_names, has_name, lemma_pairs_members, lemma_pairs_names, pairs_to_map, values_of,
    Json, JsonObject, JsonValue,
};
use crate::kind::{kind_error, Kind};
use crate::shapes::{
    nested_of, opt_object, ContextVariant, Meta, MetaView, MultiKindContext, SingleKindContext,
    SingleKindStandaloneContext, SingleKindView, StandaloneView, UserFormat, UserView, VariantView,
};
use crate::text::{lemma_wire_names, opt_chars, str_eq, strings_of};
use vstd::prelude::*;

verus! {

/// The member named `name`, or null where the object has none: for a member
/// that may be left out, null and absent are the same.
pub open spec fn member(m: Map<Seq<char>, Json>, name: Seq<char>) -> Json {
    if m.contains_key(name) {
        m[name]
    } else {
        Json::Null
    }
}

/// An optional member that must be a string.
pub open spec fn string_member(m: Map<Seq<char>, Json>, name: Seq<char>) -> Result<
    Option<Seq<char>>,
    DecodeError,
> {
    match member(m, name) {
        Json::Null => Ok(None),
        Json::String(s) => Ok(Some(s)),
        _ => Err(DecodeError::InvalidField),
    }
}

/// An optional member that must be a boolean.
pub open spec fn bool_member(m: Map<Seq<char>, Json>, name: Seq<char>) -> Result<
    Option<bool>,
    DecodeError,
> {
    match member(m, name) {
        Json::Null => Ok(None),
        Json::Bool(b) => Ok(Some(b)),
        _ => Err(DecodeError::InvalidField),
    }
}

/// Every item is a string.
pub open spec fn all_strings(items: Seq<Json>) -> bool {
    forall|i: int| 0 <= i < items.len() ==> (#[trigger] items[i]) is String
}

/// The characters of each item, for items that are strings.
pub open spec fn texts(items: Seq<Json>) -> Seq<Seq<char>> {
    Seq::new(items.len(), |i: int| items[i]->String_0)
}

/// An optional member that must be an array of strings.
pub open spec fn strings_member(m: Map<Seq<char>, Json>, name: Seq<char>) -> Result<
    Option<Seq<Seq<char>>>,
    DecodeError,
> {
    match member(m, name) {
        Json::Null => Ok(None),
        Json::Array(items) => if all_strings(items) {
            Ok(Some(texts(items)))
        } else {
            Err(DecodeError::InvalidField)
        },
        _ => Err(DecodeError::InvalidField),
    }
}

/// An optional member that must be an object.
pub open spec fn object_member(m: Map<Seq<char>, Json>, name: Seq<char>) -> Result<
    Option<Map<Seq<char>, Json>>,
    DecodeError,
> {
    match member(m, name) {
        Json::Null => Ok(None),
        Json::Object(o) => Ok(Some(o)),
        _ => Err(DecodeError::InvalidField),
    }
}

/// The member `key`, which must be there and must be a string.
pub open spec fn key_member(m: Map<Seq<char>, Json>) -> Result<Seq<char>, DecodeError> {
    if !m.contains_key("key"@) {
        Err(DecodeError::MissingField)
    } else {
        match m["key"@] {
            Json::String(s) => Ok(s),
            _ => Err(DecodeError::InvalidField),
        }
    }
}

/// What stands under `_meta`: nothing where it is null, and else an object
/// whose `secondary` is a string and whose `privateAttributes` is an array of
/// strings, each where it is there. Other members of that object are passed
/// over.
pub open spec fn parse_meta(j: Json) -> Result<Option<MetaView>, DecodeError> {
    match j {
        Json::Null => Ok(None),
        Json::Object(m) => {
            let secondary = string_member(m, "secondary"@);
            let private_attributes = strings_member(m, "privateAttributes"@);
            if secondary is Err {
                Err(secondary->Err_0)
            } else if private_attributes is Err {
                Err(private_attributes->Err_0)
            } else {
                Ok(
                    Some(
                        MetaView {
                            secondary: secondary->Ok_0,
                            private_attributes: private_attributes->Ok_0,
                        },
                    ),
                )
            }
        },
        _ => Err(DecodeError::MalformedMeta),
    }
}

/// The members of an object that have no meaning of their own in a context
/// of a single kind: its attributes.
pub open spec fn attributes_of(m: Map<Seq<char>, Json>) -> Map<Seq<char>, Json> {
    m.remove("key"@).remove("name"@).remove("anonymous"@).remove("_meta"@)
}

/// The record of a context of a single kind, read from the members of its
/// object. The first of these that fails gives the error: `key`, which must
/// be a string that is not empty, then `name`, `anonymous` and `_meta`.
pub open spec fn parse_single_kind(m: Map<Seq<char>, Json>) -> Result<SingleKindView, DecodeError> {
    let key = key_member(m);
    let name = string_member(m, "name"@);
    let anonymous = bool_member(m, "anonymous"@);
    let meta = parse_meta(member(m, "_meta"@));
    if key is Err {
        Err(key->Err_0)
    } else if key->Ok_0.len() == 0 {
        Err(DecodeError::EmptyKey)
    } else if name is Err {
        Err(name->Err_0)
    } else if anonymous is Err {
        Err(anonymous->Err_0)
    } else if meta is Err {
        Err(meta->Err_0)
    } else {
        Ok(
            SingleKindView {
                key: key->Ok_0,
                name: name->Ok_0,
                anonymous: anonymous->Ok_0,
                attributes: attributes_of(m),
                meta: meta->Ok_0,
            },
        )
    }
}

/// The member `kind` of an object that states its kind: it must be there and
/// must be a string that is a kind. Null is no kind.
pub open spec fn kind_member(m: Map<Seq<char>, Json>) -> Result<Seq<char>, DecodeError> {
    if !m.contains_key("kind"@) {
        Err(DecodeError::MissingField)
    } else {
        match m["kind"@] {
            Json::Null => Err(DecodeError::InvalidKind(KindError::Null)),
            Json::String(s) => if kind_error(s) is Some {
                Err(DecodeError::InvalidKind(kind_error(s)->0))
            } else {
                Ok(s)
            },
            _ => Err(DecodeError::InvalidKind(KindError::NotAString)),
        }
    }
}

/// The record of a context that states its kind: the kind, and what the
/// other members give.
pub open spec fn parse_standalone(m: Map<Seq<char>, Json>) -> Result<StandaloneView, DecodeError> {
    let kind = kind_member(m);
    let context = parse_single_kind(m.remove("kind"@));
    if kind is Err {
        Err(kind->Err_0)
    } else if context is Err {
        Err(context->Err_0)
    } else {
        Ok(StandaloneView { kind: kind->Ok_0, context: context->Ok_0 })
    }
}

/// The record of the context that stands under the name `kind` in a
/// multi-context: the name must be a kind and the value an object.
pub open spec fn parse_entry(kind: Seq<char>, value: Json) -> Result<SingleKindView, DecodeError> {
    if kind_error(kind) is Some {
        Err(DecodeError::InvalidKind(kind_error(kind)->0))
    } else {
        match value {
            Json::Object(m) => parse_single_kind(m),
            _ => Err(DecodeError::NotAnObject),
        }
    }
}

/// The record of a legacy user. `key` must be a string and may be empty;
/// every other member with a meaning may be left out and has a fixed type;
/// members without a meaning are passed over.
pub open spec fn parse_user(m: Map<Seq<char>, Json>) -> Result<UserView, DecodeError> {
    let key = key_member(m);
    let name = string_member(m, "name"@);
    let secondary = string_member(m, "secondary"@);
    let anonymous = bool_member(m, "anonymous"@);
    let custom = object_member(m, "custom"@);
    let private_attribute_names = strings_member(m, "privateAttributeNames"@);
    let first_name = string_member(m, "firstName"@);
    let last_name = string_member(m, "lastName"@);
    let avatar = string_member(m, "avatar"@);
    let email = string_member(m, "email"@);
    let country = string_member(m, "country"@);
    let ip = string_member(m, "ip"@);
    if key is Err {
        Err(key->Err_0)
    } else if name is Err || secondary is Err || anonymous is Err || custom is Err
        || private_attribute_names is Err || first_name is Err || last_name is Err || avatar is Err
        || email is Err || country is Err || ip is Err {
        Err(DecodeError::InvalidField)
    } else {
        Ok(
            UserView {
                key: key->Ok_0,
                name: name->Ok_0,
                secondary: secondary->Ok_0,
                anonymous: anonymous->Ok_0,
                custom: custom->Ok_0,
                private_attribute_names: private_attribute_names->Ok_0,
                first_name: first_name->Ok_0,
                last_name: last_name->Ok_0,
                avatar: avatar->Ok_0,
                email: email->Ok_0,
                country: country->Ok_0,
                ip: ip->Ok_0,
            },
        )
    }
}

/// The three shapes of a document.
#[derive(Debug, Clone, Copy, PartialEq, Eq, Structural)]
pub enum Shape {
    Multi,
    Single,
    Implicit,
}

/// The shape of an object, told by its member `kind` alone: a legacy user
/// where there is none, a multi-context where it is the string `multi`, and
/// a context of a single kind where it is another string that is a kind. A
/// `kind` that is there and is anything else is an error, null too.
pub open spec fn classify(m: Map<Seq<char>, Json>) -> Result<Shape, DecodeError> {
    if !m.contains_key("kind"@) {
        Ok(Shape::Implicit)
    } else {
        match kind_member(m) {
            Err(e) => Err(e),
            Ok(kind) => if kind == "multi"@ {
                Ok(Shape::Multi)
            } else {
                Ok(Shape::Single)
            },
        }
    }
}

/// The records of the contexts that stand in a multi-context, each under its
/// kind, where each of them can be read.
pub open spec fn parsed_entries(entries: Map<Seq<char>, Json>) -> Map<Seq<char>, SingleKindView> {
    Map::new(|k: Seq<char>| entries.contains_key(k), |k: Seq<char>| parse_entry(k, entries[k])->Ok_0)
}

/// Whether `r` is a reading of the multi-context whose members, `kind` left
/// out, are `entries`. It is read where it has a member and every member can
/// be read; the record then holds each context once, in some order. Where it
/// has no member the error is `EmptyMulti`, and else the error is that of a
/// member that cannot be read.
pub open spec fn reads_as_multi(
    entries: Map<Seq<char>, Json>,
    r: Result<VariantView, DecodeError>,
) -> bool {
    match r {
        Ok(VariantView::Multi(record)) => {
            &&& record.kind == "multi"@
            &&& exists|k: Seq<char>| entries.contains_key(k)
            &&& forall|k: Seq<char>| #[trigger]
                entries.contains_key(k) ==> parse_entry(k, entries[k]) is Ok
            &&& distinct_names(record.contexts)
            &&& pairs_to_map(record.contexts) == parsed_entries(entries)
        },
        Ok(_) => false,
        Err(e) => if entries == Map::<Seq<char>, Json>::empty() {
            e == DecodeError::EmptyMulti
        } else {
            exists|k: Seq<char>| #[trigger]
                entries.contains_key(k) && parse_entry(k, entries[k]) == Err::<
                    SingleKindView,
                    DecodeError,
                >(e)
        },
    }
}

/// What is wrong with the member `kind` of an object that is read as a
/// multi-context, if anything: it must be the string `multi`.
pub open spec fn multi_kind_error(m: Map<Seq<char>, Json>) -> Option<DecodeError> {
    match kind_member(m) {
        Err(e) => Some(e),
        Ok(kind) => if kind == "multi"@ {
            None
        } else {
            Some(DecodeError::InvalidKind(KindError::NotMulti))
        },
    }
}

/// Whether `r` is a reading of the object with the members `m` as a
/// multi-context.
pub open spec fn reads_as_multi_object(
    m: Map<Seq<char>, Json>,
    r: Result<VariantView, DecodeError>,
) -> bool {
    match multi_kind_error(m) {
        Some(e) => r == Err::<VariantView, DecodeError>(e),
        None => reads_as_multi(m.remove("kind"@), r),
    }
}

/// Whether `r` is a reading of the document `j`. For a document that is not
/// a multi-context there is one reading: the error of `classify`, or what
/// the parser of its shape gives.
pub open spec fn reads_as(j: Json, r: Result<VariantView, DecodeError>) -> bool {
    match j {
        Json::Object(m) => match classify(m) {
            Err(e) => r == Err::<VariantView, DecodeError>(e),
            Ok(Shape::Implicit) => match parse_user(m) {
                Ok(user) => r == Ok::<VariantView, DecodeError>(VariantView::Implicit(user)),
                Err(e) => r == Err::<VariantView, DecodeError>(e),
            },
            Ok(Shape::Single) => match parse_standalone(m) {
                Ok(single) => r == Ok::<VariantView, DecodeError>(VariantView::Single(single)),
                Err(e) => r == Err::<VariantView, DecodeError>(e),
            },
            Ok(Shape::Multi) => reads_as_multi_object(m, r),
        },
        _ => r == Err::<VariantView, DecodeError>(DecodeError::NotAnObject),
    }
}

/// Takes an optional string member out of `object`.
fn take_string(object: &mut JsonObject, name: &str) -> (r: Result<Option<String>, DecodeError>)
    ensures
        final(object)@ == old(object)@.remove(name@),
        match r {
            Ok(s) => string_member(old(object)@, name@) == Ok::<Option<Seq<char>>, DecodeError>(
                opt_chars(s),
            ),
            Err(e) => string_member(old(object)@, name@) == Err::<Option<Seq<char>>, DecodeError>(
                e,
            ),
        },
{
    match object.remove(name) {
        None => Ok(None),
        Some(JsonValue::Null) => Ok(None),
        Some(JsonValue::String(s)) => Ok(Some(s)),
        Some(_) => Err(DecodeError::InvalidField),
    }
}

/// Takes an optional boolean member out of `object`.
fn take_bool(object: &mut JsonObject, name: &str) -> (r: Result<Option<bool>, DecodeError>)
    ensures
        final(object)@ == old(object)@.remove(name@),
        r == bool_member(old(object)@, name@),
{
    match object.remove(name) {
        None => Ok(None),
        Some(JsonValue::Null) => Ok(None),
        Some(JsonValue::Bool(b)) => Ok(Some(b)),
        Some(_) => Err(DecodeError::InvalidField),
    }
}

/// The strings of an array, where every item is one.
fn strings_from(items: Vec<JsonValue>) -> (r: Option<Vec<String>>)
    ensures
        match r {
            Some(v) => all_strings(values_of(items@)) && strings_of(v@) == texts(
                values_of(items@),
            ),
            None => !all_strings(values_of(items@)),
        },
{
    let mut out: Vec<String> = Vec::new();
    let mut i: usize = 0;
    while i < items.len()
        invariant
            i <= items@.len(),
            out@.len() == i,
            forall|j: int| 0 <= j < i ==> (#[trigger] values_of(items@)[j]) is String,
            forall|j: int| 0 <= j < i ==> out@[j]@ == values_of(items@)[j]->String_0,
        decreases items@.len() - i,
    {
        match &items[i] {
            JsonValue::String(s) => {
                out.push(s.clone());
            },
            _ => {
                assert(!(values_of(items@)[i as int] is String));
                return None;
            },
        }
        i += 1;
    }
    assert(strings_of(out@) =~= texts(values_of(items@)));
    Some(out)
}

/// Takes an optional member that is an array of strings out of `object`.
fn take_strings(object: &mut JsonObject, name: &str) -> (r: Result<
    Option<Vec<String>>,
    DecodeError,
>)
    ensures
        final(object)@ == old(object)@.remove(name@),
        match r {
            Ok(Some(v)) => strings_member(old(object)@, name@) == Ok::<
                Option<Seq<Seq<char>>>,
                DecodeError,
            >(Some(strings_of(v@))),
            Ok(None) => strings_member(old(object)@, name@) == Ok::<
                Option<Seq<Seq<char>>>,
                DecodeError,
            >(None),
            Err(e) => strings_member(old(object)@, name@) == Err::<
                Option<Seq<Seq<char>>>,
                DecodeError,
            >(e),
        },
{
    match object.remove(name) {
        None => Ok(None),
        Some(JsonValue::Null) => Ok(None),
        Some(JsonValue::Array(items)) => match strings_from(items) {
            Some(v) => Ok(Some(v)),
            None => Err(DecodeError::InvalidField),
        },
        Some(_) => Err(DecodeError::InvalidField),
    }
}

/// Takes the member `key` out of `object`.
fn take_key(object: &mut JsonObject) -> (r: Result<String, DecodeError>)
    ensures
        final(object)@ == old(object)@.remove("key"@),
        match r {
            Ok(s) => key_member(old(object)@) == Ok::<Seq<char>, DecodeError>(s@),
            Err(e) => key_member(old(object)@) == Err::<Seq<char>, DecodeError>(e),
        },
{
    match object.remove("key") {
        None => Err(DecodeError::MissingField),
        Some(JsonValue::String(s)) => Ok(s),
        Some(_) => Err(DecodeError::InvalidField),
    }
}

impl Meta {
    /// Reads what stands under `_meta`.
    pub fn parse(value: JsonValue) -> (r: Result<Option<Meta>, DecodeError>)
        ensures
            match r {
                Ok(Some(meta)) => parse_meta(value@) == Ok::<Option<MetaView>, DecodeError>(
                    Some(meta@),
                ),
                Ok(None) => parse_meta(value@) == Ok::<Option<MetaView>, DecodeError>(None),
                Err(e) => parse_meta(value@) == Err::<Option<MetaView>, DecodeError>(e),
            },
    {
        proof {
            lemma_wire_names();
        }
        match value {
            JsonValue::Null => Ok(None),
            JsonValue::Object(object) => {
                let mut object = object;
                let secondary = take_string(&mut object, "secondary")?;
                let private_attributes = take_strings(&mut object, "privateAttributes")?;
                Ok(Some(Meta { secondary, private_attributes }))
            },
            _ => Err(DecodeError::MalformedMeta),
        }
    }
}

impl SingleKindContext {
    /// Reads the record of a context of a single kind from its object.
    pub fn parse(object: JsonObject) -> (r: Result<SingleKindContext, DecodeError>)
        ensures
            match r {
                Ok(context) => parse_single_kind(object@) == Ok::<SingleKindView, DecodeError>(
                    context@,
                ),
                Err(e) => parse_single_kind(object@) == Err::<SingleKindView, DecodeError>(e),
            },
    {
        proof {
            lemma_wire_names();
        }
        let mut object = object;
        let key = take_key(&mut object)?;
        if key.as_str().is_empty() {
            return Err(DecodeError::EmptyKey);
        }
        let name = take_string(&mut object, "name")?;
        let anonymous = take_bool(&mut object, "anonymous")?;
        let meta = match object.remove("_meta") {
            Some(value) => Meta::parse(value)?,
            None => None,
        };
        Ok(SingleKindContext { key, name, anonymous, attributes: object, meta })
    }
}

/// Takes the member `kind` out of `object`.
fn take_kind(object: &mut JsonObject) -> (r: Result<Kind, DecodeError>)
    ensures
        final(object)@ == old(object)@.remove("kind"@),
        match r {
            Ok(kind) => kind_member(old(object)@) == Ok::<Seq<char>, DecodeError>(kind@),
            Err(e) => kind_member(old(object)@) == Err::<Seq<char>, DecodeError>(e),
        },
{
    match object.remove("kind") {
        None => Err(DecodeError::MissingField),
        Some(JsonValue::Null) => Err(DecodeError::InvalidKind(KindError::Null)),
        Some(JsonValue::String(s)) => match Kind::new(s) {
            Ok(kind) => Ok(kind),
            Err(e) => Err(DecodeError::InvalidKind(e)),
        },
        Some(_) => Err(DecodeError::InvalidKind(KindError::NotAString)),
    }
}

impl SingleKindStandaloneContext {
    /// Reads the record of a context that states its kind from its object.
    pub fn parse(object: JsonObject) -> (r: Result<SingleKindStandaloneContext, DecodeError>)
        ensures
            match r {
                Ok(single) => parse_standalone(object@) == Ok::<StandaloneView, DecodeError>(
                    single@,
                ),
                Err(e) => parse_standalone(object@) == Err::<StandaloneView, DecodeError>(e),
            },
    {
        let mut object = object;
        let kind = take_kind(&mut object)?;
        let context = SingleKindContext::parse(object)?;
        Ok(SingleKindStandaloneContext { kind, context })
    }
}

/// Takes an optional member that is an object out of `object`.
fn take_object(object: &mut JsonObject, name: &str) -> (r: Result<Option<JsonObject>, DecodeError>)
    ensures
        final(object)@ == old(object)@.remove(name@),
        match r {
            Ok(o) => object_member(old(object)@, name@) == Ok::<
                Option<Map<Seq<char>, Json>>,
                DecodeError,
            >(opt_object(o)),
            Err(e) => object_member(old(object)@, name@) == Err::<
                Option<Map<Seq<char>, Json>>,
                DecodeError,
            >(e),
        },
{
    match object.remove(name) {
        None => Ok(None),
        Some(JsonValue::Null) => Ok(None),
        Some(JsonValue::Object(o)) => Ok(Some(o)),
        Some(_) => Err(DecodeError::InvalidField),
    }
}

impl UserFormat {
    /// Reads the record of a legacy user from its object.
    pub fn parse(object: JsonObject) -> (r: Result<UserFormat, DecodeError>)
        ensures
            match r {
                Ok(user) => parse_user(object@) == Ok::<UserView, DecodeError>(user@),
                Err(e) => parse_user(object@) == Err::<UserView, DecodeError>(e),
            },
    {
        proof {
            lemma_wire_names();
        }
        let mut object = object;
        let key = take_key(&mut object)?;
        let name = take_string(&mut object, "name")?;
        let secondary = take_string(&mut object, "secondary")?;
        let anonymous = take_bool(&mut object, "anonymous")?;
        let custom = take_object(&mut object, "custom")?;
        let private_attribute_names = match take_strings(&mut object, "privateAttributeNames")? {
            Some(strings) => Some(names_from(&strings)),
            None => None,
        };
        let first_name = take_string(&mut object, "firstName")?;
        let last_name = take_string(&mut object, "lastName")?;
        let avatar = take_string(&mut object, "avatar")?;
        let email = take_string(&mut object, "email")?;
        let country = take_string(&mut object, "country")?;
        let ip = take_string(&mut object, "ip")?;
        Ok(
            UserFormat {
                key,
                name,
                secondary,
                anonymous,
                custom,
                private_attribute_names,
                first_name,
                last_name,
                avatar,
                email,
                country,
                ip,
            },
        )
    }
}

impl MultiKindContext {
    /// Reads the record of a multi-context from its object: `kind` is
    /// `multi`, and every other member is a context that stands under its
    /// kind.
    pub fn parse(object: JsonObject) -> (r: Result<MultiKindContext, DecodeError>)
        ensures
            match r {
                Ok(multi) => reads_as_multi_object(object@, Ok(VariantView::Multi(multi@))),
                Err(e) => reads_as_multi_object(object@, Err(e)),
            },
    {
        let mut rest = object;
        let kind = take_kind(&mut rest)?;
        if !kind.is_multi() {
            return Err(DecodeError::InvalidKind(KindError::NotMulti));
        }
        let ghost entries = rest@;
        if rest.is_empty() {
            return Err(DecodeError::EmptyMulti);
        }
        let mut contexts: Vec<(Kind, SingleKindContext)> = Vec::new();
        loop
            invariant
                entries == object@.remove("kind"@),
                multi_kind_error(object@) is None,
                entries != Map::<Seq<char>, Json>::empty(),
                forall|k: Seq<char>| #[trigger]
                    rest@.contains_key(k) ==> entries.contains_key(k) && rest@[k] == entries[k],
                distinct_names(nested_of(contexts@)),
                forall|k: Seq<char>|
                    entries.contains_key(k) ==> (#[trigger] rest@.contains_key(k) != has_name(
                        nested_of(contexts@),
                        k,
                    )),
                forall|i: int|
                    0 <= i < contexts@.len() ==> entries.contains_key(
                        (#[trigger] nested_of(contexts@)[i]).0,
                    ) && parse_entry(
                        nested_of(contexts@)[i].0,
                        entries[nested_of(contexts@)[i].0],
                    ) == Ok::<SingleKindView, DecodeError>(nested_of(contexts@)[i].1),
            ensures
                forall|k: Seq<char>| entries.contains_key(k) ==> has_name(nested_of(contexts@), k),
                distinct_names(nested_of(contexts@)),
                forall|i: int|
                    0 <= i < contexts@.len() ==> entries.contains_key(
                        (#[trigger] nested_of(contexts@)[i]).0,
                    ) && parse_entry(
                        nested_of(contexts@)[i].0,
                        entries[nested_of(contexts@)[i].0],
                    ) == Ok::<SingleKindView, DecodeError>(nested_of(contexts@)[i].1),
            decreases rest@.len(),
        {
            let ghost remaining = rest@;
            let ghost done = nested_of(contexts@);
            match rest.pop() {
                None => {
                    assert forall|k: Seq<char>| entries.contains_key(k) implies has_name(
                        done,
                        k,
                    ) by {
                        assert(!remaining.contains_key(k));
                    }
                    break ;
                },
                Some((name, value)) => {
                    let ghost k = name@;
                    assert(entries.contains_key(k) && entries[k] == value@);
                    assert(!has_name(done, k));
                    let kind = match Kind::new(name) {
                        Ok(kind) => kind,
                        Err(e) => {
                            assert(parse_entry(k, entries[k]) == Err::<SingleKindView, DecodeError>(
                                DecodeError::InvalidKind(e),
                            ));
                            return Err(DecodeError::InvalidKind(e));
                        },
                    };
                    let context = match value {
                        JsonValue::Object(nested) => match SingleKindContext::parse(nested) {
                            Ok(context) => context,
                            Err(e) => {
                                assert(parse_entry(k, entries[k]) == Err::<
                                    SingleKindView,
                                    DecodeError,
                                >(e));
                                return Err(e);
                            },
                        },
                        _ => {
                            assert(parse_entry(k, entries[k]) == Err::<SingleKindView, DecodeError>(
                                DecodeError::NotAnObject,
                            ));
                            return Err(DecodeError::NotAnObject);
                        },
                    };
                    let ghost record = context@;
                    contexts.push((kind, context));
                    proof {
                        let now = nested_of(contexts@);
                        assert(now =~= done.push((k, record)));
                        assert forall|a: int, b: int| 0 <= a < b < now.len() implies now[a].0
                            != now[b].0 by {
                            if b == done.len() {
                                assert(done[a].0 != k);
                            } else {
                                assert(done[a].0 != done[b].0);
                            }
                        }
                        assert forall|q: Seq<char>| entries.contains_key(q) implies (
                        #[trigger] rest@.contains_key(q) != has_name(now, q)) by {
                            if q == k {
                                assert(now[done.len() as int].0 == q);
                            } else {
                                assert(remaining.contains_key(q) != has_name(done, q));
                                if has_name(done, q) {
                                    let a = choose|a: int|
                                        0 <= a < done.len() && #[trigger] done[a].0 == q;
                                    assert(now[a].0 == q);
                                }
                                if has_name(now, q) {
                                    let a = choose|a: int|
                                        0 <= a < now.len() && #[trigger] now[a].0 == q;
                                    assert(done[a].0 == q);
                                }
                            }
                        }
                    }
                },
            }
        }
        let multi = MultiKindContext { kind: kind.into_string(), contexts };
        proof {
            let pairs = multi@.contexts;
            lemma_pairs_names(pairs);
            lemma_pairs_members(pairs);
            assert forall|k: Seq<char>| #[trigger] entries.contains_key(k) implies parse_entry(
                k,
                entries[k],
            ) is Ok && pairs_to_map(pairs).contains_key(k) && pairs_to_map(pairs)[k]
                == parsed_entries(entries)[k] by {
                assert(has_name(pairs, k));
                let i = choose|i: int| 0 <= i < pairs.len() && #[trigger] pairs[i].0 == k;
                assert(pairs_to_map(pairs)[pairs[i].0] == pairs[i].1);
            }
            assert forall|k: Seq<char>| pairs_to_map(pairs).contains_key(k) implies entries.contains_key(k) by {
                let i = choose|i: int| 0 <= i < pairs.len() && #[trigger] pairs[i].0 == k;
            }
            assert(pairs_to_map(pairs) =~= parsed_entries(entries));
            assert(exists|k: Seq<char>| entries.contains_key(k)) by {
                if forall|k: Seq<char>| !entries.contains_key(k) {
                    assert(entries =~= Map::<Seq<char>, Json>::empty());
                }
            }
        }
        Ok(multi)
    }
}

/// Finds the shape of an object from its member `kind`.
pub fn shape_of(object: &JsonObject) -> (r: Result<Shape, DecodeError>)
    ensures
        r == classify(object@),
{
    proof {
        lemma_wire_names();
    }
    match object.get("kind") {
        None => Ok(Shape::Implicit),
        Some(JsonValue::Null) => Err(DecodeError::InvalidKind(KindError::Null)),
        Some(JsonValue::String(s)) => {
            if s.as_str().is_empty() {
                Err(DecodeError::InvalidKind(KindError::Empty))
            } else if str_eq(s.as_str(), "kind") {
                Err(DecodeError::InvalidKind(KindError::Reserved))
            } else if str_eq(s.as_str(), "multi") {
                Ok(Shape::Multi)
            } else {
                Ok(Shape::Single)
            }
        },
        Some(_) => Err(DecodeError::InvalidKind(KindError::NotAString)),
    }
}

impl ContextVariant {
    /// Reads a document in whichever of the three shapes it has. The shape
    /// is told by the member `kind` alone, before anything else is read.
    pub fn deserialize(json: JsonValue) -> (r: Result<ContextVariant, DecodeError>)
        ensures
            match r {
                Ok(variant) => reads_as(json@, Ok(variant@)),
                Err(e) => reads_as(json@, Err(e)),
            },
    {
        let object = match json {
            JsonValue::Object(object) => object,
            _ => {
                return Err(DecodeError::NotAnObject);
            },
        };
        match shape_of(&object)? {
            Shape::Implicit => {
                let user = UserFormat::parse(object)?;
                Ok(ContextVariant::Implicit(user))
            },
            Shape::Multi => {
                let multi = MultiKindContext::parse(object)?;
                Ok(ContextVariant::Multi(multi))
            },
            Shape::Single => {
                let single = SingleKindStandaloneContext::parse(object)?;
                Ok(ContextVariant::Single(single))
            },
        }
    }
}

} // verus!
