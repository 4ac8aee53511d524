//! Writing a record as a JSON document.

use crate::json::{pairs_to_map, Json, JsonObject, JsonValue};
use crate::shapes::{
    nested_of, opt_meta, ContextVariant, Meta, MetaView, MultiKindContext, MultiKindView,
    SingleKindContext, SingleKindStandaloneContext, SingleKindView, StandaloneView, VariantView,
};
use crate::text::strings_of;
use vstd::pervasive::unreached;
use vstd::prelude::*;

verus! {

/// A list of strings as the items of a JSON array.
pub open spec fn string_items(strings: Seq<Seq<char>>) -> Seq<Json> {
    Seq::new(strings.len(), |i: int| Json::String(strings[i]))
}

/// Whether nothing is written for `_meta`: it is absent, or it has no
/// secondary key and no private attribute.
pub open spec fn meta_is_empty(meta: Option<MetaView>) -> bool {
    match meta {
        None => true,
        Some(meta) => meta.secondary is None && (meta.private_attributes matches Some(names)
            ==> names.len() == 0),
    }
}

/// The members that are written under `_meta`: `secondary` where there is
/// one, and `privateAttributes` where the list has an entry.
pub open spec fn meta_members(meta: MetaView) -> Map<Seq<char>, Json> {
    let m = Map::<Seq<char>, Json>::empty();
    let m = match meta.secondary {
        Some(secondary) => m.insert("secondary"@, Json::String(secondary)),
        None => m,
    };
    match meta.private_attributes {
        Some(names) => if names.len() > 0 {
            m.insert("privateAttributes"@, Json::Array(string_items(names)))
        } else {
            m
        },
        None => m,
    }
}

/// The members that are written for a context of a single kind: its
/// attributes and its key; its name where it has one; `anonymous` where it
/// is true; and `_meta` where something is written under it. A member with a
/// meaning of its own stands in place of an attribute of the same name.
pub open spec fn single_members(c: SingleKindView) -> Map<Seq<char>, Json> {
    let m = c.attributes.insert("key"@, Json::String(c.key));
    let m = match c.name {
        Some(name) => m.insert("name"@, Json::String(name)),
        None => m,
    };
    let m = if c.anonymous == Some(true) {
        m.insert("anonymous"@, Json::Bool(true))
    } else {
        m
    };
    if meta_is_empty(c.meta) {
        m
    } else {
        m.insert("_meta"@, Json::Object(meta_members(c.meta->0)))
    }
}

/// The members that are written for a context that states its kind.
pub open spec fn standalone_members(s: StandaloneView) -> Map<Seq<char>, Json> {
    single_members(s.context).insert("kind"@, Json::String(s.kind))
}

/// Each context of a multi-context as a member: its kind, and the object
/// that is written for it.
pub open spec fn nested_members(s: Seq<(Seq<char>, SingleKindView)>) -> Seq<(Seq<char>, Json)> {
    Seq::new(s.len(), |i: int| (s[i].0, Json::Object(single_members(s[i].1))))
}

/// The members that are written for a multi-context: each context under its
/// kind, and the kind of the record itself.
pub open spec fn multi_members(m: MultiKindView) -> Map<Seq<char>, Json> {
    pairs_to_map(nested_members(m.contexts)).insert("kind"@, Json::String(m.kind))
}

/// The document that is written for a record. The record of a legacy user is
/// never written: for it this function says nothing.
pub open spec fn emitted(v: VariantView) -> Json {
    match v {
        VariantView::Multi(m) => Json::Object(multi_members(m)),
        VariantView::Single(s) => Json::Object(standalone_members(s)),
        VariantView::Implicit(_) => arbitrary(),
    }
}

/// A list of strings as a JSON array.
fn array_of(strings: &Vec<String>) -> (r: JsonValue)
    ensures
        r@ == Json::Array(string_items(strings_of(strings@))),
{
    let mut items: Vec<JsonValue> = Vec::new();
    let mut i: usize = 0;
    while i < strings.len()
        invariant
            i <= strings@.len(),
            items@.len() == i,
            forall|j: int| 0 <= j < i ==> (#[trigger] items@[j])@ == Json::String(strings@[j]@),
        decreases strings@.len() - i,
    {
        items.push(JsonValue::String(strings[i].clone()));
        i += 1;
    }
    let r = JsonValue::Array(items);
    assert(r@->Array_0 =~= string_items(strings_of(strings@)));
    r
}

impl Meta {
    /// The object that is written under `_meta`.
    pub fn serialize(&self) -> (r: JsonObject)
        ensures
            r@ == meta_members(self@),
    {
        let mut object = JsonObject::new();
        if let Some(secondary) = &self.secondary {
            object.insert("secondary".to_owned(), JsonValue::String(secondary.clone()));
        }
        if let Some(names) = &self.private_attributes {
            if names.len() > 0 {
                object.insert("privateAttributes".to_owned(), array_of(names));
            }
        }
        object
    }

    /// Whether nothing is written for `meta`.
    pub fn is_empty(meta: &Option<Meta>) -> (b: bool)
        ensures
            b == meta_is_empty(opt_meta(*meta)),
    {
        match meta {
            None => true,
            Some(meta) => meta.secondary.is_none() && match &meta.private_attributes {
                Some(names) => names.len() == 0,
                None => true,
            },
        }
    }
}

impl SingleKindContext {
    /// The object that is written for this context.
    pub fn serialize(&self) -> (r: JsonObject)
        ensures
            r@ == single_members(self@),
    {
        let mut object = self.attributes.clone();
        object.insert("key".to_owned(), JsonValue::String(self.key.clone()));
        if let Some(name) = &self.name {
            object.insert("name".to_owned(), JsonValue::String(name.clone()));
        }
        if let Some(true) = self.anonymous {
            object.insert("anonymous".to_owned(), JsonValue::Bool(true));
        }
        if !Meta::is_empty(&self.meta) {
            if let Some(meta) = &self.meta {
                object.insert("_meta".to_owned(), JsonValue::Object(meta.serialize()));
            }
        }
        object
    }
}

impl SingleKindStandaloneContext {
    /// The object that is written for this context.
    pub fn serialize(&self) -> (r: JsonObject)
        ensures
            r@ == standalone_members(self@),
    {
        let mut object = self.context.serialize();
        object.insert("kind".to_owned(), JsonValue::String(self.kind.clone().into_string()));
        object
    }
}

impl MultiKindContext {
    /// The object that is written for this multi-context.
    pub fn serialize(&self) -> (r: JsonObject)
        ensures
            r@ == multi_members(self@),
    {
        let mut object = JsonObject::new();
        let ghost members = nested_members(self@.contexts);
        assert(members.subrange(0, 0) =~= Seq::empty());
        let mut i: usize = 0;
        while i < self.contexts.len()
            invariant
                i <= self.contexts@.len(),
                members == nested_members(nested_of(self.contexts@)),
                object@ == pairs_to_map(members.subrange(0, i as int)),
            decreases self.contexts@.len() - i,
        {
            let kind = self.contexts[i].0.clone().into_string();
            let nested = self.contexts[i].1.serialize();
            proof {
                assert(members.subrange(0, i + 1).drop_last() =~= members.subrange(0, i as int));
                assert(members.subrange(0, i + 1).last() == (kind@, Json::Object(nested@)));
            }
            object.insert(kind, JsonValue::Object(nested));
            i += 1;
        }
        assert(members.subrange(0, members.len() as int) =~= members);
        object.insert("kind".to_owned(), JsonValue::String(self.kind.clone()));
        object
    }
}

impl ContextVariant {
    /// The document that is written for this record. The record of a legacy
    /// user is never written: a legacy user is read, built into a context,
    /// and written as a context of the kind `user`.
    pub fn serialize(&self) -> (r: JsonValue)
        requires
            !(self is Implicit),
        ensures
            r@ == emitted(self@),
    {
        match self {
            ContextVariant::Multi(multi) => JsonValue::Object(multi.serialize()),
            ContextVariant::Single(single) => JsonValue::Object(single.serialize()),
            ContextVariant::Implicit(_) => unreached(),
        }
    }
}

} // verus!
