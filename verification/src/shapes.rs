//! The three shapes in which a context is written as JSON, as records.

use crate::context::{opt_names_of, AttributeName};
use crate::json::{Json, JsonObject};
use crate::kind::Kind;
use crate::text::{opt_chars, opt_strings_of};
use vstd::prelude::*;

verus! {

/// What stands under `_meta` in a context of a single kind.
#[derive(Debug)]
pub struct Meta {
    pub secondary: Option<String>,
    pub private_attributes: Option<Vec<String>>,
}

/// The mathematical value of a `Meta`.
pub struct MetaView {
    pub secondary: Option<Seq<char>>,
    pub private_attributes: Option<Seq<Seq<char>>>,
}

impl Meta {
    pub open spec fn view(&self) -> MetaView {
        MetaView {
            secondary: opt_chars(self.secondary),
            private_attributes: opt_strings_of(self.private_attributes),
        }
    }
}

/// The mathematical value of an optional `Meta`.
pub open spec fn opt_meta(meta: Option<Meta>) -> Option<MetaView> {
    match meta {
        Some(meta) => Some(meta@),
        None => None,
    }
}

/// A context of a single kind as it stands inside a multi-context, where its
/// kind is the name under which it stands. `attributes` holds every member
/// that has no meaning of its own.
#[derive(Debug)]
pub struct SingleKindContext {
    pub key: String,
    pub name: Option<String>,
    pub anonymous: Option<bool>,
    pub attributes: JsonObject,
    pub meta: Option<Meta>,
}

/// The mathematical value of a `SingleKindContext`.
pub struct SingleKindView {
    pub key: Seq<char>,
    pub name: Option<Seq<char>>,
    pub anonymous: Option<bool>,
    pub attributes: Map<Seq<char>, Json>,
    pub meta: Option<MetaView>,
}

impl SingleKindContext {
    pub open spec fn view(&self) -> SingleKindView {
        SingleKindView {
            key: self.key@,
            name: opt_chars(self.name),
            anonymous: self.anonymous,
            attributes: self.attributes@,
            meta: opt_meta(self.meta),
        }
    }
}

/// A context of a single kind that stands alone, and so states its kind.
#[derive(Debug)]
pub struct SingleKindStandaloneContext {
    pub kind: Kind,
    pub context: SingleKindContext,
}

/// The mathematical value of a `SingleKindStandaloneContext`.
pub struct StandaloneView {
    pub kind: Seq<char>,
    pub context: SingleKindView,
}

impl SingleKindStandaloneContext {
    pub open spec fn view(&self) -> StandaloneView {
        StandaloneView { kind: self.kind@, context: self.context@ }
    }
}

/// A multi-context: the kind `multi`, and contexts of a single kind, each
/// with the kind under which it stands.
#[derive(Debug)]
pub struct MultiKindContext {
    pub kind: String,
    pub contexts: Vec<(Kind, SingleKindContext)>,
}

/// The mathematical value of a `MultiKindContext`, with the contexts in the
/// order of the record.
pub struct MultiKindView {
    pub kind: Seq<char>,
    pub contexts: Seq<(Seq<char>, SingleKindView)>,
}

/// The kinds and mathematical values of the contexts of a record, in order.
pub open spec fn nested_of(v: Seq<(Kind, SingleKindContext)>) -> Seq<(Seq<char>, SingleKindView)> {
    Seq::new(v.len(), |i: int| (v[i].0@, v[i].1@))
}

impl MultiKindContext {
    pub open spec fn view(&self) -> MultiKindView {
        MultiKindView { kind: self.kind@, contexts: nested_of(self.contexts@) }
    }
}

/// A user as it was written before contexts had kinds. It is read, and never
/// written.
#[derive(Debug)]
pub struct UserFormat {
    pub key: String,
    pub name: Option<String>,
    pub secondary: Option<String>,
    pub anonymous: Option<bool>,
    pub custom: Option<JsonObject>,
    pub private_attribute_names: Option<Vec<AttributeName>>,
    pub first_name: Option<String>,
    pub last_name: Option<String>,
    pub avatar: Option<String>,
    pub email: Option<String>,
    pub country: Option<String>,
    pub ip: Option<String>,
}

/// The mathematical value of a `UserFormat`.
pub struct UserView {
    pub key: Seq<char>,
    pub name: Option<Seq<char>>,
    pub secondary: Option<Seq<char>>,
    pub anonymous: Option<bool>,
    pub custom: Option<Map<Seq<char>, Json>>,
    pub private_attribute_names: Option<Seq<Seq<char>>>,
    pub first_name: Option<Seq<char>>,
    pub last_name: Option<Seq<char>>,
    pub avatar: Option<Seq<char>>,
    pub email: Option<Seq<char>>,
    pub country: Option<Seq<char>>,
    pub ip: Option<Seq<char>>,
}

/// The members of an optional object.
pub open spec fn opt_object(object: Option<JsonObject>) -> Option<Map<Seq<char>, Json>> {
    match object {
        Some(object) => Some(object@),
        None => None,
    }
}

impl UserFormat {
    pub open spec fn view(&self) -> UserView {
        UserView {
            key: self.key@,
            name: opt_chars(self.name),
            secondary: opt_chars(self.secondary),
            anonymous: self.anonymous,
            custom: opt_object(self.custom),
            private_attribute_names: opt_names_of(self.private_attribute_names),
            first_name: opt_chars(self.first_name),
            last_name: opt_chars(self.last_name),
            avatar: opt_chars(self.avatar),
            email: opt_chars(self.email),
            country: opt_chars(self.country),
            ip: opt_chars(self.ip),
        }
    }
}

/// A context in one of the three shapes in which it can be written.
#[derive(Debug)]
pub enum ContextVariant {
    /// The kind is `multi`: contexts of a single kind, each under its kind.
    Multi(MultiKindContext),
    /// A kind is stated, and it is not `multi`.
    Single(SingleKindStandaloneContext),
    /// No kind is stated: a legacy user.
    Implicit(UserFormat),
}

/// The mathematical value of a `ContextVariant`.
pub enum VariantView {
    Multi(MultiKindView),
    Single(StandaloneView),
    Implicit(UserView),
}

impl ContextVariant {
    pub open spec fn view(&self) -> VariantView {
        match self {
            ContextVariant::Multi(m) => VariantView::Multi(m@),
            ContextVariant::Single(s) => VariantView::Single(s@),
            ContextVariant::Implicit(u) => VariantView::Implicit(u@),
        }
    }
}

} // verus!
