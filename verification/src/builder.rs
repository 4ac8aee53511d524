//! Builders: the one way to make a context.

use crate::context::{
    clone_names, names_of, singles_of, AttributeName, Context, ContextView, SingleView,
};
use crate::error::BuildError;
use crate::json::{
    distinct_names, pairs_to_map, AttributeValue, Json, JsonObject, JsonValue,
};
use crate::kind::{kind_error, Kind};
use crate::text::{clone_opt_string, is_reserved_name, lemma_wire_names, opt_chars, str_eq};
use vstd::prelude::*;

verus! {

/// The mathematical value of the builder of a context of a single kind: what
/// has been set so far.
pub struct BuilderView {
    pub kind: Seq<char>,
    pub key: Seq<char>,
    pub name: Option<Seq<char>>,
    pub anonymous: bool,
    pub secondary: Option<Seq<char>>,
    pub attributes: Map<Seq<char>, Json>,
    pub private_attributes: Seq<Seq<char>>,
    pub allow_empty_key: bool,
}

impl BuilderView {
    /// A builder for a context with the key `key`, the kind `user` and
    /// nothing else.
    pub open spec fn new(key: Seq<char>) -> BuilderView {
        BuilderView {
            kind: "user"@,
            key,
            name: None,
            anonymous: false,
            secondary: None,
            attributes: Map::empty(),
            private_attributes: Seq::empty(),
            allow_empty_key: false,
        }
    }

    /// Setting the attribute `name` to `value`. Under a reserved name the
    /// value goes to the member of that name where it has that member's
    /// type, and nowhere otherwise: a string sets the kind, the key or the
    /// name, null takes the name away, a boolean sets `anonymous`, and
    /// nothing can be set as `_meta`. Under any other name the value becomes
    /// an attribute.
    pub open spec fn set_value(self, name: Seq<char>, value: Json) -> BuilderView {
        if name == "kind"@ {
            match value {
                Json::String(s) => BuilderView { kind: s, ..self },
                _ => self,
            }
        } else if name == "key"@ {
            match value {
                Json::String(s) => BuilderView { key: s, ..self },
                _ => self,
            }
        } else if name == "name"@ {
            match value {
                Json::String(s) => BuilderView { name: Some(s), ..self },
                Json::Null => BuilderView { name: None, ..self },
                _ => self,
            }
        } else if name == "anonymous"@ {
            match value {
                Json::Bool(b) => BuilderView { anonymous: b, ..self },
                _ => self,
            }
        } else if name == "_meta"@ {
            self
        } else {
            BuilderView { attributes: self.attributes.insert(name, value), ..self }
        }
    }

    /// Why no context comes of this builder, if none does: the kind is empty,
    /// `kind` or `multi`, or the key is empty without leave.
    pub open spec fn build_error(self) -> Option<BuildError> {
        if kind_error(self.kind) is Some {
            Some(BuildError::InvalidKind(kind_error(self.kind)->0))
        } else if self.kind == "multi"@ {
            Some(BuildError::MultiKind)
        } else if !self.allow_empty_key && self.key.len() == 0 {
            Some(BuildError::EmptyKey)
        } else {
            None
        }
    }

    /// The context that comes of this builder where `build_error` is `None`.
    /// A list of private attributes without entries is no list.
    pub open spec fn context(self) -> SingleView {
        SingleView {
            kind: self.kind,
            key: self.key,
            name: self.name,
            anonymous: self.anonymous,
            attributes: self.attributes,
            secondary: self.secondary,
            private_attributes: if self.private_attributes.len() == 0 {
                None
            } else {
                Some(self.private_attributes)
            },
        }
    }

    /// What `build` returns: the error, or else the context.
    pub open spec fn build(self) -> Result<SingleView, BuildError> {
        match self.build_error() {
            Some(e) => Err(e),
            None => Ok(self.context()),
        }
    }
}

/// The builder of a context of a single kind.
#[derive(Debug)]
pub struct ContextBuilder {
    kind: String,
    key: String,
    name: Option<String>,
    anonymous: bool,
    secondary: Option<String>,
    attributes: JsonObject,
    private_attributes: Vec<AttributeName>,
    allow_empty_key: bool,
}

impl ContextBuilder {
    #[verifier::type_invariant]
    spec fn no_reserved_attribute(&self) -> bool {
        forall|k: Seq<char>| is_reserved_name(k) ==> !self.attributes@.contains_key(k)
    }

    /// What has been set so far.
    pub closed spec fn view(&self) -> BuilderView {
        BuilderView {
            kind: self.kind@,
            key: self.key@,
            name: opt_chars(self.name),
            anonymous: self.anonymous,
            secondary: opt_chars(self.secondary),
            attributes: self.attributes@,
            private_attributes: names_of(self.private_attributes@),
            allow_empty_key: self.allow_empty_key,
        }
    }

    /// A builder for a context with the key `key` and the kind `user`.
    pub fn new(key: &str) -> (r: Self)
        ensures
            r@ == BuilderView::new(key@),
    {
        let r = ContextBuilder {
            kind: "user".to_owned(),
            key: key.to_owned(),
            name: None,
            anonymous: false,
            secondary: None,
            attributes: JsonObject::new(),
            private_attributes: Vec::new(),
            allow_empty_key: false,
        };
        assert(names_of(r.private_attributes@) =~= Seq::empty());
        r
    }

    /// Sets the kind. Whether it is a kind is found out by `build`.
    pub fn kind(&mut self, kind: &str) -> (r: &mut Self)
        ensures
            r@ == (BuilderView { kind: kind@, ..old(self)@ }),
            *final(self) == *final(r),
    {
        proof {
            use_type_invariant(&*self);
        }
        self.kind = kind.to_owned();
        self
    }

    /// Sets the key.
    pub fn key(&mut self, key: &str) -> (r: &mut Self)
        ensures
            r@ == (BuilderView { key: key@, ..old(self)@ }),
            *final(self) == *final(r),
    {
        proof {
            use_type_invariant(&*self);
        }
        self.key = key.to_owned();
        self
    }

    /// Sets the name.
    pub fn name(&mut self, name: &str) -> (r: &mut Self)
        ensures
            r@ == (BuilderView { name: Some(name@), ..old(self)@ }),
            *final(self) == *final(r),
    {
        proof {
            use_type_invariant(&*self);
        }
        self.name = Some(name.to_owned());
        self
    }

    /// Sets whether the context is anonymous.
    pub fn anonymous(&mut self, value: bool) -> (r: &mut Self)
        ensures
            r@ == (BuilderView { anonymous: value, ..old(self)@ }),
            *final(self) == *final(r),
    {
        proof {
            use_type_invariant(&*self);
        }
        self.anonymous = value;
        self
    }

    /// Sets the secondary key.
    pub fn secondary(&mut self, value: &str) -> (r: &mut Self)
        ensures
            r@ == (BuilderView { secondary: Some(value@), ..old(self)@ }),
            *final(self) == *final(r),
    {
        proof {
            use_type_invariant(&*self);
        }
        self.secondary = Some(value.to_owned());
        self
    }

    /// Lets `build` accept an empty key, as a legacy user may have one.
    pub fn allow_empty_key(&mut self) -> (r: &mut Self)
        ensures
            r@ == (BuilderView { allow_empty_key: true, ..old(self)@ }),
            *final(self) == *final(r),
    {
        proof {
            use_type_invariant(&*self);
        }
        self.allow_empty_key = true;
        self
    }

    /// Sets the attribute `name` to `value`; see `BuilderView::set_value` for
    /// what a reserved name does.
    pub fn set_value(&mut self, name: &str, value: AttributeValue) -> (r: &mut Self)
        ensures
            r@ == old(self)@.set_value(name@, value@),
            *final(self) == *final(r),
    {
        proof {
            use_type_invariant(&*self);
            lemma_wire_names();
        }
        if str_eq(name, "kind") {
            if let JsonValue::String(s) = value {
                self.kind = s;
            }
        } else if str_eq(name, "key") {
            if let JsonValue::String(s) = value {
                self.key = s;
            }
        } else if str_eq(name, "name") {
            match value {
                JsonValue::String(s) => {
                    self.name = Some(s);
                },
                JsonValue::Null => {
                    self.name = None;
                },
                _ => {},
            }
        } else if str_eq(name, "anonymous") {
            if let JsonValue::Bool(b) = value {
                self.anonymous = b;
            }
        } else if str_eq(name, "_meta") {
        } else {
            let mut attributes = JsonObject::new();
            core::mem::swap(&mut self.attributes, &mut attributes);
            attributes.insert(name.to_owned(), value);
            core::mem::swap(&mut self.attributes, &mut attributes);
        }
        self
    }

    /// Sets the attribute `name` to the string `value`.
    pub fn set_string(&mut self, name: &str, value: &str) -> (r: &mut Self)
        ensures
            r@ == old(self)@.set_value(name@, Json::String(value@)),
            *final(self) == *final(r),
    {
        self.set_value(name, JsonValue::String(value.to_owned()))
    }

    /// Sets the attribute `name` to the boolean `value`.
    pub fn set_bool(&mut self, name: &str, value: bool) -> (r: &mut Self)
        ensures
            r@ == old(self)@.set_value(name@, Json::Bool(value)),
            *final(self) == *final(r),
    {
        self.set_value(name, JsonValue::Bool(value))
    }

    /// Adds `name` at the end of the list of private attributes.
    pub fn add_private_attribute(&mut self, name: AttributeName) -> (r: &mut Self)
        ensures
            r@ == (BuilderView {
                private_attributes: old(self)@.private_attributes.push(name@),
                ..old(self)@
            }),
            *final(self) == *final(r),
    {
        proof {
            use_type_invariant(&*self);
        }
        let ghost before = self.private_attributes@;
        let mut names: Vec<AttributeName> = Vec::new();
        core::mem::swap(&mut self.private_attributes, &mut names);
        names.push(name);
        core::mem::swap(&mut self.private_attributes, &mut names);
        assert(names_of(self.private_attributes@) =~= names_of(before).push(name@));
        self
    }

    /// The context that has been described, or the reason why it is none.
    /// The builder stays as it is.
    pub fn build(&self) -> (r: Result<Context, BuildError>)
        ensures
            match r {
                Ok(context) => self@.build() == Ok::<SingleView, BuildError>(context@.top())
                    && context@ is Single && context@.wf(),
                Err(e) => self@.build() == Err::<SingleView, BuildError>(e),
            },
    {
        proof {
            use_type_invariant(self);
            lemma_wire_names();
        }
        let kind = match Kind::new(self.kind.clone()) {
            Ok(kind) => kind,
            Err(e) => {
                return Err(BuildError::InvalidKind(e));
            },
        };
        if kind.is_multi() {
            return Err(BuildError::MultiKind);
        }
        if !self.allow_empty_key && self.key.as_str().is_empty() {
            return Err(BuildError::EmptyKey);
        }
        let private_attributes = if self.private_attributes.len() == 0 {
            None
        } else {
            Some(clone_names(&self.private_attributes))
        };
        Ok(
            Context::single(
                kind,
                self.key.clone(),
                clone_opt_string(&self.name),
                self.anonymous,
                self.attributes.clone(),
                clone_opt_string(&self.secondary),
                private_attributes,
            ),
        )
    }
}

/// The contexts of a sequence, each under its own kind.
pub open spec fn keyed(s: Seq<SingleView>) -> Seq<(Seq<char>, SingleView)> {
    Seq::new(s.len(), |i: int| (s[i].kind, s[i]))
}

/// What the builder of a multi-context returns for the contexts `s`: an
/// error where there is none or where two have the same kind, and else the
/// multi-context that holds each under its kind.
pub open spec fn multi_build(s: Seq<SingleView>) -> Result<ContextView, BuildError> {
    if s.len() == 0 {
        Err(BuildError::NoContexts)
    } else if !distinct_names(keyed(s)) {
        Err(BuildError::DuplicateKind)
    } else {
        Ok(ContextView::Multi(pairs_to_map(keyed(s))))
    }
}

/// The builder of a multi-context.
#[derive(Debug)]
pub struct MultiContextBuilder {
    contexts: Vec<Context>,
}

impl MultiContextBuilder {
    #[verifier::type_invariant]
    spec fn holds_singles(&self) -> bool {
        forall|i: int|
            0 <= i < self.contexts@.len() ==> (#[trigger] self.contexts@[i])@ is Single
                && self.contexts@[i]@.wf()
    }

    /// The contexts that were added, in the order in which they were added.
    pub closed spec fn view(&self) -> Seq<SingleView> {
        Seq::new(self.contexts@.len(), |i: int| self.contexts@[i]@.top())
    }

    /// A builder to which no context has been added.
    pub fn new() -> (r: Self)
        ensures
            r@ == Seq::<SingleView>::empty(),
    {
        let r = MultiContextBuilder { contexts: Vec::new() };
        assert(r@ =~= Seq::<SingleView>::empty());
        r
    }

    /// Adds a context. Of a multi-context, the contexts that it holds are
    /// added in its place, in an order that is not specified.
    pub fn add_context(&mut self, context: Context) -> (r: &mut Self)
        ensures
            *final(self) == *final(r),
            match context@ {
                ContextView::Single(s) => r@ == old(self)@.push(s),
                ContextView::Multi(m) => {
                    let added = r@.subrange(old(self)@.len() as int, r@.len() as int);
                    &&& old(self)@.len() <= r@.len()
                    &&& r@.subrange(0, old(self)@.len() as int) == old(self)@
                    &&& distinct_names(keyed(added))
                    &&& pairs_to_map(keyed(added)) == m
                },
            },
    {
        proof {
            use_type_invariant(&*self);
        }
        let ghost before = self@;
        let ghost was = self.contexts@;
        let mut contexts: Vec<Context> = Vec::new();
        core::mem::swap(&mut self.contexts, &mut contexts);
        if context.is_multi() {
            let mut nested = context.into_nested();
            let ghost extra = nested@;
            contexts.append(&mut nested);
            proof {
                assert(contexts@ =~= was + extra);
                assert forall|i: int| 0 <= i < contexts@.len() implies (#[trigger] contexts@[i])@ is Single
                    && contexts@[i]@.wf() by {
                    if i < was.len() {
                        assert(contexts@[i] == was[i]);
                    } else {
                        assert(contexts@[i] == extra[i - was.len()]);
                    }
                }
            }
            core::mem::swap(&mut self.contexts, &mut contexts);
            proof {
                let added = self@.subrange(before.len() as int, self@.len() as int);
                assert(self@.subrange(0, before.len() as int) =~= before);
                assert(keyed(added) =~= singles_of(extra));
            }
        } else {
            contexts.push(context);
            proof {
                assert forall|i: int| 0 <= i < contexts@.len() implies (#[trigger] contexts@[i])@ is Single
                    && contexts@[i]@.wf() by {
                    if i < was.len() {
                        assert(contexts@[i] == was[i]);
                    }
                }
            }
            core::mem::swap(&mut self.contexts, &mut contexts);
            assert(self@ =~= before.push(context@->Single_0));
        }
        self
    }

    /// The multi-context that holds the contexts that were added, or the
    /// reason why there is none. The builder stays as it is.
    pub fn build(&self) -> (r: Result<Context, BuildError>)
        ensures
            match r {
                Ok(context) => multi_build(self@) == Ok::<ContextView, BuildError>(context@)
                    && context@.wf(),
                Err(e) => multi_build(self@) == Err::<ContextView, BuildError>(e),
            },
    {
        proof {
            use_type_invariant(self);
        }
        let n = self.contexts.len();
        if n == 0 {
            return Err(BuildError::NoContexts);
        }
        let ghost pairs = keyed(self@);
        let mut i: usize = 0;
        while i < n
            invariant
                n == self.contexts@.len(),
                i <= n,
                pairs == keyed(self@),
                forall|a: int, b: int| 0 <= a < b < n && a < i ==> pairs[a].0 != pairs[b].0,
            decreases n - i,
        {
            let mut j: usize = i + 1;
            while j < n
                invariant
                    n == self.contexts@.len(),
                    i < j <= n,
                    pairs == keyed(self@),
                    forall|b: int| i < b < j ==> pairs[i as int].0 != pairs[b].0,
                decreases n - j,
            {
                if str_eq(self.contexts[i].kind().as_str(), self.contexts[j].kind().as_str()) {
                    assert(pairs[i as int].0 == pairs[j as int].0);
                    return Err(BuildError::DuplicateKind);
                }
                j += 1;
            }
            i += 1;
        }
        assert(distinct_names(pairs));
        let mut copies: Vec<Context> = Vec::new();
        let mut i: usize = 0;
        while i < n
            invariant
                n == self.contexts@.len(),
                i <= n,
                copies@.len() == i,
                forall|j: int|
                    0 <= j < n ==> (#[trigger] self.contexts@[j])@ is Single
                        && self.contexts@[j]@.wf(),
                forall|j: int| 0 <= j < i ==> (#[trigger] copies@[j])@ == self.contexts@[j]@,
            decreases n - i,
        {
            copies.push(self.contexts[i].clone());
            i += 1;
        }
        assert(singles_of(copies@) =~= pairs);
        Ok(Context::multi(copies))
    }
}

} // verus!
