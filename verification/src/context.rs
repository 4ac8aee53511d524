//! Contexts: what a flag is evaluated for.

use crate::json::{
    distinct_names, has_name, lemma_pairs_members, lemma_pairs_names, pairs_to_map, Json,
    JsonObject, JsonValue,
};
use crate::kind::{valid_kind, Kind};
use crate::text::{
    clone_opt_string, is_reserved_name, lemma_wire_names, opt_chars, opt_string_eq, str_eq,
    strings_of,
};
use vstd::prelude::*;

verus! {

/// The name of an attribute, as it is written in a list of private
/// attributes.
#[derive(Debug)]
pub struct AttributeName {
    name: String,
}

impl AttributeName {
    /// The characters of the name.
    pub closed spec fn view(&self) -> Seq<char> {
        self.name@
    }

    /// The attribute name written as `name`.
    pub fn new(name: String) -> (r: Self)
        ensures
            r@ == name@,
    {
        AttributeName { name }
    }

    /// The name as a string slice.
    pub fn as_str(&self) -> (r: &str)
        ensures
            r@ == self@,
    {
        self.name.as_str()
    }

    /// The name as a string.
    pub fn into_string(self) -> (r: String)
        ensures
            r@ == self@,
    {
        self.name
    }
}

impl Clone for AttributeName {
    fn clone(&self) -> (r: Self)
        ensures
            r@ == self@,
    {
        AttributeName { name: self.name.clone() }
    }
}

/// The characters of each attribute name of a sequence, in order.
pub open spec fn names_of(v: Seq<AttributeName>) -> Seq<Seq<char>> {
    Seq::new(v.len(), |i: int| v[i]@)
}

/// The characters of each attribute name of an optional list, in order.
pub open spec fn opt_names_of(v: Option<Vec<AttributeName>>) -> Option<Seq<Seq<char>>> {
    match v {
        Some(v) => Some(names_of(v@)),
        None => None,
    }
}

/// A copy of a list of attribute names.
pub fn clone_names(v: &Vec<AttributeName>) -> (r: Vec<AttributeName>)
    ensures
        names_of(r@) == names_of(v@),
{
    let mut names: Vec<AttributeName> = Vec::new();
    let mut i: usize = 0;
    while i < v.len()
        invariant
            i <= v@.len(),
            names@.len() == i,
            forall|j: int| 0 <= j < i ==> names@[j]@ == v@[j]@,
        decreases v@.len() - i,
    {
        names.push(v[i].clone());
        i += 1;
    }
    assert(names_of(names@) =~= names_of(v@));
    names
}

/// The attribute names that a list of strings spells.
pub fn names_from(strings: &Vec<String>) -> (r: Vec<AttributeName>)
    ensures
        names_of(r@) == strings_of(strings@),
{
    let mut out: Vec<AttributeName> = Vec::new();
    let mut i: usize = 0;
    while i < strings.len()
        invariant
            i <= strings@.len(),
            out@.len() == i,
            forall|j: int| 0 <= j < i ==> (#[trigger] out@[j])@ == strings@[j]@,
        decreases strings@.len() - i,
    {
        out.push(AttributeName::new(strings[i].clone()));
        i += 1;
    }
    assert(names_of(out@) =~= strings_of(strings@));
    out
}

/// The strings that spell a list of attribute names.
pub fn strings_from(names: &Vec<AttributeName>) -> (r: Vec<String>)
    ensures
        strings_of(r@) == names_of(names@),
{
    let mut out: Vec<String> = Vec::new();
    let mut i: usize = 0;
    while i < names.len()
        invariant
            i <= names@.len(),
            out@.len() == i,
            forall|j: int| 0 <= j < i ==> (#[trigger] out@[j])@ == names@[j]@,
        decreases names@.len() - i,
    {
        out.push(names[i].clone().into_string());
        i += 1;
    }
    assert(strings_of(out@) =~= names_of(names@));
    out
}

/// The mathematical value of a context of a single kind.
pub struct SingleView {
    pub kind: Seq<char>,
    pub key: Seq<char>,
    pub name: Option<Seq<char>>,
    pub anonymous: bool,
    pub attributes: Map<Seq<char>, Json>,
    pub secondary: Option<Seq<char>>,
    pub private_attributes: Option<Seq<Seq<char>>>,
}

impl SingleView {
    /// What holds of every context of a single kind: its kind is a kind other
    /// than `multi`, no attribute has a reserved name, and a list of private
    /// attributes is present only if it has an entry.
    ///
    /// The key may be empty: a context that was read from a legacy user may
    /// have an empty key.
    pub open spec fn wf(self) -> bool {
        &&& valid_kind(self.kind)
        &&& self.kind != "multi"@
        &&& forall|k: Seq<char>| is_reserved_name(k) ==> !self.attributes.contains_key(k)
        &&& self.private_attributes matches Some(p) ==> p.len() > 0
    }
}

/// The mathematical value of a context: either a context of a single kind, or
/// a multi-context, which holds one context of a single kind for each of its
/// kinds.
pub enum ContextView {
    Single(SingleView),
    Multi(Map<Seq<char>, SingleView>),
}

impl ContextView {
    /// What holds of every context. A multi-context holds at least one
    /// context, and holds each under that context's own kind.
    pub open spec fn wf(self) -> bool {
        match self {
            ContextView::Single(s) => s.wf(),
            ContextView::Multi(m) => {
                &&& exists|k: Seq<char>| m.contains_key(k)
                &&& forall|k: Seq<char>| #[trigger]
                    m.contains_key(k) ==> m[k].wf() && m[k].kind == k
            },
        }
    }

    /// The context of the kind `kind` that this context is or holds.
    pub open spec fn of_kind(self, kind: Seq<char>) -> Option<SingleView> {
        match self {
            ContextView::Single(s) => if s.kind == kind {
                Some(s)
            } else {
                None
            },
            ContextView::Multi(m) => if m.contains_key(kind) {
                Some(m[kind])
            } else {
                None
            },
        }
    }

    /// The members that the context has at its top level. A multi-context has
    /// the kind `multi` there and nothing else.
    pub open spec fn top(self) -> SingleView {
        match self {
            ContextView::Single(s) => s,
            ContextView::Multi(_) => SingleView {
                kind: "multi"@,
                key: Seq::empty(),
                name: None,
                anonymous: false,
                attributes: Map::empty(),
                secondary: None,
                private_attributes: None,
            },
        }
    }
}

/// The kinds and mathematical values of a sequence of contexts, in order.
pub open spec fn singles_of(v: Seq<Context>) -> Seq<(Seq<char>, SingleView)> {
    Seq::new(v.len(), |i: int| (v[i]@.top().kind, v[i]@.top()))
}

/// A context: a kind and a key, with a name, attributes and more. A
/// multi-context holds several contexts, one for each of its kinds.
#[derive(Debug)]
pub struct Context {
    kind: Kind,
    key: String,
    name: Option<String>,
    anonymous: bool,
    attributes: JsonObject,
    secondary: Option<String>,
    private_attributes: Option<Vec<AttributeName>>,
    contexts: Option<Vec<Context>>,
}

impl Context {
    spec fn fields(&self) -> SingleView {
        SingleView {
            kind: self.kind@,
            key: self.key@,
            name: opt_chars(self.name),
            anonymous: self.anonymous,
            attributes: self.attributes@,
            secondary: opt_chars(self.secondary),
            private_attributes: opt_names_of(self.private_attributes),
        }
    }

    spec fn nested(v: Seq<Context>) -> Seq<(Seq<char>, SingleView)> {
        Seq::new(v.len(), |i: int| (v[i].kind@, v[i].fields()))
    }

    #[verifier::type_invariant]
    spec fn is_valid(&self) -> bool {
        match self.contexts {
            None => self.fields().wf(),
            Some(v) => {
                &&& self.fields() == (ContextView::Multi(Map::empty())).top()
                &&& v@.len() > 0
                &&& distinct_names(Self::nested(v@))
                &&& forall|i: int|
                    0 <= i < v@.len() ==> (#[trigger] v@[i]).contexts is None && v@[i].fields().wf()
            },
        }
    }

    /// The mathematical value of this context.
    pub closed spec fn view(&self) -> ContextView {
        match self.contexts {
            None => ContextView::Single(self.fields()),
            Some(v) => ContextView::Multi(pairs_to_map(Self::nested(v@))),
        }
    }

    proof fn lemma_valid(&self)
        requires
            self.is_valid(),
        ensures
            self@.wf(),
            self@.top() == self.fields(),
            self.contexts matches Some(v) ==> Self::nested(v@) == singles_of(v@),
    {
        if let Some(v) = self.contexts {
            let s = Self::nested(v@);
            lemma_pairs_names(s);
            lemma_pairs_members(s);
            assert(self@->Multi_0.contains_key(s[0].0));
            assert forall|k: Seq<char>| #[trigger]
                self@->Multi_0.contains_key(k) implies self@->Multi_0[k].wf()
                && self@->Multi_0[k].kind == k by {
                let i = choose|i: int| 0 <= i < s.len() && #[trigger] s[i].0 == k;
                assert(v@[i].fields().wf());
            }
            assert(Self::nested(v@) =~= singles_of(v@)) by {
                assert forall|i: int| 0 <= i < v@.len() implies Self::nested(v@)[i] == singles_of(
                    v@,
                )[i] by {
                    assert(v@[i].contexts is None);
                }
            }
        }
    }

    /// A context of a single kind with the given members.
    pub(crate) fn single(
        kind: Kind,
        key: String,
        name: Option<String>,
        anonymous: bool,
        attributes: JsonObject,
        secondary: Option<String>,
        private_attributes: Option<Vec<AttributeName>>,
    ) -> (r: Context)
        requires
            kind@ != "multi"@,
            forall|k: Seq<char>| is_reserved_name(k) ==> !attributes@.contains_key(k),
            private_attributes matches Some(p) ==> p@.len() > 0,
        ensures
            r@ == ContextView::Single(
                SingleView {
                    kind: kind@,
                    key: key@,
                    name: opt_chars(name),
                    anonymous,
                    attributes: attributes@,
                    secondary: opt_chars(secondary),
                    private_attributes: opt_names_of(private_attributes),
                },
            ),
            r@.wf(),
    {
        let _ = kind.as_str();
        Context {
            kind,
            key,
            name,
            anonymous,
            attributes,
            secondary,
            private_attributes,
            contexts: None,
        }
    }

    /// The multi-context that holds the given contexts.
    pub(crate) fn multi(contexts: Vec<Context>) -> (r: Context)
        requires
            contexts@.len() > 0,
            distinct_names(singles_of(contexts@)),
            forall|i: int| 0 <= i < contexts@.len() ==> (#[trigger] contexts@[i])@ is Single,
            forall|i: int| 0 <= i < contexts@.len() ==> (#[trigger] contexts@[i])@.wf(),
        ensures
            r@ == ContextView::Multi(pairs_to_map(singles_of(contexts@))),
            r@.wf(),
    {
        proof {
            lemma_wire_names();
            assert(Self::nested(contexts@) =~= singles_of(contexts@)) by {
                assert forall|i: int| 0 <= i < contexts@.len() implies Self::nested(
                    contexts@,
                )[i] == singles_of(contexts@)[i] by {
                    assert(contexts@[i]@ is Single);
                }
            }
            assert forall|i: int| 0 <= i < contexts@.len() implies (#[trigger] contexts@[i]).contexts is None
                && contexts@[i].fields().wf() by {
                assert(contexts@[i]@ is Single);
                assert(contexts@[i]@.wf());
            }
        }
        let r = Context {
            kind: Kind::multi(),
            key: String::new(),
            name: None,
            anonymous: false,
            attributes: JsonObject::new(),
            secondary: None,
            private_attributes: None,
            contexts: Some(contexts),
        };
        proof {
            r.lemma_valid();
        }
        r
    }

    /// Whether this is a multi-context.
    pub fn is_multi(&self) -> (b: bool)
        ensures
            b == (self@ is Multi),
            self@.wf(),
    {
        proof {
            use_type_invariant(self);
            self.lemma_valid();
            lemma_wire_names();
        }
        self.contexts.is_some()
    }

    /// The kind of this context; `multi` for a multi-context.
    pub fn kind(&self) -> (r: &Kind)
        ensures
            r@ == self@.top().kind,
            self@.wf(),
    {
        proof {
            use_type_invariant(self);
            self.lemma_valid();
        }
        &self.kind
    }

    /// The key of this context; empty for a multi-context.
    pub fn key(&self) -> (r: &str)
        ensures
            r@ == self@.top().key,
    {
        proof {
            use_type_invariant(self);
            self.lemma_valid();
        }
        self.key.as_str()
    }

    /// Takes the context apart into the members of its top level: kind, key,
    /// name, anonymous, attributes, secondary and private attributes.
    pub(crate) fn into_parts(self) -> (r: (
        Kind,
        String,
        Option<String>,
        bool,
        JsonObject,
        Option<String>,
        Option<Vec<AttributeName>>,
    ))
        ensures
            self@.wf(),
            self@.top() == (SingleView {
                kind: r.0@,
                key: r.1@,
                name: opt_chars(r.2),
                anonymous: r.3,
                attributes: r.4@,
                secondary: opt_chars(r.5),
                private_attributes: opt_names_of(r.6),
            }),
    {
        proof {
            use_type_invariant(&self);
            self.lemma_valid();
        }
        (
            self.kind,
            self.key,
            self.name,
            self.anonymous,
            self.attributes,
            self.secondary,
            self.private_attributes,
        )
    }

    /// The contexts that a multi-context holds; none for a context of a
    /// single kind.
    pub(crate) fn into_nested(self) -> (r: Vec<Context>)
        ensures
            self@.wf(),
            self@ is Single ==> r@.len() == 0,
            self@ matches ContextView::Multi(m) ==> {
                &&& r@.len() > 0
                &&& distinct_names(singles_of(r@))
                &&& pairs_to_map(singles_of(r@)) == m
            },
            forall|i: int| 0 <= i < r@.len() ==> (#[trigger] r@[i])@ is Single && r@[i]@.wf(),
    {
        proof {
            use_type_invariant(&self);
            self.lemma_valid();
        }
        match self.contexts {
            Some(v) => {
                proof {
                    assert forall|i: int| 0 <= i < v@.len() implies (#[trigger] v@[i])@ is Single
                        && v@[i]@.wf() by {
                        assert(v@[i].contexts is None);
                    }
                }
                v
            },
            None => Vec::new(),
        }
    }
}

impl Context {
    fn clone_fields(&self) -> (r: Context)
        requires
            self.fields().wf(),
        ensures
            r@ == ContextView::Single(self.fields()),
            r@.wf(),
    {
        let private_attributes = match &self.private_attributes {
            Some(names) => Some(clone_names(names)),
            None => None,
        };
        Context::single(
            self.kind.clone(),
            self.key.clone(),
            clone_opt_string(&self.name),
            self.anonymous,
            self.attributes.clone(),
            clone_opt_string(&self.secondary),
            private_attributes,
        )
    }
}

impl Clone for Context {
    /// A copy with the same mathematical value.
    fn clone(&self) -> (r: Self)
        ensures
            r@ == self@,
    {
        proof {
            use_type_invariant(self);
            self.lemma_valid();
        }
        match &self.contexts {
            None => self.clone_fields(),
            Some(v) => {
                let mut copies: Vec<Context> = Vec::new();
                let mut i: usize = 0;
                while i < v.len()
                    invariant
                        i <= v@.len(),
                        copies@.len() == i,
                        forall|j: int|
                            0 <= j < v@.len() ==> (#[trigger] v@[j]).contexts is None
                                && v@[j].fields().wf(),
                        forall|j: int|
                            0 <= j < i ==> (#[trigger] copies@[j])@ == ContextView::Single(
                                v@[j].fields(),
                            ) && copies@[j]@.wf(),
                    decreases v@.len() - i,
                {
                    let copy = v[i].clone_fields();
                    copies.push(copy);
                    i += 1;
                }
                proof {
                    assert(singles_of(copies@) =~= Self::nested(v@));
                }
                Context::multi(copies)
            },
        }
    }
}

impl Context {
    /// The name of this context, if it has one.
    pub fn name(&self) -> (r: Option<&str>)
        ensures
            match r {
                Some(name) => self@.top().name == Some(name@),
                None => self@.top().name is None,
            },
    {
        proof {
            use_type_invariant(self);
            self.lemma_valid();
        }
        match &self.name {
            Some(name) => Some(name.as_str()),
            None => None,
        }
    }

    /// Whether this context is anonymous.
    pub fn anonymous(&self) -> (r: bool)
        ensures
            r == self@.top().anonymous,
    {
        proof {
            use_type_invariant(self);
            self.lemma_valid();
        }
        self.anonymous
    }

    /// The secondary key of this context, if it has one.
    pub fn secondary(&self) -> (r: Option<&str>)
        ensures
            match r {
                Some(secondary) => self@.top().secondary == Some(secondary@),
                None => self@.top().secondary is None,
            },
    {
        proof {
            use_type_invariant(self);
            self.lemma_valid();
        }
        match &self.secondary {
            Some(secondary) => Some(secondary.as_str()),
            None => None,
        }
    }

    /// The attribute `name` of this context, if it has one. A multi-context
    /// has none.
    pub fn attribute(&self, name: &str) -> (r: Option<&JsonValue>)
        ensures
            match r {
                Some(value) => self@.top().attributes.contains_key(name@) && value@
                    == self@.top().attributes[name@],
                None => !self@.top().attributes.contains_key(name@),
            },
    {
        proof {
            use_type_invariant(self);
            self.lemma_valid();
        }
        self.attributes.get(name)
    }

    /// The private attributes of this context, in their order; none where
    /// it has no such list.
    pub fn private_attributes(&self) -> (r: Vec<AttributeName>)
        ensures
            match self@.top().private_attributes {
                Some(names) => names_of(r@) == names,
                None => r@.len() == 0,
            },
    {
        proof {
            use_type_invariant(self);
            self.lemma_valid();
        }
        match &self.private_attributes {
            Some(names) => clone_names(names),
            None => Vec::new(),
        }
    }

    /// The context of the kind `kind` that this context is or holds.
    #[verifier::loop_isolation(false)]
    pub fn as_kind(&self, kind: &str) -> (r: Option<&Context>)
        ensures
            match r {
                Some(context) => self@.of_kind(kind@) == Some(context@.top()) && context@ is Single,
                None => self@.of_kind(kind@) is None,
            },
    {
        proof {
            use_type_invariant(self);
            self.lemma_valid();
        }
        match &self.contexts {
            None => {
                if str_eq(self.kind.as_str(), kind) {
                    Some(self)
                } else {
                    None
                }
            },
            Some(v) => {
                let ghost pairs = Self::nested(v@);
                proof {
                    lemma_pairs_names(pairs);
                    lemma_pairs_members(pairs);
                }
                let mut i: usize = 0;
                while i < v.len()
                    invariant
                        i <= v@.len(),
                        pairs == Self::nested(v@),
                        forall|j: int| 0 <= j < i ==> (#[trigger] pairs[j]).0 != kind@,
                    decreases v@.len() - i,
                {
                    if str_eq(v[i].kind.as_str(), kind) {
                        assert(pairs[i as int].0 == kind@);
                        assert(v@[i as int].contexts is None);
                        return Some(&v[i]);
                    }
                    i += 1;
                }
                assert(!has_name(pairs, kind@));
                None
            },
        }
    }
}

/// Whether two lists of attribute names spell the same names in the same
/// order.
pub fn names_eq(a: &Vec<AttributeName>, b: &Vec<AttributeName>) -> (r: bool)
    ensures
        r == (names_of(a@) == names_of(b@)),
{
    if a.len() != b.len() {
        assert(names_of(a@).len() != names_of(b@).len());
        return false;
    }
    let mut i: usize = 0;
    while i < a.len()
        invariant
            a@.len() == b@.len(),
            i <= a@.len(),
            forall|j: int| 0 <= j < i ==> (#[trigger] a@[j])@ == b@[j]@,
        decreases a@.len() - i,
    {
        if !str_eq(a[i].as_str(), b[i].as_str()) {
            assert(names_of(a@)[i as int] != names_of(b@)[i as int]);
            return false;
        }
        i += 1;
    }
    assert(names_of(a@) =~= names_of(b@));
    true
}

impl Context {
    fn same_fields(&self, other: &Context) -> (r: bool)
        ensures
            r == (self.fields() == other.fields()),
    {
        let private_attributes = match (&self.private_attributes, &other.private_attributes) {
            (None, None) => true,
            (Some(a), Some(b)) => names_eq(a, b),
            _ => false,
        };
        str_eq(self.kind.as_str(), other.kind.as_str()) && str_eq(
            self.key.as_str(),
            other.key.as_str(),
        ) && opt_string_eq(&self.name, &other.name) && self.anonymous == other.anonymous
            && self.attributes.eq(&other.attributes) && opt_string_eq(
            &self.secondary,
            &other.secondary,
        ) && private_attributes
    }
}

impl PartialEq for Context {
    /// Whether two contexts have the same mathematical value: the order of
    /// attributes, and of the contexts of a multi-context, is of no account.
    #[verifier::loop_isolation(false)]
    fn eq(&self, other: &Context) -> (r: bool) {
        proof {
            use_type_invariant(self);
            use_type_invariant(other);
            self.lemma_valid();
            other.lemma_valid();
        }
        match (&self.contexts, &other.contexts) {
            (None, None) => self.same_fields(other),
            (Some(a), Some(b)) => {
                let ghost x = Self::nested(a@);
                let ghost y = Self::nested(b@);
                proof {
                    lemma_pairs_names(x);
                    lemma_pairs_members(x);
                    lemma_pairs_names(y);
                    lemma_pairs_members(y);
                }
                if a.len() != b.len() {
                    return false;
                }
                let mut i: usize = 0;
                while i < a.len()
                    invariant
                        i <= a@.len(),
                        forall|j: int|
                            0 <= j < i ==> other@->Multi_0.contains_key((#[trigger] x[j]).0)
                                && other@->Multi_0[x[j].0] == x[j].1,
                    decreases a@.len() - i,
                {
                    let ghost entry = x[i as int];
                    assert(self@->Multi_0.contains_key(entry.0) && self@->Multi_0[entry.0]
                        == entry.1);
                    assert(a@[i as int].contexts is None);
                    match other.as_kind(a[i].kind.as_str()) {
                        None => {
                            return false;
                        },
                        Some(context) => {
                            proof {
                                use_type_invariant(context);
                                context.lemma_valid();
                            }
                            if !a[i].same_fields(context) {
                                return false;
                            }
                        },
                    }
                    i += 1;
                }
                proof {
                    let m = self@->Multi_0;
                    let n = other@->Multi_0;
                    assert forall|k: Seq<char>| m.contains_key(k) implies n.contains_key(k)
                        && n[k] == m[k] by {
                        let j = choose|j: int| 0 <= j < x.len() && #[trigger] x[j].0 == k;
                        assert(n.contains_key(x[j].0));
                    }
                    assert(m.dom().subset_of(n.dom()));
                    vstd::set_lib::lemma_subset_equality(m.dom(), n.dom());
                    assert(m =~= n);
                }
                true
            },
            _ => false,
        }
    }
}

impl vstd::std_specs::cmp::PartialEqSpecImpl for Context {
    open spec fn obeys_eq_spec() -> bool {
        true
    }

    open spec fn eq_spec(&self, other: &Context) -> bool {
        self@ == other@
    }
}

} // verus!
