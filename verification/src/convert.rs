//! From a record to a context, through the builders, and from a context back
//! to the record in which it is written.

use crate::builder::{multi_build, BuilderView, ContextBuilder, MultiContextBuilder};
use crate::context::{
    names_from, names_of, opt_names_of, singles_of, strings_from, AttributeName, Context,
    ContextView, SingleView,
};
use crate::error::BuildError;
use crate::json::{distinct_names, lemma_pairs_map_values, pairs_to_map, Json, JsonObject};
use crate::kind::Kind;
use crate::shapes::{
    nested_of, opt_meta, opt_object, ContextVariant, Meta, MetaView, MultiKindContext,
    SingleKindContext, SingleKindStandaloneContext, SingleKindView, StandaloneView, UserFormat,
    UserView, VariantView,
};
use crate::text::{is_reserved_name, lemma_wire_names, opt_chars, str_eq};
use vstd::prelude::*;

verus! {

/// The reserved names as a set.
pub open spec fn reserved_names() -> Set<Seq<char>> {
    Set::new(|k: Seq<char>| is_reserved_name(k))
}

/// The string under `name` in `attributes`, where there is one.
pub open spec fn string_under(attributes: Map<Seq<char>, Json>, name: Seq<char>) -> Option<
    Seq<char>,
> {
    if attributes.contains_key(name) && attributes[name] is String {
        Some(attributes[name]->String_0)
    } else {
        None
    }
}

/// The builder after each member of `attributes` has been set on it with
/// `set_value`, in whatever order. Members with a reserved name go where
/// `set_value` sends them, and the others become attributes.
pub open spec fn with_attributes(b: BuilderView, attributes: Map<Seq<char>, Json>) -> BuilderView {
    BuilderView {
        kind: match string_under(attributes, "kind"@) {
            Some(s) => s,
            None => b.kind,
        },
        key: match string_under(attributes, "key"@) {
            Some(s) => s,
            None => b.key,
        },
        name: if attributes.contains_key("name"@) {
            match attributes["name"@] {
                Json::String(s) => Some(s),
                Json::Null => None,
                _ => b.name,
            }
        } else {
            b.name
        },
        anonymous: if attributes.contains_key("anonymous"@) && attributes["anonymous"@] is Bool {
            attributes["anonymous"@]->Bool_0
        } else {
            b.anonymous
        },
        attributes: b.attributes.union_prefer_right(attributes.remove_keys(reserved_names())),
        ..b
    }
}

/// Setting one more member is `set_value`.
pub proof fn lemma_with_attributes_insert(
    b: BuilderView,
    attributes: Map<Seq<char>, Json>,
    name: Seq<char>,
    value: Json,
)
    requires
        !attributes.contains_key(name),
    ensures
        with_attributes(b, attributes.insert(name, value)) == with_attributes(
            b,
            attributes,
        ).set_value(name, value),
{
    lemma_wire_names();
    let more = attributes.insert(name, value);
    let x = with_attributes(b, more);
    let y = with_attributes(b, attributes).set_value(name, value);
    assert(x.attributes =~= y.attributes);
}

/// Without members the builder stays as it is.
pub proof fn lemma_with_no_attributes(b: BuilderView)
    ensures
        with_attributes(b, Map::empty()) == b,
{
    assert(with_attributes(b, Map::empty()).attributes =~= b.attributes);
}

/// The members of `all` that are no longer in `rest`.
pub open spec fn taken(all: Map<Seq<char>, Json>, rest: Map<Seq<char>, Json>) -> Map<
    Seq<char>,
    Json,
> {
    Map::new(|k: Seq<char>| all.contains_key(k) && !rest.contains_key(k), |k: Seq<char>| all[k])
}

/// Sets each member of `attributes` on the builder.
fn set_attributes(b: &mut ContextBuilder, attributes: JsonObject)
    ensures
        final(b)@ == with_attributes(old(b)@, attributes@),
{
    let mut rest = attributes;
    let ghost all = rest@;
    let ghost start = b@;
    proof {
        assert(taken(all, all) =~= Map::empty());
        lemma_with_no_attributes(start);
    }
    loop
        invariant
            all == attributes@,
            forall|k: Seq<char>| #[trigger]
                rest@.contains_key(k) ==> all.contains_key(k) && rest@[k] == all[k],
            b@ == with_attributes(start, taken(all, rest@)),
        ensures
            b@ == with_attributes(start, all),
        decreases rest@.len(),
    {
        let ghost before = rest@;
        match rest.pop() {
            None => {
                assert(taken(all, before) =~= all);
                break ;
            },
            Some((name, value)) => {
                proof {
                    assert(taken(all, rest@) =~= taken(all, before).insert(name@, value@));
                    lemma_with_attributes_insert(start, taken(all, before), name@, value@);
                }
                b.set_value(name.as_str(), value);
            },
        }
    }
}

/// Appends each of `names` to the private attributes of the builder.
fn add_private_attributes(b: &mut ContextBuilder, names: Vec<AttributeName>)
    ensures
        final(b)@ == (BuilderView {
            private_attributes: old(b)@.private_attributes + names_of(names@),
            ..old(b)@
        }),
{
    let ghost start = b@;
    assert(start.private_attributes + names_of(names@.subrange(0, 0)) =~= start.private_attributes);
    for name in it: names
        invariant
            it.seq() == names@,
            b@ == (BuilderView {
                private_attributes: start.private_attributes + names_of(
                    names@.subrange(0, it.index() as int),
                ),
                ..start
            }),
    {
        let ghost i = it.index() as int;
        assert(name == names@[i]);
        assert(start.private_attributes + names_of(names@.subrange(0, i + 1)) =~= (
        start.private_attributes + names_of(names@.subrange(0, i))).push(name@));
        b.add_private_attribute(name);
    }
    assert(names@.subrange(0, names@.len() as int) =~= names@);
}

/// The builder with `anonymous` set, where a value is given.
pub open spec fn with_anonymous(b: BuilderView, value: Option<bool>) -> BuilderView {
    match value {
        Some(anonymous) => BuilderView { anonymous, ..b },
        None => b,
    }
}

/// The builder with the name set, where one is given.
pub open spec fn with_name(b: BuilderView, value: Option<Seq<char>>) -> BuilderView {
    match value {
        Some(name) => BuilderView { name: Some(name), ..b },
        None => b,
    }
}

/// The builder with the secondary key set, where one is given.
pub open spec fn with_secondary(b: BuilderView, value: Option<Seq<char>>) -> BuilderView {
    match value {
        Some(secondary) => BuilderView { secondary: Some(secondary), ..b },
        None => b,
    }
}

/// The builder with the names of a list, where one is given, added to its
/// private attributes.
pub open spec fn with_private_attributes(
    b: BuilderView,
    names: Option<Seq<Seq<char>>>,
) -> BuilderView {
    match names {
        Some(names) => BuilderView { private_attributes: b.private_attributes + names, ..b },
        None => b,
    }
}

/// The builder with the attribute `name` set to the string `value`, where
/// there is one.
pub open spec fn with_string(
    b: BuilderView,
    name: Seq<char>,
    value: Option<Seq<char>>,
) -> BuilderView {
    match value {
        Some(value) => b.set_value(name, Json::String(value)),
        None => b,
    }
}

/// The builder with each member of `custom` as an attribute, but for the
/// members with a reserved name.
pub open spec fn with_custom(b: BuilderView, custom: Option<Map<Seq<char>, Json>>) -> BuilderView {
    match custom {
        Some(custom) => BuilderView {
            attributes: b.attributes.union_prefer_right(custom.remove_keys(reserved_names())),
            ..b
        },
        None => b,
    }
}

/// The builder after what stands under `_meta` has been applied to it.
pub open spec fn with_meta(b: BuilderView, meta: Option<MetaView>) -> BuilderView {
    match meta {
        Some(meta) => with_private_attributes(
            with_secondary(b, meta.secondary),
            meta.private_attributes,
        ),
        None => b,
    }
}

/// The builder after the record of a context of a single kind has been
/// applied to it: the attributes first, then `anonymous`, the name, the
/// secondary key and the private attributes, each where it is there.
pub open spec fn built_context(b: BuilderView, c: SingleKindView) -> BuilderView {
    with_meta(
        with_name(with_anonymous(with_attributes(b, c.attributes), c.anonymous), c.name),
        c.meta,
    )
}

fn set_anonymous(b: &mut ContextBuilder, value: Option<bool>)
    ensures
        final(b)@ == with_anonymous(old(b)@, value),
{
    if let Some(anonymous) = value {
        b.anonymous(anonymous);
    }
}

fn set_name(b: &mut ContextBuilder, value: Option<String>)
    ensures
        final(b)@ == with_name(old(b)@, opt_chars(value)),
{
    if let Some(name) = value {
        b.name(name.as_str());
    }
}

fn set_secondary(b: &mut ContextBuilder, value: Option<String>)
    ensures
        final(b)@ == with_secondary(old(b)@, opt_chars(value)),
{
    if let Some(secondary) = value {
        b.secondary(secondary.as_str());
    }
}

fn set_string(b: &mut ContextBuilder, name: &str, value: Option<String>)
    ensures
        final(b)@ == with_string(old(b)@, name@, opt_chars(value)),
{
    if let Some(x) = value {
        b.set_string(name, x.as_str());
    }
}

fn set_meta(b: &mut ContextBuilder, meta: Option<Meta>)
    ensures
        final(b)@ == with_meta(old(b)@, opt_meta(meta)),
{
    if let Some(meta) = meta {
        set_secondary(b, meta.secondary);
        if let Some(private_attributes) = meta.private_attributes {
            add_private_attributes(b, names_from(&private_attributes));
        }
    }
}

/// Applies the record of a context of a single kind to the builder.
pub fn build_context(b: &mut ContextBuilder, context: SingleKindContext) -> (r: &mut ContextBuilder)
    ensures
        r@ == built_context(old(b)@, context@),
        *final(b) == *final(r),
{
    set_attributes(b, context.attributes);
    set_anonymous(b, context.anonymous);
    set_name(b, context.name);
    set_meta(b, context.meta);
    b
}

/// The builder after the record of a legacy user has been applied to it.
/// `anonymous`, `secondary` and `name` go to the members of those names. The
/// six named strings become attributes, `firstName` and `lastName` under
/// those names. Then each member of `custom` becomes an attribute, unless
/// its name is reserved: then it is dropped. A member of `custom` replaces
/// a named string of the same name. Last come the private attributes.
pub open spec fn built_from_user(b: BuilderView, u: UserView) -> BuilderView {
    let b = with_name(with_secondary(with_anonymous(b, u.anonymous), u.secondary), u.name);
    let b = with_string(b, "avatar"@, u.avatar);
    let b = with_string(b, "firstName"@, u.first_name);
    let b = with_string(b, "lastName"@, u.last_name);
    let b = with_string(b, "country"@, u.country);
    let b = with_string(b, "email"@, u.email);
    let b = with_string(b, "ip"@, u.ip);
    with_private_attributes(with_custom(b, u.custom), u.private_attribute_names)
}

/// Decides whether a custom attribute of a legacy user is dropped instead of
/// being set on the context under construction.
pub fn should_skip_custom_attribute(attr_name: &str) -> (r: bool)
    ensures
        r == is_reserved_name(attr_name@),
{
    str_eq(attr_name, "kind") || str_eq(attr_name, "key") || str_eq(attr_name, "name") || str_eq(
        attr_name,
        "anonymous",
    ) || str_eq(attr_name, "_meta")
}

/// Sets each member of `custom` on the builder, but for those with a
/// reserved name.
fn set_custom_attributes(b: &mut ContextBuilder, custom: JsonObject)
    ensures
        final(b)@ == with_custom(old(b)@, Some(custom@)),
{
    let mut rest = custom;
    let ghost all = rest@;
    let ghost start = b@;
    proof {
        assert(start.attributes.union_prefer_right(
            taken(all, all).remove_keys(reserved_names()),
        ) =~= start.attributes);
    }
    loop
        invariant
            all == custom@,
            forall|k: Seq<char>| #[trigger]
                rest@.contains_key(k) ==> all.contains_key(k) && rest@[k] == all[k],
            b@ == (BuilderView {
                attributes: start.attributes.union_prefer_right(
                    taken(all, rest@).remove_keys(reserved_names()),
                ),
                ..start
            }),
        ensures
            b@ == (BuilderView {
                attributes: start.attributes.union_prefer_right(
                    all.remove_keys(reserved_names()),
                ),
                ..start
            }),
        decreases rest@.len(),
    {
        let ghost before = rest@;
        match rest.pop() {
            None => {
                assert(taken(all, before) =~= all);
                break ;
            },
            Some((name, value)) => {
                proof {
                    lemma_wire_names();
                    assert(taken(all, rest@) =~= taken(all, before).insert(name@, value@));
                }
                if !should_skip_custom_attribute(name.as_str()) {
                    b.set_value(name.as_str(), value);
                    assert(b@.attributes =~= start.attributes.union_prefer_right(
                        taken(all, rest@).remove_keys(reserved_names()),
                    ));
                } else {
                    assert(taken(all, rest@).remove_keys(reserved_names()) =~= taken(
                        all,
                        before,
                    ).remove_keys(reserved_names()));
                }
            },
        }
    }
}

fn set_custom(b: &mut ContextBuilder, custom: Option<JsonObject>)
    ensures
        final(b)@ == with_custom(old(b)@, opt_object(custom)),
{
    if let Some(custom) = custom {
        set_custom_attributes(b, custom);
    }
}

fn set_private_attributes(b: &mut ContextBuilder, names: Option<Vec<AttributeName>>)
    ensures
        final(b)@ == with_private_attributes(old(b)@, opt_names_of(names)),
{
    if let Some(names) = names {
        add_private_attributes(b, names);
    }
}

/// Applies the record of a legacy user to the builder.
pub fn build_context_from_implicit_user(b: &mut ContextBuilder, user: UserFormat) -> (r:
    &mut ContextBuilder)
    ensures
        r@ == built_from_user(old(b)@, user@),
        *final(b) == *final(r),
{
    set_anonymous(b, user.anonymous);
    set_secondary(b, user.secondary);
    set_name(b, user.name);
    set_string(b, "avatar", user.avatar);
    set_string(b, "firstName", user.first_name);
    set_string(b, "lastName", user.last_name);
    set_string(b, "country", user.country);
    set_string(b, "email", user.email);
    set_string(b, "ip", user.ip);
    set_custom(b, user.custom);
    set_private_attributes(b, user.private_attribute_names);
    b
}

/// The context of kind `kind` that comes of the record `c`: a builder with
/// the key of the record, the record applied to it, and the kind set last.
pub open spec fn single_context(kind: Seq<char>, c: SingleKindView) -> Result<
    SingleView,
    BuildError,
> {
    (BuilderView { kind, ..built_context(BuilderView::new(c.key), c) }).build()
}

/// The context that comes of the record of a legacy user: a builder with the
/// key of the record that is told to allow an empty key, and the record
/// applied to it. Its kind is `user`.
pub open spec fn user_context(u: UserView) -> Result<SingleView, BuildError> {
    built_from_user(BuilderView { allow_empty_key: true, ..BuilderView::new(u.key) }, u).build()
}

/// The contexts that come of the records of a multi-context, in their order,
/// or the error of the first record of which none comes.
pub open spec fn nested_contexts(s: Seq<(Seq<char>, SingleKindView)>) -> Result<
    Seq<SingleView>,
    BuildError,
>
    decreases s.len(),
{
    if s.len() == 0 {
        Ok(Seq::empty())
    } else {
        match nested_contexts(s.drop_last()) {
            Err(e) => Err(e),
            Ok(built) => match single_context(s.last().0, s.last().1) {
                Err(e) => Err(e),
                Ok(context) => Ok(built.push(context)),
            },
        }
    }
}

/// The context that comes of a record, or the error of the builder that
/// turns it down. The only errors are those of the builders.
pub open spec fn converted(v: VariantView) -> Result<ContextView, BuildError> {
    match v {
        VariantView::Multi(multi) => match nested_contexts(multi.contexts) {
            Err(e) => Err(e),
            Ok(built) => multi_build(built),
        },
        VariantView::Single(single) => match single_context(single.kind, single.context) {
            Err(e) => Err(e),
            Ok(context) => Ok(ContextView::Single(context)),
        },
        VariantView::Implicit(user) => match user_context(user) {
            Err(e) => Err(e),
            Ok(context) => Ok(ContextView::Single(context)),
        },
    }
}

/// Builds the context of kind `kind` of the record `context`.
fn context_from_record(kind: &Kind, context: SingleKindContext) -> (r: Result<Context, BuildError>)
    ensures
        match r {
            Ok(built) => single_context(kind@, context@) == Ok::<SingleView, BuildError>(
                built@.top(),
            ) && built@ is Single && built@.wf(),
            Err(e) => single_context(kind@, context@) == Err::<SingleView, BuildError>(e),
        },
{
    let mut builder = ContextBuilder::new(context.key.as_str());
    build_context(&mut builder, context).kind(kind.as_str()).build()
}

impl TryFrom<ContextVariant> for Context {
    type Error = BuildError;

    /// Builds the context of a record.
    fn try_from(variant: ContextVariant) -> (r: Result<Context, BuildError>)
        ensures
            match r {
                Ok(context) => converted(variant@) == Ok::<ContextView, BuildError>(context@)
                    && context@.wf(),
                Err(e) => converted(variant@) == Err::<ContextView, BuildError>(e),
            },
    {
        match variant {
            ContextVariant::Multi(m) => {
                let mut multi_builder = MultiContextBuilder::new();
                let ghost records = m@.contexts;
                assert(records.subrange(0, 0) =~= Seq::empty());
                for entry in it: m.contexts
                    invariant
                        it.seq() == m.contexts@,
                        records == nested_of(m.contexts@),
                        variant@ matches VariantView::Multi(record) && record.contexts == records,
                        nested_contexts(records.subrange(0, it.index() as int)) == Ok::<
                            Seq<SingleView>,
                            BuildError,
                        >(multi_builder@),
                {
                    let ghost i = it.index() as int;
                    assert(entry == m.contexts@[i]);
                    let (kind, context) = entry;
                    proof {
                        assert(records.subrange(0, i + 1).drop_last() =~= records.subrange(0, i));
                        assert(records.subrange(0, i + 1).last() == (kind@, context@));
                    }
                    let built = match context_from_record(&kind, context) {
                        Ok(built) => built,
                        Err(e) => {
                            proof {
                                lemma_nested_contexts_fail(records, i + 1);
                            }
                            return Err(e);
                        },
                    };
                    multi_builder.add_context(built);
                }
                assert(records.subrange(0, records.len() as int) =~= records);
                multi_builder.build()
            },
            ContextVariant::Single(context) => {
                match context_from_record(&context.kind, context.context) {
                    Ok(built) => Ok(built),
                    Err(e) => Err(e),
                }
            },
            ContextVariant::Implicit(user) => {
                let mut builder = ContextBuilder::new(user.key.as_str());
                builder.allow_empty_key();
                build_context_from_implicit_user(&mut builder, user).build()
            },
        }
    }
}

impl vstd::std_specs::convert::TryFromSpecImpl<ContextVariant> for Context {
    open spec fn obeys_try_from_spec() -> bool {
        false
    }

    open spec fn try_from_spec(variant: ContextVariant) -> Result<Context, BuildError> {
        arbitrary()
    }
}

/// Where the records up to the `n`th cannot all be built, neither can all.
pub proof fn lemma_nested_contexts_fail(s: Seq<(Seq<char>, SingleKindView)>, n: int)
    requires
        0 <= n <= s.len(),
        nested_contexts(s.subrange(0, n)) is Err,
    ensures
        nested_contexts(s) == nested_contexts(s.subrange(0, n)),
    decreases s.len() - n,
{
    if n == s.len() {
        assert(s.subrange(0, n) =~= s);
    } else {
        assert(s.subrange(0, n + 1).drop_last() =~= s.subrange(0, n));
        lemma_nested_contexts_fail(s, n + 1);
    }
}

/// The record in which a context of a single kind is written: `anonymous`
/// and `_meta` are always there, whatever they hold.
pub open spec fn project_single(s: SingleView) -> SingleKindView {
    SingleKindView {
        key: s.key,
        name: s.name,
        anonymous: Some(s.anonymous),
        attributes: s.attributes,
        meta: Some(MetaView { secondary: s.secondary, private_attributes: s.private_attributes }),
    }
}

/// The kind of a context and the record of what it has at its top level.
pub fn single_kind_context_from(c: Context) -> (r: (Kind, SingleKindContext))
    ensures
        r.0@ == c@.top().kind,
        r.1@ == project_single(c@.top()),
{
    let (kind, key, name, anonymous, attributes, secondary, private_attributes) = c.into_parts();
    let private_attributes = match private_attributes {
        Some(names) => Some(strings_from(&names)),
        None => None,
    };
    (
        kind,
        SingleKindContext {
            key,
            name,
            anonymous: Some(anonymous),
            attributes,
            meta: Some(Meta { secondary, private_attributes }),
        },
    )
}

/// Whether `r` is a record in which the context `c` is written: for a
/// context of a single kind the record that states its kind, and for a
/// multi-context a record that holds each of its contexts once, in some
/// order. It is never the record of a legacy user.
pub open spec fn projects(c: ContextView, r: VariantView) -> bool {
    match c {
        ContextView::Single(s) => r == VariantView::Single(
            StandaloneView { kind: s.kind, context: project_single(s) },
        ),
        ContextView::Multi(m) => {
            &&& r matches VariantView::Multi(record)
            &&& record.kind == "multi"@
            &&& distinct_names(record.contexts)
            &&& pairs_to_map(record.contexts) == m.map_values(|s: SingleView| project_single(s))
        },
    }
}

impl From<Context> for ContextVariant {
    /// The record in which a context is written.
    fn from(c: Context) -> (r: ContextVariant)
        ensures
            projects(c@, r@),
    {
        if c.is_multi() {
            let nested = c.into_nested();
            let ghost singles = singles_of(nested@);
            let mut contexts: Vec<(Kind, SingleKindContext)> = Vec::new();
            for context in it: nested
                invariant
                    it.seq() == nested@,
                    singles == singles_of(nested@),
                    contexts@.len() == it.index(),
                    forall|j: int|
                        0 <= j < contexts@.len() ==> (#[trigger] nested_of(contexts@)[j]) == (
                            singles[j].0,
                            project_single(singles[j].1),
                        ),
            {
                let ghost i = it.index() as int;
                let ghost before = contexts@;
                assert(context == nested@[i]);
                let entry = single_kind_context_from(context);
                contexts.push(entry);
                assert forall|j: int| 0 <= j < contexts@.len() implies (#[trigger] nested_of(
                    contexts@,
                )[j]) == (singles[j].0, project_single(singles[j].1)) by {
                    if j < i {
                        assert(nested_of(contexts@)[j] == nested_of(before)[j]);
                    }
                }
            }
            let multi = MultiKindContext { kind: "multi".to_owned(), contexts };
            proof {
                let f = |s: SingleView| project_single(s);
                lemma_pairs_map_values(singles, multi@.contexts, f);
                assert(pairs_to_map(singles).map_values(f) =~= c@->Multi_0.map_values(
                    |s: SingleView| project_single(s),
                ));
            }
            ContextVariant::Multi(multi)
        } else {
            let (kind, nested) = single_kind_context_from(c);
            ContextVariant::Single(SingleKindStandaloneContext { kind, context: nested })
        }
    }
}

impl vstd::std_specs::convert::FromSpecImpl<Context> for ContextVariant {
    open spec fn obeys_from_spec() -> bool {
        false
    }

    open spec fn from_spec(c: Context) -> ContextVariant {
        arbitrary()
    }
}

} // verus!
