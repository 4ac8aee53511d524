//! The codec: from a JSON document to a context, and back.

use crate::builder::keyed;
use crate::context::{Context, ContextView, SingleView};
use crate::convert::{converted, nested_contexts, project_single, single_context, user_context};
use crate::emit::{nested_members, single_members};
use crate::error::{BuildError, DecodeError};
use crate::json::{
    distinct_names, has_name, lemma_pairs_map_values, lemma_pairs_members, lemma_pairs_names,
    pairs_to_map, Json, JsonValue,
};
use crate::parse::{
    classify, parse_entry, parse_standalone, parse_user, parsed_entries, reads_as, Shape,
};
use crate::shapes::{ContextVariant, SingleKindView, VariantView};
use vstd::prelude::*;

verus! {

/// The outcome of a builder as an outcome of decoding.
pub open spec fn from_builder(r: Result<SingleView, BuildError>) -> Result<
    SingleView,
    DecodeError,
> {
    match r {
        Ok(context) => Ok(context),
        Err(e) => Err(DecodeError::BuilderError(e)),
    }
}

/// What comes of an object that states a kind other than `multi`.
pub open spec fn decode_single(m: Map<Seq<char>, Json>) -> Result<SingleView, DecodeError> {
    match parse_standalone(m) {
        Err(e) => Err(e),
        Ok(single) => from_builder(single_context(single.kind, single.context)),
    }
}

/// What comes of an object that states no kind: a legacy user.
pub open spec fn decode_user(m: Map<Seq<char>, Json>) -> Result<SingleView, DecodeError> {
    match parse_user(m) {
        Err(e) => Err(e),
        Ok(user) => from_builder(user_context(user)),
    }
}

/// What comes of the member of a multi-context that stands under `kind`.
pub open spec fn decode_entry(kind: Seq<char>, value: Json) -> Result<SingleView, DecodeError> {
    match parse_entry(kind, value) {
        Err(e) => Err(e),
        Ok(record) => from_builder(single_context(kind, record)),
    }
}

/// Whether a context comes of every member of a multi-context, and there is
/// a member.
pub open spec fn entries_decode(entries: Map<Seq<char>, Json>) -> bool {
    &&& exists|k: Seq<char>| entries.contains_key(k)
    &&& forall|k: Seq<char>| #[trigger]
        entries.contains_key(k) ==> decode_entry(k, entries[k]) is Ok
}

/// The contexts that come of the members of a multi-context.
pub open spec fn decoded_entries(entries: Map<Seq<char>, Json>) -> Map<Seq<char>, SingleView> {
    Map::new(
        |k: Seq<char>| entries.contains_key(k),
        |k: Seq<char>| decode_entry(k, entries[k])->Ok_0,
    )
}

/// The context that a document denotes, if it denotes one.
pub open spec fn decoded(j: Json) -> Option<ContextView> {
    match j {
        Json::Object(m) => match classify(m) {
            Err(_) => None,
            Ok(Shape::Implicit) => match decode_user(m) {
                Ok(context) => Some(ContextView::Single(context)),
                Err(_) => None,
            },
            Ok(Shape::Single) => match decode_single(m) {
                Ok(context) => Some(ContextView::Single(context)),
                Err(_) => None,
            },
            Ok(Shape::Multi) => if entries_decode(m.remove("kind"@)) {
                Some(ContextView::Multi(decoded_entries(m.remove("kind"@))))
            } else {
                None
            },
        },
        _ => None,
    }
}

/// Whether `e` is an error with which the document `j` is turned down. A
/// document that denotes a context has no such error. A document that is
/// not a multi-context and denotes no context has exactly one. A
/// multi-context without a member has `EmptyMulti`, and any other
/// multi-context has the error of each member of which no context comes.
pub open spec fn rejects(j: Json, e: DecodeError) -> bool {
    match j {
        Json::Object(m) => match classify(m) {
            Err(x) => e == x,
            Ok(Shape::Implicit) => decode_user(m) == Err::<SingleView, DecodeError>(e),
            Ok(Shape::Single) => decode_single(m) == Err::<SingleView, DecodeError>(e),
            Ok(Shape::Multi) => {
                let entries = m.remove("kind"@);
                if entries == Map::<Seq<char>, Json>::empty() {
                    e == DecodeError::EmptyMulti
                } else {
                    exists|k: Seq<char>| #[trigger]
                        entries.contains_key(k) && decode_entry(k, entries[k]) == Err::<
                            SingleView,
                            DecodeError,
                        >(e)
                }
            },
        },
        _ => e == DecodeError::NotAnObject,
    }
}

/// What holds of each record where contexts come of all of them.
pub proof fn lemma_nested_contexts_ok(s: Seq<(Seq<char>, SingleKindView)>)
    requires
        nested_contexts(s) is Ok,
    ensures
        nested_contexts(s)->Ok_0.len() == s.len(),
        forall|i: int|
            0 <= i < s.len() ==> single_context((#[trigger] s[i]).0, s[i].1) == Ok::<
                SingleView,
                BuildError,
            >(nested_contexts(s)->Ok_0[i]),
    decreases s.len(),
{
    if s.len() > 0 {
        lemma_nested_contexts_ok(s.drop_last());
        let built = nested_contexts(s.drop_last())->Ok_0;
        assert forall|i: int| 0 <= i < s.len() implies single_context(
            (#[trigger] s[i]).0,
            s[i].1,
        ) == Ok::<SingleView, BuildError>(nested_contexts(s)->Ok_0[i]) by {
            if i < s.len() - 1 {
                assert(s.drop_last()[i] == s[i]);
            }
        }
    }
}

/// Where no contexts come of the records, none comes of one of them.
pub proof fn lemma_nested_contexts_err(s: Seq<(Seq<char>, SingleKindView)>) -> (i: int)
    requires
        nested_contexts(s) is Err,
    ensures
        0 <= i < s.len(),
        single_context(s[i].0, s[i].1) == Err::<SingleView, BuildError>(
            nested_contexts(s)->Err_0,
        ),
    decreases s.len(),
{
    if nested_contexts(s.drop_last()) is Err {
        lemma_nested_contexts_err(s.drop_last())
    } else {
        s.len() - 1
    }
}

/// Reads the context that a document denotes. The document has one of three
/// shapes: a multi-context, a context that states its kind, or a legacy
/// user, which states none and becomes a context of the kind `user`.
pub fn decode(json: JsonValue) -> (r: Result<Context, DecodeError>)
    ensures
        match r {
            Ok(context) => decoded(json@) == Some(context@) && context@.wf(),
            Err(e) => decoded(json@) is None && rejects(json@, e),
        },
{
    let variant = match ContextVariant::deserialize(json) {
        Ok(variant) => variant,
        Err(e) => {
            proof {
                lemma_read_error(json@, e);
            }
            return Err(e);
        },
    };
    let ghost record = variant@;
    match Context::try_from(variant) {
        Ok(context) => {
            proof {
                lemma_built(json@, record, context@);
            }
            Ok(context)
        },
        Err(e) => {
            proof {
                lemma_build_error(json@, record, e);
            }
            Err(DecodeError::BuilderError(e))
        },
    }
}

/// A document that cannot be read denotes no context, and the error of the
/// reading is one with which it is turned down.
proof fn lemma_read_error(j: Json, e: DecodeError)
    requires
        reads_as(j, Err(e)),
    ensures
        decoded(j) is None,
        rejects(j, e),
{
    if let Json::Object(m) = j {
        if classify(m) == Ok::<Shape, DecodeError>(Shape::Multi) {
            let entries = m.remove("kind"@);
            if entries == Map::<Seq<char>, Json>::empty() {
                assert(!entries_decode(entries));
            } else {
                let k = choose|k: Seq<char>| #[trigger]
                    entries.contains_key(k) && parse_entry(k, entries[k]) == Err::<
                        SingleKindView,
                        DecodeError,
                    >(e);
                assert(entries.contains_key(k) && decode_entry(k, entries[k]) == Err::<
                    SingleView,
                    DecodeError,
                >(e));
            }
        }
    }
}

/// What a multi-context was read as holds each member's record.
proof fn lemma_multi_records(
    entries: Map<Seq<char>, Json>,
    records: Seq<(Seq<char>, SingleKindView)>,
)
    requires
        distinct_names(records),
        pairs_to_map(records) == parsed_entries(entries),
        forall|k: Seq<char>| #[trigger] entries.contains_key(k) ==> parse_entry(k, entries[k]) is Ok,
    ensures
        forall|k: Seq<char>| entries.contains_key(k) <==> has_name(records, k),
        forall|i: int|
            0 <= i < records.len() ==> entries.contains_key((#[trigger] records[i]).0)
                && parse_entry(records[i].0, entries[records[i].0]) == Ok::<
                SingleKindView,
                DecodeError,
            >(records[i].1),
{
    lemma_pairs_names(records);
    lemma_pairs_members(records);
    assert forall|k: Seq<char>| entries.contains_key(k) <==> has_name(records, k) by {
        assert(parsed_entries(entries).contains_key(k) == entries.contains_key(k));
    }
    assert forall|i: int| 0 <= i < records.len() implies entries.contains_key(
        (#[trigger] records[i]).0,
    ) && parse_entry(records[i].0, entries[records[i].0]) == Ok::<SingleKindView, DecodeError>(
        records[i].1,
    ) by {
        let k = records[i].0;
        assert(pairs_to_map(records).contains_key(k));
        assert(parsed_entries(entries).contains_key(k));
        assert(pairs_to_map(records)[k] == records[i].1);
    }
}

/// A record that was read from a document and built into a context: the
/// document denotes that context.
proof fn lemma_built(j: Json, record: VariantView, context: ContextView)
    requires
        reads_as(j, Ok(record)),
        converted(record) == Ok::<ContextView, BuildError>(context),
    ensures
        decoded(j) == Some(context),
{
    let m = j->Object_0;
    if let VariantView::Multi(multi) = record {
        let entries = m.remove("kind"@);
        let records = multi.contexts;
        lemma_multi_records(entries, records);
        lemma_nested_contexts_ok(records);
        let built = nested_contexts(records)->Ok_0;
        let pairs = keyed(built);
        assert forall|i: int| 0 <= i < records.len() implies (#[trigger] pairs[i]).0
            == records[i].0 && decode_entry(records[i].0, entries[records[i].0]) == Ok::<
            SingleView,
            DecodeError,
        >(pairs[i].1) by {
            assert(single_context(records[i].0, records[i].1) == Ok::<SingleView, BuildError>(
                built[i],
            ));
        }
        lemma_pairs_names(pairs);
        lemma_pairs_members(pairs);
        assert forall|k: Seq<char>| #[trigger] entries.contains_key(k) implies decode_entry(
            k,
            entries[k],
        ) is Ok && pairs_to_map(pairs).contains_key(k) && pairs_to_map(pairs)[k]
            == decoded_entries(entries)[k] by {
            assert(has_name(records, k));
            let i = choose|i: int| 0 <= i < records.len() && #[trigger] records[i].0 == k;
            assert(pairs[i].0 == k);
            assert(pairs_to_map(pairs)[pairs[i].0] == pairs[i].1);
        }
        assert forall|k: Seq<char>| pairs_to_map(pairs).contains_key(k) implies entries.contains_key(
            k,
        ) by {
            let i = choose|i: int| 0 <= i < pairs.len() && #[trigger] pairs[i].0 == k;
            assert(records[i].0 == k);
        }
        assert(pairs_to_map(pairs) =~= decoded_entries(entries));
    }
}

/// A record that was read from a document and turned down by a builder: the
/// document denotes no context, and the builder's error is one with which
/// it is turned down.
proof fn lemma_build_error(j: Json, record: VariantView, e: BuildError)
    requires
        reads_as(j, Ok(record)),
        converted(record) == Err::<ContextView, BuildError>(e),
    ensures
        decoded(j) is None,
        rejects(j, DecodeError::BuilderError(e)),
{
    let m = j->Object_0;
    if let VariantView::Multi(multi) = record {
        let entries = m.remove("kind"@);
        let records = multi.contexts;
        lemma_multi_records(entries, records);
        if nested_contexts(records) is Err {
            let i = lemma_nested_contexts_err(records);
            let k = records[i].0;
            assert(entries.contains_key(k) && decode_entry(k, entries[k]) == Err::<
                SingleView,
                DecodeError,
            >(DecodeError::BuilderError(e)));
            assert(entries != Map::<Seq<char>, Json>::empty());
        } else {
            lemma_nested_contexts_ok(records);
            let built = nested_contexts(records)->Ok_0;
            let pairs = keyed(built);
            let k0 = choose|k: Seq<char>| entries.contains_key(k);
            assert(has_name(records, k0));
            assert forall|a: int, b: int| 0 <= a < b < pairs.len() implies pairs[a].0
                != pairs[b].0 by {
                assert(single_context(records[a].0, records[a].1) == Ok::<
                    SingleView,
                    BuildError,
                >(built[a]));
                assert(single_context(records[b].0, records[b].1) == Ok::<
                    SingleView,
                    BuildError,
                >(built[b]));
                assert(records[a].0 != records[b].0);
            }
            assert(false);
        }
    }
}

/// The document that is written for a context: for a context of a single
/// kind the object of its members with its kind, and for a multi-context
/// the object that holds, under each kind, the object of the members of the
/// context of that kind, and holds `multi` as its own kind. `anonymous` is
/// written where it is true, and `_meta` where it has a member.
pub open spec fn encoded(c: ContextView) -> Json {
    match c {
        ContextView::Single(s) => Json::Object(
            single_members(project_single(s)).insert("kind"@, Json::String(s.kind)),
        ),
        ContextView::Multi(m) => Json::Object(
            m.map_values(|s: SingleView| Json::Object(single_members(project_single(s)))).insert(
                "kind"@,
                Json::String("multi"@),
            ),
        ),
    }
}

/// Writes a context as a document, in the shape of a multi-context or in
/// that of a context that states its kind.
pub fn encode(context: &Context) -> (r: JsonValue)
    ensures
        r@ == encoded(context@),
{
    let variant = ContextVariant::from(context.clone());
    proof {
        if let ContextView::Multi(m) = context@ {
            let records = variant@->Multi_0.contexts;
            let f = |s: SingleKindView| Json::Object(single_members(s));
            lemma_pairs_map_values(records, nested_members(records), f);
            assert(pairs_to_map(records).map_values(f) =~= m.map_values(
                |s: SingleView| Json::Object(single_members(project_single(s))),
            ));
        }
    }
    variant.serialize()
}

} // verus!
