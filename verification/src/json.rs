//! JSON documents: the executable tree, its mathematical value, and an object
//! type that keeps its member names distinct.

use crate::text::str_eq;
use vstd::prelude::*;

verus! {

/// The mathematical value of a JSON document. Two documents that differ only
/// in the order of an object's members have the same value.
///
/// A number is held as the bit pattern of the IEEE 754 double that it denotes.
pub enum Json {
    Null,
    Bool(bool),
    Number(u64),
    String(Seq<char>),
    Array(Seq<Json>),
    Object(Map<Seq<char>, Json>),
}

/// The map that a sequence of named members denotes. Where a name occurs more
/// than once, its last occurrence counts.
pub open spec fn pairs_to_map<V>(s: Seq<(Seq<char>, V)>) -> Map<Seq<char>, V>
    decreases s.len(),
{
    if s.len() == 0 {
        Map::empty()
    } else {
        pairs_to_map(s.drop_last()).insert(s.last().0, s.last().1)
    }
}

/// No name occurs twice among the members.
pub open spec fn distinct_names<V>(s: Seq<(Seq<char>, V)>) -> bool {
    forall|i: int, j: int| 0 <= i < j < s.len() ==> s[i].0 != s[j].0
}

/// Some member of `s` is named `k`.
pub open spec fn has_name<V>(s: Seq<(Seq<char>, V)>, k: Seq<char>) -> bool {
    exists|i: int| 0 <= i < s.len() && #[trigger] s[i].0 == k
}

/// The names of `pairs_to_map(s)` are the names that occur in `s`.
pub proof fn lemma_pairs_names<V>(s: Seq<(Seq<char>, V)>)
    ensures
        forall|k: Seq<char>| #[trigger] pairs_to_map(s).contains_key(k) <==> has_name(s, k),
        pairs_to_map(s).dom().finite(),
    decreases s.len(),
{
    if s.len() > 0 {
        let t = s.drop_last();
        lemma_pairs_names(t);
        assert forall|k: Seq<char>| #[trigger]
            pairs_to_map(s).contains_key(k) <==> has_name(s, k) by {
            if has_name(t, k) {
                let i = choose|i: int| 0 <= i < t.len() && #[trigger] t[i].0 == k;
                assert(s[i].0 == k);
            }
            if has_name(s, k) && k != s.last().0 {
                let i = choose|i: int| 0 <= i < s.len() && #[trigger] s[i].0 == k;
                assert(t[i].0 == k);
            }
            if k == s.last().0 {
                assert(s[s.len() - 1].0 == k);
            }
        }
    }
}

/// With distinct names, each member is found under its own name.
pub proof fn lemma_pairs_members<V>(s: Seq<(Seq<char>, V)>)
    requires
        distinct_names(s),
    ensures
        forall|i: int|
            0 <= i < s.len() ==> pairs_to_map(s).contains_key(#[trigger] s[i].0) && pairs_to_map(
                s,
            )[s[i].0] == s[i].1,
        pairs_to_map(s).dom().finite(),
        pairs_to_map(s).len() == s.len(),
    decreases s.len(),
{
    lemma_pairs_names(s);
    if s.len() > 0 {
        let t = s.drop_last();
        assert(distinct_names(t)) by {
            assert forall|i: int, j: int| 0 <= i < j < t.len() implies t[i].0 != t[j].0 by {
                assert(s[i].0 != s[j].0);
            }
        }
        lemma_pairs_members(t);
        lemma_pairs_names(t);
        assert forall|i: int| 0 <= i < s.len() implies pairs_to_map(s).contains_key(
            #[trigger] s[i].0,
        ) && pairs_to_map(s)[s[i].0] == s[i].1 by {
            if i < s.len() - 1 {
                assert(t[i] == s[i]);
                assert(s[i].0 != s[s.len() - 1].0);
            }
        }
        assert(!pairs_to_map(t).contains_key(s.last().0)) by {
            if has_name(t, s.last().0) {
                let i = choose|i: int| 0 <= i < t.len() && #[trigger] t[i].0 == s.last().0;
                assert(s[i].0 != s[s.len() - 1].0);
            }
        }
    }
}

/// Appending a member under a new name inserts it into the map.
pub proof fn lemma_pairs_push<V>(s: Seq<(Seq<char>, V)>, p: (Seq<char>, V))
    requires
        distinct_names(s),
        !has_name(s, p.0),
    ensures
        distinct_names(s.push(p)),
        pairs_to_map(s.push(p)) == pairs_to_map(s).insert(p.0, p.1),
{
    let t = s.push(p);
    assert(t.drop_last() =~= s);
    assert forall|i: int, j: int| 0 <= i < j < t.len() implies t[i].0 != t[j].0 by {
        if j == s.len() {
            assert(s[i].0 != p.0);
        } else {
            assert(s[i].0 != s[j].0);
        }
    }
}

/// Taking a member out removes its name from the map.
pub proof fn lemma_pairs_remove<V>(s: Seq<(Seq<char>, V)>, i: int)
    requires
        distinct_names(s),
        0 <= i < s.len(),
    ensures
        distinct_names(s.remove(i)),
        !has_name(s.remove(i), s[i].0),
        pairs_to_map(s.remove(i)) == pairs_to_map(s).remove(s[i].0),
{
    let t = s.remove(i);
    assert forall|a: int, b: int| 0 <= a < b < t.len() implies t[a].0 != t[b].0 by {
        let a0 = if a < i { a } else { a + 1 };
        let b0 = if b < i { b } else { b + 1 };
        assert(s[a0].0 != s[b0].0);
    }
    if has_name(t, s[i].0) {
        let a = choose|a: int| 0 <= a < t.len() && #[trigger] t[a].0 == s[i].0;
        let a0 = if a < i { a } else { a + 1 };
        assert(s[a0].0 != s[i].0 || s[i].0 != s[a0].0);
    }
    lemma_pairs_names(s);
    lemma_pairs_names(t);
    lemma_pairs_members(s);
    lemma_pairs_members(t);
    let ms = pairs_to_map(s).remove(s[i].0);
    let mt = pairs_to_map(t);
    assert forall|k: Seq<char>| mt.contains_key(k) implies ms.contains_key(k) && ms[k] == mt[k] by {
        let a = choose|a: int| 0 <= a < t.len() && #[trigger] t[a].0 == k;
        let a0 = if a < i { a } else { a + 1 };
        assert(s[a0] == t[a]);
        assert(s[a0].0 == k);
    }
    assert forall|k: Seq<char>| ms.contains_key(k) implies mt.contains_key(k) by {
        let a0 = choose|a0: int| 0 <= a0 < s.len() && #[trigger] s[a0].0 == k;
        let a = if a0 < i { a0 } else { a0 - 1 };
        assert(t[a] == s[a0]);
        assert(t[a].0 == k);
    }
    assert(ms =~= mt);
}

/// Changing each value by `f` and then taking the map is taking the map and
/// then changing each value by `f`.
pub proof fn lemma_pairs_map_values<V, W>(
    s: Seq<(Seq<char>, V)>,
    t: Seq<(Seq<char>, W)>,
    f: spec_fn(V) -> W,
)
    requires
        t.len() == s.len(),
        forall|i: int| 0 <= i < s.len() ==> (#[trigger] t[i]) == (s[i].0, f(s[i].1)),
    ensures
        pairs_to_map(t) == pairs_to_map(s).map_values(f),
        distinct_names(s) ==> distinct_names(t),
    decreases s.len(),
{
    if s.len() == 0 {
        assert(pairs_to_map(t) =~= pairs_to_map(s).map_values(f));
    } else {
        let s0 = s.drop_last();
        let t0 = t.drop_last();
        assert forall|i: int| 0 <= i < s0.len() implies (#[trigger] t0[i]) == (
            s0[i].0,
            f(s0[i].1),
        ) by {
            assert(t0[i] == t[i]);
        }
        lemma_pairs_map_values(s0, t0, f);
        assert(t.last() == (s.last().0, f(s.last().1)));
        assert(pairs_to_map(t) =~= pairs_to_map(s).map_values(f));
    }
    if distinct_names(s) {
        assert forall|i: int, j: int| 0 <= i < j < t.len() implies t[i].0 != t[j].0 by {
            assert(s[i].0 != s[j].0);
        }
    }
}

/// A JSON document.
///
/// A number is held as the bit pattern of the IEEE 754 double that it denotes
/// (what `f64::to_bits` gives).
#[derive(Debug)]
pub enum JsonValue {
    Null,
    Bool(bool),
    Number(u64),
    String(String),
    Array(Vec<JsonValue>),
    Object(JsonObject),
}

/// The value of an attribute of a context: any JSON document.
pub type AttributeValue = JsonValue;

/// A JSON object: named members, no name twice. The order in which members
/// were inserted carries no meaning.
#[derive(Debug)]
pub struct JsonObject {
    entries: Vec<(String, JsonValue)>,
}

impl JsonValue {
    /// The mathematical value of this document.
    pub open spec fn view(&self) -> Json
        decreases self, 0nat,
    {
        match self {
            JsonValue::Null => Json::Null,
            JsonValue::Bool(b) => Json::Bool(*b),
            JsonValue::Number(n) => Json::Number(*n),
            JsonValue::String(s) => Json::String(s@),
            JsonValue::Array(items) => Json::Array(values_of(items@)),
            JsonValue::Object(object) => Json::Object(object.view()),
        }
    }
}

/// The mathematical values of a sequence of documents, in order.
pub open spec fn values_of(items: Seq<JsonValue>) -> Seq<Json>
    decreases items, 0nat,
{
    Seq::new(
        items.len(),
        |i: int|
            if 0 <= i < items.len() {
                items[i].view()
            } else {
                Json::Null
            },
    )
}

/// The names and mathematical values of a sequence of stored members.
pub open spec fn members_of(entries: Seq<(String, JsonValue)>) -> Seq<(Seq<char>, Json)>
    decreases entries, 0nat,
{
    Seq::new(
        entries.len(),
        |i: int|
            if 0 <= i < entries.len() {
                (entries[i].0@, entries[i].1.view())
            } else {
                (Seq::empty(), Json::Null)
            },
    )
}

impl JsonObject {
    #[verifier::type_invariant]
    spec fn names_are_distinct(&self) -> bool {
        distinct_names(members_of(self.entries@))
    }

    /// The members in the order in which they are stored.
    spec fn members(&self) -> Seq<(Seq<char>, Json)>
        decreases self, 0nat,
    {
        members_of(self.entries@)
    }

    /// The object as a map from member name to member value.
    pub closed spec fn view(&self) -> Map<Seq<char>, Json>
        decreases self, 1nat,
    {
        pairs_to_map(self.members())
    }
}

impl JsonObject {
    /// An object without members.
    pub fn new() -> (r: Self)
        ensures
            r@ == Map::<Seq<char>, Json>::empty(),
    {
        JsonObject { entries: Vec::new() }
    }

    /// The number of members.
    pub fn len(&self) -> (n: usize)
        ensures
            self@.dom().finite(),
            n == self@.len(),
    {
        proof {
            use_type_invariant(self);
            lemma_pairs_members(self.members());
        }
        self.entries.len()
    }

    /// Whether the object has no member.
    pub fn is_empty(&self) -> (b: bool)
        ensures
            b == (self@ == Map::<Seq<char>, Json>::empty()),
    {
        proof {
            use_type_invariant(self);
            lemma_pairs_members(self.members());
            if self.entries@.len() > 0 {
                assert(self@.contains_key(self.members()[0].0));
            }
        }
        self.entries.len() == 0
    }

    fn position(&self, key: &str) -> (r: Option<usize>)
        ensures
            match r {
                Some(i) => i < self.entries@.len() && self.entries@[i as int].0@ == key@,
                None => forall|i: int| 0 <= i < self.entries@.len() ==> self.entries@[i].0@ != key@,
            },
    {
        let mut i: usize = 0;
        while i < self.entries.len()
            invariant
                i <= self.entries@.len(),
                forall|j: int| 0 <= j < i ==> self.entries@[j].0@ != key@,
            decreases self.entries@.len() - i,
        {
            if str_eq(self.entries[i].0.as_str(), key) {
                return Some(i);
            }
            i += 1;
        }
        None
    }

    /// The member named `key`, if there is one.
    pub fn get(&self, key: &str) -> (r: Option<&JsonValue>)
        ensures
            match r {
                Some(value) => self@.contains_key(key@) && value@ == self@[key@],
                None => !self@.contains_key(key@),
            },
    {
        proof {
            use_type_invariant(self);
            lemma_pairs_names(self.members());
            lemma_pairs_members(self.members());
        }
        match self.position(key) {
            Some(i) => {
                assert(self.members()[i as int].0 == key@);
                Some(&self.entries[i].1)
            },
            None => {
                assert(!has_name(self.members(), key@));
                None
            },
        }
    }

    /// The names of the members, each once, in an order that is not
    /// specified.
    pub fn names(&self) -> (r: Vec<String>)
        ensures
            r@.len() == self@.len(),
            forall|i: int| 0 <= i < r@.len() ==> self@.contains_key(#[trigger] r@[i]@),
            forall|i: int, j: int| 0 <= i < j < r@.len() ==> r@[i]@ != r@[j]@,
            forall|k: Seq<char>|
                self@.contains_key(k) ==> exists|i: int| 0 <= i < r@.len() && #[trigger] r@[i]@ == k,
    {
        proof {
            use_type_invariant(self);
            lemma_pairs_names(self.members());
            lemma_pairs_members(self.members());
        }
        let mut out: Vec<String> = Vec::new();
        let mut i: usize = 0;
        while i < self.entries.len()
            invariant
                i <= self.entries@.len(),
                out@.len() == i,
                forall|j: int| 0 <= j < i ==> (#[trigger] out@[j])@ == self.members()[j].0,
            decreases self.entries@.len() - i,
        {
            out.push(self.entries[i].0.clone());
            i += 1;
        }
        proof {
            assert forall|j: int| 0 <= j < out@.len() implies self@.contains_key(
                #[trigger] out@[j]@,
            ) by {
                assert(self@.contains_key(self.members()[j].0));
            }
            assert forall|a: int, b: int| 0 <= a < b < out@.len() implies out@[a]@ != out@[b]@ by {
                assert(self.members()[a].0 != self.members()[b].0);
            }
            assert forall|k: Seq<char>| self@.contains_key(k) implies exists|j: int|
                0 <= j < out@.len() && #[trigger] out@[j]@ == k by {
                let j = choose|j: int|
                    0 <= j < self.members().len() && #[trigger] self.members()[j].0 == k;
                assert(out@[j]@ == k);
            }
        }
        out
    }

    /// Whether a member is named `key`.
    pub fn contains_key(&self, key: &str) -> (b: bool)
        ensures
            b == self@.contains_key(key@),
    {
        self.get(key).is_some()
    }

    /// Sets the member named `key` to `value`, in place of an earlier member
    /// of that name if there was one.
    pub fn insert(&mut self, key: String, value: JsonValue)
        ensures
            final(self)@ == old(self)@.insert(key@, value@),
    {
        proof {
            use_type_invariant(&*self);
        }
        let ghost before = self.members();
        let found = self.position(key.as_str());
        let mut entries: Vec<(String, JsonValue)> = Vec::new();
        assert(members_of(entries@) =~= Seq::empty());
        core::mem::swap(&mut self.entries, &mut entries);
        if let Some(i) = found {
            let _ = entries.remove(i);
            proof {
                assert(members_of(entries@) =~= before.remove(i as int));
                lemma_pairs_remove(before, i as int);
            }
        } else {
            assert forall|j: int| 0 <= j < before.len() implies #[trigger] before[j].0 != key@ by {}
            assert(!has_name(before, key@));
        }
        let ghost middle = members_of(entries@);
        entries.push((key, value));
        proof {
            assert(members_of(entries@) =~= middle.push((key@, value@)));
            lemma_pairs_push(middle, (key@, value@));
            assert(pairs_to_map(before).remove(key@).insert(key@, value@) =~= pairs_to_map(
                before,
            ).insert(key@, value@));
        }
        core::mem::swap(&mut self.entries, &mut entries);
    }

    /// Takes the member named `key` out of the object, if there is one.
    pub fn remove(&mut self, key: &str) -> (r: Option<JsonValue>)
        ensures
            final(self)@ == old(self)@.remove(key@),
            match r {
                Some(value) => old(self)@.contains_key(key@) && value@ == old(self)@[key@],
                None => !old(self)@.contains_key(key@),
            },
    {
        proof {
            use_type_invariant(&*self);
            lemma_pairs_names(self.members());
            lemma_pairs_members(self.members());
        }
        let ghost before = self.members();
        match self.position(key) {
            Some(i) => {
                assert(before[i as int].0 == key@);
                let mut entries: Vec<(String, JsonValue)> = Vec::new();
                assert(members_of(entries@) =~= Seq::empty());
                core::mem::swap(&mut self.entries, &mut entries);
                let entry = entries.remove(i);
                proof {
                    assert(members_of(entries@) =~= before.remove(i as int));
                    lemma_pairs_remove(before, i as int);
                }
                core::mem::swap(&mut self.entries, &mut entries);
                Some(entry.1)
            },
            None => {
                assert forall|j: int| 0 <= j < before.len() implies #[trigger] before[j].0
                    != key@ by {}
                assert(!has_name(before, key@));
                assert(self@.remove(key@) =~= self@);
                None
            },
        }
    }

    /// Takes some member out of the object; which one is not specified.
    /// Returns `None` exactly when the object has no member.
    pub fn pop(&mut self) -> (r: Option<(String, JsonValue)>)
        ensures
            old(self)@.dom().finite(),
            match r {
                Some(entry) => {
                    &&& old(self)@.contains_key(entry.0@)
                    &&& entry.1@ == old(self)@[entry.0@]
                    &&& final(self)@ == old(self)@.remove(entry.0@)
                    &&& final(self)@.len() + 1 == old(self)@.len()
                },
                None => {
                    &&& old(self)@ == Map::<Seq<char>, Json>::empty()
                    &&& final(self)@ == old(self)@
                },
            },
    {
        proof {
            use_type_invariant(&*self);
            lemma_pairs_names(self.members());
            lemma_pairs_members(self.members());
        }
        let ghost before = self.members();
        let n = self.entries.len();
        if n == 0 {
            assert(self@ =~= Map::<Seq<char>, Json>::empty());
            return None;
        }
        let mut entries: Vec<(String, JsonValue)> = Vec::new();
        assert(members_of(entries@) =~= Seq::empty());
        core::mem::swap(&mut self.entries, &mut entries);
        let entry = entries.remove(n - 1);
        proof {
            assert(before[n - 1].0 == entry.0@);
            assert(members_of(entries@) =~= before.remove(n - 1));
            lemma_pairs_remove(before, n - 1);
            lemma_pairs_members(members_of(entries@));
        }
        core::mem::swap(&mut self.entries, &mut entries);
        Some(entry)
    }
}

impl Clone for JsonValue {
    /// A copy with the same mathematical value.
    fn clone(&self) -> (r: Self)
        ensures
            r@ == self@,
        decreases self, 0nat,
    {
        match self {
            JsonValue::Null => JsonValue::Null,
            JsonValue::Bool(b) => JsonValue::Bool(*b),
            JsonValue::Number(n) => JsonValue::Number(*n),
            JsonValue::String(s) => JsonValue::String(s.clone()),
            JsonValue::Array(items) => {
                let mut copy: Vec<JsonValue> = Vec::new();
                let mut i: usize = 0;
                while i < items.len()
                    invariant
                        *self matches JsonValue::Array(v) && v == *items,
                        i <= items@.len(),
                        copy@.len() == i,
                        forall|j: int| 0 <= j < i ==> copy@[j]@ == items@[j]@,
                    decreases items@.len() - i,
                {
                    let item = items[i].clone();
                    copy.push(item);
                    i += 1;
                }
                assert(values_of(copy@) =~= values_of(items@));
                JsonValue::Array(copy)
            },
            JsonValue::Object(object) => JsonValue::Object(object.clone()),
        }
    }
}

impl Clone for JsonObject {
    /// A copy with the same members.
    fn clone(&self) -> (r: Self)
        ensures
            r@ == self@,
        decreases self, 0nat,
    {
        proof {
            use_type_invariant(self);
        }
        let mut copy: Vec<(String, JsonValue)> = Vec::new();
        let mut i: usize = 0;
        while i < self.entries.len()
            invariant
                i <= self.entries@.len(),
                copy@.len() == i,
                forall|j: int|
                    0 <= j < i ==> copy@[j].0@ == self.entries@[j].0@ && copy@[j].1@
                        == self.entries@[j].1@,
            decreases self.entries@.len() - i,
        {
            let name = self.entries[i].0.clone();
            let value = self.entries[i].1.clone();
            copy.push((name, value));
            i += 1;
        }
        assert(members_of(copy@) =~= members_of(self.entries@));
        JsonObject { entries: copy }
    }
}

impl PartialEq for JsonValue {
    /// Whether two documents have the same mathematical value: the order of
    /// the members of an object is of no account.
    fn eq(&self, other: &JsonValue) -> (r: bool)
        decreases self, 0nat,
    {
        match (self, other) {
            (JsonValue::Null, JsonValue::Null) => true,
            (JsonValue::Bool(a), JsonValue::Bool(b)) => *a == *b,
            (JsonValue::Number(a), JsonValue::Number(b)) => *a == *b,
            (JsonValue::String(a), JsonValue::String(b)) => str_eq(a.as_str(), b.as_str()),
            (JsonValue::Array(a), JsonValue::Array(b)) => {
                if a.len() != b.len() {
                    assert(values_of(a@).len() != values_of(b@).len());
                    return false;
                }
                let mut i: usize = 0;
                while i < a.len()
                    invariant
                        *self matches JsonValue::Array(v) && v == *a,
                        *other matches JsonValue::Array(v) && v == *b,
                        a@.len() == b@.len(),
                        i <= a@.len(),
                        forall|j: int| 0 <= j < i ==> a@[j]@ == b@[j]@,
                    decreases a@.len() - i,
                {
                    if !a[i].eq(&b[i]) {
                        assert(values_of(a@)[i as int] != values_of(b@)[i as int]);
                        return false;
                    }
                    i += 1;
                }
                assert(values_of(a@) =~= values_of(b@));
                true
            },
            (JsonValue::Object(a), JsonValue::Object(b)) => a.eq(b),
            _ => false,
        }
    }
}

impl vstd::std_specs::cmp::PartialEqSpecImpl for JsonValue {
    open spec fn obeys_eq_spec() -> bool {
        true
    }

    open spec fn eq_spec(&self, other: &JsonValue) -> bool {
        self@ == other@
    }
}

impl PartialEq for JsonObject {
    /// Whether two objects have the same members.
    fn eq(&self, other: &JsonObject) -> (r: bool)
        decreases self, 0nat,
    {
        proof {
            use_type_invariant(self);
            use_type_invariant(other);
            lemma_pairs_names(self.members());
            lemma_pairs_members(self.members());
            lemma_pairs_names(other.members());
            lemma_pairs_members(other.members());
        }
        if self.entries.len() != other.entries.len() {
            return false;
        }
        let mut i: usize = 0;
        while i < self.entries.len()
            invariant
                i <= self.entries@.len(),
                forall|j: int|
                    0 <= j < i ==> other@.contains_key(#[trigger] self.members()[j].0)
                        && other@[self.members()[j].0] == self.members()[j].1,
            decreases self.entries@.len() - i,
        {
            proof {
                use_type_invariant(self);
                lemma_pairs_members(self.members());
            }
            let ghost name = self.members()[i as int].0;
            assert(self@.contains_key(name) && self@[name] == self.members()[i as int].1);
            match other.get(self.entries[i].0.as_str()) {
                None => {
                    return false;
                },
                Some(value) => {
                    if !self.entries[i].1.eq(value) {
                        return false;
                    }
                },
            }
            i += 1;
        }
        proof {
            assert forall|k: Seq<char>| self@.contains_key(k) implies other@.contains_key(k)
                && other@[k] == self@[k] by {
                let j = choose|j: int|
                    0 <= j < self.members().len() && #[trigger] self.members()[j].0 == k;
                assert(other@.contains_key(self.members()[j].0));
            }
            assert(self@.dom().subset_of(other@.dom()));
            vstd::set_lib::lemma_subset_equality(self@.dom(), other@.dom());
            assert(self@ =~= other@);
        }
        true
    }
}

impl vstd::std_specs::cmp::PartialEqSpecImpl for JsonObject {
    open spec fn obeys_eq_spec() -> bool {
        true
    }

    open spec fn eq_spec(&self, other: &JsonObject) -> bool {
        self@ == other@
    }
}

} // verus!
