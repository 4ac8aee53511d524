//! String comparison and the attribute names that the wire format reserves.

use vstd::prelude::*;
use vstd::utf8::*;

verus! {

/// Whether two string slices hold the same characters.
pub fn str_eq(a: &str, b: &str) -> (r: bool)
    ensures
        r == (a@ == b@),
{
    let x = a.as_bytes();
    let y = b.as_bytes();
    proof {
        encode_utf8_decode_utf8(a@);
        encode_utf8_decode_utf8(b@);
    }
    if x.len() != y.len() {
        return false;
    }
    let mut i: usize = 0;
    while i < x.len()
        invariant
            x@ == encode_utf8(a@),
            y@ == encode_utf8(b@),
            x@.len() == y@.len(),
            0 <= i <= x@.len(),
            forall|j: int| 0 <= j < i ==> x@[j] == y@[j],
        decreases x@.len() - i,
    {
        if x[i] != y[i] {
            return false;
        }
        i += 1;
    }
    assert(x@ =~= y@);
    true
}

/// The names that a custom attribute of a legacy user may not take, because
/// each of them already has a meaning at the top level of a context.
pub open spec fn is_reserved_name(name: Seq<char>) -> bool {
    ||| name == "kind"@
    ||| name == "key"@
    ||| name == "name"@
    ||| name == "anonymous"@
    ||| name == "_meta"@
}

/// The member names of the wire format differ pairwise: no two of them agree
/// in both length and first character.
pub proof fn lemma_wire_names()
    ensures
        "kind"@.len() == 4 && "kind"@[0] == 'k',
        "key"@.len() == 3 && "key"@[0] == 'k',
        "name"@.len() == 4 && "name"@[0] == 'n',
        "anonymous"@.len() == 9 && "anonymous"@[0] == 'a',
        "_meta"@.len() == 5 && "_meta"@[0] == '_',
        "multi"@.len() == 5 && "multi"@[0] == 'm',
        "user"@.len() == 4 && "user"@[0] == 'u',
        "secondary"@.len() == 9 && "secondary"@[0] == 's',
        "privateAttributes"@.len() == 17 && "privateAttributes"@[0] == 'p',
        "custom"@.len() == 6 && "custom"@[0] == 'c',
        "privateAttributeNames"@.len() == 21 && "privateAttributeNames"@[0] == 'p',
        "firstName"@.len() == 9 && "firstName"@[0] == 'f',
        "lastName"@.len() == 8 && "lastName"@[0] == 'l',
        "avatar"@.len() == 6 && "avatar"@[0] == 'a',
        "email"@.len() == 5 && "email"@[0] == 'e',
        "country"@.len() == 7 && "country"@[0] == 'c',
        "ip"@.len() == 2 && "ip"@[0] == 'i',
{
    reveal_strlit("kind");
    reveal_strlit("key");
    reveal_strlit("name");
    reveal_strlit("anonymous");
    reveal_strlit("_meta");
    reveal_strlit("multi");
    reveal_strlit("user");
    reveal_strlit("secondary");
    reveal_strlit("privateAttributes");
    reveal_strlit("custom");
    reveal_strlit("privateAttributeNames");
    reveal_strlit("firstName");
    reveal_strlit("lastName");
    reveal_strlit("avatar");
    reveal_strlit("email");
    reveal_strlit("country");
    reveal_strlit("ip");
}

/// The characters of an optional string.
pub open spec fn opt_chars(s: Option<String>) -> Option<Seq<char>> {
    match s {
        Some(s) => Some(s@),
        None => None,
    }
}

/// The characters of each string of a sequence, in order.
pub open spec fn strings_of(v: Seq<String>) -> Seq<Seq<char>> {
    Seq::new(v.len(), |i: int| v[i]@)
}

/// The characters of each string of an optional list, in order.
pub open spec fn opt_strings_of(v: Option<Vec<String>>) -> Option<Seq<Seq<char>>> {
    match v {
        Some(v) => Some(strings_of(v@)),
        None => None,
    }
}

/// A copy of an optional string.
pub fn clone_opt_string(s: &Option<String>) -> (r: Option<String>)
    ensures
        opt_chars(r) == opt_chars(*s),
{
    match s {
        Some(s) => Some(s.clone()),
        None => None,
    }
}

/// Whether two optional strings are both absent or hold the same characters.
pub fn opt_string_eq(a: &Option<String>, b: &Option<String>) -> (r: bool)
    ensures
        r == (opt_chars(*a) == opt_chars(*b)),
{
    match (a, b) {
        (None, None) => true,
        (Some(a), Some(b)) => str_eq(a.as_str(), b.as_str()),
        _ => false,
    }
}

} // verus!
