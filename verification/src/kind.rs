//! The kind of a context.

use crate::error::KindError;
use crate::text::{lemma_wire_names, str_eq};
use vstd::prelude::*;

verus! {

/// What is wrong with `name` as a kind, if anything: the empty string and the
/// word `kind` are no kinds.
pub open spec fn kind_error(name: Seq<char>) -> Option<KindError> {
    if name.len() == 0 {
        Some(KindError::Empty)
    } else if name == "kind"@ {
        Some(KindError::Reserved)
    } else {
        None
    }
}

/// Whether `name` can be the kind of a context. `multi` is a kind: it is the
/// kind of every multi-context, and of no other.
pub open spec fn valid_kind(name: Seq<char>) -> bool {
    kind_error(name) is None
}

/// The kind of a context: a string that is neither empty nor `kind`. Kinds
/// are compared as they are written, letter case included.
#[derive(Debug)]
pub struct Kind {
    name: String,
}

impl Kind {
    #[verifier::type_invariant]
    spec fn is_valid(&self) -> bool {
        valid_kind(self.name@)
    }

    /// The characters of the kind.
    pub closed spec fn view(&self) -> Seq<char> {
        self.name@
    }

    /// Makes a kind of `name`, or says why it is none.
    pub fn new(name: String) -> (r: Result<Kind, KindError>)
        ensures
            match r {
                Ok(kind) => kind@ == name@ && valid_kind(name@),
                Err(e) => kind_error(name@) == Some(e),
            },
    {
        if name.as_str().is_empty() {
            Err(KindError::Empty)
        } else if str_eq(name.as_str(), "kind") {
            Err(KindError::Reserved)
        } else {
            Ok(Kind { name })
        }
    }

    /// The kind `user`, which a context has unless it is given another.
    pub fn user() -> (r: Kind)
        ensures
            r@ == "user"@,
    {
        proof {
            lemma_wire_names();
        }
        Kind { name: "user".to_owned() }
    }

    /// The kind `multi`, which every multi-context has.
    pub fn multi() -> (r: Kind)
        ensures
            r@ == "multi"@,
    {
        proof {
            lemma_wire_names();
        }
        Kind { name: "multi".to_owned() }
    }

    /// Whether this is the kind `multi`.
    pub fn is_multi(&self) -> (b: bool)
        ensures
            b == (self@ == "multi"@),
            valid_kind(self@),
    {
        proof {
            use_type_invariant(self);
        }
        str_eq(self.name.as_str(), "multi")
    }

    /// Whether this is the kind `user`.
    pub fn is_user(&self) -> (b: bool)
        ensures
            b == (self@ == "user"@),
            valid_kind(self@),
    {
        proof {
            use_type_invariant(self);
        }
        str_eq(self.name.as_str(), "user")
    }

    /// The kind as a string slice.
    pub fn as_str(&self) -> (r: &str)
        ensures
            r@ == self@,
            valid_kind(self@),
    {
        proof {
            use_type_invariant(self);
        }
        self.name.as_str()
    }

    /// The kind as a string.
    pub fn into_string(self) -> (r: String)
        ensures
            r@ == self@,
            valid_kind(self@),
    {
        proof {
            use_type_invariant(&self);
        }
        self.name
    }
}

impl Clone for Kind {
    fn clone(&self) -> (r: Self)
        ensures
            r@ == self@,
    {
        proof {
            use_type_invariant(self);
        }
        Kind { name: self.name.clone() }
    }
}

} // verus!
