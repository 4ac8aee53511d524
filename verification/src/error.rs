//! The ways in which a document or a builder is turned down.

use vstd::prelude::*;

verus! {

/// Why a value cannot be the kind of a context.
#[derive(Debug, Clone, Copy, PartialEq, Eq, Structural)]
pub enum KindError {
    /// The `kind` member is present and null.
    Null,
    /// The `kind` member is present and is a boolean, a number, an array or
    /// an object.
    NotAString,
    /// The kind is the empty string.
    Empty,
    /// The kind is the word `kind` itself.
    Reserved,
    /// The kind of what is read as a multi-context is not `multi`.
    NotMulti,
}

/// Why a builder does not yield a context.
#[derive(Debug, Clone, Copy, PartialEq, Eq, Structural)]
pub enum BuildError {
    /// The kind is empty or is the word `kind`.
    InvalidKind(KindError),
    /// The kind `multi` was given to the builder of a single context.
    MultiKind,
    /// The key is empty and the builder was not told to allow that.
    EmptyKey,
    /// A multi-context was built from no context at all.
    NoContexts,
    /// Two contexts of a multi-context have the same kind.
    DuplicateKind,
}

/// Why a document does not denote a context.
#[derive(Debug, Clone, Copy, PartialEq, Eq, Structural)]
pub enum DecodeError {
    /// The document, or a context nested in a multi-context, is not a JSON
    /// object.
    NotAnObject,
    /// The `kind` member is present but is no usable kind.
    InvalidKind(KindError),
    /// The `key` member is absent.
    MissingField,
    /// A member with a fixed meaning holds a value of the wrong JSON type.
    InvalidField,
    /// The `_meta` member is present, not null, and not an object.
    MalformedMeta,
    /// The kind is `multi` and no context is nested in the document.
    EmptyMulti,
    /// The key of a context that states its kind is empty.
    EmptyKey,
    /// The members were read, and the builder turned them down.
    BuilderError(BuildError),
}

impl KindError {
    /// The message for this error.
    pub fn message(&self) -> (r: &'static str)
        ensures
            r@ == match *self {
                KindError::Null => "kind cannot be null"@,
                KindError::NotAString => "kind must be a string"@,
                KindError::Empty => "kind cannot be empty string"@,
                KindError::Reserved => "kind cannot be 'kind'"@,
                KindError::NotMulti => "kind must be 'multi'"@,
            },
    {
        match self {
            KindError::Null => "kind cannot be null",
            KindError::NotAString => "kind must be a string",
            KindError::Empty => "kind cannot be empty string",
            KindError::Reserved => "kind cannot be 'kind'",
            KindError::NotMulti => "kind must be 'multi'",
        }
    }
}

} // verus!
