//! A verified codec between JSON documents and evaluation contexts.
//!
//! A context is read from a JSON document in one of three shapes: a
//! multi-context, a context of a single kind that states its kind, or a
//! legacy user, which states none. It is written in the first two shapes
//! only. `decode` and `encode` are the codec; `laws` holds what is proved of
//! the two together.

pub mod builder;
pub mod codec;
pub mod context;
pub mod convert;
pub mod emit;
pub mod error;
pub mod json;
pub mod kind;
pub mod laws;
pub mod parse;
pub mod shapes;
pub mod text;

pub use builder::{ContextBuilder, MultiContextBuilder};
pub use codec::{decode, encode};
pub use context::{AttributeName, Context};
pub use error::{BuildError, DecodeError, KindError};
pub use json::{AttributeValue, JsonObject, JsonValue};
pub use kind::Kind;
pub use shapes::ContextVariant;
