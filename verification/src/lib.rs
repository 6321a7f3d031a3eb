//! Decoding and encoding of path-collection documents: ordered key-value
//! objects are split without loss into fixed fields, dynamically keyed
//! entries, and extension entries, and any embedded object may be replaced
//! by a reference to a shared definition.

pub mod codec;
pub mod error;
pub mod path_item;
pub mod paths;
pub mod payload;
pub mod router;
pub mod value;

pub use codec::{Codec, ReferenceOr};
pub use error::DecodeError;
pub use path_item::PathItem;
pub use paths::Paths;
pub use payload::{Operation, Parameter, Server};
pub use value::Value;
