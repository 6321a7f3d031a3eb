//! Decode errors: decoding is all-or-nothing per object, and the error
//! carries enough context to report a precise location.

use vstd::prelude::*;

use crate::value::ValueKind;

verus! {

/// Why decoding an object failed.
#[derive(Debug, PartialEq)]
pub enum DecodeError {
    /// A fixed field's payload has the wrong shape; `key` is the offending
    /// field and `expected` the shape its declared type asks for.
    TypeMismatch { key: String, expected: ValueKind },
    /// A reference-or-inline value is neither a valid reference object nor
    /// a valid inline payload.
    PayloadMismatch,
}

impl DecodeError {
    /// A short description of the error.
    pub fn describe(&self) -> (r: &'static str)
        ensures
            self is TypeMismatch ==> r@ == "fixed field payload has the wrong shape"@,
            self is PayloadMismatch ==> r@
                == "neither a reference object nor a valid inline payload"@,
    {
        match self {
            DecodeError::TypeMismatch { .. } => "fixed field payload has the wrong shape",
            DecodeError::PayloadMismatch => "neither a reference object nor a valid inline payload",
        }
    }
}

} // verus!
