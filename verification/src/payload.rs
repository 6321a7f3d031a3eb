//! The opaque payload types carried by the document model.  The core only
//! needs each to decode from and encode to the generic value tree; their
//! internal field lists are outside this library's concern, so each keeps
//! its source object whole.

use vstd::prelude::*;

use crate::codec::Codec;
use crate::error::DecodeError;
use crate::value::{entries_view, ValView, Value};

verus! {

/// An operation descriptor: an opaque object payload.
#[derive(Debug, PartialEq)]
pub struct Operation {
    /// The fields of the operation object, kept verbatim.
    pub fields: Vec<(String, Value)>,
}

impl Default for Operation {
    /// An empty operation object.
    fn default() -> (r: Self)
        ensures
            r.fields@ == Seq::<(String, Value)>::empty(),
    {
        Operation { fields: Vec::new() }
    }
}

/// A server descriptor: an opaque object payload.
#[derive(Debug, PartialEq)]
pub struct Server {
    /// The fields of the server object, kept verbatim.
    pub fields: Vec<(String, Value)>,
}

/// A parameter descriptor: an opaque object payload.
#[derive(Debug, PartialEq)]
pub struct Parameter {
    /// The fields of the parameter object, kept verbatim.
    pub fields: Vec<(String, Value)>,
}

impl Codec for Operation {
    open spec fn decodable(v: Value) -> bool {
        true
    }

    open spec fn dec_ok(v: Value) -> bool {
        v is Object
    }

    open spec fn dec_rel(v: Value, t: Self) -> bool {
        match v {
            Value::Object(es) => t.fields == es,
            _ => false,
        }
    }

    open spec fn err_rel(v: Value, e: DecodeError) -> bool {
        e == DecodeError::PayloadMismatch
    }

    open spec fn spec_encode(self) -> ValView {
        ValView::Obj(entries_view(self.fields@))
    }

    fn decode(v: Value) -> (r: Result<Self, DecodeError>) {
        match v {
            Value::Object(es) => Ok(Operation { fields: es }),
            _ => Err(DecodeError::PayloadMismatch),
        }
    }

    fn encode(self) -> (r: Value) {
        Value::Object(self.fields)
    }
}

impl Codec for Server {
    open spec fn decodable(v: Value) -> bool {
        true
    }

    open spec fn dec_ok(v: Value) -> bool {
        v is Object
    }

    open spec fn dec_rel(v: Value, t: Self) -> bool {
        match v {
            Value::Object(es) => t.fields == es,
            _ => false,
        }
    }

    open spec fn err_rel(v: Value, e: DecodeError) -> bool {
        e == DecodeError::PayloadMismatch
    }

    open spec fn spec_encode(self) -> ValView {
        ValView::Obj(entries_view(self.fields@))
    }

    fn decode(v: Value) -> (r: Result<Self, DecodeError>) {
        match v {
            Value::Object(es) => Ok(Server { fields: es }),
            _ => Err(DecodeError::PayloadMismatch),
        }
    }

    fn encode(self) -> (r: Value) {
        Value::Object(self.fields)
    }
}

impl Codec for Parameter {
    open spec fn decodable(v: Value) -> bool {
        true
    }

    open spec fn dec_ok(v: Value) -> bool {
        v is Object
    }

    open spec fn dec_rel(v: Value, t: Self) -> bool {
        match v {
            Value::Object(es) => t.fields == es,
            _ => false,
        }
    }

    open spec fn err_rel(v: Value, e: DecodeError) -> bool {
        e == DecodeError::PayloadMismatch
    }

    open spec fn spec_encode(self) -> ValView {
        ValView::Obj(entries_view(self.fields@))
    }

    fn decode(v: Value) -> (r: Result<Self, DecodeError>) {
        match v {
            Value::Object(es) => Ok(Parameter { fields: es }),
            _ => Err(DecodeError::PayloadMismatch),
        }
    }

    fn encode(self) -> (r: Value) {
        Value::Object(self.fields)
    }
}

} // verus!
