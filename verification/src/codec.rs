//! The decode/encode discipline shared by every record of the document
//! model, and the reference-or-inline wrapper that lets any payload be
//! replaced by an indirection to a shared definition.

use vstd::prelude::*;

use crate::error::DecodeError;
use crate::value::{entries_view, key_is, lemma_entries_view, view_of, ValView, Value};

verus! {

/// A type that decodes from and encodes to the generic value tree.
///
/// `decode` commits to success exactly on `dec_ok` inputs, pins the record
/// through `dec_rel`, and pins the reported error through `err_rel`;
/// `encode` produces a tree whose view is exactly `spec_encode`.
pub trait Codec: Sized {
    /// The inputs decoding is defined on: wherever the decoder routes an
    /// object's keys, those keys must be unique.
    spec fn decodable(v: Value) -> bool;

    /// Whether decoding succeeds.
    spec fn dec_ok(v: Value) -> bool;

    /// How the decoded record relates to the source tree, field by field.
    spec fn dec_rel(v: Value, t: Self) -> bool;

    /// How the reported error relates to the source tree.
    spec fn err_rel(v: Value, e: DecodeError) -> bool;

    /// The view of the tree the record encodes to.
    spec fn spec_encode(self) -> ValView;

    /// Decodes a value tree into a record.
    fn decode(v: Value) -> (r: Result<Self, DecodeError>)
        requires
            Self::decodable(v),
        ensures
            r is Ok <==> Self::dec_ok(v),
            r is Ok ==> Self::dec_rel(v, r->Ok_0),
            r is Err ==> Self::err_rel(v, r->Err_0),
    ;

    /// Encodes the record back into a value tree.
    fn encode(self) -> (r: Value)
        ensures
            r@ == self.spec_encode(),
    ;
}

/// The reserved locator field of a reference object.
pub open spec fn ref_key() -> Seq<char> {
    "$ref"@
}

/// A value is a reference object exactly when its key set is the
/// singleton locator field; any other object shape is an inline payload.
pub open spec fn is_ref_shape(es: Seq<(String, Value)>) -> bool {
    es.len() == 1 && es[0].0@ == ref_key()
}

/// Either an indirection to a shared definition elsewhere in the
/// document, or the payload itself, distinguished only by object shape.
#[derive(Debug, PartialEq)]
pub enum ReferenceOr<T> {
    /// An indirection: the locator of the shared definition.
    Reference { reference: String },
    /// The payload, inline.
    Item(T),
}

impl<T: Codec> Codec for ReferenceOr<T> {
    open spec fn decodable(v: Value) -> bool {
        match v {
            Value::Object(es) => is_ref_shape(es@) || T::decodable(v),
            _ => true,
        }
    }

    open spec fn dec_ok(v: Value) -> bool {
        match v {
            Value::Object(es) => if is_ref_shape(es@) {
                es@[0].1 is Text
            } else {
                T::dec_ok(v)
            },
            _ => false,
        }
    }

    open spec fn dec_rel(v: Value, t: Self) -> bool {
        match v {
            Value::Object(es) => if is_ref_shape(es@) {
                match es@[0].1 {
                    Value::Text(s) => t == (ReferenceOr::<T>::Reference { reference: s }),
                    _ => false,
                }
            } else {
                match t {
                    ReferenceOr::Item(x) => T::dec_rel(v, x),
                    _ => false,
                }
            },
            _ => false,
        }
    }

    open spec fn err_rel(v: Value, e: DecodeError) -> bool {
        match v {
            Value::Object(es) => if is_ref_shape(es@) {
                e == DecodeError::PayloadMismatch
            } else {
                T::err_rel(v, e)
            },
            _ => e == DecodeError::PayloadMismatch,
        }
    }

    open spec fn spec_encode(self) -> ValView {
        match self {
            ReferenceOr::Reference { reference } => ValView::Obj(
                seq![(ref_key(), ValView::Text(reference@))],
            ),
            ReferenceOr::Item(x) => x.spec_encode(),
        }
    }

    fn decode(v: Value) -> (r: Result<Self, DecodeError>) {
        match v {
            Value::Object(mut es) => {
                if es.len() == 1 && key_is(&es[0].0, "$ref") {
                    let kv = es.remove(0);
                    match kv.1 {
                        Value::Text(s) => Ok(ReferenceOr::Reference { reference: s }),
                        _ => Err(DecodeError::PayloadMismatch),
                    }
                } else {
                    assert(Value::Object(es) == v);
                    match T::decode(Value::Object(es)) {
                        Ok(x) => Ok(ReferenceOr::Item(x)),
                        Err(e) => Err(e),
                    }
                }
            }
            _ => Err(DecodeError::PayloadMismatch),
        }
    }

    fn encode(self) -> (r: Value) {
        match self {
            ReferenceOr::Reference { reference } => {
                let ghost target: Seq<char> = reference@;
                let mut es: Vec<(String, Value)> = Vec::new();
                let key: String = "$ref".to_owned();
                es.push((key, Value::Text(reference)));
                proof {
                    lemma_entries_view(es@);
                    assert(entries_view(es@) =~= seq![(ref_key(), ValView::Text(target))]);
                }
                Value::Object(es)
            }
            ReferenceOr::Item(x) => x.encode(),
        }
    }
}

} // verus!
