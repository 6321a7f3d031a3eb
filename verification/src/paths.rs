//! The path-collection record: an ordered mapping from path-template
//! keys (those that start with the path separator) to reference-or-inline
//! operation-set records, plus extension entries.

use vstd::prelude::*;

use crate::codec::{Codec, ReferenceOr};
use crate::error::DecodeError;
use crate::path_item::{object_entries, PathItem};
use crate::router::{
    bucket_sel, lemma_bucket_sel_has_key, lemma_bucket_sel_lookup, partition, route, Bucket,
    KeyRule,
};
use crate::value::{
    entries_view, has_vkey, lemma_entries_view_concat, lemma_entries_view_lookup,
    lemma_entries_view_push, lemma_vlookup_concat, uniq_keys, view_of, vlookup, ValView, Value,
};

verus! {

/// Holds the relative paths to the individual endpoints and their
/// operations.  It may be empty.
#[derive(Debug, PartialEq)]
pub struct Paths {
    /// The path items, or references to them, keyed by path template and
    /// kept in source order.
    pub paths: Vec<(String, ReferenceOr<PathItem>)>,
    /// Extension entries, kept opaque and order-preserved.
    pub extensions: Vec<(String, Value)>,
}

/// The record has no fixed fields of its own.
pub open spec fn paths_fixed_keys() -> Seq<Seq<char>> {
    Seq::empty()
}

/// The entries routed to the dynamic bucket: keys that start with the
/// path separator.
pub open spec fn paths_dynamic(es: Seq<(String, Value)>) -> Seq<(String, Value)> {
    bucket_sel(paths_fixed_keys(), KeyRule::PathTemplate, Bucket::Dynamic, es)
}

/// The entries routed to the extension bucket.
pub open spec fn paths_extension(es: Seq<(String, Value)>) -> Seq<(String, Value)> {
    bucket_sel(paths_fixed_keys(), KeyRule::PathTemplate, Bucket::Extension, es)
}

/// The views of the encoded path entries, in stored order.
pub open spec fn paths_entry_views(ps: Seq<(String, ReferenceOr<PathItem>)>) -> Seq<
    (Seq<char>, ValView),
> {
    Seq::new(ps.len(), |i: int| (ps[i].0@, ps[i].1.spec_encode()))
}

impl Codec for Paths {
    open spec fn decodable(v: Value) -> bool {
        match v {
            Value::Object(es) => uniq_keys(es@) && (forall|i: int|
                0 <= i < paths_dynamic(es@).len() ==> ReferenceOr::<PathItem>::decodable(
                    (#[trigger] paths_dynamic(es@)[i]).1,
                )),
            _ => true,
        }
    }

    open spec fn dec_ok(v: Value) -> bool {
        match v {
            Value::Object(es) => forall|i: int|
                0 <= i < paths_dynamic(es@).len() ==> ReferenceOr::<PathItem>::dec_ok(
                    (#[trigger] paths_dynamic(es@)[i]).1,
                ),
            _ => false,
        }
    }

    open spec fn dec_rel(v: Value, t: Self) -> bool {
        match v {
            Value::Object(es) => {
                let d = paths_dynamic(es@);
                &&& t.paths@.len() == d.len()
                &&& forall|i: int|
                    0 <= i < d.len() ==> (#[trigger] t.paths@[i]).0 == d[i].0
                        && ReferenceOr::<PathItem>::dec_rel(d[i].1, t.paths@[i].1)
                &&& t.extensions@ == paths_extension(es@)
            },
            _ => false,
        }
    }

    open spec fn err_rel(v: Value, e: DecodeError) -> bool {
        match v {
            Value::Object(es) => {
                let d = paths_dynamic(es@);
                exists|i: int|
                    0 <= i < d.len() && !ReferenceOr::<PathItem>::dec_ok((#[trigger] d[i]).1) && (
                    forall|j: int|
                        0 <= j < i ==> ReferenceOr::<PathItem>::dec_ok((#[trigger] d[j]).1))
                        && ReferenceOr::<PathItem>::err_rel(d[i].1, e)
            },
            _ => e == DecodeError::PayloadMismatch,
        }
    }

    open spec fn spec_encode(self) -> ValView {
        ValView::Obj(paths_entry_views(self.paths@) + entries_view(self.extensions@))
    }

    #[verifier::loop_isolation(false)]
    fn decode(v: Value) -> (r: Result<Self, DecodeError>) {
        let es = match v {
            Value::Object(es) => es,
            _ => {
                return Err(DecodeError::PayloadMismatch);
            }
        };
        let ghost orig: Seq<(String, Value)> = es@;
        let no_fixed: Vec<String> = Vec::new();
        proof {
            assert(crate::router::key_views(no_fixed@) =~= paths_fixed_keys());
        }
        let (_unclaimed, dyn_entries, ext_entries) = partition(
            es,
            &no_fixed,
            KeyRule::PathTemplate,
        );
        let ghost dynv: Seq<(String, Value)> = paths_dynamic(orig);
        assert(dyn_entries@ == dynv);
        let mut rest = dyn_entries;
        let mut out: Vec<(String, ReferenceOr<PathItem>)> = Vec::new();
        let ghost mut i: int = 0;
        while rest.len() > 0
            invariant
                0 <= i,
                i + rest@.len() == dynv.len(),
                rest@ =~= dynv.skip(i),
                out@.len() == i,
                forall|j: int|
                    0 <= j < i ==> (#[trigger] out@[j]).0 == dynv[j].0
                        && ReferenceOr::<PathItem>::dec_rel(dynv[j].1, out@[j].1),
                forall|j: int|
                    0 <= j < i ==> ReferenceOr::<PathItem>::dec_ok((#[trigger] dynv[j]).1),
            decreases rest@.len(),
        {
            let kv = rest.remove(0);
            assert(kv == dynv[i]);
            let (key, val) = kv;
            match ReferenceOr::<PathItem>::decode(val) {
                Ok(node) => {
                    out.push((key, node));
                }
                Err(e) => {
                    return Err(e);
                }
            }
            proof {
                i = i + 1;
            }
        }
        Ok(Paths { paths: out, extensions: ext_entries })
    }

    fn encode(self) -> (r: Value) {
        let ghost p0 = self;
        let Paths { paths, mut extensions } = self;
        let ghost pv: Seq<(String, ReferenceOr<PathItem>)> = paths@;
        let mut rest = paths;
        let mut out: Vec<(String, Value)> = Vec::new();
        let ghost mut i: int = 0;
        #[verifier::loop_isolation(false)]
        while rest.len() > 0
            invariant
                0 <= i,
                i + rest@.len() == pv.len(),
                rest@ =~= pv.skip(i),
                entries_view(out@).len() == i,
                forall|j: int|
                    0 <= j < i ==> #[trigger] entries_view(out@)[j] == paths_entry_views(pv)[j],
            decreases rest@.len(),
        {
            let kv = rest.remove(0);
            assert(kv == pv[i]);
            let (key, node) = kv;
            let ghost before = out@;
            let encoded = node.encode();
            let ghost entry = (key, encoded);
            out.push((key, encoded));
            proof {
                lemma_entries_view_push(before, entry);
                i = i + 1;
            }
        }
        let ghost before_ext = out@;
        out.append(&mut extensions);
        proof {
            lemma_entries_view_concat(before_ext, p0.extensions@);
            assert(entries_view(before_ext) =~= paths_entry_views(pv));
            assert(entries_view(out@) =~= paths_entry_views(p0.paths@) + entries_view(
                p0.extensions@,
            ));
        }
        Value::Object(out)
    }
}

/// Round trip of the path-collection record at the extension bucket:
/// decoding and re-encoding maps every non-dynamic key to the very value
/// it carried in the source.  The dynamic entries keep their keys and
/// order by `dec_rel` and `spec_encode` directly; their values are the
/// re-encoded records.
pub proof fn lemma_paths_round_trip_extensions(v: Value, t: Paths, k: Seq<char>)
    requires
        Paths::decodable(v),
        Paths::dec_ok(v),
        Paths::dec_rel(v, t),
        route(paths_fixed_keys(), KeyRule::PathTemplate, k) == Bucket::Extension,
    ensures
        vlookup(paths_entry_views(t.paths@) + entries_view(t.extensions@), k) == vlookup(
            entries_view(object_entries(v)),
            k,
        ),
{
    match v {
        Value::Object(es0) => {
            let es = es0@;
            let pev = paths_entry_views(t.paths@);
            let dynv = paths_dynamic(es);
            lemma_vlookup_concat(pev, entries_view(t.extensions@), k);
            assert(!has_vkey(pev, k)) by {
                if has_vkey(pev, k) {
                    let i = choose|i: int| 0 <= i < pev.len() && (#[trigger] pev[i]).0 == k;
                    assert((#[trigger] t.paths@[i]).0 == dynv[i].0);
                    assert((#[trigger] dynv[i]).0@ == k);
                    lemma_bucket_sel_has_key(
                        paths_fixed_keys(),
                        KeyRule::PathTemplate,
                        Bucket::Dynamic,
                        es,
                        k,
                    );
                }
            }
            lemma_entries_view_lookup(t.extensions@, k);
            lemma_bucket_sel_lookup(
                paths_fixed_keys(),
                KeyRule::PathTemplate,
                Bucket::Extension,
                es,
                k,
            );
            lemma_entries_view_lookup(es, k);
        }
        _ => {}
    }
}

/// The value stored under a path template, taking the first match in
/// stored order.
pub open spec fn path_lookup(ps: Seq<(String, ReferenceOr<PathItem>)>, k: Seq<char>) -> Option<
    ReferenceOr<PathItem>,
>
    decreases ps.len(),
{
    if ps.len() == 0 {
        None
    } else if ps[0].0@ == k {
        Some(ps[0].1)
    } else {
        path_lookup(ps.drop_first(), k)
    }
}

impl Paths {
    /// The path entries, in source order.
    pub fn iter(&self) -> (r: &Vec<(String, ReferenceOr<PathItem>)>)
        ensures
            r == &self.paths,
    {
        &self.paths
    }

    /// Looks a path item up by its exact path-template string.
    pub fn get(&self, template: &String) -> (r: Option<&ReferenceOr<PathItem>>)
        ensures
            r is Some <==> path_lookup(self.paths@, template@) is Some,
            r is Some ==> *r->0 == path_lookup(self.paths@, template@)->0,
    {
        let mut i: usize = 0;
        proof {
            assert(self.paths@.skip(0) =~= self.paths@);
        }
        while i < self.paths.len()
            invariant
                0 <= i <= self.paths@.len(),
                forall|j: int| 0 <= j < i ==> (#[trigger] self.paths@[j]).0@ != template@,
                path_lookup(self.paths@.skip(i as int), template@) == path_lookup(
                    self.paths@,
                    template@,
                ),
            decreases self.paths@.len() - i,
        {
            if crate::router::keys_equal(&self.paths[i].0, template) {
                assert(self.paths@.skip(i as int)[0] == self.paths@[i as int]);
                return Some(&self.paths[i].1);
            }
            proof {
                assert(self.paths@.skip(i as int).drop_first() =~= self.paths@.skip(i + 1));
                assert(self.paths@.skip(i as int)[0] == self.paths@[i as int]);
            }
            i += 1;
        }
        proof {
            assert(self.paths@.skip(i as int).len() == 0);
        }
        None
    }
}

} // verus!
