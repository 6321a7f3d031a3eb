//! The per-path operation-set record: one optional fixed field per
//! supported verb, optional summary and description, server and parameter
//! lists, and extension entries for every other key.

use vstd::prelude::*;

use crate::codec::{Codec, ReferenceOr};
use crate::error::DecodeError;
use crate::payload::{Operation, Parameter, Server};
use crate::router::{
    bucket_sel, in_fixed, lemma_bucket_sel_has_key, lemma_bucket_sel_lookup, lemma_lookup_has_key,
    lemma_lookup_push, lemma_prefix_fresh, route, Bucket, KeyRule,
};
use crate::value::{
    entries_view, has_vkey, key_is, lemma_entries_view, lemma_entries_view_concat,
    lemma_entries_view_has, lemma_entries_view_lookup, lemma_entries_view_push,
    lemma_has_vkey_concat, lemma_list_views, lemma_lookup_entry, lemma_vlookup_concat,
    lemma_vlookup_has_vkey, lemma_vlookup_singleton, list_views, lookup, uniq_keys, view_of,
    vlookup, ValView, Value, ValueKind,
};

verus! {

broadcast use vstd::string::group_string_axioms;

/// Describes the operations available on a single path.  It may be empty:
/// the path is still exposed, but no operation is offered on it.
#[derive(Debug, PartialEq)]
pub struct PathItem {
    /// An optional summary, intended to apply to all operations here.
    pub summary: Option<String>,
    /// An optional description, intended to apply to all operations here.
    pub description: Option<String>,
    /// A definition of a GET operation on this path.
    pub get: Option<Operation>,
    /// A definition of a PUT operation on this path.
    pub put: Option<Operation>,
    /// A definition of a POST operation on this path.
    pub post: Option<Operation>,
    /// A definition of a DELETE operation on this path.
    pub delete: Option<Operation>,
    /// A definition of a OPTIONS operation on this path.
    pub options: Option<Operation>,
    /// A definition of a HEAD operation on this path.
    pub head: Option<Operation>,
    /// A definition of a PATCH operation on this path.
    pub patch: Option<Operation>,
    /// A definition of a TRACE operation on this path.
    pub trace: Option<Operation>,
    /// An alternative server list for all operations on this path.
    pub servers: Vec<Server>,
    /// Parameters applicable to all operations on this path; each may be
    /// a reference to a shared parameter definition.
    pub parameters: Vec<ReferenceOr<Parameter>>,
    /// Extension entries, kept opaque and order-preserved.
    pub extensions: Vec<(String, Value)>,
}

/// The fixed field set of the record, in canonical order.
pub open spec fn path_item_fixed_keys() -> Seq<Seq<char>> {
    seq![
        "summary"@,
        "description"@,
        "get"@,
        "put"@,
        "post"@,
        "delete"@,
        "options"@,
        "head"@,
        "patch"@,
        "trace"@,
        "servers"@,
        "parameters"@,
    ]
}

/// Whether `k` names one of the eight supported verbs.
pub open spec fn is_verb_key(k: Seq<char>) -> bool {
    ||| k == "get"@
    ||| k == "put"@
    ||| k == "post"@
    ||| k == "delete"@
    ||| k == "options"@
    ||| k == "head"@
    ||| k == "patch"@
    ||| k == "trace"@
}

/// Membership in the fixed field set, spelled out key by key.
pub proof fn lemma_fixed_key_cases(k: Seq<char>)
    ensures
        in_fixed(path_item_fixed_keys(), k) <==> (k == "summary"@ || k == "description"@
            || is_verb_key(k) || k == "servers"@ || k == "parameters"@),
{
    let fx = path_item_fixed_keys();
    assert(fx[0] == "summary"@);
    assert(fx[1] == "description"@);
    assert(fx[2] == "get"@);
    assert(fx[3] == "put"@);
    assert(fx[4] == "post"@);
    assert(fx[5] == "delete"@);
    assert(fx[6] == "options"@);
    assert(fx[7] == "head"@);
    assert(fx[8] == "patch"@);
    assert(fx[9] == "trace"@);
    assert(fx[10] == "servers"@);
    assert(fx[11] == "parameters"@);
    if in_fixed(fx, k) {
        let i = choose|i: int| 0 <= i < fx.len() && #[trigger] fx[i] == k;
        assert(fx.len() == 12);
    }
}

/// The elements of a list value; empty for any other shape.
pub open spec fn list_elems(v: Value) -> Seq<Value> {
    match v {
        Value::List(l) => l@,
        _ => Seq::empty(),
    }
}

/// The entries of an object value; empty for any other shape.
pub open spec fn object_entries(v: Value) -> Seq<(String, Value)> {
    match v {
        Value::Object(es) => es@,
        _ => Seq::empty(),
    }
}

/// An optional text field accepts a string, or an explicit null meaning
/// absent.
pub open spec fn opt_text_ok(v: Value) -> bool {
    v is Text || v is Null
}

/// An optional verb field accepts an operation object, or an explicit
/// null meaning not offered.
pub open spec fn opt_obj_ok(v: Value) -> bool {
    v is Object || v is Null
}

/// The server list accepts a list whose elements are all objects.
pub open spec fn servers_ok(v: Value) -> bool {
    v is List && (forall|i: int| 0 <= i < list_elems(v).len() ==> (#[trigger] list_elems(v)[i])
        is Object)
}

/// The parameter list accepts a list whose elements each decode as a
/// reference-or-inline parameter.
pub open spec fn params_ok(v: Value) -> bool {
    v is List && (forall|i: int|
        0 <= i < list_elems(v).len() ==> ReferenceOr::<Parameter>::dec_ok(
            #[trigger] list_elems(v)[i],
        ))
}

/// Whether a fixed field's payload has the shape its declared type asks
/// for; vacuously true for keys outside the fixed field set.
pub open spec fn fixed_ok(k: Seq<char>, v: Value) -> bool {
    if k == "summary"@ || k == "description"@ {
        opt_text_ok(v)
    } else if is_verb_key(k) {
        opt_obj_ok(v)
    } else if k == "servers"@ {
        servers_ok(v)
    } else if k == "parameters"@ {
        params_ok(v)
    } else {
        true
    }
}

/// The error reported for the fixed entry `(key, v)` whose payload has
/// the wrong shape.
pub open spec fn mk_fixed_err(key: String, v: Value) -> DecodeError {
    if key@ == "summary"@ || key@ == "description"@ {
        DecodeError::TypeMismatch { key, expected: ValueKind::Text }
    } else if is_verb_key(key@) {
        DecodeError::TypeMismatch { key, expected: ValueKind::Object }
    } else if v is List {
        if key@ == "servers"@ {
            DecodeError::TypeMismatch { key, expected: ValueKind::Object }
        } else {
            DecodeError::PayloadMismatch
        }
    } else {
        DecodeError::TypeMismatch { key, expected: ValueKind::List }
    }
}

/// Every fixed entry of the object has a well-shaped payload.
pub open spec fn pi_ok(s: Seq<(String, Value)>) -> bool {
    forall|i: int| 0 <= i < s.len() ==> fixed_ok((#[trigger] s[i]).0@, s[i].1)
}

/// The error of the first fixed entry whose payload has the wrong shape.
pub open spec fn pi_first_err(s: Seq<(String, Value)>, e: DecodeError) -> bool {
    exists|i: int|
        0 <= i < s.len() && !fixed_ok((#[trigger] s[i]).0@, s[i].1) && (forall|j: int|
            0 <= j < i ==> fixed_ok((#[trigger] s[j]).0@, s[j].1)) && e == mk_fixed_err(
            s[i].0,
            s[i].1,
        )
}

/// The value of an optional text fixed field.
pub open spec fn text_field(s: Seq<(String, Value)>, name: Seq<char>) -> Option<String> {
    match lookup(s, name) {
        Some(Value::Text(t)) => Some(t),
        _ => None,
    }
}

/// The value of an optional verb fixed field.
pub open spec fn verb_field(s: Seq<(String, Value)>, name: Seq<char>) -> Option<Operation> {
    match lookup(s, name) {
        Some(Value::Object(fs)) => Some(Operation { fields: fs }),
        _ => None,
    }
}

/// The elements of a list-valued fixed field; empty when absent.
pub open spec fn list_field(s: Seq<(String, Value)>, name: Seq<char>) -> Seq<Value> {
    match lookup(s, name) {
        Some(v) => list_elems(v),
        None => Seq::empty(),
    }
}

/// How the decoded server list relates to the object.
pub open spec fn servers_rel(s: Seq<(String, Value)>, ss: Seq<Server>) -> bool {
    let l = list_field(s, "servers"@);
    ss.len() == l.len() && (forall|i: int|
        0 <= i < l.len() ==> (#[trigger] ss[i]).fields@ == object_entries(l[i]))
}

/// How the decoded parameter list relates to the object.
pub open spec fn params_rel(s: Seq<(String, Value)>, ps: Seq<ReferenceOr<Parameter>>) -> bool {
    let l = list_field(s, "parameters"@);
    ps.len() == l.len() && (forall|i: int|
        0 <= i < l.len() ==> ReferenceOr::<Parameter>::dec_rel(l[i], #[trigger] ps[i]))
}

/// How every field of the decoded record relates to the object.
pub open spec fn pi_fields_rel(s: Seq<(String, Value)>, p: PathItem) -> bool {
    &&& p.summary == text_field(s, "summary"@)
    &&& p.description == text_field(s, "description"@)
    &&& p.get == verb_field(s, "get"@)
    &&& p.put == verb_field(s, "put"@)
    &&& p.post == verb_field(s, "post"@)
    &&& p.delete == verb_field(s, "delete"@)
    &&& p.options == verb_field(s, "options"@)
    &&& p.head == verb_field(s, "head"@)
    &&& p.patch == verb_field(s, "patch"@)
    &&& p.trace == verb_field(s, "trace"@)
    &&& servers_rel(s, p.servers@)
    &&& params_rel(s, p.parameters@)
    &&& p.extensions@ == bucket_sel(
        path_item_fixed_keys(),
        KeyRule::NoDynamic,
        Bucket::Extension,
        s,
    )
}

/// Decodes an optional text fixed field's payload.
fn text_slot(key: String, val: Value) -> (r: Result<Option<String>, DecodeError>)
    ensures
        r is Ok <==> opt_text_ok(val),
        r is Ok ==> r->Ok_0 == (match val {
            Value::Text(t) => Some(t),
            _ => Option::<String>::None,
        }),
        r is Err ==> r->Err_0 == (DecodeError::TypeMismatch {
            key: key,
            expected: ValueKind::Text,
        }),
{
    match val {
        Value::Text(t) => Ok(Some(t)),
        Value::Null => Ok(None),
        _ => Err(DecodeError::TypeMismatch { key, expected: ValueKind::Text }),
    }
}

/// Decodes an optional verb fixed field's payload.
fn verb_slot(key: String, val: Value) -> (r: Result<Option<Operation>, DecodeError>)
    ensures
        r is Ok <==> opt_obj_ok(val),
        r is Ok ==> r->Ok_0 == (match val {
            Value::Object(fs) => Some(Operation { fields: fs }),
            _ => Option::<Operation>::None,
        }),
        r is Err ==> r->Err_0 == (DecodeError::TypeMismatch {
            key: key,
            expected: ValueKind::Object,
        }),
{
    match val {
        Value::Object(fs) => Ok(Some(Operation { fields: fs })),
        Value::Null => Ok(None),
        _ => Err(DecodeError::TypeMismatch { key, expected: ValueKind::Object }),
    }
}

/// Decodes the server list fixed field's payload.
#[verifier::loop_isolation(false)]
fn servers_value(key: String, val: Value) -> (r: Result<Vec<Server>, DecodeError>)
    ensures
        r is Ok <==> servers_ok(val),
        r is Ok ==> {
            let l = list_elems(val);
            r->Ok_0@.len() == l.len() && (forall|j: int|
                0 <= j < l.len() ==> (#[trigger] r->Ok_0@[j]).fields@ == object_entries(l[j]))
        },
        r is Err ==> r->Err_0 == (if val is List {
            DecodeError::TypeMismatch { key: key, expected: ValueKind::Object }
        } else {
            DecodeError::TypeMismatch { key: key, expected: ValueKind::List }
        }),
{
    match val {
        Value::List(l) => {
            let ghost lv: Seq<Value> = l@;
            let mut rest = l;
            let mut out: Vec<Server> = Vec::new();
            let ghost mut j: int = 0;
            while rest.len() > 0
                invariant
                    0 <= j,
                    j + rest@.len() == lv.len(),
                    rest@ =~= lv.skip(j),
                    out@.len() == j,
                    forall|jj: int|
                        0 <= jj < j ==> (#[trigger] out@[jj]).fields@ == object_entries(lv[jj]),
                    forall|jj: int| 0 <= jj < j ==> (#[trigger] lv[jj]) is Object,
                decreases rest@.len(),
            {
                let ev = rest.remove(0);
                assert(ev == lv[j]);
                match ev {
                    Value::Object(fs) => {
                        out.push(Server { fields: fs });
                    }
                    _ => {
                        assert(list_elems(val)[j] == ev);
                        return Err(
                            DecodeError::TypeMismatch { key, expected: ValueKind::Object },
                        );
                    }
                }
                proof {
                    j = j + 1;
                }
            }
            assert(forall|i: int| 0 <= i < lv.len() ==> (#[trigger] lv[i]) is Object);
            Ok(out)
        }
        _ => Err(DecodeError::TypeMismatch { key, expected: ValueKind::List }),
    }
}

/// Decodes the parameter list fixed field's payload.
#[verifier::loop_isolation(false)]
fn parameters_value(key: String, val: Value) -> (r: Result<
    Vec<ReferenceOr<Parameter>>,
    DecodeError,
>)
    ensures
        r is Ok <==> params_ok(val),
        r is Ok ==> {
            let l = list_elems(val);
            r->Ok_0@.len() == l.len() && (forall|j: int|
                0 <= j < l.len() ==> ReferenceOr::<Parameter>::dec_rel(
                    l[j],
                    #[trigger] r->Ok_0@[j],
                ))
        },
        r is Err ==> r->Err_0 == (if val is List {
            DecodeError::PayloadMismatch
        } else {
            DecodeError::TypeMismatch { key: key, expected: ValueKind::List }
        }),
{
    match val {
        Value::List(l) => {
            let ghost lv: Seq<Value> = l@;
            let mut rest = l;
            let mut out: Vec<ReferenceOr<Parameter>> = Vec::new();
            let ghost mut j: int = 0;
            while rest.len() > 0
                invariant
                    0 <= j,
                    j + rest@.len() == lv.len(),
                    rest@ =~= lv.skip(j),
                    out@.len() == j,
                    forall|jj: int|
                        0 <= jj < j ==> ReferenceOr::<Parameter>::dec_rel(
                            lv[jj],
                            #[trigger] out@[jj],
                        ),
                    forall|jj: int|
                        0 <= jj < j ==> ReferenceOr::<Parameter>::dec_ok(#[trigger] lv[jj]),
                decreases rest@.len(),
            {
                let ev = rest.remove(0);
                assert(ev == lv[j]);
                match ReferenceOr::<Parameter>::decode(ev) {
                    Ok(node) => {
                        out.push(node);
                    }
                    Err(e) => {
                        assert(e == DecodeError::PayloadMismatch);
                        return Err(e);
                    }
                }
                proof {
                    j = j + 1;
                }
            }
            assert(forall|i: int|
                0 <= i < lv.len() ==> ReferenceOr::<Parameter>::dec_ok(#[trigger] lv[i]));
            Ok(out)
        }
        _ => Err(DecodeError::TypeMismatch { key, expected: ValueKind::List }),
    }
}

/// The encoded entry of an optional text fixed field: absent fields are
/// omitted entirely rather than written as a null marker.
pub open spec fn opt_text_entry(name: Seq<char>, o: Option<String>) -> Seq<(Seq<char>, ValView)> {
    match o {
        Some(t) => seq![(name, ValView::Text(t@))],
        None => Seq::empty(),
    }
}

/// The encoded entry of an optional verb fixed field.
pub open spec fn opt_verb_entry(name: Seq<char>, o: Option<Operation>) -> Seq<
    (Seq<char>, ValView),
> {
    match o {
        Some(op) => seq![(name, ValView::Obj(entries_view(op.fields@)))],
        None => Seq::empty(),
    }
}

/// The views of the encoded servers.
pub open spec fn server_views(ss: Seq<Server>) -> Seq<ValView> {
    Seq::new(ss.len(), |i: int| ValView::Obj(entries_view(ss[i].fields@)))
}

/// The encoded server-list entry; an empty list is omitted.
pub open spec fn servers_entry(ss: Seq<Server>) -> Seq<(Seq<char>, ValView)> {
    if ss.len() == 0 {
        Seq::empty()
    } else {
        seq![("servers"@, ValView::List(server_views(ss)))]
    }
}

/// The views of the encoded parameters.
pub open spec fn param_views(ps: Seq<ReferenceOr<Parameter>>) -> Seq<ValView> {
    Seq::new(ps.len(), |i: int| ps[i].spec_encode())
}

/// The encoded parameter-list entry; an empty list is omitted.
pub open spec fn params_entry(ps: Seq<ReferenceOr<Parameter>>) -> Seq<(Seq<char>, ValView)> {
    if ps.len() == 0 {
        Seq::empty()
    } else {
        seq![("parameters"@, ValView::List(param_views(ps)))]
    }
}

/// The entries of the encoded record: fixed fields present, in canonical
/// order, then the extension entries in their stored order.
pub open spec fn pi_encoded_entries(p: PathItem) -> Seq<(Seq<char>, ValView)> {
    opt_text_entry("summary"@, p.summary) + opt_text_entry("description"@, p.description)
        + opt_verb_entry("get"@, p.get) + opt_verb_entry("put"@, p.put) + opt_verb_entry(
        "post"@,
        p.post,
    ) + opt_verb_entry("delete"@, p.delete) + opt_verb_entry("options"@, p.options)
        + opt_verb_entry("head"@, p.head) + opt_verb_entry("patch"@, p.patch) + opt_verb_entry(
        "trace"@,
        p.trace,
    ) + servers_entry(p.servers@) + params_entry(p.parameters@) + entries_view(p.extensions@)
}

/// Writes the entry of an optional text fixed field, if present.
fn push_text_entry(out: &mut Vec<(String, Value)>, name: &str, o: Option<String>) -> (nothing: ())
    ensures
        entries_view(final(out)@) == entries_view(old(out)@) + opt_text_entry(name@, o),
{
    match o {
        Some(t) => {
            let k: String = name.to_owned();
            let ghost entry = (k, Value::Text(t));
            out.push((k, Value::Text(t)));
            proof {
                lemma_entries_view_push(old(out)@, entry);
                assert(entries_view(out@) =~= entries_view(old(out)@) + opt_text_entry(
                    name@,
                    o,
                ));
            }
        }
        None => {
            assert(entries_view(out@) =~= entries_view(old(out)@) + opt_text_entry(name@, o));
        }
    }
}

/// Writes the entry of an optional verb fixed field, if present.
fn push_verb_entry(out: &mut Vec<(String, Value)>, name: &str, o: Option<Operation>) -> (nothing:
    ())
    ensures
        entries_view(final(out)@) == entries_view(old(out)@) + opt_verb_entry(name@, o),
{
    match o {
        Some(op) => {
            let k: String = name.to_owned();
            let ghost entry = (k, Value::Object(op.fields));
            out.push((k, Value::Object(op.fields)));
            proof {
                lemma_entries_view_push(old(out)@, entry);
                assert(entries_view(out@) =~= entries_view(old(out)@) + opt_verb_entry(
                    name@,
                    o,
                ));
            }
        }
        None => {
            assert(entries_view(out@) =~= entries_view(old(out)@) + opt_verb_entry(name@, o));
        }
    }
}

/// Writes the server-list entry, unless the list is empty.
#[verifier::loop_isolation(false)]
fn push_servers_entry(out: &mut Vec<(String, Value)>, ss: Vec<Server>) -> (nothing: ())
    ensures
        entries_view(final(out)@) == entries_view(old(out)@) + servers_entry(ss@),
{
    let ghost sv: Seq<Server> = ss@;
    if ss.len() == 0 {
        assert(entries_view(out@) =~= entries_view(old(out)@) + servers_entry(sv));
        return ;
    }
    let mut rest = ss;
    let mut built: Vec<Value> = Vec::new();
    let ghost mut j: int = 0;
    while rest.len() > 0
        invariant
            0 <= j,
            j + rest@.len() == sv.len(),
            rest@ =~= sv.skip(j),
            built@.len() == j,
            forall|jj: int| 0 <= jj < j ==> view_of(#[trigger] built@[jj]) == server_views(sv)[jj],
        decreases rest@.len(),
    {
        let s = rest.remove(0);
        assert(s == sv[j]);
        built.push(Value::Object(s.fields));
        proof {
            j = j + 1;
        }
    }
    proof {
        lemma_list_views(built@);
        assert forall|ii: int|
            0 <= ii < built@.len() implies list_views(built@)[ii] == server_views(sv)[ii] by {
            assert(view_of(built@[ii]) == server_views(sv)[ii]);
        }
        assert(list_views(built@) =~= server_views(sv));
    }
    let k: String = "servers".to_owned();
    let ghost entry = (k, Value::List(built));
    out.push((k, Value::List(built)));
    proof {
        lemma_entries_view_push(old(out)@, entry);
        assert(entries_view(out@) =~= entries_view(old(out)@) + servers_entry(sv));
    }
}

/// Writes the parameter-list entry, unless the list is empty.
#[verifier::loop_isolation(false)]
fn push_params_entry(out: &mut Vec<(String, Value)>, ps: Vec<ReferenceOr<Parameter>>) -> (nothing:
    ())
    ensures
        entries_view(final(out)@) == entries_view(old(out)@) + params_entry(ps@),
{
    let ghost pv: Seq<ReferenceOr<Parameter>> = ps@;
    if ps.len() == 0 {
        assert(entries_view(out@) =~= entries_view(old(out)@) + params_entry(pv));
        return ;
    }
    let mut rest = ps;
    let mut built: Vec<Value> = Vec::new();
    let ghost mut j: int = 0;
    while rest.len() > 0
        invariant
            0 <= j,
            j + rest@.len() == pv.len(),
            rest@ =~= pv.skip(j),
            built@.len() == j,
            forall|jj: int| 0 <= jj < j ==> view_of(#[trigger] built@[jj]) == param_views(pv)[jj],
        decreases rest@.len(),
    {
        let node = rest.remove(0);
        assert(node == pv[j]);
        let encoded = node.encode();
        built.push(encoded);
        proof {
            j = j + 1;
        }
    }
    proof {
        lemma_list_views(built@);
        assert forall|ii: int|
            0 <= ii < built@.len() implies list_views(built@)[ii] == param_views(pv)[ii] by {
            assert(view_of(built@[ii]) == param_views(pv)[ii]);
        }
        assert(list_views(built@) =~= param_views(pv));
    }
    let k: String = "parameters".to_owned();
    let ghost entry = (k, Value::List(built));
    out.push((k, Value::List(built)));
    proof {
        lemma_entries_view_push(old(out)@, entry);
        assert(entries_view(out@) =~= entries_view(old(out)@) + params_entry(pv));
    }
}

impl Codec for PathItem {
    open spec fn decodable(v: Value) -> bool {
        match v {
            Value::Object(es) => uniq_keys(es@),
            _ => true,
        }
    }

    open spec fn dec_ok(v: Value) -> bool {
        match v {
            Value::Object(es) => pi_ok(es@),
            _ => false,
        }
    }

    open spec fn dec_rel(v: Value, t: Self) -> bool {
        match v {
            Value::Object(es) => pi_fields_rel(es@, t),
            _ => false,
        }
    }

    open spec fn err_rel(v: Value, e: DecodeError) -> bool {
        match v {
            Value::Object(es) => pi_first_err(es@, e),
            _ => e == DecodeError::PayloadMismatch,
        }
    }

    open spec fn spec_encode(self) -> ValView {
        ValView::Obj(pi_encoded_entries(self))
    }

    #[verifier::loop_isolation(false)]
    fn decode(v: Value) -> (r: Result<Self, DecodeError>) {
        let es = match v {
            Value::Object(es) => es,
            _ => {
                return Err(DecodeError::PayloadMismatch);
            }
        };
        let ghost orig: Seq<(String, Value)> = es@;
        let mut rest = es;
        let mut s_summary: Option<String> = None;
        let mut s_description: Option<String> = None;
        let mut s_get: Option<Operation> = None;
        let mut s_put: Option<Operation> = None;
        let mut s_post: Option<Operation> = None;
        let mut s_delete: Option<Operation> = None;
        let mut s_options: Option<Operation> = None;
        let mut s_head: Option<Operation> = None;
        let mut s_patch: Option<Operation> = None;
        let mut s_trace: Option<Operation> = None;
        let mut s_servers: Vec<Server> = Vec::new();
        let mut s_parameters: Vec<ReferenceOr<Parameter>> = Vec::new();
        let mut s_extensions: Vec<(String, Value)> = Vec::new();
        let ghost mut i: int = 0;
        while rest.len() > 0
            invariant
                0 <= i,
                i + rest@.len() == orig.len(),
                rest@ =~= orig.skip(i),
                s_summary == text_field(orig.take(i), "summary"@),
                s_description == text_field(orig.take(i), "description"@),
                s_get == verb_field(orig.take(i), "get"@),
                s_put == verb_field(orig.take(i), "put"@),
                s_post == verb_field(orig.take(i), "post"@),
                s_delete == verb_field(orig.take(i), "delete"@),
                s_options == verb_field(orig.take(i), "options"@),
                s_head == verb_field(orig.take(i), "head"@),
                s_patch == verb_field(orig.take(i), "patch"@),
                s_trace == verb_field(orig.take(i), "trace"@),
                servers_rel(orig.take(i), s_servers@),
                params_rel(orig.take(i), s_parameters@),
                s_extensions@ == bucket_sel(
                    path_item_fixed_keys(),
                    KeyRule::NoDynamic,
                    Bucket::Extension,
                    orig.take(i),
                ),
                forall|j: int| 0 <= j < i ==> fixed_ok((#[trigger] orig[j]).0@, orig[j].1),
            decreases rest@.len(),
        {
            let kv = rest.remove(0);
            proof {
                lemma_names_distinct();
                assert(kv == orig[i]);
                assert(orig.take(i + 1).drop_last() =~= orig.take(i));
                assert(orig.take(i + 1).last() == orig[i]);
                lemma_step_lookups(orig, i);
            }
            let (key, val) = kv;
            if key_is(&key, "summary") {
                match text_slot(key, val) {
                    Ok(slot) => {
                        s_summary = slot;
                    }
                    Err(e) => {
                        proof {
                            lemma_err_witness(orig, i, e);
                        }
                        return Err(e);
                    }
                }
            } else if key_is(&key, "description") {
                match text_slot(key, val) {
                    Ok(slot) => {
                        s_description = slot;
                    }
                    Err(e) => {
                        proof {
                            lemma_err_witness(orig, i, e);
                        }
                        return Err(e);
                    }
                }
            } else if key_is(&key, "get") {
                match verb_slot(key, val) {
                    Ok(slot) => {
                        s_get = slot;
                    }
                    Err(e) => {
                        proof {
                            lemma_err_witness(orig, i, e);
                        }
                        return Err(e);
                    }
                }
            } else if key_is(&key, "put") {
                match verb_slot(key, val) {
                    Ok(slot) => {
                        s_put = slot;
                    }
                    Err(e) => {
                        proof {
                            lemma_err_witness(orig, i, e);
                        }
                        return Err(e);
                    }
                }
            } else if key_is(&key, "post") {
                match verb_slot(key, val) {
                    Ok(slot) => {
                        s_post = slot;
                    }
                    Err(e) => {
                        proof {
                            lemma_err_witness(orig, i, e);
                        }
                        return Err(e);
                    }
                }
            } else if key_is(&key, "delete") {
                match verb_slot(key, val) {
                    Ok(slot) => {
                        s_delete = slot;
                    }
                    Err(e) => {
                        proof {
                            lemma_err_witness(orig, i, e);
                        }
                        return Err(e);
                    }
                }
            } else if key_is(&key, "options") {
                match verb_slot(key, val) {
                    Ok(slot) => {
                        s_options = slot;
                    }
                    Err(e) => {
                        proof {
                            lemma_err_witness(orig, i, e);
                        }
                        return Err(e);
                    }
                }
            } else if key_is(&key, "head") {
                match verb_slot(key, val) {
                    Ok(slot) => {
                        s_head = slot;
                    }
                    Err(e) => {
                        proof {
                            lemma_err_witness(orig, i, e);
                        }
                        return Err(e);
                    }
                }
            } else if key_is(&key, "patch") {
                match verb_slot(key, val) {
                    Ok(slot) => {
                        s_patch = slot;
                    }
                    Err(e) => {
                        proof {
                            lemma_err_witness(orig, i, e);
                        }
                        return Err(e);
                    }
                }
            } else if key_is(&key, "trace") {
                match verb_slot(key, val) {
                    Ok(slot) => {
                        s_trace = slot;
                    }
                    Err(e) => {
                        proof {
                            lemma_err_witness(orig, i, e);
                        }
                        return Err(e);
                    }
                }
            } else if key_is(&key, "servers") {
                match servers_value(key, val) {
                    Ok(list) => {
                        s_servers = list;
                    }
                    Err(e) => {
                        proof {
                            lemma_err_witness(orig, i, e);
                        }
                        return Err(e);
                    }
                }
            } else if key_is(&key, "parameters") {
                match parameters_value(key, val) {
                    Ok(list) => {
                        s_parameters = list;
                    }
                    Err(e) => {
                        proof {
                            lemma_err_witness(orig, i, e);
                        }
                        return Err(e);
                    }
                }
            } else {
                proof {
                    lemma_fixed_key_cases(key@);
                    assert(route(path_item_fixed_keys(), KeyRule::NoDynamic, key@)
                        == Bucket::Extension);
                }
                s_extensions.push((key, val));
            }
            proof {
                i = i + 1;
            }
        }
        proof {
            assert(orig.take(i) =~= orig);
        }
        Ok(
            PathItem {
                summary: s_summary,
                description: s_description,
                get: s_get,
                put: s_put,
                post: s_post,
                delete: s_delete,
                options: s_options,
                head: s_head,
                patch: s_patch,
                trace: s_trace,
                servers: s_servers,
                parameters: s_parameters,
                extensions: s_extensions,
            },
        )
    }

    fn encode(self) -> (r: Value) {
        let ghost p0 = self;
        let PathItem {
            summary,
            description,
            get,
            put,
            post,
            delete,
            options,
            head,
            patch,
            trace,
            servers,
            parameters,
            mut extensions,
        } = self;
        let mut out: Vec<(String, Value)> = Vec::new();
        assert(entries_view(out@) =~= Seq::<(Seq<char>, ValView)>::empty());
        push_text_entry(&mut out, "summary", summary);
        push_text_entry(&mut out, "description", description);
        push_verb_entry(&mut out, "get", get);
        push_verb_entry(&mut out, "put", put);
        push_verb_entry(&mut out, "post", post);
        push_verb_entry(&mut out, "delete", delete);
        push_verb_entry(&mut out, "options", options);
        push_verb_entry(&mut out, "head", head);
        push_verb_entry(&mut out, "patch", patch);
        push_verb_entry(&mut out, "trace", trace);
        push_servers_entry(&mut out, servers);
        push_params_entry(&mut out, parameters);
        let ghost before_ext = out@;
        out.append(&mut extensions);
        proof {
            lemma_entries_view_concat(before_ext, p0.extensions@);
            assert(entries_view(out@) =~= pi_encoded_entries(p0));
        }
        Value::Object(out)
    }
}

/// The entry a populated verb slot contributes to the traversal.
pub open spec fn opt_op(name: Seq<char>, o: Option<Operation>) -> Seq<(Seq<char>, Operation)> {
    match o {
        Some(op) => seq![(name, op)],
        None => Seq::empty(),
    }
}

/// The populated operations of a record, in canonical verb order: get,
/// put, post, delete, options, head, patch, trace — a property of the
/// type, not of the source document.
pub open spec fn present_ops(p: PathItem) -> Seq<(Seq<char>, Operation)> {
    opt_op("get"@, p.get) + opt_op("put"@, p.put) + opt_op("post"@, p.post) + opt_op(
        "delete"@,
        p.delete,
    ) + opt_op("options"@, p.options) + opt_op("head"@, p.head) + opt_op("patch"@, p.patch)
        + opt_op("trace"@, p.trace)
}

impl PathItem {
    /// The populated operations, by reference, in canonical verb order.
    #[verifier::rlimit(60)]
    pub fn iter<'a>(&'a self) -> (r: Vec<(&'static str, &'a Operation)>)
        ensures
            r@.len() == present_ops(*self).len(),
            forall|i: int|
                0 <= i < r@.len() ==> (#[trigger] r@[i]).0@ == present_ops(*self)[i].0
                    && *r@[i].1 == present_ops(*self)[i].1,
    {
        let mut r: Vec<(&'static str, &'a Operation)> = Vec::new();
        let ghost mut done: Seq<(Seq<char>, Operation)> = Seq::empty();
        if let Some(op) = &self.get {
            r.push(("get", op));
        }
        proof {
            done = done + opt_op("get"@, self.get);
            assert(r@.len() == done.len());
        }
        if let Some(op) = &self.put {
            r.push(("put", op));
        }
        proof {
            done = done + opt_op("put"@, self.put);
            assert(r@.len() == done.len());
        }
        if let Some(op) = &self.post {
            r.push(("post", op));
        }
        proof {
            done = done + opt_op("post"@, self.post);
            assert(r@.len() == done.len());
        }
        if let Some(op) = &self.delete {
            r.push(("delete", op));
        }
        proof {
            done = done + opt_op("delete"@, self.delete);
            assert(r@.len() == done.len());
        }
        if let Some(op) = &self.options {
            r.push(("options", op));
        }
        proof {
            done = done + opt_op("options"@, self.options);
            assert(r@.len() == done.len());
        }
        if let Some(op) = &self.head {
            r.push(("head", op));
        }
        proof {
            done = done + opt_op("head"@, self.head);
            assert(r@.len() == done.len());
        }
        if let Some(op) = &self.patch {
            r.push(("patch", op));
        }
        proof {
            done = done + opt_op("patch"@, self.patch);
            assert(r@.len() == done.len());
        }
        if let Some(op) = &self.trace {
            r.push(("trace", op));
        }
        proof {
            done = done + opt_op("trace"@, self.trace);
            assert(r@.len() == done.len());
            assert(done =~= present_ops(*self));
            assert(forall|i: int|
                0 <= i < r@.len() ==> (#[trigger] r@[i]).0@ == done[i].0 && *r@[i].1
                    == done[i].1);
        }
        r
    }

    /// Takes ownership of the populated operations, in canonical verb
    /// order, leaving every verb slot empty and all other fields as they
    /// were.
    #[verifier::rlimit(60)]
    pub fn take_operations(&mut self) -> (r: Vec<(String, Operation)>)
        ensures
            r@.len() == present_ops(*old(self)).len(),
            forall|i: int|
                0 <= i < r@.len() ==> (#[trigger] r@[i]).0@ == present_ops(*old(self))[i].0
                    && r@[i].1 == present_ops(*old(self))[i].1,
            final(self).get is None,
            final(self).put is None,
            final(self).post is None,
            final(self).delete is None,
            final(self).options is None,
            final(self).head is None,
            final(self).patch is None,
            final(self).trace is None,
            final(self).summary == old(self).summary,
            final(self).description == old(self).description,
            final(self).servers == old(self).servers,
            final(self).parameters == old(self).parameters,
            final(self).extensions == old(self).extensions,
    {
        let mut r: Vec<(String, Operation)> = Vec::new();
        let ghost mut done: Seq<(Seq<char>, Operation)> = Seq::empty();
        if let Some(op) = self.get.take() {
            r.push(("get".to_owned(), op));
        }
        proof {
            done = done + opt_op("get"@, old(self).get);
            assert(r@.len() == done.len());
        }
        if let Some(op) = self.put.take() {
            r.push(("put".to_owned(), op));
        }
        proof {
            done = done + opt_op("put"@, old(self).put);
            assert(r@.len() == done.len());
        }
        if let Some(op) = self.post.take() {
            r.push(("post".to_owned(), op));
        }
        proof {
            done = done + opt_op("post"@, old(self).post);
            assert(r@.len() == done.len());
        }
        if let Some(op) = self.delete.take() {
            r.push(("delete".to_owned(), op));
        }
        proof {
            done = done + opt_op("delete"@, old(self).delete);
            assert(r@.len() == done.len());
        }
        if let Some(op) = self.options.take() {
            r.push(("options".to_owned(), op));
        }
        proof {
            done = done + opt_op("options"@, old(self).options);
            assert(r@.len() == done.len());
        }
        if let Some(op) = self.head.take() {
            r.push(("head".to_owned(), op));
        }
        proof {
            done = done + opt_op("head"@, old(self).head);
            assert(r@.len() == done.len());
        }
        if let Some(op) = self.patch.take() {
            r.push(("patch".to_owned(), op));
        }
        proof {
            done = done + opt_op("patch"@, old(self).patch);
            assert(r@.len() == done.len());
        }
        if let Some(op) = self.trace.take() {
            r.push(("trace".to_owned(), op));
        }
        proof {
            done = done + opt_op("trace"@, old(self).trace);
            assert(r@.len() == done.len());
            assert(done =~= present_ops(*old(self)));
            assert(forall|i: int|
                0 <= i < r@.len() ==> (#[trigger] r@[i]).0@ == done[i].0 && r@[i].1
                    == done[i].1);
        }
        r
    }

    /// Consumes the record, returning the populated operations in
    /// canonical verb order.
    pub fn into_operations(self) -> (r: Vec<(String, Operation)>)
        ensures
            r@.len() == present_ops(self).len(),
            forall|i: int|
                0 <= i < r@.len() ==> (#[trigger] r@[i]).0@ == present_ops(self)[i].0 && r@[i].1
                    == present_ops(self)[i].1,
    {
        let mut this = self;
        this.take_operations()
    }

    /// An empty record offers no operation: its traversal is empty, and
    /// its encoding carries no verb key.
    pub proof fn lemma_absent_operations(p: PathItem)
        requires
            p.get is None,
            p.put is None,
            p.post is None,
            p.delete is None,
            p.options is None,
            p.head is None,
            p.patch is None,
            p.trace is None,
            forall|i: int|
                0 <= i < p.extensions@.len() ==> !is_verb_key(
                    (#[trigger] p.extensions@[i]).0@,
                ),
        ensures
            present_ops(p).len() == 0,
            forall|k: Seq<char>|
                is_verb_key(k) ==> #[trigger] vlookup(pi_encoded_entries(p), k) is None,
    {
        assert(present_ops(p) =~= Seq::<(Seq<char>, Operation)>::empty());
        lemma_names_distinct();
        assert forall|k: Seq<char>|
            is_verb_key(k) implies #[trigger] vlookup(pi_encoded_entries(p), k) is None by {
            lemma_vlookup_concat_none(p, k);
        }
    }
}

impl Default for PathItem {
    /// The empty record: no summary or description, no operation
    /// offered, no servers, parameters or extensions.
    fn default() -> (r: Self)
        ensures
            r.summary is None,
            r.description is None,
            r.get is None,
            r.put is None,
            r.post is None,
            r.delete is None,
            r.options is None,
            r.head is None,
            r.patch is None,
            r.trace is None,
            r.servers@ == Seq::<Server>::empty(),
            r.parameters@ == Seq::<ReferenceOr<Parameter>>::empty(),
            r.extensions@ == Seq::<(String, Value)>::empty(),
    {
        PathItem {
            summary: None,
            description: None,
            get: None,
            put: None,
            post: None,
            delete: None,
            options: None,
            head: None,
            patch: None,
            trace: None,
            servers: Vec::new(),
            parameters: Vec::new(),
            extensions: Vec::new(),
        }
    }
}

/// In the encoding of a record with no verb populated and no verb key
/// among its extensions, no verb key is present.
proof fn lemma_vlookup_concat_none(p: PathItem, k: Seq<char>)
    requires
        p.get is None,
        p.put is None,
        p.post is None,
        p.delete is None,
        p.options is None,
        p.head is None,
        p.patch is None,
        p.trace is None,
        forall|i: int| 0 <= i < p.extensions@.len() ==> !is_verb_key((#[trigger] p.extensions@[i]).0@),
        is_verb_key(k),
        k != "summary"@,
        k != "description"@,
        k != "servers"@,
        k != "parameters"@,
    ensures
        vlookup(pi_encoded_entries(p), k) is None,
{
    let s1 = opt_text_entry("summary"@, p.summary);
    let s2 = opt_text_entry("description"@, p.description);
    let s3 = opt_verb_entry("get"@, p.get);
    let s4 = opt_verb_entry("put"@, p.put);
    let s5 = opt_verb_entry("post"@, p.post);
    let s6 = opt_verb_entry("delete"@, p.delete);
    let s7 = opt_verb_entry("options"@, p.options);
    let s8 = opt_verb_entry("head"@, p.head);
    let s9 = opt_verb_entry("patch"@, p.patch);
    let s10 = opt_verb_entry("trace"@, p.trace);
    let s11 = servers_entry(p.servers@);
    let s12 = params_entry(p.parameters@);
    let s13 = entries_view(p.extensions@);
    assert(!has_vkey(s1, k)) by {
        if has_vkey(s1, k) {
            let i = choose|i: int| 0 <= i < s1.len() && (#[trigger] s1[i]).0 == k;
        }
    }
    assert(!has_vkey(s2, k)) by {
        if has_vkey(s2, k) {
            let i = choose|i: int| 0 <= i < s2.len() && (#[trigger] s2[i]).0 == k;
        }
    }
    assert(!has_vkey(s11, k)) by {
        if has_vkey(s11, k) {
            let i = choose|i: int| 0 <= i < s11.len() && (#[trigger] s11[i]).0 == k;
        }
    }
    assert(!has_vkey(s12, k)) by {
        if has_vkey(s12, k) {
            let i = choose|i: int| 0 <= i < s12.len() && (#[trigger] s12[i]).0 == k;
        }
    }
    assert(!has_vkey(s13, k)) by {
        lemma_entries_view(p.extensions@);
        if has_vkey(s13, k) {
            let i = choose|i: int| 0 <= i < s13.len() && (#[trigger] s13[i]).0 == k;
            assert(s13[i].0 == p.extensions@[i].0@);
        }
    }
    lemma_has_vkey_concat(s1, s2, k);
    lemma_has_vkey_concat(s1 + s2, s3, k);
    lemma_has_vkey_concat(s1 + s2 + s3, s4, k);
    lemma_has_vkey_concat(s1 + s2 + s3 + s4, s5, k);
    lemma_has_vkey_concat(s1 + s2 + s3 + s4 + s5, s6, k);
    lemma_has_vkey_concat(s1 + s2 + s3 + s4 + s5 + s6, s7, k);
    lemma_has_vkey_concat(s1 + s2 + s3 + s4 + s5 + s6 + s7, s8, k);
    lemma_has_vkey_concat(s1 + s2 + s3 + s4 + s5 + s6 + s7 + s8, s9, k);
    lemma_has_vkey_concat(s1 + s2 + s3 + s4 + s5 + s6 + s7 + s8 + s9, s10, k);
    lemma_has_vkey_concat(s1 + s2 + s3 + s4 + s5 + s6 + s7 + s8 + s9 + s10, s11, k);
    lemma_has_vkey_concat(s1 + s2 + s3 + s4 + s5 + s6 + s7 + s8 + s9 + s10 + s11, s12, k);
    lemma_has_vkey_concat(s1 + s2 + s3 + s4 + s5 + s6 + s7 + s8 + s9 + s10 + s11 + s12, s13, k);
    assert(!has_vkey(pi_encoded_entries(p), k));
    lemma_vlookup_has_vkey(pi_encoded_entries(p), k);
}


/// The entries on which a decode-encode round trip reproduces the
/// mapping exactly: a present optional fixed field is not an explicit
/// null (encode omits absent fields entirely), and a present list field
/// is non-empty (encode omits empty lists).
pub open spec fn pi_entry_exact(k: Seq<char>, v: Value) -> bool {
    if k == "summary"@ || k == "description"@ {
        v is Text
    } else if is_verb_key(k) {
        v is Object
    } else if k == "servers"@ || k == "parameters"@ {
        v is List && list_elems(v).len() > 0
    } else {
        true
    }
}

/// Every entry of the object round-trips exactly.
pub open spec fn pi_exact(s: Seq<(String, Value)>) -> bool {
    forall|i: int| 0 <= i < s.len() ==> pi_entry_exact((#[trigger] s[i]).0@, s[i].1)
}

/// A decoded reference-or-inline parameter re-encodes to the very view
/// it was decoded from.
proof fn lemma_ref_or_param_view(elem: Value, node: ReferenceOr<Parameter>)
    requires
        ReferenceOr::<Parameter>::dec_ok(elem),
        ReferenceOr::<Parameter>::dec_rel(elem, node),
    ensures
        node.spec_encode() == view_of(elem),
{
    match elem {
        Value::Object(es) => {
            lemma_entries_view(es@);
            if crate::codec::is_ref_shape(es@) {
                assert(node.spec_encode()->Obj_0 =~= entries_view(es@));
            } else {
                assert(node.spec_encode()->Obj_0 =~= entries_view(es@));
            }
        }
        _ => {}
    }
}

/// Round trip of the operation-set record: decoding an object with
/// unique keys and re-encoding the record yields an object with the same
/// key-to-value mapping, for sources whose present optional fields are
/// not explicit nulls and whose present list fields are non-empty.
#[verifier::rlimit(100)]
pub proof fn lemma_path_item_round_trip(es: Seq<(String, Value)>, p: PathItem, k: Seq<char>)
    requires
        uniq_keys(es),
        pi_ok(es),
        pi_exact(es),
        pi_fields_rel(es, p),
    ensures
        vlookup(pi_encoded_entries(p), k) == vlookup(entries_view(es), k),
{
    lemma_names_distinct();
    lemma_fixed_key_cases(k);
    lemma_entries_view_lookup(es, k);
    lemma_lookup_has_key(es, k);
    let fx = path_item_fixed_keys();
    let s1 = opt_text_entry("summary"@, p.summary);
    let s2 = opt_text_entry("description"@, p.description);
    let s3 = opt_verb_entry("get"@, p.get);
    let s4 = opt_verb_entry("put"@, p.put);
    let s5 = opt_verb_entry("post"@, p.post);
    let s6 = opt_verb_entry("delete"@, p.delete);
    let s7 = opt_verb_entry("options"@, p.options);
    let s8 = opt_verb_entry("head"@, p.head);
    let s9 = opt_verb_entry("patch"@, p.patch);
    let s10 = opt_verb_entry("trace"@, p.trace);
    let s11 = servers_entry(p.servers@);
    let s12 = params_entry(p.parameters@);
    let s13 = entries_view(p.extensions@);
    lemma_vlookup_concat(s1, s2, k);
    lemma_vlookup_concat(s1 + s2, s3, k);
    lemma_vlookup_concat(s1 + s2 + s3, s4, k);
    lemma_vlookup_concat(s1 + s2 + s3 + s4, s5, k);
    lemma_vlookup_concat(s1 + s2 + s3 + s4 + s5, s6, k);
    lemma_vlookup_concat(s1 + s2 + s3 + s4 + s5 + s6, s7, k);
    lemma_vlookup_concat(s1 + s2 + s3 + s4 + s5 + s6 + s7, s8, k);
    lemma_vlookup_concat(s1 + s2 + s3 + s4 + s5 + s6 + s7 + s8, s9, k);
    lemma_vlookup_concat(s1 + s2 + s3 + s4 + s5 + s6 + s7 + s8 + s9, s10, k);
    lemma_vlookup_concat(s1 + s2 + s3 + s4 + s5 + s6 + s7 + s8 + s9 + s10, s11, k);
    lemma_vlookup_concat(s1 + s2 + s3 + s4 + s5 + s6 + s7 + s8 + s9 + s10 + s11, s12, k);
    lemma_vlookup_concat(
        s1 + s2 + s3 + s4 + s5 + s6 + s7 + s8 + s9 + s10 + s11 + s12,
        s13,
        k,
    );
    lemma_has_vkey_concat(s1, s2, k);
    lemma_has_vkey_concat(s1 + s2, s3, k);
    lemma_has_vkey_concat(s1 + s2 + s3, s4, k);
    lemma_has_vkey_concat(s1 + s2 + s3 + s4, s5, k);
    lemma_has_vkey_concat(s1 + s2 + s3 + s4 + s5, s6, k);
    lemma_has_vkey_concat(s1 + s2 + s3 + s4 + s5 + s6, s7, k);
    lemma_has_vkey_concat(s1 + s2 + s3 + s4 + s5 + s6 + s7, s8, k);
    lemma_has_vkey_concat(s1 + s2 + s3 + s4 + s5 + s6 + s7 + s8, s9, k);
    lemma_has_vkey_concat(s1 + s2 + s3 + s4 + s5 + s6 + s7 + s8 + s9, s10, k);
    lemma_has_vkey_concat(s1 + s2 + s3 + s4 + s5 + s6 + s7 + s8 + s9 + s10, s11, k);
    lemma_has_vkey_concat(s1 + s2 + s3 + s4 + s5 + s6 + s7 + s8 + s9 + s10 + s11, s12, k);
    assert(has_vkey(s1, k) <==> (p.summary is Some && k == "summary"@)) by {
        if has_vkey(s1, k) {
            let i = choose|i: int| 0 <= i < s1.len() && (#[trigger] s1[i]).0 == k;
        }
        if p.summary is Some {
            assert(opt_text_entry("summary"@, p.summary)[0].0 == "summary"@);
        }
    }
    assert(has_vkey(s2, k) <==> (p.description is Some && k == "description"@)) by {
        if has_vkey(s2, k) {
            let i = choose|i: int| 0 <= i < s2.len() && (#[trigger] s2[i]).0 == k;
        }
        if p.description is Some {
            assert(opt_text_entry("description"@, p.description)[0].0 == "description"@);
        }
    }
    assert(has_vkey(s3, k) <==> (p.get is Some && k == "get"@)) by {
        if has_vkey(s3, k) {
            let i = choose|i: int| 0 <= i < s3.len() && (#[trigger] s3[i]).0 == k;
        }
        if p.get is Some {
            assert(opt_verb_entry("get"@, p.get)[0].0 == "get"@);
        }
    }
    assert(has_vkey(s4, k) <==> (p.put is Some && k == "put"@)) by {
        if has_vkey(s4, k) {
            let i = choose|i: int| 0 <= i < s4.len() && (#[trigger] s4[i]).0 == k;
        }
        if p.put is Some {
            assert(opt_verb_entry("put"@, p.put)[0].0 == "put"@);
        }
    }
    assert(has_vkey(s5, k) <==> (p.post is Some && k == "post"@)) by {
        if has_vkey(s5, k) {
            let i = choose|i: int| 0 <= i < s5.len() && (#[trigger] s5[i]).0 == k;
        }
        if p.post is Some {
            assert(opt_verb_entry("post"@, p.post)[0].0 == "post"@);
        }
    }
    assert(has_vkey(s6, k) <==> (p.delete is Some && k == "delete"@)) by {
        if has_vkey(s6, k) {
            let i = choose|i: int| 0 <= i < s6.len() && (#[trigger] s6[i]).0 == k;
        }
        if p.delete is Some {
            assert(opt_verb_entry("delete"@, p.delete)[0].0 == "delete"@);
        }
    }
    assert(has_vkey(s7, k) <==> (p.options is Some && k == "options"@)) by {
        if has_vkey(s7, k) {
            let i = choose|i: int| 0 <= i < s7.len() && (#[trigger] s7[i]).0 == k;
        }
        if p.options is Some {
            assert(opt_verb_entry("options"@, p.options)[0].0 == "options"@);
        }
    }
    assert(has_vkey(s8, k) <==> (p.head is Some && k == "head"@)) by {
        if has_vkey(s8, k) {
            let i = choose|i: int| 0 <= i < s8.len() && (#[trigger] s8[i]).0 == k;
        }
        if p.head is Some {
            assert(opt_verb_entry("head"@, p.head)[0].0 == "head"@);
        }
    }
    assert(has_vkey(s9, k) <==> (p.patch is Some && k == "patch"@)) by {
        if has_vkey(s9, k) {
            let i = choose|i: int| 0 <= i < s9.len() && (#[trigger] s9[i]).0 == k;
        }
        if p.patch is Some {
            assert(opt_verb_entry("patch"@, p.patch)[0].0 == "patch"@);
        }
    }
    assert(has_vkey(s10, k) <==> (p.trace is Some && k == "trace"@)) by {
        if has_vkey(s10, k) {
            let i = choose|i: int| 0 <= i < s10.len() && (#[trigger] s10[i]).0 == k;
        }
        if p.trace is Some {
            assert(opt_verb_entry("trace"@, p.trace)[0].0 == "trace"@);
        }
    }
    assert(has_vkey(s11, k) <==> (p.servers@.len() > 0 && k == "servers"@)) by {
        if has_vkey(s11, k) {
            let i = choose|i: int| 0 <= i < s11.len() && (#[trigger] s11[i]).0 == k;
        }
        if p.servers@.len() > 0 {
            assert(servers_entry(p.servers@)[0].0 == "servers"@);
        }
    }
    assert(has_vkey(s12, k) <==> (p.parameters@.len() > 0 && k == "parameters"@)) by {
        if has_vkey(s12, k) {
            let i = choose|i: int| 0 <= i < s12.len() && (#[trigger] s12[i]).0 == k;
        }
        if p.parameters@.len() > 0 {
            assert(params_entry(p.parameters@)[0].0 == "parameters"@);
        }
    }
    lemma_entries_view_has(p.extensions@, k);
    lemma_bucket_sel_has_key(fx, KeyRule::NoDynamic, Bucket::Extension, es, k);
    lemma_entries_view_lookup(p.extensions@, k);
    if p.summary is Some {
        lemma_vlookup_singleton(s1[0], k);
    }
    if p.description is Some {
        lemma_vlookup_singleton(s2[0], k);
    }
    if p.get is Some {
        lemma_vlookup_singleton(s3[0], k);
    }
    if p.put is Some {
        lemma_vlookup_singleton(s4[0], k);
    }
    if p.post is Some {
        lemma_vlookup_singleton(s5[0], k);
    }
    if p.delete is Some {
        lemma_vlookup_singleton(s6[0], k);
    }
    if p.options is Some {
        lemma_vlookup_singleton(s7[0], k);
    }
    if p.head is Some {
        lemma_vlookup_singleton(s8[0], k);
    }
    if p.patch is Some {
        lemma_vlookup_singleton(s9[0], k);
    }
    if p.trace is Some {
        lemma_vlookup_singleton(s10[0], k);
    }
    if p.servers@.len() > 0 {
        lemma_vlookup_singleton(s11[0], k);
    }
    if p.parameters@.len() > 0 {
        lemma_vlookup_singleton(s12[0], k);
    }
    lemma_lookup_has_key(p.extensions@, k);
    if in_fixed(fx, k) {
        match lookup(es, k) {
            Some(val) => {
                lemma_lookup_entry(es, k, val);
                let idx = choose|i: int|
                    0 <= i < es.len() && (#[trigger] es[i]).0@ == k && es[i].1 == val;
                assert(fixed_ok(k, val));
                assert(pi_entry_exact(k, val));
                if k == "servers"@ {
                    let l = list_elems(val);
                    lemma_list_views(l);
                    assert forall|i: int|
                        0 <= i < l.len() implies server_views(p.servers@)[i] == list_views(
                        l,
                    )[i] by {
                        assert(l[i] is Object);
                        assert(p.servers@[i].fields@ == object_entries(l[i]));
                    }
                    assert(server_views(p.servers@) =~= list_views(l));
                } else if k == "parameters"@ {
                    let l = list_elems(val);
                    lemma_list_views(l);
                    assert forall|i: int|
                        0 <= i < l.len() implies param_views(p.parameters@)[i] == list_views(
                        l,
                    )[i] by {
                        assert(ReferenceOr::<Parameter>::dec_ok(l[i]));
                        assert(ReferenceOr::<Parameter>::dec_rel(l[i], p.parameters@[i]));
                        lemma_ref_or_param_view(l[i], p.parameters@[i]);
                    }
                    assert(param_views(p.parameters@) =~= list_views(l));
                }
            }
            None => {}
        }
    } else {
        lemma_bucket_sel_lookup(fx, KeyRule::NoDynamic, Bucket::Extension, es, k);
    }
}

/// The twelve reserved field names are pairwise distinct.
proof fn lemma_names_distinct()
    ensures
        "summary"@ != "description"@,
        "summary"@ != "get"@,
        "summary"@ != "put"@,
        "summary"@ != "post"@,
        "summary"@ != "delete"@,
        "summary"@ != "options"@,
        "summary"@ != "head"@,
        "summary"@ != "patch"@,
        "summary"@ != "trace"@,
        "summary"@ != "servers"@,
        "summary"@ != "parameters"@,
        "description"@ != "get"@,
        "description"@ != "put"@,
        "description"@ != "post"@,
        "description"@ != "delete"@,
        "description"@ != "options"@,
        "description"@ != "head"@,
        "description"@ != "patch"@,
        "description"@ != "trace"@,
        "description"@ != "servers"@,
        "description"@ != "parameters"@,
        "get"@ != "put"@,
        "get"@ != "post"@,
        "get"@ != "delete"@,
        "get"@ != "options"@,
        "get"@ != "head"@,
        "get"@ != "patch"@,
        "get"@ != "trace"@,
        "get"@ != "servers"@,
        "get"@ != "parameters"@,
        "put"@ != "post"@,
        "put"@ != "delete"@,
        "put"@ != "options"@,
        "put"@ != "head"@,
        "put"@ != "patch"@,
        "put"@ != "trace"@,
        "put"@ != "servers"@,
        "put"@ != "parameters"@,
        "post"@ != "delete"@,
        "post"@ != "options"@,
        "post"@ != "head"@,
        "post"@ != "patch"@,
        "post"@ != "trace"@,
        "post"@ != "servers"@,
        "post"@ != "parameters"@,
        "delete"@ != "options"@,
        "delete"@ != "head"@,
        "delete"@ != "patch"@,
        "delete"@ != "trace"@,
        "delete"@ != "servers"@,
        "delete"@ != "parameters"@,
        "options"@ != "head"@,
        "options"@ != "patch"@,
        "options"@ != "trace"@,
        "options"@ != "servers"@,
        "options"@ != "parameters"@,
        "head"@ != "patch"@,
        "head"@ != "trace"@,
        "head"@ != "servers"@,
        "head"@ != "parameters"@,
        "patch"@ != "trace"@,
        "patch"@ != "servers"@,
        "patch"@ != "parameters"@,
        "trace"@ != "servers"@,
        "trace"@ != "parameters"@,
        "servers"@ != "parameters"@,
{
    reveal_strlit("summary");
    reveal_strlit("description");
    reveal_strlit("get");
    reveal_strlit("put");
    reveal_strlit("post");
    reveal_strlit("delete");
    reveal_strlit("options");
    reveal_strlit("head");
    reveal_strlit("patch");
    reveal_strlit("trace");
    reveal_strlit("servers");
    reveal_strlit("parameters");
    assert("summary"@.len() == 7);
    assert("summary"@[0] == 's');
    assert("description"@.len() == 11);
    assert("description"@[0] == 'd');
    assert("get"@.len() == 3);
    assert("get"@[0] == 'g');
    assert("put"@.len() == 3);
    assert("put"@[0] == 'p');
    assert("post"@.len() == 4);
    assert("post"@[0] == 'p');
    assert("delete"@.len() == 6);
    assert("delete"@[0] == 'd');
    assert("options"@.len() == 7);
    assert("options"@[0] == 'o');
    assert("head"@.len() == 4);
    assert("head"@[0] == 'h');
    assert("patch"@.len() == 5);
    assert("patch"@[0] == 'p');
    assert("trace"@.len() == 5);
    assert("trace"@[0] == 't');
    assert("servers"@.len() == 7);
    assert("servers"@[0] == 's');
    assert("parameters"@.len() == 10);
    assert("parameters"@[0] == 'p');
    assert("summary"@[1] == 'u');
    assert("servers"@[1] == 'e');
}

/// Appending one entry moves every lookup of its own key from absent to
/// found, and leaves every other lookup unchanged.
proof fn lemma_step_lookups(orig: Seq<(String, Value)>, i: int)
    requires
        uniq_keys(orig),
        0 <= i < orig.len(),
    ensures
        forall|n: Seq<char>| #![trigger lookup(orig.take(i + 1), n)]
            lookup(orig.take(i + 1), n) == (if orig[i].0@ == n {
                Some(orig[i].1)
            } else {
                lookup(orig.take(i), n)
            }),
{
    lemma_prefix_fresh(orig, i);
    assert(orig.take(i + 1) =~= orig.take(i).push(orig[i]));
    assert forall|n: Seq<char>|
        lookup(orig.take(i + 1), n) == (if orig[i].0@ == n {
            Some(orig[i].1)
        } else {
            lookup(orig.take(i), n)
        }) by {
        lemma_lookup_push(orig.take(i), orig[i], n);
        lemma_lookup_has_key(orig.take(i), n);
    }
}

/// A failing fixed entry at position `i`, after a clean prefix, is the
/// first error of the whole object.
proof fn lemma_err_witness(orig: Seq<(String, Value)>, i: int, e: DecodeError)
    requires
        0 <= i < orig.len(),
        forall|j: int| 0 <= j < i ==> fixed_ok((#[trigger] orig[j]).0@, orig[j].1),
        !fixed_ok(orig[i].0@, orig[i].1),
        e == mk_fixed_err(orig[i].0, orig[i].1),
    ensures
        pi_first_err(orig, e),
        !pi_ok(orig),
{
}

} // verus!
