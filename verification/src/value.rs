//! The generic ordered value tree that decoding consumes and encoding
//! produces, together with its mathematical view.

use vstd::prelude::*;

verus! {

/// An untyped, ordered, string-keyed value tree.  An object is an ordered
/// list of key-value entries; well-formed objects carry each key at most
/// once (see [`uniq_keys`]).
#[derive(Debug, PartialEq)]
pub enum Value {
    Null,
    Bool(bool),
    Int(i64),
    Text(String),
    List(Vec<Value>),
    Object(Vec<(String, Value)>),
}

/// The shape a value was expected to have, reported by decode errors.
#[derive(Debug, Clone, Copy, PartialEq, Eq, Structural)]
pub enum ValueKind {
    Null,
    Bool,
    Int,
    Text,
    List,
    Object,
}

/// The mathematical shape of a [`Value`]: strings become character
/// sequences, lists and objects become sequences, so that two trees have
/// the same view exactly when they carry the same data.
#[verifier::ext_equal]
pub enum ValView {
    Null,
    Bool(bool),
    Int(int),
    Text(Seq<char>),
    List(Seq<ValView>),
    Obj(Seq<(Seq<char>, ValView)>),
}

/// The deep view of a value tree.
pub open spec fn view_of(v: Value) -> ValView
    decreases v,
    via view_of_dec
{
    match v {
        Value::Null => ValView::Null,
        Value::Bool(b) => ValView::Bool(b),
        Value::Int(i) => ValView::Int(i as int),
        Value::Text(s) => ValView::Text(s@),
        Value::List(l) => ValView::List(list_views(l@)),
        Value::Object(es) => ValView::Obj(entries_view(es@)),
    }
}

/// The views of the elements of a list.
pub open spec fn list_views(l: Seq<Value>) -> Seq<ValView>
    decreases l,
    via list_views_dec
{
    if l.len() == 0 {
        Seq::empty()
    } else {
        seq![view_of(l[0])] + list_views(l.drop_first())
    }
}

/// The view of each entry of an object: the key as a character sequence,
/// the value as its view.
pub open spec fn entries_view(es: Seq<(String, Value)>) -> Seq<(Seq<char>, ValView)>
    decreases es,
    via entries_view_dec
{
    if es.len() == 0 {
        Seq::empty()
    } else {
        seq![(es[0].0@, view_of(es[0].1))] + entries_view(es.drop_first())
    }
}

#[via_fn]
proof fn view_of_dec(v: Value) {
    broadcast use vstd::std_specs::vec::axiom_vec_decreases_to_view;

    match v {
        Value::List(l) => {
            assert(decreases_to!(v => l));
            assert(decreases_to!(l => l@));
        }
        Value::Object(es) => {
            assert(decreases_to!(v => es));
            assert(decreases_to!(es => es@));
        }
        _ => {}
    }
}

#[via_fn]
proof fn list_views_dec(l: Seq<Value>) {
    broadcast use vstd::seq::axiom_seq_index_decreases, vstd::seq::axiom_seq_subrange_decreases;

    if l.len() > 0 {
        assert(decreases_to!(l => l[0]));
        assert(l.drop_first() =~= l.subrange(1, l.len() as int));
        assert(decreases_to!(l => l.subrange(1, l.len() as int)));
    }
}

#[via_fn]
proof fn entries_view_dec(es: Seq<(String, Value)>) {
    broadcast use vstd::seq::axiom_seq_index_decreases, vstd::seq::axiom_seq_subrange_decreases;

    if es.len() > 0 {
        assert(decreases_to!(es => es[0]));
        assert(decreases_to!(es => es[0].1));
        assert(es.drop_first() =~= es.subrange(1, es.len() as int));
        assert(decreases_to!(es => es.subrange(1, es.len() as int)));
    }
}

impl View for Value {
    type V = ValView;

    open spec fn view(&self) -> ValView {
        view_of(*self)
    }
}

/// `list_views` is the element-wise view of the list.
pub proof fn lemma_list_views(l: Seq<Value>)
    ensures
        list_views(l).len() == l.len(),
        forall|i: int| 0 <= i < l.len() ==> list_views(l)[i] == view_of(#[trigger] l[i]),
    decreases l.len(),
{
    if l.len() > 0 {
        lemma_list_views(l.drop_first());
        assert forall|i: int| 0 <= i < l.len() implies list_views(l)[i] == view_of(#[trigger] l[i]) by {
            if i > 0 {
                assert(list_views(l)[i] == list_views(l.drop_first())[i - 1]);
                assert(l.drop_first()[i - 1] == l[i]);
            }
        }
    }
}

/// `entries_view` is the entry-wise view of the object.
pub proof fn lemma_entries_view(es: Seq<(String, Value)>)
    ensures
        entries_view(es).len() == es.len(),
        forall|i: int|
            0 <= i < es.len() ==> entries_view(es)[i] == ((#[trigger] es[i]).0@, view_of(es[i].1)),
    decreases es.len(),
{
    if es.len() > 0 {
        lemma_entries_view(es.drop_first());
        assert forall|i: int|
            0 <= i < es.len() implies entries_view(es)[i] == ((#[trigger] es[i]).0@, view_of(
            es[i].1,
        )) by {
            if i > 0 {
                assert(entries_view(es)[i] == entries_view(es.drop_first())[i - 1]);
                assert(es.drop_first()[i - 1] == es[i]);
            }
        }
    }
}

/// The view of an object grows entry by entry.
pub proof fn lemma_entries_view_push(es: Seq<(String, Value)>, x: (String, Value))
    ensures
        entries_view(es.push(x)) == entries_view(es).push((x.0@, view_of(x.1))),
{
    lemma_entries_view(es);
    lemma_entries_view(es.push(x));
    assert forall|i: int|
        0 <= i < es.push(x).len() implies entries_view(es.push(x))[i] == entries_view(es).push(
        (x.0@, view_of(x.1)),
    )[i] by {
        if i < es.len() {
            assert(es.push(x)[i] == es[i]);
        } else {
            assert(es.push(x)[i] == x);
        }
    }
    assert(entries_view(es.push(x)) =~= entries_view(es).push((x.0@, view_of(x.1))));
}

/// The view of an object splits over concatenation.
pub proof fn lemma_entries_view_concat(a: Seq<(String, Value)>, b: Seq<(String, Value)>)
    ensures
        entries_view(a + b) == entries_view(a) + entries_view(b),
{
    lemma_entries_view(a);
    lemma_entries_view(b);
    lemma_entries_view(a + b);
    assert forall|i: int|
        0 <= i < (a + b).len() implies entries_view(a + b)[i] == (entries_view(a) + entries_view(
        b,
    ))[i] by {
        if i < a.len() {
            assert((a + b)[i] == a[i]);
        } else {
            assert((a + b)[i] == b[i - a.len()]);
        }
    }
    assert(entries_view(a + b) =~= entries_view(a) + entries_view(b));
}

/// Each key occurs at most once among the entries.
pub open spec fn uniq_keys(es: Seq<(String, Value)>) -> bool {
    forall|i: int, j: int|
        0 <= i < j < es.len() ==> (#[trigger] es[i]).0@ != (#[trigger] es[j]).0@
}

/// The value stored under `k`, taking the first match in entry order.
pub open spec fn lookup(es: Seq<(String, Value)>, k: Seq<char>) -> Option<Value>
    decreases es.len(),
{
    if es.len() == 0 {
        None
    } else if es[0].0@ == k {
        Some(es[0].1)
    } else {
        lookup(es.drop_first(), k)
    }
}

/// The view-level value stored under `k` in an object view, taking the
/// first match in entry order.
pub open spec fn vlookup(es: Seq<(Seq<char>, ValView)>, k: Seq<char>) -> Option<ValView>
    decreases es.len(),
{
    if es.len() == 0 {
        None
    } else if es[0].0 == k {
        Some(es[0].1)
    } else {
        vlookup(es.drop_first(), k)
    }
}

/// Whether some entry carries the key `k`.
pub open spec fn has_key(es: Seq<(String, Value)>, k: Seq<char>) -> bool {
    exists|i: int| 0 <= i < es.len() && (#[trigger] es[i]).0@ == k
}

/// Whether some entry of an object view carries the key `k`.
pub open spec fn has_vkey(es: Seq<(Seq<char>, ValView)>, k: Seq<char>) -> bool {
    exists|i: int| 0 <= i < es.len() && (#[trigger] es[i]).0 == k
}

/// `vlookup` finds a value exactly when the key is present.
pub proof fn lemma_vlookup_has_vkey(es: Seq<(Seq<char>, ValView)>, k: Seq<char>)
    ensures
        vlookup(es, k) is Some <==> has_vkey(es, k),
    decreases es.len(),
{
    if es.len() > 0 {
        if has_vkey(es, k) && es[0].0 != k {
            let i = choose|i: int| 0 <= i < es.len() && (#[trigger] es[i]).0 == k;
            assert(es.drop_first()[i - 1] == es[i]);
        }
        if has_vkey(es.drop_first(), k) {
            let i = choose|i: int|
                0 <= i < es.drop_first().len() && (#[trigger] es.drop_first()[i]).0 == k;
            assert(es[i + 1] == es.drop_first()[i]);
        }
        lemma_vlookup_has_vkey(es.drop_first(), k);
    }
}

/// Looking a key up in a one-entry object view.
pub proof fn lemma_vlookup_singleton(x: (Seq<char>, ValView), k: Seq<char>)
    ensures
        vlookup(seq![x], k) == if x.0 == k {
            Some(x.1)
        } else {
            Option::<ValView>::None
        },
{
    reveal_with_fuel(vlookup, 3);
}

/// Looking up a present key finds the value of one of the entries that
/// carry it.
pub proof fn lemma_lookup_entry(es: Seq<(String, Value)>, k: Seq<char>, val: Value)
    requires
        lookup(es, k) == Some(val),
    ensures
        exists|i: int| 0 <= i < es.len() && (#[trigger] es[i]).0@ == k && es[i].1 == val,
    decreases es.len(),
{
    if es.len() > 0 {
        if es[0].0@ == k {
            assert(es[0].0@ == k && es[0].1 == val);
        } else {
            lemma_lookup_entry(es.drop_first(), k, val);
            let i = choose|i: int|
                0 <= i < es.drop_first().len() && (#[trigger] es.drop_first()[i]).0@ == k
                    && es.drop_first()[i].1 == val;
            assert(es[i + 1] == es.drop_first()[i]);
        }
    }
}

/// An object view holds a key exactly when the object holds it.
pub proof fn lemma_entries_view_has(es: Seq<(String, Value)>, k: Seq<char>)
    ensures
        has_vkey(entries_view(es), k) <==> has_key(es, k),
{
    lemma_entries_view(es);
    if has_vkey(entries_view(es), k) {
        let i = choose|i: int|
            0 <= i < entries_view(es).len() && (#[trigger] entries_view(es)[i]).0 == k;
        assert((es[i]).0@ == k);
    }
    if has_key(es, k) {
        let i = choose|i: int| 0 <= i < es.len() && (#[trigger] es[i]).0@ == k;
        assert(entries_view(es)[i].0 == k);
    }
}

/// Looking a key up in an object's view finds the view of what looking
/// it up in the object finds.
pub proof fn lemma_entries_view_lookup(es: Seq<(String, Value)>, k: Seq<char>)
    ensures
        vlookup(entries_view(es), k) == match lookup(es, k) {
            Some(v) => Some(view_of(v)),
            None => None,
        },
    decreases es.len(),
{
    lemma_entries_view(es);
    if es.len() > 0 {
        assert(entries_view(es)[0] == (es[0].0@, view_of(es[0].1)));
        assert(entries_view(es).drop_first() =~= entries_view(es.drop_first())) by {
            lemma_entries_view(es.drop_first());
            assert forall|i: int|
                0 <= i < es.len() - 1 implies entries_view(es).drop_first()[i] == entries_view(
                es.drop_first(),
            )[i] by {
                assert(es.drop_first()[i] == es[i + 1]);
            }
        }
        lemma_entries_view_lookup(es.drop_first(), k);
    }
}

/// A key is present in a concatenation of object views exactly when it
/// is present in one of the parts.
pub proof fn lemma_has_vkey_concat(
    a: Seq<(Seq<char>, ValView)>,
    b: Seq<(Seq<char>, ValView)>,
    k: Seq<char>,
)
    ensures
        has_vkey(a + b, k) <==> (has_vkey(a, k) || has_vkey(b, k)),
{
    if has_vkey(a + b, k) {
        let i = choose|i: int| 0 <= i < (a + b).len() && (#[trigger] (a + b)[i]).0 == k;
        if i < a.len() {
            assert(a[i] == (a + b)[i]);
        } else {
            assert(b[i - a.len()] == (a + b)[i]);
        }
    }
    if has_vkey(a, k) {
        let i = choose|i: int| 0 <= i < a.len() && (#[trigger] a[i]).0 == k;
        assert((a + b)[i] == a[i]);
    }
    if has_vkey(b, k) {
        let i = choose|i: int| 0 <= i < b.len() && (#[trigger] b[i]).0 == k;
        assert((a + b)[i + a.len()] == b[i]);
    }
}

/// Looking a key up in a concatenation of object views reads the left
/// part first.
pub proof fn lemma_vlookup_concat(
    a: Seq<(Seq<char>, ValView)>,
    b: Seq<(Seq<char>, ValView)>,
    k: Seq<char>,
)
    ensures
        vlookup(a + b, k) == if has_vkey(a, k) {
            vlookup(a, k)
        } else {
            vlookup(b, k)
        },
    decreases a.len(),
{
    if a.len() == 0 {
        assert(a + b =~= b);
        if has_vkey(a, k) {
            let i = choose|i: int| 0 <= i < a.len() && (#[trigger] a[i]).0 == k;
        }
    } else {
        if has_vkey(a, k) && a[0].0 != k {
            let i = choose|i: int| 0 <= i < a.len() && (#[trigger] a[i]).0 == k;
            assert(a.drop_first()[i - 1] == a[i]);
        }
        if has_vkey(a.drop_first(), k) {
            let i = choose|i: int|
                0 <= i < a.drop_first().len() && (#[trigger] a.drop_first()[i]).0 == k;
            assert(a[i + 1] == a.drop_first()[i]);
        }
        assert((a + b)[0] == a[0]);
        if a[0].0 != k {
            assert((a + b).drop_first() =~= a.drop_first() + b);
            lemma_vlookup_concat(a.drop_first(), b, k);
        }
    }
}

/// Compares a key against a reserved field name.
pub fn key_is(k: &String, name: &str) -> (b: bool)
    ensures
        b == (k@ == name@),
{
    let owned: String = name.to_owned();
    *k == owned
}

} // verus!
