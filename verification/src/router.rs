//! The partitioned-object decoder: a single ordered pass that routes every
//! key of an object into exactly one of three buckets — a fixed field, a
//! dynamically keyed entry, or an extension entry — and the inverse step
//! that reassembles the buckets into one object.

use vstd::prelude::*;
use vstd::string::StrSliceExecFns;

use crate::value::{has_key, lookup, uniq_keys, Value};

verus! {

/// The destination of one key.
#[derive(Debug, Clone, Copy, PartialEq, Eq, Structural)]
pub enum Bucket {
    Fixed,
    Dynamic,
    Extension,
}

/// The dynamic-key predicate of a record type, evaluated only on keys that
/// did not match the fixed field set.
#[derive(Debug, Clone, Copy, PartialEq, Eq, Structural)]
pub enum KeyRule {
    /// Keys that start with the path separator `/` are dynamic.
    PathTemplate,
    /// No key is dynamic; every non-fixed key is an extension entry.
    NoDynamic,
}

/// Whether the dynamic-key predicate holds of `k`.
pub open spec fn rule_matches(rule: KeyRule, k: Seq<char>) -> bool {
    match rule {
        KeyRule::PathTemplate => k.len() > 0 && k[0] == '/',
        KeyRule::NoDynamic => false,
    }
}

/// The keys of the fixed field set, as character sequences.
pub open spec fn key_views(fx: Seq<String>) -> Seq<Seq<char>> {
    Seq::new(fx.len(), |i: int| fx[i]@)
}

/// Whether `k` names a field of the fixed field set `fx`.
pub open spec fn in_fixed(fx: Seq<Seq<char>>, k: Seq<char>) -> bool {
    exists|i: int| 0 <= i < fx.len() && #[trigger] fx[i] == k
}

/// Where one key goes: first the fixed field set, then the dynamic-key
/// predicate, and the extension bucket as the fallback.
pub open spec fn route(fx: Seq<Seq<char>>, rule: KeyRule, k: Seq<char>) -> Bucket {
    if in_fixed(fx, k) {
        Bucket::Fixed
    } else if rule_matches(rule, k) {
        Bucket::Dynamic
    } else {
        Bucket::Extension
    }
}

/// The sub-sequence of entries routed to bucket `b`, in source order.
pub open spec fn bucket_sel(
    fx: Seq<Seq<char>>,
    rule: KeyRule,
    b: Bucket,
    es: Seq<(String, Value)>,
) -> Seq<(String, Value)>
    decreases es.len(),
{
    if es.len() == 0 {
        Seq::empty()
    } else {
        let rest = bucket_sel(fx, rule, b, es.drop_last());
        if route(fx, rule, es.last().0@) == b {
            rest.push(es.last())
        } else {
            rest
        }
    }
}

/// Exactly one of the three buckets is responsible for any key: a
/// fixed-field match, a predicate match, or the extension fallback.
pub proof fn lemma_routing_exclusive(fx: Seq<Seq<char>>, rule: KeyRule, k: Seq<char>)
    ensures
        route(fx, rule, k) == Bucket::Fixed <==> in_fixed(fx, k),
        route(fx, rule, k) == Bucket::Dynamic <==> (!in_fixed(fx, k) && rule_matches(rule, k)),
        route(fx, rule, k) == Bucket::Extension <==> (!in_fixed(fx, k) && !rule_matches(
            rule,
            k,
        )),
{
}

/// The object rebuilt from the three buckets: fixed fields, then dynamic
/// entries, then extension entries.
pub open spec fn reassembled(fx: Seq<Seq<char>>, rule: KeyRule, es: Seq<(String, Value)>) -> Seq<
    (String, Value),
> {
    bucket_sel(fx, rule, Bucket::Fixed, es) + bucket_sel(fx, rule, Bucket::Dynamic, es)
        + bucket_sel(fx, rule, Bucket::Extension, es)
}

proof fn lemma_has_key_unfold(es: Seq<(String, Value)>, k: Seq<char>)
    requires
        es.len() > 0,
    ensures
        has_key(es, k) <==> (es[0].0@ == k || has_key(es.drop_first(), k)),
{
    if has_key(es, k) && es[0].0@ != k {
        let i = choose|i: int| 0 <= i < es.len() && (#[trigger] es[i]).0@ == k;
        assert(es.drop_first()[i - 1] == es[i]);
    }
    if has_key(es.drop_first(), k) {
        let i = choose|i: int|
            0 <= i < es.drop_first().len() && (#[trigger] es.drop_first()[i]).0@ == k;
        assert(es[i + 1] == es.drop_first()[i]);
    }
}

proof fn lemma_has_key_push(es: Seq<(String, Value)>, x: (String, Value), k: Seq<char>)
    ensures
        has_key(es.push(x), k) <==> (has_key(es, k) || x.0@ == k),
{
    if has_key(es.push(x), k) && x.0@ != k {
        let i = choose|i: int| 0 <= i < es.push(x).len() && (#[trigger] es.push(x)[i]).0@ == k;
        assert(es[i] == es.push(x)[i]);
    }
    if has_key(es, k) {
        let i = choose|i: int| 0 <= i < es.len() && (#[trigger] es[i]).0@ == k;
        assert(es.push(x)[i] == es[i]);
    }
    if x.0@ == k {
        assert(es.push(x)[es.len() as int] == x);
    }
}

/// `lookup` finds a value exactly when the key is present.
pub proof fn lemma_lookup_has_key(es: Seq<(String, Value)>, k: Seq<char>)
    ensures
        lookup(es, k) is Some <==> has_key(es, k),
    decreases es.len(),
{
    if es.len() > 0 {
        lemma_has_key_unfold(es, k);
        lemma_lookup_has_key(es.drop_first(), k);
    }
}

/// Looking a key up in a concatenation reads the left part first.
pub proof fn lemma_lookup_concat(a: Seq<(String, Value)>, b: Seq<(String, Value)>, k: Seq<char>)
    ensures
        lookup(a + b, k) == if has_key(a, k) {
            lookup(a, k)
        } else {
            lookup(b, k)
        },
    decreases a.len(),
{
    if a.len() == 0 {
        assert(a + b =~= b);
        if has_key(a, k) {
            let i = choose|i: int| 0 <= i < a.len() && (#[trigger] a[i]).0@ == k;
        }
    } else {
        lemma_has_key_unfold(a, k);
        assert((a + b)[0] == a[0]);
        if a[0].0@ != k {
            assert((a + b).drop_first() =~= a.drop_first() + b);
            lemma_lookup_concat(a.drop_first(), b, k);
        }
    }
}

/// Appending an entry changes only the lookup of its own key, and only
/// when that key was absent.
pub proof fn lemma_lookup_push(es: Seq<(String, Value)>, x: (String, Value), k: Seq<char>)
    ensures
        lookup(es.push(x), k) == if has_key(es, k) {
            lookup(es, k)
        } else if x.0@ == k {
            Some(x.1)
        } else {
            Option::<Value>::None
        },
{
    assert(es + seq![x] =~= es.push(x));
    assert(lookup(seq![x], k) == (if x.0@ == k {
        Some(x.1)
    } else {
        Option::<Value>::None
    })) by {
        reveal_with_fuel(lookup, 3);
    }
    lemma_lookup_concat(es, seq![x], k);
    lemma_lookup_has_key(es, k);
}

/// In an object with unique keys, the key of entry `i` does not occur
/// before `i`.
pub proof fn lemma_prefix_fresh(es: Seq<(String, Value)>, i: int)
    requires
        uniq_keys(es),
        0 <= i < es.len(),
    ensures
        !has_key(es.take(i), es[i].0@),
{
    if has_key(es.take(i), es[i].0@) {
        let j = choose|j: int| 0 <= j < es.take(i).len() && (#[trigger] es.take(i)[j]).0@ == es[i].0@;
        assert(es.take(i)[j] == es[j]);
    }
}

proof fn lemma_has_key_concat(a: Seq<(String, Value)>, b: Seq<(String, Value)>, k: Seq<char>)
    ensures
        has_key(a + b, k) <==> (has_key(a, k) || has_key(b, k)),
{
    if has_key(a + b, k) {
        let i = choose|i: int| 0 <= i < (a + b).len() && (#[trigger] (a + b)[i]).0@ == k;
        if i < a.len() {
            assert(a[i] == (a + b)[i]);
        } else {
            assert(b[i - a.len()] == (a + b)[i]);
        }
    }
    if has_key(a, k) {
        let i = choose|i: int| 0 <= i < a.len() && (#[trigger] a[i]).0@ == k;
        assert((a + b)[i] == a[i]);
    }
    if has_key(b, k) {
        let i = choose|i: int| 0 <= i < b.len() && (#[trigger] b[i]).0@ == k;
        assert((a + b)[i + a.len()] == b[i]);
    }
}

/// A bucket holds a key exactly when the source object holds it and routes
/// it there: no key is processed twice, and no key is dropped.
pub proof fn lemma_bucket_sel_has_key(
    fx: Seq<Seq<char>>,
    rule: KeyRule,
    b: Bucket,
    es: Seq<(String, Value)>,
    k: Seq<char>,
)
    ensures
        has_key(bucket_sel(fx, rule, b, es), k) <==> (has_key(es, k) && route(fx, rule, k) == b),
    decreases es.len(),
{
    if es.len() > 0 {
        lemma_bucket_sel_has_key(fx, rule, b, es.drop_last(), k);
        assert(es.drop_last().push(es.last()) =~= es);
        lemma_has_key_push(es.drop_last(), es.last(), k);
        if route(fx, rule, es.last().0@) == b {
            lemma_has_key_push(bucket_sel(fx, rule, b, es.drop_last()), es.last(), k);
        }
    }
}

proof fn lemma_uniq_drop_last(es: Seq<(String, Value)>)
    requires
        uniq_keys(es),
        es.len() > 0,
    ensures
        uniq_keys(es.drop_last()),
{
    assert forall|i: int, j: int|
        0 <= i < j < es.drop_last().len() implies (#[trigger] es.drop_last()[i]).0@ != (
    #[trigger] es.drop_last()[j]).0@ by {
        assert(es.drop_last()[i] == es[i]);
        assert(es.drop_last()[j] == es[j]);
    }
}

/// Within its bucket, a key's first match is the source object's first
/// match: the bucket preserves the mapping it is responsible for.
pub proof fn lemma_bucket_sel_lookup(
    fx: Seq<Seq<char>>,
    rule: KeyRule,
    b: Bucket,
    es: Seq<(String, Value)>,
    k: Seq<char>,
)
    requires
        uniq_keys(es),
        route(fx, rule, k) == b,
    ensures
        lookup(bucket_sel(fx, rule, b, es), k) == lookup(es, k),
    decreases es.len(),
{
    if es.len() > 0 {
        let prefix = es.drop_last();
        let last = es.last();
        let sel_prefix = bucket_sel(fx, rule, b, prefix);
        lemma_uniq_drop_last(es);
        lemma_bucket_sel_lookup(fx, rule, b, prefix, k);
        lemma_bucket_sel_has_key(fx, rule, b, prefix, k);
        lemma_lookup_has_key(prefix, k);
        lemma_lookup_has_key(sel_prefix, k);
        assert(prefix.push(last) =~= es);
        assert(prefix + seq![last] =~= es);
        assert(lookup(seq![last], k) == (if last.0@ == k {
            Some(last.1)
        } else {
            Option::<Value>::None
        })) by {
            reveal_with_fuel(lookup, 3);
        }
        lemma_lookup_concat(prefix, seq![last], k);
        if route(fx, rule, last.0@) == b {
            assert(sel_prefix + seq![last] =~= sel_prefix.push(last));
            lemma_lookup_concat(sel_prefix, seq![last], k);
        } else {
            assert(last.0@ != k);
        }
    }
}

/// Round trip of the partitioned-object decoder: splitting an object with
/// unique keys into its three buckets and reassembling them yields an
/// object with the same key-to-value mapping.
pub proof fn lemma_partition_round_trip(
    fx: Seq<Seq<char>>,
    rule: KeyRule,
    es: Seq<(String, Value)>,
    k: Seq<char>,
)
    requires
        uniq_keys(es),
    ensures
        lookup(reassembled(fx, rule, es), k) == lookup(es, k),
{
    let f = bucket_sel(fx, rule, Bucket::Fixed, es);
    let d = bucket_sel(fx, rule, Bucket::Dynamic, es);
    let e = bucket_sel(fx, rule, Bucket::Extension, es);
    lemma_bucket_sel_has_key(fx, rule, Bucket::Fixed, es, k);
    lemma_bucket_sel_has_key(fx, rule, Bucket::Dynamic, es, k);
    lemma_bucket_sel_has_key(fx, rule, Bucket::Extension, es, k);
    lemma_has_key_concat(f, d, k);
    lemma_lookup_concat(f, d, k);
    lemma_lookup_concat(f + d, e, k);
    lemma_lookup_has_key(es, k);
    lemma_lookup_has_key(f, k);
    lemma_lookup_has_key(d, k);
    lemma_lookup_has_key(e, k);
    if has_key(es, k) {
        let b = route(fx, rule, k);
        lemma_bucket_sel_lookup(fx, rule, b, es, k);
    }
}

proof fn lemma_bucket_sel_routes(fx: Seq<Seq<char>>, rule: KeyRule, b: Bucket, es: Seq<(String, Value)>)
    ensures
        forall|i: int|
            0 <= i < bucket_sel(fx, rule, b, es).len() ==> route(
                fx,
                rule,
                (#[trigger] bucket_sel(fx, rule, b, es)[i]).0@,
            ) == b,
    decreases es.len(),
{
    if es.len() > 0 {
        lemma_bucket_sel_routes(fx, rule, b, es.drop_last());
    }
}

proof fn lemma_bucket_sel_concat(
    fx: Seq<Seq<char>>,
    rule: KeyRule,
    b: Bucket,
    xs: Seq<(String, Value)>,
    ys: Seq<(String, Value)>,
)
    ensures
        bucket_sel(fx, rule, b, xs + ys) == bucket_sel(fx, rule, b, xs) + bucket_sel(
            fx,
            rule,
            b,
            ys,
        ),
    decreases ys.len(),
{
    if ys.len() == 0 {
        assert(xs + ys =~= xs);
        assert(bucket_sel(fx, rule, b, xs) + bucket_sel(fx, rule, b, ys) =~= bucket_sel(
            fx,
            rule,
            b,
            xs,
        ));
    } else {
        lemma_bucket_sel_concat(fx, rule, b, xs, ys.drop_last());
        assert((xs + ys).drop_last() =~= xs + ys.drop_last());
        assert((xs + ys).last() == ys.last());
        if route(fx, rule, ys.last().0@) == b {
            assert(bucket_sel(fx, rule, b, xs) + bucket_sel(fx, rule, b, ys) =~= (bucket_sel(
                fx,
                rule,
                b,
                xs,
            ) + bucket_sel(fx, rule, b, ys.drop_last())).push(ys.last()));
        }
    }
}

proof fn lemma_bucket_sel_homogeneous(
    fx: Seq<Seq<char>>,
    rule: KeyRule,
    b: Bucket,
    b2: Bucket,
    s: Seq<(String, Value)>,
)
    requires
        forall|i: int| 0 <= i < s.len() ==> route(fx, rule, (#[trigger] s[i]).0@) == b,
    ensures
        bucket_sel(fx, rule, b2, s) == if b == b2 {
            s
        } else {
            Seq::<(String, Value)>::empty()
        },
    decreases s.len(),
{
    if s.len() > 0 {
        assert(route(fx, rule, s.last().0@) == b);
        lemma_bucket_sel_homogeneous(fx, rule, b, b2, s.drop_last());
        if b == b2 {
            assert(s.drop_last().push(s.last()) =~= s);
        }
    }
}

/// Order inside each bucket survives a round trip: routing the reassembled
/// object again yields the very same three buckets.
pub proof fn lemma_partition_stable(fx: Seq<Seq<char>>, rule: KeyRule, es: Seq<(String, Value)>)
    ensures
        forall|b: Bucket| #![all_triggers]
            bucket_sel(fx, rule, b, reassembled(fx, rule, es)) == bucket_sel(fx, rule, b, es),
{
    let f = bucket_sel(fx, rule, Bucket::Fixed, es);
    let d = bucket_sel(fx, rule, Bucket::Dynamic, es);
    let e = bucket_sel(fx, rule, Bucket::Extension, es);
    lemma_bucket_sel_routes(fx, rule, Bucket::Fixed, es);
    lemma_bucket_sel_routes(fx, rule, Bucket::Dynamic, es);
    lemma_bucket_sel_routes(fx, rule, Bucket::Extension, es);
    assert forall|b: Bucket|
        bucket_sel(fx, rule, b, reassembled(fx, rule, es)) == bucket_sel(fx, rule, b, es) by {
        lemma_bucket_sel_concat(fx, rule, b, f + d, e);
        lemma_bucket_sel_concat(fx, rule, b, f, d);
        lemma_bucket_sel_homogeneous(fx, rule, Bucket::Fixed, b, f);
        lemma_bucket_sel_homogeneous(fx, rule, Bucket::Dynamic, b, d);
        lemma_bucket_sel_homogeneous(fx, rule, Bucket::Extension, b, e);
        assert(bucket_sel(fx, rule, b, reassembled(fx, rule, es)) =~= bucket_sel(fx, rule, b, es));
    }
}

/// Whether the key starts with the path separator.
pub fn is_path_key(k: &String) -> (b: bool)
    ensures
        b == rule_matches(KeyRule::PathTemplate, k@),
{
    let s: &str = k.as_str();
    if s.unicode_len() == 0 {
        false
    } else {
        s.get_char(0) == '/'
    }
}

/// Compares two keys.
pub fn keys_equal(a: &String, b: &String) -> (r: bool)
    ensures
        r == (a@ == b@),
{
    *a == *b
}

/// Routes one key, first match wins: the fixed field set, then the
/// dynamic-key predicate, then the extension fallback.
pub fn route_key(fixed: &Vec<String>, rule: KeyRule, k: &String) -> (b: Bucket)
    ensures
        b == route(key_views(fixed@), rule, k@),
{
    let mut i: usize = 0;
    while i < fixed.len()
        invariant
            0 <= i <= fixed.len(),
            forall|j: int| 0 <= j < i ==> (#[trigger] fixed@[j])@ != k@,
            forall|j: int| 0 <= j < i ==> #[trigger] key_views(fixed@)[j] != k@,
        decreases fixed.len() - i,
    {
        if keys_equal(k, &fixed[i]) {
            assert(key_views(fixed@)[i as int] == k@);
            assert(in_fixed(key_views(fixed@), k@));
            return Bucket::Fixed;
        }
        i += 1;
    }
    assert(!in_fixed(key_views(fixed@), k@));
    match rule {
        KeyRule::PathTemplate => {
            if is_path_key(k) {
                Bucket::Dynamic
            } else {
                Bucket::Extension
            }
        }
        KeyRule::NoDynamic => Bucket::Extension,
    }
}

/// Splits an object into its fixed, dynamic and extension buckets, keeping
/// source order inside each bucket and accounting for every entry exactly
/// once.
pub fn partition(es: Vec<(String, Value)>, fixed: &Vec<String>, rule: KeyRule) -> (r: (
    Vec<(String, Value)>,
    Vec<(String, Value)>,
    Vec<(String, Value)>,
))
    ensures
        r.0@ == bucket_sel(key_views(fixed@), rule, Bucket::Fixed, es@),
        r.1@ == bucket_sel(key_views(fixed@), rule, Bucket::Dynamic, es@),
        r.2@ == bucket_sel(key_views(fixed@), rule, Bucket::Extension, es@),
{
    let ghost fx: Seq<Seq<char>> = key_views(fixed@);
    let ghost orig: Seq<(String, Value)> = es@;
    let mut rest = es;
    let mut out_f: Vec<(String, Value)> = Vec::new();
    let mut out_d: Vec<(String, Value)> = Vec::new();
    let mut out_e: Vec<(String, Value)> = Vec::new();
    let ghost mut i: int = 0;
    while rest.len() > 0
        invariant
            0 <= i,
            fx == key_views(fixed@),
            i + rest@.len() == orig.len(),
            rest@ =~= orig.skip(i),
            out_f@ == bucket_sel(fx, rule, Bucket::Fixed, orig.take(i)),
            out_d@ == bucket_sel(fx, rule, Bucket::Dynamic, orig.take(i)),
            out_e@ == bucket_sel(fx, rule, Bucket::Extension, orig.take(i)),
        decreases rest@.len(),
    {
        let e = rest.remove(0);
        assert(e == orig[i]);
        let b = route_key(fixed, rule, &e.0);
        proof {
            assert(orig.take(i + 1).drop_last() =~= orig.take(i));
            assert(orig.take(i + 1).last() == orig[i]);
        }
        if b == Bucket::Fixed {
            out_f.push(e);
        } else if b == Bucket::Dynamic {
            out_d.push(e);
        } else {
            out_e.push(e);
        }
        proof {
            i = i + 1;
        }
    }
    proof {
        assert(orig.take(i) =~= orig);
    }
    (out_f, out_d, out_e)
}

/// Reassembles an object from its three buckets: fixed fields first, then
/// the dynamic entries in their stored order, then the extension entries
/// in their stored order.
pub fn assemble(
    fixed_entries: Vec<(String, Value)>,
    dynamic_entries: Vec<(String, Value)>,
    extension_entries: Vec<(String, Value)>,
) -> (r: Vec<(String, Value)>)
    ensures
        r@ == fixed_entries@ + dynamic_entries@ + extension_entries@,
{
    let mut out = fixed_entries;
    let mut d = dynamic_entries;
    let mut e = extension_entries;
    out.append(&mut d);
    out.append(&mut e);
    out
}

} // verus!
