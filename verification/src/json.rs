//! JSON values of preset settings.
use vstd::prelude::*;
use crate::order::{seq_lt, lemma_seq_lt_trichotomy, lemma_seq_lt_transitive};
use crate::env::{EnvVars, substitute, substitute_env_vars};
use crate::error::ClaudioError;

verus! {

/// A JSON value. A number is kept as its text.
#[derive(Debug, PartialEq, Eq)]
pub enum JsonValue {
    Null,
    Bool(bool),
    Number(String),
    Str(String),
    Array(Vec<JsonValue>),
    Object(Vec<(String, JsonValue)>),
}

/// The mathematical form of a JSON value; an object is a map from keys to values.
pub enum Json {
    Null,
    Bool(bool),
    Number(Seq<char>),
    Str(Seq<char>),
    Array(Seq<Json>),
    Object(Map<Seq<char>, Json>),
}

pub open spec fn entries_map(entries: Seq<(String, JsonValue)>) -> Map<Seq<char>, Json>
    decreases entries,
{
    if entries.len() == 0 {
        Map::empty()
    } else {
        let last = entries.last();
        entries_map(entries.drop_last()).insert(last.0@, json_view(last.1))
    }
}

pub open spec fn json_view_seq(items: Seq<JsonValue>) -> Seq<Json>
    decreases items,
{
    if items.len() == 0 {
        seq![]
    } else {
        json_view_seq(items.drop_last()).push(json_view(items.last()))
    }
}

pub open spec fn json_view(v: JsonValue) -> Json
    decreases v,
{
    match v {
        JsonValue::Null => Json::Null,
        JsonValue::Bool(b) => Json::Bool(b),
        JsonValue::Number(n) => Json::Number(n@),
        JsonValue::Str(s) => Json::Str(s@),
        JsonValue::Array(items) => Json::Array(json_view_seq(items@)),
        JsonValue::Object(entries) => Json::Object(entries_map(entries@)),
    }
}


/// Object keys are in strictly increasing order (so each key occurs once).
pub open spec fn keys_sorted(es: Seq<(String, JsonValue)>) -> bool {
    forall|i: int, j: int| 0 <= i < j < es.len() ==> seq_lt(#[trigger] es[i].0@, #[trigger] es[j].0@)
}

pub open spec fn items_wf(items: Seq<JsonValue>) -> bool
    decreases items,
{
    if items.len() == 0 {
        true
    } else {
        items_wf(items.drop_last()) && json_wf(items.last())
    }
}

pub open spec fn entries_wf(es: Seq<(String, JsonValue)>) -> bool
    decreases es,
{
    if es.len() == 0 {
        true
    } else {
        entries_wf(es.drop_last()) && json_wf(es.last().1)
    }
}

/// Well-formed JSON: the keys of every object are sorted and unique.
pub open spec fn json_wf(v: JsonValue) -> bool
    decreases v,
{
    match v {
        JsonValue::Array(items) => items_wf(items@),
        JsonValue::Object(es) => keys_sorted(es@) && entries_wf(es@),
        _ => true,
    }
}

pub proof fn lemma_items_wf(items: Seq<JsonValue>)
    ensures
        items_wf(items) <==> forall|i: int| 0 <= i < items.len() ==> json_wf(#[trigger] items[i]),
        json_view_seq(items).len() == items.len(),
        forall|i: int| 0 <= i < items.len() ==> #[trigger] json_view_seq(items)[i] == json_view(items[i]),
    decreases items.len(),
{
    if items.len() > 0 {
        lemma_items_wf(items.drop_last());
        assert forall|i: int| 0 <= i < items.len() - 1 implies #[trigger] items[i] == items.drop_last()[i] by {}
    }
}

pub proof fn lemma_entries_wf(es: Seq<(String, JsonValue)>)
    ensures
        entries_wf(es) <==> forall|i: int| 0 <= i < es.len() ==> json_wf(#[trigger] es[i].1),
    decreases es.len(),
{
    if es.len() > 0 {
        lemma_entries_wf(es.drop_last());
        assert forall|i: int| 0 <= i < es.len() - 1 implies #[trigger] es[i] == es.drop_last()[i] by {}
    }
}

/// Some entry has this key.
pub open spec fn has_key(es: Seq<(String, JsonValue)>, k: Seq<char>) -> bool {
    exists|i: int| 0 <= i < es.len() && #[trigger] es[i].0@ == k
}

/// The map of sorted entries holds exactly their keys, each with its value.
pub proof fn lemma_entries_map(es: Seq<(String, JsonValue)>)
    requires
        keys_sorted(es),
    ensures
        forall|k: Seq<char>| #[trigger] entries_map(es).contains_key(k) <==> has_key(es, k),
        forall|i: int| 0 <= i < es.len() ==> #[trigger] entries_map(es)[es[i].0@] == json_view(es[i].1),
    decreases es.len(),
{
    if es.len() > 0 {
        let init = es.drop_last();
        assert(keys_sorted(init)) by {
            assert forall|i: int, j: int| 0 <= i < j < init.len() implies seq_lt(#[trigger] init[i].0@, #[trigger] init[j].0@) by {
                assert(init[i] == es[i] && init[j] == es[j]);
            }
        }
        lemma_entries_map(init);
        let last = es.last();
        assert forall|k: Seq<char>| #[trigger] entries_map(es).contains_key(k) <==> has_key(es, k) by {
            if has_key(es, k) {
                let i = choose|i: int| 0 <= i < es.len() && #[trigger] es[i].0@ == k;
                if i < es.len() - 1 {
                    assert(init[i] == es[i]);
                    assert(has_key(init, k));
                }
            }
            if has_key(init, k) {
                let i = choose|i: int| 0 <= i < init.len() && #[trigger] init[i].0@ == k;
                assert(es[i] == init[i]);
            }
            if k == last.0@ {
                assert(es[es.len() - 1].0@ == k);
            }
        }
        assert forall|i: int| 0 <= i < es.len() implies #[trigger] entries_map(es)[es[i].0@] == json_view(es[i].1) by {
            if i < es.len() - 1 {
                assert(init[i] == es[i]);
                assert(seq_lt(es[i].0@, es[es.len() - 1].0@));
                lemma_seq_lt_trichotomy(es[i].0@, last.0@);
            }
        }
    }
}

impl Clone for JsonValue {
    /// A copy with the same view.
    fn clone(&self) -> (r: Self)
        ensures
            json_view(r) == json_view(*self),
    {
        clone_json(self)
    }
}

/// A copy of a JSON value.
pub fn clone_json(v: &JsonValue) -> (r: JsonValue)
    ensures
        json_view(r) == json_view(*v),
        json_wf(*v) ==> json_wf(r),
    decreases v,
{
    match v {
        JsonValue::Null => JsonValue::Null,
        JsonValue::Bool(b) => JsonValue::Bool(*b),
        JsonValue::Number(n) => JsonValue::Number(n.clone()),
        JsonValue::Str(s) => JsonValue::Str(s.clone()),
        JsonValue::Array(items) => {
            let mut out: Vec<JsonValue> = Vec::new();
            let n = items.len();
            for i in 0..n
                invariant
                    *v == JsonValue::Array(*items),
                    n == items@.len(),
                    out@.len() == i,
                    forall|k: int| 0 <= k < i ==> json_view(#[trigger] out@[k]) == json_view(items@[k]),
                    forall|k: int| 0 <= k < i ==> json_wf(items@[k]) ==> json_wf(#[trigger] out@[k]),
            {
                proof {
                    vstd::std_specs::vec::axiom_vec_index_decreases(*items, i as int);
                    assert(decreases_to!(*v => v->Array_0));
                }
                let c = clone_json(&items[i]);
                out.push(c);
            }
            proof {
                lemma_items_wf(items@);
                lemma_items_wf(out@);
                assert(json_view_seq(out@) =~= json_view_seq(items@));
            }
            JsonValue::Array(out)
        },
        JsonValue::Object(es) => {
            let mut out: Vec<(String, JsonValue)> = Vec::new();
            let n = es.len();
            for i in 0..n
                invariant
                    *v == JsonValue::Object(*es),
                    n == es@.len(),
                    out@.len() == i,
                    forall|k: int| 0 <= k < i ==> (#[trigger] out@[k]).0@ == es@[k].0@,
                    forall|k: int| 0 <= k < i ==> json_view((#[trigger] out@[k]).1) == json_view(es@[k].1),
                    forall|k: int| 0 <= k < i ==> json_wf(es@[k].1) ==> json_wf((#[trigger] out@[k]).1),
            {
                let key = es[i].0.clone();
                proof {
                    vstd::std_specs::vec::axiom_vec_index_decreases(*es, i as int);
                    assert(decreases_to!(*v => v->Object_0));
                    assert(decreases_to!(es[i as int] => es[i as int].1));
                }
                let c = clone_json(&es[i].1);
                out.push((key, c));
            }
            proof {
                lemma_entries_view_eq(out@, es@);
                if json_wf(*v) {
                    lemma_entries_wf(es@);
                    lemma_entries_wf(out@);
                    assert forall|i: int, j: int| 0 <= i < j < out@.len() implies seq_lt(#[trigger] out@[i].0@, #[trigger] out@[j].0@) by {
                        assert(seq_lt(es@[i].0@, es@[j].0@));
                    }
                }
            }
            JsonValue::Object(out)
        },
    }
}

/// Entries with the same keys and values (as views) give the same map.
proof fn lemma_entries_view_eq(a: Seq<(String, JsonValue)>, b: Seq<(String, JsonValue)>)
    requires
        a.len() == b.len(),
        forall|k: int| 0 <= k < a.len() ==> (#[trigger] a[k]).0@ == b[k].0@,
        forall|k: int| 0 <= k < a.len() ==> json_view((#[trigger] a[k]).1) == json_view(b[k].1),
    ensures
        entries_map(a) == entries_map(b),
    decreases a.len(),
{
    if a.len() > 0 {
        lemma_entries_view_eq(a.drop_last(), b.drop_last());
        assert(a[a.len() - 1].0@ == b[b.len() - 1].0@);
    }
}


/// Deep merge of settings: when both are objects, they merge key by key, the
/// derived value winning (and merging again where both sides hold a value);
/// otherwise the derived value replaces the base.
pub open spec fn merge_json(base: Json, derived: JsonValue) -> Json
    decreases derived,
{
    match derived {
        JsonValue::Object(de) => match base {
            Json::Object(bm) => Json::Object(merge_entries(bm, de@)),
            _ => json_view(derived),
        },
        _ => json_view(derived),
    }
}

/// The entries of a derived object merged into the map of a base object.
pub open spec fn merge_entries(bm: Map<Seq<char>, Json>, de: Seq<(String, JsonValue)>) -> Map<
    Seq<char>,
    Json,
>
    decreases de,
{
    if de.len() == 0 {
        bm
    } else {
        let k = de.last().0@;
        let dv = de.last().1;
        merge_entries(bm, de.drop_last()).insert(
            k,
            if bm.contains_key(k) {
                merge_json(bm[k], dv)
            } else {
                json_view(dv)
            },
        )
    }
}

/// The value a key gets when a derived entry is merged over a base map.
pub open spec fn merged_value(bm: Map<Seq<char>, Json>, k: Seq<char>, dv: JsonValue) -> Json {
    if bm.contains_key(k) {
        merge_json(bm[k], dv)
    } else {
        json_view(dv)
    }
}

proof fn lemma_sorted_prefix(es: Seq<(String, JsonValue)>, n: int)
    requires
        keys_sorted(es),
        0 <= n <= es.len(),
    ensures
        keys_sorted(es.take(n)),
{
    assert forall|i: int, j: int| 0 <= i < j < es.take(n).len() implies seq_lt(#[trigger] es.take(n)[i].0@, #[trigger] es.take(n)[j].0@) by {
        assert(es.take(n)[i] == es[i] && es.take(n)[j] == es[j]);
    }
}

/// Merging sorted derived entries: the keys are those of both sides; a key of the
/// derived side gets its merged value, any other key keeps the base value.
pub proof fn lemma_merge_entries(bm: Map<Seq<char>, Json>, de: Seq<(String, JsonValue)>)
    requires
        keys_sorted(de),
    ensures
        forall|k: Seq<char>| #[trigger] merge_entries(bm, de).contains_key(k) <==> (bm.contains_key(k) || has_key(de, k)),
        forall|i: int| 0 <= i < de.len() ==> #[trigger] merge_entries(bm, de)[de[i].0@] == merged_value(bm, de[i].0@, de[i].1),
        forall|k: Seq<char>| bm.contains_key(k) && !has_key(de, k) ==> #[trigger] merge_entries(bm, de)[k] == bm[k],
    decreases de.len(),
{
    if de.len() > 0 {
        let init = de.drop_last();
        lemma_sorted_prefix(de, de.len() - 1);
        assert(init =~= de.take(de.len() - 1));
        lemma_merge_entries(bm, init);
        let last = de.last();
        let m = merge_entries(bm, de);
        assert forall|k: Seq<char>| #[trigger] m.contains_key(k) <==> (bm.contains_key(k) || has_key(de, k)) by {
            if has_key(de, k) {
                let i = choose|i: int| 0 <= i < de.len() && #[trigger] de[i].0@ == k;
                if i < de.len() - 1 {
                    assert(init[i] == de[i]);
                    assert(has_key(init, k));
                }
            }
            if has_key(init, k) {
                let i = choose|i: int| 0 <= i < init.len() && #[trigger] init[i].0@ == k;
                assert(de[i] == init[i]);
            }
            if k == last.0@ {
                assert(de[de.len() - 1].0@ == k);
            }
        }
        assert forall|i: int| 0 <= i < de.len() implies #[trigger] m[de[i].0@] == merged_value(bm, de[i].0@, de[i].1) by {
            if i < de.len() - 1 {
                assert(init[i] == de[i]);
                assert(seq_lt(de[i].0@, de[de.len() - 1].0@));
                lemma_seq_lt_trichotomy(de[i].0@, last.0@);
            }
        }
        assert forall|k: Seq<char>| bm.contains_key(k) && !has_key(de, k) implies #[trigger] m[k] == bm[k] by {
            if has_key(init, k) {
                let i = choose|i: int| 0 <= i < init.len() && #[trigger] init[i].0@ == k;
                assert(de[i] == init[i]);
            }
            if k == last.0@ {
                assert(de[de.len() - 1].0@ == k);
            }
        }
    }
}


/// Merge two values: objects merge key by key, otherwise the derived value wins.
fn merge_values(base: &JsonValue, derived: &JsonValue) -> (r: JsonValue)
    requires
        json_wf(*base),
        json_wf(*derived),
    ensures
        json_wf(r),
        json_view(r) == merge_json(json_view(*base), *derived),
    decreases *derived,
{
    match (base, derived) {
        (JsonValue::Object(be), JsonValue::Object(de)) => {
            proof {
                lemma_entries_wf(be@);
                lemma_entries_wf(de@);
                assert(decreases_to!(*derived => derived->Object_0));
            }
            let out = merge_objects(be, de);
            JsonValue::Object(out)
        },
        _ => clone_json(derived),
    }
}

/// Merge the sorted entries of a derived object into those of a base object.
fn merge_objects(be: &Vec<(String, JsonValue)>, de: &Vec<(String, JsonValue)>) -> (out: Vec<
    (String, JsonValue),
>)
    requires
        keys_sorted(be@),
        keys_sorted(de@),
        forall|i: int| 0 <= i < be@.len() ==> json_wf(#[trigger] be@[i].1),
        forall|i: int| 0 <= i < de@.len() ==> json_wf(#[trigger] de@[i].1),
    ensures
        keys_sorted(out@),
        entries_wf(out@),
        entries_map(out@) == merge_entries(entries_map(be@), de@),
    decreases *de,
{
    let ghost bm = entries_map(be@);
    let ghost target = merge_entries(bm, de@);
    proof {
        lemma_entries_map(be@);
        lemma_merge_entries(bm, de@);
    }
    let nb = be.len();
    let nd = de.len();
    let mut out: Vec<(String, JsonValue)> = Vec::new();
    let mut i: usize = 0;
    let mut j: usize = 0;
    while i < nb || j < nd
        invariant
            nb == be@.len(),
            nd == de@.len(),
            i <= nb,
            j <= nd,
            bm == entries_map(be@),
            target == merge_entries(bm, de@),
            keys_sorted(be@),
            keys_sorted(de@),
            forall|a: int| 0 <= a < be@.len() ==> json_wf(#[trigger] be@[a].1),
            forall|a: int| 0 <= a < de@.len() ==> json_wf(#[trigger] de@[a].1),
            forall|k: Seq<char>| #[trigger] bm.contains_key(k) <==> has_key(be@, k),
            forall|a: int| 0 <= a < be@.len() ==> #[trigger] bm[be@[a].0@] == json_view(be@[a].1),
            forall|k: Seq<char>| #[trigger] target.contains_key(k) <==> (bm.contains_key(k) || has_key(de@, k)),
            forall|a: int| 0 <= a < de@.len() ==> #[trigger] target[de@[a].0@] == merged_value(bm, de@[a].0@, de@[a].1),
            forall|k: Seq<char>| bm.contains_key(k) && !has_key(de@, k) ==> #[trigger] target[k] == bm[k],
            keys_sorted(out@),
            forall|t: int| 0 <= t < out@.len() ==> json_wf(#[trigger] out@[t].1),
            forall|t: int| 0 <= t < out@.len() ==> #[trigger] target.contains_key(out@[t].0@),
            forall|t: int| 0 <= t < out@.len() ==> json_view((#[trigger] out@[t]).1) == target[out@[t].0@],
            forall|a: int| 0 <= a < i ==> has_key(out@, #[trigger] be@[a].0@),
            forall|b: int| 0 <= b < j ==> has_key(out@, #[trigger] de@[b].0@),
            forall|t: int| 0 <= t < out@.len() ==> (i < nb ==> seq_lt(#[trigger] out@[t].0@, be@[i as int].0@)),
            forall|t: int| 0 <= t < out@.len() ==> (j < nd ==> seq_lt(#[trigger] out@[t].0@, de@[j as int].0@)),
            forall|t: int| 0 <= t < out@.len() ==> (has_key(be@.take(i as int), #[trigger] out@[t].0@) || has_key(de@.take(j as int), out@[t].0@)),
        decreases nb + nd - i - j,
    {
        let take_base: bool;
        let take_derived: bool;
        if i < nb && j < nd {
            match crate::order::compare_str(be[i].0.as_str(), de[j].0.as_str()) {
                crate::order::KeyOrder::Less => {
                    take_base = true;
                    take_derived = false;
                },
                crate::order::KeyOrder::Equal => {
                    take_base = true;
                    take_derived = true;
                },
                crate::order::KeyOrder::Greater => {
                    take_base = false;
                    take_derived = true;
                },
            }
        } else if i < nb {
            take_base = true;
            take_derived = false;
        } else {
            take_base = false;
            take_derived = true;
        }
        let ghost old_out = out@;
        let ghost oi = i;
        let ghost oj = j;
        if take_base && take_derived {
            let key = be[i].0.clone();
            proof {
                vstd::std_specs::vec::axiom_vec_index_decreases(*de, j as int);
                assert(decreases_to!(de[j as int] => de[j as int].1));
            }
            let v = merge_values(&be[i].1, &de[j].1);
            proof {
                assert(be@[i as int].0@ == de@[j as int].0@);
                assert(bm.contains_key(key@));
                assert(json_view(v) == target[key@]);
            }
            out.push((key, v));
            i = i + 1;
            j = j + 1;
        } else if take_base {
            let key = be[i].0.clone();
            let v = clone_json(&be[i].1);
            proof {
                lemma_not_in_rest(de@, j as int, key@, old_out);
                assert(!has_key(de@, key@));
                assert(target[key@] == bm[key@]);
            }
            out.push((key, v));
            i = i + 1;
        } else {
            let key = de[j].0.clone();
            let v = clone_json(&de[j].1);
            proof {
                lemma_not_in_rest(be@, i as int, key@, old_out);
                assert(!has_key(be@, key@));
                assert(!bm.contains_key(key@));
                assert(json_view(v) == target[key@]);
            }
            out.push((key, v));
            j = j + 1;
        }
        proof {
            let e = out@[out@.len() - 1];
            let k = e.0@;
            assert(out@ == old_out.push(e));
            if i < nb && i == oi {
                assert(seq_lt(k, be@[i as int].0@));
            }
            if i < nb && i == oi + 1 {
                assert(seq_lt(be@[oi as int].0@, be@[i as int].0@));
            }
            if j < nd && j == oj {
                assert(seq_lt(k, de@[j as int].0@));
            }
            if j < nd && j == oj + 1 {
                assert(seq_lt(de@[oj as int].0@, de@[j as int].0@));
            }
            lemma_step(be@, de@, old_out, e, oi as int, oj as int, i as int, j as int);
        }
    }
    proof {
        assert(be@.take(nb as int) =~= be@);
        assert(de@.take(nd as int) =~= de@);
        lemma_entries_map(out@);
        lemma_entries_wf(out@);
        assert forall|k: Seq<char>| #[trigger] entries_map(out@).contains_key(k) <==> target.contains_key(k) by {
            if target.contains_key(k) {
                if has_key(be@, k) {
                    let a = choose|a: int| 0 <= a < be@.len() && #[trigger] be@[a].0@ == k;
                    assert(has_key(out@, be@[a].0@));
                } else {
                    let b = choose|b: int| 0 <= b < de@.len() && #[trigger] de@[b].0@ == k;
                    assert(has_key(out@, de@[b].0@));
                }
            }
            if has_key(out@, k) {
                let t = choose|t: int| 0 <= t < out@.len() && #[trigger] out@[t].0@ == k;
                assert(target.contains_key(out@[t].0@));
            }
        }
        assert forall|k: Seq<char>| #[trigger] entries_map(out@).contains_key(k) implies entries_map(out@)[k] == target[k] by {
            let t = choose|t: int| 0 <= t < out@.len() && #[trigger] out@[t].0@ == k;
            assert(entries_map(out@)[out@[t].0@] == json_view(out@[t].1));
        }
        assert(entries_map(out@) =~= target);
    }
    out
}

proof fn lemma_step(
    be: Seq<(String, JsonValue)>,
    de: Seq<(String, JsonValue)>,
    old_out: Seq<(String, JsonValue)>,
    e: (String, JsonValue),
    oi: int,
    oj: int,
    i: int,
    j: int,
)
    requires
        0 <= oi <= i <= be.len(),
        0 <= oj <= j <= de.len(),
        i == oi || (i == oi + 1 && be[oi].0@ == e.0@),
        j == oj || (j == oj + 1 && de[oj].0@ == e.0@),
        i == oi + 1 || j == oj + 1,
        keys_sorted(old_out),
        forall|t: int| 0 <= t < old_out.len() ==> (oi < be.len() ==> seq_lt(#[trigger] old_out[t].0@, be[oi].0@)),
        forall|t: int| 0 <= t < old_out.len() ==> (oj < de.len() ==> seq_lt(#[trigger] old_out[t].0@, de[oj].0@)),
        oi < be.len() ==> (i == oi ==> seq_lt(e.0@, be[oi].0@)),
        oj < de.len() ==> (j == oj ==> seq_lt(e.0@, de[oj].0@)),
        i < be.len() ==> seq_lt(e.0@, be[i].0@),
        j < de.len() ==> seq_lt(e.0@, de[j].0@),
        i < be.len() && i == oi + 1 ==> seq_lt(be[oi].0@, be[i].0@),
        j < de.len() && j == oj + 1 ==> seq_lt(de[oj].0@, de[j].0@),
        forall|a: int| 0 <= a < oi ==> has_key(old_out, #[trigger] be[a].0@),
        forall|b: int| 0 <= b < oj ==> has_key(old_out, #[trigger] de[b].0@),
        forall|t: int| 0 <= t < old_out.len() ==> (has_key(be.take(oi), #[trigger] old_out[t].0@) || has_key(de.take(oj), old_out[t].0@)),
    ensures
        keys_sorted(old_out.push(e)),
        forall|a: int| 0 <= a < i ==> has_key(old_out.push(e), #[trigger] be[a].0@),
        forall|b: int| 0 <= b < j ==> has_key(old_out.push(e), #[trigger] de[b].0@),
        forall|t: int| 0 <= t < old_out.push(e).len() ==> (i < be.len() ==> seq_lt(#[trigger] old_out.push(e)[t].0@, be[i].0@)),
        forall|t: int| 0 <= t < old_out.push(e).len() ==> (j < de.len() ==> seq_lt(#[trigger] old_out.push(e)[t].0@, de[j].0@)),
        forall|t: int| 0 <= t < old_out.push(e).len() ==> (has_key(be.take(i), #[trigger] old_out.push(e)[t].0@) || has_key(de.take(j), old_out.push(e)[t].0@)),
{
    let out = old_out.push(e);
    let k = e.0@;
    let n = old_out.len() as int;
    assert(out[n] == e);
    assert forall|t: int| 0 <= t < n implies #[trigger] out[t] == old_out[t] by {}
    // the new key is above every earlier one
    assert forall|t: int| 0 <= t < n implies seq_lt(#[trigger] old_out[t].0@, k) by {
        if i == oi + 1 {
            assert(seq_lt(old_out[t].0@, be[oi].0@));
        } else {
            assert(seq_lt(old_out[t].0@, de[oj].0@));
        }
    }
    assert forall|x: int, y: int| 0 <= x < y < out.len() implies seq_lt(#[trigger] out[x].0@, #[trigger] out[y].0@) by {
        if y == n {
            assert(seq_lt(old_out[x].0@, k));
        } else {
            assert(seq_lt(old_out[x].0@, old_out[y].0@));
        }
    }
    assert forall|a: int| 0 <= a < i implies has_key(out, #[trigger] be[a].0@) by {
        if a < oi {
            let t = choose|t: int| 0 <= t < old_out.len() && #[trigger] old_out[t].0@ == be[a].0@;
            assert(out[t] == old_out[t]);
        } else {
            assert(out[n].0@ == be[a].0@);
        }
    }
    assert forall|b: int| 0 <= b < j implies has_key(out, #[trigger] de[b].0@) by {
        if b < oj {
            let t = choose|t: int| 0 <= t < old_out.len() && #[trigger] old_out[t].0@ == de[b].0@;
            assert(out[t] == old_out[t]);
        } else {
            assert(out[n].0@ == de[b].0@);
        }
    }
    assert forall|t: int| 0 <= t < out.len() && i < be.len() implies seq_lt(#[trigger] out[t].0@, be[i].0@) by {
        if t < n && i < be.len() {
            if i == oi + 1 {
                lemma_seq_lt_transitive(old_out[t].0@, be[oi].0@, be[i].0@);
            }
        }
    }
    assert forall|t: int| 0 <= t < out.len() && j < de.len() implies seq_lt(#[trigger] out[t].0@, de[j].0@) by {
        if t < n && j < de.len() {
            if j == oj + 1 {
                lemma_seq_lt_transitive(old_out[t].0@, de[oj].0@, de[j].0@);
            }
        }
    }
    assert forall|t: int| 0 <= t < out.len() implies (has_key(be.take(i), #[trigger] out[t].0@) || has_key(de.take(j), out[t].0@)) by {
        if t < n {
            if has_key(be.take(oi), old_out[t].0@) {
                let a = choose|a: int| 0 <= a < be.take(oi).len() && #[trigger] be.take(oi)[a].0@ == old_out[t].0@;
                assert(be.take(i)[a] == be.take(oi)[a]);
            } else {
                let b = choose|b: int| 0 <= b < de.take(oj).len() && #[trigger] de.take(oj)[b].0@ == old_out[t].0@;
                assert(de.take(j)[b] == de.take(oj)[b]);
            }
        } else {
            if i == oi + 1 {
                assert(be.take(i)[oi].0@ == k);
            } else {
                assert(de.take(j)[oj].0@ == k);
            }
        }
    }
}

/// A key below the next unprocessed entry, and absent from the output so far,
/// occurs nowhere in the sorted entries.
proof fn lemma_not_in_rest(es: Seq<(String, JsonValue)>, j: int, k: Seq<char>, out: Seq<(String, JsonValue)>)
    requires
        keys_sorted(es),
        0 <= j <= es.len(),
        j < es.len() ==> seq_lt(k, es[j].0@),
        forall|b: int| 0 <= b < j ==> has_key(out, #[trigger] es[b].0@),
        forall|t: int| 0 <= t < out.len() ==> seq_lt(#[trigger] out[t].0@, k),
    ensures
        !has_key(es, k),
{
    if has_key(es, k) {
        let b = choose|b: int| 0 <= b < es.len() && #[trigger] es[b].0@ == k;
        if b < j {
            assert(has_key(out, es[b].0@));
            let t = choose|t: int| 0 <= t < out.len() && #[trigger] out[t].0@ == es[b].0@;
            assert(seq_lt(out[t].0@, k));
            lemma_seq_lt_trichotomy(k, k);
        } else if b == j {
            lemma_seq_lt_trichotomy(k, k);
        } else {
            assert(seq_lt(es[j].0@, es[b].0@));
            lemma_seq_lt_transitive(k, es[j].0@, es[b].0@);
            lemma_seq_lt_trichotomy(k, k);
        }
    }
}


/// Deep merge of optional settings: a missing side yields the other side.
pub fn merge_json_settings(base: Option<JsonValue>, derived: Option<JsonValue>) -> (r: Option<JsonValue>)
    requires
        base matches Some(b) ==> json_wf(b),
        derived matches Some(d) ==> json_wf(d),
    ensures
        base is None ==> r == derived,
        derived is None ==> r == base,
        (base is Some && derived is Some) ==> (r matches Some(m) && json_wf(m) && json_view(m)
            == merge_json(json_view(base->0), derived->0)),
{
    match (base, derived) {
        (Some(b), Some(d)) => Some(merge_values(&b, &d)),
        (None, d) => d,
        (b, None) => b,
    }
}

/// Merging a value over itself gives the value back.
pub proof fn lemma_merge_idempotent(v: JsonValue)
    requires
        json_wf(v),
    ensures
        merge_json(json_view(v), v) == json_view(v),
    decreases v,
{
    if let JsonValue::Object(es) = v {
        let bm = entries_map(es@);
        lemma_entries_map(es@);
        lemma_merge_entries(bm, es@);
        lemma_entries_wf(es@);
        let m = merge_entries(bm, es@);
        assert forall|k: Seq<char>| #[trigger] m.contains_key(k) implies m[k] == bm[k] by {
            let i = choose|i: int| 0 <= i < es@.len() && #[trigger] es@[i].0@ == k;
            assert(decreases_to!(v => v->Object_0));
            vstd::std_specs::vec::axiom_vec_index_decreases(es, i);
            assert(decreases_to!(es@[i] => es@[i].1));
            lemma_merge_idempotent(es@[i].1);
            assert(m[es@[i].0@] == merged_value(bm, es@[i].0@, es@[i].1));
        }
        assert(m =~= bm);
    }
}

/// A derived value that is not an object replaces the base, whatever it is.
pub proof fn lemma_merge_non_object_wins(base: Json, derived: JsonValue)
    requires
        !(derived is Object),
    ensures
        merge_json(base, derived) == json_view(derived),
{
}

/// The settings with every `${VAR}` in their strings substituted, or the first
/// missing variable; arrays are resolved in order, objects in key order.
pub open spec fn resolve_json(v: JsonValue, env: Seq<(Seq<char>, Seq<char>)>) -> Result<Json, Seq<char>>
    decreases v,
{
    match v {
        JsonValue::Str(s) => match substitute(s@, env) {
            Ok(r) => Ok(Json::Str(r)),
            Err(n) => Err(n),
        },
        JsonValue::Array(items) => match resolve_items(items@, env) {
            Ok(xs) => Ok(Json::Array(xs)),
            Err(n) => Err(n),
        },
        JsonValue::Object(es) => match resolve_entries(es@, env) {
            Ok(m) => Ok(Json::Object(m)),
            Err(n) => Err(n),
        },
        _ => Ok(json_view(v)),
    }
}

pub open spec fn resolve_items(items: Seq<JsonValue>, env: Seq<(Seq<char>, Seq<char>)>) -> Result<Seq<Json>, Seq<char>>
    decreases items,
{
    if items.len() == 0 {
        Ok(seq![])
    } else {
        match resolve_items(items.drop_last(), env) {
            Err(n) => Err(n),
            Ok(xs) => match resolve_json(items.last(), env) {
                Ok(x) => Ok(xs.push(x)),
                Err(n) => Err(n),
            },
        }
    }
}

pub open spec fn resolve_entries(es: Seq<(String, JsonValue)>, env: Seq<(Seq<char>, Seq<char>)>) -> Result<Map<Seq<char>, Json>, Seq<char>>
    decreases es,
{
    if es.len() == 0 {
        Ok(Map::empty())
    } else {
        match resolve_entries(es.drop_last(), env) {
            Err(n) => Err(n),
            Ok(m) => match resolve_json(es.last().1, env) {
                Ok(x) => Ok(m.insert(es.last().0@, x)),
                Err(n) => Err(n),
            },
        }
    }
}

proof fn lemma_resolve_items_err_prefix(items: Seq<JsonValue>, i: int, env: Seq<(Seq<char>, Seq<char>)>)
    requires
        0 <= i <= items.len(),
        resolve_items(items.take(i), env) is Err,
    ensures
        resolve_items(items, env) == resolve_items(items.take(i), env),
    decreases items.len() - i,
{
    if i < items.len() {
        assert(items.take(i + 1).drop_last() =~= items.take(i));
        lemma_resolve_items_err_prefix(items, i + 1, env);
    } else {
        assert(items.take(i) =~= items);
    }
}

proof fn lemma_resolve_entries_err_prefix(es: Seq<(String, JsonValue)>, i: int, env: Seq<(Seq<char>, Seq<char>)>)
    requires
        0 <= i <= es.len(),
        resolve_entries(es.take(i), env) is Err,
    ensures
        resolve_entries(es, env) == resolve_entries(es.take(i), env),
    decreases es.len() - i,
{
    if i < es.len() {
        assert(es.take(i + 1).drop_last() =~= es.take(i));
        lemma_resolve_entries_err_prefix(es, i + 1, env);
    } else {
        assert(es.take(i) =~= es);
    }
}

/// Resolve `${VAR}` references in every string of a settings value.
pub fn resolve_settings_variables(settings: &JsonValue, env: &EnvVars) -> (r: Result<JsonValue, ClaudioError>)
    requires
        json_wf(*settings),
    ensures
        match resolve_json(*settings, env@) {
            Ok(j) => r matches Ok(out) && json_view(out) == j && json_wf(out),
            Err(n) => r matches Err(ClaudioError::MissingEnvVar(m)) && m@ == n,
        },
    decreases *settings,
{
    match settings {
        JsonValue::Str(s) => {
            let t = substitute_env_vars(s.as_str(), env)?;
            Ok(JsonValue::Str(t))
        },
        JsonValue::Array(items) => {
            let mut out: Vec<JsonValue> = Vec::new();
            let n = items.len();
            proof {
                lemma_items_wf(items@);
            }
            for i in 0..n
                invariant
                    *settings == JsonValue::Array(*items),
                    n == items@.len(),
                    forall|k: int| 0 <= k < n ==> json_wf(#[trigger] items@[k]),
                    resolve_items(items@.take(i as int), env@) == Ok::<Seq<Json>, Seq<char>>(json_view_seq(out@)),
                    forall|k: int| 0 <= k < out@.len() ==> json_wf(#[trigger] out@[k]),
            {
                proof {
                    vstd::std_specs::vec::axiom_vec_index_decreases(*items, i as int);
                    assert(decreases_to!(*settings => settings->Array_0));
                    assert(items@.take(i + 1).drop_last() =~= items@.take(i as int));
                    assert(items@.take(i + 1).last() == items@[i as int]);
                }
                let x = match resolve_settings_variables(&items[i], env) {
                    Ok(x) => x,
                    Err(e) => {
                        proof {
                            lemma_resolve_items_err_prefix(items@, i + 1, env@);
                        }
                        return Err(e);
                    },
                };
                let ghost before = out@;
                out.push(x);
                proof {
                    lemma_items_wf(out@);
                    lemma_items_wf(before);
                    assert(out@.drop_last() =~= before);
                }
            }
            proof {
                assert(items@.take(n as int) =~= items@);
                lemma_items_wf(out@);
            }
            Ok(JsonValue::Array(out))
        },
        JsonValue::Object(es) => {
            let mut out: Vec<(String, JsonValue)> = Vec::new();
            let n = es.len();
            proof {
                lemma_entries_wf(es@);
            }
            for i in 0..n
                invariant
                    *settings == JsonValue::Object(*es),
                    n == es@.len(),
                    keys_sorted(es@),
                    forall|k: int| 0 <= k < n ==> json_wf(#[trigger] es@[k].1),
                    out@.len() == i,
                    forall|k: int| 0 <= k < i ==> (#[trigger] out@[k]).0@ == es@[k].0@,
                    forall|k: int| 0 <= k < i ==> json_wf((#[trigger] out@[k]).1),
                    resolve_entries(es@.take(i as int), env@) == Ok::<Map<Seq<char>, Json>, Seq<char>>(entries_map(out@)),
            {
                proof {
                    vstd::std_specs::vec::axiom_vec_index_decreases(*es, i as int);
                    assert(decreases_to!(*settings => settings->Object_0));
                    assert(decreases_to!(es[i as int] => es[i as int].1));
                    assert(es@.take(i + 1).drop_last() =~= es@.take(i as int));
                    assert(es@.take(i + 1).last() == es@[i as int]);
                }
                let x = match resolve_settings_variables(&es[i].1, env) {
                    Ok(x) => x,
                    Err(e) => {
                        proof {
                            lemma_resolve_entries_err_prefix(es@, i + 1, env@);
                        }
                        return Err(e);
                    },
                };
                let key = es[i].0.clone();
                let ghost before = out@;
                out.push((key, x));
                proof {
                    assert(out@.drop_last() =~= before);
                }
            }
            proof {
                assert(es@.take(n as int) =~= es@);
                lemma_entries_wf(out@);
                assert forall|a: int, b: int| 0 <= a < b < out@.len() implies seq_lt(#[trigger] out@[a].0@, #[trigger] out@[b].0@) by {
                    assert(seq_lt(es@[a].0@, es@[b].0@));
                }
            }
            Ok(JsonValue::Object(out))
        },
        JsonValue::Null => Ok(JsonValue::Null),
        JsonValue::Bool(b) => Ok(JsonValue::Bool(*b)),
        JsonValue::Number(num) => Ok(JsonValue::Number(num.clone())),
    }
}

/// Sorted entries are fixed by their map: the same keys at the same places, with values
/// of the same view.
proof fn lemma_sorted_entries_determined(ea: Seq<(String, JsonValue)>, eb: Seq<(String, JsonValue)>)
    requires
        keys_sorted(ea),
        keys_sorted(eb),
        entries_map(ea) == entries_map(eb),
    ensures
        ea.len() == eb.len(),
        forall|i: int| 0 <= i < ea.len() ==> (#[trigger] ea[i]).0@ == eb[i].0@ && json_view(ea[i].1)
            == json_view(eb[i].1),
    decreases ea.len() + eb.len(),
{
    lemma_entries_map(ea);
    lemma_entries_map(eb);
    if ea.len() == 0 || eb.len() == 0 {
        if ea.len() > 0 {
            assert(entries_map(ea).contains_key(ea[0].0@));
            assert(!has_key(eb, ea[0].0@));
        }
        if eb.len() > 0 {
            assert(entries_map(eb).contains_key(eb[0].0@));
            assert(!has_key(ea, eb[0].0@));
        }
        return;
    }
    let ka = ea.last().0@;
    let kb = eb.last().0@;
    assert(has_key(ea, ka));
    assert(has_key(eb, kb));
    assert(entries_map(eb).contains_key(ka));
    assert(entries_map(ea).contains_key(kb));
    let ia = choose|i: int| 0 <= i < eb.len() && #[trigger] eb[i].0@ == ka;
    let ib = choose|i: int| 0 <= i < ea.len() && #[trigger] ea[i].0@ == kb;
    if ka != kb {
        if ia < eb.len() - 1 {
            assert(seq_lt(eb[ia].0@, kb));
        }
        if ib < ea.len() - 1 {
            assert(seq_lt(ea[ib].0@, ka));
        }
        lemma_seq_lt_trichotomy(ka, kb);
    }
    assert(ka == kb);
    let ia2 = ea.drop_last();
    let ib2 = eb.drop_last();
    assert(keys_sorted(ia2)) by {
        assert forall|i: int, j: int| 0 <= i < j < ia2.len() implies seq_lt(#[trigger] ia2[i].0@, #[trigger] ia2[j].0@) by {
            assert(ia2[i] == ea[i] && ia2[j] == ea[j]);
        }
    }
    assert(keys_sorted(ib2)) by {
        assert forall|i: int, j: int| 0 <= i < j < ib2.len() implies seq_lt(#[trigger] ib2[i].0@, #[trigger] ib2[j].0@) by {
            assert(ib2[i] == eb[i] && ib2[j] == eb[j]);
        }
    }
    lemma_entries_map(ia2);
    lemma_entries_map(ib2);
    assert(!entries_map(ia2).contains_key(ka)) by {
        if has_key(ia2, ka) {
            let i = choose|i: int| 0 <= i < ia2.len() && #[trigger] ia2[i].0@ == ka;
            assert(ea[i] == ia2[i]);
            assert(seq_lt(ea[i].0@, ka));
            lemma_seq_lt_trichotomy(ka, ka);
        }
    }
    assert(!entries_map(ib2).contains_key(ka)) by {
        if has_key(ib2, ka) {
            let i = choose|i: int| 0 <= i < ib2.len() && #[trigger] ib2[i].0@ == ka;
            assert(eb[i] == ib2[i]);
            assert(seq_lt(eb[i].0@, ka));
            lemma_seq_lt_trichotomy(ka, ka);
        }
    }
    assert(entries_map(ia2) =~= entries_map(ea).remove(ka));
    assert(entries_map(ib2) =~= entries_map(eb).remove(ka));
    lemma_sorted_entries_determined(ia2, ib2);
    assert forall|i: int| 0 <= i < ea.len() implies (#[trigger] ea[i]).0@ == eb[i].0@ && json_view(ea[i].1)
        == json_view(eb[i].1) by {
        if i < ea.len() - 1 {
            assert(ea[i] == ia2[i] && eb[i] == ib2[i]);
        } else {
            assert(entries_map(ea)[ka] == json_view(ea.last().1));
            assert(entries_map(eb)[ka] == json_view(eb.last().1));
        }
    }
}

/// Resolving a well-formed value depends only on its view.
proof fn lemma_resolve_json_determined(a: JsonValue, b: JsonValue, env: Seq<(Seq<char>, Seq<char>)>)
    requires
        json_wf(a),
        json_wf(b),
        json_view(a) == json_view(b),
    ensures
        resolve_json(a, env) == resolve_json(b, env),
    decreases a,
{
    match a {
        JsonValue::Array(ia) => {
            match b {
                JsonValue::Array(ib) => {
                    lemma_items_wf(ia@);
                    lemma_items_wf(ib@);
                    assert(json_view_seq(ia@) == json_view_seq(ib@));
                    assert forall|i: int| 0 <= i < ia@.len() implies json_wf(#[trigger] ia@[i]) && json_wf(ib@[i])
                        && json_view(ia@[i]) == json_view(ib@[i]) by {
                        assert(json_view_seq(ia@)[i] == json_view_seq(ib@)[i]);
                    }
                    lemma_resolve_items_determined(ia@, ib@, env);
                },
                _ => {},
            }
        },
        JsonValue::Object(ea) => {
            match b {
                JsonValue::Object(eb) => {
                    lemma_entries_wf(ea@);
                    lemma_entries_wf(eb@);
                    lemma_sorted_entries_determined(ea@, eb@);
                    lemma_resolve_entries_determined(ea@, eb@, env);
                },
                _ => {},
            }
        },
        _ => {},
    }
}

proof fn lemma_resolve_items_determined(ia: Seq<JsonValue>, ib: Seq<JsonValue>, env: Seq<(Seq<char>, Seq<char>)>)
    requires
        ia.len() == ib.len(),
        forall|i: int| 0 <= i < ia.len() ==> json_wf(#[trigger] ia[i]) && json_wf(ib[i]) && json_view(ia[i]) == json_view(ib[i]),
    ensures
        resolve_items(ia, env) == resolve_items(ib, env),
    decreases ia,
{
    if ia.len() > 0 {
        let la = ia.last();
        let lb = ib.last();
        assert(json_wf(ia[ia.len() - 1]));
        lemma_resolve_items_determined(ia.drop_last(), ib.drop_last(), env);
        lemma_resolve_json_determined(la, lb, env);
    }
}

proof fn lemma_resolve_entries_determined(
    ea: Seq<(String, JsonValue)>,
    eb: Seq<(String, JsonValue)>,
    env: Seq<(Seq<char>, Seq<char>)>,
)
    requires
        ea.len() == eb.len(),
        forall|i: int| 0 <= i < ea.len() ==> json_wf((#[trigger] ea[i]).1) && json_wf(eb[i].1),
        forall|i: int| 0 <= i < ea.len() ==> (#[trigger] ea[i]).0@ == eb[i].0@ && json_view(ea[i].1)
            == json_view(eb[i].1),
    ensures
        resolve_entries(ea, env) == resolve_entries(eb, env),
    decreases ea,
{
    if ea.len() > 0 {
        let la = ea.last();
        let lb = eb.last();
        assert(json_wf(ea[ea.len() - 1].1));
        lemma_resolve_entries_determined(ea.drop_last(), eb.drop_last(), env);
        lemma_resolve_json_determined(la.1, lb.1, env);
    }
}

/// Resolving `${VAR}` references in a settings value, given by its view.
pub open spec fn resolve_json_view(j: Json, env: Seq<(Seq<char>, Seq<char>)>) -> Result<Json, Seq<char>> {
    resolve_json(choose|m: JsonValue| json_wf(m) && json_view(m) == j, env)
}

/// On a well-formed value, resolution by view is resolution of the value.
pub proof fn lemma_resolve_json_view(m: JsonValue, env: Seq<(Seq<char>, Seq<char>)>)
    requires
        json_wf(m),
    ensures
        resolve_json_view(json_view(m), env) == resolve_json(m, env),
{
    let j = json_view(m);
    assert(exists|x: JsonValue| json_wf(x) && json_view(x) == j);
    let c = choose|x: JsonValue| json_wf(x) && json_view(x) == j;
    lemma_resolve_json_determined(c, m, env);
}

/// Merging over a base depends only on the view of the well-formed derived value.
pub proof fn lemma_merge_json_determined(b: Json, d1: JsonValue, d2: JsonValue)
    requires
        json_wf(d1),
        json_wf(d2),
        json_view(d1) == json_view(d2),
    ensures
        merge_json(b, d1) == merge_json(b, d2),
    decreases d1,
{
    match d1 {
        JsonValue::Object(e1) => match d2 {
            JsonValue::Object(e2) => {
                lemma_entries_wf(e1@);
                lemma_entries_wf(e2@);
                lemma_sorted_entries_determined(e1@, e2@);
                match b {
                    Json::Object(bm) => lemma_merge_entries_determined(bm, e1@, e2@),
                    _ => {},
                }
            },
            _ => {},
        },
        _ => {},
    }
}

proof fn lemma_merge_entries_determined(
    bm: Map<Seq<char>, Json>,
    e1: Seq<(String, JsonValue)>,
    e2: Seq<(String, JsonValue)>,
)
    requires
        e1.len() == e2.len(),
        forall|i: int| 0 <= i < e1.len() ==> json_wf((#[trigger] e1[i]).1) && json_wf(e2[i].1),
        forall|i: int| 0 <= i < e1.len() ==> (#[trigger] e1[i]).0@ == e2[i].0@ && json_view(e1[i].1)
            == json_view(e2[i].1),
    ensures
        merge_entries(bm, e1) == merge_entries(bm, e2),
    decreases e1,
{
    if e1.len() > 0 {
        let l1 = e1.last();
        let l2 = e2.last();
        assert(json_wf(e1[e1.len() - 1].1));
        lemma_merge_entries_determined(bm, e1.drop_last(), e2.drop_last());
        let k = l1.0@;
        if bm.contains_key(k) {
            lemma_merge_json_determined(bm[k], l1.1, l2.1);
        }
    }
}

/// A JSON string.
pub fn json_string(s: &str) -> (r: JsonValue)
    ensures
        json_view(r) == Json::Str(s@),
        json_wf(r),
{
    JsonValue::Str(s.to_owned())
}

/// A JSON string, or `null` when absent.
pub open spec fn json_opt_str(o: Option<Seq<char>>) -> Json {
    match o {
        Some(s) => Json::Str(s),
        None => Json::Null,
    }
}

/// An optional string as JSON: the string, or `null`.
pub fn json_opt_string(o: Option<&str>) -> (r: JsonValue)
    ensures
        json_view(r) == json_opt_str(
            match o {
                Some(s) => Some(s@),
                None => None,
            },
        ),
        json_wf(r),
{
    match o {
        Some(s) => JsonValue::Str(s.to_owned()),
        None => JsonValue::Null,
    }
}

/// An array of JSON strings.
pub open spec fn json_str_array(items: Seq<Seq<char>>) -> Json {
    Json::Array(items.map_values(|x: Seq<char>| Json::Str(x)))
}

/// An array of strings as JSON.
pub fn json_strings(v: &Vec<String>) -> (r: JsonValue)
    ensures
        json_view(r) == json_str_array(crate::text::strings_view(v@)),
        json_wf(r),
{
    let mut items: Vec<JsonValue> = Vec::new();
    let n = v.len();
    for i in 0..n
        invariant
            n == v@.len(),
            items@.len() == i,
            forall|k: int| 0 <= k < i ==> (#[trigger] items@[k]) == JsonValue::Str(v@[k]),
    {
        items.push(JsonValue::Str(v[i].clone()));
    }
    proof {
        lemma_items_wf(items@);
        assert(items_wf(items@));
        assert(json_view_seq(items@) =~= crate::text::strings_view(v@).map_values(|x: Seq<char>| Json::Str(x)));
    }
    JsonValue::Array(items)
}

/// An array of JSON values.
pub fn json_array(items: Vec<JsonValue>) -> (r: JsonValue)
    requires
        forall|i: int| 0 <= i < items@.len() ==> json_wf(#[trigger] items@[i]),
    ensures
        json_view(r) == Json::Array(json_view_seq(items@)),
        json_wf(r),
{
    proof {
        lemma_items_wf(items@);
    }
    JsonValue::Array(items)
}

/// An object from entries whose keys are in increasing order.
pub fn json_object(entries: Vec<(String, JsonValue)>) -> (r: JsonValue)
    requires
        keys_sorted(entries@),
        forall|i: int| 0 <= i < entries@.len() ==> json_wf((#[trigger] entries@[i]).1),
    ensures
        json_view(r) == Json::Object(entries_map(entries@)),
        json_wf(r),
{
    proof {
        lemma_entries_wf(entries@);
    }
    JsonValue::Object(entries)
}

} // verus!
