//! Lexicographic order on strings (the order of `String`'s `Ord`, by code point).
use vstd::prelude::*;
use vstd::relations::{sorted_by, total_ordering};

verus! {

/// `a` sorts strictly before `b`.
pub open spec fn seq_lt(a: Seq<char>, b: Seq<char>) -> bool
    decreases a.len(),
{
    if a.len() == 0 {
        b.len() > 0
    } else if b.len() == 0 {
        false
    } else if a[0] != b[0] {
        a[0] < b[0]
    } else {
        seq_lt(a.drop_first(), b.drop_first())
    }
}

/// Exactly one of `a < b`, `a == b`, `b < a` holds.
pub proof fn lemma_seq_lt_trichotomy(a: Seq<char>, b: Seq<char>)
    ensures
        seq_lt(a, b) || a == b || seq_lt(b, a),
        !(seq_lt(a, b) && seq_lt(b, a)),
        !seq_lt(a, a),
    decreases a.len(),
{
    if a.len() > 0 && b.len() > 0 {
        lemma_seq_lt_trichotomy(a.drop_first(), b.drop_first());
        if a[0] == b[0] && a.drop_first() == b.drop_first() {
            assert(a =~= seq![a[0]] + a.drop_first());
            assert(b =~= seq![b[0]] + b.drop_first());
        }
        if a[0] != b[0] {

        }
    } else if a.len() == 0 && b.len() == 0 {
        assert(a =~= b);
    }
    if a.len() > 0 {
        lemma_seq_lt_trichotomy(a.drop_first(), a.drop_first());
    }
}

/// The order is transitive.
pub proof fn lemma_seq_lt_transitive(a: Seq<char>, b: Seq<char>, c: Seq<char>)
    requires
        seq_lt(a, b),
        seq_lt(b, c),
    ensures
        seq_lt(a, c),
    decreases a.len(),
{
    if a.len() > 0 && b.len() > 0 && c.len() > 0 {
        if a[0] == b[0] && b[0] == c[0] {
            lemma_seq_lt_transitive(a.drop_first(), b.drop_first(), c.drop_first());
        }
        if a[0] != c[0] {

        }
    }
}

/// How two strings compare.
pub enum KeyOrder {
    Less,
    Equal,
    Greater,
}

/// Compare two strings in lexicographic order.
pub fn compare_str(a: &str, b: &str) -> (r: KeyOrder)
    ensures
        r is Less <==> seq_lt(a@, b@),
        r is Equal <==> a@ == b@,
        r is Greater <==> seq_lt(b@, a@),
{
    let ac = crate::text::chars_of(a);
    let bc = crate::text::chars_of(b);
    let n = if ac.len() < bc.len() { ac.len() } else { bc.len() };
    let mut i: usize = 0;
    assert(ac@.skip(0) =~= ac@);
    assert(bc@.skip(0) =~= bc@);
    while i < n
        invariant
            ac@ == a@,
            bc@ == b@,
            n <= ac@.len(),
            n <= bc@.len(),
            n == ac@.len() || n == bc@.len(),
            i <= n,
            ac@.take(i as int) == bc@.take(i as int),
            seq_lt(ac@, bc@) == seq_lt(ac@.skip(i as int), bc@.skip(i as int)),
            seq_lt(bc@, ac@) == seq_lt(bc@.skip(i as int), ac@.skip(i as int)),
        decreases n - i,
    {
        let x = ac[i];
        let y = bc[i];
        assert(ac@.skip(i as int)[0] == x && bc@.skip(i as int)[0] == y);
        if x != y {
            proof {
                lemma_seq_lt_trichotomy(ac@, bc@);
                if ac@ == bc@ {
                    assert(ac@[i as int] == bc@[i as int]);
                }
                let sa = ac@.skip(i as int);
                let sb = bc@.skip(i as int);
                assert(sa.len() > 0 && sb.len() > 0);
                assert(sa[0] == x && sb[0] == y);
                assert(seq_lt(sa, sb) == (x < y));
                assert(seq_lt(sb, sa) == (y < x));
                assert(ac@[i as int] == x && bc@[i as int] == y);
                assert(ac@ != bc@);
            }
            if x < y {
                return KeyOrder::Less;
            } else {
                return KeyOrder::Greater;
            }
        }
        assert(ac@.skip(i as int).drop_first() =~= ac@.skip(i + 1));
        assert(bc@.skip(i as int).drop_first() =~= bc@.skip(i + 1));
        assert(ac@.take(i + 1) =~= ac@.take(i as int).push(x));
        assert(bc@.take(i + 1) =~= bc@.take(i as int).push(y));
        i = i + 1;
    }
    proof {
        lemma_seq_lt_trichotomy(ac@, bc@);
    }
    if ac.len() == bc.len() {
        assert(ac@ =~= ac@.take(n as int));
        assert(bc@ =~= bc@.take(n as int));
        KeyOrder::Equal
    } else if ac.len() < bc.len() {
        assert(ac@.skip(n as int).len() == 0);
        assert(ac@ != bc@);
        KeyOrder::Less
    } else {
        assert(bc@.skip(n as int).len() == 0);
        assert(ac@ != bc@);
        KeyOrder::Greater
    }
}


/// `a` sorts before `b` or equals it.
pub open spec fn str_leq(a: Seq<char>, b: Seq<char>) -> bool {
    a == b || seq_lt(a, b)
}

/// Order on name/value pairs: by name, then by value.
pub open spec fn pair_leq(a: (Seq<char>, Seq<char>), b: (Seq<char>, Seq<char>)) -> bool {
    seq_lt(a.0, b.0) || (a.0 == b.0 && str_leq(a.1, b.1))
}

/// `pair_leq` as a relation value.
pub open spec fn pair_order() -> spec_fn((Seq<char>, Seq<char>), (Seq<char>, Seq<char>)) -> bool {
    |a: (Seq<char>, Seq<char>), b: (Seq<char>, Seq<char>)| pair_leq(a, b)
}

/// Name/value pairs of strings, as pairs of character sequences.
pub open spec fn string_pairs(s: Seq<(String, String)>) -> Seq<(Seq<char>, Seq<char>)> {
    s.map_values(|p: (String, String)| (p.0@, p.1@))
}

/// Pairs sorted by name, then by value.
pub open spec fn sort_pairs(s: Seq<(Seq<char>, Seq<char>)>) -> Seq<(Seq<char>, Seq<char>)> {
    s.sort_by(pair_order())
}

/// `seq_lt` is irreflexive and asymmetric.
pub proof fn lemma_seq_lt_asymmetric(a: Seq<char>, b: Seq<char>)
    ensures
        !(seq_lt(a, b) && seq_lt(b, a)),
        !seq_lt(a, a),
{
    lemma_seq_lt_trichotomy(a, b);
    lemma_seq_lt_trichotomy(a, a);
}

/// The pair order is a total order.
pub proof fn lemma_pair_order_total()
    ensures
        total_ordering(pair_order()),
{
    let r = pair_order();
    assert forall|x: (Seq<char>, Seq<char>)| #[trigger] r(x, x) by {}
    assert forall|x: (Seq<char>, Seq<char>), y: (Seq<char>, Seq<char>)|
        #[trigger] r(x, y) && #[trigger] r(y, x) implies x == y by {
        lemma_seq_lt_asymmetric(x.0, y.0);
        lemma_seq_lt_asymmetric(x.1, y.1);
    }
    assert forall|x: (Seq<char>, Seq<char>), y: (Seq<char>, Seq<char>), z: (Seq<char>, Seq<char>)|
        #[trigger] r(x, y) && #[trigger] r(y, z) implies r(x, z) by {
        if seq_lt(x.0, y.0) && seq_lt(y.0, z.0) {
            lemma_seq_lt_transitive(x.0, y.0, z.0);
        }
        if seq_lt(x.1, y.1) && seq_lt(y.1, z.1) {
            lemma_seq_lt_transitive(x.1, y.1, z.1);
        }
    }
    assert forall|x: (Seq<char>, Seq<char>), y: (Seq<char>, Seq<char>)|
        #[trigger] r(x, y) || #[trigger] r(y, x) by {
        lemma_seq_lt_trichotomy(x.0, y.0);
        lemma_seq_lt_trichotomy(x.1, y.1);
    }
}

/// Compare two name/value pairs.
pub fn pair_le(a: &(String, String), b: &(String, String)) -> (r: bool)
    ensures
        r == pair_leq((a.0@, a.1@), (b.0@, b.1@)),
{
    match compare_str(a.0.as_str(), b.0.as_str()) {
        KeyOrder::Less => true,
        KeyOrder::Greater => {
            proof { lemma_seq_lt_asymmetric(a.0@, b.0@); }
            false
        },
        KeyOrder::Equal => {
            proof { lemma_seq_lt_asymmetric(a.0@, b.0@); }
            match compare_str(a.1.as_str(), b.1.as_str()) {
                KeyOrder::Greater => {
                    proof { lemma_seq_lt_asymmetric(a.1@, b.1@); }
                    false
                },
                _ => true,
            }
        },
    }
}

/// Name/value pairs sorted by name, then by value.
pub fn sort_string_pairs(v: &Vec<(String, String)>) -> (r: Vec<(String, String)>)
    ensures
        string_pairs(r@) == sort_pairs(string_pairs(v@)),
{
    broadcast use vstd::seq_lib::group_to_multiset_ensures;
    proof { lemma_pair_order_total(); }
    let ghost rel = pair_order();
    let ghost src = string_pairs(v@);
    let mut out: Vec<(String, String)> = Vec::new();
    let n = v.len();
    for i in 0..n
        invariant
            n == v@.len(),
            src == string_pairs(v@),
            rel == pair_order(),
            total_ordering(rel),
            sorted_by(string_pairs(out@), rel),
            string_pairs(out@).to_multiset() == src.take(i as int).to_multiset(),
    {
        let x = (v[i].0.clone(), v[i].1.clone());
        let ghost xv = (x.0@, x.1@);
        let ghost sp = string_pairs(out@);
        assert(xv == src[i as int]);
        let mut j: usize = 0;
        while j < out.len()
            invariant_except_break
                j <= out@.len(),
                sp == string_pairs(out@),
                rel == pair_order(),
                xv == (x.0@, x.1@),
                forall|k: int| 0 <= k < j ==> rel(#[trigger] sp[k], xv),
            ensures
                j <= out@.len(),
                sp == string_pairs(out@),
                rel == pair_order(),
                forall|k: int| 0 <= k < j ==> rel(#[trigger] sp[k], xv),
                j < out@.len() ==> !rel(sp[j as int], xv),
            decreases out@.len() - j,
        {
            if !pair_le(&out[j], &x) {
                break;
            }
            j = j + 1;
        }
        proof {
            if j < sp.len() {
                assert(rel(xv, sp[j as int]));
                assert forall|k: int| j <= k < sp.len() implies rel(xv, #[trigger] sp[k]) by {
                    if k > j {
                        assert(rel(sp[j as int], sp[k]));
                    }
                }
            }
        }
        out.insert(j, x);
        proof {
            let sp2 = string_pairs(out@);
            assert(sp2 =~= sp.insert(j as int, xv));
            assert forall|a: int, b: int| 0 <= a < b < sp2.len() implies #[trigger] rel(sp2[a], sp2[b]) by {
                if a < j && b < j {
                } else if a < j && b == j {
                } else if a < j {
                    assert(rel(sp[a], sp[b - 1]));
                } else if a == j {
                } else {
                    assert(rel(sp[a - 1], sp[b - 1]));
                }
            }
            assert(src.take(i + 1) =~= src.take(i as int).push(xv));
            vstd::seq_lib::to_multiset_insert(sp, j as int, xv);
            vstd::seq_lib::to_multiset_build(src.take(i as int), xv);
        }
    }
    proof {
        assert(src.take(n as int) =~= src);
        src.lemma_sort_by_ensures(rel);
        vstd::seq_lib::lemma_sorted_unique(string_pairs(out@), src.sort_by(rel), rel);
    }
    out
}

/// A copy of a vector of name/value pairs.
pub fn clone_string_pairs(v: &Vec<(String, String)>) -> (r: Vec<(String, String)>)
    ensures
        string_pairs(r@) == string_pairs(v@),
{
    let mut out: Vec<(String, String)> = Vec::new();
    let n = v.len();
    for i in 0..n
        invariant
            n == v@.len(),
            string_pairs(out@) == string_pairs(v@).take(i as int),
    {
        let ghost before = out@;
        let p = (v[i].0.clone(), v[i].1.clone());
        out.push(p);
        assert(out@ == before.push(p));
        assert(string_pairs(before).len() == i);
        assert(before.len() == i);
        assert(string_pairs(out@).len() == i + 1);
        assert forall|k: int| 0 <= k < i + 1 implies #[trigger] string_pairs(out@)[k] == string_pairs(v@).take(i + 1)[k] by {
            if k < i {
                assert(string_pairs(before)[k] == string_pairs(v@).take(i as int)[k]);
            }
        }
        assert(string_pairs(out@) =~= string_pairs(v@).take(i + 1));
    }
    assert(string_pairs(v@).take(n as int) =~= string_pairs(v@));
    out
}

/// Strings in strictly increasing order (so each occurs once).
pub open spec fn strictly_sorted(s: Seq<Seq<char>>) -> bool {
    forall|i: int, j: int| 0 <= i < j < s.len() ==> seq_lt(#[trigger] s[i], #[trigger] s[j])
}

/// Add a string to a strictly sorted vector of strings, unless it is there already.
pub fn insert_sorted_unique(v: &mut Vec<String>, x: String)
    requires
        strictly_sorted(crate::text::strings_view(old(v)@)),
    ensures
        strictly_sorted(crate::text::strings_view(final(v)@)),
        crate::text::strings_view(final(v)@).to_set() == crate::text::strings_view(old(v)@).to_set().insert(x@),
{
    let ghost sv = crate::text::strings_view(v@);
    let n = v.len();
    let mut j: usize = 0;
    while j < n
        invariant_except_break
            n == v@.len(),
            sv == crate::text::strings_view(v@),
            j <= n,
            forall|k: int| 0 <= k < j ==> seq_lt(#[trigger] sv[k], x@),
        ensures
            n == v@.len(),
            sv == crate::text::strings_view(v@),
            j <= n,
            forall|k: int| 0 <= k < j ==> seq_lt(#[trigger] sv[k], x@),
            j < n ==> !seq_lt(sv[j as int], x@),
        decreases n - j,
    {
        match compare_str(v[j].as_str(), x.as_str()) {
            KeyOrder::Less => {},
            _ => {
                break;
            },
        }
        j = j + 1;
    }
    if j < n && crate::text::str_eq(v[j].as_str(), x.as_str()) {
        assert(sv[j as int] == x@);
        assert(sv.to_set().insert(x@) =~= sv.to_set()) by {
            assert(sv.contains(x@));
        }
        return;
    }
    proof {
        if j < n {
            lemma_seq_lt_trichotomy(sv[j as int], x@);
            assert(seq_lt(x@, sv[j as int]));
            assert forall|k: int| j <= k < n implies seq_lt(x@, #[trigger] sv[k]) by {
                if k > j {
                    assert(seq_lt(sv[j as int], sv[k]));
                    lemma_seq_lt_transitive(x@, sv[j as int], sv[k]);
                }
            }
        }
    }
    v.insert(j, x);
    proof {
        let nv = crate::text::strings_view(v@);
        assert(nv =~= sv.insert(j as int, x@));
        assert forall|a: int, b: int| 0 <= a < b < nv.len() implies seq_lt(#[trigger] nv[a], #[trigger] nv[b]) by {
            if a < j && b < j {
            } else if a < j && b == j {
            } else if a < j {
                assert(seq_lt(sv[a], sv[b - 1]));
            } else if a == j {
            } else {
                assert(seq_lt(sv[a - 1], sv[b - 1]));
            }
        }
        assert(nv.to_set() =~= sv.to_set().insert(x@)) by {
            assert forall|e: Seq<char>| nv.to_set().contains(e) <==> sv.to_set().insert(x@).contains(e) by {
                if nv.contains(e) {
                    let k = choose|k: int| 0 <= k < nv.len() && nv[k] == e;
                    if k < j {
                        assert(sv[k] == e);
                    } else if k > j {
                        assert(sv[k - 1] == e);
                    }
                }
                if sv.contains(e) {
                    let k = choose|k: int| 0 <= k < sv.len() && sv[k] == e;
                    if k < j {
                        assert(nv[k] == e);
                    } else {
                        assert(nv[k + 1] == e);
                    }
                }
                if e == x@ {
                    assert(nv[j as int] == e);
                }
            }
        }
    }
}

} // verus!
