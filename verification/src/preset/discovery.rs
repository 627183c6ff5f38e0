//! Finding the preset files of a scope: every `*.json` entry of its preset directories,
//! in path order, each once.
use vstd::prelude::*;
use crate::error::ClaudioError;
use crate::order::{compare_str, lemma_seq_lt_transitive, lemma_seq_lt_trichotomy, seq_lt, KeyOrder};
use crate::path::{join, join_path};
use crate::text::{chars_of, strings_view};

verus! {

/// The key by which paths are ordered: the path with each separator replaced by the
/// smallest character, so that comparing keys compares paths component by component.
pub open spec fn path_key(p: Seq<char>) -> Seq<char> {
    p.map_values(|c: char| if c == '/' { '\0' } else { c })
}

/// `a` comes strictly before `b` in path order (by key, then by the text itself).
pub open spec fn path_lt(a: Seq<char>, b: Seq<char>) -> bool {
    seq_lt(path_key(a), path_key(b)) || (path_key(a) == path_key(b) && seq_lt(a, b))
}

/// Paths in strictly increasing path order (so each occurs once).
pub open spec fn paths_sorted(s: Seq<Seq<char>>) -> bool {
    forall|i: int, j: int| 0 <= i < j < s.len() ==> path_lt(#[trigger] s[i], #[trigger] s[j])
}

/// Path order is a strict total order.
pub proof fn lemma_path_lt_order(a: Seq<char>, b: Seq<char>, c: Seq<char>)
    ensures
        !path_lt(a, a),
        !(path_lt(a, b) && path_lt(b, a)),
        a != b ==> path_lt(a, b) || path_lt(b, a),
        path_lt(a, b) && path_lt(b, c) ==> path_lt(a, c),
{
    let (ka, kb, kc) = (path_key(a), path_key(b), path_key(c));
    lemma_seq_lt_trichotomy(ka, kb);
    lemma_seq_lt_trichotomy(a, b);
    lemma_seq_lt_trichotomy(ka, ka);
    lemma_seq_lt_trichotomy(a, a);
    if path_lt(a, b) && path_lt(b, c) {
        if seq_lt(ka, kb) && seq_lt(kb, kc) {
            lemma_seq_lt_transitive(ka, kb, kc);
        }
        if ka == kb && kb == kc {
            lemma_seq_lt_transitive(a, b, c);
        }
    }
}

/// Two sequences in strict path order that hold the same paths are equal: what discovery
/// returns depends only on which files there are, not on the order in which directories
/// list them.
pub proof fn lemma_paths_sorted_unique(a: Seq<Seq<char>>, b: Seq<Seq<char>>)
    requires
        paths_sorted(a),
        paths_sorted(b),
        a.to_set() == b.to_set(),
    ensures
        a == b,
    decreases a.len(),
{
    if a.len() == 0 {
        if b.len() > 0 {
            assert(b.to_set().contains(b[0]));
            assert(!a.to_set().contains(b[0]));
        }
        assert(a =~= b);
    } else {
        assert(a.to_set().contains(a[0]));
        assert(b.to_set().contains(a[0]));
        if b.len() == 0 {
            assert(!b.to_set().contains(a[0]));
        }
        let j = choose|j: int| 0 <= j < b.len() && b[j] == a[0];
        assert(b.to_set().contains(b[0]));
        assert(a.to_set().contains(b[0]));
        let i = choose|i: int| 0 <= i < a.len() && a[i] == b[0];
        lemma_path_lt_order(a[0], a[i], a[0]);
        lemma_path_lt_order(b[0], b[j], b[0]);
        if j > 0 {
            assert(path_lt(b[0], b[j]));
            if i > 0 {
                assert(path_lt(a[0], a[i]));
            }
        }
        assert(a[0] == b[0]);
        let ta = a.drop_first();
        let tb = b.drop_first();
        assert(paths_sorted(ta)) by {
            assert forall|x: int, y: int| 0 <= x < y < ta.len() implies path_lt(#[trigger] ta[x], #[trigger] ta[y]) by {
                assert(ta[x] == a[x + 1] && ta[y] == a[y + 1]);
            }
        }
        assert(paths_sorted(tb)) by {
            assert forall|x: int, y: int| 0 <= x < y < tb.len() implies path_lt(#[trigger] tb[x], #[trigger] tb[y]) by {
                assert(tb[x] == b[x + 1] && tb[y] == b[y + 1]);
            }
        }
        assert(ta.to_set() =~= tb.to_set()) by {
            assert forall|e: Seq<char>| ta.to_set().contains(e) implies tb.to_set().contains(e) by {
                let k = choose|k: int| 0 <= k < ta.len() && ta[k] == e;
                assert(a[k + 1] == e);
                assert(a.to_set().contains(e));
                assert(b.to_set().contains(e));
                let m = choose|m: int| 0 <= m < b.len() && b[m] == e;
                assert(path_lt(a[0], a[k + 1]));
                lemma_path_lt_order(a[0], e, e);
                if m == 0 {
                    assert(e == a[0]);
                }
                assert(tb[m - 1] == e);
            }
            assert forall|e: Seq<char>| tb.to_set().contains(e) implies ta.to_set().contains(e) by {
                let k = choose|k: int| 0 <= k < tb.len() && tb[k] == e;
                assert(b[k + 1] == e);
                assert(b.to_set().contains(e));
                assert(a.to_set().contains(e));
                let m = choose|m: int| 0 <= m < a.len() && a[m] == e;
                assert(path_lt(b[0], b[k + 1]));
                lemma_path_lt_order(b[0], e, e);
                if m == 0 {
                    assert(e == b[0]);
                }
                assert(ta[m - 1] == e);
            }
        }
        lemma_paths_sorted_unique(ta, tb);
        assert(a =~= seq![a[0]] + ta);
        assert(b =~= seq![b[0]] + tb);
    }
}

/// The path-order key of a path.
fn path_key_of(p: &str) -> (r: String)
    ensures
        r@ == path_key(p@),
{
    let cs = chars_of(p);
    let mut r = String::new();
    let n = cs.len();
    for i in 0..n
        invariant
            n == cs@.len(),
            cs@ == p@,
            r@ == path_key(p@.take(i as int)),
    {
        let c = cs[i];
        r.push(if c == '/' { '\0' } else { c });
        assert(p@.take(i + 1) =~= p@.take(i as int).push(c));
        assert(path_key(p@.take(i + 1)) =~= path_key(p@.take(i as int)).push(if c == '/' { '\0' } else { c }));
    }
    assert(p@.take(n as int) =~= p@);
    r
}

/// Whether `a` comes strictly before `b` in path order.
pub fn path_less(a: &str, b: &str) -> (r: bool)
    ensures
        r == path_lt(a@, b@),
{
    let ka = path_key_of(a);
    let kb = path_key_of(b);
    match compare_str(ka.as_str(), kb.as_str()) {
        KeyOrder::Less => true,
        KeyOrder::Greater => {
            proof { lemma_seq_lt_trichotomy(ka@, kb@); }
            false
        },
        KeyOrder::Equal => match compare_str(a, b) {
            KeyOrder::Less => true,
            _ => {
                proof { lemma_seq_lt_trichotomy(a@, b@); }
                false
            },
        },
    }
}

/// Add a path to a vector in strict path order, unless it is there already.
pub fn insert_path_sorted(v: &mut Vec<String>, x: String)
    requires
        paths_sorted(strings_view(old(v)@)),
    ensures
        paths_sorted(strings_view(final(v)@)),
        strings_view(final(v)@).to_set() == strings_view(old(v)@).to_set().insert(x@),
{
    let ghost sv = strings_view(v@);
    let n = v.len();
    let mut j: usize = 0;
    while j < n
        invariant_except_break
            n == v@.len(),
            sv == strings_view(v@),
            j <= n,
            forall|k: int| 0 <= k < j ==> path_lt(#[trigger] sv[k], x@),
        ensures
            n == v@.len(),
            sv == strings_view(v@),
            j <= n,
            forall|k: int| 0 <= k < j ==> path_lt(#[trigger] sv[k], x@),
            j < n ==> !path_lt(sv[j as int], x@),
        decreases n - j,
    {
        if !path_less(v[j].as_str(), x.as_str()) {
            break;
        }
        j = j + 1;
    }
    if j < n && crate::text::str_eq(v[j].as_str(), x.as_str()) {
        assert(sv[j as int] == x@);
        assert(sv.to_set().insert(x@) =~= sv.to_set()) by {
            assert(sv.contains(x@));
        }
        return;
    }
    proof {
        if j < n {
            lemma_path_lt_order(sv[j as int], x@, x@);
            assert(path_lt(x@, sv[j as int]));
            assert forall|k: int| j <= k < n implies path_lt(x@, #[trigger] sv[k]) by {
                if k > j {
                    assert(path_lt(sv[j as int], sv[k]));
                    lemma_path_lt_order(x@, sv[j as int], sv[k]);
                }
            }
        }
    }
    v.insert(j, x);
    proof {
        let nv = strings_view(v@);
        assert(nv =~= sv.insert(j as int, x@));
        assert forall|a: int, b: int| 0 <= a < b < nv.len() implies path_lt(#[trigger] nv[a], #[trigger] nv[b]) by {
            if a < j && b < j {
            } else if a < j && b == j {
            } else if a < j {
                assert(path_lt(sv[a], sv[b - 1]));
            } else if a == j {
            } else {
                assert(path_lt(sv[a - 1], sv[b - 1]));
            }
        }
        assert(nv.to_set() =~= sv.to_set().insert(x@)) by {
            assert forall|e: Seq<char>| nv.to_set().contains(e) <==> sv.to_set().insert(x@).contains(e) by {
                if nv.contains(e) {
                    let k = choose|k: int| 0 <= k < nv.len() && nv[k] == e;
                    if k < j {
                        assert(sv[k] == e);
                    } else if k > j {
                        assert(sv[k - 1] == e);
                    }
                }
                if sv.contains(e) {
                    let k = choose|k: int| 0 <= k < sv.len() && sv[k] == e;
                    if k < j {
                        assert(nv[k] == e);
                    } else {
                        assert(nv[k + 1] == e);
                    }
                }
                if e == x@ {
                    assert(nv[j as int] == e);
                }
            }
        }
    }
}

/// A file name whose extension is `json`: it ends in `.json` with something before.
pub open spec fn has_json_extension(name: Seq<char>) -> bool {
    name.len() > 5 && name.subrange(name.len() - 5, name.len() as int) == ".json"@
}

/// Whether a file name has the extension `json`.
pub fn is_json_file_name(name: &str) -> (r: bool)
    ensures
        r == has_json_extension(name@),
{
    proof { reveal_strlit(".json"); }
    let cs = chars_of(name);
    let n = cs.len();
    if n <= 5 {
        return false;
    }
    let r = cs[n - 5] == '.' && cs[n - 4] == 'j' && cs[n - 3] == 's' && cs[n - 2] == 'o' && cs[n - 1] == 'n';
    let ghost tail = name@.subrange(n - 5, n as int);
    assert(".json"@ =~= seq!['.', 'j', 's', 'o', 'n']);
    assert(tail[0] == cs@[n - 5] && tail[1] == cs@[n - 4] && tail[2] == cs@[n - 3]
        && tail[3] == cs@[n - 2] && tail[4] == cs@[n - 1]);
    assert(r == (tail =~= ".json"@));
    r
}

/// The entry names of each directory, as character sequences.
pub open spec fn listings_view(listings: Seq<Vec<String>>) -> Seq<Seq<Seq<char>>> {
    listings.map_values(|l: Vec<String>| strings_view(l@))
}

/// The paths of the `*.json` entries of the directories, given the names listed in each.
pub open spec fn json_entries(dirs: Seq<Seq<char>>, listings: Seq<Seq<Seq<char>>>) -> Set<Seq<char>> {
    Set::new(|p: Seq<char>| exists|i: int, k: int|
        0 <= i < dirs.len() && 0 <= k < listings[i].len() && has_json_extension(#[trigger] listings[i][k])
            && p == join_path(dirs[i], listings[i][k]))
}

/// The preset files of the directories `dirs`, where `listings[i]` holds the entry names
/// found in `dirs[i]` (empty for a directory that could not be read): every entry whose
/// extension is `json`, in path order, each once.
pub fn discover_presets(dirs: &Vec<String>, listings: &Vec<Vec<String>>) -> (r: Vec<String>)
    requires
        dirs.len() == listings.len(),
    ensures
        paths_sorted(strings_view(r@)),
        strings_view(r@).to_set() == json_entries(strings_view(dirs@), listings_view(listings@)),
{
    let ghost ds = strings_view(dirs@);
    let ghost ls = listings_view(listings@);
    let mut out: Vec<String> = Vec::new();
    let n = dirs.len();
    assert(strings_view(out@).to_set() =~= Set::empty());
    for i in 0..n
        invariant
            n == dirs.len(),
            n == listings.len(),
            ds == strings_view(dirs@),
            ls == listings_view(listings@),
            paths_sorted(strings_view(out@)),
            strings_view(out@).to_set() == json_entries(ds.take(i as int), ls),
    {
        let names = &listings[i];
        let m = names.len();
        assert(ls[i as int] == strings_view(names@));
        for k in 0..m
            invariant
                m == names.len(),
                ls[i as int] == strings_view(names@),
                i < n,
                n == dirs.len(),
                ds == strings_view(dirs@),
                paths_sorted(strings_view(out@)),
                strings_view(out@).to_set() == json_entries(ds.take(i as int), ls).union(
                    Set::new(|p: Seq<char>| exists|kk: int|
                        0 <= kk < k && has_json_extension(#[trigger] ls[i as int][kk])
                            && p == join_path(ds[i as int], ls[i as int][kk]))),
        {
            let ghost before = strings_view(out@).to_set();
            let ghost old_part = Set::new(|p: Seq<char>| exists|kk: int|
                0 <= kk < k && has_json_extension(#[trigger] ls[i as int][kk])
                    && p == join_path(ds[i as int], ls[i as int][kk]));
            let ghost new_part = Set::new(|p: Seq<char>| exists|kk: int|
                0 <= kk < k + 1 && has_json_extension(#[trigger] ls[i as int][kk])
                    && p == join_path(ds[i as int], ls[i as int][kk]));
            assert(ls[i as int][k as int] == names@[k as int]@);
            if is_json_file_name(names[k].as_str()) {
                let p = join(dirs[i].as_str(), names[k].as_str());
                insert_path_sorted(&mut out, p);
                assert(new_part =~= old_part.insert(p@));
            } else {
                assert(new_part =~= old_part);
            }
            assert(strings_view(out@).to_set() =~= json_entries(ds.take(i as int), ls).union(new_part));
        }
        proof {
            let part = Set::new(|p: Seq<char>| exists|kk: int|
                0 <= kk < m && has_json_extension(#[trigger] ls[i as int][kk])
                    && p == join_path(ds[i as int], ls[i as int][kk]));
            assert(json_entries(ds.take(i + 1), ls) =~= json_entries(ds.take(i as int), ls).union(part)) by {
                assert forall|p: Seq<char>| json_entries(ds.take(i + 1), ls).contains(p)
                    implies json_entries(ds.take(i as int), ls).union(part).contains(p) by {
                    let (a, b) = choose|a: int, b: int|
                        0 <= a < ds.take(i + 1).len() && 0 <= b < ls[a].len() && has_json_extension(#[trigger] ls[a][b])
                            && p == join_path(ds.take(i + 1)[a], ls[a][b]);
                    if a < i {
                        assert(ds.take(i as int)[a] == ds.take(i + 1)[a]);
                    } else {
                        assert(a == i);
                    }
                }
                assert forall|p: Seq<char>| json_entries(ds.take(i as int), ls).union(part).contains(p)
                    implies json_entries(ds.take(i + 1), ls).contains(p) by {
                    if json_entries(ds.take(i as int), ls).contains(p) {
                        let (a, b) = choose|a: int, b: int|
                            0 <= a < ds.take(i as int).len() && 0 <= b < ls[a].len() && has_json_extension(#[trigger] ls[a][b])
                                && p == join_path(ds.take(i as int)[a], ls[a][b]);
                        assert(ds.take(i + 1)[a] == ds.take(i as int)[a]);
                    } else {
                        let b = choose|kk: int|
                            0 <= kk < m && has_json_extension(#[trigger] ls[i as int][kk])
                                && p == join_path(ds[i as int], ls[i as int][kk]);
                        assert(ds.take(i + 1)[i as int] == ds[i as int]);
                    }
                }
            }
        }
    }
    assert(ds.take(n as int) =~= ds);
    out
}

/// The preset files of a scope, given its preset directories (or why they could not be
/// determined, which is the error) and the entry names listed in each.
pub fn discover_presets_scoped(
    dirs: Result<Vec<String>, ClaudioError>,
    listings: &Vec<Vec<String>>,
) -> (r: Result<Vec<String>, ClaudioError>)
    requires
        dirs matches Ok(d) ==> d.len() == listings.len(),
    ensures
        match dirs {
            Ok(d) => r matches Ok(v) && paths_sorted(strings_view(v@))
                && strings_view(v@).to_set() == json_entries(strings_view(d@), listings_view(listings@)),
            Err(e) => r == Err::<Vec<String>, ClaudioError>(e),
        },
{
    match dirs {
        Ok(d) => Ok(discover_presets(&d, listings)),
        Err(e) => Err(e),
    }
}

} // verus!
