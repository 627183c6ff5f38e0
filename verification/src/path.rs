//! Paths as strings, with `/` as the separator.
use vstd::prelude::*;
use crate::text::chars_of;

verus! {

/// Joining `file` onto `dir`: an absolute `file` replaces `dir`; otherwise a
/// separator is put between them unless `dir` is empty or already ends in one.
pub open spec fn join_path(dir: Seq<char>, file: Seq<char>) -> Seq<char> {
    if file.len() > 0 && file[0] == '/' {
        file
    } else if dir.len() == 0 || dir.last() == '/' {
        dir + file
    } else {
        dir + seq!['/'] + file
    }
}

/// Join `file` onto `dir`.
pub fn join(dir: &str, file: &str) -> (p: String)
    ensures
        p@ == join_path(dir@, file@),
{
    let fcs = chars_of(file);
    if fcs.len() > 0 && fcs[0] == '/' {
        return file.to_string();
    }
    let dcs = chars_of(dir);
    let mut p = dir.to_string();
    if !(dcs.len() == 0 || dcs[dcs.len() - 1] == '/') {
        p.push('/');
    }
    p.push_str(file);
    p
}


/// Index of the last `c` in `s`, or -1.
pub open spec fn last_index_of(s: Seq<char>, c: char) -> int
    decreases s.len(),
{
    if s.len() == 0 {
        -1
    } else if s.last() == c {
        s.len() - 1
    } else {
        last_index_of(s.drop_last(), c)
    }
}

/// `Path::file_name`: the last component, where trailing separators and `.`
/// components are skipped; none for an empty path, a root, or a final `..`.
pub open spec fn file_name_of(p: Seq<char>) -> Option<Seq<char>>
    decreases p.len(),
{
    if p.len() == 0 {
        None
    } else if p.last() == '/' {
        file_name_of(p.drop_last())
    } else {
        let st = last_index_of(p, '/') + 1;
        let seg = p.subrange(st, p.len() as int);
        if seg == seq!['.'] {
            proof {
                lemma_last_index_of(p, '/');
            }
            file_name_of(p.subrange(0, st))
        } else if seg == seq!['.', '.'] {
            None
        } else {
            Some(seg)
        }
    }
}

/// The stem of a file name: the part before the last `.`, unless that dot is
/// the first character or there is none.
pub open spec fn stem_of(name: Seq<char>) -> Seq<char> {
    let d = last_index_of(name, '.');
    if d <= 0 {
        name
    } else {
        name.subrange(0, d)
    }
}

/// `Path::file_stem`.
pub open spec fn file_stem_of(p: Seq<char>) -> Option<Seq<char>> {
    match file_name_of(p) {
        Some(n) => Some(stem_of(n)),
        None => None,
    }
}

/// Where the last occurrence of a character is.
pub proof fn lemma_last_index_of(s: Seq<char>, c: char)
    ensures
        -1 <= last_index_of(s, c) < s.len(),
        last_index_of(s, c) >= 0 ==> s[last_index_of(s, c)] == c,
        forall|i: int| last_index_of(s, c) < i < s.len() ==> s[i] != c,
    decreases s.len(),
{
    if s.len() > 0 && s.last() != c {
        lemma_last_index_of(s.drop_last(), c);
        assert forall|i: int| last_index_of(s, c) < i < s.len() implies s[i] != c by {
            if i < s.len() - 1 {
                assert(s[i] == s.drop_last()[i]);
            }
        }
    }
}

/// Index of the last `c` among `cs[..end]`, or -1.
fn find_last(cs: &Vec<char>, end: usize, c: char) -> (r: i64)
    requires
        end <= cs@.len(),
        cs@.len() < i64::MAX,
    ensures
        r == last_index_of(cs@.take(end as int), c),
{
    let mut k = end;
    while k > 0 && cs[k - 1] != c
        invariant
            k <= end <= cs@.len(),
            last_index_of(cs@.take(end as int), c) == last_index_of(cs@.take(k as int), c),
        decreases k,
    {
        assert(cs@.take(k as int).drop_last() =~= cs@.take(k - 1));
        k = k - 1;
    }
    if k == 0 {
        assert(cs@.take(0) =~= Seq::<char>::empty());
        -1
    } else {
        assert(cs@.take(k as int).last() == cs@[k - 1]);
        (k - 1) as i64
    }
}

/// `Path::file_stem` of a `/`-separated path.
pub fn file_stem(path: &str) -> (r: Option<String>)
    requires
        path@.len() < i64::MAX,
    ensures
        match file_stem_of(path@) {
            Some(st) => r matches Some(x) && x@ == st,
            None => r is None,
        },
{
    let cs = chars_of(path);
    let mut e: usize = cs.len();
    assert(cs@.take(e as int) =~= cs@);
    loop
        invariant
            e <= cs@.len(),
            cs@ == path@,
            cs@.len() < i64::MAX,
            file_name_of(cs@) == file_name_of(cs@.take(e as int)),
        decreases e,
    {
        if e == 0 {
            return None;
        }
        let ghost p = cs@.take(e as int);
        assert(p.last() == cs@[e - 1]);
        if cs[e - 1] == '/' {
            assert(p.drop_last() =~= cs@.take(e - 1));
            e = e - 1;
        } else {
            let ls = find_last(&cs, e, '/');
            proof {
                lemma_last_index_of(p, '/');
            }
            let st = (ls + 1) as usize;
            assert(p.subrange(0, st as int) =~= cs@.take(st as int));
            if e - st == 1 && cs[st] == '.' {
                assert(p.subrange(st as int, e as int) =~= seq!['.']);
                e = st;
            } else if e - st == 2 && cs[st] == '.' && cs[st + 1] == '.' {
                assert(p.subrange(st as int, e as int) =~= seq!['.', '.']);
                return None;
            } else {
                let ghost seg = p.subrange(st as int, e as int);
                proof {
                    if seg == seq!['.'] {
                        assert(seg.len() == 1 && seg[0] == cs@[st as int]);
                    }
                    if seg == seq!['.', '.'] {
                        assert(seg.len() == 2 && seg[0] == cs@[st as int] && seg[1] == cs@[st + 1]);
                    }
                }
                // the stem of the segment cs[st..e]
                let mut name: Vec<char> = Vec::new();
                for i in st..e
                    invariant
                        st <= e <= cs@.len(),
                        name@ == cs@.subrange(st as int, i as int),
                {
                    name.push(cs[i]);
                    assert(name@ =~= cs@.subrange(st as int, i + 1));
                }
                assert(name@ =~= seg);
                assert(name@.len() < i64::MAX);
                let d = find_last(&name, name.len(), '.');
                assert(name@.take(name@.len() as int) =~= name@);
                if d <= 0 {
                    return Some(crate::text::string_of(&name));
                } else {
                    let mut stem: Vec<char> = Vec::new();
                    let du = d as usize;
                    proof {
                        lemma_last_index_of(name@, '.');
                    }
                    for i in 0..du
                        invariant
                            du <= name@.len(),
                            stem@ == name@.subrange(0, i as int),
                    {
                        stem.push(name[i]);
                        assert(stem@ =~= name@.subrange(0, i + 1));
                    }
                    return Some(crate::text::string_of(&stem));
                }
            }
        }
    }
}

/// Whether a path is absolute (starts with `/`).
pub open spec fn is_absolute_path(p: Seq<char>) -> bool {
    p.len() > 0 && p[0] == '/'
}

pub fn is_absolute(p: &str) -> (r: bool)
    ensures
        r == is_absolute_path(p@),
{
    let cs = chars_of(p);
    cs.len() > 0 && cs[0] == '/'
}

/// A path without its trailing separators; a path of separators only keeps one.
pub open spec fn trim_trailing_slashes(p: Seq<char>) -> Seq<char>
    decreases p.len(),
{
    if p.len() > 1 && p.last() == '/' {
        trim_trailing_slashes(p.drop_last())
    } else {
        p
    }
}

/// `Path::parent` of a path without `.` or `..` components: none for an empty path or a
/// root; the empty path for a single relative component; else the path up to the last
/// separator, without its trailing separators.
pub open spec fn parent_of(p: Seq<char>) -> Option<Seq<char>> {
    if p.len() == 0 {
        None
    } else {
        let q = trim_trailing_slashes(p);
        if q == seq!['/'] {
            None
        } else {
            let i = last_index_of(q, '/');
            if i < 0 {
                Some(Seq::empty())
            } else if i == 0 {
                Some(seq!['/'])
            } else {
                Some(trim_trailing_slashes(q.take(i)))
            }
        }
    }
}

proof fn lemma_trim_trailing_slashes(p: Seq<char>)
    ensures
        trim_trailing_slashes(p).len() <= p.len(),
        trim_trailing_slashes(p) == p.take(trim_trailing_slashes(p).len() as int),
        p.len() > 0 ==> trim_trailing_slashes(p).len() > 0,
        trim_trailing_slashes(p).len() > 1 ==> trim_trailing_slashes(p).last() != '/',
    decreases p.len(),
{
    if p.len() > 1 && p.last() == '/' {
        lemma_trim_trailing_slashes(p.drop_last());
        let t = trim_trailing_slashes(p.drop_last());
        assert(p.drop_last().take(t.len() as int) =~= p.take(t.len() as int));
    } else {
        assert(p.take(p.len() as int) =~= p);
    }
}

/// The length of `cs[..end]` without its trailing separators.
fn trimmed_len(cs: &Vec<char>, end: usize) -> (r: usize)
    requires
        end <= cs@.len(),
    ensures
        r == trim_trailing_slashes(cs@.take(end as int)).len(),
{
    let mut k = end;
    while k > 1 && cs[k - 1] == '/'
        invariant
            k <= end <= cs@.len(),
            trim_trailing_slashes(cs@.take(end as int)) == trim_trailing_slashes(cs@.take(k as int)),
        decreases k,
    {
        assert(cs@.take(k as int).drop_last() =~= cs@.take(k - 1));
        k = k - 1;
    }
    k
}

/// `Path::parent` of a `/`-separated path without `.` or `..` components.
pub fn parent(p: &str) -> (r: Option<String>)
    requires
        p@.len() < i64::MAX,
    ensures
        match parent_of(p@) {
            Some(x) => r matches Some(y) && y@ == x,
            None => r is None,
        },
{
    let cs = chars_of(p);
    let n = cs.len();
    if n == 0 {
        return None;
    }
    assert(cs@.take(n as int) =~= cs@);
    let qn = trimmed_len(&cs, n);
    let ghost q = trim_trailing_slashes(cs@);
    proof {
        lemma_trim_trailing_slashes(cs@);
    }
    assert(q =~= cs@.take(qn as int));
    if qn == 1 && cs[0] == '/' {
        assert(q =~= seq!['/']);
        return None;
    }
    assert(q != seq!['/']) by {
        if q == seq!['/'] {
            assert(q[0] == cs@[0]);
        }
    }
    let i = find_last(&cs, qn, '/');
    if i < 0 {
        return Some(String::new());
    }
    if i == 0 {
        let mut s = String::new();
        s.push('/');
        return Some(s);
    }
    let iu = i as usize;
    proof {
        lemma_last_index_of(q, '/');
    }
    let hn = trimmed_len(&cs, iu);
    assert(cs@.take(iu as int) =~= q.take(iu as int));
    proof {
        lemma_trim_trailing_slashes(q.take(iu as int));
    }
    let mut head: Vec<char> = Vec::new();
    for j in 0..hn
        invariant
            hn <= iu <= cs@.len(),
            head@ == cs@.take(j as int),
    {
        head.push(cs[j]);
        assert(head@ =~= cs@.take(j + 1));
    }
    assert(head@ =~= trim_trailing_slashes(q.take(iu as int)));
    Some(crate::text::string_of(&head))
}

/// A path that starts with the home directory: `~` or `~/...`.
pub open spec fn starts_with_home(path: Seq<char>) -> bool {
    path == seq!['~'] || (path.len() >= 2 && path[0] == '~' && path[1] == '/')
}

/// `~` and `~/rest` with the home directory in place of `~`: the home joined with the
/// rest (empty for a bare `~`).
pub open spec fn home_expanded(path: Seq<char>, home: Seq<char>) -> Seq<char> {
    if path == seq!['~'] {
        join_path(home, Seq::empty())
    } else {
        join_path(home, path.skip(2))
    }
}

/// Expand a leading `~` to the given home directory; other paths are unchanged.
pub fn expand_tilde(path: &str, home: &str) -> (r: String)
    ensures
        r@ == (if starts_with_home(path@) {
            home_expanded(path@, home@)
        } else {
            path@
        }),
{
    let cs = chars_of(path);
    let n = cs.len();
    if n == 1 && cs[0] == '~' {
        assert(cs@ =~= seq!['~']);
        proof {
            reveal_strlit("");
        }
        return join(home, "");
    }
    if n >= 2 && cs[0] == '~' && cs[1] == '/' {
        let mut rest: Vec<char> = Vec::new();
        for j in 2..n
            invariant
                2 <= n == cs@.len(),
                rest@ == cs@.subrange(2, j as int),
        {
            rest.push(cs[j]);
            assert(rest@ =~= cs@.subrange(2, j + 1));
        }
        assert(rest@ =~= cs@.skip(2));
        assert(cs@ != seq!['~']);
        let rs = crate::text::string_of(&rest);
        return join(home, rs.as_str());
    }
    assert(!starts_with_home(cs@)) by {
        if cs@ == seq!['~'] {
            assert(cs@.len() == 1);
        }
    }
    path.to_owned()
}

} // verus!
