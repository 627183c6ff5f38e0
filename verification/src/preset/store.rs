//! Where presets live: the preset directories of each scope, settings paths, and
//! lookup of a preset by name.
use vstd::prelude::*;
use crate::error::ClaudioError;
use crate::path::{join, join_path};
use crate::preset::discovery::{discover_presets, json_entries, listings_view, paths_sorted};
use crate::preset::naming::{candidate_paths, candidate_preset_paths_for_name, encoded_preset_path, preset_path_for_name};
use crate::preset::types::{Preset, PresetSource};
use crate::scope::Scope;
use crate::text::strings_view;

verus! {

/// `<base>/.claudio/<leaf>`.
pub open spec fn claudio_path(base: Seq<char>, leaf: Seq<char>) -> Seq<char> {
    join_path(join_path(base, ".claudio"@), leaf)
}

fn claudio_subpath(base: &str, leaf: &str) -> (r: String)
    ensures
        r@ == claudio_path(base@, leaf@),
{
    let d = join(base, ".claudio");
    join(d.as_str(), leaf)
}

/// The preset directories a scope searches, as plain values: none when the directory it
/// needs (the project root, or the claudio home) is unknown.
pub open spec fn preset_dirs_of(scope: Scope, root: Option<Seq<char>>, home: Option<Seq<char>>) -> Option<Seq<Seq<char>>> {
    match scope {
        Scope::Auto => match home {
            None => None,
            Some(h) => Some(match root {
                Some(rt) => seq![claudio_path(rt, "presets"@), claudio_path(h, "presets"@)],
                None => seq![claudio_path(h, "presets"@)],
            }),
        },
        Scope::Project => match root {
            Some(rt) => Some(seq![claudio_path(rt, "presets"@)]),
            None => None,
        },
        Scope::User => match home {
            Some(h) => Some(seq![claudio_path(h, "presets"@)]),
            None => None,
        },
    }
}

/// The directory a scope writes presets to, as a plain value.
pub open spec fn write_dir_of(scope: Scope, root: Option<Seq<char>>, home: Option<Seq<char>>) -> Option<Seq<char>> {
    match (scope, root) {
        (Scope::Project, Some(rt)) => Some(claudio_path(rt, "presets"@)),
        (Scope::Project, None) => None,
        (Scope::Auto, Some(rt)) => Some(claudio_path(rt, "presets"@)),
        _ => match home {
            Some(h) => Some(claudio_path(h, "presets"@)),
            None => None,
        },
    }
}

/// An optional `&str` as an optional sequence.
pub open spec fn root_view(o: Option<&str>) -> Option<Seq<char>> {
    match o {
        Some(s) => Some(s@),
        None => None,
    }
}

/// A known directory as an optional sequence.
pub open spec fn home_view(h: Result<String, ClaudioError>) -> Option<Seq<char>> {
    match h {
        Ok(s) => Some(s@),
        Err(_) => None,
    }
}

/// What a scope writes, a lookup in that scope reads first: when the scope's directories
/// are known, its write directory is the first of them, and the first path tried for a
/// name is the file written for that name.
pub proof fn lemma_written_preset_is_read_first(
    scope: Scope,
    root: Option<Seq<char>>,
    home: Option<Seq<char>>,
    name: Seq<char>,
)
    requires
        preset_dirs_of(scope, root, home) is Some,
    ensures
        write_dir_of(scope, root, home) is Some,
        preset_dirs_of(scope, root, home) matches Some(ds) && ds.len() > 0
            && ds[0] == write_dir_of(scope, root, home)->0
            && all_candidates(ds, name).len() > 0
            && all_candidates(ds, name)[0] == encoded_preset_path(write_dir_of(scope, root, home)->0, name),
{
    let ds = preset_dirs_of(scope, root, home)->0;
    match scope {
        Scope::Auto => {
            assert(home is Some);
        },
        _ => {},
    }
    let w = write_dir_of(scope, root, home)->0;
    assert(ds[0] == w);
    let one = seq![ds[0]];
    assert(one.drop_last() =~= Seq::<Seq<char>>::empty());
    assert(one.last() == ds[0]);
    assert(all_candidates(Seq::<Seq<char>>::empty(), name) =~= Seq::<Seq<char>>::empty());
    assert(all_candidates(one, name) == all_candidates(one.drop_last(), name) + candidate_paths(one.last(), name));
    assert(all_candidates(one, name) =~= candidate_paths(ds[0], name));
    if ds.len() == 2 {
        assert(ds.drop_last() =~= one);
        assert(all_candidates(ds, name) == all_candidates(one, name) + candidate_paths(ds[1], name));
    } else {
        assert(ds =~= one);
    }
}

/// The preset directories a scope searches, in order: under `Auto` the project's (when in
/// a project) then the user's; the project's alone or the user's alone otherwise.
/// `project_root` is the detected project root; `claudio_home` the claudio home directory
/// (or why it could not be determined).
pub fn get_preset_dirs_scoped(
    scope: Scope,
    project_root: Option<&str>,
    claudio_home: Result<String, ClaudioError>,
) -> (r: Result<Vec<String>, ClaudioError>)
    ensures
        match scope {
            Scope::Auto => match claudio_home {
                Err(e) => r == Err::<Vec<String>, ClaudioError>(e),
                Ok(h) => r matches Ok(v) && strings_view(v@) == match project_root {
                    Some(rt) => seq![claudio_path(rt@, "presets"@), claudio_path(h@, "presets"@)],
                    None => seq![claudio_path(h@, "presets"@)],
                },
            },
            Scope::Project => match project_root {
                Some(rt) => r matches Ok(v) && strings_view(v@) == seq![claudio_path(rt@, "presets"@)],
                None => r matches Err(ClaudioError::ProjectRootNotFound),
            },
            Scope::User => match claudio_home {
                Err(e) => r == Err::<Vec<String>, ClaudioError>(e),
                Ok(h) => r matches Ok(v) && strings_view(v@) == seq![claudio_path(h@, "presets"@)],
            },
        },
        match r {
            Ok(v) => preset_dirs_of(scope, root_view(project_root), home_view(claudio_home)) == Some(strings_view(v@)),
            Err(_) => preset_dirs_of(scope, root_view(project_root), home_view(claudio_home)) is None,
        },
{
    let mut dirs: Vec<String> = Vec::new();
    match scope {
        Scope::Auto => {
            match project_root {
                Some(rt) => dirs.push(claudio_subpath(rt, "presets")),
                None => {},
            }
            match claudio_home {
                Err(e) => return Err(e),
                Ok(h) => dirs.push(claudio_subpath(h.as_str(), "presets")),
            }
        },
        Scope::Project => match project_root {
            Some(rt) => dirs.push(claudio_subpath(rt, "presets")),
            None => return Err(ClaudioError::ProjectRootNotFound),
        },
        Scope::User => match claudio_home {
            Err(e) => return Err(e),
            Ok(h) => dirs.push(claudio_subpath(h.as_str(), "presets")),
        },
    }
    assert(strings_view(dirs@) =~= match scope {
        Scope::Auto => match project_root {
            Some(rt) => seq![claudio_path(rt@, "presets"@), claudio_path(claudio_home->Ok_0@, "presets"@)],
            None => seq![claudio_path(claudio_home->Ok_0@, "presets"@)],
        },
        Scope::Project => seq![claudio_path(project_root->0@, "presets"@)],
        Scope::User => seq![claudio_path(claudio_home->Ok_0@, "presets"@)],
    });
    Ok(dirs)
}

/// The directory where presets of a scope are written: the project's or the user's; under
/// `Auto` the project's when in a project, else the user's.
pub fn get_preset_write_dir_scoped(
    scope: Scope,
    project_root: Option<&str>,
    claudio_home: Result<String, ClaudioError>,
) -> (r: Result<String, ClaudioError>)
    ensures
        match scope {
            Scope::Project => match project_root {
                Some(rt) => r matches Ok(d) && d@ == claudio_path(rt@, "presets"@),
                None => r matches Err(ClaudioError::ProjectRootNotFound),
            },
            _ => match (scope, project_root) {
                (Scope::Auto, Some(rt)) => r matches Ok(d) && d@ == claudio_path(rt@, "presets"@),
                _ => match claudio_home {
                    Err(e) => r == Err::<String, ClaudioError>(e),
                    Ok(h) => r matches Ok(d) && d@ == claudio_path(h@, "presets"@),
                },
            },
        },
        match r {
            Ok(d) => write_dir_of(scope, root_view(project_root), home_view(claudio_home)) == Some(d@),
            Err(_) => write_dir_of(scope, root_view(project_root), home_view(claudio_home)) is None,
        },
{
    match scope {
        Scope::Project => match project_root {
            Some(rt) => Ok(claudio_subpath(rt, "presets")),
            None => Err(ClaudioError::ProjectRootNotFound),
        },
        Scope::Auto if project_root.is_some() => Ok(claudio_subpath(project_root.unwrap(), "presets")),
        _ => match claudio_home {
            Err(e) => Err(e),
            Ok(h) => Ok(claudio_subpath(h.as_str(), "presets")),
        },
    }
}

/// The settings file of a scope: `<project-root>/.claudio/settings.json` or
/// `<claudio-home>/.claudio/settings.json`; under `Auto` the project's if that file exists,
/// else the user's.
pub fn get_settings_path(
    scope: Scope,
    project_root: Option<&str>,
    claudio_home: Result<String, ClaudioError>,
    project_settings_exists: bool,
) -> (r: Result<String, ClaudioError>)
    ensures
        match scope {
            Scope::Project => match project_root {
                Some(rt) => r matches Ok(d) && d@ == claudio_path(rt@, "settings.json"@),
                None => r matches Err(ClaudioError::ProjectRootNotFound),
            },
            _ => match (scope, project_root) {
                (Scope::Auto, Some(rt)) if project_settings_exists => r matches Ok(d) && d@ == claudio_path(
                    rt@,
                    "settings.json"@,
                ),
                _ => match claudio_home {
                    Err(e) => r == Err::<String, ClaudioError>(e),
                    Ok(h) => r matches Ok(d) && d@ == claudio_path(h@, "settings.json"@),
                },
            },
        },
{
    match scope {
        Scope::Project => match project_root {
            Some(rt) => Ok(claudio_subpath(rt, "settings.json")),
            None => Err(ClaudioError::ProjectRootNotFound),
        },
        Scope::Auto if project_root.is_some() && project_settings_exists => Ok(
            claudio_subpath(project_root.unwrap(), "settings.json"),
        ),
        _ => match claudio_home {
            Err(e) => Err(e),
            Ok(h) => Ok(claudio_subpath(h.as_str(), "settings.json")),
        },
    }
}

/// Where presets are written when no scope is given: as under `Auto`.
pub fn get_preset_write_dir(project_root: Option<&str>, claudio_home: Result<String, ClaudioError>) -> (r: Result<String, ClaudioError>)
    ensures
        match project_root {
            Some(rt) => r matches Ok(d) && d@ == claudio_path(rt@, "presets"@),
            None => match claudio_home {
                Err(e) => r == Err::<String, ClaudioError>(e),
                Ok(h) => r matches Ok(d) && d@ == claudio_path(h@, "presets"@),
            },
        },
{
    get_preset_write_dir_scoped(Scope::Auto, project_root, claudio_home)
}

/// The preset directories searched without a scope: the project's, or (outside a project)
/// `.claudio/presets` under the current directory; then the user's when the claudio home
/// is known.
pub fn get_preset_dirs(
    project_root: Option<&str>,
    cwd: Option<&str>,
    claudio_home: Result<String, ClaudioError>,
) -> (r: Vec<String>)
    ensures
        strings_view(r@) == (match project_root {
            Some(rt) => seq![claudio_path(rt@, "presets"@)],
            None => match cwd {
                Some(c) => seq![claudio_path(c@, "presets"@)],
                None => Seq::empty(),
            },
        }) + (match claudio_home {
            Ok(h) => seq![claudio_path(h@, "presets"@)],
            Err(_) => Seq::empty(),
        }),
{
    let mut dirs: Vec<String> = Vec::new();
    match project_root {
        Some(rt) => dirs.push(claudio_subpath(rt, "presets")),
        None => match cwd {
            Some(c) => dirs.push(claudio_subpath(c, "presets")),
            None => {},
        },
    }
    let ghost first = strings_view(dirs@);
    match claudio_home {
        Ok(h) => {
            dirs.push(claudio_subpath(h.as_str(), "presets"));
            assert(strings_view(dirs@) =~= first + seq![claudio_path(h@, "presets"@)]);
        },
        Err(_) => {
            assert(strings_view(dirs@) =~= first + Seq::<Seq<char>>::empty());
        },
    }
    dirs
}

/// The index of the first flag that is set.
pub open spec fn first_set(flags: Seq<bool>) -> Option<int> {
    if exists|i: int| 0 <= i < flags.len() && flags[i] {
        Some(choose|i: int| 0 <= i < flags.len() && flags[i] && forall|j: int| 0 <= j < i ==> !flags[j])
    } else {
        None
    }
}

fn first_set_index(flags: &Vec<bool>) -> (r: Option<usize>)
    ensures
        match first_set(flags@) {
            Some(i) => r matches Some(u) && u as int == i,
            None => r is None,
        },
        r matches Some(i) ==> i < flags@.len(),
{
    let n = flags.len();
    for i in 0..n
        invariant
            n == flags@.len(),
            forall|j: int| 0 <= j < i ==> !flags@[j],
    {
        if flags[i] {
            proof {
                let c = choose|c: int| 0 <= c < flags@.len() && flags@[c] && forall|j: int| 0 <= j < c ==> !flags@[j];
                assert(0 <= i < flags@.len() && flags@[i as int] && forall|j: int| 0 <= j < i ==> !flags@[j]);
                if c < i {
                    assert(!flags@[c]);
                }
                if c > i {
                    assert(!flags@[i as int]);
                }
            }
            return Some(i);
        }
    }
    None
}

/// The file a preset of this name has in each directory.
pub fn preset_paths_in(dirs: &Vec<String>, name: &str) -> (r: Vec<String>)
    ensures
        r@.len() == dirs@.len(),
        forall|i: int| 0 <= i < dirs@.len() ==> (#[trigger] r@[i])@ == encoded_preset_path(dirs@[i]@, name@),
{
    let mut out: Vec<String> = Vec::new();
    let n = dirs.len();
    for i in 0..n
        invariant
            n == dirs@.len(),
            out@.len() == i,
            forall|k: int| 0 <= k < i ==> (#[trigger] out@[k])@ == encoded_preset_path(dirs@[k]@, name@),
    {
        out.push(preset_path_for_name(dirs[i].as_str(), name));
    }
    out
}

/// Find a preset file by name in the given directories: the first directory whose file
/// for the name exists (`exists[i]` says whether the file in `dirs[i]` exists). When none
/// does, the error names the preset and the directories searched.
pub fn find_preset_scoped(name: &str, dirs: &Vec<String>, exists: &Vec<bool>) -> (r: Result<String, ClaudioError>)
    requires
        exists@.len() == dirs@.len(),
    ensures
        match first_set(exists@) {
            Some(i) => r matches Ok(p) && p@ == encoded_preset_path(dirs@[i]@, name@),
            None => r matches Err(ClaudioError::PresetNotFound { name: n, searched }) && n@ == name@
                && strings_view(searched@) == strings_view(dirs@),
        },
{
    match first_set_index(exists) {
        Some(i) => Ok(preset_path_for_name(dirs[i].as_str(), name)),
        None => {
            let searched = crate::preset::inheritance::clone_strings(dirs);
            Err(ClaudioError::PresetNotFound { name: name.to_owned(), searched })
        },
    }
}

/// Find a preset file by name without a scope (in the directories of `get_preset_dirs`).
pub fn find_preset(name: &str, dirs: &Vec<String>, exists: &Vec<bool>) -> (r: Result<String, ClaudioError>)
    requires
        exists@.len() == dirs@.len(),
    ensures
        match first_set(exists@) {
            Some(i) => r matches Ok(p) && p@ == encoded_preset_path(dirs@[i]@, name@),
            None => r matches Err(ClaudioError::PresetNotFound { name: n, searched }) && n@ == name@
                && strings_view(searched@) == strings_view(dirs@),
        },
{
    find_preset_scoped(name, dirs, exists)
}

/// Every path at which a preset of this name may be stored, directory by directory.
pub open spec fn all_candidates(dirs: Seq<Seq<char>>, name: Seq<char>) -> Seq<Seq<char>>
    decreases dirs.len(),
{
    if dirs.len() == 0 {
        Seq::empty()
    } else {
        all_candidates(dirs.drop_last(), name) + candidate_paths(dirs.last(), name)
    }
}

/// The candidate paths of a name in the given directories, in search order.
pub fn candidate_paths_in(dirs: &Vec<String>, name: &str) -> (r: Vec<String>)
    ensures
        strings_view(r@) == all_candidates(strings_view(dirs@), name@),
{
    let ghost dv = strings_view(dirs@);
    let mut out: Vec<String> = Vec::new();
    let n = dirs.len();
    for i in 0..n
        invariant
            n == dirs@.len(),
            dv == strings_view(dirs@),
            strings_view(out@) == all_candidates(dv.take(i as int), name@),
    {
        let cands = candidate_preset_paths_for_name(dirs[i].as_str(), name);
        let ghost before = strings_view(out@);
        let m = cands.len();
        for j in 0..m
            invariant
                m == cands@.len(),
                strings_view(out@) == before + strings_view(cands@).take(j as int),
        {
            let ghost b = out@;
            let c = cands[j].clone();
            out.push(c);
            assert(strings_view(b).len() == b.len());
            assert(strings_view(out@) =~= strings_view(b).push(c@));
            assert(strings_view(out@) =~= before + strings_view(cands@).take(j + 1));
        }
        proof {
            assert(strings_view(cands@).take(m as int) =~= strings_view(cands@));
            assert(strings_view(cands@) == cands@.map_values(|p: String| p@));
            let t = dv.take(i + 1);
            assert(t.drop_last() =~= dv.take(i as int));
            assert(t.last() == dirs@[i as int]@);
        }
    }
    assert(dv.take(n as int) =~= dv);
    out
}

/// The paths whose flag is set, in order.
pub open spec fn kept(paths: Seq<Seq<char>>, flags: Seq<bool>) -> Seq<Seq<char>>
    decreases paths.len(),
{
    if paths.len() == 0 || flags.len() == 0 {
        Seq::empty()
    } else if flags.last() {
        kept(paths.drop_last(), flags.drop_last()).push(paths.last())
    } else {
        kept(paths.drop_last(), flags.drop_last())
    }
}

/// Every existing preset file for a name: the candidate paths (see `candidate_paths_in`)
/// whose file exists, in search order.
pub fn find_all_presets_scoped(candidates: &Vec<String>, exists: &Vec<bool>) -> (r: Vec<String>)
    requires
        exists@.len() == candidates@.len(),
    ensures
        strings_view(r@) == kept(strings_view(candidates@), exists@),
{
    let ghost cv = strings_view(candidates@);
    let mut out: Vec<String> = Vec::new();
    let n = candidates.len();
    for i in 0..n
        invariant
            n == candidates@.len(),
            n == exists@.len(),
            cv == strings_view(candidates@),
            strings_view(out@) == kept(cv.take(i as int), exists@.take(i as int)),
    {
        proof {
            assert(cv.take(i + 1).drop_last() =~= cv.take(i as int));
            assert(exists@.take(i + 1).drop_last() =~= exists@.take(i as int));
            assert(exists@.take(i + 1).last() == exists@[i as int]);
            assert(cv.take(i + 1).last() == candidates@[i as int]@);
        }
        if exists[i] {
            let ghost b = out@;
            let c = candidates[i].clone();
            out.push(c);
            assert(strings_view(b).len() == b.len());
            assert(strings_view(out@) =~= strings_view(b).push(c@));
        }
    }
    assert(cv.take(n as int) =~= cv);
    assert(exists@.take(n as int) =~= exists@);
    out
}

/// What a filesystem says exists, path by path.
pub open spec fn existing(paths: Seq<Seq<char>>, fs: spec_fn(Seq<char>) -> bool) -> Seq<bool> {
    paths.map_values(|p: Seq<char>| fs(p))
}

proof fn lemma_kept_len(paths: Seq<Seq<char>>, flags: Seq<bool>)
    ensures
        kept(paths, flags).len() <= paths.len(),
    decreases paths.len(),
{
    if paths.len() > 0 && flags.len() > 0 {
        lemma_kept_len(paths.drop_last(), flags.drop_last());
    }
}

proof fn lemma_kept_append(a: Seq<Seq<char>>, fa: Seq<bool>, b: Seq<Seq<char>>, fb: Seq<bool>)
    requires
        a.len() == fa.len(),
        b.len() == fb.len(),
    ensures
        kept(a + b, fa + fb) == kept(a, fa) + kept(b, fb),
    decreases b.len(),
{
    if b.len() == 0 {
        assert(a + b =~= a);
        assert(fa + fb =~= fa);
        assert(kept(a, fa) + kept(b, fb) =~= kept(a, fa));
    } else {
        lemma_kept_append(a, fa, b.drop_last(), fb.drop_last());
        assert((a + b).drop_last() =~= a + b.drop_last());
        assert((fa + fb).drop_last() =~= fa + fb.drop_last());
        assert((a + b).last() == b.last());
        assert((fa + fb).last() == fb.last());
        if fb.last() {
            assert(kept(a, fa) + kept(b, fb) =~= (kept(a, fa) + kept(b.drop_last(), fb.drop_last())).push(b.last()));
        }
    }
}

proof fn lemma_candidates_of_one(dir: Seq<char>, name: Seq<char>, fs: spec_fn(Seq<char>) -> bool)
    ensures
        candidate_paths(dir, name).len() <= 2,
        fs(encoded_preset_path(dir, name)) ==> kept(candidate_paths(dir, name), existing(candidate_paths(dir, name), fs)).contains(
            encoded_preset_path(dir, name),
        ),
{
    let c = candidate_paths(dir, name);
    let f = existing(c, fs);
    let e = encoded_preset_path(dir, name);
    if fs(e) {
        let head = seq![e];
        assert(head.drop_last() =~= Seq::<Seq<char>>::empty());
        assert(existing(head, fs).drop_last() =~= Seq::<bool>::empty());
        assert(existing(head, fs).len() == 1);
        assert(existing(head, fs).last() == fs(e));
        assert(kept(head.drop_last(), existing(head, fs).drop_last()) =~= Seq::<Seq<char>>::empty());
        assert(kept(head, existing(head, fs)) =~= seq![e]);
        assert(kept(head, existing(head, fs))[0] == e);
        if c.len() == 1 {
            assert(c =~= head);
        } else {
            assert(c.drop_last() =~= head);
            assert(f.drop_last() =~= existing(head, fs));
            lemma_kept_len(head, existing(head, fs));
            let k = kept(c, f);
            assert(k == kept(head, existing(head, fs)) || k == kept(head, existing(head, fs)).push(c.last()));
            assert(k[0] == e);
        }
    }
}

/// The two lookups of a preset file agree on what a filesystem holds (`fs` says which
/// paths exist). `find_all_presets_scoped` on the paths of `candidate_paths_in(dirs, name)`
/// with their `existing` flags gives `kept(all_candidates(dirs, name), ..)`, and
/// `find_preset_scoped` on `dirs` with the flags of `preset_paths_in(dirs, name)` fails
/// exactly when `first_set` of those flags is `None`. A directory offers at most two
/// candidate paths, so the list of existing files has at most twice as many entries as there
/// are directories; the file that the single lookup finds in a directory is in that list;
/// so when the list is empty, the single lookup fails.
pub proof fn lemma_lookups_agree(dirs: Seq<Seq<char>>, name: Seq<char>, fs: spec_fn(Seq<char>) -> bool)
    ensures
        all_candidates(dirs, name).len() <= 2 * dirs.len(),
        kept(all_candidates(dirs, name), existing(all_candidates(dirs, name), fs)).len() <= 2 * dirs.len(),
        forall|i: int| 0 <= i < dirs.len() && fs(#[trigger] encoded_preset_path(dirs[i], name))
            ==> kept(all_candidates(dirs, name), existing(all_candidates(dirs, name), fs)).contains(
                encoded_preset_path(dirs[i], name),
            ),
        kept(all_candidates(dirs, name), existing(all_candidates(dirs, name), fs)).len() == 0
            ==> first_set(dirs.map_values(|d: Seq<char>| fs(encoded_preset_path(d, name)))) is None,
    decreases dirs.len(),
{
    let all = all_candidates(dirs, name);
    let k = kept(all, existing(all, fs));
    lemma_kept_len(all, existing(all, fs));
    if dirs.len() > 0 {
        let front = dirs.drop_last();
        let last = dirs.last();
        lemma_lookups_agree(front, name, fs);
        lemma_candidates_of_one(last, name, fs);
        let a = all_candidates(front, name);
        let b = candidate_paths(last, name);
        assert(all == a + b);
        assert(existing(all, fs) =~= existing(a, fs) + existing(b, fs));
        lemma_kept_append(a, existing(a, fs), b, existing(b, fs));
        assert(k == kept(a, existing(a, fs)) + kept(b, existing(b, fs)));
        assert forall|i: int| 0 <= i < dirs.len() && fs(#[trigger] encoded_preset_path(dirs[i], name))
            implies k.contains(encoded_preset_path(dirs[i], name)) by {
            let e = encoded_preset_path(dirs[i], name);
            let ka = kept(a, existing(a, fs));
            let kb = kept(b, existing(b, fs));
            if i < dirs.len() - 1 {
                assert(front[i] == dirs[i]);
                assert(fs(encoded_preset_path(front[i], name)));
                let j = choose|j: int| 0 <= j < ka.len() && ka[j] == e;
                assert(k[j] == e);
            } else {
                assert(dirs[i] == last);
                let j = choose|j: int| 0 <= j < kb.len() && kb[j] == e;
                assert(k[ka.len() + j] == e);
            }
        }
    }
    let flags = dirs.map_values(|d: Seq<char>| fs(encoded_preset_path(d, name)));
    if k.len() == 0 && first_set(flags) is Some {
        let i = choose|i: int| 0 <= i < flags.len() && flags[i];
        assert(fs(encoded_preset_path(dirs[i], name)));
        assert(k.contains(encoded_preset_path(dirs[i], name)));
    }
}

/// Every existing preset file for a name without a scope.
pub fn find_all_presets(candidates: &Vec<String>, exists: &Vec<bool>) -> (r: Vec<String>)
    requires
        exists@.len() == candidates@.len(),
    ensures
        strings_view(r@) == kept(strings_view(candidates@), exists@),
{
    find_all_presets_scoped(candidates, exists)
}

/// A preset with where it came from.
#[derive(Debug, Clone, PartialEq, Eq)]
pub struct LocatedPreset {
    pub preset: Preset,
    pub source: PresetSource,
}

/// Lookup of presets in one scope: inline presets of the settings first, then the preset
/// files of the scope's directories in order.
pub struct PresetStore {
    scope: Scope,
    search_dirs: Vec<String>,
}

impl View for PresetStore {
    type V = (Scope, Seq<Seq<char>>);

    closed spec fn view(&self) -> (Scope, Seq<Seq<char>>) {
        (self.scope, strings_view(self.search_dirs@))
    }
}

impl PresetStore {
    /// A store for a scope with the scope's preset directories (or why they could not be
    /// determined, which is the error).
    pub fn new(scope: Scope, dirs: Result<Vec<String>, ClaudioError>) -> (r: Result<Self, ClaudioError>)
        ensures
            match dirs {
                Ok(d) => r matches Ok(st) && st@ == (scope, strings_view(d@)),
                Err(e) => r == Err::<Self, ClaudioError>(e),
            },
    {
        match dirs {
            Ok(d) => Ok(PresetStore { scope, search_dirs: d }),
            Err(e) => Err(e),
        }
    }

    /// The scope this store was created with.
    pub fn scope(&self) -> (r: Scope)
        ensures
            r == self@.0,
    {
        self.scope
    }

    /// The directories this store searches, in order.
    pub fn search_dirs(&self) -> (r: &Vec<String>)
        ensures
            strings_view(r@) == self@.1,
    {
        &self.search_dirs
    }

    /// The paths at which a preset file of this name is looked for, in order.
    pub fn candidate_paths(&self, name: &str) -> (r: Vec<String>)
        ensures
            strings_view(r@) == all_candidates(self@.1, name@),
    {
        candidate_paths_in(&self.search_dirs, name)
    }

    /// The first candidate path whose file exists (`exists` is aligned with the candidates).
    pub fn first_existing(candidates: &Vec<String>, exists: &Vec<bool>) -> (r: Option<String>)
        requires
            exists@.len() == candidates@.len(),
        ensures
            match first_set(exists@) {
                Some(i) => r matches Some(p) && p@ == candidates@[i]@,
                None => r is None,
            },
    {
        match first_set_index(exists) {
            Some(i) => Some(candidates[i].clone()),
            None => None,
        }
    }

    /// The outcome of a lookup: an inline preset wins; else the first existing file, loaded
    /// (`file` holds its path and what loading it gave); else nothing. Errors pass through.
    pub fn find(
        &self,
        inline: Result<Option<Preset>, ClaudioError>,
        file: Option<(String, Result<Preset, ClaudioError>)>,
    ) -> (r: Result<Option<LocatedPreset>, ClaudioError>)
        ensures
            match inline {
                Err(e) => r == Err::<Option<LocatedPreset>, ClaudioError>(e),
                Ok(Some(p)) => r matches Ok(Some(l)) && l.preset == p && l.source is Inline,
                Ok(None) => match file {
                    None => r matches Ok(None),
                    Some((path, Err(e))) => r == Err::<Option<LocatedPreset>, ClaudioError>(e),
                    Some((path, Ok(p))) => r matches Ok(Some(l)) && l.preset == p && l.source == PresetSource::File(path),
                },
            },
    {
        match inline {
            Err(e) => Err(e),
            Ok(Some(p)) => Ok(Some(LocatedPreset { preset: p, source: PresetSource::Inline })),
            Ok(None) => match file {
                None => Ok(None),
                Some((_, Err(e))) => Err(e),
                Some((path, Ok(p))) => Ok(Some(LocatedPreset { preset: p, source: PresetSource::File(path) })),
            },
        }
    }

    /// A lookup that must succeed: nothing found is an error naming the preset and the
    /// directories searched.
    pub fn find_required(&self, name: &str, found: Result<Option<LocatedPreset>, ClaudioError>) -> (r: Result<LocatedPreset, ClaudioError>)
        ensures
            match found {
                Err(e) => r == Err::<LocatedPreset, ClaudioError>(e),
                Ok(Some(l)) => r == Ok::<LocatedPreset, ClaudioError>(l),
                Ok(None) => r matches Err(ClaudioError::PresetNotFound { name: n, searched }) && n@ == name@
                    && strings_view(searched@) == self@.1,
            },
    {
        match found {
            Err(e) => Err(e),
            Ok(Some(l)) => Ok(l),
            Ok(None) => Err(ClaudioError::PresetNotFound {
                name: name.to_owned(),
                searched: crate::preset::inheritance::clone_strings(&self.search_dirs),
            }),
        }
    }

    /// The preset files of this store's directories, given the entry names listed in each
    /// directory (`listings` is aligned with the directories).
    pub fn discover_all(&self, listings: &Vec<Vec<String>>) -> (r: Vec<String>)
        requires
            self@.1.len() == listings.len(),
        ensures
            paths_sorted(strings_view(r@)),
            strings_view(r@).to_set() == json_entries(self@.1, listings_view(listings@)),
    {
        discover_presets(&self.search_dirs, listings)
    }

    /// The directory where this store writes presets.
    pub fn write_dir(&self, project_root: Option<&str>, claudio_home: Result<String, ClaudioError>) -> (r: Result<String, ClaudioError>)
        ensures
            match self@.0 {
                Scope::Project => match project_root {
                    Some(rt) => r matches Ok(d) && d@ == claudio_path(rt@, "presets"@),
                    None => r matches Err(ClaudioError::ProjectRootNotFound),
                },
                _ => match (self@.0, project_root) {
                    (Scope::Auto, Some(rt)) => r matches Ok(d) && d@ == claudio_path(rt@, "presets"@),
                    _ => match claudio_home {
                        Err(e) => r == Err::<String, ClaudioError>(e),
                        Ok(h) => r matches Ok(d) && d@ == claudio_path(h@, "presets"@),
                    },
                },
            },
    {
        get_preset_write_dir_scoped(self.scope, project_root, claudio_home)
    }

    /// The path at which a preset of this name is written (in the write directory).
    pub fn path_for_name(&self, name: &str, write_dir: Result<String, ClaudioError>) -> (r: Result<String, ClaudioError>)
        ensures
            match write_dir {
                Ok(d) => r matches Ok(p) && p@ == encoded_preset_path(d@, name@),
                Err(e) => r == Err::<String, ClaudioError>(e),
            },
    {
        match write_dir {
            Ok(d) => Ok(preset_path_for_name(d.as_str(), name)),
            Err(e) => Err(e),
        }
    }
}

} // verus!
