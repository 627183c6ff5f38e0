//! Settings files (project and user) and how their values take precedence.
use vstd::prelude::*;
use crate::error::ClaudioError;
use crate::preset::types::{Preset, preset_errors};
use crate::scope::Scope;
use crate::text::str_eq;

verus! {

/// The contents of a settings file.
#[derive(Debug, Clone, PartialEq, Eq)]
pub struct Settings {
    /// Name of the preset to use when no preset is specified.
    pub default_preset: Option<String>,
    /// Inline preset definitions.
    pub presets: Vec<Preset>,
    /// Default highlight colour.
    pub color: Option<String>,
    /// Disable coloured output by default.
    pub no_color: Option<bool>,
    /// Fail when no preset is available instead of running the wrapped CLI bare.
    pub require_preset: Option<bool>,
    /// Ignore user-level presets (honoured in project settings only).
    pub ignore_user_presets: Option<bool>,
    /// Run command-backed env values without asking.
    pub skip_command_confirmation: Option<bool>,
    /// Show environment variables in dry-run output.
    pub dry_run_show_env: Option<bool>,
    /// The executable of the wrapped CLI to run.
    pub claude_executable: Option<String>,
}

impl Settings {
    /// Check the inline presets: none may share its name with a file preset of the same
    /// scope (`conflicts[i]` is the file found for the name of preset `i`, if any), and each
    /// must pass validation. The first conflict, else the first invalid preset, is the error.
    pub fn validate(&self, conflicts: &Vec<Option<String>>) -> (r: Result<(), ClaudioError>)
        requires
            conflicts@.len() == self.presets@.len(),
        ensures
            match first_conflict(conflicts@) {
                Some(i) => r matches Err(ClaudioError::InlinePresetConflict { name, path }) && name@ == self.presets@[i].name@
                    && conflicts@[i] == Some(path),
                None => match first_invalid(self.presets@) {
                    Some(i) => r matches Err(ClaudioError::InlinePresetInvalid { name, errors }) && name@
                        == self.presets@[i].name@ && crate::text::strings_view(errors@) == preset_errors(self.presets@[i]),
                    None => r is Ok,
                },
            },
    {
        let n = self.presets.len();
        for i in 0..n
            invariant
                n == self.presets@.len(),
                n == conflicts@.len(),
                forall|j: int| 0 <= j < i ==> (#[trigger] conflicts@[j]) is None,
        {
            match &conflicts[i] {
                Some(p) => {
                    proof {
                        lemma_first_conflict(conflicts@, i as int);
                    }
                    return Err(ClaudioError::InlinePresetConflict {
                        name: self.presets[i].name.clone(),
                        path: p.clone(),
                    });
                },
                None => {},
            }
        }
        assert(first_conflict(conflicts@) is None);
        for i in 0..n
            invariant
                n == self.presets@.len(),
                n == conflicts@.len(),
                first_conflict(conflicts@) is None,
                forall|j: int| 0 <= j < i ==> preset_errors(#[trigger] self.presets@[j]).len() == 0,
        {
            let v = self.presets[i].validate(None);
            assert(crate::text::strings_view(v.errors@) =~= v.errors@.map_values(|e: String| e@));
            if v.errors.len() > 0 {
                proof {
                    lemma_first_invalid(self.presets@, i as int);
                }
                return Err(ClaudioError::InlinePresetInvalid { name: self.presets[i].name.clone(), errors: v.errors });
            }
        }
        assert(first_invalid(self.presets@) is None);
        Ok(())
    }

    /// Settings with nothing set.
    pub fn empty() -> (r: Self)
        ensures
            r.default_preset is None,
            r.presets@.len() == 0,
            r.color is None,
            r.no_color is None,
            r.require_preset is None,
            r.ignore_user_presets is None,
            r.skip_command_confirmation is None,
            r.dry_run_show_env is None,
            r.claude_executable is None,
    {
        Settings {
            default_preset: None,
            presets: Vec::new(),
            color: None,
            no_color: None,
            require_preset: None,
            ignore_user_presets: None,
            skip_command_confirmation: None,
            dry_run_show_env: None,
            claude_executable: None,
        }
    }
}

/// The index of the first preset that conflicts with a file preset.
pub open spec fn first_conflict(conflicts: Seq<Option<String>>) -> Option<int> {
    if exists|i: int| 0 <= i < conflicts.len() && (#[trigger] conflicts[i]) is Some {
        Some(choose|i: int| 0 <= i < conflicts.len() && (#[trigger] conflicts[i]) is Some && forall|j: int| 0 <= j < i ==> conflicts[j] is None)
    } else {
        None
    }
}

proof fn lemma_first_conflict(conflicts: Seq<Option<String>>, i: int)
    requires
        0 <= i < conflicts.len(),
        conflicts[i] is Some,
        forall|j: int| 0 <= j < i ==> conflicts[j] is None,
    ensures
        first_conflict(conflicts) == Some(i),
{
    assert(0 <= i < conflicts.len() && conflicts[i] is Some);
    let c = choose|c: int| 0 <= c < conflicts.len() && (#[trigger] conflicts[c]) is Some && forall|j: int| 0 <= j < c ==> conflicts[j] is None;
    assert(exists|c: int| 0 <= c < conflicts.len() && (#[trigger] conflicts[c]) is Some && forall|j: int| 0 <= j < c ==> conflicts[j] is None);
    if c < i {
        assert(conflicts[c] is None);
    }
    if c > i {
        assert(conflicts[i] is None);
    }
}

/// The index of the first preset with validation errors.
pub open spec fn first_invalid(presets: Seq<Preset>) -> Option<int> {
    if exists|i: int| 0 <= i < presets.len() && preset_errors(#[trigger] presets[i]).len() > 0 {
        Some(choose|i: int| 0 <= i < presets.len() && preset_errors(#[trigger] presets[i]).len() > 0 && forall|j: int| 0 <= j < i ==> preset_errors(presets[j]).len() == 0)
    } else {
        None
    }
}

proof fn lemma_first_invalid(presets: Seq<Preset>, i: int)
    requires
        0 <= i < presets.len(),
        preset_errors(presets[i]).len() > 0,
        forall|j: int| 0 <= j < i ==> preset_errors(presets[j]).len() == 0,
    ensures
        first_invalid(presets) == Some(i),
{
    assert(0 <= i < presets.len() && preset_errors(presets[i]).len() > 0);
    let c = choose|c: int| 0 <= c < presets.len() && preset_errors(#[trigger] presets[c]).len() > 0 && forall|j: int| 0 <= j < c ==> preset_errors(presets[j]).len() == 0;
    assert(exists|c: int| 0 <= c < presets.len() && preset_errors(#[trigger] presets[c]).len() > 0 && forall|j: int| 0 <= j < c ==> preset_errors(presets[j]).len() == 0);
    if c < i {
        assert(preset_errors(presets[c]).len() == 0);
    }
    if c > i {
        assert(preset_errors(presets[i]).len() == 0);
    }
}

/// One setting as a settings file gives it: the load error, or the value if the file
/// exists and sets it.
pub open spec fn setting_of<T>(
    file: Result<Option<Settings>, ClaudioError>,
    field: spec_fn(Settings) -> Option<T>,
) -> Result<Option<T>, ClaudioError> {
    match file {
        Err(e) => Err(e),
        Ok(None) => Ok(None),
        Ok(Some(s)) => Ok(field(s)),
    }
}

/// Which file decides a setting: the scope's own file; for `Auto`, the project's value
/// when it sets one, else the user's. Outside a project (`ProjectRootNotFound`) `Auto` has
/// no project settings and reads the user's. Any other load error of a file that is
/// consulted is the result.
pub open spec fn precedence<T>(
    scope: Scope,
    project: Result<Option<T>, ClaudioError>,
    user: Result<Option<T>, ClaudioError>,
) -> Result<Option<T>, ClaudioError> {
    match scope {
        Scope::Project => project,
        Scope::User => user,
        Scope::Auto => match project {
            Err(ClaudioError::ProjectRootNotFound) => user,
            Err(e) => Err(e),
            Ok(Some(v)) => Ok(Some(v)),
            Ok(None) => user,
        },
    }
}

fn pick<T>(
    scope: Scope,
    project: Result<Option<T>, ClaudioError>,
    user: Result<Option<T>, ClaudioError>,
) -> (r: Result<Option<T>, ClaudioError>)
    ensures
        r == precedence(scope, project, user),
{
    match scope {
        Scope::Project => project,
        Scope::User => user,
        Scope::Auto => match project {
            Err(ClaudioError::ProjectRootNotFound) => user,
            Err(e) => Err(e),
            Ok(Some(v)) => Ok(Some(v)),
            Ok(None) => user,
        },
    }
}

/// The default preset name, with project settings taking precedence under `Auto`.
pub fn resolve_default_preset(
    scope: Scope,
    project: Result<Option<Settings>, ClaudioError>,
    user: Result<Option<Settings>, ClaudioError>,
) -> (r: Result<Option<String>, ClaudioError>)
    ensures
        r == precedence(
            scope,
            setting_of(project, |s: Settings| s.default_preset),
            setting_of(user, |s: Settings| s.default_preset),
        ),
{
    let p = match project {
        Err(e) => Err(e),
        Ok(None) => Ok(None),
        Ok(Some(s)) => Ok(s.default_preset),
    };
    let u = match user {
        Err(e) => Err(e),
        Ok(None) => Ok(None),
        Ok(Some(s)) => Ok(s.default_preset),
    };
    pick(scope, p, u)
}

/// The highlight colour, with project settings taking precedence under `Auto`.
pub fn resolve_color(
    scope: Scope,
    project: Result<Option<Settings>, ClaudioError>,
    user: Result<Option<Settings>, ClaudioError>,
) -> (r: Result<Option<String>, ClaudioError>)
    ensures
        r == precedence(
            scope,
            setting_of(project, |s: Settings| s.color),
            setting_of(user, |s: Settings| s.color),
        ),
{
    let p = match project {
        Err(e) => Err(e),
        Ok(None) => Ok(None),
        Ok(Some(s)) => Ok(s.color),
    };
    let u = match user {
        Err(e) => Err(e),
        Ok(None) => Ok(None),
        Ok(Some(s)) => Ok(s.color),
    };
    pick(scope, p, u)
}

/// The `no_color` setting, with project settings taking precedence under `Auto`.
pub fn resolve_no_color(
    scope: Scope,
    project: Result<Option<Settings>, ClaudioError>,
    user: Result<Option<Settings>, ClaudioError>,
) -> (r: Result<Option<bool>, ClaudioError>)
    ensures
        r == precedence(
            scope,
            setting_of(project, |s: Settings| s.no_color),
            setting_of(user, |s: Settings| s.no_color),
        ),
{
    let p = match project {
        Err(e) => Err(e),
        Ok(None) => Ok(None),
        Ok(Some(s)) => Ok(s.no_color),
    };
    let u = match user {
        Err(e) => Err(e),
        Ok(None) => Ok(None),
        Ok(Some(s)) => Ok(s.no_color),
    };
    pick(scope, p, u)
}

/// The `require_preset` setting, with project settings taking precedence under `Auto`.
pub fn resolve_require_preset(
    scope: Scope,
    project: Result<Option<Settings>, ClaudioError>,
    user: Result<Option<Settings>, ClaudioError>,
) -> (r: Result<Option<bool>, ClaudioError>)
    ensures
        r == precedence(
            scope,
            setting_of(project, |s: Settings| s.require_preset),
            setting_of(user, |s: Settings| s.require_preset),
        ),
{
    let p = match project {
        Err(e) => Err(e),
        Ok(None) => Ok(None),
        Ok(Some(s)) => Ok(s.require_preset),
    };
    let u = match user {
        Err(e) => Err(e),
        Ok(None) => Ok(None),
        Ok(Some(s)) => Ok(s.require_preset),
    };
    pick(scope, p, u)
}

/// The `dry_run_show_env` setting, with project settings taking precedence under `Auto`.
pub fn resolve_dry_run_show_env(
    scope: Scope,
    project: Result<Option<Settings>, ClaudioError>,
    user: Result<Option<Settings>, ClaudioError>,
) -> (r: Result<Option<bool>, ClaudioError>)
    ensures
        r == precedence(
            scope,
            setting_of(project, |s: Settings| s.dry_run_show_env),
            setting_of(user, |s: Settings| s.dry_run_show_env),
        ),
{
    let p = match project {
        Err(e) => Err(e),
        Ok(None) => Ok(None),
        Ok(Some(s)) => Ok(s.dry_run_show_env),
    };
    let u = match user {
        Err(e) => Err(e),
        Ok(None) => Ok(None),
        Ok(Some(s)) => Ok(s.dry_run_show_env),
    };
    pick(scope, p, u)
}

/// The executable of the wrapped CLI named in settings, with project settings taking precedence
/// under `Auto`.
pub fn resolve_claude_executable_setting(
    scope: Scope,
    project: Result<Option<Settings>, ClaudioError>,
    user: Result<Option<Settings>, ClaudioError>,
) -> (r: Result<Option<String>, ClaudioError>)
    ensures
        r == precedence(
            scope,
            setting_of(project, |s: Settings| s.claude_executable),
            setting_of(user, |s: Settings| s.claude_executable),
        ),
{
    let p = match project {
        Err(e) => Err(e),
        Ok(None) => Ok(None),
        Ok(Some(s)) => Ok(s.claude_executable),
    };
    let u = match user {
        Err(e) => Err(e),
        Ok(None) => Ok(None),
        Ok(Some(s)) => Ok(s.claude_executable),
    };
    pick(scope, p, u)
}

/// Whether user presets are ignored: only project settings can say so.
pub fn should_ignore_user_presets(project: Result<Option<Settings>, ClaudioError>) -> (r: Result<bool, ClaudioError>)
    ensures
        match project {
            Err(e) => r == Err::<bool, ClaudioError>(e),
            Ok(None) => r == Ok::<bool, ClaudioError>(false),
            Ok(Some(s)) => r == Ok::<bool, ClaudioError>(s.ignore_user_presets == Some(true)),
        },
{
    match project {
        Err(e) => Err(e),
        Ok(None) => Ok(false),
        Ok(Some(s)) => Ok(match s.ignore_user_presets {
            Some(b) => b,
            None => false,
        }),
    }
}

/// The index of the first preset with this name.
pub open spec fn first_named(presets: Seq<Preset>, name: Seq<char>) -> Option<int> {
    if exists|i: int| 0 <= i < presets.len() && (#[trigger] presets[i]).name@ == name {
        Some(choose|i: int| 0 <= i < presets.len() && (#[trigger] presets[i]).name@ == name
            && forall|j: int| 0 <= j < i ==> presets[j].name@ != name)
    } else {
        None
    }
}

fn find_named(presets: &Vec<Preset>, name: &str) -> (r: Option<usize>)
    ensures
        match r {
            Some(i) => i < presets@.len() && presets@[i as int].name@ == name@ && forall|j: int| 0 <= j < i ==> presets@[j].name@ != name@,
            None => forall|j: int| 0 <= j < presets@.len() ==> (#[trigger] presets@[j]).name@ != name@,
        },
{
    let n = presets.len();
    for i in 0..n
        invariant
            n == presets@.len(),
            forall|j: int| 0 <= j < i ==> (#[trigger] presets@[j]).name@ != name@,
    {
        if str_eq(presets[i].name.as_str(), name) {
            return Some(i);
        }
    }
    None
}

proof fn lemma_first_named(presets: Seq<Preset>, name: Seq<char>, i: int)
    requires
        0 <= i < presets.len(),
        presets[i].name@ == name,
        forall|j: int| 0 <= j < i ==> presets[j].name@ != name,
    ensures
        first_named(presets, name) == Some(i),
{
    assert(0 <= i < presets.len() && presets[i].name@ == name);
    let c = choose|c: int| 0 <= c < presets.len() && (#[trigger] presets[c]).name@ == name
        && forall|j: int| 0 <= j < c ==> presets[j].name@ != name;
    assert(exists|c: int| 0 <= c < presets.len() && (#[trigger] presets[c]).name@ == name
        && forall|j: int| 0 <= j < c ==> presets[j].name@ != name);
    if c < i {
        assert(presets[c].name@ != name);
    }
    if c > i {
        assert(presets[i].name@ != name);
    }
}

/// The inline preset of a settings file with this name (the first, if several).
pub fn load_inline_preset(name: &str, settings: Result<Option<Settings>, ClaudioError>) -> (r: Result<Option<Preset>, ClaudioError>)
    ensures
        match settings {
            Err(e) => r == Err::<Option<Preset>, ClaudioError>(e),
            Ok(None) => r == Ok::<Option<Preset>, ClaudioError>(None),
            Ok(Some(s)) => match first_named(s.presets@, name@) {
                Some(i) => r == Ok::<Option<Preset>, ClaudioError>(Some(s.presets@[i])),
                None => r == Ok::<Option<Preset>, ClaudioError>(None),
            },
        },
{
    match settings {
        Err(e) => Err(e),
        Ok(None) => Ok(None),
        Ok(Some(s)) => {
            let mut presets = s.presets;
            match find_named(&presets, name) {
                Some(i) => {
                    proof {
                        lemma_first_named(presets@, name@, i as int);
                    }
                    Ok(Some(presets.remove(i)))
                },
                None => {
                    assert(!exists|i: int| 0 <= i < presets@.len() && (#[trigger] presets@[i]).name@ == name@);
                    Ok(None)
                },
            }
        },
    }
}

/// Project settings as the `Auto` scope reads them: outside a project there are none.
pub open spec fn project_for_auto(project: Result<Option<Settings>, ClaudioError>) -> Result<Option<Settings>, ClaudioError> {
    match project {
        Err(ClaudioError::ProjectRootNotFound) => Ok(None),
        other => other,
    }
}

fn project_settings_for_auto(project: Result<Option<Settings>, ClaudioError>) -> (r: Result<Option<Settings>, ClaudioError>)
    ensures
        r == project_for_auto(project),
{
    match project {
        Err(ClaudioError::ProjectRootNotFound) => Ok(None),
        other => other,
    }
}

/// An inline preset by name, in the scope's settings; under `Auto` the project's first,
/// and the user's only if the project does not ignore user presets. `project` is the
/// project settings load (`ProjectRootNotFound` outside a project), `user` the user's.
pub fn load_inline_preset_scoped(
    name: &str,
    scope: Scope,
    project: Result<Option<Settings>, ClaudioError>,
    user: Result<Option<Settings>, ClaudioError>,
) -> (r: Result<Option<Preset>, ClaudioError>)
    ensures
        match scope {
            Scope::Project => inline_lookup(name@, project, r),
            Scope::User => inline_lookup(name@, user, r),
            Scope::Auto => match project_for_auto(project) {
                Err(e) => r == Err::<Option<Preset>, ClaudioError>(e),
                Ok(Some(s)) => match first_named(s.presets@, name@) {
                    Some(i) => r == Ok::<Option<Preset>, ClaudioError>(Some(s.presets@[i])),
                    None => if s.ignore_user_presets == Some(true) {
                        r == Ok::<Option<Preset>, ClaudioError>(None)
                    } else {
                        inline_lookup(name@, user, r)
                    },
                },
                Ok(None) => inline_lookup(name@, user, r),
            },
        },
{
    match scope {
        Scope::Project => load_inline_preset(name, project),
        Scope::User => load_inline_preset(name, user),
        Scope::Auto => match project_settings_for_auto(project) {
            Err(e) => Err(e),
            Ok(Some(s)) => {
                let ignore = match s.ignore_user_presets {
                    Some(b) => b,
                    None => false,
                };
                let mut presets = s.presets;
                match find_named(&presets, name) {
                    Some(i) => {
                        proof {
                            lemma_first_named(presets@, name@, i as int);
                        }
                        Ok(Some(presets.remove(i)))
                    },
                    None => {
                        assert(!exists|i: int| 0 <= i < presets@.len() && (#[trigger] presets@[i]).name@ == name@);
                        if ignore {
                            Ok(None)
                        } else {
                            load_inline_preset(name, user)
                        }
                    },
                }
            },
            Ok(None) => load_inline_preset(name, user),
        },
    }
}

/// `r` is what looking a name up among a settings file's inline presets gives.
pub open spec fn inline_lookup(
    name: Seq<char>,
    settings: Result<Option<Settings>, ClaudioError>,
    r: Result<Option<Preset>, ClaudioError>,
) -> bool {
    match settings {
        Err(e) => r == Err::<Option<Preset>, ClaudioError>(e),
        Ok(None) => r == Ok::<Option<Preset>, ClaudioError>(None),
        Ok(Some(s)) => match first_named(s.presets@, name) {
            Some(i) => r == Ok::<Option<Preset>, ClaudioError>(Some(s.presets@[i])),
            None => r == Ok::<Option<Preset>, ClaudioError>(None),
        },
    }
}

/// Presets paired with the scope they come from.
pub open spec fn tagged(ps: Seq<Preset>, scope: Scope) -> Seq<(Scope, Preset)> {
    ps.map_values(|p: Preset| (scope, p))
}

/// A project preset has this preset's name.
pub open spec fn shadowed_by(p: Preset, project: Seq<Preset>) -> bool {
    exists|i: int| 0 <= i < project.len() && (#[trigger] project[i]).name@ == p.name@
}

/// The user presets that no project preset shadows, in order, tagged as user presets.
pub open spec fn user_entries(user: Seq<Preset>, project: Seq<Preset>) -> Seq<(Scope, Preset)>
    decreases user.len(),
{
    if user.len() == 0 {
        Seq::empty()
    } else {
        let rest = user_entries(user.drop_last(), project);
        if shadowed_by(user.last(), project) {
            rest
        } else {
            rest.push((Scope::User, user.last()))
        }
    }
}

/// The presets of a settings load, or none.
pub open spec fn presets_of(s: Option<Settings>) -> Seq<Preset> {
    match s {
        Some(x) => x.presets@,
        None => Seq::empty(),
    }
}

fn tag_all(ps: Vec<Preset>, scope: Scope, out: &mut Vec<(Scope, Preset)>)
    ensures
        final(out)@ == old(out)@ + tagged(ps@, scope),
{
    let ghost start = out@;
    let ghost all = ps@;
    let mut ps = ps;
    let n = ps.len();
    for i in 0..n
        invariant
            n == all.len(),
            ps@ == all.skip(i as int),
            out@ == start + tagged(all.take(i as int), scope),
    {
        let p = ps.remove(0);
        assert(p == all[i as int]);
        out.push((scope, p));
        assert(ps@ =~= all.skip(i + 1));
        assert(out@ =~= start + tagged(all.take(i + 1), scope));
    }
    assert(all.take(n as int) =~= all);
}

fn name_in(names: &Vec<String>, name: &str) -> (r: bool)
    ensures
        r == exists|i: int| 0 <= i < names@.len() && (#[trigger] names@[i])@ == name@,
{
    let n = names.len();
    for i in 0..n
        invariant
            n == names@.len(),
            forall|k: int| 0 <= k < i ==> (#[trigger] names@[k])@ != name@,
    {
        if str_eq(names[i].as_str(), name) {
            return true;
        }
    }
    false
}

/// All inline presets a scope sees, with their origin: under `Auto` the project's first,
/// then the user's that no project preset shadows by name, unless the project ignores
/// user presets.
pub fn load_inline_presets_scoped(
    scope: Scope,
    project: Result<Option<Settings>, ClaudioError>,
    user: Result<Option<Settings>, ClaudioError>,
) -> (r: Result<Vec<(Scope, Preset)>, ClaudioError>)
    ensures
        match scope {
            Scope::Project => match project {
                Err(e) => r == Err::<Vec<(Scope, Preset)>, ClaudioError>(e),
                Ok(ps) => r matches Ok(v) && v@ == tagged(presets_of(ps), Scope::Project),
            },
            Scope::User => match user {
                Err(e) => r == Err::<Vec<(Scope, Preset)>, ClaudioError>(e),
                Ok(us) => r matches Ok(v) && v@ == tagged(presets_of(us), Scope::User),
            },
            Scope::Auto => match project_for_auto(project) {
                Err(e) => r == Err::<Vec<(Scope, Preset)>, ClaudioError>(e),
                Ok(ps) => {
                    let pp = presets_of(ps);
                    let ignore = ps matches Some(x) && x.ignore_user_presets == Some(true);
                    if ignore {
                        r matches Ok(v) && v@ == tagged(pp, Scope::Project)
                    } else {
                        match user {
                            Err(e) => r == Err::<Vec<(Scope, Preset)>, ClaudioError>(e),
                            Ok(us) => r matches Ok(v) && v@ == tagged(pp, Scope::Project) + user_entries(presets_of(us), pp),
                        }
                    }
                },
            },
        },
{
    let mut out: Vec<(Scope, Preset)> = Vec::new();
    match scope {
        Scope::Project => match project {
            Err(e) => Err(e),
            Ok(None) => {
                assert(out@ =~= tagged(Seq::<Preset>::empty(), Scope::Project));
                Ok(out)
            },
            Ok(Some(s)) => {
                tag_all(s.presets, Scope::Project, &mut out);
                assert(out@ =~= tagged(presets_of(Some(s)), Scope::Project));
                Ok(out)
            },
        },
        Scope::User => match user {
            Err(e) => Err(e),
            Ok(None) => {
                assert(out@ =~= tagged(Seq::<Preset>::empty(), Scope::User));
                Ok(out)
            },
            Ok(Some(s)) => {
                tag_all(s.presets, Scope::User, &mut out);
                assert(out@ =~= tagged(presets_of(Some(s)), Scope::User));
                Ok(out)
            },
        },
        Scope::Auto => {
            let ps = match project_settings_for_auto(project) {
                Err(e) => return Err(e),
                Ok(ps) => ps,
            };
            let ghost pp = presets_of(ps);
            let mut names: Vec<String> = Vec::new();
            let mut ignore = false;
            match ps {
                Some(s) => {
                    ignore = match s.ignore_user_presets {
                        Some(b) => b,
                        None => false,
                    };
                    let n = s.presets.len();
                    for i in 0..n
                        invariant
                            n == s.presets@.len(),
                            names@.len() == i,
                            forall|k: int| 0 <= k < i ==> (#[trigger] names@[k])@ == s.presets@[k].name@,
                    {
                        names.push(s.presets[i].name.clone());
                    }
                    tag_all(s.presets, Scope::Project, &mut out);
                },
                None => {},
            }
            assert(out@ =~= tagged(pp, Scope::Project));
            assert(names@.len() == pp.len());
            assert(forall|k: int| 0 <= k < pp.len() ==> (#[trigger] names@[k])@ == pp[k].name@);
            if ignore {
                return Ok(out);
            }
            let us = match user {
                Err(e) => return Err(e),
                Ok(us) => us,
            };
            let ghost up = presets_of(us);
            let ghost head = out@;
            match us {
                Some(u) => {
                    let mut rest = u.presets;
                    let m = rest.len();
                    for i in 0..m
                        invariant
                            m == up.len(),
                            rest@ == up.skip(i as int),
                            names@.len() == pp.len(),
                            forall|k: int| 0 <= k < pp.len() ==> (#[trigger] names@[k])@ == pp[k].name@,
                            out@ == head + user_entries(up.take(i as int), pp),
                    {
                        let p = rest.remove(0);
                        assert(p == up[i as int]);
                        assert(rest@ =~= up.skip(i + 1));
                        let shadowed = name_in(&names, p.name.as_str());
                        proof {
                            assert(up.take(i + 1).drop_last() =~= up.take(i as int));
                            assert(up.take(i + 1).last() == p);
                            if shadowed {
                                let k = choose|k: int| 0 <= k < names@.len() && (#[trigger] names@[k])@ == p.name@;
                                assert(pp[k].name@ == p.name@);
                            }
                            if shadowed_by(p, pp) {
                                let k = choose|k: int| 0 <= k < pp.len() && (#[trigger] pp[k]).name@ == p.name@;
                                assert(names@[k]@ == p.name@);
                            }
                        }
                        if !shadowed {
                            out.push((Scope::User, p));
                        }
                        assert(out@ =~= head + user_entries(up.take(i + 1), pp));
                    }
                    assert(up.take(m as int) =~= up);
                },
                None => {
                    assert(user_entries(up, pp) =~= Seq::<(Scope, Preset)>::empty());
                    assert(out@ =~= head + user_entries(up, pp));
                },
            }
            Ok(out)
        },
    }
}

/// The scope that reading uses: `Auto` becomes `Project` when the project ignores user
/// presets (a project settings file that cannot be read counts as not ignoring them).
pub fn effective_read_scope(scope: Scope, project: Result<Option<Settings>, ClaudioError>) -> (r: Scope)
    ensures
        r == (if scope == Scope::Auto && (project matches Ok(Some(s)) && s.ignore_user_presets == Some(true)) {
            Scope::Project
        } else {
            scope
        }),
{
    let ignore = match should_ignore_user_presets(project) {
        Ok(b) => b,
        Err(_) => false,
    };
    match scope {
        Scope::Auto => if ignore {
            Scope::Project
        } else {
            Scope::Auto
        },
        other => other,
    }
}

/// Whether command-backed env values run without asking: as the scope's settings file
/// says; when it is missing, unreadable or silent, they do not.
pub fn skip_command_confirmation(settings: Result<Option<Settings>, ClaudioError>) -> (r: bool)
    ensures
        r == (settings matches Ok(Some(s)) && s.skip_command_confirmation == Some(true)),
{
    match settings {
        Ok(Some(s)) => match s.skip_command_confirmation {
            Some(b) => b,
            None => false,
        },
        _ => false,
    }
}

/// The error of a settings file that could not be read: the OS error under the path.
pub fn settings_read_error(path: &str, cause: String) -> (r: ClaudioError)
    ensures
        r matches ClaudioError::Context { context, cause: c } && context@ == "Failed to read settings file: "@ + path@
            && *c == ClaudioError::Message(cause),
{
    let mut context = "Failed to read settings file: ".to_owned();
    context.push_str(path);
    ClaudioError::Context { context, cause: Box::new(ClaudioError::Message(cause)) }
}

/// The error of a settings file that is not valid settings JSON: the parser's error under
/// the path.
pub fn settings_parse_error(path: &str, cause: String) -> (r: ClaudioError)
    ensures
        r matches ClaudioError::Context { context, cause: c } && context@ == "Failed to parse settings file: "@ + path@
            && *c == ClaudioError::Message(cause),
{
    let mut context = "Failed to parse settings file: ".to_owned();
    context.push_str(path);
    ClaudioError::Context { context, cause: Box::new(ClaudioError::Message(cause)) }
}

} // verus!
