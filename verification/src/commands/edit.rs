//! Editing a preset: which file to open.
use vstd::prelude::*;
use crate::error::ClaudioError;
use crate::preset::naming::{legacy_preset_path, preset_path_for_name_legacy};
use crate::preset::store::{LocatedPreset, PresetStore};
use crate::preset::types::{PresetSource, name_is_safe, validate_preset_name};
use crate::scope::Scope;
use crate::text::strings_view;

verus! {

/// The file `<dir>/<name>.json` of a name in each directory.
pub fn legacy_paths_in(dirs: &Vec<String>, name: &str) -> (r: Vec<String>)
    ensures
        r@.len() == dirs@.len(),
        forall|i: int| 0 <= i < dirs@.len() ==> (#[trigger] r@[i])@ == legacy_preset_path(dirs@[i]@, name@),
{
    let mut out: Vec<String> = Vec::new();
    let n = dirs.len();
    for i in 0..n
        invariant
            n == dirs@.len(),
            out@.len() == i,
            forall|k: int| 0 <= k < i ==> (#[trigger] out@[k])@ == legacy_preset_path(dirs@[k]@, name@),
    {
        out.push(preset_path_for_name_legacy(dirs[i].as_str(), name));
    }
    out
}

/// The paths whose flag is set, in order.
pub open spec fn flagged(paths: Seq<Seq<char>>, flags: Seq<bool>) -> Seq<Seq<char>>
    decreases paths.len(),
{
    if paths.len() == 0 || flags.len() == 0 {
        Seq::empty()
    } else if flags.last() {
        flagged(paths.drop_last(), flags.drop_last()).push(paths.last())
    } else {
        flagged(paths.drop_last(), flags.drop_last())
    }
}

/// What a lookup of the preset says about editing it.
pub open spec fn edit_lookup(name: Seq<char>, located: Result<Option<LocatedPreset>, ClaudioError>, r: Result<String, ClaudioError>) -> bool {
    match located {
        Err(e) => r == Err::<String, ClaudioError>(e),
        Ok(None) => r matches Err(ClaudioError::PresetMissing(n)) && n@ == name,
        Ok(Some(l)) => match l.source {
            PresetSource::Inline => r matches Err(ClaudioError::InlinePresetNotEditable(n)) && n@ == name,
            PresetSource::File(p) => r == Ok::<String, ClaudioError>(p),
        },
    }
}

/// What editing a preset in a store gives, for a safe name. Under `Auto`, the files
/// `<dir>/<name>.json` of the store's directories decide (`exists` says which exist): one is
/// opened, several are ambiguous, and with none the lookup decides between an inline preset
/// (not editable) and no preset. In a single scope the lookup (`located`) decides.
pub open spec fn edit_in_store(
    name: Seq<char>,
    store: (Scope, Seq<Seq<char>>),
    exists: Seq<bool>,
    located: Result<Option<LocatedPreset>, ClaudioError>,
    r: Result<String, ClaudioError>,
) -> bool {
    if store.0 == Scope::Auto {
        let found = flagged(store.1.map_values(|d: Seq<char>| legacy_preset_path(d, name)), exists);
        if found.len() == 1 {
            r matches Ok(p) && p@ == found[0]
        } else if found.len() > 1 {
            r matches Err(ClaudioError::AmbiguousPreset { name: n, paths }) && n@ == name
                && strings_view(paths@) == found
        } else {
            match located {
                Ok(Some(l)) => if l.source is Inline {
                    r matches Err(ClaudioError::InlinePresetNotEditable(n)) && n@ == name
                } else {
                    r matches Err(ClaudioError::PresetMissing(n)) && n@ == name
                },
                Err(e) => r == Err::<String, ClaudioError>(e),
                Ok(None) => r matches Err(ClaudioError::PresetMissing(n)) && n@ == name,
            }
        }
    } else {
        edit_lookup(name, located, r)
    }
}

/// The file to open for editing a preset. An unsafe name is refused before anything else;
/// then a store that could not be made is the error; else `edit_in_store` says what comes out.
pub fn edit(
    preset_name: &str,
    store: Result<PresetStore, ClaudioError>,
    exists: &Vec<bool>,
    located: Result<Option<LocatedPreset>, ClaudioError>,
) -> (r: Result<String, ClaudioError>)
    requires
        store matches Ok(s) ==> exists@.len() == s@.1.len(),
    ensures
        !name_is_safe(preset_name@) ==> (r matches Err(ClaudioError::InvalidPresetName(n)) && n@ == preset_name@),
        name_is_safe(preset_name@) ==> match store {
            Err(e) => r == Err::<String, ClaudioError>(e),
            Ok(s) => edit_in_store(preset_name@, s@, exists@, located, r),
        },
{
    let validation = validate_preset_name(preset_name);
    if !validation.is_safe {
        return Err(ClaudioError::InvalidPresetName(preset_name.to_owned()));
    }
    match store {
        Err(e) => Err(e),
        Ok(s) => open_in_store(preset_name, &s, exists, located),
    }
}

fn open_in_store(
    preset_name: &str,
    store: &PresetStore,
    exists: &Vec<bool>,
    located: Result<Option<LocatedPreset>, ClaudioError>,
) -> (r: Result<String, ClaudioError>)
    requires
        exists@.len() == store@.1.len(),
    ensures
        edit_in_store(preset_name@, store@, exists@, located, r),
{
    if store.scope() == Scope::Auto {
        let dirs = store.search_dirs();
        let paths = legacy_paths_in(dirs, preset_name);
        let ghost all = strings_view(dirs@).map_values(|d: Seq<char>| legacy_preset_path(d, preset_name@));
        assert(strings_view(paths@) =~= all);
        let mut found: Vec<String> = Vec::new();
        let n = paths.len();
        for i in 0..n
            invariant
                n == paths@.len(),
                n == exists@.len(),
                strings_view(paths@) == all,
                strings_view(found@) == flagged(all.take(i as int), exists@.take(i as int)),
        {
            proof {
                assert(all.take(i + 1).drop_last() =~= all.take(i as int));
                assert(exists@.take(i + 1).drop_last() =~= exists@.take(i as int));
                assert(exists@.take(i + 1).last() == exists@[i as int]);
                assert(all.take(i + 1).last() == paths@[i as int]@);
            }
            if exists[i] {
                let ghost b = found@;
                let c = paths[i].clone();
                found.push(c);
                assert(strings_view(b).len() == b.len());
                assert(strings_view(found@) =~= strings_view(b).push(c@));
            }
        }
        assert(all.take(n as int) =~= all);
        assert(exists@.take(n as int) =~= exists@);
        assert(strings_view(found@).len() == found@.len());
        if found.len() == 1 {
            return Ok(found.remove(0));
        } else if found.len() > 1 {
            return Err(ClaudioError::AmbiguousPreset { name: preset_name.to_owned(), paths: found });
        }
        return match located {
            Err(e) => Err(e),
            Ok(Some(l)) => match l.source {
                PresetSource::Inline => Err(ClaudioError::InlinePresetNotEditable(preset_name.to_owned())),
                PresetSource::File(_) => Err(ClaudioError::PresetMissing(preset_name.to_owned())),
            },
            Ok(None) => Err(ClaudioError::PresetMissing(preset_name.to_owned())),
        };
    }
    match located {
        Err(e) => Err(e),
        Ok(None) => Err(ClaudioError::PresetMissing(preset_name.to_owned())),
        Ok(Some(l)) => match l.source {
            PresetSource::Inline => Err(ClaudioError::InlinePresetNotEditable(preset_name.to_owned())),
            PresetSource::File(p) => Ok(p),
        },
    }
}

/// The editor to open: `VISUAL`, else `EDITOR`, else the platform's default (`notepad`
/// on Windows, `vi` elsewhere).
pub fn choose_editor(visual: Option<String>, editor: Option<String>, windows: bool) -> (r: String)
    ensures
        r@ == match visual {
            Some(v) => v@,
            None => match editor {
                Some(e) => e@,
                None => if windows { "notepad"@ } else { "vi"@ },
            },
        },
{
    match visual {
        Some(v) => v,
        None => match editor {
            Some(e) => e,
            None => if windows { "notepad".to_owned() } else { "vi".to_owned() },
        },
    }
}

/// The error of an editor that did not finish successfully: its exit code, or that it
/// ended otherwise.
pub fn editor_failure(editor: &str, code: Option<i32>) -> (r: ClaudioError)
    ensures
        r matches ClaudioError::Message(m) && m@ == "Editor '"@ + editor@ + "' failed ("@ + (match code {
            Some(c) => "exit code "@ + crate::preset::resolve::int_decimal(c as int),
            None => "unknown termination"@,
        }) + ")\n\nYou can change the editor by setting the VISUAL or EDITOR environment variable."@,
{
    let mut m = "Editor '".to_owned();
    m.push_str(editor);
    m.push_str("' failed (");
    match code {
        Some(c) => {
            m.push_str("exit code ");
            let t = crate::preset::resolve::int_text(c);
            m.push_str(t.as_str());
        },
        None => m.push_str("unknown termination"),
    }
    m.push_str(")\n\nYou can change the editor by setting the VISUAL or EDITOR environment variable.");
    ClaudioError::Message(m)
}

} // verus!
