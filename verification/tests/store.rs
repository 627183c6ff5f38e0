use claudio::commands::add::{check_new_preset_name, default_preset, new_preset};
use claudio::commands::edit::{choose_editor, edit, editor_failure};
use claudio::error::ClaudioError;
use claudio::json::JsonValue;
use claudio::preset::naming::{candidate_preset_paths_for_name, preset_path_for_name};
use claudio::preset::store::{
    candidate_paths_in, find_all_presets_scoped, find_preset_scoped, get_preset_dirs, get_preset_dirs_scoped,
    get_preset_write_dir, get_preset_write_dir_scoped, get_settings_path, preset_paths_in, LocatedPreset, PresetStore,
};
use claudio::preset::types::{Preset, PresetSource};
use claudio::scope::Scope;

fn home() -> Result<String, ClaudioError> {
    Ok("/home/u".to_string())
}

#[test]
fn preset_dirs_per_scope() {
    assert_eq!(
        get_preset_dirs_scoped(Scope::Auto, Some("/proj"), home()),
        Ok(vec!["/proj/.claudio/presets".to_string(), "/home/u/.claudio/presets".to_string()])
    );
    assert_eq!(get_preset_dirs_scoped(Scope::Auto, None, home()), Ok(vec!["/home/u/.claudio/presets".to_string()]));
    assert_eq!(get_preset_dirs_scoped(Scope::Project, None, home()), Err(ClaudioError::ProjectRootNotFound));
    assert_eq!(
        get_preset_dirs_scoped(Scope::User, Some("/proj"), Err(ClaudioError::HomeDirUnknown)),
        Err(ClaudioError::HomeDirUnknown)
    );
    assert_eq!(get_preset_write_dir_scoped(Scope::Auto, Some("/proj"), home()), Ok("/proj/.claudio/presets".to_string()));
    assert_eq!(get_preset_write_dir_scoped(Scope::User, Some("/proj"), home()), Ok("/home/u/.claudio/presets".to_string()));
    assert_eq!(get_preset_write_dir(None, home()), Ok("/home/u/.claudio/presets".to_string()));
    assert_eq!(
        get_preset_dirs(None, Some("/cwd"), Err(ClaudioError::HomeDirUnknown)),
        vec!["/cwd/.claudio/presets".to_string()]
    );
    assert_eq!(get_settings_path(Scope::Auto, Some("/proj"), home(), true), Ok("/proj/.claudio/settings.json".to_string()));
    assert_eq!(get_settings_path(Scope::Auto, Some("/proj"), home(), false), Ok("/home/u/.claudio/settings.json".to_string()));
    assert_eq!(get_settings_path(Scope::Project, None, home(), false), Err(ClaudioError::ProjectRootNotFound));
}

#[test]
fn finding_preset_files() {
    let dirs = vec!["/a".to_string(), "/b".to_string()];
    assert_eq!(preset_paths_in(&dirs, "x"), vec!["/a/x.json", "/b/x.json"]);
    assert_eq!(find_preset_scoped("x", &dirs, &vec![false, true]), Ok("/b/x.json".to_string()));
    let err = find_preset_scoped("x", &dirs, &vec![false, false]).unwrap_err();
    assert_eq!(
        err.message(),
        "Preset 'x' not found.\n\nSearched in:\n  - /a\n  - /b\n\nRun `claudio init` to create a presets directory."
    );
    assert_eq!(preset_path_for_name("/d", "a b"), "/d/a%20b.json");
    assert_eq!(candidate_preset_paths_for_name("/d", "a b"), vec!["/d/a%20b.json", "/d/a b.json"]);
    let cands = candidate_paths_in(&dirs, "a b");
    assert_eq!(cands, vec!["/a/a%20b.json", "/a/a b.json", "/b/a%20b.json", "/b/a b.json"]);
    assert_eq!(find_all_presets_scoped(&cands, &vec![true, false, false, true]), vec!["/a/a%20b.json", "/b/a b.json"]);
}

fn preset(name: &str) -> Preset {
    Preset { name: name.to_string(), description: None, extends: None, prompt: None, env: None, args: None, settings: None }
}

#[test]
fn store_lookup_outcomes() {
    let store = PresetStore::new(Scope::User, Ok(vec!["/u".to_string()])).unwrap();
    assert_eq!(store.scope(), Scope::User);
    assert_eq!(store.search_dirs(), &vec!["/u".to_string()]);
    assert_eq!(store.candidate_paths("p"), vec!["/u/p.json"]);
    assert_eq!(PresetStore::first_existing(&vec!["a".to_string(), "b".to_string()], &vec![false, true]), Some("b".to_string()));
    let inline = store.find(Ok(Some(preset("p"))), Some(("/u/p.json".to_string(), Ok(preset("q")))));
    assert_eq!(inline, Ok(Some(LocatedPreset { preset: preset("p"), source: PresetSource::Inline })));
    let file = store.find(Ok(None), Some(("/u/p.json".to_string(), Ok(preset("p")))));
    assert_eq!(file, Ok(Some(LocatedPreset { preset: preset("p"), source: PresetSource::File("/u/p.json".to_string()) })));
    assert_eq!(store.find(Ok(None), None), Ok(None));
    let err = store.find_required("p", Ok(None)).unwrap_err();
    assert_eq!(err, ClaudioError::PresetNotFound { name: "p".to_string(), searched: vec!["/u".to_string()] });
    assert_eq!(store.path_for_name("p", Ok("/w".to_string())), Ok("/w/p.json".to_string()));
    assert_eq!(store.write_dir(None, Ok("/h".to_string())), Ok("/h/.claudio/presets".to_string()));
    assert!(PresetStore::new(Scope::Project, Err(ClaudioError::ProjectRootNotFound)).is_err());
}

#[test]
fn editing_targets() {
    let auto = || PresetStore::new(Scope::Auto, Ok(vec!["/p".to_string(), "/u".to_string()]));
    assert_eq!(edit("x", auto(), &vec![false, true], Ok(None)), Ok("/u/x.json".to_string()));
    assert_eq!(
        edit("x", auto(), &vec![true, true], Ok(None)),
        Err(ClaudioError::AmbiguousPreset { name: "x".to_string(), paths: vec!["/p/x.json".to_string(), "/u/x.json".to_string()] })
    );
    let inline = Ok(Some(LocatedPreset { preset: preset("x"), source: PresetSource::Inline }));
    assert_eq!(edit("x", auto(), &vec![false, false], inline), Err(ClaudioError::InlinePresetNotEditable("x".to_string())));
    assert_eq!(edit("x", auto(), &vec![false, false], Ok(None)), Err(ClaudioError::PresetMissing("x".to_string())));
    assert_eq!(edit("../x", auto(), &vec![false, false], Ok(None)), Err(ClaudioError::InvalidPresetName("../x".to_string())));
    let user = || PresetStore::new(Scope::User, Ok(vec!["/u".to_string()]));
    let file = Ok(Some(LocatedPreset { preset: preset("x"), source: PresetSource::File("/u/x.json".to_string()) }));
    assert_eq!(edit("x", user(), &vec![false], file), Ok("/u/x.json".to_string()));
    assert_eq!(
        edit("x", user(), &vec![false], Ok(None)).unwrap_err().message(),
        "Preset 'x' not found. Use 'claudio preset add x' to create it."
    );
}

#[test]
fn editing_checks_the_name_before_the_store() {
    let outside = || PresetStore::new(Scope::Project, Err(ClaudioError::ProjectRootNotFound));
    assert_eq!(edit("../x", outside(), &vec![], Ok(None)), Err(ClaudioError::InvalidPresetName("../x".to_string())));
    assert_eq!(edit("x", outside(), &vec![], Ok(None)), Err(ClaudioError::ProjectRootNotFound));
}

#[test]
fn adding_presets() {
    let p = default_preset("new");
    assert_eq!(p.name, "new");
    assert_eq!(p.description, Some("Description of this preset".to_string()));
    assert_eq!(p.env, Some(vec![]));
    assert_eq!(p.args, Some(vec![]));
    assert_eq!(p.settings, Some(JsonValue::Object(vec![])));
    assert_eq!(check_new_preset_name("new", Scope::User, Ok(None)), Ok(()));
    let found = || Ok(Some(LocatedPreset { preset: preset("new"), source: PresetSource::Inline }));
    let err = check_new_preset_name("new", Scope::Auto, found()).unwrap_err();
    assert!(err.message().starts_with("Preset 'new' already exists (in user and/or project scope)."));
    assert_eq!(check_new_preset_name("new", Scope::User, found()).unwrap_err().message(), "Preset 'new' already exists.");
}

#[test]
fn written_preset_is_the_first_path_read() {
    for scope in [Scope::Auto, Scope::Project, Scope::User] {
        for root in [Some("/work/proj"), None] {
            let dirs = get_preset_dirs_scoped(scope, root, Ok("/home/u".to_string()));
            let write = get_preset_write_dir_scoped(scope, root, Ok("/home/u".to_string()));
            if let (Ok(dirs), Ok(write)) = (dirs, write) {
                assert_eq!(dirs[0], write);
                let candidates = candidate_paths_in(&dirs, "my preset");
                assert_eq!(candidates[0], preset_path_for_name(&write, "my preset"));
            }
        }
    }
}

#[test]
fn editor_choice_and_failure() {
    assert_eq!(choose_editor(Some("code -w".to_string()), Some("nano".to_string()), false), "code -w");
    assert_eq!(choose_editor(None, Some("nano".to_string()), false), "nano");
    assert_eq!(choose_editor(None, None, false), "vi");
    assert_eq!(choose_editor(None, None, true), "notepad");
    assert_eq!(
        editor_failure("vi", Some(1)),
        ClaudioError::Message("Editor 'vi' failed (exit code 1)\n\nYou can change the editor by setting the VISUAL or EDITOR environment variable.".to_string())
    );
    assert_eq!(
        editor_failure("vi", None).message(),
        "Editor 'vi' failed (unknown termination)\n\nYou can change the editor by setting the VISUAL or EDITOR environment variable."
    );
    assert!(editor_failure("vi", Some(-3)).message().contains("(exit code -3)"));
}

#[test]
fn new_presets_extend_a_found_base() {
    let p = new_preset("derived", None, None).unwrap();
    assert_eq!(p, default_preset("derived"));
    assert_eq!(p.extends, None);
    let base = LocatedPreset { preset: preset("base"), source: PresetSource::Inline };
    let p = new_preset("derived", Some("base".to_string()), Some(Ok(base))).unwrap();
    assert_eq!(p.extends, Some("base".to_string()));
    assert_eq!(p.name, "derived");
    let missing = ClaudioError::PresetNotFound { name: "nonexistent".to_string(), searched: vec!["/p".to_string()] };
    let err = new_preset("derived", Some("nonexistent".to_string()), Some(Err(missing))).unwrap_err();
    assert!(err.message().contains("nonexistent") && err.message().contains("not found"));
}

#[test]
fn single_and_full_lookups_agree() {
    let dirs = vec!["/a".to_string(), "/b".to_string()];
    let cands = candidate_paths_in(&dirs, "a b");
    assert!(cands.len() <= 2 * dirs.len());
    let on_disk = |p: &str| p == "/b/a%20b.json";
    let all_flags: Vec<bool> = cands.iter().map(|p| on_disk(p)).collect();
    let single_flags: Vec<bool> = preset_paths_in(&dirs, "a b").iter().map(|p| on_disk(p)).collect();
    assert_eq!(find_all_presets_scoped(&cands, &all_flags), vec!["/b/a%20b.json"]);
    assert_eq!(find_preset_scoped("a b", &dirs, &single_flags), Ok("/b/a%20b.json".to_string()));
    let none = vec![false; cands.len()];
    assert!(find_all_presets_scoped(&cands, &none).is_empty());
    assert!(find_preset_scoped("a b", &dirs, &vec![false, false]).is_err());
}
