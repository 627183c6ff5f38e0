use claudio::error::ClaudioError;
use claudio::preset::types::{Preset, PresetSource};
use claudio::scope::Scope;
use claudio::settings::{
    effective_read_scope, load_inline_preset, load_inline_preset_scoped, load_inline_presets_scoped,
    resolve_color, resolve_default_preset, resolve_dry_run_show_env, resolve_no_color,
    resolve_require_preset, should_ignore_user_presets, skip_command_confirmation, Settings,
};

fn preset(name: &str, description: &str) -> Preset {
    Preset {
        name: name.to_string(),
        description: Some(description.to_string()),
        extends: None,
        prompt: None,
        env: None,
        args: None,
        settings: None,
    }
}

fn with(f: impl FnOnce(&mut Settings)) -> Result<Option<Settings>, ClaudioError> {
    let mut s = Settings::empty();
    f(&mut s);
    Ok(Some(s))
}

#[test]
fn test_project_settings_shadow_user_settings() {
    let project = || with(|s| {
        s.default_preset = Some("project-preset".to_string());
        s.color = Some("green".to_string());
    });
    let user = || with(|s| {
        s.default_preset = Some("user-preset".to_string());
        s.color = Some("blue".to_string());
        s.no_color = Some(true);
    });
    assert_eq!(resolve_default_preset(Scope::Auto, project(), user()), Ok(Some("project-preset".to_string())));
    assert_eq!(resolve_color(Scope::Auto, project(), user()), Ok(Some("green".to_string())));
    assert_eq!(resolve_no_color(Scope::Auto, project(), user()), Ok(Some(true)));
    assert_eq!(resolve_default_preset(Scope::User, project(), user()), Ok(Some("user-preset".to_string())));
    assert_eq!(resolve_color(Scope::Project, project(), user()), Ok(Some("green".to_string())));
}

#[test]
fn test_default_settings_when_file_missing() {
    assert_eq!(resolve_default_preset(Scope::Auto, Ok(None), Ok(None)), Ok(None));
    assert_eq!(resolve_require_preset(Scope::User, Ok(None), Ok(None)), Ok(None));
}

fn err<T>() -> Result<T, ClaudioError> {
    Err(ClaudioError::Message("bad json".to_string()))
}

#[test]
fn precedence_errors() {
    assert_eq!(resolve_dry_run_show_env(Scope::Auto, err(), with(|s| s.dry_run_show_env = Some(false))), err());
    assert_eq!(
        resolve_dry_run_show_env(Scope::Auto, with(|s| s.dry_run_show_env = Some(true)), err()),
        Ok(Some(true))
    );
    assert_eq!(resolve_dry_run_show_env(Scope::Auto, Ok(None), err()), err());
    assert_eq!(resolve_require_preset(Scope::Project, Ok(None), err()), Ok(None));
    assert_eq!(should_ignore_user_presets(err()), err());
    assert_eq!(should_ignore_user_presets(Ok(None)), Ok(false));
    assert_eq!(should_ignore_user_presets(with(|s| s.ignore_user_presets = Some(true))), Ok(true));
}

#[test]
fn read_scope_and_confirmation_setting() {
    let ignoring = || with(|s| s.ignore_user_presets = Some(true));
    assert_eq!(effective_read_scope(Scope::Auto, ignoring()), Scope::Project);
    assert_eq!(effective_read_scope(Scope::User, ignoring()), Scope::User);
    assert_eq!(effective_read_scope(Scope::Auto, Err(ClaudioError::HomeDirUnknown)), Scope::Auto);
    assert!(skip_command_confirmation(with(|s| s.skip_command_confirmation = Some(true))));
    assert!(!skip_command_confirmation(with(|_| {})));
    assert!(!skip_command_confirmation(Err(ClaudioError::HomeDirUnknown)));
}

#[test]
fn test_load_settings_with_inline_presets() {
    let settings = with(|s| s.presets = vec![preset("inline-preset", "first"), preset("inline-preset", "second")]);
    let found = load_inline_preset("inline-preset", settings).unwrap().unwrap();
    assert_eq!(found.description, Some("first".to_string()));
    assert_eq!(load_inline_preset("other", with(|s| s.presets = vec![preset("x", "y")])), Ok(None));
    assert_eq!(load_inline_preset("x", Ok(None)), Ok(None));
}

#[test]
fn inline_lookup_follows_scope() {
    let project = || with(|s| s.presets = vec![preset("a", "project a")]);
    let user = || with(|s| s.presets = vec![preset("a", "user a"), preset("b", "user b")]);
    let desc = |r: Result<Option<Preset>, ClaudioError>| r.unwrap().map(|p| p.description.unwrap());
    assert_eq!(desc(load_inline_preset_scoped("a", Scope::Auto, project(), user())), Some("project a".to_string()));
    assert_eq!(desc(load_inline_preset_scoped("b", Scope::Auto, project(), user())), Some("user b".to_string()));
    assert_eq!(desc(load_inline_preset_scoped("a", Scope::User, project(), user())), Some("user a".to_string()));
    assert_eq!(
        desc(load_inline_preset_scoped("b", Scope::Auto, Err(ClaudioError::ProjectRootNotFound), user())),
        Some("user b".to_string())
    );
    assert_eq!(
        load_inline_preset_scoped("b", Scope::Project, Err(ClaudioError::ProjectRootNotFound), user()),
        Err(ClaudioError::ProjectRootNotFound)
    );
    let ignoring = || with(|s| {
        s.presets = vec![preset("a", "project a")];
        s.ignore_user_presets = Some(true);
    });
    assert_eq!(desc(load_inline_preset_scoped("b", Scope::Auto, ignoring(), user())), None);
}

#[test]
fn inline_presets_listing_shadows_user_presets() {
    let project = || with(|s| s.presets = vec![preset("a", "project a")]);
    let user = || with(|s| s.presets = vec![preset("a", "user a"), preset("b", "user b")]);
    let all = load_inline_presets_scoped(Scope::Auto, project(), user()).unwrap();
    let summary: Vec<(Scope, String)> = all.iter().map(|(sc, p)| (*sc, p.description.clone().unwrap())).collect();
    assert_eq!(summary, vec![(Scope::Project, "project a".to_string()), (Scope::User, "user b".to_string())]);
    let ignoring = || with(|s| {
        s.presets = vec![preset("a", "project a")];
        s.ignore_user_presets = Some(true);
    });
    assert_eq!(load_inline_presets_scoped(Scope::Auto, ignoring(), Err(ClaudioError::HomeDirUnknown)).unwrap().len(), 1);
    assert_eq!(load_inline_presets_scoped(Scope::User, project(), user()).unwrap().len(), 2);
    assert_eq!(
        load_inline_presets_scoped(Scope::Auto, project(), Err(ClaudioError::HomeDirUnknown)),
        Err(ClaudioError::HomeDirUnknown)
    );
    let _ = PresetSource::Inline;
}

#[test]
fn test_settings_validation_conflicting_inline_preset_name() {
    let settings = with(|s| s.presets = vec![preset("conflict", "inline")]).unwrap().unwrap();
    let result = settings.validate(&vec![Some("/proj/.claudio/presets/conflict.json".to_string())]);
    assert!(result.is_err());
    assert_eq!(
        result.unwrap_err().message(),
        "Inline preset 'conflict' conflicts with a file-based preset.\n\nChoose a different name or remove the file preset at:\n  /proj/.claudio/presets/conflict.json"
    );
    assert_eq!(settings.validate(&vec![None]), Ok(()));
}

#[test]
fn settings_validation_reports_invalid_inline_presets() {
    let mut bad = preset("", "x");
    bad.extends = Some("".to_string());
    let settings = with(|s| s.presets = vec![preset("ok", "fine"), bad]).unwrap().unwrap();
    let err = settings.validate(&vec![None, None]).unwrap_err();
    assert_eq!(
        err.message(),
        "Inline preset '' has multiple validation errors:\n  - name field is required\n  - extends field must not be empty when provided"
    );
    let mut one = preset("one", "x");
    one.extends = Some("one".to_string());
    let settings = with(|s| s.presets = vec![one]).unwrap().unwrap();
    assert_eq!(
        settings.validate(&vec![None]).unwrap_err().message(),
        "Inline preset 'one' has validation error: extends field must not reference itself"
    );
}

#[test]
fn auto_outside_a_project_reads_user_settings() {
    let user = || with(|s| {
        s.default_preset = Some("user-preset".to_string());
        s.color = Some("blue".to_string());
    });
    let outside = || Err(ClaudioError::ProjectRootNotFound);
    assert_eq!(resolve_default_preset(Scope::Auto, outside(), user()), Ok(Some("user-preset".to_string())));
    assert_eq!(resolve_color(Scope::Auto, outside(), user()), Ok(Some("blue".to_string())));
    assert_eq!(resolve_default_preset(Scope::Auto, outside(), Ok(None)), Ok(None));
    assert_eq!(resolve_default_preset(Scope::Project, outside(), user()), Err(ClaudioError::ProjectRootNotFound));
}
