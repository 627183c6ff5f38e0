use claudio::cli::{PresetCommands, Scope as CliScope, ScopeArgs};
use claudio::color::{effective_color_name, ColorConfig, HighlightColor};
use claudio::commands::init::{backup_path, init_outcome, init_rows, plan_init, DirAction, InitOutcome, SettingsAction};
use claudio::commands::which::which_output;
use claudio::commands::show::{location_display, show_plain, show_resolved};
use claudio::error::ClaudioError;
use claudio::home::{find_project_root, get_claudio_home, PathKind};
use claudio::order::sort_string_pairs;
use claudio::path::{expand_tilde, file_stem, join, parent};
use claudio::preset::types::{preset_parse_error, preset_read_error, PresetSource, ResolvedPreset};
use claudio::settings::{settings_parse_error, settings_read_error};
use claudio::provider::{AppError, Provider};
use claudio::scope::Scope;
use claudio::text::{contains_str, decimal_string, join_strings, trim, trim_end};

#[test]
fn test_highlight_color_parse_valid() {
    assert_eq!(HighlightColor::parse("cyan"), Some(HighlightColor::Cyan));
    assert_eq!(HighlightColor::parse("green"), Some(HighlightColor::Green));
    assert_eq!(HighlightColor::parse("yellow"), Some(HighlightColor::Yellow));
    assert_eq!(HighlightColor::parse("blue"), Some(HighlightColor::Blue));
    assert_eq!(HighlightColor::parse("magenta"), Some(HighlightColor::Magenta));
}

#[test]
fn test_highlight_color_parse_case_insensitive() {
    assert_eq!(HighlightColor::parse("CYAN"), Some(HighlightColor::Cyan));
    assert_eq!(HighlightColor::parse("Green"), Some(HighlightColor::Green));
    assert_eq!(HighlightColor::parse("YeLLoW"), Some(HighlightColor::Yellow));
}

#[test]
fn test_highlight_color_parse_invalid() {
    assert_eq!(HighlightColor::parse("red"), None);
    assert_eq!(HighlightColor::parse(""), None);
    assert_eq!(HighlightColor::parse("cyan "), None);
}

#[test]
fn test_color_config_new_disabled() {
    let config = ColorConfig::new(HighlightColor::Cyan, false, false);
    assert!(!config.enabled);
}

#[test]
fn color_config_respects_no_color() {
    assert!(ColorConfig::new(HighlightColor::Blue, true, false).enabled);
    assert!(!ColorConfig::new(HighlightColor::Blue, true, true).enabled);
    assert_eq!(effective_color_name("cyan", Some("green")), "green");
    assert_eq!(effective_color_name("cyan", None), "cyan");
    assert_eq!(effective_color_name("blue", Some("green")), "blue");
}

#[test]
fn test_get_claudio_home_with_valid_env_var() {
    assert_eq!(get_claudio_home(Some("/custom"), PathKind::Directory, Some("/home/u")), Ok("/custom".to_string()));
}

#[test]
fn test_get_claudio_home_without_env_var() {
    assert_eq!(get_claudio_home(None, PathKind::Missing, Some("/home/u")), Ok("/home/u".to_string()));
    assert_eq!(get_claudio_home(None, PathKind::Missing, None), Err(ClaudioError::HomeDirUnknown));
}

#[test]
fn test_get_claudio_home_with_nonexistent_path() {
    let err = get_claudio_home(Some("/nonexistent/path/12345"), PathKind::Missing, None).unwrap_err();
    assert!(err.message().contains("does not exist"));
}

#[test]
fn test_get_claudio_home_with_relative_path() {
    let err = get_claudio_home(Some("relative/path"), PathKind::Directory, None).unwrap_err();
    assert!(err.message().contains("must be an absolute path"));
}

#[test]
fn test_get_claudio_home_with_file_instead_of_directory() {
    let err = get_claudio_home(Some("/tmp/file.txt"), PathKind::Other, None).unwrap_err();
    assert!(err.message().contains("must be a directory"));
}

#[test]
fn test_find_project_root_excludes_user_home() {
    let dirs = vec![("/home/u/sub".to_string(), false), ("/home/u".to_string(), true), ("/home".to_string(), false)];
    assert_eq!(find_project_root(&dirs, Some("/home/u")), None);
    let dirs = vec![("/home/u/proj/src".to_string(), false), ("/home/u/proj".to_string(), true), ("/home/u".to_string(), true)];
    assert_eq!(find_project_root(&dirs, Some("/home/u")), Some("/home/u/proj".to_string()));
    assert_eq!(find_project_root(&dirs, None), None);
}

#[test]
fn paths() {
    assert_eq!(parent("/a/b.json"), Some("/a".to_string()));
    assert_eq!(parent("/b.json"), Some("/".to_string()));
    assert_eq!(parent("b.json"), Some(String::new()));
    assert_eq!(parent("a//b/"), Some("a".to_string()));
    assert_eq!(parent("/"), None);
    assert_eq!(parent(""), None);
    assert_eq!(join("/a", "b"), "/a/b");
    assert_eq!(join("/a/", "b"), "/a/b");
    assert_eq!(join("/a", "/b"), "/b");
    assert_eq!(expand_tilde("~/x", "/h"), "/h/x");
    assert_eq!(expand_tilde("~x", "/h"), "~x");
    assert_eq!(file_stem("/d/name.json"), Some("name".to_string()));
    assert_eq!(file_stem("/d/.hidden"), Some(".hidden".to_string()));
}

#[test]
fn text_helpers() {
    assert_eq!(decimal_string(0), "0");
    assert_eq!(decimal_string(1700000000), "1700000000");
    assert_eq!(decimal_string(u64::MAX), "18446744073709551615");
    assert!(contains_str("Circular inheritance", "Circular"));
    assert!(!contains_str("circ", "Circular"));
    assert!(contains_str("x", ""));
    assert_eq!(join_strings(&vec!["a".to_string(), "b".to_string()], ", "), "a, b");
    assert_eq!(trim("  a b \t"), "a b");
    assert_eq!(trim_end("a \n"), "a");
    let sorted = sort_string_pairs(&vec![
        ("b".to_string(), "1".to_string()),
        ("a".to_string(), "2".to_string()),
        ("a".to_string(), "1".to_string()),
    ]);
    assert_eq!(
        sorted,
        vec![("a".to_string(), "1".to_string()), ("a".to_string(), "2".to_string()), ("b".to_string(), "1".to_string())]
    );
}

#[test]
fn init_planning() {
    let plan = plan_init(false, false, false, false);
    assert_eq!((plan.preset_dir, plan.settings), (DirAction::Create, SettingsAction::Create));
    assert_eq!(init_outcome(plan, false), InitOutcome::Initialized { first_time: true });
    let rows = init_rows(plan);
    assert_eq!(rows, vec![
        ("created".to_string(), ".claudio/presets".to_string()),
        ("created".to_string(), ".claudio/settings.json".to_string()),
    ]);
    let plan = plan_init(true, true, false, true);
    assert_eq!(plan.settings, SettingsAction::BackupAndCreate);
    assert_eq!(init_outcome(plan, false), InitOutcome::Initialized { first_time: false });
    assert_eq!(init_rows(plan).len(), 3);
    let plan = plan_init(true, true, true, true);
    assert_eq!((plan.preset_dir, plan.settings), (DirAction::Exists, SettingsAction::Exists));
    assert_eq!(init_outcome(plan, true), InitOutcome::DryRun);
    assert_eq!(init_outcome(plan_init(true, true, false, false), false), InitOutcome::AlreadyInitialized);
    let plan = plan_init(false, false, true, false);
    assert_eq!((plan.preset_dir, plan.settings), (DirAction::WouldAdd, SettingsAction::WouldAdd));
    assert_eq!(
        backup_path("/p/.claudio/settings.json", "settings.json", 42),
        Some("/p/.claudio/settings.json.42.backup".to_string())
    );
}

#[test]
fn showing_presets() {
    assert_eq!(location_display(&PresetSource::Inline), "(inline preset from settings)");
    assert_eq!(location_display(&PresetSource::File("/p/a.json".to_string())), "/p/a.json");
    let resolved = ResolvedPreset {
        name: "a".to_string(),
        description: None,
        prompt: Some("go".to_string()),
        env: vec![("K".to_string(), "v".to_string())],
        args: vec!["--x".to_string(), "y".to_string()],
        settings: None,
        source: PresetSource::Inline,
    };
    assert_eq!(
        show_resolved("a", "(inline preset from settings)", &resolved, None, "agent"),
        "Configuration: a (resolved)\nLocation: (inline preset from settings)\n\nResolved Environment Variables:\n  K=v\n\nPrompt:\n  go\n\nResolved CLI Arguments:\n  --x\n  y\n\nCommand that would be executed:\n  agent --x y\n"
    );
    let bare = ResolvedPreset { prompt: None, env: vec![], args: vec![], ..resolved };
    let lines = vec!["{".to_string(), "  \"a\": 1".to_string(), "}".to_string()];
    assert_eq!(
        show_resolved("a", "/p/a.json", &bare, Some(&lines), "agent"),
        "Configuration: a (resolved)\nLocation: /p/a.json\n\nResolved Environment Variables:\n  (none)\n\nResolved Settings:\n  {\n    \"a\": 1\n  }\n\nResolved CLI Arguments:\n  (none)\n\nCommand that would be executed:\n  agent  --settings <temp-file>\n"
    );
    assert_eq!(show_plain("a", "/p", "{}"), "Configuration: a\nLocation: /p\n\n{}\n");
}

#[test]
fn providers_and_app_errors() {
    let p = Provider {
        api_endpoint: "https://api".to_string(),
        opus_model: "o".to_string(),
        sonnet_model: "s".to_string(),
        haiku_model: "h".to_string(),
    };
    let env = p.get_env_vars("key".to_string());
    assert_eq!(env[0], ("ANTHROPIC_BASE_URL".to_string(), "https://api".to_string()));
    assert_eq!(env[4], ("ANTHROPIC_AUTH_TOKEN".to_string(), "key".to_string()));
    assert_eq!(env.len(), 5);
    assert_eq!(AppError::ConfigFileNotFound("/c.json".to_string()).message(), "Config file '/c.json' not found");
    assert_eq!(AppError::ApiKeyNotFound("x".to_string()).message(), "API key not found for provider 'x'");
}

#[test]
fn cli_scopes() {
    assert_eq!(CliScope::Project.to_core(), Scope::Project);
    let cmd = PresetCommands::Edit { preset: "x".to_string(), scope: ScopeArgs { scope: CliScope::User } };
    assert_eq!(cmd.scope(), CliScope::User);
}

#[test]
fn file_errors_name_the_file() {
    let e = settings_read_error("/h/.claudio/settings.json", "denied".to_string());
    assert_eq!(e.message(), "Failed to read settings file: /h/.claudio/settings.json");
    assert_eq!(e.full_message(), "Failed to read settings file: /h/.claudio/settings.json: denied");
    let e = settings_parse_error("/s.json", "expected value at line 1 column 1".to_string());
    assert_eq!(e.full_message(), "Failed to parse settings file: /s.json: expected value at line 1 column 1");
    let e = preset_read_error("/p/a.json", "gone".to_string());
    assert_eq!(e.message(), "Failed to read preset file: /p/a.json");
    let e = preset_parse_error("/p/a.json", "missing field `name`");
    assert_eq!(
        e,
        ClaudioError::Message("Failed to parse preset file: /p/a.json\n\nParse error: missing field `name`".to_string())
    );
    assert!(ClaudioError::NoExecutable.message().starts_with("No executable to run."));
}

#[test]
fn which_reports_first_match_and_shadowed() {
    let dirs = vec!["/p".to_string(), "/u".to_string()];
    assert_eq!(which_output("a", &vec!["/p/a.json".to_string()], &dirs), Ok("/p/a.json\n".to_string()));
    assert_eq!(
        which_output("a", &vec!["/p/a.json".to_string(), "/u/a.json".to_string()], &dirs),
        Ok("/p/a.json\n\nNote: This preset shadows:\n  - /u/a.json\n".to_string())
    );
    assert_eq!(
        which_output("a", &vec![], &dirs),
        Err(ClaudioError::Message("Preset 'a' not found in:\n  - /p\n  - /u".to_string()))
    );
    assert_eq!(which_output("a", &vec![], &vec![]), Err(ClaudioError::Message("Preset 'a' not found in:".to_string())));
}
