use claudio::commands::run::{
    build_dry_run_command, check_user_scope_allowed, choose_preset, claude_command_args, dry_run_line,
    effective_dry_run_show_env, effective_require_preset, resolve_claude_executable, run_exit_code, shell_escape, PresetChoice,
};
use claudio::error::ClaudioError;
use claudio::preset::types::{PresetSource, ResolvedPreset};
use claudio::scope::Scope;
use claudio::settings::Settings;

#[test]
fn shell_escape_allows_common_url_chars() {
    assert_eq!(shell_escape("https://example.com"), "https://example.com");
    assert_eq!(shell_escape("http://localhost:8080"), "http://localhost:8080");
}

#[test]
fn shell_escape_allows_equals() {
    assert_eq!(shell_escape("key=value"), "key=value");
}

#[test]
fn shell_escape_quotes_spaces() {
    assert_eq!(shell_escape("hello world"), "'hello world'");
}

#[test]
fn shell_escape_escapes_single_quotes() {
    assert_eq!(shell_escape("O'Reilly"), "'O'\\''Reilly'");
}

#[test]
fn build_dry_run_command_no_args_no_env() {
    let env: Vec<(String, String)> = vec![];
    let args: Vec<String> = vec![];
    assert_eq!(build_dry_run_command(&env, &args, true, "agent"), "agent");
}

#[test]
fn build_dry_run_command_with_env_vars_sorted() {
    let env: Vec<(String, String)> = vec![("B".to_string(), "2".to_string()), ("A".to_string(), "1".to_string())];
    let args: Vec<String> = vec![];
    assert_eq!(build_dry_run_command(&env, &args, true, "agent"), "A=1 B=2 agent");
}

#[test]
fn build_dry_run_command_show_env_false_omits_env() {
    let env: Vec<(String, String)> = vec![("A".to_string(), "1".to_string())];
    let args: Vec<String> = vec![];
    assert_eq!(build_dry_run_command(&env, &args, false, "agent"), "agent");
}

#[test]
fn build_dry_run_command_with_special_chars_in_args() {
    let env: Vec<(String, String)> = vec![];
    let args: Vec<String> = vec!["--msg".to_string(), "hello world".to_string(), "O'Reilly".to_string()];
    assert_eq!(
        build_dry_run_command(&env, &args, false, "agent"),
        "agent --msg 'hello world' 'O'\\''Reilly'"
    );
}

#[test]
fn build_dry_run_command_with_custom_executable() {
    let env: Vec<(String, String)> = vec![];
    let args: Vec<String> = vec!["--help".to_string()];
    assert_eq!(
        build_dry_run_command(&env, &args, false, "/usr/local/bin/agent"),
        "/usr/local/bin/agent --help"
    );
}

#[test]
fn build_dry_run_command_with_custom_executable_and_env() {
    let env: Vec<(String, String)> = vec![("MY_VAR".to_string(), "value".to_string())];
    let args: Vec<String> = vec![];
    assert_eq!(build_dry_run_command(&env, &args, true, "/path/to/agent"), "MY_VAR=value /path/to/agent");
}

#[test]
fn shell_escape_edge_cases() {
    assert_eq!(shell_escape(""), "''");
    assert_eq!(shell_escape("a$b"), "'a$b'");
    assert_eq!(shell_escape("émoji"), "émoji");
    assert_eq!(shell_escape("a\\b"), "'a\\b'");
    assert_eq!(shell_escape("''"), "''\\'''\\'''");
}

#[test]
fn dry_run_sorts_and_quotes_env_values() {
    let env = vec![
        ("Z".to_string(), "last value".to_string()),
        ("AB".to_string(), "x".to_string()),
        ("A".to_string(), "it's".to_string()),
    ];
    let args = vec!["".to_string()];
    assert_eq!(build_dry_run_command(&env, &args, true, "my agent"), "A='it'\\''s' AB=x Z='last value' 'my agent' ''");
}

fn settings_with(f: impl FnOnce(&mut Settings)) -> Settings {
    let mut s = Settings::empty();
    f(&mut s);
    s
}

#[test]
fn preset_choice_order() {
    assert_eq!(
        choose_preset(Some("x"), Err(ClaudioError::ProjectRootNotFound), Ok(false), true),
        Ok(PresetChoice::Given("x".to_string()))
    );
    assert_eq!(
        choose_preset(None, Ok(Some("d".to_string())), Err(ClaudioError::HomeDirUnknown), false),
        Ok(PresetChoice::FromSettings("d".to_string()))
    );
    assert_eq!(choose_preset(None, Ok(None), Ok(true), true), Ok(PresetChoice::DefaultFile));
    assert_eq!(choose_preset(None, Ok(None), Ok(false), false), Ok(PresetChoice::Direct));
    assert_eq!(choose_preset(None, Ok(None), Ok(false), true), Err(ClaudioError::NoPresetAvailable));
    assert_eq!(
        choose_preset(None, Err(ClaudioError::HomeDirUnknown), Ok(true), false),
        Err(ClaudioError::HomeDirUnknown)
    );
    assert_eq!(
        choose_preset(None, Ok(None), Err(ClaudioError::CommandDenied), false),
        Err(ClaudioError::CommandDenied)
    );
}

#[test]
fn require_preset_and_executable_precedence() {
    assert_eq!(effective_require_preset(true, Err(ClaudioError::HomeDirUnknown)), Ok(true));
    assert_eq!(effective_require_preset(false, Ok(Some(true))), Ok(true));
    assert_eq!(effective_require_preset(false, Ok(None)), Ok(false));
    assert_eq!(effective_require_preset(false, Err(ClaudioError::HomeDirUnknown)), Err(ClaudioError::HomeDirUnknown));

    assert_eq!(resolve_claude_executable(Some("cli"), Some("env".to_string()), Ok(Some("set".to_string()))), Some("cli".to_string()));
    assert_eq!(resolve_claude_executable(None, Some("env".to_string()), Ok(Some("set".to_string()))), Some("env".to_string()));
    assert_eq!(resolve_claude_executable(None, None, Ok(Some("set".to_string()))), Some("set".to_string()));
    assert_eq!(resolve_claude_executable(None, None, Err(ClaudioError::HomeDirUnknown)), None);
    assert_eq!(resolve_claude_executable(None, None, Ok(None)), None);
}

#[test]
fn user_scope_refused_when_project_ignores_users() {
    let ignoring = settings_with(|s| s.ignore_user_presets = Some(true));
    assert_eq!(check_user_scope_allowed(Scope::User, Ok(Some(ignoring.clone()))), Err(ClaudioError::UserScopeIgnored));
    assert_eq!(check_user_scope_allowed(Scope::Auto, Ok(Some(ignoring))), Ok(()));
    assert_eq!(check_user_scope_allowed(Scope::User, Ok(None)), Ok(()));
    assert_eq!(check_user_scope_allowed(Scope::User, Err(ClaudioError::HomeDirUnknown)), Ok(()));
}

#[test]
fn command_args_and_exit_code() {
    let preset_args = vec!["--model".to_string(), "opus".to_string()];
    let extra = vec!["-p".to_string()];
    assert_eq!(
        claude_command_args(&preset_args, Some("/tmp/s.json"), &extra, Some("do it")),
        vec!["--model", "opus", "--settings", "/tmp/s.json", "-p", "do it"]
    );
    assert_eq!(claude_command_args(&vec![], None, &vec![], None), Vec::<String>::new());
    assert_eq!(run_exit_code(Some(0)), 0);
    assert_eq!(run_exit_code(Some(3)), 3);
    assert_eq!(run_exit_code(Some(300)), 255);
    assert_eq!(run_exit_code(Some(-1)), 0);
    assert_eq!(run_exit_code(None), 1);
}

#[test]
fn dry_run_shows_env_unless_settings_say_no() {
    assert_eq!(effective_dry_run_show_env(Ok(None)), Ok(true));
    assert_eq!(effective_dry_run_show_env(Ok(Some(false))), Ok(false));
    assert_eq!(effective_dry_run_show_env(Ok(Some(true))), Ok(true));
    assert_eq!(effective_dry_run_show_env(Err(ClaudioError::ProjectRootNotFound)), Err(ClaudioError::ProjectRootNotFound));
}

#[test]
fn dry_run_line_of_a_resolved_preset() {
    let resolved = ResolvedPreset {
        name: "p".to_string(),
        description: None,
        prompt: Some("do it".to_string()),
        env: vec![("B".to_string(), "2".to_string()), ("A".to_string(), "x y".to_string())],
        args: vec!["--model".to_string(), "m".to_string()],
        settings: None,
        source: PresetSource::Inline,
    };
    let extra = vec!["-v".to_string()];
    assert_eq!(
        dry_run_line(&resolved, Some("/tmp/s.json"), &extra, Ok(None), "agent"),
        Ok("A='x y' B=2 agent --model m --settings /tmp/s.json -v 'do it'".to_string())
    );
    assert_eq!(
        dry_run_line(&resolved, None, &extra, Ok(Some(false)), "agent"),
        Ok("agent --model m -v 'do it'".to_string())
    );
    assert_eq!(
        dry_run_line(&resolved, None, &extra, Err(ClaudioError::HomeDirUnknown), "agent"),
        Err(ClaudioError::HomeDirUnknown)
    );
}
