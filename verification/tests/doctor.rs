use claudio::commands::doctor::{
    claude_executable_check, env_vars_check, env_vars_none_check, env_vars_skipped_check, inheritance_check,
    inheritance_none_check, no_presets_check, unconfigured_executable_check, hex16, parse_check_identifier, preset_dir_check, preset_validity_check, settings_check, CheckResult,
    CheckStatus, DoctorReport,
};
use claudio::env::EnvVars;
use claudio::error::ClaudioError;
use claudio::json::JsonValue;
use claudio::preset::types::{EnvValue, EnvValueSource, Preset, PresetSource};
use claudio::scope::Scope;

fn check(status: CheckStatus) -> CheckResult {
    CheckResult { name: "c".to_string(), status, message: "m".to_string(), details: None }
}

fn s(x: &str) -> JsonValue {
    JsonValue::Str(x.to_string())
}

fn obj(entries: Vec<(&str, JsonValue)>) -> JsonValue {
    JsonValue::Object(entries.into_iter().map(|(k, v)| (k.to_string(), v)).collect())
}

#[test]
fn report_counts_and_exit_code() {
    let mut report = DoctorReport::new();
    assert_eq!(report.exit_code(), 0);
    report.add_check(check(CheckStatus::Pass));
    assert_eq!(report.exit_code(), 0);
    report.add_check(check(CheckStatus::Warn));
    assert_eq!(report.exit_code(), 1);
    report.add_check(check(CheckStatus::Fail));
    assert_eq!(report.exit_code(), 2);
    report.add_check(check(CheckStatus::Pass));
    assert_eq!(report.exit_code(), 2);
    let summary = report.summary();
    assert_eq!((summary.pass, summary.warn, summary.fail), (2, 1, 1));
    assert_eq!(report.checks().len(), 4);
    assert_eq!(
        report.text(),
        "[OK]: m\n[WARN]: m\n[FAIL]: m\n[OK]: m\n\nSummary: 2 passed, 1 warning(s), 1 failed\nExit code: 2\n\n"
    );
}

#[test]
fn simple_checks() {
    let ok = claude_executable_check("agent", true, "Agent CLI");
    assert_eq!(ok.status, CheckStatus::Pass);
    assert_eq!(ok.message, "Agent CLI executable found");
    assert_eq!(ok.details, Some(obj(vec![("executable", s("agent"))])));
    let bad = claude_executable_check("nope", false, "Agent CLI");
    assert_eq!(bad.status, CheckStatus::Fail);
    assert_eq!(bad.message, "Agent CLI executable 'nope' not found or not executable");
    assert_eq!(
        bad.details,
        Some(obj(vec![("executable", s("nope")), ("suggestion", s("Install Agent CLI or configure the correct executable path"))]))
    );
    assert_eq!(settings_check(Scope::Project, Ok(Some(Ok(())))).message, "project settings file is valid");
    let missing = settings_check(Scope::User, Ok(None));
    assert_eq!((missing.name.as_str(), missing.status), ("settings_present_user", CheckStatus::Warn));
    let parse = settings_check(Scope::User, Err(ClaudioError::Message("bad".to_string())));
    assert_eq!((parse.name.as_str(), parse.message.as_str()), ("settings_parse_user", "Failed to parse user settings: bad"));
    let invalid = settings_check(Scope::Project, Ok(Some(Err(ClaudioError::Message("dup".to_string())))));
    assert_eq!(invalid.message, "project settings validation failed: dup");
    assert_eq!(no_presets_check().status, CheckStatus::Warn);
    assert_eq!(inheritance_none_check().name, "inheritance_none");
    assert_eq!(env_vars_skipped_check().name, "env_vars_skipped");
    assert_eq!(env_vars_none_check().name, "env_vars_none");
}

#[test]
fn directory_checks() {
    let c = preset_dir_check("project", Ok(vec![("/p".to_string(), true)]));
    assert_eq!((c.status, c.message.as_str()), (CheckStatus::Pass, "project preset directories exist"));
    assert_eq!(
        c.details,
        Some(obj(vec![("directories", JsonValue::Array(vec![obj(vec![("exists", JsonValue::Bool(true)), ("path", s("/p"))])]))]))
    );
    let c = preset_dir_check("user", Ok(vec![("/u".to_string(), false)]));
    assert_eq!((c.status, c.message.as_str()), (CheckStatus::Warn, "Some user preset directories are missing (optional)"));
    let c = preset_dir_check("user", Ok(vec![]));
    assert_eq!(c.status, CheckStatus::Fail);
    let c = preset_dir_check("project", Err(ClaudioError::ProjectRootNotFound));
    assert_eq!(c.message, "Failed to get preset directories for project scope: Failed to determine project root");
}

fn preset(name: &str) -> Preset {
    Preset { name: name.to_string(), description: None, extends: None, prompt: None, env: None, args: None, settings: None }
}

#[test]
fn validity_checks() {
    let c = preset_validity_check(&preset("ok"), Some("/p/ok.json"), None);
    assert_eq!((c.name.as_str(), c.status), ("preset_valid_ok", CheckStatus::Pass));
    assert_eq!(c.details, Some(obj(vec![("path", s("/p/ok.json"))])));
    let c = preset_validity_check(&preset("ok"), None, Some(Scope::Project));
    assert_eq!(c.name, "preset_valid_inline_project_ok");
    assert_eq!(c.details, Some(obj(vec![("origin", s("project"))])));
    let mut bad = preset("bad");
    bad.extends = Some("bad".to_string());
    bad.prompt = Some(String::new());
    let c = preset_validity_check(&bad, None, Some(Scope::User));
    assert_eq!(c.status, CheckStatus::Fail);
    assert_eq!(c.message, "Preset 'bad' validation failed: extends field must not reference itself");
    assert_eq!(
        c.details,
        Some(obj(vec![
            ("errors", JsonValue::Array(vec![s("extends field must not reference itself")])),
            ("origin", s("user")),
            ("warnings", JsonValue::Array(vec![s("prompt is empty")])),
        ]))
    );
    let mut warn = preset("w");
    warn.prompt = Some(String::new());
    let c = preset_validity_check(&warn, None, None);
    assert_eq!((c.status, c.message.as_str()), (CheckStatus::Warn, "Preset 'w' is valid but has warnings: prompt is empty"));
    assert_eq!(c.details, Some(obj(vec![("warnings", JsonValue::Array(vec![s("prompt is empty")]))])));
}

#[test]
fn inheritance_checks() {
    let c = inheritance_check("d", &Some("b".to_string()), None, Some("/p/d.json"), Ok(()));
    assert_eq!((c.status, c.message.as_str()), (CheckStatus::Pass, "Preset 'd' inheritance resolves correctly"));
    let e = ClaudioError::CircularInheritance(vec!["d".to_string(), "b".to_string(), "d".to_string()]);
    let c = inheritance_check("d", &Some("b".to_string()), Some(Scope::User), None, Err(e));
    assert_eq!(c.status, CheckStatus::Fail);
    assert_eq!(
        c.details,
        Some(obj(vec![("extends", s("b")), ("is_circular", JsonValue::Bool(true)), ("origin", s("user")), ("path", JsonValue::Null)]))
    );
    let c = inheritance_check("d", &None, None, None, Err(ClaudioError::CommandDenied));
    assert_eq!(c.message, "Preset 'd' inheritance failed: Command execution denied");
}

#[test]
fn environment_checks() {
    let mut p = preset("e");
    assert!(env_vars_check(&p, None, None, &PresetSource::Inline, &EnvVars { vars: vec![] }, None, None, &vec![]).is_none());
    p.env = Some(vec![
        ("A".to_string(), EnvValue::Direct("${ZZ}${SET}${AA}${ZZ}".to_string())),
        ("B".to_string(), EnvValue::Structured { source: EnvValueSource::Env { var: "MM".to_string() } }),
        ("C".to_string(), EnvValue::Structured { source: EnvValueSource::File { path: "k.txt".to_string() } }),
        ("D".to_string(), EnvValue::Structured { source: EnvValueSource::Command { command: "echo".to_string(), confirm: None } }),
    ]);
    let env = EnvVars { vars: vec![("SET".to_string(), "1".to_string())] };
    let src = PresetSource::File("/p/e.json".to_string());
    let c = env_vars_check(&p, None, Some("/p/e.json"), &src, &env, None, None, &vec![true, true, false, true]).unwrap();
    assert_eq!(c.status, CheckStatus::Warn);
    assert_eq!(c.message, "Preset 'e' has environment values that could not be validated");
    assert_eq!(
        c.details,
        Some(obj(vec![
            ("command_values", JsonValue::Array(vec![obj(vec![("command", s("echo")), ("confirm", JsonValue::Null), ("key", s("D"))])])),
            ("missing_env_vars", JsonValue::Array(vec![s("AA"), s("MM"), s("ZZ")])),
            ("missing_files", JsonValue::Array(vec![obj(vec![("key", s("C")), ("path", s("k.txt")), ("resolved_path", s("/p/k.txt"))])])),
            ("origin", JsonValue::Null),
            ("path", s("/p/e.json")),
        ]))
    );
    let mut q = preset("q");
    q.env = Some(vec![("A".to_string(), EnvValue::Direct("${SET}".to_string()))]);
    let c = env_vars_check(&q, Some(Scope::Project), None, &PresetSource::Inline, &env, None, None, &vec![true]).unwrap();
    assert_eq!((c.status, c.message.as_str()), (CheckStatus::Pass, "Preset 'q' has no missing environment variables"));
    assert_eq!(c.details, Some(obj(vec![("origin", s("project"))])));
}

#[test]
fn unconfigured_executable_fails() {
    let c = unconfigured_executable_check();
    assert_eq!(c.name, "claude_executable");
    assert_eq!(c.status, CheckStatus::Fail);
    assert_eq!(c.message, ClaudioError::NoExecutable.full_message());
    assert_eq!(c.details, None);
}

#[test]
fn parse_check_identifiers() {
    assert_eq!(hex16(0), "0000000000000000");
    assert_eq!(hex16(0xdead_beef), "00000000deadbeef");
    assert_eq!(hex16(u64::MAX), "ffffffffffffffff");
    assert_eq!(hex16(0x0123_4567_89ab_cdef), format!("{:016x}", 0x0123_4567_89ab_cdefu64));
    assert_eq!(parse_check_identifier("/p/web.json", 255), "web_00000000000000ff");
    assert_eq!(parse_check_identifier("/", 1), "0000000000000001");
}

fn doctor_preset(p: Preset, origin: Option<Scope>, path: Option<&str>) -> claudio::commands::doctor::DoctorPreset {
    let source = match path {
        Some(x) => PresetSource::File(x.to_string()),
        None => PresetSource::Inline,
    };
    claudio::commands::doctor::DoctorPreset { preset: p, source, origin, path: path.map(|x| x.to_string()) }
}

#[test]
fn doctor_check_sequences() {
    assert_eq!(claudio::commands::doctor::settings_check_scopes(Scope::Auto), vec![Scope::Project, Scope::User]);
    assert_eq!(claudio::commands::doctor::settings_check_scopes(Scope::User), vec![Scope::User]);

    let none: Vec<claudio::commands::doctor::DoctorPreset> = vec![];
    let v = claudio::commands::doctor::validity_checks(&none);
    assert_eq!((v.len(), v[0].name.as_str(), v[0].status), (1, "presets_found", CheckStatus::Warn));
    let i = claudio::commands::doctor::inheritance_checks(&none, vec![]);
    assert_eq!((i.len(), i[0].name.as_str()), (1, "inheritance_none"));
    let env = EnvVars { vars: vec![] };
    let e = claudio::commands::doctor::env_checks(&none, true, &env, None, None, &vec![]);
    assert_eq!(e[0].name, "env_vars_none");
    let e = claudio::commands::doctor::env_checks(&none, false, &env, None, None, &vec![]);
    assert_eq!(e[0].name, "env_vars_skipped");

    let mut child = preset("child");
    child.extends = Some("base".to_string());
    child.env = Some(vec![("K".to_string(), EnvValue::Direct("${MISSING_X}".to_string()))]);
    let presets = vec![
        doctor_preset(preset("base"), None, Some("/p/base.json")),
        doctor_preset(child, Some(Scope::User), None),
    ];
    let v = claudio::commands::doctor::validity_checks(&presets);
    assert_eq!(v.len(), 2);
    assert_eq!(v[0].name, "preset_valid_base");
    assert_eq!(v[1].name, "preset_valid_inline_user_child");
    let i = claudio::commands::doctor::inheritance_checks(&presets, vec![Err(ClaudioError::CircularInheritance(vec!["child".to_string(), "child".to_string()]))]);
    assert_eq!(i.len(), 1);
    assert_eq!(i[0].name, "inheritance_child");
    assert_eq!(i[0].status, CheckStatus::Fail);
    let e = claudio::commands::doctor::env_checks(&presets, true, &env, None, None, &vec![vec![], vec![true]]);
    assert_eq!(e.len(), 1);
    assert_eq!(e[0].name, "env_vars_child");
    assert_eq!(e[0].status, CheckStatus::Warn);
    let e = claudio::commands::doctor::env_checks(&presets, false, &env, None, None, &vec![vec![], vec![true]]);
    assert_eq!(e[0].name, "env_vars_skipped");
}
