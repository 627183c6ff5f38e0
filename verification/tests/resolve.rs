use claudio::env::{extract_variable_references, get_required_env_var, substitute_env_vars, EnvVars};
use claudio::error::ClaudioError;
use claudio::json::{merge_json_settings, resolve_settings_variables, JsonValue};
use claudio::preset::inheritance::{resolve_level, ChainStep, InheritanceChain};
use claudio::preset::resolve::{
    authorize_command, confirmation_outcome, insert_env, merge_env, plan_env_value,
    resolve_file_path_for_source, should_confirm_command, ConfirmCommand, ConfirmCommandRequest,
    command_value, file_value, CommandRun, EnvValuePlan, ResolverConfig,
};
use claudio::preset::types::{EnvValue, EnvValueSource, Preset, PresetSource, ResolvedPreset};
use claudio::preset::variables::{EnvResolution, EnvStep};

fn vars(pairs: &[(&str, &str)]) -> EnvVars {
    EnvVars { vars: pairs.iter().map(|(k, v)| (k.to_string(), v.to_string())).collect() }
}

fn num(n: &str) -> JsonValue {
    JsonValue::Number(n.to_string())
}

fn s(x: &str) -> JsonValue {
    JsonValue::Str(x.to_string())
}

fn obj(entries: Vec<(&str, JsonValue)>) -> JsonValue {
    JsonValue::Object(entries.into_iter().map(|(k, v)| (k.to_string(), v)).collect())
}

fn preset(name: &str) -> Preset {
    Preset { name: name.to_string(), description: None, extends: None, prompt: None, env: None, args: None, settings: None }
}

fn resolve_alone(p: &Preset, env: &EnvVars) -> Result<ResolvedPreset, ClaudioError> {
    let mut chain = InheritanceChain::start(p.clone(), PresetSource::Inline);
    chain.env_resolved(Ok(vec![]));
    assert!(matches!(chain.step, ChainStep::Finished));
    chain.finish(env)
}

#[test]
fn test_prompt_normalized_to_none_when_empty_or_whitespace() {
    let mut p = preset("test");
    p.prompt = Some("   ".to_string());
    assert!(resolve_alone(&p, &vars(&[])).unwrap().prompt.is_none());
    p.prompt = Some(String::new());
    assert!(resolve_alone(&p, &vars(&[])).unwrap().prompt.is_none());
    p.prompt = Some("  do it \n".to_string());
    assert_eq!(resolve_alone(&p, &vars(&[])).unwrap().prompt, Some("do it".to_string()));
}

#[test]
fn test_resolve_settings_value_primitives() {
    let env = vars(&[]);
    assert_eq!(resolve_settings_variables(&num("42"), &env).unwrap(), num("42"));
    assert_eq!(resolve_settings_variables(&num("3.15"), &env).unwrap(), num("3.15"));
    assert_eq!(resolve_settings_variables(&JsonValue::Bool(true), &env).unwrap(), JsonValue::Bool(true));
    assert_eq!(resolve_settings_variables(&JsonValue::Null, &env).unwrap(), JsonValue::Null);
}

#[test]
fn test_resolve_settings_value_string_no_vars() {
    let result = resolve_settings_variables(&s("plain string"), &vars(&[])).unwrap();
    assert_eq!(result, s("plain string"));
}

#[test]
fn test_resolve_settings_value_string_with_var() {
    let env = vars(&[("TEST_SETTING_VAR", "resolved_value")]);
    let result = resolve_settings_variables(&s("prefix_${TEST_SETTING_VAR}_suffix"), &env).unwrap();
    assert_eq!(result, s("prefix_resolved_value_suffix"));
}

#[test]
fn test_resolve_settings_value_array() {
    let env = vars(&[("TEST_ARRAY_VAR", "array_value")]);
    let input = JsonValue::Array(vec![s("${TEST_ARRAY_VAR}"), s("static")]);
    let result = resolve_settings_variables(&input, &env).unwrap();
    assert_eq!(result, JsonValue::Array(vec![s("array_value"), s("static")]));
}

#[test]
fn test_resolve_settings_value_nested_object() {
    let env = vars(&[("TEST_NESTED_VAR", "deep_value")]);
    let input = obj(vec![("level1", obj(vec![("level2", s("${TEST_NESTED_VAR}"))]))]);
    let result = resolve_settings_variables(&input, &env).unwrap();
    assert_eq!(result, obj(vec![("level1", obj(vec![("level2", s("deep_value"))]))]));
}

#[test]
fn test_resolve_settings_value_missing_var() {
    let result = resolve_settings_variables(&s("${MISSING_SETTINGS_VAR_99999}"), &vars(&[]));
    assert!(result.is_err());
    let msg = result.unwrap_err().message();
    assert!(msg.contains("Environment variable 'MISSING_SETTINGS_VAR_99999' is not set"));
    assert!(msg.contains("export MISSING_SETTINGS_VAR_99999=your_value"));
}

#[test]
fn test_resolve_settings_variables_object() {
    let env = vars(&[("TEST_OBJ_VAR", "obj_value")]);
    let input = obj(vec![("key1", s("static")), ("key2", s("${TEST_OBJ_VAR}"))]);
    let result = resolve_settings_variables(&input, &env).unwrap();
    assert_eq!(result, obj(vec![("key1", s("static")), ("key2", s("obj_value"))]));
}

#[test]
fn test_merge_json_settings_both_none() {
    assert!(merge_json_settings(None, None).is_none());
}

#[test]
fn test_merge_json_settings_base_only() {
    let base = Some(obj(vec![("a", num("1"))]));
    assert_eq!(merge_json_settings(base.clone(), None), base);
}

#[test]
fn test_merge_json_settings_derived_only() {
    let derived = Some(obj(vec![("a", num("1"))]));
    assert_eq!(merge_json_settings(None, derived.clone()), derived);
}

#[test]
fn test_merge_json_settings_shallow_merge() {
    let base = Some(obj(vec![("a", num("1")), ("b", num("2"))]));
    let derived = Some(obj(vec![("b", num("3"))]));
    let merged = merge_json_settings(base, derived);
    assert_eq!(merged, Some(obj(vec![("a", num("1")), ("b", num("3"))])));
}

#[test]
fn test_merge_json_settings_deep_merge() {
    let base = Some(obj(vec![("obj", obj(vec![("a", num("1")), ("b", num("2"))]))]));
    let derived = Some(obj(vec![("obj", obj(vec![("b", num("3")), ("c", num("4"))]))]));
    let merged = merge_json_settings(base, derived);
    assert_eq!(merged, Some(obj(vec![("obj", obj(vec![("a", num("1")), ("b", num("3")), ("c", num("4"))]))])));
}

#[test]
fn test_merge_json_settings_derived_non_object_overrides() {
    let base = Some(obj(vec![("a", num("1"))]));
    let derived = Some(s("string"));
    let merged = merge_json_settings(base, derived);
    assert_eq!(merged, Some(s("string")));
}

#[test]
fn merge_over_itself_changes_nothing() {
    let v = obj(vec![("a", obj(vec![("x", num("1"))])), ("b", JsonValue::Array(vec![s("y")]))]);
    assert_eq!(merge_json_settings(Some(v.clone()), Some(v.clone())), Some(v));
}

#[test]
fn test_inheritance_resolution() {
    let mut base = preset("base");
    base.args = Some(vec!["--base-arg".to_string()]);
    base.settings = Some(obj(vec![("a", num("1")), ("b", num("2"))]));
    let mut derived = preset("derived");
    derived.extends = Some("base".to_string());
    derived.args = Some(vec!["--derived-arg".to_string()]);
    derived.settings = Some(obj(vec![("b", num("3"))]));

    let mut chain = InheritanceChain::start(derived, PresetSource::File("/p/derived.json".to_string()));
    chain.env_resolved(Ok(vec![
        ("VAR2".to_string(), "derived_value".to_string()),
        ("VAR3".to_string(), "only_derived".to_string()),
    ]));
    assert!(matches!(&chain.step, ChainStep::FindBase(n) if n == "base"));
    chain.base_found(Ok((base, PresetSource::File("/p/base.json".to_string()))));
    assert!(matches!(chain.step, ChainStep::ResolveEnv));
    assert_eq!(chain.pending().0.name, "base");
    chain.env_resolved(Ok(vec![
        ("VAR1".to_string(), "base_value".to_string()),
        ("VAR2".to_string(), "base_value2".to_string()),
    ]));
    assert!(matches!(chain.step, ChainStep::Finished));
    let resolved = chain.finish(&vars(&[])).unwrap();
    let get = |k: &str| resolved.env.iter().find(|(n, _)| n == k).map(|(_, v)| v.clone());
    assert_eq!(get("VAR1"), Some("base_value".to_string()));
    assert_eq!(get("VAR2"), Some("derived_value".to_string()));
    assert_eq!(get("VAR3"), Some("only_derived".to_string()));
    assert_eq!(resolved.env.len(), 3);
    assert_eq!(resolved.args, vec!["--base-arg", "--derived-arg"]);
    assert_eq!(resolved.settings, Some(obj(vec![("a", num("1")), ("b", num("3"))])));
    assert_eq!(resolved.name, "derived");
    assert_eq!(resolved.source, PresetSource::File("/p/derived.json".to_string()));
}

#[test]
fn test_circular_inheritance_detection() {
    let mut a = preset("preset-a");
    a.extends = Some("preset-b".to_string());
    let mut b = preset("preset-b");
    b.extends = Some("preset-a".to_string());
    let mut chain = InheritanceChain::start(a.clone(), PresetSource::Inline);
    chain.env_resolved(Ok(vec![]));
    chain.base_found(Ok((b, PresetSource::Inline)));
    chain.env_resolved(Ok(vec![]));
    chain.base_found(Ok((a, PresetSource::Inline)));
    match &chain.step {
        ChainStep::Failed(e) => {
            let msg = e.message();
            assert!(msg.contains("Circular"));
            assert!(msg.contains("preset-a -> preset-b -> preset-a"));
        },
        _ => panic!("expected a failure"),
    }
}

#[test]
fn test_self_referencing_extends() {
    let mut p = preset("self-ref");
    p.extends = Some("self-ref".to_string());
    let mut chain = InheritanceChain::start(p.clone(), PresetSource::Inline);
    chain.env_resolved(Ok(vec![]));
    chain.base_found(Ok((p, PresetSource::Inline)));
    match &chain.step {
        ChainStep::Failed(e) => {
            let error = e.message();
            assert!(error.contains("Circular inheritance") || error.contains("Circular"), "Unexpected error message: {}", error);
        },
        _ => panic!("expected a failure"),
    }
}

#[test]
fn test_resolved_preset_includes_settings() {
    let mut p = preset("with-settings");
    p.settings = Some(obj(vec![("model", s("${MODEL}")), ("n", num("2"))]));
    let resolved = resolve_alone(&p, &vars(&[("MODEL", "sonnet")])).unwrap();
    assert_eq!(resolved.settings, Some(obj(vec![("model", s("sonnet")), ("n", num("2"))])));
    let err = resolve_alone(&p, &vars(&[])).unwrap_err();
    assert_eq!(err, ClaudioError::MissingEnvVar("MODEL".to_string()));
}

#[test]
fn missing_base_and_env_failures() {
    let mut p = preset("d");
    p.extends = Some("nope".to_string());
    let mut chain = InheritanceChain::start(p.clone(), PresetSource::Inline);
    chain.env_resolved(Ok(vec![]));
    chain.base_found(Err(ClaudioError::PresetNotFound { name: "nope".to_string(), searched: vec!["/d".to_string()] }));
    match &chain.step {
        ChainStep::Failed(e) => {
            assert_eq!(e.message(), "Failed to find base preset: nope");
            assert!(e.full_message().contains("Preset 'nope' not found.\n\nSearched in:\n  - /d"));
        },
        _ => panic!("expected a failure"),
    }
    let mut chain = InheritanceChain::start(p, PresetSource::Inline);
    chain.env_resolved(Err(ClaudioError::MissingEnvVar("X".to_string())));
    assert!(matches!(&chain.step, ChainStep::Failed(ClaudioError::MissingEnvVar(n)) if n == "X"));
}

#[test]
fn level_resolution_merges_over_base() {
    let base = ResolvedPreset {
        name: "b".to_string(),
        description: None,
        prompt: None,
        env: vec![("K".to_string(), "base".to_string()), ("B".to_string(), "1".to_string())],
        args: vec!["--b".to_string()],
        settings: None,
        source: PresetSource::Inline,
    };
    let mut p = preset("d");
    p.description = Some("desc".to_string());
    p.args = Some(vec!["--d".to_string()]);
    let env = vec![("K".to_string(), "derived".to_string())];
    let r = resolve_level(&p, &PresetSource::Inline, &env, Some(base), &vars(&[])).unwrap();
    assert_eq!(r.env, vec![("K".to_string(), "derived".to_string()), ("B".to_string(), "1".to_string())]);
    assert_eq!(r.args, vec!["--b", "--d"]);
    assert_eq!(r.description, Some("desc".to_string()));
    assert_eq!(r.settings, None);
}

#[test]
fn env_maps_insert_and_merge() {
    let mut env = vec![("A".to_string(), "1".to_string())];
    insert_env(&mut env, "B".to_string(), "2".to_string());
    insert_env(&mut env, "A".to_string(), "3".to_string());
    assert_eq!(env, vec![("A".to_string(), "3".to_string()), ("B".to_string(), "2".to_string())]);
    let base = vec![("B".to_string(), "x".to_string()), ("C".to_string(), "y".to_string())];
    assert_eq!(
        merge_env(&env, &base),
        vec![("A".to_string(), "3".to_string()), ("B".to_string(), "2".to_string()), ("C".to_string(), "y".to_string())]
    );
}

#[test]
fn file_paths_resolve_against_source() {
    let file = PresetSource::File("/proj/.claudio/presets/a.json".to_string());
    assert_eq!(
        resolve_file_path_for_source("secret.txt", &file, Some("/home/u"), Some("/cwd")),
        Ok("/proj/.claudio/presets/secret.txt".to_string())
    );
    assert_eq!(resolve_file_path_for_source("/abs/x", &file, None, None), Ok("/abs/x".to_string()));
    assert_eq!(resolve_file_path_for_source("~/x", &file, Some("/home/u"), None), Ok("/home/u/x".to_string()));
    assert_eq!(resolve_file_path_for_source("~", &file, Some("/home/u"), None), Ok("/home/u/".to_string()));
    assert_eq!(resolve_file_path_for_source("~/x", &file, None, None), Err(ClaudioError::HomeDirUnknown));
    assert_eq!(
        resolve_file_path_for_source("rel/x", &PresetSource::Inline, None, Some("/cwd")),
        Ok("/cwd/rel/x".to_string())
    );
    assert_eq!(
        resolve_file_path_for_source("rel/x", &PresetSource::Inline, None, None),
        Err(ClaudioError::CurrentDirUnknown)
    );
    assert_eq!(
        resolve_file_path_for_source("x", &PresetSource::File("/".to_string()), None, None),
        Err(ClaudioError::NoParentDirectory)
    );
    assert_eq!(
        resolve_file_path_for_source("x", &PresetSource::File("a.json".to_string()), None, None),
        Ok("x".to_string())
    );
}

struct Answer(Result<bool, ClaudioError>);

impl ConfirmCommand for Answer {
    fn confirm_command(&self, _request: ConfirmCommandRequest<'_>) -> Result<bool, ClaudioError> {
        match &self.0 {
            Ok(b) => Ok(*b),
            Err(_) => Err(ClaudioError::Message("stdin closed".to_string())),
        }
    }
}

#[test]
fn command_confirmation() {
    let none: ResolverConfig<Answer> = ResolverConfig::new();
    assert!(should_confirm_command(None, &none));
    assert!(!should_confirm_command(Some(false), &none));
    assert_eq!(
        authorize_command("KEY", "ls", None, &none),
        Err(ClaudioError::ConfirmationUnavailable("KEY".to_string()))
    );
    assert_eq!(authorize_command("KEY", "ls", Some(false), &none), Ok(()));
    let skip = ResolverConfig { skip_command_confirmation: true, confirm_command: Some(Answer(Ok(false))) };
    assert_eq!(authorize_command("KEY", "ls", None, &skip), Ok(()));
    assert_eq!(authorize_command("KEY", "ls", Some(true), &skip), Err(ClaudioError::CommandDenied));
    let yes = ResolverConfig { skip_command_confirmation: false, confirm_command: Some(Answer(Ok(true))) };
    assert_eq!(authorize_command("KEY", "ls", None, &yes), Ok(()));
    assert_eq!(confirmation_outcome(Ok(false)), Err(ClaudioError::CommandDenied));
    assert_eq!(confirmation_outcome(Err(ClaudioError::CommandDenied)), Err(ClaudioError::CommandDenied));
}

struct Recorder {
    asked: std::cell::RefCell<Vec<String>>,
    answer: bool,
}

impl ConfirmCommand for Recorder {
    fn confirm_command(&self, request: ConfirmCommandRequest<'_>) -> Result<bool, ClaudioError> {
        self.asked.borrow_mut().push(request.command.to_string());
        Ok(self.answer)
    }
}

#[test]
fn the_confirmer_is_asked_about_the_command() {
    let no = ResolverConfig {
        skip_command_confirmation: false,
        confirm_command: Some(Recorder { asked: std::cell::RefCell::new(Vec::new()), answer: false }),
    };
    assert_eq!(authorize_command("KEY", "rm -rf x", None, &no), Err(ClaudioError::CommandDenied));
    assert_eq!(no.confirm_command.as_ref().unwrap().asked.borrow().clone(), vec!["rm -rf x".to_string()]);
    let quiet = ResolverConfig {
        skip_command_confirmation: false,
        confirm_command: Some(Recorder { asked: std::cell::RefCell::new(Vec::new()), answer: false }),
    };
    assert_eq!(authorize_command("KEY", "ls", Some(false), &quiet), Ok(()));
    assert!(quiet.confirm_command.as_ref().unwrap().asked.borrow().is_empty());
    let broken = ResolverConfig { skip_command_confirmation: false, confirm_command: Some(Answer(Err(ClaudioError::CommandDenied))) };
    assert_eq!(
        authorize_command("KEY", "ls", None, &broken),
        Err(ClaudioError::Message("stdin closed".to_string()))
    );
}

#[test]
fn env_value_plans() {
    let env = vars(&[("A", "1"), ("HOME_X", "h")]);
    let src = PresetSource::File("/p/x.json".to_string());
    let plan = |v: EnvValue| plan_env_value(&v, &src, &env, Some("/home/u"), Some("/c"));
    assert_eq!(plan(EnvValue::Direct("v=${A}".to_string())), Ok(EnvValuePlan::Ready("v=1".to_string())));
    assert_eq!(plan(EnvValue::Direct("${NOPE}".to_string())), Err(ClaudioError::MissingEnvVar("NOPE".to_string())));
    let st = |source| EnvValue::Structured { source };
    assert_eq!(plan(st(EnvValueSource::Value { value: "${A}".to_string() })), Ok(EnvValuePlan::Ready("${A}".to_string())));
    assert_eq!(plan(st(EnvValueSource::Env { var: "HOME_X".to_string() })), Ok(EnvValuePlan::Ready("h".to_string())));
    assert_eq!(plan(st(EnvValueSource::Env { var: "Q".to_string() })), Err(ClaudioError::MissingEnvVar("Q".to_string())));
    assert_eq!(plan(st(EnvValueSource::File { path: "k".to_string() })), Ok(EnvValuePlan::ReadFile("/p/k".to_string())));
    assert_eq!(
        plan(st(EnvValueSource::Command { command: "echo".to_string(), confirm: Some(true) })),
        Ok(EnvValuePlan::RunCommand { command: "echo".to_string(), confirm: Some(true) })
    );
}

#[test]
fn variable_substitution() {
    let env = vars(&[("USER", "me"), ("HOST", "example.com")]);
    assert_eq!(substitute_env_vars("${USER}@${HOST}", &env), Ok("me@example.com".to_string()));
    assert_eq!(substitute_env_vars("no refs $USER ${lower}", &env), Ok("no refs $USER ${lower}".to_string()));
    assert_eq!(substitute_env_vars("${MISSING}", &env), Err(ClaudioError::MissingEnvVar("MISSING".to_string())));
    assert_eq!(extract_variable_references("${A}${B_2} ${c} ${_X}"), vec!["A", "B_2", "_X"]);
    assert_eq!(get_required_env_var("USER", &env), Ok("me".to_string()));
    let err = get_required_env_var("NOPE", &env).unwrap_err();
    assert_eq!(err.message(), "Environment variable 'NOPE' is not set.\n\nSet it with:\n  export NOPE=your_value");
}

#[test]
fn file_and_command_outcomes() {
    assert_eq!(file_value("/k", Ok("secret\n\n".to_string())), Ok("secret".to_string()));
    let e = file_value("/k", Err("No such file or directory (os error 2)".to_string())).unwrap_err();
    assert_eq!(e.full_message(), "Failed to read file: /k: No such file or directory (os error 2)");
    let ok = CommandRun::Finished { success: true, code: Some(0), stdout: Ok(" tok \n".to_string()), stderr: String::new() };
    assert_eq!(command_value("echo tok", ok), Ok(" tok".to_string()));
    let failed = CommandRun::Finished { success: false, code: Some(3), stdout: Ok(String::new()), stderr: "boom\n".to_string() };
    assert_eq!(
        command_value("false", failed),
        Err(ClaudioError::Message("Command failed with exit code Some(3): false\n\nstderr:\nboom".to_string()))
    );
    let killed = CommandRun::Finished { success: false, code: None, stdout: Ok(String::new()), stderr: String::new() };
    assert_eq!(command_value("x", killed).unwrap_err().message(), "Command failed with exit code None: x\n\nstderr:\n");
    let negative = CommandRun::Finished { success: false, code: Some(-12), stdout: Ok(String::new()), stderr: String::new() };
    assert_eq!(command_value("x", negative).unwrap_err().message(), format!("Command failed with exit code {:?}: x\n\nstderr:\n", Some(-12)));
    let not_started = command_value("x", CommandRun::NotStarted("denied".to_string())).unwrap_err();
    assert_eq!(not_started.full_message(), "Failed to execute command: x: denied");
    let bad_utf8 = CommandRun::Finished { success: true, code: Some(0), stdout: Err("invalid utf-8".to_string()), stderr: String::new() };
    assert_eq!(command_value("x", bad_utf8), Err(ClaudioError::Message("invalid utf-8".to_string())));
}

fn bare_preset(env: Option<Vec<(String, EnvValue)>>) -> Preset {
    Preset {
        name: "test".to_string(),
        description: None,
        extends: None,
        prompt: None,
        env,
        args: None,
        settings: None,
    }
}

#[test]
fn test_resolve_variables_no_env() {
    let mut chain = InheritanceChain::start(bare_preset(None), PresetSource::Inline);
    assert!(chain.pending().0.env.is_none());
    chain.env_resolved(Ok(vec![]));
    assert!(matches!(chain.step, ChainStep::Finished));
    let resolved = chain.finish(&vars(&[])).unwrap();
    assert!(resolved.env.is_empty());
}

fn entries(pairs: Vec<(&str, EnvValue)>) -> Vec<(String, EnvValue)> {
    pairs.into_iter().map(|(k, v)| (k.to_string(), v)).collect()
}

/// Resolve entries with nothing to fetch.
fn resolve_plain(es: Vec<(String, EnvValue)>, env: EnvVars) -> Result<Vec<(String, String)>, ClaudioError> {
    let mut r = EnvResolution::new(es, PresetSource::Inline, env, None, None);
    match r.advance() {
        EnvStep::Done(result) => result,
        other => panic!("unexpected step {:?}", other),
    }
}

#[test]
fn test_resolve_variables_no_substitution() {
    let es = entries(vec![("API_URL", EnvValue::Direct("https://api.example.com".to_string()))]);
    assert_eq!(
        resolve_plain(es, vars(&[])),
        Ok(vec![("API_URL".to_string(), "https://api.example.com".to_string())])
    );
}

#[test]
fn test_resolve_variables_single_substitution() {
    let es = entries(vec![("API_KEY", EnvValue::Direct("${TEST_API_KEY}".to_string()))]);
    let result = resolve_plain(es, vars(&[("TEST_API_KEY", "secret123")])).unwrap();
    assert_eq!(result, vec![("API_KEY".to_string(), "secret123".to_string())]);
}

#[test]
fn test_resolve_variables_multiple_substitutions() {
    let es = entries(vec![("COMBINED", EnvValue::Direct("${VAR1}_${VAR2}".to_string()))]);
    let result = resolve_plain(es, vars(&[("VAR1", "hello"), ("VAR2", "world")])).unwrap();
    assert_eq!(result, vec![("COMBINED".to_string(), "hello_world".to_string())]);
}

#[test]
fn test_resolve_variables_missing_env_var() {
    let es = entries(vec![("API_KEY", EnvValue::Direct("${NONEXISTENT_VAR_12345}".to_string()))]);
    let err = resolve_plain(es, vars(&[])).unwrap_err();
    let msg = err.full_message();
    assert!(msg.contains("Environment variable 'NONEXISTENT_VAR_12345' is not set"));
    assert!(msg.contains("export NONEXISTENT_VAR_12345=your_value"));
}

#[test]
fn test_resolve_variables_structured_env_source() {
    let es = entries(vec![(
        "API_KEY",
        EnvValue::Structured { source: EnvValueSource::Env { var: "STRUCTURED_API_KEY".to_string() } },
    )]);
    let result = resolve_plain(es, vars(&[("STRUCTURED_API_KEY", "structured_value")])).unwrap();
    assert_eq!(result, vec![("API_KEY".to_string(), "structured_value".to_string())]);
}

#[test]
fn test_resolve_variables_structured_file_source_relative_to_preset_file() {
    let es = entries(vec![(
        "TOKEN",
        EnvValue::Structured { source: EnvValueSource::File { path: "./secret.txt".to_string() } },
    )]);
    let source = PresetSource::File("/tmp/presets/preset.json".to_string());
    let mut r = EnvResolution::new(es, source, vars(&[]), None, None);
    assert_eq!(r.advance(), EnvStep::ReadFile("/tmp/presets/./secret.txt".to_string()));
    r.supply(file_value("/tmp/presets/./secret.txt", Ok("file_secret\n".to_string())));
    assert_eq!(r.advance(), EnvStep::Done(Ok(vec![("TOKEN".to_string(), "file_secret".to_string())])));
}

#[test]
fn test_resolve_variables_structured_command_source_success_no_confirm() {
    let command = "echo cmd_value";
    let es = entries(vec![(
        "FROM_CMD",
        EnvValue::Structured { source: EnvValueSource::Command { command: command.to_string(), confirm: Some(false) } },
    )]);
    let mut r = EnvResolution::new(es, PresetSource::Inline, vars(&[]), None, None);
    assert_eq!(
        r.advance(),
        EnvStep::RunCommand { key: "FROM_CMD".to_string(), command: command.to_string(), confirm: Some(false) }
    );
    let cfg: ResolverConfig<Answer> = ResolverConfig::new();
    assert_eq!(authorize_command("FROM_CMD", command, Some(false), &cfg), Ok(()));
    let run = CommandRun::Finished { success: true, code: Some(0), stdout: Ok("cmd_value\n".to_string()), stderr: String::new() };
    r.supply(command_value(command, run));
    assert_eq!(r.advance(), EnvStep::Done(Ok(vec![("FROM_CMD".to_string(), "cmd_value".to_string())])));
}

#[test]
fn env_resolution_in_order_with_fetches() {
    let st = |source| EnvValue::Structured { source };
    let es = entries(vec![
        ("A", EnvValue::Direct("x-${X}".to_string())),
        ("B", st(EnvValueSource::Value { value: "${X}".to_string() })),
        ("C", st(EnvValueSource::File { path: "/f".to_string() })),
        ("A", st(EnvValueSource::Env { var: "X".to_string() })),
        ("D", st(EnvValueSource::Command { command: "c".to_string(), confirm: None })),
    ]);
    let mut r = EnvResolution::new(es, PresetSource::Inline, vars(&[("X", "1")]), None, Some("/w".to_string()));
    assert_eq!(r.advance(), EnvStep::ReadFile("/f".to_string()));
    r.supply(Ok("file".to_string()));
    assert_eq!(r.advance(), EnvStep::RunCommand { key: "D".to_string(), command: "c".to_string(), confirm: None });
    r.supply(Ok("out".to_string()));
    let expected = vec![
        ("A".to_string(), "1".to_string()),
        ("B".to_string(), "${X}".to_string()),
        ("C".to_string(), "file".to_string()),
        ("D".to_string(), "out".to_string()),
    ];
    assert_eq!(r.advance(), EnvStep::Done(Ok(expected)));
}

#[test]
fn env_resolution_stops_at_first_error() {
    let st = |source| EnvValue::Structured { source };
    let es = entries(vec![
        ("A", st(EnvValueSource::Command { command: "c".to_string(), confirm: None })),
        ("B", st(EnvValueSource::Env { var: "MISSING".to_string() })),
        ("C", st(EnvValueSource::Command { command: "never".to_string(), confirm: None })),
    ]);
    let mut r = EnvResolution::new(es, PresetSource::Inline, vars(&[]), None, None);
    assert!(matches!(r.advance(), EnvStep::RunCommand { .. }));
    r.supply(Ok("ok".to_string()));
    assert_eq!(r.advance(), EnvStep::Done(Err(ClaudioError::MissingEnvVar("MISSING".to_string()))));

    let es = entries(vec![
        ("A", st(EnvValueSource::Command { command: "c".to_string(), confirm: None })),
        ("B", EnvValue::Direct("v".to_string())),
    ]);
    let mut r = EnvResolution::new(es, PresetSource::Inline, vars(&[]), None, None);
    assert!(matches!(r.advance(), EnvStep::RunCommand { .. }));
    r.supply(Err(ClaudioError::CommandDenied));
    assert_eq!(r.advance(), EnvStep::Done(Err(ClaudioError::CommandDenied)));

    let es = entries(vec![("T", st(EnvValueSource::File { path: "~/t".to_string() }))]);
    assert_eq!(resolve_plain(es, vars(&[])), Err(ClaudioError::HomeDirUnknown));
}

#[test]
fn test_resolve_variables_structured_command_source_failure_includes_stderr() {
    let command = "echo cmd_err 1>&2; exit 7";
    let run = CommandRun::Finished { success: false, code: Some(7), stdout: Ok(String::new()), stderr: "cmd_err\n".to_string() };
    let msg = command_value(command, run).unwrap_err().full_message();
    assert!(msg.contains("stderr:"));
    assert!(msg.contains("cmd_err"));
}
