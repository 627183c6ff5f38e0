use claudio::json::JsonValue;
use claudio::preset::types::{
    is_valid_env_key, validate_preset_name, EnvValue, Preset, PresetSource, ValidationResult,
};

fn minimal_preset(name: &str) -> Preset {
    Preset {
        name: name.to_string(),
        description: None,
        extends: None,
        prompt: None,
        env: None,
        args: None,
        settings: None,
    }
}

fn obj(entries: Vec<(&str, JsonValue)>) -> JsonValue {
    JsonValue::Object(entries.into_iter().map(|(k, v)| (k.to_string(), v)).collect())
}

#[test]
fn test_is_valid_env_key_valid_cases() {
    assert!(is_valid_env_key("API_KEY"));
    assert!(is_valid_env_key("_UNDERSCORE"));
    assert!(is_valid_env_key("A1_B2_C3"));
    assert!(is_valid_env_key("ANTHROPIC_BASE_URL"));
    assert!(is_valid_env_key("_"));
    assert!(is_valid_env_key("A"));
}

#[test]
fn test_is_valid_env_key_invalid_cases() {
    assert!(!is_valid_env_key("lowercase"));
    assert!(!is_valid_env_key("123START"));
    assert!(!is_valid_env_key(""));
    assert!(!is_valid_env_key("CONTAINS-HYPHEN"));
    assert!(!is_valid_env_key("has spaces"));
    assert!(!is_valid_env_key("MixedCase"));
}

#[test]
fn test_validation_result_new() {
    let result = ValidationResult::new();
    assert!(result.errors.is_empty());
    assert!(result.warnings.is_empty());
}

#[test]
fn test_validation_result_is_valid() {
    let mut result = ValidationResult::new();
    assert!(result.is_valid());

    result.add_warning("a warning");
    assert!(result.is_valid(), "warnings should not affect validity");

    result.add_error("an error");
    assert!(!result.is_valid(), "errors should make result invalid");
}

#[test]
fn test_validation_result_add_error() {
    let mut result = ValidationResult::new();
    result.add_error("first error");
    result.add_error("second error");
    assert_eq!(result.errors.len(), 2);
    assert_eq!(result.errors[0], "first error");
    assert_eq!(result.errors[1], "second error");
}

#[test]
fn test_validation_result_add_warning() {
    let mut result = ValidationResult::new();
    result.add_warning("first warning");
    result.add_warning("second warning");
    assert_eq!(result.warnings.len(), 2);
    assert_eq!(result.warnings[0], "first warning");
    assert_eq!(result.warnings[1], "second warning");
}

#[test]
fn test_validate_empty_name() {
    let preset = minimal_preset("");
    let result = preset.validate(None);
    assert!(!result.is_valid());
    assert!(result.errors.iter().any(|e| e.contains("name field is required")));
}

#[test]
fn test_validate_whitespace_name() {
    let preset = minimal_preset("   ");
    let result = preset.validate(None);
    assert!(!result.is_valid());
    assert!(result.errors.iter().any(|e| e.contains("name field is required")));
}

#[test]
fn test_validate_self_referencing_extends() {
    let mut preset = minimal_preset("my-preset");
    preset.extends = Some("my-preset".to_string());
    let result = preset.validate(None);
    assert!(!result.is_valid());
    assert!(result.errors.iter().any(|e| e.contains("must not reference itself")));
}

#[test]
fn test_validate_empty_extends() {
    let mut preset = minimal_preset("my-preset");
    preset.extends = Some("".to_string());
    let result = preset.validate(None);
    assert!(!result.is_valid());
    assert!(result.errors.iter().any(|e| e.contains("extends field must not be empty")));
}

#[test]
fn test_validate_invalid_env_key() {
    let mut preset = minimal_preset("my-preset");
    preset.env = Some(vec![("lowercase_key".to_string(), EnvValue::Direct("value".to_string()))]);
    let result = preset.validate(None);
    assert!(!result.is_valid());
    assert!(result
        .errors
        .iter()
        .any(|e| e.contains("not a valid environment variable name")));
}

#[test]
fn test_validate_empty_env_value_warning() {
    let mut preset = minimal_preset("my-preset");
    preset.env = Some(vec![("API_KEY".to_string(), EnvValue::Direct("".to_string()))]);
    let result = preset.validate(None);
    assert!(result.is_valid(), "empty env value should only be a warning");
    assert!(result.warnings.iter().any(|w| w.contains("has an empty value")));
}

#[test]
fn test_validate_empty_prompt_warning() {
    let mut preset = minimal_preset("my-preset");
    preset.prompt = Some("".to_string());
    let result = preset.validate(None);
    assert!(result.is_valid(), "empty prompt should only be a warning");
    assert!(result.warnings.iter().any(|w| w.contains("prompt is empty")));
}

#[test]
fn test_validate_settings_not_object() {
    let mut preset = minimal_preset("my-preset");
    preset.settings = Some(JsonValue::Str("not an object".to_string()));
    let result = preset.validate(None);
    assert!(!result.is_valid());
    assert!(result.errors.iter().any(|e| e.contains("settings must be a JSON object")));
}

#[test]
fn test_validate_settings_object_valid() {
    let mut preset = minimal_preset("my-preset");
    preset.settings = Some(obj(vec![("key", JsonValue::Str("value".to_string()))]));
    let result = preset.validate(None);
    assert!(result.is_valid());
}

#[test]
fn test_validate_name_filename_mismatch_warning() {
    let preset = minimal_preset("my-preset");
    let result = preset.validate(Some("/path/to/different-name.json"));
    assert!(result.is_valid(), "name/filename mismatch should only be a warning");
    assert!(result.warnings.iter().any(|w| w.contains("does not match filename")));
}

#[test]
fn test_validate_name_filename_match() {
    let preset = minimal_preset("my-preset");
    let result = preset.validate(Some("/path/to/my-preset.json"));
    assert!(result.warnings.is_empty());
}

#[test]
fn test_validate_valid_preset() {
    let mut preset = minimal_preset("my-preset");
    preset.description = Some("A valid preset".to_string());
    preset.extends = Some("base".to_string());
    preset.prompt = Some("Do something".to_string());
    preset.env = Some(vec![("API_KEY".to_string(), EnvValue::Direct("${MY_API_KEY}".to_string()))]);
    preset.args = Some(vec!["--verbose".to_string()]);
    preset.settings = Some(obj(vec![("model", JsonValue::Str("sonnet".to_string()))]));

    let result = preset.validate(None);
    assert!(result.is_valid());
    assert!(result.warnings.is_empty());
}

#[test]
fn test_validate_preset_name_safe_recommended() {
    let cases = ["my-preset", "default", "a1_b2", "test-preset-123"];
    for name in cases {
        let result = validate_preset_name(name);
        assert!(result.is_safe, "Expected '{}' to be safe", name);
        assert!(result.warnings.is_empty(), "Expected '{}' to have no warnings", name);
    }
}

#[test]
fn test_validate_preset_name_non_standard_allowed() {
    let cases = ["MyPreset", "foo.bar", "UPPERCASE", "CamelCase"];
    for name in cases {
        let result = validate_preset_name(name);
        assert!(result.is_safe, "Expected '{}' to be safe", name);
        assert!(result.warnings.is_empty(), "Expected '{}' to have no warnings", name);
    }
}

#[test]
fn test_validate_preset_name_path_traversal() {
    let cases = ["../evil", "a/../b", "..\\evil", "a\\..\\b", ".."];
    for name in cases {
        let result = validate_preset_name(name);
        assert!(!result.is_safe, "Expected '{}' to be rejected", name);
    }
}

#[test]
fn test_validate_preset_name_path_separators() {
    let cases = ["a/b", "a\\b", "path/to/preset", "dir\\preset"];
    for name in cases {
        let result = validate_preset_name(name);
        assert!(!result.is_safe, "Expected '{}' to be rejected", name);
    }
}

#[test]
fn test_validate_preset_name_empty_and_nul() {
    assert!(!validate_preset_name("").is_safe, "Empty should be rejected");
    assert!(!validate_preset_name("foo\0bar").is_safe, "NUL should be rejected");
}

#[test]
fn preset_source_path_and_inline() {
    let inline = PresetSource::Inline;
    assert!(inline.is_inline());
    assert_eq!(inline.path(), None);
    let file = PresetSource::File("/p/x.json".to_string());
    assert!(!file.is_inline());
    assert_eq!(file.path(), Some(&"/p/x.json".to_string()));
}

#[test]
fn validate_reports_exact_messages() {
    let mut preset = minimal_preset("a");
    preset.extends = Some("a".to_string());
    preset.prompt = Some("".to_string());
    let result = preset.validate(Some("/x/b.json"));
    assert_eq!(result.errors, vec!["extends field must not reference itself".to_string()]);
    assert_eq!(
        result.warnings,
        vec![
            "prompt is empty".to_string(),
            "Preset name 'a' does not match filename 'b'".to_string()
        ]
    );
    preset.prompt = Some("  ".to_string());
    let result = preset.validate(None);
    assert!(result.warnings.is_empty());
}
