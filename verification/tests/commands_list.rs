use claudio::commands::list::{
    build_row, collect_listing, item_row, list_sections, show_default_legend, table_width, InvalidPresetFile, dir_scope_label, field_to_header, file_section_header, get_display_fields,
    inline_section_header, invalid_files_note, list_item, should_include_json_field, validate_fields,
};
use claudio::error::ClaudioError;
use claudio::preset::types::{EnvValue, Preset};
use claudio::scope::Scope;

#[test]
fn test_validate_fields_valid() {
    let fields = vec!["name".to_string(), "description".to_string()];
    let result = validate_fields(&fields).unwrap();
    assert_eq!(result, vec!["name", "description"]);
}

#[test]
fn test_validate_fields_all_valid_fields() {
    let fields = vec![
        "name".to_string(),
        "description".to_string(),
        "filepath".to_string(),
        "env".to_string(),
        "args".to_string(),
        "extends".to_string(),
        "prompt".to_string(),
    ];
    let result = validate_fields(&fields).unwrap();
    assert_eq!(result.len(), 7);
}

#[test]
fn test_validate_fields_invalid() {
    let fields = vec!["name".to_string(), "invalid_field".to_string()];
    let result = validate_fields(&fields);
    assert!(result.is_err());
    assert!(result.unwrap_err().message().contains("Invalid field"));
}

#[test]
fn test_validate_fields_all_keyword() {
    let fields = vec!["all".to_string()];
    let result = validate_fields(&fields).unwrap();
    assert_eq!(result.len(), 7);
    assert!(result.contains(&"name".to_string()));
    assert!(result.contains(&"prompt".to_string()));
}

#[test]
fn test_validate_fields_all_case_insensitive() {
    let fields = vec!["ALL".to_string()];
    let result = validate_fields(&fields).unwrap();
    assert_eq!(result.len(), 7);

    let fields = vec!["All".to_string()];
    let result = validate_fields(&fields).unwrap();
    assert_eq!(result.len(), 7);
}

#[test]
fn test_validate_fields_case_insensitive() {
    let fields = vec!["NAME".to_string(), "Description".to_string()];
    let result = validate_fields(&fields).unwrap();
    assert_eq!(result, vec!["name", "description"]);
}

#[test]
fn test_validate_fields_whitespace_handling() {
    let fields = vec!["  name  ".to_string(), " description ".to_string()];
    let result = validate_fields(&fields).unwrap();
    assert_eq!(result, vec!["name", "description"]);
}

#[test]
fn test_field_to_header_known_fields() {
    assert_eq!(field_to_header("name"), "Name");
    assert_eq!(field_to_header("description"), "Description");
    assert_eq!(field_to_header("filepath"), "Filepath");
    assert_eq!(field_to_header("env"), "Env Vars");
    assert_eq!(field_to_header("args"), "Args");
    assert_eq!(field_to_header("extends"), "Extends");
    assert_eq!(field_to_header("prompt"), "Prompt");
}

#[test]
fn test_field_to_header_unknown_field() {
    assert_eq!(field_to_header("unknown"), "unknown");
    assert_eq!(field_to_header("custom_field"), "custom_field");
}

#[test]
fn validate_fields_reports_first_invalid_entry_as_given() {
    let fields = vec![" Bogus ".to_string(), "other".to_string()];
    let err = validate_fields(&fields).unwrap_err();
    assert_eq!(err, ClaudioError::InvalidField(" Bogus ".to_string()));
    assert_eq!(
        err.message(),
        "Invalid field ' Bogus '. Valid fields: name, description, filepath, env, args, extends, prompt, all"
    );
    // `all` anywhere wins over invalid entries
    let fields = vec!["bogus".to_string(), " aLL ".to_string()];
    assert_eq!(
        validate_fields(&fields).unwrap(),
        vec!["name", "description", "filepath", "env", "args", "extends", "prompt"]
    );
    assert_eq!(validate_fields(&vec![]).unwrap(), Vec::<String>::new());
}

#[test]
fn display_fields_and_json_inclusion() {
    assert_eq!(get_display_fields(&None), vec!["name", "description", "filepath"]);
    let some = Some(vec!["env".to_string()]);
    assert_eq!(get_display_fields(&some), vec!["env"]);
    assert!(should_include_json_field(&None, "prompt"));
    assert!(should_include_json_field(&some, "env"));
    assert!(!should_include_json_field(&some, "prompt"));
}

fn preset() -> Preset {
    Preset {
        name: "web".to_string(),
        description: None,
        extends: None,
        prompt: Some("hi".to_string()),
        env: Some(vec![("A".to_string(), EnvValue::Direct("1".to_string()))]),
        args: Some(vec!["--x".to_string(), "--y".to_string()]),
        settings: None,
    }
}

#[test]
fn build_row_cells() {
    let fields: Vec<String> = ["name", "description", "filepath", "env", "args", "extends", "prompt", "other"]
        .iter()
        .map(|s| s.to_string())
        .collect();
    let keys = vec!["A".to_string(), "B".to_string()];
    let row = build_row(&preset(), "/p/web.json", &fields, Some("web"), true, Some(&keys));
    let texts: Vec<&str> = row.iter().map(|c| c.text.as_str()).collect();
    assert_eq!(texts, vec!["* web", "", "/p/web.json", "A, B", "--x, --y", "none", "hi", ""]);
    assert!(row[0].emphasized);
    assert!(!row[1].emphasized);
    let row = build_row(&preset(), "(inline)", &fields, Some("other"), true, None);
    assert_eq!(row[0].text, "web");
    assert!(!row[0].emphasized);
    assert_eq!(row[3].text, "");
    let row = build_row(&preset(), "", &fields, Some("web"), false, None);
    assert!(!row[0].emphasized);
}

#[test]
fn listing_labels() {
    assert_eq!(dir_scope_label(Scope::Auto, 0, 2), "project");
    assert_eq!(dir_scope_label(Scope::Auto, 1, 2), "user");
    assert_eq!(dir_scope_label(Scope::Auto, 0, 1), "user");
    assert_eq!(dir_scope_label(Scope::Project, 0, 1), "project");
    assert_eq!(dir_scope_label(Scope::User, 0, 1), "user");
    assert_eq!(file_section_header("project"), "=== Project Presets ===");
    assert_eq!(file_section_header("user"), "=== User Presets ===");
    assert_eq!(inline_section_header(Scope::Auto, "project"), "=== Inline (project) ===");
    assert_eq!(inline_section_header(Scope::Auto, "user"), "=== Inline (user) ===");
    assert_eq!(inline_section_header(Scope::User, "user"), "=== Inline ===");
    assert_eq!(invalid_files_note(1), "\n(1 invalid preset file skipped, run `claudio doctor` for details)");
    assert_eq!(invalid_files_note(12), "\n(12 invalid preset files skipped, run `claudio doctor` for details)");
}

#[test]
fn list_item_respects_fields() {
    let item = list_item(preset(), Some("/p/web.json".to_string()), "project", "file", Some("web"), &None);
    assert!(item.is_default);
    assert_eq!(item.env_keys, Some(vec!["A".to_string()]));
    assert_eq!(item.filepath, Some("/p/web.json".to_string()));
    let fields = Some(vec!["name".to_string(), "args".to_string()]);
    let item = list_item(preset(), Some("/p/web.json".to_string()), "user", "inline", None, &fields);
    assert!(!item.is_default);
    assert_eq!(item.env_keys, None);
    assert_eq!(item.filepath, None);
    assert_eq!(item.prompt, None);
    assert_eq!(item.args, Some(vec!["--x".to_string(), "--y".to_string()]));
    assert_eq!(item.scope, "user");
    assert_eq!(item.source, "inline");
}

fn named(name: &str) -> Preset {
    Preset { name: name.to_string(), ..preset() }
}

#[test]
fn listing_collects_files_then_inline() {
    let entries = vec![
        (0usize, "/p/web.json".to_string(), Ok(named("web"))),
        (0usize, "/p/bad.json".to_string(), Err(ClaudioError::Message("Failed to parse preset file: /p/bad.json".to_string()))),
        (1usize, "/u/api.json".to_string(), Ok(named("api"))),
    ];
    let inline = vec![(Scope::User, named("inl"))];
    let c = collect_listing(Scope::Auto, 2, entries, inline, None, Some("api"), &None);
    let names: Vec<&str> = c.items.iter().map(|i| i.name.as_str()).collect();
    assert_eq!(names, vec!["web", "api", "inl"]);
    assert_eq!(c.items[0].scope, "project");
    assert_eq!(c.items[1].scope, "user");
    assert!(c.items[1].is_default);
    assert_eq!(c.items[2].source, "inline");
    assert_eq!(c.items[2].filepath, None);
    assert_eq!(c.scopes, vec!["project".to_string(), "user".to_string()]);
    assert_eq!(
        c.invalid_files,
        vec![InvalidPresetFile { path: "/p/bad.json".to_string(), error: "Failed to parse preset file: /p/bad.json".to_string() }]
    );
}

#[test]
fn listing_filters_by_name_but_keeps_failures() {
    let entries = vec![
        (0usize, "/u/web.json".to_string(), Ok(named("web"))),
        (0usize, "/u/bad.json".to_string(), Err(ClaudioError::Message("broken".to_string()))),
    ];
    let inline = vec![(Scope::Project, named("web")), (Scope::Project, named("other"))];
    let c = collect_listing(Scope::User, 1, entries, inline, Some("web"), None, &None);
    assert_eq!(c.items.len(), 2);
    assert_eq!(c.items[1].scope, "project");
    assert_eq!(c.scopes, vec!["user".to_string(), "project".to_string()]);
    assert_eq!(c.invalid_files.len(), 1);
    let empty = collect_listing(Scope::Project, 1, vec![], vec![], None, None, &None);
    assert_eq!(empty.scopes, vec!["project".to_string()]);
    assert!(empty.items.is_empty());
}

#[test]
fn listing_sections_and_rows() {
    let entries = vec![
        (0usize, "/p/web.json".to_string(), Ok(named("web"))),
        (1usize, "/u/api.json".to_string(), Ok(named("api"))),
    ];
    let inline = vec![(Scope::Project, named("inl"))];
    let c = collect_listing(Scope::Auto, 2, entries, inline, None, Some("web"), &None);
    let dirs = vec!["/p".to_string(), "/u".to_string()];
    let sections = list_sections(Scope::Auto, &c.items, &dirs);
    assert_eq!(sections.len(), 3);
    assert_eq!(sections[0].header, "=== Project Presets ===");
    assert_eq!(sections[0].location, Some("/p".to_string()));
    assert_eq!(sections[0].items, vec![0]);
    assert_eq!(sections[1].header, "=== User Presets ===");
    assert_eq!(sections[1].location, Some("/u".to_string()));
    assert_eq!(sections[2].header, "=== Inline (project) ===");
    assert_eq!(sections[2].location, None);
    assert!(sections[2].inline);
    assert_eq!(sections[2].items, vec![2]);
    let only_user = list_sections(Scope::User, &c.items[1..2].to_vec(), &vec!["/u".to_string()]);
    assert_eq!(only_user.len(), 1);
    assert_eq!(only_user[0].location, Some("/u".to_string()));
    let fields: Vec<String> = vec!["name".to_string(), "filepath".to_string(), "env".to_string()];
    let row = item_row(&c.items[0], &fields, Some("web"), true, false);
    let texts: Vec<&str> = row.iter().map(|c| c.text.as_str()).collect();
    assert_eq!(texts, vec!["* web", "/p/web.json", "A"]);
    assert!(row[0].emphasized);
    let row = item_row(&c.items[2], &fields, Some("web"), true, true);
    assert_eq!(row[1].text, "(inline)");
    assert!(show_default_legend(&fields, &c.items));
    assert!(!show_default_legend(&vec!["filepath".to_string()], &c.items));
    assert!(!show_default_legend(&fields, &c.items[1..].to_vec()));
}

#[test]
fn table_width_limit() {
    assert_eq!(table_width(0), Ok(0));
    assert_eq!(table_width(80), Ok(80));
    assert_eq!(table_width(65535), Ok(65535));
    assert_eq!(table_width(65536), Err(ClaudioError::Message("--max-width must be <= 65535".to_string())));
}

#[test]
fn listing_shows_env_names_not_values() {
    let mut secret = preset();
    secret.env = Some(vec![("A".to_string(), EnvValue::Direct("secret_value".to_string()))]);
    let a = list_item(preset(), Some("/p/web.json".to_string()), "project", "file", None, &None);
    let b = list_item(secret, Some("/p/web.json".to_string()), "project", "file", None, &None);
    assert_eq!(a, b);
    assert_eq!(b.env_keys, Some(vec!["A".to_string()]));
}
