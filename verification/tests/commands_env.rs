use claudio::commands::env::{export_lines, format_env_value, raw_env_text, resolved_env_text, shell_escape_double_quoted};
use claudio::preset::types::{EnvValue, EnvValueSource};

#[test]
fn test_shell_escape_no_special_chars() {
    assert_eq!(shell_escape_double_quoted("plain text"), "plain text");
    assert_eq!(shell_escape_double_quoted("hello123"), "hello123");
}

#[test]
fn test_shell_escape_backslash() {
    assert_eq!(shell_escape_double_quoted(r"path\to\file"), r"path\\to\\file");
}

#[test]
fn test_shell_escape_double_quote() {
    assert_eq!(shell_escape_double_quoted(r#"say "hello""#), r#"say \"hello\""#);
}

#[test]
fn test_shell_escape_dollar_sign() {
    assert_eq!(shell_escape_double_quoted("$HOME"), r"\$HOME");
    assert_eq!(shell_escape_double_quoted("${VAR}"), r"\${VAR}");
}

#[test]
fn test_shell_escape_backtick() {
    assert_eq!(shell_escape_double_quoted("`command`"), r"\`command\`");
}

#[test]
fn test_shell_escape_combined() {
    let input = r#"echo "$HOME" && `ls`"#;
    let expected = r#"echo \"\$HOME\" && \`ls\`"#;
    assert_eq!(shell_escape_double_quoted(input), expected);
}

#[test]
fn test_shell_escape_empty() {
    assert_eq!(shell_escape_double_quoted(""), "");
}

/// What a shell reads between double quotes: `\` before `\ " $` and a backquote is dropped.
fn read_double_quoted(t: &str) -> String {
    let cs: Vec<char> = t.chars().collect();
    let mut out = String::new();
    let mut i = 0;
    while i < cs.len() {
        if cs[i] == '\\' && i + 1 < cs.len() && matches!(cs[i + 1], '\\' | '"' | '$' | '`') {
            out.push(cs[i + 1]);
            i += 2;
        } else {
            out.push(cs[i]);
            i += 1;
        }
    }
    out
}

#[test]
fn double_quote_escape_round_trips() {
    for s in ["plain", r#"a"b"#, r"back\slash\", "$HOME ${X} `ls`", "", "\\\\\"\"$$``", "ünïcödé \n tab\t"] {
        assert_eq!(read_double_quoted(&shell_escape_double_quoted(s)), s);
    }
}

#[test]
fn format_env_value_shows_sources() {
    assert_eq!(format_env_value(&EnvValue::Direct("x${A}".to_string())), "x${A}");
    let v = |source| EnvValue::Structured { source };
    assert_eq!(format_env_value(&v(EnvValueSource::Value { value: "lit".to_string() })), "lit");
    assert_eq!(format_env_value(&v(EnvValueSource::Env { var: "HOME".to_string() })), "${from: env, var: HOME}");
    assert_eq!(
        format_env_value(&v(EnvValueSource::File { path: "~/.key".to_string() })),
        "${from: file, path: ~/.key}"
    );
    assert_eq!(
        format_env_value(&v(EnvValueSource::Command { command: "pass show x".to_string(), confirm: Some(true) })),
        "${from: command, command: pass show x, confirm: true}"
    );
    assert_eq!(
        format_env_value(&v(EnvValueSource::Command { command: "echo".to_string(), confirm: Some(false) })),
        "${from: command, command: echo, confirm: false}"
    );
    assert_eq!(
        format_env_value(&v(EnvValueSource::Command { command: "echo".to_string(), confirm: None })),
        "${from: command, command: echo}"
    );
}

#[test]
fn env_output_texts() {
    let env = vec![("A".to_string(), "say \"hi\" $X".to_string()), ("B".to_string(), "2".to_string())];
    assert_eq!(export_lines(&env), "export A=\"say \\\"hi\\\" \\$X\"\nexport B=\"2\"\n");
    assert_eq!(
        resolved_env_text("p", &env),
        "Environment variables for preset 'p' (resolved):\n\nA=say \"hi\" $X\nB=2\n"
    );
    let raw = Some(vec![
        ("K".to_string(), EnvValue::Direct("v".to_string())),
        ("E".to_string(), EnvValue::Structured { source: EnvValueSource::Env { var: "X".to_string() } }),
    ]);
    assert_eq!(raw_env_text("p", &raw), "Environment variables for preset 'p':\n\nK=v\nE=${from: env, var: X}\n");
    assert_eq!(raw_env_text("p", &None), "Environment variables for preset 'p':\n\n");
}
