//! Showing a preset's environment: raw values, and `export` lines for a POSIX shell.
use vstd::prelude::*;
use crate::preset::types::{EnvValue, EnvValueSource};
use crate::order::string_pairs;
use crate::text::chars_of;

verus! {

/// Characters that a backslash must protect inside double quotes.
pub open spec fn needs_backslash(c: char) -> bool {
    c == '\\' || c == '"' || c == '$' || c == '`'
}

/// One character, escaped for a double-quoted shell word.
pub open spec fn escape_dq_char(c: char) -> Seq<char> {
    if needs_backslash(c) {
        seq!['\\', c]
    } else {
        seq![c]
    }
}

/// A string escaped for a double-quoted shell word.
pub open spec fn escape_dq(s: Seq<char>) -> Seq<char>
    decreases s.len(),
{
    if s.len() == 0 {
        Seq::empty()
    } else {
        escape_dq_char(s[0]) + escape_dq(s.drop_first())
    }
}

/// What a POSIX shell reads from the text between double quotes: a backslash before
/// `\`, `"`, `$` or a backquote stands for that character; any other character stands for itself.
pub open spec fn read_double_quoted(t: Seq<char>) -> Seq<char>
    decreases t.len(),
{
    if t.len() == 0 {
        Seq::empty()
    } else if t[0] == '\\' && t.len() >= 2 && needs_backslash(t[1]) {
        seq![t[1]] + read_double_quoted(t.skip(2))
    } else {
        seq![t[0]] + read_double_quoted(t.drop_first())
    }
}

proof fn lemma_escape_dq_push(s: Seq<char>, c: char)
    ensures
        escape_dq(s.push(c)) == escape_dq(s) + escape_dq_char(c),
    decreases s.len(),
{
    if s.len() == 0 {
        assert(s.push(c).drop_first() =~= Seq::<char>::empty());
        assert(escape_dq(Seq::<char>::empty()) =~= Seq::<char>::empty());
        assert(s.push(c)[0] == c);
        assert(escape_dq(s.push(c)) =~= escape_dq_char(c) + escape_dq(s.push(c).drop_first()));
        assert(escape_dq(s) =~= Seq::<char>::empty());
    } else {
        assert(s.push(c).drop_first() =~= s.drop_first().push(c));
        lemma_escape_dq_push(s.drop_first(), c);
        assert(escape_dq(s.push(c)) =~= escape_dq(s) + escape_dq_char(c));
    }
}

/// Escaping for double quotes is undone by the shell: reading the escaped text
/// between double quotes gives back the original string.
pub proof fn lemma_read_escape_dq(s: Seq<char>)
    ensures
        read_double_quoted(escape_dq(s)) == s,
    decreases s.len(),
{
    if s.len() > 0 {
        let c = s[0];
        let rest = escape_dq(s.drop_first());
        lemma_read_escape_dq(s.drop_first());
        let t = escape_dq_char(c) + rest;
        assert(escape_dq(s) == t);
        if needs_backslash(c) {
            assert(t.skip(2) =~= rest);
        } else {
            assert(t.drop_first() =~= rest);
        }
        assert(s =~= seq![c] + s.drop_first());
    }
}

/// Escape a value for use inside double quotes in a POSIX shell: `\`, `"`, `$` and the
/// backquote get a backslash in front; every other character is kept.
pub fn shell_escape_double_quoted(value: &str) -> (out: String)
    ensures
        out@ == escape_dq(value@),
{
    let cs = chars_of(value);
    let mut out = String::new();
    let n = cs.len();
    for i in 0..n
        invariant
            n == cs@.len(),
            cs@ == value@,
            out@ == escape_dq(cs@.take(i as int)),
    {
        let ch = cs[i];
        proof {
            assert(cs@.take(i + 1) =~= cs@.take(i as int).push(ch));
            lemma_escape_dq_push(cs@.take(i as int), ch);
        }
        if ch == '\\' || ch == '"' || ch == '$' || ch == '`' {
            out.push('\\');
            out.push(ch);
        } else {
            out.push(ch);
        }
        assert(out@ =~= escape_dq(cs@.take(i + 1)));
    }
    assert(cs@.take(n as int) =~= cs@);
    out
}

/// How an env value is shown before resolution.
pub open spec fn env_value_display(v: EnvValue) -> Seq<char> {
    match v {
        EnvValue::Direct(s) => s@,
        EnvValue::Structured { source } => match source {
            EnvValueSource::Value { value } => value@,
            EnvValueSource::Env { var } => "${from: env, var: "@ + var@ + "}"@,
            EnvValueSource::File { path } => "${from: file, path: "@ + path@ + "}"@,
            EnvValueSource::Command { command, confirm } => match confirm {
                Some(c) => "${from: command, command: "@ + command@ + ", confirm: "@ + (if c {
                    "true"@
                } else {
                    "false"@
                }) + "}"@,
                None => "${from: command, command: "@ + command@ + "}"@,
            },
        },
    }
}

/// Show an env value as written in the preset, without resolving it.
pub fn format_env_value(value: &EnvValue) -> (out: String)
    ensures
        out@ == env_value_display(*value),
{
    match value {
        EnvValue::Direct(s) => s.clone(),
        EnvValue::Structured { source } => match source {
            EnvValueSource::Value { value } => value.clone(),
            EnvValueSource::Env { var } => {
                let mut out = String::new();
                out.push_str("${from: env, var: ");
                out.push_str(var.as_str());
                out.push_str("}");
                out
            },
            EnvValueSource::File { path } => {
                let mut out = String::new();
                out.push_str("${from: file, path: ");
                out.push_str(path.as_str());
                out.push_str("}");
                out
            },
            EnvValueSource::Command { command, confirm } => {
                let mut out = String::new();
                out.push_str("${from: command, command: ");
                out.push_str(command.as_str());
                match confirm {
                    Some(c) => {
                        out.push_str(", confirm: ");
                        if *c {
                            out.push_str("true");
                        } else {
                            out.push_str("false");
                        }
                    },
                    None => {},
                }
                out.push_str("}");
                out
            },
        },
    }
}

/// `export NAME="value"` lines, the values escaped for double quotes.
pub open spec fn export_text(es: Seq<(Seq<char>, Seq<char>)>) -> Seq<char>
    decreases es.len(),
{
    if es.len() == 0 {
        Seq::empty()
    } else {
        export_text(es.drop_last()) + "export "@ + es.last().0 + "=\""@ + escape_dq(es.last().1) + "\"\n"@
    }
}

/// What `preset env --export` prints: one `export` line per variable.
pub fn export_lines(env: &Vec<(String, String)>) -> (r: String)
    ensures
        r@ == export_text(string_pairs(env@)),
{
    let ghost es = string_pairs(env@);
    let mut out = String::new();
    let n = env.len();
    for i in 0..n
        invariant
            n == env@.len(),
            es == string_pairs(env@),
            out@ == export_text(es.take(i as int)),
    {
        let escaped = shell_escape_double_quoted(env[i].1.as_str());
        out.push_str("export ");
        out.push_str(env[i].0.as_str());
        out.push_str("=\"");
        out.push_str(escaped.as_str());
        out.push_str("\"\n");
        proof {
            let t = es.take(i + 1);
            assert(t.drop_last() =~= es.take(i as int));
            assert(t.last() == es[i as int]);
        }
        assert(out@ =~= export_text(es.take(i + 1)));
    }
    assert(es.take(n as int) =~= es);
    out
}

/// `NAME=value` lines.
pub open spec fn assignment_text(es: Seq<(Seq<char>, Seq<char>)>) -> Seq<char>
    decreases es.len(),
{
    if es.len() == 0 {
        Seq::empty()
    } else {
        assignment_text(es.drop_last()) + es.last().0 + "="@ + es.last().1 + "\n"@
    }
}

fn push_assignments(out: &mut String, es: &Vec<(String, String)>)
    ensures
        final(out)@ == old(out)@ + assignment_text(string_pairs(es@)),
{
    let ghost start = out@;
    let ghost v = string_pairs(es@);
    let n = es.len();
    for i in 0..n
        invariant
            n == es@.len(),
            v == string_pairs(es@),
            out@ == start + assignment_text(v.take(i as int)),
    {
        out.push_str(es[i].0.as_str());
        out.push_str("=");
        out.push_str(es[i].1.as_str());
        out.push_str("\n");
        proof {
            let t = v.take(i + 1);
            assert(t.drop_last() =~= v.take(i as int));
            assert(t.last() == v[i as int]);
        }
        assert(out@ =~= start + assignment_text(v.take(i + 1)));
    }
    assert(v.take(n as int) =~= v);
}

/// What `preset env --resolved` prints: a heading, then `NAME=value` per variable.
pub fn resolved_env_text(preset_name: &str, env: &Vec<(String, String)>) -> (r: String)
    ensures
        r@ == "Environment variables for preset '"@ + preset_name@ + "' (resolved):\n\n"@ + assignment_text(
            string_pairs(env@),
        ),
{
    let mut out = "Environment variables for preset '".to_owned();
    out.push_str(preset_name);
    out.push_str("' (resolved):\n\n");
    push_assignments(&mut out, env);
    out
}

/// The variables of a preset as written, each value shown unresolved.
pub open spec fn raw_pairs(es: Seq<(String, EnvValue)>) -> Seq<(Seq<char>, Seq<char>)> {
    es.map_values(|e: (String, EnvValue)| (e.0@, env_value_display(e.1)))
}

/// What `preset env` prints: a heading, then the preset's own values as written.
pub fn raw_env_text(preset_name: &str, env: &Option<Vec<(String, EnvValue)>>) -> (r: String)
    ensures
        r@ == "Environment variables for preset '"@ + preset_name@ + "':\n\n"@ + match env {
            Some(es) => assignment_text(raw_pairs(es@)),
            None => Seq::empty(),
        },
{
    let mut out = "Environment variables for preset '".to_owned();
    out.push_str(preset_name);
    out.push_str("':\n\n");
    let ghost head = out@;
    match env {
        Some(es) => {
            let mut shown: Vec<(String, String)> = Vec::new();
            let n = es.len();
            for i in 0..n
                invariant
                    n == es@.len(),
                    string_pairs(shown@) == raw_pairs(es@).take(i as int),
            {
                let ghost b = shown@;
                let k = es[i].0.clone();
                let v = format_env_value(&es[i].1);
                shown.push((k, v));
                assert(string_pairs(b).len() == b.len());
                assert(string_pairs(shown@) =~= string_pairs(b).push((k@, v@)));
                assert(string_pairs(shown@) =~= raw_pairs(es@).take(i + 1));
            }
            assert(raw_pairs(es@).take(n as int) =~= raw_pairs(es@));
            push_assignments(&mut out, &shown);
        },
        None => {
            assert(out@ =~= head + Seq::<char>::empty());
        },
    }
    out
}

} // verus!
