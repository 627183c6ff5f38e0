//! Running the wrapped CLI with a preset: choosing the preset, assembling the arguments, and
//! the printable command line of a dry run.
use vstd::prelude::*;
use crate::order::{sort_pairs, sort_string_pairs, string_pairs};
use crate::error::ClaudioError;
use crate::scope::Scope;
use crate::preset::types::ResolvedPreset;
use crate::settings::Settings;
use crate::text::{ascii_alphanumeric, chars_of, is_alphanumeric, strings_view, unicode_alphanumeric};

verus! {

/// Characters that stand in a shell word without quoting: alphanumerics (below U+0080 the
/// ASCII letters and digits, above it what `char::is_alphanumeric` says) and `_-/.:=`.
pub open spec fn plain_char(c: char) -> bool {
    (c < '\u{80}' && ascii_alphanumeric(c)) || ('\u{80}' <= c && unicode_alphanumeric(c)) || c == '_' || c == '-' || c == '/' || c == '.' || c == ':' || c == '='
}

/// A string that needs no quoting: not empty, and made of plain characters only.
pub open spec fn is_plain_word(s: Seq<char>) -> bool {
    s.len() > 0 && forall|i: int| 0 <= i < s.len() ==> plain_char(#[trigger] s[i])
}

/// One character inside single quotes; a single quote becomes `'\''`.
pub open spec fn quote_char(c: char) -> Seq<char> {
    if c == '\'' {
        seq!['\'', '\\', '\'', '\'']
    } else {
        seq![c]
    }
}

/// The text between the single quotes of a quoted word.
pub open spec fn quote_body(s: Seq<char>) -> Seq<char>
    decreases s.len(),
{
    if s.len() == 0 {
        Seq::empty()
    } else {
        quote_char(s[0]) + quote_body(s.drop_first())
    }
}

/// A string as one shell word: unchanged if plain, else in single quotes.
pub open spec fn shell_word(s: Seq<char>) -> Seq<char> {
    if is_plain_word(s) {
        s
    } else {
        seq!['\''] + quote_body(s) + seq!['\'']
    }
}

/// What a POSIX shell reads from unquoted text: a backslash quotes the next character,
/// a single quote opens a quoted part, any other character stands for itself.
pub open spec fn read_unquoted(t: Seq<char>) -> Seq<char>
    decreases t.len(), 1int,
{
    if t.len() == 0 {
        Seq::empty()
    } else if t[0] == '\'' {
        read_single_quoted(t.drop_first())
    } else if t[0] == '\\' && t.len() >= 2 {
        seq![t[1]] + read_unquoted(t.skip(2))
    } else {
        seq![t[0]] + read_unquoted(t.drop_first())
    }
}

/// What a POSIX shell reads inside single quotes: every character up to the closing quote.
pub open spec fn read_single_quoted(t: Seq<char>) -> Seq<char>
    decreases t.len(), 0int,
{
    if t.len() == 0 {
        Seq::empty()
    } else if t[0] == '\'' {
        read_unquoted(t.drop_first())
    } else {
        seq![t[0]] + read_single_quoted(t.drop_first())
    }
}

proof fn lemma_quote_body_push(s: Seq<char>, c: char)
    ensures
        quote_body(s.push(c)) == quote_body(s) + quote_char(c),
    decreases s.len(),
{
    if s.len() == 0 {
        assert(s.push(c).drop_first() =~= Seq::<char>::empty());
        assert(quote_body(Seq::<char>::empty()) =~= Seq::<char>::empty());
        assert(s.push(c)[0] == c);
        assert(quote_body(s.push(c)) =~= quote_char(c) + quote_body(s.push(c).drop_first()));
        assert(quote_body(s) =~= Seq::<char>::empty());
    } else {
        assert(s.push(c).drop_first() =~= s.drop_first().push(c));
        lemma_quote_body_push(s.drop_first(), c);
        assert(quote_body(s.push(c)) =~= quote_body(s) + quote_char(c));
    }
}

proof fn lemma_read_quote_body(s: Seq<char>, rest: Seq<char>)
    ensures
        read_single_quoted(quote_body(s) + seq!['\''] + rest) == s + read_unquoted(rest),
    decreases s.len(),
{
    if s.len() == 0 {
        assert(quote_body(s) =~= Seq::<char>::empty());
        let t = quote_body(s) + seq!['\''] + rest;
        assert(t.drop_first() =~= rest);
        assert(s + read_unquoted(rest) =~= read_unquoted(rest));
    } else {
        let c = s[0];
        lemma_read_quote_body(s.drop_first(), rest);
        let tail = quote_body(s.drop_first()) + seq!['\''] + rest;
        let t = quote_body(s) + seq!['\''] + rest;
        assert(t =~= quote_char(c) + tail);
        if c == '\'' {
            let u = t.drop_first();
            assert(u =~= seq!['\\', '\'', '\''] + tail);
            let w = u.skip(2);
            assert(w =~= seq!['\''] + tail);
            assert(w.drop_first() =~= tail);
            assert(read_unquoted(w) == read_single_quoted(tail));
            assert(read_unquoted(u) == seq!['\''] + read_unquoted(w));
            assert(read_single_quoted(t) == read_unquoted(u));
        } else {
            assert(t.drop_first() =~= tail);
            assert(read_single_quoted(t) == seq![c] + read_single_quoted(tail));
        }
        assert(s =~= seq![c] + s.drop_first());
    }
}

proof fn lemma_read_plain(s: Seq<char>)
    requires
        forall|i: int| 0 <= i < s.len() ==> plain_char(#[trigger] s[i]),
        forall|i: int| 0 <= i < s.len() ==> s[i] != '\'' && s[i] != '\\',
    ensures
        read_unquoted(s) == s,
    decreases s.len(),
{
    if s.len() > 0 {
        assert forall|i: int| 0 <= i < s.drop_first().len() implies plain_char(#[trigger] s.drop_first()[i]) by {
            assert(s.drop_first()[i] == s[i + 1]);
        }
        assert forall|i: int| 0 <= i < s.drop_first().len() implies s.drop_first()[i] != '\'' && s.drop_first()[i] != '\\' by {
            assert(s.drop_first()[i] == s[i + 1]);
        }
        lemma_read_plain(s.drop_first());
        assert(s =~= seq![s[0]] + s.drop_first());
    }
}

/// Quoting for the shell is undone by the shell: reading the quoted word gives back the
/// original string, whatever it holds.
pub proof fn lemma_read_shell_word(s: Seq<char>)
    ensures
        read_unquoted(shell_word(s)) == s,
{
    if is_plain_word(s) {
        assert forall|i: int| 0 <= i < s.len() implies s[i] != '\'' && s[i] != '\\' by {
            assert(plain_char(s[i]));
        }
        lemma_read_plain(s);
    } else {
        let t = seq!['\''] + quote_body(s) + seq!['\''];
        assert(t.drop_first() =~= quote_body(s) + seq!['\''] + Seq::<char>::empty());
        lemma_read_quote_body(s, Seq::<char>::empty());
        assert(s + Seq::<char>::empty() =~= s);
    }
}

/// Quote a string as one shell word: kept as it is when it is not empty and made only of
/// alphanumerics and `_-/.:=`; otherwise put in single quotes, each `'` written `'\''`.
pub fn shell_escape(s: &str) -> (out: String)
    ensures
        out@ == shell_word(s@),
{
    let cs = chars_of(s);
    let n = cs.len();
    let mut plain = n > 0;
    let mut i: usize = 0;
    while i < n
        invariant
            n == cs@.len(),
            cs@ == s@,
            i <= n,
            plain == (n > 0 && forall|k: int| 0 <= k < i ==> plain_char(#[trigger] cs@[k])),
        decreases n - i,
    {
        let c = cs[i];
        let ok = is_alphanumeric(c) || c == '_' || c == '-' || c == '/' || c == '.' || c == ':'
            || c == '=';
        assert(ok == plain_char(cs@[i as int]));
        plain = plain && ok;
        i = i + 1;
    }
    if plain {
        return s.to_owned();
    }
    let mut out = String::new();
    out.push('\'');
    for j in 0..n
        invariant
            n == cs@.len(),
            cs@ == s@,
            out@ == seq!['\''] + quote_body(cs@.take(j as int)),
    {
        let c = cs[j];
        proof {
            assert(cs@.take(j + 1) =~= cs@.take(j as int).push(c));
            lemma_quote_body_push(cs@.take(j as int), c);
        }
        if c == '\'' {
            out.push('\'');
            out.push('\\');
            out.push('\'');
            out.push('\'');
        } else {
            out.push(c);
        }
        assert(out@ =~= seq!['\''] + quote_body(cs@.take(j + 1)));
    }
    out.push('\'');
    assert(cs@.take(n as int) =~= cs@);
    out
}

/// `NAME=value ` for one variable of a dry run's command line.
pub open spec fn env_assignment(p: (Seq<char>, Seq<char>)) -> Seq<char> {
    p.0 + seq!['='] + shell_word(p.1) + seq![' ']
}

/// The assignments of a dry run's command line, in the given order.
pub open spec fn env_prefix(es: Seq<(Seq<char>, Seq<char>)>) -> Seq<char>
    decreases es.len(),
{
    if es.len() == 0 {
        Seq::empty()
    } else {
        env_prefix(es.drop_last()) + env_assignment(es.last())
    }
}

/// Arguments as shell words separated by single spaces.
pub open spec fn join_words(args: Seq<Seq<char>>) -> Seq<char>
    decreases args.len(),
{
    if args.len() == 0 {
        Seq::empty()
    } else if args.len() == 1 {
        shell_word(args[0])
    } else {
        join_words(args.drop_last()) + seq![' '] + shell_word(args.last())
    }
}

/// The command line a dry run prints: the variables sorted by name (when shown), the
/// executable, then the arguments, each quoted for the shell.
pub open spec fn dry_run_command(
    env: Seq<(Seq<char>, Seq<char>)>,
    args: Seq<Seq<char>>,
    show_env: bool,
    exe: Seq<char>,
) -> Seq<char> {
    (if show_env {
        env_prefix(sort_pairs(env))
    } else {
        Seq::empty()
    }) + shell_word(exe) + (if args.len() > 0 {
        seq![' '] + join_words(args)
    } else {
        Seq::empty()
    })
}

/// The command line that a dry run prints, ready to paste into a POSIX shell.
pub fn build_dry_run_command(
    env_vars: &Vec<(String, String)>,
    args: &Vec<String>,
    show_env: bool,
    claude_executable: &str,
) -> (out: String)
    ensures
        out@ == dry_run_command(string_pairs(env_vars@), strings_view(args@), show_env, claude_executable@),
{
    let mut out = String::new();
    if show_env {
        let sorted = sort_string_pairs(env_vars);
        let ghost es = string_pairs(sorted@);
        let m = sorted.len();
        for i in 0..m
            invariant
                m == sorted@.len(),
                es == string_pairs(sorted@),
                out@ == env_prefix(es.take(i as int)),
        {
            let escaped = shell_escape(sorted[i].1.as_str());
            out.push_str(sorted[i].0.as_str());
            out.push('=');
            out.push_str(escaped.as_str());
            out.push(' ');
            proof {
                let t = es.take(i + 1);
                assert(t.drop_last() =~= es.take(i as int));
                assert(t.last() == es[i as int]);
            }
            assert(out@ =~= env_prefix(es.take(i + 1)));
        }
        assert(es.take(m as int) =~= es);
    }
    let ghost prefix = out@;
    let exe = shell_escape(claude_executable);
    out.push_str(exe.as_str());
    let ghost head = out@;
    let ghost av = strings_view(args@);
    let n = args.len();
    if n > 0 {
        out.push(' ');
        for j in 0..n
            invariant
                n == args@.len(),
                n > 0,
                av == strings_view(args@),
                out@ == head + seq![' '] + join_words(av.take(j as int)),
        {
            if j > 0 {
                out.push(' ');
            }
            let w = shell_escape(args[j].as_str());
            out.push_str(w.as_str());
            proof {
                let t = av.take(j + 1);
                assert(t.drop_last() =~= av.take(j as int));
                assert(t.last() == av[j as int]);
                if j == 0 {
                    assert(av.take(0) =~= Seq::<Seq<char>>::empty());
                    assert(t.len() == 1 && t[0] == av[0]);
                }
            }
            assert(out@ =~= head + seq![' '] + join_words(av.take(j + 1)));
        }
        assert(av.take(n as int) =~= av);
    }
    assert(out@ =~= dry_run_command(string_pairs(env_vars@), av, show_env, claude_executable@));
    out
}

/// Which preset a run uses.
#[derive(Debug, Clone, PartialEq, Eq)]
pub enum PresetChoice {
    /// The preset named on the command line.
    Given(String),
    /// The default preset named in settings.
    FromSettings(String),
    /// The preset named `default`.
    DefaultFile,
    /// No preset: the wrapped CLI runs directly.
    Direct,
}

/// Choose the preset of a run: the named one; else the settings' default preset; else the
/// preset `default` if it exists; else none, which is an error when a preset is required.
/// `settings_default` is the default preset from settings, `default_exists` whether a preset
/// named `default` can be found; an error in either is the result when it is consulted.
pub fn choose_preset(
    preset_name: Option<&str>,
    settings_default: Result<Option<String>, ClaudioError>,
    default_exists: Result<bool, ClaudioError>,
    require_preset: bool,
) -> (r: Result<PresetChoice, ClaudioError>)
    ensures
        match preset_name {
            Some(n) => r matches Ok(PresetChoice::Given(m)) && m@ == n@,
            None => match settings_default {
                Err(e) => r == Err::<PresetChoice, ClaudioError>(e),
                Ok(Some(d)) => r matches Ok(PresetChoice::FromSettings(m)) && m == d,
                Ok(None) => match default_exists {
                    Err(e) => r == Err::<PresetChoice, ClaudioError>(e),
                    Ok(true) => r matches Ok(PresetChoice::DefaultFile),
                    Ok(false) => if require_preset {
                        r matches Err(ClaudioError::NoPresetAvailable)
                    } else {
                        r matches Ok(PresetChoice::Direct)
                    },
                },
            },
        },
{
    match preset_name {
        Some(n) => Ok(PresetChoice::Given(n.to_owned())),
        None => match settings_default {
            Err(e) => Err(e),
            Ok(Some(d)) => Ok(PresetChoice::FromSettings(d)),
            Ok(None) => match default_exists {
                Err(e) => Err(e),
                Ok(true) => Ok(PresetChoice::DefaultFile),
                Ok(false) => if require_preset {
                    Err(ClaudioError::NoPresetAvailable)
                } else {
                    Ok(PresetChoice::Direct)
                },
            },
        },
    }
}

/// Whether a preset is required: the command-line flag, else the settings (unset is no).
/// The settings are consulted only without the flag.
pub fn effective_require_preset(cli: bool, setting: Result<Option<bool>, ClaudioError>) -> (r: Result<bool, ClaudioError>)
    ensures
        cli ==> r == Ok::<bool, ClaudioError>(true),
        !cli ==> match setting {
            Err(e) => r == Err::<bool, ClaudioError>(e),
            Ok(v) => r == Ok::<bool, ClaudioError>(v == Some(true)),
        },
{
    if cli {
        return Ok(true);
    }
    match setting {
        Err(e) => Err(e),
        Ok(Some(b)) => Ok(b),
        Ok(None) => Ok(false),
    }
}

/// Whether a dry run shows the environment: as the settings say, and yes when they say
/// nothing.
pub fn effective_dry_run_show_env(setting: Result<Option<bool>, ClaudioError>) -> (r: Result<bool, ClaudioError>)
    ensures
        match setting {
            Err(e) => r == Err::<bool, ClaudioError>(e),
            Ok(v) => r == Ok::<bool, ClaudioError>(v != Some(false)),
        },
{
    match setting {
        Err(e) => Err(e),
        Ok(Some(b)) => Ok(b),
        Ok(None) => Ok(true),
    }
}

/// The executable to run, by precedence: the command line, then the
/// `CLAUDIO_CLAUDE_EXECUTABLE` environment variable, then settings (unreadable settings
/// count as unset); none when nothing names one.
pub fn resolve_claude_executable(
    cli: Option<&str>,
    env_value: Option<String>,
    setting: Result<Option<String>, ClaudioError>,
) -> (r: Option<String>)
    ensures
        crate::text::opt_string_view(r) == match cli {
            Some(c) => Some(c@),
            None => match env_value {
                Some(v) => Some(v@),
                None => match setting {
                    Ok(Some(s)) => Some(s@),
                    _ => None,
                },
            },
        },
{
    match cli {
        Some(c) => Some(c.to_owned()),
        None => match env_value {
            Some(v) => Some(v),
            None => match setting {
                Ok(Some(s)) => Some(s),
                _ => None,
            },
        },
    }
}

/// `--scope user` is refused when the project's settings ignore user presets (settings
/// that cannot be read count as not ignoring them).
pub fn check_user_scope_allowed(scope: Scope, project: Result<Option<Settings>, ClaudioError>) -> (r: Result<(), ClaudioError>)
    ensures
        (scope == Scope::User && (project matches Ok(Some(s)) && s.ignore_user_presets == Some(true)))
            ==> (r matches Err(ClaudioError::UserScopeIgnored)),
        !(scope == Scope::User && (project matches Ok(Some(s)) && s.ignore_user_presets == Some(true)))
            ==> r is Ok,
{
    let ignore = match crate::settings::should_ignore_user_presets(project) {
        Ok(b) => b,
        Err(_) => false,
    };
    if scope == Scope::User && ignore {
        Err(ClaudioError::UserScopeIgnored)
    } else {
        Ok(())
    }
}

/// An optional string's characters.
pub open spec fn opt_str_view(o: Option<&str>) -> Option<Seq<char>> {
    match o {
        Some(s) => Some(s@),
        None => None,
    }
}

/// The arguments of a run: the preset's, then `--settings <file>` when there is a settings
/// file, then the extra command-line arguments, then the prompt.
pub open spec fn command_args(
    preset_args: Seq<Seq<char>>,
    settings_file: Option<Seq<char>>,
    claude_args: Seq<Seq<char>>,
    prompt: Option<Seq<char>>,
) -> Seq<Seq<char>> {
    preset_args + (match settings_file {
        Some(f) => seq!["--settings"@, f],
        None => Seq::empty(),
    }) + claude_args + (match prompt {
        Some(p) => seq![p],
        None => Seq::empty(),
    })
}

/// The arguments of a run are laid out in a fixed order, whatever is present: the preset's
/// arguments first and unchanged, then `--settings` and the settings file when there is one,
/// then the extra command-line arguments unchanged, and the prompt, when there is one,
/// always last, so nothing is ever dropped.
pub proof fn lemma_command_args_layout(
    preset_args: Seq<Seq<char>>,
    settings_file: Option<Seq<char>>,
    claude_args: Seq<Seq<char>>,
    prompt: Option<Seq<char>>,
)
    ensures
        ({
            let r = command_args(preset_args, settings_file, claude_args, prompt);
            let s: int = if settings_file is Some { 2 } else { 0 };
            let p: int = if prompt is Some { 1 } else { 0 };
            &&& r.len() == preset_args.len() + s + claude_args.len() + p
            &&& forall|i: int| 0 <= i < preset_args.len() ==> r[i] == #[trigger] preset_args[i]
            &&& (settings_file matches Some(f) ==> r[preset_args.len() as int] == "--settings"@
                && r[preset_args.len() + 1int] == f)
            &&& forall|j: int| 0 <= j < claude_args.len() ==> r[preset_args.len() + s + j] == #[trigger] claude_args[j]
            &&& (prompt matches Some(q) ==> r.last() == q)
            &&& (prompt is None && claude_args.len() > 0 ==> r.last() == claude_args.last())
        }),
{
    let r = command_args(preset_args, settings_file, claude_args, prompt);
    let sf: Seq<Seq<char>> = match settings_file {
        Some(f) => seq!["--settings"@, f],
        None => Seq::empty(),
    };
    let pr: Seq<Seq<char>> = match prompt {
        Some(q) => seq![q],
        None => Seq::empty(),
    };
    assert(r == preset_args + sf + claude_args + pr);
    assert forall|i: int| 0 <= i < preset_args.len() implies r[i] == #[trigger] preset_args[i] by {}
    assert forall|j: int| 0 <= j < claude_args.len() implies r[preset_args.len() + sf.len() + j] == #[trigger] claude_args[j] by {}
}

/// The arguments the wrapped CLI gets: the preset's, then `--settings <file>` when the preset
/// has settings, then the extra command-line arguments, then the prompt.
pub fn claude_command_args(
    preset_args: &Vec<String>,
    settings_file: Option<&str>,
    claude_args: &Vec<String>,
    prompt: Option<&str>,
) -> (r: Vec<String>)
    ensures
        strings_view(r@) == command_args(
            strings_view(preset_args@),
            opt_str_view(settings_file),
            strings_view(claude_args@),
            opt_str_view(prompt),
        ),
{
    let mut out = crate::preset::inheritance::clone_strings(preset_args);
    let ghost a = strings_view(out@);
    match settings_file {
        Some(f) => {
            out.push("--settings".to_owned());
            out.push(f.to_owned());
            assert(strings_view(out@) =~= a + seq!["--settings"@, f@]);
        },
        None => {
            assert(strings_view(out@) =~= a + Seq::<Seq<char>>::empty());
        },
    }
    let ghost b = strings_view(out@);
    let n = claude_args.len();
    for i in 0..n
        invariant
            n == claude_args@.len(),
            strings_view(out@) == b + strings_view(claude_args@).take(i as int),
    {
        let ghost before = out@;
        let c = claude_args[i].clone();
        out.push(c);
        assert(strings_view(before).len() == before.len());
        assert(strings_view(out@) =~= strings_view(before).push(c@));
        assert(strings_view(out@) =~= b + strings_view(claude_args@).take(i + 1));
    }
    assert(strings_view(claude_args@).take(n as int) =~= strings_view(claude_args@));
    let ghost c = strings_view(out@);
    match prompt {
        Some(p) => {
            out.push(p.to_owned());
            assert(strings_view(out@) =~= c + seq![p@]);
        },
        None => {
            assert(strings_view(out@) =~= c + Seq::<Seq<char>>::empty());
        },
    }
    out
}

/// The line a dry run of a resolved preset prints: its variables (unless the
/// `dry_run_show_env` setting is `false`), the executable, and the arguments of the run
/// (see `command_args`), each quoted for the shell. An unreadable setting is the error.
pub fn dry_run_line(
    resolved: &ResolvedPreset,
    settings_file: Option<&str>,
    claude_args: &Vec<String>,
    show_env_setting: Result<Option<bool>, ClaudioError>,
    claude_executable: &str,
) -> (r: Result<String, ClaudioError>)
    ensures
        match show_env_setting {
            Err(e) => r == Err::<String, ClaudioError>(e),
            Ok(v) => r matches Ok(line) && line@ == dry_run_command(
                string_pairs(resolved.env@),
                command_args(
                    strings_view(resolved.args@),
                    opt_str_view(settings_file),
                    strings_view(claude_args@),
                    crate::text::opt_string_view(resolved.prompt),
                ),
                v != Some(false),
                claude_executable@,
            ),
        },
{
    let show_env = match effective_dry_run_show_env(show_env_setting) {
        Ok(b) => b,
        Err(e) => return Err(e),
    };
    let prompt = match &resolved.prompt {
        Some(p) => Some(p.as_str()),
        None => None,
    };
    let args = claude_command_args(&resolved.args, settings_file, claude_args, prompt);
    Ok(build_dry_run_command(&resolved.env, &args, show_env, claude_executable))
}

/// The exit code of a run: the wrapped CLI's status code clamped to 0..=255, or 1 when it
/// ended without one.
pub fn run_exit_code(code: Option<i32>) -> (r: u8)
    ensures
        r == match code {
            Some(c) => if c < 0 {
                0
            } else if c > 255 {
                255
            } else {
                c as u8
            },
            None => 1,
        },
{
    match code {
        Some(c) => if c < 0 {
            0
        } else if c > 255 {
            255
        } else {
            c as u8
        },
        None => 1,
    }
}

} // verus!
