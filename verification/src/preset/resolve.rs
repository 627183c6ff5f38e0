//! Resolving a preset: its env values, the file paths they name, confirmation of
//! commands, and inheritance through `extends`.
use vstd::prelude::*;
use crate::env::{EnvVars, env_lookup, get_required_env_var, substitute, substitute_env_vars};
use crate::error::ClaudioError;
use crate::order::{clone_string_pairs, string_pairs};
use crate::path::{expand_tilde, home_expanded, is_absolute, is_absolute_path, join, join_path, parent, parent_of, starts_with_home};
use crate::preset::types::{EnvValue, EnvValueSource, PresetSource};
use crate::text::{decimal, decimal_string, str_eq, trim_end, trim_end_seq};

verus! {

/// No name occurs twice.
pub open spec fn keys_unique(s: Seq<(Seq<char>, Seq<char>)>) -> bool {
    forall|i: int, j: int| 0 <= i < j < s.len() ==> (#[trigger] s[i]).0 != (#[trigger] s[j]).0
}

/// Name/value pairs as a map; a later pair for a name replaces an earlier one.
pub open spec fn pairs_map(s: Seq<(Seq<char>, Seq<char>)>) -> Map<Seq<char>, Seq<char>>
    decreases s.len(),
{
    if s.len() == 0 {
        Map::empty()
    } else {
        pairs_map(s.drop_last()).insert(s.last().0, s.last().1)
    }
}

/// With unique names, the map holds exactly the pairs.
pub proof fn lemma_pairs_map(s: Seq<(Seq<char>, Seq<char>)>)
    requires
        keys_unique(s),
    ensures
        forall|k: Seq<char>| #[trigger] pairs_map(s).contains_key(k) <==> exists|i: int| 0 <= i < s.len() && s[i].0 == k,
        forall|i: int| 0 <= i < s.len() ==> #[trigger] pairs_map(s)[s[i].0] == s[i].1,
        pairs_map(s).dom().finite(),
    decreases s.len(),
{
    if s.len() > 0 {
        let init = s.drop_last();
        assert(keys_unique(init)) by {
            assert forall|i: int, j: int| 0 <= i < j < init.len() implies (#[trigger] init[i]).0 != (#[trigger] init[j]).0 by {
                assert(init[i] == s[i] && init[j] == s[j]);
            }
        }
        lemma_pairs_map(init);
        assert forall|k: Seq<char>| #[trigger] pairs_map(s).contains_key(k) <==> exists|i: int| 0 <= i < s.len() && s[i].0 == k by {
            if pairs_map(init).contains_key(k) {
                let i = choose|i: int| 0 <= i < init.len() && init[i].0 == k;
                assert(s[i] == init[i]);
            }
            if exists|i: int| 0 <= i < s.len() && s[i].0 == k {
                let i = choose|i: int| 0 <= i < s.len() && s[i].0 == k;
                if i < s.len() - 1 {
                    assert(s[i] == init[i]);
                }
            }
        }
        assert forall|i: int| 0 <= i < s.len() implies #[trigger] pairs_map(s)[s[i].0] == s[i].1 by {
            if i < s.len() - 1 {
                assert(s[i] == init[i]);
                assert(s[i].0 != s[s.len() - 1].0);
            }
        }
    }
}

fn find_key(env: &Vec<(String, String)>, key: &str) -> (r: Option<usize>)
    ensures
        match r {
            Some(i) => i < env@.len() && env@[i as int].0@ == key@,
            None => forall|i: int| 0 <= i < env@.len() ==> (#[trigger] env@[i]).0@ != key@,
        },
{
    let n = env.len();
    for i in 0..n
        invariant
            n == env@.len(),
            forall|k: int| 0 <= k < i ==> (#[trigger] env@[k]).0@ != key@,
    {
        if str_eq(env[i].0.as_str(), key) {
            return Some(i);
        }
    }
    None
}

/// Set a variable: replace its value if present, else add it at the end.
pub fn insert_env(env: &mut Vec<(String, String)>, key: String, value: String)
    requires
        keys_unique(string_pairs(old(env)@)),
    ensures
        keys_unique(string_pairs(final(env)@)),
        pairs_map(string_pairs(final(env)@)) == pairs_map(string_pairs(old(env)@)).insert(key@, value@),
{
    let ghost before = string_pairs(env@);
    proof {
        lemma_pairs_map(before);
    }
    match find_key(env, key.as_str()) {
        Some(i) => {
            env.set(i, (key, value));
            let ghost after = string_pairs(env@);
            assert(after =~= before.update(i as int, (key@, value@)));
            assert forall|a: int| 0 <= a < after.len() implies (#[trigger] after[a]).0 == before[a].0 by {}
            assert(keys_unique(after)) by {
                assert forall|a: int, b: int| 0 <= a < b < after.len() implies (#[trigger] after[a]).0 != (#[trigger] after[b]).0 by {
                    assert(after[a].0 == before[a].0 && after[b].0 == before[b].0);
                }
            }
            proof {
                lemma_pairs_map(after);
            }
            assert(pairs_map(after) =~= pairs_map(before).insert(key@, value@)) by {
                assert forall|k: Seq<char>| pairs_map(after).contains_key(k) <==> pairs_map(before).insert(key@, value@).contains_key(k) by {
                    if pairs_map(before).contains_key(k) {
                        let j = choose|j: int| 0 <= j < before.len() && before[j].0 == k;
                        assert(after[j].0 == k);
                    }
                    if pairs_map(after).contains_key(k) {
                        let j = choose|j: int| 0 <= j < after.len() && after[j].0 == k;
                        assert(before[j].0 == k);
                    }
                    if k == key@ {
                        assert(after[i as int].0 == k);
                        assert(before[i as int].0 == k);
                    }
                }
                assert forall|k: Seq<char>| pairs_map(after).contains_key(k) implies pairs_map(after)[k] == pairs_map(before).insert(key@, value@)[k] by {
                    let j = choose|j: int| 0 <= j < after.len() && after[j].0 == k;
                    assert(pairs_map(after)[after[j].0] == after[j].1);
                    if j != i {
                        if j < i {
                            assert(after[j].0 != after[i as int].0);
                        } else {
                            assert(after[i as int].0 != after[j].0);
                        }
                        assert(pairs_map(before)[before[j].0] == before[j].1);
                    }
                }
            }
        },
        None => {
            env.push((key, value));
            let ghost after = string_pairs(env@);
            assert(after =~= before.push((key@, value@)));
            assert(after.drop_last() =~= before);
        },
    }
}

/// The variables of a preset over those of its base: each variable of the base that the
/// preset does not set is added after the preset's own.
pub fn merge_env(derived: &Vec<(String, String)>, base: &Vec<(String, String)>) -> (r: Vec<(String, String)>)
    requires
        keys_unique(string_pairs(derived@)),
        keys_unique(string_pairs(base@)),
    ensures
        keys_unique(string_pairs(r@)),
        pairs_map(string_pairs(r@)) == pairs_map(string_pairs(base@)).union_prefer_right(pairs_map(string_pairs(derived@))),
{
    let mut out = clone_string_pairs(derived);
    let ghost dm = pairs_map(string_pairs(derived@));
    let ghost bs = string_pairs(base@);
    proof {
        lemma_pairs_map(string_pairs(derived@));
        lemma_pairs_map(bs);
    }
    let m = base.len();
    for j in 0..m
        invariant
            m == base@.len(),
            bs == string_pairs(base@),
            keys_unique(bs),
            keys_unique(string_pairs(out@)),
            dm == pairs_map(string_pairs(derived@)),
            pairs_map(string_pairs(out@)) == pairs_map(bs.take(j as int)).union_prefer_right(dm),
            forall|k: Seq<char>| #[trigger] dm.contains_key(k) ==> pairs_map(string_pairs(out@)).contains_key(k),
    {
        let ghost before = string_pairs(out@);
        proof {
            lemma_pairs_map(before);
            assert(bs.take(j + 1).drop_last() =~= bs.take(j as int));
            assert(bs.take(j + 1).last() == bs[j as int]);
        }
        match find_key(&out, base[j].0.as_str()) {
            Some(idx) => {
                proof {
                    assert(before[idx as int].0 == bs[j as int].0);
                    assert(pairs_map(before).contains_key(bs[j as int].0));
                    if !dm.contains_key(bs[j as int].0) {
                        // a name present in `out` and not in `derived` came from an earlier base entry
                        assert(pairs_map(bs.take(j as int)).contains_key(bs[j as int].0));
                        lemma_pairs_map(bs.take(j as int));
                        let t = choose|t: int| 0 <= t < bs.take(j as int).len() && bs.take(j as int)[t].0 == bs[j as int].0;
                        assert(bs[t].0 == bs[j as int].0);
                    }
                }
                assert(pairs_map(bs.take(j + 1)).union_prefer_right(dm) =~= pairs_map(bs.take(j as int)).union_prefer_right(dm));
            },
            None => {
                let p = (base[j].0.clone(), base[j].1.clone());
                out.push(p);
                let ghost after = string_pairs(out@);
                assert(after =~= before.push(bs[j as int]));
                assert(after.drop_last() =~= before);
                assert(keys_unique(after));
                assert(!dm.contains_key(bs[j as int].0));
                assert(pairs_map(after) =~= pairs_map(bs.take(j + 1)).union_prefer_right(dm));
            },
        }
    }
    assert(bs.take(m as int) =~= bs);
    out
}

/// Where a file named by an env value is: a leading `~` is the OS home directory; an
/// absolute path stands as it is; a relative path is taken from the preset file's
/// directory, or from the current directory for an inline preset. `None` is an error:
/// no home directory, no parent directory, or no current directory.
pub open spec fn file_path_for_source(
    path: Seq<char>,
    source: PresetSource,
    os_home: Option<Seq<char>>,
    cwd: Option<Seq<char>>,
) -> Result<Seq<char>, ClaudioError> {
    if starts_with_home(path) && os_home is None {
        Err(ClaudioError::HomeDirUnknown)
    } else {
        let expanded = if starts_with_home(path) {
            home_expanded(path, os_home->0)
        } else {
            path
        };
        if is_absolute_path(expanded) {
            Ok(expanded)
        } else {
            match source {
                PresetSource::File(pp) => match parent_of(pp@) {
                    Some(dir) => Ok(join_path(dir, expanded)),
                    None => Err(ClaudioError::NoParentDirectory),
                },
                PresetSource::Inline => match cwd {
                    Some(c) => Ok(join_path(c, expanded)),
                    None => Err(ClaudioError::CurrentDirUnknown),
                },
            }
        }
    }
}

/// Resolve a file path of an env value against the preset's source; the OS home
/// directory and the current directory are given.
pub fn resolve_file_path_for_source(
    path: &str,
    source: &PresetSource,
    os_home: Option<&str>,
    cwd: Option<&str>,
) -> (r: Result<String, ClaudioError>)
    requires
        source matches PresetSource::File(pp) ==> pp@.len() < i64::MAX,
    ensures
        match file_path_for_source(
            path@,
            *source,
            match os_home {
                Some(h) => Some(h@),
                None => None,
            },
            match cwd {
                Some(c) => Some(c@),
                None => None,
            },
        ) {
            Ok(p) => r matches Ok(q) && q@ == p,
            Err(e) => r matches Err(f) && f == e,
        },
{
    let expanded = match os_home {
        Some(h) => expand_tilde(path, h),
        None => {
            if starts_with_home_str(path) {
                return Err(ClaudioError::HomeDirUnknown);
            }
            path.to_owned()
        },
    };
    if is_absolute(expanded.as_str()) {
        return Ok(expanded);
    }
    match source {
        PresetSource::File(pp) => match parent(pp.as_str()) {
            Some(dir) => Ok(join(dir.as_str(), expanded.as_str())),
            None => Err(ClaudioError::NoParentDirectory),
        },
        PresetSource::Inline => match cwd {
            Some(c) => Ok(join(c, expanded.as_str())),
            None => Err(ClaudioError::CurrentDirUnknown),
        },
    }
}

fn starts_with_home_str(path: &str) -> (r: bool)
    ensures
        r == starts_with_home(path@),
{
    let cs = crate::text::chars_of(path);
    let r = (cs.len() == 1 && cs[0] == '~') || (cs.len() >= 2 && cs[0] == '~' && cs[1] == '/');
    proof {
        if cs.len() == 1 && cs[0] == '~' {
            assert(cs@ =~= seq!['~']);
        }
        if cs@ == seq!['~'] {
            assert(cs@.len() == 1);
        }
    }
    r
}

/// Asks the user whether a command-backed env value may run. The CLI implements it;
/// the library itself never prompts.
pub trait ConfirmCommand {
    fn confirm_command(&self, request: ConfirmCommandRequest<'_>) -> Result<bool, ClaudioError>;
}

/// What a confirmation is asked about.
pub struct ConfirmCommandRequest<'a> {
    pub command: &'a str,
}

/// How command-backed env values are treated while resolving.
pub struct ResolverConfig<C> {
    /// Run commands without confirmation unless the preset sets `confirm: true`.
    pub skip_command_confirmation: bool,
    /// Who confirms; when confirmation is needed and there is none, resolution fails.
    pub confirm_command: Option<C>,
}

impl<C> ResolverConfig<C> {
    /// Confirmation required, and no one to give it.
    pub fn new() -> (r: Self)
        ensures
            !r.skip_command_confirmation,
            r.confirm_command is None,
    {
        ResolverConfig { skip_command_confirmation: false, confirm_command: None }
    }
}

/// A command needs confirmation when the preset says so; when it says nothing, unless
/// confirmation is switched off.
pub open spec fn needs_confirmation(confirm: Option<bool>, skip: bool) -> bool {
    match confirm {
        Some(c) => c,
        None => !skip,
    }
}

/// Whether a command-backed env value must be confirmed before it runs.
pub fn should_confirm_command<C>(confirm: Option<bool>, cfg: &ResolverConfig<C>) -> (r: bool)
    ensures
        r == needs_confirmation(confirm, cfg.skip_command_confirmation),
{
    match confirm {
        Some(c) => c,
        None => !cfg.skip_command_confirmation,
    }
}

/// What an answer to a confirmation means: run on yes, refuse on no, and pass an error on.
pub fn confirmation_outcome(answer: Result<bool, ClaudioError>) -> (r: Result<(), ClaudioError>)
    ensures
        match answer {
            Ok(true) => r is Ok,
            Ok(false) => r matches Err(ClaudioError::CommandDenied),
            Err(e) => r == Err::<(), ClaudioError>(e),
        },
{
    match answer {
        Ok(true) => Ok(()),
        Ok(false) => Err(ClaudioError::CommandDenied),
        Err(e) => Err(e),
    }
}

/// Decide whether the command of env value `env_key` may run: without asking when no
/// confirmation is needed; an error when it is needed and no confirmer is configured;
/// else the confirmer is asked about `command` and its answer decides (see
/// `confirmation_outcome`): yes runs, no is `CommandDenied`, an error is passed on. What the
/// confirmer answers is up to its implementation.
pub fn authorize_command<C: ConfirmCommand>(
    env_key: &str,
    command: &str,
    confirm: Option<bool>,
    cfg: &ResolverConfig<C>,
) -> (r: Result<(), ClaudioError>)
    ensures
        !needs_confirmation(confirm, cfg.skip_command_confirmation) ==> r is Ok,
        needs_confirmation(confirm, cfg.skip_command_confirmation) && cfg.confirm_command is None
            ==> (r matches Err(ClaudioError::ConfirmationUnavailable(k)) && k@ == env_key@),
        needs_confirmation(confirm, cfg.skip_command_confirmation) && cfg.confirm_command is Some
            ==> exists|a: Result<bool, ClaudioError>| #[trigger] call_ensures(
                C::confirm_command,
                (&cfg.confirm_command->0, (ConfirmCommandRequest { command })),
                a,
            ) && match a {
                Ok(true) => r is Ok,
                Ok(false) => r matches Err(ClaudioError::CommandDenied),
                Err(e) => r == Err::<(), ClaudioError>(e),
            },
{
    if !should_confirm_command(confirm, cfg) {
        return Ok(());
    }
    match &cfg.confirm_command {
        None => Err(ClaudioError::ConfirmationUnavailable(env_key.to_owned())),
        Some(c) => {
            let answer = c.confirm_command(ConfirmCommandRequest { command });
            confirmation_outcome(answer)
        },
    }
}

/// What is left to do for one env value.
#[derive(Debug, Clone, PartialEq, Eq)]
pub enum EnvValuePlan {
    /// The value is known.
    Ready(String),
    /// The value is the content of this file, with trailing whitespace removed.
    ReadFile(String),
    /// The value is the output of this command, with trailing whitespace removed; it may
    /// need confirmation first.
    RunCommand { command: String, confirm: Option<bool> },
}

/// Work out one env value of a preset, as far as it needs no I/O: direct values have their
/// `${VAR}` references substituted, `env` sources are looked up, `file` sources have their
/// path resolved, and commands are handed on.
pub fn plan_env_value(
    value: &EnvValue,
    source: &PresetSource,
    env: &EnvVars,
    os_home: Option<&str>,
    cwd: Option<&str>,
) -> (r: Result<EnvValuePlan, ClaudioError>)
    requires
        source matches PresetSource::File(pp) ==> pp@.len() < i64::MAX,
    ensures
        match *value {
            EnvValue::Direct(s) => match substitute(s@, env@) {
                Ok(x) => r matches Ok(EnvValuePlan::Ready(y)) && y@ == x,
                Err(n) => r matches Err(ClaudioError::MissingEnvVar(m)) && m@ == n,
            },
            EnvValue::Structured { source: vs } => match vs {
                EnvValueSource::Value { value: v } => r matches Ok(EnvValuePlan::Ready(y)) && y@ == v@,
                EnvValueSource::Env { var } => match env_lookup(env@, var@) {
                    Some(x) => r matches Ok(EnvValuePlan::Ready(y)) && y@ == x,
                    None => r matches Err(ClaudioError::MissingEnvVar(m)) && m@ == var@,
                },
                EnvValueSource::File { path } => match file_path_for_source(
                    path@,
                    *source,
                    match os_home {
                        Some(h) => Some(h@),
                        None => None,
                    },
                    match cwd {
                        Some(c) => Some(c@),
                        None => None,
                    },
                ) {
                    Ok(p) => r matches Ok(EnvValuePlan::ReadFile(q)) && q@ == p,
                    Err(e) => r == Err::<EnvValuePlan, ClaudioError>(e),
                },
                EnvValueSource::Command { command, confirm } => r matches Ok(
                    EnvValuePlan::RunCommand { command: c, confirm: k },
                ) && c@ == command@ && k == confirm,
            },
        },
{
    match value {
        EnvValue::Direct(s) => match substitute_env_vars(s.as_str(), env) {
            Ok(x) => Ok(EnvValuePlan::Ready(x)),
            Err(e) => Err(e),
        },
        EnvValue::Structured { source: vs } => match vs {
            EnvValueSource::Value { value: v } => Ok(EnvValuePlan::Ready(v.clone())),
            EnvValueSource::Env { var } => match get_required_env_var(var.as_str(), env) {
                Ok(x) => Ok(EnvValuePlan::Ready(x)),
                Err(e) => Err(e),
            },
            EnvValueSource::File { path } => match resolve_file_path_for_source(path.as_str(), source, os_home, cwd) {
                Ok(p) => Ok(EnvValuePlan::ReadFile(p)),
                Err(e) => Err(e),
            },
            EnvValueSource::Command { command, confirm } => Ok(
                EnvValuePlan::RunCommand { command: command.clone(), confirm: *confirm },
            ),
        },
    }
}

/// The value of a `file` env source from what reading the file gave: its content without
/// trailing whitespace, or the read error with the path in front of it.
pub fn file_value(path: &str, read: Result<String, String>) -> (r: Result<String, ClaudioError>)
    ensures
        match read {
            Ok(content) => r matches Ok(v) && v@ == trim_end_seq(content@),
            Err(e) => r matches Err(ClaudioError::Context { context, cause })
                && context@ == "Failed to read file: "@ + path@
                && *cause == ClaudioError::Message(e),
        },
{
    match read {
        Ok(content) => Ok(trim_end(content.as_str())),
        Err(e) => {
            let mut context = "Failed to read file: ".to_owned();
            context.push_str(path);
            Err(ClaudioError::Context { context, cause: Box::new(ClaudioError::Message(e)) })
        },
    }
}

/// How a command-backed env value's command went.
#[derive(Debug, PartialEq, Eq)]
pub enum CommandRun {
    /// The shell could not be started (the reason).
    NotStarted(String),
    /// It ran: whether it succeeded, its exit code (none when a signal ended it), its
    /// standard output (or why it is not UTF-8), and its standard error.
    Finished { success: bool, code: Option<i32>, stdout: Result<String, String>, stderr: String },
}

/// An integer in decimal notation, with a leading `-` when negative.
pub open spec fn int_decimal(n: int) -> Seq<char> {
    if n < 0 { seq!['-'] + decimal((-n) as nat) } else { decimal(n as nat) }
}

/// An optional exit code as `Option`'s debug form shows it: `Some(<n>)` or `None`.
pub open spec fn code_text(code: Option<i32>) -> Seq<char> {
    match code {
        Some(c) => "Some("@ + int_decimal(c as int) + ")"@,
        None => "None"@,
    }
}

/// An integer in decimal notation (`i32::to_string`).
pub fn int_text(c: i32) -> (r: String)
    ensures
        r@ == int_decimal(c as int),
{
    if c < 0 {
        let mut r = "-".to_owned();
        let m: i64 = -(c as i64);
        let digits = decimal_string(m as u64);
        r.push_str(digits.as_str());
        proof {
            assert(seq!['-'] + decimal((-(c as int)) as nat) =~= "-"@ + digits@) by {
                reveal_strlit("-");
            }
        }
        r
    } else {
        decimal_string(c as u64)
    }
}

fn code_text_of(code: Option<i32>) -> (r: String)
    ensures
        r@ == code_text(code),
{
    match code {
        Some(c) => {
            let mut r = "Some(".to_owned();
            let t = int_text(c);
            r.push_str(t.as_str());
            r.push_str(")");
            r
        },
        None => "None".to_owned(),
    }
}

/// The value of a `command` env source from how its command went: its standard output
/// without trailing whitespace when it succeeded; else an error saying what failed.
pub fn command_value(command: &str, run: CommandRun) -> (r: Result<String, ClaudioError>)
    ensures
        match run {
            CommandRun::NotStarted(e) => r matches Err(ClaudioError::Context { context, cause })
                && context@ == "Failed to execute command: "@ + command@
                && *cause == ClaudioError::Message(e),
            CommandRun::Finished { success, code, stdout, stderr } => if !success {
                r matches Err(ClaudioError::Message(m)) && m@ == "Command failed with exit code "@
                    + code_text(code) + ": "@ + command@ + "\n\nstderr:\n"@ + trim_end_seq(stderr@)
            } else {
                match stdout {
                    Ok(out) => r matches Ok(v) && v@ == trim_end_seq(out@),
                    Err(e) => r == Err::<String, ClaudioError>(ClaudioError::Message(e)),
                }
            },
        },
{
    match run {
        CommandRun::NotStarted(e) => {
            let mut context = "Failed to execute command: ".to_owned();
            context.push_str(command);
            Err(ClaudioError::Context { context, cause: Box::new(ClaudioError::Message(e)) })
        },
        CommandRun::Finished { success, code, stdout, stderr } => {
            if !success {
                let mut m = "Command failed with exit code ".to_owned();
                let ct = code_text_of(code);
                m.push_str(ct.as_str());
                m.push_str(": ");
                m.push_str(command);
                m.push_str("\n\nstderr:\n");
                let t = trim_end(stderr.as_str());
                m.push_str(t.as_str());
                Err(ClaudioError::Message(m))
            } else {
                match stdout {
                    Ok(out) => Ok(trim_end(out.as_str())),
                    Err(e) => Err(ClaudioError::Message(e)),
                }
            }
        },
    }
}

} // verus!
