//! The doctor report: checks of the installation, settings and presets, and the exit
//! code that sums them up.
use vstd::prelude::*;
use crate::error::{ClaudioError, error_display, error_message};
use crate::json::{Json, JsonValue, entries_map, json_object, json_opt_str, json_opt_string, json_str_array, json_string, json_strings, json_view, json_wf, keys_sorted};
use crate::order::{seq_lt, lemma_seq_lt_transitive};
use crate::env::{EnvVars, env_lookup, extract_variable_references, find_env_var, var_refs};
use crate::order::{insert_sorted_unique, strictly_sorted};
use crate::preset::resolve::{file_path_for_source, resolve_file_path_for_source};
use crate::preset::types::{EnvValue, EnvValueSource, Preset, PresetSource, preset_errors, preset_warnings};
use crate::scope::Scope;
use crate::text::{join_with, opt_string_view, strings_view};

verus! {

/// The outcome of one check.
#[derive(Debug, Clone, Copy, PartialEq, Eq, Structural)]
pub enum CheckStatus {
    Pass,
    Warn,
    Fail,
}

/// One check of the report.
#[derive(Debug, Clone, PartialEq, Eq)]
pub struct CheckResult {
    pub name: String,
    pub status: CheckStatus,
    pub message: String,
    pub details: Option<JsonValue>,
}

/// How many checks passed, warned and failed.
#[derive(Debug, Clone, PartialEq, Eq)]
pub struct DoctorSummary {
    pub pass: usize,
    pub warn: usize,
    pub fail: usize,
}

/// The checks in the order they ran, with their summary.
#[derive(Debug, Clone, PartialEq, Eq)]
pub struct DoctorReport {
    checks: Vec<CheckResult>,
    summary: DoctorSummary,
}

/// How many checks have this status.
pub open spec fn count_status(checks: Seq<CheckResult>, st: CheckStatus) -> nat
    decreases checks.len(),
{
    if checks.len() == 0 {
        0
    } else {
        count_status(checks.drop_last(), st) + if checks.last().status == st {
            1nat
        } else {
            0nat
        }
    }
}

/// Some check has this status.
pub open spec fn any_status(checks: Seq<CheckResult>, st: CheckStatus) -> bool {
    exists|i: int| 0 <= i < checks.len() && (#[trigger] checks[i]).status == st
}

/// The exit code of a report: 2 when a check failed, else 1 when one warned, else 0.
pub open spec fn exit_code_of(checks: Seq<CheckResult>) -> u8 {
    if any_status(checks, CheckStatus::Fail) {
        2
    } else if any_status(checks, CheckStatus::Warn) {
        1
    } else {
        0
    }
}

/// A status is counted exactly when some check has it.
pub proof fn lemma_count_positive(checks: Seq<CheckResult>, st: CheckStatus)
    ensures
        count_status(checks, st) > 0 <==> any_status(checks, st),
        count_status(checks, st) <= checks.len(),
    decreases checks.len(),
{
    if checks.len() > 0 {
        lemma_count_positive(checks.drop_last(), st);
        let init = checks.drop_last();
        if any_status(init, st) {
            let i = choose|i: int| 0 <= i < init.len() && (#[trigger] init[i]).status == st;
            assert(checks[i] == init[i]);
        }
        if any_status(checks, st) {
            let i = choose|i: int| 0 <= i < checks.len() && (#[trigger] checks[i]).status == st;
            if i < checks.len() - 1 {
                assert(init[i] == checks[i]);
            }
        }
    }
}

impl DoctorReport {
    /// The summary counts each status of the checks.
    pub closed spec fn wf(&self) -> bool {
        &&& self.summary.pass == count_status(self.checks@, CheckStatus::Pass)
        &&& self.summary.warn == count_status(self.checks@, CheckStatus::Warn)
        &&& self.summary.fail == count_status(self.checks@, CheckStatus::Fail)
    }

    /// The checks of the report, in order.
    pub closed spec fn checks_view(&self) -> Seq<CheckResult> {
        self.checks@
    }

    /// A report without checks.
    pub fn new() -> (r: Self)
        ensures
            r.wf(),
            r.checks_view().len() == 0,
    {
        DoctorReport { checks: Vec::new(), summary: DoctorSummary { pass: 0, warn: 0, fail: 0 } }
    }

    /// Add a check, counting its status.
    pub fn add_check(&mut self, result: CheckResult)
        requires
            old(self).wf(),
            old(self).checks_view().len() < usize::MAX,
        ensures
            final(self).wf(),
            final(self).checks_view() == old(self).checks_view().push(result),
    {
        proof {
            lemma_count_positive(self.checks@, CheckStatus::Pass);
            lemma_count_positive(self.checks@, CheckStatus::Warn);
            lemma_count_positive(self.checks@, CheckStatus::Fail);
        }
        let ghost before = self.checks@;
        match result.status {
            CheckStatus::Pass => self.summary.pass = self.summary.pass + 1,
            CheckStatus::Warn => self.summary.warn = self.summary.warn + 1,
            CheckStatus::Fail => self.summary.fail = self.summary.fail + 1,
        }
        self.checks.push(result);
        assert(self.checks@.drop_last() =~= before);
    }

    /// The checks, in order.
    pub fn checks(&self) -> (r: &Vec<CheckResult>)
        ensures
            r@ == self.checks_view(),
    {
        &self.checks
    }

    /// The counts of each status.
    pub fn summary(&self) -> (r: &DoctorSummary)
        requires
            self.wf(),
        ensures
            r.pass == count_status(self.checks_view(), CheckStatus::Pass),
            r.warn == count_status(self.checks_view(), CheckStatus::Warn),
            r.fail == count_status(self.checks_view(), CheckStatus::Fail),
    {
        &self.summary
    }

    /// 2 when a check failed, else 1 when a check warned, else 0.
    pub fn exit_code(&self) -> (r: u8)
        requires
            self.wf(),
        ensures
            r == exit_code_of(self.checks_view()),
    {
        proof {
            lemma_count_positive(self.checks@, CheckStatus::Warn);
            lemma_count_positive(self.checks@, CheckStatus::Fail);
        }
        if self.summary.fail > 0 {
            2
        } else if self.summary.warn > 0 {
            1
        } else {
            0
        }
    }
}

/// Keys in increasing order, shown pair by pair.
proof fn lemma_sorted_from_adjacent(es: Seq<(String, JsonValue)>)
    requires
        forall|i: int| 0 <= i < es.len() - 1 ==> seq_lt(#[trigger] es[i].0@, es[i + 1].0@),
    ensures
        keys_sorted(es),
    decreases es.len(),
{
    if es.len() > 1 {
        let init = es.drop_last();
        assert forall|i: int| 0 <= i < init.len() - 1 implies seq_lt(#[trigger] init[i].0@, init[i + 1].0@) by {
            assert(init[i] == es[i] && init[i + 1] == es[i + 1]);
        }
        lemma_sorted_from_adjacent(init);
        assert forall|i: int, j: int| 0 <= i < j < es.len() implies seq_lt(#[trigger] es[i].0@, #[trigger] es[j].0@) by {
            if j < es.len() - 1 {
                assert(init[i] == es[i] && init[j] == es[j]);
            } else if i < j - 1 {
                assert(init[i] == es[i] && init[j - 1] == es[j - 1]);
                assert(seq_lt(es[i].0@, es[j - 1].0@));
                lemma_seq_lt_transitive(es[i].0@, es[j - 1].0@, es[j].0@);
            }
        }
    }
}

/// The name of a scope in check names and details.
pub open spec fn scope_word(s: Scope) -> Seq<char> {
    match s {
        Scope::Project => "project"@,
        Scope::User => "user"@,
        Scope::Auto => "auto"@,
    }
}

fn scope_word_of(s: Scope) -> (r: String)
    ensures
        r@ == scope_word(s),
{
    match s {
        Scope::Project => "project".to_owned(),
        Scope::User => "user".to_owned(),
        Scope::Auto => "auto".to_owned(),
    }
}

fn concat2(a: &str, b: &str) -> (r: String)
    ensures
        r@ == a@ + b@,
{
    let mut r = a.to_owned();
    r.push_str(b);
    r
}

fn concat3(a: &str, b: &str, c: &str) -> (r: String)
    ensures
        r@ == a@ + b@ + c@,
{
    let mut r = a.to_owned();
    r.push_str(b);
    r.push_str(c);
    r
}

/// The check of the wrapped CLI's executable, given whether `<executable> --version` ran
/// successfully; `product` is the name under which that CLI is shown to the user.
pub fn claude_executable_check(executable: &str, runs: bool, product: &str) -> (r: CheckResult)
    ensures
        r.name@ == "claude_executable"@,
        r.status == (if runs { CheckStatus::Pass } else { CheckStatus::Fail }),
        r.message@ == (if runs {
            product@ + " executable found"@
        } else {
            product@ + " executable '"@ + executable@ + "' not found or not executable"@
        }),
        r.details matches Some(d) && json_wf(d) && json_view(d) == (if runs {
            Json::Object(Map::empty().insert("executable"@, Json::Str(executable@)))
        } else {
            Json::Object(Map::empty().insert("executable"@, Json::Str(executable@)).insert(
                "suggestion"@,
                Json::Str("Install "@ + product@ + " or configure the correct executable path"@),
            ))
        }),
{
    let mut entries: Vec<(String, JsonValue)> = Vec::new();
    entries.push(("executable".to_owned(), json_string(executable)));
    if !runs {
        let suggestion = concat3("Install ", product, " or configure the correct executable path");
        entries.push(("suggestion".to_owned(), json_string(&suggestion)));
        proof {
            reveal_strlit("executable");
            reveal_strlit("suggestion");
            assert(seq_lt(entries@[0].0@, entries@[1].0@));
            lemma_sorted_from_adjacent(entries@);
        }
    } else {
        proof {
            lemma_sorted_from_adjacent(entries@);
        }
    }
    proof {
        reveal_with_fuel(entries_map, 3);
    }
    let details = json_object(entries);
    let message = if runs {
        let mut m = product.to_owned();
        m.push_str(" executable found");
        m
    } else {
        let mut m = concat3(product, " executable '", executable);
        m.push_str("' not found or not executable");
        m
    };
    CheckResult {
        name: "claude_executable".to_owned(),
        status: if runs { CheckStatus::Pass } else { CheckStatus::Fail },
        message,
        details: Some(details),
    }
}

/// The check of one scope's settings file, given what loading it gave: an error, no file,
/// or the file with the result of validating it.
pub fn settings_check(scope: Scope, loaded: Result<Option<Result<(), ClaudioError>>, ClaudioError>) -> (r: CheckResult)
    requires
        scope != Scope::Auto,
    ensures
        r.details is None,
        match loaded {
            Ok(Some(Ok(()))) => r.name@ == "settings_valid_"@ + scope_word(scope) && r.status == CheckStatus::Pass
                && r.message@ == scope_word(scope) + " settings file is valid"@,
            Ok(Some(Err(e))) => r.name@ == "settings_valid_"@ + scope_word(scope) && r.status == CheckStatus::Fail
                && r.message@ == scope_word(scope) + " settings validation failed: "@ + error_display(e),
            Ok(None) => r.name@ == "settings_present_"@ + scope_word(scope) && r.status == CheckStatus::Warn
                && r.message@ == "No "@ + scope_word(scope) + " settings file found"@,
            Err(e) => r.name@ == "settings_parse_"@ + scope_word(scope) && r.status == CheckStatus::Fail
                && r.message@ == "Failed to parse "@ + scope_word(scope) + " settings: "@ + error_display(e),
        },
{
    let sw = scope_word_of(scope);
    match loaded {
        Ok(Some(Ok(()))) => CheckResult {
            name: concat2("settings_valid_", sw.as_str()),
            status: CheckStatus::Pass,
            message: concat2(sw.as_str(), " settings file is valid"),
            details: None,
        },
        Ok(Some(Err(e))) => {
            let em = e.message();
            CheckResult {
                name: concat2("settings_valid_", sw.as_str()),
                status: CheckStatus::Fail,
                message: concat3(sw.as_str(), " settings validation failed: ", em.as_str()),
                details: None,
            }
        },
        Ok(None) => CheckResult {
            name: concat2("settings_present_", sw.as_str()),
            status: CheckStatus::Warn,
            message: concat3("No ", sw.as_str(), " settings file found"),
            details: None,
        },
        Err(e) => {
            let em = e.message();
            let mut m = concat3("Failed to parse ", sw.as_str(), " settings: ");
            m.push_str(em.as_str());
            CheckResult {
                name: concat2("settings_parse_", sw.as_str()),
                status: CheckStatus::Fail,
                message: m,
                details: None,
            }
        },
    }
}

/// The details entry of one preset directory.
pub open spec fn dir_entry(d: (Seq<char>, bool)) -> Json {
    Json::Object(Map::empty().insert("exists"@, Json::Bool(d.1)).insert("path"@, Json::Str(d.0)))
}

/// Some directory does not exist.
pub open spec fn any_missing(ds: Seq<(Seq<char>, bool)>) -> bool {
    exists|i: int| 0 <= i < ds.len() && !(#[trigger] ds[i]).1
}

/// Directories with whether each exists, as character sequences.
pub open spec fn dirs_view(ds: Seq<(String, bool)>) -> Seq<(Seq<char>, bool)> {
    ds.map_values(|d: (String, bool)| (d.0@, d.1))
}

/// The check of one scope's preset directories, given each directory with whether it
/// exists (or why they could not be determined).
pub fn preset_dir_check(scope_name: &str, dirs: Result<Vec<(String, bool)>, ClaudioError>) -> (r: CheckResult)
    ensures
        r.name@ == "preset_dir_"@ + scope_name@,
        match dirs {
            Err(e) => r.status == CheckStatus::Fail && r.details is None && r.message@
                == "Failed to get preset directories for "@ + scope_name@ + " scope: "@ + error_display(e),
            Ok(ds) => if ds@.len() == 0 {
                r.status == CheckStatus::Fail && r.details is None && r.message@
                    == "No preset directory paths returned for "@ + scope_name@ + " scope"@
            } else {
                let dv = dirs_view(ds@);
                &&& r.status == (if any_missing(dv) { CheckStatus::Warn } else { CheckStatus::Pass })
                &&& r.message@ == (if any_missing(dv) {
                    "Some "@ + scope_name@ + " preset directories are missing (optional)"@
                } else {
                    scope_name@ + " preset directories exist"@
                })
                &&& r.details matches Some(d) && json_wf(d) && json_view(d) == Json::Object(
                    Map::empty().insert("directories"@, Json::Array(dv.map_values(|x: (Seq<char>, bool)| dir_entry(x)))),
                )
            },
        },
{
    let name = concat2("preset_dir_", scope_name);
    match dirs {
        Err(e) => {
            let em = e.message();
            let mut m = concat3("Failed to get preset directories for ", scope_name, " scope: ");
            m.push_str(em.as_str());
            CheckResult { name, status: CheckStatus::Fail, message: m, details: None }
        },
        Ok(ds) => {
            if ds.len() == 0 {
                return CheckResult {
                    name,
                    status: CheckStatus::Fail,
                    message: concat3("No preset directory paths returned for ", scope_name, " scope"),
                    details: None,
                };
            }
            let ghost dv = dirs_view(ds@);
            let mut missing = false;
            let mut items: Vec<JsonValue> = Vec::new();
            let n = ds.len();
            for i in 0..n
                invariant
                    n == ds@.len(),
                    dv == dirs_view(ds@),
                    missing == exists|k: int| 0 <= k < i && !(#[trigger] dv[k]).1,
                    items@.len() == i,
                    forall|k: int| 0 <= k < i ==> json_wf(#[trigger] items@[k]) && json_view(items@[k]) == dir_entry(dv[k]),
            {
                let exists = ds[i].1;
                if !exists {
                    missing = true;
                }
                let mut es: Vec<(String, JsonValue)> = Vec::new();
                es.push(("exists".to_owned(), JsonValue::Bool(exists)));
                es.push(("path".to_owned(), json_string(ds[i].0.as_str())));
                proof {
                    reveal_strlit("exists");
                    reveal_strlit("path");
                    assert(seq_lt(es@[0].0@, es@[1].0@));
                    lemma_sorted_from_adjacent(es@);
                    reveal_with_fuel(entries_map, 3);
                }
                let item = json_object(es);
                assert(dv[i as int] == (ds@[i as int].0@, exists));
                items.push(item);
            }
            proof {
                crate::json::lemma_items_wf(items@);
                assert(crate::json::json_view_seq(items@) =~= dv.map_values(|x: (Seq<char>, bool)| dir_entry(x)));
            }
            let arr = crate::json::json_array(items);
            let mut top: Vec<(String, JsonValue)> = Vec::new();
            top.push(("directories".to_owned(), arr));
            proof {
                lemma_sorted_from_adjacent(top@);
                reveal_with_fuel(entries_map, 2);
            }
            let details = json_object(top);
            let status = if missing { CheckStatus::Warn } else { CheckStatus::Pass };
            let message = if missing {
                concat3("Some ", scope_name, " preset directories are missing (optional)")
            } else {
                concat2(scope_name, " preset directories exist")
            };
            CheckResult { name, status, message, details: Some(details) }
        },
    }
}

/// The failure given when nothing names the executable to check.
pub fn unconfigured_executable_check() -> (r: CheckResult)
    ensures
        r.name@ == "claude_executable"@,
        r.status == CheckStatus::Fail,
        r.message@ == error_message(ClaudioError::NoExecutable),
        r.details is None,
{
    CheckResult {
        name: "claude_executable".to_owned(),
        status: CheckStatus::Fail,
        message: ClaudioError::NoExecutable.full_message(),
        details: None,
    }
}

/// The warning given when there are no presets to check.
pub fn no_presets_check() -> (r: CheckResult)
    ensures
        r.name@ == "presets_found"@,
        r.status == CheckStatus::Warn,
        r.message@ == "No presets found"@,
        r.details is None,
{
    CheckResult {
        name: "presets_found".to_owned(),
        status: CheckStatus::Warn,
        message: "No presets found".to_owned(),
        details: None,
    }
}

/// The failure given when the preset store could not be created.
pub fn store_failure_check(e: ClaudioError) -> (r: CheckResult)
    ensures
        r.name@ == "preset_store"@,
        r.status == CheckStatus::Fail,
        r.message@ == "Failed to create preset store: "@ + error_display(e),
        r.details is None,
{
    let em = e.message();
    CheckResult {
        name: "preset_store".to_owned(),
        status: CheckStatus::Fail,
        message: concat2("Failed to create preset store: ", em.as_str()),
        details: None,
    }
}

/// The failure given when presets could not be discovered.
pub fn discovery_failure_check(e: ClaudioError) -> (r: CheckResult)
    ensures
        r.name@ == "presets_discover"@,
        r.status == CheckStatus::Fail,
        r.message@ == "Failed to discover presets: "@ + error_display(e),
        r.details is None,
{
    let em = e.message();
    CheckResult {
        name: "presets_discover".to_owned(),
        status: CheckStatus::Fail,
        message: concat2("Failed to discover presets: ", em.as_str()),
        details: None,
    }
}

/// The lowercase hexadecimal digit of a number below sixteen.
pub open spec fn hex_char(d: nat) -> char {
    if d < 10 {
        crate::text::digit_char(d)
    } else if d == 10 {
        'a'
    } else if d == 11 {
        'b'
    } else if d == 12 {
        'c'
    } else if d == 13 {
        'd'
    } else if d == 14 {
        'e'
    } else {
        'f'
    }
}

/// The last `k` hexadecimal digits of `n`, most significant first (`{:0k$x}` when `n`
/// has at most `k` digits).
pub open spec fn hex_fixed(n: nat, k: nat) -> Seq<char>
    decreases k,
{
    if k == 0 {
        Seq::empty()
    } else {
        hex_fixed(n / 16, (k - 1) as nat).push(hex_char(n % 16))
    }
}

fn hex_digit(d: u64) -> (c: char)
    requires
        d < 16,
    ensures
        c == hex_char(d as nat),
{
    if d < 10 {
        if d == 0 { '0' } else if d == 1 { '1' } else if d == 2 { '2' } else if d == 3 { '3' } else if d == 4 {
            '4'
        } else if d == 5 { '5' } else if d == 6 { '6' } else if d == 7 { '7' } else if d == 8 { '8' } else { '9' }
    } else if d == 10 {
        'a'
    } else if d == 11 {
        'b'
    } else if d == 12 {
        'c'
    } else if d == 13 {
        'd'
    } else if d == 14 {
        'e'
    } else {
        'f'
    }
}

/// A number as sixteen lowercase hexadecimal digits (`{:016x}`).
pub fn hex16(n: u64) -> (r: String)
    ensures
        r@ == hex_fixed(n as nat, 16),
{
    // `rev` holds the digits found so far, least significant first.
    let mut rev: Vec<char> = Vec::new();
    let mut m = n;
    let ghost mut suffix: Seq<char> = Seq::empty();
    let mut j: usize = 0;
    while j < 16
        invariant
            j <= 16,
            hex_fixed(n as nat, 16) == hex_fixed(m as nat, (16 - j) as nat) + suffix,
            rev@.len() == j,
            suffix.len() == j,
            forall|i: int| 0 <= i < j ==> #[trigger] rev@[i] == suffix[j - 1 - i],
        decreases 16 - j,
    {
        let d = m % 16;
        let c = hex_digit(d);
        rev.push(c);
        proof {
            assert(hex_fixed(m as nat, (16 - j) as nat) == hex_fixed((m / 16) as nat, (16 - j - 1) as nat).push(c));
            assert(hex_fixed((m / 16) as nat, (16 - j - 1) as nat).push(c) + suffix
                =~= hex_fixed((m / 16) as nat, (16 - j - 1) as nat) + (seq![c] + suffix));
            suffix = seq![c] + suffix;
        }
        m = m / 16;
        j = j + 1;
    }
    assert(hex_fixed(m as nat, 0) =~= Seq::<char>::empty());
    assert(hex_fixed(n as nat, 16) =~= suffix);
    let mut out = String::new();
    let mut i: usize = 16;
    while i > 0
        invariant
            i <= 16,
            rev@.len() == 16,
            suffix.len() == 16,
            forall|k: int| 0 <= k < 16 ==> #[trigger] rev@[k] == suffix[15 - k],
            out@ == suffix.take(16 - i),
        decreases i,
    {
        i = i - 1;
        out.push(rev[i]);
        assert(rev@[i as int] == suffix[15 - i]);
        assert(out@ =~= suffix.take(16 - i));
    }
    assert(suffix.take(16) =~= suffix);
    out
}

/// What tells a preset file's parse check apart: its stem, `_`, and the sixteen hex digits
/// of a hash of its path; just the digits for a path without a stem.
pub fn parse_check_identifier(path: &str, path_hash: u64) -> (r: String)
    requires
        path@.len() < i64::MAX,
    ensures
        r@ == match crate::path::file_stem_of(path@) {
            Some(st) => st + "_"@ + hex_fixed(path_hash as nat, 16),
            None => hex_fixed(path_hash as nat, 16),
        },
{
    let hex = hex16(path_hash);
    match crate::path::file_stem(path) {
        Some(stem) => concat3(stem.as_str(), "_", hex.as_str()),
        None => hex,
    }
}

/// The failure given for a preset file that could not be loaded; `identifier` tells the
/// file apart (its stem and a hash of its path).
pub fn preset_parse_check(identifier: &str, path: &str, e: ClaudioError) -> (r: CheckResult)
    ensures
        r.name@ == "preset_parse_"@ + identifier@,
        r.status == CheckStatus::Fail,
        r.message@ == "Failed to parse preset file: "@ + error_display(e),
        r.details matches Some(d) && json_wf(d) && json_view(d) == Json::Object(Map::empty().insert("path"@, Json::Str(path@))),
{
    let em = e.message();
    let mut top: Vec<(String, JsonValue)> = Vec::new();
    top.push(("path".to_owned(), json_string(path)));
    proof {
        lemma_sorted_from_adjacent(top@);
        reveal_with_fuel(entries_map, 2);
    }
    CheckResult {
        name: concat2("preset_parse_", identifier),
        status: CheckStatus::Fail,
        message: concat2("Failed to parse preset file: ", em.as_str()),
        details: Some(json_object(top)),
    }
}

/// The details of a preset's validity check, before its origin or path is added.
pub open spec fn validity_base_details(errs: Seq<Seq<char>>, warns: Seq<Seq<char>>) -> Option<Map<Seq<char>, Json>> {
    if errs.len() > 0 {
        Some(Map::empty().insert("errors"@, json_str_array(errs)).insert("warnings"@, json_str_array(warns)))
    } else if warns.len() > 0 {
        Some(Map::empty().insert("warnings"@, json_str_array(warns)))
    } else {
        None
    }
}

/// The details of a preset's validity check: an inline preset gets its origin, a file
/// preset its path.
pub open spec fn validity_details(
    errs: Seq<Seq<char>>,
    warns: Seq<Seq<char>>,
    origin: Option<Scope>,
    path: Option<Seq<char>>,
) -> Option<Json> {
    let base = validity_base_details(errs, warns);
    match (origin, path) {
        (Some(o), None) => Some(Json::Object(
            match base {
                Some(m) => m,
                None => Map::empty(),
            }.insert("origin"@, Json::Str(scope_word(o))),
        )),
        (None, Some(p)) => Some(Json::Object(
            match base {
                Some(m) => m,
                None => Map::empty(),
            }.insert("path"@, Json::Str(p)),
        )),
        _ => match base {
            Some(m) => Some(Json::Object(m)),
            None => None,
        },
    }
}

/// The name of a preset's validity check.
pub open spec fn validity_check_name(name: Seq<char>, origin: Option<Scope>) -> Seq<char> {
    match origin {
        Some(Scope::Project) => "preset_valid_inline_project_"@ + name,
        Some(_) => "preset_valid_inline_user_"@ + name,
        None => "preset_valid_"@ + name,
    }
}

proof fn lemma_detail_keys_ordered()
    ensures
        seq_lt("errors"@, "origin"@),
        seq_lt("errors"@, "path"@),
        seq_lt("errors"@, "warnings"@),
        seq_lt("origin"@, "path"@),
        seq_lt("origin"@, "warnings"@),
        seq_lt("path"@, "warnings"@),
{
    reveal_strlit("errors");
    reveal_strlit("origin");
    reveal_strlit("path");
    reveal_strlit("warnings");
}

/// What the validity check of a preset says: failed when it has errors, a warning when it
/// has only warnings, else passed, with the details that apply.
pub open spec fn is_validity_check(preset: Preset, pv: Option<Seq<char>>, origin: Option<Scope>, r: CheckResult) -> bool {
    ({
        let errs = preset_errors(preset);
        let warns = preset_warnings(preset, pv);
        &&& r.name@ == validity_check_name(preset.name@, origin)
        &&& r.status == (if errs.len() > 0 {
            CheckStatus::Fail
        } else if warns.len() > 0 {
            CheckStatus::Warn
        } else {
            CheckStatus::Pass
        })
        &&& r.message@ == (if errs.len() > 0 {
            "Preset '"@ + preset.name@ + "' validation failed: "@ + join_with(errs, "; "@)
        } else if warns.len() > 0 {
            "Preset '"@ + preset.name@ + "' is valid but has warnings: "@ + join_with(warns, "; "@)
        } else {
            "Preset '"@ + preset.name@ + "' is valid"@
        })
        &&& match r.details {
            Some(d) => json_wf(d) && validity_details(errs, warns, origin, pv) == Some(json_view(d)),
            None => validity_details(errs, warns, origin, pv) is None,
        }
    })
}

/// The validity check of a preset: failed when it has errors, a warning when it has only
/// warnings, else passed. `path` is its file (for a file preset), `origin` the settings it
/// came from (for an inline preset).
pub fn preset_validity_check(preset: &Preset, path: Option<&str>, origin: Option<Scope>) -> (r: CheckResult)
    requires
        path matches Some(p) ==> p@.len() < i64::MAX,
        origin != Some(Scope::Auto),
    ensures
        is_validity_check(*preset, match path {
            Some(p) => Some(p@),
            None => None,
        }, origin, r),
{
    let v = preset.validate(path);
    let ghost errs = strings_view(v.errors@);
    let ghost warns = strings_view(v.warnings@);
    let has_errors = v.errors.len() > 0;
    let has_warnings = v.warnings.len() > 0;
    let name = match origin {
        Some(Scope::Project) => concat2("preset_valid_inline_project_", preset.name.as_str()),
        Some(_) => concat2("preset_valid_inline_user_", preset.name.as_str()),
        None => concat2("preset_valid_", preset.name.as_str()),
    };
    let (status, message) = if has_errors {
        let joined = crate::text::join_strings(&v.errors, "; ");
        let mut m = concat3("Preset '", preset.name.as_str(), "' validation failed: ");
        m.push_str(joined.as_str());
        (CheckStatus::Fail, m)
    } else if has_warnings {
        let joined = crate::text::join_strings(&v.warnings, "; ");
        let mut m = concat3("Preset '", preset.name.as_str(), "' is valid but has warnings: ");
        m.push_str(joined.as_str());
        (CheckStatus::Warn, m)
    } else {
        (CheckStatus::Pass, concat3("Preset '", preset.name.as_str(), "' is valid"))
    };
    let with_origin = origin.is_some() && path.is_none();
    let with_path = origin.is_none() && path.is_some();
    let details = if !has_errors && !has_warnings && !with_origin && !with_path {
        None
    } else {
        let mut es: Vec<(String, JsonValue)> = Vec::new();
        let ghost m0 = Map::<Seq<char>, Json>::empty();
        assert(entries_map(es@) == m0);
        if has_errors {
            es.push(("errors".to_owned(), json_strings(&v.errors)));
            assert(es@.drop_last() =~= Seq::<(String, JsonValue)>::empty());
        }
        let ghost m1 = if has_errors { m0.insert("errors"@, json_str_array(errs)) } else { m0 };
        assert(entries_map(es@) == m1);
        let ghost after_errors = es@;
        let ghost word = match origin {
            Some(o) => scope_word(o),
            None => Seq::<char>::empty(),
        };
        if with_origin {
            let w = match origin {
                Some(o) => scope_word_of(o),
                None => String::new(),
            };
            es.push(("origin".to_owned(), json_string(w.as_str())));
            assert(es@.drop_last() =~= after_errors);
        }
        let ghost m2 = if with_origin { m1.insert("origin"@, Json::Str(word)) } else { m1 };
        assert(entries_map(es@) == m2);
        let ghost after_origin = es@;
        let ghost pth = match path {
            Some(p) => p@,
            None => Seq::<char>::empty(),
        };
        if with_path {
            let p = match path {
                Some(p) => p,
                None => "",
            };
            es.push(("path".to_owned(), json_string(p)));
            assert(es@.drop_last() =~= after_origin);
        }
        let ghost m3 = if with_path { m2.insert("path"@, Json::Str(pth)) } else { m2 };
        assert(entries_map(es@) == m3);
        let ghost after_path = es@;
        if has_errors || has_warnings {
            es.push(("warnings".to_owned(), json_strings(&v.warnings)));
            assert(es@.drop_last() =~= after_path);
        }
        let ghost m4 = if has_errors || has_warnings { m3.insert("warnings"@, json_str_array(warns)) } else { m3 };
        assert(entries_map(es@) == m4);
        proof {
            lemma_detail_keys_ordered();
            crate::order::lemma_seq_lt_asymmetric("errors"@, "warnings"@);
            crate::order::lemma_seq_lt_asymmetric("origin"@, "warnings"@);
            crate::order::lemma_seq_lt_asymmetric("path"@, "warnings"@);
            crate::order::lemma_seq_lt_asymmetric("errors"@, "origin"@);
            crate::order::lemma_seq_lt_asymmetric("errors"@, "path"@);
            assert(forall|i: int| 0 <= i < es@.len() - 1 ==> seq_lt(#[trigger] es@[i].0@, es@[i + 1].0@));
            lemma_sorted_from_adjacent(es@);
            let pv = match path {
                Some(p) => Some(p@),
                None => None::<Seq<char>>,
            };
            let expected = validity_details(errs, warns, origin, pv);
            assert(expected == Some(Json::Object(m4))) by {
                let base = validity_base_details(errs, warns);
                let bm = match base {
                    Some(m) => m,
                    None => Map::empty(),
                };
                if with_origin {
                    assert(m4 =~= bm.insert("origin"@, Json::Str(word)));
                } else if with_path {
                    assert(m4 =~= bm.insert("path"@, Json::Str(pth)));
                } else {
                    assert(m4 =~= bm);
                }
            }
        }
        Some(json_object(es))
    };
    CheckResult { name, status, message, details }
}

/// The JSON of an optional string.
fn opt_json(o: &Option<String>) -> (r: JsonValue)
    ensures
        json_wf(r),
        json_view(r) == json_opt_str(crate::text::opt_string_view(*o)),
{
    match o {
        Some(s) => json_string(s.as_str()),
        None => JsonValue::Null,
    }
}

/// The word of an optional scope, or `null`.
pub open spec fn opt_scope_json(o: Option<Scope>) -> Json {
    match o {
        Some(s) => Json::Str(scope_word(s)),
        None => Json::Null,
    }
}

fn opt_scope_value(o: Option<Scope>) -> (r: JsonValue)
    ensures
        json_wf(r),
        json_view(r) == opt_scope_json(o),
{
    match o {
        Some(s) => {
            let w = scope_word_of(s);
            json_string(w.as_str())
        },
        None => JsonValue::Null,
    }
}

/// What the inheritance check of a preset says, given the outcome of resolving it.
pub open spec fn is_inheritance_check(
    name: Seq<char>,
    extends: Option<String>,
    origin: Option<Scope>,
    pv: Option<Seq<char>>,
    result: Result<(), ClaudioError>,
    r: CheckResult,
) -> bool {
    &&& r.name@ == "inheritance_"@ + name
    &&& match result {
        Ok(()) => r.status == CheckStatus::Pass && r.details is None && r.message@ == "Preset '"@
            + name + "' inheritance resolves correctly"@,
        Err(e) => {
            &&& r.status == CheckStatus::Fail
            &&& r.message@ == "Preset '"@ + name + "' inheritance failed: "@ + error_display(e)
            &&& r.details matches Some(d) && json_wf(d) && json_view(d) == Json::Object(
                Map::empty().insert("extends"@, json_opt_str(crate::text::opt_string_view(extends))).insert(
                    "is_circular"@,
                    Json::Bool(crate::text::has_substring(error_display(e), "Circular"@)),
                ).insert("origin"@, opt_scope_json(origin)).insert(
                    "path"@,
                    json_opt_str(pv),
                ),
            )
        },
    }
}

/// The check that a preset with a base resolves, given the outcome of resolving it. A
/// failure tells whether its message speaks of circular inheritance.
pub fn inheritance_check(
    preset_name: &str,
    extends: &Option<String>,
    origin: Option<Scope>,
    path: Option<&str>,
    result: Result<(), ClaudioError>,
) -> (r: CheckResult)
    ensures
        is_inheritance_check(preset_name@, *extends, origin, match path {
            Some(p) => Some(p@),
            None => None,
        }, result, r),
{
    let name = concat2("inheritance_", preset_name);
    match result {
        Ok(()) => CheckResult {
            name,
            status: CheckStatus::Pass,
            message: concat3("Preset '", preset_name, "' inheritance resolves correctly"),
            details: None,
        },
        Err(e) => {
            let text = e.message();
            let circular = crate::text::contains_str(text.as_str(), "Circular");
            let mut message = concat3("Preset '", preset_name, "' inheritance failed: ");
            message.push_str(text.as_str());
            let mut es: Vec<(String, JsonValue)> = Vec::new();
            es.push(("extends".to_owned(), opt_json(extends)));
            es.push(("is_circular".to_owned(), JsonValue::Bool(circular)));
            es.push(("origin".to_owned(), opt_scope_value(origin)));
            es.push(("path".to_owned(), json_opt_string(path)));
            proof {
                reveal_strlit("extends");
                reveal_strlit("is_circular");
                reveal_strlit("origin");
                reveal_strlit("path");
                assert(seq_lt(es@[0].0@, es@[1].0@));
                assert(seq_lt(es@[1].0@, es@[2].0@));
                assert(seq_lt(es@[2].0@, es@[3].0@));
                lemma_sorted_from_adjacent(es@);
                reveal_with_fuel(entries_map, 5);
            }
            CheckResult { name, status: CheckStatus::Fail, message, details: Some(json_object(es)) }
        },
    }
}

/// The check given when no preset has a base.
pub fn inheritance_none_check() -> (r: CheckResult)
    ensures
        r.name@ == "inheritance_none"@,
        r.status == CheckStatus::Pass,
        r.message@ == "No presets with inheritance found"@,
        r.details is None,
{
    CheckResult {
        name: "inheritance_none".to_owned(),
        status: CheckStatus::Pass,
        message: "No presets with inheritance found".to_owned(),
        details: None,
    }
}

/// The check given when environment checks are skipped (without `--verbose`).
pub fn env_vars_skipped_check() -> (r: CheckResult)
    ensures
        r.name@ == "env_vars_skipped"@,
        r.status == CheckStatus::Pass,
        r.message@ == "Environment variable checks skipped (run with --verbose)"@,
        r.details is None,
{
    CheckResult {
        name: "env_vars_skipped".to_owned(),
        status: CheckStatus::Pass,
        message: "Environment variable checks skipped (run with --verbose)".to_owned(),
        details: None,
    }
}

/// The check given when there are no presets whose environment could be checked.
pub fn env_vars_none_check() -> (r: CheckResult)
    ensures
        r.name@ == "env_vars_none"@,
        r.status == CheckStatus::Pass,
        r.message@ == "No presets found to check environment variables"@,
        r.details is None,
{
    CheckResult {
        name: "env_vars_none".to_owned(),
        status: CheckStatus::Pass,
        message: "No presets found to check environment variables".to_owned(),
        details: None,
    }
}

/// The names an env value takes from the environment that are not set.
pub open spec fn unset_names(v: EnvValue, env: Seq<(Seq<char>, Seq<char>)>) -> Set<Seq<char>> {
    match v {
        EnvValue::Direct(s) => var_refs(s@).to_set().filter(|n: Seq<char>| env_lookup(env, n) is None),
        EnvValue::Structured { source: EnvValueSource::Env { var } } => if env_lookup(env, var@) is None {
            Set::empty().insert(var@)
        } else {
            Set::empty()
        },
        _ => Set::empty(),
    }
}

/// The names that a preset's env values take from the environment and that are not set.
pub open spec fn missing_vars(entries: Seq<(String, EnvValue)>, env: Seq<(Seq<char>, Seq<char>)>) -> Set<Seq<char>>
    decreases entries.len(),
{
    if entries.len() == 0 {
        Set::empty()
    } else {
        missing_vars(entries.drop_last(), env).union(unset_names(entries.last().1, env))
    }
}

/// The report of a `file` env value whose file cannot be used: the resolved path when it
/// cannot be read, or why the path could not be resolved.
pub open spec fn file_item(key: Seq<char>, path: Seq<char>, resolved: Result<Seq<char>, ClaudioError>, readable: bool) -> Option<Json> {
    match resolved {
        Ok(p) => if readable {
            None
        } else {
            Some(Json::Object(Map::empty().insert("key"@, Json::Str(key)).insert("path"@, Json::Str(path)).insert(
                "resolved_path"@,
                Json::Str(p),
            )))
        },
        Err(e) => Some(Json::Object(Map::empty().insert("error"@, Json::Str(error_display(e))).insert("key"@, Json::Str(key)).insert(
            "path"@,
            Json::Str(path),
        ))),
    }
}

/// The reports of a preset's unusable `file` env values, in order; `readable[i]` says
/// whether the file of entry `i` could be read.
pub open spec fn file_items(
    entries: Seq<(String, EnvValue)>,
    readable: Seq<bool>,
    source: PresetSource,
    home: Option<Seq<char>>,
    cwd: Option<Seq<char>>,
) -> Seq<Json>
    decreases entries.len(),
{
    if entries.len() == 0 {
        Seq::empty()
    } else {
        let rest = file_items(entries.drop_last(), readable, source, home, cwd);
        let (k, v) = entries.last();
        match v {
            EnvValue::Structured { source: EnvValueSource::File { path } } => match file_item(
                k@,
                path@,
                file_path_for_source(path@, source, home, cwd),
                readable[entries.len() - 1],
            ) {
                Some(j) => rest.push(j),
                None => rest,
            },
            _ => rest,
        }
    }
}

/// The report of a command-backed env value.
pub open spec fn command_item(key: Seq<char>, command: Seq<char>, confirm: Option<bool>) -> Json {
    Json::Object(Map::empty().insert("command"@, Json::Str(command)).insert(
        "confirm"@,
        match confirm {
            Some(b) => Json::Bool(b),
            None => Json::Null,
        },
    ).insert("key"@, Json::Str(key)))
}

/// The reports of a preset's command-backed env values, in order.
pub open spec fn command_items(entries: Seq<(String, EnvValue)>) -> Seq<Json>
    decreases entries.len(),
{
    if entries.len() == 0 {
        Seq::empty()
    } else {
        let rest = command_items(entries.drop_last());
        let (k, v) = entries.last();
        match v {
            EnvValue::Structured { source: EnvValueSource::Command { command, confirm } } => rest.push(
                command_item(k@, command@, confirm),
            ),
            _ => rest,
        }
    }
}

/// The details of an environment warning: the command-backed values, the unset names in
/// increasing order, the unusable files, and the preset's origin and path.
pub open spec fn env_warning_details(
    d: Json,
    ci: Seq<Json>,
    mv: Set<Seq<char>>,
    fi: Seq<Json>,
    origin: Option<Scope>,
    path: Option<Seq<char>>,
) -> bool {
    match d {
        Json::Object(m) => {
            &&& m.dom() == set!["command_values"@, "missing_env_vars"@, "missing_files"@, "origin"@, "path"@]
            &&& m["command_values"@] == Json::Array(ci)
            &&& sorted_name_array(m["missing_env_vars"@], mv)
            &&& m["missing_files"@] == Json::Array(fi)
            &&& m["origin"@] == opt_scope_json(origin)
            &&& m["path"@] == json_opt_str(path)
        },
        _ => false,
    }
}

/// `xs` lists the names of a set as JSON strings, in increasing order.
pub open spec fn sorted_name_array(xs: Json, names: Set<Seq<char>>) -> bool {
    exists|s: Seq<Seq<char>>| strictly_sorted(s) && s.to_set() == names && xs == json_str_array(s)
}

proof fn lemma_env_keys_ordered()
    ensures
        seq_lt("command"@, "confirm"@),
        seq_lt("confirm"@, "key"@),
        seq_lt("error"@, "key"@),
        seq_lt("key"@, "path"@),
        seq_lt("path"@, "resolved_path"@),
        seq_lt("command_values"@, "missing_env_vars"@),
        seq_lt("missing_env_vars"@, "missing_files"@),
        seq_lt("missing_files"@, "origin"@),
        seq_lt("origin"@, "path"@),
{
    reveal_strlit("command");
    reveal_strlit("confirm");
    reveal_strlit("key");
    reveal_strlit("error");
    reveal_strlit("path");
    reveal_strlit("resolved_path");
    reveal_strlit("command_values");
    reveal_strlit("missing_env_vars");
    reveal_strlit("missing_files");
    reveal_strlit("origin");
    reveal_with_fuel(seq_lt, 10);
}

/// What the environment check of a preset says (none for a preset without env values).
pub open spec fn is_env_vars_check(
    preset: Preset,
    origin: Option<Scope>,
    pv: Option<Seq<char>>,
    source: PresetSource,
    env: Seq<(Seq<char>, Seq<char>)>,
    home: Option<Seq<char>>,
    cw: Option<Seq<char>>,
    readable: Seq<bool>,
    r: Option<CheckResult>,
) -> bool {
    &&& preset.env is None ==> r is None
    &&& (preset.env matches Some(es) ==> r matches Some(c) && {
            let mv = missing_vars(es@, env);
            let fi = file_items(es@, readable, source, home, cw);
            let ci = command_items(es@);
            &&& c.name@ == "env_vars_"@ + preset.name@
            &&& if mv.is_empty() && fi.len() == 0 && ci.len() == 0 {
                &&& c.status == CheckStatus::Pass
                &&& c.message@ == "Preset '"@ + preset.name@ + "' has no missing environment variables"@
                &&& match origin {
                    Some(o) => c.details matches Some(d) && json_wf(d) && json_view(d) == Json::Object(
                        Map::empty().insert("origin"@, Json::Str(scope_word(o))),
                    ),
                    None => c.details is None,
                }
            } else {
                &&& c.status == CheckStatus::Warn
                &&& c.message@ == "Preset '"@ + preset.name@ + "' has environment values that could not be validated"@
                &&& c.details matches Some(d) && json_wf(d) && env_warning_details(
                    json_view(d),
                    ci,
                    mv,
                    fi,
                    origin,
                    pv,
                )
            }
        })
}

/// The environment check of one preset (none for a preset without env values): the names
/// it takes from the environment that are not set (in `env`), its `file` values whose file
/// cannot be used, and its command-backed values, which cannot be checked without running
/// them. With none of these it passes; else it warns with the three lists.
pub fn env_vars_check(
    preset: &Preset,
    origin: Option<Scope>,
    path: Option<&str>,
    source: &PresetSource,
    env: &EnvVars,
    os_home: Option<&str>,
    cwd: Option<&str>,
    readable: &Vec<bool>,
) -> (r: Option<CheckResult>)
    requires
        source matches PresetSource::File(pp) ==> pp@.len() < i64::MAX,
        preset.env matches Some(es) ==> readable@.len() == es@.len(),
    ensures
        is_env_vars_check(
            *preset,
            origin,
            match path {
                Some(p) => Some(p@),
                None => None,
            },
            *source,
            env@,
            match os_home {
                Some(h) => Some(h@),
                None => None,
            },
            match cwd {
                Some(c) => Some(c@),
                None => None,
            },
            readable@,
            r,
        ),
{
    let es = match &preset.env {
        None => return None,
        Some(es) => es,
    };
    let ghost home = match os_home {
        Some(h) => Some(h@),
        None => None::<Seq<char>>,
    };
    let ghost cw = match cwd {
        Some(c) => Some(c@),
        None => None::<Seq<char>>,
    };
    let mut missing: Vec<String> = Vec::new();
    let mut files: Vec<JsonValue> = Vec::new();
    let mut commands: Vec<JsonValue> = Vec::new();
    let n = es.len();
    proof {
        lemma_env_keys_ordered();
    }
    for i in 0..n
        invariant
            n == es@.len(),
            readable@.len() == n,
            source matches PresetSource::File(pp) ==> pp@.len() < i64::MAX,
            home == match os_home {
                Some(h) => Some(h@),
                None => None,
            },
            cw == match cwd {
                Some(c) => Some(c@),
                None => None,
            },
            strictly_sorted(strings_view(missing@)),
            strings_view(missing@).to_set() == missing_vars(es@.take(i as int), env@),
            forall|k: int| 0 <= k < files@.len() ==> json_wf(#[trigger] files@[k]),
            crate::json::json_view_seq(files@) == file_items(es@.take(i as int), readable@, *source, home, cw),
            forall|k: int| 0 <= k < commands@.len() ==> json_wf(#[trigger] commands@[k]),
            crate::json::json_view_seq(commands@) == command_items(es@.take(i as int)),
            seq_lt("command"@, "confirm"@),
            seq_lt("confirm"@, "key"@),
            seq_lt("error"@, "key"@),
            seq_lt("key"@, "path"@),
            seq_lt("path"@, "resolved_path"@),
    {
        let ghost t = es@.take(i + 1);
        assert(t.drop_last() =~= es@.take(i as int));
        assert(t.last() == es@[i as int]);
        let ghost files_before = files@;
        let ghost commands_before = commands@;
        let ghost missing_before = strings_view(missing@).to_set();
        match &es[i].1 {
            EnvValue::Direct(s) => {
                let refs = extract_variable_references(s.as_str());
                let ghost rv = var_refs(s@);
                let m = refs.len();
                for j in 0..m
                    invariant
                        m == refs@.len(),
                        refs@.map_values(|r: String| r@) == rv,
                        strictly_sorted(strings_view(missing@)),
                        strings_view(missing@).to_set() == missing_before.union(
                            rv.take(j as int).to_set().filter(|nm: Seq<char>| env_lookup(env@, nm) is None),
                        ),
                {
                    let ghost before = strings_view(missing@).to_set();
                    let nm = refs[j].clone();
                    assert(nm@ == rv[j as int]);
                    let unset = find_env_var(env, &nm).is_none();
                    if unset {
                        insert_sorted_unique(&mut missing, nm);
                    }
                    proof {
                        let f = |x: Seq<char>| env_lookup(env@, x) is None;
                        assert(rv.take(j + 1).to_set().filter(f) =~= if unset {
                            rv.take(j as int).to_set().filter(f).insert(rv[j as int])
                        } else {
                            rv.take(j as int).to_set().filter(f)
                        }) by {
                            assert(rv.take(j + 1) =~= rv.take(j as int).push(rv[j as int]));
                            vstd::seq_lib::lemma_seq_contains_after_push(rv.take(j as int), rv[j as int], rv[j as int]);
                            assert forall|x: Seq<char>| rv.take(j + 1).to_set().contains(x) <==> (rv.take(j as int).to_set().contains(x) || x == rv[j as int]) by {
                                if rv.take(j + 1).contains(x) {
                                    let k = choose|k: int| 0 <= k < j + 1 && #[trigger] rv.take(j + 1)[k] == x;
                                    if k < j {
                                        assert(rv.take(j as int)[k] == x);
                                    }
                                }
                                if rv.take(j as int).contains(x) {
                                    let k = choose|k: int| 0 <= k < j && #[trigger] rv.take(j as int)[k] == x;
                                    assert(rv.take(j + 1)[k] == x);
                                }
                                if x == rv[j as int] {
                                    assert(rv.take(j + 1)[j as int] == x);
                                }
                            }
                        }
                        assert(strings_view(missing@).to_set() =~= missing_before.union(rv.take(j + 1).to_set().filter(f)));
                    }
                }
                proof {
                    assert(rv.take(m as int) =~= rv);
                    assert(strings_view(missing@).to_set() =~= missing_vars(es@.take(i + 1), env@));
                }
            },
            EnvValue::Structured { source: vs } => match vs {
                EnvValueSource::Env { var } => {
                    if find_env_var(env, var).is_none() {
                        insert_sorted_unique(&mut missing, var.clone());
                    }
                    assert(strings_view(missing@).to_set() =~= missing_vars(es@.take(i + 1), env@));
                },
                EnvValueSource::File { path: fp } => {
                    let resolved = resolve_file_path_for_source(fp.as_str(), source, os_home, cwd);
                    match resolved {
                        Ok(p) => {
                            if !readable[i] {
                                let mut item: Vec<(String, JsonValue)> = Vec::new();
                                item.push(("key".to_owned(), json_string(es[i].0.as_str())));
                                item.push(("path".to_owned(), json_string(fp.as_str())));
                                item.push(("resolved_path".to_owned(), json_string(p.as_str())));
                                proof {
                                    lemma_sorted_from_adjacent(item@);
                                    reveal_with_fuel(entries_map, 4);
                                }
                                files.push(json_object(item));
                            }
                        },
                        Err(e) => {
                            let em = e.message();
                            let mut item: Vec<(String, JsonValue)> = Vec::new();
                            item.push(("error".to_owned(), json_string(em.as_str())));
                            item.push(("key".to_owned(), json_string(es[i].0.as_str())));
                            item.push(("path".to_owned(), json_string(fp.as_str())));
                            proof {
                                lemma_sorted_from_adjacent(item@);
                                reveal_with_fuel(entries_map, 4);
                            }
                            files.push(json_object(item));
                        },
                    }
                    proof {
                        crate::json::lemma_items_wf(files@);
                        crate::json::lemma_items_wf(files_before);
                        assert(crate::json::json_view_seq(files@) =~= file_items(es@.take(i + 1), readable@, *source, home, cw));
                    }
                    assert(strings_view(missing@).to_set() =~= missing_vars(es@.take(i + 1), env@));
                },
                EnvValueSource::Command { command, confirm } => {
                    let mut item: Vec<(String, JsonValue)> = Vec::new();
                    item.push(("command".to_owned(), json_string(command.as_str())));
                    let cv = match confirm {
                        Some(b) => JsonValue::Bool(*b),
                        None => JsonValue::Null,
                    };
                    item.push(("confirm".to_owned(), cv));
                    item.push(("key".to_owned(), json_string(es[i].0.as_str())));
                    proof {
                        lemma_sorted_from_adjacent(item@);
                        reveal_with_fuel(entries_map, 4);
                    }
                    commands.push(json_object(item));
                    proof {
                        crate::json::lemma_items_wf(commands@);
                        crate::json::lemma_items_wf(commands_before);
                        assert(crate::json::json_view_seq(commands@) =~= command_items(es@.take(i + 1)));
                    }
                    assert(strings_view(missing@).to_set() =~= missing_vars(es@.take(i + 1), env@));
                },
                EnvValueSource::Value { .. } => {
                    assert(strings_view(missing@).to_set() =~= missing_vars(es@.take(i + 1), env@));
                },
            },
        }
        proof {
            crate::json::lemma_items_wf(files@);
            crate::json::lemma_items_wf(commands@);
        }
    }
    proof {
        assert(es@.take(n as int) =~= es@);
    }
    let ghost mv = missing_vars(es@, env@);
    let name = concat2("env_vars_", preset.name.as_str());
    if missing.len() == 0 && files.len() == 0 && commands.len() == 0 {
        proof {
            assert(strings_view(missing@).len() == 0);
            assert(mv =~= Set::<Seq<char>>::empty());
            crate::json::lemma_items_wf(files@);
            crate::json::lemma_items_wf(commands@);
        }
        let details = match origin {
            Some(o) => {
                let w = scope_word_of(o);
                let mut top: Vec<(String, JsonValue)> = Vec::new();
                top.push(("origin".to_owned(), json_string(w.as_str())));
                proof {
                    lemma_sorted_from_adjacent(top@);
                    reveal_with_fuel(entries_map, 2);
                }
                Some(json_object(top))
            },
            None => None,
        };
        return Some(CheckResult {
            name,
            status: CheckStatus::Pass,
            message: concat3("Preset '", preset.name.as_str(), "' has no missing environment variables"),
            details,
        });
    }
    proof {
        crate::json::lemma_items_wf(files@);
        crate::json::lemma_items_wf(commands@);
        if strings_view(missing@).len() > 0 {
            assert(strings_view(missing@).to_set().contains(strings_view(missing@)[0]));
        }
        if mv.is_empty() {
            assert(strings_view(missing@).len() == 0) by {
                if strings_view(missing@).len() > 0 {
                    assert(mv.contains(strings_view(missing@)[0]));
                }
            }
        }
    }
    let ghost names = strings_view(missing@);
    let missing_json = json_strings(&missing);
    let file_count = files.len();
    let command_count = commands.len();
    let ghost fv = crate::json::json_view_seq(files@);
    let ghost cv = crate::json::json_view_seq(commands@);
    let files_json = crate::json::json_array(files);
    let commands_json = crate::json::json_array(commands);
    let mut top: Vec<(String, JsonValue)> = Vec::new();
    top.push(("command_values".to_owned(), commands_json));
    top.push(("missing_env_vars".to_owned(), missing_json));
    top.push(("missing_files".to_owned(), files_json));
    top.push(("origin".to_owned(), opt_scope_value(origin)));
    top.push(("path".to_owned(), json_opt_string(path)));
    proof {
        lemma_env_keys_ordered();
        lemma_sorted_from_adjacent(top@);
        reveal_with_fuel(entries_map, 6);
    }
    let details = json_object(top);
    proof {
        let m = match json_view(details) {
            Json::Object(m) => m,
            _ => Map::empty(),
        };
        assert(m.dom() =~= set!["command_values"@, "missing_env_vars"@, "missing_files"@, "origin"@, "path"@]);
        crate::order::lemma_seq_lt_asymmetric("missing_env_vars"@, "missing_files"@);
        assert forall|a: int, b: int| 0 <= a < b < 5 implies top@[a].0@ != top@[b].0@ by {
            assert(seq_lt(top@[a].0@, top@[b].0@));
            crate::order::lemma_seq_lt_asymmetric(top@[a].0@, top@[b].0@);
        }
        assert("command_values"@ != "missing_env_vars"@ && "command_values"@ != "missing_files"@
            && "command_values"@ != "origin"@ && "command_values"@ != "path"@) by {
            assert(top@[0].0@ != top@[1].0@ && top@[0].0@ != top@[2].0@ && top@[0].0@ != top@[3].0@ && top@[0].0@ != top@[4].0@);
        }
        assert("missing_files"@ != "origin"@ && "missing_files"@ != "path"@) by {
            assert(top@[2].0@ != top@[3].0@ && top@[2].0@ != top@[4].0@);
        }
        assert(m["missing_env_vars"@] == json_str_array(names));
        assert(sorted_name_array(m["missing_env_vars"@], mv));
        assert(fv == file_items(es@, readable@, *source, home, cw));
        assert(cv == command_items(es@));
        assert(m["command_values"@] == Json::Array(cv));
        assert(m["missing_files"@] == Json::Array(fv));
        assert(m["origin"@] == opt_scope_json(origin));
        let pv = match path {
            Some(p) => Some(p@),
            None => None::<Seq<char>>,
        };
        assert(m["path"@] == json_opt_str(pv));
        assert(env_warning_details(json_view(details), cv, mv, fv, origin, pv));
        assert(!(mv.is_empty() && fv.len() == 0 && cv.len() == 0));
    }
    Some(CheckResult {
        name,
        status: CheckStatus::Warn,
        message: concat3("Preset '", preset.name.as_str(), "' has environment values that could not be validated"),
        details: Some(details),
    })
}

/// The tag of a status in the text report.
pub open spec fn status_tag(st: CheckStatus) -> Seq<char> {
    match st {
        CheckStatus::Pass => "[OK]"@,
        CheckStatus::Warn => "[WARN]"@,
        CheckStatus::Fail => "[FAIL]"@,
    }
}

/// One line per check: its status tag and message.
pub open spec fn check_lines(checks: Seq<CheckResult>) -> Seq<char>
    decreases checks.len(),
{
    if checks.len() == 0 {
        Seq::empty()
    } else {
        check_lines(checks.drop_last()) + status_tag(checks.last().status) + ": "@ + checks.last().message@ + "\n"@
    }
}

impl DoctorReport {
    /// The report as text: a line per check, then the counts and the exit code.
    pub fn text(&self) -> (r: String)
        requires
            self.wf(),
        ensures
            r@ == check_lines(self.checks_view()) + "\n"@ + "Summary: "@ + crate::text::decimal(
                count_status(self.checks_view(), CheckStatus::Pass),
            ) + " passed, "@ + crate::text::decimal(count_status(self.checks_view(), CheckStatus::Warn))
                + " warning(s), "@ + crate::text::decimal(count_status(self.checks_view(), CheckStatus::Fail))
                + " failed\n"@ + "Exit code: "@ + crate::text::decimal(exit_code_of(self.checks_view()) as nat)
                + "\n"@ + "\n"@,
    {
        let mut out = String::new();
        let ghost cs = self.checks@;
        let n = self.checks.len();
        for i in 0..n
            invariant
                n == cs.len(),
                cs == self.checks@,
                out@ == check_lines(cs.take(i as int)),
        {
            let tag = match self.checks[i].status {
                CheckStatus::Pass => "[OK]",
                CheckStatus::Warn => "[WARN]",
                CheckStatus::Fail => "[FAIL]",
            };
            out.push_str(tag);
            out.push_str(": ");
            out.push_str(self.checks[i].message.as_str());
            out.push_str("\n");
            proof {
                let t = cs.take(i + 1);
                assert(t.drop_last() =~= cs.take(i as int));
                assert(t.last() == cs[i as int]);
            }
            assert(out@ =~= check_lines(cs.take(i + 1)));
        }
        assert(cs.take(n as int) =~= cs);
        out.push_str("\n");
        out.push_str("Summary: ");
        let p = crate::text::decimal_string(self.summary.pass as u64);
        out.push_str(p.as_str());
        out.push_str(" passed, ");
        let w = crate::text::decimal_string(self.summary.warn as u64);
        out.push_str(w.as_str());
        out.push_str(" warning(s), ");
        let f = crate::text::decimal_string(self.summary.fail as u64);
        out.push_str(f.as_str());
        out.push_str(" failed\n");
        out.push_str("Exit code: ");
        let code = self.exit_code();
        let c = crate::text::decimal_string(code as u64);
        out.push_str(c.as_str());
        out.push_str("\n");
        out.push_str("\n");
        out
    }
}

/// Adding a check never lowers the exit code of a report.
pub proof fn lemma_exit_code_monotone(checks: Seq<CheckResult>, c: CheckResult)
    ensures
        exit_code_of(checks) <= exit_code_of(checks.push(c)),
        c.status == CheckStatus::Fail ==> exit_code_of(checks.push(c)) == 2,
{
    let pushed = checks.push(c);
    if any_status(checks, CheckStatus::Fail) {
        let i = choose|i: int| 0 <= i < checks.len() && (#[trigger] checks[i]).status == CheckStatus::Fail;
        assert(pushed[i] == checks[i]);
    }
    if any_status(checks, CheckStatus::Warn) {
        let i = choose|i: int| 0 <= i < checks.len() && (#[trigger] checks[i]).status == CheckStatus::Warn;
        assert(pushed[i] == checks[i]);
    }
    assert(pushed[checks.len() as int] == c);
}

/// A preset the doctor checks, with where it came from: its source, the settings it came
/// from (for an inline preset) and its file (for a file preset).
#[derive(Debug, Clone, PartialEq, Eq)]
pub struct DoctorPreset {
    pub preset: Preset,
    pub source: PresetSource,
    pub origin: Option<Scope>,
    pub path: Option<String>,
}

/// A preset the doctor can check: it comes from the project's or the user's settings, and
/// its paths fit in memory.
pub open spec fn doctor_preset_ok(p: DoctorPreset) -> bool {
    &&& p.origin != Some(Scope::Auto)
    &&& (p.path matches Some(x) ==> x@.len() < i64::MAX)
    &&& (p.source matches PresetSource::File(pp) ==> pp@.len() < i64::MAX)
}

/// A check with a fixed name, status and message, and no details.
pub open spec fn is_fixed_check(r: CheckResult, name: Seq<char>, status: CheckStatus, message: Seq<char>) -> bool {
    &&& r.name@ == name
    &&& r.status == status
    &&& r.message@ == message
    &&& r.details is None
}

fn path_str(p: &Option<String>) -> (r: Option<&str>)
    ensures
        match r {
            Some(x) => *p matches Some(y) && x@ == y@,
            None => p is None,
        },
{
    match p {
        Some(x) => Some(x.as_str()),
        None => None,
    }
}

/// The scopes whose settings the doctor checks: both under `Auto`, else the one given.
pub fn settings_check_scopes(scope: Scope) -> (r: Vec<Scope>)
    ensures
        r@ == (if scope == Scope::Auto { seq![Scope::Project, Scope::User] } else { seq![scope] }),
{
    if scope == Scope::Auto {
        let r = vec![Scope::Project, Scope::User];
        assert(r@ =~= seq![Scope::Project, Scope::User]);
        r
    } else {
        let r = vec![scope];
        assert(r@ =~= seq![scope]);
        r
    }
}

/// The validity checks of the presets: one per preset, or the warning that there are none.
pub fn validity_checks(presets: &Vec<DoctorPreset>) -> (r: Vec<CheckResult>)
    requires
        forall|i: int| 0 <= i < presets@.len() ==> doctor_preset_ok(#[trigger] presets@[i]),
    ensures
        presets@.len() == 0 ==> r@.len() == 1 && is_fixed_check(r@[0], "presets_found"@, CheckStatus::Warn, "No presets found"@),
        presets@.len() > 0 ==> r@.len() == presets@.len() && forall|i: int|
            0 <= i < presets@.len() ==> is_validity_check(
                presets@[i].preset,
                opt_string_view(presets@[i].path),
                presets@[i].origin,
                #[trigger] r@[i],
            ),
{
    let mut out: Vec<CheckResult> = Vec::new();
    if presets.len() == 0 {
        out.push(no_presets_check());
        return out;
    }
    let n = presets.len();
    for i in 0..n
        invariant
            n == presets@.len(),
            out@.len() == i,
            forall|j: int| 0 <= j < presets@.len() ==> doctor_preset_ok(#[trigger] presets@[j]),
            forall|j: int|
                0 <= j < i ==> is_validity_check(
                    presets@[j].preset,
                    opt_string_view(presets@[j].path),
                    presets@[j].origin,
                    #[trigger] out@[j],
                ),
    {
        let p = &presets[i];
        assert(doctor_preset_ok(presets@[i as int]));
        let path = path_str(&p.path);
        let c = preset_validity_check(&p.preset, path, p.origin);
        out.push(c);
    }
    out
}

/// The positions of the presets with a base, in order.
pub open spec fn base_positions(ps: Seq<DoctorPreset>) -> Seq<int>
    decreases ps.len(),
{
    if ps.len() == 0 {
        Seq::empty()
    } else {
        let prev = base_positions(ps.drop_last());
        if ps.last().preset.extends is Some {
            prev.push(ps.len() - 1)
        } else {
            prev
        }
    }
}

/// The positions of the presets with env values, in order.
pub open spec fn env_positions(ps: Seq<DoctorPreset>) -> Seq<int>
    decreases ps.len(),
{
    if ps.len() == 0 {
        Seq::empty()
    } else {
        let prev = env_positions(ps.drop_last());
        if ps.last().preset.env is Some {
            prev.push(ps.len() - 1)
        } else {
            prev
        }
    }
}

proof fn lemma_positions_bounded(ps: Seq<DoctorPreset>)
    ensures
        forall|k: int| 0 <= k < base_positions(ps).len() ==> 0 <= #[trigger] base_positions(ps)[k] < ps.len(),
        forall|k: int| 0 <= k < env_positions(ps).len() ==> 0 <= #[trigger] env_positions(ps)[k] < ps.len(),
        base_positions(ps).len() <= ps.len(),
        env_positions(ps).len() <= ps.len(),
    decreases ps.len(),
{
    if ps.len() > 0 {
        lemma_positions_bounded(ps.drop_last());
    }
}

/// The inheritance checks of the presets with a base, in order, from the outcomes of
/// resolving them (`outcomes[k]` is that of the `k`-th preset with a base); with no such
/// preset, the note that there is none.
pub fn inheritance_checks(presets: &Vec<DoctorPreset>, outcomes: Vec<Result<(), ClaudioError>>) -> (r: Vec<CheckResult>)
    requires
        forall|i: int| 0 <= i < presets@.len() ==> doctor_preset_ok(#[trigger] presets@[i]),
        outcomes@.len() == base_positions(presets@).len(),
    ensures
        base_positions(presets@).len() == 0 ==> r@.len() == 1 && is_fixed_check(
            r@[0],
            "inheritance_none"@,
            CheckStatus::Pass,
            "No presets with inheritance found"@,
        ),
        base_positions(presets@).len() > 0 ==> r@.len() == outcomes@.len() && forall|k: int|
            0 <= k < outcomes@.len() ==> {
                let i = base_positions(presets@)[k];
                is_inheritance_check(
                    presets@[i].preset.name@,
                    presets@[i].preset.extends,
                    presets@[i].origin,
                    opt_string_view(presets@[i].path),
                    outcomes@[k],
                    #[trigger] r@[k],
                )
            },
{
    let ghost ps = presets@;
    let ghost os = outcomes@;
    let m = outcomes.len();
    let mut rest = outcomes;
    let mut rev: Vec<Result<(), ClaudioError>> = Vec::new();
    while rest.len() > 0
        invariant
            rest@ + rev@.reverse() == os,
        decreases rest@.len(),
    {
        let ghost br = rest@;
        let ghost bv = rev@;
        let o = rest.pop().unwrap();
        rev.push(o);
        assert(rest@ + rev@.reverse() =~= br + bv.reverse());
    }
    assert(rev@.reverse() =~= os);
    let mut out: Vec<CheckResult> = Vec::new();
    let n = presets.len();
    for i in 0..n
        invariant
            n == ps.len(),
            ps == presets@,
            m == os.len(),
            os.len() == base_positions(ps).len(),
            out@.len() == base_positions(ps.take(i as int)).len(),
            rev@.len() == m - out@.len(),
            forall|j: int| 0 <= j < rev@.len() ==> #[trigger] rev@[j] == os[m - 1 - j],
            forall|j: int| 0 <= j < ps.len() ==> doctor_preset_ok(#[trigger] ps[j]),
            base_positions(ps.take(i as int)) == base_positions(ps).take(out@.len() as int),
            forall|k: int|
                0 <= k < out@.len() ==> {
                    let q = base_positions(ps)[k];
                    is_inheritance_check(
                        ps[q].preset.name@,
                        ps[q].preset.extends,
                        ps[q].origin,
                        opt_string_view(ps[q].path),
                        os[k],
                        #[trigger] out@[k],
                    )
                },
    {
        proof {
            lemma_base_positions_take(ps, i as int);
            lemma_positions_bounded(ps.take(i + 1));
        }
        let p = &presets[i];
        assert(doctor_preset_ok(ps[i as int]));
        if p.preset.extends.is_some() {
            let ghost k = out@.len();
            assert(k < m) by {
                lemma_positions_bounded(ps);
                assert(base_positions(ps.take(i + 1)).len() == k + 1);
                lemma_base_positions_prefix(ps, i + 1);
            }
            let o = rev.pop().unwrap();
            assert(o == os[k as int]);
            let path = path_str(&p.path);
            let c = inheritance_check(p.preset.name.as_str(), &p.preset.extends, p.origin, path, o);
            out.push(c);
            proof {
                lemma_base_positions_prefix(ps, i + 1);
                let bp1 = base_positions(ps.take(i + 1));
                assert(bp1 == base_positions(ps.take(i as int)).push(i as int));
                assert(bp1.len() == k + 1);
                assert(bp1[k as int] == i);
                assert(base_positions(ps).take(k as int + 1)[k as int] == base_positions(ps)[k as int]);
                assert(base_positions(ps)[k as int] == i);
            }
        }
    }
    proof {
        assert(ps.take(n as int) =~= ps);
    }
    if out.len() == 0 {
        out.push(inheritance_none_check());
    }
    out
}

proof fn lemma_base_positions_take(ps: Seq<DoctorPreset>, i: int)
    requires
        0 <= i < ps.len(),
    ensures
        base_positions(ps.take(i + 1)) == (if ps[i].preset.extends is Some {
            base_positions(ps.take(i)).push(i)
        } else {
            base_positions(ps.take(i))
        }),
{
    assert(ps.take(i + 1).drop_last() =~= ps.take(i));
    assert(ps.take(i + 1).last() == ps[i]);
}

proof fn lemma_base_positions_prefix(ps: Seq<DoctorPreset>, i: int)
    requires
        0 <= i <= ps.len(),
    ensures
        base_positions(ps.take(i)) == base_positions(ps).take(base_positions(ps.take(i)).len() as int),
        base_positions(ps.take(i)).len() <= base_positions(ps).len(),
    decreases ps.len() - i,
{
    if i < ps.len() {
        lemma_base_positions_prefix(ps, i + 1);
        lemma_base_positions_take(ps, i);
        let a = base_positions(ps.take(i));
        let b = base_positions(ps.take(i + 1));
        let all = base_positions(ps);
        if ps[i].preset.extends is Some {
            assert(b == a.push(i));
            assert(a =~= all.take(a.len() as int)) by {
                assert(b =~= all.take(b.len() as int));
                assert forall|t: int| 0 <= t < a.len() implies a[t] == all.take(a.len() as int)[t] by {
                    assert(a[t] == b[t]);
                }
            }
        }
    } else {
        assert(ps.take(i) =~= ps);
        assert(base_positions(ps).take(base_positions(ps).len() as int) =~= base_positions(ps));
    }
}

proof fn lemma_env_positions_take(ps: Seq<DoctorPreset>, i: int)
    requires
        0 <= i < ps.len(),
    ensures
        env_positions(ps.take(i + 1)) == (if ps[i].preset.env is Some {
            env_positions(ps.take(i)).push(i)
        } else {
            env_positions(ps.take(i))
        }),
{
    assert(ps.take(i + 1).drop_last() =~= ps.take(i));
    assert(ps.take(i + 1).last() == ps[i]);
}

proof fn lemma_env_positions_prefix(ps: Seq<DoctorPreset>, i: int)
    requires
        0 <= i <= ps.len(),
    ensures
        env_positions(ps.take(i)) == env_positions(ps).take(env_positions(ps.take(i)).len() as int),
        env_positions(ps.take(i)).len() <= env_positions(ps).len(),
    decreases ps.len() - i,
{
    if i < ps.len() {
        lemma_env_positions_prefix(ps, i + 1);
        lemma_env_positions_take(ps, i);
        let a = env_positions(ps.take(i));
        let b = env_positions(ps.take(i + 1));
        let all = env_positions(ps);
        if ps[i].preset.env is Some {
            assert(b == a.push(i));
            assert(a =~= all.take(a.len() as int)) by {
                assert(b =~= all.take(b.len() as int));
                assert forall|t: int| 0 <= t < a.len() implies a[t] == all.take(a.len() as int)[t] by {
                    assert(a[t] == b[t]);
                }
            }
        }
    } else {
        assert(ps.take(i) =~= ps);
        assert(env_positions(ps).take(env_positions(ps).len() as int) =~= env_positions(ps));
    }
}

/// An optional `&str` as an optional sequence.
pub open spec fn opt_str_seq(o: Option<&str>) -> Option<Seq<char>> {
    match o {
        Some(x) => Some(x@),
        None => None,
    }
}

/// The environment checks of the presets: skipped without `--verbose`; else the note that
/// there are no presets, or one check per preset with env values, in order. `readable[i]`
/// says which `file` values of preset `i` could be read.
pub fn env_checks(
    presets: &Vec<DoctorPreset>,
    verbose: bool,
    env: &EnvVars,
    os_home: Option<&str>,
    cwd: Option<&str>,
    readable: &Vec<Vec<bool>>,
) -> (r: Vec<CheckResult>)
    requires
        forall|i: int| 0 <= i < presets@.len() ==> doctor_preset_ok(#[trigger] presets@[i]),
        readable@.len() == presets@.len(),
        forall|i: int|
            0 <= i < presets@.len() ==> ((#[trigger] presets@[i]).preset.env matches Some(es) ==> readable@[i]@.len()
                == es@.len()),
    ensures
        !verbose ==> r@.len() == 1 && is_fixed_check(
            r@[0],
            "env_vars_skipped"@,
            CheckStatus::Pass,
            "Environment variable checks skipped (run with --verbose)"@,
        ),
        verbose && presets@.len() == 0 ==> r@.len() == 1 && is_fixed_check(
            r@[0],
            "env_vars_none"@,
            CheckStatus::Pass,
            "No presets found to check environment variables"@,
        ),
        verbose && presets@.len() > 0 ==> r@.len() == env_positions(presets@).len() && forall|k: int|
            0 <= k < r@.len() ==> {
                let i = env_positions(presets@)[k];
                is_env_vars_check(
                    presets@[i].preset,
                    presets@[i].origin,
                    opt_string_view(presets@[i].path),
                    presets@[i].source,
                    env@,
                    opt_str_seq(os_home),
                    opt_str_seq(cwd),
                    readable@[i]@,
                    Some(#[trigger] r@[k]),
                )
            },
{
    let mut out: Vec<CheckResult> = Vec::new();
    if !verbose {
        out.push(env_vars_skipped_check());
        return out;
    }
    if presets.len() == 0 {
        out.push(env_vars_none_check());
        return out;
    }
    let ghost ps = presets@;
    let n = presets.len();
    for i in 0..n
        invariant
            n == ps.len(),
            ps == presets@,
            readable@.len() == n,
            forall|j: int| 0 <= j < ps.len() ==> doctor_preset_ok(#[trigger] ps[j]),
            forall|j: int|
                0 <= j < ps.len() ==> ((#[trigger] ps[j]).preset.env matches Some(es) ==> readable@[j]@.len() == es@.len()),
            env_positions(ps.take(i as int)) == env_positions(ps).take(out@.len() as int),
            out@.len() == env_positions(ps.take(i as int)).len(),
            forall|k: int|
                0 <= k < out@.len() ==> {
                    let q = env_positions(ps)[k];
                    is_env_vars_check(
                        ps[q].preset,
                        ps[q].origin,
                        opt_string_view(ps[q].path),
                        ps[q].source,
                        env@,
                        opt_str_seq(os_home),
                        opt_str_seq(cwd),
                        readable@[q]@,
                        Some(#[trigger] out@[k]),
                    )
                },
    {
        proof {
            lemma_env_positions_take(ps, i as int);
            lemma_positions_bounded(ps);
        }
        let p = &presets[i];
        assert(doctor_preset_ok(ps[i as int]));
        let path = path_str(&p.path);
        let c = env_vars_check(&p.preset, p.origin, path, &p.source, env, os_home, cwd, &readable[i]);
        match c {
            Some(check) => {
                let ghost k = out@.len();
                out.push(check);
                proof {
                    lemma_env_positions_prefix(ps, i + 1);
                    let bp1 = env_positions(ps.take(i + 1));
                    assert(p.preset.env is Some);
                    assert(bp1 == env_positions(ps.take(i as int)).push(i as int));
                    assert(bp1.len() == k + 1);
                    assert(bp1[k as int] == i);
                    assert(env_positions(ps).take(k as int + 1)[k as int] == env_positions(ps)[k as int]);
                    assert(env_positions(ps)[k as int] == i);
                    assert(env_positions(ps.take(i + 1)) =~= env_positions(ps).take(out@.len() as int));
                }
            },
            None => {
                assert(p.preset.env is None);
            },
        }
    }
    proof {
        assert(ps.take(n as int) =~= ps);
    }
    out
}

} // verus!
