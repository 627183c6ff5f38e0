//! Presets, their validation, and preset-name safety.
use vstd::prelude::*;
use crate::env::{is_var_char, is_var_start_char};
use crate::json::{JsonValue, json_wf};
use crate::path::{file_stem, file_stem_of};
use crate::text::{all_ws, chars_of, is_blank};

verus! {

/// Where a structured env value comes from.
#[derive(Debug, Clone, PartialEq, Eq)]
pub enum EnvValueSource {
    /// A literal value.
    Value { value: String },
    /// Another environment variable.
    Env { var: String },
    /// The contents of a file (trailing whitespace removed).
    File { path: String },
    /// The output of a shell command, optionally asking for confirmation first.
    Command { command: String, confirm: Option<bool> },
}

/// The value of a preset's env entry.
#[derive(Debug, Clone, PartialEq, Eq)]
pub enum EnvValue {
    /// A string in which `${VAR}` references are substituted.
    Direct(String),
    /// A value taken from a source.
    Structured { source: EnvValueSource },
}

/// A preset: a named configuration for running the wrapped CLI.
#[derive(Debug, Clone, PartialEq, Eq)]
pub struct Preset {
    pub name: String,
    pub description: Option<String>,
    pub extends: Option<String>,
    pub prompt: Option<String>,
    pub env: Option<Vec<(String, EnvValue)>>,
    pub args: Option<Vec<String>>,
    pub settings: Option<JsonValue>,
}

/// Settings of a preset are well formed JSON.
pub open spec fn preset_wf(p: Preset) -> bool {
    p.settings matches Some(s) ==> json_wf(s)
}

/// The origin of a preset: inline in settings, or a file.
#[derive(Debug, Clone, PartialEq, Eq)]
pub enum PresetSource {
    /// Inline preset defined in settings (no file on disk).
    Inline,
    /// File-based preset with its path.
    File(String),
}

impl PresetSource {
    /// The file path, if this is a file-based preset.
    pub fn path(&self) -> (r: Option<&String>)
        ensures
            match self {
                PresetSource::Inline => r is None,
                PresetSource::File(p) => r == Some(p),
            },
    {
        match self {
            PresetSource::Inline => None,
            PresetSource::File(path) => Some(path),
        }
    }

    /// Whether this is an inline preset.
    pub fn is_inline(&self) -> (r: bool)
        ensures
            r == (self is Inline),
    {
        match self {
            PresetSource::Inline => true,
            PresetSource::File(_) => false,
        }
    }
}

/// A preset after inheritance and variable resolution.
#[derive(Debug, Clone, PartialEq, Eq)]
pub struct ResolvedPreset {
    pub name: String,
    pub description: Option<String>,
    pub prompt: Option<String>,
    pub env: Vec<(String, String)>,
    pub args: Vec<String>,
    pub settings: Option<JsonValue>,
    pub source: PresetSource,
}

/// Errors and warnings found when validating a preset.
#[derive(Debug, Clone, PartialEq, Eq)]
pub struct ValidationResult {
    pub errors: Vec<String>,
    pub warnings: Vec<String>,
}

impl ValidationResult {
    /// An empty result.
    pub fn new() -> (r: Self)
        ensures
            r.errors@.len() == 0,
            r.warnings@.len() == 0,
    {
        ValidationResult { errors: Vec::new(), warnings: Vec::new() }
    }

    /// Valid when there are no errors (warnings do not count).
    pub fn is_valid(&self) -> (r: bool)
        ensures
            r == (self.errors@.len() == 0),
    {
        self.errors.len() == 0
    }

    /// Record an error.
    pub fn add_error(&mut self, error: &str)
        ensures
            final(self).errors@.map_values(|e: String| e@) == old(self).errors@.map_values(|e: String| e@).push(error@),
            final(self).warnings@ == old(self).warnings@,
    {
        let ghost before = self.errors@;
        self.errors.push(error.to_string());
        assert(self.errors@.map_values(|e: String| e@) =~= before.map_values(|e: String| e@).push(error@));
    }

    /// Record a warning.
    pub fn add_warning(&mut self, warning: &str)
        ensures
            final(self).warnings@.map_values(|e: String| e@) == old(self).warnings@.map_values(|e: String| e@).push(warning@),
            final(self).errors@ == old(self).errors@,
    {
        let ghost before = self.warnings@;
        self.warnings.push(warning.to_string());
        assert(self.warnings@.map_values(|e: String| e@) =~= before.map_values(|e: String| e@).push(warning@));
    }
}

/// Result of checking a preset name.
#[derive(Debug, Clone, PartialEq, Eq)]
pub struct NameValidation {
    /// Whether the name is safe to use (no path traversal, etc.).
    pub is_safe: bool,
    /// Style warnings (the name is safe but unconventional).
    pub warnings: Vec<String>,
}

impl NameValidation {
    /// A safe result without warnings.
    pub fn valid() -> (r: Self)
        ensures
            r.is_safe,
            r.warnings@.len() == 0,
    {
        NameValidation { is_safe: true, warnings: Vec::new() }
    }

    /// An unsafe result.
    pub fn invalid() -> (r: Self)
        ensures
            !r.is_safe,
            r.warnings@.len() == 0,
    {
        NameValidation { is_safe: false, warnings: Vec::new() }
    }
}

/// A safe preset name: non-empty, no NUL, no `/` or `\`, and not `..`.
pub open spec fn name_is_safe(name: Seq<char>) -> bool {
    &&& name.len() > 0
    &&& !name.contains('\0')
    &&& !name.contains('/')
    &&& !name.contains('\\')
    &&& name != seq!['.', '.']
}

fn has_char(cs: &Vec<char>, c: char) -> (r: bool)
    ensures
        r == cs@.contains(c),
{
    let n = cs.len();
    for i in 0..n
        invariant
            n == cs@.len(),
            forall|j: int| 0 <= j < i ==> cs@[j] != c,
    {
        if cs[i] == c {
            assert(cs@[i as int] == c);
            return true;
        }
    }
    false
}

/// Check a preset name for safety: it must be non-empty and hold no NUL, no path
/// separator (`/` or `\`), and no `..` path component. No style warnings are given.
pub fn validate_preset_name(name: &str) -> (r: NameValidation)
    ensures
        r.is_safe == name_is_safe(name@),
        r.warnings@.len() == 0,
{
    let cs = chars_of(name);
    if cs.len() == 0 {
        return NameValidation::invalid();
    }
    if has_char(&cs, '\0') {
        return NameValidation::invalid();
    }
    if has_char(&cs, '/') || has_char(&cs, '\\') {
        return NameValidation::invalid();
    }
    // With no separator, the name is a single component: reject `..`.
    if cs.len() == 2 && cs[0] == '.' && cs[1] == '.' {
        assert(cs@ =~= seq!['.', '.']);
        return NameValidation::invalid();
    }
    proof {
        if cs@ == seq!['.', '.'] {
            assert(cs@.len() == 2);
        }
    }
    NameValidation::valid()
}

/// A name can be used directly as a file stem exactly when it is a safe name other than `.`.
pub proof fn lemma_legacy_safe_iff_safe_and_not_dot(name: Seq<char>)
    ensures
        crate::preset::naming::legacy_filename_safe(name) <==> (name_is_safe(name) && name != seq!['.']),
{
}

/// An environment variable name: `[A-Z_][A-Z0-9_]*`.
pub open spec fn valid_env_key(key: Seq<char>) -> bool {
    &&& key.len() > 0
    &&& is_var_start_char(key[0])
    &&& forall|i: int| 1 <= i < key.len() ==> is_var_char(#[trigger] key[i])
}

/// Whether `key` is a valid environment variable name (`[A-Z_][A-Z0-9_]*`).
pub fn is_valid_env_key(key: &str) -> (r: bool)
    ensures
        r == valid_env_key(key@),
{
    let cs = chars_of(key);
    let n = cs.len();
    if n == 0 {
        return false;
    }
    let first = cs[0];
    if !(first == '_' || ('A' <= first && first <= 'Z')) {
        return false;
    }
    for i in 1..n
        invariant
            n == cs@.len(),
            cs@ == key@,
            forall|j: int| 1 <= j < i ==> is_var_char(#[trigger] cs@[j]),
    {
        let c = cs[i];
        if !(c == '_' || ('A' <= c && c <= 'Z') || ('0' <= c && c <= '9')) {
            return false;
        }
    }
    true
}

/// A valid env key is exactly a name that `${...}` can reference: the string
/// `${key}` consists of one reference, to `key`.
pub proof fn lemma_valid_env_key_is_reference_name(key: Seq<char>)
    ensures
        valid_env_key(key) <==> crate::env::ref_end_at(seq!['$', '{'] + key + seq!['}'], 0) == Some(
            key.len() + 3 as int,
        ),
{
    let s = seq!['$', '{'] + key + seq!['}'];
    assert forall|j: int| 2 <= j < s.len() - 1 implies #[trigger] s[j] == key[j - 2] by {}
    assert(s[s.len() - 1] == '}');
    if key.len() > 0 {
        lemma_name_run(s, 3, key);
    }
    if valid_env_key(key) {
        assert(s[2] == key[0]);
    }
    if crate::env::ref_end_at(s, 0) == Some(key.len() + 3 as int) {
        assert(key.len() > 0);
        assert(s[2] == key[0]);
        assert forall|i: int| 1 <= i < key.len() implies is_var_char(#[trigger] key[i]) by {
            assert(s[i + 2] == key[i]);
        }
    }
}

proof fn lemma_name_run(s: Seq<char>, j: int, key: Seq<char>)
    requires
        s == seq!['$', '{'] + key + seq!['}'],
        3 <= j <= s.len() - 1,
    ensures
        (forall|i: int| j <= i < s.len() - 1 ==> is_var_char(#[trigger] s[i])) ==> j + crate::env::name_run_len(s, j) == s.len() - 1,
        (j + crate::env::name_run_len(s, j) == s.len() - 1) ==> (forall|i: int| j <= i < s.len() - 1 ==> is_var_char(#[trigger] s[i])),
        j + crate::env::name_run_len(s, j) <= s.len() - 1,
    decreases s.len() - j,
{
    assert(s[s.len() - 1] == '}');
    if j < s.len() - 1 {
        lemma_name_run(s, j + 1, key);
    }
}

/// Message for a preset name that is blank.
pub open spec fn msg_name_required() -> Seq<char> {
    "name field is required"@
}

pub open spec fn msg_extends_empty() -> Seq<char> {
    "extends field must not be empty when provided"@
}

pub open spec fn msg_extends_self() -> Seq<char> {
    "extends field must not reference itself"@
}

pub open spec fn msg_env_empty_key() -> Seq<char> {
    "env contains an empty key"@
}

pub open spec fn msg_env_bad_key(key: Seq<char>) -> Seq<char> {
    "env key '"@ + key + "' is not a valid environment variable name"@
}

pub open spec fn msg_env_empty_value(key: Seq<char>) -> Seq<char> {
    "env key '"@ + key + "' has an empty value"@
}

pub open spec fn msg_prompt_empty() -> Seq<char> {
    "prompt is empty"@
}

pub open spec fn msg_settings_not_object() -> Seq<char> {
    "settings must be a JSON object"@
}

pub open spec fn msg_name_mismatch(name: Seq<char>, stem: Seq<char>) -> Seq<char> {
    "Preset name '"@ + name + "' does not match filename '"@ + stem + "'"@
}

/// The errors that the env entries give, in order.
pub open spec fn env_errors(es: Seq<(String, EnvValue)>) -> Seq<Seq<char>>
    decreases es.len(),
{
    if es.len() == 0 {
        seq![]
    } else {
        let key = es.last().0@;
        env_errors(es.drop_last()) + if all_ws(key) {
            seq![msg_env_empty_key()]
        } else if !valid_env_key(key) {
            seq![msg_env_bad_key(key)]
        } else {
            seq![]
        }
    }
}

/// An env value counts as empty when it is a direct empty string.
pub open spec fn env_value_is_empty(v: EnvValue) -> bool {
    v matches EnvValue::Direct(s) && s@.len() == 0
}

/// The warnings that the env entries give, in order (none for a blank key).
pub open spec fn env_warnings(es: Seq<(String, EnvValue)>) -> Seq<Seq<char>>
    decreases es.len(),
{
    if es.len() == 0 {
        seq![]
    } else {
        let key = es.last().0@;
        env_warnings(es.drop_last()) + if !all_ws(key) && env_value_is_empty(es.last().1) {
            seq![msg_env_empty_value(key)]
        } else {
            seq![]
        }
    }
}

/// The errors of a preset: blank name, bad `extends`, bad env keys, non-object settings.
pub open spec fn preset_errors(p: Preset) -> Seq<Seq<char>> {
    (if all_ws(p.name@) {
        seq![msg_name_required()]
    } else {
        seq![]
    }) + (match p.extends {
        Some(e) => if all_ws(e@) {
            seq![msg_extends_empty()]
        } else if e@ == p.name@ {
            seq![msg_extends_self()]
        } else {
            seq![]
        },
        None => seq![],
    }) + (match p.env {
        Some(es) => env_errors(es@),
        None => seq![],
    }) + (match p.settings {
        Some(v) => if v is Object {
            seq![]
        } else {
            seq![msg_settings_not_object()]
        },
        None => seq![],
    })
}

/// The warnings of a preset: empty env values, an empty prompt, and a name that
/// differs from the file's stem.
pub open spec fn preset_warnings(p: Preset, path: Option<Seq<char>>) -> Seq<Seq<char>> {
    (match p.env {
        Some(es) => env_warnings(es@),
        None => seq![],
    }) + (match p.prompt {
        Some(pr) => if pr@.len() == 0 {
            seq![msg_prompt_empty()]
        } else {
            seq![]
        },
        None => seq![],
    }) + (match path {
        Some(pa) => match file_stem_of(pa) {
            Some(st) => if p.name@ != st {
                seq![msg_name_mismatch(p.name@, st)]
            } else {
                seq![]
            },
            None => seq![],
        },
        None => seq![],
    })
}


fn env_bad_key_message(key: &str) -> (m: String)
    ensures
        m@ == msg_env_bad_key(key@),
{
    let mut m = String::new();
    m.push_str("env key '");
    m.push_str(key);
    m.push_str("' is not a valid environment variable name");
    m
}

fn env_empty_value_message(key: &str) -> (m: String)
    ensures
        m@ == msg_env_empty_value(key@),
{
    let mut m = String::new();
    m.push_str("env key '");
    m.push_str(key);
    m.push_str("' has an empty value");
    m
}

fn name_mismatch_message(name: &str, stem: &str) -> (m: String)
    ensures
        m@ == msg_name_mismatch(name@, stem@),
{
    let mut m = String::new();
    m.push_str("Preset name '");
    m.push_str(name);
    m.push_str("' does not match filename '");
    m.push_str(stem);
    m.push_str("'");
    m
}

fn is_empty_value(v: &EnvValue) -> (r: bool)
    ensures
        r == env_value_is_empty(*v),
{
    match v {
        EnvValue::Direct(s) => s.as_str().unicode_len() == 0,
        EnvValue::Structured { .. } => false,
    }
}

impl Preset {
    /// Validate a preset, optionally against the path of its file.
    ///
    /// Errors: a blank name, a blank or self-referencing `extends`, blank or
    /// invalid env keys, and settings that are not a JSON object. Warnings: empty
    /// env values, an empty prompt, and a name that differs from the file stem.
    pub fn validate(&self, path: Option<&str>) -> (r: ValidationResult)
        requires
            path matches Some(p) ==> p@.len() < i64::MAX,
        ensures
            r.errors@.map_values(|e: String| e@) == preset_errors(*self),
            r.warnings@.map_values(|e: String| e@) == preset_warnings(
                *self,
                match path {
                    Some(p) => Some(p@),
                    None => None,
                },
            ),
    {
        let mut result = ValidationResult::new();
        assert(result.errors@.map_values(|e: String| e@) =~= seq![]);
        assert(result.warnings@.map_values(|e: String| e@) =~= seq![]);
        if is_blank(self.name.as_str()) {
            result.add_error("name field is required");
        }
        let ghost name_part = result.errors@.map_values(|e: String| e@);
        assert(name_part =~= if all_ws(self.name@) { seq![msg_name_required()] } else { seq![] });
        match &self.extends {
            Some(e) => {
                if is_blank(e.as_str()) {
                    result.add_error("extends field must not be empty when provided");
                } else if *e == self.name {
                    result.add_error("extends field must not reference itself");
                }
            },
            None => {},
        }
        let ghost head = result.errors@.map_values(|e: String| e@);
        assert(head =~= name_part + match self.extends {
            Some(e) => if all_ws(e@) {
                seq![msg_extends_empty()]
            } else if e@ == self.name@ {
                seq![msg_extends_self()]
            } else {
                seq![]
            },
            None => seq![],
        });
        match &self.env {
            Some(env) => {
                let n = env.len();
                for i in 0..n
                    invariant
                        n == env@.len(),
                        result.errors@.map_values(|e: String| e@) == head + env_errors(env@.take(i as int)),
                        result.warnings@.map_values(|e: String| e@) == env_warnings(env@.take(i as int)),
                {
                    let key = &env[i].0;
                    let ghost e0 = result.errors@.map_values(|e: String| e@);
                    let ghost w0 = result.warnings@.map_values(|e: String| e@);
                    proof {
                        assert(env@.take(i + 1).drop_last() =~= env@.take(i as int));
                        assert(env@.take(i + 1).last() == env@[i as int]);
                    }
                    if is_blank(key.as_str()) {
                        result.add_error("env contains an empty key");
                        assert(result.errors@.map_values(|e: String| e@) =~= head + env_errors(env@.take(i + 1)));
                        assert(result.warnings@.map_values(|e: String| e@) =~= env_warnings(env@.take(i + 1)));
                    } else {
                        if !is_valid_env_key(key.as_str()) {
                            let m = env_bad_key_message(key.as_str());
                            result.add_error(m.as_str());
                        }
                        if is_empty_value(&env[i].1) {
                            let m = env_empty_value_message(key.as_str());
                            result.add_warning(m.as_str());
                        }
                        assert(result.errors@.map_values(|e: String| e@) =~= head + env_errors(env@.take(i + 1)));
                        assert(result.warnings@.map_values(|e: String| e@) =~= env_warnings(env@.take(i + 1)));
                    }
                }
                assert(env@.take(n as int) =~= env@);
            },
            None => {},
        }
        let ghost after_env_w = result.warnings@.map_values(|e: String| e@);
        match &self.prompt {
            Some(pr) => {
                if pr.as_str().unicode_len() == 0 {
                    result.add_warning("prompt is empty");
                }
            },
            None => {},
        }
        match &self.settings {
            Some(v) => {
                let is_object = match v {
                    JsonValue::Object(_) => true,
                    _ => false,
                };
                if !is_object {
                    result.add_error("settings must be a JSON object");
                }
            },
            None => {},
        }
        match path {
            Some(p) => {
                match file_stem(p) {
                    Some(st) => {
                        if self.name != st {
                            let m = name_mismatch_message(self.name.as_str(), st.as_str());
                            result.add_warning(m.as_str());
                        }
                    },
                    None => {},
                }
            },
            None => {},
        }
        assert(result.errors@.map_values(|e: String| e@) =~= preset_errors(*self));
        assert(result.warnings@.map_values(|e: String| e@) =~= preset_warnings(
            *self,
            match path {
                Some(p) => Some(p@),
                None => None,
            },
        ));
        result
    }
}

/// The error of a preset file that could not be read: the OS error under the path.
pub fn preset_read_error(path: &str, cause: String) -> (r: crate::error::ClaudioError)
    ensures
        r matches crate::error::ClaudioError::Context { context, cause: c }
            && context@ == "Failed to read preset file: "@ + path@
            && *c == crate::error::ClaudioError::Message(cause),
{
    let mut context = "Failed to read preset file: ".to_owned();
    context.push_str(path);
    crate::error::ClaudioError::Context { context, cause: Box::new(crate::error::ClaudioError::Message(cause)) }
}

/// The error of a preset file that is not a valid preset: the path, then the parser's error.
pub fn preset_parse_error(path: &str, cause: &str) -> (r: crate::error::ClaudioError)
    ensures
        r matches crate::error::ClaudioError::Message(m)
            && m@ == "Failed to parse preset file: "@ + path@ + "\n\nParse error: "@ + cause@,
{
    let mut m = "Failed to parse preset file: ".to_owned();
    m.push_str(path);
    m.push_str("\n\nParse error: ");
    m.push_str(cause);
    crate::error::ClaudioError::Message(m)
}

} // verus!
