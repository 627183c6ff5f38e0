//! Listing presets: the fields a listing shows and the cells of a row.
use vstd::prelude::*;
use crate::error::{ClaudioError, error_display};
use crate::preset::types::Preset;
use crate::scope::Scope;
use crate::text::{opt_string_view, join_strings, join_with, ascii_lower_seq, ascii_lowercase, eq_ignore_ascii_case, str_eq, strings_view, trim, trim_seq};

verus! {

/// The fields a listing can show, in their canonical order.
pub open spec fn valid_field_names() -> Seq<Seq<char>> {
    seq!["name"@, "description"@, "filepath"@, "env"@, "args"@, "extends"@, "prompt"@]
}

/// A field name that a listing knows.
pub open spec fn is_valid_field(f: Seq<char>) -> bool {
    f == "name"@ || f == "description"@ || f == "filepath"@ || f == "env"@ || f == "args"@ || f
        == "extends"@ || f == "prompt"@
}

/// A requested field, trimmed and lowercased.
///
/// Lowercasing is ASCII lowercasing here. Unicode lowercasing differs from it on non-ASCII
/// letters only, and the one such letter that lowers into ASCII (the Kelvin sign, to `k`)
/// cannot make a field name, none of which holds a `k`; so a request is accepted, and
/// normalised, exactly as under Unicode lowercasing.
pub open spec fn normalize_field(f: Seq<char>) -> Seq<char> {
    ascii_lower_seq(trim_seq(f))
}

/// A request for every field: `all` in any case, with surrounding whitespace.
pub open spec fn is_all_keyword(f: Seq<char>) -> bool {
    ascii_lower_seq(trim_seq(f)) == ascii_lower_seq("all"@)
}

/// The requested fields, normalised, or the first request that names no field.
pub open spec fn check_fields(fields: Seq<Seq<char>>) -> Result<Seq<Seq<char>>, Seq<char>>
    decreases fields.len(),
{
    if fields.len() == 0 {
        Ok(Seq::empty())
    } else if !is_valid_field(normalize_field(fields[0])) {
        Err(fields[0])
    } else {
        match check_fields(fields.drop_first()) {
            Ok(rest) => Ok(seq![normalize_field(fields[0])] + rest),
            Err(e) => Err(e),
        }
    }
}

/// The fields to show for a request: every field if any entry is `all`, else the entries
/// normalised, or the first entry that names no field.
pub open spec fn validated_fields(fields: Seq<Seq<char>>) -> Result<Seq<Seq<char>>, Seq<char>> {
    if exists|i: int| 0 <= i < fields.len() && is_all_keyword(#[trigger] fields[i]) {
        Ok(valid_field_names())
    } else {
        check_fields(fields)
    }
}

fn is_valid_field_name(f: &str) -> (r: bool)
    ensures
        r == is_valid_field(f@),
{
    str_eq(f, "name") || str_eq(f, "description") || str_eq(f, "filepath") || str_eq(f, "env")
        || str_eq(f, "args") || str_eq(f, "extends") || str_eq(f, "prompt")
}

fn all_field_names() -> (r: Vec<String>)
    ensures
        strings_view(r@) == valid_field_names(),
{
    let r = vec![
        "name".to_owned(),
        "description".to_owned(),
        "filepath".to_owned(),
        "env".to_owned(),
        "args".to_owned(),
        "extends".to_owned(),
        "prompt".to_owned(),
    ];
    assert(strings_view(r@) =~= valid_field_names());
    r
}

/// Check the fields requested for a listing. Any entry `all` (trimmed, any case) asks for
/// every field; otherwise each entry, trimmed and lowercased, must name a field, and the
/// first that does not is reported.
pub fn validate_fields(fields: &Vec<String>) -> (r: Result<Vec<String>, ClaudioError>)
    ensures
        match validated_fields(strings_view(fields@)) {
            Ok(v) => r matches Ok(out) && strings_view(out@) == v,
            Err(f) => r matches Err(ClaudioError::InvalidField(g)) && g@ == f,
        },
{
    let ghost fv = strings_view(fields@);
    let n = fields.len();
    let mut has_all = false;
    for i in 0..n
        invariant
            n == fields@.len(),
            fv == strings_view(fields@),
            has_all == exists|k: int| 0 <= k < i && is_all_keyword(#[trigger] fv[k]),
    {
        let t = trim(fields[i].as_str());
        let hit = eq_ignore_ascii_case(t.as_str(), "all");
        assert(hit == is_all_keyword(fv[i as int]));
        has_all = has_all || hit;
    }
    if has_all {
        return Ok(all_field_names());
    }
    let mut validated: Vec<String> = Vec::new();
    assert(fv.skip(0) =~= fv);
    for i in 0..n
        invariant
            n == fields@.len(),
            fv == strings_view(fields@),
            !(exists|k: int| 0 <= k < n && is_all_keyword(#[trigger] fv[k])),
            match check_fields(fv.skip(i as int)) {
                Ok(rest) => check_fields(fv) == Ok::<Seq<Seq<char>>, Seq<char>>(strings_view(validated@) + rest),
                Err(e) => check_fields(fv) == Err::<Seq<Seq<char>>, Seq<char>>(e),
            },
    {
        let t = trim(fields[i].as_str());
        let normalized = ascii_lowercase(t.as_str());
        let ghost tail = fv.skip(i as int);
        assert(tail[0] == fv[i as int]);
        assert(tail.drop_first() =~= fv.skip(i + 1));
        assert(fv[i as int] == fields@[i as int]@);
        assert(normalized@ == normalize_field(fv[i as int]));
        if !is_valid_field_name(normalized.as_str()) {
            return Err(ClaudioError::InvalidField(fields[i].clone()));
        }
        let ghost before = strings_view(validated@);
        validated.push(normalized);
        proof {
            assert(strings_view(validated@) =~= before.push(normalize_field(fv[i as int])));
            match check_fields(fv.skip(i + 1)) {
                Ok(rest) => {
                    assert(before + (seq![normalize_field(fv[i as int])] + rest) =~= strings_view(validated@) + rest);
                },
                Err(e) => {},
            }
        }
    }
    proof {
        assert(fv.skip(n as int) =~= Seq::<Seq<char>>::empty());
        assert(strings_view(validated@) + Seq::<Seq<char>>::empty() =~= strings_view(validated@));
    }
    Ok(validated)
}

/// The column header of a field; an unknown field is its own header.
pub open spec fn header_of(f: Seq<char>) -> Seq<char> {
    if f == "name"@ {
        "Name"@
    } else if f == "description"@ {
        "Description"@
    } else if f == "filepath"@ {
        "Filepath"@
    } else if f == "env"@ {
        "Env Vars"@
    } else if f == "args"@ {
        "Args"@
    } else if f == "extends"@ {
        "Extends"@
    } else if f == "prompt"@ {
        "Prompt"@
    } else {
        f
    }
}

/// The column header for a field.
pub fn field_to_header(field: &str) -> (r: String)
    ensures
        r@ == header_of(field@),
{
    if str_eq(field, "name") {
        "Name".to_owned()
    } else if str_eq(field, "description") {
        "Description".to_owned()
    } else if str_eq(field, "filepath") {
        "Filepath".to_owned()
    } else if str_eq(field, "env") {
        "Env Vars".to_owned()
    } else if str_eq(field, "args") {
        "Args".to_owned()
    } else if str_eq(field, "extends") {
        "Extends".to_owned()
    } else if str_eq(field, "prompt") {
        "Prompt".to_owned()
    } else {
        field.to_owned()
    }
}

/// Whether a JSON listing includes a field: every field when none were requested.
pub fn should_include_json_field(validated_fields: &Option<Vec<String>>, field: &str) -> (r: bool)
    ensures
        r == match validated_fields {
            None => true,
            Some(fs) => strings_view(fs@).contains(field@),
        },
{
    match validated_fields {
        None => true,
        Some(fs) => {
            let n = fs.len();
            for i in 0..n
                invariant
                    n == fs@.len(),
                    *validated_fields == Some(*fs),
                    forall|k: int| 0 <= k < i ==> strings_view(fs@)[k] != field@,
            {
                if str_eq(fs[i].as_str(), field) {
                    assert(strings_view(fs@)[i as int] == field@);
                    assert(strings_view(fs@).contains(field@));
                    return true;
                }
            }
            false
        },
    }
}

/// The columns a table shows by default.
pub open spec fn default_display_fields() -> Seq<Seq<char>> {
    seq!["name"@, "description"@, "filepath"@]
}

/// The fields a table shows: those requested, else name, description and filepath.
pub fn get_display_fields(validated_fields: &Option<Vec<String>>) -> (r: Vec<String>)
    ensures
        strings_view(r@) == match validated_fields {
            Some(fs) => strings_view(fs@),
            None => default_display_fields(),
        },
{
    match validated_fields {
        Some(fs) => {
            let out = fs.clone();
            assert forall|k: int| 0 <= k < out@.len() implies out@[k] == fs@[k] by {
                assert(vstd::pervasive::cloned(fs@[k], out@[k]));
            }
            assert(out@ =~= fs@);
            out
        },
        None => {
            let r = vec!["name".to_owned(), "description".to_owned(), "filepath".to_owned()];
            assert(strings_view(r@) =~= default_display_fields());
            r
        },
    }
}

/// One cell of a listing's table row.
#[derive(Debug, Clone, PartialEq, Eq)]
pub struct RowCell {
    pub text: String,
    /// Shown in the highlight colour and bold (the default preset's name, when colour is on).
    pub emphasized: bool,
}

/// An optional string, or a fallback when it is absent.
pub open spec fn text_or(s: Option<String>, fallback: Seq<char>) -> Seq<char> {
    match s {
        Some(x) => x@,
        None => fallback,
    }
}

/// The text of a preset's cell in a field's column.
pub open spec fn cell_text(
    p: Preset,
    filepath: Seq<char>,
    field: Seq<char>,
    default_preset: Option<Seq<char>>,
    env_keys: Option<Seq<Seq<char>>>,
) -> Seq<char> {
    if field == "name"@ {
        if default_preset == Some(p.name@) {
            "* "@ + p.name@
        } else {
            p.name@
        }
    } else if field == "description"@ {
        text_or(p.description, Seq::empty())
    } else if field == "filepath"@ {
        filepath
    } else if field == "env"@ {
        match env_keys {
            Some(keys) => join_with(keys, ", "@),
            None => Seq::empty(),
        }
    } else if field == "args"@ {
        match p.args {
            Some(a) => join_with(strings_view(a@), ", "@),
            None => Seq::empty(),
        }
    } else if field == "extends"@ {
        text_or(p.extends, "none"@)
    } else if field == "prompt"@ {
        text_or(p.prompt, Seq::empty())
    } else {
        Seq::empty()
    }
}

fn optional_text(s: &Option<String>, fallback: &str) -> (r: String)
    ensures
        r@ == text_or(*s, fallback@),
{
    match s {
        Some(x) => x.clone(),
        None => fallback.to_owned(),
    }
}

/// The cells of a preset's row, one per field. The default preset's name is marked with
/// `* ` (and emphasised when colour is on); env shows the variable names, args are joined
/// with `, `, a missing `extends` shows as `none`, and other missing values are empty.
pub fn build_row(
    preset: &Preset,
    filepath_display: &str,
    fields: &Vec<String>,
    default_preset: Option<&str>,
    color_enabled: bool,
    env_keys: Option<&Vec<String>>,
) -> (r: Vec<RowCell>)
    ensures
        r@.len() == fields@.len(),
        forall|i: int|
            0 <= i < fields@.len() ==> {
                let dp = match default_preset {
                    Some(d) => Some(d@),
                    None => None,
                };
                let ek = match env_keys {
                    Some(k) => Some(strings_view(k@)),
                    None => None,
                };
                &&& (#[trigger] r@[i]).text@ == cell_text(*preset, filepath_display@, fields@[i]@, dp, ek)
                &&& r@[i].emphasized == (fields@[i]@ == "name"@ && dp == Some(preset.name@)
                    && color_enabled)
            },
{
    let ghost dp = match default_preset {
        Some(d) => Some(d@),
        None => None::<Seq<char>>,
    };
    let ghost ek = match env_keys {
        Some(k) => Some(strings_view(k@)),
        None => None::<Seq<Seq<char>>>,
    };
    let is_default = match default_preset {
        Some(d) => str_eq(d, preset.name.as_str()),
        None => false,
    };
    assert(is_default == (dp == Some(preset.name@)));
    let mut out: Vec<RowCell> = Vec::new();
    let n = fields.len();
    for i in 0..n
        invariant
            n == fields@.len(),
            out@.len() == i,
            is_default == (dp == Some(preset.name@)),
            dp == match default_preset {
                Some(d) => Some(d@),
                None => None,
            },
            ek == match env_keys {
                Some(k) => Some(strings_view(k@)),
                None => None,
            },
            forall|k: int|
                0 <= k < i ==> {
                    &&& (#[trigger] out@[k]).text@ == cell_text(*preset, filepath_display@, fields@[k]@, dp, ek)
                    &&& out@[k].emphasized == (fields@[k]@ == "name"@ && dp == Some(preset.name@)
                        && color_enabled)
                },
    {
        let f = fields[i].as_str();
        let cell = if str_eq(f, "name") {
            let text = if is_default {
                let mut t = String::new();
                t.push_str("* ");
                t.push_str(preset.name.as_str());
                t
            } else {
                preset.name.clone()
            };
            RowCell { text, emphasized: is_default && color_enabled }
        } else {
            let text = if str_eq(f, "description") {
                optional_text(&preset.description, "")
            } else if str_eq(f, "filepath") {
                filepath_display.to_owned()
            } else if str_eq(f, "env") {
                match env_keys {
                    Some(keys) => join_strings(keys, ", "),
                    None => String::new(),
                }
            } else if str_eq(f, "args") {
                match &preset.args {
                    Some(a) => join_strings(a, ", "),
                    None => String::new(),
                }
            } else if str_eq(f, "extends") {
                optional_text(&preset.extends, "none")
            } else if str_eq(f, "prompt") {
                optional_text(&preset.prompt, "")
            } else {
                String::new()
            };
            proof {
                reveal_strlit("");
            }
            RowCell { text, emphasized: false }
        };
        out.push(cell);
    }
    out
}

/// The scope label of the preset directory at `dir_index` of `dir_count` directories: the
/// scope itself for a single scope; under `Auto` the last directory is the user's and any
/// other the project's.
pub open spec fn dir_label(effective_scope: Scope, dir_index: int, dir_count: int) -> Seq<char> {
    match effective_scope {
        Scope::Project => "project"@,
        Scope::User => "user"@,
        Scope::Auto => if dir_index == (if dir_count > 0 { dir_count - 1 } else { 0 }) {
            "user"@
        } else {
            "project"@
        },
    }
}

/// The scope label of the preset directory at `dir_index` of `dir_count` directories.
pub fn dir_scope_label(effective_scope: Scope, dir_index: usize, dir_count: usize) -> (r: String)
    ensures
        r@ == dir_label(effective_scope, dir_index as int, dir_count as int),
{
    match effective_scope {
        Scope::Project => "project".to_owned(),
        Scope::User => "user".to_owned(),
        Scope::Auto => {
            let user_index = if dir_count > 0 { dir_count - 1 } else { 0 };
            if dir_index == user_index {
                "user".to_owned()
            } else {
                "project".to_owned()
            }
        },
    }
}

/// The header of a section of file presets.
pub fn file_section_header(scope_label: &str) -> (r: String)
    ensures
        r@ == (if scope_label@ == "project"@ {
            "=== Project Presets ==="@
        } else {
            "=== User Presets ==="@
        }),
{
    if str_eq(scope_label, "project") {
        "=== Project Presets ===".to_owned()
    } else {
        "=== User Presets ===".to_owned()
    }
}

/// The header of a section of inline presets: the origin is named only under `Auto`.
pub fn inline_section_header(effective_scope: Scope, scope_label: &str) -> (r: String)
    ensures
        r@ == "=== "@ + (match effective_scope {
            Scope::Auto => if scope_label@ == "project"@ {
                "Inline (project)"@
            } else {
                "Inline (user)"@
            },
            _ => "Inline"@,
        }) + " ==="@,
{
    let label = match effective_scope {
        Scope::Auto => if str_eq(scope_label, "project") {
            "Inline (project)"
        } else {
            "Inline (user)"
        },
        _ => "Inline",
    };
    let mut r = "=== ".to_owned();
    r.push_str(label);
    r.push_str(" ===");
    r
}

/// The note on preset files that could not be loaded.
pub fn invalid_files_note(count: usize) -> (r: String)
    ensures
        r@ == "\n("@ + (if count == 1 {
            "1 invalid preset file skipped"@
        } else {
            crate::text::decimal(count as nat) + " invalid preset files skipped"@
        }) + ", run `claudio doctor` for details)"@,
{
    let mut r = "\n(".to_owned();
    if count == 1 {
        r.push_str("1 invalid preset file skipped");
    } else {
        let n = crate::text::decimal_string(count as u64);
        r.push_str(n.as_str());
        r.push_str(" invalid preset files skipped");
    }
    r.push_str(", run `claudio doctor` for details)");
    r
}

/// One preset of a listing.
#[derive(Debug, Clone, PartialEq, Eq)]
pub struct PresetListItem {
    pub name: String,
    pub description: Option<String>,
    pub filepath: Option<String>,
    /// `project` or `user`.
    pub scope: String,
    /// `file` or `inline`.
    pub source: String,
    pub is_default: bool,
    /// The names of the preset's variables (never their values).
    pub env_keys: Option<Vec<String>>,
    pub args: Option<Vec<String>>,
    pub extends: Option<String>,
    pub prompt: Option<String>,
}

/// The names of a preset's variables.
pub open spec fn env_key_names(p: Preset) -> Option<Seq<Seq<char>>> {
    match p.env {
        Some(es) => Some(es@.map_values(|e: (String, crate::preset::types::EnvValue)| e.0@)),
        None => None,
    }
}

/// A field's value when the listing includes the field.
pub open spec fn included<T>(fields: Option<Seq<Seq<char>>>, field: Seq<char>, v: Option<T>) -> Option<T> {
    match fields {
        None => v,
        Some(fs) => if fs.contains(field) {
            v
        } else {
            None
        },
    }
}

/// The listing item of a preset: its name, the included fields (all when none were
/// requested), where it comes from, and whether it is the default preset.
pub fn list_item(
    preset: Preset,
    filepath: Option<String>,
    scope_label: &str,
    source: &str,
    default_preset: Option<&str>,
    validated_fields: &Option<Vec<String>>,
) -> (r: PresetListItem)
    ensures
        ({
            let fs = match validated_fields {
                Some(f) => Some(strings_view(f@)),
                None => None,
            };
            &&& r.name@ == preset.name@
            &&& r.description == included(fs, "description"@, preset.description)
            &&& r.filepath == included(fs, "filepath"@, filepath)
            &&& r.scope@ == scope_label@
            &&& r.source@ == source@
            &&& r.is_default == (default_preset matches Some(d) && d@ == preset.name@)
            &&& match r.env_keys {
                Some(k) => included(fs, "env"@, env_key_names(preset)) == Some(strings_view(k@)),
                None => included(fs, "env"@, env_key_names(preset)) is None,
            }
            &&& r.args == included(fs, "args"@, preset.args)
            &&& r.extends == included(fs, "extends"@, preset.extends)
            &&& r.prompt == included(fs, "prompt"@, preset.prompt)
        }),
        r@ == item_spec(
            preset,
            opt_string_view(filepath),
            scope_label@,
            source@,
            opt_str_view(default_preset),
            opt_strings_view(*validated_fields),
        ),
{
    let is_default = match default_preset {
        Some(d) => str_eq(d, preset.name.as_str()),
        None => false,
    };
    let env_keys = if should_include_json_field(validated_fields, "env") {
        match &preset.env {
            Some(es) => {
                let mut keys: Vec<String> = Vec::new();
                let n = es.len();
                for i in 0..n
                    invariant
                        n == es@.len(),
                        strings_view(keys@) == es@.map_values(|e: (String, crate::preset::types::EnvValue)| e.0@).take(i as int),
                {
                    let ghost b = keys@;
                    let k = es[i].0.clone();
                    keys.push(k);
                    assert(strings_view(b).len() == b.len());
                    assert(strings_view(keys@) =~= es@.map_values(|e: (String, crate::preset::types::EnvValue)| e.0@).take(i + 1));
                }
                assert(es@.map_values(|e: (String, crate::preset::types::EnvValue)| e.0@).take(n as int) =~= es@.map_values(|e: (String, crate::preset::types::EnvValue)| e.0@));
                Some(keys)
            },
            None => None,
        }
    } else {
        None
    };
    let description = if should_include_json_field(validated_fields, "description") {
        preset.description
    } else {
        None
    };
    let filepath = if should_include_json_field(validated_fields, "filepath") {
        filepath
    } else {
        None
    };
    let args = if should_include_json_field(validated_fields, "args") {
        preset.args
    } else {
        None
    };
    let extends = if should_include_json_field(validated_fields, "extends") {
        preset.extends
    } else {
        None
    };
    let prompt = if should_include_json_field(validated_fields, "prompt") {
        preset.prompt
    } else {
        None
    };
    PresetListItem {
        name: preset.name,
        description,
        filepath,
        scope: scope_label.to_owned(),
        source: source.to_owned(),
        is_default,
        env_keys,
        args,
        extends,
        prompt,
    }
}

/// A listing item as plain values.
pub struct ListItemView {
    pub name: Seq<char>,
    pub description: Option<Seq<char>>,
    pub filepath: Option<Seq<char>>,
    pub scope: Seq<char>,
    pub source: Seq<char>,
    pub is_default: bool,
    pub env_keys: Option<Seq<Seq<char>>>,
    pub args: Option<Seq<Seq<char>>>,
    pub extends: Option<Seq<char>>,
    pub prompt: Option<Seq<char>>,
}

/// An optional vector of strings as an optional sequence.
pub open spec fn opt_strings_view(o: Option<Vec<String>>) -> Option<Seq<Seq<char>>> {
    match o {
        Some(v) => Some(strings_view(v@)),
        None => None,
    }
}

impl View for PresetListItem {
    type V = ListItemView;

    open spec fn view(&self) -> ListItemView {
        ListItemView {
            name: self.name@,
            description: opt_string_view(self.description),
            filepath: opt_string_view(self.filepath),
            scope: self.scope@,
            source: self.source@,
            is_default: self.is_default,
            env_keys: opt_strings_view(self.env_keys),
            args: opt_strings_view(self.args),
            extends: opt_string_view(self.extends),
            prompt: opt_string_view(self.prompt),
        }
    }
}

/// The listing item of a preset, as plain values.
pub open spec fn item_spec(
    p: Preset,
    filepath: Option<Seq<char>>,
    scope_label: Seq<char>,
    source: Seq<char>,
    default_preset: Option<Seq<char>>,
    fields: Option<Seq<Seq<char>>>,
) -> ListItemView {
    ListItemView {
        name: p.name@,
        description: included(fields, "description"@, opt_string_view(p.description)),
        filepath: included(fields, "filepath"@, filepath),
        scope: scope_label,
        source: source,
        is_default: default_preset == Some(p.name@),
        env_keys: included(fields, "env"@, env_key_names(p)),
        args: included(fields, "args"@, opt_strings_view(p.args)),
        extends: included(fields, "extends"@, opt_string_view(p.extends)),
        prompt: included(fields, "prompt"@, opt_string_view(p.prompt)),
    }
}

/// A listing shows the names of a preset's env variables, never their values: two presets
/// that differ only in the values of their env entries give the same listing item.
pub proof fn lemma_item_ignores_env_values(
    p: Preset,
    q: Preset,
    filepath: Option<Seq<char>>,
    scope_label: Seq<char>,
    source: Seq<char>,
    default_preset: Option<Seq<char>>,
    fields: Option<Seq<Seq<char>>>,
)
    requires
        p.name == q.name,
        p.description == q.description,
        p.args == q.args,
        p.extends == q.extends,
        p.prompt == q.prompt,
        env_key_names(p) == env_key_names(q),
    ensures
        item_spec(p, filepath, scope_label, source, default_preset, fields)
            == item_spec(q, filepath, scope_label, source, default_preset, fields),
{
}

/// A preset file that could not be loaded, with the error as displayed.
#[derive(Debug, Clone, PartialEq, Eq)]
pub struct InvalidPresetFile {
    pub path: String,
    pub error: String,
}

/// What a listing collects: its items (file presets in directory order, then inline
/// presets), the scopes it touched (each once, in order of first use), and the preset files
/// that could not be loaded.
#[derive(Debug, Clone, PartialEq, Eq)]
pub struct ListCollection {
    pub items: Vec<PresetListItem>,
    pub scopes: Vec<String>,
    pub invalid_files: Vec<InvalidPresetFile>,
}

/// A listing with a name filter shows only presets of that name.
pub open spec fn passes_filter(filter: Option<Seq<char>>, name: Seq<char>) -> bool {
    match filter {
        None => true,
        Some(f) => f == name,
    }
}

/// An optional `&str` as an optional sequence.
pub open spec fn opt_str_view(o: Option<&str>) -> Option<Seq<char>> {
    match o {
        Some(s) => Some(s@),
        None => None,
    }
}

/// The items of the preset files that loaded, in order: each entry is the index of its
/// directory, its path, and what loading it gave.
pub open spec fn file_items(
    es: Seq<(usize, String, Result<Preset, ClaudioError>)>,
    scope: Scope,
    dir_count: int,
    filter: Option<Seq<char>>,
    default_preset: Option<Seq<char>>,
    fields: Option<Seq<Seq<char>>>,
) -> Seq<ListItemView>
    decreases es.len(),
{
    if es.len() == 0 {
        Seq::empty()
    } else {
        let prev = file_items(es.drop_last(), scope, dir_count, filter, default_preset, fields);
        let e = es.last();
        match e.2 {
            Ok(p) => if passes_filter(filter, p.name@) {
                prev.push(item_spec(p, Some(e.1@), dir_label(scope, e.0 as int, dir_count), "file"@, default_preset, fields))
            } else {
                prev
            },
            Err(_) => prev,
        }
    }
}

/// The label of an inline preset's origin.
pub open spec fn origin_label(origin: Scope) -> Seq<char> {
    if origin == Scope::Project { "project"@ } else { "user"@ }
}

/// The items of the inline presets, in order.
pub open spec fn inline_items(
    ps: Seq<(Scope, Preset)>,
    filter: Option<Seq<char>>,
    default_preset: Option<Seq<char>>,
    fields: Option<Seq<Seq<char>>>,
) -> Seq<ListItemView>
    decreases ps.len(),
{
    if ps.len() == 0 {
        Seq::empty()
    } else {
        let prev = inline_items(ps.drop_last(), filter, default_preset, fields);
        let (o, p) = ps.last();
        if passes_filter(filter, p.name@) {
            prev.push(item_spec(p, None, origin_label(o), "inline"@, default_preset, fields))
        } else {
            prev
        }
    }
}

/// The files that failed to load, with their errors as displayed, in order.
pub open spec fn invalid_entries(es: Seq<(usize, String, Result<Preset, ClaudioError>)>) -> Seq<(Seq<char>, Seq<char>)>
    decreases es.len(),
{
    if es.len() == 0 {
        Seq::empty()
    } else {
        let prev = invalid_entries(es.drop_last());
        match es.last().2 {
            Err(e) => prev.push((es.last().1@, error_display(e))),
            Ok(_) => prev,
        }
    }
}

/// The labels of the directories, then of the inline origins, each kept at its first
/// occurrence.
pub open spec fn first_occurrences(s: Seq<Seq<char>>) -> Seq<Seq<char>>
    decreases s.len(),
{
    if s.len() == 0 {
        Seq::empty()
    } else {
        let prev = first_occurrences(s.drop_last());
        if prev.contains(s.last()) {
            prev
        } else {
            prev.push(s.last())
        }
    }
}

/// The labels of a scope's directories, in order.
pub open spec fn dir_labels(scope: Scope, dir_count: int) -> Seq<Seq<char>> {
    Seq::new(dir_count as nat, |i: int| dir_label(scope, i, dir_count))
}

/// The views of listing items.
pub open spec fn items_view(s: Seq<PresetListItem>) -> Seq<ListItemView> {
    s.map_values(|x: PresetListItem| x@)
}

/// The views of failed files.
pub open spec fn invalid_view(s: Seq<InvalidPresetFile>) -> Seq<(Seq<char>, Seq<char>)> {
    s.map_values(|x: InvalidPresetFile| (x.path@, x.error@))
}

fn push_label(labels: &mut Vec<String>, label: String)
    ensures
        strings_view(final(labels)@) == (if strings_view(old(labels)@).contains(label@) {
            strings_view(old(labels)@)
        } else {
            strings_view(old(labels)@).push(label@)
        }),
{
    let ghost sv = strings_view(labels@);
    let n = labels.len();
    for i in 0..n
        invariant
            n == labels@.len(),
            sv == strings_view(labels@),
            forall|k: int| 0 <= k < i ==> sv[k] != label@,
    {
        if str_eq(labels[i].as_str(), label.as_str()) {
            assert(sv[i as int] == label@);
            return;
        }
    }
    assert(!sv.contains(label@));
    labels.push(label);
    assert(strings_view(labels@) =~= sv.push(label@));
}

/// Collect a listing. `entries` holds, for each `*.json` entry of the preset directories in
/// order, the index of its directory, its path and what loading it gave; `inline` holds the
/// inline presets with their origins. Presets pass when no name filter is given or their
/// name is the filter; failed files are recorded whatever the filter.
pub fn collect_listing(
    effective_scope: Scope,
    dir_count: usize,
    entries: Vec<(usize, String, Result<Preset, ClaudioError>)>,
    inline: Vec<(Scope, Preset)>,
    name_filter: Option<&str>,
    default_preset: Option<&str>,
    validated_fields: &Option<Vec<String>>,
) -> (r: ListCollection)
    requires
        forall|k: int| 0 <= k < inline@.len() ==> (#[trigger] inline@[k]).0 != Scope::Auto,
    ensures
        ({
            let fs = opt_strings_view(*validated_fields);
            let filter = opt_str_view(name_filter);
            let dp = opt_str_view(default_preset);
            &&& items_view(r.items@) == file_items(entries@, effective_scope, dir_count as int, filter, dp, fs)
                + inline_items(inline@, filter, dp, fs)
            &&& strings_view(r.scopes@) == first_occurrences(
                dir_labels(effective_scope, dir_count as int) + inline@.map_values(|e: (Scope, Preset)| origin_label(e.0)),
            )
            &&& invalid_view(r.invalid_files@) == invalid_entries(entries@)
        }),
{
    let ghost fs = opt_strings_view(*validated_fields);
    let ghost filter = opt_str_view(name_filter);
    let ghost dp = opt_str_view(default_preset);
    let ghost es = entries@;
    let ghost ilist = inline@;
    let ghost all_labels = dir_labels(effective_scope, dir_count as int) + ilist.map_values(|e: (Scope, Preset)| origin_label(e.0));
    let mut scopes: Vec<String> = Vec::new();
    for d in 0..dir_count
        invariant
            strings_view(scopes@) == first_occurrences(all_labels.take(d as int)),
            all_labels == dir_labels(effective_scope, dir_count as int) + ilist.map_values(|e: (Scope, Preset)| origin_label(e.0)),
    {
        let label = dir_scope_label(effective_scope, d, dir_count);
        push_label(&mut scopes, label);
        assert(all_labels.take(d + 1).drop_last() =~= all_labels.take(d as int));
        assert(all_labels.take(d + 1).last() == dir_label(effective_scope, d as int, dir_count as int));
    }
    // Reverse the entries so that popping hands them out in their order.
    let mut rest = entries;
    let mut rev: Vec<(usize, String, Result<Preset, ClaudioError>)> = Vec::new();
    while rest.len() > 0
        invariant
            rest@ + rev@.reverse() == es,
        decreases rest@.len(),
    {
        let ghost before_rest = rest@;
        let ghost before_rev = rev@;
        let e = rest.pop().unwrap();
        rev.push(e);
        assert(rest@ + rev@.reverse() =~= before_rest + before_rev.reverse());
    }
    assert(rev@.reverse() =~= es);
    let mut items: Vec<PresetListItem> = Vec::new();
    let mut invalid_files: Vec<InvalidPresetFile> = Vec::new();
    let n = rev.len();
    let mut k: usize = 0;
    while k < n
        invariant
            k <= n,
            n == es.len(),
            rev@.len() == n - k,
            forall|j: int| 0 <= j < rev@.len() ==> #[trigger] rev@[j] == es[n - 1 - j],
            items_view(items@) == file_items(es.take(k as int), effective_scope, dir_count as int, filter, dp, fs),
            invalid_view(invalid_files@) == invalid_entries(es.take(k as int)),
            fs == opt_strings_view(*validated_fields),
            filter == opt_str_view(name_filter),
            dp == opt_str_view(default_preset),
        decreases n - k,
    {
        let ghost before_items = items@;
        let ghost before_invalid = invalid_files@;
        let e = rev.pop().unwrap();
        assert(e == es[k as int]);
        assert(es.take(k + 1).drop_last() =~= es.take(k as int));
        assert(es.take(k + 1).last() == es[k as int]);
        let (d, path, res) = e;
        match res {
            Ok(p) => {
                let passes = match name_filter {
                    Some(f) => str_eq(f, p.name.as_str()),
                    None => true,
                };
                if passes {
                    let label = dir_scope_label(effective_scope, d, dir_count);
                    let item = list_item(p, Some(path), label.as_str(), "file", default_preset, validated_fields);
                    items.push(item);
                    assert(items_view(items@) =~= items_view(before_items).push(item@));
                }
            },
            Err(err) => {
                let error = err.message();
                invalid_files.push(InvalidPresetFile { path, error });
                assert(invalid_view(invalid_files@) =~= invalid_view(before_invalid).push((es[k as int].1@, error_display(err))));
            },
        }
        k = k + 1;
    }
    assert(es.take(n as int) =~= es);
    let ghost file_part = items_view(items@);
    let m = inline.len();
    let mut rest_inline = inline;
    let mut rev_inline: Vec<(Scope, Preset)> = Vec::new();
    while rest_inline.len() > 0
        invariant
            rest_inline@ + rev_inline@.reverse() == ilist,
        decreases rest_inline@.len(),
    {
        let ghost before_rest = rest_inline@;
        let ghost before_rev = rev_inline@;
        let e = rest_inline.pop().unwrap();
        rev_inline.push(e);
        assert(rest_inline@ + rev_inline@.reverse() =~= before_rest + before_rev.reverse());
    }
    assert(rev_inline@.reverse() =~= ilist);
    let mut j: usize = 0;
    while j < m
        invariant
            j <= m,
            m == ilist.len(),
            rev_inline@.len() == m - j,
            forall|t: int| 0 <= t < rev_inline@.len() ==> #[trigger] rev_inline@[t] == ilist[m - 1 - t],
            forall|t: int| 0 <= t < ilist.len() ==> (#[trigger] ilist[t]).0 != Scope::Auto,
            items_view(items@) == file_part + inline_items(ilist.take(j as int), filter, dp, fs),
            strings_view(scopes@) == first_occurrences(all_labels.take(dir_count + j)),
            all_labels == dir_labels(effective_scope, dir_count as int) + ilist.map_values(|e: (Scope, Preset)| origin_label(e.0)),
            fs == opt_strings_view(*validated_fields),
            filter == opt_str_view(name_filter),
            dp == opt_str_view(default_preset),
        decreases m - j,
    {
        let ghost before_items = items@;
        let e = rev_inline.pop().unwrap();
        assert(e == ilist[j as int]);
        assert(ilist.take(j + 1).drop_last() =~= ilist.take(j as int));
        assert(ilist.take(j + 1).last() == ilist[j as int]);
        assert(all_labels.take(dir_count + j + 1).drop_last() =~= all_labels.take(dir_count + j));
        assert(all_labels.take(dir_count + j + 1).last() == origin_label(ilist[j as int].0));
        let (origin, p) = e;
        let label = if origin == Scope::Project { "project" } else { "user" };
        push_label(&mut scopes, label.to_owned());
        let passes = match name_filter {
            Some(f) => str_eq(f, p.name.as_str()),
            None => true,
        };
        if passes {
            let item = list_item(p, None, label, "inline", default_preset, validated_fields);
            items.push(item);
            assert(items_view(items@) =~= items_view(before_items).push(item@));
        }
        j = j + 1;
    }
    assert(ilist.take(m as int) =~= ilist);
    assert(all_labels.take(dir_count + m) =~= all_labels);
    ListCollection { items, scopes, invalid_files }
}

/// The positions of the items from `source` in scope `label`, in order.
pub open spec fn positions_of(items: Seq<ListItemView>, source: Seq<char>, label: Seq<char>) -> Seq<int>
    decreases items.len(),
{
    if items.len() == 0 {
        Seq::empty()
    } else {
        let prev = positions_of(items.drop_last(), source, label);
        if items.last().source == source && items.last().scope == label {
            prev.push(items.len() - 1)
        } else {
            prev
        }
    }
}

/// One section of a listing's table output: its header, the directory it shows (file
/// sections only), whether it holds inline presets, and the positions of its items.
#[derive(Debug, Clone, PartialEq, Eq)]
pub struct ListSection {
    pub header: String,
    pub location: Option<String>,
    pub inline: bool,
    pub items: Vec<usize>,
}

/// A section as plain values.
pub open spec fn section_view(s: ListSection) -> (Seq<char>, Option<Seq<char>>, bool, Seq<int>) {
    (s.header@, opt_string_view(s.location), s.inline, s.items@.map_values(|i: usize| i as int))
}

/// The directory a file section shows: the first for the project's, the second (or the
/// only one) for the user's.
pub open spec fn section_location(label: Seq<char>, dirs: Seq<Seq<char>>) -> Option<Seq<char>> {
    let i: int = if label == "project"@ { 0 } else if dirs.len() > 1 { 1 } else { 0 };
    if i < dirs.len() { Some(dirs[i]) } else { None }
}

/// The sections of a listing, in order: project files, user files, inline presets of the
/// project, inline presets of the user; a section without items is left out.
pub open spec fn sections_spec(
    scope: Scope,
    items: Seq<ListItemView>,
    dirs: Seq<Seq<char>>,
) -> Seq<(Seq<char>, Option<Seq<char>>, bool, Seq<int>)> {
    let candidates = seq![
        ("=== Project Presets ==="@, section_location("project"@, dirs), false, positions_of(items, "file"@, "project"@)),
        ("=== User Presets ==="@, section_location("user"@, dirs), false, positions_of(items, "file"@, "user"@)),
        ("=== "@ + (if scope == Scope::Auto { "Inline (project)"@ } else { "Inline"@ }) + " ==="@, None,
            true, positions_of(items, "inline"@, "project"@)),
        ("=== "@ + (if scope == Scope::Auto { "Inline (user)"@ } else { "Inline"@ }) + " ==="@, None,
            true, positions_of(items, "inline"@, "user"@)),
    ];
    keep_nonempty(candidates)
}

/// The sections that hold items, in order.
pub open spec fn keep_nonempty(s: Seq<(Seq<char>, Option<Seq<char>>, bool, Seq<int>)>) -> Seq<(Seq<char>, Option<Seq<char>>, bool, Seq<int>)>
    decreases s.len(),
{
    if s.len() == 0 {
        s
    } else {
        let prev = keep_nonempty(s.drop_last());
        if s.last().3.len() > 0 {
            prev.push(s.last())
        } else {
            prev
        }
    }
}

fn positions(items: &Vec<PresetListItem>, source: &str, label: &str) -> (r: Vec<usize>)
    ensures
        r@.map_values(|i: usize| i as int) == positions_of(items_view(items@), source@, label@),
{
    let ghost iv = items_view(items@);
    let mut out: Vec<usize> = Vec::new();
    let n = items.len();
    for k in 0..n
        invariant
            n == items@.len(),
            iv == items_view(items@),
            out@.map_values(|i: usize| i as int) == positions_of(iv.take(k as int), source@, label@),
    {
        let ghost before = out@;
        assert(iv.take(k + 1).drop_last() =~= iv.take(k as int));
        assert(iv.take(k + 1).last() == items@[k as int]@);
        if str_eq(items[k].source.as_str(), source) && str_eq(items[k].scope.as_str(), label) {
            out.push(k);
            assert(out@.map_values(|i: usize| i as int) =~= before.map_values(|i: usize| i as int).push(k as int));
        }
    }
    assert(iv.take(n as int) =~= iv);
    out
}

/// The sections of a listing's table output, from its items and the directories it read.
pub fn list_sections(effective_scope: Scope, items: &Vec<PresetListItem>, dirs: &Vec<String>) -> (r: Vec<ListSection>)
    ensures
        r@.map_values(|s: ListSection| section_view(s)) == sections_spec(effective_scope, items_view(items@), strings_view(dirs@)),
{
    let ghost iv = items_view(items@);
    let ghost dv = strings_view(dirs@);
    proof {
        reveal_strlit("project");
        reveal_strlit("user");
        assert("user"@.len() != "project"@.len());
    }
    let project_dir = if dirs.len() > 0 { Some(dirs[0].clone()) } else { None };
    let user_index: usize = if dirs.len() > 1 { 1 } else { 0 };
    let user_dir = if user_index < dirs.len() { Some(dirs[user_index].clone()) } else { None };
    let candidates = vec![
        ListSection { header: file_section_header("project"), location: project_dir, inline: false, items: positions(items, "file", "project") },
        ListSection { header: file_section_header("user"), location: user_dir, inline: false, items: positions(items, "file", "user") },
        ListSection { header: inline_section_header(effective_scope, "project"), location: None, inline: true, items: positions(items, "inline", "project") },
        ListSection { header: inline_section_header(effective_scope, "user"), location: None, inline: true, items: positions(items, "inline", "user") },
    ];
    let ghost cv = candidates@.map_values(|s: ListSection| section_view(s));
    let ghost spec_candidates = seq![
        ("=== Project Presets ==="@, section_location("project"@, dv), false, positions_of(iv, "file"@, "project"@)),
        ("=== User Presets ==="@, section_location("user"@, dv), false, positions_of(iv, "file"@, "user"@)),
        ("=== "@ + (if effective_scope == Scope::Auto { "Inline (project)"@ } else { "Inline"@ }) + " ==="@, None,
            true, positions_of(iv, "inline"@, "project"@)),
        ("=== "@ + (if effective_scope == Scope::Auto { "Inline (user)"@ } else { "Inline"@ }) + " ==="@, None,
            true, positions_of(iv, "inline"@, "user"@)),
    ];
    assert(cv =~= spec_candidates) by {
        assert(cv[0] == spec_candidates[0]);
        assert(cv[1] == spec_candidates[1]);
        assert(cv[2].0 == spec_candidates[2].0);
        assert(cv[3].0 == spec_candidates[3].0);
    }
    let mut out: Vec<ListSection> = Vec::new();
    let mut rest = candidates;
    let mut rev: Vec<ListSection> = Vec::new();
    while rest.len() > 0
        invariant
            rest@ + rev@.reverse() == candidates@,
        decreases rest@.len(),
    {
        let ghost br = rest@;
        let ghost bv = rev@;
        let c = rest.pop().unwrap();
        rev.push(c);
        assert(rest@ + rev@.reverse() =~= br + bv.reverse());
    }
    assert(rev@.reverse() =~= candidates@);
    let mut k: usize = 0;
    while k < 4
        invariant
            k <= 4,
            rev@.len() == 4 - k,
            candidates@.len() == 4,
            forall|j: int| 0 <= j < rev@.len() ==> #[trigger] rev@[j] == candidates@[3 - j],
            cv == candidates@.map_values(|s: ListSection| section_view(s)),
            out@.map_values(|s: ListSection| section_view(s)) == keep_nonempty(cv.take(k as int)),
        decreases 4 - k,
    {
        let ghost before = out@;
        let c = rev.pop().unwrap();
        assert(c == candidates@[k as int]);
        assert(cv.take(k + 1).drop_last() =~= cv.take(k as int));
        assert(cv.take(k + 1).last() == section_view(c));
        assert(cv.take(k + 1) =~= cv.take(k as int).push(section_view(c)));
        assert(section_view(c).3.len() == c.items@.len());
        if c.items.len() > 0 {
            out.push(c);
            assert(out@.map_values(|s: ListSection| section_view(s)) =~= before.map_values(|s: ListSection| section_view(s)).push(section_view(c)));
        } else {
            assert(out@.map_values(|s: ListSection| section_view(s)) =~= before.map_values(|s: ListSection| section_view(s)));
        }
        k = k + 1;
    }
    assert(cv.take(4) =~= cv);
    out
}

/// An optional text, or a fallback when it is absent.
pub open spec fn view_or(o: Option<Seq<char>>, fallback: Seq<char>) -> Seq<char> {
    match o {
        Some(x) => x,
        None => fallback,
    }
}

/// The text of a listed item's cell in a field's column (as `cell_text` of the preset the
/// item describes).
pub open spec fn item_cell_text(it: ListItemView, filepath: Seq<char>, field: Seq<char>, dp: Option<Seq<char>>) -> Seq<char> {
    if field == "name"@ {
        if dp == Some(it.name) {
            "* "@ + it.name
        } else {
            it.name
        }
    } else if field == "description"@ {
        view_or(it.description, Seq::empty())
    } else if field == "filepath"@ {
        filepath
    } else if field == "env"@ {
        match it.env_keys {
            Some(keys) => join_with(keys, ", "@),
            None => Seq::empty(),
        }
    } else if field == "args"@ {
        match it.args {
            Some(a) => join_with(a, ", "@),
            None => Seq::empty(),
        }
    } else if field == "extends"@ {
        view_or(it.extends, "none"@)
    } else if field == "prompt"@ {
        view_or(it.prompt, Seq::empty())
    } else {
        Seq::empty()
    }
}

/// The row of a listed item in a table: one cell per field, with its file path (or
/// `(inline)` for an inline preset) and its variable names.
pub fn item_row(
    item: &PresetListItem,
    fields: &Vec<String>,
    default_preset: Option<&str>,
    color_enabled: bool,
    inline: bool,
) -> (r: Vec<RowCell>)
    ensures
        r@.len() == fields@.len(),
        forall|i: int|
            0 <= i < fields@.len() ==> {
                let dp = opt_str_view(default_preset);
                let path = if inline { "(inline)"@ } else { view_or(item@.filepath, Seq::empty()) };
                &&& (#[trigger] r@[i]).text@ == item_cell_text(item@, path, fields@[i]@, dp)
                &&& r@[i].emphasized == (fields@[i]@ == "name"@ && dp == Some(item.name@) && color_enabled)
            },
{
    let shown = Preset {
        name: item.name.clone(),
        description: crate::text::clone_opt_string(&item.description),
        extends: crate::text::clone_opt_string(&item.extends),
        prompt: crate::text::clone_opt_string(&item.prompt),
        env: None,
        args: match &item.args {
            Some(a) => Some(crate::preset::inheritance::clone_strings(a)),
            None => None,
        },
        settings: None,
    };
    let path = if inline { "(inline)".to_owned() } else { optional_text(&item.filepath, "") };
    let row = build_row(&shown, path.as_str(), fields, default_preset, color_enabled, item.env_keys.as_ref());
    proof {
        reveal_strlit("");
        let dp = opt_str_view(default_preset);
        let ek = opt_strings_view(item.env_keys);
        assert(path@ == (if inline { "(inline)"@ } else { view_or(item@.filepath, Seq::empty()) }));
        assert(opt_string_view(shown.description) == item@.description);
        assert(opt_string_view(shown.extends) == item@.extends);
        assert(opt_string_view(shown.prompt) == item@.prompt);
        assert(opt_strings_view(shown.args) == item@.args);
        assert forall|i: int| 0 <= i < fields@.len() implies
            (#[trigger] row@[i]).text@ == item_cell_text(item@, path@, fields@[i]@, dp) by {
            let f = fields@[i]@;
            assert(row@[i].text@ == cell_text(shown, path@, f, dp, ek));
            assert(text_or(shown.description, Seq::empty()) == view_or(item@.description, Seq::empty()));
            assert(text_or(shown.extends, "none"@) == view_or(item@.extends, "none"@));
            assert(text_or(shown.prompt, Seq::empty()) == view_or(item@.prompt, Seq::empty()));
        }
    }
    row
}

/// Whether the listing explains the `*` mark: the name column is shown and some listed
/// preset is the default.
pub fn show_default_legend(fields: &Vec<String>, items: &Vec<PresetListItem>) -> (r: bool)
    ensures
        r == (strings_view(fields@).contains("name"@) && exists|k: int| 0 <= k < items@.len() && (#[trigger] items@[k]).is_default),
{
    let mut has_name = false;
    let n = fields.len();
    for i in 0..n
        invariant
            n == fields@.len(),
            has_name == strings_view(fields@).take(i as int).contains("name"@),
    {
        let ghost t = strings_view(fields@).take(i as int);
        assert(strings_view(fields@).take(i + 1) =~= t.push(fields@[i as int]@));
        if str_eq(fields[i].as_str(), "name") {
            has_name = true;
            assert(strings_view(fields@).take(i + 1)[i as int] == "name"@);
        } else {
            assert(strings_view(fields@).take(i + 1).contains("name"@) ==> t.contains("name"@)) by {
                if strings_view(fields@).take(i + 1).contains("name"@) {
                    let j = choose|j: int| 0 <= j < i + 1 && #[trigger] strings_view(fields@).take(i + 1)[j] == "name"@;
                    assert(j < i);
                    assert(t[j] == "name"@);
                }
            }
            assert(t.contains("name"@) ==> strings_view(fields@).take(i + 1).contains("name"@)) by {
                if t.contains("name"@) {
                    let j = choose|j: int| 0 <= j < i && #[trigger] t[j] == "name"@;
                    assert(strings_view(fields@).take(i + 1)[j] == "name"@);
                }
            }
        }
    }
    assert(strings_view(fields@).take(n as int) =~= strings_view(fields@));
    let mut any_default = false;
    let m = items.len();
    for k in 0..m
        invariant
            m == items@.len(),
            any_default == exists|j: int| 0 <= j < k && (#[trigger] items@[j]).is_default,
    {
        if items[k].is_default {
            any_default = true;
        }
    }
    has_name && any_default
}

/// The widest table a listing can draw.
pub const MAX_TABLE_WIDTH: usize = 65535;

/// The table width of a listing: `--max-width` as given (0 for no wrapping), refused
/// above the widest table that can be drawn.
pub fn table_width(max_width: usize) -> (r: Result<u16, ClaudioError>)
    ensures
        max_width <= MAX_TABLE_WIDTH ==> r == Ok::<u16, ClaudioError>(max_width as u16),
        max_width > MAX_TABLE_WIDTH ==> (r matches Err(ClaudioError::Message(m))
            && m@ == "--max-width must be <= 65535"@),
{
    if max_width > MAX_TABLE_WIDTH {
        Err(ClaudioError::Message("--max-width must be <= 65535".to_owned()))
    } else {
        Ok(max_width as u16)
    }
}

} // verus!
