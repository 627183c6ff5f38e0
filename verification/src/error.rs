use vstd::prelude::*;
use crate::env::missing_env_var_message;
use crate::text::{join_with, strings_view};

verus! {

/// Errors reported by the library.
#[derive(Debug, PartialEq, Eq)]
pub enum ClaudioError {
    /// A referenced environment variable is not set.
    MissingEnvVar(String),
    /// No project root (a directory holding `.claudio/` or `.git/`) was found.
    ProjectRootNotFound,
    /// The operating system did not report a home directory.
    HomeDirUnknown,
    /// `CLAUDIO_HOME_DIR` holds a relative path (the value as given).
    HomeNotAbsolute(String),
    /// `CLAUDIO_HOME_DIR` names a path that does not exist.
    HomeMissing(String),
    /// `CLAUDIO_HOME_DIR` names something that is not a directory.
    HomeNotDirectory(String),
    /// A preset was not found in any of the searched directories.
    PresetNotFound { name: String, searched: Vec<String> },
    /// Following `extends` came back to a preset already on the chain.
    CircularInheritance(Vec<String>),
    /// A command-backed env value needs confirmation but no confirmer is configured.
    ConfirmationUnavailable(String),
    /// The user declined to run a command-backed env value.
    CommandDenied,
    /// A file-based preset's path has no parent directory.
    NoParentDirectory,
    /// The current directory could not be determined.
    CurrentDirUnknown,
    /// A `--fields` entry that names no known field (the entry as given).
    InvalidField(String),
    /// No preset was named, none is the default, and a preset is required.
    NoPresetAvailable,
    /// Nothing names the executable to run.
    NoExecutable,
    /// `--scope user` while the project ignores user presets.
    UserScopeIgnored,
    /// A preset of this name already exists; `auto` when the lookup covered both scopes.
    PresetExists { name: String, auto: bool },
    /// A preset name with path separators or traversal patterns.
    InvalidPresetName(String),
    /// An inline preset cannot be edited as a file.
    InlinePresetNotEditable(String),
    /// No preset of this name exists to be edited.
    PresetMissing(String),
    /// The preset exists as a file in several places.
    AmbiguousPreset { name: String, paths: Vec<String> },
    /// An inline preset has the name of a file preset of the same scope (at this path).
    InlinePresetConflict { name: String, path: String },
    /// An inline preset fails validation with these errors.
    InlinePresetInvalid { name: String, errors: Vec<String> },
    /// An error with a line of context in front of it.
    Context { context: String, cause: Box<ClaudioError> },
    /// An error reported by the operating system or a parser, carried as its text.
    Message(String),
}

/// The lines `  - <dir>` of the directories searched.
pub open spec fn search_lines(dirs: Seq<Seq<char>>) -> Seq<char> {
    join_with(dirs.map_values(|d: Seq<char>| "  - "@ + d), "\n"@)
}

/// The full text of an error, with the context of each wrapped error in front of its
/// cause (`context: cause`).
pub open spec fn error_message(e: ClaudioError) -> Seq<char>
    decreases e,
{
    match e {
        ClaudioError::MissingEnvVar(v) => "Environment variable '"@ + v@ + "' is not set.\n\nSet it with:\n  export "@
            + v@ + "=your_value"@,
        ClaudioError::ProjectRootNotFound => "Failed to determine project root"@,
        ClaudioError::HomeDirUnknown => "Failed to determine home directory"@,
        ClaudioError::HomeNotAbsolute(p) => "CLAUDIO_HOME_DIR must be an absolute path, got: "@ + p@,
        ClaudioError::HomeMissing(p) => "CLAUDIO_HOME_DIR path does not exist: "@ + p@,
        ClaudioError::HomeNotDirectory(p) => "CLAUDIO_HOME_DIR must be a directory, got: "@ + p@,
        ClaudioError::PresetNotFound { name, searched } => "Preset '"@ + name@ + "' not found.\n\nSearched in:\n"@
            + search_lines(strings_view(searched@))
            + "\n\nRun `claudio init` to create a presets directory."@,
        ClaudioError::CircularInheritance(chain) => "Circular inheritance detected: "@ + join_with(
            strings_view(chain@),
            " -> "@,
        ) + "\n\nCheck the 'extends' field in these presets for a circular dependency."@,
        ClaudioError::ConfirmationUnavailable(k) => "Command confirmation required for env key '"@ + k@
            + "' but no confirmer was provided.\n\nThis is a safety feature: claudio-core does not prompt for input.\nProvide a ConfirmCommand implementation (CLI) or set 'skip_command_confirmation' to true in settings."@,
        ClaudioError::CommandDenied => "Command execution denied"@,
        ClaudioError::NoParentDirectory => "Invalid preset path: no parent directory"@,
        ClaudioError::CurrentDirUnknown => "Failed to determine current directory"@,
        ClaudioError::InvalidField(f) => "Invalid field '"@ + f@
            + "'. Valid fields: name, description, filepath, env, args, extends, prompt, all"@,
        ClaudioError::NoExecutable => "No executable to run.\n\nName one on the command line, in the CLAUDIO_CLAUDE_EXECUTABLE environment variable, or as 'claude_executable' in settings."@,
        ClaudioError::NoPresetAvailable => "No preset available and 'require_preset' is enabled.\n\nSpecify a preset name, set 'default_preset' in settings, or create a 'default' preset file."@,
        ClaudioError::UserScopeIgnored => "Cannot use --scope user: project settings have 'ignore_user_presets' enabled.\n\nRemove the --scope flag or update your project settings."@,
        ClaudioError::PresetExists { name, auto } => if auto {
            "Preset '"@ + name@ + "' already exists (in user and/or project scope).\n\nIf you want to create a preset with this name in a specific scope, rerun this command with the '--scope' flag (for example, '--scope user' or '--scope project')."@
        } else {
            "Preset '"@ + name@ + "' already exists."@
        },
        ClaudioError::InvalidPresetName(n) => "Invalid preset name '"@ + n@
            + "': contains path separators or traversal patterns.\n\nPreset names must not contain: /, \\, .., or NUL characters."@,
        ClaudioError::InlinePresetNotEditable(n) => "Preset '"@ + n@
            + "' is an inline preset defined in settings.\n\nInline presets cannot be edited with this command.\nEdit your settings file to modify inline presets."@,
        ClaudioError::PresetMissing(n) => "Preset '"@ + n@ + "' not found. Use 'claudio preset add "@ + n@ + "' to create it."@,
        ClaudioError::AmbiguousPreset { name, paths } => "Preset '"@ + name@ + "' exists in multiple locations:\n"@
            + search_lines(strings_view(paths@))
            + "\n\nRe-run with --scope project or --scope user to choose which one to edit."@,
        ClaudioError::InlinePresetConflict { name, path } => "Inline preset '"@ + name@
            + "' conflicts with a file-based preset.\n\nChoose a different name or remove the file preset at:\n  "@ + path@,
        ClaudioError::InlinePresetInvalid { name, errors } => if errors@.len() == 1 {
            "Inline preset '"@ + name@ + "' has validation error: "@ + errors@[0]@
        } else {
            "Inline preset '"@ + name@ + "' has multiple validation errors:\n  - "@ + join_with(
                strings_view(errors@),
                "\n  - "@,
            )
        },
        ClaudioError::Context { context, cause } => context@ + ": "@ + error_message(*cause),
        ClaudioError::Message(m) => m@,
    }
}

fn search_lines_of(dirs: &Vec<String>) -> (r: String)
    ensures
        r@ == search_lines(strings_view(dirs@)),
{
    let ghost lines = strings_view(dirs@).map_values(|d: Seq<char>| "  - "@ + d);
    let mut out = String::new();
    let n = dirs.len();
    for i in 0..n
        invariant
            n == dirs@.len(),
            lines == strings_view(dirs@).map_values(|d: Seq<char>| "  - "@ + d),
            out@ == join_with(lines.take(i as int), "\n"@),
    {
        if i > 0 {
            out.push_str("\n");
        }
        out.push_str("  - ");
        out.push_str(dirs[i].as_str());
        proof {
            let t = lines.take(i + 1);
            assert(t.drop_last() =~= lines.take(i as int));
            assert(t.last() == "  - "@ + dirs@[i as int]@);
            if i == 0 {
                assert(lines.take(0) =~= Seq::<Seq<char>>::empty());
            }
        }
        assert(out@ =~= join_with(lines.take(i + 1), "\n"@));
    }
    assert(lines.take(n as int) =~= lines);
    out
}

/// The text of an error as displayed on one line: a wrapped error shows its context only.
pub open spec fn error_display(e: ClaudioError) -> Seq<char> {
    match e {
        ClaudioError::Context { context, cause } => context@,
        _ => error_message(e),
    }
}

impl ClaudioError {
    /// The text of the error as displayed: a wrapped error shows its context only.
    pub fn message(&self) -> (r: String)
        ensures
            r@ == error_display(*self),
    {
        match self {
            ClaudioError::Context { context, cause } => context.clone(),
            _ => self.full_message(),
        }
    }

    /// The full text of the error, each context followed by `: ` and its cause.
    pub fn full_message(&self) -> (r: String)
        ensures
            r@ == error_message(*self),
        decreases self,
    {
        match self {
            ClaudioError::MissingEnvVar(v) => missing_env_var_message(v.as_str()),
            ClaudioError::ProjectRootNotFound => "Failed to determine project root".to_owned(),
            ClaudioError::HomeDirUnknown => "Failed to determine home directory".to_owned(),
            ClaudioError::HomeNotAbsolute(p) => {
                let mut m = "CLAUDIO_HOME_DIR must be an absolute path, got: ".to_owned();
                m.push_str(p.as_str());
                m
            },
            ClaudioError::HomeMissing(p) => {
                let mut m = "CLAUDIO_HOME_DIR path does not exist: ".to_owned();
                m.push_str(p.as_str());
                m
            },
            ClaudioError::HomeNotDirectory(p) => {
                let mut m = "CLAUDIO_HOME_DIR must be a directory, got: ".to_owned();
                m.push_str(p.as_str());
                m
            },
            ClaudioError::PresetNotFound { name, searched } => {
                let mut m = "Preset '".to_owned();
                m.push_str(name.as_str());
                m.push_str("' not found.\n\nSearched in:\n");
                let lines = search_lines_of(searched);
                m.push_str(lines.as_str());
                m.push_str("\n\nRun `claudio init` to create a presets directory.");
                m
            },
            ClaudioError::CircularInheritance(chain) => {
                let mut m = "Circular inheritance detected: ".to_owned();
                let joined = crate::text::join_strings(chain, " -> ");
                m.push_str(joined.as_str());
                m.push_str("\n\nCheck the 'extends' field in these presets for a circular dependency.");
                m
            },
            ClaudioError::ConfirmationUnavailable(k) => {
                let mut m = "Command confirmation required for env key '".to_owned();
                m.push_str(k.as_str());
                m.push_str(
                    "' but no confirmer was provided.\n\nThis is a safety feature: claudio-core does not prompt for input.\nProvide a ConfirmCommand implementation (CLI) or set 'skip_command_confirmation' to true in settings.",
                );
                m
            },
            ClaudioError::CommandDenied => "Command execution denied".to_owned(),
            ClaudioError::NoParentDirectory => "Invalid preset path: no parent directory".to_owned(),
            ClaudioError::CurrentDirUnknown => "Failed to determine current directory".to_owned(),
            ClaudioError::InvalidField(f) => {
                let mut m = "Invalid field '".to_owned();
                m.push_str(f.as_str());
                m.push_str("'. Valid fields: name, description, filepath, env, args, extends, prompt, all");
                m
            },
            ClaudioError::NoExecutable => "No executable to run.\n\nName one on the command line, in the CLAUDIO_CLAUDE_EXECUTABLE environment variable, or as 'claude_executable' in settings.".to_owned(),
            ClaudioError::NoPresetAvailable => "No preset available and 'require_preset' is enabled.\n\nSpecify a preset name, set 'default_preset' in settings, or create a 'default' preset file.".to_owned(),
            ClaudioError::UserScopeIgnored => "Cannot use --scope user: project settings have 'ignore_user_presets' enabled.\n\nRemove the --scope flag or update your project settings.".to_owned(),
            ClaudioError::PresetExists { name, auto } => {
                let mut m = "Preset '".to_owned();
                m.push_str(name.as_str());
                if *auto {
                    m.push_str("' already exists (in user and/or project scope).\n\nIf you want to create a preset with this name in a specific scope, rerun this command with the '--scope' flag (for example, '--scope user' or '--scope project').");
                } else {
                    m.push_str("' already exists.");
                }
                m
            },
            ClaudioError::InvalidPresetName(n) => {
                let mut m = "Invalid preset name '".to_owned();
                m.push_str(n.as_str());
                m.push_str("': contains path separators or traversal patterns.\n\nPreset names must not contain: /, \\, .., or NUL characters.");
                m
            },
            ClaudioError::InlinePresetNotEditable(n) => {
                let mut m = "Preset '".to_owned();
                m.push_str(n.as_str());
                m.push_str("' is an inline preset defined in settings.\n\nInline presets cannot be edited with this command.\nEdit your settings file to modify inline presets.");
                m
            },
            ClaudioError::PresetMissing(n) => {
                let mut m = "Preset '".to_owned();
                m.push_str(n.as_str());
                m.push_str("' not found. Use 'claudio preset add ");
                m.push_str(n.as_str());
                m.push_str("' to create it.");
                m
            },
            ClaudioError::AmbiguousPreset { name, paths } => {
                let mut m = "Preset '".to_owned();
                m.push_str(name.as_str());
                m.push_str("' exists in multiple locations:\n");
                let lines = search_lines_of(paths);
                m.push_str(lines.as_str());
                m.push_str("\n\nRe-run with --scope project or --scope user to choose which one to edit.");
                m
            },
            ClaudioError::InlinePresetConflict { name, path } => {
                let mut m = "Inline preset '".to_owned();
                m.push_str(name.as_str());
                m.push_str("' conflicts with a file-based preset.\n\nChoose a different name or remove the file preset at:\n  ");
                m.push_str(path.as_str());
                m
            },
            ClaudioError::InlinePresetInvalid { name, errors } => {
                let mut m = "Inline preset '".to_owned();
                m.push_str(name.as_str());
                if errors.len() == 1 {
                    m.push_str("' has validation error: ");
                    m.push_str(errors[0].as_str());
                } else {
                    m.push_str("' has multiple validation errors:\n  - ");
                    let joined = crate::text::join_strings(errors, "\n  - ");
                    m.push_str(joined.as_str());
                }
                m
            },
            ClaudioError::Context { context, cause } => {
                let mut m = context.clone();
                m.push_str(": ");
                let inner = cause.full_message();
                m.push_str(inner.as_str());
                m
            },
            ClaudioError::Message(s) => s.clone(),
        }
    }
}

} // verus!
