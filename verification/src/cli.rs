//! The command line, as plain values: scopes, the arguments of a run, and the preset
//! subcommands.
use vstd::prelude::*;

verus! {

/// Where presets are read and written.
#[derive(Debug, Clone, Copy, PartialEq, Eq, Structural)]
pub enum Scope {
    /// Project presets shadow user presets.
    Auto,
    /// Only project presets.
    Project,
    /// Only user presets.
    User,
}

impl Scope {
    /// The same scope for lookups.
    pub fn to_core(self) -> (r: crate::scope::Scope)
        ensures
            r == match self {
                Scope::Auto => crate::scope::Scope::Auto,
                Scope::Project => crate::scope::Scope::Project,
                Scope::User => crate::scope::Scope::User,
            },
    {
        match self {
            Scope::Auto => crate::scope::Scope::Auto,
            Scope::Project => crate::scope::Scope::Project,
            Scope::User => crate::scope::Scope::User,
        }
    }
}

/// The `--scope` option.
#[derive(Debug, Clone, PartialEq, Eq)]
pub struct ScopeArgs {
    pub scope: Scope,
}

/// The arguments of a run.
#[derive(Debug, Clone, PartialEq, Eq)]
pub struct RunArgs {
    /// The preset to use (the default preset when absent).
    pub preset: Option<String>,
    pub scope: ScopeArgs,
    /// Fail when no preset is available instead of running the wrapped CLI bare.
    pub require_preset: bool,
    /// Print the command instead of running it.
    pub dry_run: bool,
    /// Arguments passed on to the wrapped CLI.
    pub claude_args: Vec<String>,
    /// The executable of the wrapped CLI.
    pub claude_executable: Option<String>,
}

/// The preset subcommands.
#[derive(Debug, Clone, PartialEq, Eq)]
pub enum PresetCommands {
    /// List presets (optionally one name), with chosen fields.
    List { name: Option<String>, scope: ScopeArgs, fields: Option<Vec<String>>, max_width: usize, json: bool },
    /// Show a preset, optionally resolved or as JSON.
    Show { preset: String, scope: ScopeArgs, resolved: bool, json: bool },
    /// Edit a preset file.
    Edit { preset: String, scope: ScopeArgs },
    /// Create a preset, optionally extending another.
    Add { preset: String, extends: Option<String>, scope: ScopeArgs },
    /// Print a preset's environment.
    Env { preset: String, scope: ScopeArgs, export: bool, resolved: bool },
}

impl PresetCommands {
    /// The scope a subcommand reads settings in.
    pub fn scope(&self) -> (r: Scope)
        ensures
            r == match self {
                PresetCommands::List { scope, .. } => scope.scope,
                PresetCommands::Show { scope, .. } => scope.scope,
                PresetCommands::Edit { scope, .. } => scope.scope,
                PresetCommands::Add { scope, .. } => scope.scope,
                PresetCommands::Env { scope, .. } => scope.scope,
            },
    {
        match self {
            PresetCommands::List { scope, .. } => scope.scope,
            PresetCommands::Show { scope, .. } => scope.scope,
            PresetCommands::Edit { scope, .. } => scope.scope,
            PresetCommands::Add { scope, .. } => scope.scope,
            PresetCommands::Env { scope, .. } => scope.scope,
        }
    }
}

} // verus!
