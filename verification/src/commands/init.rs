//! Initialising a scope: what to create, what to report, and the name of a settings backup.
use vstd::prelude::*;
use crate::path::{join, join_path, parent, parent_of};
use crate::text::{decimal, decimal_string};

verus! {

/// What happens to the preset directory.
#[derive(Debug, Clone, Copy, PartialEq, Eq, Structural)]
pub enum DirAction {
    Exists,
    WouldAdd,
    Create,
}

/// What happens to the settings file.
#[derive(Debug, Clone, Copy, PartialEq, Eq, Structural)]
pub enum SettingsAction {
    Exists,
    WouldAdd,
    Create,
    /// Back the existing file up, then write fresh settings.
    BackupAndCreate,
}

/// What `init` does.
#[derive(Debug, Clone, Copy, PartialEq, Eq, Structural)]
pub struct InitPlan {
    pub preset_dir: DirAction,
    pub settings: SettingsAction,
}

/// Plan an initialisation: an existing preset directory or settings file is kept (except
/// that `--force` replaces the settings after a backup); a dry run only reports what it
/// would add; otherwise what is missing is created.
pub fn plan_init(preset_dir_exists: bool, settings_exists: bool, dry_run: bool, force: bool) -> (r: InitPlan)
    ensures
        r.preset_dir == (if preset_dir_exists {
            DirAction::Exists
        } else if dry_run {
            DirAction::WouldAdd
        } else {
            DirAction::Create
        }),
        r.settings == (if settings_exists && force && !dry_run {
            SettingsAction::BackupAndCreate
        } else if settings_exists {
            SettingsAction::Exists
        } else if dry_run {
            SettingsAction::WouldAdd
        } else {
            SettingsAction::Create
        }),
{
    let preset_dir = if preset_dir_exists {
        DirAction::Exists
    } else if dry_run {
        DirAction::WouldAdd
    } else {
        DirAction::Create
    };
    let settings = if settings_exists && force && !dry_run {
        SettingsAction::BackupAndCreate
    } else if settings_exists {
        SettingsAction::Exists
    } else if dry_run {
        SettingsAction::WouldAdd
    } else {
        SettingsAction::Create
    };
    InitPlan { preset_dir, settings }
}

/// The rows of the report: a status tag and the path it concerns.
pub open spec fn init_rows_of(plan: InitPlan) -> Seq<(Seq<char>, Seq<char>)> {
    let dir_tag = match plan.preset_dir {
        DirAction::Exists => "exists"@,
        DirAction::WouldAdd => "would-add"@,
        DirAction::Create => "created"@,
    };
    let dir_row = seq![(dir_tag, ".claudio/presets"@)];
    dir_row + match plan.settings {
        SettingsAction::BackupAndCreate => seq![
            ("backup"@, ".claudio/settings.json -> .claudio/settings.json.backup"@),
            ("created"@, ".claudio/settings.json"@),
        ],
        SettingsAction::Exists => seq![("exists"@, ".claudio/settings.json"@)],
        SettingsAction::WouldAdd => seq![("would-add"@, ".claudio/settings.json"@)],
        SettingsAction::Create => seq![("created"@, ".claudio/settings.json"@)],
    }
}

fn row(tag: &str, path: &str) -> (r: (String, String))
    ensures
        r.0@ == tag@,
        r.1@ == path@,
{
    (tag.to_owned(), path.to_owned())
}

/// The rows `init` reports.
pub fn init_rows(plan: InitPlan) -> (r: Vec<(String, String)>)
    ensures
        crate::order::string_pairs(r@) == init_rows_of(plan),
{
    let mut out: Vec<(String, String)> = Vec::new();
    let tag = match plan.preset_dir {
        DirAction::Exists => "exists",
        DirAction::WouldAdd => "would-add",
        DirAction::Create => "created",
    };
    out.push(row(tag, ".claudio/presets"));
    match plan.settings {
        SettingsAction::BackupAndCreate => {
            out.push(row("backup", ".claudio/settings.json -> .claudio/settings.json.backup"));
            out.push(row("created", ".claudio/settings.json"));
        },
        SettingsAction::Exists => out.push(row("exists", ".claudio/settings.json")),
        SettingsAction::WouldAdd => out.push(row("would-add", ".claudio/settings.json")),
        SettingsAction::Create => out.push(row("created", ".claudio/settings.json")),
    }
    assert(crate::order::string_pairs(out@) =~= init_rows_of(plan));
    out
}

/// How an initialisation ended.
#[derive(Debug, Clone, Copy, PartialEq, Eq, Structural)]
pub enum InitOutcome {
    /// Nothing was changed (dry run).
    DryRun,
    /// Something was created; `first_time` when neither the directory nor the settings
    /// existed before (then next steps are suggested).
    Initialized { first_time: bool },
    /// Everything existed already.
    AlreadyInitialized,
}

/// How an initialisation with this plan ends.
pub fn init_outcome(plan: InitPlan, dry_run: bool) -> (r: InitOutcome)
    ensures
        r == (if dry_run {
            InitOutcome::DryRun
        } else if plan.settings == SettingsAction::Create || plan.settings == SettingsAction::BackupAndCreate
            || plan.preset_dir == DirAction::Create {
            InitOutcome::Initialized {
                first_time: plan.settings != SettingsAction::Exists && plan.preset_dir != DirAction::Exists,
            }
        } else {
            InitOutcome::AlreadyInitialized
        }),
{
    if dry_run {
        InitOutcome::DryRun
    } else if plan.settings == SettingsAction::Create || plan.settings == SettingsAction::BackupAndCreate
        || plan.preset_dir == DirAction::Create {
        InitOutcome::Initialized {
            first_time: plan.settings != SettingsAction::Exists && plan.preset_dir != DirAction::Exists,
        }
    } else {
        InitOutcome::AlreadyInitialized
    }
}

/// The backup of a settings file: `<name>.<timestamp>.backup` beside it.
pub fn backup_path(settings_path: &str, settings_file_name: &str, timestamp: u64) -> (r: Option<String>)
    requires
        settings_path@.len() < i64::MAX,
    ensures
        match parent_of(settings_path@) {
            Some(dir) => r matches Some(p) && p@ == join_path(dir, settings_file_name@ + "."@ + decimal(timestamp as nat) + ".backup"@),
            None => r is None,
        },
{
    match parent(settings_path) {
        Some(dir) => {
            let mut name = settings_file_name.to_owned();
            name.push_str(".");
            let ts = decimal_string(timestamp);
            name.push_str(ts.as_str());
            name.push_str(".backup");
            Some(join(dir.as_str(), name.as_str()))
        },
        None => None,
    }
}

} // verus!
