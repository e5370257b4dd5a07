//! The command line: an optional configuration path and an optional
//! command; without a command the program boots the mounts.
use vstd::prelude::*;

verus! {

#[derive(Debug, Clone)]
pub struct Cli {
    pub config: Option<String>,
    pub command: Option<Commands>,
}

#[derive(Debug, Clone)]
pub enum Commands {
    GenConfig { output: String, force: bool },
    Logs { lines: usize },
    Api { command: ApiCommands },
    Lkm { command: LkmCommands },
    Hide { command: HideCommands },
    Kasumi { command: KasumiCommands },
}

#[derive(Debug, Clone)]
pub enum KasumiCommands {
    Status,
    List,
    Version,
    Features,
    Hooks,
    Clear,
    ReleaseConnection,
    InvalidateCache,
    FixMounts,
    Rule { command: KasumiRuleCommands },
}

#[derive(Debug, Clone)]
pub enum HideCommands {
    List,
    Add { path: String },
    Remove { path: String },
    Apply,
}

#[derive(Debug, Clone, Copy, PartialEq, Eq, Structural)]
pub enum ApiCommands {
    Storage,
    MountStats,
    MountTopology,
    Partitions,
    Lkm,
    Features,
    Hooks,
}

#[derive(Debug, Clone, Copy, PartialEq, Eq, Structural)]
pub enum LkmCommands {
    Load,
    Unload,
    Status,
}

#[derive(Debug, Clone)]
pub enum KasumiRuleCommands {
    Add { target: String, source: String, file_type: Option<i32> },
    Merge { target: String, source: String },
    Hide { path: String },
    Delete { path: String },
    AddDir { target_base: String, source_dir: String },
    RemoveDir { target_base: String, source_dir: String },
}

/// Errors of `api` commands are printed as JSON and the command still
/// succeeds; other commands fail with their error.
pub open spec fn reports_errors_as_json(c: Commands) -> bool {
    c is Api
}

pub fn errors_as_json(command: &Commands) -> (r: bool)
    ensures
        r == reports_errors_as_json(*command),
{
    match command {
        Commands::Api { .. } => true,
        _ => false,
    }
}

/// Without a command the boot sequence runs.
pub fn runs_daemon(cli: &Cli) -> (r: bool)
    ensures
        r == cli.command is None,
{
    cli.command.is_none()
}

} // verus!
