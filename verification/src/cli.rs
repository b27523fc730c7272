//! The command surface handed in by the argument parser: plain data for each
//! command, and the translation of raw arguments into engine options.
use vstd::prelude::*;

use crate::config::{GlobalOptions, Mode};

verus! {

/// A start request: the services to bring up.
pub struct StartCommand {
    pub services: Vec<String>,
}

/// A stop request: the services to stop.
pub struct StopCommand {
    pub services: Vec<String>,
}

/// An exec request: one service and the command to run inside it.
pub struct ExecCommand {
    pub service: String,
    pub command: Vec<String>,
}

/// A status request over every component.
pub struct PsCommand {}

/// Registers a project path under a name.
pub struct AddCommand {
    pub name: String,
    pub path: String,
}

/// Selects the active project.
pub struct UseCommand {
    pub name: String,
}

/// Lists the registered projects.
pub struct LsCommand {}

/// Removes a registered project.
pub struct RmCommand {
    pub name: String,
}

/// The project-registry subcommands.
pub enum ProjectCommandType {
    Add(AddCommand),
    Use(UseCommand),
    Ls(LsCommand),
    Rm(RmCommand),
}

/// A project-registry request.
pub struct ProjectCommand {
    pub command: ProjectCommandType,
}

/// Every top-level command.
pub enum CommandType {
    Start(StartCommand),
    Stop(StopCommand),
    Exec(ExecCommand),
    Ps(PsCommand),
    Project(ProjectCommand),
}

/// The raw command-line arguments, as the parser delivers them.
pub struct AppArgs {
    pub name: Option<String>,
    pub debug: bool,
    pub force: bool,
    pub mode: Option<String>,
    pub uid: Option<u32>,
    pub tag: Option<String>,
    pub dry_run: bool,
    pub no_tty: bool,
    pub command: CommandType,
}

/// Translates raw arguments into engine options: flags are carried over, the
/// mode string is parsed (an unknown or absent mode leaves the mode unset),
/// and the command and working directory start empty.
pub fn parse_global_options(args: &AppArgs) -> (r: GlobalOptions)
    ensures
        r.workspace_name == args.name,
        r.debug == args.debug,
        r.cmd is None,
        r.force == args.force,
        (match args.mode {
            Some(m) => {
                &&& m@ == "default"@ ==> r.mode == Some(Mode::Default)
                &&& m@ == "hook"@ ==> r.mode == Some(Mode::Hook)
                &&& (m@ != "default"@ && m@ != "hook"@) ==> r.mode is None
            },
            None => r.mode is None,
        }),
        r.working_dir is None,
        r.uid == args.uid,
        r.tag == args.tag,
        r.dry_run == args.dry_run,
        r.no_tty == args.no_tty,
{
    let mode = match &args.mode {
        Some(m) => match Mode::from_str(m.as_str()) {
            Ok(v) => Some(v),
            Err(_) => None,
        },
        None => None,
    };
    GlobalOptions {
        workspace_name: match &args.name {
            Some(n) => Some(n.clone()),
            None => None,
        },
        debug: args.debug,
        cmd: None,
        force: args.force,
        mode,
        working_dir: None,
        uid: args.uid,
        tag: match &args.tag {
            Some(t) => Some(t.clone()),
            None => None,
        },
        dry_run: args.dry_run,
        no_tty: args.no_tty,
    }
}

} // verus!
