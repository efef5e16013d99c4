//! The command line of the `datex` program and what it asks the program to do.
use vstd::prelude::*;
use vstd::string::*;

use crate::repl::ReplOptions;

verus! {

/// Arguments of `datex run`.
pub struct Run {
    pub file: Option<String>,
}

/// Arguments of `datex lsp`.
pub struct Lsp {}

/// Arguments of `datex repl`.
pub struct Repl {
    /// Verbose mode for debugging
    pub verbose: bool,
    /// optional path to dx config file
    pub config: Option<String>,
}

/// Arguments of `datex workbench`.
pub struct Workbench {}

/// The subcommands of `datex`.
pub enum Subcommands {
    Run(Run),
    Lsp(Lsp),
    Repl(Repl),
    Workbench(Workbench),
}

/// The command line of `datex`.
pub struct Cli {
    pub command: Option<Subcommands>,
    /// Print version
    pub version: bool,
}

/// What the program does for a command line.
pub enum MainAction {
    /// Print the versions of the program and of DATEX.
    PrintVersion,
    /// Serve the language server protocol on standard input and output.
    Lsp,
    /// Run a file.
    Run(Run),
    /// Start the REPL with these options.
    Repl(ReplOptions),
    /// Start the workbench.
    Workbench,
}

/// `--version` prints the versions; a subcommand runs it; no subcommand
/// starts the REPL with default options.
pub fn main_action(cli: Cli) -> (r: MainAction)
    ensures
        cli.version ==> r == MainAction::PrintVersion,
        !cli.version ==> match cli.command {
            None => r == MainAction::Repl(ReplOptions { verbose: false, config_path: None }),
            Some(Subcommands::Lsp(_)) => r == MainAction::Lsp,
            Some(Subcommands::Run(run)) => r == MainAction::Run(run),
            Some(Subcommands::Repl(repl)) => r == MainAction::Repl(
                ReplOptions { verbose: repl.verbose, config_path: repl.config },
            ),
            Some(Subcommands::Workbench(_)) => r == MainAction::Workbench,
        },
{
    if cli.version {
        return MainAction::PrintVersion;
    }
    match cli.command {
        None => MainAction::Repl(ReplOptions { verbose: false, config_path: None }),
        Some(Subcommands::Lsp(_)) => MainAction::Lsp,
        Some(Subcommands::Run(run)) => MainAction::Run(run),
        Some(Subcommands::Repl(Repl { verbose, config })) => MainAction::Repl(
            ReplOptions { verbose, config_path: config },
        ),
        Some(Subcommands::Workbench(_)) => MainAction::Workbench,
    }
}

/// The file that `datex run` runs, or the message printed when none was
/// given.
pub fn file_to_run(run: Run) -> (r: Result<String, String>)
    ensures
        match run.file {
            Some(f) => r == Ok::<String, String>(f),
            None => r is Err && r->Err_0@ == "No file provided to run."@,
        },
{
    match run.file {
        Some(f) => Ok(f),
        None => Err(String::from_str("No file provided to run.")),
    }
}

} // verus!
