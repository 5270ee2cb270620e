//! The command line: global options and the subcommands. Argument parsing
//! itself belongs to the program around the library; these are the values
//! it hands over.

use vstd::prelude::*;

verus! {

/// Global options and the chosen subcommand.
#[derive(Debug)]
pub struct Cli {
    /// Output format: text or json.
    pub format: String,
    /// Disable colored output.
    pub no_color: bool,
    /// Project root directory.
    pub project_root: Option<String>,
    /// Use the background daemon for faster repeated queries (opt-in).
    pub daemon: bool,
    pub command: Command,
}

/// The subcommands.
#[derive(Debug)]
pub enum Command {
    /// Structural summary of a file.
    Context { file: String },
    /// List symbols, optionally of one type and under a path.
    Ls { symbol_type: Option<String>, in_path: Option<String> },
    /// Show detail for a named symbol.
    Show { name: String },
    /// Show what a symbol depends on.
    Deps { name: String },
    /// Show what references a symbol.
    Refs { name: String },
    /// Force re-index.
    Index,
    /// Run a composable query against the index.
    Query { query: String },
    /// Show the query log.
    Log { limit: usize, stats: bool },
    /// Overview of the project's layout: directories, what they hold and
    /// what they depend on.
    ProjectMap { in_path: Option<String>, all: bool, depth: Option<usize>, include_generated: bool, symbols: bool },
    /// Run the daemon server in the foreground.
    RunServer { idle_timeout: u64 },
    /// Install the agent skill, repo-local or global.
    InstallSkill { global: bool },
    /// Update to the latest release.
    Update,
}

} // verus!
