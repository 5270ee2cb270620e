//! The logic of the command-line commands: what each one prints for the
//! symbols and dependencies it looks up.

pub mod ls;
pub mod show;
pub mod refs;
pub mod deps;
pub mod init;
pub mod map;
pub mod markers;
pub mod install_skill;
pub mod log_cmd;

use vstd::prelude::*;

use crate::daemon::logger::{count_results, count_results_spec, join_path, log_path, make_entry, LogEntry};

verus! {

/// The entry to log for a command run without the daemon, and the log file
/// of the project it goes to.
pub fn log_direct(project_root: &str, command: &str, args: &str, output: &str, duration_ms: u64) -> (r: (String, LogEntry))
    ensures
        r.0@ == join_path(join_path(project_root@, ".smartgrep"@), "queries.log"@),
        r.1.command@ == command@,
        r.1.args@ == args@,
        r.1.results == count_results_spec(output@),
        r.1.duration_ms == duration_ms,
{
    let results = count_results(output);
    (log_path(project_root), make_entry(command, args, results, duration_ms))
}

} // verus!
