//! Cleaning the state directory: entries that belong to no saved setup go,
//! and PID files of processes that are gone are dropped.
use vstd::prelude::*;
use crate::config::valid_name;

verus! {

/// What pruning does with one entry of the state directory.
#[derive(PartialEq, Eq, Structural)]
pub enum PruneAction {
    /// `.gitignore` stays.
    Keep,
    /// A file that is not a setup directory is removed.
    RemoveFile,
    /// The directory of a name that is invalid or has no saved setup: its
    /// processes are ended and it is removed.
    Reap,
    /// The directory of a saved setup: its stale PID files are dropped.
    DropStale,
}

pub open spec fn prune_action_spec(name: Seq<char>, is_dir: bool, saved_config_exists: bool) -> PruneAction {
    if name == ".gitignore"@ {
        PruneAction::Keep
    } else if !is_dir {
        PruneAction::RemoveFile
    } else if !valid_name(name) || !saved_config_exists {
        PruneAction::Reap
    } else {
        PruneAction::DropStale
    }
}

/// The action for an entry named `name` (a directory or not), given whether a
/// saved setup of that name exists.
pub fn prune_action(name: &str, is_dir: bool, saved_config_exists: bool) -> (r: PruneAction)
    ensures
        r == prune_action_spec(name@, is_dir, saved_config_exists),
{
    if crate::text::str_eq(name, ".gitignore") {
        return PruneAction::Keep;
    }
    if !is_dir {
        return PruneAction::RemoveFile;
    }
    match crate::config::sanitize_name(name) {
        Err(_) => PruneAction::Reap,
        Ok(()) => {
            if !saved_config_exists {
                PruneAction::Reap
            } else {
                PruneAction::DropStale
            }
        },
    }
}

/// A PID file still counts when its PID is positive, alive, and ssh or a supervisor.
pub fn pid_still_valid(pid: i32, alive: bool, managed: bool) -> (b: bool)
    ensures
        b == (pid > 0 && alive && managed),
{
    pid > 0 && alive && managed
}

/// Which files of a kept setup go: the supervisor PID file, the ssh PID file,
/// and the stop file when neither PID file counts.
pub fn stale_removals(supervisor_valid: bool, child_valid: bool) -> (r: (bool, bool, bool))
    ensures
        r == (!supervisor_valid, !child_valid, !supervisor_valid && !child_valid),
{
    (!supervisor_valid, !child_valid, !supervisor_valid && !child_valid)
}

} // verus!
