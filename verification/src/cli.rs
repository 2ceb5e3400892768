//! The program's command line: which mode a run is in, and its help texts.
use vstd::prelude::*;

verus! {

/// What a run of the program does, by its arguments.
pub enum MainCommand {
    /// `--supervisor NAME`: supervise one setup.
    Supervisor { name: String },
    /// `--supervisor` without a name: print its usage, exit 2.
    SupervisorUsage,
    /// `-h`, `--help`, `help`.
    Help,
    /// `-v`, `--version`, `version`.
    Version,
    /// `shortcut` (Windows-only).
    Shortcut,
    /// `start`, `stop`, `status`, `delete`.
    Tunnel,
    /// Anything else: an error.
    Unknown { command: String },
    /// No arguments: the terminal UI.
    Ui,
}

pub open spec fn is_one_of(s: Seq<char>, a: Seq<char>, b: Seq<char>, c: Seq<char>) -> bool {
    s == a || s == b || s == c
}

fn eq3(s: &str, a: &str, b: &str, c: &str) -> (r: bool)
    ensures
        r == is_one_of(s@, a@, b@, c@),
{
    crate::text::str_eq(s, a) || crate::text::str_eq(s, b) || crate::text::str_eq(s, c)
}

/// The mode of a run from its arguments (without the program name).
pub fn main_command(args: &Vec<String>) -> (r: MainCommand)
    ensures
        args.len() == 0 ==> (r matches MainCommand::Ui),
        args.len() > 0 ==> {
            let a = args@[0]@;
            if a == "--supervisor"@ {
                if args.len() >= 2 && args@[1]@.len() > 0 {
                    r matches MainCommand::Supervisor { name } && name@ == args@[1]@
                } else {
                    r matches MainCommand::SupervisorUsage
                }
            } else if is_one_of(a, "-h"@, "--help"@, "help"@) {
                r matches MainCommand::Help
            } else if is_one_of(a, "-v"@, "--version"@, "version"@) {
                r matches MainCommand::Version
            } else if a == "shortcut"@ {
                r matches MainCommand::Shortcut
            } else if a == "start"@ || a == "stop"@ || a == "status"@ || a == "delete"@ {
                r matches MainCommand::Tunnel
            } else {
                r matches MainCommand::Unknown { command } && command@ == a
            }
        },
{
    if args.len() == 0 {
        return MainCommand::Ui;
    }
    let a = args[0].as_str();
    if crate::text::str_eq(a, "--supervisor") {
        if args.len() >= 2 && !args[1].as_str().is_empty() {
            return MainCommand::Supervisor { name: args[1].clone() };
        }
        return MainCommand::SupervisorUsage;
    }
    if eq3(a, "-h", "--help", "help") {
        return MainCommand::Help;
    }
    if eq3(a, "-v", "--version", "version") {
        return MainCommand::Version;
    }
    if crate::text::str_eq(a, "shortcut") {
        return MainCommand::Shortcut;
    }
    if crate::text::str_eq(a, "start") || crate::text::str_eq(a, "stop") || crate::text::str_eq(a, "status")
        || crate::text::str_eq(a, "delete") {
        return MainCommand::Tunnel;
    }
    MainCommand::Unknown { command: args[0].clone() }
}

/// `tunnel-ui VERSION`.
pub fn version_line(version: &str) -> (r: String)
    ensures
        r@ == "tunnel-ui "@ + version@,
{
    let mut s = String::from_str("tunnel-ui ");
    s.append(version);
    s
}

/// The help text.
pub fn usage(version: &str) -> (r: String)
    ensures
        r@ == "tunnel-ui "@ + version@ + " \u{2014} SSH local-forward TUI\n\nUsage:\n  tunnel-ui                 Start the terminal UI\n  tunnel-ui start <name>    Start a saved tunnel\n  tunnel-ui stop <name>     Stop a saved tunnel\n  tunnel-ui status [name]   Show status\n  tunnel-ui delete <name>   Stop and delete a saved tunnel\n  tunnel-ui -v | --version  Print version\n  tunnel-ui -h | --help     Show this help\n  tunnel-ui shortcut        Windows-only (not available on Linux)\n\nRequires OpenSSH (ssh on PATH). Override the binary with SSH.\n"@,
{
    let mut s = String::from_str("tunnel-ui ");
    s.append(version);
    s.append(" \u{2014} SSH local-forward TUI\n\nUsage:\n  tunnel-ui                 Start the terminal UI\n  tunnel-ui start <name>    Start a saved tunnel\n  tunnel-ui stop <name>     Stop a saved tunnel\n  tunnel-ui status [name]   Show status\n  tunnel-ui delete <name>   Stop and delete a saved tunnel\n  tunnel-ui -v | --version  Print version\n  tunnel-ui -h | --help     Show this help\n  tunnel-ui shortcut        Windows-only (not available on Linux)\n\nRequires OpenSSH (ssh on PATH). Override the binary with SSH.\n");
    s
}

} // verus!
