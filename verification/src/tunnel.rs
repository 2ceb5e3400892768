//! The decisions of starting, supervising, stopping and reporting a tunnel:
//! what the supervisor does when ssh exits, when a start counts as started,
//! which processes a stop ends, and the texts the command line prints.
use vstd::prelude::*;
use crate::config::{forward_summary_spec, via_spec, Config, ConfigView};
use crate::error::{debug_quote, debug_quoted, TunnelError};
use crate::num::{dec, int_text};
use crate::paths::{last_failure_spec, opt_view};
use crate::ssh::{fatal_message_spec, fatal_ssh_message};
use crate::text::{
    chars_of, contains, copy_range, find, first_occurrence, last_occurrence, rfind, string_of,
    string_views, trim, trim_str, views,
};

verus! {

// ---------------------------------------------------------------------------
// Errors recorded for a setup.
/// The hint shown for a failed setup: the stored error, else the last line of
/// its log that is not supervisor noise.
pub open spec fn error_hint_spec(stored_err: Seq<char>, log: Seq<char>) -> Seq<char> {
    if stored_err.len() > 0 {
        stored_err
    } else {
        last_failure_spec(log)
    }
}

pub fn setup_error_hint(stored_err: &str, log: &str) -> (r: String)
    ensures
        r@ == error_hint_spec(stored_err@, log@),
{
    if !stored_err.is_empty() {
        return String::from_str(stored_err);
    }
    crate::paths::last_failure_line(log)
}

/// A setup has an error when its error file holds text.
pub fn setup_has_error(stored_err: &str) -> (b: bool)
    ensures
        b == (stored_err@.len() > 0),
{
    !stored_err.is_empty()
}

/// A setup is on when its supervisor is alive, or its ssh child is alive, or
/// ssh holds its local port.
pub fn setup_on(supervisor_alive: bool, child_alive: bool, child_is_ssh: bool, port_held_by_ssh: bool) -> (b: bool)
    ensures
        b == (supervisor_alive || (child_alive && child_is_ssh) || port_held_by_ssh),
{
    supervisor_alive || (child_alive && child_is_ssh) || port_held_by_ssh
}

/// A setup listens when ssh holds its local port; `listener_images` are the
/// images of the processes listening there.
pub fn setup_listening(listener_images: &Vec<String>) -> (b: bool)
    ensures
        b == exists|i: int|
            0 <= i < listener_images.len() && crate::procs::is_ssh_image(#[trigger] listener_images@[i]@),
{
    crate::procs::ssh_holding_port(listener_images)
}

// ---------------------------------------------------------------------------
// Fatal ssh errors.
pub open spec fn start_mark() -> Seq<char> {
    "] Starting SSH tunnel:"@
}

/// The log text after the line of the last ssh start (empty when there is no
/// such line, or it is the last line without a newline).
pub open spec fn after_last_start_spec(log: Seq<char>) -> Seq<char> {
    match last_occurrence(log, start_mark()) {
        None => Seq::empty(),
        Some(pos) => match first_occurrence(log.skip(pos), seq!['\n']) {
            Some(i) => log.skip(pos + i + 1),
            None => Seq::empty(),
        },
    }
}

pub fn ssh_output_after_last_start(log: &str) -> (r: String)
    ensures
        r@ == after_last_start_spec(log@),
{
    proof {
        reveal_strlit("] Starting SSH tunnel:");
    }
    let v = chars_of(log);
    let mark = chars_of("] Starting SSH tunnel:");
    let pos = match rfind(&v, &mark) {
        None => {
            return String::new();
        },
        Some(p) => p,
    };
    assert(crate::text::occurs_at(v@, mark@, pos as int));
    let rest = copy_range(&v, pos, v.len());
    assert(rest@ =~= v@.skip(pos as int));
    let nl = vec!['\n'];
    assert(nl@ =~= seq!['\n']);
    match find(&rest, &nl) {
        Some(i) => {
            assert(crate::text::occurs_at(rest@, nl@, i as int));
            let out = copy_range(&v, pos + i + 1, v.len());
            assert(out@ =~= v@.skip(pos + i + 1));
            string_of(out.as_slice())
        },
        None => String::new(),
    }
}

/// The fatal error of an ssh run: in what it printed, else in the log after
/// the last start.
pub open spec fn fatal_run_spec(captured: Seq<char>, log: Seq<char>) -> Option<Seq<char>> {
    match fatal_message_spec(captured) {
        Some(m) => Some(m),
        None => fatal_message_spec(after_last_start_spec(log)),
    }
}

pub fn fatal_from_ssh_run(captured: &str, log: &str) -> (r: Option<String>)
    ensures
        match r {
            Some(m) => fatal_run_spec(captured@, log@) == Some(m@),
            None => fatal_run_spec(captured@, log@) is None,
        },
{
    match fatal_ssh_message(captured) {
        Some(m) => Some(m),
        None => {
            let after = ssh_output_after_last_start(log);
            fatal_ssh_message(after.as_str())
        },
    }
}

// ---------------------------------------------------------------------------
// The supervisor.
/// What the supervisor does after its ssh exits.
pub enum SupervisorStep {
    /// A stop was requested: leave without error.
    StopRequested,
    /// ssh reported an error reconnecting cannot fix: record it, leave with it.
    Fatal { message: String },
    /// Reconnecting is off and ssh exited cleanly: leave without error.
    Finished,
    /// Reconnecting is off and ssh failed: record the failure, leave with it.
    Failed,
    /// Wait the reconnect delay and start ssh again.
    Reconnect,
}

#[derive(PartialEq, Eq, Structural)]
pub enum ExitKind {
    StopRequested,
    Fatal,
    Finished,
    Failed,
    Reconnect,
}

impl SupervisorStep {
    pub open spec fn kind(&self) -> ExitKind {
        match self {
            SupervisorStep::StopRequested => ExitKind::StopRequested,
            SupervisorStep::Fatal { .. } => ExitKind::Fatal,
            SupervisorStep::Finished => ExitKind::Finished,
            SupervisorStep::Failed => ExitKind::Failed,
            SupervisorStep::Reconnect => ExitKind::Reconnect,
        }
    }
}

/// The supervisor's choice after ssh exits: a requested stop first, then a
/// fatal ssh error, then the reconnect setting and how ssh exited.
pub open spec fn exit_kind_spec(
    stop_requested: bool,
    fatal: Option<Seq<char>>,
    reconnect: bool,
    success: bool,
) -> ExitKind {
    if stop_requested {
        ExitKind::StopRequested
    } else if fatal is Some {
        ExitKind::Fatal
    } else if !reconnect {
        if success {
            ExitKind::Finished
        } else {
            ExitKind::Failed
        }
    } else {
        ExitKind::Reconnect
    }
}

/// Decides what the supervisor does after ssh exited, from whether the stop
/// file exists, what ssh printed, the log, the reconnect setting and whether
/// ssh exited with success.
pub fn after_ssh_exit(
    stop_requested: bool,
    captured: &str,
    log: &str,
    reconnect: bool,
    success: bool,
) -> (r: SupervisorStep)
    ensures
        r.kind() == exit_kind_spec(stop_requested, fatal_run_spec(captured@, log@), reconnect, success),
        r matches SupervisorStep::Fatal { message } ==> fatal_run_spec(captured@, log@) == Some(message@),
{
    if stop_requested {
        return SupervisorStep::StopRequested;
    }
    match fatal_from_ssh_run(captured, log) {
        Some(message) => SupervisorStep::Fatal { message },
        None => {
            if !reconnect {
                if success {
                    SupervisorStep::Finished
                } else {
                    SupervisorStep::Failed
                }
            } else {
                SupervisorStep::Reconnect
            }
        },
    }
}

/// An ssh error that reconnecting cannot fix ends the supervisor whatever the
/// reconnect setting: it never reconnects after one, unless a stop came first.
pub proof fn lemma_fatal_never_reconnects(
    stop_requested: bool,
    captured: Seq<char>,
    log: Seq<char>,
    reconnect: bool,
    success: bool,
)
    requires
        fatal_run_spec(captured, log) is Some,
    ensures
        exit_kind_spec(stop_requested, fatal_run_spec(captured, log), reconnect, success) != ExitKind::Reconnect,
        !stop_requested ==> exit_kind_spec(stop_requested, fatal_run_spec(captured, log), reconnect, success)
            == ExitKind::Fatal,
{
}

/// A drop that is not fatal is reconnected after when reconnecting is on and
/// no stop was requested, however ssh exited.
pub proof fn lemma_transient_drop_reconnects(captured: Seq<char>, log: Seq<char>, success: bool)
    requires
        fatal_run_spec(captured, log) is None,
    ensures
        exit_kind_spec(false, fatal_run_spec(captured, log), true, success) == ExitKind::Reconnect,
{
}

/// A requested stop always ends the supervisor without an error.
pub proof fn lemma_stop_wins(fatal: Option<Seq<char>>, reconnect: bool, success: bool)
    ensures
        exit_kind_spec(true, fatal, reconnect, success) == ExitKind::StopRequested,
{
}

/// The log line for a fatal error: `Fatal SSH error (not reconnecting): MSG`.
pub open spec fn fatal_log_spec(msg: Seq<char>) -> Seq<char> {
    "Fatal SSH error (not reconnecting): "@ + msg
}

pub fn fatal_log_line(msg: &str) -> (r: String)
    ensures
        r@ == fatal_log_spec(msg@),
{
    let mut s = String::from_str("Fatal SSH error (not reconnecting): ");
    s.append(msg);
    s
}

/// The log line the supervisor writes after ssh exited with code `exit`.
pub open spec fn exit_log_spec(kind: ExitKind, exit: int, delay: nat, msg: Seq<char>) -> Seq<char> {
    match kind {
        ExitKind::StopRequested => "Stop requested after tunnel exit ("@ + int_text(exit)
            + "); exiting supervisor"@,
        ExitKind::Fatal => fatal_log_spec(msg),
        ExitKind::Finished => "Tunnel exited ("@ + int_text(exit) + "); reconnect disabled"@,
        ExitKind::Failed => "Tunnel exited ("@ + int_text(exit) + "); reconnect disabled"@,
        ExitKind::Reconnect => "Tunnel exited ("@ + int_text(exit) + "); reconnecting in "@ + dec(delay)
            + "s"@,
    }
}

pub fn supervisor_log_line(step: &SupervisorStep, exit: i32, delay: u64) -> (r: String)
    ensures
        r@ == exit_log_spec(
            step.kind(),
            exit as int,
            delay as nat,
            match step {
                SupervisorStep::Fatal { message } => message@,
                _ => Seq::empty(),
            },
        ),
{
    let code = crate::num::i32_string(exit);
    match step {
        SupervisorStep::StopRequested => {
            let mut s = String::from_str("Stop requested after tunnel exit (");
            s.append(code.as_str());
            s.append("); exiting supervisor");
            s
        },
        SupervisorStep::Fatal { message } => fatal_log_line(message.as_str()),
        SupervisorStep::Finished | SupervisorStep::Failed => {
            let mut s = String::from_str("Tunnel exited (");
            s.append(code.as_str());
            s.append("); reconnect disabled");
            s
        },
        SupervisorStep::Reconnect => {
            let mut s = String::from_str("Tunnel exited (");
            s.append(code.as_str());
            s.append("); reconnecting in ");
            let d = crate::num::u64_string(delay);
            s.append(d.as_str());
            s.append("s");
            s
        },
    }
}

/// The error of a failed run without reconnecting: the setup's hint, else
/// `ssh exited CODE`.
pub fn failed_exit_message(hint: &str, exit: i32) -> (r: String)
    ensures
        r@ == (if hint@.len() > 0 {
            hint@
        } else {
            "ssh exited "@ + int_text(exit as int)
        }),
{
    if !hint.is_empty() {
        return String::from_str(hint);
    }
    let mut s = String::from_str("ssh exited ");
    let c = crate::num::i32_string(exit);
    s.append(c.as_str());
    s
}

/// `Supervisor started (PID P, name=N, target=T, reconnect=B)`.
pub fn supervisor_started_line(pid: u32, name: &str, target: &str, reconnect: bool) -> (r: String)
    ensures
        r@ == "Supervisor started (PID "@ + dec(pid as nat) + ", name="@ + name@ + ", target="@ + target@
            + ", reconnect="@ + (if reconnect {
            "true"@
        } else {
            "false"@
        }) + ")"@,
{
    let mut s = String::from_str("Supervisor started (PID ");
    let p = crate::num::u64_string(pid as u64);
    s.append(p.as_str());
    s.append(", name=");
    s.append(name);
    s.append(", target=");
    s.append(target);
    s.append(", reconnect=");
    if reconnect {
        s.append("true");
    } else {
        s.append("false");
    }
    s.append(")");
    s
}

/// `Starting SSH tunnel: SUMMARY`, the line after which ssh's output is read.
pub fn starting_line(c: &Config) -> (r: String)
    ensures
        r@ == "Starting SSH tunnel: "@ + forward_summary_spec(c@),
{
    let mut s = String::from_str("Starting SSH tunnel: ");
    let f = c.forward_summary();
    s.append(f.as_str());
    s
}

// ---------------------------------------------------------------------------
// Starting.
/// `Tunnel NAME already running (PID P)` when ssh holds the port or the ssh
/// child is alive; else the error that the supervisor runs without ssh listening.
pub fn start_when_running(
    name: &str,
    pid: i32,
    port_held_by_ssh: bool,
    child_alive: bool,
    local_port: &str,
    tail: &str,
) -> (r: Result<String, TunnelError>)
    ensures
        port_held_by_ssh || child_alive ==> (r matches Ok(s) && s@ == "Tunnel "@ + debug_quote(name@)
            + " already running (PID "@ + int_text(pid as int) + ")"@),
        !(port_held_by_ssh || child_alive) ==> (r matches Err(TunnelError::Message { text }) && text@
            == "Tunnel "@ + debug_quote(name@) + " supervisor is running (PID "@ + int_text(pid as int)
            + ") but ssh is not listening on port "@ + local_port@ + ".\n"@ + tail@),
{
    let q = debug_quoted(name);
    let p = crate::num::i32_string(pid);
    let mut s = String::from_str("Tunnel ");
    s.append(q.as_str());
    if port_held_by_ssh || child_alive {
        s.append(" already running (PID ");
        s.append(p.as_str());
        s.append(")");
        return Ok(s);
    }
    s.append(" supervisor is running (PID ");
    s.append(p.as_str());
    s.append(") but ssh is not listening on port ");
    s.append(local_port);
    s.append(".\n");
    s.append(tail);
    Err(TunnelError::Message { text: s })
}

/// One look while waiting for a new supervisor's ssh to listen.
#[derive(PartialEq, Eq, Structural)]
pub enum StartPoll {
    /// ssh holds the port: the start succeeded.
    Started,
    /// The supervisor is gone, or the looks are used up: stop waiting.
    Stopped,
    /// Look again after a short sleep.
    Wait,
}

/// The look number `attempt` (from 0; there are 10) after starting a supervisor.
pub fn start_poll(attempt: u32, port_held_by_ssh: bool, supervisor_alive: bool) -> (r: StartPoll)
    ensures
        r == (if attempt >= 10 {
            StartPoll::Stopped
        } else if port_held_by_ssh {
            StartPoll::Started
        } else if !supervisor_alive {
            StartPoll::Stopped
        } else {
            StartPoll::Wait
        }),
{
    if attempt >= 10 {
        StartPoll::Stopped
    } else if port_held_by_ssh {
        StartPoll::Started
    } else if !supervisor_alive {
        StartPoll::Stopped
    } else {
        StartPoll::Wait
    }
}

/// How a start ends once the waiting is over.
#[derive(PartialEq, Eq, Structural)]
pub enum StartVerdict {
    Started,
    /// The start failed; the PID file goes when the supervisor is gone.
    Failed { remove_pid_file: bool },
}

/// A start succeeds only when ssh holds the port, or the supervisor and its
/// ssh child are both alive.
pub fn start_verdict(port_held_by_ssh: bool, supervisor_alive: bool, child_alive: bool) -> (r: StartVerdict)
    ensures
        r == (if port_held_by_ssh || (supervisor_alive && child_alive) {
            StartVerdict::Started
        } else {
            StartVerdict::Failed { remove_pid_file: !supervisor_alive }
        }),
{
    if port_held_by_ssh || (supervisor_alive && child_alive) {
        StartVerdict::Started
    } else {
        StartVerdict::Failed { remove_pid_file: !supervisor_alive }
    }
}

/// `Starting tunnel NAME: SUMMARY` and `Tunnel NAME started (PID P). Logs: LOG`.
pub fn started_message(name: &str, summary: &str, pid: i32, log_path: &str) -> (r: String)
    ensures
        r@ == "Starting tunnel "@ + debug_quote(name@) + ": "@ + summary@ + "\nTunnel "@ + debug_quote(name@)
            + " started (PID "@ + int_text(pid as int) + "). Logs: "@ + log_path@,
{
    let q = debug_quoted(name);
    let mut s = String::from_str("Starting tunnel ");
    s.append(q.as_str());
    s.append(": ");
    s.append(summary);
    s.append("\nTunnel ");
    s.append(q.as_str());
    s.append(" started (PID ");
    let p = crate::num::i32_string(pid);
    s.append(p.as_str());
    s.append("). Logs: ");
    s.append(log_path);
    s
}

/// Why a start failed: the setup's error hint when there is one, else that ssh
/// does not listen; then the log's last lines.
pub fn start_failure_text(name: &str, local_port: &str, hint: &str, tail: &str) -> (r: String)
    ensures
        r@ == (if hint@.len() == 0 {
            "failed to start tunnel "@ + debug_quote(name@) + "; ssh is not listening on port "@ + local_port@
                + ".\n"@ + tail@
        } else {
            "failed to start tunnel "@ + debug_quote(name@) + ": "@ + hint@ + "\n"@ + tail@
        }),
{
    let q = debug_quoted(name);
    let mut s = String::from_str("failed to start tunnel ");
    s.append(q.as_str());
    if hint.is_empty() {
        s.append("; ssh is not listening on port ");
        s.append(local_port);
        s.append(".\n");
    } else {
        s.append(": ");
        s.append(hint);
        s.append("\n");
    }
    s.append(tail);
    s
}

// ---------------------------------------------------------------------------
// Stopping.
/// `Stop requested (supervisor + ssh forward on port PORT)`.
pub fn stop_request_line(port: &str) -> (r: String)
    ensures
        r@ == "Stop requested (supervisor + ssh forward on port "@ + port@ + ")"@,
{
    let mut s = String::from_str("Stop requested (supervisor + ssh forward on port ");
    s.append(port);
    s.append(")");
    s
}

/// The report line about the supervisor PID file, and whether to end that process.
pub open spec fn supervisor_stop_spec(pid: int, alive: bool, managed: bool, image: Seq<char>) -> (Seq<char>, bool) {
    if alive {
        if managed {
            ("Stopping tunnel supervisor (PID "@ + int_text(pid) + ")\n"@, true)
        } else {
            (
                "Ignoring stale supervisor PID "@ + int_text(pid) + " ("@ + crate::paths::basename_spec(image)
                    + ")\n"@,
                false,
            )
        }
    } else if pid > 0 {
        ("Tunnel supervisor not running; cleaning up PID file\n"@, false)
    } else {
        ("No supervisor PID file; checking for leftover ssh forward\n"@, false)
    }
}

pub fn supervisor_stop_line(pid: i32, alive: bool, managed: bool, image: &str) -> (r: (String, bool))
    ensures
        (r.0@, r.1) == supervisor_stop_spec(pid as int, alive, managed, image@),
{
    let p = crate::num::i32_string(pid);
    if alive {
        if managed {
            let mut s = String::from_str("Stopping tunnel supervisor (PID ");
            s.append(p.as_str());
            s.append(")\n");
            (s, true)
        } else {
            let mut s = String::from_str("Ignoring stale supervisor PID ");
            s.append(p.as_str());
            s.append(" (");
            let b = crate::paths::basename(image);
            s.append(b.as_str());
            s.append(")\n");
            (s, false)
        }
    } else if pid > 0 {
        (String::from_str("Tunnel supervisor not running; cleaning up PID file\n"), false)
    } else {
        (String::from_str("No supervisor PID file; checking for leftover ssh forward\n"), false)
    }
}

/// The report line about the ssh child, and whether to end it: only a live
/// process that is ssh or a supervisor.
pub fn child_stop_line(child: i32, alive: bool, managed: bool) -> (r: (String, bool))
    ensures
        r.1 == (alive && managed),
        r.1 ==> r.0@ == "Stopping tunnel ssh (PID "@ + int_text(child as int) + ")\n"@,
        !r.1 ==> r.0@.len() == 0,
{
    if alive && managed {
        let mut s = String::from_str("Stopping tunnel ssh (PID ");
        let p = crate::num::i32_string(child);
        s.append(p.as_str());
        s.append(")\n");
        (s, true)
    } else {
        (String::new(), false)
    }
}

/// A list of PIDs as `Debug` prints it: `[1, 2, 3]`.
pub open spec fn pid_list_text(pids: Seq<i32>) -> Seq<char> {
    "["@ + crate::text::join_words(pids.map_values(|p: i32| int_text(p as int)), ", "@) + "]"@
}

pub fn pid_list(pids: &Vec<i32>) -> (r: String)
    ensures
        r@ == pid_list_text(pids@),
{
    let mut parts: Vec<Vec<char>> = Vec::new();
    let mut i: usize = 0;
    while i < pids.len()
        invariant
            i <= pids.len(),
            views(parts@) == pids@.take(i as int).map_values(|p: i32| int_text(p as int)),
        decreases pids.len() - i,
    {
        let t = crate::num::i64_chars(pids[i] as i64);
        assert(t@ == int_text(pids@[i as int] as int));
        let ghost o = parts@;
        parts.push(t);
        assert(views(parts@) =~= views(o).push(t@));
        assert(pids@.take(i + 1) =~= pids@.take(i as int).push(pids@[i as int]));
        assert(pids@.take(i + 1).map_values(|p: i32| int_text(p as int)) =~= pids@.take(i as int).map_values(
            |p: i32| int_text(p as int),
        ).push(int_text(pids@[i as int] as int)));
        i = i + 1;
    }
    assert(pids@.take(pids.len() as int) =~= pids@);
    let sep = chars_of(", ");
    let j = crate::text::join_chars(&parts, &sep);
    let mut s = String::from_str("[");
    let js = string_of(j.as_slice());
    s.append(js.as_str());
    s.append("]");
    s
}

/// `Stopped ssh/supervisor PIDs on port PORT: [..]` when any were ended.
pub fn killed_line(port: &str, killed: &Vec<i32>) -> (r: String)
    ensures
        killed.len() == 0 ==> r@.len() == 0,
        killed.len() > 0 ==> r@ == "Stopped ssh/supervisor PIDs on port "@ + port@ + ": "@ + pid_list_text(
            killed@,
        ) + "\n"@,
{
    if killed.len() == 0 {
        return String::new();
    }
    let mut s = String::from_str("Stopped ssh/supervisor PIDs on port ");
    s.append(port);
    s.append(": ");
    let l = pid_list(killed);
    s.append(l.as_str());
    s.append("\n");
    s
}

/// `Stopped remaining ssh PIDs: [..]` when any were ended on the second pass.
pub fn remaining_killed_line(killed: &Vec<i32>) -> (r: String)
    ensures
        killed.len() == 0 ==> r@.len() == 0,
        killed.len() > 0 ==> r@ == "Stopped remaining ssh PIDs: "@ + pid_list_text(killed@) + "\n"@,
{
    if killed.len() == 0 {
        return String::new();
    }
    let mut s = String::from_str("Stopped remaining ssh PIDs: ");
    let l = pid_list(killed);
    s.append(l.as_str());
    s.append("\n");
    s
}

/// The end of a stop: an error while ssh still holds the port, else the report
/// with `Tunnel stopped`, trimmed.
pub fn stop_result(report: &str, still_holding: bool, port: &str) -> (r: Result<String, TunnelError>)
    ensures
        still_holding ==> (r matches Err(TunnelError::Message { text }) && text@ == "ssh still holding port "@
            + port@),
        !still_holding ==> (r matches Ok(s) && s@ == trim(report@ + "Tunnel stopped"@)),
{
    if still_holding {
        let mut t = String::from_str("ssh still holding port ");
        t.append(port);
        return Err(TunnelError::Message { text: t });
    }
    let mut s = String::from_str(report);
    s.append("Tunnel stopped");
    let v = trim_str(s.as_str());
    Ok(string_of(v.as_slice()))
}

// ---------------------------------------------------------------------------
// Which processes a stop ends.
/// The image of `pid` in `(pid, image)` pairs (the last pair wins), empty when absent.
pub open spec fn image_in(images: Seq<(i32, String)>, pid: i32) -> Seq<char>
    decreases images.len(),
{
    if images.len() == 0 {
        Seq::empty()
    } else if images.last().0 == pid {
        images.last().1@
    } else {
        image_in(images.drop_last(), pid)
    }
}

fn image_in_exec(images: &Vec<(i32, String)>, pid: i32) -> (r: String)
    ensures
        r@ == image_in(images@, pid),
{
    let mut i: usize = images.len();
    assert(images@.take(images.len() as int) =~= images@);
    while i > 0
        invariant
            i <= images.len(),
            image_in(images@, pid) == image_in(images@.take(i as int), pid),
        decreases i,
    {
        assert(images@.take(i as int).drop_last() =~= images@.take(i - 1));
        if images[i - 1].0 == pid {
            return images[i - 1].1.clone();
        }
        i = i - 1;
    }
    String::new()
}

/// Whether an ssh process belongs to the forward on `port`: its command line
/// forwards the port, or it listens there.
pub open spec fn forward_match(p: crate::procs::OsProcView, port: Seq<char>, listen: Seq<i32>) -> bool {
    crate::detect::forwards_port_spec(crate::detect::local_ports_spec(p.cmd), p.cmd, port) || listen.contains(p.pid)
}

/// Supervisors to end, in the order found: ssh processes that supervise the
/// setup, the supervisor parents of matching ssh processes, and every process
/// whose command line supervises the setup.
pub open spec fn parent_candidates(
    name: Seq<char>,
    dest: Seq<char>,
    port: Seq<char>,
    listen: Seq<i32>,
    procs: Seq<crate::procs::OsProcView>,
    images: Seq<(i32, String)>,
) -> Seq<i32>
    decreases procs.len(),
{
    if procs.len() == 0 {
        Seq::empty()
    } else {
        let r = parent_candidates(name, dest, port, listen, procs.drop_last(), images);
        let p = procs.last();
        let a = if crate::detect::supervises_spec(p.cmd, name, dest) {
            r.push(p.pid)
        } else {
            r
        };
        if forward_match(p, port, listen) && (crate::procs::is_supervisor_name_spec(p.parent)
            || crate::procs::is_supervisor_name_spec(image_in(images, p.ppid))) {
            a.push(p.ppid)
        } else {
            a
        }
    }
}

pub open spec fn supervising_cmdlines(cmdlines: Seq<(i32, String)>, name: Seq<char>, dest: Seq<char>) -> Seq<i32>
    decreases cmdlines.len(),
{
    if cmdlines.len() == 0 {
        Seq::empty()
    } else {
        let r = supervising_cmdlines(cmdlines.drop_last(), name, dest);
        if crate::detect::supervises_spec(cmdlines.last().1@, name, dest) {
            r.push(cmdlines.last().0)
        } else {
            r
        }
    }
}

/// ssh processes to end: the matching ssh processes, then the listeners on
/// the port that are ssh or a supervisor.
pub open spec fn ssh_candidates(port: Seq<char>, listen: Seq<i32>, procs: Seq<crate::procs::OsProcView>) -> Seq<i32>
    decreases procs.len(),
{
    if procs.len() == 0 {
        Seq::empty()
    } else {
        let r = ssh_candidates(port, listen, procs.drop_last());
        if forward_match(procs.last(), port, listen) {
            r.push(procs.last().pid)
        } else {
            r
        }
    }
}

pub open spec fn managed_listeners(listen: Seq<i32>, images: Seq<(i32, String)>) -> Seq<i32>
    decreases listen.len(),
{
    if listen.len() == 0 {
        Seq::empty()
    } else {
        let r = managed_listeners(listen.drop_last(), images);
        let img = image_in(images, listen.last());
        if crate::procs::is_ssh_image(img) || crate::procs::is_supervisor_name_spec(img) {
            r.push(listen.last())
        } else {
            r
        }
    }
}

/// The processes a stop of the setup ends, each once, supervisors first.
pub open spec fn kill_plan_spec(
    c: ConfigView,
    listen: Seq<i32>,
    procs: Seq<crate::procs::OsProcView>,
    images: Seq<(i32, String)>,
    cmdlines: Seq<(i32, String)>,
) -> Seq<i32> {
    let dest = via_spec(c);
    crate::procs::uniq_positive(
        parent_candidates(c.name, dest, c.local_port, listen, procs, images) + supervising_cmdlines(
            cmdlines,
            c.name,
            dest,
        ) + ssh_candidates(c.local_port, listen, procs) + managed_listeners(listen, images),
    )
}

proof fn lemma_uniq_positive_append_push(a: Seq<i32>, b: Seq<i32>, x: i32)
    ensures
        crate::procs::uniq_positive(a + b.push(x)) == (if x > 0 && !crate::procs::uniq_positive(a + b).contains(x) {
            crate::procs::uniq_positive(a + b).push(x)
        } else {
            crate::procs::uniq_positive(a + b)
        }),
{
    crate::procs::lemma_uniq_positive_push(a, b, x);
}

/// The processes to end when stopping `c`: `listen` are the PIDs listening on
/// its port, `procs` the ssh processes, `images` the images of the processes
/// asked about, `cmdlines` the command line of every process.
pub fn kill_plan(
    c: &Config,
    listen: &Vec<i32>,
    procs: &Vec<crate::procs::OsProc>,
    images: &Vec<(i32, String)>,
    cmdlines: &Vec<(i32, String)>,
) -> (r: Vec<i32>)
    ensures
        r@ == kill_plan_spec(c@, listen@, crate::procs::proc_views(procs@), images@, cmdlines@),
{
    let dest = c.via();
    let ghost pv = crate::procs::proc_views(procs@);
    let mut out: Vec<i32> = Vec::new();
    let mut i: usize = 0;
    assert(Seq::<i32>::empty() + Seq::<i32>::empty() =~= Seq::<i32>::empty());
    while i < procs.len()
        invariant
            i <= procs.len(),
            dest@ == via_spec(c@),
            pv == crate::procs::proc_views(procs@),
            out@ == crate::procs::uniq_positive(
                parent_candidates(c.name@, dest@, c.local_port@, listen@, pv.take(i as int), images@),
            ),
        decreases procs.len() - i,
    {
        let ghost prev = parent_candidates(c.name@, dest@, c.local_port@, listen@, pv.take(i as int), images@);
        assert(pv.take(i + 1).drop_last() =~= pv.take(i as int));
        assert(pv.take(i + 1).last() == procs@[i as int]@);
        let p = &procs[i];
        let sup = crate::detect::cmdline_supervises(p.cmd.as_str(), c.name.as_str(), dest.as_str());
        if sup {
            proof {
                lemma_uniq_positive_append_push(Seq::empty(), prev, p.pid);
                assert(Seq::<i32>::empty() + prev =~= prev);
                assert(Seq::<i32>::empty() + prev.push(p.pid) =~= prev.push(p.pid));
            }
            crate::procs::push_unique_positive(&mut out, p.pid);
        }
        let ghost mid = if sup { prev.push(p.pid) } else { prev };
        let matched = crate::detect::cmd_forwards_port(p.cmd.as_str(), c.local_port.as_str())
            || crate::procs::has_pid(listen, p.pid);
        if matched {
            let img = image_in_exec(images, p.ppid);
            if crate::procs::is_supervisor_name(p.parent.as_str()) || crate::procs::is_supervisor_name(
                img.as_str(),
            ) {
                proof {
                    lemma_uniq_positive_append_push(Seq::empty(), mid, p.ppid);
                    assert(Seq::<i32>::empty() + mid =~= mid);
                    assert(Seq::<i32>::empty() + mid.push(p.ppid) =~= mid.push(p.ppid));
                }
                crate::procs::push_unique_positive(&mut out, p.ppid);
            }
        }
        i = i + 1;
    }
    assert(pv.take(procs.len() as int) =~= pv);
    let ghost pc = parent_candidates(c.name@, dest@, c.local_port@, listen@, pv, images@);
    let mut k: usize = 0;
    assert(pc + Seq::<i32>::empty() =~= pc);
    while k < cmdlines.len()
        invariant
            k <= cmdlines.len(),
            dest@ == via_spec(c@),
            out@ == crate::procs::uniq_positive(pc + supervising_cmdlines(cmdlines@.take(k as int), c.name@, dest@)),
        decreases cmdlines.len() - k,
    {
        assert(cmdlines@.take(k + 1).drop_last() =~= cmdlines@.take(k as int));
        if crate::detect::cmdline_supervises(cmdlines[k].1.as_str(), c.name.as_str(), dest.as_str()) {
            proof {
                lemma_uniq_positive_append_push(pc, supervising_cmdlines(cmdlines@.take(k as int), c.name@, dest@), cmdlines@[k as int].0);
            }
            crate::procs::push_unique_positive(&mut out, cmdlines[k].0);
        }
        k = k + 1;
    }
    assert(cmdlines@.take(cmdlines.len() as int) =~= cmdlines@);
    let ghost pre = pc + supervising_cmdlines(cmdlines@, c.name@, dest@);
    let mut j: usize = 0;
    assert(pre + Seq::<i32>::empty() =~= pre);
    while j < procs.len()
        invariant
            j <= procs.len(),
            pv == crate::procs::proc_views(procs@),
            out@ == crate::procs::uniq_positive(pre + ssh_candidates(c.local_port@, listen@, pv.take(j as int))),
        decreases procs.len() - j,
    {
        assert(pv.take(j + 1).drop_last() =~= pv.take(j as int));
        assert(pv.take(j + 1).last() == procs@[j as int]@);
        let p = &procs[j];
        let matched = crate::detect::cmd_forwards_port(p.cmd.as_str(), c.local_port.as_str())
            || crate::procs::has_pid(listen, p.pid);
        if matched {
            proof {
                lemma_uniq_positive_append_push(pre, ssh_candidates(c.local_port@, listen@, pv.take(j as int)), p.pid);
            }
            crate::procs::push_unique_positive(&mut out, p.pid);
        }
        j = j + 1;
    }
    assert(pv.take(procs.len() as int) =~= pv);
    let ghost pre2 = pre + ssh_candidates(c.local_port@, listen@, pv);
    let mut m: usize = 0;
    assert(pre2 + Seq::<i32>::empty() =~= pre2);
    while m < listen.len()
        invariant
            m <= listen.len(),
            out@ == crate::procs::uniq_positive(pre2 + managed_listeners(listen@.take(m as int), images@)),
        decreases listen.len() - m,
    {
        assert(listen@.take(m + 1).drop_last() =~= listen@.take(m as int));
        let img = image_in_exec(images, listen[m]);
        if crate::procs::is_ssh_process(img.as_str()) || crate::procs::is_supervisor_name(img.as_str()) {
            proof {
                lemma_uniq_positive_append_push(pre2, managed_listeners(listen@.take(m as int), images@), listen@[m as int]);
            }
            crate::procs::push_unique_positive(&mut out, listen[m]);
        }
        m = m + 1;
    }
    assert(listen@.take(listen.len() as int) =~= listen@);
    assert(pre2 + managed_listeners(listen@, images@) =~= parent_candidates(c.name@, dest@, c.local_port@, listen@, pv, images@)
        + supervising_cmdlines(cmdlines@, c.name@, dest@) + ssh_candidates(c.local_port@, listen@, pv)
        + managed_listeners(listen@, images@));
    out
}

// ---------------------------------------------------------------------------
// Status.
/// Each line of `t` indented by four spaces, each ending in a newline.
pub open spec fn indented_lines(ls: Seq<Seq<char>>) -> Seq<char>
    decreases ls.len(),
{
    if ls.len() == 0 {
        Seq::empty()
    } else {
        indented_lines(ls.drop_last()) + "    "@ + ls.last() + "\n"@
    }
}

/// `  Last log lines:` and the lines of `tail`, when it is not empty.
pub open spec fn log_block(tail: Seq<char>) -> Seq<char> {
    if tail.len() > 0 {
        "  Last log lines:\n"@ + indented_lines(lines(tail))
    } else {
        Seq::empty()
    }
}

pub open spec fn lines(t: Seq<char>) -> Seq<Seq<char>> {
    crate::text::lines(t)
}

fn log_block_exec(tail: &str) -> (r: String)
    ensures
        r@ == log_block(tail@),
{
    if tail.is_empty() {
        return String::new();
    }
    let mut s = String::from_str("  Last log lines:\n");
    let v = chars_of(tail);
    let ls = crate::text::lines_of(&v);
    let ghost start = s@;
    let mut i: usize = 0;
    assert(views(ls@).take(0) =~= Seq::<Seq<char>>::empty());
    while i < ls.len()
        invariant
            i <= ls.len(),
            start == "  Last log lines:\n"@,
            s@ == start + indented_lines(views(ls@).take(i as int)),
        decreases ls.len() - i,
    {
        assert(views(ls@).take(i + 1).drop_last() =~= views(ls@).take(i as int));
        assert(views(ls@).take(i + 1).last() == ls@[i as int]@);
        s.append("    ");
        let l = string_of(ls[i].as_slice());
        s.append(l.as_str());
        s.append("\n");
        i = i + 1;
    }
    assert(views(ls@).take(ls.len() as int) =~= views(ls@));
    s
}

/// What the port of a setup is doing: ssh listens (its listeners), something
/// else listens, or nothing.
pub open spec fn port_line(port: Seq<char>, ssh_names: Seq<Seq<char>>, other_names: Seq<Seq<char>>) -> Seq<char> {
    if ssh_names.len() > 0 {
        "  Port "@ + port + ": ssh listening ("@ + crate::text::join_words(ssh_names, ", "@) + ")\n"@
    } else if other_names.len() > 0 {
        "  Port "@ + port + ": in use by "@ + crate::text::join_words(other_names, ", "@) + " (not ssh)\n"@
    } else {
        "  Port "@ + port + ": not listening\n"@
    }
}

/// The status report of a setup: its forward, its supervisor (with the log's
/// last lines when ssh is not listening, or the last error when it is not
/// running) and its port.
pub open spec fn status_spec(
    c: ConfigView,
    supervisor_pid: int,
    supervisor_alive: bool,
    log_path: Seq<char>,
    tail8: Seq<char>,
    stored_err: Seq<char>,
    tail5: Seq<char>,
    ssh_names: Seq<Seq<char>>,
    other_names: Seq<Seq<char>>,
) -> Seq<char> {
    let comment = crate::config::collapse_ws_spec(c.comment);
    let head = "Tunnel: "@ + c.name + "\n"@ + (if comment.len() > 0 {
        "  Comment: "@ + comment + "\n"@
    } else {
        Seq::empty()
    }) + "  Forward: "@ + forward_summary_spec(c) + "\n"@;
    let sup = if supervisor_alive {
        "  Supervisor: running (PID "@ + int_text(supervisor_pid) + ")\n"@ + "  Logs: "@ + log_path + "\n"@
            + (if ssh_names.len() == 0 {
            log_block(tail8)
        } else {
            Seq::empty()
        })
    } else {
        "  Supervisor: not running\n"@ + (if stored_err.len() > 0 {
            "  Last error: "@ + stored_err + "\n"@
        } else {
            Seq::empty()
        }) + log_block(tail5)
    };
    trim(head + sup + port_line(c.local_port, ssh_names, other_names))
}

fn join_strings(v: &Vec<String>, sep: &str) -> (r: String)
    ensures
        r@ == crate::text::join_words(string_views(v@), sep@),
{
    let cs = crate::text::string_chars(v);
    let sv = chars_of(sep);
    let j = crate::text::join_chars(&cs, &sv);
    string_of(j.as_slice())
}

/// The status report of setup `c`, from its supervisor PID and whether it is
/// alive, the log path, the log's last 8 and 5 lines, the stored error and the
/// listeners of its port (ssh ones and others, as `name (pid)`).
pub fn status_tunnel(
    c: &Config,
    supervisor_pid: i32,
    supervisor_alive: bool,
    log_path: &str,
    tail8: &str,
    stored_err: &str,
    tail5: &str,
    ssh_names: &Vec<String>,
    other_names: &Vec<String>,
) -> (r: String)
    ensures
        r@ == status_spec(
            c@,
            supervisor_pid as int,
            supervisor_alive,
            log_path@,
            tail8@,
            stored_err@,
            tail5@,
            string_views(ssh_names@),
            string_views(other_names@),
        ),
{
    let mut b = String::from_str("Tunnel: ");
    b.append(c.name.as_str());
    b.append("\n");
    let comment = c.comment_line();
    if !comment.as_str().is_empty() {
        b.append("  Comment: ");
        b.append(comment.as_str());
        b.append("\n");
    }
    b.append("  Forward: ");
    let f = c.forward_summary();
    b.append(f.as_str());
    b.append("\n");
    let ghost head = b@;
    assert(head =~= "Tunnel: "@ + c@.name + "\n"@ + (if comment@.len() > 0 {
        "  Comment: "@ + comment@ + "\n"@
    } else {
        Seq::empty()
    }) + "  Forward: "@ + forward_summary_spec(c@) + "\n"@);
    let mut sup = String::new();
    if supervisor_alive {
        sup.append("  Supervisor: running (PID ");
        let p = crate::num::i32_string(supervisor_pid);
        sup.append(p.as_str());
        sup.append(")\n");
        sup.append("  Logs: ");
        sup.append(log_path);
        sup.append("\n");
        let ghost s1 = sup@;
        if ssh_names.len() == 0 {
            let blk = log_block_exec(tail8);
            sup.append(blk.as_str());
        }
        assert(sup@ =~= s1 + (if ssh_names.len() == 0 {
            log_block(tail8@)
        } else {
            Seq::empty()
        }));
    } else {
        sup.append("  Supervisor: not running\n");
        if !stored_err.is_empty() {
            sup.append("  Last error: ");
            sup.append(stored_err);
            sup.append("\n");
        }
        let ghost s1 = sup@;
        let blk = log_block_exec(tail5);
        sup.append(blk.as_str());
    }
    let mut pl = String::from_str("  Port ");
    pl.append(c.local_port.as_str());
    if ssh_names.len() > 0 {
        pl.append(": ssh listening (");
        let j = join_strings(ssh_names, ", ");
        pl.append(j.as_str());
        pl.append(")\n");
    } else if other_names.len() > 0 {
        pl.append(": in use by ");
        let j = join_strings(other_names, ", ");
        pl.append(j.as_str());
        pl.append(" (not ssh)\n");
    } else {
        pl.append(": not listening\n");
    }
    assert(pl@ =~= port_line(c@.local_port, string_views(ssh_names@), string_views(other_names@)));
    assert(sup@ =~= (if supervisor_alive {
        "  Supervisor: running (PID "@ + int_text(supervisor_pid as int) + ")\n"@ + "  Logs: "@ + log_path@ + "\n"@
            + (if string_views(ssh_names@).len() == 0 {
            log_block(tail8@)
        } else {
            Seq::empty()
        })
    } else {
        "  Supervisor: not running\n"@ + (if stored_err@.len() > 0 {
            "  Last error: "@ + stored_err@ + "\n"@
        } else {
            Seq::empty()
        }) + log_block(tail5@)
    }));
    b.append(sup.as_str());
    b.append(pl.as_str());
    assert(b@ =~= head + sup@ + pl@);
    let v = trim_str(b.as_str());
    string_of(v.as_slice())
}

/// The status of every saved setup, separated by blank lines, or that there
/// are none.
pub fn status_all(reports: &Vec<String>, config_dir: &str) -> (r: String)
    ensures
        reports.len() == 0 ==> r@ == "No saved tunnels in "@ + config_dir@,
        reports.len() > 0 ==> r@ == crate::text::join_words(string_views(reports@), "\n\n"@),
{
    if reports.len() == 0 {
        let mut s = String::from_str("No saved tunnels in ");
        s.append(config_dir);
        return s;
    }
    join_strings(reports, "\n\n")
}

// ---------------------------------------------------------------------------
// Deleting.
/// What a delete prints: the stop report (when the stop ran and said
/// something) and `Deleted tunnel config NAME`, trimmed.
pub fn delete_message(stop_report: Option<&str>, name: &str) -> (r: String)
    ensures
        r@ == trim(
            (match stop_report {
                Some(t) => if t@.len() > 0 {
                    t@ + "\n"@
                } else {
                    Seq::empty()
                },
                None => Seq::empty(),
            }) + "Deleted tunnel config "@ + debug_quote(name@),
        ),
{
    let mut b = String::new();
    match stop_report {
        Some(t) => {
            if !t.is_empty() {
                b.append(t);
                b.append("\n");
            }
        },
        None => {},
    }
    b.append("Deleted tunnel config ");
    let q = debug_quoted(name);
    b.append(q.as_str());
    let v = trim_str(b.as_str());
    string_of(v.as_slice())
}

// ---------------------------------------------------------------------------
// The command line.
/// A command of the command line.
pub enum CliCommand {
    Start { name: String },
    Stop { name: String },
    Status { which: Option<String> },
    Delete { name: String },
}

/// What the command line `start NAME`, `stop NAME`, `status [NAME]` or
/// `delete NAME` asks for; the errors for a missing command or name and for
/// an unknown command.
pub fn run_cli(args: &Vec<String>) -> (r: Result<CliCommand, TunnelError>)
    ensures
        args.len() == 0 ==> (r matches Err(TunnelError::MissingCommand)),
        args.len() > 0 ==> {
            let cmd = args@[0]@;
            if cmd == "start"@ || cmd == "stop"@ || cmd == "delete"@ {
                if args.len() < 2 {
                    r matches Err(TunnelError::MissingName { command }) && command@ == cmd
                } else if cmd == "start"@ {
                    r matches Ok(CliCommand::Start { name }) && name@ == args@[1]@
                } else if cmd == "stop"@ {
                    r matches Ok(CliCommand::Stop { name }) && name@ == args@[1]@
                } else {
                    r matches Ok(CliCommand::Delete { name }) && name@ == args@[1]@
                }
            } else if cmd == "status"@ {
                if args.len() >= 2 {
                    r matches Ok(CliCommand::Status { which: Some(name) }) && name@ == args@[1]@
                } else {
                    r matches Ok(CliCommand::Status { which: None })
                }
            } else {
                r matches Err(TunnelError::UnknownCommand { command }) && command@ == cmd
            }
        },
{
    if args.len() == 0 {
        return Err(TunnelError::MissingCommand);
    }
    let cmd = args[0].as_str();
    let is_start = crate::text::str_eq(cmd, "start");
    let is_stop = crate::text::str_eq(cmd, "stop");
    let is_delete = crate::text::str_eq(cmd, "delete");
    if is_start || is_stop || is_delete {
        if args.len() < 2 {
            return Err(TunnelError::MissingName { command: args[0].clone() });
        }
        let name = args[1].clone();
        if is_start {
            return Ok(CliCommand::Start { name });
        } else if is_stop {
            return Ok(CliCommand::Stop { name });
        } else {
            return Ok(CliCommand::Delete { name });
        }
    }
    if crate::text::str_eq(cmd, "status") {
        if args.len() >= 2 {
            return Ok(CliCommand::Status { which: Some(args[1].clone()) });
        }
        return Ok(CliCommand::Status { which: None });
    }
    Err(TunnelError::UnknownCommand { command: args[0].clone() })
}

/// Start Menu shortcuts exist only on Windows; elsewhere this is the error.
pub fn install_shortcut() -> (r: Result<String, TunnelError>)
    ensures
        r matches Err(TunnelError::ShortcutUnsupported),
{
    Err(TunnelError::ShortcutUnsupported)
}

proof fn lemma_ssh_candidates_cover(port: Seq<char>, listen: Seq<i32>, procs: Seq<crate::procs::OsProcView>)
    ensures
        forall|i: int|
            0 <= i < procs.len() && forward_match(procs[i], port, listen) ==> ssh_candidates(port, listen, procs).contains(
                #[trigger] procs[i].pid,
            ),
    decreases procs.len(),
{
    if procs.len() > 0 {
        let q = procs.drop_last();
        lemma_ssh_candidates_cover(port, listen, q);
        let r = ssh_candidates(port, listen, q);
        assert forall|i: int|
            0 <= i < procs.len() && forward_match(procs[i], port, listen) implies ssh_candidates(
            port,
            listen,
            procs,
        ).contains(#[trigger] procs[i].pid) by {
            if i < q.len() {
                assert(q[i] == procs[i]);
                let k = choose|k: int| 0 <= k < r.len() && r[k] == q[i].pid;
                if forward_match(procs.last(), port, listen) {
                    assert(r.push(procs.last().pid)[k] == procs[i].pid);
                }
            } else {
                assert(r.push(procs.last().pid)[r.len() as int] == procs[i].pid);
            }
        }
    }
}

proof fn lemma_supervising_cover(cmdlines: Seq<(i32, String)>, name: Seq<char>, dest: Seq<char>)
    ensures
        forall|j: int|
            0 <= j < cmdlines.len() && crate::detect::supervises_spec(cmdlines[j].1@, name, dest)
                ==> supervising_cmdlines(cmdlines, name, dest).contains(#[trigger] cmdlines[j].0),
    decreases cmdlines.len(),
{
    if cmdlines.len() > 0 {
        let q = cmdlines.drop_last();
        lemma_supervising_cover(q, name, dest);
        let r = supervising_cmdlines(q, name, dest);
        assert forall|j: int|
            0 <= j < cmdlines.len() && crate::detect::supervises_spec(cmdlines[j].1@, name, dest)
                implies supervising_cmdlines(cmdlines, name, dest).contains(#[trigger] cmdlines[j].0) by {
            if j < q.len() {
                assert(q[j] == cmdlines[j]);
                let k = choose|k: int| 0 <= k < r.len() && r[k] == q[j].0;
                if crate::detect::supervises_spec(cmdlines.last().1@, name, dest) {
                    assert(r.push(cmdlines.last().0)[k] == cmdlines[j].0);
                }
            } else {
                assert(r.push(cmdlines.last().0)[r.len() as int] == cmdlines[j].0);
            }
        }
    }
}

/// A stop ends every ssh process that forwards the setup's port (or listens
/// on it) and every process whose command line supervises the setup; it ends
/// each process once, and only positive PIDs.
pub proof fn lemma_kill_plan_covers(
    c: ConfigView,
    listen: Seq<i32>,
    procs: Seq<crate::procs::OsProcView>,
    images: Seq<(i32, String)>,
    cmdlines: Seq<(i32, String)>,
)
    ensures
        ({
            let plan = kill_plan_spec(c, listen, procs, images, cmdlines);
            &&& forall|i: int|
                0 <= i < procs.len() && procs[i].pid > 0 && forward_match(procs[i], c.local_port, listen)
                    ==> plan.contains(#[trigger] procs[i].pid)
            &&& forall|j: int|
                0 <= j < cmdlines.len() && cmdlines[j].0 > 0 && crate::detect::supervises_spec(
                    cmdlines[j].1@,
                    c.name,
                    via_spec(c),
                ) ==> plan.contains(#[trigger] cmdlines[j].0)
            &&& forall|i: int| 0 <= i < plan.len() ==> #[trigger] plan[i] > 0
            &&& forall|i: int, j: int| 0 <= i < j < plan.len() ==> plan[i] != plan[j]
        }),
{
    let dest = via_spec(c);
    let a = parent_candidates(c.name, dest, c.local_port, listen, procs, images);
    let b = supervising_cmdlines(cmdlines, c.name, dest);
    let sc = ssh_candidates(c.local_port, listen, procs);
    let m = managed_listeners(listen, images);
    let all = a + b + sc + m;
    crate::procs::lemma_uniq_positive_props(all);
    lemma_ssh_candidates_cover(c.local_port, listen, procs);
    lemma_supervising_cover(cmdlines, c.name, dest);
    let plan = kill_plan_spec(c, listen, procs, images, cmdlines);
    assert(plan == crate::procs::uniq_positive(all));
    assert forall|i: int|
        0 <= i < procs.len() && procs[i].pid > 0 && forward_match(procs[i], c.local_port, listen) implies plan.contains(
        #[trigger] procs[i].pid,
    ) by {
        let k = choose|k: int| 0 <= k < sc.len() && sc[k] == procs[i].pid;
        let abs = a + b + sc;
        assert(abs[a.len() + b.len() + k] == procs[i].pid);
        assert(all[a.len() + b.len() + k] == procs[i].pid);
        assert(all.contains(procs[i].pid));
    }
    assert forall|j: int|
        0 <= j < cmdlines.len() && cmdlines[j].0 > 0 && crate::detect::supervises_spec(cmdlines[j].1@, c.name, dest)
            implies plan.contains(#[trigger] cmdlines[j].0) by {
        let k = choose|k: int| 0 <= k < b.len() && b[k] == cmdlines[j].0;
        let ab = a + b;
        assert(ab[a.len() + k] == cmdlines[j].0);
        let abs = ab + sc;
        assert(abs[a.len() + k] == cmdlines[j].0);
        assert(all[a.len() + k] == cmdlines[j].0);
        assert(all.contains(cmdlines[j].0));
    }
}

} // verus!
