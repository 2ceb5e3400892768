use tunnel_ui::config::{load_named_config, Config};
use tunnel_ui::error::TunnelError;
use tunnel_ui::procs::OsProc;
use tunnel_ui::tunnel::{
    after_ssh_exit, child_stop_line, delete_message, failed_exit_message, fatal_from_ssh_run,
    install_shortcut, kill_plan, killed_line, pid_list, remaining_killed_line, run_cli,
    setup_error_hint, setup_listening, setup_on, ssh_output_after_last_start, start_failure_text, start_poll,
    start_verdict, start_when_running, started_message, status_all, status_tunnel, stop_result,
    supervisor_log_line, supervisor_stop_line, CliCommand, StartPoll, StartVerdict, SupervisorStep,
};

#[test]
fn status_missing_name() {
    let err = load_named_config(&Vec::new(), "nope", "/x/configs").err().unwrap().message();
    assert!(err.contains("no saved tunnel"));
}

#[test]
fn ssh_chunk_after_start_marker() {
    let log = "[t] Supervisor started\n[t] Starting SSH tunnel: x\nHost key verification failed.\n";
    assert!(ssh_output_after_last_start(log).contains("Host key verification failed"));
}

#[test]
fn supervisor_stops_on_host_key_failure() {
    let captured = "Host key verification failed.\n";
    let log = "[t] Supervisor started (PID 1, name=hkfail-1, target=h, reconnect=true)\n[t] Starting SSH tunnel: x\n";
    let step = after_ssh_exit(false, captured, log, true, false);
    let msg = match &step {
        SupervisorStep::Fatal { message } => message.clone(),
        _ => panic!("supervisor should stop instead of reconnecting"),
    };
    assert!(msg.to_ascii_lowercase().contains("host key"), "unexpected error: {msg}");
    let line = supervisor_log_line(&step, 255, 30);
    assert!(line.contains("not reconnecting"), "{line}");
    assert!(!line.contains("reconnecting in"), "{line}");
}

#[test]
fn fatal_found_in_log_after_last_start() {
    let log = "[t] Starting SSH tunnel: a\nPermission denied\n[t] Starting SSH tunnel: b\nHost key verification failed.\n";
    assert_eq!(fatal_from_ssh_run("", log), Some("Host key verification failed.".to_string()));
    assert_eq!(fatal_from_ssh_run("", "[t] Starting SSH tunnel: b"), None);
    assert_eq!(ssh_output_after_last_start("no marker"), "");
}

#[test]
fn supervisor_choices() {
    assert!(matches!(after_ssh_exit(true, "Permission denied", "", true, false), SupervisorStep::StopRequested));
    assert!(matches!(after_ssh_exit(false, "Connection reset by peer", "", true, false), SupervisorStep::Reconnect));
    assert!(matches!(after_ssh_exit(false, "", "", false, true), SupervisorStep::Finished));
    assert!(matches!(after_ssh_exit(false, "", "", false, false), SupervisorStep::Failed));
    assert_eq!(
        supervisor_log_line(&SupervisorStep::Reconnect, 255, 3),
        "Tunnel exited (255); reconnecting in 3s"
    );
    assert_eq!(
        supervisor_log_line(&SupervisorStep::StopRequested, -1, 3),
        "Stop requested after tunnel exit (-1); exiting supervisor"
    );
    assert_eq!(supervisor_log_line(&SupervisorStep::Failed, 1, 3), "Tunnel exited (1); reconnect disabled");
    assert_eq!(failed_exit_message("", 255), "ssh exited 255");
    assert_eq!(failed_exit_message("bad", 255), "bad");
}

#[test]
fn error_hint_prefers_stored_error() {
    assert_eq!(setup_error_hint("stored", "Permission denied\n"), "stored");
    assert_eq!(setup_error_hint("", "Permission denied\n[t] Tunnel exited (255); reconnect disabled\n"), "Permission denied");
    assert!(setup_on(false, true, true, false));
    assert!(!setup_on(false, true, false, false));
}

#[test]
fn start_messages_and_decisions() {
    assert_eq!(start_when_running("db", 7, true, false, "3306", "").unwrap(), "Tunnel \"db\" already running (PID 7)");
    match start_when_running("db", 7, false, false, "3306", "tail") {
        Err(TunnelError::Message { text }) => {
            assert_eq!(text, "Tunnel \"db\" supervisor is running (PID 7) but ssh is not listening on port 3306.\ntail")
        }
        _ => panic!("expected an error"),
    }
    assert!(start_poll(0, true, true) == StartPoll::Started);
    assert!(start_poll(3, false, false) == StartPoll::Stopped);
    assert!(start_poll(3, false, true) == StartPoll::Wait);
    assert!(start_poll(10, true, true) == StartPoll::Stopped);
    assert!(start_verdict(false, true, true) == StartVerdict::Started);
    assert!(start_verdict(false, false, true) == StartVerdict::Failed { remove_pid_file: true });
    assert!(start_verdict(false, true, false) == StartVerdict::Failed { remove_pid_file: false });
    assert_eq!(
        started_message("db", "localhost:1 -> h:2 via x", 9, "/l"),
        "Starting tunnel \"db\": localhost:1 -> h:2 via x\nTunnel \"db\" started (PID 9). Logs: /l"
    );
    assert_eq!(
        start_failure_text("db", "3306", "", "t"),
        "failed to start tunnel \"db\"; ssh is not listening on port 3306.\nt"
    );
    assert_eq!(start_failure_text("db", "3306", "why", "t"), "failed to start tunnel \"db\": why\nt");
}

#[test]
fn stop_lines() {
    assert_eq!(supervisor_stop_line(5, true, true, "").0, "Stopping tunnel supervisor (PID 5)\n");
    assert_eq!(supervisor_stop_line(5, true, false, "/usr/bin/vim").0, "Ignoring stale supervisor PID 5 (vim)\n");
    assert_eq!(supervisor_stop_line(5, false, false, "").0, "Tunnel supervisor not running; cleaning up PID file\n");
    assert_eq!(supervisor_stop_line(0, false, false, "").0, "No supervisor PID file; checking for leftover ssh forward\n");
    assert_eq!(child_stop_line(6, true, true), ("Stopping tunnel ssh (PID 6)\n".to_string(), true));
    assert_eq!(child_stop_line(6, true, false), (String::new(), false));
    assert_eq!(pid_list(&vec![1, 22]), "[1, 22]");
    assert_eq!(killed_line("3306", &vec![1]), "Stopped ssh/supervisor PIDs on port 3306: [1]\n");
    assert_eq!(killed_line("3306", &vec![]), "");
    assert_eq!(remaining_killed_line(&vec![4, 5]), "Stopped remaining ssh PIDs: [4, 5]\n");
    assert_eq!(stop_result("a\n", false, "1").unwrap(), "a\nTunnel stopped");
    assert_eq!(stop_result("a\n", true, "1").err().unwrap().message(), "ssh still holding port 1");
}

#[test]
fn kill_plan_orders_supervisors_first() {
    let c = Config { name: "db".into(), ssh_target: "box".into(), local_port: "3306".into(), ..Config::default() };
    let procs = vec![
        OsProc { pid: 11, ppid: 10, name: "ssh".into(), parent: "bash".into(), cmd: "ssh -N -L 3306:h:3306 box".into() },
        OsProc { pid: 21, ppid: 20, name: "ssh".into(), parent: "init".into(), cmd: "ssh -N -L 9:h:9 other".into() },
    ];
    let images = vec![(30, "/usr/bin/ssh".to_string()), (31, "/usr/sbin/mysqld".to_string())];
    let cmdlines = vec![(40, "tunnel-ui --supervisor db".to_string()), (41, "bash x _supervisor db".to_string())];
    let plan = kill_plan(&c, &vec![30, 31], &procs, &images, &cmdlines);
    assert_eq!(plan, vec![10, 41, 11, 30]);
}

#[test]
fn status_report_texts() {
    let c = Config {
        name: "db".into(),
        comment: "main  db".into(),
        ssh_target: "box".into(),
        local_port: "3306".into(),
        remote_host: "127.0.0.1".into(),
        remote_port: "3306".into(),
        ..Config::default()
    };
    let s = status_tunnel(&c, 7, true, "/l/tunnel.log", "a\nb\n", "", "", &vec![], &vec![]);
    assert_eq!(
        s,
        "Tunnel: db\n  Comment: main db\n  Forward: localhost:3306 -> 127.0.0.1:3306 via box\n  Supervisor: running (PID 7)\n  Logs: /l/tunnel.log\n  Last log lines:\n    a\n    b\n  Port 3306: not listening"
    );
    let s = status_tunnel(&c, 0, false, "/l", "", "boom", "", &vec!["ssh (9)".into()], &vec![]);
    assert!(s.ends_with("  Supervisor: not running\n  Last error: boom\n  Port 3306: ssh listening (ssh (9))"), "{s}");
    let s = status_tunnel(&c, 0, false, "/l", "", "", "", &vec![], &vec!["nginx (3)".into()]);
    assert!(s.ends_with("Port 3306: in use by nginx (3) (not ssh)"), "{s}");
    assert_eq!(status_all(&vec![], "/c"), "No saved tunnels in /c");
    assert_eq!(status_all(&vec!["a".into(), "b".into()], "/c"), "a\n\nb");
}

#[test]
fn delete_and_cli() {
    assert_eq!(delete_message(Some("Tunnel stopped"), "db"), "Tunnel stopped\nDeleted tunnel config \"db\"");
    assert_eq!(delete_message(None, "db"), "Deleted tunnel config \"db\"");
    assert!(matches!(run_cli(&vec![]), Err(TunnelError::MissingCommand)));
    assert_eq!(run_cli(&vec!["stop".into()]).err().unwrap().message(), "stop requires a name");
    assert!(matches!(run_cli(&vec!["start".into(), "db".into()]), Ok(CliCommand::Start { name }) if name == "db"));
    assert!(matches!(run_cli(&vec!["status".into()]), Ok(CliCommand::Status { which: None })));
    assert_eq!(run_cli(&vec!["frob".into()]).err().unwrap().message(), "unknown command \"frob\"");
    assert_eq!(install_shortcut().err().unwrap().message(), "Start Menu shortcuts are only supported on Windows");
}

#[test]
fn setup_listens_only_when_ssh_holds_port() {
    assert!(setup_listening(&vec!["nginx".to_string(), "ssh".to_string()]));
    assert!(!setup_listening(&vec!["nginx".to_string()]));
    assert!(!setup_listening(&vec![]));
}
