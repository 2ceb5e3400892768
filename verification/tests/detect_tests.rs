use tunnel_ui::detect::{
    classify_ssh, cmd_forwards_port, cmdline_supervises, detect_others, extra_listen_ports,
    is_editor_process_name, is_under, last_ssh_host, listen_pids_for, local_forward_ports,
    dynamic_forward_ports, split_command_line, summarize_detected, top_editor_ancestor,
    unique_caps,
};
use tunnel_ui::config::Config;
use tunnel_ui::procs::{ListenPort, OsProc};

#[test]
fn last_ssh_host_cursor_style() {
    let cmd = r"C:\Windows\System32\OpenSSH\ssh.exe -T -D 6490 -o RemoteCommand=none -F C:\Users\x\.ssh\config asus-test-root";
    assert_eq!(last_ssh_host(cmd), "asus-test-root");
}

#[test]
fn local_forward_no_space() {
    let cmd = r"ssh.exe -N -L6150:127.0.0.1:6150 asus-cctv-mogens";
    let ports = local_forward_ports(cmd);
    assert_eq!(ports, vec!["6150"]);
}

#[test]
fn classify_remote_ssh() {
    let cmd = "ssh -T -D 55822 -o ConnectTimeout=60 myhost";
    let (kind, label) = classify_ssh(cmd, "cursor.exe", &vec![], &vec!["55822".into()]);
    assert_eq!(kind, "remote-ssh");
    assert!(!label.is_empty());
    assert!(label.contains("55822"));
}

#[test]
fn cmd_forwards_port_local_only() {
    assert!(cmd_forwards_port("ssh -N -L 3306:127.0.0.1:3306 host", "3306"));
    assert!(cmd_forwards_port("ssh.exe -N -L3306:127.0.0.1:3306 host", "3306"));
    assert!(!cmd_forwards_port("ssh -N -L 3307:127.0.0.1:3306 host", "3306"));
}

#[test]
fn cmdline_supervises_legacy() {
    let cmd = r"C:\Apps\Dev\Git\usr\bin\bash.exe /c/TEMP/GitHub/videoscan/scripts/mysql-tunnel.sh _supervisor asus-test-root";
    assert!(cmdline_supervises(cmd, "asus-test-root-3306", "asus-test-root"));
    let cmd2 = r"bash /c/TEMP/GitHub/tunnel/tunnel.sh _supervisor asus-cctv-6150";
    assert!(cmdline_supervises(cmd2, "asus-cctv-6150", "asus-cctv-mogens"));
    assert!(!cmdline_supervises(cmd2, "asus-test-root-3306", "asus-test-root"));
}

#[test]
fn editor_process_names() {
    assert!(is_editor_process_name("Cursor.exe"));
    assert!(is_editor_process_name(r"C:\Users\x\AppData\Local\Programs\cursor\Cursor.exe"));
    assert!(is_editor_process_name("Cursor Helper (Plugin).exe"));
    assert!(is_editor_process_name("Code.exe"));
    assert!(is_editor_process_name("Code - Insiders.exe"));
    assert!(is_editor_process_name("Code Helper (GPU).exe"));
    assert!(!is_editor_process_name("ssh.exe"));
    assert!(!is_editor_process_name("chrome.exe"));
}

fn tree_rows() -> Vec<(i32, i32, String)> {
    vec![
        (10, 1, "Cursor.exe".into()),
        (11, 10, "Cursor.exe".into()),
        (12, 11, "ssh.exe".into()),
        (20, 1, "Cursor.exe".into()),
        (21, 20, "ssh.exe".into()),
    ]
}

#[test]
fn editor_tree_picks_cursor_instance() {
    let rows = tree_rows();
    assert_eq!(top_editor_ancestor(11, &rows), Some(10));
    assert!(is_under(11, 10, &rows));
    assert!(!is_under(20, 10, &rows));
    assert_eq!(top_editor_ancestor(20, &rows), Some(20));
}

#[test]
fn classify_keeps_remote_ssh_when_local_forward_present() {
    let (kind, label) = classify_ssh(
        "ssh -T -D 6490 host",
        "cursor.exe",
        &vec!["5173".into()],
        &vec!["6490".into()],
    );
    assert_eq!(kind, "remote-ssh");
    assert!(label.contains("6490"));
    let detail = summarize_detected("ssh -T -D 6490 host", &vec!["5173".into()], &vec!["6490".into()]);
    assert!(detail.contains("5173"), "{detail}");
    assert!(detail.contains("6490"), "{detail}");
}

fn lp(port: &str) -> ListenPort {
    ListenPort { port: port.into(), loopback: true }
}

#[test]
fn extra_listen_includes_cursor_5173_not_other_instance() {
    let rows: Vec<(i32, i32, String)> = vec![
        (10, 1, "Cursor.exe".into()),
        (11, 10, "Cursor.exe".into()),
        (12, 11, "ssh.exe".into()),
        (20, 1, "Cursor.exe".into()),
    ];
    let socks = vec![(12, vec![lp("6490")]), (11, vec![lp("5173")]), (20, vec![lp("3000")])];
    let extra = extra_listen_ports(12, 11, &vec!["6490".into()], &rows, &socks);
    assert_eq!(extra, vec!["5173".to_string()]);
}

#[test]
fn unique_caps_drops_empty_and_repeats() {
    let caps = vec![Some("1".to_string()), None, Some(String::new()), Some("2".into()), Some("1".into())];
    assert_eq!(unique_caps(&caps), vec!["1".to_string(), "2".to_string()]);
}

#[test]
fn dynamic_forwards_need_a_separate_word() {
    assert_eq!(dynamic_forward_ports("ssh -D 1080 -D1081 h"), vec!["1080", "1081"]);
    assert!(dynamic_forward_ports("ssh x-D 1080 h").is_empty());
}

#[test]
fn split_command_line_quotes() {
    assert_eq!(
        split_command_line("ssh  -o 'A B' \"C\tD\" e"),
        vec!["ssh", "-o", "A B", "C\tD", "e"]
    );
    assert!(split_command_line("   ").is_empty());
}

#[test]
fn last_ssh_host_after_double_dash_and_options() {
    assert_eq!(last_ssh_host("ssh -N -L 1:h:1 -- target extra"), "target");
    assert_eq!(last_ssh_host("ssh -i key -p 22 host"), "host");
    assert_eq!(last_ssh_host("ssh"), "");
}

#[test]
fn classify_vs_code_and_forward() {
    let (k, l) = classify_ssh("ssh -D 9 h", "Code.exe", &vec![], &vec!["9".into()]);
    assert_eq!(k, "remote-ssh");
    assert_eq!(l, "VS Code Remote-SSH h (socks :9)");
    let (k, l) = classify_ssh("ssh -L 1:a:1 -L 2:b:2 h", "bash", &vec!["1".into(), "2".into()], &vec![]);
    assert_eq!(k, "forward");
    assert_eq!(l, "other forward localhost:1,2");
    let (k, l) = classify_ssh("ssh h", "bash", &vec![], &vec![]);
    assert!(k.is_empty() && l.is_empty());
}

#[test]
fn summary_cuts_long_commands_at_117_bytes() {
    let cmd = "x".repeat(130);
    let s = summarize_detected(&cmd, &vec![], &vec![]);
    assert_eq!(s, format!("{}...", "x".repeat(117)));
    assert_eq!(summarize_detected("short", &vec![], &vec![]), "short");
    assert_eq!(
        summarize_detected("ssh -L 1:h:1 box", &vec!["1".into()], &vec![]),
        "-L :1  box"
    );
}

#[test]
fn detection_reports_each_pid_once_and_skips_ours() {
    let procs = vec![
        OsProc { pid: 5, ppid: 1, name: "ssh".into(), parent: "bash".into(), cmd: "ssh -N -L 8080:h:80 box".into() },
        OsProc { pid: 5, ppid: 1, name: "ssh".into(), parent: "bash".into(), cmd: "ssh -N -L 8080:h:80 box".into() },
        OsProc { pid: 6, ppid: 1, name: "ssh".into(), parent: "bash".into(), cmd: "ssh -N -L 9090:h:80 box".into() },
        OsProc { pid: 7, ppid: 1, name: "ssh".into(), parent: "bash".into(), cmd: "ssh -N -L 3306:h:3306 box".into() },
    ];
    let known = vec![Config { name: "db".into(), local_port: "3306".into(), ..Config::default() }];
    let rows: Vec<(i32, i32, String)> = vec![(1, 0, "init".into())];
    let found = detect_others(&vec![6], &known, &procs, &rows, &vec![]);
    assert_eq!(found.len(), 1);
    assert_eq!(found[0].pid, 5);
    assert_eq!(found[0].kind, "forward");
    assert_eq!(found[0].label, "other forward localhost:8080");
    assert_eq!(found[0].detail, "-L :8080  box");
    assert_eq!(found[0].local_ports, vec!["8080"]);
}

#[test]
fn listen_pids_cover_ssh_and_its_editor() {
    let rows = tree_rows();
    let procs = vec![OsProc { pid: 12, ppid: 11, name: "ssh.exe".into(), parent: "Cursor.exe".into(), cmd: "ssh -D 1 h".into() }];
    assert_eq!(listen_pids_for(&procs, &rows), vec![10, 11, 12]);
}
