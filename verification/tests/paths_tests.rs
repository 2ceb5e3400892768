use tunnel_ui::paths::{
    basename, err_file_text, err_text, format_stamp, join, last_failure_line, log_line, parse_pid_text,
    pid_file_text, resolve_app_root, tail_text, Paths,
};

#[test]
fn tunnel_home_wins() {
    let root = resolve_app_root(Some("/tmp/th"), Some("/usr/bin"), Some("/home/x"), Some("/home/x"));
    assert_eq!(root, "/tmp/th");
}

#[test]
fn cargo_target_dir_uses_cwd() {
    let root = resolve_app_root(
        None,
        Some("/home/x/tunnel-ui-rust/target/debug"),
        Some("/home/x/tunnel-ui-rust"),
        Some("/home/x"),
    );
    assert_eq!(root, "/home/x/tunnel-ui-rust");
}

#[test]
fn installed_binary_uses_dot_tunnel_ui() {
    let root = resolve_app_root(None, Some("/usr/local/bin"), Some("/tmp"), Some("/home/x"));
    assert_eq!(root, "/home/x/.tunnel-ui");
}

#[test]
fn pid_file_strips_cr() {
    assert_eq!(parse_pid_text("1234\r\n"), 1234);
    assert_eq!(parse_pid_text("nope\n"), 0);
}

#[test]
fn last_failure_line_skips_supervisor_noise() {
    let log = "[2026-08-28T18:44:12+0700] Supervisor started (PID 1, name=x, target=h, reconnect=true)\n\
         [2026-08-28T18:44:12+0700] Starting SSH tunnel: localhost:8081 -> 8081 via h\n\
         Host key verification failed.\n\
         [2026-08-28T18:44:12+0700] SSH process exited (code 255)\n\
         [2026-08-28T18:44:12+0700] reconnecting in 3s\n";
    assert_eq!(last_failure_line(log), "Host key verification failed.");
    let log2 = "Host key verification failed.\n\
         [2026-08-28T19:00:00+0700] Fatal SSH error (not reconnecting): Host key verification failed.\n";
    assert_eq!(last_failure_line(log2), "Host key verification failed.");
}

#[test]
fn setup_paths_layout() {
    let p = Paths::from_root("/r");
    assert_eq!(p.config_dir, "/r/configs");
    assert_eq!(p.state_dir, "/r/.state");
    let sp = p.setup("db");
    assert_eq!(sp.pid_file, "/r/.state/db/tunnel.pid");
    assert_eq!(sp.child_file, "/r/.state/db/tunnel.child.pid");
    assert_eq!(sp.log_file, "/r/.state/db/tunnel.log");
    assert_eq!(p.config_file("db"), "/r/configs/db.conf");
    assert!(p.saved_config_exists("db", true));
    assert!(!p.saved_config_exists("../db", true));
}

#[test]
fn small_text_formats() {
    assert_eq!(pid_file_text(42), "42\n");
    assert_eq!(log_line("t", "m"), "[t] m\n");
    assert_eq!(err_text("  boom \n"), "boom");
    assert_eq!(tail_text("a\nb\nc\n", 2), "b\nc");
    assert_eq!(basename("/usr/bin/ssh"), "ssh");
    assert_eq!(join("/a/", "b"), "/a/b");
    assert_eq!(format_stamp(126, 7, 28, 18, 4, 2, 7 * 3600), "2026-08-28T18:04:02+0700");
    assert_eq!(format_stamp(126, 0, 1, 0, 0, 0, -(5 * 3600 + 30 * 60)), "2026-01-01T00:00:00-0530");
}

#[test]
fn pid_file_reads_back_what_was_written() {
    for pid in [1, 42, 4242, 2147483647, 0, -7, -2147483648] {
        assert_eq!(parse_pid_text(&pid_file_text(pid)), pid);
    }
}

#[test]
fn err_file_reads_back_trimmed_message() {
    assert_eq!(err_file_text("  boom \n"), "boom\n");
    assert_eq!(err_text(&err_file_text("  boom \n")), "boom");
    assert_eq!(err_text(&err_file_text("")), "");
    assert_eq!(err_text(&err_file_text("a b")), "a b");
}
