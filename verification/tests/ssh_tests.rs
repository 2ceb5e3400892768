use tunnel_ui::config::Config;
use tunnel_ui::ssh::{choose_ssh, fatal_ssh_message, is_fatal_ssh_line, path_ssh_candidates};

#[test]
fn ssh_args_alias() {
    let c = Config {
        auth_mode: "alias".into(),
        ssh_target: "asus-test-root".into(),
        local_port: "3306".into(),
        remote_host: "127.0.0.1".into(),
        remote_port: "3306".into(),
        ..Config::default()
    };
    let got = c.ssh_args().join(" ");
    for p in ["-N", "-L 3306:127.0.0.1:3306", "-- asus-test-root"] {
        assert!(got.contains(p), "missing {p:?} in {got}");
    }
}

#[test]
fn ssh_args_key() {
    let c = Config {
        auth_mode: "explicit".into(),
        remote_user: "root".into(),
        ssh_host: "example.com".into(),
        local_port: "6150".into(),
        remote_host: "127.0.0.1".into(),
        remote_port: "6150".into(),
        ssh_key: r"C:\Users\x\.ssh\id_ed25519".into(),
        ..Config::default()
    };
    let args = c.ssh_args();
    let joined = args.join(" ");
    assert!(joined.contains("-i"));
    assert!(joined.contains(r"C:\Users\x\.ssh\id_ed25519"));
    assert!(joined.contains("root@example.com"));
}

#[test]
fn ssh_args_exact_list() {
    let c = Config {
        ssh_target: "box".into(),
        local_port: "1".into(),
        remote_host: "h".into(),
        remote_port: "2".into(),
        ..Config::default()
    };
    assert_eq!(
        c.ssh_args(),
        vec![
            "-N", "-L", "1:h:2", "-o", "ExitOnForwardFailure=yes", "-o", "ServerAliveInterval=30", "-o",
            "ServerAliveCountMax=3", "-o", "TCPKeepAlive=yes", "-o", "ConnectTimeout=15", "--", "box",
        ]
    );
}

#[test]
fn fatal_ssh_catches_host_key_and_auth() {
    assert_eq!(
        fatal_ssh_message("Host key verification failed.\n"),
        Some("Host key verification failed.".into())
    );
    assert!(fatal_ssh_message(
        "@@@@@@@@@@@@@@@@@@@@@@@@@@@@@@@@@@@@@@@@@@@@@@@@@@@@@@@@@@@\n\
         @    WARNING: REMOTE HOST IDENTIFICATION HAS CHANGED!     @\n"
    )
    .is_some());
    assert!(fatal_ssh_message("Permission denied (publickey).\n").is_some());
    assert!(fatal_ssh_message("ssh: Could not resolve hostname ghost: Name or service not known\n").is_some());
    assert!(fatal_ssh_message(
        "bind [127.0.0.1]:8081: Address already in use\n\
         channel_setup_fwd_listener_tcpip: cannot listen to port: 8081\n\
         Could not request local forwarding.\n"
    )
    .is_some());
}

#[test]
fn fatal_ssh_allows_transient_drops() {
    assert_eq!(fatal_ssh_message("ssh: connect to host x port 22: Connection timed out\n"), None);
    assert_eq!(fatal_ssh_message("ssh: connect to host x port 22: Connection refused\n"), None);
    assert_eq!(fatal_ssh_message("Connection reset by peer\n"), None);
    assert_eq!(fatal_ssh_message("Broken pipe\n"), None);
}

#[test]
fn fatal_identity_file_lines() {
    assert!(is_fatal_ssh_line("Warning: Identity file /k not accessible: No such file or directory."));
    assert!(!is_fatal_ssh_line("identity file loaded"));
    assert_eq!(
        fatal_ssh_message("ok\n  Bad configuration option: foo  \r\nlater: permission denied\n"),
        Some("Bad configuration option: foo".into())
    );
}

#[test]
fn ssh_lookup_order() {
    assert_eq!(path_ssh_candidates("/usr/bin::/bin/"), vec!["/usr/bin/ssh", "/bin/ssh"]);
    assert_eq!(choose_ssh(Some("/opt/ssh"), true, Some("/usr/bin/ssh")).unwrap(), "/opt/ssh");
    assert_eq!(
        choose_ssh(Some("/opt/ssh"), false, Some("/usr/bin/ssh")).err().unwrap().message(),
        "SSH=/opt/ssh not found"
    );
    assert_eq!(choose_ssh(Some(""), false, Some("/usr/bin/ssh")).unwrap(), "/usr/bin/ssh");
    assert_eq!(
        choose_ssh(None, false, None).err().unwrap().message(),
        "ssh not found (install OpenSSH and put ssh on PATH, or set SSH)"
    );
}
