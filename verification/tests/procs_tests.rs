use tunnel_ui::procs::{
    cmdline_from_raw, image_from_link, is_managed_process, is_ssh_process, is_supervisor_name,
    listen_ports_for_pids, listeners_from_sockets, parse_netstat_listen_table, parse_netstat_tlnp,
    list_numeric_pids, listen_port, parse_proc_net_listen, parse_proc_net_listen_ext, ppid_of, parse_ss_lntp, parse_stat_ppid,
    pids_for_socket_inodes, pids_listening_on, port_listeners_named, ppid_from_proc,
    socket_inode_exec, ssh_holding_port, ssh_holding_port_live, unix_ssh_procs, ProcInfo,
};

const SAMPLE_TCP: &str = "\
  sl  local_address rem_address   st tx_queue rx_queue tr tm->when retrnsmt   uid  timeout inode
   0: 0100007F:0CEA 00000000:0000 0A 00000000:00000000 00:00000000 00000000     0        0 12345 1 0000000000000000 100 0 0 10 0
   1: 00000000:0050 00000000:0000 0A 00000000:00000000 00:00000000 00000000     0        0 99 1 0000000000000000 100 0 0 10 0
   2: 0100007F:0CEA 0100007F:C001 01 00000000:00000000 00:00000000 00000000     0        0 77 1 0000000000000000 100 0 0 10 0
";

#[test]
fn proc_parse_stat_ppid_with_spaces_in_comm() {
    let stat = "1234 (some name) S 1 1234 1234 0 0 0 0 0 0 0 0 0 0 0 0 0 0 0 0 0";
    assert_eq!(parse_stat_ppid(stat), 1);
}

#[test]
fn unix_parse_stat_ppid_with_spaces_in_comm() {
    let stat = "1234 (some name) S 1 1234 1234 0 0 0 0 0 0 0 0 0 0 0 0 0 0 0 0 0";
    assert_eq!(parse_stat_ppid(stat), 1);
}

#[test]
fn proc_ss_and_netstat_parsers() {
    let ss = r#"LISTEN 0 128 127.0.0.1:3306 0.0.0.0:* users:(("ssh",pid=4242,fd=3))"#;
    assert_eq!(parse_ss_lntp(ss, "3306"), vec![4242]);
    let ns = "tcp 0 0 127.0.0.1:3306 0.0.0.0:* LISTEN 4242/ssh";
    assert_eq!(parse_netstat_tlnp(ns, "3306"), vec![4242]);
}

#[test]
fn parse_ss_and_netstat_parsers() {
    let ss = r#"LISTEN 0 128 127.0.0.1:3306 0.0.0.0:* users:(("ssh",pid=4242,fd=3))"#;
    assert_eq!(parse_ss_lntp(ss, "3306"), vec![4242]);
    let ns = "tcp 0 0 127.0.0.1:3306 0.0.0.0:* LISTEN 4242/ssh";
    assert_eq!(parse_netstat_tlnp(ns, "3306"), vec![4242]);
    let win = "TCP    127.0.0.1:3306    0.0.0.0:0    LISTENING    4242";
    assert_eq!(parse_netstat_tlnp(win, "3306"), vec![4242]);
    let table = parse_netstat_listen_table(
        "TCP    127.0.0.1:5173    0.0.0.0:0    LISTENING    88\n\
         TCP    [::1]:5173         [::]:0        LISTENING    88\n\
         TCP    0.0.0.0:445        0.0.0.0:0    LISTENING    4\n",
    );
    assert!(table.contains(&("5173".into(), 88)), "got {table:?}");
    assert!(table.contains(&("445".into(), 4)));
}

#[test]
fn proc_parse_listen_hex_ports() {
    let rows = parse_proc_net_listen(SAMPLE_TCP);
    assert!(rows.contains(&(3306, 12345)), "got {rows:?}");
    assert!(rows.contains(&(80, 99)));
    assert!(!rows.iter().any(|(p, i)| *p == 3306 && *i == 77));
}

#[test]
fn parse_parse_listen_hex_ports() {
    let rows = parse_proc_net_listen(SAMPLE_TCP);
    assert!(rows.contains(&(3306, 12345)), "got {rows:?}");
    assert!(rows.contains(&(80, 99)));
    assert!(!rows.iter().any(|(p, i)| *p == 3306 && *i == 77));
    let ext = parse_proc_net_listen_ext(SAMPLE_TCP);
    assert!(ext.iter().any(|(p, i, lb)| *p == 3306 && *i == 12345 && *lb));
    assert!(ext.iter().any(|(p, _, lb)| *p == 80 && !*lb));
}

#[test]
fn proc_supervisor_name_matches_test_binary() {
    assert!(is_supervisor_name("tunnel-ui"));
    assert!(is_supervisor_name("/tmp/tunnel_ui-abc123"));
    assert!(is_supervisor_name("bash"));
    assert!(!is_supervisor_name("mysqld"));
}

#[test]
fn mod_supervisor_name_matches_test_binary() {
    assert!(is_supervisor_name("tunnel-ui"));
    assert!(is_supervisor_name("/tmp/tunnel_ui-abc123"));
    assert!(is_supervisor_name("bash"));
    assert!(is_supervisor_name("tunnel-ui.exe"));
    assert!(!is_supervisor_name("mysqld"));
}

#[test]
fn ssh_images_ignore_case_and_exe() {
    assert!(is_ssh_process("/usr/bin/ssh"));
    assert!(is_ssh_process("SSH.EXE"));
    assert!(!is_ssh_process("/usr/bin/sshd"));
    assert!(is_managed_process("/bin/bash"));
    assert!(!is_managed_process("/usr/sbin/mysqld"));
}

#[test]
fn ss_parser_dedups_and_needs_listen() {
    let text = "LISTEN 0 1 *:80 *:* users:((\"a\",pid=7,fd=1),(\"b\",pid=7,fd=2),(\"c\",pid=9,fd=3))\n\
                ESTAB 0 1 *:80 *:* users:((\"d\",pid=11,fd=1))\n\
                listen 0 1 *:8080 *:* users:((\"e\",pid=12,fd=1))\n";
    assert_eq!(parse_ss_lntp(text, "80"), vec![7, 9, 12]);
}

#[test]
fn netstat_parser_dot_ports_and_tokens() {
    let text = "tcp4 0 0 127.0.0.1.5432 *.* LISTEN 0\n\
                tcp 0 0 0.0.0.0:22 0.0.0.0:* LISTEN 81/sshd\n\
                tcp 0 0 0.0.0.0:22 0.0.0.0:* LISTEN 81/sshd\n\
                LISTEN x\n";
    assert!(parse_netstat_tlnp(text, "5432").is_empty());
    assert_eq!(parse_netstat_tlnp(text, "22"), vec![81]);
}

#[test]
fn socket_links_and_owners() {
    assert_eq!(socket_inode_exec("socket:[12345]"), Some(12345));
    assert_eq!(socket_inode_exec("pipe:[1]"), None);
    assert_eq!(socket_inode_exec("socket:[]"), None);
    let links = vec![
        (30, "socket:[5]".to_string()),
        (10, "socket:[7]".to_string()),
        (20, "/dev/null".to_string()),
        (10, "socket:[5]".to_string()),
    ];
    assert_eq!(pids_for_socket_inodes(&vec![5, 7], &links), vec![10, 30]);
    assert!(pids_for_socket_inodes(&vec![], &links).is_empty());
}

#[test]
fn pids_listening_prefers_sockets_then_ss_then_netstat() {
    let links = vec![(4242, "socket:[12345]".to_string())];
    let tcp = vec![SAMPLE_TCP.to_string()];
    assert_eq!(pids_listening_on(" 3306 ", &tcp, &links, None, None), vec![4242]);
    assert!(pids_listening_on("0", &tcp, &links, None, None).is_empty());
    assert!(pids_listening_on("x", &tcp, &links, None, None).is_empty());
    let ss = r#"LISTEN 0 128 127.0.0.1:3306 0.0.0.0:* users:(("ssh",pid=77,fd=3))"#;
    assert_eq!(pids_listening_on("3306", &tcp, &vec![], Some(ss), None), vec![77]);
    let ns = "tcp 0 0 127.0.0.1:3306 0.0.0.0:* LISTEN 88/ssh";
    assert_eq!(pids_listening_on("3306", &tcp, &vec![], Some(""), Some(ns)), vec![88]);
}

#[test]
fn listen_ports_grouped_by_pid() {
    let listeners = vec![
        ("80".to_string(), 5, false),
        ("80".to_string(), 5, true),
        ("81".to_string(), 6, true),
        ("82".to_string(), 5, true),
    ];
    let g = listen_ports_for_pids(&vec![5, 6, -1], &listeners, &vec![]);
    assert_eq!(g.len(), 2);
    assert_eq!(g[0].0, 5);
    let ports: Vec<(String, bool)> = g[0].1.iter().map(|l| (l.port.clone(), l.loopback)).collect();
    assert_eq!(ports, vec![("80".to_string(), false), ("82".to_string(), true)]);
    let fallback = listen_ports_for_pids(&vec![9], &listeners, &vec![("443".to_string(), 9)]);
    assert_eq!(fallback.len(), 1);
    assert!(fallback[0].1[0].loopback);
}

#[test]
fn linux_listener_table_from_sockets() {
    let rows = vec![(3306u16, 12345u64, true), (80, 99, false)];
    let links = vec![(1, "socket:[99]".to_string()), (2, "socket:[12345]".to_string())];
    assert_eq!(
        listeners_from_sockets(&rows, &links),
        vec![("3306".to_string(), 2, true), ("80".to_string(), 1, false)]
    );
}

#[test]
fn port_listener_names() {
    let (ssh, other) = port_listeners_named(&vec![(5, "/usr/bin/ssh".into()), (6, "".into()), (7, "/usr/sbin/mysqld".into())]);
    assert_eq!(ssh, vec!["ssh (5)"]);
    assert_eq!(other, vec!["? (6)", "mysqld (7)"]);
    assert!(ssh_holding_port(&vec!["/usr/bin/ssh".into()]));
    assert!(!ssh_holding_port(&vec!["/bin/bash".into()]));
    assert!(ssh_holding_port_live(&vec!["/bin/bash".into()]));
}

#[test]
fn proc_texts() {
    assert_eq!(image_from_link("/usr/bin/ssh (deleted)"), "/usr/bin/ssh");
    assert_eq!(cmdline_from_raw("ssh\0-N\0\0host\0"), "ssh -N host");
    assert_eq!(ppid_from_proc(5, Some("Name:\tx\nPPid:\t 42 \n"), ""), 42);
    assert_eq!(ppid_from_proc(5, Some("Name:\tx\n"), "5 (x) S 7 1"), 7);
    assert_eq!(ppid_from_proc(5, None, "garbage"), 0);
    assert_eq!(ppid_from_proc(0, Some("PPid: 3\n"), ""), 0);
}

#[test]
fn ssh_procs_from_table() {
    let infos = vec![
        ProcInfo { pid: 1, ppid: 0, name: "bash".into(), image: "/bin/bash".into(), cmd: "bash".into() },
        ProcInfo { pid: 2, ppid: 1, name: "ssh".into(), image: "/usr/bin/ssh".into(), cmd: "ssh -N h".into() },
        ProcInfo { pid: 3, ppid: 1, name: "sshd".into(), image: "/usr/sbin/sshd".into(), cmd: "".into() },
        ProcInfo { pid: 4, ppid: 9, name: "".into(), image: "/usr/bin/ssh".into(), cmd: "ssh x".into() },
    ];
    let got = unix_ssh_procs(&infos);
    assert_eq!(got.len(), 2);
    assert_eq!((got[0].pid, got[0].parent.as_str(), got[0].name.as_str()), (2, "bash", "ssh"));
    assert_eq!((got[1].pid, got[1].parent.as_str(), got[1].name.as_str()), (4, "", ""));
}

#[test]
fn snapshot_ppid_lookup() {
    let rows = vec![(10, 1, "a".to_string()), (20, 10, "b".to_string()), (20, 99, "c".to_string())];
    assert_eq!(ppid_of(20, &rows), 10);
    assert_eq!(ppid_of(10, &rows), 1);
    assert_eq!(ppid_of(30, &rows), 0);
    assert_eq!(ppid_of(0, &rows), 0);
    assert_eq!(ppid_of(-5, &rows), 0);
}

#[test]
fn snapshot_pids_in_order() {
    let rows = vec![(10, 1, "a".to_string()), (20, 10, "b".to_string()), (5, 1, "c".to_string())];
    assert_eq!(list_numeric_pids(&rows), vec![10, 20, 5]);
    assert!(list_numeric_pids(&vec![]).is_empty());
}

#[test]
fn listen_port_names_ports_only() {
    assert_eq!(listen_port(" 3306 "), Some(3306));
    assert_eq!(listen_port("65535"), Some(65535));
    assert_eq!(listen_port("0"), None);
    assert_eq!(listen_port("65536"), None);
    assert_eq!(listen_port("x"), None);
    assert_eq!(listen_port(""), None);
    assert!(pids_listening_on("0", &vec![], &vec![], Some("LISTEN 0 1 *:0 *:* users:((\"ssh\",pid=5,fd=1))"), None).is_empty());
}
