use tunnel_ui::config::{
    apply_defaults, conf_quote, configs_from_files, default_ssh_key, edit_menu_keys, expand_ssh_key,
    load_named_config, parse_config_text, sanitize_name, save_config, unquote_bash, Config, ConfFile,
};

#[test]
fn sanitize_ok_and_bad() {
    sanitize_name("asus-test-root-3306").unwrap();
    assert!(sanitize_name("../etc").is_err());
    assert!(sanitize_name("").is_err());
    assert!(sanitize_name("-leading").is_err());
}

#[test]
fn quote_round_trip() {
    let raw = "don't";
    assert_eq!(unquote_bash(&conf_quote(raw)), raw);
    let comment = "videoscan MySQL";
    assert_eq!(unquote_bash(&conf_quote(comment)), comment);
    assert_eq!(conf_quote(""), "''");
    assert_eq!(conf_quote("asus-test-root"), "asus-test-root");
}

#[test]
fn load_comment_quoted() {
    let text = "NAME=x\nCOMMENT='videoscan MySQL'\nSSH_TARGET=alias\nLOCAL_PORT=3306\n";
    let mut c = parse_config_text(text);
    apply_defaults(&mut c, "/home/x");
    assert_eq!(c.comment_line(), "videoscan MySQL");
}

#[test]
fn defaults_explicit_and_alias() {
    let mut c = Config {
        remote_user: "root".into(),
        ssh_host: "h".into(),
        ..Config::default()
    };
    apply_defaults(&mut c, "/home/x");
    assert_eq!(c.auth_mode, "explicit");
    assert_eq!(c.ssh_target, "root@h");
    assert_eq!(c.local_port, "3306");
    assert!(
        c.ssh_key.ends_with("/.ssh/identity-rsa"),
        "ssh_key {}",
        c.ssh_key
    );

    let mut a = Config {
        auth_mode: "alias".into(),
        ssh_target: "alias".into(),
        remote_user: "keep".into(),
        ssh_host: "no".into(),
        ..Config::default()
    };
    apply_defaults(&mut a, "/home/x");
    assert_eq!(a.auth_mode, "alias");
    assert!(a.remote_user.is_empty());
    assert!(a.ssh_host.is_empty());
    assert!(a.ssh_key.is_empty());
}

#[test]
fn save_reload_round_trip() {
    let c = Config {
        name: "asus-test-root-3306".into(),
        comment: "videoscan - DLNA server with duplicate search/delete.".into(),
        auth_mode: "alias".into(),
        ssh_target: "asus-test-root".into(),
        local_port: "3306".into(),
        remote_host: "127.0.0.1".into(),
        remote_port: "3306".into(),
        reconnect: "1".into(),
        reconnect_delay: "3".into(),
        ..Config::default()
    };
    let saved = save_config("/tmp/cfg", c.clone(), "/home/x", "2026-01-01T00:00:00+0000").unwrap();
    assert_eq!(saved.path, "/tmp/cfg/asus-test-root-3306.conf");
    let files = vec![ConfFile {
        file_name: "asus-test-root-3306.conf".into(),
        is_dir: false,
        text: Some(saved.body.clone()),
    }];
    let loaded_all = configs_from_files(&files, "/home/x");
    let loaded = load_named_config(&loaded_all, "asus-test-root-3306", "/tmp/cfg").unwrap();
    assert_eq!(loaded.comment_line(), c.comment);
    assert_eq!(loaded.ssh_target, "asus-test-root");
    assert_eq!(loaded.auth_mode, "alias");
    assert!(loaded.remote_user.is_empty());
    assert!(saved.body.contains("Generated by tunnel-ui"));
    assert!(saved.body.contains("REMOTE_USER=''"));
}

#[test]
fn edit_menu_keys_alias_and_explicit() {
    let mut alias = Config {
        auth_mode: "alias".into(),
        ssh_target: "host".into(),
        ..Config::default()
    };
    apply_defaults(&mut alias, "/home/x");
    let got = edit_menu_keys(&alias, true).join(",");
    assert!(got.contains("comment,auth,target,"));
    assert!(got.ends_with(",save,cancel"));
    assert!(!got.contains("name,"));

    let mut explicit = Config {
        auth_mode: "explicit".into(),
        remote_user: "root".into(),
        ssh_host: "h".into(),
        ..Config::default()
    };
    apply_defaults(&mut explicit, "/home/x");
    let got = edit_menu_keys(&explicit, false).join(",");
    assert!(got.contains("name,comment,auth,user,host,key,"));
    assert!(!got.contains("target"));
}

#[test]
fn expand_home_ssh_key() {
    let home = "/home/x";
    let got = default_ssh_key(home);
    assert!(got.ends_with("/.ssh/identity-rsa"), "{got}");
    assert_eq!(expand_ssh_key("${HOME}/.ssh/identity-rsa", home), got);
    assert_eq!(expand_ssh_key(&format!("{home}/.ssh/identity-rsa"), home), got);
    assert_eq!(expand_ssh_key("~/.ssh/identity-rsa", home), got);
}

#[test]
fn default_key_without_home_uses_tilde() {
    assert_eq!(default_ssh_key(""), "~/.ssh/identity-rsa");
    assert_eq!(default_ssh_key("/home/y///"), "/home/y/.ssh/identity-rsa");
}

#[test]
fn defaults_twice_change_nothing() {
    let mut c = Config {
        remote_user: "root".into(),
        ssh_host: "h".into(),
        comment: "  two   words ".into(),
        ..Config::default()
    };
    apply_defaults(&mut c, "/home/x");
    let once = c.clone();
    apply_defaults(&mut c, "/home/x");
    assert_eq!(c, once);
}

#[test]
fn quote_round_trip_with_newline_free_specials() {
    for raw in ["a b", "it's \"x\"", "$HOME", "back\\slash", "tab\there"] {
        assert_eq!(unquote_bash(&conf_quote(raw)), raw);
    }
}

#[test]
fn save_rejects_bad_setups() {
    let bad_name = Config { name: "../x".into(), ssh_target: "h".into(), ..Config::default() };
    let e = save_config("/c", bad_name, "/home/x", "t").err().unwrap();
    assert!(e.message().starts_with("invalid tunnel name"));
    let no_alias = Config { name: "ok".into(), auth_mode: "alias".into(), ..Config::default() };
    let e = save_config("/c", no_alias, "/home/x", "t").err().unwrap();
    assert_eq!(e.message(), "alias setup needs an SSH config alias");
    let no_host = Config { name: "ok".into(), auth_mode: "explicit".into(), remote_user: "u".into(), ..Config::default() };
    let e = save_config("/c", no_host, "/home/x", "t").err().unwrap();
    assert_eq!(e.message(), "explicit setup needs user and host");
}

#[test]
fn missing_setup_names_config_dir() {
    let e = load_named_config(&Vec::new(), "nope", "/cfg").err().unwrap();
    assert_eq!(e.message(), "no saved tunnel named \"nope\" (configs: /cfg)");
}

#[test]
fn configs_come_sorted_by_name() {
    let files = vec![
        ConfFile { file_name: "b.conf".into(), is_dir: false, text: Some("SSH_TARGET=x\n".into()) },
        ConfFile { file_name: "a.conf".into(), is_dir: false, text: Some("SSH_TARGET=y\n".into()) },
        ConfFile { file_name: "notes.txt".into(), is_dir: false, text: Some("x".into()) },
    ];
    let cs = configs_from_files(&files, "/home/x");
    let names: Vec<String> = cs.iter().map(|c| c.name.clone()).collect();
    assert_eq!(names, vec!["a".to_string(), "b".to_string()]);
}

#[test]
fn saved_setup_loads_back_exactly() {
    let c = Config {
        name: "db-1".into(),
        comment: "  main   database ".into(),
        remote_user: "me".into(),
        ssh_host: "box.example".into(),
        local_port: "15432".into(),
        remote_port: "5432".into(),
        ..Config::default()
    };
    let saved = save_config("/tmp/cfg", c, "/home/x", "2026-01-01T00:00:00+0000").unwrap();
    assert_eq!(saved.config.auth_mode, "explicit");
    assert_eq!(saved.config.comment, "main database");
    let files = vec![ConfFile { file_name: "db-1.conf".into(), is_dir: false, text: Some(saved.body.clone()) }];
    assert_eq!(configs_from_files(&files, "/home/x"), vec![saved.config.clone()]);
}
