use tunnel_ui::cli::{main_command, usage, version_line, MainCommand};
use tunnel_ui::config::{blank_setup, Config};
use tunnel_ui::detect::DetectedTunnel;
use tunnel_ui::prune::{prune_action, stale_removals, PruneAction};
use tunnel_ui::ui::forms::{
    action_items, apply_field, backspace_at_cursor, char_byte_index, delete_at_cursor,
    edit_menu_items, field_current, field_hint, field_title, insert_at_cursor, render_with_cursor,
};
use tunnel_ui::ui::list::{ensure_visible, index_at_y, offset_of, shown_lines, total_height, Row};
use tunnel_ui::ui::screen::{App, Key, KeyCode, Screen, SetupState, UiAction};

fn key(code: KeyCode) -> Key {
    Key { code, ctrl: false, alt: false, meta: false, release: false }
}

fn known(name: &str, comment: &str, listening: bool, failed: bool) -> Row {
    Row::Known {
        config: Config {
            name: name.into(),
            comment: comment.into(),
            ssh_target: "box".into(),
            local_port: "1".into(),
            remote_host: "h".into(),
            remote_port: "2".into(),
            ..Config::default()
        },
        listening,
        failed,
    }
}

fn detected(pid: i32) -> DetectedTunnel {
    DetectedTunnel {
        pid,
        kind: "forward".into(),
        label: "other forward localhost:9".into(),
        detail: "-L :9  box".into(),
        command: "ssh -L 9:h:9 box".into(),
        local_ports: vec!["9".into()],
    }
}

#[test]
fn version_matches_cargo_toml() {
    let line = version_line("0.1.0");
    assert!(line.starts_with("tunnel-ui "));
    assert!(line.contains("0.1.0"));
    assert!(usage("0.1.0").starts_with("tunnel-ui 0.1.0 \u{2014} SSH local-forward TUI\n\nUsage:\n"));
}

#[test]
fn main_modes() {
    assert!(matches!(main_command(&vec![]), MainCommand::Ui));
    assert!(matches!(main_command(&vec!["--supervisor".into()]), MainCommand::SupervisorUsage));
    assert!(matches!(main_command(&vec!["--supervisor".into(), "db".into()]), MainCommand::Supervisor { name } if name == "db"));
    assert!(matches!(main_command(&vec!["-h".into()]), MainCommand::Help));
    assert!(matches!(main_command(&vec!["version".into()]), MainCommand::Version));
    assert!(matches!(main_command(&vec!["status".into()]), MainCommand::Tunnel));
    assert!(matches!(main_command(&vec!["zap".into()]), MainCommand::Unknown { command } if command == "zap"));
}

#[test]
fn edit_menu_labels() {
    let c = blank_setup();
    let items = edit_menu_items(&c, false);
    let keys: Vec<&str> = items.iter().map(|i| i.key.as_str()).collect();
    assert_eq!(
        keys,
        vec!["name", "comment", "auth", "target", "local", "rhost", "rport", "reconnect", "delay", "save", "cancel"]
    );
    assert_eq!(items[0].label, "Name               \u{2014}");
    assert_eq!(items[2].label, "Setup type         SSH config alias");
    assert_eq!(items[4].label, "Local port         3306");
    assert_eq!(items[7].label, "Auto-reconnect     Yes");
    assert_eq!(action_items().len(), 6);
    assert_eq!(field_title("key"), "SSH private key path");
    assert_eq!(field_title("zzz"), "Edit setting");
    assert_eq!(field_hint("rhost"), "As seen from the SSH host");
    assert_eq!(field_hint("local"), "");
}

#[test]
fn apply_field_rules() {
    let mut c = blank_setup();
    assert_eq!(apply_field(&mut c, "name", "  ", "/home/x"), Err("name is required".to_string()));
    assert!(apply_field(&mut c, "name", "../x", "/home/x").unwrap_err().starts_with("invalid tunnel name"));
    assert_eq!(apply_field(&mut c, "name", " db ", "/home/x"), Ok(()));
    assert_eq!(c.name, "db");
    assert_eq!(apply_field(&mut c, "auth", "explicit", "/home/x"), Ok(()));
    assert_eq!(c.auth_mode, "explicit");
    assert_eq!(c.ssh_key, "/home/x/.ssh/identity-rsa");
    assert_eq!(apply_field(&mut c, "key", "~/k", "/home/x"), Ok(()));
    assert_eq!(c.ssh_key, "/home/x/k");
    assert_eq!(apply_field(&mut c, "reconnect", "no", "/home/x"), Ok(()));
    assert_eq!(c.reconnect, "1");
    assert_eq!(apply_field(&mut c, "reconnect", "0", "/home/x"), Ok(()));
    assert_eq!(c.reconnect, "0");
    assert_eq!(apply_field(&mut c, "local", "", "/home/x"), Err("local port is required".to_string()));
    assert_eq!(c.local_port, "3306");
    assert_eq!(field_current(&c, "key", "/home/x"), "/home/x/k");
    assert_eq!(field_current(&blank_setup(), "key", "/home/y"), "/home/y/.ssh/identity-rsa");
    assert_eq!(field_current(&c, "unknown", "/home/x"), "");
}

#[test]
fn text_field_editing() {
    let mut s = String::from("héllo");
    let mut cur = 1usize;
    insert_at_cursor(&mut s, &mut cur, 'X');
    assert_eq!((s.as_str(), cur), ("hXéllo", 2));
    backspace_at_cursor(&mut s, &mut cur);
    assert_eq!((s.as_str(), cur), ("héllo", 1));
    delete_at_cursor(&mut s, &mut cur);
    assert_eq!((s.as_str(), cur), ("hllo", 1));
    let mut far = 99usize;
    insert_at_cursor(&mut s, &mut far, '!');
    assert_eq!((s.as_str(), far), ("hllo!", 100));
    let mut zero = 0usize;
    backspace_at_cursor(&mut s, &mut zero);
    assert_eq!((s.as_str(), zero), ("hllo!", 0));
    assert_eq!(render_with_cursor("ab", 1), "a\u{2588}b");
    assert_eq!(char_byte_index("héllo", 2), 3);
    assert_eq!(char_byte_index("héllo", 50), 6);
}

#[test]
fn rows_text_and_filter() {
    let r = known("db", "main  db", false, true);
    assert_eq!(r.key(), "k:db");
    assert_eq!(r.height(), 3);
    assert_eq!(r.title(), "[err]  db");
    assert_eq!(
        r.lines(),
        vec!["[err]  db", "main db", "localhost:1 -> h:2 via box  \u{2014} ssh not listening"]
    );
    assert!(r.matches("  DB  main "));
    assert!(!r.matches("db other"));
    assert!(r.matches(""));
    let d = Row::Detected(detected(77));
    assert_eq!(d.key(), "d:77");
    assert_eq!(d.height(), 2);
    assert_eq!(d.haystack(), "other forward localhost:9 -L :9  box ssh -L 9:h:9 box");
}

#[test]
fn scrolling_keeps_selection_visible() {
    let rows = vec![known("a", "", true, false), known("b", "c", false, false), known("c", "", false, false)];
    assert_eq!(total_height(&rows), 7);
    assert_eq!(offset_of(&rows, 2), 5);
    let mut scroll = 0u16;
    ensure_visible(&rows, 2, 4, &mut scroll);
    assert_eq!(scroll, 3);
    ensure_visible(&rows, 0, 4, &mut scroll);
    assert_eq!(scroll, 0);
    ensure_visible(&vec![], 0, 4, &mut scroll);
    assert_eq!(scroll, 0);
    assert_eq!(index_at_y(&rows, 0, 1), Some(0));
    assert_eq!(index_at_y(&rows, 1, 1), Some(1));
    assert_eq!(index_at_y(&rows, 3, 3), Some(2));
    assert_eq!(index_at_y(&rows, 4, 3), None);
}

fn setup(name: &str, on: bool, listening: bool, has_error: bool, hint: &str) -> SetupState {
    SetupState {
        config: Config { name: name.into(), ssh_target: "box".into(), ..Config::default() },
        on,
        listening,
        has_error,
        hint: hint.into(),
    }
}

#[test]
fn refresh_status_and_selection() {
    let mut app = App::new("/home/x");
    assert_eq!(app.status, "loading setups\u{2026}");
    app.apply_refresh(
        vec![setup("a", true, true, false, ""), setup("b", true, false, false, ""), setup("c", false, false, true, "boom")],
        vec![detected(9)],
    );
    assert_eq!(app.rows.len(), 4);
    assert_eq!(app.status, "3 known   1 other   b: ssh not listening (+1 more)");
    app.selected = 1;
    app.apply_refresh(vec![setup("b", false, false, false, ""), setup("a", true, true, false, "")], vec![]);
    assert_eq!(app.selected, 0);
    assert_eq!(app.status, "2 known   0 other");
}

#[test]
fn list_keys_and_filter() {
    let mut app = App::new("/home/x");
    app.apply_refresh(vec![setup("alpha", false, false, false, ""), setup("beta", false, false, false, "")], vec![detected(9)]);
    assert!(matches!(app.handle_key(key(KeyCode::Down)), UiAction::Nothing));
    assert_eq!(app.selected, 1);
    app.handle_key(key(KeyCode::Char('/')));
    assert!(app.filter_editing);
    for c in "alp".chars() {
        app.handle_key(key(KeyCode::Char(c)));
    }
    assert_eq!(app.filter, "alp");
    assert_eq!(app.visible_rows(), vec![0]);
    assert_eq!(app.selected, 0);
    app.handle_key(key(KeyCode::Backspace));
    assert_eq!(app.filter, "al");
    app.handle_key(key(KeyCode::Enter));
    assert!(!app.filter_editing);
    assert_eq!(app.chrome("0.1.0").1, "2 known   1 other   /al");
    app.handle_key(key(KeyCode::Enter));
    assert!(app.screen == Screen::Actions);
    assert_eq!(app.active_name, "alpha");
    match app.handle_key(key(KeyCode::Enter)) {
        UiAction::Run { cmd, name } => assert_eq!((cmd.as_str(), name.as_str()), ("start", "alpha")),
        _ => panic!("expected a run"),
    }
    assert!(matches!(app.after_run("start", Ok(String::new())), UiAction::Refresh));
    assert!(app.screen == Screen::List);
    app.handle_key(Key { code: KeyCode::Char('c'), ctrl: true, alt: false, meta: false, release: false });
    assert!(app.quit);
}

#[test]
fn editor_flow() {
    let mut app = App::new("/home/x");
    app.handle_key(key(KeyCode::Char('n')));
    assert!(app.screen == Screen::EditMenu);
    assert_eq!(app.chrome("v").0, "New setup");
    app.handle_key(key(KeyCode::Enter));
    assert!(app.screen == Screen::Field);
    for c in "db".chars() {
        app.handle_key(key(KeyCode::Char(c)));
    }
    app.handle_key(key(KeyCode::Enter));
    assert!(app.screen == Screen::EditMenu);
    assert_eq!(app.edit.name, "db");
    app.handle_key(key(KeyCode::Down));
    app.handle_key(key(KeyCode::Down));
    app.handle_key(key(KeyCode::Enter));
    assert_eq!(app.field_lines().unwrap(), vec!["Setup type", "", "> SSH config alias", "  User, host, and key"]);
    app.handle_key(key(KeyCode::Down));
    app.handle_key(key(KeyCode::Enter));
    assert_eq!(app.edit.auth_mode, "explicit");
    app.edit_idx = 11;
    assert!(matches!(app.handle_key(key(KeyCode::Enter)), UiAction::Save));
    app.after_save(Ok(()));
    assert!(app.screen == Screen::Confirm);
    assert_eq!(app.confirm_prompt, "Start tunnel 'db'?");
    match app.handle_key(key(KeyCode::Enter)) {
        UiAction::Run { cmd, name } => assert_eq!((cmd.as_str(), name.as_str()), ("start", "db")),
        _ => panic!("expected a run"),
    }
    app.after_run("status", Err("boom".into()));
    assert!(app.screen == Screen::Result);
    assert_eq!(app.result_text(), "boom\n\nPress any key to return.");
    assert!(matches!(app.handle_key(key(KeyCode::Esc)), UiAction::Refresh));
    assert!(app.screen == Screen::List);
}

#[test]
fn prune_choices() {
    assert!(prune_action(".gitignore", false, false) == PruneAction::Keep);
    assert!(prune_action("stray.txt", false, false) == PruneAction::RemoveFile);
    assert!(prune_action("definitely-invalid-ssh-host-39999", true, false) == PruneAction::Reap);
    assert!(prune_action("-bad", true, true) == PruneAction::Reap);
    assert!(prune_action("asus-keep-3306", true, true) == PruneAction::DropStale);
    assert_eq!(stale_removals(false, true), (true, false, false));
    assert_eq!(stale_removals(false, false), (true, true, true));
}

#[test]
fn found_rows_are_inspect_only() {
    let mut app = App::new("/home/x");
    app.apply_refresh(vec![setup("alpha", false, false, false, "")], vec![detected(9)]);
    app.selected = 1;
    assert!(matches!(app.handle_key(key(KeyCode::Enter)), UiAction::Nothing));
    assert!(app.screen == Screen::Inspect);
    assert_eq!(app.inspect.as_ref().map(|d| d.pid), Some(9));
    for code in [KeyCode::Char('s'), KeyCode::Char('d'), KeyCode::Delete, KeyCode::Up] {
        assert!(matches!(app.handle_key(key(code)), UiAction::Nothing));
        assert!(app.screen == Screen::Inspect);
    }
    assert!(matches!(app.handle_key(key(KeyCode::Enter)), UiAction::Nothing));
    assert!(app.screen == Screen::List);
    assert!(app.inspect.is_none());
}

#[test]
fn run_outcomes_pick_the_screen() {
    let mut app = App::new("/home/x");
    for cmd in ["start", "stop", "delete"] {
        app.screen = Screen::Actions;
        assert!(matches!(app.after_run(cmd, Ok("done".into())), UiAction::Refresh));
        assert!(app.screen == Screen::List);
    }
    assert!(matches!(app.after_run("status", Ok("Tunnel: a".into())), UiAction::Nothing));
    assert!(app.screen == Screen::Result);
    assert_eq!(app.result, "Tunnel: a");
    app.screen = Screen::Actions;
    assert!(matches!(app.after_run("stop", Err("ssh still holding port 1".into())), UiAction::Nothing));
    assert!(app.screen == Screen::Result);
    assert_eq!(app.result, "ssh still holding port 1");
}

#[test]
fn esc_cancels_without_saving() {
    let mut app = App::new("/home/x");
    app.handle_key(key(KeyCode::Char('n')));
    app.handle_key(key(KeyCode::Enter));
    assert!(app.screen == Screen::Field);
    app.handle_key(key(KeyCode::Char('x')));
    assert!(matches!(app.handle_key(key(KeyCode::Esc)), UiAction::Nothing));
    assert!(app.screen == Screen::EditMenu);
    assert_eq!(app.edit.name, "");
    assert!(matches!(app.handle_key(key(KeyCode::Esc)), UiAction::Refresh));
    assert!(app.screen == Screen::List);
    assert_eq!(app.edit.name, "");
}

#[test]
fn filter_hides_found_rows() {
    let mut app = App::new("/home/x");
    app.apply_refresh(vec![setup("alpha", false, false, false, ""), setup("beta", false, false, false, "")], vec![detected(9)]);
    assert_eq!(app.visible_rows(), vec![0, 1, 2]);
    app.filter = "other".into();
    assert_eq!(app.visible_rows(), Vec::<usize>::new());
    app.filter = "a".into();
    assert_eq!(app.visible_rows(), vec![0, 1]);
}

#[test]
fn click_lands_on_row_drawn_there() {
    let rows = vec![known("a", "", false, false), known("b", "note", false, false), Row::Detected(detected(9))];
    let total = total_height(&rows);
    assert_eq!(total, 7);
    for line in 0..total {
        let i = index_at_y(&rows, 0, line).unwrap();
        assert!(offset_of(&rows, i) <= line && line < offset_of(&rows, i + 1));
    }
    assert_eq!(index_at_y(&rows, 0, total), None);
    assert_eq!(index_at_y(&rows, 2, 0), Some(1));
}

#[test]
fn saved_setup_cannot_be_renamed() {
    let mut app = App::new("/home/x");
    let cfg = Config { name: "db".into(), ssh_target: "box".into(), ..Config::default() };
    app.open_editor(cfg, false);
    assert!(app.edit_name_locked);
    let keys: Vec<String> = edit_menu_items(&app.edit, app.edit_name_locked).into_iter().map(|i| i.key).collect();
    assert!(!keys.iter().any(|k| k == "name"));
    assert_eq!(keys[0], "comment");
    let mut fresh = App::new("/home/x");
    fresh.open_editor(blank_setup(), true);
    assert!(!fresh.edit_name_locked);
}

#[test]
fn shown_lines_skip_scrolled_lines() {
    let rows = vec![known("a", "", true, false), known("b", "note", false, false), Row::Detected(detected(9))];
    let all = shown_lines(&rows, 1, 0, 100);
    let texts: Vec<&str> = all.iter().map(|l| l.text.as_str()).collect();
    assert_eq!(
        texts,
        vec!["[on]  a", "localhost:1 -> h:2 via box", "[off]  b", "note", "localhost:1 -> h:2 via box", "other forward localhost:9", "-L :9  box"]
    );
    assert_eq!(all.iter().filter(|l| l.selected).count(), 3);
    assert!(all[2].selected && all[2].first && !all[3].first);
    let part = shown_lines(&rows, 1, 3, 2);
    assert_eq!(part.len(), 2);
    assert_eq!(part[0].text, "note");
    assert!(part[0].selected && !part[0].first);
    assert_eq!(part[1].text, "localhost:1 -> h:2 via box");
    assert!(shown_lines(&rows, 0, 50, 5).is_empty());
    assert!(shown_lines(&rows, 0, 0, 0).is_empty());
}

#[test]
fn refresh_keeps_selected_row() {
    let mut app = App::new("/home/x");
    app.apply_refresh(vec![setup("a", false, false, false, ""), setup("b", false, false, false, "")], vec![detected(9)]);
    app.selected = 1;
    app.apply_refresh(
        vec![setup("c", false, false, false, ""), setup("a", false, false, false, ""), setup("b", true, true, false, "")],
        vec![detected(9)],
    );
    assert_eq!(app.selected, 2);
    assert_eq!(app.rows[app.visible_rows()[app.selected]].key(), "k:b");
    app.selected = 3;
    app.apply_refresh(vec![setup("a", false, false, false, "")], vec![detected(9)]);
    assert_eq!(app.rows[app.visible_rows()[app.selected]].key(), "d:9");
}

#[test]
fn backspace_undoes_insert_everywhere() {
    let s = String::from("aé€𝄞b");
    for k in 0..=s.chars().count() {
        for c in ['x', 'ß', '中', '😀'] {
            let (mut t, mut kk) = (s.clone(), k);
            insert_at_cursor(&mut t, &mut kk, c);
            backspace_at_cursor(&mut t, &mut kk);
            assert_eq!((t.as_str(), kk), (s.as_str(), k));
        }
    }
}

#[test]
fn field_editor_keeps_cursor_and_setup() {
    let mut app = App::new("/home/x");
    app.handle_key(key(KeyCode::Char('n')));
    let idx = edit_menu_items(&app.edit, app.edit_name_locked).iter().position(|i| i.key == "name").unwrap();
    app.edit_idx = idx;
    app.handle_key(key(KeyCode::Enter));
    assert!(app.screen == Screen::Field);
    let before = app.edit.clone();
    for code in [KeyCode::End, KeyCode::Right, KeyCode::Backspace, KeyCode::Delete, KeyCode::Home, KeyCode::Left, KeyCode::Char('-'), KeyCode::Char('b'), KeyCode::Left, KeyCode::Right] {
        app.handle_key(key(code));
        let f = app.field.as_ref().unwrap();
        assert!(f.cursor <= f.input.chars().count());
        assert_eq!(app.edit, before);
    }
    // "-b" is no valid name: the setup and the field stay, with the error.
    app.handle_key(key(KeyCode::Enter));
    assert!(app.screen == Screen::Field);
    assert!(!app.field.as_ref().unwrap().err.is_empty());
    assert_eq!(app.edit, before);
    app.handle_key(key(KeyCode::Esc));
    assert!(app.field.is_none());
    assert!(app.screen == Screen::EditMenu);
    assert_eq!(app.edit, before);
}

#[test]
fn ensure_visible_from_far_scroll() {
    let rows = vec![known("a", "", false, false), known("b", "note", false, false)];
    let mut scroll = u16::MAX;
    ensure_visible(&rows, 1, 10, &mut scroll);
    assert_eq!(scroll, 0);
    let mut scroll = u16::MAX - 1;
    ensure_visible(&rows, 1, 2, &mut scroll);
    assert_eq!(scroll, 2);
}
