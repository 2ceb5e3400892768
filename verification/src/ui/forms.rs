//! The edit menu, the action menu and the one-line text field.
use vstd::prelude::*;
use crate::config::{
    alias, collapse_ws_spec, default_ssh_key_spec, defaults_spec, expand_ssh_key_spec, explicit,
    valid_name, with_field, Config, ConfigView,
};
use crate::error::invalid_name_text;
use crate::text::{chars_of, copy_range, string_of, trim, trim_str};

verus! {

/// A line of a menu: the key it stands for and the text shown.
pub struct MenuItem {
    pub key: String,
    pub label: String,
}

pub open spec fn item_views(v: Seq<MenuItem>) -> Seq<(Seq<char>, Seq<char>)> {
    v.map_values(|m: MenuItem| (m.key@, m.label@))
}

/// `s` padded with spaces to `w` characters (`format!("{:<w$}")`).
pub open spec fn pad_right(s: Seq<char>, w: nat) -> Seq<char> {
    if s.len() >= w {
        s
    } else {
        s + Seq::new((w - s.len()) as nat, |i: int| ' ')
    }
}

/// The trimmed value, or an em dash when it is blank.
pub open spec fn dash_spec(s: Seq<char>) -> Seq<char> {
    if trim(s).len() == 0 {
        "\u{2014}"@
    } else {
        trim(s)
    }
}

/// A setting of the edit menu: the label padded to 18 characters, then the value.
pub open spec fn setting_item(key: Seq<char>, label: Seq<char>, value: Seq<char>) -> (Seq<char>, Seq<char>) {
    (key, pad_right(label, 18) + " "@ + dash_spec(value))
}

/// The items of the edit menu for a setup: its settings (the name unless it
/// is locked; user, host and key for an explicit setup, else the alias), then
/// Save and Cancel.
pub open spec fn edit_menu_items_spec(c: ConfigView, name_locked: bool) -> Seq<(Seq<char>, Seq<char>)> {
    let head: Seq<(Seq<char>, Seq<char>)> = if name_locked {
        Seq::empty()
    } else {
        seq![setting_item("name"@, "Name"@, c.name)]
    };
    let common = head + seq![
        setting_item("comment"@, "Comment"@, collapse_ws_spec(c.comment)),
        setting_item(
            "auth"@,
            "Setup type"@,
            if c.auth_mode == explicit() {
                "User, host, and key"@
            } else {
                "SSH config alias"@
            },
        ),
    ];
    let mid: Seq<(Seq<char>, Seq<char>)> = if c.auth_mode == explicit() {
        seq![
            setting_item("user"@, "User"@, c.remote_user),
            setting_item("host"@, "Host"@, c.ssh_host),
            setting_item("key"@, "SSH key"@, c.ssh_key),
        ]
    } else {
        seq![setting_item("target"@, "SSH alias"@, c.ssh_target)]
    };
    common + mid + seq![
        setting_item("local"@, "Local port"@, c.local_port),
        setting_item("rhost"@, "Remote host"@, c.remote_host),
        setting_item("rport"@, "Remote port"@, c.remote_port),
        setting_item(
            "reconnect"@,
            "Auto-reconnect"@,
            if c.reconnect == seq!['0'] {
                "No"@
            } else {
                "Yes"@
            },
        ),
        setting_item("delay"@, "Reconnect delay"@, c.reconnect_delay),
        ("save"@, "Save               write file and return"@),
        ("cancel"@, "Cancel             discard changes"@),
    ]
}

fn pad18(label: &str) -> (r: String)
    ensures
        r@ == pad_right(label@, 18),
{
    let v = chars_of(label);
    let mut out = copy_range(&v, 0, v.len());
    assert(out@ =~= v@);
    let mut n = v.len();
    while n < 18
        invariant
            v.len() <= n <= 18 || (n == v.len() && n >= 18),
            v@ == label@,
            out@ == v@ + Seq::new((n - v.len()) as nat, |i: int| ' '),
        decreases 18 - n,
    {
        out.push(' ');
        assert(out@ =~= v@ + Seq::new((n + 1 - v.len()) as nat, |i: int| ' '));
        n = n + 1;
    }
    assert(v.len() >= 18 ==> out@ =~= v@);
    string_of(out.as_slice())
}

fn setting(key: &str, label: &str, value: &str) -> (r: MenuItem)
    ensures
        (r.key@, r.label@) == setting_item(key@, label@, value@),
{
    let mut l = pad18(label);
    l.append(" ");
    let d = crate::config::dash(value);
    l.append(d.as_str());
    MenuItem { key: String::from_str(key), label: l }
}

/// The items of the edit menu for a setup.
pub fn edit_menu_items(cfg: &Config, name_locked: bool) -> (r: Vec<MenuItem>)
    ensures
        item_views(r@) == edit_menu_items_spec(cfg@, name_locked),
{
    let mut items: Vec<MenuItem> = Vec::new();
    if !name_locked {
        items.push(setting("name", "Name", cfg.name.as_str()));
    }
    let cl = cfg.comment_line();
    items.push(setting("comment", "Comment", cl.as_str()));
    items.push(setting("auth", "Setup type", crate::config::auth_label(cfg.auth_mode.as_str())));
    let explicit_mode = crate::config::is_explicit_mode(&cfg.auth_mode);
    if explicit_mode {
        items.push(setting("user", "User", cfg.remote_user.as_str()));
        items.push(setting("host", "Host", cfg.ssh_host.as_str()));
        items.push(setting("key", "SSH key", cfg.ssh_key.as_str()));
    } else {
        items.push(setting("target", "SSH alias", cfg.ssh_target.as_str()));
    }
    items.push(setting("local", "Local port", cfg.local_port.as_str()));
    items.push(setting("rhost", "Remote host", cfg.remote_host.as_str()));
    items.push(setting("rport", "Remote port", cfg.remote_port.as_str()));
    items.push(setting("reconnect", "Auto-reconnect", crate::config::reconnect_label(cfg.reconnect.as_str())));
    items.push(setting("delay", "Reconnect delay", cfg.reconnect_delay.as_str()));
    items.push(MenuItem {
        key: String::from_str("save"),
        label: String::from_str("Save               write file and return"),
    });
    items.push(MenuItem {
        key: String::from_str("cancel"),
        label: String::from_str("Cancel             discard changes"),
    });
    assert(item_views(items@) =~= edit_menu_items_spec(cfg@, name_locked));
    items
}

/// The actions on a saved setup.
pub open spec fn action_items_spec() -> Seq<(Seq<char>, Seq<char>)> {
    seq![
        ("start"@, "Start"@),
        ("stop"@, "Stop"@),
        ("status"@, "Status"@),
        ("edit"@, "Edit"@),
        ("delete"@, "Delete"@),
        ("back"@, "Back"@),
    ]
}

pub fn action_items() -> (r: Vec<MenuItem>)
    ensures
        item_views(r@) == action_items_spec(),
{
    let mut v: Vec<MenuItem> = Vec::new();
    v.push(MenuItem { key: String::from_str("start"), label: String::from_str("Start") });
    v.push(MenuItem { key: String::from_str("stop"), label: String::from_str("Stop") });
    v.push(MenuItem { key: String::from_str("status"), label: String::from_str("Status") });
    v.push(MenuItem { key: String::from_str("edit"), label: String::from_str("Edit") });
    v.push(MenuItem { key: String::from_str("delete"), label: String::from_str("Delete") });
    v.push(MenuItem { key: String::from_str("back"), label: String::from_str("Back") });
    assert(item_views(v@) =~= action_items_spec());
    v
}

/// The field of a setup that a menu key edits, in file order (12 for none).
pub open spec fn ui_field_index(field: Seq<char>) -> int {
    if field == "name"@ {
        0
    } else if field == "comment"@ {
        1
    } else if field == "auth"@ {
        2
    } else if field == "target"@ {
        3
    } else if field == "user"@ {
        4
    } else if field == "host"@ {
        5
    } else if field == "local"@ {
        6
    } else if field == "rhost"@ {
        7
    } else if field == "rport"@ {
        8
    } else if field == "key"@ {
        9
    } else if field == "reconnect"@ {
        10
    } else if field == "delay"@ {
        11
    } else {
        12
    }
}

fn ui_field_index_exec(field: &str) -> (j: usize)
    ensures
        j as int == ui_field_index(field@),
{
    let names = [
        "name",
        "comment",
        "auth",
        "target",
        "user",
        "host",
        "local",
        "rhost",
        "rport",
        "key",
        "reconnect",
        "delay",
    ];
    let mut j: usize = 0;
    while j < 12
        invariant
            j <= 12,
            crate::config::strs(names@) == seq![
                "name"@,
                "comment"@,
                "auth"@,
                "target"@,
                "user"@,
                "host"@,
                "local"@,
                "rhost"@,
                "rport"@,
                "key"@,
                "reconnect"@,
                "delay"@,
            ],
            forall|k: int| 0 <= k < j ==> field@ != #[trigger] crate::config::strs(names@)[k],
        decreases 12 - j,
    {
        assert(crate::config::strs(names@)[j as int] == names@[j as int]@);
        if crate::text::str_eq(field, names[j]) {
            return j;
        }
        j = j + 1;
    }
    12
}

/// The title of the field editor for the field with index `j`.
pub open spec fn field_title_spec(j: int) -> Seq<char> {
    if j == 0 {
        "Name"@
    } else if j == 1 {
        "Comment"@
    } else if j == 2 {
        "Setup type"@
    } else if j == 3 {
        "SSH config alias"@
    } else if j == 4 {
        "User"@
    } else if j == 5 {
        "Host"@
    } else if j == 9 {
        "SSH private key path"@
    } else if j == 6 {
        "Local port"@
    } else if j == 7 {
        "Remote host"@
    } else if j == 8 {
        "Remote port"@
    } else if j == 10 {
        "Auto-reconnect"@
    } else if j == 11 {
        "Reconnect delay (seconds)"@
    } else {
        "Edit setting"@
    }
}

/// The title of the field editor.
pub fn field_title(field: &str) -> (r: &'static str)
    ensures
        r@ == field_title_spec(ui_field_index(field@)),
{
    let j = ui_field_index_exec(field);
    if j == 0 {
        "Name"
    } else if j == 1 {
        "Comment"
    } else if j == 2 {
        "Setup type"
    } else if j == 3 {
        "SSH config alias"
    } else if j == 4 {
        "User"
    } else if j == 5 {
        "Host"
    } else if j == 9 {
        "SSH private key path"
    } else if j == 6 {
        "Local port"
    } else if j == 7 {
        "Remote host"
    } else if j == 8 {
        "Remote port"
    } else if j == 10 {
        "Auto-reconnect"
    } else if j == 11 {
        "Reconnect delay (seconds)"
    } else {
        "Edit setting"
    }
}

/// The hint under the title of the field editor (empty for most fields).
pub open spec fn field_hint_spec(j: int) -> Seq<char> {
    if j == 0 {
        "Saved as configs/<name>.conf"@
    } else if j == 1 {
        "What this tunnel is for, e.g. videoscan"@
    } else if j == 3 {
        "Host entry from ~/.ssh/config"@
    } else if j == 9 {
        "Default ${HOME}/.ssh/identity-rsa. Arrows move the cursor."@
    } else if j == 7 {
        "As seen from the SSH host"@
    } else {
        ""@
    }
}

pub fn field_hint(field: &str) -> (r: &'static str)
    ensures
        r@ == field_hint_spec(ui_field_index(field@)),
{
    let j = ui_field_index_exec(field);
    if j == 0 {
        "Saved as configs/<name>.conf"
    } else if j == 1 {
        "What this tunnel is for, e.g. videoscan"
    } else if j == 3 {
        "Host entry from ~/.ssh/config"
    } else if j == 9 {
        "Default ${HOME}/.ssh/identity-rsa. Arrows move the cursor."
    } else if j == 7 {
        "As seen from the SSH host"
    } else {
        ""
    }
}

/// A setup after setting `field` to `value` (trimmed), or the error shown
/// for it: required fields may not be blank, a name must be valid, the setup
/// type is `explicit` or `alias` (and brings its defaults), an empty key means
/// the default key, reconnecting is `0` or `1`.
pub open spec fn apply_field_spec(c: ConfigView, field: Seq<char>, value: Seq<char>, home: Seq<char>) -> Result<ConfigView, Seq<char>> {
    let v = trim(value);
    let j = ui_field_index(field);
    if j == 0 {
        if v.len() == 0 {
            Err("name is required"@)
        } else if !valid_name(v) {
            Err(invalid_name_text(v))
        } else {
            Ok(with_field(c, 0, v))
        }
    } else if j == 1 || j == 7 || j == 8 || j == 11 {
        Ok(with_field(c, j, v))
    } else if j == 2 {
        Ok(defaults_spec(with_field(c, 2, if v == explicit() { explicit() } else { alias() }), home))
    } else if j == 3 || j == 4 || j == 5 || j == 6 {
        if v.len() == 0 {
            Err(
                if j == 3 {
                    "alias is required"@
                } else if j == 4 {
                    "user is required"@
                } else if j == 5 {
                    "host is required"@
                } else {
                    "local port is required"@
                },
            )
        } else {
            Ok(with_field(c, j, v))
        }
    } else if j == 9 {
        let k = if v.len() == 0 {
            default_ssh_key_spec(home)
        } else {
            expand_ssh_key_spec(v, home)
        };
        if k.len() == 0 {
            Err("ssh key is required"@)
        } else {
            Ok(with_field(c, 9, k))
        }
    } else if j == 10 {
        Ok(with_field(c, 10, if v == seq!['0'] { seq!['0'] } else { seq!['1'] }))
    } else {
        Ok(c)
    }
}

/// Sets one field of the setup being edited; `home` is the value of `HOME`.
pub fn apply_field(cfg: &mut Config, field: &str, value: &str, home: &str) -> (r: Result<(), String>)
    ensures
        match apply_field_spec(old(cfg)@, field@, value@, home@) {
            Ok(nc) => r is Ok && final(cfg)@ == nc,
            Err(m) => (r matches Err(e) && e@ == m) && final(cfg)@ == old(cfg)@,
        },
{
    proof {
        reveal_strlit("explicit");
        reveal_strlit("0");
    }
    let v = trim_str(value);
    let j = ui_field_index_exec(field);
    if j == 0 {
        if v.len() == 0 {
            return Err(String::from_str("name is required"));
        }
        let vs = string_of(v.as_slice());
        match crate::config::sanitize_name(vs.as_str()) {
            Err(e) => {
                return Err(e.message());
            },
            Ok(()) => {},
        }
        crate::config::set_field(cfg, 0, v);
        return Ok(());
    }
    if j == 1 || j == 7 || j == 8 || j == 11 {
        crate::config::set_field(cfg, j, v);
        return Ok(());
    }
    if j == 2 {
        let vs = string_of(v.as_slice());
        let mode = if crate::text::str_eq(vs.as_str(), "explicit") {
            chars_of("explicit")
        } else {
            chars_of("alias")
        };
        assert("explicit"@ =~= explicit());
        proof {
            reveal_strlit("alias");
        }
        assert("alias"@ =~= alias());
        crate::config::set_field(cfg, 2, mode);
        crate::config::apply_defaults(cfg, home);
        return Ok(());
    }
    if j == 3 || j == 4 || j == 5 || j == 6 {
        if v.len() == 0 {
            if j == 3 {
                return Err(String::from_str("alias is required"));
            } else if j == 4 {
                return Err(String::from_str("user is required"));
            } else if j == 5 {
                return Err(String::from_str("host is required"));
            }
            return Err(String::from_str("local port is required"));
        }
        crate::config::set_field(cfg, j, v);
        return Ok(());
    }
    if j == 9 {
        let k = if v.len() == 0 {
            crate::config::default_ssh_key(home)
        } else {
            let vs = string_of(v.as_slice());
            crate::config::expand_ssh_key(vs.as_str(), home)
        };
        if k.as_str().is_empty() {
            return Err(String::from_str("ssh key is required"));
        }
        let kv = chars_of(k.as_str());
        crate::config::set_field(cfg, 9, kv);
        return Ok(());
    }
    if j == 10 {
        let vs = string_of(v.as_slice());
        let is0 = crate::text::str_eq(vs.as_str(), "0");
        let mut r: Vec<char> = Vec::new();
        if is0 {
            r.push('0');
        } else {
            r.push('1');
        }
        assert("0"@ =~= seq!['0']);
        assert(r@ =~= (if v@ == seq!['0'] {
            seq!['0']
        } else {
            seq!['1']
        }));
        crate::config::set_field(cfg, 10, r);
        return Ok(());
    }
    Ok(())
}

/// The value a field editor starts with: the field's text (the default key
/// when the key is empty), nothing for an unknown field.
pub open spec fn field_current_spec(c: ConfigView, field: Seq<char>, home: Seq<char>) -> Seq<char> {
    let j = ui_field_index(field);
    if j == 0 {
        c.name
    } else if j == 1 {
        c.comment
    } else if j == 2 {
        c.auth_mode
    } else if j == 3 {
        c.ssh_target
    } else if j == 4 {
        c.remote_user
    } else if j == 5 {
        c.ssh_host
    } else if j == 9 {
        if c.ssh_key.len() == 0 {
            default_ssh_key_spec(home)
        } else {
            c.ssh_key
        }
    } else if j == 6 {
        c.local_port
    } else if j == 7 {
        c.remote_host
    } else if j == 8 {
        c.remote_port
    } else if j == 10 {
        c.reconnect
    } else if j == 11 {
        c.reconnect_delay
    } else {
        Seq::empty()
    }
}

pub fn field_current(cfg: &Config, field: &str, home: &str) -> (r: String)
    ensures
        r@ == field_current_spec(cfg@, field@, home@),
{
    let j = ui_field_index_exec(field);
    if j == 0 {
        cfg.name.clone()
    } else if j == 1 {
        cfg.comment.clone()
    } else if j == 2 {
        cfg.auth_mode.clone()
    } else if j == 3 {
        cfg.ssh_target.clone()
    } else if j == 4 {
        cfg.remote_user.clone()
    } else if j == 5 {
        cfg.ssh_host.clone()
    } else if j == 9 {
        if cfg.ssh_key.as_str().is_empty() {
            crate::config::default_ssh_key(home)
        } else {
            cfg.ssh_key.clone()
        }
    } else if j == 6 {
        cfg.local_port.clone()
    } else if j == 7 {
        cfg.remote_host.clone()
    } else if j == 8 {
        cfg.remote_port.clone()
    } else if j == 10 {
        cfg.reconnect.clone()
    } else if j == 11 {
        cfg.reconnect_delay.clone()
    } else {
        String::new()
    }
}

// ---------------------------------------------------------------------------
// The text field: a string and a cursor counted in characters.
/// Where the cursor stands in a text of `len` characters.
pub open spec fn cursor_at(len: nat, cursor: int) -> int {
    if cursor < len {
        cursor
    } else {
        len as int
    }
}

/// The byte offset of character `char_idx` (the length when past the end).
pub fn char_byte_index(s: &str, char_idx: usize) -> (r: usize)
    requires
        crate::detect::utf8_len(s@) <= usize::MAX,
    ensures
        r == crate::detect::utf8_len(s@.take(cursor_at(s@.len(), char_idx as int))),
{
    let v = chars_of(s);
    let k: usize = if char_idx < v.len() {
        char_idx
    } else {
        v.len()
    };
    let mut b: usize = 0;
    let mut i: usize = 0;
    while i < k
        invariant
            i <= k <= v.len(),
            v@ == s@,
            crate::detect::utf8_len(s@) <= usize::MAX,
            b == crate::detect::utf8_len(v@.take(i as int)),
        decreases k - i,
    {
        assert(v@.take(i + 1).drop_last() =~= v@.take(i as int));
        proof {
            if i + 1 < v.len() {
                lemma_utf8_len_prefix(v@, i + 1);
            } else {
                assert(v@.take(i + 1) =~= v@);
            }
        }
        let c = v[i];
        let n: usize = if (c as u32) < 0x80 {
            1
        } else if (c as u32) < 0x800 {
            2
        } else if (c as u32) < 0x10000 {
            3
        } else {
            4
        };
        b = b + n;
        i = i + 1;
    }
    b
}

proof fn lemma_utf8_len_prefix(s: Seq<char>, k: int)
    requires
        0 <= k <= s.len(),
    ensures
        crate::detect::utf8_len(s.take(k)) <= crate::detect::utf8_len(s),
    decreases s.len() - k,
{
    if k < s.len() {
        lemma_utf8_len_prefix(s, k + 1);
        assert(s.take(k + 1).drop_last() =~= s.take(k));
    } else {
        assert(s.take(k) =~= s);
    }
}

/// Typing `c`: it goes in at the cursor, which moves past it.
pub open spec fn insert_spec(s: Seq<char>, cursor: int, c: char) -> (Seq<char>, int) {
    let k = cursor_at(s.len(), cursor);
    (
        s.take(k) + seq![c] + s.skip(k),
        if cursor < usize::MAX {
            cursor + 1
        } else {
            cursor
        },
    )
}

/// Backspace: the character before the cursor goes, and the cursor moves back.
pub open spec fn backspace_spec(s: Seq<char>, cursor: int) -> (Seq<char>, int) {
    if cursor == 0 {
        (s, cursor)
    } else if cursor - 1 < s.len() {
        (s.take(cursor - 1) + s.skip(cursor), cursor - 1)
    } else {
        (s, cursor - 1)
    }
}

/// Delete: the character at the cursor goes.
pub open spec fn delete_spec(s: Seq<char>, cursor: int) -> Seq<char> {
    if cursor < s.len() {
        s.take(cursor) + s.skip(cursor + 1)
    } else {
        s
    }
}

pub fn insert_at_cursor(input: &mut String, cursor: &mut usize, c: char)
    ensures
        (final(input)@, *final(cursor) as int) == insert_spec(old(input)@, *old(cursor) as int, c),
{
    let v = chars_of(input.as_str());
    let k: usize = if *cursor < v.len() {
        *cursor
    } else {
        v.len()
    };
    let mut out = copy_range(&v, 0, k);
    out.push(c);
    let tail = copy_range(&v, k, v.len());
    crate::text::append_chars(&mut out, &tail);
    assert(out@ =~= v@.take(k as int) + seq![c] + v@.skip(k as int));
    *input = string_of(out.as_slice());
    *cursor = cursor.saturating_add(1);
}

pub fn backspace_at_cursor(input: &mut String, cursor: &mut usize)
    ensures
        (final(input)@, *final(cursor) as int) == backspace_spec(old(input)@, *old(cursor) as int),
{
    if *cursor == 0 {
        return;
    }
    *cursor = *cursor - 1;
    let v = chars_of(input.as_str());
    if *cursor < v.len() {
        let mut out = copy_range(&v, 0, *cursor);
        let tail = copy_range(&v, *cursor + 1, v.len());
        crate::text::append_chars(&mut out, &tail);
        assert(out@ =~= v@.take(*cursor as int) + v@.skip(*cursor + 1));
        *input = string_of(out.as_slice());
    }
}

pub fn delete_at_cursor(input: &mut String, cursor: &mut usize)
    ensures
        final(input)@ == delete_spec(old(input)@, *old(cursor) as int),
        *final(cursor) == *old(cursor),
{
    let v = chars_of(input.as_str());
    if *cursor < v.len() {
        let mut out = copy_range(&v, 0, *cursor);
        let tail = copy_range(&v, *cursor + 1, v.len());
        crate::text::append_chars(&mut out, &tail);
        assert(out@ =~= v@.take(*cursor as int) + v@.skip(*cursor + 1));
        *input = string_of(out.as_slice());
    }
}

/// The field's text with a block cursor drawn at the cursor.
pub open spec fn render_with_cursor_spec(s: Seq<char>, cursor: int) -> Seq<char> {
    let k = cursor_at(s.len(), cursor);
    s.take(k) + "\u{2588}"@ + s.skip(k)
}

pub fn render_with_cursor(input: &str, cursor: usize) -> (r: String)
    ensures
        r@ == render_with_cursor_spec(input@, cursor as int),
{
    let v = chars_of(input);
    let k: usize = if cursor < v.len() {
        cursor
    } else {
        v.len()
    };
    let mut out = copy_range(&v, 0, k);
    crate::text::append_str(&mut out, "\u{2588}");
    let tail = copy_range(&v, k, v.len());
    crate::text::append_chars(&mut out, &tail);
    string_of(out.as_slice())
}

/// Typing a character and then Backspace gives back the text and the cursor,
/// when the cursor stands within the text: `insert_at_cursor` followed by
/// `backspace_at_cursor` leaves both as they were (for any character,
/// multi-byte ones too, as the text is counted in characters). The one input
/// left out is a cursor of `usize::MAX` at the end of a text that long, where
/// the cursor saturates; no `String` holds that many characters.
pub proof fn lemma_insert_then_backspace(s: Seq<char>, cursor: int, c: char)
    requires
        0 <= cursor <= s.len(),
        cursor < usize::MAX,
    ensures
        backspace_spec(insert_spec(s, cursor, c).0, insert_spec(s, cursor, c).1) == (s, cursor),
{
    let t = s.take(cursor) + seq![c] + s.skip(cursor);
    assert(t.take(cursor) + t.skip(cursor + 1) =~= s);
}

/// Delete at the cursor undoes typing a character and moving back over it.
pub proof fn lemma_insert_then_delete(s: Seq<char>, cursor: int, c: char)
    requires
        0 <= cursor <= s.len(),
    ensures
        delete_spec(insert_spec(s, cursor, c).0, cursor) == s,
{
    let t = s.take(cursor) + seq![c] + s.skip(cursor);
    assert(t.take(cursor) + t.skip(cursor + 1) =~= s);
}

/// `> LABEL` for the chosen option, `  LABEL` for the other.
pub fn choice_line(sel: bool, label: &str) -> (r: String)
    ensures
        r@ == (if sel {
            "> "@
        } else {
            "  "@
        }) + label@,
{
    let mut s = if sel {
        String::from_str("> ")
    } else {
        String::from_str("  ")
    };
    s.append(label);
    s
}

} // verus!
