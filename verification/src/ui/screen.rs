//! The screens of the terminal UI and what each key does to them. The loop
//! that reads keys, runs commands and draws lives with the terminal code; it
//! hands each key to `App::handle_key` and performs the `UiAction` it returns.
use vstd::prelude::*;
use crate::config::{alias, defaults_spec, explicit, Config, ConfigView};
use crate::detect::{DetectedTunnel, DetectedView};
use crate::text::{trim, string_views};
use crate::ui::forms::{
    apply_field_spec, backspace_spec, delete_spec, edit_menu_items_spec, field_current_spec,
    insert_spec,
};
use crate::ui::list::Row;

verus! {

#[derive(Debug, Clone, Copy, PartialEq, Eq, Structural)]
pub enum Screen {
    List,
    EditMenu,
    Field,
    Actions,
    Confirm,
    Inspect,
    Result,
}

/// The keys the UI reacts to.
#[derive(Debug, Clone, Copy, PartialEq, Eq, Structural)]
pub enum KeyCode {
    Char(char),
    Enter,
    Esc,
    Backspace,
    Delete,
    Left,
    Right,
    Up,
    Down,
    Home,
    End,
    Other,
}

/// A key event: the key, the modifiers held, and whether it is a release.
#[derive(Debug, Clone, Copy, PartialEq, Eq, Structural)]
pub struct Key {
    pub code: KeyCode,
    pub ctrl: bool,
    pub alt: bool,
    pub meta: bool,
    pub release: bool,
}

/// What the terminal loop does after a key.
pub enum UiAction {
    Nothing,
    /// Reload the setups and the found ssh processes.
    Refresh,
    /// Run `start`, `stop`, `status` or `delete` on a setup and report back.
    Run { cmd: String, name: String },
    /// Save the setup being edited and report back.
    Save,
    /// Load a saved setup for editing and report back.
    LoadForEdit { name: String },
}

pub enum ActionView {
    Nothing,
    Refresh,
    Run { cmd: Seq<char>, name: Seq<char> },
    Save,
    LoadForEdit { name: Seq<char> },
}

impl View for UiAction {
    type V = ActionView;

    open spec fn view(&self) -> ActionView {
        match self {
            UiAction::Nothing => ActionView::Nothing,
            UiAction::Refresh => ActionView::Refresh,
            UiAction::Run { cmd, name } => ActionView::Run { cmd: cmd@, name: name@ },
            UiAction::Save => ActionView::Save,
            UiAction::LoadForEdit { name } => ActionView::LoadForEdit { name: name@ },
        }
    }
}

/// An operation waiting for confirmation.
pub enum ConfirmOp {
    Delete(String),
    Start(String),
}

pub enum ConfirmView {
    Delete(Seq<char>),
    Start(Seq<char>),
}

/// The field being edited: its key, text and cursor, the chosen option (for
/// the setup type and auto-reconnect), and the error of the last Enter.
pub struct FieldEdit {
    pub key: String,
    pub input: String,
    pub cursor: usize,
    pub choice_idx: usize,
    pub err: String,
}

pub struct FieldView {
    pub key: Seq<char>,
    pub input: Seq<char>,
    pub cursor: int,
    pub choice_idx: int,
    pub err: Seq<char>,
}

/// The UI state.
pub struct App {
    pub screen: Screen,
    pub rows: Vec<Row>,
    pub selected: usize,
    pub scroll: u16,
    pub filter_editing: bool,
    pub filter: String,
    pub status: String,
    pub edit: Config,
    pub edit_is_new: bool,
    pub edit_name_locked: bool,
    pub edit_idx: usize,
    pub edit_err: String,
    pub field: Option<FieldEdit>,
    pub action_idx: usize,
    pub active_name: String,
    pub inspect: Option<DetectedTunnel>,
    pub result: String,
    pub confirm_prompt: String,
    pub confirm_op: Option<ConfirmOp>,
    pub quit: bool,
    /// The value of `HOME`, for the default ssh key.
    pub home: String,
}

pub struct AppView {
    pub screen: Screen,
    pub rows: Seq<Row>,
    pub selected: int,
    pub scroll: int,
    pub filter_editing: bool,
    pub filter: Seq<char>,
    pub status: Seq<char>,
    pub edit: ConfigView,
    pub edit_is_new: bool,
    pub edit_name_locked: bool,
    pub edit_idx: int,
    pub edit_err: Seq<char>,
    pub field: Option<FieldView>,
    pub action_idx: int,
    pub active_name: Seq<char>,
    pub inspect: Option<DetectedView>,
    pub result: Seq<char>,
    pub confirm_prompt: Seq<char>,
    pub confirm_op: Option<ConfirmView>,
    pub quit: bool,
    pub home: Seq<char>,
}

impl View for App {
    type V = AppView;

    open spec fn view(&self) -> AppView {
        AppView {
            screen: self.screen,
            rows: self.rows@,
            selected: self.selected as int,
            scroll: self.scroll as int,
            filter_editing: self.filter_editing,
            filter: self.filter@,
            status: self.status@,
            edit: self.edit@,
            edit_is_new: self.edit_is_new,
            edit_name_locked: self.edit_name_locked,
            edit_idx: self.edit_idx as int,
            edit_err: self.edit_err@,
            field: match &self.field {
                Some(f) => Some(
                    FieldView {
                        key: f.key@,
                        input: f.input@,
                        cursor: f.cursor as int,
                        choice_idx: f.choice_idx as int,
                        err: f.err@,
                    },
                ),
                None => None,
            },
            action_idx: self.action_idx as int,
            active_name: self.active_name@,
            inspect: match &self.inspect {
                Some(d) => Some(d@),
                None => None,
            },
            result: self.result@,
            confirm_prompt: self.confirm_prompt@,
            confirm_op: match &self.confirm_op {
                Some(ConfirmOp::Delete(n)) => Some(ConfirmView::Delete(n@)),
                Some(ConfirmOp::Start(n)) => Some(ConfirmView::Start(n@)),
                None => None,
            },
            quit: self.quit,
            home: self.home@,
        }
    }
}

// ---------------------------------------------------------------------------
// The rows shown.
/// A row is shown when it matches the filter; found processes are hidden
/// while a filter is set.
pub open spec fn shows(r: Row, filter: Seq<char>) -> bool {
    !(trim(filter).len() > 0 && r is Detected) && r.matches_spec(filter)
}

/// The indices of the rows shown, in order.
pub open spec fn visible_upto(rows: Seq<Row>, filter: Seq<char>, n: int) -> Seq<int>
    decreases n,
{
    if n <= 0 || n > rows.len() {
        Seq::empty()
    } else {
        let v = visible_upto(rows, filter, n - 1);
        if shows(rows[n - 1], filter) {
            v.push(n - 1)
        } else {
            v
        }
    }
}

pub open spec fn visible(v: AppView) -> Seq<int> {
    visible_upto(v.rows, v.filter, v.rows.len() as int)
}

pub open spec fn min(a: int, b: int) -> int {
    if a < b {
        a
    } else {
        b
    }
}

pub open spec fn dec_sat(a: int) -> int {
    if a > 0 {
        a - 1
    } else {
        0
    }
}

/// The selection kept within the rows shown.
pub open spec fn clamp_spec(v: AppView) -> AppView {
    let n = visible(v).len();
    if n == 0 {
        AppView { selected: 0, scroll: 0, ..v }
    } else if v.selected >= n {
        AppView { selected: n - 1, ..v }
    } else {
        v
    }
}

// ---------------------------------------------------------------------------
// Opening the editor.
/// The setup the New form starts from.
pub open spec fn blank_spec() -> ConfigView {
    ConfigView {
        name: Seq::empty(),
        comment: Seq::empty(),
        auth_mode: alias(),
        ssh_target: Seq::empty(),
        remote_user: Seq::empty(),
        ssh_host: Seq::empty(),
        local_port: "3306"@,
        remote_host: "127.0.0.1"@,
        remote_port: "3306"@,
        ssh_key: Seq::empty(),
        reconnect: seq!['1'],
        reconnect_delay: seq!['3'],
    }
}

/// The editor opened on a setup (with its defaults applied); the name is
/// locked when an existing setup with a name is edited.
pub open spec fn open_editor_spec(v: AppView, cfg: ConfigView, is_new: bool) -> AppView {
    let c = defaults_spec(cfg, v.home);
    AppView {
        edit: c,
        edit_is_new: is_new,
        edit_name_locked: !is_new && c.name.len() > 0,
        edit_idx: 0,
        edit_err: Seq::empty(),
        field: None,
        screen: Screen::EditMenu,
        ..v
    }
}

/// Enter on the row shown at the selection: the actions of a saved setup, or
/// the details of a found process.
pub open spec fn activate_spec(v: AppView) -> AppView {
    let vis = visible(v);
    if 0 <= v.selected < vis.len() {
        match v.rows[vis[v.selected]] {
            Row::Known { config, .. } => AppView { active_name: config.name@, action_idx: 0, screen: Screen::Actions, ..v },
            Row::Detected(d) => AppView { inspect: Some(d@), screen: Screen::Inspect, ..v },
        }
    } else {
        v
    }
}

/// `char::is_control`: the C0 and C1 control characters.
pub open spec fn is_control(c: char) -> bool {
    (c as u32) < 0x20 || (0x7f <= (c as u32) && (c as u32) < 0xa0)
}

// ---------------------------------------------------------------------------
// Keys on each screen.
pub open spec fn list_key_spec(v: AppView, key: Key) -> (AppView, ActionView) {
    if v.filter_editing {
        match key.code {
            KeyCode::Esc => (clamp_spec(AppView { filter_editing: false, filter: Seq::empty(), ..v }), ActionView::Nothing),
            KeyCode::Enter => (clamp_spec(AppView { filter_editing: false, ..v }), ActionView::Nothing),
            KeyCode::Backspace => (clamp_spec(AppView { filter: drop_last_char(v.filter), ..v }), ActionView::Nothing),
            KeyCode::Char(c) => if c == '\u{7f}' || c == '\u{8}' {
                (clamp_spec(AppView { filter: drop_last_char(v.filter), ..v }), ActionView::Nothing)
            } else if !is_control(c) {
                (clamp_spec(AppView { filter: v.filter.push(c), ..v }), ActionView::Nothing)
            } else {
                (v, ActionView::Nothing)
            },
            _ => (v, ActionView::Nothing),
        }
    } else {
        match key.code {
            KeyCode::Char('q') => (AppView { quit: true, ..v }, ActionView::Nothing),
            KeyCode::Char('n') => (open_editor_spec(v, blank_spec(), true), ActionView::Nothing),
            KeyCode::Char('r') => (AppView { status: "loading setups\u{2026}"@, ..v }, ActionView::Refresh),
            KeyCode::Char('/') => (AppView { filter_editing: true, ..v }, ActionView::Nothing),
            KeyCode::Down | KeyCode::Char('j') => {
                let n = visible(v).len();
                if n > 0 {
                    (AppView { selected: min(v.selected + 1, n - 1), ..v }, ActionView::Nothing)
                } else {
                    (v, ActionView::Nothing)
                }
            },
            KeyCode::Up | KeyCode::Char('k') => (AppView { selected: dec_sat(v.selected), ..v }, ActionView::Nothing),
            KeyCode::Enter => (activate_spec(v), ActionView::Nothing),
            _ => (v, ActionView::Nothing),
        }
    }
}

/// `String::pop`: the text without its last character.
pub open spec fn drop_last_char(s: Seq<char>) -> Seq<char> {
    if s.len() > 0 {
        s.drop_last()
    } else {
        s
    }
}

/// The option a choice field starts on: 1 for an explicit setup or for
/// reconnecting off, else 0.
pub open spec fn initial_choice(c: ConfigView, key: Seq<char>) -> int {
    if key == "auth"@ {
        if c.auth_mode == explicit() {
            1
        } else {
            0
        }
    } else if key == "reconnect"@ {
        if c.reconnect == seq!['0'] {
            1
        } else {
            0
        }
    } else {
        0
    }
}

pub open spec fn edit_menu_key_spec(v: AppView, key: Key) -> (AppView, ActionView) {
    let items = edit_menu_items_spec(v.edit, v.edit_name_locked);
    match key.code {
        KeyCode::Esc => (AppView { screen: Screen::List, ..v }, ActionView::Refresh),
        KeyCode::Down | KeyCode::Char('j') => if items.len() > 0 {
            (AppView { edit_idx: min(v.edit_idx + 1, items.len() - 1), ..v }, ActionView::Nothing)
        } else {
            (v, ActionView::Nothing)
        },
        KeyCode::Up | KeyCode::Char('k') => (AppView { edit_idx: dec_sat(v.edit_idx), ..v }, ActionView::Nothing),
        KeyCode::Enter => if 0 <= v.edit_idx < items.len() {
            let k = items[v.edit_idx].0;
            if k == "save"@ {
                (AppView { edit: defaults_spec(v.edit, v.home), ..v }, ActionView::Save)
            } else if k == "cancel"@ {
                (AppView { screen: Screen::List, ..v }, ActionView::Refresh)
            } else {
                let cur = field_current_spec(v.edit, k, v.home);
                (
                    AppView {
                        field: Some(
                            FieldView {
                                key: k,
                                input: cur,
                                cursor: cur.len() as int,
                                choice_idx: initial_choice(v.edit, k),
                                err: Seq::empty(),
                            },
                        ),
                        screen: Screen::Field,
                        ..v
                    },
                    ActionView::Nothing,
                )
            }
        } else {
            (v, ActionView::Nothing)
        },
        _ => (v, ActionView::Nothing),
    }
}

pub open spec fn is_choice_key(k: Seq<char>) -> bool {
    k == "auth"@ || k == "reconnect"@
}

/// The value Enter applies from a choice field.
pub open spec fn choice_value(k: Seq<char>, idx: int) -> Seq<char> {
    if k == "auth"@ {
        if idx == 1 {
            explicit()
        } else {
            alias()
        }
    } else if idx == 1 {
        seq!['0']
    } else {
        seq!['1']
    }
}

pub open spec fn with_field_view(v: AppView, f: FieldView) -> AppView {
    AppView { field: Some(f), ..v }
}

pub open spec fn field_key_spec(v: AppView, key: Key) -> (AppView, ActionView) {
    match v.field {
        None => (AppView { screen: Screen::EditMenu, ..v }, ActionView::Nothing),
        Some(f) => {
            let choice = is_choice_key(f.key);
            match key.code {
                KeyCode::Esc => (AppView { field: None, screen: Screen::EditMenu, ..v }, ActionView::Nothing),
                KeyCode::Enter => {
                    let value = if choice {
                        choice_value(f.key, f.choice_idx)
                    } else {
                        f.input
                    };
                    match apply_field_spec(v.edit, f.key, value, v.home) {
                        Ok(nc) => (AppView { edit: nc, field: None, screen: Screen::EditMenu, ..v }, ActionView::Nothing),
                        Err(m) => (with_field_view(v, FieldView { err: m, ..f }), ActionView::Nothing),
                    }
                },
                _ => if choice {
                    if is_up_down(key.code) {
                        (
                            with_field_view(v, FieldView { choice_idx: if f.choice_idx == 0 { 1 } else { 0 }, ..f }),
                            ActionView::Nothing,
                        )
                    } else {
                        (v, ActionView::Nothing)
                    }
                } else {
                    text_key_spec(v, f, key)
                },
            }
        },
    }
}

pub open spec fn is_up_down(code: KeyCode) -> bool {
    code == KeyCode::Down || code == KeyCode::Up || code == KeyCode::Char('j') || code == KeyCode::Char('k')
}

/// Keys in a text field: cursor moves, deleting and typing.
pub open spec fn text_key_spec(v: AppView, f: FieldView, key: Key) -> (AppView, ActionView) {
    match key.code {
        KeyCode::Left => (with_field_view(v, FieldView { cursor: dec_sat(f.cursor), ..f }), ActionView::Nothing),
        KeyCode::Right => if f.cursor < f.input.len() {
            (with_field_view(v, FieldView { cursor: f.cursor + 1, ..f }), ActionView::Nothing)
        } else {
            (v, ActionView::Nothing)
        },
        KeyCode::Home => (with_field_view(v, FieldView { cursor: 0, ..f }), ActionView::Nothing),
        KeyCode::End => (with_field_view(v, FieldView { cursor: f.input.len() as int, ..f }), ActionView::Nothing),
        KeyCode::Delete => (with_field_view(v, FieldView { input: delete_spec(f.input, f.cursor), ..f }), ActionView::Nothing),
        KeyCode::Backspace => {
            let (s, c) = backspace_spec(f.input, f.cursor);
            (with_field_view(v, FieldView { input: s, cursor: c, ..f }), ActionView::Nothing)
        },
        KeyCode::Char(c) => if key.ctrl || key.alt || key.meta {
            if key.ctrl && (c == 'h' || c == 'H') {
                let (s, k) = backspace_spec(f.input, f.cursor);
                (with_field_view(v, FieldView { input: s, cursor: k, ..f }), ActionView::Nothing)
            } else {
                (v, ActionView::Nothing)
            }
        } else if c == '\u{7f}' || c == '\u{8}' {
            let (s, k) = backspace_spec(f.input, f.cursor);
            (with_field_view(v, FieldView { input: s, cursor: k, ..f }), ActionView::Nothing)
        } else if !is_control(c) {
            let (s, k) = insert_spec(f.input, f.cursor, c);
            (with_field_view(v, FieldView { input: s, cursor: k, ..f }), ActionView::Nothing)
        } else {
            (v, ActionView::Nothing)
        },
        _ => (v, ActionView::Nothing),
    }
}

/// The key of the action at `idx` in the action menu (`action_items`).
pub open spec fn action_key_at(idx: int) -> Seq<char> {
    if idx == 0 {
        "start"@
    } else if idx == 1 {
        "stop"@
    } else if idx == 2 {
        "status"@
    } else if idx == 3 {
        "edit"@
    } else if idx == 4 {
        "delete"@
    } else {
        "back"@
    }
}

pub open spec fn delete_prompt(name: Seq<char>) -> Seq<char> {
    "Delete saved tunnel '"@ + name + "'? (Stops it if running.)"@
}

pub open spec fn actions_key_spec(v: AppView, key: Key) -> (AppView, ActionView) {
    match key.code {
        KeyCode::Esc => (AppView { screen: Screen::List, ..v }, ActionView::Nothing),
        KeyCode::Down | KeyCode::Char('j') => (AppView { action_idx: min(v.action_idx + 1, 5), ..v }, ActionView::Nothing),
        KeyCode::Up | KeyCode::Char('k') => (AppView { action_idx: dec_sat(v.action_idx), ..v }, ActionView::Nothing),
        KeyCode::Enter => {
            let name = v.active_name;
            let i = v.action_idx;
            if 0 <= i <= 2 {
                (v, ActionView::Run { cmd: action_key_at(i), name })
            } else if i == 3 {
                (v, ActionView::LoadForEdit { name })
            } else if i == 4 {
                (
                    AppView {
                        confirm_prompt: delete_prompt(name),
                        confirm_op: Some(ConfirmView::Delete(name)),
                        screen: Screen::Confirm,
                        ..v
                    },
                    ActionView::Nothing,
                )
            } else {
                (AppView { screen: Screen::List, ..v }, ActionView::Nothing)
            }
        },
        _ => (v, ActionView::Nothing),
    }
}

pub open spec fn confirm_key_spec(v: AppView, key: Key) -> (AppView, ActionView) {
    match key.code {
        KeyCode::Esc => (AppView { confirm_op: None, screen: Screen::List, ..v }, ActionView::Refresh),
        KeyCode::Enter => match v.confirm_op {
            Some(ConfirmView::Delete(n)) => (AppView { confirm_op: None, ..v }, ActionView::Run { cmd: "delete"@, name: n }),
            Some(ConfirmView::Start(n)) => (AppView { confirm_op: None, ..v }, ActionView::Run { cmd: "start"@, name: n }),
            None => (AppView { screen: Screen::List, ..v }, ActionView::Nothing),
        },
        _ => (v, ActionView::Nothing),
    }
}

/// What a key does: releases are ignored, Ctrl+C quits, otherwise the
/// current screen decides.
pub open spec fn key_step(v: AppView, key: Key) -> (AppView, ActionView) {
    if key.release {
        (v, ActionView::Nothing)
    } else if key.ctrl && key.code == KeyCode::Char('c') {
        (AppView { quit: true, ..v }, ActionView::Nothing)
    } else {
        match v.screen {
            Screen::List => list_key_spec(v, key),
            Screen::EditMenu => edit_menu_key_spec(v, key),
            Screen::Field => field_key_spec(v, key),
            Screen::Actions => actions_key_spec(v, key),
            Screen::Confirm => confirm_key_spec(v, key),
            Screen::Inspect => if key.code == KeyCode::Enter || key.code == KeyCode::Esc {
                (AppView { screen: Screen::List, inspect: None, ..v }, ActionView::Nothing)
            } else {
                (v, ActionView::Nothing)
            },
            Screen::Result => (AppView { screen: Screen::List, result: Seq::empty(), ..v }, ActionView::Refresh),
        }
    }
}

// ---------------------------------------------------------------------------
// The state machine.
pub open spec fn idx_view(v: Seq<usize>) -> Seq<int> {
    v.map_values(|x: usize| x as int)
}

/// The state before the first refresh.
pub open spec fn initial_spec(edit: ConfigView, home: Seq<char>) -> AppView {
    AppView {
        screen: Screen::List,
        rows: Seq::empty(),
        selected: 0,
        scroll: 0,
        filter_editing: false,
        filter: Seq::empty(),
        status: "loading setups\u{2026}"@,
        edit,
        edit_is_new: true,
        edit_name_locked: false,
        edit_idx: 0,
        edit_err: Seq::empty(),
        field: None,
        action_idx: 0,
        active_name: Seq::empty(),
        inspect: None,
        result: Seq::empty(),
        confirm_prompt: Seq::empty(),
        confirm_op: None,
        quit: false,
        home,
    }
}

proof fn lemma_blank(c: ConfigView)
    requires
        c.name.len() == 0,
        c.comment.len() == 0,
        c.auth_mode == alias(),
        c.ssh_target.len() == 0,
        c.remote_user.len() == 0,
        c.ssh_host.len() == 0,
        c.local_port == "3306"@,
        c.remote_host == "127.0.0.1"@,
        c.remote_port == "3306"@,
        c.ssh_key.len() == 0,
        c.reconnect == seq!['1'],
        c.reconnect_delay == seq!['3'],
    ensures
        c == blank_spec(),
{
    assert(c.name =~= Seq::<char>::empty());
    assert(c.comment =~= Seq::<char>::empty());
    assert(c.ssh_target =~= Seq::<char>::empty());
    assert(c.remote_user =~= Seq::<char>::empty());
    assert(c.ssh_host =~= Seq::<char>::empty());
    assert(c.ssh_key =~= Seq::<char>::empty());
}

fn field_clone(f: &FieldEdit) -> (r: FieldEdit)
    ensures
        r.key@ == f.key@ && r.input@ == f.input@ && r.cursor == f.cursor && r.choice_idx == f.choice_idx
            && r.err@ == f.err@,
{
    FieldEdit {
        key: f.key.clone(),
        input: f.input.clone(),
        cursor: f.cursor,
        choice_idx: f.choice_idx,
        err: f.err.clone(),
    }
}

impl App {
    /// The UI before its first refresh; `home` is the value of `HOME`.
    pub fn new(home: &str) -> (a: App)
        ensures
            a@ == initial_spec(a.edit@, home@),
            a.edit@ == blank_spec(),
    {
        proof {
            reveal_strlit("3306");
            reveal_strlit("127.0.0.1");
        }
        let edit = crate::config::blank_setup();
        proof {
            lemma_blank(edit@);
        }
        App {
            screen: Screen::List,
            rows: Vec::new(),
            selected: 0,
            scroll: 0,
            filter_editing: false,
            filter: String::new(),
            status: String::from_str("loading setups\u{2026}"),
            edit,
            edit_is_new: true,
            edit_name_locked: false,
            edit_idx: 0,
            edit_err: String::new(),
            field: None,
            action_idx: 0,
            active_name: String::new(),
            inspect: None,
            result: String::new(),
            confirm_prompt: String::new(),
            confirm_op: None,
            quit: false,
            home: String::from_str(home),
        }
    }

    /// The indices of the rows shown.
    pub fn visible_rows(&self) -> (r: Vec<usize>)
        ensures
            idx_view(r@) == visible(self@),
            forall|k: int| 0 <= k < r.len() ==> r@[k] < self.rows.len(),
    {
        let filtering = crate::text::trim_str(self.filter.as_str()).len() > 0;
        let mut out: Vec<usize> = Vec::new();
        let mut i: usize = 0;
        while i < self.rows.len()
            invariant
                i <= self.rows.len(),
                filtering == (trim(self.filter@).len() > 0),
                idx_view(out@) == visible_upto(self.rows@, self.filter@, i as int),
                forall|k: int| 0 <= k < out.len() ==> out@[k] < i,
            decreases self.rows.len() - i,
        {
            let detected = match &self.rows[i] {
                Row::Detected(_) => true,
                Row::Known { .. } => false,
            };
            if !(filtering && detected) && self.rows[i].matches(self.filter.as_str()) {
                let ghost o = out@;
                out.push(i);
                assert(idx_view(out@) =~= idx_view(o).push(i as int));
            }
            i = i + 1;
        }
        out
    }

    /// Keeps the selection on a shown row (the first when none is shown).
    pub fn clamp_list_cursor(&mut self)
        ensures
            final(self)@ == clamp_spec(old(self)@),
    {
        let n = self.visible_rows().len();
        if n == 0 {
            self.selected = 0;
            self.scroll = 0;
            return;
        }
        if self.selected >= n {
            self.selected = n - 1;
        }
    }

    /// Opens the editor on `cfg` (a new setup or a saved one).
    pub fn open_editor(&mut self, cfg: Config, is_new: bool)
        ensures
            final(self)@ == open_editor_spec(old(self)@, cfg@, is_new),
    {
        let mut cfg = cfg;
        crate::config::apply_defaults(&mut cfg, self.home.as_str());
        let locked = !is_new && !cfg.name.as_str().is_empty();
        self.edit = cfg;
        self.edit_is_new = is_new;
        self.edit_name_locked = locked;
        self.edit_idx = 0;
        self.edit_err = String::new();
        self.field = None;
        self.screen = Screen::EditMenu;
    }

    fn activate_list_row(&mut self)
        ensures
            final(self)@ == activate_spec(old(self)@),
    {
        let vis = self.visible_rows();
        if self.selected < vis.len() {
            let i = vis[self.selected];
            assert(visible(self@)[self.selected as int] == i as int);
            match &self.rows[i] {
                Row::Known { config, .. } => {
                    let n = config.name.clone();
                    self.active_name = n;
                    self.action_idx = 0;
                    self.screen = Screen::Actions;
                },
                Row::Detected(d) => {
                    let c = d.duplicate();
                    self.inspect = Some(c);
                    self.screen = Screen::Inspect;
                },
            }
        }
    }

    fn pop_filter(&mut self)
        ensures
            final(self)@ == (AppView { filter: drop_last_char(old(self)@.filter), ..old(self)@ }),
    {
        let v = crate::text::chars_of(self.filter.as_str());
        if v.len() > 0 {
            let t = crate::text::copy_range(&v, 0, v.len() - 1);
            self.filter = crate::text::string_of(t.as_slice());
        }
    }

    fn list_key(&mut self, key: Key) -> (r: UiAction)
        ensures
            (final(self)@, r@) == list_key_spec(old(self)@, key),
    {
        if self.filter_editing {
            match key.code {
                KeyCode::Esc => {
                    self.filter_editing = false;
                    self.filter = String::new();
                    self.clamp_list_cursor();
                },
                KeyCode::Enter => {
                    self.filter_editing = false;
                    self.clamp_list_cursor();
                },
                KeyCode::Backspace => {
                    self.pop_filter();
                    self.clamp_list_cursor();
                },
                KeyCode::Char(c) => {
                    if c == '\u{7f}' || c == '\u{8}' {
                        self.pop_filter();
                        self.clamp_list_cursor();
                    } else if !is_control_char(c) {
                        let mut v = crate::text::chars_of(self.filter.as_str());
                        v.push(c);
                        self.filter = crate::text::string_of(v.as_slice());
                        self.clamp_list_cursor();
                    }
                },
                _ => {},
            }
            return UiAction::Nothing;
        }
        match key.code {
            KeyCode::Char('q') => {
                self.quit = true;
                UiAction::Nothing
            },
            KeyCode::Char('n') => {
                let b = crate::config::blank_setup();
                proof {
                    reveal_strlit("3306");
                    reveal_strlit("127.0.0.1");
                }
                proof {
                    lemma_blank(b@);
                }
                self.open_editor(b, true);
                UiAction::Nothing
            },
            KeyCode::Char('r') => {
                self.status = String::from_str("loading setups\u{2026}");
                UiAction::Refresh
            },
            KeyCode::Char('/') => {
                self.filter_editing = true;
                UiAction::Nothing
            },
            KeyCode::Down | KeyCode::Char('j') => {
                let n = self.visible_rows().len();
                if n > 0 {
                    self.selected = if self.selected >= n - 1 {
                        n - 1
                    } else {
                        self.selected + 1
                    };
                }
                UiAction::Nothing
            },
            KeyCode::Up | KeyCode::Char('k') => {
                self.selected = self.selected.saturating_sub(1);
                UiAction::Nothing
            },
            KeyCode::Enter => {
                self.activate_list_row();
                UiAction::Nothing
            },
            _ => UiAction::Nothing,
        }
    }

    fn edit_menu_key(&mut self, key: Key) -> (r: UiAction)
        ensures
            (final(self)@, r@) == edit_menu_key_spec(old(self)@, key),
    {
        let items = crate::ui::forms::edit_menu_items(&self.edit, self.edit_name_locked);
        let ghost iv = crate::ui::forms::item_views(items@);
        match key.code {
            KeyCode::Esc => {
                self.screen = Screen::List;
                UiAction::Refresh
            },
            KeyCode::Down | KeyCode::Char('j') => {
                if items.len() > 0 {
                    self.edit_idx = if self.edit_idx >= items.len() - 1 {
                        items.len() - 1
                    } else {
                        self.edit_idx + 1
                    };
                }
                UiAction::Nothing
            },
            KeyCode::Up | KeyCode::Char('k') => {
                self.edit_idx = self.edit_idx.saturating_sub(1);
                UiAction::Nothing
            },
            KeyCode::Enter => {
                if self.edit_idx < items.len() {
                    let k = items[self.edit_idx].key.clone();
                    assert(iv[self.edit_idx as int].0 == k@);
                    if crate::text::str_eq(k.as_str(), "save") {
                        crate::config::apply_defaults(&mut self.edit, self.home.as_str());
                        return UiAction::Save;
                    }
                    if crate::text::str_eq(k.as_str(), "cancel") {
                        self.screen = Screen::List;
                        return UiAction::Refresh;
                    }
                    let cur = crate::ui::forms::field_current(&self.edit, k.as_str(), self.home.as_str());
                    let n = crate::text::chars_of(cur.as_str()).len();
                    let choice: usize = if crate::text::str_eq(k.as_str(), "auth") {
                        if crate::config::is_explicit_mode(&self.edit.auth_mode) {
                            1
                        } else {
                            0
                        }
                    } else if crate::text::str_eq(k.as_str(), "reconnect") {
                        if crate::text::str_eq(self.edit.reconnect.as_str(), "0") {
                            proof {
                                reveal_strlit("0");
                                assert("0"@ =~= seq!['0']);
                            }
                            1
                        } else {
                            proof {
                                reveal_strlit("0");
                                assert("0"@ =~= seq!['0']);
                            }
                            0
                        }
                    } else {
                        0
                    };
                    self.field = Some(FieldEdit { key: k, input: cur, cursor: n, choice_idx: choice, err: String::new() });
                    self.screen = Screen::Field;
                }
                UiAction::Nothing
            },
            _ => UiAction::Nothing,
        }
    }

    fn set_field_state(&mut self, f: FieldEdit)
        ensures
            final(self)@ == with_field_view(
                old(self)@,
                (FieldView { key: f.key@, input: f.input@, cursor: f.cursor as int, choice_idx: f.choice_idx as int, err: f.err@ }),
            ),
    {
        self.field = Some(f);
    }

    fn field_key(&mut self, key: Key) -> (r: UiAction)
        ensures
            (final(self)@, r@) == field_key_spec(old(self)@, key),
    {
        let f = match &self.field {
            None => {
                self.screen = Screen::EditMenu;
                return UiAction::Nothing;
            },
            Some(f) => field_clone(f),
        };
        let choice = crate::text::str_eq(f.key.as_str(), "auth") || crate::text::str_eq(f.key.as_str(), "reconnect");
        match key.code {
            KeyCode::Esc => {
                self.field = None;
                self.screen = Screen::EditMenu;
                return UiAction::Nothing;
            },
            KeyCode::Enter => {
                let value = if choice {
                    proof {
                        reveal_strlit("explicit");
                        reveal_strlit("alias");
                        reveal_strlit("0");
                        reveal_strlit("1");
                    }
                    assert("explicit"@ =~= explicit());
                    assert("alias"@ =~= alias());
                    assert("0"@ =~= seq!['0']);
                    assert("1"@ =~= seq!['1']);
                    if crate::text::str_eq(f.key.as_str(), "auth") {
                        if f.choice_idx == 1 {
                            String::from_str("explicit")
                        } else {
                            String::from_str("alias")
                        }
                    } else if f.choice_idx == 1 {
                        String::from_str("0")
                    } else {
                        String::from_str("1")
                    }
                } else {
                    f.input.clone()
                };
                let mut e = self.edit.duplicate();
                match crate::ui::forms::apply_field(&mut e, f.key.as_str(), value.as_str(), self.home.as_str()) {
                    Ok(()) => {
                        self.edit = e;
                        self.field = None;
                        self.screen = Screen::EditMenu;
                    },
                    Err(m) => {
                        let mut nf = f;
                        nf.err = m;
                        self.set_field_state(nf);
                    },
                }
                return UiAction::Nothing;
            },
            _ => {},
        }
        if choice {
            match key.code {
                KeyCode::Down | KeyCode::Up | KeyCode::Char('j') | KeyCode::Char('k') => {
                    let mut nf = f;
                    nf.choice_idx = if nf.choice_idx == 0 {
                        1
                    } else {
                        0
                    };
                    self.set_field_state(nf);
                },
                _ => {},
            }
            return UiAction::Nothing;
        }
        let mut nf = f;
        match key.code {
            KeyCode::Left => {
                nf.cursor = nf.cursor.saturating_sub(1);
                self.set_field_state(nf);
            },
            KeyCode::Right => {
                let max = crate::text::chars_of(nf.input.as_str()).len();
                if nf.cursor < max {
                    nf.cursor = nf.cursor + 1;
                    self.set_field_state(nf);
                }
            },
            KeyCode::Home => {
                nf.cursor = 0;
                self.set_field_state(nf);
            },
            KeyCode::End => {
                nf.cursor = crate::text::chars_of(nf.input.as_str()).len();
                self.set_field_state(nf);
            },
            KeyCode::Delete => {
                crate::ui::forms::delete_at_cursor(&mut nf.input, &mut nf.cursor);
                self.set_field_state(nf);
            },
            KeyCode::Backspace => {
                crate::ui::forms::backspace_at_cursor(&mut nf.input, &mut nf.cursor);
                self.set_field_state(nf);
            },
            KeyCode::Char(c) => {
                if key.ctrl || key.alt || key.meta {
                    if key.ctrl && (c == 'h' || c == 'H') {
                        crate::ui::forms::backspace_at_cursor(&mut nf.input, &mut nf.cursor);
                        self.set_field_state(nf);
                    }
                } else if c == '\u{7f}' || c == '\u{8}' {
                    crate::ui::forms::backspace_at_cursor(&mut nf.input, &mut nf.cursor);
                    self.set_field_state(nf);
                } else if !is_control_char(c) {
                    crate::ui::forms::insert_at_cursor(&mut nf.input, &mut nf.cursor, c);
                    self.set_field_state(nf);
                }
            },
            _ => {},
        }
        UiAction::Nothing
    }

    fn actions_key(&mut self, key: Key) -> (r: UiAction)
        ensures
            (final(self)@, r@) == actions_key_spec(old(self)@, key),
    {
        proof {
            reveal_strlit("start");
            reveal_strlit("stop");
            reveal_strlit("status");
            reveal_strlit("edit");
            reveal_strlit("delete");
            reveal_strlit("back");
        }
        match key.code {
            KeyCode::Esc => {
                self.screen = Screen::List;
                UiAction::Nothing
            },
            KeyCode::Down | KeyCode::Char('j') => {
                self.action_idx = if self.action_idx >= 5 {
                    5
                } else {
                    self.action_idx + 1
                };
                UiAction::Nothing
            },
            KeyCode::Up | KeyCode::Char('k') => {
                self.action_idx = self.action_idx.saturating_sub(1);
                UiAction::Nothing
            },
            KeyCode::Enter => {
                let name = self.active_name.clone();
                let i = self.action_idx;
                if i == 0 {
                    UiAction::Run { cmd: String::from_str("start"), name }
                } else if i == 1 {
                    UiAction::Run { cmd: String::from_str("stop"), name }
                } else if i == 2 {
                    UiAction::Run { cmd: String::from_str("status"), name }
                } else if i == 3 {
                    UiAction::LoadForEdit { name }
                } else if i == 4 {
                    let mut p = String::from_str("Delete saved tunnel '");
                    p.append(name.as_str());
                    p.append("'? (Stops it if running.)");
                    self.confirm_prompt = p;
                    self.confirm_op = Some(ConfirmOp::Delete(name));
                    self.screen = Screen::Confirm;
                    UiAction::Nothing
                } else {
                    self.screen = Screen::List;
                    UiAction::Nothing
                }
            },
            _ => UiAction::Nothing,
        }
    }

    fn confirm_key(&mut self, key: Key) -> (r: UiAction)
        ensures
            (final(self)@, r@) == confirm_key_spec(old(self)@, key),
    {
        match key.code {
            KeyCode::Esc => {
                self.confirm_op = None;
                self.screen = Screen::List;
                UiAction::Refresh
            },
            KeyCode::Enter => {
                let op = self.confirm_op.take();
                match op {
                    Some(ConfirmOp::Delete(n)) => UiAction::Run { cmd: String::from_str("delete"), name: n },
                    Some(ConfirmOp::Start(n)) => UiAction::Run { cmd: String::from_str("start"), name: n },
                    None => {
                        self.screen = Screen::List;
                        UiAction::Nothing
                    },
                }
            },
            _ => UiAction::Nothing,
        }
    }

    /// What a key does to the UI, and what the terminal loop does next.
    pub fn handle_key(&mut self, key: Key) -> (r: UiAction)
        ensures
            (final(self)@, r@) == key_step(old(self)@, key),
    {
        if key.release {
            return UiAction::Nothing;
        }
        if key.ctrl && key.code == KeyCode::Char('c') {
            self.quit = true;
            return UiAction::Nothing;
        }
        match self.screen {
            Screen::List => self.list_key(key),
            Screen::EditMenu => self.edit_menu_key(key),
            Screen::Field => self.field_key(key),
            Screen::Actions => self.actions_key(key),
            Screen::Confirm => self.confirm_key(key),
            Screen::Inspect => {
                if key.code == KeyCode::Enter || key.code == KeyCode::Esc {
                    self.screen = Screen::List;
                    self.inspect = None;
                }
                UiAction::Nothing
            },
            Screen::Result => {
                self.screen = Screen::List;
                self.result = String::new();
                UiAction::Refresh
            },
        }
    }
}

/// `char::is_control`.
pub fn is_control_char(c: char) -> (b: bool)
    ensures
        b == is_control(c),
{
    let u = c as u32;
    u < 0x20 || (0x7f <= u && u < 0xa0)
}

// ---------------------------------------------------------------------------
// Results of the work the terminal loop does.
/// `start`, `stop` and `delete` return to the list when they succeed; what
/// `status` prints, and every error, is shown on the Result screen.
pub open spec fn after_run_spec(v: AppView, cmd: Seq<char>, res: Result<Seq<char>, Seq<char>>) -> (AppView, ActionView) {
    let silent = cmd == "start"@ || cmd == "stop"@ || cmd == "delete"@;
    match res {
        Ok(body) => if silent {
            (AppView { screen: Screen::List, ..v }, ActionView::Refresh)
        } else {
            (AppView { result: body, screen: Screen::Result, ..v }, ActionView::Nothing)
        },
        Err(e) => (AppView { result: e, screen: Screen::Result, ..v }, ActionView::Nothing),
    }
}

pub open spec fn res_view(r: Result<String, String>) -> Result<Seq<char>, Seq<char>> {
    match r {
        Ok(s) => Ok(s@),
        Err(e) => Err(e@),
    }
}

pub open spec fn start_prompt(name: Seq<char>) -> Seq<char> {
    "Start tunnel '"@ + name + "'?"@
}

/// After saving: a new setup with a name asks whether to start it; otherwise
/// back to the list. A failed save stays in the editor with the error.
pub open spec fn after_save_spec(v: AppView, res: Result<(), Seq<char>>) -> (AppView, ActionView) {
    match res {
        Ok(()) => if v.edit_is_new && v.edit.name.len() > 0 {
            (
                AppView {
                    edit_err: Seq::empty(),
                    confirm_prompt: start_prompt(v.edit.name),
                    confirm_op: Some(ConfirmView::Start(v.edit.name)),
                    screen: Screen::Confirm,
                    ..v
                },
                ActionView::Nothing,
            )
        } else {
            (AppView { edit_err: Seq::empty(), screen: Screen::List, ..v }, ActionView::Refresh)
        },
        Err(e) => (AppView { edit_err: e, screen: Screen::EditMenu, ..v }, ActionView::Nothing),
    }
}

impl App {
    /// Records how `start`, `stop`, `status` or `delete` went.
    pub fn after_run(&mut self, cmd: &str, res: Result<String, String>) -> (r: UiAction)
        ensures
            (final(self)@, r@) == after_run_spec(old(self)@, cmd@, res_view(res)),
    {
        let silent = crate::text::str_eq(cmd, "start") || crate::text::str_eq(cmd, "stop")
            || crate::text::str_eq(cmd, "delete");
        match res {
            Ok(body) => {
                if silent {
                    self.screen = Screen::List;
                    UiAction::Refresh
                } else {
                    self.result = body;
                    self.screen = Screen::Result;
                    UiAction::Nothing
                }
            },
            Err(e) => {
                self.result = e;
                self.screen = Screen::Result;
                UiAction::Nothing
            },
        }
    }

    /// Records how saving the edited setup went.
    pub fn after_save(&mut self, res: Result<(), String>) -> (r: UiAction)
        ensures
            (final(self)@, r@) == after_save_spec(
                old(self)@,
                match res {
                    Ok(()) => Ok(()),
                    Err(e) => Err(e@),
                },
            ),
    {
        match res {
            Ok(()) => {
                self.edit_err = String::new();
                if self.edit_is_new && !self.edit.name.as_str().is_empty() {
                    let name = self.edit.name.clone();
                    let mut p = String::from_str("Start tunnel '");
                    p.append(name.as_str());
                    p.append("'?");
                    self.confirm_prompt = p;
                    self.confirm_op = Some(ConfirmOp::Start(name));
                    self.screen = Screen::Confirm;
                    UiAction::Nothing
                } else {
                    self.screen = Screen::List;
                    UiAction::Refresh
                }
            },
            Err(e) => {
                self.edit_err = e;
                self.screen = Screen::EditMenu;
                UiAction::Nothing
            },
        }
    }

    /// Opens the editor on a loaded setup, or shows why it could not be loaded.
    pub fn after_load_edit(&mut self, res: Result<Config, String>)
        ensures
            match res {
                Ok(c) => final(self)@ == open_editor_spec(old(self)@, c@, false),
                Err(e) => final(self)@ == (AppView { result: e@, screen: Screen::Result, ..old(self)@ }),
            },
    {
        match res {
            Ok(c) => self.open_editor(c, false),
            Err(e) => {
                self.result = e;
                self.screen = Screen::Result;
            },
        }
    }

    /// The wheel scrolls the list (not while the filter is being typed).
    pub fn scroll_wheel(&mut self, down: bool)
        ensures
            final(self)@ == (if old(self)@.screen == Screen::List && !old(self)@.filter_editing {
                list_key_spec(
                    old(self)@,
                    Key { code: if down { KeyCode::Down } else { KeyCode::Up }, ctrl: false, alt: false, meta: false, release: false },
                ).0
            } else {
                old(self)@
            }),
    {
        if self.screen == Screen::List && !self.filter_editing {
            let k = Key {
                code: if down {
                    KeyCode::Down
                } else {
                    KeyCode::Up
                },
                ctrl: false,
                alt: false,
                meta: false,
                release: false,
            };
            let _ = self.list_key(k);
        }
    }

    /// A click on the list: it ends typing a filter; on row `row` (the row
    /// shown under the pointer, if any) it selects the row, or opens it when
    /// it is already selected.
    pub fn list_click(&mut self, row: Option<usize>)
        ensures
            final(self)@ == (match row {
                Some(i) => if i == old(self)@.selected {
                    activate_spec(AppView { filter_editing: false, ..old(self)@ })
                } else {
                    AppView { filter_editing: false, selected: i as int, ..old(self)@ }
                },
                None => AppView { filter_editing: false, ..old(self)@ },
            }),
    {
        self.filter_editing = false;
        match row {
            Some(i) => {
                if i == self.selected {
                    self.activate_list_row();
                } else {
                    self.selected = i;
                }
            },
            None => {},
        }
    }

    /// A click on item `i` of the action menu or the edit menu: it selects the
    /// item, or runs it (as Enter does) when it is already selected.
    pub fn menu_click(&mut self, i: usize) -> (r: UiAction)
        ensures
            old(self)@.screen == Screen::Actions ==> {
                let v1 = AppView { action_idx: i as int, ..old(self)@ };
                if i == old(self)@.action_idx {
                    (final(self)@, r@) == key_step(v1, enter_key())
                } else {
                    (final(self)@, r@) == (v1, ActionView::Nothing)
                }
            },
            old(self)@.screen == Screen::EditMenu ==> {
                let v1 = AppView { edit_idx: i as int, ..old(self)@ };
                if i == old(self)@.edit_idx {
                    (final(self)@, r@) == key_step(v1, enter_key())
                } else {
                    (final(self)@, r@) == (v1, ActionView::Nothing)
                }
            },
            old(self)@.screen != Screen::Actions && old(self)@.screen != Screen::EditMenu ==> (final(self)@, r@)
                == (old(self)@, ActionView::Nothing),
    {
        let enter = Key { code: KeyCode::Enter, ctrl: false, alt: false, meta: false, release: false };
        if self.screen == Screen::Actions {
            let already = i == self.action_idx;
            self.action_idx = i;
            if already {
                return self.handle_key(enter);
            }
            return UiAction::Nothing;
        }
        if self.screen == Screen::EditMenu {
            let already = i == self.edit_idx;
            self.edit_idx = i;
            if already {
                return self.handle_key(enter);
            }
            return UiAction::Nothing;
        }
        UiAction::Nothing
    }

    /// The list refreshes itself every 5 seconds while it is shown and no
    /// filter is being typed.
    pub fn should_refresh(&self, elapsed_ms: u64) -> (b: bool)
        ensures
            b == (self.screen == Screen::List && !self.filter_editing && elapsed_ms >= 5000),
    {
        self.screen == Screen::List && !self.filter_editing && elapsed_ms >= 5000
    }
}

pub open spec fn enter_key() -> Key {
    Key { code: KeyCode::Enter, ctrl: false, alt: false, meta: false, release: false }
}

// ---------------------------------------------------------------------------
// Refreshing the list.
/// What a refresh learned of a saved setup: whether it is on, whether ssh
/// listens on its port, whether it has a stored error, and its error hint.
pub struct SetupState {
    pub config: Config,
    pub on: bool,
    pub listening: bool,
    pub has_error: bool,
    pub hint: String,
}

/// A setup failed when it has an error, or is on while ssh does not listen.
pub open spec fn setup_failed(s: SetupState) -> bool {
    s.has_error || (s.on && !s.listening)
}

pub open spec fn setup_rows(ss: Seq<SetupState>) -> Seq<Row> {
    ss.map_values(|s: SetupState| Row::Known { config: s.config, listening: s.listening, failed: setup_failed(s) })
}

pub open spec fn detected_rows(ds: Seq<DetectedTunnel>) -> Seq<Row> {
    ds.map_values(|d: DetectedTunnel| Row::Detected(d))
}

/// `NAME: HINT` (or `NAME: ssh not listening`) for each failed setup whose
/// ssh does not listen.
pub open spec fn failing_msgs(ss: Seq<SetupState>) -> Seq<Seq<char>>
    decreases ss.len(),
{
    if ss.len() == 0 {
        Seq::empty()
    } else {
        let r = failing_msgs(ss.drop_last());
        let s = ss.last();
        if setup_failed(s) && !s.listening {
            r.push(
                s.config.name@ + (if s.hint@.len() == 0 {
                    ": ssh not listening"@
                } else {
                    ": "@ + s.hint@
                }),
            )
        } else {
            r
        }
    }
}

/// `N known   M other`, then the first failure and how many more there are.
pub open spec fn refresh_status(known: nat, other: nat, failing: Seq<Seq<char>>) -> Seq<char> {
    crate::num::dec(known) + " known   "@ + crate::num::dec(other) + " other"@ + (if failing.len() > 0 {
        "   "@ + failing[0] + (if failing.len() > 1 {
            " (+"@ + crate::num::dec((failing.len() - 1) as nat) + " more)"@
        } else {
            Seq::empty()
        })
    } else {
        Seq::empty()
    })
}

/// The key of the row shown at the selection, if any.
pub open spec fn selected_key(v: AppView) -> Option<Seq<char>> {
    let vis = visible(v);
    if 0 <= v.selected < vis.len() {
        Some(v.rows[vis[v.selected]].key_spec())
    } else {
        None
    }
}

/// The first position among the rows shown whose key is `key`.
pub open spec fn key_pos(rows: Seq<Row>, vis: Seq<int>, key: Seq<char>) -> Option<int>
    decreases vis.len(),
{
    if vis.len() == 0 {
        None
    } else if rows[vis[0]].key_spec() == key {
        Some(0)
    } else {
        match key_pos(rows, vis.drop_first(), key) {
            Some(i) => Some(i + 1),
            None => None,
        }
    }
}

/// The list after a refresh: the saved setups then the found processes, the
/// status line, and the selection kept on the same row when it is still
/// shown (else kept within the rows shown), unless a filter is being typed.
pub open spec fn refresh_spec(v: AppView, ss: Seq<SetupState>, ds: Seq<DetectedTunnel>) -> AppView {
    let v1 = AppView {
        rows: setup_rows(ss) + detected_rows(ds),
        status: refresh_status(ss.len(), ds.len(), failing_msgs(ss)),
        ..v
    };
    if !v.filter_editing && selected_key(v) is Some {
        let vis = visible(v1);
        match key_pos(v1.rows, vis, selected_key(v)->0) {
            Some(i) => AppView { selected: i, ..v1 },
            None => if v1.selected >= vis.len() {
                AppView { selected: dec_sat(vis.len() as int), ..v1 }
            } else {
                v1
            },
        }
    } else {
        v1
    }
}

impl App {
    fn key_pos_exec(&self, vis: &Vec<usize>, key: &String) -> (r: Option<usize>)
        requires
            forall|k: int| 0 <= k < vis.len() ==> vis@[k] < self.rows.len(),
        ensures
            match r {
                Some(i) => key_pos(self.rows@, idx_view(vis@), key@) == Some(i as int),
                None => key_pos(self.rows@, idx_view(vis@), key@) is None,
            },
    {
        let ghost all = idx_view(vis@);
        let mut i: usize = 0;
        assert(all.skip(0) =~= all);
        while i < vis.len()
            invariant
                i <= vis.len(),
                all == idx_view(vis@),
                forall|k: int| 0 <= k < vis.len() ==> vis@[k] < self.rows.len(),
                match key_pos(self.rows@, all, key@) {
                    Some(j) => key_pos(self.rows@, all.skip(i as int), key@) == Some(j - i),
                    None => key_pos(self.rows@, all.skip(i as int), key@) is None,
                },
            decreases vis.len() - i,
        {
            assert(all.skip(i as int)[0] == vis@[i as int] as int);
            assert(all.skip(i as int).drop_first() =~= all.skip(i + 1));
            let k = self.rows[vis[i]].key();
            if crate::text::str_eq(k.as_str(), key.as_str()) {
                return Some(i);
            }
            i = i + 1;
        }
        None
    }

    /// Takes in what a refresh found: the saved setups with their state, and
    /// the ssh processes found running.
    pub fn apply_refresh(&mut self, setups: Vec<SetupState>, detected: Vec<DetectedTunnel>)
        ensures
            final(self)@ == refresh_spec(old(self)@, setups@, detected@),
    {
        let ghost ss = setups@;
        let ghost ds = detected@;
        let vis0 = self.visible_rows();
        let sel_key: Option<String> = if self.selected < vis0.len() {
            Some(self.rows[vis0[self.selected]].key())
        } else {
            None
        };
        let known_n = setups.len();
        let other_n = detected.len();
        let mut rows: Vec<Row> = Vec::new();
        let mut failing: Vec<String> = Vec::new();
        let mut setups = setups;
        let mut i: usize = 0;
        while setups.len() > 0
            invariant
                i + setups.len() == ss.len(),
                ss.len() <= usize::MAX,
                setups@ == ss.skip(i as int),
                rows@ == setup_rows(ss.take(i as int)),
                string_views(failing@) == failing_msgs(ss.take(i as int)),
            decreases setups.len(),
        {
            let s = setups.remove(0);
            assert(ss.take(i + 1).drop_last() =~= ss.take(i as int));
            assert(ss.take(i + 1).last() == s);
            let failed = s.has_error || (s.on && !s.listening);
            if failed && !s.listening {
                let mut m = s.config.name.clone();
                if s.hint.as_str().is_empty() {
                    m.append(": ssh not listening");
                } else {
                    m.append(": ");
                    m.append(s.hint.as_str());
                }
                assert(m@ =~= s.config.name@ + (if s.hint@.len() == 0 {
                    ": ssh not listening"@
                } else {
                    ": "@ + s.hint@
                }));
                let ghost o = failing@;
                failing.push(m);
                proof {
                    crate::text::lemma_string_views_push(o, m);
                }
                assert(string_views(failing@) == failing_msgs(ss.take(i + 1)));
            } else {
                assert(string_views(failing@) == failing_msgs(ss.take(i + 1)));
            }
            let ghost orows = rows@;
            rows.push(Row::Known { config: s.config, listening: s.listening, failed });
            assert(rows@ =~= setup_rows(ss.take(i + 1)));
            assert(setups@ =~= ss.skip(i + 1));
            i = i + 1;
        }
        assert(ss.take(i as int) =~= ss);
        let mut detected = detected;
        let mut j: usize = 0;
        while detected.len() > 0
            invariant
                j + detected.len() == ds.len(),
                ds.len() <= usize::MAX,
                detected@ == ds.skip(j as int),
                rows@ == setup_rows(ss) + detected_rows(ds.take(j as int)),
            decreases detected.len(),
        {
            let d = detected.remove(0);
            assert(ds.take(j + 1) =~= ds.take(j as int).push(d));
            rows.push(Row::Detected(d));
            assert(rows@ =~= setup_rows(ss) + detected_rows(ds.take(j + 1)));
            assert(detected@ =~= ds.skip(j + 1));
            j = j + 1;
        }
        assert(ds.take(j as int) =~= ds);
        let ghost v0 = self@;
        assert(sel_key matches Some(k) ==> selected_key(v0) == Some(k@));
        assert(sel_key is None ==> selected_key(v0) is None);
        self.rows = rows;
        let mut st = crate::num::u64_string(known_n as u64);
        st.append(" known   ");
        let on = crate::num::u64_string(other_n as u64);
        st.append(on.as_str());
        st.append(" other");
        if failing.len() > 0 {
            st.append("   ");
            st.append(failing[0].as_str());
            assert(string_views(failing@)[0] == failing@[0]@);
            if failing.len() > 1 {
                st.append(" (+");
                let more = crate::num::u64_string((failing.len() - 1) as u64);
                st.append(more.as_str());
                st.append(" more)");
            }
        }
        assert(st@ =~= refresh_status(ss.len(), ds.len(), failing_msgs(ss)));
        self.status = st;
        let ghost v1 = self@;
        assert(v1 == (AppView {
            rows: setup_rows(ss) + detected_rows(ds),
            status: refresh_status(ss.len(), ds.len(), failing_msgs(ss)),
            ..v0
        }));
        if !self.filter_editing {
            match sel_key {
                Some(key) => {
                    let vis = self.visible_rows();
                    match self.key_pos_exec(&vis, &key) {
                        Some(p) => {
                            self.selected = p;
                        },
                        None => {
                            if self.selected >= vis.len() {
                                self.selected = vis.len().saturating_sub(1);
                            }
                        },
                    }
                },
                None => {},
            }
        }
    }
}

// ---------------------------------------------------------------------------
// Texts of the screens.
pub open spec fn keys_line(screen: Screen) -> Seq<char> {
    match screen {
        Screen::List => "enter actions   n new   r refresh   / filter   q quit"@,
        Screen::EditMenu => "enter change   save writes file   esc cancel"@,
        Screen::Field => "enter ok   esc back"@,
        Screen::Actions => "enter run   esc back"@,
        Screen::Confirm => "enter confirm   esc cancel"@,
        Screen::Inspect => "enter back"@,
        Screen::Result => "any key back"@,
    }
}

/// The header title, the status line (empty when there is none) and the keys
/// line of the current screen.
pub open spec fn chrome_spec(v: AppView, version: Seq<char>) -> (Seq<char>, Seq<char>, Seq<char>) {
    match v.screen {
        Screen::List => (
            "SSH tunnels  "@ + version,
            if v.filter_editing {
                "filter: "@ + v.filter + "_"@
            } else if v.filter.len() > 0 {
                v.status + "   /"@ + v.filter
            } else {
                v.status
            },
            keys_line(Screen::List),
        ),
        Screen::EditMenu => (
            if v.edit_is_new {
                "New setup"@
            } else if v.edit.name.len() == 0 {
                "Edit"@
            } else {
                "Edit: "@ + v.edit.name
            },
            v.edit_err,
            keys_line(Screen::EditMenu),
        ),
        Screen::Field => ("Edit setting"@, Seq::empty(), keys_line(Screen::Field)),
        Screen::Actions => ("Tunnel: "@ + v.active_name, Seq::empty(), keys_line(Screen::Actions)),
        Screen::Confirm => ("Confirm"@, Seq::empty(), keys_line(Screen::Confirm)),
        Screen::Inspect => ("Detected tunnel"@, Seq::empty(), keys_line(Screen::Inspect)),
        Screen::Result => ("Result"@, Seq::empty(), keys_line(Screen::Result)),
    }
}

/// The lines of the field editor: title, hint, then the two options of a
/// choice field or the text with its cursor, then the error.
pub open spec fn field_lines_spec(f: FieldView) -> Seq<Seq<char>> {
    let j = crate::ui::forms::ui_field_index(f.key);
    let hint = crate::ui::forms::field_hint_spec(j);
    let head: Seq<Seq<char>> = if hint.len() > 0 {
        seq![crate::ui::forms::field_title_spec(j), hint]
    } else {
        seq![crate::ui::forms::field_title_spec(j)]
    };
    let body: Seq<Seq<char>> = if f.key == "auth"@ {
        seq![
            Seq::empty(),
            (if f.choice_idx == 0 { "> "@ } else { "  "@ }) + "SSH config alias"@,
            (if f.choice_idx == 1 { "> "@ } else { "  "@ }) + "User, host, and key"@,
        ]
    } else if f.key == "reconnect"@ {
        seq![
            Seq::empty(),
            (if f.choice_idx == 0 { "> "@ } else { "  "@ }) + "Yes"@,
            (if f.choice_idx == 1 { "> "@ } else { "  "@ }) + "No"@,
        ]
    } else {
        seq![Seq::empty(), crate::ui::forms::render_with_cursor_spec(f.input, f.cursor)]
    };
    let tail: Seq<Seq<char>> = if f.err.len() > 0 {
        seq![Seq::empty(), f.err]
    } else {
        Seq::empty()
    };
    head + body + tail
}

impl App {
    pub fn chrome(&self, version: &str) -> (r: (String, String, &'static str))
        ensures
            (r.0@, r.1@, r.2@) == chrome_spec(self@, version@),
    {
        match self.screen {
            Screen::List => {
                let mut t = String::from_str("SSH tunnels  ");
                t.append(version);
                let st = if self.filter_editing {
                    let mut x = String::from_str("filter: ");
                    x.append(self.filter.as_str());
                    x.append("_");
                    x
                } else if !self.filter.as_str().is_empty() {
                    let mut x = self.status.clone();
                    x.append("   /");
                    x.append(self.filter.as_str());
                    x
                } else {
                    self.status.clone()
                };
                (t, st, "enter actions   n new   r refresh   / filter   q quit")
            },
            Screen::EditMenu => {
                let t = if self.edit_is_new {
                    String::from_str("New setup")
                } else if self.edit.name.as_str().is_empty() {
                    String::from_str("Edit")
                } else {
                    let mut x = String::from_str("Edit: ");
                    x.append(self.edit.name.as_str());
                    x
                };
                (t, self.edit_err.clone(), "enter change   save writes file   esc cancel")
            },
            Screen::Field => (String::from_str("Edit setting"), String::new(), "enter ok   esc back"),
            Screen::Actions => {
                let mut t = String::from_str("Tunnel: ");
                t.append(self.active_name.as_str());
                (t, String::new(), "enter run   esc back")
            },
            Screen::Confirm => (String::from_str("Confirm"), String::new(), "enter confirm   esc cancel"),
            Screen::Inspect => (String::from_str("Detected tunnel"), String::new(), "enter back"),
            Screen::Result => (String::from_str("Result"), String::new(), "any key back"),
        }
    }

    /// The hint above the edit menu: the last save error, else what to do.
    pub fn edit_menu_hint(&self) -> (r: String)
        ensures
            r@ == (if self.edit_err@.len() == 0 {
                "Select a setting to change, then Save to write the file and return."@
            } else {
                self.edit_err@
            }),
    {
        if self.edit_err.as_str().is_empty() {
            String::from_str("Select a setting to change, then Save to write the file and return.")
        } else {
            self.edit_err.clone()
        }
    }

    /// The text of the Inspect screen for the process being inspected.
    pub fn inspect_text(&self) -> (r: Option<String>)
        ensures
            match self@.inspect {
                Some(d) => r matches Some(t) && t@ == d.label + "\nPID "@ + crate::num::int_text(d.pid as int)
                    + "\n"@ + d.detail + "\n\n"@ + d.command
                    + "\n\nThis process is not managed here (Cursor / other tools)."@,
                None => r is None,
            },
    {
        match &self.inspect {
            Some(d) => {
                let mut t = d.label.clone();
                t.append("\nPID ");
                let p = crate::num::i32_string(d.pid);
                t.append(p.as_str());
                t.append("\n");
                t.append(d.detail.as_str());
                t.append("\n\n");
                t.append(d.command.as_str());
                t.append("\n\nThis process is not managed here (Cursor / other tools).");
                Some(t)
            },
            None => None,
        }
    }

    /// The text of the Result screen.
    pub fn result_text(&self) -> (r: String)
        ensures
            r@ == self.result@ + "\n\nPress any key to return."@,
    {
        let mut t = self.result.clone();
        t.append("\n\nPress any key to return.");
        t
    }

    /// The lines of the field editor, when a field is being edited.
    pub fn field_lines(&self) -> (r: Option<Vec<String>>)
        ensures
            match self@.field {
                Some(f) => r matches Some(ls) && string_views(ls@) == field_lines_spec(f),
                None => r is None,
            },
    {
        proof {
            reveal_strlit("> ");
            reveal_strlit("  ");
        }
        let f = match &self.field {
            None => {
                return None;
            },
            Some(f) => f,
        };
        let mut ls: Vec<String> = Vec::new();
        ls.push(String::from_str(crate::ui::forms::field_title(f.key.as_str())));
        let hint = crate::ui::forms::field_hint(f.key.as_str());
        if !hint.is_empty() {
            ls.push(String::from_str(hint));
        }
        if crate::text::str_eq(f.key.as_str(), "auth") {
            ls.push(String::new());
            ls.push(crate::ui::forms::choice_line(f.choice_idx == 0, "SSH config alias"));
            ls.push(crate::ui::forms::choice_line(f.choice_idx == 1, "User, host, and key"));
        } else if crate::text::str_eq(f.key.as_str(), "reconnect") {
            ls.push(String::new());
            ls.push(crate::ui::forms::choice_line(f.choice_idx == 0, "Yes"));
            ls.push(crate::ui::forms::choice_line(f.choice_idx == 1, "No"));
        } else {
            ls.push(String::new());
            ls.push(crate::ui::forms::render_with_cursor(f.input.as_str(), f.cursor));
        }
        if !f.err.as_str().is_empty() {
            ls.push(String::new());
            ls.push(f.err.clone());
        }
        assert(string_views(ls@) =~= field_lines_spec(self@.field->0));
        Some(ls)
    }
}

// ---------------------------------------------------------------------------
// Laws of the UI.
/// Rows of ssh processes this app did not start are inspect-only: Enter on
/// such a row opens the Inspect screen and asks for nothing, and no key on the
/// Inspect screen asks to start, stop, save or delete anything.
pub proof fn lemma_found_rows_inspect_only(v: AppView, key: Key)
    ensures
        v.screen == Screen::Inspect ==> key_step(v, key).1 is Nothing,
        ({
            let vis = visible(v);
            (v.screen == Screen::List && !v.filter_editing && !key.release && key.code == KeyCode::Enter && 0
                <= v.selected < vis.len() && v.rows[vis[v.selected]] is Detected) ==> (key_step(v, key).1 is Nothing
                && key_step(v, key).0.screen == Screen::Inspect)
        }),
{
}

/// Start, Stop and Delete return to the list (and refresh it) when they
/// succeed; what Status prints, and every error, is shown on the Result screen.
pub proof fn lemma_run_outcome_screens(v: AppView, cmd: Seq<char>, res: Result<Seq<char>, Seq<char>>)
    ensures
        (cmd == "start"@ || cmd == "stop"@ || cmd == "delete"@) && res is Ok ==> (after_run_spec(v, cmd, res).0.screen
            == Screen::List && after_run_spec(v, cmd, res).1 is Refresh),
        cmd == "status"@ && res is Ok ==> (after_run_spec(v, cmd, res).0.screen == Screen::Result
            && after_run_spec(v, cmd, res).0.result == res->Ok_0),
        res is Err ==> (after_run_spec(v, cmd, res).0.screen == Screen::Result && after_run_spec(v, cmd, res).0.result
            == res->Err_0),
{
    reveal_strlit("start");
    reveal_strlit("stop");
    reveal_strlit("delete");
    reveal_strlit("status");
    assert("status"@ != "start"@ && "status"@ != "stop"@ && "status"@ != "delete"@) by {
        assert("status"@.len() != "start"@.len());
        assert("status"@.len() != "stop"@.len());
        assert("status"@[0] != "delete"@[0]);
    }
}

/// Esc cancels: on no screen does it save, run a command or load a setup,
/// and the setup being edited stays as it was.
pub proof fn lemma_esc_cancels(v: AppView, key: Key)
    requires
        key.code == KeyCode::Esc,
    ensures
        !(key_step(v, key).1 is Save),
        !(key_step(v, key).1 is Run),
        !(key_step(v, key).1 is LoadForEdit),
        key_step(v, key).0.edit == v.edit,
{
}

/// Renaming is not offered: the editor opened on a saved setup that has a
/// name locks the name, and a locked edit menu has no item for the name.
pub proof fn lemma_no_rename(v: AppView, cfg: ConfigView, c: ConfigView)
    ensures
        cfg.name.len() > 0 ==> open_editor_spec(v, cfg, false).edit_name_locked,
        forall|k: int|
            0 <= k < edit_menu_items_spec(c, true).len() ==> #[trigger] edit_menu_items_spec(c, true)[k].0
                != "name"@,
{
    reveal_strlit("name");
    reveal_strlit("comment");
    reveal_strlit("auth");
    reveal_strlit("user");
    reveal_strlit("host");
    reveal_strlit("key");
    reveal_strlit("target");
    reveal_strlit("local");
    reveal_strlit("rhost");
    reveal_strlit("rport");
    reveal_strlit("reconnect");
    reveal_strlit("delay");
    reveal_strlit("save");
    reveal_strlit("cancel");
    let items = edit_menu_items_spec(c, true);
    assert forall|k: int| 0 <= k < items.len() implies #[trigger] items[k].0 != "name"@ by {
        let key = items[k].0;
        if key.len() == 4 {
            assert(key[0] != 'n');
        }
    }
}

/// What Enter applies from field `f`: the chosen option of a choice field,
/// else the text typed.
pub open spec fn entered_value(f: FieldView) -> Seq<char> {
    if is_choice_key(f.key) {
        choice_value(f.key, f.choice_idx)
    } else {
        f.input
    }
}

/// The field editor keeps its cursor within its text, whatever the key; only
/// an accepted Enter changes the setup being edited: Esc closes the field with
/// the setup unchanged, and a refused Enter keeps the setup and the field
/// open, with the error shown in it. This holds of the field's own key
/// handler (`field_key_spec`, what `field_key` does) and of a key pressed on
/// the Field screen (`key_step`, what `handle_key` does).
pub proof fn lemma_field_editor(v: AppView, key: Key)
    requires
        v.screen == Screen::Field,
        v.field matches Some(f) && 0 <= f.cursor <= f.input.len(),
    ensures
        ({
            let f = v.field->0;
            let (w, a) = field_key_spec(v, key);
            &&& w.field matches Some(f2) ==> 0 <= f2.cursor <= f2.input.len()
            &&& key.code != KeyCode::Enter ==> w.edit == v.edit
            &&& key.code == KeyCode::Esc ==> (w.field is None && w.screen == Screen::EditMenu && w.edit == v.edit
                && a is Nothing)
            &&& key.code == KeyCode::Enter ==> match apply_field_spec(v.edit, f.key, entered_value(f), v.home) {
                Ok(nc) => w.edit == nc && w.field is None && w.screen == Screen::EditMenu,
                Err(m) => w.edit == v.edit && w.screen == Screen::Field && w.field == Some(
                    FieldView { err: m, ..f },
                ),
            }
        }),
        ({
            let f = v.field->0;
            let (w, a) = key_step(v, key);
            &&& w.field matches Some(f2) ==> 0 <= f2.cursor <= f2.input.len()
            &&& key.code != KeyCode::Enter ==> w.edit == v.edit
            &&& (key.code == KeyCode::Esc && !key.release) ==> (w.field is None && w.screen == Screen::EditMenu
                && w.edit == v.edit && a is Nothing)
            &&& (key.code == KeyCode::Enter && !key.release) ==> match apply_field_spec(
                v.edit,
                f.key,
                entered_value(f),
                v.home,
            ) {
                Ok(nc) => w.edit == nc && w.field is None && w.screen == Screen::EditMenu,
                Err(m) => w.edit == v.edit && w.screen == Screen::Field && w.field == Some(
                    FieldView { err: m, ..f },
                ),
            }
        }),
{
}

proof fn lemma_key_pos_found(rows: Seq<Row>, vis: Seq<int>, key: Seq<char>, j: int)
    requires
        0 <= j < vis.len(),
        rows[vis[j]].key_spec() == key,
    ensures
        key_pos(rows, vis, key) matches Some(i) && 0 <= i < vis.len() && rows[vis[i]].key_spec() == key,
    decreases vis.len(),
{
    if rows[vis[0]].key_spec() != key {
        let t = vis.drop_first();
        assert(t[j - 1] == vis[j]);
        lemma_key_pos_found(rows, t, key, j - 1);
        let i = key_pos(rows, t, key)->0;
        assert(t[i] == vis[i + 1]);
    }
}

/// A refresh keeps the selection on the same row, found by its key, when a
/// row with that key is still shown (unless a filter is being typed).
pub proof fn lemma_refresh_keeps_selection(v: AppView, ss: Seq<SetupState>, ds: Seq<DetectedTunnel>, j: int)
    requires
        !v.filter_editing,
        selected_key(v) is Some,
        ({
            let rows1 = setup_rows(ss) + detected_rows(ds);
            let vis1 = visible_upto(rows1, v.filter, rows1.len() as int);
            0 <= j < vis1.len() && rows1[vis1[j]].key_spec() == selected_key(v)->0
        }),
    ensures
        selected_key(refresh_spec(v, ss, ds)) == selected_key(v),
{
    let rows1 = setup_rows(ss) + detected_rows(ds);
    let vis1 = visible_upto(rows1, v.filter, rows1.len() as int);
    lemma_key_pos_found(rows1, vis1, selected_key(v)->0, j);
}

proof fn lemma_visible_upto_shows(rows: Seq<Row>, filter: Seq<char>, n: int, k: int)
    requires
        0 <= k < visible_upto(rows, filter, n).len(),
    ensures
        0 <= visible_upto(rows, filter, n)[k] < rows.len(),
        shows(rows[visible_upto(rows, filter, n)[k]], filter),
    decreases n,
{
    if 0 < n <= rows.len() {
        let w = visible_upto(rows, filter, n - 1);
        if k < w.len() {
            lemma_visible_upto_shows(rows, filter, n - 1, k);
        }
    }
}

/// While a filter is set, only saved setups are shown: the found ssh
/// processes are hidden.
pub proof fn lemma_filter_hides_found_rows(v: AppView, k: int)
    requires
        trim(v.filter).len() > 0,
        0 <= k < visible(v).len(),
    ensures
        v.rows[visible(v)[k]] is Known,
{
    lemma_visible_upto_shows(v.rows, v.filter, v.rows.len() as int, k);
}

} // verus!
