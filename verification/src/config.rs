//! Saved setups: the `Config` record, its defaults, the `KEY=value` file
//! format with bash-style quoting, and the edit-menu vocabulary.
use vstd::prelude::*;
use crate::error::{TunnelError, invalid_name_text};
use crate::num::{parse_i64, parse_i64_spec};
use crate::text::{
    append_chars, append_str, chars_of, copy_range, find, first_occurrence, is_alnum,
    is_ascii_alnum, is_ws, join_chars, join_words, lines, lines_of, occurs_at, replace,
    replace_chars, split_ws_str, starts_with, starts_with_str, str_eq, string_of, strip_cr, trim,
    trim_chars, views, words,
};

verus! {

/// One saved tunnel setup; every field is the text of one `KEY=value` line.
#[derive(Debug, Clone, Default, PartialEq, Eq)]
pub struct Config {
    pub name: String,
    pub comment: String,
    pub auth_mode: String,
    pub ssh_target: String,
    pub remote_user: String,
    pub ssh_host: String,
    pub local_port: String,
    pub remote_host: String,
    pub remote_port: String,
    pub ssh_key: String,
    pub reconnect: String,
    pub reconnect_delay: String,
}

/// The text of every field of a `Config`.
pub struct ConfigView {
    pub name: Seq<char>,
    pub comment: Seq<char>,
    pub auth_mode: Seq<char>,
    pub ssh_target: Seq<char>,
    pub remote_user: Seq<char>,
    pub ssh_host: Seq<char>,
    pub local_port: Seq<char>,
    pub remote_host: Seq<char>,
    pub remote_port: Seq<char>,
    pub ssh_key: Seq<char>,
    pub reconnect: Seq<char>,
    pub reconnect_delay: Seq<char>,
}

impl View for Config {
    type V = ConfigView;

    open spec fn view(&self) -> ConfigView {
        ConfigView {
            name: self.name@,
            comment: self.comment@,
            auth_mode: self.auth_mode@,
            ssh_target: self.ssh_target@,
            remote_user: self.remote_user@,
            ssh_host: self.ssh_host@,
            local_port: self.local_port@,
            remote_host: self.remote_host@,
            remote_port: self.remote_port@,
            ssh_key: self.ssh_key@,
            reconnect: self.reconnect@,
            reconnect_delay: self.reconnect_delay@,
        }
    }
}

pub open spec fn explicit() -> Seq<char> {
    seq!['e', 'x', 'p', 'l', 'i', 'c', 'i', 't']
}

pub open spec fn alias() -> Seq<char> {
    seq!['a', 'l', 'i', 'a', 's']
}

/// `[user]@[host]` for an explicit setup with both set, else the alias, else `?`.
pub open spec fn via_spec(c: ConfigView) -> Seq<char> {
    if c.auth_mode == explicit() && c.remote_user.len() > 0 && c.ssh_host.len() > 0 {
        c.remote_user + seq!['@'] + c.ssh_host
    } else if c.ssh_target.len() > 0 {
        c.ssh_target
    } else {
        seq!['?']
    }
}

/// `localhost:LOCAL -> RHOST:RPORT via VIA`, with `127.0.0.1` for an empty remote
/// host and the local port for an empty remote port.
pub open spec fn forward_summary_spec(c: ConfigView) -> Seq<char> {
    let lh = if c.remote_host.len() == 0 {
        "127.0.0.1"@
    } else {
        c.remote_host
    };
    let rp = if c.remote_port.len() == 0 {
        c.local_port
    } else {
        c.remote_port
    };
    "localhost:"@ + c.local_port + " -> "@ + lh + seq![':'] + rp + " via "@ + via_spec(c)
}

/// The words of `s` joined by single spaces.
pub open spec fn collapse_ws_spec(s: Seq<char>) -> Seq<char> {
    join_words(words(s), seq![' '])
}

pub open spec fn reconnect_delay_spec(d: Seq<char>) -> int {
    match parse_i64_spec(d) {
        Some(n) => if n >= 0 {
            n
        } else {
            3
        },
        None => 3,
    }
}

/// `s` without trailing `/` characters.
pub open spec fn trim_end_slashes(s: Seq<char>) -> Seq<char>
    decreases s.len(),
{
    if s.len() > 0 && s.last() == '/' {
        trim_end_slashes(s.drop_last())
    } else {
        s
    }
}

pub open spec fn identity_suffix() -> Seq<char> {
    "/.ssh/identity-rsa"@
}

/// `$HOME/.ssh/identity-rsa`, or `~/.ssh/identity-rsa` when `HOME` is empty.
pub open spec fn default_ssh_key_spec(home: Seq<char>) -> Seq<char> {
    if home.len() > 0 {
        trim_end_slashes(home) + identity_suffix()
    } else {
        seq!['~'] + identity_suffix()
    }
}

/// The key path with a leading `~/`, `$HOME/` or `${HOME}/` replaced by `HOME`.
pub open spec fn expand_ssh_key_spec(s: Seq<char>, home: Seq<char>) -> Seq<char> {
    let t = trim(s);
    let h = trim_end_slashes(home);
    if t.len() == 0 {
        Seq::empty()
    } else if home.len() > 0 && starts_with(t, "~/"@) {
        h + seq!['/'] + t.skip(2)
    } else if home.len() > 0 && starts_with(t, "$HOME/"@) {
        h + seq!['/'] + t.skip(6)
    } else if home.len() > 0 && starts_with(t, "${HOME}/"@) {
        h + seq!['/'] + t.skip(8)
    } else {
        t
    }
}

/// The setup after `apply_defaults`, with `home` the value of `HOME`.
pub open spec fn defaults_spec(c: ConfigView, home: Seq<char>) -> ConfigView {
    let auth1 = if c.auth_mode.len() == 0 {
        if c.remote_user.len() > 0 && c.ssh_host.len() > 0 {
            explicit()
        } else {
            alias()
        }
    } else {
        c.auth_mode
    };
    let lp = if c.local_port.len() == 0 {
        "3306"@
    } else {
        c.local_port
    };
    let rh = if c.remote_host.len() == 0 {
        "127.0.0.1"@
    } else {
        c.remote_host
    };
    let rp = if c.remote_port.len() == 0 {
        lp
    } else {
        c.remote_port
    };
    let rc = if c.reconnect.len() == 0 {
        seq!['1']
    } else {
        c.reconnect
    };
    let rd = if c.reconnect_delay.len() == 0 {
        seq!['3']
    } else {
        c.reconnect_delay
    };
    let target = if auth1 == explicit() && c.ssh_target.len() == 0 && c.remote_user.len() > 0
        && c.ssh_host.len() > 0 {
        c.remote_user + seq!['@'] + c.ssh_host
    } else {
        c.ssh_target
    };
    let key = if auth1 == explicit() && trim(c.ssh_key).len() == 0 {
        default_ssh_key_spec(home)
    } else {
        c.ssh_key
    };
    let is_explicit = auth1 == explicit();
    ConfigView {
        name: c.name,
        comment: collapse_ws_spec(c.comment),
        auth_mode: if is_explicit {
            auth1
        } else {
            alias()
        },
        ssh_target: target,
        remote_user: if is_explicit {
            c.remote_user
        } else {
            Seq::empty()
        },
        ssh_host: if is_explicit {
            c.ssh_host
        } else {
            Seq::empty()
        },
        local_port: lp,
        remote_host: rh,
        remote_port: rp,
        ssh_key: key,
        reconnect: rc,
        reconnect_delay: rd,
    }
}

/// What every setup looks like once `apply_defaults` has run.
pub open spec fn has_defaults(c: ConfigView) -> bool {
    &&& c.auth_mode == explicit() || c.auth_mode == alias()
    &&& c.auth_mode == alias() ==> c.remote_user.len() == 0 && c.ssh_host.len() == 0
    &&& c.auth_mode == explicit() ==> trim(c.ssh_key).len() > 0
    &&& c.local_port.len() > 0
    &&& c.remote_host.len() > 0
    &&& c.remote_port.len() > 0
    &&& c.reconnect.len() > 0
    &&& c.reconnect_delay.len() > 0
}

/// Setup names: ASCII letters, digits, `.`, `_`, `-`, starting with a letter or digit.
pub open spec fn name_char_ok(c: char) -> bool {
    is_alnum(c) || c == '_' || c == '.' || c == '-'
}

pub open spec fn valid_name(name: Seq<char>) -> bool {
    &&& name.len() > 0
    &&& is_alnum(name[0])
    &&& forall|i: int| 0 <= i < name.len() ==> #[trigger] name_char_ok(name[i])
}

/// Characters that `conf_quote` leaves unquoted.
pub open spec fn plain_char(c: char) -> bool {
    is_alnum(c) || c == '_' || c == '.' || c == '-' || c == '/' || c == ':' || c == '@' || c
        == '\\'
}

pub open spec fn all_plain(s: Seq<char>) -> bool {
    forall|i: int| 0 <= i < s.len() ==> #[trigger] plain_char(s[i])
}

/// `'\''`: a single quote inside a single-quoted bash word.
pub open spec fn escaped_quote() -> Seq<char> {
    seq!['\'', '\\', '\'', '\'']
}

/// Bash single quoting: `''` for the empty string, the string itself when
/// every character is plain, else the string in single quotes with each `'`
/// written as `'\''`.
pub open spec fn conf_quote_spec(s: Seq<char>) -> Seq<char> {
    if s.len() == 0 {
        seq!['\'', '\'']
    } else if all_plain(s) {
        s
    } else {
        seq!['\''] + replace(s, seq!['\''], escaped_quote()) + seq!['\'']
    }
}

/// The Go string escapes that config files written by the Go app may hold.
pub open spec fn go_escape_char(c: char) -> char {
    if c == 'n' {
        '\n'
    } else if c == 't' {
        '\t'
    } else if c == 'r' {
        '\r'
    } else {
        c
    }
}

/// The body of a Go double-quoted string with its escapes resolved, or `None`
/// when it ends in a lone backslash.
pub open spec fn go_unescape(s: Seq<char>) -> Option<Seq<char>>
    decreases s.len(),
{
    if s.len() == 0 {
        Some(Seq::empty())
    } else if s[0] == '\\' {
        if s.len() == 1 {
            None
        } else {
            match go_unescape(s.skip(2)) {
                Some(r) => Some(seq![go_escape_char(s[1])] + r),
                None => None,
            }
        }
    } else {
        match go_unescape(s.drop_first()) {
            Some(r) => Some(seq![s[0]] + r),
            None => None,
        }
    }
}

pub open spec fn quoted_by(s: Seq<char>, q: char) -> bool {
    s.len() >= 2 && s[0] == q && s.last() == q
}

/// Undoes bash single quoting or a Go double-quoted string; anything else is
/// taken as it stands.
pub open spec fn unquote_bash_spec(s: Seq<char>) -> Seq<char> {
    if quoted_by(s, '\'') {
        replace(s.subrange(1, s.len() - 1), escaped_quote(), seq!['\''])
    } else if quoted_by(s, '"') {
        match go_unescape(s.subrange(1, s.len() - 1)) {
            Some(u) => u,
            None => s,
        }
    } else {
        s
    }
}

/// How a Go program writes one character inside a double-quoted string:
/// backslash, double quote, newline, tab and carriage return escaped with a
/// backslash, every other character as it is.
pub open spec fn go_escape(c: char) -> Seq<char> {
    if c == '\\' {
        seq!['\\', '\\']
    } else if c == '"' {
        seq!['\\', '"']
    } else if c == '\n' {
        seq!['\\', 'n']
    } else if c == '\t' {
        seq!['\\', 't']
    } else if c == '\r' {
        seq!['\\', 'r']
    } else {
        seq![c]
    }
}

/// The body of a Go double-quoted string holding `s`.
pub open spec fn go_quote(s: Seq<char>) -> Seq<char>
    decreases s.len(),
{
    if s.len() == 0 {
        Seq::empty()
    } else {
        go_escape(s[0]) + go_quote(s.drop_first())
    }
}

proof fn lemma_go_unescape_quote(s: Seq<char>)
    ensures
        go_unescape(go_quote(s)) == Some(s),
    decreases s.len(),
{
    if s.len() > 0 {
        lemma_go_unescape_quote(s.drop_first());
        let e = go_escape(s[0]);
        let rest = go_quote(s.drop_first());
        let q = e + rest;
        assert(q == go_quote(s));
        if e.len() == 2 {
            assert(q[0] == '\\');
            assert(q.skip(2) =~= rest);
            assert(go_escape_char(q[1]) == s[0]);
        } else {
            assert(q[0] == s[0]);
            assert(q.drop_first() =~= rest);
        }
        assert(seq![s[0]] + s.drop_first() =~= s);
    }
}

/// Reading back a value that a Go program wrote double-quoted gives the value:
/// `unquote_bash` resolves every escape, so a backslash, a quote or a newline
/// in the value comes back as that one character.
pub proof fn lemma_go_quote_round_trip(s: Seq<char>)
    ensures
        unquote_bash_spec(seq!['"'] + go_quote(s) + seq!['"']) == s,
{
    let q = seq!['"'] + go_quote(s) + seq!['"'];
    lemma_go_unescape_quote(s);
    assert(q.subrange(1, q.len() - 1) =~= go_quote(s));
    assert(q[0] == '"' && q.last() == '"');
}

// ---------------------------------------------------------------------------
// The config file.
/// The index of a config key among the twelve fields, or 12 for an unknown key.
pub open spec fn key_index(k: Seq<char>) -> int {
    if k == "NAME"@ {
        0
    } else if k == "COMMENT"@ {
        1
    } else if k == "AUTH_MODE"@ {
        2
    } else if k == "SSH_TARGET"@ {
        3
    } else if k == "REMOTE_USER"@ {
        4
    } else if k == "SSH_HOST"@ {
        5
    } else if k == "LOCAL_PORT"@ {
        6
    } else if k == "REMOTE_HOST"@ {
        7
    } else if k == "REMOTE_PORT"@ {
        8
    } else if k == "SSH_KEY"@ {
        9
    } else if k == "RECONNECT"@ {
        10
    } else if k == "RECONNECT_DELAY"@ {
        11
    } else {
        12
    }
}

/// The key and value of one line of a config file: blank lines and `#`
/// comments have none, nor does a line without `=`; otherwise the key is the
/// trimmed text before the first `=` and the value the unquoted, trimmed rest.
#[verifier::opaque]
pub open spec fn line_entry(line: Seq<char>) -> Option<(Seq<char>, Seq<char>)> {
    let t = trim(line);
    if t.len() == 0 || t[0] == '#' {
        None
    } else {
        match first_occurrence(t, seq!['=']) {
            Some(i) => Some((trim(t.take(i)), unquote_bash_spec(trim(t.skip(i + 1))))),
            None => None,
        }
    }
}

/// The value of the last line that sets field `j`, or the empty string.
pub open spec fn field_value(ls: Seq<Seq<char>>, j: int) -> Seq<char>
    decreases ls.len(),
{
    if ls.len() == 0 {
        Seq::empty()
    } else {
        match line_entry(ls.last()) {
            Some((k, v)) => if key_index(k) == j {
                v
            } else {
                field_value(ls.drop_last(), j)
            },
            None => field_value(ls.drop_last(), j),
        }
    }
}

pub open spec fn parsed_lines(ls: Seq<Seq<char>>) -> ConfigView {
    ConfigView {
        name: field_value(ls, 0),
        comment: field_value(ls, 1),
        auth_mode: field_value(ls, 2),
        ssh_target: field_value(ls, 3),
        remote_user: field_value(ls, 4),
        ssh_host: field_value(ls, 5),
        local_port: field_value(ls, 6),
        remote_host: field_value(ls, 7),
        remote_port: field_value(ls, 8),
        ssh_key: field_value(ls, 9),
        reconnect: field_value(ls, 10),
        reconnect_delay: field_value(ls, 11),
    }
}

/// A config file's text read as a setup: for each key the last line that sets it.
pub open spec fn parse_config_spec(text: Seq<char>) -> ConfigView {
    parsed_lines(lines(text))
}

/// The text `save_config` writes for a setup, given the time stamp: two
/// comment lines, then one `KEY=value` line per field, each line ended by `'\n'`.
pub open spec fn config_file_spec(c: ConfigView, stamp: Seq<char>) -> Seq<char> {
    crate::text::unlines(file_lines(c, stamp))
}

pub open spec fn key_line(key: Seq<char>, v: Seq<char>) -> Seq<char> {
    key + seq!['='] + conf_quote_spec(v)
}

pub open spec fn file_lines(c: ConfigView, stamp: Seq<char>) -> Seq<Seq<char>> {
    seq![
        "# Tunnel config: "@ + c.name,
        "# Generated by tunnel-ui "@ + stamp,
        key_line("NAME"@, c.name),
        key_line("COMMENT"@, c.comment),
        key_line("AUTH_MODE"@, c.auth_mode),
        key_line("SSH_TARGET"@, c.ssh_target),
        key_line("REMOTE_USER"@, c.remote_user),
        key_line("SSH_HOST"@, c.ssh_host),
        key_line("LOCAL_PORT"@, c.local_port),
        key_line("REMOTE_HOST"@, c.remote_host),
        key_line("REMOTE_PORT"@, c.remote_port),
        key_line("SSH_KEY"@, c.ssh_key),
        key_line("RECONNECT"@, c.reconnect),
        key_line("RECONNECT_DELAY"@, c.reconnect_delay),
    ]
}

// ---------------------------------------------------------------------------
// Executable code.
fn vchars(s: &String) -> (v: Vec<char>)
    ensures
        v@ == s@,
{
    chars_of(s.as_str())
}

fn str_is_empty(s: &String) -> (b: bool)
    ensures
        b == (s@.len() == 0),
{
    s.as_str().is_empty()
}

pub fn is_explicit_mode(s: &String) -> (b: bool)
    ensures
        b == (s@ == explicit()),
{
    proof {
        reveal_strlit("explicit");
    }
    let r = str_eq(s.as_str(), "explicit");
    assert("explicit"@ =~= explicit());
    r
}

fn lit(s: &str) -> (r: String)
    ensures
        r@ == s@,
{
    String::from_str(s)
}

impl Config {
    /// A field-by-field copy.
    pub fn duplicate(&self) -> (r: Config)
        ensures
            r@ == self@,
    {
        Config {
            name: self.name.clone(),
            comment: self.comment.clone(),
            auth_mode: self.auth_mode.clone(),
            ssh_target: self.ssh_target.clone(),
            remote_user: self.remote_user.clone(),
            ssh_host: self.ssh_host.clone(),
            local_port: self.local_port.clone(),
            remote_host: self.remote_host.clone(),
            remote_port: self.remote_port.clone(),
            ssh_key: self.ssh_key.clone(),
            reconnect: self.reconnect.clone(),
            reconnect_delay: self.reconnect_delay.clone(),
        }
    }

    /// The ssh destination: `user@host` for an explicit setup, else the alias.
    pub fn via(&self) -> (r: String)
        ensures
            r@ == via_spec(self@),
    {
        if is_explicit_mode(&self.auth_mode) && !str_is_empty(&self.remote_user) && !str_is_empty(
            &self.ssh_host,
        ) {
            let mut s = String::new();
            s.append(self.remote_user.as_str());
            s.append("@");
            s.append(self.ssh_host.as_str());
            proof {
                reveal_strlit("@");
            }
            assert(s@ =~= self.remote_user@ + seq!['@'] + self.ssh_host@);
            return s;
        }
        if !str_is_empty(&self.ssh_target) {
            return self.ssh_target.clone();
        }
        proof {
            reveal_strlit("?");
        }
        let r = lit("?");
        assert(r@ =~= seq!['?']);
        r
    }

    /// `localhost:LOCAL -> RHOST:RPORT via VIA`.
    pub fn forward_summary(&self) -> (r: String)
        ensures
            r@ == forward_summary_spec(self@),
    {
        let lh = if str_is_empty(&self.remote_host) {
            lit("127.0.0.1")
        } else {
            self.remote_host.clone()
        };
        let rp = if str_is_empty(&self.remote_port) {
            self.local_port.clone()
        } else {
            self.remote_port.clone()
        };
        let via = self.via();
        let mut s = String::new();
        s.append("localhost:");
        s.append(self.local_port.as_str());
        s.append(" -> ");
        s.append(lh.as_str());
        s.append(":");
        s.append(rp.as_str());
        s.append(" via ");
        s.append(via.as_str());
        proof {
            reveal_strlit(":");
        }
        assert(s@ =~= forward_summary_spec(self@));
        s
    }

    /// The comment on one line: its words joined by single spaces.
    pub fn comment_line(&self) -> (r: String)
        ensures
            r@ == collapse_ws_spec(self.comment@),
    {
        collapse_ws(self.comment.as_str())
    }

    /// Reconnecting is on unless the field is exactly `0`.
    pub fn reconnect_enabled(&self) -> (b: bool)
        ensures
            b == (self.reconnect@ != seq!['0']),
    {
        proof {
            reveal_strlit("0");
        }
        let r = !str_eq(self.reconnect.as_str(), "0");
        assert("0"@ =~= seq!['0']);
        r
    }

    /// The delay as a non-negative integer; 3 when it is not one.
    pub fn reconnect_delay_secs(&self) -> (n: u64)
        ensures
            n as int == reconnect_delay_spec(self.reconnect_delay@),
    {
        match parse_i64(self.reconnect_delay.as_str()) {
            Some(n) => if n >= 0 {
                n as u64
            } else {
                3
            },
            None => 3,
        }
    }
}

/// `str::split_whitespace` joined by single spaces.
pub fn collapse_ws(s: &str) -> (r: String)
    ensures
        r@ == collapse_ws_spec(s@),
{
    let ws = split_ws_str(s);
    let mut sep: Vec<char> = Vec::new();
    sep.push(' ');
    let j = join_chars(&ws, &sep);
    assert(sep@ =~= seq![' ']);
    string_of(j.as_slice())
}

/// The setup the New form starts from.
pub fn blank_setup() -> (c: Config)
    ensures
        c@.name.len() == 0,
        c@.comment.len() == 0,
        c@.auth_mode == alias(),
        c@.ssh_target.len() == 0,
        c@.remote_user.len() == 0,
        c@.ssh_host.len() == 0,
        c@.local_port == "3306"@,
        c@.remote_host == "127.0.0.1"@,
        c@.remote_port == "3306"@,
        c@.ssh_key.len() == 0,
        c@.reconnect == seq!['1'],
        c@.reconnect_delay == seq!['3'],
{
    proof {
        reveal_strlit("alias");
        reveal_strlit("1");
        reveal_strlit("3");
    }
    let c = Config {
        name: String::new(),
        comment: String::new(),
        auth_mode: lit("alias"),
        ssh_target: String::new(),
        remote_user: String::new(),
        ssh_host: String::new(),
        local_port: lit("3306"),
        remote_host: lit("127.0.0.1"),
        remote_port: lit("3306"),
        ssh_key: String::new(),
        reconnect: lit("1"),
        reconnect_delay: lit("3"),
    };
    assert(c@.auth_mode =~= alias());
    assert(c@.reconnect =~= seq!['1']);
    assert(c@.reconnect_delay =~= seq!['3']);
    c
}

fn trim_end_slashes_exec(v: &Vec<char>) -> (r: Vec<char>)
    ensures
        r@ == trim_end_slashes(v@),
{
    let mut e = v.len();
    assert(v@.take(v.len() as int) =~= v@);
    while e > 0 && v[e - 1] == '/'
        invariant
            e <= v.len(),
            trim_end_slashes(v@) == trim_end_slashes(v@.take(e as int)),
        decreases e,
    {
        assert(v@.take(e as int).drop_last() =~= v@.take(e - 1));
        e = e - 1;
    }
    assert(v@.take(v.len() as int) =~= v@);
    copy_range(v, 0, e)
}

/// Linux default private key: `$HOME/.ssh/identity-rsa` (`home` is the value of
/// `HOME`, empty when it is not set).
pub fn default_ssh_key(home: &str) -> (r: String)
    ensures
        r@ == default_ssh_key_spec(home@),
{
    let h = chars_of(home);
    if h.len() > 0 {
        let mut v = trim_end_slashes_exec(&h);
        append_str(&mut v, "/.ssh/identity-rsa");
        string_of(v.as_slice())
    } else {
        let mut v: Vec<char> = Vec::new();
        v.push('~');
        append_str(&mut v, "/.ssh/identity-rsa");
        string_of(v.as_slice())
    }
}

/// A key path with `~/`, `$HOME/` or `${HOME}/` expanded (`home` is the value of `HOME`).
pub fn expand_ssh_key(s: &str, home: &str) -> (r: String)
    ensures
        r@ == expand_ssh_key_spec(s@, home@),
{
    let t = crate::text::trim_str(s);
    if t.len() == 0 {
        return String::new();
    }
    let hv = chars_of(home);
    if hv.len() > 0 {
        let h = trim_end_slashes_exec(&hv);
        let mut k: usize = 0;
        if starts_with_str(&t, "~/") {
            proof { reveal_strlit("~/"); }
            k = 2;
        } else if starts_with_str(&t, "$HOME/") {
            proof { reveal_strlit("$HOME/"); }
            k = 6;
        } else if starts_with_str(&t, "${HOME}/") {
            proof { reveal_strlit("${HOME}/"); }
            k = 8;
        }
        if k > 0 {
            let mut out = h;
            out.push('/');
            let rest = copy_range(&t, k, t.len());
            append_chars(&mut out, &rest);
            assert(rest@ =~= t@.skip(k as int));
            return string_of(out.as_slice());
        }
    }
    string_of(t.as_slice())
}

/// Fills in what a setup leaves empty and normalises it (`home` is the value of `HOME`).
pub fn apply_defaults(c: &mut Config, home: &str)
    ensures
        final(c)@ == defaults_spec(old(c)@, home@),
        has_defaults(final(c)@),
{
    proof {
        reveal_strlit("explicit");
        reveal_strlit("alias");
        reveal_strlit("3306");
        reveal_strlit("127.0.0.1");
        reveal_strlit("1");
        reveal_strlit("3");
        reveal_strlit("/.ssh/identity-rsa");
    }
    let ghost c0 = c@;
    if str_is_empty(&c.auth_mode) {
        c.auth_mode = if !str_is_empty(&c.remote_user) && !str_is_empty(&c.ssh_host) {
            lit("explicit")
        } else {
            lit("alias")
        };
    }
    if str_is_empty(&c.local_port) {
        c.local_port = lit("3306");
    }
    if str_is_empty(&c.remote_host) {
        c.remote_host = lit("127.0.0.1");
    }
    if str_is_empty(&c.remote_port) {
        c.remote_port = c.local_port.clone();
    }
    if str_is_empty(&c.reconnect) {
        c.reconnect = lit("1");
    }
    if str_is_empty(&c.reconnect_delay) {
        c.reconnect_delay = lit("3");
    }
    let explicit_mode = is_explicit_mode(&c.auth_mode);
    if explicit_mode && str_is_empty(&c.ssh_target) && !str_is_empty(&c.remote_user)
        && !str_is_empty(&c.ssh_host) {
        let mut s = String::new();
        s.append(c.remote_user.as_str());
        s.append("@");
        s.append(c.ssh_host.as_str());
        proof {
            reveal_strlit("@");
        }
        assert(s@ =~= c.remote_user@ + seq!['@'] + c.ssh_host@);
        c.ssh_target = s;
    }
    if explicit_mode {
        let kt = crate::text::trim_str(c.ssh_key.as_str());
        if kt.len() == 0 {
            c.ssh_key = default_ssh_key(home);
        }
    }
    if !explicit_mode {
        c.auth_mode = lit("alias");
        c.remote_user = String::new();
        c.ssh_host = String::new();
    }
    c.comment = collapse_ws(c.comment.as_str());
    proof {
        assert("explicit"@ =~= explicit());
        assert("alias"@ =~= alias());
        assert(seq!['1'] =~= "1"@);
        assert(seq!['3'] =~= "3"@);
        lemma_default_key_not_blank(home@);
    }
    assert(c@.auth_mode =~= defaults_spec(c0, home@).auth_mode);
    assert(c@.reconnect =~= defaults_spec(c0, home@).reconnect);
    assert(c@.reconnect_delay =~= defaults_spec(c0, home@).reconnect_delay);
}

/// The default key is never blank.
pub proof fn lemma_default_key_not_blank(home: Seq<char>)
    ensures
        trim(default_ssh_key_spec(home)).len() > 0,
{
    reveal_strlit("/.ssh/identity-rsa");
    let k = default_ssh_key_spec(home);
    let suffix = identity_suffix();
    assert(suffix.len() == 18);
    let prefix = if home.len() > 0 {
        trim_end_slashes(home)
    } else {
        seq!['~']
    };
    assert(k =~= prefix + suffix);
    assert(k.last() == 'a');
    assert(!is_ws(k.last()));
    lemma_trim_keeps_nonws_last(k);
}

/// Trimming a string whose last character is not whitespace leaves it non-empty.
pub proof fn lemma_trim_keeps_nonws_last(s: Seq<char>)
    requires
        s.len() > 0,
        !is_ws(s.last()),
    ensures
        trim(s).len() > 0,
{
    lemma_trim_start_keeps_last(s);
}

proof fn lemma_trim_start_keeps_last(s: Seq<char>)
    requires
        s.len() > 0,
        !is_ws(s.last()),
    ensures
        crate::text::trim_start(s).len() > 0,
        crate::text::trim_start(s).last() == s.last(),
        crate::text::trim_end(crate::text::trim_start(s)) == crate::text::trim_start(s),
    decreases s.len(),
{
    if is_ws(s[0]) {
        assert(s.len() > 1);
        assert(s.drop_first().last() == s.last());
        lemma_trim_start_keeps_last(s.drop_first());
    }
}

/// Checks a setup name: letters, digits, `.`, `_`, `-`, not starting with
/// punctuation and not empty.
pub fn sanitize_name(name: &str) -> (r: Result<(), TunnelError>)
    ensures
        r is Ok <==> valid_name(name@),
        r matches Err(e) ==> e.text() == invalid_name_text(name@),
{
    let v = chars_of(name);
    let mut ok = v.len() > 0;
    if ok {
        ok = is_ascii_alnum(v[0]);
    }
    let mut i: usize = 0;
    while ok && i < v.len()
        invariant
            i <= v.len(),
            ok ==> v@.len() > 0 && is_alnum(v@[0]),
            ok ==> forall|j: int| 0 <= j < i ==> #[trigger] name_char_ok(v@[j]),
            !ok ==> !valid_name(v@),
        decreases v.len() - i,
    {
        let ch = v[i];
        if !(is_ascii_alnum(ch) || ch == '_' || ch == '.' || ch == '-') {
            assert(!name_char_ok(v@[i as int]));
            ok = false;
        }
        i = i + 1;
    }
    if ok {
        Ok(())
    } else {
        Err(TunnelError::InvalidName { name: String::from_str(name) })
    }
}

fn all_plain_exec(v: &Vec<char>) -> (b: bool)
    ensures
        b == all_plain(v@),
{
    let mut i: usize = 0;
    while i < v.len()
        invariant
            i <= v.len(),
            forall|j: int| 0 <= j < i ==> #[trigger] plain_char(v@[j]),
        decreases v.len() - i,
    {
        let ch = v[i];
        if !(is_ascii_alnum(ch) || ch == '_' || ch == '.' || ch == '-' || ch == '/' || ch == ':'
            || ch == '@' || ch == '\\') {
            assert(!plain_char(v@[i as int]));
            return false;
        }
        i = i + 1;
    }
    true
}

fn quote_chars(v: &Vec<char>) -> (r: Vec<char>)
    ensures
        r@ == conf_quote_spec(v@),
{
    if v.len() == 0 {
        let mut r: Vec<char> = Vec::new();
        r.push('\'');
        r.push('\'');
        assert(r@ =~= seq!['\'', '\'']);
        return r;
    }
    if all_plain_exec(v) {
        return copy_range(v, 0, v.len());
    }
    let mut from: Vec<char> = Vec::new();
    from.push('\'');
    let mut to: Vec<char> = Vec::new();
    to.push('\'');
    to.push('\\');
    to.push('\'');
    to.push('\'');
    assert(from@ =~= seq!['\'']);
    assert(to@ =~= escaped_quote());
    let body = replace_chars(v, &from, &to);
    let mut r: Vec<char> = Vec::new();
    r.push('\'');
    append_chars(&mut r, &body);
    r.push('\'');
    assert(r@ =~= seq!['\''] + body@ + seq!['\'']);
    r
}

/// Quotes a value for a `KEY=value` line the way bash reads it back.
pub fn conf_quote(s: &str) -> (r: String)
    ensures
        r@ == conf_quote_spec(s@),
{
    let v = chars_of(s);
    let q = quote_chars(&v);
    string_of(q.as_slice())
}

fn go_unescape_exec(v: &Vec<char>) -> (r: Option<Vec<char>>)
    ensures
        match r {
            Some(u) => go_unescape(v@) == Some(u@),
            None => go_unescape(v@) is None,
        },
{
    let mut out: Vec<char> = Vec::new();
    let mut i: usize = 0;
    assert(v@.skip(0) =~= v@);
    while i < v.len()
        invariant
            i <= v.len(),
            go_unescape(v@) == match go_unescape(v@.skip(i as int)) {
                Some(r) => Some(out@ + r),
                None => None::<Seq<char>>,
            },
        decreases v.len() - i,
    {
        let ghost rest = v@.skip(i as int);
        if v[i] == '\\' {
            if i + 1 == v.len() {
                assert(rest.len() == 1);
                return None;
            }
            let e = v[i + 1];
            let c = if e == 'n' {
                '\n'
            } else if e == 't' {
                '\t'
            } else if e == 'r' {
                '\r'
            } else {
                e
            };
            assert(rest.skip(2) =~= v@.skip(i + 2));
            assert(rest[1] == e);
            let ghost o = out@;
            out.push(c);
            proof {
                match go_unescape(v@.skip(i + 2)) {
                    Some(r) => {
                        assert(o + (seq![c] + r) =~= out@ + r);
                    },
                    None => {},
                }
            }
            i = i + 2;
        } else {
            assert(rest.drop_first() =~= v@.skip(i + 1));
            let ghost o = out@;
            out.push(v[i]);
            proof {
                match go_unescape(v@.skip(i + 1)) {
                    Some(r) => {
                        assert(o + (seq![v@[i as int]] + r) =~= out@ + r);
                    },
                    None => {},
                }
            }
            i = i + 1;
        }
    }
    assert(v@.skip(i as int) =~= Seq::<char>::empty());
    assert(out@ + Seq::<char>::empty() =~= out@);
    Some(out)
}

fn unquote_chars(v: &Vec<char>) -> (r: Vec<char>)
    ensures
        r@ == unquote_bash_spec(v@),
{
    let n = v.len();
    if n >= 2 && v[0] == '\'' && v[n - 1] == '\'' {
        let inner = copy_range(v, 1, n - 1);
        let mut from: Vec<char> = Vec::new();
        from.push('\'');
        from.push('\\');
        from.push('\'');
        from.push('\'');
        let mut to: Vec<char> = Vec::new();
        to.push('\'');
        assert(from@ =~= escaped_quote());
        assert(to@ =~= seq!['\'']);
        return replace_chars(&inner, &from, &to);
    }
    if n >= 2 && v[0] == '"' && v[n - 1] == '"' {
        let inner = copy_range(v, 1, n - 1);
        match go_unescape_exec(&inner) {
            Some(u) => {
                return u;
            },
            None => {},
        }
    }
    copy_range(v, 0, n)
}

/// Reads a value written by `conf_quote` (or by the Go app) back.
pub fn unquote_bash(s: &str) -> (r: String)
    ensures
        r@ == unquote_bash_spec(s@),
{
    let v = chars_of(s);
    let u = unquote_chars(&v);
    string_of(u.as_slice())
}

// ---------------------------------------------------------------------------
// Reading and writing config files.
fn key_index_exec(k: &Vec<char>) -> (j: usize)
    ensures
        j as int == key_index(k@),
{
    let keys = [
        "NAME",
        "COMMENT",
        "AUTH_MODE",
        "SSH_TARGET",
        "REMOTE_USER",
        "SSH_HOST",
        "LOCAL_PORT",
        "REMOTE_HOST",
        "REMOTE_PORT",
        "SSH_KEY",
        "RECONNECT",
        "RECONNECT_DELAY",
    ];
    let s = string_of(k.as_slice());
    if str_eq(s.as_str(), "NAME") {
        0
    } else if str_eq(s.as_str(), "COMMENT") {
        1
    } else if str_eq(s.as_str(), "AUTH_MODE") {
        2
    } else if str_eq(s.as_str(), "SSH_TARGET") {
        3
    } else if str_eq(s.as_str(), "REMOTE_USER") {
        4
    } else if str_eq(s.as_str(), "SSH_HOST") {
        5
    } else if str_eq(s.as_str(), "LOCAL_PORT") {
        6
    } else if str_eq(s.as_str(), "REMOTE_HOST") {
        7
    } else if str_eq(s.as_str(), "REMOTE_PORT") {
        8
    } else if str_eq(s.as_str(), "SSH_KEY") {
        9
    } else if str_eq(s.as_str(), "RECONNECT") {
        10
    } else if str_eq(s.as_str(), "RECONNECT_DELAY") {
        11
    } else {
        let _ = keys;
        12
    }
}

#[verifier::rlimit(50)]
fn line_entry_exec(line: &Vec<char>) -> (r: Option<(Vec<char>, Vec<char>)>)
    ensures
        match r {
            Some((k, v)) => line_entry(line@) == Some((k@, v@)),
            None => line_entry(line@) is None,
        },
{
    proof {
        reveal(line_entry);
    }
    let t = trim_chars(line);
    if t.len() == 0 || t[0] == '#' {
        return None;
    }
    let mut eq: Vec<char> = Vec::new();
    eq.push('=');
    assert(eq@ =~= seq!['=']);
    match find(&t, &eq) {
        None => None,
        Some(i) => {
            let kpart = copy_range(&t, 0, i);
            let vpart = copy_range(&t, i + 1, t.len());
            assert(kpart@ =~= t@.take(i as int));
            assert(vpart@ =~= t@.skip(i + 1));
            let k = trim_chars(&kpart);
            let vt = trim_chars(&vpart);
            let v = unquote_chars(&vt);
            Some((k, v))
        },
    }
}

/// The setup with field `j` (in file order) replaced by `v`.
pub open spec fn with_field(c: ConfigView, j: int, v: Seq<char>) -> ConfigView {
    ConfigView {
        name: if j == 0 { v } else { c.name },
        comment: if j == 1 { v } else { c.comment },
        auth_mode: if j == 2 { v } else { c.auth_mode },
        ssh_target: if j == 3 { v } else { c.ssh_target },
        remote_user: if j == 4 { v } else { c.remote_user },
        ssh_host: if j == 5 { v } else { c.ssh_host },
        local_port: if j == 6 { v } else { c.local_port },
        remote_host: if j == 7 { v } else { c.remote_host },
        remote_port: if j == 8 { v } else { c.remote_port },
        ssh_key: if j == 9 { v } else { c.ssh_key },
        reconnect: if j == 10 { v } else { c.reconnect },
        reconnect_delay: if j == 11 { v } else { c.reconnect_delay },
    }
}

pub fn set_field(c: &mut Config, j: usize, v: Vec<char>)
    requires
        j < 12,
    ensures
        final(c)@ == with_field(old(c)@, j as int, v@),
{
    let s = string_of(v.as_slice());
    if j == 0 {
        c.name = s;
    } else if j == 1 {
        c.comment = s;
    } else if j == 2 {
        c.auth_mode = s;
    } else if j == 3 {
        c.ssh_target = s;
    } else if j == 4 {
        c.remote_user = s;
    } else if j == 5 {
        c.ssh_host = s;
    } else if j == 6 {
        c.local_port = s;
    } else if j == 7 {
        c.remote_host = s;
    } else if j == 8 {
        c.remote_port = s;
    } else if j == 9 {
        c.ssh_key = s;
    } else if j == 10 {
        c.reconnect = s;
    } else {
        c.reconnect_delay = s;
    }
}

fn empty_config() -> (c: Config)
    ensures
        c@ == parsed_lines(Seq::empty()),
{
    Config {
        name: String::new(),
        comment: String::new(),
        auth_mode: String::new(),
        ssh_target: String::new(),
        remote_user: String::new(),
        ssh_host: String::new(),
        local_port: String::new(),
        remote_host: String::new(),
        remote_port: String::new(),
        ssh_key: String::new(),
        reconnect: String::new(),
        reconnect_delay: String::new(),
    }
}

/// Reads a config file's text: `KEY=value` lines, `#` comments and blank lines
/// ignored, the last line for a key winning, unknown keys ignored.
pub fn parse_config_text(text: &str) -> (c: Config)
    ensures
        c@ == parse_config_spec(text@),
{
    let tv = chars_of(text);
    let ls = lines_of(&tv);
    let mut c = empty_config();
    let mut i: usize = 0;
    while i < ls.len()
        invariant
            i <= ls.len(),
            c@ == parsed_lines(views(ls@).take(i as int)),
        decreases ls.len() - i,
    {
        let ghost pre = views(ls@).take(i as int);
        let ghost cur = views(ls@).take(i + 1);
        assert(cur.drop_last() =~= pre);
        assert(cur.last() == ls@[i as int]@);
        match line_entry_exec(&ls[i]) {
            None => {},
            Some((k, v)) => {
                let j = key_index_exec(&k);
                if j < 12 {
                    set_field(&mut c, j, v);
                }
            },
        }
        i = i + 1;
    }
    assert(views(ls@).take(ls.len() as int) =~= views(ls@));
    c
}

fn key_line_exec(key: &str, v: &String) -> (r: Vec<char>)
    ensures
        r@ == key_line(key@, v@),
{
    let mut out = chars_of(key);
    out.push('=');
    let vv = vchars(v);
    let q = quote_chars(&vv);
    append_chars(&mut out, &q);
    out
}

fn header_line(prefix: &str, rest: &str) -> (r: Vec<char>)
    ensures
        r@ == prefix@ + rest@,
{
    let mut out = chars_of(prefix);
    append_str(&mut out, rest);
    out
}

/// The text of a setup's config file, stamped with `stamp`.
pub fn config_file_text(c: &Config, stamp: &str) -> (r: String)
    ensures
        r@ == config_file_spec(c@, stamp@),
{
    let mut ls: Vec<Vec<char>> = Vec::new();
    ls.push(header_line("# Tunnel config: ", c.name.as_str()));
    ls.push(header_line("# Generated by tunnel-ui ", stamp));
    ls.push(key_line_exec("NAME", &c.name));
    ls.push(key_line_exec("COMMENT", &c.comment));
    ls.push(key_line_exec("AUTH_MODE", &c.auth_mode));
    ls.push(key_line_exec("SSH_TARGET", &c.ssh_target));
    ls.push(key_line_exec("REMOTE_USER", &c.remote_user));
    ls.push(key_line_exec("SSH_HOST", &c.ssh_host));
    ls.push(key_line_exec("LOCAL_PORT", &c.local_port));
    ls.push(key_line_exec("REMOTE_HOST", &c.remote_host));
    ls.push(key_line_exec("REMOTE_PORT", &c.remote_port));
    ls.push(key_line_exec("SSH_KEY", &c.ssh_key));
    ls.push(key_line_exec("RECONNECT", &c.reconnect));
    ls.push(key_line_exec("RECONNECT_DELAY", &c.reconnect_delay));
    assert(views(ls@) =~= file_lines(c@, stamp@));
    let out = crate::text::unlines_exec(&ls);
    string_of(out.as_slice())
}

} // verus!

verus! {

proof fn lemma_unescape_escape(s: Seq<char>)
    ensures
        replace(replace(s, seq!['\''], escaped_quote()), escaped_quote(), seq!['\'']) == s,
    decreases s.len(),
{
    let q = seq!['\''];
    let e = escaped_quote();
    if s.len() > 0 {
        if starts_with(s, q) {
            assert(s.take(1)[0] == s[0]);
            assert(s[0] == '\'');
            lemma_unescape_escape(s.skip(1));
            let r = replace(s.skip(1), q, e);
            assert(replace(s, q, e) == e + r);
            assert((e + r).take(4) =~= e);
            assert((e + r).skip(4) =~= r);
            assert(q + s.skip(1) =~= s);
        } else {
            assert(s[0] != '\'') by {
                if s[0] == '\'' {
                    assert(s.take(1) =~= q);
                }
            }
            lemma_unescape_escape(s.drop_first());
            let r = replace(s.drop_first(), q, e);
            let t = seq![s[0]] + r;
            assert(replace(s, q, e) == t);
            assert(!starts_with(t, e)) by {
                if starts_with(t, e) {
                    assert(t.take(4)[0] == e[0]);
                }
            }
            assert(t.drop_first() =~= r);
            assert(seq![s[0]] + s.drop_first() =~= s);
        }
    }
}

/// Reading back a quoted value gives the value: `unquote_bash(conf_quote(s)) == s`.
pub proof fn lemma_quote_round_trip(s: Seq<char>)
    ensures
        unquote_bash_spec(conf_quote_spec(s)) == s,
{
    let q = conf_quote_spec(s);
    if s.len() == 0 {
        assert(q.subrange(1, 1) =~= Seq::<char>::empty());
    } else if all_plain(s) {
        assert(plain_char(s[0]));
        assert(!quoted_by(q, '\''));
        assert(!quoted_by(q, '"'));
    } else {
        let body = replace(s, seq!['\''], escaped_quote());
        assert(q.subrange(1, q.len() - 1) =~= body);
        lemma_unescape_escape(s);
    }
}

} // verus!

verus! {

/// Defaults for the ports: an empty local port becomes 3306, an empty remote
/// port takes the local port (after its default), and a port that is set
/// stays as it is.
pub proof fn lemma_default_ports(c: ConfigView, home: Seq<char>)
    ensures
        ({
            let d = defaults_spec(c, home);
            &&& c.local_port.len() == 0 ==> d.local_port == "3306"@
            &&& c.local_port.len() > 0 ==> d.local_port == c.local_port
            &&& c.remote_port.len() == 0 ==> d.remote_port == d.local_port
            &&& c.remote_port.len() > 0 ==> d.remote_port == c.remote_port
        }),
{
}

/// Applying the defaults a second time changes nothing.
pub proof fn lemma_defaults_idempotent(c: ConfigView, home: Seq<char>)
    ensures
        defaults_spec(defaults_spec(c, home), home) == defaults_spec(c, home),
{
    let d = defaults_spec(c, home);
    lemma_default_key_not_blank(home);
    crate::text::lemma_collapse_idempotent(c.comment);
    assert(explicit() != alias()) by {
        assert(explicit().len() != alias().len());
    }
    let dd = defaults_spec(d, home);
    assert(dd.comment == d.comment);
    assert(dd.auth_mode == d.auth_mode);
    assert(dd.ssh_target == d.ssh_target);
    assert(dd.ssh_key == d.ssh_key);
    assert(dd.remote_user == d.remote_user);
    assert(dd.ssh_host == d.ssh_host);
}

} // verus!

verus! {

pub open spec fn no_newline(s: Seq<char>) -> bool {
    crate::text::no_char(s, '\n')
}

/// Every field of the setup fits on one line.
pub open spec fn config_one_line(c: ConfigView) -> bool {
    &&& no_newline(c.name)
    &&& no_newline(c.comment)
    &&& no_newline(c.auth_mode)
    &&& no_newline(c.ssh_target)
    &&& no_newline(c.remote_user)
    &&& no_newline(c.ssh_host)
    &&& no_newline(c.local_port)
    &&& no_newline(c.remote_host)
    &&& no_newline(c.remote_port)
    &&& no_newline(c.ssh_key)
    &&& no_newline(c.reconnect)
    &&& no_newline(c.reconnect_delay)
}

/// A quoted value starts and ends with a character that is neither
/// whitespace nor `'\r'`, and holds a newline only where the value does.
proof fn lemma_quote_shape(v: Seq<char>)
    ensures
        conf_quote_spec(v).len() > 0,
        !is_ws(conf_quote_spec(v)[0]),
        !is_ws(conf_quote_spec(v).last()),
        no_newline(v) ==> no_newline(conf_quote_spec(v)),
{
    let q = conf_quote_spec(v);
    if v.len() == 0 {
    } else if all_plain(v) {
        assert(plain_char(v[0]));
        assert(plain_char(v[v.len() - 1]));
    } else {
        if no_newline(v) {
            lemma_replace_no_newline(v);
            let body = replace(v, seq!['\''], escaped_quote());
            assert forall|i: int| 0 <= i < q.len() implies q[i] != '\n' by {
                if 0 < i < q.len() - 1 {
                    assert(q[i] == body[i - 1]);
                }
            }
        }
    }
}

proof fn lemma_replace_no_newline(v: Seq<char>)
    requires
        no_newline(v),
    ensures
        no_newline(replace(v, seq!['\''], escaped_quote())),
    decreases v.len(),
{
    let q = seq!['\''];
    let e = escaped_quote();
    if v.len() > 0 {
        if starts_with(v, q) {
            assert(no_newline(v.skip(1)));
            lemma_replace_no_newline(v.skip(1));
            let r = replace(v.skip(1), q, e);
            assert forall|i: int| 0 <= i < (e + r).len() implies (e + r)[i] != '\n' by {
                if i >= 4 {
                    assert((e + r)[i] == r[i - 4]);
                }
            }
        } else {
            assert(no_newline(v.drop_first()));
            lemma_replace_no_newline(v.drop_first());
            let r = replace(v.drop_first(), q, e);
            assert forall|i: int| 0 <= i < (seq![v[0]] + r).len() implies (seq![v[0]] + r)[i]
                != '\n' by {
                if i >= 1 {
                    assert((seq![v[0]] + r)[i] == r[i - 1]);
                }
            }
        }
    }
}

/// A `KEY=value` line written by `config_file_text` reads back as the key and the value.
proof fn lemma_key_line_entry(key: Seq<char>, v: Seq<char>)
    requires
        key.len() > 0,
        !is_ws(key[0]),
        key[0] != '#',
        !is_ws(key.last()),
        crate::text::no_char(key, '='),
    ensures
        line_entry(key_line(key, v)) == Some((key, v)),
        strip_cr(key_line(key, v)) == key_line(key, v),
{
    reveal(line_entry);
    reveal(crate::text::first_occurrence);
    let q = conf_quote_spec(v);
    let t = key_line(key, v);
    lemma_quote_shape(v);
    assert(t[0] == key[0]);
    assert(t.last() == q.last());
    crate::text::lemma_trim_id(t);
    let k = key.len() as int;
    assert(occurs_at(t, seq!['='], k)) by {
        assert(t.subrange(k, k + 1) =~= seq!['=']);
    }
    assert forall|j: int| 0 <= j < k implies !occurs_at(t, seq!['='], j) by {
        assert(t.subrange(j, j + 1)[0] == key[j]);
    }
    assert(crate::text::contains(t, seq!['=']));
    let w = choose|i: int| occurs_at(t, seq!['='], i) && forall|j: int| 0 <= j < i ==> !occurs_at(t, seq!['='], j);
    assert(w == k) by {
        if w < k {
            assert(!occurs_at(t, seq!['='], w));
        } else if w > k {
            assert(!occurs_at(t, seq!['='], k));
        }
    }
    assert(t.take(k) =~= key);
    assert(t.skip(k + 1) =~= q);
    crate::text::lemma_trim_id(key);
    crate::text::lemma_trim_id(q);
    lemma_quote_round_trip(v);
    assert(t.last() != '\r');
}

/// A `#` line is a comment whatever follows.
proof fn lemma_comment_line(h: Seq<char>)
    requires
        h.len() >= 2,
        h[0] == '#',
    ensures
        line_entry(strip_cr(h)) is None,
{
    reveal(line_entry);
    let s = strip_cr(h);
    assert(s[0] == '#');
    crate::text::lemma_trim_first(s);
}

proof fn lemma_field_value_at(ls: Seq<Seq<char>>, j: int, p: int, k: Seq<char>, v: Seq<char>)
    requires
        0 <= p < ls.len(),
        line_entry(ls[p]) == Some((k, v)),
        key_index(k) == j,
        forall|q: int|
            p < q < ls.len() ==> match #[trigger] line_entry(ls[q]) {
                Some((k2, _)) => key_index(k2) != j,
                None => true,
            },
    ensures
        field_value(ls, j) == v,
    decreases ls.len(),
{
    if p < ls.len() - 1 {
        let q = ls.len() - 1;
        assert(ls.last() == ls[q]);
        let init = ls.drop_last();
        assert(init[p] == ls[p]);
        assert forall|q2: int| p < q2 < init.len() implies match #[trigger] line_entry(init[q2]) {
            Some((k2, _)) => key_index(k2) != j,
            None => true,
        } by {
            assert(init[q2] == ls[q2]);
        }
        lemma_field_value_at(init, j, p, k, v);
    }
}

proof fn lemma_key_facts(key: &str)
    requires
        key@ == "NAME"@ || key@ == "COMMENT"@ || key@ == "AUTH_MODE"@ || key@ == "SSH_TARGET"@
            || key@ == "REMOTE_USER"@ || key@ == "SSH_HOST"@ || key@ == "LOCAL_PORT"@ || key@
            == "REMOTE_HOST"@ || key@ == "REMOTE_PORT"@ || key@ == "SSH_KEY"@ || key@
            == "RECONNECT"@ || key@ == "RECONNECT_DELAY"@,
    ensures
        key@.len() > 0,
        !is_ws(key@[0]),
        key@[0] != '#',
        !is_ws(key@.last()),
        crate::text::no_char(key@, '='),
        no_newline(key@),
{
    reveal_strlit("NAME");
    reveal_strlit("COMMENT");
    reveal_strlit("AUTH_MODE");
    reveal_strlit("SSH_TARGET");
    reveal_strlit("REMOTE_USER");
    reveal_strlit("SSH_HOST");
    reveal_strlit("LOCAL_PORT");
    reveal_strlit("REMOTE_HOST");
    reveal_strlit("REMOTE_PORT");
    reveal_strlit("SSH_KEY");
    reveal_strlit("RECONNECT");
    reveal_strlit("RECONNECT_DELAY");
}

proof fn lemma_key_indices()
    ensures
        key_index("NAME"@) == 0,
        key_index("COMMENT"@) == 1,
        key_index("AUTH_MODE"@) == 2,
        key_index("SSH_TARGET"@) == 3,
        key_index("REMOTE_USER"@) == 4,
        key_index("SSH_HOST"@) == 5,
        key_index("LOCAL_PORT"@) == 6,
        key_index("REMOTE_HOST"@) == 7,
        key_index("REMOTE_PORT"@) == 8,
        key_index("SSH_KEY"@) == 9,
        key_index("RECONNECT"@) == 10,
        key_index("RECONNECT_DELAY"@) == 11,
{
    reveal_strlit("NAME");
    reveal_strlit("COMMENT");
    reveal_strlit("AUTH_MODE");
    reveal_strlit("SSH_TARGET");
    reveal_strlit("REMOTE_USER");
    reveal_strlit("SSH_HOST");
    reveal_strlit("LOCAL_PORT");
    reveal_strlit("REMOTE_HOST");
    reveal_strlit("REMOTE_PORT");
    reveal_strlit("SSH_KEY");
    reveal_strlit("RECONNECT");
    reveal_strlit("RECONNECT_DELAY");
    assert("NAME"@.len() == 4);
    assert("COMMENT"@.len() == 7);
    assert("AUTH_MODE"@.len() == 9);
    assert("SSH_TARGET"@.len() == 10);
    assert("REMOTE_USER"@.len() == 11);
    assert("SSH_HOST"@.len() == 8);
    assert("LOCAL_PORT"@.len() == 10);
    assert("REMOTE_HOST"@.len() == 11);
    assert("REMOTE_PORT"@.len() == 11);
    assert("SSH_KEY"@.len() == 7);
    assert("RECONNECT"@.len() == 9);
    assert("RECONNECT_DELAY"@.len() == 15);
    assert("COMMENT"@[0] != "SSH_KEY"@[0]);
    assert("AUTH_MODE"@[0] != "RECONNECT"@[0]);
    assert("SSH_TARGET"@[0] != "LOCAL_PORT"@[0]);
    assert("REMOTE_USER"@[7] != "REMOTE_HOST"@[7]);
    assert("REMOTE_USER"@[7] != "REMOTE_PORT"@[7]);
    assert("REMOTE_HOST"@[7] != "REMOTE_PORT"@[7]);
}

pub open spec fn file_values(c: ConfigView) -> Seq<Seq<char>> {
    seq![
        c.name,
        c.comment,
        c.auth_mode,
        c.ssh_target,
        c.remote_user,
        c.ssh_host,
        c.local_port,
        c.remote_host,
        c.remote_port,
        c.ssh_key,
        c.reconnect,
        c.reconnect_delay,
    ]
}

pub open spec fn file_keys() -> Seq<Seq<char>> {
    seq![
        "NAME"@,
        "COMMENT"@,
        "AUTH_MODE"@,
        "SSH_TARGET"@,
        "REMOTE_USER"@,
        "SSH_HOST"@,
        "LOCAL_PORT"@,
        "REMOTE_HOST"@,
        "REMOTE_PORT"@,
        "SSH_KEY"@,
        "RECONNECT"@,
        "RECONNECT_DELAY"@,
    ]
}

/// Saving a setup and reading the file back gives the same setup, for every
/// setup whose fields (and stamp) hold no newline.
pub proof fn lemma_save_load_round_trip(c: ConfigView, stamp: Seq<char>)
    requires
        config_one_line(c),
        no_newline(stamp),
    ensures
        parse_config_spec(config_file_spec(c, stamp)) == c,
{
    let ls = file_lines(c, stamp);
    let keys = file_keys();
    let vals = file_values(c);
    reveal_strlit("# Tunnel config: ");
    reveal_strlit("# Generated by tunnel-ui ");
    lemma_key_indices();
    assert forall|m: int| 0 <= m < 12 implies {
        &&& #[trigger] ls[m + 2] == key_line(keys[m], vals[m])
        &&& line_entry(strip_cr(ls[m + 2])) == Some((keys[m], vals[m]))
        &&& strip_cr(ls[m + 2]) == ls[m + 2]
        &&& key_index(keys[m]) == m
        &&& no_newline(ls[m + 2])
    } by {
        let key = keys[m];
        if m == 0 { lemma_key_facts("NAME"); }
        else if m == 1 { lemma_key_facts("COMMENT"); }
        else if m == 2 { lemma_key_facts("AUTH_MODE"); }
        else if m == 3 { lemma_key_facts("SSH_TARGET"); }
        else if m == 4 { lemma_key_facts("REMOTE_USER"); }
        else if m == 5 { lemma_key_facts("SSH_HOST"); }
        else if m == 6 { lemma_key_facts("LOCAL_PORT"); }
        else if m == 7 { lemma_key_facts("REMOTE_HOST"); }
        else if m == 8 { lemma_key_facts("REMOTE_PORT"); }
        else if m == 9 { lemma_key_facts("SSH_KEY"); }
        else if m == 10 { lemma_key_facts("RECONNECT"); }
        else { lemma_key_facts("RECONNECT_DELAY"); }
        lemma_key_line_entry(key, vals[m]);
        lemma_quote_shape(vals[m]);
        let t = key_line(key, vals[m]);
        assert forall|i: int| 0 <= i < t.len() implies t[i] != '\n' by {
            if i < key.len() {
                assert(t[i] == key[i]);
            } else if i > key.len() {
                assert(t[i] == conf_quote_spec(vals[m])[i - key.len() - 1]);
            }
        }
    }
    let h0 = "# Tunnel config: "@ + c.name;
    let h1 = "# Generated by tunnel-ui "@ + stamp;
    assert(ls[0] == h0);
    assert(ls[1] == h1);
    assert(no_newline(h0)) by {
        assert forall|i: int| 0 <= i < h0.len() implies h0[i] != '\n' by {
            if i >= 17 {
                assert(h0[i] == c.name[i - 17]);
            }
        }
    }
    assert(no_newline(h1)) by {
        assert forall|i: int| 0 <= i < h1.len() implies h1[i] != '\n' by {
            if i >= 25 {
                assert(h1[i] == stamp[i - 25]);
            }
        }
    }
    assert forall|k: int| 0 <= k < ls.len() implies crate::text::no_char(#[trigger] ls[k], '\n') by {
        if k >= 2 {
            assert(ls[(k - 2) + 2] == ls[k]);
        }
    }
    crate::text::lemma_lines_unlines(ls);
    let f = |l: Seq<char>| strip_cr(l);
    let ls2 = ls.map_values(f);
    assert(ls2[0] == strip_cr(h0));
    assert(ls2[1] == strip_cr(h1));
    lemma_comment_line(h0);
    lemma_comment_line(h1);
    assert forall|m: int| 0 <= m < 12 implies field_value(ls2, m) == #[trigger] vals[m] by {
        assert(ls2[m + 2] == strip_cr(ls[m + 2]));
        assert forall|q: int| m + 2 < q < ls2.len() implies match #[trigger] line_entry(ls2[q]) {
            Some((k2, _)) => key_index(k2) != m,
            None => true,
        } by {
            assert(ls2[q] == strip_cr(ls[(q - 2) + 2]));
        }
        lemma_field_value_at(ls2, m, m + 2, keys[m], vals[m]);
    }
    assert(vals[0] == c.name);
    assert(field_value(ls2, 0) == vals[0]);
    assert(field_value(ls2, 1) == vals[1]);
    assert(field_value(ls2, 2) == vals[2]);
    assert(field_value(ls2, 3) == vals[3]);
    assert(field_value(ls2, 4) == vals[4]);
    assert(field_value(ls2, 5) == vals[5]);
    assert(field_value(ls2, 6) == vals[6]);
    assert(field_value(ls2, 7) == vals[7]);
    assert(field_value(ls2, 8) == vals[8]);
    assert(field_value(ls2, 9) == vals[9]);
    assert(field_value(ls2, 10) == vals[10]);
    assert(field_value(ls2, 11) == vals[11]);
}

} // verus!

verus! {

// ---------------------------------------------------------------------------
// Saving and loading.
/// What `save_config` has to write: the file, its text, and the message.
pub struct SavedConfig {
    pub path: String,
    pub body: String,
    pub message: String,
    pub config: Config,
}

/// Whether a setup (after its defaults) can be saved: an explicit setup needs
/// a user and a host, an alias setup an alias.
pub open spec fn savable(d: ConfigView) -> bool {
    if d.auth_mode == explicit() {
        trim(d.remote_user).len() > 0 && trim(d.ssh_host).len() > 0
    } else {
        trim(d.ssh_target).len() > 0
    }
}

/// Checks and completes a setup for saving under `config_dir`, with `home`
/// the value of `HOME` and `stamp` the current local time stamp.
pub fn save_config(config_dir: &str, c: Config, home: &str, stamp: &str) -> (r: Result<
    SavedConfig,
    TunnelError,
>)
    ensures
        r is Ok <==> valid_name(c@.name) && savable(defaults_spec(c@, home@)),
        r matches Ok(s) ==> ({
            let d = defaults_spec(c@, home@);
            &&& s.config@ == d
            &&& s.body@ == config_file_spec(d, stamp@)
            &&& s.path@ == crate::paths::join_path(config_dir@, d.name + ".conf"@)
            &&& s.message@ == "Saved tunnel "@ + crate::error::debug_quote(d.name) + " -> "@
                + s.path@ + "\n  "@ + forward_summary_spec(d)
        }),
        r matches Err(e) ==> !valid_name(c@.name) ==> e.text() == invalid_name_text(c@.name),
        r matches Err(e) ==> valid_name(c@.name) ==> e.text() == (if defaults_spec(
            c@,
            home@,
        ).auth_mode == explicit() {
            "explicit setup needs user and host"@
        } else {
            "alias setup needs an SSH config alias"@
        }),
{
    let mut c = c;
    match sanitize_name(c.name.as_str()) {
        Err(e) => {
            return Err(e);
        },
        Ok(()) => {},
    }
    apply_defaults(&mut c, home);
    if is_explicit_mode(&c.auth_mode) {
        let u = crate::text::trim_str(c.remote_user.as_str());
        let h = crate::text::trim_str(c.ssh_host.as_str());
        if u.len() == 0 || h.len() == 0 {
            return Err(TunnelError::ExplicitNeedsUserHost);
        }
    } else {
        let t = crate::text::trim_str(c.ssh_target.as_str());
        if t.len() == 0 {
            return Err(TunnelError::AliasNeedsTarget);
        }
    }
    let mut fname = c.name.clone();
    fname.append(".conf");
    let path = crate::paths::join(config_dir, fname.as_str());
    let body = config_file_text(&c, stamp);
    let mut message = String::new();
    message.append("Saved tunnel ");
    let q = crate::error::debug_quoted(c.name.as_str());
    message.append(q.as_str());
    message.append(" -> ");
    message.append(path.as_str());
    message.append("\n  ");
    let fs = c.forward_summary();
    message.append(fs.as_str());
    Ok(SavedConfig { path, body, message, config: c })
}

/// One directory entry of the configs directory: its name, whether it is a
/// directory, and its text (`None` when it could not be read).
pub struct ConfFile {
    pub file_name: String,
    pub is_dir: bool,
    pub text: Option<String>,
}

/// Lexicographic order of strings by character (the order of UTF-8 bytes).
pub open spec fn str_lt(a: Seq<char>, b: Seq<char>) -> bool
    decreases a.len(),
{
    if a.len() == 0 {
        b.len() > 0
    } else if b.len() == 0 {
        false
    } else if a[0] != b[0] {
        (a[0] as u32) < (b[0] as u32)
    } else {
        str_lt(a.drop_first(), b.drop_first())
    }
}

fn str_lt_exec(a: &Vec<char>, b: &Vec<char>) -> (r: bool)
    ensures
        r == str_lt(a@, b@),
{
    let mut i: usize = 0;
    assert(a@.skip(0) =~= a@);
    assert(b@.skip(0) =~= b@);
    while i < a.len() && i < b.len() && a[i] == b[i]
        invariant
            i <= a.len(),
            i <= b.len(),
            str_lt(a@, b@) == str_lt(a@.skip(i as int), b@.skip(i as int)),
        decreases a.len() - i,
    {
        assert(a@.skip(i as int).drop_first() =~= a@.skip(i + 1));
        assert(b@.skip(i as int).drop_first() =~= b@.skip(i + 1));
        i = i + 1;
    }
    if i == a.len() {
        i < b.len()
    } else if i == b.len() {
        false
    } else {
        assert(a@.skip(i as int)[0] == a@[i as int]);
        assert(b@.skip(i as int)[0] == b@[i as int]);
        (a[i] as u32) < (b[i] as u32)
    }
}

/// Inserts `x` before the first name that sorts after it.
pub open spec fn insert_sorted(s: Seq<Seq<char>>, x: Seq<char>) -> Seq<Seq<char>>
    decreases s.len(),
{
    if s.len() == 0 {
        seq![x]
    } else if str_lt(x, s[0]) {
        seq![x] + s
    } else {
        seq![s[0]] + insert_sorted(s.drop_first(), x)
    }
}

/// Names in ascending order (an insertion sort, so equal names keep their order).
pub open spec fn sort_names(s: Seq<Seq<char>>) -> Seq<Seq<char>>
    decreases s.len(),
{
    if s.len() == 0 {
        Seq::empty()
    } else {
        insert_sorted(sort_names(s.drop_last()), s.last())
    }
}

fn insert_sorted_exec(s: Vec<Vec<char>>, x: Vec<char>) -> (r: Vec<Vec<char>>)
    ensures
        views(r@) == insert_sorted(views(s@), x@),
{
    let mut i: usize = 0;
    assert(views(s@).skip(0) =~= views(s@));
    assert(views(s@).take(0) + insert_sorted(views(s@), x@) =~= insert_sorted(views(s@), x@));
    while i < s.len() && !str_lt_exec(&x, &s[i])
        invariant
            i <= s.len(),
            insert_sorted(views(s@), x@) == views(s@).take(i as int) + insert_sorted(
                views(s@).skip(i as int),
                x@,
            ),
        decreases s.len() - i,
    {
        let ghost rest = views(s@).skip(i as int);
        assert(rest[0] == s@[i as int]@);
        assert(rest.drop_first() =~= views(s@).skip(i + 1));
        assert(views(s@).take(i + 1) =~= views(s@).take(i as int) + seq![rest[0]]);
        i = i + 1;
    }
    let mut out: Vec<Vec<char>> = Vec::new();
    let mut j: usize = 0;
    let mut s = s;
    let ghost sv = views(s@);
    let mut rest = s.split_off(i);
    assert(views(s@) =~= sv.take(i as int));
    assert(views(rest@) =~= sv.skip(i as int));
    proof {
        if i < sv.len() {
            assert(sv.skip(i as int)[0] == sv[i as int]);
        }
    }
    let ghost left = views(s@);
    s.push(x);
    assert(views(s@) =~= left.push(x@));
    let ghost mid = views(s@);
    s.append(&mut rest);
    assert(views(s@) =~= mid + sv.skip(i as int));
    assert(insert_sorted(sv.skip(i as int), x@) =~= seq![x@] + sv.skip(i as int)) by {
        if sv.skip(i as int).len() > 0 {
        }
    }
    assert(views(s@) =~= sv.take(i as int) + insert_sorted(sv.skip(i as int), x@));
    let _ = j;
    let _ = out;
    s
}

/// Sorts names ascending.
pub fn sort_names_exec(v: &Vec<Vec<char>>) -> (r: Vec<Vec<char>>)
    ensures
        views(r@) == sort_names(views(v@)),
{
    let mut out: Vec<Vec<char>> = Vec::new();
    let mut i: usize = 0;
    while i < v.len()
        invariant
            i <= v.len(),
            views(out@) == sort_names(views(v@).take(i as int)),
        decreases v.len() - i,
    {
        assert(views(v@).take(i + 1).drop_last() =~= views(v@).take(i as int));
        assert(views(v@).take(i + 1).last() == v@[i as int]@);
        let x = copy_range(&v[i], 0, v[i].len());
        assert(x@ =~= v@[i as int]@);
        out = insert_sorted_exec(out, x);
        i = i + 1;
    }
    assert(views(v@).take(v.len() as int) =~= views(v@));
    out
}

pub open spec fn conf_suffix() -> Seq<char> {
    ".conf"@
}

/// `s` with every trailing `.conf` removed (`str::trim_end_matches(".conf")`).
pub open spec fn trim_conf_suffix(s: Seq<char>) -> Seq<char>
    decreases s.len(),
{
    if crate::text::ends_with(s, conf_suffix()) && conf_suffix().len() > 0 {
        trim_conf_suffix(s.take(s.len() - conf_suffix().len()))
    } else {
        s
    }
}

fn trim_conf_suffix_exec(v: &Vec<char>) -> (r: Vec<char>)
    ensures
        r@ == trim_conf_suffix(v@),
{
    proof {
        reveal_strlit(".conf");
    }
    let suffix = chars_of(".conf");
    let mut cur = copy_range(v, 0, v.len());
    assert(cur@ =~= v@);
    while crate::text::ends_with_exec(&cur, &suffix)
        invariant
            suffix@ == conf_suffix(),
            suffix@.len() == 5,
            trim_conf_suffix(v@) == trim_conf_suffix(cur@),
        decreases cur@.len(),
    {
        let n = cur.len() - 5;
        cur = copy_range(&cur, 0, n);
    }
    cur
}

/// The setup a config file yields: its text parsed, named after the file when
/// it does not name itself, with the defaults applied.
pub open spec fn loaded_config(file_name: Seq<char>, text: Seq<char>, home: Seq<char>) -> ConfigView {
    let p = parse_config_spec(text);
    let named = if p.name.len() == 0 {
        ConfigView { name: trim_conf_suffix(file_name), ..p }
    } else {
        p
    };
    defaults_spec(named, home)
}

/// Whether an entry is a readable `.conf` file.
pub open spec fn is_conf_entry(f: ConfFile) -> bool {
    !f.is_dir && crate::text::ends_with(f.file_name@, conf_suffix()) && f.text is Some
}

/// The entry with the given name (the first, names in a directory being unique).
pub open spec fn entry_named(files: Seq<ConfFile>, n: Seq<char>) -> ConfFile {
    files[choose|i: int| 0 <= i < files.len() && files[i].file_name@ == n]
}

/// The setups in a configs directory: readable `.conf` files in name order.
pub open spec fn loaded_configs(files: Seq<ConfFile>, names: Seq<Seq<char>>, home: Seq<char>) -> Seq<ConfigView>
    decreases names.len(),
{
    if names.len() == 0 {
        Seq::empty()
    } else {
        let rest = loaded_configs(files, names.drop_last(), home);
        let f = entry_named(files, names.last());
        if is_conf_entry(f) {
            rest.push(loaded_config(f.file_name@, f.text->0@, home))
        } else {
            rest
        }
    }
}

pub open spec fn file_names(files: Seq<ConfFile>) -> Seq<Seq<char>> {
    files.map_values(|f: ConfFile| f.file_name@)
}

pub open spec fn config_views(cs: Seq<Config>) -> Seq<ConfigView> {
    cs.map_values(|c: Config| c@)
}

fn entry_index(files: &Vec<ConfFile>, n: &Vec<char>) -> (i: usize)
    requires
        exists|k: int| 0 <= k < files.len() && files@[k].file_name@ == n@,
        forall|a: int, b: int|
            0 <= a < b < files.len() ==> files@[a].file_name@ != files@[b].file_name@,
    ensures
        i < files.len(),
        files@[i as int] == entry_named(files@, n@),
{
    let mut i: usize = 0;
    while i < files.len()
        invariant
            i <= files.len(),
            forall|k: int| 0 <= k < i ==> files@[k].file_name@ != n@,
            exists|k: int| 0 <= k < files.len() && files@[k].file_name@ == n@,
            forall|a: int, b: int|
                0 <= a < b < files.len() ==> files@[a].file_name@ != files@[b].file_name@,
        decreases files.len() - i,
    {
        let fv = chars_of(files[i].file_name.as_str());
        if crate::text::seq_eq(&fv, n) {
            proof {
                let w = choose|k: int| 0 <= k < files@.len() && files@[k].file_name@ == n@;
                assert(files@[i as int].file_name@ == n@);
                if w < i {
                } else if w > i {
                    assert(files@[i as int].file_name@ != files@[w].file_name@);
                }
                assert(w == i);
            }
            return i;
        }
        i = i + 1;
    }
    proof {
        let w = choose|k: int| 0 <= k < files@.len() && files@[k].file_name@ == n@;
        assert(files@[w].file_name@ == n@);
    }
    0
}

/// A saved setup loads back as it was saved: a configs directory holding just
/// the file that `save_config` wrote for a setup yields exactly the setup it
/// saved, for every setup that can be saved whose fields (after the defaults)
/// and stamp hold no newline.
pub proof fn lemma_saved_setup_loads_back(c: ConfigView, home: Seq<char>, stamp: Seq<char>, f: ConfFile)
    requires
        valid_name(c.name),
        savable(defaults_spec(c, home)),
        config_one_line(defaults_spec(c, home)),
        no_newline(stamp),
        f.file_name@ == defaults_spec(c, home).name + ".conf"@,
        !f.is_dir,
        f.text matches Some(t) && t@ == config_file_spec(defaults_spec(c, home), stamp),
    ensures
        loaded_configs(seq![f], sort_names(file_names(seq![f])), home) == seq![defaults_spec(c, home)],
{
    let d = defaults_spec(c, home);
    lemma_save_load_round_trip(d, stamp);
    lemma_defaults_idempotent(c, home);
    reveal_strlit(".conf");
    let files = seq![f];
    let n = f.file_name@;
    assert(file_names(files) =~= seq![n]);
    assert(sort_names(seq![n]) =~= seq![n]) by {
        assert(seq![n].drop_last() =~= Seq::<Seq<char>>::empty());
        assert(sort_names(Seq::<Seq<char>>::empty()) == Seq::<Seq<char>>::empty());
        assert(insert_sorted(Seq::<Seq<char>>::empty(), n) == seq![n]);
    }
    assert(files[0].file_name@ == n);
    assert(entry_named(files, n) == f);
    assert(n.skip(n.len() - conf_suffix().len()) =~= conf_suffix());
    assert(is_conf_entry(f));
    assert(seq![n].drop_last() =~= Seq::<Seq<char>>::empty());
    assert(loaded_configs(files, Seq::<Seq<char>>::empty(), home) == Seq::<ConfigView>::empty());
    assert(f.text->0@ == config_file_spec(d, stamp));
    assert(parse_config_spec(config_file_spec(d, stamp)).name == d.name);
    assert(loaded_config(n, f.text->0@, home) == d);
    assert(loaded_configs(files, seq![n], home) =~= seq![d]);
}

/// The configs loaded from the entries of the configs directory (`load_configs`
/// after the directory has been read): entries in name order, directories,
/// unreadable files and names not ending in `.conf` skipped. Entry names are
/// distinct, as in a directory.
pub fn configs_from_files(files: &Vec<ConfFile>, home: &str) -> (r: Vec<Config>)
    requires
        forall|a: int, b: int|
            0 <= a < b < files.len() ==> files@[a].file_name@ != files@[b].file_name@,
    ensures
        config_views(r@) == loaded_configs(files@, sort_names(file_names(files@)), home@),
{
    let mut names: Vec<Vec<char>> = Vec::new();
    let mut i: usize = 0;
    while i < files.len()
        invariant
            i <= files.len(),
            views(names@) == file_names(files@).take(i as int),
        decreases files.len() - i,
    {
        let ghost o = views(names@);
        let fv = chars_of(files[i].file_name.as_str());
        names.push(fv);
        assert(views(names@) =~= o.push(fv@));
        assert(file_names(files@)[i as int] == files@[i as int].file_name@);
        assert(views(names@) =~= file_names(files@).take(i + 1));
        i = i + 1;
    }
    assert(file_names(files@).take(files.len() as int) =~= file_names(files@));
    let sorted = sort_names_exec(&names);
    let ghost sv = views(sorted@);
    proof {
        lemma_sort_names_members(file_names(files@));
    }
    let mut out: Vec<Config> = Vec::new();
    let mut k: usize = 0;
    while k < sorted.len()
        invariant
            k <= sorted.len(),
            sv == views(sorted@),
            sv == sort_names(file_names(files@)),
            forall|a: int, b: int|
                0 <= a < b < files.len() ==> files@[a].file_name@ != files@[b].file_name@,
            forall|m: int|
                0 <= m < sv.len() ==> exists|q: int|
                    0 <= q < files.len() && files@[q].file_name@ == #[trigger] sv[m],
            config_views(out@) == loaded_configs(files@, sv.take(k as int), home@),
        decreases sorted.len() - k,
    {
        assert(sv.take(k + 1).drop_last() =~= sv.take(k as int));
        assert(sv.take(k + 1).last() == sv[k as int]);
        assert(sv[k as int] == sorted@[k as int]@);
        let idx = entry_index(files, &sorted[k]);
        let f = &files[idx];
        let ends = crate::text::ends_with_str(&sorted[k], ".conf");
        proof {
            reveal_strlit(".conf");
        }
        if !f.is_dir && ends {
            match &f.text {
                Some(t) => {
                    let mut c = parse_config_text(t.as_str());
                    if c.name.as_str().is_empty() {
                        let tv = trim_conf_suffix_exec(&sorted[k]);
                        c.name = string_of(tv.as_slice());
                    }
                    apply_defaults(&mut c, home);
                    let ghost o = config_views(out@);
                    out.push(c);
                    assert(config_views(out@) =~= o.push(c@));
                },
                None => {},
            }
        }
        k = k + 1;
    }
    assert(sv.take(sorted.len() as int) =~= sv);
    out
}

proof fn lemma_insert_sorted_members(s: Seq<Seq<char>>, x: Seq<char>)
    ensures
        forall|m: int|
            0 <= m < insert_sorted(s, x).len() ==> #[trigger] insert_sorted(s, x)[m] == x || s.contains(
                insert_sorted(s, x)[m],
            ),
        insert_sorted(s, x).len() == s.len() + 1,
    decreases s.len(),
{
    if s.len() > 0 && !str_lt(x, s[0]) {
        lemma_insert_sorted_members(s.drop_first(), x);
        let r = insert_sorted(s, x);
        let t = insert_sorted(s.drop_first(), x);
        assert forall|m: int| 0 <= m < r.len() implies #[trigger] r[m] == x || s.contains(r[m]) by {
            if m == 0 {
                assert(s.contains(s[0]));
            } else {
                assert(r[m] == t[m - 1]);
                if t[m - 1] != x {
                    let w = choose|q: int| 0 <= q < s.drop_first().len() && s.drop_first()[q] == t[m - 1];
                    assert(s[w + 1] == t[m - 1]);
                }
            }
        }
    } else if s.len() > 0 {
        let r = insert_sorted(s, x);
        assert forall|m: int| 0 <= m < r.len() implies #[trigger] r[m] == x || s.contains(r[m]) by {
            if m > 0 {
                assert(r[m] == s[m - 1]);
            }
        }
    }
}

/// Every sorted name is one of the names.
pub proof fn lemma_sort_names_members(s: Seq<Seq<char>>)
    ensures
        forall|m: int| 0 <= m < sort_names(s).len() ==> s.contains(#[trigger] sort_names(s)[m]),
        sort_names(s).len() == s.len(),
    decreases s.len(),
{
    if s.len() > 0 {
        lemma_sort_names_members(s.drop_last());
        let t = sort_names(s.drop_last());
        lemma_insert_sorted_members(t, s.last());
        let r = sort_names(s);
        assert forall|m: int| 0 <= m < r.len() implies s.contains(#[trigger] r[m]) by {
            if r[m] == s.last() {
                assert(s[s.len() - 1] == s.last());
            } else {
                assert(t.contains(r[m]));
                let w = choose|q: int| 0 <= q < t.len() && t[q] == r[m];
                assert(s.drop_last().contains(t[w]));
                let v = choose|q: int| 0 <= q < s.drop_last().len() && s.drop_last()[q] == t[w];
                assert(s[v] == r[m]);
            }
        }
    }
}

/// The first setup named `name`.
pub open spec fn find_named(cs: Seq<ConfigView>, name: Seq<char>) -> Option<int> {
    if exists|i: int| 0 <= i < cs.len() && cs[i].name == name {
        Some(choose|i: int| 0 <= i < cs.len() && cs[i].name == name && forall|j: int| 0 <= j < i ==> cs[j].name != name)
    } else {
        None
    }
}

/// The first loaded setup named `name`; `config_dir` is shown in the error.
pub fn load_named_config(configs: &Vec<Config>, name: &str, config_dir: &str) -> (r: Result<
    Config,
    TunnelError,
>)
    ensures
        match find_named(config_views(configs@), name@) {
            Some(i) => r matches Ok(c) && c@ == configs@[i]@,
            None => r matches Err(e) && e.text() == crate::error::no_saved_text(name@, config_dir@),
        },
{
    let mut i: usize = 0;
    while i < configs.len()
        invariant
            i <= configs.len(),
            forall|j: int| 0 <= j < i ==> configs@[j]@.name != name@,
        decreases configs.len() - i,
    {
        if str_eq(configs[i].name.as_str(), name) {
            proof {
                let cs = config_views(configs@);
                assert(cs[i as int].name == name@);
                let w = choose|k: int| 0 <= k < cs.len() && cs[k].name == name@ && forall|j: int| 0 <= j < k ==> cs[j].name != name@;
                assert(cs[i as int] == configs@[i as int]@);
                if w < i {
                    assert(cs[w] == configs@[w]@);
                } else if w > i {
                }
            }
            return Ok(configs[i].duplicate());
        }
        i = i + 1;
    }
    proof {
        let cs = config_views(configs@);
        assert forall|k: int| 0 <= k < cs.len() implies cs[k].name != name@ by {
            assert(cs[k] == configs@[k]@);
        }
    }
    Err(TunnelError::NoSavedTunnel { name: String::from_str(name), config_dir: String::from_str(config_dir) })
}

// ---------------------------------------------------------------------------
// The edit menu.
pub open spec fn strs(v: Seq<&str>) -> Seq<Seq<char>> {
    v.map_values(|s: &str| s@)
}

/// The settings the edit menu lists, in order.
pub open spec fn edit_menu_keys_spec(c: ConfigView, name_locked: bool) -> Seq<Seq<char>> {
    let head: Seq<Seq<char>> = if name_locked {
        seq!["comment"@, "auth"@]
    } else {
        seq!["name"@, "comment"@, "auth"@]
    };
    let mid: Seq<Seq<char>> = if c.auth_mode == explicit() {
        seq!["user"@, "host"@, "key"@]
    } else {
        seq!["target"@]
    };
    head + mid + seq![
        "local"@,
        "rhost"@,
        "rport"@,
        "reconnect"@,
        "delay"@,
        "save"@,
        "cancel"@,
    ]
}

pub fn edit_menu_keys(c: &Config, name_locked: bool) -> (r: Vec<&'static str>)
    ensures
        strs(r@) == edit_menu_keys_spec(c@, name_locked),
{
    let mut keys: Vec<&'static str> = Vec::new();
    if !name_locked {
        keys.push("name");
    }
    keys.push("comment");
    keys.push("auth");
    if is_explicit_mode(&c.auth_mode) {
        keys.push("user");
        keys.push("host");
        keys.push("key");
    } else {
        keys.push("target");
    }
    keys.push("local");
    keys.push("rhost");
    keys.push("rport");
    keys.push("reconnect");
    keys.push("delay");
    keys.push("save");
    keys.push("cancel");
    assert(strs(keys@) =~= edit_menu_keys_spec(c@, name_locked));
    keys
}

/// The label of a setup type.
pub fn auth_label(mode: &str) -> (r: &'static str)
    ensures
        r@ == (if mode@ == explicit() {
            "User, host, and key"@
        } else {
            "SSH config alias"@
        }),
{
    proof {
        reveal_strlit("explicit");
    }
    assert("explicit"@ =~= explicit());
    if str_eq(mode, "explicit") {
        "User, host, and key"
    } else {
        "SSH config alias"
    }
}

/// `No` for `0`, else `Yes`.
pub fn reconnect_label(v: &str) -> (r: &'static str)
    ensures
        r@ == (if v@ == seq!['0'] {
            "No"@
        } else {
            "Yes"@
        }),
{
    proof {
        reveal_strlit("0");
    }
    assert("0"@ =~= seq!['0']);
    if str_eq(v, "0") {
        "No"
    } else {
        "Yes"
    }
}

/// The trimmed value, or an em dash when it is blank.
pub fn dash(s: &str) -> (r: String)
    ensures
        r@ == (if trim(s@).len() == 0 {
            "\u{2014}"@
        } else {
            trim(s@)
        }),
{
    let t = crate::text::trim_str(s);
    if t.len() == 0 {
        String::from_str("\u{2014}")
    } else {
        string_of(t.as_slice())
    }
}

} // verus!
