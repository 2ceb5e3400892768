//! Where setups and their runtime state live, Unix path arithmetic on strings,
//! and the small state files (PID files, error files, logs) read as text.
use vstd::prelude::*;
use crate::casefold::{lower_chars, lowercase};
use crate::num::{i32_string, int_text, parse_i32, parse_i32_spec, dec};
use crate::text::{
    append_chars, append_str, chars_of, contains, contains_str, copy_range, ends_with,
    is_whitespace, is_ws, join_words, lines, lines_of, replace, replace_chars, split_on,
    split_on_char, starts_with, starts_with_str, str_eq, string_of, trim, trim_chars, trim_str,
    views,
};

verus! {

// ---------------------------------------------------------------------------
// Unix paths as strings.
/// `Path::join` on Unix: an absolute part replaces the base; otherwise one `/`
/// separates them unless the base is empty or already ends in `/`.
pub open spec fn join_path(base: Seq<char>, part: Seq<char>) -> Seq<char> {
    if part.len() > 0 && part[0] == '/' {
        part
    } else if base.len() == 0 || base.last() == '/' {
        base + part
    } else {
        base + seq!['/'] + part
    }
}

pub fn join(base: &str, part: &str) -> (r: String)
    ensures
        r@ == join_path(base@, part@),
{
    let b = chars_of(base);
    let p = chars_of(part);
    let mut out: Vec<char>;
    if p.len() > 0 && p[0] == '/' {
        out = p;
    } else if b.len() == 0 || b[b.len() - 1] == '/' {
        out = b;
        append_chars(&mut out, &p);
    } else {
        out = b;
        out.push('/');
        append_chars(&mut out, &p);
    }
    string_of(out.as_slice())
}

/// The names of a path's components that are not the root or `.`
/// (`Path::components` without `RootDir` and `CurDir`).
pub open spec fn keep_names(parts: Seq<Seq<char>>) -> Seq<Seq<char>>
    decreases parts.len(),
{
    if parts.len() == 0 {
        Seq::empty()
    } else {
        let rest = keep_names(parts.drop_last());
        let p = parts.last();
        if p.len() == 0 || p == seq!['.'] {
            rest
        } else {
            rest.push(p)
        }
    }
}

pub open spec fn path_names(p: Seq<char>) -> Seq<Seq<char>> {
    keep_names(split_on(p, '/'))
}

/// `Path::file_name`: the last component unless it is `..`, the root or `.`.
pub open spec fn file_name_spec(p: Seq<char>) -> Option<Seq<char>> {
    let names = path_names(p);
    if names.len() == 0 || names.last() == seq!['.', '.'] {
        None
    } else {
        Some(names.last())
    }
}

pub fn path_names_exec(p: &str) -> (r: Vec<Vec<char>>)
    ensures
        views(r@) == path_names(p@),
{
    let v = chars_of(p);
    let parts = split_on_char(&v, '/');
    let mut out: Vec<Vec<char>> = Vec::new();
    let mut i: usize = 0;
    while i < parts.len()
        invariant
            i <= parts.len(),
            views(out@) == keep_names(views(parts@).take(i as int)),
        decreases parts.len() - i,
    {
        assert(views(parts@).take(i + 1).drop_last() =~= views(parts@).take(i as int));
        assert(views(parts@).take(i + 1).last() == parts@[i as int]@);
        let part = copy_range(&parts[i], 0, parts[i].len());
        assert(part@ =~= parts@[i as int]@);
        let is_dot = part.len() == 1 && part[0] == '.';
        assert(is_dot == (part@ == seq!['.'])) by {
            if part@ == seq!['.'] {
                assert(part@.len() == 1);
            }
            if is_dot {
                assert(part@ =~= seq!['.']);
            }
        }
        if !(part.len() == 0 || is_dot) {
            let ghost o = views(out@);
            out.push(part);
            assert(views(out@) =~= o.push(part@));
        }
        i = i + 1;
    }
    assert(views(parts@).take(parts.len() as int) =~= views(parts@));
    out
}

/// `Path::file_name` of a path given as a string.
pub fn file_name(p: &str) -> (r: Option<String>)
    ensures
        match r {
            Some(s) => file_name_spec(p@) == Some(s@),
            None => file_name_spec(p@) is None,
        },
{
    let names = path_names_exec(p);
    if names.len() == 0 {
        return None;
    }
    let last = copy_range(&names[names.len() - 1], 0, names[names.len() - 1].len());
    assert(last@ =~= views(names@).last());
    let is_dotdot = last.len() == 2 && last[0] == '.' && last[1] == '.';
    assert(is_dotdot == (last@ == seq!['.', '.'])) by {
        if last@ == seq!['.', '.'] {
            assert(last@.len() == 2);
        }
        if is_dotdot {
            assert(last@ =~= seq!['.', '.']);
        }
    }
    if is_dotdot {
        None
    } else {
        Some(string_of(last.as_slice()))
    }
}

/// The last path component, or the whole string when it has none.
pub open spec fn basename_spec(p: Seq<char>) -> Seq<char> {
    match file_name_spec(p) {
        Some(n) => n,
        None => p,
    }
}

/// The file name of a path, or the path itself when it has none.
pub fn basename(path: &str) -> (r: String)
    ensures
        r@ == basename_spec(path@),
{
    match file_name(path) {
        Some(n) => n,
        None => String::from_str(path),
    }
}

// ---------------------------------------------------------------------------
// The app root.
/// `exists` adjacent components `target` and then `debug` or `release`.
pub open spec fn is_rust_build_dir_spec(dir: Seq<char>) -> bool {
    let names = path_names(dir);
    exists|i: int|
        0 <= i < names.len() - 1 && #[trigger] names[i] == "target"@ && (names[i + 1] == "debug"@
            || names[i + 1] == "release"@)
}

/// A directory that Cargo builds into.
pub fn is_rust_build_dir(dir: &str) -> (b: bool)
    ensures
        b == is_rust_build_dir_spec(dir@),
{
    let names = path_names_exec(dir);
    let n = names.len();
    let mut i: usize = 0;
    while n > 0 && i < n - 1
        invariant
            n == names.len(),
            i <= n,
            views(names@) == path_names(dir@),
            forall|j: int|
                0 <= j < i && j < n - 1 ==> !(#[trigger] views(names@)[j] == "target"@ && (
                views(names@)[j + 1] == "debug"@ || views(names@)[j + 1] == "release"@)),
        decreases n - i,
    {
        let a = string_of(names[i].as_slice());
        let b = string_of(names[i + 1].as_slice());
        assert(views(names@)[i as int] == names@[i as int]@);
        assert(views(names@)[i + 1] == names@[i + 1]@);
        if str_eq(a.as_str(), "target") && (str_eq(b.as_str(), "debug") || str_eq(
            b.as_str(),
            "release",
        )) {
            return true;
        }
        i = i + 1;
    }
    false
}

/// Whether a binary in `exe_dir` is a development build that keeps its data in
/// the working directory.
pub open spec fn use_cwd_instead_spec(exe_dir: Seq<char>) -> bool {
    let base = match file_name_spec(exe_dir) {
        Some(n) => lowercase(n),
        None => Seq::empty(),
    };
    contains(base, "go-build"@) || starts_with(base, "tmp"@) || is_rust_build_dir_spec(exe_dir)
}

pub fn use_cwd_instead(exe_dir: &str) -> (b: bool)
    ensures
        b == use_cwd_instead_spec(exe_dir@),
{
    let base: Vec<char> = match file_name(exe_dir) {
        Some(n) => lower_chars(n.as_str()),
        None => Vec::new(),
    };
    if contains_str(&base, "go-build") || starts_with_str(&base, "tmp") {
        return true;
    }
    is_rust_build_dir(exe_dir)
}

pub open spec fn opt_view(o: Option<&str>) -> Option<Seq<char>> {
    match o {
        Some(s) => Some(s@),
        None => None,
    }
}

pub open spec fn cwd_or_dot(cwd: Option<Seq<char>>) -> Seq<char> {
    match cwd {
        Some(c) => c,
        None => seq!['.'],
    }
}

/// `TUNNEL_HOME` if set; the working directory for a development build;
/// `~/.tunnel-ui`; else the working directory (or `.`).
pub open spec fn resolve_app_root_spec(
    tunnel_home: Option<Seq<char>>,
    exe_dir: Option<Seq<char>>,
    cwd: Option<Seq<char>>,
    home: Option<Seq<char>>,
) -> Seq<char> {
    if tunnel_home is Some && tunnel_home->0.len() > 0 {
        tunnel_home->0
    } else if exe_dir is Some && use_cwd_instead_spec(exe_dir->0) {
        cwd_or_dot(cwd)
    } else if home is Some {
        join_path(home->0, ".tunnel-ui"@)
    } else {
        cwd_or_dot(cwd)
    }
}

/// A non-empty `TUNNEL_HOME` is the app root, whatever the other values are.
pub proof fn lemma_tunnel_home_wins(
    tunnel_home: Seq<char>,
    exe_dir: Option<Seq<char>>,
    cwd: Option<Seq<char>>,
    home: Option<Seq<char>>,
)
    requires
        tunnel_home.len() > 0,
    ensures
        resolve_app_root_spec(Some(tunnel_home), exe_dir, cwd, home) == tunnel_home,
{
}

fn cwd_or_dot_exec(cwd: Option<&str>) -> (r: String)
    ensures
        r@ == cwd_or_dot(opt_view(cwd)),
{
    match cwd {
        Some(c) => String::from_str(c),
        None => {
            proof {
                reveal_strlit(".");
            }
            let r = String::from_str(".");
            assert(r@ =~= seq!['.']);
            r
        },
    }
}

/// The app root: configs and `.state` live under it.
pub fn resolve_app_root(
    tunnel_home: Option<&str>,
    exe_dir: Option<&str>,
    cwd: Option<&str>,
    home: Option<&str>,
) -> (r: String)
    ensures
        r@ == resolve_app_root_spec(
            opt_view(tunnel_home),
            opt_view(exe_dir),
            opt_view(cwd),
            opt_view(home),
        ),
{
    if let Some(h) = tunnel_home {
        if !h.is_empty() {
            return String::from_str(h);
        }
    }
    if let Some(d) = exe_dir {
        if use_cwd_instead(d) {
            return cwd_or_dot_exec(cwd);
        }
    }
    if let Some(h) = home {
        return join(h, ".tunnel-ui");
    }
    cwd_or_dot_exec(cwd)
}

/// Resolved data directories.
#[derive(Debug, Clone)]
pub struct Paths {
    pub root: String,
    pub config_dir: String,
    pub state_dir: String,
}

/// The files of one setup under `.state/<name>/`.
#[derive(Debug, Clone)]
pub struct SetupPaths {
    pub dir: String,
    pub pid_file: String,
    pub child_file: String,
    pub stop_file: String,
    pub log_file: String,
    pub err_file: String,
}

pub open spec fn nonempty_opt(v: Option<Seq<char>>) -> Option<Seq<char>> {
    match v {
        Some(s) => if s.len() > 0 {
            Some(s)
        } else {
            None
        },
        None => None,
    }
}

impl Paths {
    /// `configs/` and `.state/` under `root`.
    pub fn from_root(root: &str) -> (p: Paths)
        ensures
            p.root@ == root@,
            p.config_dir@ == join_path(root@, "configs"@),
            p.state_dir@ == join_path(root@, ".state"@),
    {
        Paths {
            root: String::from_str(root),
            config_dir: join(root, "configs"),
            state_dir: join(root, ".state"),
        }
    }

    /// The state files of setup `name`.
    pub fn setup(&self, name: &str) -> (sp: SetupPaths)
        ensures
            sp.dir@ == join_path(self.state_dir@, name@),
            sp.pid_file@ == join_path(sp.dir@, "tunnel.pid"@),
            sp.child_file@ == join_path(sp.dir@, "tunnel.child.pid"@),
            sp.stop_file@ == join_path(sp.dir@, "tunnel.stop"@),
            sp.log_file@ == join_path(sp.dir@, "tunnel.log"@),
            sp.err_file@ == join_path(sp.dir@, "tunnel.err"@),
    {
        let dir = join(self.state_dir.as_str(), name);
        SetupPaths {
            pid_file: join(dir.as_str(), "tunnel.pid"),
            child_file: join(dir.as_str(), "tunnel.child.pid"),
            stop_file: join(dir.as_str(), "tunnel.stop"),
            log_file: join(dir.as_str(), "tunnel.log"),
            err_file: join(dir.as_str(), "tunnel.err"),
            dir,
        }
    }

    /// The file a setup is saved in: `configs/<name>.conf`.
    pub fn config_file(&self, name: &str) -> (p: String)
        ensures
            p@ == join_path(self.config_dir@, name@ + ".conf"@),
    {
        let mut f = String::from_str(name);
        f.append(".conf");
        join(self.config_dir.as_str(), f.as_str())
    }

    /// Whether `name` can name a saved setup at all; `file_is_file` says whether
    /// `configs/<name>.conf` is a regular file.
    pub fn saved_config_exists(&self, name: &str, file_is_file: bool) -> (b: bool)
        ensures
            b == (crate::config::valid_name(name@) && file_is_file),
    {
        match crate::config::sanitize_name(name) {
            Ok(()) => file_is_file,
            Err(_) => false,
        }
    }
}

fn nonempty_string(v: Option<&str>) -> (r: Option<String>)
    ensures
        match r {
            Some(s) => nonempty_opt(opt_view(v)) == Some(s@),
            None => nonempty_opt(opt_view(v)) is None,
        },
{
    match v {
        Some(s) => if s.is_empty() {
            None
        } else {
            Some(String::from_str(s))
        },
        None => None,
    }
}

/// The directories from the environment's values: `TUNNEL_HOME`,
/// `TUNNEL_CONFIG_DIR`, `TUNNEL_STATE_DIR`, the executable's directory, the
/// working directory and `HOME`.
pub fn from_parts(
    tunnel_home: Option<&str>,
    config_dir: Option<&str>,
    state_dir: Option<&str>,
    exe_dir: Option<&str>,
    cwd: Option<&str>,
    home: Option<&str>,
) -> (p: Paths)
    ensures
        p.root@ == resolve_app_root_spec(
            opt_view(tunnel_home),
            opt_view(exe_dir),
            opt_view(cwd),
            opt_view(home),
        ),
        p.config_dir@ == match nonempty_opt(opt_view(config_dir)) {
            Some(d) => d,
            None => join_path(p.root@, "configs"@),
        },
        p.state_dir@ == match nonempty_opt(opt_view(state_dir)) {
            Some(d) => d,
            None => join_path(p.root@, ".state"@),
        },
{
    let root = resolve_app_root(tunnel_home, exe_dir, cwd, home);
    let cd = match nonempty_string(config_dir) {
        Some(d) => d,
        None => join(root.as_str(), "configs"),
    };
    let sd = match nonempty_string(state_dir) {
        Some(d) => d,
        None => join(root.as_str(), ".state"),
    };
    Paths { root, config_dir: cd, state_dir: sd }
}

// ---------------------------------------------------------------------------
// State files.
/// `s` without trailing `c` characters (`str::trim_end_matches` with a char).
pub open spec fn trim_end_char(s: Seq<char>, c: char) -> Seq<char>
    decreases s.len(),
{
    if s.len() > 0 && s.last() == c {
        trim_end_char(s.drop_last(), c)
    } else {
        s
    }
}

fn trim_end_char_exec(v: &Vec<char>, c: char) -> (r: Vec<char>)
    ensures
        r@ == trim_end_char(v@, c),
{
    let mut e = v.len();
    assert(v@.take(v.len() as int) =~= v@);
    while e > 0 && v[e - 1] == c
        invariant
            e <= v.len(),
            trim_end_char(v@, c) == trim_end_char(v@.take(e as int), c),
        decreases e,
    {
        assert(v@.take(e as int).drop_last() =~= v@.take(e - 1));
        e = e - 1;
    }
    copy_range(v, 0, e)
}

/// The PID a PID file's text holds, 0 when it holds none.
pub open spec fn pid_text_value(raw: Seq<char>) -> int {
    match parse_i32_spec(trim(trim_end_char(trim(raw), '\r'))) {
        Some(n) => n,
        None => 0,
    }
}

/// Reads a PID file's text (`read_pid_file` without the read): 0 when it is
/// not a number.
pub fn parse_pid_text(raw: &str) -> (pid: i32)
    ensures
        pid as int == pid_text_value(raw@),
{
    let t = trim_str(raw);
    let t2 = trim_end_char_exec(&t, '\r');
    let t3 = trim_chars(&t2);
    let s = string_of(t3.as_slice());
    match parse_i32(s.as_str()) {
        Some(n) => n,
        None => 0,
    }
}

/// What `write_pid_file` writes: the PID and a newline.
pub fn pid_file_text(pid: i32) -> (r: String)
    ensures
        r@ == int_text(pid as int) + seq!['\n'],
{
    let mut s = i32_string(pid);
    s.append("\n");
    proof {
        reveal_strlit("\n");
    }
    assert(s@ =~= int_text(pid as int) + seq!['\n']);
    s
}

/// A PID file that `pid_file_text` wrote reads back, with `parse_pid_text`,
/// as the PID that was written.
pub proof fn lemma_pid_file_round_trip(pid: i32)
    ensures
        pid_text_value(int_text(pid as int) + seq!['\n']) == pid as int,
{
    let t = int_text(pid as int);
    crate::num::lemma_int_text_parses(pid);
    crate::text::lemma_trim_id(t);
    assert(t + seq!['\n'] =~= t.push('\n'));
    crate::text::lemma_trim_push_ws(t, '\n');
    assert(trim_end_char(t, '\r') == t);
}

/// An error file that `err_file_text` wrote reads back, with `err_text`, as
/// the message trimmed.
pub proof fn lemma_err_file_round_trip(msg: Seq<char>)
    ensures
        trim(trim(msg) + seq!['\n']) == trim(msg),
{
    crate::text::lemma_trim_ends(msg);
    assert(trim(msg) + seq!['\n'] =~= trim(msg).push('\n'));
    crate::text::lemma_trim_push_ws(trim(msg), '\n');
}

/// What `write_err_file` writes: the trimmed message and a newline.
pub fn err_file_text(msg: &str) -> (r: String)
    ensures
        r@ == trim(msg@) + seq!['\n'],
{
    let mut t = trim_str(msg);
    t.push('\n');
    string_of(t.as_slice())
}

/// What `read_err_file` returns for the file's text: the text trimmed.
pub fn err_text(raw: &str) -> (r: String)
    ensures
        r@ == trim(raw@),
{
    let t = trim_str(raw);
    string_of(t.as_slice())
}

/// A log line: `[stamp] msg`.
pub fn log_line(stamp: &str, msg: &str) -> (r: String)
    ensures
        r@ == seq!['['] + stamp@ + "] "@ + msg@ + seq!['\n'],
{
    let mut v: Vec<char> = Vec::new();
    v.push('[');
    append_str(&mut v, stamp);
    append_str(&mut v, "] ");
    append_str(&mut v, msg);
    v.push('\n');
    string_of(v.as_slice())
}

/// The last `n` lines of a file's text, after `"\r\n"` became `"\n"` and the
/// text was trimmed, joined by `"\n"`.
pub open spec fn tail_spec(raw: Seq<char>, n: int) -> Seq<char> {
    let s = trim(replace(raw, seq!['\r', '\n'], seq!['\n']));
    if s.len() == 0 {
        Seq::empty()
    } else {
        let ls = lines(s);
        let start = if ls.len() >= n {
            ls.len() - n
        } else {
            0
        };
        join_words(ls.skip(start), seq!['\n'])
    }
}

/// `tail_file` on a file's text.
pub fn tail_text(raw: &str, n: usize) -> (r: String)
    ensures
        r@ == tail_spec(raw@, n as int),
{
    let v = chars_of(raw);
    let mut from: Vec<char> = Vec::new();
    from.push('\r');
    from.push('\n');
    let mut to: Vec<char> = Vec::new();
    to.push('\n');
    assert(from@ =~= seq!['\r', '\n']);
    assert(to@ =~= seq!['\n']);
    let r = replace_chars(&v, &from, &to);
    let s = trim_chars(&r);
    if s.len() == 0 {
        return String::new();
    }
    let ls = lines_of(&s);
    let start = if ls.len() >= n {
        ls.len() - n
    } else {
        0
    };
    let mut tail: Vec<Vec<char>> = Vec::new();
    let mut i = start;
    while i < ls.len()
        invariant
            start <= i <= ls.len(),
            views(tail@) == views(ls@).subrange(start as int, i as int),
        decreases ls.len() - i,
    {
        let l = copy_range(&ls[i], 0, ls[i].len());
        assert(l@ =~= views(ls@)[i as int]);
        let ghost o = views(tail@);
        tail.push(l);
        assert(views(tail@) =~= o.push(l@));
        assert(views(tail@) =~= views(ls@).subrange(start as int, i + 1));
        i = i + 1;
    }
    assert(views(ls@).subrange(start as int, ls.len() as int) =~= views(ls@).skip(start as int));
    let mut nl: Vec<char> = Vec::new();
    nl.push('\n');
    assert(nl@ =~= seq!['\n']);
    let j = crate::text::join_chars(&tail, &nl);
    string_of(j.as_slice())
}

pub open spec fn noise_markers() -> Seq<Seq<char>> {
    seq![
        "Starting SSH tunnel"@,
        "Supervisor started"@,
        "reconnecting in"@,
        "Stop requested"@,
        "Tunnel stop complete"@,
        "SSH process exited"@,
        "Tunnel exited"@,
        "Reconnect disabled"@,
        "Fatal SSH error"@,
        "Cannot assign requested address"@,
    ]
}

/// A supervisor heartbeat line rather than something ssh said: blank, a
/// banner of `@`, or one of the supervisor's own messages.
pub open spec fn is_noise_spec(line: Seq<char>) -> bool {
    let l = trim(line);
    ||| l.len() == 0
    ||| (forall|i: int| 0 <= i < l.len() ==> #[trigger] l[i] == '@' || is_ws(l[i]))
    ||| exists|k: int| 0 <= k < noise_markers().len() && contains(l, #[trigger] noise_markers()[k])
}

pub fn is_supervisor_noise(line: &str) -> (b: bool)
    ensures
        b == is_noise_spec(line@),
{
    let l = trim_str(line);
    if l.len() == 0 {
        return true;
    }
    let mut all_at = true;
    let mut i: usize = 0;
    while i < l.len()
        invariant
            i <= l.len(),
            all_at == forall|j: int| 0 <= j < i ==> #[trigger] l@[j] == '@' || is_ws(l@[j]),
        decreases l.len() - i,
    {
        if !(l[i] == '@' || is_whitespace(l[i])) {
            all_at = false;
        }
        i = i + 1;
    }
    if all_at {
        return true;
    }
    let markers = [
        "Starting SSH tunnel",
        "Supervisor started",
        "reconnecting in",
        "Stop requested",
        "Tunnel stop complete",
        "SSH process exited",
        "Tunnel exited",
        "Reconnect disabled",
        "Fatal SSH error",
        "Cannot assign requested address",
    ];
    assert(markers@.map_values(|m: &str| m@) =~= noise_markers());
    let mut k: usize = 0;
    while k < 10
        invariant
            k <= 10,
            l@ == trim(line@),
            markers@.map_values(|m: &str| m@) == noise_markers(),
            forall|j: int| 0 <= j < k ==> !contains(l@, #[trigger] noise_markers()[j]),
        decreases 10 - k,
    {
        assert(markers@[k as int]@ == noise_markers()[k as int]);
        if contains_str(&l, markers[k]) {
            assert(contains(l@, noise_markers()[k as int]));
            assert(noise_markers().len() == 10);
            assert(exists|m: int| 0 <= m < noise_markers().len() && contains(l@, #[trigger] noise_markers()[m]));
            return true;
        }
        k = k + 1;
    }
    false
}

/// The last line of the log's tail that is not supervisor noise, trimmed.
pub open spec fn last_failure_spec(log: Seq<char>) -> Seq<char> {
    let ls = lines(tail_spec(log, 40));
    if exists|i: int| 0 <= i < ls.len() && !is_noise_spec(#[trigger] ls[i]) {
        let i = choose|i: int|
            0 <= i < ls.len() && !is_noise_spec(#[trigger] ls[i]) && forall|j: int|
                i < j < ls.len() ==> is_noise_spec(#[trigger] ls[j]);
        trim(ls[i])
    } else {
        Seq::empty()
    }
}

/// The last ssh or stderr line of a log that is not a supervisor heartbeat.
pub fn last_failure_line(log: &str) -> (r: String)
    ensures
        r@ == last_failure_spec(log@),
{
    let tail = tail_text(log, 40);
    let tv = chars_of(tail.as_str());
    let ls = lines_of(&tv);
    let ghost lsv = views(ls@);
    let mut i = ls.len();
    while i > 0
        invariant
            i <= ls.len(),
            lsv == views(ls@),
            lsv == lines(tail_spec(log@, 40)),
            forall|j: int| i <= j < lsv.len() ==> is_noise_spec(#[trigger] lsv[j]),
        decreases i,
    {
        let s = string_of(ls[i - 1].as_slice());
        assert(lsv[i - 1] == ls@[i - 1]@);
        if !is_supervisor_noise(s.as_str()) {
            let t = trim_str(s.as_str());
            proof {
                let k = (i - 1) as int;
                assert(0 <= k < lsv.len() && !is_noise_spec(lsv[k]) && forall|j: int|
                    k < j < lsv.len() ==> is_noise_spec(#[trigger] lsv[j]));
                let w = choose|w: int|
                    0 <= w < lsv.len() && !is_noise_spec(#[trigger] lsv[w]) && forall|j: int|
                        w < j < lsv.len() ==> is_noise_spec(#[trigger] lsv[j]);
                if w < k {
                    assert(is_noise_spec(lsv[k]));
                } else if w > k {
                    assert(is_noise_spec(lsv[w]));
                }
            }
            return string_of(t.as_slice());
        }
        i = i - 1;
    }
    String::new()
}

// ---------------------------------------------------------------------------
// Time stamps.
/// `n` in decimal, zero-padded to `width` (the sign counts), as `{:0width}` formats it.
#[verifier::opaque]
pub open spec fn padded(n: int, width: nat) -> Seq<char> {
    let d = dec(if n < 0 {
        (-n) as nat
    } else {
        n as nat
    });
    let sign: Seq<char> = if n < 0 {
        seq!['-']
    } else {
        Seq::empty()
    };
    let fill = if sign.len() + d.len() < width {
        (width - sign.len() - d.len()) as nat
    } else {
        0nat
    };
    sign + Seq::new(fill, |i: int| '0') + d
}

fn padded_exec(n: i64, width: usize) -> (r: Vec<char>)
    ensures
        r@ == padded(n as int, width as nat),
{
    let mag: u64 = if n < 0 {
        if n == i64::MIN {
            0x8000_0000_0000_0000u64
        } else {
            (-n) as u64
        }
    } else {
        n as u64
    };
    let d = crate::num::u64_chars(mag);
    let mut out: Vec<char> = Vec::new();
    if n < 0 {
        out.push('-');
    }
    let fill: usize = if d.len() >= width {
        0
    } else if out.len() + d.len() < width {
        width - (out.len() + d.len())
    } else {
        0
    };
    let mut k: usize = 0;
    let ghost sign = out@;
    while k < fill
        invariant
            k <= fill,
            out@ == sign + Seq::new(k as nat, |i: int| '0'),
        decreases fill - k,
    {
        out.push('0');
        k = k + 1;
        assert(out@ =~= sign + Seq::new(k as nat, |i: int| '0'));
    }
    append_chars(&mut out, &d);
    assert(sign =~= (if n < 0 {
        seq!['-']
    } else {
        Seq::<char>::empty()
    }));
    proof {
        reveal(padded);
    }
    assert(out@ =~= padded(n as int, width as nat));
    out
}

/// `YYYY-MM-DDTHH:MM:SS±HHMM` from local-time fields as `localtime_r` gives
/// them (`tm_year` counts from 1900, `tm_mon` from 0) and the offset in seconds.
pub open spec fn stamp_spec(
    tm_year: int,
    tm_mon: int,
    tm_mday: int,
    tm_hour: int,
    tm_min: int,
    tm_sec: int,
    gmtoff: int,
) -> Seq<char> {
    let abs = if gmtoff < 0 {
        -gmtoff
    } else {
        gmtoff
    };
    padded(tm_year + 1900, 4) + seq!['-'] + padded(tm_mon + 1, 2) + seq!['-'] + padded(tm_mday, 2)
        + seq!['T'] + padded(tm_hour, 2) + seq![':'] + padded(tm_min, 2) + seq![':'] + padded(
        tm_sec,
        2,
    ) + seq![
        if gmtoff >= 0 {
            '+'
        } else {
            '-'
        },
    ] + padded(abs / 3600, 2) + padded((abs % 3600) / 60, 2)
}

/// Formats a local time the way config files and logs are stamped.
pub fn format_stamp(
    tm_year: i32,
    tm_mon: i32,
    tm_mday: i32,
    tm_hour: i32,
    tm_min: i32,
    tm_sec: i32,
    gmtoff: i64,
) -> (r: String)
    ensures
        r@ == stamp_spec(
            tm_year as int,
            tm_mon as int,
            tm_mday as int,
            tm_hour as int,
            tm_min as int,
            tm_sec as int,
            gmtoff as int,
        ),
{
    let abs: u64 = if gmtoff < 0 {
        if gmtoff == i64::MIN {
            0x8000_0000_0000_0000u64
        } else {
            (-gmtoff) as u64
        }
    } else {
        gmtoff as u64
    };
    let mut out = padded_exec(tm_year as i64 + 1900, 4);
    out.push('-');
    let p = padded_exec(tm_mon as i64 + 1, 2);
    append_chars(&mut out, &p);
    out.push('-');
    let p = padded_exec(tm_mday as i64, 2);
    append_chars(&mut out, &p);
    out.push('T');
    let p = padded_exec(tm_hour as i64, 2);
    append_chars(&mut out, &p);
    out.push(':');
    let p = padded_exec(tm_min as i64, 2);
    append_chars(&mut out, &p);
    out.push(':');
    let p = padded_exec(tm_sec as i64, 2);
    append_chars(&mut out, &p);
    out.push(if gmtoff >= 0 {
        '+'
    } else {
        '-'
    });
    let oh = abs / 3600;
    let om = (abs % 3600) / 60;
    let p = padded_exec(oh as i64, 2);
    append_chars(&mut out, &p);
    let p = padded_exec(om as i64, 2);
    append_chars(&mut out, &p);
    assert(out@ =~= stamp_spec(
        tm_year as int,
        tm_mon as int,
        tm_mday as int,
        tm_hour as int,
        tm_min as int,
        tm_sec as int,
        gmtoff as int,
    ));
    string_of(out.as_slice())
}

} // verus!
