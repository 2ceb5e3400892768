//! Processes and listening sockets: the records the system tables give, the
//! names by which ssh and supervisor processes are recognised, and the parsers
//! of `/proc/net/tcp`, `/proc/<pid>/stat`, `ss -lntp` and `netstat` output.
use vstd::prelude::*;
use crate::casefold::{lower_chars, lowercase, upper_chars, uppercase};
use crate::num::{
    parse_i32, parse_i32_spec, parse_u16, parse_u16_hex, parse_u16_hex_spec, parse_u16_spec,
    parse_u64, parse_u64_spec,
};
use crate::paths::{basename, basename_spec};
use crate::text::{
    ascii_upper, ascii_upper_char, chars_of, starts_with, contains, contains_exec, contains_str, copy_range,
    ends_with, ends_with_str, find, first_occurrence, last_occurrence, leading_digits,
    leading_digits_exec, lines, lines_of, pair_views, rfind, rsplit_once, rsplit_once_char, seq_eq,
    split_once, split_once_char, split_on_str, split_str, split_ws,
    string_of, trim, trim_chars, trim_str, views, words,
};

verus! {

/// A process as the process table shows it.
#[derive(Debug, Clone)]
pub struct OsProc {
    pub pid: i32,
    pub ppid: i32,
    pub name: String,
    pub parent: String,
    pub cmd: String,
}

/// The fields of an `OsProc`, as text.
pub struct OsProcView {
    pub pid: i32,
    pub ppid: i32,
    pub name: Seq<char>,
    pub parent: Seq<char>,
    pub cmd: Seq<char>,
}

impl View for OsProc {
    type V = OsProcView;

    open spec fn view(&self) -> OsProcView {
        OsProcView {
            pid: self.pid,
            ppid: self.ppid,
            name: self.name@,
            parent: self.parent@,
            cmd: self.cmd@,
        }
    }
}

/// A process as read from `/proc`: PID, parent PID, short name (`comm`),
/// executable image and command line.
#[derive(Debug, Clone)]
pub struct ProcInfo {
    pub pid: i32,
    pub ppid: i32,
    pub name: String,
    pub image: String,
    pub cmd: String,
}

/// A TCP port a process listens on, and whether only on loopback.
#[derive(Debug, Clone)]
pub struct ListenPort {
    pub port: String,
    pub loopback: bool,
}

/// `s` without one trailing `.exe`.
pub open spec fn strip_exe(s: Seq<char>) -> Seq<char> {
    if ends_with(s, ".exe"@) {
        s.take(s.len() - 4)
    } else {
        s
    }
}

pub fn strip_exe_exec(v: &Vec<char>) -> (r: Vec<char>)
    ensures
        r@ == strip_exe(v@),
{
    proof {
        reveal_strlit(".exe");
    }
    if ends_with_str(v, ".exe") {
        copy_range(v, 0, v.len() - 4)
    } else {
        copy_range(v, 0, v.len())
    }
}

/// An image whose file name is `ssh` (or `ssh.exe`), ignoring case.
pub open spec fn is_ssh_image(image: Seq<char>) -> bool {
    strip_exe(lowercase(basename_spec(image))) == "ssh"@
}

/// Whether a process image is the ssh client.
pub fn is_ssh_process(image: &str) -> (b: bool)
    ensures
        b == is_ssh_image(image@),
{
    let base = basename(image);
    let l = lower_chars(base.as_str());
    let s = strip_exe_exec(&l);
    let t = string_of(s.as_slice());
    crate::text::str_eq(t.as_str(), "ssh")
}

/// A shell or this app: what runs a supervisor.
pub open spec fn is_supervisor_name_spec(name: Seq<char>) -> bool {
    let base = strip_exe(lowercase(basename_spec(name)));
    ||| base == "bash"@
    ||| base == "sh"@
    ||| base == "dash"@
    ||| contains(base, "tunnel-ui"@)
    ||| contains(base, "tunnel_ui"@)
}

pub fn is_supervisor_name(name: &str) -> (b: bool)
    ensures
        b == is_supervisor_name_spec(name@),
{
    let base = basename(name);
    let l = lower_chars(base.as_str());
    let s = strip_exe_exec(&l);
    let t = string_of(s.as_slice());
    crate::text::str_eq(t.as_str(), "bash") || crate::text::str_eq(t.as_str(), "sh")
        || crate::text::str_eq(t.as_str(), "dash") || contains_str(&s, "tunnel-ui")
        || contains_str(&s, "tunnel_ui")
}

/// A process this app may stop: ssh, or a supervisor.
pub fn is_managed_process(image: &str) -> (b: bool)
    ensures
        b == (is_ssh_image(image@) || is_supervisor_name_spec(image@)),
{
    if is_ssh_process(image) {
        return true;
    }
    is_supervisor_name(image)
}

/// Whether some listener of the port (given by its image) is ssh.
pub fn ssh_holding_port(listener_images: &Vec<String>) -> (b: bool)
    ensures
        b == exists|i: int|
            0 <= i < listener_images.len() && is_ssh_image(#[trigger] listener_images@[i]@),
{
    let mut i: usize = 0;
    while i < listener_images.len()
        invariant
            i <= listener_images.len(),
            forall|j: int| 0 <= j < i ==> !is_ssh_image(#[trigger] listener_images@[j]@),
        decreases listener_images.len() - i,
    {
        if is_ssh_process(listener_images[i].as_str()) {
            return true;
        }
        i = i + 1;
    }
    false
}

/// Whether some listener of the port is ssh or a supervisor.
pub fn ssh_holding_port_live(listener_images: &Vec<String>) -> (b: bool)
    ensures
        b == exists|i: int|
            0 <= i < listener_images.len() && (is_ssh_image(#[trigger] listener_images@[i]@)
                || is_supervisor_name_spec(listener_images@[i]@)),
{
    let mut i: usize = 0;
    while i < listener_images.len()
        invariant
            i <= listener_images.len(),
            forall|j: int|
                0 <= j < i ==> !(is_ssh_image(#[trigger] listener_images@[j]@)
                    || is_supervisor_name_spec(listener_images@[j]@)),
        decreases listener_images.len() - i,
    {
        if is_managed_process(listener_images[i].as_str()) {
            return true;
        }
        i = i + 1;
    }
    false
}

/// `name (pid)` for a listener, with `?` for an image without a name.
pub open spec fn listener_item(pid: int, image: Seq<char>) -> Seq<char> {
    let n = basename_spec(image);
    (if n.len() == 0 {
        seq!['?']
    } else {
        n
    }) + " ("@ + crate::num::int_text(pid) + seq![')']
}

pub open spec fn listener_items(ls: Seq<(i32, String)>, ssh: bool) -> Seq<Seq<char>>
    decreases ls.len(),
{
    if ls.len() == 0 {
        Seq::empty()
    } else {
        let rest = listener_items(ls.drop_last(), ssh);
        let (pid, image) = ls.last();
        if is_ssh_image(image@) == ssh {
            rest.push(listener_item(pid as int, image@))
        } else {
            rest
        }
    }
}

/// The listeners of a port (PID and image) split into ssh and other processes,
/// each as `name (pid)`.
pub fn port_listeners_named(listeners: &Vec<(i32, String)>) -> (r: (Vec<String>, Vec<String>))
    ensures
        r.0@.map_values(|s: String| s@) == listener_items(listeners@, true),
        r.1@.map_values(|s: String| s@) == listener_items(listeners@, false),
{
    let mut ssh: Vec<String> = Vec::new();
    let mut other: Vec<String> = Vec::new();
    let mut i: usize = 0;
    while i < listeners.len()
        invariant
            i <= listeners.len(),
            ssh@.map_values(|s: String| s@) == listener_items(listeners@.take(i as int), true),
            other@.map_values(|s: String| s@) == listener_items(listeners@.take(i as int), false),
        decreases listeners.len() - i,
    {
        assert(listeners@.take(i + 1).drop_last() =~= listeners@.take(i as int));
        let pid = listeners[i].0;
        let image = &listeners[i].1;
        let mut name = basename(image.as_str());
        if name.as_str().is_empty() {
            name = String::from_str("?");
            proof {
                reveal_strlit("?");
            }
            assert(name@ =~= seq!['?']);
        }
        let mut item = name;
        item.append(" (");
        let p = crate::num::i32_string(pid);
        item.append(p.as_str());
        item.append(")");
        proof {
            reveal_strlit(")");
        }
        assert(item@ =~= listener_item(pid as int, image@));
        if is_ssh_process(image.as_str()) {
            let ghost o = ssh@.map_values(|s: String| s@);
            ssh.push(item);
            assert(ssh@.map_values(|s: String| s@) =~= o.push(listener_item(pid as int, image@)));
        } else {
            let ghost o = other@.map_values(|s: String| s@);
            other.push(item);
            assert(other@.map_values(|s: String| s@) =~= o.push(listener_item(pid as int, image@)));
        }
        i = i + 1;
    }
    assert(listeners@.take(listeners.len() as int) =~= listeners@);
    (ssh, other)
}

// ---------------------------------------------------------------------------
// Numbers read from character vectors.
/// A parse result read as a number, 0 when there is none (`unwrap_or(0)`).
pub open spec fn or_zero(o: Option<int>) -> int {
    match o {
        Some(n) => n,
        None => 0,
    }
}

fn parse_i32_chars(v: &Vec<char>) -> (r: Option<i32>)
    ensures
        r matches Some(n) ==> parse_i32_spec(v@) == Some(n as int),
        r is None ==> parse_i32_spec(v@) is None,
{
    let s = string_of(v.as_slice());
    parse_i32(s.as_str())
}

fn parse_u16_chars(v: &Vec<char>) -> (r: Option<u16>)
    ensures
        r matches Some(n) ==> parse_u16_spec(v@) == Some(n as int),
        r is None ==> parse_u16_spec(v@) is None,
{
    let s = string_of(v.as_slice());
    parse_u16(s.as_str())
}

fn parse_u16_hex_chars(v: &Vec<char>) -> (r: Option<u16>)
    ensures
        r matches Some(n) ==> parse_u16_hex_spec(v@) == Some(n as int),
        r is None ==> parse_u16_hex_spec(v@) is None,
{
    let s = string_of(v.as_slice());
    parse_u16_hex(s.as_str())
}

fn parse_u64_chars(v: &Vec<char>) -> (r: Option<u64>)
    ensures
        r matches Some(n) ==> parse_u64_spec(v@) == Some(n as int),
        r is None ==> parse_u64_spec(v@) is None,
{
    let s = string_of(v.as_slice());
    parse_u64(s.as_str())
}

fn eq_str(v: &Vec<char>, s: &str) -> (b: bool)
    ensures
        b == (v@ == s@),
{
    let w = chars_of(s);
    seq_eq(v, &w)
}

// ---------------------------------------------------------------------------
// `/proc/<pid>/stat`.
/// The parent PID in a `/proc/<pid>/stat` line: the second field after the
/// last `)` (the command name may hold spaces and parentheses), 0 when absent.
pub open spec fn stat_ppid_spec(stat: Seq<char>) -> int {
    match rsplit_once(stat, ')') {
        None => 0,
        Some((_, rest)) => {
            let ws = words(rest);
            if ws.len() >= 2 {
                or_zero(parse_i32_spec(ws[1]))
            } else {
                0
            }
        },
    }
}

pub fn parse_stat_ppid(stat: &str) -> (ppid: i32)
    ensures
        ppid as int == stat_ppid_spec(stat@),
{
    let v = chars_of(stat);
    match rsplit_once_char(&v, ')') {
        None => 0,
        Some((_, rest)) => {
            let ws = split_ws(&rest);
            if ws.len() >= 2 {
                assert(views(ws@)[1] == ws@[1]@);
                match parse_i32_chars(&ws[1]) {
                    Some(n) => n,
                    None => 0,
                }
            } else {
                0
            }
        },
    }
}

// ---------------------------------------------------------------------------
// `/proc/net/tcp` and `/proc/net/tcp6`.
fn ascii_upper_exec(v: &Vec<char>) -> (out: Vec<char>)
    ensures
        out@ == ascii_upper(v@),
{
    let mut out: Vec<char> = Vec::new();
    let mut i: usize = 0;
    while i < v.len()
        invariant
            i <= v.len(),
            out@ == ascii_upper(v@.take(i as int)),
        decreases v.len() - i,
    {
        let c = v[i];
        let u = if 'a' <= c && c <= 'z' {
            let cu = c as u32;
            let b: u8 = (cu - 32) as u8;
            assert(b as u32 == cu - 32);
            b as char
        } else {
            c
        };
        out.push(u);
        assert(ascii_upper(v@.take(i + 1)) =~= ascii_upper(v@.take(i as int)).push(
            ascii_upper_char(c),
        ));
        i = i + 1;
    }
    assert(v@.take(v.len() as int) =~= v@);
    out
}

/// A local address (hex, as the kernel prints it) that is IPv4 or IPv6 loopback.
pub open spec fn loopback_hex(h: Seq<char>) -> bool {
    let u = ascii_upper(h);
    ||| u == "0100007F"@
    ||| u == "00000000000000000000000001000000"@
    ||| u == "0000000000000000FFFF00000100007F"@
}

fn loopback_hex_exec(h: &Vec<char>) -> (b: bool)
    ensures
        b == loopback_hex(h@),
{
    let u = ascii_upper_exec(h);
    eq_str(&u, "0100007F") || eq_str(&u, "00000000000000000000000001000000") || eq_str(
        &u,
        "0000000000000000FFFF00000100007F",
    )
}

/// A row in state `0A` (LISTEN): local port, socket inode (not 0), loopback.
pub open spec fn listen_row(line: Seq<char>) -> Option<(u16, u64, bool)> {
    let f = words(line);
    if f.len() < 10 || f[3] != "0A"@ {
        None
    } else {
        match rsplit_once(f[1], ':') {
            None => None,
            Some((addr, port_hex)) => match (parse_u16_hex_spec(port_hex), parse_u64_spec(f[9])) {
                (Some(port), Some(inode)) => if inode > 0 {
                    Some((port as u16, inode as u64, loopback_hex(addr)))
                } else {
                    None
                },
                _ => None,
            },
        }
    }
}

pub open spec fn listen_rows(ls: Seq<Seq<char>>) -> Seq<(u16, u64, bool)>
    decreases ls.len(),
{
    if ls.len() == 0 {
        Seq::empty()
    } else {
        let r = listen_rows(ls.drop_last());
        match listen_row(ls.last()) {
            Some(t) => r.push(t),
            None => r,
        }
    }
}

/// The lines after the first (`lines().skip(1)`).
pub open spec fn after_header(ls: Seq<Seq<char>>) -> Seq<Seq<char>> {
    if ls.len() == 0 {
        ls
    } else {
        ls.skip(1)
    }
}

fn listen_row_exec(line: &Vec<char>) -> (r: Option<(u16, u64, bool)>)
    ensures
        r == listen_row(line@),
{
    let f = split_ws(line);
    let ghost fv = views(f@);
    if f.len() < 10 {
        return None;
    }
    assert(fv[3] == f@[3]@ && fv[1] == f@[1]@ && fv[9] == f@[9]@);
    if !eq_str(&f[3], "0A") {
        return None;
    }
    let (addr_hex, port_hex) = match rsplit_once_char(&f[1], ':') {
        None => {
            return None;
        },
        Some(p) => p,
    };
    let port = match parse_u16_hex_chars(&port_hex) {
        None => {
            return None;
        },
        Some(p) => p,
    };
    let inode = match parse_u64_chars(&f[9]) {
        None => {
            return None;
        },
        Some(n) => n,
    };
    if inode > 0 {
        let lb = loopback_hex_exec(&addr_hex);
        Some((port, inode, lb))
    } else {
        None
    }
}

/// Listen rows of `/proc/net/tcp` text: (local port, inode, loopback).
pub fn parse_proc_net_listen_ext(text: &str) -> (r: Vec<(u16, u64, bool)>)
    ensures
        r@ == listen_rows(after_header(lines(text@))),
{
    let v = chars_of(text);
    let ls = lines_of(&v);
    let ghost body = after_header(views(ls@));
    let mut out: Vec<(u16, u64, bool)> = Vec::new();
    if ls.len() == 0 {
        return out;
    }
    let mut i: usize = 1;
    while i < ls.len()
        invariant
            1 <= i <= ls.len(),
            body == views(ls@).skip(1),
            out@ == listen_rows(body.take(i - 1)),
        decreases ls.len() - i,
    {
        assert(body.take(i as int).drop_last() =~= body.take(i - 1));
        assert(body.take(i as int).last() == ls@[i as int]@);
        match listen_row_exec(&ls[i]) {
            Some(t) => out.push(t),
            None => {},
        }
        i = i + 1;
    }
    assert(body.take(ls.len() - 1) =~= body);
    out
}

pub open spec fn port_inode_pairs(rows: Seq<(u16, u64, bool)>) -> Seq<(u16, u64)> {
    rows.map_values(|t: (u16, u64, bool)| (t.0, t.1))
}

/// Listen rows of `/proc/net/tcp` text: (local port, inode).
pub fn parse_proc_net_listen(text: &str) -> (r: Vec<(u16, u64)>)
    ensures
        r@ == port_inode_pairs(listen_rows(after_header(lines(text@)))),
{
    let rows = parse_proc_net_listen_ext(text);
    let mut out: Vec<(u16, u64)> = Vec::new();
    let mut i: usize = 0;
    while i < rows.len()
        invariant
            i <= rows.len(),
            out@ == port_inode_pairs(rows@.take(i as int)),
        decreases rows.len() - i,
    {
        out.push((rows[i].0, rows[i].1));
        assert(port_inode_pairs(rows@.take(i + 1)) =~= port_inode_pairs(rows@.take(i as int)).push(
            (rows@[i as int].0, rows@[i as int].1),
        ));
        i = i + 1;
    }
    assert(rows@.take(rows.len() as int) =~= rows@);
    out
}

// ---------------------------------------------------------------------------
// `ss -lntp` and `netstat` output.
/// The positive values of `xs`, each once, in the order they first appear.
pub open spec fn uniq_positive(xs: Seq<i32>) -> Seq<i32>
    decreases xs.len(),
{
    if xs.len() == 0 {
        Seq::empty()
    } else {
        let r = uniq_positive(xs.drop_last());
        let x = xs.last();
        if x > 0 && !r.contains(x) {
            r.push(x)
        } else {
            r
        }
    }
}

/// The PIDs kept are positive, each occurs once, and they are exactly the
/// positive values of the input.
pub proof fn lemma_uniq_positive_props(xs: Seq<i32>)
    ensures
        forall|i: int| 0 <= i < uniq_positive(xs).len() ==> #[trigger] uniq_positive(xs)[i] > 0,
        forall|i: int, j: int|
            0 <= i < j < uniq_positive(xs).len() ==> uniq_positive(xs)[i] != uniq_positive(xs)[j],
        forall|x: i32| uniq_positive(xs).contains(x) <==> (x > 0 && xs.contains(x)),
    decreases xs.len(),
{
    if xs.len() > 0 {
        let p = xs.drop_last();
        lemma_uniq_positive_props(p);
        let r = uniq_positive(p);
        let x = xs.last();
        assert(xs =~= p.push(x));
        assert forall|y: i32| xs.contains(y) <==> (p.contains(y) || y == x) by {
            if xs.contains(y) {
                let k = choose|k: int| 0 <= k < xs.len() && xs[k] == y;
                if k < p.len() {
                    assert(p[k] == y);
                }
            }
            if p.contains(y) {
                let k = choose|k: int| 0 <= k < p.len() && p[k] == y;
                assert(xs[k] == y);
            }
            if y == x {
                assert(xs[xs.len() - 1] == y);
            }
        }
        if x > 0 && !r.contains(x) {
            let u = r.push(x);
            assert forall|y: i32| u.contains(y) <==> (r.contains(y) || y == x) by {
                if u.contains(y) {
                    let k = choose|k: int| 0 <= k < u.len() && u[k] == y;
                    if k < r.len() {
                        assert(r[k] == y);
                    }
                }
                if r.contains(y) {
                    let k = choose|k: int| 0 <= k < r.len() && r[k] == y;
                    assert(u[k] == y);
                }
                if y == x {
                    assert(u[r.len() as int] == y);
                }
            }
            assert forall|i: int, j: int| 0 <= i < j < u.len() implies u[i] != u[j] by {
                if j == r.len() {
                    assert(r.contains(u[i]));
                }
            }
        }
    }
}

pub fn has_pid(v: &Vec<i32>, x: i32) -> (b: bool)
    ensures
        b == v@.contains(x),
{
    let mut i: usize = 0;
    while i < v.len()
        invariant
            i <= v.len(),
            forall|j: int| 0 <= j < i ==> v@[j] != x,
        decreases v.len() - i,
    {
        if v[i] == x {
            return true;
        }
        i = i + 1;
    }
    false
}

pub fn push_unique_positive(pids: &mut Vec<i32>, x: i32)
    ensures
        final(pids)@ == (if x > 0 && !old(pids)@.contains(x) {
            old(pids)@.push(x)
        } else {
            old(pids)@
        }),
{
    if x > 0 && !has_pid(pids, x) {
        pids.push(x);
    }
}

pub proof fn lemma_uniq_positive_push(a: Seq<i32>, b: Seq<i32>, x: i32)
    ensures
        uniq_positive(a + b.push(x)) == (if x > 0 && !uniq_positive(a + b).contains(x) {
            uniq_positive(a + b).push(x)
        } else {
            uniq_positive(a + b)
        }),
{
    assert((a + b.push(x)).drop_last() =~= a + b);
}

/// A line `ss` prints for a listening socket (compared in upper case).
pub open spec fn is_listen_line(line: Seq<char>) -> bool {
    contains(uppercase(line), "LISTEN"@)
}

/// The PIDs read at the start of each piece of `line` split at `pid=`
/// (pieces whose leading digits do not read as an `i32` give none).
pub open spec fn piece_pids(pieces: Seq<Seq<char>>, line: Seq<char>) -> Seq<i32>
    decreases pieces.len(),
{
    if pieces.len() == 0 {
        Seq::empty()
    } else {
        let r = piece_pids(pieces.drop_last(), line);
        let cap = pieces.last();
        if cap == line {
            r
        } else {
            match parse_i32_spec(leading_digits(cap)) {
                Some(n) => r.push(n as i32),
                None => r,
            }
        }
    }
}

/// The PIDs one `ss -lntp` line gives for `port`.
pub open spec fn ss_line_pids(line: Seq<char>, port: Seq<char>) -> Seq<i32> {
    if is_listen_line(line) && contains(line, seq![':'] + port) {
        piece_pids(split_str(line, "pid="@), line)
    } else {
        Seq::empty()
    }
}

pub open spec fn ss_all_pids(ls: Seq<Seq<char>>, port: Seq<char>) -> Seq<i32>
    decreases ls.len(),
{
    if ls.len() == 0 {
        Seq::empty()
    } else {
        ss_all_pids(ls.drop_last(), port) + ss_line_pids(ls.last(), port)
    }
}

/// The processes `ss -lntp` output shows listening on `port`.
pub open spec fn ss_pids_spec(text: Seq<char>, port: Seq<char>) -> Seq<i32> {
    uniq_positive(ss_all_pids(lines(text), port))
}

pub fn parse_ss_lntp(text: &str, port: &str) -> (pids: Vec<i32>)
    ensures
        pids@ == ss_pids_spec(text@, port@),
{
    proof {
        reveal_strlit("pid=");
    }
    let v = chars_of(text);
    let ls = lines_of(&v);
    let mut needle: Vec<char> = vec![':'];
    crate::text::append_str(&mut needle, port);
    assert(needle@ =~= seq![':'] + port@);
    let sep = chars_of("pid=");
    let mut pids: Vec<i32> = Vec::new();
    let mut i: usize = 0;
    while i < ls.len()
        invariant
            i <= ls.len(),
            needle@ == seq![':'] + port@,
            sep@ == "pid="@,
            sep@.len() == 4,
            pids@ == uniq_positive(ss_all_pids(views(ls@).take(i as int), port@)),
        decreases ls.len() - i,
    {
        let line = &ls[i];
        let ghost before = ss_all_pids(views(ls@).take(i as int), port@);
        assert(views(ls@).take(i + 1).drop_last() =~= views(ls@).take(i as int));
        assert(views(ls@).take(i + 1).last() == line@);
        let ls_str = string_of(line.as_slice());
        let up = upper_chars(ls_str.as_str());
        if contains_str(&up, "LISTEN") && contains_exec(line, &needle) {
            let pieces = split_on_str(line, &sep);
            let mut j: usize = 0;
            assert(before + Seq::<i32>::empty() =~= before);
            while j < pieces.len()
                invariant
                    j <= pieces.len(),
                    pids@ == uniq_positive(before + piece_pids(views(pieces@).take(j as int), line@)),
                decreases pieces.len() - j,
            {
                let cap = &pieces[j];
                assert(views(pieces@).take(j + 1).drop_last() =~= views(pieces@).take(j as int));
                assert(views(pieces@).take(j + 1).last() == cap@);
                if !seq_eq(cap, line) {
                    let digits = leading_digits_exec(cap);
                    match parse_i32_chars(&digits) {
                        Some(n) => {
                            proof {
                                lemma_uniq_positive_push(
                                    before,
                                    piece_pids(views(pieces@).take(j as int), line@),
                                    n,
                                );
                            }
                            push_unique_positive(&mut pids, n);
                        },
                        None => {},
                    }
                }
                j = j + 1;
            }
            assert(views(pieces@).take(pieces.len() as int) =~= views(pieces@));
        } else {
            assert(before + Seq::<i32>::empty() =~= before);
        }
        i = i + 1;
    }
    assert(views(ls@).take(ls.len() as int) =~= views(ls@));
    pids
}

/// A field `netstat` prints for a listening socket (compared in upper case).
pub open spec fn is_listen_word(f: Seq<char>) -> bool {
    let u = uppercase(f);
    u == "LISTEN"@ || u == "LISTENING"@
}

/// Index of the first listening-state field.
pub open spec fn listen_index(fs: Seq<Seq<char>>) -> Option<int>
    decreases fs.len(),
{
    if fs.len() == 0 {
        None
    } else if is_listen_word(fs[0]) {
        Some(0)
    } else {
        match listen_index(fs.drop_first()) {
            Some(i) => Some(i + 1),
            None => None,
        }
    }
}

pub open spec fn shifted(o: Option<int>, k: int) -> Option<int> {
    match o {
        Some(i) => Some(i + k),
        None => None,
    }
}

fn is_listen_word_exec(f: &Vec<char>) -> (b: bool)
    ensures
        b == is_listen_word(f@),
{
    let s = string_of(f.as_slice());
    let u = upper_chars(s.as_str());
    eq_str(&u, "LISTEN") || eq_str(&u, "LISTENING")
}

fn listen_index_exec(fs: &Vec<Vec<char>>) -> (r: Option<usize>)
    ensures
        match r {
            Some(i) => listen_index(views(fs@)) == Some(i as int) && i < fs.len(),
            None => listen_index(views(fs@)) is None,
        },
{
    let ghost all = views(fs@);
    let mut i: usize = 0;
    assert(all.skip(0) =~= all);
    while i < fs.len()
        invariant
            i <= fs.len(),
            all == views(fs@),
            listen_index(all) == shifted(listen_index(all.skip(i as int)), i as int),
        decreases fs.len() - i,
    {
        assert(all.skip(i as int)[0] == fs@[i as int]@);
        assert(all.skip(i as int).drop_first() =~= all.skip(i + 1));
        if is_listen_word_exec(&fs[i]) {
            return Some(i);
        }
        i = i + 1;
    }
    None
}

/// The port part of a netstat local address: after the last `:`, or else
/// after the last `.`, trimmed.
pub open spec fn local_port_part(local: Seq<char>) -> Option<Seq<char>> {
    match rsplit_once(local, ':') {
        Some((_, p)) => Some(trim(p)),
        None => match rsplit_once(local, '.') {
            Some((_, p)) => Some(trim(p)),
            None => None,
        },
    }
}

/// The PID in netstat's last column: a number, or `PID/program`, else 0.
pub open spec fn token_pid(tok: Seq<char>) -> i32 {
    match parse_i32_spec(tok) {
        Some(n) => n as i32,
        None => match split_once(tok, '/') {
            Some((n, _)) => or_zero(parse_i32_spec(n)) as i32,
            None => 0,
        },
    }
}

/// A listening row of netstat output: its port text and PID.
pub open spec fn netstat_row(line: Seq<char>) -> Option<(Seq<char>, i32)> {
    let f = words(line);
    match listen_index(f) {
        None => None,
        Some(i) => if i < 2 {
            None
        } else {
            match local_port_part(f[i - 2]) {
                None => None,
                Some(p) => Some((p, token_pid(f.last()))),
            }
        },
    }
}

fn local_port_part_exec(local: &Vec<char>) -> (r: Option<Vec<char>>)
    ensures
        match r {
            Some(p) => local_port_part(local@) == Some(p@),
            None => local_port_part(local@) is None,
        },
{
    match rsplit_once_char(local, ':') {
        Some((_, p)) => Some(trim_chars(&p)),
        None => match rsplit_once_char(local, '.') {
            Some((_, p)) => Some(trim_chars(&p)),
            None => None,
        },
    }
}

fn token_pid_exec(tok: &Vec<char>) -> (pid: i32)
    ensures
        pid == token_pid(tok@),
{
    match parse_i32_chars(tok) {
        Some(n) => n,
        None => match split_once_char(tok, '/') {
            Some((n, _)) => match parse_i32_chars(&n) {
                Some(m) => m,
                None => 0,
            },
            None => 0,
        },
    }
}

fn netstat_row_exec(line: &Vec<char>) -> (r: Option<(Vec<char>, i32)>)
    ensures
        match r {
            Some((p, pid)) => netstat_row(line@) == Some((p@, pid)),
            None => netstat_row(line@) is None,
        },
{
    let f = split_ws(line);
    let i = match listen_index_exec(&f) {
        None => {
            return None;
        },
        Some(i) => i,
    };
    if i < 2 {
        return None;
    }
    assert(views(f@)[i - 2] == f@[i - 2]@);
    match local_port_part_exec(&f[i - 2]) {
        None => None,
        Some(p) => {
            assert(views(f@).last() == f@[f.len() - 1]@);
            let pid = token_pid_exec(&f[f.len() - 1]);
            Some((p, pid))
        },
    }
}

pub open spec fn netstat_port_pids(ls: Seq<Seq<char>>, port: Seq<char>) -> Seq<i32>
    decreases ls.len(),
{
    if ls.len() == 0 {
        Seq::empty()
    } else {
        let r = netstat_port_pids(ls.drop_last(), port);
        match netstat_row(ls.last()) {
            Some((p, pid)) => if p == port {
                r.push(pid)
            } else {
                r
            },
            None => r,
        }
    }
}

/// The processes `netstat -tlnp` (or Windows `netstat -ano`) output shows
/// listening on `port`.
pub open spec fn netstat_pids_spec(text: Seq<char>, port: Seq<char>) -> Seq<i32> {
    uniq_positive(netstat_port_pids(lines(text), port))
}

pub fn parse_netstat_tlnp(text: &str, port: &str) -> (pids: Vec<i32>)
    ensures
        pids@ == netstat_pids_spec(text@, port@),
{
    let v = chars_of(text);
    let ls = lines_of(&v);
    let pv = chars_of(port);
    let mut pids: Vec<i32> = Vec::new();
    let mut i: usize = 0;
    while i < ls.len()
        invariant
            i <= ls.len(),
            pv@ == port@,
            pids@ == uniq_positive(netstat_port_pids(views(ls@).take(i as int), port@)),
        decreases ls.len() - i,
    {
        assert(views(ls@).take(i + 1).drop_last() =~= views(ls@).take(i as int));
        assert(views(ls@).take(i + 1).last() == ls@[i as int]@);
        let ghost before = netstat_port_pids(views(ls@).take(i as int), port@);
        match netstat_row_exec(&ls[i]) {
            Some((p, pid)) => {
                if seq_eq(&p, &pv) {
                    proof {
                        lemma_uniq_positive_push(Seq::empty(), before, pid);
                        assert(Seq::<i32>::empty() + before =~= before);
                        assert(Seq::<i32>::empty() + before.push(pid) =~= before.push(pid));
                    }
                    push_unique_positive(&mut pids, pid);
                }
            },
            None => {},
        }
        i = i + 1;
    }
    assert(views(ls@).take(ls.len() as int) =~= views(ls@));
    pids
}

/// A netstat row kept in the listen table: a port that reads as a nonzero
/// `u16`, and a positive PID.
pub open spec fn table_row_ok(p: Seq<char>, pid: i32) -> bool {
    p.len() > 0 && (parse_u16_spec(p) matches Some(n) && n > 0) && pid > 0
}

pub open spec fn listen_table_rows(ls: Seq<Seq<char>>) -> Seq<(Seq<char>, i32)>
    decreases ls.len(),
{
    if ls.len() == 0 {
        Seq::empty()
    } else {
        let r = listen_table_rows(ls.drop_last());
        match netstat_row(ls.last()) {
            Some((p, pid)) => if table_row_ok(p, pid) {
                r.push((p, pid))
            } else {
                r
            },
            None => r,
        }
    }
}

pub open spec fn port_pid_views(v: Seq<(String, i32)>) -> Seq<(Seq<char>, i32)> {
    v.map_values(|x: (String, i32)| (x.0@, x.1))
}

/// Windows `netstat -ano` LISTENING rows: (port, pid).
pub fn parse_netstat_listen_table(text: &str) -> (r: Vec<(String, i32)>)
    ensures
        port_pid_views(r@) == listen_table_rows(lines(text@)),
{
    let v = chars_of(text);
    let ls = lines_of(&v);
    let mut out: Vec<(String, i32)> = Vec::new();
    let mut i: usize = 0;
    while i < ls.len()
        invariant
            i <= ls.len(),
            port_pid_views(out@) == listen_table_rows(views(ls@).take(i as int)),
        decreases ls.len() - i,
    {
        assert(views(ls@).take(i + 1).drop_last() =~= views(ls@).take(i as int));
        assert(views(ls@).take(i + 1).last() == ls@[i as int]@);
        match netstat_row_exec(&ls[i]) {
            Some((p, pid)) => {
                if p.len() > 0 && pid > 0 {
                    match parse_u16_chars(&p) {
                        Some(n) => {
                            if n > 0 {
                                let ghost o = port_pid_views(out@);
                                let ps = string_of(p.as_slice());
                                out.push((ps, pid));
                                assert(port_pid_views(out@) =~= o.push((p@, pid)));
                            }
                        },
                        None => {},
                    }
                }
            },
            None => {},
        }
        i = i + 1;
    }
    assert(views(ls@).take(ls.len() as int) =~= views(ls@));
    out
}

// ---------------------------------------------------------------------------
// Which processes listen on a port.
/// The (port, inode) listen rows of one `/proc/net/tcp` text.
pub open spec fn proc_net_pairs(text: Seq<char>) -> Seq<(u16, u64)> {
    port_inode_pairs(listen_rows(after_header(lines(text))))
}

pub open spec fn inodes_on(rows: Seq<(u16, u64)>, port: u16) -> Seq<u64>
    decreases rows.len(),
{
    if rows.len() == 0 {
        Seq::empty()
    } else {
        let r = inodes_on(rows.drop_last(), port);
        if rows.last().0 == port {
            r.push(rows.last().1)
        } else {
            r
        }
    }
}

/// The inodes of the sockets listening on `port`, over the given tables in order.
pub open spec fn tables_inodes(texts: Seq<String>, port: u16) -> Seq<u64>
    decreases texts.len(),
{
    if texts.len() == 0 {
        Seq::empty()
    } else {
        tables_inodes(texts.drop_last(), port) + inodes_on(proc_net_pairs(texts.last()@), port)
    }
}

/// Inodes of the sockets listening on `port`, read from `/proc/net/tcp` and
/// `/proc/net/tcp6` texts.
pub fn listen_inodes_for_port(port: u16, tcp_texts: &Vec<String>) -> (r: Vec<u64>)
    ensures
        r@ == tables_inodes(tcp_texts@, port),
{
    let mut out: Vec<u64> = Vec::new();
    let mut t: usize = 0;
    while t < tcp_texts.len()
        invariant
            t <= tcp_texts.len(),
            out@ == tables_inodes(tcp_texts@.take(t as int), port),
        decreases tcp_texts.len() - t,
    {
        assert(tcp_texts@.take(t + 1).drop_last() =~= tcp_texts@.take(t as int));
        let rows = parse_proc_net_listen(tcp_texts[t].as_str());
        let ghost before = out@;
        let mut i: usize = 0;
        assert(before + inodes_on(rows@.take(0), port) =~= before);
        while i < rows.len()
            invariant
                i <= rows.len(),
                out@ == before + inodes_on(rows@.take(i as int), port),
            decreases rows.len() - i,
        {
            assert(rows@.take(i + 1).drop_last() =~= rows@.take(i as int));
            if rows[i].0 == port {
                out.push(rows[i].1);
                assert(out@ =~= before + inodes_on(rows@.take(i + 1), port));
            }
            i = i + 1;
        }
        assert(rows@.take(rows.len() as int) =~= rows@);
        t = t + 1;
    }
    assert(tcp_texts@.take(tcp_texts.len() as int) =~= tcp_texts@);
    out
}

/// The inode a file-descriptor link `socket:[N]` names.
pub open spec fn socket_inode(link: Seq<char>) -> Option<int> {
    if starts_with(link, "socket:["@) && ends_with(link.skip(8), "]"@) {
        parse_u64_spec(link.subrange(8, link.len() - 1))
    } else {
        None
    }
}

pub fn socket_inode_exec(link: &str) -> (r: Option<u64>)
    ensures
        match r {
            Some(n) => socket_inode(link@) == Some(n as int),
            None => socket_inode(link@) is None,
        },
{
    proof {
        reveal_strlit("socket:[");
        reveal_strlit("]");
    }
    let v = chars_of(link);
    if !crate::text::starts_with_str(&v, "socket:[") {
        return None;
    }
    let rest = copy_range(&v, 8, v.len());
    assert(rest@ =~= v@.skip(8));
    if !ends_with_str(&rest, "]") {
        return None;
    }
    let num = copy_range(&v, 8, v.len() - 1);
    parse_u64_chars(&num)
}

fn has_inode(inodes: &Vec<u64>, ino: u64) -> (b: bool)
    ensures
        b == exists|k: int| 0 <= k < inodes.len() && inodes@[k] == ino,
{
    let mut k: usize = 0;
    while k < inodes.len()
        invariant
            k <= inodes.len(),
            forall|m: int| 0 <= m < k ==> inodes@[m] != ino,
        decreases inodes.len() - k,
    {
        if inodes[k] == ino {
            return true;
        }
        k = k + 1;
    }
    false
}

/// A descriptor link of `pid` that is a socket with one of the inodes.
pub open spec fn owns_inode(link: Seq<char>, inodes: Seq<u64>) -> bool {
    socket_inode(link) matches Some(n) && exists|k: int| 0 <= k < inodes.len() && inodes[k] == n
}

pub open spec fn strictly_increasing(s: Seq<i32>) -> bool {
    forall|i: int, j: int| 0 <= i < j < s.len() ==> s[i] < s[j]
}

/// Two ascending sequences without repeats that hold the same values are equal.
pub proof fn lemma_sorted_unique(a: Seq<i32>, b: Seq<i32>)
    requires
        strictly_increasing(a),
        strictly_increasing(b),
        forall|x: i32| a.contains(x) <==> b.contains(x),
    ensures
        a == b,
    decreases a.len(),
{
    if a.len() == 0 {
        if b.len() > 0 {
            assert(b.contains(b[0]));
        }
        assert(a =~= b);
    } else {
        assert(a.contains(a[0]));
        let k = choose|k: int| 0 <= k < b.len() && b[k] == a[0];
        assert(b.contains(b[0]));
        let m = choose|m: int| 0 <= m < a.len() && a[m] == b[0];
        assert(a[0] <= a[m]);
        assert(b[0] <= b[k]);
        assert(a[0] == b[0]);
        let a1 = a.drop_first();
        let b1 = b.drop_first();
        assert forall|x: i32| a1.contains(x) <==> b1.contains(x) by {
            if a1.contains(x) {
                let i = choose|i: int| 0 <= i < a1.len() && a1[i] == x;
                assert(a[i + 1] == x && a[0] < a[i + 1]);
                assert(b.contains(x));
                let j = choose|j: int| 0 <= j < b.len() && b[j] == x;
                assert(j != 0);
                assert(b1[j - 1] == x);
            }
            if b1.contains(x) {
                let i = choose|i: int| 0 <= i < b1.len() && b1[i] == x;
                assert(b[i + 1] == x && b[0] < b[i + 1]);
                assert(a.contains(x));
                let j = choose|j: int| 0 <= j < a.len() && a[j] == x;
                assert(j != 0);
                assert(a1[j - 1] == x);
            }
        }
        lemma_sorted_unique(a1, b1);
        assert(a =~= seq![a[0]] + a1);
        assert(b =~= seq![b[0]] + b1);
    }
}

/// Whether a descriptor link of the table belongs to a PID and holds one of the inodes.
pub open spec fn has_socket_of(fd_links: Seq<(i32, String)>, inodes: Seq<u64>, x: i32) -> bool {
    exists|j: int| 0 <= j < fd_links.len() && fd_links[j].0 == x && owns_inode(#[trigger] fd_links[j].1@, inodes)
}

/// The PIDs holding a socket with one of the inodes, ascending, each once.
pub open spec fn socket_pids(fd_links: Seq<(i32, String)>, inodes: Seq<u64>) -> Seq<i32> {
    choose|s: Seq<i32>| strictly_increasing(s) && forall|x: i32| s.contains(x) <==> has_socket_of(fd_links, inodes, x)
}

#[verifier::spinoff_prover]
pub fn insert_sorted_unique(v: &mut Vec<i32>, x: i32)
    requires
        strictly_increasing(old(v)@),
    ensures
        strictly_increasing(final(v)@),
        forall|y: i32| final(v)@.contains(y) <==> (old(v)@.contains(y) || y == x),
{
    let mut i: usize = 0;
    while i < v.len() && v[i] < x
        invariant
            i <= v.len(),
            v@ == old(v)@,
            forall|j: int| 0 <= j < i ==> v@[j] < x,
        decreases v.len() - i,
    {
        i = i + 1;
    }
    if i < v.len() && v[i] == x {
        assert(v@[i as int] == x);
        assert(v@.contains(x));
        return;
    }
    let ghost o = v@;
    assert(o == old(v)@);
    v.insert(i, x);
    assert(v@ =~= o.take(i as int).push(x) + o.skip(i as int));
    assert forall|y: i32| v@.contains(y) <==> (o.contains(y) || y == x) by {
        if v@.contains(y) {
            let k = choose|k: int| 0 <= k < v@.len() && v@[k] == y;
            if k < i {
                assert(o[k] == y);
            } else if k > i {
                assert(o[k - 1] == y);
            }
        }
        if o.contains(y) {
            let k = choose|k: int| 0 <= k < o.len() && o[k] == y;
            if k < i {
                assert(v@[k] == y);
            } else {
                assert(v@[k + 1] == y);
            }
        }
        if y == x {
            assert(v@[i as int] == x);
        }
    }
    assert(forall|y: i32| v@.contains(y) <==> (old(v)@.contains(y) || y == x));
}

/// The PIDs (ascending, each once) that hold a socket with one of the inodes,
/// read from `(pid, link target)` pairs of `/proc/<pid>/fd`.
pub fn pids_for_socket_inodes(inodes: &Vec<u64>, fd_links: &Vec<(i32, String)>) -> (r: Vec<i32>)
    ensures
        r@ == socket_pids(fd_links@, inodes@),
{
    let found = socket_pid_scan(inodes, fd_links);
    proof {
        let w = socket_pids(fd_links@, inodes@);
        assert(strictly_increasing(found@) && forall|x: i32| found@.contains(x) <==> has_socket_of(fd_links@, inodes@, x));
        lemma_sorted_unique(found@, w);
    }
    found
}

fn socket_pid_scan(inodes: &Vec<u64>, fd_links: &Vec<(i32, String)>) -> (r: Vec<i32>)
    ensures
        strictly_increasing(r@),
        forall|x: i32| r@.contains(x) <==> has_socket_of(fd_links@, inodes@, x),
{
    let mut found: Vec<i32> = Vec::new();
    if inodes.len() == 0 {
        return found;
    }
    let mut j: usize = 0;
    while j < fd_links.len()
        invariant
            j <= fd_links.len(),
            strictly_increasing(found@),
            forall|x: i32|
                found@.contains(x) <==> exists|k: int|
                    0 <= k < j && fd_links@[k].0 == x && owns_inode(
                        #[trigger] fd_links@[k].1@,
                        inodes@,
                    ),
        decreases fd_links.len() - j,
    {
        let (pid, link) = (fd_links[j].0, &fd_links[j].1);
        let mut owned = false;
        match socket_inode_exec(link.as_str()) {
            Some(ino) => {
                owned = has_inode(inodes, ino);
            },
            None => {},
        }
        let ghost o = found@;
        if owned {
            insert_sorted_unique(&mut found, pid);
        }
        assert forall|x: i32|
            found@.contains(x) <==> exists|k: int|
                0 <= k < j + 1 && fd_links@[k].0 == x && owns_inode(
                    #[trigger] fd_links@[k].1@,
                    inodes@,
                ) by {
            if exists|k: int|
                0 <= k < j + 1 && fd_links@[k].0 == x && owns_inode(
                    #[trigger] fd_links@[k].1@,
                    inodes@,
                ) {
                let k = choose|k: int|
                    0 <= k < j + 1 && fd_links@[k].0 == x && owns_inode(
                        #[trigger] fd_links@[k].1@,
                        inodes@,
                    );
                if k < j {
                    assert(o.contains(x));
                }
            }
        }
        j = j + 1;
    }
    found
}

/// What `ss -lntp`, or else `netstat -tlnp`, shows listening on `port`: the
/// text of each is given when the command ran and succeeded.
pub open spec fn ss_or_netstat_spec(port: Seq<char>, ss: Option<Seq<char>>, netstat: Option<Seq<char>>) -> Seq<i32> {
    let from_ss = match ss {
        Some(t) => ss_pids_spec(t, port),
        None => Seq::empty(),
    };
    if from_ss.len() > 0 {
        from_ss
    } else {
        match netstat {
            Some(t) => netstat_pids_spec(t, port),
            None => Seq::empty(),
        }
    }
}

pub fn ss_or_netstat_pids(port: &str, ss: Option<&str>, netstat: Option<&str>) -> (r: Vec<i32>)
    ensures
        r@ == ss_or_netstat_spec(port@, crate::paths::opt_view(ss), crate::paths::opt_view(netstat)),
{
    match ss {
        Some(t) => {
            let pids = parse_ss_lntp(t, port);
            if pids.len() > 0 {
                return pids;
            }
        },
        None => {},
    }
    match netstat {
        Some(t) => parse_netstat_tlnp(t, port),
        None => Vec::new(),
    }
}

/// The PIDs listening on `port`: the owners of its listening sockets, else what
/// `ss`/`netstat` report; nothing for a port that is not a nonzero `u16`.
pub open spec fn pids_listening_spec(
    port: Seq<char>,
    tcp_texts: Seq<String>,
    socket_pids: Seq<i32>,
    ss: Option<Seq<char>>,
    netstat: Option<Seq<char>>,
) -> Seq<i32> {
    let p = trim(port);
    match parse_u16_spec(p) {
        Some(n) => if n == 0 {
            Seq::empty()
        } else if socket_pids.len() > 0 {
            socket_pids
        } else {
            ss_or_netstat_spec(p, ss, netstat)
        },
        None => Seq::empty(),
    }
}

/// The port number a port field names, when it names one: a decimal `u16`
/// other than 0, whitespace around it ignored. No process listens on anything else.
pub fn listen_port(port: &str) -> (r: Option<u16>)
    ensures
        match parse_u16_spec(trim(port@)) {
            Some(n) => if n == 0 {
                r is None
            } else {
                r == Some(n as u16)
            },
            None => r is None,
        },
{
    let pv = trim_str(port);
    let ps = string_of(pv.as_slice());
    match parse_u16(ps.as_str()) {
        Some(n) => if n == 0 {
            None
        } else {
            Some(n)
        },
        None => None,
    }
}

/// Where `listen_port` names no port, nothing listens: whatever the tables
/// and the outputs of `ss` and `netstat` hold, no PID is reported.
pub proof fn lemma_no_port_no_listeners(
    port: Seq<char>,
    tcp_texts: Seq<String>,
    socket_pids: Seq<i32>,
    ss: Option<Seq<char>>,
    netstat: Option<Seq<char>>,
)
    requires
        parse_u16_spec(trim(port)) is None || parse_u16_spec(trim(port)) == Some(0int),
    ensures
        pids_listening_spec(port, tcp_texts, socket_pids, ss, netstat) == Seq::<i32>::empty(),
{
}

/// The PIDs listening on `port`, from the listen tables, the descriptor links
/// of the processes, and the output of `ss -lntp` / `netstat -tlnp`.
pub fn pids_listening_on(
    port: &str,
    tcp_texts: &Vec<String>,
    fd_links: &Vec<(i32, String)>,
    ss: Option<&str>,
    netstat: Option<&str>,
) -> (r: Vec<i32>)
    ensures
        r@ == pids_listening_spec(
            port@,
            tcp_texts@,
            socket_pids(fd_links@, tables_inodes(tcp_texts@, parse_u16_spec(trim(port@))->0 as u16)),
            crate::paths::opt_view(ss),
            crate::paths::opt_view(netstat),
        ),
{
    let pv = trim_str(port);
    let ps = string_of(pv.as_slice());
    let pnum = match parse_u16(ps.as_str()) {
        Some(n) => n,
        None => {
            return Vec::new();
        },
    };
    if pnum == 0 {
        return Vec::new();
    }
    let inodes = listen_inodes_for_port(pnum, tcp_texts);
    let pids = pids_for_socket_inodes(&inodes, fd_links);
    if pids.len() > 0 {
        return pids;
    }
    ss_or_netstat_pids(ps.as_str(), ss, netstat)
}

// ---------------------------------------------------------------------------
// Listening ports grouped by process.
/// Ports of one process, as (port, loopback).
pub open spec fn port_list(v: Seq<ListenPort>) -> Seq<(Seq<char>, bool)> {
    v.map_values(|l: ListenPort| (l.port@, l.loopback))
}

pub open spec fn groups_view(g: Seq<(i32, Vec<ListenPort>)>) -> Seq<(i32, Seq<(Seq<char>, bool)>)> {
    g.map_values(|e: (i32, Vec<ListenPort>)| (e.0, port_list(e.1@)))
}

/// Position of the group of `pid`.
pub open spec fn group_pos(m: Seq<(i32, Seq<(Seq<char>, bool)>)>, pid: i32) -> Option<int>
    decreases m.len(),
{
    if m.len() == 0 {
        None
    } else if m.last().0 == pid {
        Some(m.len() - 1)
    } else {
        group_pos(m.drop_last(), pid)
    }
}

pub open spec fn lists_port(l: Seq<(Seq<char>, bool)>, port: Seq<char>) -> bool {
    exists|i: int| 0 <= i < l.len() && l[i].0 == port
}

/// A listener added to the group of its PID, unless that group already has the port.
pub open spec fn add_listener(
    m: Seq<(i32, Seq<(Seq<char>, bool)>)>,
    pid: i32,
    port: Seq<char>,
    loopback: bool,
) -> Seq<(i32, Seq<(Seq<char>, bool)>)> {
    match group_pos(m, pid) {
        Some(i) => if lists_port(m[i].1, port) {
            m
        } else {
            m.update(i, (pid, m[i].1.push((port, loopback))))
        },
        None => m.push((pid, seq![(port, loopback)])),
    }
}

/// Listeners `(port, pid, loopback)` of the wanted positive PIDs, grouped by PID
/// in order of first appearance, each port once per PID.
pub open spec fn group_listeners(rows: Seq<(Seq<char>, i32, bool)>, pids: Seq<i32>) -> Seq<(i32, Seq<(Seq<char>, bool)>)>
    decreases rows.len(),
{
    if rows.len() == 0 {
        Seq::empty()
    } else {
        let m = group_listeners(rows.drop_last(), pids);
        let (port, pid, lb) = rows.last();
        if pid > 0 && pids.contains(pid) {
            add_listener(m, pid, port, lb)
        } else {
            m
        }
    }
}

pub open spec fn listener_views(v: Seq<(String, i32, bool)>) -> Seq<(Seq<char>, i32, bool)> {
    v.map_values(|t: (String, i32, bool)| (t.0@, t.1, t.2))
}

/// Netstat rows count as loopback listeners.
pub open spec fn netstat_listener_views(v: Seq<(String, i32)>) -> Seq<(Seq<char>, i32, bool)> {
    v.map_values(|t: (String, i32)| (t.0@, t.1, true))
}

/// The listening ports of the given processes: from the listener table, or,
/// where it names none of them, from netstat's listen table.
pub open spec fn listen_ports_spec(
    pids: Seq<i32>,
    listeners: Seq<(Seq<char>, i32, bool)>,
    netstat_rows: Seq<(Seq<char>, i32, bool)>,
) -> Seq<(i32, Seq<(Seq<char>, bool)>)> {
    let m = group_listeners(listeners, pids);
    if m.len() > 0 {
        m
    } else {
        group_listeners(netstat_rows, pids)
    }
}

fn copy_ports(v: &Vec<ListenPort>) -> (r: Vec<ListenPort>)
    ensures
        port_list(r@) == port_list(v@),
{
    let mut r: Vec<ListenPort> = Vec::new();
    let mut i: usize = 0;
    while i < v.len()
        invariant
            i <= v.len(),
            port_list(r@) == port_list(v@.take(i as int)),
        decreases v.len() - i,
    {
        let l = ListenPort { port: v[i].port.clone(), loopback: v[i].loopback };
        let ghost o = r@;
        r.push(l);
        assert(v@.take(i + 1) =~= v@.take(i as int).push(v@[i as int]));
        assert(port_list(r@) =~= port_list(o).push((l.port@, l.loopback)));
        assert(port_list(v@.take(i + 1)) =~= port_list(v@.take(i as int)).push(
            (v@[i as int].port@, v@[i as int].loopback),
        ));
        i = i + 1;
    }
    assert(v@.take(v.len() as int) =~= v@);
    r
}

pub fn group_pos_exec(m: &Vec<(i32, Vec<ListenPort>)>, pid: i32) -> (r: Option<usize>)
    ensures
        match r {
            Some(i) => group_pos(groups_view(m@), pid) == Some(i as int) && i < m.len(),
            None => group_pos(groups_view(m@), pid) is None,
        },
{
    let mut i: usize = m.len();
    assert(groups_view(m@).take(m.len() as int) =~= groups_view(m@));
    while i > 0
        invariant
            i <= m.len(),
            group_pos(groups_view(m@), pid) == group_pos(groups_view(m@).take(i as int), pid),
        decreases i,
    {
        let ghost t = groups_view(m@).take(i as int);
        assert(t.drop_last() =~= groups_view(m@).take(i - 1));
        if m[i - 1].0 == pid {
            return Some(i - 1);
        }
        i = i - 1;
    }
    None
}

fn lists_port_exec(l: &Vec<ListenPort>, port: &String) -> (b: bool)
    ensures
        b == lists_port(port_list(l@), port@),
{
    let mut i: usize = 0;
    while i < l.len()
        invariant
            i <= l.len(),
            forall|j: int| 0 <= j < i ==> port_list(l@)[j].0 != port@,
        decreases l.len() - i,
    {
        if crate::text::str_eq(l[i].port.as_str(), port.as_str()) {
            assert(port_list(l@)[i as int].0 == port@);
            return true;
        }
        i = i + 1;
    }
    false
}

fn add_listener_exec(m: &mut Vec<(i32, Vec<ListenPort>)>, pid: i32, port: &String, loopback: bool)
    ensures
        groups_view(final(m)@) == add_listener(groups_view(old(m)@), pid, port@, loopback),
{
    let ghost g = groups_view(m@);
    match group_pos_exec(m, pid) {
        Some(i) => {
            assert(g[i as int].1 == port_list(m@[i as int].1@));
            if lists_port_exec(&m[i].1, port) {
                return;
            }
            let mut list = copy_ports(&m[i].1);
            list.push(ListenPort { port: port.clone(), loopback });
            assert(port_list(list@) =~= g[i as int].1.push((port@, loopback)));
            assert(m@[i as int].0 == pid) by {
                assert(g[i as int].0 == m@[i as int].0);
                lemma_group_pos_key(g, pid);
            }
            m.set(i, (pid, list));
            assert(groups_view(m@) =~= g.update(i as int, (pid, g[i as int].1.push((port@, loopback)))));
        },
        None => {
            let mut list: Vec<ListenPort> = Vec::new();
            list.push(ListenPort { port: port.clone(), loopback });
            assert(port_list(list@) =~= seq![(port@, loopback)]);
            m.push((pid, list));
            assert(groups_view(m@) =~= g.push((pid, seq![(port@, loopback)])));
        },
    }
}

proof fn lemma_group_pos_key(m: Seq<(i32, Seq<(Seq<char>, bool)>)>, pid: i32)
    ensures
        group_pos(m, pid) matches Some(i) ==> 0 <= i < m.len() && m[i].0 == pid,
    decreases m.len(),
{
    if m.len() > 0 && m.last().0 != pid {
        lemma_group_pos_key(m.drop_last(), pid);
        if let Some(i) = group_pos(m.drop_last(), pid) {
            assert(m.drop_last()[i] == m[i]);
        }
    }
}

fn group_rows(
    rows: &Vec<(String, i32, bool)>,
    pids: &Vec<i32>,
) -> (m: Vec<(i32, Vec<ListenPort>)>)
    ensures
        groups_view(m@) == group_listeners(listener_views(rows@), pids@),
{
    let mut m: Vec<(i32, Vec<ListenPort>)> = Vec::new();
    let mut i: usize = 0;
    while i < rows.len()
        invariant
            i <= rows.len(),
            groups_view(m@) == group_listeners(listener_views(rows@).take(i as int), pids@),
        decreases rows.len() - i,
    {
        let ghost lv = listener_views(rows@);
        assert(lv.take(i + 1).drop_last() =~= lv.take(i as int));
        assert(lv.take(i + 1).last() == (rows@[i as int].0@, rows@[i as int].1, rows@[i as int].2));
        let pid = rows[i].1;
        if pid > 0 && has_pid(pids, pid) {
            add_listener_exec(&mut m, pid, &rows[i].0, rows[i].2);
        }
        i = i + 1;
    }
    assert(listener_views(rows@).take(rows.len() as int) =~= listener_views(rows@));
    m
}

/// The TCP ports each of the given processes listens on: from the listener
/// table `(port, pid, loopback)`, or, where that names none of them, from the
/// rows of netstat's listen table (taken as loopback).
pub fn listen_ports_for_pids(
    pids: &Vec<i32>,
    listeners: &Vec<(String, i32, bool)>,
    netstat_rows: &Vec<(String, i32)>,
) -> (r: Vec<(i32, Vec<ListenPort>)>)
    ensures
        groups_view(r@) == listen_ports_spec(
            pids@,
            listener_views(listeners@),
            netstat_listener_views(netstat_rows@),
        ),
{
    let m = group_rows(listeners, pids);
    if m.len() > 0 {
        return m;
    }
    let mut rows: Vec<(String, i32, bool)> = Vec::new();
    let mut i: usize = 0;
    while i < netstat_rows.len()
        invariant
            i <= netstat_rows.len(),
            listener_views(rows@) == netstat_listener_views(netstat_rows@.take(i as int)),
        decreases netstat_rows.len() - i,
    {
        let ghost o = rows@;
        let t = (netstat_rows[i].0.clone(), netstat_rows[i].1, true);
        rows.push(t);
        assert(netstat_rows@.take(i + 1) =~= netstat_rows@.take(i as int).push(netstat_rows@[i as int]));
        assert(listener_views(rows@) =~= listener_views(o).push((t.0@, t.1, t.2)));
        assert(netstat_listener_views(netstat_rows@.take(i + 1)) =~= netstat_listener_views(
            netstat_rows@.take(i as int),
        ).push((netstat_rows@[i as int].0@, netstat_rows@[i as int].1, true)));
        i = i + 1;
    }
    assert(netstat_rows@.take(netstat_rows.len() as int) =~= netstat_rows@);
    group_rows(&rows, pids)
}

/// For each listen row `(port, inode, loopback)`, the processes holding that
/// socket: `(port, pid, loopback)`.
pub open spec fn socket_listeners(
    rows: Seq<(u16, u64, bool)>,
    fd_links: Seq<(i32, String)>,
) -> Seq<(Seq<char>, i32, bool)>
    decreases rows.len(),
{
    if rows.len() == 0 {
        Seq::empty()
    } else {
        let (port, inode, lb) = rows.last();
        socket_listeners(rows.drop_last(), fd_links) + holders(fd_links, inode).map_values(
            |pid: i32| (crate::num::dec(port as nat), pid, lb),
        )
    }
}

/// The PIDs of the descriptor links to the socket `inode`, in table order.
pub open spec fn holders(fd_links: Seq<(i32, String)>, inode: u64) -> Seq<i32>
    decreases fd_links.len(),
{
    if fd_links.len() == 0 {
        Seq::empty()
    } else {
        let r = holders(fd_links.drop_last(), inode);
        if socket_inode(fd_links.last().1@) == Some(inode as int) {
            r.push(fd_links.last().0)
        } else {
            r
        }
    }
}

/// The listener table of a Linux system: listen rows of `/proc/net/tcp{,6}`
/// joined with the socket links of the processes.
pub fn listeners_from_sockets(
    rows: &Vec<(u16, u64, bool)>,
    fd_links: &Vec<(i32, String)>,
) -> (r: Vec<(String, i32, bool)>)
    ensures
        listener_views(r@) == socket_listeners(rows@, fd_links@),
{
    let mut out: Vec<(String, i32, bool)> = Vec::new();
    let mut i: usize = 0;
    while i < rows.len()
        invariant
            i <= rows.len(),
            listener_views(out@) == socket_listeners(rows@.take(i as int), fd_links@),
        decreases rows.len() - i,
    {
        assert(rows@.take(i + 1).drop_last() =~= rows@.take(i as int));
        let (port, inode, lb) = rows[i];
        let ghost before = listener_views(out@);
        let ps = crate::num::u64_string(port as u64);
        let mut j: usize = 0;
        assert(holders(fd_links@.take(0), inode) =~= Seq::<i32>::empty());
        assert(before + Seq::<(Seq<char>, i32, bool)>::empty() =~= before);
        while j < fd_links.len()
            invariant
                j <= fd_links.len(),
                ps@ == crate::num::dec(port as nat),
                listener_views(out@) == before + holders(fd_links@.take(j as int), inode).map_values(
                    |pid: i32| (crate::num::dec(port as nat), pid, lb),
                ),
            decreases fd_links.len() - j,
        {
            assert(fd_links@.take(j + 1).drop_last() =~= fd_links@.take(j as int));
            let ghost hb = holders(fd_links@.take(j as int), inode);
            match socket_inode_exec(fd_links[j].1.as_str()) {
                Some(n) => {
                    if n == inode {
                        let ghost ov = out@;
                        let t = (ps.clone(), fd_links[j].0, lb);
                        out.push(t);
                        assert(listener_views(out@) =~= listener_views(ov).push((t.0@, t.1, t.2)));
                        assert(hb.push(fd_links@[j as int].0).map_values(
                            |pid: i32| (crate::num::dec(port as nat), pid, lb),
                        ) =~= hb.map_values(|pid: i32| (crate::num::dec(port as nat), pid, lb)).push(
                            (crate::num::dec(port as nat), fd_links@[j as int].0, lb),
                        ));
                        assert(holders(fd_links@.take(j + 1), inode) == hb.push(fd_links@[j as int].0));
                        assert(listener_views(out@) =~= before + hb.push(fd_links@[j as int].0).map_values(
                            |pid: i32| (crate::num::dec(port as nat), pid, lb),
                        ));
                    }
                },
                None => {},
            }
            j = j + 1;
        }
        assert(fd_links@.take(fd_links.len() as int) =~= fd_links@);
        i = i + 1;
    }
    assert(rows@.take(rows.len() as int) =~= rows@);
    out
}

// ---------------------------------------------------------------------------
// The ssh processes of a Linux process table.
/// The short name of `pid` in the table (the last non-empty one given).
pub open spec fn comm_of(infos: Seq<ProcInfo>, pid: i32) -> Option<Seq<char>>
    decreases infos.len(),
{
    if infos.len() == 0 {
        None
    } else if infos.last().pid == pid && infos.last().name@.len() > 0 {
        Some(infos.last().name@)
    } else {
        comm_of(infos.drop_last(), pid)
    }
}

/// The executable image of `pid` in the table, empty when it is not there.
pub open spec fn image_of(infos: Seq<ProcInfo>, pid: i32) -> Seq<char>
    decreases infos.len(),
{
    if infos.len() == 0 {
        Seq::empty()
    } else if infos.last().pid == pid {
        infos.last().image@
    } else {
        image_of(infos.drop_last(), pid)
    }
}

/// Whether a table entry is an ssh client with a command line.
pub open spec fn is_ssh_entry(infos: Seq<ProcInfo>, p: ProcInfo) -> bool {
    let name = match comm_of(infos, p.pid) {
        Some(n) => n,
        None => Seq::empty(),
    };
    (contains(lowercase(name), "ssh"@) || lowercase(basename_spec(p.image@)) == "ssh"@) && p.cmd@.len() > 0
}

/// The `OsProc` record of an ssh entry: its parent named by short name, or by image.
pub open spec fn ssh_record(infos: Seq<ProcInfo>, p: ProcInfo) -> OsProcView {
    OsProcView {
        pid: p.pid,
        ppid: p.ppid,
        name: match comm_of(infos, p.pid) {
            Some(n) => n,
            None => Seq::empty(),
        },
        parent: match comm_of(infos, p.ppid) {
            Some(n) => n,
            None => image_of(infos, p.ppid),
        },
        cmd: p.cmd@,
    }
}

pub open spec fn ssh_records(infos: Seq<ProcInfo>, upto: Seq<ProcInfo>) -> Seq<OsProcView>
    decreases upto.len(),
{
    if upto.len() == 0 {
        Seq::empty()
    } else {
        let r = ssh_records(infos, upto.drop_last());
        if is_ssh_entry(infos, upto.last()) {
            r.push(ssh_record(infos, upto.last()))
        } else {
            r
        }
    }
}

pub open spec fn proc_views(v: Seq<OsProc>) -> Seq<OsProcView> {
    v.map_values(|p: OsProc| p@)
}

fn comm_of_exec(infos: &Vec<ProcInfo>, pid: i32) -> (r: Option<String>)
    ensures
        match r {
            Some(n) => comm_of(infos@, pid) == Some(n@),
            None => comm_of(infos@, pid) is None,
        },
{
    let mut i: usize = infos.len();
    assert(infos@.take(infos.len() as int) =~= infos@);
    while i > 0
        invariant
            i <= infos.len(),
            comm_of(infos@, pid) == comm_of(infos@.take(i as int), pid),
        decreases i,
    {
        assert(infos@.take(i as int).drop_last() =~= infos@.take(i - 1));
        if infos[i - 1].pid == pid && infos[i - 1].name.as_str().is_empty() == false {
            return Some(infos[i - 1].name.clone());
        }
        i = i - 1;
    }
    None
}

fn image_of_exec(infos: &Vec<ProcInfo>, pid: i32) -> (r: String)
    ensures
        r@ == image_of(infos@, pid),
{
    let mut i: usize = infos.len();
    assert(infos@.take(infos.len() as int) =~= infos@);
    while i > 0
        invariant
            i <= infos.len(),
            image_of(infos@, pid) == image_of(infos@.take(i as int), pid),
        decreases i,
    {
        assert(infos@.take(i as int).drop_last() =~= infos@.take(i - 1));
        if infos[i - 1].pid == pid {
            return infos[i - 1].image.clone();
        }
        i = i - 1;
    }
    String::new()
}

/// The ssh clients of a Linux process table, each with its command line and
/// the name of its parent.
pub fn unix_ssh_procs(infos: &Vec<ProcInfo>) -> (r: Vec<OsProc>)
    ensures
        proc_views(r@) == ssh_records(infos@, infos@),
{
    let mut out: Vec<OsProc> = Vec::new();
    let mut i: usize = 0;
    while i < infos.len()
        invariant
            i <= infos.len(),
            proc_views(out@) == ssh_records(infos@, infos@.take(i as int)),
        decreases infos.len() - i,
    {
        assert(infos@.take(i + 1).drop_last() =~= infos@.take(i as int));
        let p = &infos[i];
        let name = match comm_of_exec(infos, p.pid) {
            Some(n) => n,
            None => String::new(),
        };
        let lname = lower_chars(name.as_str());
        let img = lower_chars(basename(p.image.as_str()).as_str());
        let is_ssh = contains_str(&lname, "ssh") || eq_str(&img, "ssh");
        if is_ssh && !p.cmd.as_str().is_empty() {
            let parent = match comm_of_exec(infos, p.ppid) {
                Some(n) => n,
                None => image_of_exec(infos, p.ppid),
            };
            let rec = OsProc { pid: p.pid, ppid: p.ppid, name, parent, cmd: p.cmd.clone() };
            let ghost o = out@;
            out.push(rec);
            assert(proc_views(out@) =~= proc_views(o).push(rec@));
            assert(rec@ == ssh_record(infos@, infos@[i as int]));
        }
        i = i + 1;
    }
    assert(infos@.take(infos.len() as int) =~= infos@);
    out
}

// ---------------------------------------------------------------------------
// Text read from `/proc/<pid>/`.
/// The image of a process from the target of `/proc/<pid>/exe`.
pub open spec fn image_from_link_spec(target: Seq<char>) -> Seq<char> {
    crate::text::replace(target, " (deleted)"@, Seq::empty())
}

pub fn image_from_link(target: &str) -> (r: String)
    ensures
        r@ == image_from_link_spec(target@),
{
    proof {
        reveal_strlit(" (deleted)");
    }
    let v = chars_of(target);
    let from = chars_of(" (deleted)");
    let to: Vec<char> = Vec::new();
    let out = crate::text::replace_chars(&v, &from, &to);
    string_of(out.as_slice())
}

/// The non-empty pieces of a sequence of pieces.
pub open spec fn nonempty_pieces(ps: Seq<Seq<char>>) -> Seq<Seq<char>>
    decreases ps.len(),
{
    if ps.len() == 0 {
        Seq::empty()
    } else {
        let r = nonempty_pieces(ps.drop_last());
        if ps.last().len() > 0 {
            r.push(ps.last())
        } else {
            r
        }
    }
}

/// A command line from the NUL-separated arguments of `/proc/<pid>/cmdline`.
pub open spec fn cmdline_spec(raw: Seq<char>) -> Seq<char> {
    crate::text::join_words(nonempty_pieces(crate::text::split_on(raw, '\0')), seq![' '])
}

pub fn cmdline_from_raw(raw: &str) -> (r: String)
    ensures
        r@ == cmdline_spec(raw@),
{
    let v = chars_of(raw);
    let pieces = crate::text::split_on_char(&v, '\0');
    let mut keep: Vec<Vec<char>> = Vec::new();
    let mut i: usize = 0;
    while i < pieces.len()
        invariant
            i <= pieces.len(),
            views(keep@) == nonempty_pieces(views(pieces@).take(i as int)),
        decreases pieces.len() - i,
    {
        assert(views(pieces@).take(i + 1).drop_last() =~= views(pieces@).take(i as int));
        assert(views(pieces@).take(i + 1).last() == pieces@[i as int]@);
        if pieces[i].len() > 0 {
            let ghost o = views(keep@);
            let w = copy_range(&pieces[i], 0, pieces[i].len());
            assert(w@ =~= pieces@[i as int]@);
            keep.push(w);
            assert(views(keep@) =~= o.push(w@));
        }
        i = i + 1;
    }
    assert(views(pieces@).take(pieces.len() as int) =~= views(pieces@));
    let sep = vec![' '];
    assert(sep@ =~= seq![' ']);
    let out = crate::text::join_chars(&keep, &sep);
    string_of(out.as_slice())
}

/// The value of the first `PPid:` line of `/proc/<pid>/status`, if there is one.
pub open spec fn status_ppid(ls: Seq<Seq<char>>) -> Option<int>
    decreases ls.len(),
{
    if ls.len() == 0 {
        None
    } else if crate::text::starts_with(ls[0], "PPid:"@) {
        Some(or_zero(parse_i32_spec(trim(ls[0].skip(5)))))
    } else {
        status_ppid(ls.drop_first())
    }
}

/// The parent of `pid` from its `status` text (when readable), else from its
/// `stat` line; 0 for a PID that is not positive.
pub open spec fn ppid_spec(pid: i32, status: Option<Seq<char>>, stat: Seq<char>) -> int {
    if pid <= 0 {
        0
    } else {
        match status {
            Some(t) => match status_ppid(lines(t)) {
                Some(n) => n,
                None => stat_ppid_spec(stat),
            },
            None => stat_ppid_spec(stat),
        }
    }
}

pub fn ppid_from_proc(pid: i32, status: Option<&str>, stat: &str) -> (r: i32)
    ensures
        r as int == ppid_spec(pid, crate::paths::opt_view(status), stat@),
{
    proof {
        reveal_strlit("PPid:");
    }
    if pid <= 0 {
        return 0;
    }
    match status {
        Some(t) => {
            let v = chars_of(t);
            let ls = lines_of(&v);
            let mut i: usize = 0;
            assert(views(ls@).skip(0) =~= views(ls@));
            while i < ls.len()
                invariant
                    i <= ls.len(),
                    pid > 0,
                    status == Some(t),
                    views(ls@) == lines(t@),
                    "PPid:"@.len() == 5,
                    status_ppid(views(ls@)) == status_ppid(views(ls@).skip(i as int)),
                decreases ls.len() - i,
            {
                assert(views(ls@).skip(i as int)[0] == ls@[i as int]@);
                assert(views(ls@).skip(i as int).drop_first() =~= views(ls@).skip(i + 1));
                if crate::text::starts_with_str(&ls[i], "PPid:") {
                    let rest = copy_range(&ls[i], 5, ls[i].len());
                    assert(rest@ =~= ls@[i as int]@.skip(5));
                    let t = trim_chars(&rest);
                    return match parse_i32_chars(&t) {
                        Some(n) => n,
                        None => 0,
                    };
                }
                i = i + 1;
            }
            parse_stat_ppid(stat)
        },
        None => parse_stat_ppid(stat),
    }
}

// ---------------------------------------------------------------------------
// A process snapshot of `(pid, ppid, name)` rows (as Windows takes one).
/// The parent of `pid` in the snapshot (its first row); 0 for a PID that is
/// not positive or not in the snapshot.
pub open spec fn snapshot_ppid(rows: Seq<(i32, i32, String)>, pid: i32) -> i32
    decreases rows.len(),
{
    if pid <= 0 || rows.len() == 0 {
        0
    } else if rows[0].0 == pid {
        rows[0].1
    } else {
        snapshot_ppid(rows.drop_first(), pid)
    }
}

pub fn ppid_of(pid: i32, rows: &Vec<(i32, i32, String)>) -> (r: i32)
    ensures
        r == snapshot_ppid(rows@, pid),
{
    if pid <= 0 {
        return 0;
    }
    let mut i: usize = 0;
    assert(rows@.skip(0) =~= rows@);
    while i < rows.len()
        invariant
            i <= rows.len(),
            pid > 0,
            snapshot_ppid(rows@, pid) == snapshot_ppid(rows@.skip(i as int), pid),
        decreases rows.len() - i,
    {
        assert(rows@.skip(i as int)[0] == rows@[i as int]);
        assert(rows@.skip(i as int).drop_first() =~= rows@.skip(i + 1));
        if rows[i].0 == pid {
            return rows[i].1;
        }
        i = i + 1;
    }
    0
}

/// The PIDs of the snapshot, in its order.
pub fn list_numeric_pids(rows: &Vec<(i32, i32, String)>) -> (r: Vec<i32>)
    ensures
        r@ == rows@.map_values(|t: (i32, i32, String)| t.0),
{
    let mut out: Vec<i32> = Vec::new();
    let mut i: usize = 0;
    while i < rows.len()
        invariant
            i <= rows.len(),
            out@ == rows@.take(i as int).map_values(|t: (i32, i32, String)| t.0),
        decreases rows.len() - i,
    {
        out.push(rows[i].0);
        assert(rows@.take(i + 1) =~= rows@.take(i as int).push(rows@[i as int]));
        i = i + 1;
    }
    assert(rows@.take(rows.len() as int) =~= rows@);
    out
}

} // verus!
