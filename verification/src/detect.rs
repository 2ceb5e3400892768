//! Recognising ssh processes that this app did not start: port forwards,
//! Cursor / VS Code Remote-SSH sessions, and the editor processes around them.
use vstd::prelude::*;
use crate::casefold::{lower_chars, lowercase, to_lowercase};
use crate::config::Config;
use crate::procs::{
    groups_view, group_pos, has_pid, insert_sorted_unique, lemma_sorted_unique, strictly_increasing,
    strip_exe, ListenPort, OsProc, OsProcView,
};
use crate::regexes::{
    captures_group1, is_match, opt_views, regex_group1, regex_matches, DYNAMIC_FORWARD_PATTERN,
    LOCAL_FORWARD_PATTERN, NO_TTY_PATTERN,
};
use crate::text::{
    append_str, chars_of, contains, contains_exec, contains_str, copy_range, find, first_occurrence,
    seq_eq, split_ws, starts_with, starts_with_str, str_eq, string_of, string_views, trim,
    trim_chars, trim_str, views, words,
};

verus! {

// ---------------------------------------------------------------------------
// Ports named on an ssh command line.
/// The non-empty captured values, each once, in order of first appearance.
pub open spec fn uniq_caps(cs: Seq<Option<Seq<char>>>) -> Seq<Seq<char>>
    decreases cs.len(),
{
    if cs.len() == 0 {
        Seq::empty()
    } else {
        let r = uniq_caps(cs.drop_last());
        match cs.last() {
            Some(v) => if v.len() > 0 && !r.contains(v) {
                r.push(v)
            } else {
                r
            },
            None => r,
        }
    }
}

fn has_string(v: &Vec<String>, x: &str) -> (b: bool)
    ensures
        b == string_views(v@).contains(x@),
{
    let mut i: usize = 0;
    while i < v.len()
        invariant
            i <= v.len(),
            forall|j: int| 0 <= j < i ==> v@[j]@ != x@,
        decreases v.len() - i,
    {
        if str_eq(v[i].as_str(), x) {
            assert(string_views(v@)[i as int] == x@);
            return true;
        }
        i = i + 1;
    }
    assert forall|j: int| 0 <= j < string_views(v@).len() implies string_views(v@)[j] != x@ by {
        assert(string_views(v@)[j] == v@[j]@);
    }
    false
}

/// The distinct non-empty values of capture group 1, in order.
pub fn unique_caps(caps: &Vec<Option<String>>) -> (r: Vec<String>)
    ensures
        string_views(r@) == uniq_caps(opt_views(caps@)),
{
    let mut out: Vec<String> = Vec::new();
    let mut i: usize = 0;
    while i < caps.len()
        invariant
            i <= caps.len(),
            string_views(out@) == uniq_caps(opt_views(caps@).take(i as int)),
        decreases caps.len() - i,
    {
        assert(opt_views(caps@).take(i + 1).drop_last() =~= opt_views(caps@).take(i as int));
        match &caps[i] {
            Some(v) => {
                assert(opt_views(caps@).take(i + 1).last() == Some(v@));
                if !v.as_str().is_empty() && !has_string(&out, v.as_str()) {
                    let ghost o = string_views(out@);
                    out.push(v.clone());
                    assert(string_views(out@) =~= o.push(v@));
                }
            },
            None => {
                assert(opt_views(caps@).take(i + 1).last() is None);
            },
        }
        i = i + 1;
    }
    assert(opt_views(caps@).take(caps.len() as int) =~= opt_views(caps@));
    out
}

/// Ports captured by a pattern over a command line; none if the pattern is refused.
pub open spec fn captured_ports(pattern: Seq<char>, cmd: Seq<char>) -> Seq<Seq<char>> {
    match regex_group1(pattern, cmd) {
        Some(cs) => uniq_caps(cs),
        None => Seq::empty(),
    }
}

/// Local ports of the `-L` forwards on a command line.
pub open spec fn local_ports_spec(cmd: Seq<char>) -> Seq<Seq<char>> {
    captured_ports(LOCAL_FORWARD_PATTERN@, cmd)
}

/// SOCKS ports of the `-D` forwards on a command line.
pub open spec fn dyn_ports_spec(cmd: Seq<char>) -> Seq<Seq<char>> {
    captured_ports(DYNAMIC_FORWARD_PATTERN@, cmd)
}

fn ports_by(pattern: &str, cmd: &str) -> (r: Vec<String>)
    ensures
        string_views(r@) == captured_ports(pattern@, cmd@),
{
    match captures_group1(pattern, cmd) {
        Some(caps) => unique_caps(&caps),
        None => Vec::new(),
    }
}

/// The local ports of the `-L` forwards on an ssh command line, each once.
pub fn local_forward_ports(cmd: &str) -> (r: Vec<String>)
    ensures
        string_views(r@) == local_ports_spec(cmd@),
{
    ports_by(LOCAL_FORWARD_PATTERN, cmd)
}

/// The SOCKS ports of the `-D` forwards on an ssh command line, each once.
pub fn dynamic_forward_ports(cmd: &str) -> (r: Vec<String>)
    ensures
        string_views(r@) == dyn_ports_spec(cmd@),
{
    ports_by(DYNAMIC_FORWARD_PATTERN, cmd)
}

/// Whether a command line forwards local `port`, given the `-L` ports read
/// from it: one of them, or `-L<port>:`, `-L <port>:`, `-L<port> `, `-L <port> `.
pub open spec fn forwards_port_spec(local_ports: Seq<Seq<char>>, cmd: Seq<char>, port: Seq<char>) -> bool {
    let p = trim(port);
    if p.len() == 0 || trim(cmd).len() == 0 {
        false
    } else {
        ||| local_ports.contains(p)
        ||| contains(cmd, "-L"@ + p + ":"@)
        ||| contains(cmd, "-L "@ + p + ":"@)
        ||| contains(cmd, "-L"@ + p + " "@)
        ||| contains(cmd, "-L "@ + p + " "@)
    }
}

pub fn forwards_port_given(local_ports: &Vec<String>, cmd: &str, port: &str) -> (b: bool)
    ensures
        b == forwards_port_spec(string_views(local_ports@), cmd@, port@),
{
    proof {
        reveal_strlit("-L");
        reveal_strlit("-L ");
        reveal_strlit(":");
        reveal_strlit(" ");
    }
    let p = trim_str(port);
    let c = trim_str(cmd);
    if p.len() == 0 || c.len() == 0 {
        return false;
    }
    let ps = string_of(p.as_slice());
    if has_string(local_ports, ps.as_str()) {
        return true;
    }
    let cv = chars_of(cmd);
    let mut n1: Vec<char> = chars_of("-L");
    crate::text::append_chars(&mut n1, &p);
    let mut n2: Vec<char> = chars_of("-L ");
    crate::text::append_chars(&mut n2, &p);
    let mut n3 = copy_range(&n1, 0, n1.len());
    let mut n4 = copy_range(&n2, 0, n2.len());
    append_str(&mut n1, ":");
    append_str(&mut n2, ":");
    append_str(&mut n3, " ");
    append_str(&mut n4, " ");
    assert(n1@ =~= "-L"@ + p@ + ":"@);
    assert(n2@ =~= "-L "@ + p@ + ":"@);
    assert(n3@ =~= "-L"@ + p@ + " "@);
    assert(n4@ =~= "-L "@ + p@ + " "@);
    contains_exec(&cv, &n1) || contains_exec(&cv, &n2) || contains_exec(&cv, &n3) || contains_exec(
        &cv,
        &n4,
    )
}

/// Whether an ssh command line forwards local `port`.
pub fn cmd_forwards_port(cmd: &str, port: &str) -> (b: bool)
    ensures
        b == forwards_port_spec(local_ports_spec(cmd@), cmd@, port@),
{
    let ports = local_forward_ports(cmd);
    forwards_port_given(&ports, cmd, port)
}

// ---------------------------------------------------------------------------
// Supervisor command lines.
/// The word after `_supervisor` on a command line, if `_supervisor` occurs.
pub open spec fn supervised_arg(cmd: Seq<char>) -> Option<Seq<char>> {
    match first_occurrence(cmd, "_supervisor"@) {
        Some(i) => {
            let ws = words(trim(cmd.skip(i + 11)));
            Some(
                if ws.len() > 0 {
                    ws[0]
                } else {
                    Seq::empty()
                },
            )
        },
        None => None,
    }
}

/// Whether a supervisor command line runs the setup `name` (or the legacy
/// argument `target`, when one is given).
pub open spec fn supervises_spec(cmd: Seq<char>, name: Seq<char>, target: Seq<char>) -> bool {
    match supervised_arg(cmd) {
        Some(arg) => arg == name || (target.len() > 0 && arg == target),
        None => false,
    }
}

pub fn cmdline_supervises(cmd: &str, name: &str, target: &str) -> (b: bool)
    ensures
        b == supervises_spec(cmd@, name@, target@),
{
    proof {
        reveal_strlit("_supervisor");
    }
    let v = chars_of(cmd);
    let key = chars_of("_supervisor");
    let i = match find(&v, &key) {
        Some(i) => i,
        None => {
            return false;
        },
    };
    assert(crate::text::occurs_at(v@, key@, i as int));
    assert(key@.len() == 11);
    assert(i + key@.len() <= v@.len());
    assert(i + 11 <= v.len());
    let rest = copy_range(&v, i + 11, v.len());
    assert(rest@ =~= v@.skip(i + 11));
    let t = trim_chars(&rest);
    let ws = split_ws(&t);
    let arg: Vec<char> = if ws.len() > 0 {
        assert(views(ws@)[0] == ws@[0]@);
        copy_range(&ws[0], 0, ws[0].len())
    } else {
        Vec::new()
    };
    assert(ws.len() > 0 ==> arg@ =~= ws@[0]@);
    let n = chars_of(name);
    let t2 = chars_of(target);
    seq_eq(&arg, &n) || (t2.len() > 0 && seq_eq(&arg, &t2))
}

// ---------------------------------------------------------------------------
// Command lines split into arguments.
/// Left-to-right scan of a command line: the finished fields, the field in
/// progress, and the quote character that is open.
pub open spec fn cmd_scan(s: Seq<char>) -> (Seq<Seq<char>>, Seq<char>, Option<char>)
    decreases s.len(),
{
    if s.len() == 0 {
        (Seq::empty(), Seq::empty(), None)
    } else {
        let (f, b, q) = cmd_scan(s.drop_last());
        let c = s.last();
        match q {
            Some(qc) => if c == qc {
                (f, b, None)
            } else {
                (f, b.push(c), q)
            },
            None => if c == ' ' || c == '\t' {
                if b.len() > 0 {
                    (f.push(b), Seq::empty(), None)
                } else {
                    (f, b, None)
                }
            } else if c == '\'' || c == '"' {
                (f, b, Some(c))
            } else {
                (f, b.push(c), None)
            },
        }
    }
}

/// The arguments of a command line: split at spaces and tabs outside quotes,
/// with `'` and `"` quoting and dropped.
pub open spec fn split_command_line_spec(s: Seq<char>) -> Seq<Seq<char>> {
    let (f, b, _) = cmd_scan(s);
    if b.len() > 0 {
        f.push(b)
    } else {
        f
    }
}

pub fn split_command_line(cmd: &str) -> (r: Vec<String>)
    ensures
        string_views(r@) == split_command_line_spec(cmd@),
{
    let v = chars_of(cmd);
    let mut fields: Vec<String> = Vec::new();
    let mut buf: Vec<char> = Vec::new();
    let mut in_quote: Option<char> = None;
    let mut i: usize = 0;
    while i < v.len()
        invariant
            i <= v.len(),
            (string_views(fields@), buf@, in_quote) == cmd_scan(v@.take(i as int)),
        decreases v.len() - i,
    {
        assert(v@.take(i + 1).drop_last() =~= v@.take(i as int));
        let c = v[i];
        match in_quote {
            Some(q) => {
                if c == q {
                    in_quote = None;
                } else {
                    buf.push(c);
                }
            },
            None => {
                if c == ' ' || c == '\t' {
                    if buf.len() > 0 {
                        let ghost o = string_views(fields@);
                        let w = string_of(buf.as_slice());
                        fields.push(w);
                        assert(string_views(fields@) =~= o.push(buf@));
                        buf = Vec::new();
                    }
                } else if c == '\'' || c == '"' {
                    in_quote = Some(c);
                } else {
                    buf.push(c);
                }
            },
        }
        i = i + 1;
    }
    assert(v@.take(v.len() as int) =~= v@);
    if buf.len() > 0 {
        let ghost o = string_views(fields@);
        let w = string_of(buf.as_slice());
        fields.push(w);
        assert(string_views(fields@) =~= o.push(buf@));
    }
    fields
}

/// ssh options whose value is the next argument.
pub open spec fn takes_value(c: char) -> bool {
    c == 'i' || c == 'o' || c == 'F' || c == 'L' || c == 'E' || c == 'D' || c == 'R'
}

/// The host scan over the arguments from index `i`: after `--` the next
/// argument is the host; options are skipped (with their value for
/// `-i -o -F -L -E -D -R`); otherwise the last plain argument wins.
pub open spec fn host_scan(fs: Seq<Seq<char>>, i: int, host: Seq<char>, skip: bool) -> Seq<char>
    decreases fs.len() - i,
{
    if i < 0 || i >= fs.len() {
        host
    } else if skip {
        host_scan(fs, i + 1, host, false)
    } else {
        let f = fs[i];
        if f == "--"@ && i + 1 < fs.len() {
            fs[i + 1]
        } else if f.len() > 0 && f[0] == '-' {
            host_scan(fs, i + 1, host, f.len() == 2 && takes_value(f[1]))
        } else {
            host_scan(fs, i + 1, f, false)
        }
    }
}

/// The host an ssh command line connects to.
pub open spec fn last_ssh_host_spec(cmd: Seq<char>) -> Seq<char> {
    host_scan(split_command_line_spec(cmd), 1, Seq::empty(), false)
}

pub fn last_ssh_host(cmd: &str) -> (r: String)
    ensures
        r@ == last_ssh_host_spec(cmd@),
{
    proof {
        reveal_strlit("--");
    }
    let fields = split_command_line(cmd);
    let ghost fs = string_views(fields@);
    let mut host = String::new();
    let mut skip = false;
    let mut i: usize = 1;
    while i < fields.len()
        invariant
            1 <= i,
            fs == string_views(fields@),
            "--"@ == seq!['-', '-'],
            last_ssh_host_spec(cmd@) == host_scan(fs, i as int, host@, skip),
        decreases fields.len() - i,
    {
        let f = chars_of(fields[i].as_str());
        assert(fs[i as int] == f@);
        if skip {
            skip = false;
        } else {
            if f.len() == 2 && f[0] == '-' && f[1] == '-' && i + 1 < fields.len() {
                assert(f@ =~= "--"@);
                assert(fs[i + 1] == fields@[i + 1]@);
                return fields[i + 1].clone();
            }
            assert(f@ == "--"@ ==> f.len() == 2 && f@[0] == '-' && f@[1] == '-');
            if f.len() > 0 && f[0] == '-' {
                skip = f.len() == 2 && (f[1] == 'i' || f[1] == 'o' || f[1] == 'F' || f[1] == 'L'
                    || f[1] == 'E' || f[1] == 'D' || f[1] == 'R');
            } else {
                host = fields[i].clone();
            }
        }
        i = i + 1;
    }
    host
}

// ---------------------------------------------------------------------------
// What a found ssh process is.
/// The label of a Remote-SSH session: the editor, the host, the SOCKS port.
pub open spec fn remote_label(parent_l: Seq<char>, host: Seq<char>, dyn_ports: Seq<Seq<char>>) -> Seq<char> {
    let base = if contains(parent_l, "code"@) && !contains(parent_l, "cursor"@) {
        "VS Code Remote-SSH"@
    } else {
        "Cursor Remote-SSH"@
    };
    let with_host = if host.len() > 0 {
        base + " "@ + host
    } else {
        base
    };
    if dyn_ports.len() > 0 {
        with_host + " (socks :"@ + dyn_ports[0] + ")"@
    } else {
        with_host
    }
}

/// Kind and label of an ssh process: a Remote-SSH session when it has a SOCKS
/// forward and either `-T` or an editor parent; else a local forward when it
/// has `-L` ports; else nothing.
pub open spec fn classify_spec(
    has_t: bool,
    parent_l: Seq<char>,
    host: Seq<char>,
    local_ports: Seq<Seq<char>>,
    dyn_ports: Seq<Seq<char>>,
) -> (Seq<char>, Seq<char>) {
    let editor_parent = contains(parent_l, "cursor"@) || contains(parent_l, "code"@);
    if (has_t && dyn_ports.len() > 0) || (editor_parent && dyn_ports.len() > 0) {
        ("remote-ssh"@, remote_label(parent_l, host, dyn_ports))
    } else if local_ports.len() > 0 {
        ("forward"@, "other forward localhost:"@ + crate::text::join_words(local_ports, ","@))
    } else {
        (Seq::empty(), Seq::empty())
    }
}

fn join_strings(v: &Vec<String>, sep: &str) -> (r: String)
    ensures
        r@ == crate::text::join_words(string_views(v@), sep@),
{
    let cs = crate::text::string_chars(v);
    let sv = chars_of(sep);
    let j = crate::text::join_chars(&cs, &sv);
    string_of(j.as_slice())
}

/// Kind and label, given whether `-T` is on the command line, the parent's
/// name in lower case and the host.
pub fn classify_with(
    has_t: bool,
    parent_l: &str,
    host: &str,
    local_ports: &Vec<String>,
    dyn_ports: &Vec<String>,
) -> (r: (String, String))
    ensures
        (r.0@, r.1@) == classify_spec(has_t, parent_l@, host@, string_views(local_ports@), string_views(dyn_ports@)),
{
    let pl = chars_of(parent_l);
    let editor_parent = contains_str(&pl, "cursor") || contains_str(&pl, "code");
    if (has_t && dyn_ports.len() > 0) || (editor_parent && dyn_ports.len() > 0) {
        let mut label = if contains_str(&pl, "code") && !contains_str(&pl, "cursor") {
            String::from_str("VS Code Remote-SSH")
        } else {
            String::from_str("Cursor Remote-SSH")
        };
        if !host.is_empty() {
            label.append(" ");
            label.append(host);
        }
        if dyn_ports.len() > 0 {
            label.append(" (socks :");
            label.append(dyn_ports[0].as_str());
            label.append(")");
            assert(string_views(dyn_ports@)[0] == dyn_ports@[0]@);
        }
        return (String::from_str("remote-ssh"), label);
    }
    if local_ports.len() > 0 {
        let mut label = String::from_str("other forward localhost:");
        let j = join_strings(local_ports, ",");
        label.append(j.as_str());
        return (String::from_str("forward"), label);
    }
    (String::new(), String::new())
}

/// Kind and label of an ssh process found running (`remote-ssh`, `forward`,
/// or empty when it is neither).
pub fn classify_ssh(
    cmd: &str,
    parent: &str,
    local_ports: &Vec<String>,
    dyn_ports: &Vec<String>,
) -> (r: (String, String))
    ensures
        (r.0@, r.1@) == classify_spec(
            regex_matches(NO_TTY_PATTERN@, cmd@) == Some(true),
            lowercase(parent@),
            last_ssh_host_spec(cmd@),
            string_views(local_ports@),
            string_views(dyn_ports@),
        ),
{
    let has_t = match is_match(NO_TTY_PATTERN, cmd) {
        Some(b) => b,
        None => false,
    };
    let parent_l = to_lowercase(parent);
    let host = last_ssh_host(cmd);
    classify_with(has_t, parent_l.as_str(), host.as_str(), local_ports, dyn_ports)
}

// ---------------------------------------------------------------------------
// One-line summaries.
/// Bytes of a character in UTF-8.
pub open spec fn utf8_char_len(c: char) -> nat {
    if (c as u32) < 0x80 {
        1
    } else if (c as u32) < 0x800 {
        2
    } else if (c as u32) < 0x10000 {
        3
    } else {
        4
    }
}

/// Bytes of a text in UTF-8 (`str::len`).
pub open spec fn utf8_len(s: Seq<char>) -> nat
    decreases s.len(),
{
    if s.len() == 0 {
        0
    } else {
        utf8_len(s.drop_last()) + utf8_char_len(s.last())
    }
}

/// Whether byte offset `n` falls between two characters of `s`.
pub open spec fn is_char_boundary(s: Seq<char>, n: nat) -> bool {
    exists|k: int| 0 <= k <= s.len() && utf8_len(#[trigger] s.take(k)) == n
}

fn utf8_char_len_exec(c: char) -> (n: usize)
    ensures
        n == utf8_char_len(c),
{
    let u = c as u32;
    if u < 0x80 {
        1
    } else if u < 0x800 {
        2
    } else if u < 0x10000 {
        3
    } else {
        4
    }
}

/// The parts of a summary: the `-L` ports, the `-D` ports, the host.
pub open spec fn summary_parts(cmd: Seq<char>, local_ports: Seq<Seq<char>>, dyn_ports: Seq<Seq<char>>) -> Seq<Seq<char>> {
    let a: Seq<Seq<char>> = if local_ports.len() > 0 {
        seq!["-L :"@ + crate::text::join_words(local_ports, ","@)]
    } else {
        Seq::empty()
    };
    let b: Seq<Seq<char>> = if dyn_ports.len() > 0 {
        a.push("-D :"@ + crate::text::join_words(dyn_ports, ","@))
    } else {
        a
    };
    let host = last_ssh_host_spec(cmd);
    if host.len() > 0 {
        b.push(host)
    } else {
        b
    }
}

/// The detail line of a found process: its parts joined by two spaces, or,
/// with no parts, the command line cut to 117 bytes and `...` when it is
/// longer than 120 bytes.
pub open spec fn summary_spec(cmd: Seq<char>, local_ports: Seq<Seq<char>>, dyn_ports: Seq<Seq<char>>) -> Seq<char> {
    let parts = summary_parts(cmd, local_ports, dyn_ports);
    if parts.len() > 0 {
        crate::text::join_words(parts, "  "@)
    } else if utf8_len(cmd) > 120 {
        cmd.take(choose|k: int| 0 <= k <= cmd.len() && utf8_len(cmd.take(k)) == 117) + "..."@
    } else {
        cmd
    }
}

proof fn lemma_utf8_len_take_mono(s: Seq<char>, i: int, j: int)
    requires
        0 <= i < j <= s.len(),
    ensures
        utf8_len(s.take(i)) < utf8_len(s.take(j)),
    decreases j - i,
{
    assert(s.take(j).drop_last() =~= s.take(j - 1));
    if i < j - 1 {
        lemma_utf8_len_take_mono(s, i, j - 1);
    }
}

pub fn summarize_detected(cmd: &str, local_ports: &Vec<String>, dyn_ports: &Vec<String>) -> (r: String)
    requires
        summary_parts(cmd@, string_views(local_ports@), string_views(dyn_ports@)).len() > 0
            || utf8_len(cmd@) <= 120 || is_char_boundary(cmd@, 117),
    ensures
        r@ == summary_spec(cmd@, string_views(local_ports@), string_views(dyn_ports@)),
{
    proof {
        reveal_strlit("-L :");
        reveal_strlit("-D :");
        reveal_strlit("...");
    }
    let mut parts: Vec<Vec<char>> = Vec::new();
    if local_ports.len() > 0 {
        let mut p = chars_of("-L :");
        let j = join_strings(local_ports, ",");
        append_str(&mut p, j.as_str());
        parts.push(p);
    }
    if dyn_ports.len() > 0 {
        let mut p = chars_of("-D :");
        let j = join_strings(dyn_ports, ",");
        append_str(&mut p, j.as_str());
        parts.push(p);
    }
    let host = last_ssh_host(cmd);
    if !host.as_str().is_empty() {
        parts.push(chars_of(host.as_str()));
    }
    assert(views(parts@) =~= summary_parts(cmd@, string_views(local_ports@), string_views(dyn_ports@)));
    if parts.len() > 0 {
        let sep = chars_of("  ");
        let j = crate::text::join_chars(&parts, &sep);
        return string_of(j.as_slice());
    }
    let v = chars_of(cmd);
    let mut bytes: usize = 0;
    let mut i: usize = 0;
    while i < v.len() && bytes <= 120
        invariant
            i <= v.len(),
            bytes == utf8_len(v@.take(i as int)),
            bytes <= 124,
        decreases v.len() - i,
    {
        assert(v@.take(i + 1).drop_last() =~= v@.take(i as int));
        let n = utf8_char_len_exec(v[i]);
        bytes = bytes + n;
        i = i + 1;
    }
    assert(v@.take(v.len() as int) =~= v@);
    if bytes <= 120 {
        return String::from_str(cmd);
    }
    proof {
        if i < v.len() {
            lemma_utf8_len_take_mono(v@, i as int, v.len() as int);
        }
        assert(utf8_len(cmd@) > 120);
    }
    let mut k: usize = 0;
    let mut b: usize = 0;
    while b < 117
        invariant
            k <= v.len(),
            b == utf8_len(v@.take(k as int)),
            b <= 117,
            is_char_boundary(v@, 117),
            forall|m: int| 0 <= m <= v.len() && utf8_len(#[trigger] v@.take(m)) == 117 ==> k <= m,
        decreases 117 - b,
    {
        let ghost w: int = choose|m: int| 0 <= m <= v.len() && utf8_len(#[trigger] v@.take(m)) == 117;
        if k == v.len() {
            proof {
                assert(v@.take(k as int) =~= v@);
                if w < k {
                    lemma_utf8_len_take_mono(v@, w, k as int);
                }
            }
        }
        assert(k < v.len());
        assert(v@.take(k + 1).drop_last() =~= v@.take(k as int));
        let n = utf8_char_len_exec(v[k]);
        b = b + n;
        k = k + 1;
        proof {
            if b > 117 {
                assert(w >= k - 1);
                if w == k - 1 {
                } else {
                    lemma_utf8_len_take_mono(v@, k as int, w);
                }
            }
            assert forall|m: int| 0 <= m <= v.len() && utf8_len(#[trigger] v@.take(m)) == 117 implies k <= m by {
                if m < k {
                    if m < k - 1 {
                        lemma_utf8_len_take_mono(v@, m, k - 1);
                    }
                }
            }
        }
    }
    proof {
        let ghost w: int = choose|m: int| 0 <= m <= v.len() && utf8_len(#[trigger] v@.take(m)) == 117;
        if w > k {
            lemma_utf8_len_take_mono(v@, k as int, w);
        }
        assert(w == k);
    }
    let mut out = copy_range(&v, 0, k);
    append_str(&mut out, "...");
    string_of(out.as_slice())
}

// ---------------------------------------------------------------------------
// Editor processes.
/// The text after the last `/` or `\\` (the whole text when there is none).
pub open spec fn last_segment(s: Seq<char>) -> Seq<char>
    decreases s.len(),
{
    if s.len() == 0 {
        s
    } else if s.last() == '/' || s.last() == '\\' {
        Seq::empty()
    } else {
        last_segment(s.drop_last()).push(s.last())
    }
}

/// A Cursor or VS Code process (main, helper, or an edition such as `Code - Insiders`).
pub open spec fn is_editor_name(name: Seq<char>) -> bool {
    let n = strip_exe(lowercase(last_segment(name)));
    ||| n == "cursor"@
    ||| starts_with(n, "cursor helper"@)
    ||| n == "code"@
    ||| starts_with(n, "code helper"@)
    ||| starts_with(n, "code -"@)
}

fn last_segment_exec(v: &Vec<char>) -> (r: Vec<char>)
    ensures
        r@ == last_segment(v@),
{
    let mut i: usize = v.len();
    assert(v@.take(v.len() as int) =~= v@);
    while i > 0 && v[i - 1] != '/' && v[i - 1] != '\\'
        invariant
            i <= v.len(),
            last_segment(v@) == last_segment(v@.take(i as int)) + v@.skip(i as int),
        decreases i,
    {
        let ghost t = v@.take(i as int);
        assert(t.drop_last() =~= v@.take(i - 1));
        assert(last_segment(v@.take(i - 1)).push(v@[i - 1]) + v@.skip(i as int) =~= last_segment(
            v@.take(i - 1),
        ) + v@.skip(i - 1));
        i = i - 1;
    }
    assert(last_segment(v@.take(i as int)) =~= Seq::<char>::empty());
    assert(Seq::<char>::empty() + v@.skip(i as int) =~= v@.skip(i as int));
    copy_range(v, i, v.len())
}

pub fn is_editor_process_name(name: &str) -> (b: bool)
    ensures
        b == is_editor_name(name@),
{
    let v = chars_of(name);
    let seg = last_segment_exec(&v);
    let segs = string_of(seg.as_slice());
    let l = lower_chars(segs.as_str());
    let n = crate::procs::strip_exe_exec(&l);
    let ns = string_of(n.as_slice());
    str_eq(ns.as_str(), "cursor") || starts_with_str(&n, "cursor helper") || str_eq(ns.as_str(), "code")
        || starts_with_str(&n, "code helper") || starts_with_str(&n, "code -")
}

// ---------------------------------------------------------------------------
// The process tree.
/// The parent of `pid` in the rows `(pid, ppid, name)` (the last row for it wins).
pub open spec fn row_ppid(rows: Seq<(i32, i32, String)>, pid: i32) -> Option<i32>
    decreases rows.len(),
{
    if rows.len() == 0 {
        None
    } else if rows.last().0 == pid {
        Some(rows.last().1)
    } else {
        row_ppid(rows.drop_last(), pid)
    }
}

/// The name of `pid` in the rows (the last row for it wins).
pub open spec fn row_name(rows: Seq<(i32, i32, String)>, pid: i32) -> Option<Seq<char>>
    decreases rows.len(),
{
    if rows.len() == 0 {
        None
    } else if rows.last().0 == pid {
        Some(rows.last().2@)
    } else {
        row_name(rows.drop_last(), pid)
    }
}

fn row_lookup(rows: &Vec<(i32, i32, String)>, pid: i32) -> (r: Option<usize>)
    ensures
        match r {
            Some(i) => i < rows.len() && row_ppid(rows@, pid) == Some(rows@[i as int].1)
                && row_name(rows@, pid) == Some(rows@[i as int].2@),
            None => row_ppid(rows@, pid) is None && row_name(rows@, pid) is None,
        },
{
    let mut i: usize = rows.len();
    assert(rows@.take(rows.len() as int) =~= rows@);
    while i > 0
        invariant
            i <= rows.len(),
            row_ppid(rows@, pid) == row_ppid(rows@.take(i as int), pid),
            row_name(rows@, pid) == row_name(rows@.take(i as int), pid),
        decreases i,
    {
        assert(rows@.take(i as int).drop_last() =~= rows@.take(i - 1));
        if rows[i - 1].0 == pid {
            return Some(i - 1);
        }
        i = i - 1;
    }
    None
}

/// Walking up from `cur` for at most `fuel` steps: the last editor process seen.
pub open spec fn ancestor_from(rows: Seq<(i32, i32, String)>, cur: i32, found: Option<i32>, fuel: nat) -> Option<i32>
    decreases fuel,
{
    if fuel == 0 || cur <= 0 {
        found
    } else {
        let f = match row_name(rows, cur) {
            Some(n) => if is_editor_name(n) {
                Some(cur)
            } else {
                found
            },
            None => found,
        };
        match row_ppid(rows, cur) {
            None => f,
            Some(next) => if next == cur {
                f
            } else {
                ancestor_from(rows, next, f, (fuel - 1) as nat)
            },
        }
    }
}

/// The topmost editor process among the first 64 ancestors from `start`.
pub open spec fn top_editor_spec(start: i32, rows: Seq<(i32, i32, String)>) -> Option<i32> {
    ancestor_from(rows, start, None, 64)
}

pub fn top_editor_ancestor(start: i32, rows: &Vec<(i32, i32, String)>) -> (r: Option<i32>)
    ensures
        r == top_editor_spec(start, rows@),
{
    let mut cur = start;
    let mut found: Option<i32> = None;
    let mut n: usize = 0;
    while n < 64
        invariant
            n <= 64,
            top_editor_spec(start, rows@) == ancestor_from(rows@, cur, found, (64 - n) as nat),
        decreases 64 - n,
    {
        if cur <= 0 {
            return found;
        }
        let pos = row_lookup(rows, cur);
        match pos {
            None => {
                return found;
            },
            Some(i) => {
                if is_editor_process_name(rows[i].2.as_str()) {
                    found = Some(cur);
                }
                let next = rows[i].1;
                if next == cur {
                    return found;
                }
                cur = next;
            },
        }
        n = n + 1;
    }
    found
}

/// Walking up from `cur` for at most `fuel` steps, without revisiting a PID:
/// whether `root` is reached.
pub open spec fn under_from(rows: Seq<(i32, i32, String)>, cur: i32, root: i32, guard: Seq<i32>, fuel: nat) -> bool
    decreases fuel,
{
    if fuel == 0 {
        false
    } else if cur == root {
        true
    } else if cur <= 0 || guard.contains(cur) {
        false
    } else {
        let next = match row_ppid(rows, cur) {
            Some(p) => p,
            None => 0,
        };
        under_from(rows, next, root, guard.push(cur), (fuel - 1) as nat)
    }
}

/// Whether `root` is `pid` or one of its first 63 ancestors.
pub open spec fn is_under_spec(pid: i32, root: i32, rows: Seq<(i32, i32, String)>) -> bool {
    under_from(rows, pid, root, Seq::empty(), 64)
}

pub fn is_under(pid: i32, root: i32, rows: &Vec<(i32, i32, String)>) -> (b: bool)
    ensures
        b == is_under_spec(pid, root, rows@),
{
    let mut cur = pid;
    let mut guard: Vec<i32> = Vec::new();
    let mut n: usize = 0;
    while n < 64
        invariant
            n <= 64,
            is_under_spec(pid, root, rows@) == under_from(rows@, cur, root, guard@, (64 - n) as nat),
        decreases 64 - n,
    {
        if cur == root {
            return true;
        }
        if cur <= 0 || has_pid(&guard, cur) {
            return false;
        }
        guard.push(cur);
        cur = match row_lookup(rows, cur) {
            Some(i) => rows[i].1,
            None => 0,
        };
        n = n + 1;
    }
    false
}

/// The editor processes in the rows that lie under `root`, in row order.
pub open spec fn editor_pids_spec(rows: Seq<(i32, i32, String)>, upto: Seq<(i32, i32, String)>, root: i32) -> Seq<i32>
    decreases upto.len(),
{
    if upto.len() == 0 {
        Seq::empty()
    } else {
        let r = editor_pids_spec(rows, upto.drop_last(), root);
        let (pid, _, name) = upto.last();
        if is_editor_name(name@) && is_under_spec(pid, root, rows) {
            r.push(pid)
        } else {
            r
        }
    }
}

pub fn editor_pids_under(rows: &Vec<(i32, i32, String)>, root: i32) -> (r: Vec<i32>)
    ensures
        r@ == editor_pids_spec(rows@, rows@, root),
{
    let mut out: Vec<i32> = Vec::new();
    let mut i: usize = 0;
    while i < rows.len()
        invariant
            i <= rows.len(),
            out@ == editor_pids_spec(rows@, rows@.take(i as int), root),
        decreases rows.len() - i,
    {
        assert(rows@.take(i + 1).drop_last() =~= rows@.take(i as int));
        if is_editor_process_name(rows[i].2.as_str()) && is_under(rows[i].0, root, rows) {
            out.push(rows[i].0);
        }
        i = i + 1;
    }
    assert(rows@.take(rows.len() as int) =~= rows@);
    out
}

/// The processes whose sockets can belong to an ssh process: itself, and the
/// editor processes under the topmost editor above it.
pub open spec fn watched_pids(ssh_pid: i32, ssh_ppid: i32, rows: Seq<(i32, i32, String)>) -> Seq<i32> {
    match top_editor_spec(ssh_ppid, rows) {
        Some(root) => seq![ssh_pid] + editor_pids_spec(rows, rows, root),
        None => seq![ssh_pid],
    }
}

// ---------------------------------------------------------------------------
// Ports listened on by an ssh process or its editor.
/// Whether a listening port of a watched process is reported: not a SOCKS
/// port, not reported yet, and for an editor process loopback and below 49152.
pub open spec fn keep_port(
    acc: Seq<Seq<char>>,
    lp: (Seq<char>, bool),
    dyn_ports: Seq<Seq<char>>,
    editor: bool,
) -> bool {
    &&& !dyn_ports.contains(lp.0)
    &&& !acc.contains(lp.0)
    &&& (editor ==> lp.1 && !(crate::num::parse_u16_spec(lp.0) matches Some(p) && p >= 49152))
}

pub open spec fn ports_kept(
    acc: Seq<Seq<char>>,
    ports: Seq<(Seq<char>, bool)>,
    dyn_ports: Seq<Seq<char>>,
    editor: bool,
) -> Seq<Seq<char>>
    decreases ports.len(),
{
    if ports.len() == 0 {
        acc
    } else {
        let r = ports_kept(acc, ports.drop_last(), dyn_ports, editor);
        if keep_port(r, ports.last(), dyn_ports, editor) {
            r.push(ports.last().0)
        } else {
            r
        }
    }
}

pub open spec fn extra_over(
    want: Seq<i32>,
    socks: Seq<(i32, Seq<(Seq<char>, bool)>)>,
    dyn_ports: Seq<Seq<char>>,
    ssh_pid: i32,
) -> Seq<Seq<char>>
    decreases want.len(),
{
    if want.len() == 0 {
        Seq::empty()
    } else {
        let acc = extra_over(want.drop_last(), socks, dyn_ports, ssh_pid);
        let pid = want.last();
        match group_pos(socks, pid) {
            Some(i) => ports_kept(acc, socks[i].1, dyn_ports, pid != ssh_pid),
            None => acc,
        }
    }
}

/// The ports an ssh process (or the editor it runs under) listens on beyond its
/// SOCKS ports: forwards that are not on its command line.
pub open spec fn extra_ports_spec(
    ssh_pid: i32,
    ssh_ppid: i32,
    dyn_ports: Seq<Seq<char>>,
    rows: Seq<(i32, i32, String)>,
    socks: Seq<(i32, Seq<(Seq<char>, bool)>)>,
) -> Seq<Seq<char>> {
    extra_over(watched_pids(ssh_pid, ssh_ppid, rows), socks, dyn_ports, ssh_pid)
}

fn keep_ports_exec(
    acc: &mut Vec<String>,
    ports: &Vec<ListenPort>,
    dyn_ports: &Vec<String>,
    editor: bool,
)
    ensures
        string_views(final(acc)@) == ports_kept(
            string_views(old(acc)@),
            crate::procs::port_list(ports@),
            string_views(dyn_ports@),
            editor,
        ),
{
    let ghost a0 = string_views(acc@);
    let ghost pl = crate::procs::port_list(ports@);
    let mut j: usize = 0;
    while j < ports.len()
        invariant
            j <= ports.len(),
            pl == crate::procs::port_list(ports@),
            string_views(acc@) == ports_kept(a0, pl.take(j as int), string_views(dyn_ports@), editor),
        decreases ports.len() - j,
    {
        assert(pl.take(j + 1).drop_last() =~= pl.take(j as int));
        assert(pl.take(j + 1).last() == (ports@[j as int].port@, ports@[j as int].loopback));
        let lp = &ports[j];
        let mut keep = !has_string(dyn_ports, lp.port.as_str()) && !has_string(acc, lp.port.as_str());
        if keep && editor {
            if !lp.loopback {
                keep = false;
            } else {
                match crate::num::parse_u16(lp.port.as_str()) {
                    Some(p) => {
                        if p >= 49152 {
                            keep = false;
                        }
                    },
                    None => {},
                }
            }
        }
        if keep {
            let ghost o = string_views(acc@);
            acc.push(lp.port.clone());
            assert(string_views(acc@) =~= o.push(lp.port@));
        }
        j = j + 1;
    }
    assert(pl.take(ports.len() as int) =~= pl);
}

pub fn extra_listen_ports(
    ssh_pid: i32,
    ssh_ppid: i32,
    dyn_ports: &Vec<String>,
    rows: &Vec<(i32, i32, String)>,
    socks: &Vec<(i32, Vec<ListenPort>)>,
) -> (r: Vec<String>)
    ensures
        string_views(r@) == extra_ports_spec(ssh_pid, ssh_ppid, string_views(dyn_ports@), rows@, groups_view(socks@)),
{
    let mut want: Vec<i32> = vec![ssh_pid];
    match top_editor_ancestor(ssh_ppid, rows) {
        Some(root) => {
            let eds = editor_pids_under(rows, root);
            let mut k: usize = 0;
            while k < eds.len()
                invariant
                    k <= eds.len(),
                    want@ == seq![ssh_pid] + eds@.take(k as int),
                decreases eds.len() - k,
            {
                want.push(eds[k]);
                assert(want@ =~= seq![ssh_pid] + eds@.take(k + 1));
                k = k + 1;
            }
            assert(eds@.take(eds.len() as int) =~= eds@);
        },
        None => {
            assert(want@ =~= seq![ssh_pid]);
        },
    }
    let ghost w = want@;
    assert(w == watched_pids(ssh_pid, ssh_ppid, rows@));
    let mut extra: Vec<String> = Vec::new();
    let mut i: usize = 0;
    while i < want.len()
        invariant
            i <= want.len(),
            want@ == w,
            string_views(extra@) == extra_over(w.take(i as int), groups_view(socks@), string_views(dyn_ports@), ssh_pid),
        decreases want.len() - i,
    {
        assert(w.take(i + 1).drop_last() =~= w.take(i as int));
        let pid = want[i];
        match crate::procs::group_pos_exec(socks, pid) {
            Some(g) => {
                assert(groups_view(socks@)[g as int].1 == crate::procs::port_list(socks@[g as int].1@));
                keep_ports_exec(&mut extra, &socks[g].1, dyn_ports, pid != ssh_pid);
            },
            None => {},
        }
        i = i + 1;
    }
    assert(w.take(w.len() as int) =~= w);
    extra
}

// ---------------------------------------------------------------------------
// Found ssh processes.
/// An ssh process found running that no saved setup of this app started.
#[derive(Debug, Clone)]
pub struct DetectedTunnel {
    pub pid: i32,
    pub kind: String,
    pub label: String,
    pub detail: String,
    pub command: String,
    pub local_ports: Vec<String>,
}

pub struct DetectedView {
    pub pid: i32,
    pub kind: Seq<char>,
    pub label: Seq<char>,
    pub detail: Seq<char>,
    pub command: Seq<char>,
    pub local_ports: Seq<Seq<char>>,
}

impl View for DetectedTunnel {
    type V = DetectedView;

    open spec fn view(&self) -> DetectedView {
        DetectedView {
            pid: self.pid,
            kind: self.kind@,
            label: self.label@,
            detail: self.detail@,
            command: self.command@,
            local_ports: string_views(self.local_ports@),
        }
    }
}

/// Whether `x` is one of the processes watched for some ssh process.
pub open spec fn is_listen_candidate(procs: Seq<OsProc>, rows: Seq<(i32, i32, String)>, x: i32) -> bool {
    exists|j: int| 0 <= j < procs.len() && watched_pids(procs[j].pid, procs[j].ppid, rows).contains(x)
}

/// The processes whose listening sockets detection reads, ascending, each once.
pub open spec fn listen_pids_spec(procs: Seq<OsProc>, rows: Seq<(i32, i32, String)>) -> Seq<i32> {
    choose|s: Seq<i32>| strictly_increasing(s) && forall|x: i32| s.contains(x) <==> is_listen_candidate(procs, rows, x)
}

fn watched_exec(ssh_pid: i32, ssh_ppid: i32, rows: &Vec<(i32, i32, String)>) -> (r: Vec<i32>)
    ensures
        r@ == watched_pids(ssh_pid, ssh_ppid, rows@),
{
    let mut want: Vec<i32> = vec![ssh_pid];
    match top_editor_ancestor(ssh_ppid, rows) {
        Some(root) => {
            let eds = editor_pids_under(rows, root);
            let mut k: usize = 0;
            while k < eds.len()
                invariant
                    k <= eds.len(),
                    want@ == seq![ssh_pid] + eds@.take(k as int),
                decreases eds.len() - k,
            {
                want.push(eds[k]);
                assert(want@ =~= seq![ssh_pid] + eds@.take(k + 1));
                k = k + 1;
            }
            assert(eds@.take(eds.len() as int) =~= eds@);
        },
        None => {
            assert(want@ =~= seq![ssh_pid]);
        },
    }
    want
}

/// The processes to read listening sockets of: each ssh process and the editor
/// processes around it, ascending, each once.
pub fn listen_pids_for(procs: &Vec<OsProc>, rows: &Vec<(i32, i32, String)>) -> (r: Vec<i32>)
    ensures
        r@ == listen_pids_spec(procs@, rows@),
{
    let mut out: Vec<i32> = Vec::new();
    let mut i: usize = 0;
    while i < procs.len()
        invariant
            i <= procs.len(),
            strictly_increasing(out@),
            forall|x: i32| out@.contains(x) <==> exists|j: int|
                0 <= j < i && watched_pids(procs@[j].pid, procs@[j].ppid, rows@).contains(x),
        decreases procs.len() - i,
    {
        let w = watched_exec(procs[i].pid, procs[i].ppid, rows);
        let ghost before = out@;
        let mut k: usize = 0;
        while k < w.len()
            invariant
                k <= w.len(),
                strictly_increasing(out@),
                forall|x: i32| out@.contains(x) <==> (before.contains(x) || w@.take(k as int).contains(x)),
            decreases w.len() - k,
        {
            let ghost o2 = out@;
            assert forall|x: i32| o2.contains(x) <==> (before.contains(x) || w@.take(k as int).contains(x)) by {
                assert(out@.contains(x) <==> (before.contains(x) || w@.take(k as int).contains(x)));
            }
            insert_sorted_unique(&mut out, w[k]);
            let ghost t0 = w@.take(k as int);
            let ghost t1 = w@.take(k + 1);
            assert(t1 =~= t0.push(w@[k as int]));
            assert forall|x: i32| t1.contains(x) <==> (t0.contains(x) || x == w@[k as int]) by {
                if t1.contains(x) {
                    let m = choose|m: int| 0 <= m < t1.len() && t1[m] == x;
                    if m < t0.len() {
                        assert(t0[m] == x);
                    }
                }
                if t0.contains(x) {
                    let m = choose|m: int| 0 <= m < t0.len() && t0[m] == x;
                    assert(t1[m] == x);
                }
                if x == w@[k as int] {
                    assert(t1[k as int] == x);
                }
            }
            assert forall|x: i32| out@.contains(x) <==> (before.contains(x) || t1.contains(x)) by {
                assert(out@.contains(x) <==> (o2.contains(x) || x == w@[k as int]));
                assert(o2.contains(x) <==> (before.contains(x) || t0.contains(x)));
                assert(t1.contains(x) <==> (t0.contains(x) || x == w@[k as int]));
            }
            k = k + 1;
        }
        assert(w@.take(w.len() as int) =~= w@);
        assert forall|x: i32| out@.contains(x) <==> exists|j: int|
            0 <= j < i + 1 && watched_pids(procs@[j].pid, procs@[j].ppid, rows@).contains(x) by {
            assert(w@ == watched_pids(procs@[i as int].pid, procs@[i as int].ppid, rows@));
            assert(out@.contains(x) <==> (before.contains(x) || w@.contains(x)));
            if exists|j: int| 0 <= j < i + 1 && watched_pids(procs@[j].pid, procs@[j].ppid, rows@).contains(x) {
                let j = choose|j: int| 0 <= j < i + 1 && watched_pids(procs@[j].pid, procs@[j].ppid, rows@).contains(x);
                if j < i {
                    assert(before.contains(x));
                }
            }
            if out@.contains(x) {
                if before.contains(x) {
                    let j = choose|j: int| 0 <= j < i && watched_pids(procs@[j].pid, procs@[j].ppid, rows@).contains(x);
                    assert(0 <= j < i + 1);
                } else {
                    assert(watched_pids(procs@[i as int].pid, procs@[i as int].ppid, rows@).contains(x));
                }
            }
        }
        i = i + 1;
    }
    proof {
        let s = listen_pids_spec(procs@, rows@);
        assert(strictly_increasing(out@) && forall|x: i32| out@.contains(x) <==> is_listen_candidate(procs@, rows@, x));
        lemma_sorted_unique(out@, s);
    }
    out
}

/// Whether a saved setup forwards local `port`.
pub open spec fn claimed(known: Seq<Config>, port: Seq<char>) -> bool {
    exists|i: int| 0 <= i < known.len() && known[i].local_port@.len() > 0 && known[i].local_port@ == port
}

/// Ports that are all forwarded by saved setups (and there is at least one).
pub open spec fn all_claimed(known: Seq<Config>, ports: Seq<Seq<char>>) -> bool {
    ports.len() > 0 && forall|i: int| 0 <= i < ports.len() ==> claimed(known, #[trigger] ports[i])
}

/// `ports` followed by those of `extra` it does not hold yet.
pub open spec fn merged_ports(ports: Seq<Seq<char>>, extra: Seq<Seq<char>>) -> Seq<Seq<char>>
    decreases extra.len(),
{
    if extra.len() == 0 {
        ports
    } else {
        let r = merged_ports(ports, extra.drop_last());
        if r.contains(extra.last()) {
            r
        } else {
            r.push(extra.last())
        }
    }
}

/// What detection reports of one ssh process, if anything.
pub open spec fn detected_entry(
    ours: Seq<i32>,
    known: Seq<Config>,
    p: OsProcView,
    rows: Seq<(i32, i32, String)>,
    socks: Seq<(i32, Seq<(Seq<char>, bool)>)>,
) -> Option<DetectedView> {
    let cmd = trim(p.cmd);
    if p.pid <= 0 || ours.contains(p.pid) || cmd.len() == 0 || !contains(lowercase(cmd), "ssh"@) {
        None
    } else {
        let dyn_ports = dyn_ports_spec(cmd);
        let ports = merged_ports(local_ports_spec(cmd), extra_ports_spec(p.pid, p.ppid, dyn_ports, rows, socks));
        if all_claimed(known, ports) && dyn_ports.len() == 0 {
            None
        } else {
            let parent = lowercase(
                if p.parent.len() == 0 {
                    p.name
                } else {
                    p.parent
                },
            );
            let (kind, label) = classify_spec(
                regex_matches(NO_TTY_PATTERN@, cmd) == Some(true),
                lowercase(parent),
                last_ssh_host_spec(cmd),
                ports,
                dyn_ports,
            );
            if kind.len() == 0 {
                None
            } else {
                Some(
                    DetectedView {
                        pid: p.pid,
                        kind,
                        label,
                        detail: summary_spec(cmd, ports, dyn_ports),
                        command: cmd,
                        local_ports: ports + dyn_ports,
                    },
                )
            }
        }
    }
}

pub open spec fn detected_has(r: Seq<DetectedView>, pid: i32) -> bool {
    exists|i: int| 0 <= i < r.len() && r[i].pid == pid
}

/// Detection over the ssh processes in order; a PID is reported once.
pub open spec fn detect_spec(
    ours: Seq<i32>,
    known: Seq<Config>,
    procs: Seq<OsProcView>,
    rows: Seq<(i32, i32, String)>,
    socks: Seq<(i32, Seq<(Seq<char>, bool)>)>,
) -> Seq<DetectedView>
    decreases procs.len(),
{
    if procs.len() == 0 {
        Seq::empty()
    } else {
        let r = detect_spec(ours, known, procs.drop_last(), rows, socks);
        let p = procs.last();
        if detected_has(r, p.pid) {
            r
        } else {
            match detected_entry(ours, known, p, rows, socks) {
                Some(d) => r.push(d),
                None => r,
            }
        }
    }
}

proof fn lemma_extra_over_no_sockets(want: Seq<i32>, dyn_ports: Seq<Seq<char>>, ssh_pid: i32)
    ensures
        extra_over(want, Seq::empty(), dyn_ports, ssh_pid) == Seq::<Seq<char>>::empty(),
    decreases want.len(),
{
    if want.len() > 0 {
        lemma_extra_over_no_sockets(want.drop_last(), dyn_ports, ssh_pid);
    }
}

/// How a found ssh process is classified: by its parent's name, in lower
/// case, and by its own name only when the parent's is empty. A lone ssh
/// process (with no setups, no PIDs of ours and no sockets known) is reported
/// exactly when `classify_ssh` gives it a kind for its command, the ports its
/// command forwards (`local_forward_ports`, `dynamic_forward_ports`) and that
/// name, and it is reported with that kind and label; e.g. an `ssh -D` under
/// `Code.exe` is a VS Code Remote-SSH session.
pub proof fn lemma_detect_classifies_by_parent(p: OsProcView)
    requires
        p.pid > 0,
    ensures
        ({
            let cmd = trim(p.cmd);
            let parent = if p.parent.len() == 0 {
                p.name
            } else {
                p.parent
            };
            let c = classify_spec(
                regex_matches(NO_TTY_PATTERN@, cmd) == Some(true),
                lowercase(lowercase(parent)),
                last_ssh_host_spec(cmd),
                local_ports_spec(cmd),
                dyn_ports_spec(cmd),
            );
            let r = detect_spec(Seq::empty(), Seq::empty(), seq![p], Seq::empty(), Seq::empty());
            let shown = cmd.len() > 0 && contains(lowercase(cmd), "ssh"@) && c.0.len() > 0;
            &&& shown ==> (r.len() == 1 && r[0].pid == p.pid && r[0].kind == c.0 && r[0].label == c.1)
            &&& !shown ==> r.len() == 0
        }),
{
    let cmd = trim(p.cmd);
    let procs = seq![p];
    assert(procs.drop_last() =~= Seq::<OsProcView>::empty());
    assert(procs.last() == p);
    let dp = dyn_ports_spec(cmd);
    lemma_extra_over_no_sockets(watched_pids(p.pid, p.ppid, Seq::empty()), dp, p.pid);
    assert(extra_ports_spec(p.pid, p.ppid, dp, Seq::empty(), Seq::empty()) == Seq::<Seq<char>>::empty());
    assert(merged_ports(local_ports_spec(cmd), Seq::empty()) == local_ports_spec(cmd));
    assert(!all_claimed(Seq::empty(), local_ports_spec(cmd))) by {
        if local_ports_spec(cmd).len() > 0 {
            assert(!claimed(Seq::empty(), local_ports_spec(cmd)[0]));
        }
    }
    assert(!Seq::<i32>::empty().contains(p.pid));
    assert(!detected_has(Seq::empty(), p.pid));
    let e: Seq<i32> = Seq::empty();
    let k: Seq<Config> = Seq::empty();
    let rows: Seq<(i32, i32, String)> = Seq::empty();
    let socks: Seq<(i32, Seq<(Seq<char>, bool)>)> = Seq::empty();
    assert(detect_spec(e, k, Seq::empty(), rows, socks) == Seq::<DetectedView>::empty());
    assert(detect_spec(e, k, procs, rows, socks) == match detected_entry(e, k, p, rows, socks) {
        Some(d) => Seq::<DetectedView>::empty().push(d),
        None => Seq::<DetectedView>::empty(),
    });
}

pub open spec fn detected_views(v: Seq<DetectedTunnel>) -> Seq<DetectedView> {
    v.map_values(|d: DetectedTunnel| d@)
}

fn claimed_exec(known: &Vec<Config>, port: &String) -> (b: bool)
    ensures
        b == claimed(known@, port@),
{
    let mut i: usize = 0;
    while i < known.len()
        invariant
            i <= known.len(),
            forall|j: int| 0 <= j < i ==> !(known@[j].local_port@.len() > 0 && known@[j].local_port@ == port@),
        decreases known.len() - i,
    {
        if !known[i].local_port.as_str().is_empty() && str_eq(known[i].local_port.as_str(), port.as_str()) {
            return true;
        }
        i = i + 1;
    }
    false
}

fn all_claimed_exec(known: &Vec<Config>, ports: &Vec<String>) -> (b: bool)
    ensures
        b == all_claimed(known@, string_views(ports@)),
{
    if ports.len() == 0 {
        return false;
    }
    let mut i: usize = 0;
    while i < ports.len()
        invariant
            i <= ports.len(),
            forall|j: int| 0 <= j < i ==> claimed(known@, #[trigger] string_views(ports@)[j]),
        decreases ports.len() - i,
    {
        if !claimed_exec(known, &ports[i]) {
            assert(string_views(ports@)[i as int] == ports@[i as int]@);
            return false;
        }
        assert(string_views(ports@)[i as int] == ports@[i as int]@);
        i = i + 1;
    }
    true
}

fn merge_ports_exec(ports: &mut Vec<String>, extra: &Vec<String>)
    ensures
        string_views(final(ports)@) == merged_ports(string_views(old(ports)@), string_views(extra@)),
{
    let ghost p0 = string_views(ports@);
    let mut i: usize = 0;
    while i < extra.len()
        invariant
            i <= extra.len(),
            string_views(ports@) == merged_ports(p0, string_views(extra@).take(i as int)),
        decreases extra.len() - i,
    {
        assert(string_views(extra@).take(i + 1).drop_last() =~= string_views(extra@).take(i as int));
        assert(string_views(extra@).take(i + 1).last() == extra@[i as int]@);
        if !has_string(ports, extra[i].as_str()) {
            let ghost o = string_views(ports@);
            ports.push(extra[i].clone());
            assert(string_views(ports@) =~= o.push(extra@[i as int]@));
        }
        i = i + 1;
    }
    assert(string_views(extra@).take(extra.len() as int) =~= string_views(extra@));
}

fn detected_has_exec(r: &Vec<DetectedTunnel>, pid: i32) -> (b: bool)
    ensures
        b == detected_has(detected_views(r@), pid),
{
    let mut i: usize = 0;
    while i < r.len()
        invariant
            i <= r.len(),
            forall|j: int| 0 <= j < i ==> r@[j].pid != pid,
        decreases r.len() - i,
    {
        if r[i].pid == pid {
            assert(detected_views(r@)[i as int].pid == pid);
            return true;
        }
        i = i + 1;
    }
    assert forall|j: int| 0 <= j < detected_views(r@).len() implies detected_views(r@)[j].pid != pid by {
        assert(detected_views(r@)[j].pid == r@[j].pid);
    }
    false
}

proof fn lemma_kind_needs_ports(
    has_t: bool,
    parent_l: Seq<char>,
    host: Seq<char>,
    local_ports: Seq<Seq<char>>,
    dyn_ports: Seq<Seq<char>>,
)
    ensures
        classify_spec(has_t, parent_l, host, local_ports, dyn_ports).0.len() > 0 ==> local_ports.len() > 0
            || dyn_ports.len() > 0,
{
    reveal_strlit("remote-ssh");
    reveal_strlit("forward");
}

fn detect_one(
    ours: &Vec<i32>,
    known: &Vec<Config>,
    p: &OsProc,
    rows: &Vec<(i32, i32, String)>,
    socks: &Vec<(i32, Vec<ListenPort>)>,
) -> (r: Option<DetectedTunnel>)
    ensures
        match r {
            Some(d) => detected_entry(ours@, known@, p@, rows@, groups_view(socks@)) == Some(d@),
            None => detected_entry(ours@, known@, p@, rows@, groups_view(socks@)) is None,
        },
{
    proof {
        reveal_strlit("ssh");
    }
    if p.pid <= 0 || has_pid(ours, p.pid) {
        return None;
    }
    let cv = trim_str(p.cmd.as_str());
    if cv.len() == 0 {
        return None;
    }
    let cmd = string_of(cv.as_slice());
    let lc = lower_chars(cmd.as_str());
    if !contains_str(&lc, "ssh") {
        return None;
    }
    let mut ports = local_forward_ports(cmd.as_str());
    let dyn_ports = dynamic_forward_ports(cmd.as_str());
    let extra = extra_listen_ports(p.pid, p.ppid, &dyn_ports, rows, socks);
    merge_ports_exec(&mut ports, &extra);
    if all_claimed_exec(known, &ports) && dyn_ports.len() == 0 {
        return None;
    }
    let parent = if p.parent.as_str().is_empty() {
        to_lowercase(p.name.as_str())
    } else {
        to_lowercase(p.parent.as_str())
    };
    let (kind, label) = classify_ssh(cmd.as_str(), parent.as_str(), &ports, &dyn_ports);
    if kind.as_str().is_empty() {
        return None;
    }
    proof {
        lemma_kind_needs_ports(
            regex_matches(NO_TTY_PATTERN@, cmd@) == Some(true),
            lowercase(parent@),
            last_ssh_host_spec(cmd@),
            string_views(ports@),
            string_views(dyn_ports@),
        );
        reveal_strlit("-L :");
        reveal_strlit("-D :");
        let parts = summary_parts(cmd@, string_views(ports@), string_views(dyn_ports@));
        if ports.len() > 0 {
            assert(parts.len() > 0);
        } else {
            assert(dyn_ports.len() > 0);
            assert(parts.len() > 0);
        }
    }
    let detail = summarize_detected(cmd.as_str(), &ports, &dyn_ports);
    let mut local_ports: Vec<String> = Vec::new();
    let mut i: usize = 0;
    while i < ports.len()
        invariant
            i <= ports.len(),
            string_views(local_ports@) == string_views(ports@.take(i as int)),
        decreases ports.len() - i,
    {
        let ghost o = local_ports@;
        let c = ports[i].clone();
        local_ports.push(c);
        proof {
            crate::text::lemma_string_views_push(o, c);
            assert(ports@.take(i + 1) =~= ports@.take(i as int).push(ports@[i as int]));
            crate::text::lemma_string_views_push(ports@.take(i as int), ports@[i as int]);
        }
        i = i + 1;
    }
    let mut k: usize = 0;
    while k < dyn_ports.len()
        invariant
            k <= dyn_ports.len(),
            string_views(local_ports@) == string_views(ports@) + string_views(dyn_ports@.take(k as int)),
        decreases dyn_ports.len() - k,
    {
        assert(ports@.take(ports.len() as int) =~= ports@);
        let ghost o = local_ports@;
        let c = dyn_ports[k].clone();
        local_ports.push(c);
        proof {
            crate::text::lemma_string_views_push(o, c);
            assert(dyn_ports@.take(k + 1) =~= dyn_ports@.take(k as int).push(dyn_ports@[k as int]));
            crate::text::lemma_string_views_push(dyn_ports@.take(k as int), dyn_ports@[k as int]);
            assert(string_views(local_ports@) =~= string_views(ports@) + string_views(dyn_ports@.take(k + 1)));
        }
        k = k + 1;
    }
    assert(ports@.take(ports.len() as int) =~= ports@);
    assert(dyn_ports@.take(dyn_ports.len() as int) =~= dyn_ports@);
    Some(DetectedTunnel { pid: p.pid, kind, label, detail, command: cmd, local_ports })
}

/// The ssh processes running that no saved setup of this app started and that
/// no saved setup accounts for: Remote-SSH sessions and other port forwards.
/// `ours` are the PIDs this app started, `procs` the ssh processes, `rows` the
/// process table `(pid, ppid, name)` and `socks` the listening ports of the
/// processes that `listen_pids_for` names.
pub fn detect_others(
    ours: &Vec<i32>,
    known: &Vec<Config>,
    procs: &Vec<OsProc>,
    rows: &Vec<(i32, i32, String)>,
    socks: &Vec<(i32, Vec<ListenPort>)>,
) -> (r: Vec<DetectedTunnel>)
    ensures
        detected_views(r@) == detect_spec(
            ours@,
            known@,
            crate::procs::proc_views(procs@),
            rows@,
            groups_view(socks@),
        ),
{
    let ghost pv = crate::procs::proc_views(procs@);
    let mut out: Vec<DetectedTunnel> = Vec::new();
    let mut i: usize = 0;
    while i < procs.len()
        invariant
            i <= procs.len(),
            pv == crate::procs::proc_views(procs@),
            detected_views(out@) == detect_spec(ours@, known@, pv.take(i as int), rows@, groups_view(socks@)),
        decreases procs.len() - i,
    {
        assert(pv.take(i + 1).drop_last() =~= pv.take(i as int));
        assert(pv.take(i + 1).last() == procs@[i as int]@);
        if !detected_has_exec(&out, procs[i].pid) {
            match detect_one(ours, known, &procs[i], rows, socks) {
                Some(d) => {
                    let ghost o = detected_views(out@);
                    out.push(d);
                    assert(detected_views(out@) =~= o.push(d@));
                },
                None => {},
            }
        }
        i = i + 1;
    }
    assert(pv.take(procs.len() as int) =~= pv);
    out
}

fn copy_strings(v: &Vec<String>) -> (r: Vec<String>)
    ensures
        string_views(r@) == string_views(v@),
{
    let mut r: Vec<String> = Vec::new();
    let mut i: usize = 0;
    while i < v.len()
        invariant
            i <= v.len(),
            string_views(r@) == string_views(v@.take(i as int)),
        decreases v.len() - i,
    {
        let ghost o = r@;
        let c = v[i].clone();
        r.push(c);
        proof {
            crate::text::lemma_string_views_push(o, c);
            assert(v@.take(i + 1) =~= v@.take(i as int).push(v@[i as int]));
            crate::text::lemma_string_views_push(v@.take(i as int), v@[i as int]);
        }
        i = i + 1;
    }
    assert(v@.take(v.len() as int) =~= v@);
    r
}

impl DetectedTunnel {
    /// A copy with the same fields.
    pub fn duplicate(&self) -> (r: DetectedTunnel)
        ensures
            r@ == self@,
    {
        DetectedTunnel {
            pid: self.pid,
            kind: self.kind.clone(),
            label: self.label.clone(),
            detail: self.detail.clone(),
            command: self.command.clone(),
            local_ports: copy_strings(&self.local_ports),
        }
    }
}

/// Detection reports each process at most once, never one this app started,
/// and only with a kind (`remote-ssh` or `forward`).
pub proof fn lemma_detected_props(
    ours: Seq<i32>,
    known: Seq<Config>,
    procs: Seq<OsProcView>,
    rows: Seq<(i32, i32, String)>,
    socks: Seq<(i32, Seq<(Seq<char>, bool)>)>,
)
    ensures
        ({
            let r = detect_spec(ours, known, procs, rows, socks);
            &&& forall|i: int| 0 <= i < r.len() ==> (#[trigger] r[i]).pid > 0 && !ours.contains(r[i].pid) && r[i].kind.len() > 0
            &&& forall|i: int, j: int| 0 <= i < j < r.len() ==> r[i].pid != r[j].pid
        }),
    decreases procs.len(),
{
    if procs.len() > 0 {
        lemma_detected_props(ours, known, procs.drop_last(), rows, socks);
        let r = detect_spec(ours, known, procs.drop_last(), rows, socks);
        let p = procs.last();
        if !detected_has(r, p.pid) {
            match detected_entry(ours, known, p, rows, socks) {
                Some(d) => {
                    let u = r.push(d);
                    assert forall|i: int, j: int| 0 <= i < j < u.len() implies u[i].pid != u[j].pid by {
                        if j == r.len() {
                            assert(u[i] == r[i]);
                        }
                    }
                },
                None => {},
            }
        }
    }
}

} // verus!
