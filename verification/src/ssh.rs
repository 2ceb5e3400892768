//! The ssh client: where it is, the arguments a setup runs it with, and which
//! of its messages mean that reconnecting cannot help.
use vstd::prelude::*;
use crate::config::{via_spec, Config, ConfigView};
use crate::error::TunnelError;
use crate::text::{
    ascii_lower, ascii_lower_exec, chars_of, contains, contains_str, lines, lines_of, string_of,
    string_views, trim, trim_chars, views,
};

verus! {

// ---------------------------------------------------------------------------
// Finding ssh.
/// Where `ssh` is looked for: each non-empty directory of `PATH`, joined with `ssh`.
pub open spec fn ssh_candidates_spec(path: Seq<char>) -> Seq<Seq<char>> {
    crate::procs::nonempty_pieces(crate::text::split_on(path, ':')).map_values(
        |d: Seq<char>| crate::paths::join_path(d, "ssh"@),
    )
}

pub fn path_ssh_candidates(path: &str) -> (r: Vec<String>)
    ensures
        string_views(r@) == ssh_candidates_spec(path@),
{
    let v = chars_of(path);
    let dirs = crate::text::split_on_char(&v, ':');
    let ghost keep = crate::procs::nonempty_pieces(views(dirs@));
    let mut out: Vec<String> = Vec::new();
    let mut i: usize = 0;
    while i < dirs.len()
        invariant
            i <= dirs.len(),
            string_views(out@) == crate::procs::nonempty_pieces(views(dirs@).take(i as int)).map_values(
                |d: Seq<char>| crate::paths::join_path(d, "ssh"@),
            ),
        decreases dirs.len() - i,
    {
        assert(views(dirs@).take(i + 1).drop_last() =~= views(dirs@).take(i as int));
        assert(views(dirs@).take(i + 1).last() == dirs@[i as int]@);
        if dirs[i].len() > 0 {
            let d = string_of(dirs[i].as_slice());
            let c = crate::paths::join(d.as_str(), "ssh");
            let ghost o = out@;
            out.push(c);
            proof {
                crate::text::lemma_string_views_push(o, c);
                let prev = crate::procs::nonempty_pieces(views(dirs@).take(i as int));
                assert(crate::procs::nonempty_pieces(views(dirs@).take(i + 1)) == prev.push(dirs@[i as int]@));
                assert(prev.push(dirs@[i as int]@).map_values(|d: Seq<char>| crate::paths::join_path(d, "ssh"@))
                    =~= prev.map_values(|d: Seq<char>| crate::paths::join_path(d, "ssh"@)).push(
                    crate::paths::join_path(dirs@[i as int]@, "ssh"@),
                ));
            }
        }
        i = i + 1;
    }
    assert(views(dirs@).take(dirs.len() as int) =~= views(dirs@));
    out
}

/// Whether `$SSH` is set to something.
pub open spec fn env_set(ssh_env: Option<&str>) -> bool {
    ssh_env matches Some(v) && v@.len() > 0
}

/// The ssh to run: `$SSH` when it is set and non-empty (an error when it is not
/// a file), else the first `ssh` found on `PATH` (an error when there is none).
pub fn choose_ssh(ssh_env: Option<&str>, env_is_file: bool, found_on_path: Option<&str>) -> (r: Result<String, TunnelError>)
    ensures
        env_set(ssh_env) && env_is_file ==> (r matches Ok(s) && s@ == ssh_env->0@),
        env_set(ssh_env) && !env_is_file ==> (r matches Err(TunnelError::SshOverrideMissing { value })
            && value@ == ssh_env->0@),
        !env_set(ssh_env) ==> match found_on_path {
            Some(p) => r matches Ok(s) && s@ == p@,
            None => r matches Err(TunnelError::SshNotFound),
        },
{
    match ssh_env {
        Some(v) => {
            if !v.is_empty() {
                if env_is_file {
                    return Ok(String::from_str(v));
                }
                return Err(TunnelError::SshOverrideMissing { value: String::from_str(v) });
            }
        },
        None => {},
    }
    match found_on_path {
        Some(p) => Ok(String::from_str(p)),
        None => Err(TunnelError::SshNotFound),
    }
}

// ---------------------------------------------------------------------------
// The arguments of a setup's ssh.
/// `-N -L LOCAL:RHOST:RPORT` with keep-alive options, `-i KEY` when a key is
/// set, then `--` and the destination.
pub open spec fn ssh_args_spec(c: ConfigView) -> Seq<Seq<char>> {
    let base = seq![
        "-N"@,
        "-L"@,
        c.local_port + ":"@ + c.remote_host + ":"@ + c.remote_port,
        "-o"@,
        "ExitOnForwardFailure=yes"@,
        "-o"@,
        "ServerAliveInterval=30"@,
        "-o"@,
        "ServerAliveCountMax=3"@,
        "-o"@,
        "TCPKeepAlive=yes"@,
        "-o"@,
        "ConnectTimeout=15"@,
    ];
    let with_key = if c.ssh_key.len() > 0 {
        base + seq!["-i"@, c.ssh_key]
    } else {
        base
    };
    with_key + seq!["--"@, via_spec(c)]
}

impl Config {
    /// The arguments ssh runs this setup with.
    pub fn ssh_args(&self) -> (r: Vec<String>)
        ensures
            string_views(r@) == ssh_args_spec(self@),
    {
        let mut fwd = self.local_port.clone();
        fwd.append(":");
        fwd.append(self.remote_host.as_str());
        fwd.append(":");
        fwd.append(self.remote_port.as_str());
        let mut args: Vec<String> = Vec::new();
        args.push(String::from_str("-N"));
        args.push(String::from_str("-L"));
        args.push(fwd);
        args.push(String::from_str("-o"));
        args.push(String::from_str("ExitOnForwardFailure=yes"));
        args.push(String::from_str("-o"));
        args.push(String::from_str("ServerAliveInterval=30"));
        args.push(String::from_str("-o"));
        args.push(String::from_str("ServerAliveCountMax=3"));
        args.push(String::from_str("-o"));
        args.push(String::from_str("TCPKeepAlive=yes"));
        args.push(String::from_str("-o"));
        args.push(String::from_str("ConnectTimeout=15"));
        let ghost base = string_views(args@);
        if !self.ssh_key.as_str().is_empty() {
            args.push(String::from_str("-i"));
            args.push(self.ssh_key.clone());
        }
        args.push(String::from_str("--"));
        args.push(self.via());
        assert(string_views(args@) =~= ssh_args_spec(self@));
        args
    }
}

// ---------------------------------------------------------------------------
// ssh messages that reconnecting cannot fix.
pub open spec fn fatal_markers() -> Seq<Seq<char>> {
    seq![
        "host key verification failed"@,
        "remote host identification has changed"@,
        "permission denied"@,
        "too many authentication failures"@,
        "could not resolve hostname"@,
        "name or service not known"@,
        "no matching host key type"@,
        "bad configuration option"@,
        "unprotected private key file"@,
        "invalid format"@,
        "not a valid key file"@,
        "error loading key"@,
        "could not request local forwarding"@,
        "cannot listen to port"@,
        "address already in use"@,
    ]
}

/// An OpenSSH error line (compared in ASCII lower case) that will not fix
/// itself by reconnecting: host keys, authentication, name resolution, bad
/// options or keys, a local port that cannot be bound, an identity file that
/// cannot be read.
pub open spec fn is_fatal_line_spec(line: Seq<char>) -> bool {
    let l = ascii_lower(line);
    ||| exists|k: int| 0 <= k < fatal_markers().len() && contains(l, #[trigger] fatal_markers()[k])
    ||| (contains(l, "identity file"@) && (contains(l, "not accessible"@) || contains(l, "no such file or directory"@)))
}

pub fn is_fatal_ssh_line(line: &str) -> (b: bool)
    ensures
        b == is_fatal_line_spec(line@),
{
    let v = chars_of(line);
    let l = ascii_lower_exec(&v);
    let markers = [
        "host key verification failed",
        "remote host identification has changed",
        "permission denied",
        "too many authentication failures",
        "could not resolve hostname",
        "name or service not known",
        "no matching host key type",
        "bad configuration option",
        "unprotected private key file",
        "invalid format",
        "not a valid key file",
        "error loading key",
        "could not request local forwarding",
        "cannot listen to port",
        "address already in use",
    ];
    assert(markers@.map_values(|m: &str| m@) =~= fatal_markers());
    let mut k: usize = 0;
    while k < 15
        invariant
            k <= 15,
            l@ == ascii_lower(line@),
            markers@.map_values(|m: &str| m@) == fatal_markers(),
            forall|j: int| 0 <= j < k ==> !contains(l@, #[trigger] fatal_markers()[j]),
        decreases 15 - k,
    {
        assert(markers@[k as int]@ == fatal_markers()[k as int]);
        if contains_str(&l, markers[k]) {
            assert(contains(l@, fatal_markers()[k as int]));
            assert(fatal_markers().len() == 15);
            return true;
        }
        k = k + 1;
    }
    contains_str(&l, "identity file") && (contains_str(&l, "not accessible") || contains_str(
        &l,
        "no such file or directory",
    ))
}

/// The first non-empty trimmed line of ssh output that is fatal.
pub open spec fn fatal_in(ls: Seq<Seq<char>>) -> Option<Seq<char>>
    decreases ls.len(),
{
    if ls.len() == 0 {
        None
    } else {
        let t = trim(ls[0]);
        if t.len() > 0 && is_fatal_line_spec(t) {
            Some(t)
        } else {
            fatal_in(ls.drop_first())
        }
    }
}

pub open spec fn fatal_message_spec(output: Seq<char>) -> Option<Seq<char>> {
    fatal_in(lines(output))
}

/// The first line of ssh output that says reconnecting cannot help, trimmed.
pub fn fatal_ssh_message(output: &str) -> (r: Option<String>)
    ensures
        match r {
            Some(m) => fatal_message_spec(output@) == Some(m@),
            None => fatal_message_spec(output@) is None,
        },
{
    let v = chars_of(output);
    let ls = lines_of(&v);
    let mut i: usize = 0;
    assert(views(ls@).skip(0) =~= views(ls@));
    while i < ls.len()
        invariant
            i <= ls.len(),
            fatal_message_spec(output@) == fatal_in(views(ls@).skip(i as int)),
        decreases ls.len() - i,
    {
        assert(views(ls@).skip(i as int)[0] == ls@[i as int]@);
        assert(views(ls@).skip(i as int).drop_first() =~= views(ls@).skip(i + 1));
        let t = trim_chars(&ls[i]);
        if t.len() > 0 {
            let ts = string_of(t.as_slice());
            if is_fatal_ssh_line(ts.as_str()) {
                return Some(ts);
            }
        }
        i = i + 1;
    }
    None
}

/// The OpenSSH failures that reconnecting cannot fix, by their texts: a line
/// holding any of them, in any ASCII letter case, is fatal, and a line is
/// fatal only when it holds one of them.
pub proof fn lemma_fatal_texts(line: Seq<char>)
    ensures
        contains(ascii_lower(line), "host key verification failed"@) ==> is_fatal_line_spec(line),
        contains(ascii_lower(line), "remote host identification has changed"@) ==> is_fatal_line_spec(line),
        contains(ascii_lower(line), "permission denied"@) ==> is_fatal_line_spec(line),
        contains(ascii_lower(line), "too many authentication failures"@) ==> is_fatal_line_spec(line),
        contains(ascii_lower(line), "could not resolve hostname"@) ==> is_fatal_line_spec(line),
        contains(ascii_lower(line), "name or service not known"@) ==> is_fatal_line_spec(line),
        contains(ascii_lower(line), "no matching host key type"@) ==> is_fatal_line_spec(line),
        contains(ascii_lower(line), "bad configuration option"@) ==> is_fatal_line_spec(line),
        contains(ascii_lower(line), "unprotected private key file"@) ==> is_fatal_line_spec(line),
        contains(ascii_lower(line), "invalid format"@) ==> is_fatal_line_spec(line),
        contains(ascii_lower(line), "not a valid key file"@) ==> is_fatal_line_spec(line),
        contains(ascii_lower(line), "error loading key"@) ==> is_fatal_line_spec(line),
        contains(ascii_lower(line), "could not request local forwarding"@) ==> is_fatal_line_spec(line),
        contains(ascii_lower(line), "cannot listen to port"@) ==> is_fatal_line_spec(line),
        contains(ascii_lower(line), "address already in use"@) ==> is_fatal_line_spec(line),
        contains(ascii_lower(line), "identity file"@) && (contains(ascii_lower(line), "not accessible"@)
            || contains(ascii_lower(line), "no such file or directory"@)) ==> is_fatal_line_spec(line),
        is_fatal_line_spec(line) ==> (contains(ascii_lower(line), "host key verification failed"@)
            || contains(ascii_lower(line), "remote host identification has changed"@)
            || contains(ascii_lower(line), "permission denied"@)
            || contains(ascii_lower(line), "too many authentication failures"@)
            || contains(ascii_lower(line), "could not resolve hostname"@)
            || contains(ascii_lower(line), "name or service not known"@)
            || contains(ascii_lower(line), "no matching host key type"@)
            || contains(ascii_lower(line), "bad configuration option"@)
            || contains(ascii_lower(line), "unprotected private key file"@)
            || contains(ascii_lower(line), "invalid format"@)
            || contains(ascii_lower(line), "not a valid key file"@)
            || contains(ascii_lower(line), "error loading key"@)
            || contains(ascii_lower(line), "could not request local forwarding"@)
            || contains(ascii_lower(line), "cannot listen to port"@)
            || contains(ascii_lower(line), "address already in use"@)
            || (contains(ascii_lower(line), "identity file"@) && (contains(ascii_lower(line), "not accessible"@)
            || contains(ascii_lower(line), "no such file or directory"@)))),
{
    if contains(ascii_lower(line), "host key verification failed"@) {
        assert(fatal_markers()[0] == "host key verification failed"@);
    }
    if contains(ascii_lower(line), "remote host identification has changed"@) {
        assert(fatal_markers()[1] == "remote host identification has changed"@);
    }
    if contains(ascii_lower(line), "permission denied"@) {
        assert(fatal_markers()[2] == "permission denied"@);
    }
    if contains(ascii_lower(line), "too many authentication failures"@) {
        assert(fatal_markers()[3] == "too many authentication failures"@);
    }
    if contains(ascii_lower(line), "could not resolve hostname"@) {
        assert(fatal_markers()[4] == "could not resolve hostname"@);
    }
    if contains(ascii_lower(line), "name or service not known"@) {
        assert(fatal_markers()[5] == "name or service not known"@);
    }
    if contains(ascii_lower(line), "no matching host key type"@) {
        assert(fatal_markers()[6] == "no matching host key type"@);
    }
    if contains(ascii_lower(line), "bad configuration option"@) {
        assert(fatal_markers()[7] == "bad configuration option"@);
    }
    if contains(ascii_lower(line), "unprotected private key file"@) {
        assert(fatal_markers()[8] == "unprotected private key file"@);
    }
    if contains(ascii_lower(line), "invalid format"@) {
        assert(fatal_markers()[9] == "invalid format"@);
    }
    if contains(ascii_lower(line), "not a valid key file"@) {
        assert(fatal_markers()[10] == "not a valid key file"@);
    }
    if contains(ascii_lower(line), "error loading key"@) {
        assert(fatal_markers()[11] == "error loading key"@);
    }
    if contains(ascii_lower(line), "could not request local forwarding"@) {
        assert(fatal_markers()[12] == "could not request local forwarding"@);
    }
    if contains(ascii_lower(line), "cannot listen to port"@) {
        assert(fatal_markers()[13] == "cannot listen to port"@);
    }
    if contains(ascii_lower(line), "address already in use"@) {
        assert(fatal_markers()[14] == "address already in use"@);
    }
    if is_fatal_line_spec(line) && !(contains(ascii_lower(line), "identity file"@) && (contains(ascii_lower(
        line,
    ), "not accessible"@) || contains(ascii_lower(line), "no such file or directory"@))) {
        let k = choose|k: int| 0 <= k < fatal_markers().len() && contains(ascii_lower(line), #[trigger] fatal_markers()[k]);
        assert(0 <= k < 15);
    }
}

/// The fatal message of ssh output is the first of its lines, trimmed, that
/// is not empty and is fatal; when any line is such, there is one.
pub proof fn lemma_fatal_message_found(ls: Seq<Seq<char>>, i: int)
    requires
        0 <= i < ls.len(),
        trim(ls[i]).len() > 0,
        is_fatal_line_spec(trim(ls[i])),
    ensures
        fatal_in(ls) matches Some(m) && is_fatal_line_spec(m) && m.len() > 0
            && exists|j: int| 0 <= j <= i && m == trim(#[trigger] ls[j]) && forall|k: int|
                0 <= k < j ==> !(trim(#[trigger] ls[k]).len() > 0 && is_fatal_line_spec(trim(ls[k]))),
    decreases i,
{
    if i > 0 && !(trim(ls[0]).len() > 0 && is_fatal_line_spec(trim(ls[0]))) {
        let t = ls.drop_first();
        assert(t[i - 1] == ls[i]);
        lemma_fatal_message_found(t, i - 1);
        let j = choose|j: int| 0 <= j <= i - 1 && fatal_in(t)->0 == trim(#[trigger] t[j]) && forall|k: int|
            0 <= k < j ==> !(trim(#[trigger] t[k]).len() > 0 && is_fatal_line_spec(trim(t[k])));
        assert(t[j] == ls[j + 1]);
        assert forall|k: int| 0 <= k < j + 1 implies !(trim(#[trigger] ls[k]).len() > 0 && is_fatal_line_spec(
            trim(ls[k]),
        )) by {
            if k > 0 {
                assert(ls[k] == t[k - 1]);
            }
        }
    }
}

/// ssh runs with every option before `--`: the destination is the last
/// argument, `--` the one before it, and the key, when one is set, comes as
/// `-i KEY` just before `--` (and `-i` appears nowhere without a key).
pub proof fn lemma_ssh_args_order(c: ConfigView)
    ensures
        ({
            let r = ssh_args_spec(c);
            &&& r.len() >= 2
            &&& r[r.len() - 1] == via_spec(c)
            &&& r[r.len() - 2] == "--"@
            &&& r[0] == "-N"@ && r[1] == "-L"@ && r[2] == c.local_port + ":"@ + c.remote_host + ":"@ + c.remote_port
            &&& c.ssh_key.len() > 0 ==> r.len() == 17 && r[r.len() - 4] == "-i"@ && r[r.len() - 3] == c.ssh_key
            &&& c.ssh_key.len() == 0 ==> r.len() == 15 && forall|i: int| 0 <= i < r.len() - 2 ==> r[i] != "-i"@
        }),
{
    reveal_strlit("-i");
    reveal_strlit("-N");
    reveal_strlit("-L");
    reveal_strlit("-o");
    reveal_strlit("ExitOnForwardFailure=yes");
    reveal_strlit("ServerAliveInterval=30");
    reveal_strlit("ServerAliveCountMax=3");
    reveal_strlit("TCPKeepAlive=yes");
    reveal_strlit("ConnectTimeout=15");
    let r = ssh_args_spec(c);
    if c.ssh_key.len() == 0 {
        assert forall|i: int| 0 <= i < r.len() - 2 implies r[i] != "-i"@ by {
            if i != 2 {
                assert(r[i].len() != 2 || r[i][1] != 'i');
            } else {
                reveal_strlit(":");
                let x = c.local_port + ":"@ + c.remote_host + ":"@ + c.remote_port;
                assert(r[2] == x);
                assert(x.len() == c.local_port.len() + c.remote_host.len() + c.remote_port.len() + 2);
                if x.len() == 2 {
                    assert(x[1] == ':');
                }
            }
        }
    }
}

} // verus!
