# tunnel_ui

SSH local-forward tunnels from a terminal UI or the command line: saved setups
in `configs/<name>.conf`, a background supervisor per setup that runs
`ssh -N -L …` and reconnects when the session drops (but not after host key,
auth, key, DNS or bind failures), and a view of other live `ssh` forwards that
are shown but never touched.

## Layout

- `src/` — the library, verified with Verus. Every public function states its
  result in `ensures` over spec functions; the laws of the library are public
  proof functions (`lemma_*`).
  - `text.rs`, `num.rs`, `casefold.rs` — strings, integers and case mapping.
  - `config.rs` — setups: defaults, validation, the `.conf` format, loading
    and saving.
  - `paths.rs` — the app root and state files, PID/error files, log tails.
  - `procs.rs` — `/proc`, `ss` and `netstat` parsing, listeners of a port,
    ssh processes.
  - `detect.rs`, `regexes.rs` — recognising ssh forwards started elsewhere.
  - `ssh.rs` — the ssh command line and its fatal errors.
  - `tunnel.rs` — the decisions of starting, supervising, stopping, status
    and deleting, and the command line's commands.
  - `prune.rs` — cleaning the state directory.
  - `cli.rs` — the program's modes and help texts.
  - `ui/` — the terminal UI as a state machine: menus and fields, the list
    and its scrolling, and the screens with what each key does.
- `app/` — the program: files, processes, signals and the terminal, carrying
  out what the library decides.
- `tests/` — tests of the library on concrete values.
