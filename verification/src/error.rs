//! Errors of the library, with the messages that the command line prints.
use vstd::prelude::*;

verus! {

/// What `format!("{:?}", s)` gives for a string slice (`str`'s `Debug`): the
/// string in double quotes with escapes.
pub uninterp spec fn debug_quote(s: Seq<char>) -> Seq<char>;

/// Formats `s` with `str`'s `Debug` impl; the result is named `debug_quote(s@)`.
#[verifier::external_body]
pub(crate) fn debug_quoted(s: &str) -> (r: String)
    ensures
        r@ == debug_quote(s@),
{
    format!("{:?}", s)
}

#[derive(Debug, Clone)]
pub enum TunnelError {
    /// A setup name that `sanitize_name` refuses.
    InvalidName { name: String },
    /// No saved setup of this name among the loaded configs.
    NoSavedTunnel { name: String, config_dir: String },
    /// No `configs/<name>.conf` file to delete.
    NoSavedTunnelFile { name: String },
    /// An explicit setup without user or host.
    ExplicitNeedsUserHost,
    /// An alias setup without an alias.
    AliasNeedsTarget,
    /// `SSH` names a file that does not exist.
    SshOverrideMissing { value: String },
    /// No `ssh` on `PATH`.
    SshNotFound,
    /// The command line has no command.
    MissingCommand,
    /// `start`, `stop` or `delete` without a name.
    MissingName { command: String },
    /// A command the command line does not know.
    UnknownCommand { command: String },
    /// Start Menu shortcuts on a platform other than Windows.
    ShortcutUnsupported,
    /// A failure described by its text (ssh errors, start and stop failures).
    Message { text: String },
}

pub open spec fn invalid_name_text(name: Seq<char>) -> Seq<char> {
    "invalid tunnel name "@ + debug_quote(name) + " (use letters, digits, . _ -)"@
}

pub open spec fn no_saved_text(name: Seq<char>, dir: Seq<char>) -> Seq<char> {
    "no saved tunnel named "@ + debug_quote(name) + " (configs: "@ + dir + ")"@
}

impl TunnelError {
    pub open spec fn text(&self) -> Seq<char> {
        match self {
            TunnelError::InvalidName { name } => invalid_name_text(name@),
            TunnelError::NoSavedTunnel { name, config_dir } => no_saved_text(name@, config_dir@),
            TunnelError::NoSavedTunnelFile { name } => "no saved tunnel named "@ + debug_quote(name@),
            TunnelError::ExplicitNeedsUserHost => "explicit setup needs user and host"@,
            TunnelError::AliasNeedsTarget => "alias setup needs an SSH config alias"@,
            TunnelError::SshOverrideMissing { value } => "SSH="@ + value@ + " not found"@,
            TunnelError::SshNotFound => "ssh not found (install OpenSSH and put ssh on PATH, or set SSH)"@,
            TunnelError::MissingCommand => "missing command"@,
            TunnelError::MissingName { command } => command@ + " requires a name"@,
            TunnelError::UnknownCommand { command } => "unknown command "@ + debug_quote(command@),
            TunnelError::ShortcutUnsupported => "Start Menu shortcuts are only supported on Windows"@,
            TunnelError::Message { text } => text@,
        }
    }

    /// The message the command line prints for this error.
    pub fn message(&self) -> (m: String)
        ensures
            m@ == self.text(),
    {
        match self {
            TunnelError::InvalidName { name } => {
                let mut s = String::new();
                s.append("invalid tunnel name ");
                let q = debug_quoted(name.as_str());
                s.append(q.as_str());
                s.append(" (use letters, digits, . _ -)");
                s
            },
            TunnelError::NoSavedTunnel { name, config_dir } => {
                let mut s = String::new();
                s.append("no saved tunnel named ");
                let q = debug_quoted(name.as_str());
                s.append(q.as_str());
                s.append(" (configs: ");
                s.append(config_dir.as_str());
                s.append(")");
                s
            },
            TunnelError::NoSavedTunnelFile { name } => {
                let mut s = String::new();
                s.append("no saved tunnel named ");
                let q = debug_quoted(name.as_str());
                s.append(q.as_str());
                s
            },
            TunnelError::ExplicitNeedsUserHost => String::from_str("explicit setup needs user and host"),
            TunnelError::AliasNeedsTarget => String::from_str("alias setup needs an SSH config alias"),
            TunnelError::SshOverrideMissing { value } => {
                let mut s = String::new();
                s.append("SSH=");
                s.append(value.as_str());
                s.append(" not found");
                s
            },
            TunnelError::SshNotFound => String::from_str(
                "ssh not found (install OpenSSH and put ssh on PATH, or set SSH)",
            ),
            TunnelError::MissingCommand => String::from_str("missing command"),
            TunnelError::MissingName { command } => {
                let mut s = String::new();
                s.append(command.as_str());
                s.append(" requires a name");
                s
            },
            TunnelError::UnknownCommand { command } => {
                let mut s = String::new();
                s.append("unknown command ");
                let q = debug_quoted(command.as_str());
                s.append(q.as_str());
                s
            },
            TunnelError::ShortcutUnsupported => String::from_str(
                "Start Menu shortcuts are only supported on Windows",
            ),
            TunnelError::Message { text } => text.clone(),
        }
    }
}

} // verus!
