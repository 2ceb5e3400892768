//! Saved SSH local-forward setups and the logic around them: the config file
//! format, ssh command lines, recognising other ssh forwards, process and
//! socket tables, supervisor decisions, status texts and the terminal UI state.
use vstd::prelude::*;

pub mod casefold;
pub mod config;
pub mod error;
pub mod num;
pub mod paths;
pub mod regexes;
pub mod text;
pub mod procs;
pub mod detect;
pub mod ssh;
pub mod tunnel;
pub mod prune;
pub mod cli;
pub mod ui;

verus! {
}
