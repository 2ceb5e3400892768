//! The regular expressions that recognise port forwards on an ssh command line,
//! matched by the `regex` crate.
use vstd::prelude::*;

verus! {

/// `-L [bind@][\[v6\]:][addr:]PORT:`; group 1 is the local port.
pub const LOCAL_FORWARD_PATTERN: &'static str = r"-L\s*(?:\S+@)?(?:\[[^\]]+\]:)?(?:[^:\s]+:)?(\d+):";

/// `-D PORT` as a separate word; group 1 is the SOCKS port.
pub const DYNAMIC_FORWARD_PATTERN: &'static str = r"(?:^|\s)-D\s*(\d+)";

/// `-T` as a separate word.
pub const NO_TTY_PATTERN: &'static str = r"(?:^|\s)-T(?:\s|$)";

/// Group 1 of every successive non-overlapping match of `pattern` in `text`
/// (`None` where the group did not take part), or `None` when `pattern` is not
/// a valid regular expression.
pub uninterp spec fn regex_group1(pattern: Seq<char>, text: Seq<char>) -> Option<Seq<Option<Seq<char>>>>;

/// Whether `pattern` matches somewhere in `text`, or `None` when `pattern` is
/// not a valid regular expression.
pub uninterp spec fn regex_matches(pattern: Seq<char>, text: Seq<char>) -> Option<bool>;

pub open spec fn opt_views(v: Seq<Option<String>>) -> Seq<Option<Seq<char>>> {
    v.map_values(|o: Option<String>| match o {
        Some(s) => Some(s@),
        None => None,
    })
}

/// Compiles `pattern` with `regex::Regex::new` and collects group 1 of each
/// match that `Regex::captures_iter` yields over `text`. The result is named
/// `regex_group1(pattern@, text@)`; nothing more is claimed of it.
#[verifier::external_body]
pub(crate) fn captures_group1(pattern: &str, text: &str) -> (r: Option<Vec<Option<String>>>)
    ensures
        match r {
            Some(v) => regex_group1(pattern@, text@) == Some(opt_views(v@)),
            None => regex_group1(pattern@, text@) is None,
        },
{
    match regex::Regex::new(pattern) {
        Ok(re) => Some(
            re.captures_iter(text).map(|c| c.get(1).map(|m| m.as_str().to_string())).collect(),
        ),
        Err(_) => None,
    }
}

/// Compiles `pattern` with `regex::Regex::new` and asks `Regex::is_match`
/// whether it matches `text`. The result is named `regex_matches(pattern@, text@)`.
#[verifier::external_body]
pub(crate) fn is_match(pattern: &str, text: &str) -> (r: Option<bool>)
    ensures
        r == regex_matches(pattern@, text@),
{
    match regex::Regex::new(pattern) {
        Ok(re) => Some(re.is_match(text)),
        Err(_) => None,
    }
}

} // verus!
