//! Unicode case mapping, as `str::to_lowercase` / `str::to_uppercase` do it.
use vstd::prelude::*;

verus! {

/// What `str::to_lowercase` returns for a string (Unicode full lowercase mapping).
pub uninterp spec fn lowercase(s: Seq<char>) -> Seq<char>;

/// What `str::to_uppercase` returns for a string (Unicode full uppercase mapping).
pub uninterp spec fn uppercase(s: Seq<char>) -> Seq<char>;

/// Calls `str::to_lowercase`; its result is named `lowercase(s@)` and is a
/// function of the string alone.
#[verifier::external_body]
pub(crate) fn to_lowercase(s: &str) -> (r: String)
    ensures
        r@ == lowercase(s@),
{
    s.to_lowercase()
}

/// Calls `str::to_uppercase`; its result is named `uppercase(s@)` and is a
/// function of the string alone.
#[verifier::external_body]
pub(crate) fn to_uppercase(s: &str) -> (r: String)
    ensures
        r@ == uppercase(s@),
{
    s.to_uppercase()
}

/// `str::to_lowercase` as characters.
pub fn lower_chars(s: &str) -> (r: Vec<char>)
    ensures
        r@ == lowercase(s@),
{
    let l = to_lowercase(s);
    crate::text::chars_of(l.as_str())
}

/// `str::to_uppercase` as characters.
pub fn upper_chars(s: &str) -> (r: Vec<char>)
    ensures
        r@ == uppercase(s@),
{
    let u = to_uppercase(s);
    crate::text::chars_of(u.as_str())
}

} // verus!
