//! Character-level text model used by the parsers and formatters:
//! whitespace, trimming, word splitting, searching and replacing.
use vstd::prelude::*;

verus! {

/// Unicode `White_Space`, the set that `char::is_whitespace` tests.
pub open spec fn is_ws(c: char) -> bool {
    ||| c == '\t'
    ||| c == '\n'
    ||| c == '\x0B'
    ||| c == '\x0C'
    ||| c == '\r'
    ||| c == ' '
    ||| c == '\u{85}'
    ||| c == '\u{A0}'
    ||| c == '\u{1680}'
    ||| ('\u{2000}' <= c && c <= '\u{200A}')
    ||| c == '\u{2028}'
    ||| c == '\u{2029}'
    ||| c == '\u{202F}'
    ||| c == '\u{205F}'
    ||| c == '\u{3000}'
}

pub fn is_whitespace(c: char) -> (b: bool)
    ensures
        b == is_ws(c),
{
    c == '\t' || c == '\n' || c == '\x0B' || c == '\x0C' || c == '\r' || c == ' ' || c == '\u{85}'
        || c == '\u{A0}' || c == '\u{1680}' || ('\u{2000}' <= c && c <= '\u{200A}') || c
        == '\u{2028}' || c == '\u{2029}' || c == '\u{202F}' || c == '\u{205F}' || c == '\u{3000}'
}

/// ASCII letters and digits.
pub open spec fn is_alnum(c: char) -> bool {
    ('a' <= c && c <= 'z') || ('A' <= c && c <= 'Z') || ('0' <= c && c <= '9')
}

pub fn is_ascii_alnum(c: char) -> (b: bool)
    ensures
        b == is_alnum(c),
{
    ('a' <= c && c <= 'z') || ('A' <= c && c <= 'Z') || ('0' <= c && c <= '9')
}

pub open spec fn is_digit(c: char) -> bool {
    '0' <= c && c <= '9'
}

/// `char::to_ascii_lowercase`.
pub open spec fn ascii_lower_char(c: char) -> char {
    if 'A' <= c && c <= 'Z' {
        ((c as u32) + 32) as char
    } else {
        c
    }
}

/// `char::to_ascii_uppercase`.
pub open spec fn ascii_upper_char(c: char) -> char {
    if 'a' <= c && c <= 'z' {
        ((c as u32) - 32) as char
    } else {
        c
    }
}

pub open spec fn ascii_lower(s: Seq<char>) -> Seq<char> {
    s.map_values(|c: char| ascii_lower_char(c))
}

pub open spec fn ascii_upper(s: Seq<char>) -> Seq<char> {
    s.map_values(|c: char| ascii_upper_char(c))
}

/// `str::to_ascii_lowercase`.
pub fn ascii_lower_exec(v: &Vec<char>) -> (out: Vec<char>)
    ensures
        out@ == ascii_lower(v@),
{
    let mut out: Vec<char> = Vec::new();
    let mut i: usize = 0;
    while i < v.len()
        invariant
            i <= v.len(),
            out@ == ascii_lower(v@.take(i as int)),
        decreases v.len() - i,
    {
        let c = v[i];
        let u = if 'A' <= c && c <= 'Z' {
            let cu = c as u32;
            let b: u8 = (cu + 32) as u8;
            assert(b as u32 == cu + 32);
            b as char
        } else {
            c
        };
        out.push(u);
        assert(ascii_lower(v@.take(i + 1)) =~= ascii_lower(v@.take(i as int)).push(
            ascii_lower_char(c),
        ));
        i = i + 1;
    }
    assert(v@.take(v.len() as int) =~= v@);
    out
}

/// The texts of a sequence of strings.
pub open spec fn string_views(v: Seq<String>) -> Seq<Seq<char>> {
    v.map_values(|x: String| x@)
}

pub proof fn lemma_string_views_push(s: Seq<String>, x: String)
    ensures
        string_views(s.push(x)) == string_views(s).push(x@),
{
    assert(string_views(s.push(x)) =~= string_views(s).push(x@));
}

/// The characters of each string.
pub fn string_chars(v: &Vec<String>) -> (r: Vec<Vec<char>>)
    ensures
        views(r@) == string_views(v@),
{
    let mut r: Vec<Vec<char>> = Vec::new();
    let mut i: usize = 0;
    while i < v.len()
        invariant
            i <= v.len(),
            views(r@) == string_views(v@.take(i as int)),
        decreases v.len() - i,
    {
        let ghost o = r@;
        let c = chars_of(v[i].as_str());
        r.push(c);
        assert(v@.take(i + 1) =~= v@.take(i as int).push(v@[i as int]));
        assert(string_views(v@.take(i + 1)) =~= string_views(v@.take(i as int)).push(v@[i as int]@));
        assert(views(r@) =~= views(o).push(c@));
        i = i + 1;
    }
    assert(v@.take(v.len() as int) =~= v@);
    r
}

/// The character sequences held by a vector of character vectors.
pub open spec fn views(v: Seq<Vec<char>>) -> Seq<Seq<char>> {
    v.map_values(|x: Vec<char>| x@)
}

// ---------------------------------------------------------------------------
// Conversions between `str`/`String` and character vectors.
/// The characters of a string slice, in order.
pub fn chars_of(s: &str) -> (out: Vec<char>)
    ensures
        out@ == s@,
{
    let mut out: Vec<char> = Vec::new();
    for c in it: s.chars()
        invariant
            out@ == it.seq().take(it.index() as int),
            it.seq() == s@,
    {
        out.push(c);
    }
    out
}

/// `String::from_iter` over characters: the string made of exactly these characters.
#[verifier::external_body]
pub(crate) fn string_of(v: &[char]) -> (s: String)
    ensures
        s@ == v@,
{
    String::from_iter(v.iter())
}

pub fn copy_range(v: &Vec<char>, from: usize, to: usize) -> (out: Vec<char>)
    requires
        from <= to <= v.len(),
    ensures
        out@ == v@.subrange(from as int, to as int),
{
    let mut out: Vec<char> = Vec::new();
    let mut i = from;
    while i < to
        invariant
            from <= i <= to <= v.len(),
            out@ == v@.subrange(from as int, i as int),
        decreases to - i,
    {
        out.push(v[i]);
        i = i + 1;
    }
    out
}

pub fn append_chars(out: &mut Vec<char>, tail: &Vec<char>)
    ensures
        final(out)@ == old(out)@ + tail@,
{
    let mut i: usize = 0;
    while i < tail.len()
        invariant
            i <= tail.len(),
            out@ == old(out)@ + tail@.take(i as int),
        decreases tail.len() - i,
    {
        out.push(tail[i]);
        i = i + 1;
        assert(tail@.take(i as int) == tail@.take((i - 1) as int).push(tail@[i - 1]));
    }
    assert(tail@.take(tail.len() as int) == tail@);
}

pub fn append_str(out: &mut Vec<char>, tail: &str)
    ensures
        final(out)@ == old(out)@ + tail@,
{
    let t = chars_of(tail);
    append_chars(out, &t);
}

pub fn seq_eq(a: &Vec<char>, b: &Vec<char>) -> (r: bool)
    ensures
        r == (a@ == b@),
{
    if a.len() != b.len() {
        return false;
    }
    let mut i: usize = 0;
    while i < a.len()
        invariant
            a.len() == b.len(),
            i <= a.len(),
            forall|j: int| 0 <= j < i ==> a@[j] == b@[j],
        decreases a.len() - i,
    {
        if a[i] != b[i] {
            return false;
        }
        i = i + 1;
    }
    assert(a@ =~= b@);
    true
}

pub fn str_eq(a: &str, b: &str) -> (r: bool)
    ensures
        r == (a@ == b@),
{
    let x = chars_of(a);
    let y = chars_of(b);
    seq_eq(&x, &y)
}

// ---------------------------------------------------------------------------
// Trimming.
pub open spec fn trim_start(s: Seq<char>) -> Seq<char>
    decreases s.len(),
{
    if s.len() > 0 && is_ws(s[0]) {
        trim_start(s.drop_first())
    } else {
        s
    }
}

pub open spec fn trim_end(s: Seq<char>) -> Seq<char>
    decreases s.len(),
{
    if s.len() > 0 && is_ws(s.last()) {
        trim_end(s.drop_last())
    } else {
        s
    }
}

/// `str::trim`.
pub open spec fn trim(s: Seq<char>) -> Seq<char> {
    trim_end(trim_start(s))
}

pub proof fn lemma_trim_start_skip(s: Seq<char>, i: int)
    requires
        0 <= i <= s.len(),
        forall|j: int| 0 <= j < i ==> is_ws(s[j]),
    ensures
        trim_start(s) == trim_start(s.skip(i)),
    decreases i,
{
    if i > 0 {
        assert(s.drop_first().skip(i - 1) =~= s.skip(i));
        lemma_trim_start_skip(s.drop_first(), i - 1);
    } else {
        assert(s.skip(0) =~= s);
    }
}

pub proof fn lemma_trim_end_take(s: Seq<char>, i: int)
    requires
        0 <= i <= s.len(),
        forall|j: int| i <= j < s.len() ==> is_ws(s[j]),
    ensures
        trim_end(s) == trim_end(s.take(i)),
    decreases s.len() - i,
{
    if i < s.len() {
        assert(s.drop_last().take(i) =~= s.take(i));
        lemma_trim_end_take(s.drop_last(), i);
    } else {
        assert(s.take(i) =~= s);
    }
}

/// Index of the first non-whitespace character (or the length).
pub fn trim_start_index(v: &Vec<char>) -> (i: usize)
    ensures
        i <= v.len(),
        trim_start(v@) == v@.skip(i as int),
        forall|j: int| 0 <= j < i ==> is_ws(v@[j]),
{
    let mut i: usize = 0;
    while i < v.len() && is_whitespace(v[i])
        invariant
            i <= v.len(),
            forall|j: int| 0 <= j < i ==> is_ws(v@[j]),
        decreases v.len() - i,
    {
        i = i + 1;
    }
    proof {
        lemma_trim_start_skip(v@, i as int);
        if i < v.len() {
            assert(v@.skip(i as int)[0] == v@[i as int]);
        }
    }
    i
}

/// Index just past the last non-whitespace character at or after `lo`.
pub fn trim_end_index(v: &Vec<char>, lo: usize) -> (e: usize)
    requires
        lo <= v.len(),
    ensures
        lo <= e <= v.len(),
        trim_end(v@.subrange(lo as int, v.len() as int)) == v@.subrange(lo as int, e as int),
        forall|j: int| e <= j < v.len() ==> is_ws(v@[j]),
{
    let mut e: usize = v.len();
    while e > lo && is_whitespace(v[e - 1])
        invariant
            lo <= e <= v.len(),
            forall|j: int| e <= j < v.len() ==> is_ws(v@[j]),
        decreases e - lo,
    {
        e = e - 1;
    }
    proof {
        let s = v@.subrange(lo as int, v.len() as int);
        lemma_trim_end_take(s, e - lo);
        assert(s.take(e - lo) =~= v@.subrange(lo as int, e as int));
        if e > lo {
            assert(s.take(e - lo).last() == v@[e - 1]);
        }
    }
    e
}

pub fn trim_chars(v: &Vec<char>) -> (out: Vec<char>)
    ensures
        out@ == trim(v@),
{
    let i = trim_start_index(v);
    let e = trim_end_index(v, i);
    assert(v@.skip(i as int) =~= v@.subrange(i as int, v.len() as int));
    copy_range(v, i, e)
}

pub fn trim_str(s: &str) -> (out: Vec<char>)
    ensures
        out@ == trim(s@),
{
    let v = chars_of(s);
    trim_chars(&v)
}

// ---------------------------------------------------------------------------
// Whitespace-separated words (`str::split_whitespace`).
/// Left-to-right scan of `s`: the finished words, and the word in progress.
pub open spec fn word_scan(s: Seq<char>) -> (Seq<Seq<char>>, Seq<char>)
    decreases s.len(),
{
    if s.len() == 0 {
        (Seq::empty(), Seq::empty())
    } else {
        let (done, cur) = word_scan(s.drop_last());
        let c = s.last();
        if is_ws(c) {
            if cur.len() > 0 {
                (done.push(cur), Seq::empty())
            } else {
                (done, cur)
            }
        } else {
            (done, cur.push(c))
        }
    }
}

/// `str::split_whitespace`: the maximal runs of non-whitespace characters.
pub open spec fn words(s: Seq<char>) -> Seq<Seq<char>> {
    let (done, cur) = word_scan(s);
    if cur.len() > 0 {
        done.push(cur)
    } else {
        done
    }
}

pub open spec fn is_word(w: Seq<char>) -> bool {
    w.len() > 0 && forall|i: int| 0 <= i < w.len() ==> !is_ws(#[trigger] w[i])
}

pub proof fn lemma_word_scan_words(s: Seq<char>)
    ensures
        forall|k: int| 0 <= k < word_scan(s).0.len() ==> is_word(#[trigger] word_scan(s).0[k]),
        forall|i: int| 0 <= i < word_scan(s).1.len() ==> !is_ws(#[trigger] word_scan(s).1[i]),
    decreases s.len(),
{
    if s.len() > 0 {
        lemma_word_scan_words(s.drop_last());
        let (d, c) = word_scan(s.drop_last());
        let ch = s.last();
        if is_ws(ch) {
            if c.len() > 0 {
                assert(is_word(c));
                assert(word_scan(s).0 == d.push(c));
                assert forall|k: int| 0 <= k < word_scan(s).0.len() implies is_word(
                    #[trigger] word_scan(s).0[k],
                ) by {
                    if k < d.len() {
                        assert(word_scan(s).0[k] == d[k]);
                    }
                }
            }
        } else {
            assert(word_scan(s).1 == c.push(ch));
            assert forall|i: int| 0 <= i < word_scan(s).1.len() implies !is_ws(
                #[trigger] word_scan(s).1[i],
            ) by {
                if i < c.len() {
                    assert(word_scan(s).1[i] == c[i]);
                }
            }
        }
    }
}

pub proof fn lemma_words_are_words(s: Seq<char>)
    ensures
        forall|k: int| 0 <= k < words(s).len() ==> is_word(#[trigger] words(s)[k]),
{
    lemma_word_scan_words(s);
}

pub fn split_ws(v: &Vec<char>) -> (out: Vec<Vec<char>>)
    ensures
        views(out@) == words(v@),
{
    let mut done: Vec<Vec<char>> = Vec::new();
    let mut cur: Vec<char> = Vec::new();
    let mut i: usize = 0;
    while i < v.len()
        invariant
            i <= v.len(),
            (views(done@), cur@) == word_scan(v@.take(i as int)),
        decreases v.len() - i,
    {
        let c = v[i];
        assert(v@.take(i + 1).drop_last() =~= v@.take(i as int));
        if is_whitespace(c) {
            if cur.len() > 0 {
                let w = cur;
                done.push(w);
                cur = Vec::new();
                assert(views(done@) =~= word_scan(v@.take(i as int)).0.push(w@));
            }
        } else {
            cur.push(c);
        }
        i = i + 1;
    }
    assert(v@.take(v.len() as int) =~= v@);
    if cur.len() > 0 {
        let ghost d = views(done@);
        done.push(cur);
        assert(views(done@) =~= d.push(cur@));
    }
    done
}

pub fn split_ws_str(s: &str) -> (out: Vec<Vec<char>>)
    ensures
        views(out@) == words(s@),
{
    let v = chars_of(s);
    split_ws(&v)
}

/// Words joined by single spaces.
pub open spec fn join_words(ws: Seq<Seq<char>>, sep: Seq<char>) -> Seq<char>
    decreases ws.len(),
{
    if ws.len() == 0 {
        Seq::empty()
    } else if ws.len() == 1 {
        ws[0]
    } else {
        join_words(ws.drop_last(), sep) + sep + ws.last()
    }
}

pub fn join_chars(ws: &Vec<Vec<char>>, sep: &Vec<char>) -> (out: Vec<char>)
    ensures
        out@ == join_words(views(ws@), sep@),
{
    let mut out: Vec<char> = Vec::new();
    let mut i: usize = 0;
    while i < ws.len()
        invariant
            i <= ws.len(),
            out@ == join_words(views(ws@).take(i as int), sep@),
        decreases ws.len() - i,
    {
        assert(views(ws@).take(i + 1).drop_last() =~= views(ws@).take(i as int));
        if i > 0 {
            append_chars(&mut out, sep);
        }
        append_chars(&mut out, &ws[i]);
        i = i + 1;
    }
    assert(views(ws@).take(ws.len() as int) =~= views(ws@));
    out
}

// ---------------------------------------------------------------------------
// Searching.
pub open spec fn occurs_at(hay: Seq<char>, needle: Seq<char>, i: int) -> bool {
    0 <= i && i + needle.len() <= hay.len() && hay.subrange(i, i + needle.len()) == needle
}

/// `str::contains` with a string pattern.
pub open spec fn contains(hay: Seq<char>, needle: Seq<char>) -> bool {
    exists|i: int| occurs_at(hay, needle, i)
}

pub open spec fn starts_with(s: Seq<char>, p: Seq<char>) -> bool {
    p.len() <= s.len() && s.take(p.len() as int) == p
}

pub open spec fn ends_with(s: Seq<char>, p: Seq<char>) -> bool {
    p.len() <= s.len() && s.skip(s.len() - p.len()) == p
}

pub fn occurs_at_exec(hay: &Vec<char>, needle: &Vec<char>, i: usize) -> (r: bool)
    ensures
        r == occurs_at(hay@, needle@, i as int),
{
    if i > hay.len() || needle.len() > hay.len() - i {
        return false;
    }
    let mut j: usize = 0;
    while j < needle.len()
        invariant
            i + needle.len() <= hay.len(),
            j <= needle.len(),
            forall|k: int| 0 <= k < j ==> hay@[i + k] == needle@[k],
        decreases needle.len() - j,
    {
        if hay[i + j] != needle[j] {
            assert(hay@.subrange(i as int, i + needle.len())[j as int] != needle@[j as int]);
            return false;
        }
        j = j + 1;
    }
    assert(hay@.subrange(i as int, i + needle.len()) =~= needle@);
    true
}

/// Index of the first occurrence (`str::find`).
#[verifier::opaque]
pub open spec fn first_occurrence(hay: Seq<char>, needle: Seq<char>) -> Option<int> {
    if contains(hay, needle) {
        Some(choose|i: int| occurs_at(hay, needle, i) && forall|j: int| 0 <= j < i ==> !occurs_at(hay, needle, j))
    } else {
        None
    }
}

/// Index of the last occurrence (`str::rfind`).
#[verifier::opaque]
pub open spec fn last_occurrence(hay: Seq<char>, needle: Seq<char>) -> Option<int> {
    if contains(hay, needle) {
        Some(choose|i: int| occurs_at(hay, needle, i) && forall|j: int| i < j ==> !occurs_at(hay, needle, j))
    } else {
        None
    }
}

pub fn find(hay: &Vec<char>, needle: &Vec<char>) -> (r: Option<usize>)
    ensures
        r matches Some(i) ==> first_occurrence(hay@, needle@) == Some(i as int),
        r matches Some(i) ==> occurs_at(hay@, needle@, i as int),
        r is None ==> first_occurrence(hay@, needle@) is None,
{
    let mut i: usize = 0;
    loop
        invariant
            i <= hay.len(),
            forall|j: int| 0 <= j < i ==> !occurs_at(hay@, needle@, j),
        decreases hay.len() - i,
    {
        if occurs_at_exec(hay, needle, i) {
            proof {
                reveal(first_occurrence);
                let w = choose|k: int| occurs_at(hay@, needle@, k) && forall|j: int| 0 <= j < k ==> !occurs_at(hay@, needle@, j);
                assert(occurs_at(hay@, needle@, i as int) && forall|j: int| 0 <= j < i ==> !occurs_at(hay@, needle@, j));
                if w < i {
                } else if w > i {
                }
            }
            return Some(i);
        }
        if i == hay.len() {
            proof {
                reveal(first_occurrence);
                assert forall|j: int| !occurs_at(hay@, needle@, j) by {
                    if occurs_at(hay@, needle@, j) {
                        assert(j <= hay.len());
                    }
                }
            }
            return None;
        }
        i = i + 1;
    }
}

pub fn rfind(hay: &Vec<char>, needle: &Vec<char>) -> (r: Option<usize>)
    ensures
        r matches Some(i) ==> last_occurrence(hay@, needle@) == Some(i as int),
        r matches Some(i) ==> occurs_at(hay@, needle@, i as int),
        r is None ==> last_occurrence(hay@, needle@) is None,
{
    let mut i: usize = hay.len();
    loop
        invariant
            i <= hay.len(),
            forall|j: int| i < j ==> !occurs_at(hay@, needle@, j),
        decreases i,
    {
        if occurs_at_exec(hay, needle, i) {
            proof {
                reveal(last_occurrence);
                let w = choose|m: int| occurs_at(hay@, needle@, m) && forall|j: int| m < j ==> !occurs_at(hay@, needle@, j);
                assert(occurs_at(hay@, needle@, i as int) && forall|j: int| i < j ==> !occurs_at(hay@, needle@, j));
            }
            return Some(i);
        }
        if i == 0 {
            proof {
                reveal(last_occurrence);
                assert forall|j: int| !occurs_at(hay@, needle@, j) by {
                    if occurs_at(hay@, needle@, j) {
                        assert(0 <= j);
                    }
                }
            }
            return None;
        }
        i = i - 1;
    }
}

pub fn contains_exec(hay: &Vec<char>, needle: &Vec<char>) -> (r: bool)
    ensures
        r == contains(hay@, needle@),
{
    reveal(first_occurrence);
    match find(hay, needle) {
        Some(_) => true,
        None => false,
    }
}

pub fn contains_str(hay: &Vec<char>, needle: &str) -> (r: bool)
    ensures
        r == contains(hay@, needle@),
{
    let n = chars_of(needle);
    contains_exec(hay, &n)
}

pub fn starts_with_exec(s: &Vec<char>, p: &Vec<char>) -> (r: bool)
    ensures
        r == starts_with(s@, p@),
{
    let r = occurs_at_exec(s, p, 0);
    assert(s@.subrange(0, p@.len() as int) =~= s@.take(p@.len() as int));
    r
}

pub fn starts_with_str(s: &Vec<char>, p: &str) -> (r: bool)
    ensures
        r == starts_with(s@, p@),
{
    let pv = chars_of(p);
    starts_with_exec(s, &pv)
}

pub fn ends_with_exec(s: &Vec<char>, p: &Vec<char>) -> (r: bool)
    ensures
        r == ends_with(s@, p@),
{
    if p.len() > s.len() {
        return false;
    }
    let r = occurs_at_exec(s, p, s.len() - p.len());
    assert(s@.subrange(s.len() - p.len(), s.len() as int) =~= s@.skip(s.len() - p.len()));
    r
}

pub fn ends_with_str(s: &Vec<char>, p: &str) -> (r: bool)
    ensures
        r == ends_with(s@, p@),
{
    let pv = chars_of(p);
    ends_with_exec(s, &pv)
}

// ---------------------------------------------------------------------------
// Replacing (`str::replace`, non-overlapping, left to right).
pub open spec fn replace(s: Seq<char>, from: Seq<char>, to: Seq<char>) -> Seq<char>
    decreases s.len(),
{
    if s.len() == 0 || from.len() == 0 {
        s
    } else if starts_with(s, from) {
        to + replace(s.skip(from.len() as int), from, to)
    } else {
        seq![s[0]] + replace(s.drop_first(), from, to)
    }
}

pub fn replace_chars(v: &Vec<char>, from: &Vec<char>, to: &Vec<char>) -> (out: Vec<char>)
    requires
        from.len() > 0,
    ensures
        out@ == replace(v@, from@, to@),
{
    let mut out: Vec<char> = Vec::new();
    let mut i: usize = 0;
    assert(v@.skip(0) =~= v@);
    assert(out@ + replace(v@, from@, to@) =~= replace(v@, from@, to@));
    while i < v.len()
        invariant
            i <= v.len(),
            from@.len() > 0,
            replace(v@, from@, to@) == out@ + replace(v@.skip(i as int), from@, to@),
        decreases v.len() - i,
    {
        let ghost rest = v@.skip(i as int);
        if occurs_at_exec(v, from, i) {
            assert(rest.take(from@.len() as int) =~= v@.subrange(i as int, i + from.len()));
            assert(rest.skip(from@.len() as int) =~= v@.skip(i + from.len()));
            append_chars(&mut out, to);
            i = i + from.len();
        } else {
            assert(!starts_with(rest, from@)) by {
                if starts_with(rest, from@) {
                    assert(rest.take(from@.len() as int) =~= v@.subrange(i as int, i + from@.len()));
                }
            }
            assert(rest.drop_first() =~= v@.skip(i + 1));
            out.push(v[i]);
            assert(seq![v@[i as int]] + replace(rest.drop_first(), from@, to@) == replace(rest, from@, to@));
            i = i + 1;
        }
    }
    assert(v@.skip(i as int).len() == 0);
    assert(out@ + Seq::<char>::empty() =~= out@);
    out
}

// ---------------------------------------------------------------------------
// Splitting on a single character (`str::split` / `str::lines`).
pub open spec fn split_on(s: Seq<char>, d: char) -> Seq<Seq<char>>
    decreases s.len(),
{
    if s.len() == 0 {
        seq![Seq::empty()]
    } else {
        let p = split_on(s.drop_last(), d);
        if s.last() == d {
            p.push(Seq::empty())
        } else {
            p.update(p.len() - 1, p.last().push(s.last()))
        }
    }
}

pub proof fn lemma_split_on_nonempty(s: Seq<char>, d: char)
    ensures
        split_on(s, d).len() >= 1,
    decreases s.len(),
{
    if s.len() > 0 {
        lemma_split_on_nonempty(s.drop_last(), d);
    }
}

pub fn split_on_char(v: &Vec<char>, d: char) -> (out: Vec<Vec<char>>)
    ensures
        views(out@) == split_on(v@, d),
        out.len() >= 1,
{
    let mut done: Vec<Vec<char>> = Vec::new();
    let mut cur: Vec<char> = Vec::new();
    let mut i: usize = 0;
    proof {
        assert(v@.take(0) =~= Seq::<char>::empty());
        assert(views(done@).push(cur@) =~= seq![Seq::<char>::empty()]);
    }
    while i < v.len()
        invariant
            i <= v.len(),
            views(done@).push(cur@) == split_on(v@.take(i as int), d),
        decreases v.len() - i,
    {
        let c = v[i];
        assert(v@.take(i + 1).drop_last() =~= v@.take(i as int));
        proof {
            lemma_split_on_nonempty(v@.take(i as int), d);
        }
        if c == d {
            let ghost dd = views(done@);
            let w = cur;
            done.push(w);
            cur = Vec::new();
            assert(views(done@) =~= dd.push(w@));
            assert(views(done@).push(cur@) =~= dd.push(w@).push(Seq::<char>::empty()));
        } else {
            let ghost dd = views(done@);
            let ghost old_cur = cur@;
            cur.push(c);
            assert(views(done@).push(cur@) =~= dd.push(old_cur).update(
                dd.len() as int,
                old_cur.push(c),
            ));
        }
        i = i + 1;
    }
    assert(v@.take(v.len() as int) =~= v@);
    let ghost dd = views(done@);
    done.push(cur);
    assert(views(done@) =~= dd.push(cur@));
    done
}

/// Strips one trailing `'\r'`.
pub open spec fn strip_cr(s: Seq<char>) -> Seq<char> {
    if s.len() > 0 && s.last() == '\r' {
        s.drop_last()
    } else {
        s
    }
}

/// `str::lines`: split at `"\n"` (a `"\r"` right before it is dropped), no
/// trailing empty line.
pub open spec fn lines(s: Seq<char>) -> Seq<Seq<char>> {
    let p = split_on(s, '\n');
    let body = p.drop_last().map_values(|l: Seq<char>| strip_cr(l));
    if p.last().len() > 0 {
        body.push(p.last())
    } else {
        body
    }
}

pub fn strip_cr_exec(v: Vec<char>) -> (out: Vec<char>)
    ensures
        out@ == strip_cr(v@),
{
    let mut v = v;
    if v.len() > 0 && v[v.len() - 1] == '\r' {
        v.pop();
    }
    v
}

pub fn lines_of(v: &Vec<char>) -> (out: Vec<Vec<char>>)
    ensures
        views(out@) == lines(v@),
{
    let pieces = split_on_char(v, '\n');
    let n = pieces.len();
    let mut out: Vec<Vec<char>> = Vec::new();
    let mut i: usize = 0;
    while i + 1 < n
        invariant
            n == pieces.len(),
            n >= 1,
            i + 1 <= n,
            views(out@) == views(pieces@).take(i as int).map_values(
                |l: Seq<char>| strip_cr(l),
            ),
        decreases n - i,
    {
        let p = copy_range(&pieces[i], 0, pieces[i].len());
        assert(pieces[i as int]@.subrange(0, pieces[i as int]@.len() as int) =~= pieces[i as int]@);
        let q = strip_cr_exec(p);
        let ghost od = views(out@);
        assert(views(pieces@)[i as int] == pieces@[i as int]@);
        out.push(q);
        assert(views(out@) =~= od.push(q@));
        assert(views(out@) =~= views(pieces@).take(i + 1).map_values(
            |l: Seq<char>| strip_cr(l),
        ));
        i = i + 1;
    }
    assert(views(pieces@).take(i as int) =~= views(pieces@).drop_last());
    let last = copy_range(&pieces[n - 1], 0, pieces[n - 1].len());
    assert(pieces[n - 1]@.subrange(0, pieces[n - 1]@.len() as int) =~= pieces[n - 1]@);
    if last.len() > 0 {
        let ghost od = views(out@);
        out.push(last);
        assert(views(out@) =~= od.push(last@));
    }
    out
}

} // verus!

verus! {

proof fn lemma_word_scan_append_word(p: Seq<char>, w: Seq<char>)
    requires
        word_scan(p).1.len() == 0,
        forall|i: int| 0 <= i < w.len() ==> !is_ws(#[trigger] w[i]),
    ensures
        word_scan(p + w) == (word_scan(p).0, w),
    decreases w.len(),
{
    if w.len() == 0 {
        assert(p + w =~= p);
    } else {
        assert((p + w).drop_last() =~= p + w.drop_last());
        lemma_word_scan_append_word(p, w.drop_last());
        assert((p + w).last() == w.last());
        assert(w.drop_last().push(w.last()) =~= w);
    }
}

/// Splitting words joined by single spaces gives the words back.
pub proof fn lemma_words_join(ws: Seq<Seq<char>>)
    requires
        forall|k: int| 0 <= k < ws.len() ==> is_word(#[trigger] ws[k]),
    ensures
        words(join_words(ws, seq![' '])) == ws,
    decreases ws.len(),
{
    if ws.len() == 0 {
        assert(word_scan(Seq::<char>::empty()) == (Seq::<Seq<char>>::empty(), Seq::<char>::empty()));
        assert(words(Seq::<char>::empty()) =~= ws);
    } else if ws.len() == 1 {
        let w = ws[0];
        assert(word_scan(Seq::<char>::empty()).1.len() == 0);
        lemma_word_scan_append_word(Seq::<char>::empty(), w);
        assert(Seq::<char>::empty() + w =~= w);
        assert(words(w) =~= seq![w]);
        assert(ws =~= seq![w]);
    } else {
        let init = ws.drop_last();
        let w = ws.last();
        assert forall|k: int| 0 <= k < init.len() implies is_word(#[trigger] init[k]) by {
            assert(init[k] == ws[k]);
        }
        lemma_words_join(init);
        let x = join_words(init, seq![' ']);
        let xs = x + seq![' '];
        assert(xs.drop_last() =~= x);
        assert(is_ws(xs.last()));
        assert(word_scan(xs) == (words(x), Seq::<char>::empty()));
        assert(is_word(ws[ws.len() - 1]));
        lemma_word_scan_append_word(xs, w);
        assert(join_words(ws, seq![' ']) == xs + w);
        assert(words(xs + w) == words(x).push(w));
        assert(init.push(w) =~= ws);
    }
}

/// Collapsing whitespace twice is collapsing it once.
pub proof fn lemma_collapse_idempotent(s: Seq<char>)
    ensures
        join_words(words(join_words(words(s), seq![' '])), seq![' ']) == join_words(
            words(s),
            seq![' '],
        ),
{
    lemma_words_are_words(s);
    lemma_words_join(words(s));
}

} // verus!

verus! {

pub open spec fn no_char(s: Seq<char>, d: char) -> bool {
    forall|i: int| 0 <= i < s.len() ==> s[i] != d
}

pub proof fn lemma_split_on_no_delim(a: Seq<char>, d: char)
    requires
        no_char(a, d),
    ensures
        split_on(a, d) == seq![a],
    decreases a.len(),
{
    if a.len() > 0 {
        assert(no_char(a.drop_last(), d));
        lemma_split_on_no_delim(a.drop_last(), d);
        assert(a.last() != d);
        assert(a.drop_last().push(a.last()) =~= a);
        assert(seq![a.drop_last()].update(0, a.drop_last().push(a.last())) =~= seq![a]);
    } else {
        assert(a =~= Seq::<char>::empty());
    }
}

pub proof fn lemma_split_on_concat(a: Seq<char>, b: Seq<char>, d: char)
    requires
        no_char(a, d),
    ensures
        split_on(a + seq![d] + b, d) == seq![a] + split_on(b, d),
    decreases b.len(),
{
    let x = a + seq![d];
    if b.len() == 0 {
        assert(x + b =~= x);
        assert(x.drop_last() =~= a);
        lemma_split_on_no_delim(a, d);
        assert(seq![a].push(Seq::<char>::empty()) =~= seq![a] + seq![Seq::<char>::empty()]);
    } else {
        assert((x + b).drop_last() =~= x + b.drop_last());
        lemma_split_on_concat(a, b.drop_last(), d);
        lemma_split_on_nonempty(b.drop_last(), d);
        let q = split_on(b.drop_last(), d);
        let p = seq![a] + q;
        assert((x + b).last() == b.last());
        if b.last() == d {
            assert(p.push(Seq::<char>::empty()) =~= seq![a] + q.push(Seq::<char>::empty()));
        } else {
            assert(p.last() == q.last());
            assert(p.update(p.len() - 1, p.last().push(b.last())) =~= seq![a] + q.update(
                q.len() - 1,
                q.last().push(b.last()),
            ));
        }
    }
}

pub proof fn lemma_lines_cons(a: Seq<char>, b: Seq<char>)
    requires
        no_char(a, '\n'),
    ensures
        lines(a + seq!['\n'] + b) == seq![strip_cr(a)] + lines(b),
{
    lemma_split_on_concat(a, b, '\n');
    lemma_split_on_nonempty(b, '\n');
    let q = split_on(b, '\n');
    let p = seq![a] + q;
    assert(p.drop_last() =~= seq![a] + q.drop_last());
    assert(p.last() == q.last());
    let f = |l: Seq<char>| strip_cr(l);
    assert(p.drop_last().map_values(f) =~= seq![strip_cr(a)] + q.drop_last().map_values(f));
    if q.last().len() > 0 {
        assert((seq![strip_cr(a)] + q.drop_last().map_values(f)).push(q.last()) =~= seq![
            strip_cr(a),
        ] + q.drop_last().map_values(f).push(q.last()));
    }
}

/// Lines, each followed by `'\n'`.
pub open spec fn unlines(ls: Seq<Seq<char>>) -> Seq<char>
    decreases ls.len(),
{
    if ls.len() == 0 {
        Seq::empty()
    } else {
        unlines(ls.drop_last()) + ls.last() + seq!['\n']
    }
}

pub proof fn lemma_unlines_cons(a: Seq<char>, rest: Seq<Seq<char>>)
    ensures
        unlines(seq![a] + rest) == a + seq!['\n'] + unlines(rest),
    decreases rest.len(),
{
    if rest.len() == 0 {
        assert(seq![a] + rest =~= seq![a]);
        assert(seq![a].drop_last() =~= Seq::<Seq<char>>::empty());
        assert(unlines(seq![a]) == unlines(Seq::<Seq<char>>::empty()) + a + seq!['\n']);
        assert(unlines(rest) == Seq::<char>::empty());
        assert(a + seq!['\n'] + Seq::<char>::empty() =~= Seq::<char>::empty() + a + seq!['\n']);
    } else {
        assert((seq![a] + rest).drop_last() =~= seq![a] + rest.drop_last());
        lemma_unlines_cons(a, rest.drop_last());
        assert((seq![a] + rest).last() == rest.last());
        assert(a + seq!['\n'] + unlines(rest.drop_last()) + rest.last() + seq!['\n'] =~= a
            + seq!['\n'] + (unlines(rest.drop_last()) + rest.last() + seq!['\n']));
    }
}

pub fn unlines_exec(ls: &Vec<Vec<char>>) -> (out: Vec<char>)
    ensures
        out@ == unlines(views(ls@)),
{
    let mut out: Vec<char> = Vec::new();
    let mut i: usize = 0;
    while i < ls.len()
        invariant
            i <= ls.len(),
            out@ == unlines(views(ls@).take(i as int)),
        decreases ls.len() - i,
    {
        assert(views(ls@).take(i + 1).drop_last() =~= views(ls@).take(i as int));
        append_chars(&mut out, &ls[i]);
        out.push('\n');
        i = i + 1;
    }
    assert(views(ls@).take(ls.len() as int) =~= views(ls@));
    out
}

pub proof fn lemma_lines_unlines(ls: Seq<Seq<char>>)
    requires
        forall|k: int| 0 <= k < ls.len() ==> no_char(#[trigger] ls[k], '\n'),
    ensures
        lines(unlines(ls)) == ls.map_values(|l: Seq<char>| strip_cr(l)),
    decreases ls.len(),
{
    let f = |l: Seq<char>| strip_cr(l);
    if ls.len() == 0 {
        assert(split_on(Seq::<char>::empty(), '\n') == seq![Seq::<char>::empty()]);
        assert(lines(Seq::<char>::empty()) =~= ls.map_values(f));
    } else {
        let rest = ls.drop_first();
        assert forall|k: int| 0 <= k < rest.len() implies no_char(#[trigger] rest[k], '\n') by {
            assert(rest[k] == ls[k + 1]);
        }
        lemma_lines_unlines(rest);
        assert(no_char(ls[0], '\n'));
        lemma_lines_cons(ls[0], unlines(rest));
        assert(seq![ls[0]] + rest =~= ls);
        lemma_unlines_cons(ls[0], rest);
        assert(ls.map_values(f) =~= seq![strip_cr(ls[0])] + rest.map_values(f));
    }
}

pub proof fn lemma_trim_id(s: Seq<char>)
    requires
        s.len() > 0,
        !is_ws(s[0]),
        !is_ws(s.last()),
    ensures
        trim(s) == s,
{
}

pub proof fn lemma_trim_end_first(s: Seq<char>)
    requires
        s.len() > 0,
        !is_ws(s[0]),
    ensures
        trim_end(s).len() > 0,
        trim_end(s)[0] == s[0],
    decreases s.len(),
{
    if is_ws(s.last()) {
        assert(s.len() > 1);
        assert(s.drop_last()[0] == s[0]);
        lemma_trim_end_first(s.drop_last());
    }
}

pub proof fn lemma_trim_first(s: Seq<char>)
    requires
        s.len() > 0,
        !is_ws(s[0]),
    ensures
        trim(s).len() > 0,
        trim(s)[0] == s[0],
{
    lemma_trim_end_first(s);
}

proof fn lemma_trim_start_head(s: Seq<char>)
    ensures
        trim_start(s).len() > 0 ==> !is_ws(trim_start(s)[0]),
    decreases s.len(),
{
    if s.len() > 0 && is_ws(s[0]) {
        lemma_trim_start_head(s.drop_first());
    }
}

proof fn lemma_trim_end_prefix(s: Seq<char>)
    ensures
        trim_end(s).len() <= s.len(),
        trim_end(s) =~= s.take(trim_end(s).len() as int),
        trim_end(s).len() > 0 ==> !is_ws(trim_end(s).last()),
    decreases s.len(),
{
    if s.len() > 0 && is_ws(s.last()) {
        lemma_trim_end_prefix(s.drop_last());
        let k = trim_end(s).len() as int;
        assert(s.drop_last().take(k) =~= s.take(k));
    } else {
        assert(s.take(s.len() as int) =~= s);
    }
}

/// The first and last characters of a trimmed string are not whitespace, and
/// trimming it again changes nothing.
pub proof fn lemma_trim_ends(s: Seq<char>)
    ensures
        trim(s).len() > 0 ==> !is_ws(trim(s)[0]) && !is_ws(trim(s).last()),
        trim(trim(s)) == trim(s),
{
    lemma_trim_start_head(s);
    lemma_trim_end_prefix(trim_start(s));
    if trim(s).len() > 0 {
        assert(trim(s)[0] == trim_start(s)[0]);
        lemma_trim_id(trim(s));
    }
}

/// Trimming a trimmed string with a whitespace character appended gives it back.
pub proof fn lemma_trim_push_ws(t: Seq<char>, c: char)
    requires
        trim(t) == t,
        is_ws(c),
    ensures
        trim(t.push(c)) == t,
{
    lemma_trim_ends(t);
    let u = t.push(c);
    assert(u.drop_last() =~= t);
    if t.len() == 0 {
        assert(u.drop_first() =~= Seq::<char>::empty());
        assert(trim_start(u) == trim_start(u.drop_first()));
    } else {
        assert(u[0] == t[0]);
        assert(trim_start(u) == u);
        assert(trim_end(u) == trim_end(t));
    }
}

// ---------------------------------------------------------------------------
// Splitting on a string pattern, and leading digits.
/// The pieces of `cur + s` between the occurrences of `d`, found left to right
/// without overlap.
pub open spec fn split_from(s: Seq<char>, d: Seq<char>, cur: Seq<char>) -> Seq<Seq<char>>
    decreases s.len(),
{
    if d.len() == 0 {
        seq![cur + s]
    } else if s.len() == 0 {
        seq![cur]
    } else if starts_with(s, d) {
        seq![cur] + split_from(s.skip(d.len() as int), d, Seq::empty())
    } else {
        split_from(s.drop_first(), d, cur.push(s[0]))
    }
}

/// `str::split` with a string pattern.
pub open spec fn split_str(s: Seq<char>, d: Seq<char>) -> Seq<Seq<char>> {
    split_from(s, d, Seq::empty())
}

pub fn split_on_str(v: &Vec<char>, d: &Vec<char>) -> (out: Vec<Vec<char>>)
    requires
        d.len() > 0,
    ensures
        views(out@) == split_str(v@, d@),
{
    let mut done: Vec<Vec<char>> = Vec::new();
    let mut cur: Vec<char> = Vec::new();
    let mut i: usize = 0;
    assert(v@.skip(0) =~= v@);
    assert(views(done@) + split_from(v@, d@, cur@) =~= split_str(v@, d@));
    while i < v.len()
        invariant
            i <= v.len(),
            d@.len() > 0,
            split_str(v@, d@) == views(done@) + split_from(v@.skip(i as int), d@, cur@),
        decreases v.len() - i,
    {
        let ghost rest = v@.skip(i as int);
        if occurs_at_exec(v, d, i) {
            assert(rest.take(d@.len() as int) =~= v@.subrange(i as int, i + d.len()));
            assert(rest.skip(d@.len() as int) =~= v@.skip(i + d.len()));
            let ghost od = views(done@);
            let w = cur;
            done.push(w);
            cur = Vec::new();
            assert(views(done@) =~= od.push(w@));
            assert(od + (seq![w@] + split_from(v@.skip(i + d.len()), d@, cur@)) =~= views(done@)
                + split_from(v@.skip(i + d.len()), d@, cur@));
            i = i + d.len();
        } else {
            assert(!starts_with(rest, d@)) by {
                if starts_with(rest, d@) {
                    assert(rest.take(d@.len() as int) =~= v@.subrange(i as int, i + d@.len()));
                }
            }
            assert(rest.drop_first() =~= v@.skip(i + 1));
            cur.push(v[i]);
            i = i + 1;
        }
    }
    assert(v@.skip(i as int).len() == 0);
    let ghost od = views(done@);
    done.push(cur);
    assert(views(done@) =~= od.push(cur@));
    assert(od + seq![cur@] =~= od.push(cur@));
    done
}

/// The ASCII digits at the start of `s` (`take_while(char::is_ascii_digit)`).
pub open spec fn leading_digits(s: Seq<char>) -> Seq<char>
    decreases s.len(),
{
    if s.len() > 0 && is_digit(s[0]) {
        seq![s[0]] + leading_digits(s.drop_first())
    } else {
        Seq::empty()
    }
}

pub fn leading_digits_exec(v: &Vec<char>) -> (out: Vec<char>)
    ensures
        out@ == leading_digits(v@),
{
    let mut i: usize = 0;
    assert(v@.skip(0) =~= v@);
    while i < v.len() && '0' <= v[i] && v[i] <= '9'
        invariant
            i <= v.len(),
            leading_digits(v@) == v@.take(i as int) + leading_digits(v@.skip(i as int)),
        decreases v.len() - i,
    {
        let ghost rest = v@.skip(i as int);
        assert(rest.drop_first() =~= v@.skip(i + 1));
        assert(v@.take(i as int) + (seq![v@[i as int]] + leading_digits(v@.skip(i + 1))) =~= v@.take(
            i + 1,
        ) + leading_digits(v@.skip(i + 1)));
        i = i + 1;
    }
    assert(v@.take(i as int) + Seq::<char>::empty() =~= v@.take(i as int));
    copy_range(v, 0, i)
}

/// `str::rsplit_once` with a character: the text before and after its last
/// occurrence.
pub open spec fn rsplit_once(s: Seq<char>, c: char) -> Option<(Seq<char>, Seq<char>)> {
    match last_occurrence(s, seq![c]) {
        Some(k) => Some((s.take(k), s.skip(k + 1))),
        None => None,
    }
}

/// `str::split_once` with a character: the text before and after its first
/// occurrence.
pub open spec fn split_once(s: Seq<char>, c: char) -> Option<(Seq<char>, Seq<char>)> {
    match first_occurrence(s, seq![c]) {
        Some(k) => Some((s.take(k), s.skip(k + 1))),
        None => None,
    }
}

pub open spec fn pair_views(r: Option<(Vec<char>, Vec<char>)>) -> Option<(Seq<char>, Seq<char>)> {
    match r {
        Some((a, b)) => Some((a@, b@)),
        None => None,
    }
}

pub fn rsplit_once_char(v: &Vec<char>, c: char) -> (r: Option<(Vec<char>, Vec<char>)>)
    ensures
        pair_views(r) == rsplit_once(v@, c),
{
    let d = vec![c];
    assert(d@ =~= seq![c]);
    match rfind(v, &d) {
        None => None,
        Some(k) => {
            assert(occurs_at(v@, d@, k as int));
            assert(k < v.len());
            let a = copy_range(v, 0, k);
            let b = copy_range(v, k + 1, v.len());
            assert(a@ =~= v@.take(k as int));
            assert(b@ =~= v@.skip(k + 1));
            Some((a, b))
        },
    }
}

pub fn split_once_char(v: &Vec<char>, c: char) -> (r: Option<(Vec<char>, Vec<char>)>)
    ensures
        pair_views(r) == split_once(v@, c),
{
    let d = vec![c];
    assert(d@ =~= seq![c]);
    match find(v, &d) {
        None => None,
        Some(k) => {
            assert(occurs_at(v@, d@, k as int));
            assert(k < v.len());
            let a = copy_range(v, 0, k);
            let b = copy_range(v, k + 1, v.len());
            assert(a@ =~= v@.take(k as int));
            assert(b@ =~= v@.skip(k + 1));
            Some((a, b))
        },
    }
}

} // verus!
