//! The rows of the tunnel list: saved setups and ssh processes found running,
//! their text, filtering, and scrolling.
use vstd::prelude::*;
use crate::casefold::{lower_chars, lowercase};
use crate::config::{collapse_ws_spec, forward_summary_spec, Config};
use crate::detect::DetectedTunnel;
use crate::num::int_text;
use crate::text::{chars_of, contains, contains_exec, string_of, string_views, trim, trim_str, views, words};

verus! {

/// A row of the list.
#[derive(Debug, Clone)]
pub enum Row {
    /// A saved setup, whether ssh listens on its port, and whether it failed.
    Known { config: Config, listening: bool, failed: bool },
    /// An ssh process this app did not start.
    Detected(DetectedTunnel),
}

/// `on`, `err` or `off`.
pub open spec fn state_word(listening: bool, failed: bool) -> Seq<char> {
    if listening {
        "on"@
    } else if failed {
        "err"@
    } else {
        "off"@
    }
}

fn known_state(listening: bool, failed: bool) -> (r: &'static str)
    ensures
        r@ == state_word(listening, failed),
{
    if listening {
        "on"
    } else if failed {
        "err"
    } else {
        "off"
    }
}

impl Row {
    /// The key that identifies a row across refreshes.
    pub open spec fn key_spec(&self) -> Seq<char> {
        match self {
            Row::Known { config, .. } => "k:"@ + config.name@,
            Row::Detected(d) => "d:"@ + int_text(d.pid as int),
        }
    }

    /// Lines a row takes: three for a setup with a comment, else two.
    pub open spec fn height_spec(&self) -> int {
        match self {
            Row::Known { config, .. } => if collapse_ws_spec(config.comment@).len() > 0 {
                3
            } else {
                2
            },
            Row::Detected(_) => 2,
        }
    }

    pub open spec fn title_spec(&self) -> Seq<char> {
        match self {
            Row::Known { config, listening, failed } => "["@ + state_word(*listening, *failed) + "]  "@
                + config.name@,
            Row::Detected(d) => d.label@,
        }
    }

    /// The lines a row shows: the title, the comment (when there is one) and
    /// the forward (marked when a failed setup's ssh is not listening); for a
    /// found process its label and detail.
    pub open spec fn lines_spec(&self) -> Seq<Seq<char>> {
        match self {
            Row::Known { config, listening, failed } => {
                let c = collapse_ws_spec(config.comment@);
                let head: Seq<Seq<char>> = if c.len() > 0 {
                    seq![self.title_spec(), c]
                } else {
                    seq![self.title_spec()]
                };
                head.push(
                    if *failed && !*listening {
                        forward_summary_spec(config@) + "  \u{2014} ssh not listening"@
                    } else {
                        forward_summary_spec(config@)
                    },
                )
            },
            Row::Detected(d) => seq![d.label@, d.detail@],
        }
    }

    /// The text a filter searches.
    pub open spec fn haystack_spec(&self) -> Seq<char> {
        match self {
            Row::Known { config, .. } => self.title_spec() + " "@ + forward_summary_spec(config@) + " "@
                + collapse_ws_spec(config.comment@),
            Row::Detected(d) => d.label@ + " "@ + d.detail@ + " "@ + d.command@,
        }
    }

    /// Whether every word of the query (in lower case) occurs in the row's
    /// text (in lower case); a blank query matches every row.
    pub open spec fn matches_spec(&self, query: Seq<char>) -> bool {
        let q = lowercase(trim(query));
        q.len() == 0 || forall|i: int| 0 <= i < words(q).len() ==> contains(
            lowercase(self.haystack_spec()),
            #[trigger] words(q)[i],
        )
    }

    pub fn key(&self) -> (r: String)
        ensures
            r@ == self.key_spec(),
    {
        match self {
            Row::Known { config, .. } => {
                let mut s = String::from_str("k:");
                s.append(config.name.as_str());
                s
            },
            Row::Detected(d) => {
                let mut s = String::from_str("d:");
                let p = crate::num::i32_string(d.pid);
                s.append(p.as_str());
                s
            },
        }
    }

    pub fn height(&self) -> (r: u16)
        ensures
            r as int == self.height_spec(),
    {
        match self {
            Row::Known { config, .. } => {
                let c = config.comment_line();
                if !c.as_str().is_empty() {
                    3
                } else {
                    2
                }
            },
            Row::Detected(_) => 2,
        }
    }

    pub fn title(&self) -> (r: String)
        ensures
            r@ == self.title_spec(),
    {
        match self {
            Row::Known { config, listening, failed } => {
                let mut s = String::from_str("[");
                s.append(known_state(*listening, *failed));
                s.append("]  ");
                s.append(config.name.as_str());
                s
            },
            Row::Detected(d) => d.label.clone(),
        }
    }

    pub fn lines(&self) -> (r: Vec<String>)
        ensures
            string_views(r@) == self.lines_spec(),
    {
        match self {
            Row::Known { config, listening, failed } => {
                let mut v: Vec<String> = Vec::new();
                v.push(self.title());
                let c = config.comment_line();
                if !c.as_str().is_empty() {
                    v.push(c);
                }
                let mut f = config.forward_summary();
                if *failed && !*listening {
                    f.append("  \u{2014} ssh not listening");
                }
                v.push(f);
                assert(string_views(v@) =~= self.lines_spec());
                v
            },
            Row::Detected(d) => {
                let mut v: Vec<String> = Vec::new();
                v.push(d.label.clone());
                v.push(d.detail.clone());
                assert(string_views(v@) =~= self.lines_spec());
                v
            },
        }
    }

    pub fn haystack(&self) -> (r: String)
        ensures
            r@ == self.haystack_spec(),
    {
        match self {
            Row::Known { config, .. } => {
                let mut s = self.title();
                s.append(" ");
                let f = config.forward_summary();
                s.append(f.as_str());
                s.append(" ");
                let c = config.comment_line();
                s.append(c.as_str());
                s
            },
            Row::Detected(d) => {
                let mut s = d.label.clone();
                s.append(" ");
                s.append(d.detail.as_str());
                s.append(" ");
                s.append(d.command.as_str());
                s
            },
        }
    }

    pub fn matches(&self, query: &str) -> (b: bool)
        ensures
            b == self.matches_spec(query@),
    {
        let t = trim_str(query);
        let ts = string_of(t.as_slice());
        let q = lower_chars(ts.as_str());
        if q.len() == 0 {
            return true;
        }
        let hs = self.haystack();
        let hay = lower_chars(hs.as_str());
        let toks = crate::text::split_ws(&q);
        let mut i: usize = 0;
        while i < toks.len()
            invariant
                i <= toks.len(),
                views(toks@) == words(q@),
                q@ == lowercase(trim(query@)),
                q@.len() > 0,
                hay@ == lowercase(self.haystack_spec()),
                forall|k: int| 0 <= k < i ==> contains(hay@, #[trigger] words(q@)[k]),
            decreases toks.len() - i,
        {
            assert(views(toks@)[i as int] == toks@[i as int]@);
            if !contains_exec(&hay, &toks[i]) {
                assert(!contains(lowercase(self.haystack_spec()), words(q@)[i as int]));
                return false;
            }
            i = i + 1;
        }
        true
    }
}

// ---------------------------------------------------------------------------
// Heights and scrolling.
/// The lines the first `n` rows take.
pub open spec fn heights_upto(rows: Seq<Row>, n: int) -> int
    decreases n,
{
    if n <= 0 || rows.len() == 0 {
        0
    } else if n > rows.len() {
        heights_upto(rows, rows.len() as int)
    } else {
        heights_upto(rows, n - 1) + rows[n - 1].height_spec()
    }
}

pub open spec fn total_height_spec(rows: Seq<Row>) -> int {
    heights_upto(rows, rows.len() as int)
}

proof fn lemma_heights_mono(rows: Seq<Row>, i: int, j: int)
    requires
        0 <= i <= j <= rows.len(),
    ensures
        heights_upto(rows, i) <= heights_upto(rows, j),
        heights_upto(rows, i) >= 0,
    decreases j - i,
{
    if i < j {
        lemma_heights_mono(rows, i, j - 1);
        assert(rows[j - 1].height_spec() >= 2);
    } else {
        lemma_heights_nonneg(rows, i);
    }
}

proof fn lemma_heights_nonneg(rows: Seq<Row>, i: int)
    requires
        0 <= i <= rows.len(),
    ensures
        heights_upto(rows, i) >= 0,
    decreases i,
{
    if i > 0 {
        lemma_heights_nonneg(rows, i - 1);
    }
}

/// The number of lines all rows take.
pub fn total_height(rows: &Vec<Row>) -> (r: u16)
    requires
        total_height_spec(rows@) <= u16::MAX,
    ensures
        r as int == total_height_spec(rows@),
{
    offset_of(rows, rows.len())
}

/// The line at which row `index` starts (the total past the last row).
pub fn offset_of(rows: &Vec<Row>, index: usize) -> (r: u16)
    requires
        total_height_spec(rows@) <= u16::MAX,
    ensures
        r as int == heights_upto(rows@, index as int),
{
    let n = if index < rows.len() {
        index
    } else {
        rows.len()
    };
    let mut sum: u16 = 0;
    let mut i: usize = 0;
    while i < n
        invariant
            i <= n <= rows.len(),
            total_height_spec(rows@) <= u16::MAX,
            sum as int == heights_upto(rows@, i as int),
        decreases n - i,
    {
        proof {
            lemma_heights_mono(rows@, i + 1, rows.len() as int);
        }
        let h = rows[i].height();
        sum = sum + h;
        i = i + 1;
    }
    proof {
        if index as int > rows.len() {
            assert(heights_upto(rows@, index as int) == heights_upto(rows@, rows.len() as int));
        }
    }
    sum
}

/// `a - b`, or 0 when `b` is larger.
pub open spec fn sat_sub(a: int, b: int) -> int {
    if a > b {
        a - b
    } else {
        0
    }
}

/// The scroll offset after making the selected row visible in a view of
/// `area_h` lines: scrolled up to a row above, or down so that a row below
/// ends at the bottom, and never past the end of the list.
pub open spec fn ensure_visible_spec(rows: Seq<Row>, selected: int, area_h: int, scroll: int) -> int {
    if rows.len() == 0 || area_h == 0 {
        0
    } else {
        let sel = if selected < rows.len() - 1 {
            selected
        } else {
            rows.len() - 1
        };
        let start = heights_upto(rows, sel);
        let h = rows[sel].height_spec();
        let s1 = if start < scroll {
            start
        } else if start + h > scroll + area_h {
            sat_sub(start + h, area_h)
        } else {
            scroll
        };
        let max_scroll = sat_sub(total_height_spec(rows), area_h);
        if s1 > max_scroll {
            max_scroll
        } else {
            s1
        }
    }
}

/// The row `ensure_visible` keeps in view: the selected one, or the last row
/// when the selection is past the end.
pub open spec fn kept_row(n: int, selected: int) -> int {
    if selected < n - 1 {
        selected
    } else {
        n - 1
    }
}

pub fn ensure_visible(rows: &Vec<Row>, selected: usize, area_h: u16, scroll: &mut u16)
    requires
        total_height_spec(rows@) <= u16::MAX,
        rows.len() > 0 && area_h > 0 && heights_upto(rows@, kept_row(rows.len() as int, selected as int))
            >= *old(scroll) ==> *old(scroll) + area_h <= u16::MAX,
    ensures
        *final(scroll) as int == ensure_visible_spec(rows@, selected as int, area_h as int, *old(scroll) as int),
{
    if rows.len() == 0 || area_h == 0 {
        *scroll = 0;
        return;
    }
    let sel = if selected < rows.len() - 1 {
        selected
    } else {
        rows.len() - 1
    };
    let start = offset_of(rows, sel);
    let h = rows[sel].height();
    proof {
        lemma_heights_mono(rows@, sel + 1, rows.len() as int);
    }
    if start < *scroll {
        *scroll = start;
    } else if start + h > *scroll + area_h {
        *scroll = (start + h).saturating_sub(area_h);
    }
    let max_scroll = total_height(rows).saturating_sub(area_h);
    if *scroll > max_scroll {
        *scroll = max_scroll;
    }
}

/// When every row fits in the view, the selected row is wholly visible after
/// `ensure_visible`, and the view does not scroll past the end of the list.
pub proof fn lemma_selected_visible(rows: Seq<Row>, selected: int, area_h: int, scroll: int)
    requires
        rows.len() > 0,
        0 <= selected < rows.len(),
        area_h > 0,
        0 <= scroll,
        forall|i: int| 0 <= i < rows.len() ==> #[trigger] rows[i].height_spec() <= area_h,
    ensures
        ({
            let s = ensure_visible_spec(rows, selected, area_h, scroll);
            &&& s <= heights_upto(rows, selected)
            &&& heights_upto(rows, selected) + rows[selected].height_spec() <= s + area_h
            &&& s <= sat_sub(total_height_spec(rows), area_h)
            &&& s >= 0
        }),
{
    lemma_heights_mono(rows, selected + 1, rows.len() as int);
    lemma_heights_mono(rows, selected, selected + 1);
}

/// The row under line `line` of the list (counted from the first row's top).
pub open spec fn row_at(rows: Seq<Row>, line: int) -> Option<int>
    decreases rows.len(),
{
    if rows.len() == 0 || line < 0 {
        None
    } else if line < rows[0].height_spec() {
        Some(0)
    } else {
        match row_at(rows.drop_first(), line - rows[0].height_spec()) {
            Some(i) => Some(i + 1),
            None => None,
        }
    }
}

proof fn lemma_heights_drop_first(rows: Seq<Row>, i: int)
    requires
        0 <= i < rows.len(),
    ensures
        heights_upto(rows, i + 1) == rows[0].height_spec() + heights_upto(rows.drop_first(), i),
    decreases i,
{
    let t = rows.drop_first();
    if i > 0 {
        lemma_heights_drop_first(rows, i - 1);
        assert(t[i - 1] == rows[i]);
        assert(heights_upto(t, i) == heights_upto(t, i - 1) + t[i - 1].height_spec());
    } else {
        assert(heights_upto(rows, 0) == 0);
        assert(heights_upto(t, 0) == 0);
    }
    assert(heights_upto(rows, i + 1) == heights_upto(rows, i) + rows[i].height_spec());
}

/// A click lands on the row drawn there: the row at line `line` is the row
/// `i` whose lines, from its offset for its height, hold that line.
pub proof fn lemma_row_at_offsets(rows: Seq<Row>, line: int, i: int)
    ensures
        row_at(rows, line) == Some(i) <==> (0 <= i < rows.len() && heights_upto(rows, i) <= line < heights_upto(
            rows,
            i + 1,
        )),
    decreases rows.len(),
{
    if rows.len() == 0 {
        return;
    }
    let h0 = rows[0].height_spec();
    if 0 <= i < rows.len() {
        lemma_heights_mono(rows, 0, i);
        lemma_heights_drop_first(rows, i);
        if i > 0 {
            lemma_heights_drop_first(rows, i - 1);
            lemma_heights_mono(rows, 1, i);
        }
    }
    if line >= 0 && line >= h0 {
        lemma_row_at_offsets(rows.drop_first(), line - h0, i - 1);
    }
}

// ---------------------------------------------------------------------------
// The lines drawn.
/// A line of the list as it is drawn: its text, whether its row is the
/// selected one, and whether it is the first line of its row.
pub struct ListLine {
    pub text: String,
    pub selected: bool,
    pub first: bool,
}

pub open spec fn line_view(l: ListLine) -> (Seq<char>, bool, bool) {
    (l.text@, l.selected, l.first)
}

pub open spec fn line_views(ls: Seq<ListLine>) -> Seq<(Seq<char>, bool, bool)> {
    ls.map_values(|l: ListLine| line_view(l))
}

/// The lines of one row, each marked with whether the row is selected and
/// whether it is the row's first line.
pub open spec fn tag_lines(ls: Seq<Seq<char>>, sel: bool) -> Seq<(Seq<char>, bool, bool)> {
    Seq::new(ls.len(), |i: int| (ls[i], sel, i == 0))
}

/// The lines of the first `n` rows, in order.
pub open spec fn lines_upto(rows: Seq<Row>, selected: int, n: int) -> Seq<(Seq<char>, bool, bool)>
    decreases n,
{
    if n <= 0 || n > rows.len() {
        Seq::empty()
    } else {
        lines_upto(rows, selected, n - 1) + tag_lines(rows[n - 1].lines_spec(), n - 1 == selected)
    }
}

/// The lines a view `height` lines tall shows when scrolled down `scroll`
/// lines: all lines of all rows, the first `scroll` skipped.
pub open spec fn shown_lines_spec(rows: Seq<Row>, selected: int, scroll: int, height: int) -> Seq<
    (Seq<char>, bool, bool),
> {
    let all = lines_upto(rows, selected, rows.len() as int);
    let from = if scroll < all.len() {
        scroll
    } else {
        all.len() as int
    };
    let to = if from + height < all.len() {
        from + height
    } else {
        all.len() as int
    };
    all.subrange(from, to)
}

/// A row has as many lines as its height.
pub proof fn lemma_lines_fill_height(r: Row)
    ensures
        r.lines_spec().len() == r.height_spec(),
{
}

pub fn shown_lines(rows: &Vec<Row>, selected: usize, scroll: u16, height: u16) -> (r: Vec<ListLine>)
    ensures
        line_views(r@) == shown_lines_spec(rows@, selected as int, scroll as int, height as int),
{
    let mut all: Vec<ListLine> = Vec::new();
    let mut i: usize = 0;
    while i < rows.len()
        invariant
            i <= rows.len(),
            line_views(all@) == lines_upto(rows@, selected as int, i as int),
        decreases rows.len() - i,
    {
        let ls = rows[i].lines();
        let ghost before = line_views(all@);
        let ghost tagged = tag_lines(rows@[i as int].lines_spec(), i == selected);
        let mut j: usize = 0;
        while j < ls.len()
            invariant
                j <= ls.len(),
                i < rows.len(),
                string_views(ls@) == rows@[i as int].lines_spec(),
                tagged == tag_lines(rows@[i as int].lines_spec(), i == selected),
                line_views(all@) == before + tagged.take(j as int),
            decreases ls.len() - j,
        {
            let ghost o = all@;
            all.push(ListLine { text: ls[j].clone(), selected: i == selected, first: j == 0 });
            assert(string_views(ls@)[j as int] == ls@[j as int]@);
            assert(tagged.take(j + 1) =~= tagged.take(j as int).push(tagged[j as int]));
            assert(line_views(all@) =~= line_views(o).push(line_view(all@[j as int + before.len()])));
            j = j + 1;
        }
        assert(tagged.take(ls.len() as int) =~= tagged);
        i = i + 1;
    }
    let n = all.len();
    let from: usize = if (scroll as usize) < n {
        scroll as usize
    } else {
        n
    };
    let to: usize = if height as usize <= n - from {
        from + height as usize
    } else {
        n
    };
    let ghost whole = line_views(all@);
    let mut out: Vec<ListLine> = Vec::new();
    let mut k: usize = from;
    while k < to
        invariant
            from <= k <= to <= all.len(),
            whole == line_views(all@),
            line_views(out@) == whole.subrange(from as int, k as int),
        decreases to - k,
    {
        let ghost o = out@;
        let l = &all[k];
        out.push(ListLine { text: l.text.clone(), selected: l.selected, first: l.first });
        assert(line_views(out@) =~= line_views(o).push(whole[k as int]));
        assert(whole.subrange(from as int, k + 1) =~= whole.subrange(from as int, k as int).push(whole[k as int]));
        k = k + 1;
    }
    out
}

/// The row shown at line `y` of the view scrolled by `scroll`.
pub fn index_at_y(rows: &Vec<Row>, scroll: u16, y: u16) -> (r: Option<usize>)
    ensures
        match r {
            Some(i) => row_at(rows@, scroll + y) == Some(i as int),
            None => row_at(rows@, scroll + y) is None,
        },
{
    let mut line: u32 = scroll as u32 + y as u32;
    let mut i: usize = 0;
    assert(rows@.skip(0) =~= rows@);
    while i < rows.len()
        invariant
            i <= rows.len(),
            line <= scroll + y,
            match row_at(rows@, scroll + y) {
                Some(k) => row_at(rows@.skip(i as int), line as int) == Some(k - i),
                None => row_at(rows@.skip(i as int), line as int) is None,
            },
        decreases rows.len() - i,
    {
        assert(rows@.skip(i as int)[0] == rows@[i as int]);
        assert(rows@.skip(i as int).drop_first() =~= rows@.skip(i + 1));
        let h = rows[i].height() as u32;
        if line < h {
            return Some(i);
        }
        line = line - h;
        i = i + 1;
    }
    None
}

} // verus!
