//! Chat and feedback text in a small Markdown dialect, turned into styled lines:
//! `**bold**`, `*italic*`, `` `code` ``, `#` headings, `-`/`*` and numbered list
//! items, and pipe tables, which are laid out as "Header: value" lines.
use crate::text::{
    append_range, chars_of, chars_range, has_prefix, is_whitespace, is_ws, lines_of, starts_with,
    string_from_chars,
    skip_ws, string_from_range, text_lines, trim, trim_bounds, trimmed,
};
use vstd::prelude::*;

verus! {

/// A text colour.
#[derive(Clone, Copy, Debug, PartialEq, Eq, Structural)]
pub enum Color {
    Cyan,
    Green,
    Yellow,
    Red,
    Magenta,
    DarkGray,
}

/// How a span is drawn: its modifiers and its colour (`None`: the terminal's own).
#[derive(Clone, Copy, Debug, PartialEq, Eq, Structural)]
pub struct SpanStyle {
    pub bold: bool,
    pub italic: bool,
    pub underlined: bool,
    pub dim: bool,
    pub fg: Option<Color>,
}

/// A run of text drawn in one style.
#[derive(Clone, Debug)]
pub struct StyledSpan {
    pub content: String,
    pub style: SpanStyle,
}

/// One line of output: its spans, left to right.
#[derive(Clone, Debug)]
pub struct StyledLine {
    pub spans: Vec<StyledSpan>,
}

/// A span as text and style.
pub type SpanView = (Seq<char>, SpanStyle);

/// A line as the sequence of its spans.
pub type LineView = Seq<SpanView>;

impl View for StyledSpan {
    type V = SpanView;

    open spec fn view(&self) -> SpanView {
        (self.content@, self.style)
    }
}

pub open spec fn spans_view(v: Seq<StyledSpan>) -> LineView {
    v.map_values(|s: StyledSpan| s@)
}

impl View for StyledLine {
    type V = LineView;

    open spec fn view(&self) -> LineView {
        spans_view(self.spans@)
    }
}

pub open spec fn lines_view(v: Seq<StyledLine>) -> Seq<LineView> {
    v.map_values(|l: StyledLine| l@)
}

/// The text of a line: its spans' texts, in order.
pub open spec fn line_text(l: LineView) -> Seq<char>
    decreases l.len(),
{
    if l.len() == 0 {
        seq![]
    } else {
        line_text(l.drop_last()) + l.last().0
    }
}

impl StyledLine {
    /// The text of the line, without its styles.
    pub fn to_text(&self) -> (res: String)
        ensures
            res@ == line_text(self@),
    {
        let n = self.spans.len();
        let mut v: Vec<char> = Vec::new();
        let mut k: usize = 0;
        proof {
            assert(self@.take(0) =~= Seq::<SpanView>::empty());
        }
        while k < n
            invariant
                k <= n,
                n == self.spans@.len(),
                self@.len() == n,
                v@ == line_text(self@.take(k as int)),
            decreases n - k,
        {
            proof {
                assert(self@.take(k + 1).drop_last() =~= self@.take(k as int));
                assert(self@[k as int] == self.spans@[k as int]@);
            }
            crate::text::append_str(&mut v, self.spans[k].content.as_str());
            k = k + 1;
        }
        proof {
            assert(self@.take(n as int) =~= self@);
        }
        string_from_chars(&v)
    }
}

pub open spec fn plain() -> SpanStyle {
    SpanStyle { bold: false, italic: false, underlined: false, dim: false, fg: None }
}

pub open spec fn bold_style() -> SpanStyle {
    SpanStyle { bold: true, ..plain() }
}

pub open spec fn italic_style() -> SpanStyle {
    SpanStyle { italic: true, ..plain() }
}

/// Inline code is drawn dimmed.
pub open spec fn code_style() -> SpanStyle {
    SpanStyle { dim: true, ..plain() }
}

pub open spec fn heading_style() -> SpanStyle {
    SpanStyle { bold: true, underlined: true, ..plain() }
}

impl SpanStyle {
    pub fn plain() -> (s: SpanStyle)
        ensures
            s == plain(),
    {
        SpanStyle { bold: false, italic: false, underlined: false, dim: false, fg: None }
    }

    pub fn bold() -> (s: SpanStyle)
        ensures
            s == bold_style(),
    {
        SpanStyle { bold: true, italic: false, underlined: false, dim: false, fg: None }
    }

    pub fn italic() -> (s: SpanStyle)
        ensures
            s == italic_style(),
    {
        SpanStyle { bold: false, italic: true, underlined: false, dim: false, fg: None }
    }

    pub fn code() -> (s: SpanStyle)
        ensures
            s == code_style(),
    {
        SpanStyle { bold: false, italic: false, underlined: false, dim: true, fg: None }
    }

    /// A speaker's label: bold, in `c`.
    pub fn label(c: Color) -> (s: SpanStyle)
        ensures
            s == (SpanStyle { bold: true, fg: Some(c), ..plain() }),
    {
        SpanStyle { bold: true, italic: false, underlined: false, dim: false, fg: Some(c) }
    }

    /// A system message: dark gray.
    pub fn system() -> (s: SpanStyle)
        ensures
            s == (SpanStyle { fg: Some(Color::DarkGray), ..plain() }),
    {
        SpanStyle { bold: false, italic: false, underlined: false, dim: false, fg: Some(Color::DarkGray) }
    }

    pub fn heading() -> (s: SpanStyle)
        ensures
            s == heading_style(),
    {
        SpanStyle { bold: true, italic: false, underlined: true, dim: false, fg: None }
    }
}

// ---------------------------------------------------------------------------
// Inline markup. A delimited span is looked for at the leftmost position where
// one can start; there `**text**` is preferred to `*text*`, which is preferred to
// `` `text` ``. Starred text is at least one character long, may not cross a line
// break, and ends at the first closing delimiter; code text is at least one
// character long and ends at the next backquote.
// ---------------------------------------------------------------------------

/// First `**` at or after `k` with no line break before it.
pub open spec fn close_double(t: Seq<char>, k: int) -> Option<int>
    decreases t.len() - k,
{
    if k < 0 || k + 1 >= t.len() {
        None
    } else if t[k] == '*' && t[k + 1] == '*' {
        Some(k)
    } else if t[k] == '\n' {
        None
    } else {
        close_double(t, k + 1)
    }
}

/// First `*` at or after `k` with no line break before it.
pub open spec fn close_single(t: Seq<char>, k: int) -> Option<int>
    decreases t.len() - k,
{
    if k < 0 || k >= t.len() {
        None
    } else if t[k] == '*' {
        Some(k)
    } else if t[k] == '\n' {
        None
    } else {
        close_single(t, k + 1)
    }
}

/// First backquote at or after `k`.
pub open spec fn close_tick(t: Seq<char>, k: int) -> Option<int>
    decreases t.len() - k,
{
    if k < 0 || k >= t.len() {
        None
    } else if t[k] == '`' {
        Some(k)
    } else {
        close_tick(t, k + 1)
    }
}

/// The delimited span that starts at `p`, if one does: where its text starts and
/// ends, where the whole match ends, and its style.
pub open spec fn inline_match(t: Seq<char>, p: int) -> Option<(int, int, int, SpanStyle)> {
    if 0 <= p && p + 2 < t.len() && t[p] == '*' && t[p + 1] == '*' && t[p + 2] != '\n'
        && close_double(t, p + 3) is Some {
        let j = close_double(t, p + 3)->0;
        Some((p + 2, j, j + 2, bold_style()))
    } else if 0 <= p && p + 1 < t.len() && t[p] == '*' && t[p + 1] != '\n' && close_single(
        t,
        p + 2,
    ) is Some {
        let j = close_single(t, p + 2)->0;
        Some((p + 1, j, j + 1, italic_style()))
    } else if 0 <= p && p + 1 < t.len() && t[p] == '`' && t[p + 1] != '`' && close_tick(t, p + 2) is Some {
        let j = close_tick(t, p + 2)->0;
        Some((p + 1, j, j + 1, code_style()))
    } else {
        None
    }
}

/// Leftmost position at or after `s` where a delimited span starts.
pub open spec fn next_match(t: Seq<char>, s: int) -> Option<int>
    decreases t.len() - s,
{
    if s < 0 || s >= t.len() {
        None
    } else if inline_match(t, s) is Some {
        Some(s)
    } else {
        next_match(t, s + 1)
    }
}

pub proof fn lemma_close_double(t: Seq<char>, k: int)
    ensures
        close_double(t, k) matches Some(j) ==> k <= j && j + 1 < t.len(),
    decreases t.len() - k,
{
    if !(k < 0 || k + 1 >= t.len()) && !(t[k] == '*' && t[k + 1] == '*') && t[k] != '\n' {
        lemma_close_double(t, k + 1);
    }
}

pub proof fn lemma_close_single(t: Seq<char>, k: int)
    ensures
        close_single(t, k) matches Some(j) ==> k <= j < t.len(),
    decreases t.len() - k,
{
    if !(k < 0 || k >= t.len()) && t[k] != '*' && t[k] != '\n' {
        lemma_close_single(t, k + 1);
    }
}

pub proof fn lemma_close_tick(t: Seq<char>, k: int)
    ensures
        close_tick(t, k) matches Some(j) ==> k <= j < t.len(),
    decreases t.len() - k,
{
    if !(k < 0 || k >= t.len()) && t[k] != '`' {
        lemma_close_tick(t, k + 1);
    }
}

/// A match lies inside the text: its text is nonempty and ends before the match does.
pub proof fn lemma_inline_match(t: Seq<char>, p: int)
    ensures
        inline_match(t, p) matches Some(m) ==> 0 <= p < m.0 < m.1 < m.2 <= t.len(),
{
    lemma_close_double(t, p + 3);
    lemma_close_single(t, p + 2);
    lemma_close_tick(t, p + 2);
}

pub proof fn lemma_next_match(t: Seq<char>, s: int)
    ensures
        next_match(t, s) matches Some(p) ==> s <= p < t.len() && inline_match(t, p) is Some,
    decreases t.len() - s,
{
    if !(s < 0 || s >= t.len()) && inline_match(t, s) is None {
        lemma_next_match(t, s + 1);
    }
}

/// The spans of `t[s..]`: plain text up to the next delimited span, that span, and
/// so on; plain text after the last one.
pub open spec fn inline_from(t: Seq<char>, s: int) -> LineView
    decreases t.len() - s,
{
    if s < 0 || s >= t.len() {
        seq![]
    } else {
        match next_match(t, s) {
            None => seq![(t.subrange(s, t.len() as int), plain())],
            Some(p) => {
                proof {
                    lemma_next_match(t, s);
                    lemma_inline_match(t, p);
                }
                let m = inline_match(t, p)->0;
                let before: LineView = if p > s {
                    seq![(t.subrange(s, p), plain())]
                } else {
                    seq![]
                };
                before + seq![(t.subrange(m.0, m.1), m.3)] + inline_from(t, m.2)
            },
        }
    }
}

/// The spans of a piece of text; empty text gives one empty plain span.
pub open spec fn inline_spans(t: Seq<char>) -> LineView {
    if t.len() == 0 {
        seq![(seq![], plain())]
    } else {
        inline_from(t, 0)
    }
}

/// Text without stars or backquotes has no markup: it is one plain span.
pub proof fn lemma_unmarked_text_is_plain(t: Seq<char>)
    requires
        t.len() > 0,
        !t.contains('*'),
        !t.contains('`'),
    ensures
        inline_spans(t) == seq![(t, plain())],
{
    assert forall|p: int| 0 <= p < t.len() implies inline_match(t, p) is None by {
        assert(t[p] != '*' && t[p] != '`');
    }
    lemma_no_match_from(t, 0);
    assert(t.subrange(0, t.len() as int) =~= t);
}

proof fn lemma_no_match_from(t: Seq<char>, s: int)
    requires
        0 <= s,
        forall|p: int| 0 <= p < t.len() ==> inline_match(t, p) is None,
    ensures
        next_match(t, s) is None,
    decreases t.len() - s,
{
    if s < t.len() {
        assert(inline_match(t, s) is None);
        lemma_no_match_from(t, s + 1);
    }
}

fn close_double_at(t: &Vec<char>, k: usize) -> (res: Option<usize>)
    requires
        k <= t@.len(),
    ensures
        res is Some <==> close_double(t@, k as int) is Some,
        res matches Some(j) ==> close_double(t@, k as int) == Some(j as int),
{
    let n = t.len();
    let mut j = k;
    while n - j > 1
        invariant
            k <= j <= n,
            n == t@.len(),
            close_double(t@, k as int) == close_double(t@, j as int),
        decreases n - j,
    {
        if t[j] == '*' && t[j + 1] == '*' {
            return Some(j);
        }
        if t[j] == '\n' {
            return None;
        }
        j = j + 1;
    }
    None
}

fn close_single_at(t: &Vec<char>, k: usize) -> (res: Option<usize>)
    requires
        k <= t@.len(),
    ensures
        res is Some <==> close_single(t@, k as int) is Some,
        res matches Some(j) ==> close_single(t@, k as int) == Some(j as int),
{
    let n = t.len();
    let mut j = k;
    while j < n
        invariant
            k <= j <= n,
            n == t@.len(),
            close_single(t@, k as int) == close_single(t@, j as int),
        decreases n - j,
    {
        if t[j] == '*' {
            return Some(j);
        }
        if t[j] == '\n' {
            return None;
        }
        j = j + 1;
    }
    None
}

fn close_tick_at(t: &Vec<char>, k: usize) -> (res: Option<usize>)
    requires
        k <= t@.len(),
    ensures
        res is Some <==> close_tick(t@, k as int) is Some,
        res matches Some(j) ==> close_tick(t@, k as int) == Some(j as int),
{
    let n = t.len();
    let mut j = k;
    while j < n
        invariant
            k <= j <= n,
            n == t@.len(),
            close_tick(t@, k as int) == close_tick(t@, j as int),
        decreases n - j,
    {
        if t[j] == '`' {
            return Some(j);
        }
        j = j + 1;
    }
    None
}

/// The delimited span starting at `p`, if any.
fn match_at(t: &Vec<char>, p: usize) -> (res: Option<(usize, usize, usize, SpanStyle)>)
    requires
        p < t@.len(),
    ensures
        res is Some <==> inline_match(t@, p as int) is Some,
        res matches Some(m) ==> inline_match(t@, p as int) == Some(
            (m.0 as int, m.1 as int, m.2 as int, m.3),
        ),
{
    let n = t.len();
    if n - p > 2 && t[p] == '*' && t[p + 1] == '*' && t[p + 2] != '\n' {
        if let Some(j) = close_double_at(t, p + 3) {
            proof {
                lemma_close_double(t@, p + 3);
            }
            return Some((p + 2, j, j + 2, SpanStyle::bold()));
        }
    }
    if n - p > 1 && t[p] == '*' && t[p + 1] != '\n' {
        if let Some(j) = close_single_at(t, p + 2) {
            proof {
                lemma_close_single(t@, p + 2);
            }
            return Some((p + 1, j, j + 1, SpanStyle::italic()));
        }
    }
    if n - p > 1 && t[p] == '`' && t[p + 1] != '`' {
        if let Some(j) = close_tick_at(t, p + 2) {
            proof {
                lemma_close_tick(t@, p + 2);
            }
            return Some((p + 1, j, j + 1, SpanStyle::code()));
        }
    }
    None
}

/// The leftmost delimited span at or after `s`: where it starts, and the match.
fn next_match_at(t: &Vec<char>, s: usize) -> (res: Option<(usize, (usize, usize, usize, SpanStyle))>)
    requires
        s <= t@.len(),
    ensures
        res is Some <==> next_match(t@, s as int) is Some,
        res matches Some(r) ==> {
            &&& next_match(t@, s as int) == Some(r.0 as int)
            &&& inline_match(t@, r.0 as int) == Some(
                (r.1.0 as int, r.1.1 as int, r.1.2 as int, r.1.3),
            )
        },
{
    let n = t.len();
    let mut p = s;
    while p < n
        invariant
            s <= p <= n,
            n == t@.len(),
            next_match(t@, s as int) == next_match(t@, p as int),
        decreases n - p,
    {
        if let Some(m) = match_at(t, p) {
            return Some((p, m));
        }
        p = p + 1;
    }
    None
}

/// A span holding `t[from..to]`.
fn span_of(t: &Vec<char>, from: usize, to: usize, style: SpanStyle) -> (res: StyledSpan)
    requires
        from <= to <= t@.len(),
    ensures
        res@ == (t@.subrange(from as int, to as int), style),
{
    StyledSpan { content: string_from_range(t, from, to), style }
}

/// The spans of `t`: `**bold**`, `*italic*` and `` `code` `` set off from plain text.
fn inline_spans_of(t: &Vec<char>) -> (spans: Vec<StyledSpan>)
    ensures
        spans_view(spans@) == inline_spans(t@),
{
    let n = t.len();
    let mut spans: Vec<StyledSpan> = Vec::new();
    if n == 0 {
        spans.push(StyledSpan { content: String::new(), style: SpanStyle::plain() });
        proof {
            assert(spans_view(spans@) =~= inline_spans(t@));
        }
        return spans;
    }
    let mut s: usize = 0;
    proof {
        assert(spans_view(spans@) + inline_from(t@, 0) =~= inline_from(t@, 0));
    }
    while s < n
        invariant
            n == t@.len(),
            n > 0,
            s <= n,
            spans_view(spans@) + inline_from(t@, s as int) == inline_from(t@, 0),
        decreases n - s,
    {
        let ghost before_spans = spans_view(spans@);
        match next_match_at(t, s) {
            None => {
                spans.push(span_of(t, s, n, SpanStyle::plain()));
                proof {
                    assert(spans_view(spans@) =~= before_spans.push(
                        (t@.subrange(s as int, n as int), plain()),
                    ));
                    assert(inline_from(t@, n as int) =~= Seq::<SpanView>::empty());
                    assert(spans_view(spans@) + inline_from(t@, n as int) =~= spans_view(spans@));
                }
                s = n;
            },
            Some((p, m)) => {
                proof {
                    lemma_next_match(t@, s as int);
                    lemma_inline_match(t@, p as int);
                }
                let ghost rest = inline_from(t@, m.2 as int);
                if p > s {
                    spans.push(span_of(t, s, p, SpanStyle::plain()));
                }
                spans.push(span_of(t, m.0, m.1, m.3));
                proof {
                    let mid = seq![(t@.subrange(m.0 as int, m.1 as int), m.3)];
                    if p > s {
                        let pre = seq![(t@.subrange(s as int, p as int), plain())];
                        assert(spans_view(spans@) =~= before_spans + pre + mid);
                        assert(inline_from(t@, s as int) == pre + mid + rest);
                    } else {
                        assert(spans_view(spans@) =~= before_spans + mid);
                        assert(inline_from(t@, s as int) =~= mid + rest);
                    }
                    assert(spans_view(spans@) + rest =~= before_spans + inline_from(t@, s as int));
                }
                s = m.2;
            },
        }
    }
    proof {
        assert(inline_from(t@, s as int) =~= Seq::<SpanView>::empty());
        assert(spans_view(spans@) + inline_from(t@, s as int) =~= spans_view(spans@));
    }
    spans
}

/// The spans of `text`: `**bold**`, `*italic*` and `` `code` `` (drawn dimmed) set off
/// from plain text. Empty text gives one empty plain span.
pub fn parse_inline(text: &str) -> (spans: Vec<StyledSpan>)
    ensures
        spans_view(spans@) == inline_spans(text@),
{
    let t = chars_of(text);
    inline_spans_of(&t)
}


// ---------------------------------------------------------------------------
// Tables: a row is a line holding `|`; a separator row holds nothing but `|`, `-`,
// `:` and spaces. A row's cells are what lies between its bars, trimmed.
// ---------------------------------------------------------------------------

pub open spec fn cells_view(v: Seq<Vec<char>>) -> Seq<Seq<char>> {
    v.map_values(|c: Vec<char>| c@)
}

pub open spec fn rows_view(v: Seq<Vec<Vec<char>>>) -> Seq<Seq<Seq<char>>> {
    v.map_values(|r: Vec<Vec<char>>| cells_view(r@))
}

/// The line, trimmed, holds a `|`.
pub open spec fn is_row(line: Seq<char>) -> bool {
    trim(line).contains('|')
}

pub open spec fn separator_char(c: char) -> bool {
    c == '|' || c == '-' || c == ':' || c == ' '
}

/// The line, trimmed, holds a `|` and nothing but `|`, `-`, `:` and spaces.
pub open spec fn is_separator(line: Seq<char>) -> bool {
    let tr = trim(line);
    &&& tr.contains('|')
    &&& forall|k: int| 0 <= k < tr.len() ==> separator_char(#[trigger] tr[k])
}

/// Index of the first character of `s` at or after `i` that is not `c`, or `s.len()`.
pub open spec fn skip_char(s: Seq<char>, i: int, c: char) -> int
    decreases s.len() - i,
{
    if 0 <= i < s.len() && s[i] == c {
        skip_char(s, i + 1, c)
    } else {
        i
    }
}

/// One past the last character of `s[i..j]` that is not `c`, or `i` if there is none.
pub open spec fn back_char(s: Seq<char>, i: int, j: int, c: char) -> int
    decreases j - i,
{
    if i < j && s[j - 1] == c {
        back_char(s, i, j - 1, c)
    } else {
        j
    }
}

/// `s` without its leading and trailing bars (`str::trim_matches('|')`).
pub open spec fn strip_bars(s: Seq<char>) -> Seq<char> {
    let a = skip_char(s, 0, '|');
    s.subrange(a, back_char(s, a, s.len() as int, '|'))
}

/// The pieces of `s` between its bars (`str::split('|')`): one more than there are bars.
pub open spec fn split_bars(s: Seq<char>) -> Seq<Seq<char>>
    decreases s.len(),
{
    if s.len() == 0 {
        seq![seq![]]
    } else {
        let r = split_bars(s.drop_last());
        if s.last() == '|' {
            r.push(seq![])
        } else {
            r.update(r.len() - 1, r.last().push(s.last()))
        }
    }
}

pub proof fn lemma_split_bars_len(s: Seq<char>)
    ensures
        split_bars(s).len() >= 1,
    decreases s.len(),
{
    if s.len() > 0 {
        lemma_split_bars_len(s.drop_last());
    }
}

/// The cells of a table row: the trimmed line without its outer bars, split at the
/// bars, each piece trimmed.
pub open spec fn table_cells(line: Seq<char>) -> Seq<Seq<char>> {
    split_bars(strip_bars(trim(line))).map_values(|c: Seq<char>| trim(c))
}

/// Whether `v[from..]` holds `c`.
fn has_char(v: &Vec<char>, from: usize, c: char) -> (res: bool)
    requires
        from <= v@.len(),
    ensures
        res == v@.subrange(from as int, v@.len() as int).contains(c),
{
    let n = v.len();
    let ghost s = v@.subrange(from as int, n as int);
    let mut k = from;
    while k < n
        invariant
            from <= k <= n,
            n == v@.len(),
            s == v@.subrange(from as int, n as int),
            forall|i: int| from <= i < k ==> v@[i] != c,
        decreases n - k,
    {
        if v[k] == c {
            proof {
                assert(s[k - from] == c);
            }
            return true;
        }
        k = k + 1;
    }
    proof {
        assert forall|i: int| 0 <= i < s.len() implies s[i] != c by {
            assert(s[i] == v@[from + i]);
        }
    }
    false
}

fn row_chars(line: &Vec<char>) -> (res: bool)
    ensures
        res == is_row(line@),
{
    let tr = trimmed(line);
    proof {
        assert(tr@.subrange(0, tr@.len() as int) =~= tr@);
    }
    has_char(&tr, 0, '|')
}

fn separator_chars(line: &Vec<char>) -> (res: bool)
    ensures
        res == is_separator(line@),
{
    let tr = trimmed(line);
    proof {
        assert(tr@.subrange(0, tr@.len() as int) =~= tr@);
    }
    if !has_char(&tr, 0, '|') {
        return false;
    }
    let n = tr.len();
    let mut k: usize = 0;
    while k < n
        invariant
            k <= n,
            n == tr@.len(),
            tr@ == trim(line@),
            forall|i: int| 0 <= i < k ==> separator_char(#[trigger] tr@[i]),
        decreases n - k,
    {
        let c = tr[k];
        if !(c == '|' || c == '-' || c == ':' || c == ' ') {
            proof {
                assert(!separator_char(tr@[k as int]));
            }
            return false;
        }
        k = k + 1;
    }
    true
}

/// Whether `line` is a table row: trimmed, it holds a `|`.
pub fn is_table_row(line: &str) -> (res: bool)
    ensures
        res == is_row(line@),
{
    let chars = chars_of(line);
    row_chars(&chars)
}

/// Whether `line` separates a table's header from its body: trimmed, it holds a `|`
/// and nothing but `|`, `-`, `:` and spaces.
pub fn is_table_separator(line: &str) -> (res: bool)
    ensures
        res == is_separator(line@),
{
    let chars = chars_of(line);
    separator_chars(&chars)
}

/// Bounds of `s.trim_matches('|')` within `s`.
fn bar_bounds(s: &Vec<char>) -> (res: (usize, usize))
    ensures
        res.0 <= res.1 <= s@.len(),
        s@.subrange(res.0 as int, res.1 as int) == strip_bars(s@),
{
    let n = s.len();
    let mut a: usize = 0;
    while a < n && s[a] == '|'
        invariant
            a <= n,
            n == s@.len(),
            skip_char(s@, a as int, '|') == skip_char(s@, 0, '|'),
        decreases n - a,
    {
        a = a + 1;
    }
    let mut b: usize = n;
    while b > a && s[b - 1] == '|'
        invariant
            a <= b <= n,
            n == s@.len(),
            skip_char(s@, 0, '|') == a,
            back_char(s@, a as int, b as int, '|') == back_char(s@, a as int, n as int, '|'),
        decreases b,
    {
        b = b - 1;
    }
    (a, b)
}

/// The pieces of `s` between its bars.
fn split_at_bars(s: &Vec<char>) -> (res: Vec<Vec<char>>)
    ensures
        cells_view(res@) == split_bars(s@),
{
    let n = s.len();
    let mut done: Vec<Vec<char>> = Vec::new();
    let mut cur: Vec<char> = Vec::new();
    let mut k: usize = 0;
    proof {
        assert(s@.take(0) =~= Seq::<char>::empty());
    }
    while k < n
        invariant
            k <= n,
            n == s@.len(),
            cells_view(done@).push(cur@) == split_bars(s@.take(k as int)),
        decreases n - k,
    {
        let ghost r = split_bars(s@.take(k as int));
        proof {
            assert(s@.take(k + 1).drop_last() =~= s@.take(k as int));
            lemma_split_bars_len(s@.take(k as int));
        }
        if s[k] == '|' {
            done.push(cur);
            cur = Vec::new();
            proof {
                assert(cells_view(done@) =~= r);
                assert(cells_view(done@).push(cur@) =~= r.push(seq![]));
            }
        } else {
            cur.push(s[k]);
            proof {
                assert(cells_view(done@).push(cur@) =~= r.update(r.len() - 1, r.last().push(s@[k as int])));
            }
        }
        k = k + 1;
    }
    done.push(cur);
    proof {
        assert(s@.take(n as int) =~= s@);
        assert(cells_view(done@) =~= split_bars(s@));
    }
    done
}

/// The cells of a table row.
fn table_cells_of(line: &Vec<char>) -> (res: Vec<Vec<char>>)
    ensures
        cells_view(res@) == table_cells(line@),
{
    let tr = trimmed(line);
    let (a, b) = bar_bounds(&tr);
    let core = chars_range(&tr, a, b);
    let pieces = split_at_bars(&core);
    let ghost ps = split_bars(core@);
    let n = pieces.len();
    let mut cells: Vec<Vec<char>> = Vec::new();
    let mut k: usize = 0;
    while k < n
        invariant
            k <= n,
            n == pieces@.len(),
            cells_view(pieces@) == ps,
            cells_view(cells@) == ps.take(k as int).map_values(|c: Seq<char>| trim(c)),
        decreases n - k,
    {
        let ghost before = cells_view(cells@);
        let cell = trimmed(&pieces[k]);
        proof {
            assert(pieces@[k as int]@ == ps[k as int]);
        }
        cells.push(cell);
        proof {
            assert(cells_view(cells@) =~= before.push(trim(ps[k as int])));
            assert(ps.take(k + 1).map_values(|c: Seq<char>| trim(c)) =~= ps.take(k as int).map_values(
                |c: Seq<char>| trim(c),
            ).push(trim(ps[k as int])));
        }
        k = k + 1;
    }
    proof {
        assert(ps.take(n as int) =~= ps);
    }
    cells
}

/// The cells of a table row: the trimmed line without its outer bars, split at the
/// bars, each piece trimmed.
pub fn parse_table_row(line: &str) -> (res: Vec<String>)
    ensures
        res@.len() == table_cells(line@).len(),
        forall|k: int| 0 <= k < res@.len() ==> #[trigger] res@[k]@ == table_cells(line@)[k],
{
    let chars = chars_of(line);
    let cells = table_cells_of(&chars);
    let n = cells.len();
    let mut res: Vec<String> = Vec::new();
    let mut k: usize = 0;
    while k < n
        invariant
            k <= n,
            n == cells@.len(),
            cells_view(cells@) == table_cells(line@),
            res@.len() == k,
            forall|i: int| 0 <= i < k ==> #[trigger] res@[i]@ == table_cells(line@)[i],
        decreases n - k,
    {
        res.push(string_from_chars(&cells[k]));
        proof {
            assert(cells@[k as int]@ == table_cells(line@)[k as int]);
        }
        k = k + 1;
    }
    res
}


// ---------------------------------------------------------------------------
// Laying out a table: with no body rows, the header is one bold line, its cells
// joined by " │ ". Otherwise each body row gives one line per cell,
// "Header: text" with the label in bold, and rows are set apart by an empty line.
// ---------------------------------------------------------------------------

/// The header cells joined by " │ ".
pub open spec fn join_headers(hs: Seq<Seq<char>>) -> Seq<char>
    decreases hs.len(),
{
    if hs.len() == 0 {
        seq![]
    } else if hs.len() == 1 {
        hs[0]
    } else {
        join_headers(hs.drop_last()) + seq![' ', '│', ' '] + hs.last()
    }
}

/// The bold label before the text of the cell in column `j`: the column's header and
/// ": ", or "?: " past the last header.
pub open spec fn cell_label(headers: Seq<Seq<char>>, j: int) -> Seq<char> {
    (if j < headers.len() {
        headers[j]
    } else {
        seq!['?']
    }) + seq![':', ' ']
}

pub open spec fn cell_line(headers: Seq<Seq<char>>, j: int, cell: Seq<char>) -> LineView {
    seq![(cell_label(headers, j), bold_style())] + inline_spans(cell)
}

/// One line per cell of `row`.
pub open spec fn row_lines(headers: Seq<Seq<char>>, row: Seq<Seq<char>>) -> Seq<LineView> {
    Seq::new(row.len(), |j: int| cell_line(headers, j, row[j]))
}

/// The lines of the body rows, an empty line between two rows.
pub open spec fn table_body(headers: Seq<Seq<char>>, data: Seq<Seq<Seq<char>>>) -> Seq<LineView>
    decreases data.len(),
{
    if data.len() == 0 {
        seq![]
    } else {
        let gap: Seq<LineView> = if data.len() > 1 {
            seq![seq![]]
        } else {
            seq![]
        };
        table_body(headers, data.drop_last()) + gap + row_lines(headers, data.last())
    }
}

pub open spec fn table_lines(headers: Seq<Seq<char>>, data: Seq<Seq<Seq<char>>>) -> Seq<LineView> {
    if data.len() == 0 {
        seq![seq![(join_headers(headers), bold_style())]]
    } else {
        table_body(headers, data)
    }
}

fn join_headers_of(hs: &Vec<Vec<char>>) -> (res: Vec<char>)
    ensures
        res@ == join_headers(cells_view(hs@)),
{
    let n = hs.len();
    let ghost h = cells_view(hs@);
    let mut res: Vec<char> = Vec::new();
    let mut k: usize = 0;
    proof {
        assert(h.take(0) =~= Seq::<Seq<char>>::empty());
    }
    while k < n
        invariant
            k <= n,
            n == hs@.len(),
            h == cells_view(hs@),
            res@ == join_headers(h.take(k as int)),
        decreases n - k,
    {
        proof {
            assert(h.take(k + 1).drop_last() =~= h.take(k as int));
            assert(h[k as int] == hs@[k as int]@);
        }
        if k > 0 {
            res.push(' ');
            res.push('│');
            res.push(' ');
        }
        let ghost before = res@;
        append_range(&mut res, &hs[k], 0, hs[k].len());
        proof {
            assert(hs@[k as int]@.subrange(0, hs@[k as int]@.len() as int) =~= hs@[k as int]@);
            if k == 0 {
                assert(res@ =~= h.take(1)[0]);
            } else {
                assert(res@ =~= join_headers(h.take(k as int)) + seq![' ', '│', ' '] + h[k as int]);
            }
        }
        k = k + 1;
    }
    proof {
        assert(h.take(n as int) =~= h);
    }
    res
}

/// The line for the cell in column `j`.
fn cell_line_of(headers: &Vec<Vec<char>>, j: usize, cell: &Vec<char>) -> (res: StyledLine)
    ensures
        res@ == cell_line(cells_view(headers@), j as int, cell@),
{
    let mut label: Vec<char> = Vec::new();
    if j < headers.len() {
        append_range(&mut label, &headers[j], 0, headers[j].len());
        proof {
            assert(label@ =~= headers@[j as int]@);
        }
    } else {
        label.push('?');
    }
    label.push(':');
    label.push(' ');
    proof {
        assert(label@ =~= cell_label(cells_view(headers@), j as int));
    }
    let mut spans: Vec<StyledSpan> = Vec::new();
    spans.push(StyledSpan { content: string_from_chars(&label), style: SpanStyle::bold() });
    let ghost head = spans_view(spans@);
    let mut rest = inline_spans_of(cell);
    let ghost tail = spans_view(rest@);
    spans.append(&mut rest);
    proof {
        assert(spans_view(spans@) =~= head + tail);
    }
    StyledLine { spans }
}

/// Adds the lines of `row` to `out`.
fn push_row_lines(headers: &Vec<Vec<char>>, row: &Vec<Vec<char>>, out: &mut Vec<StyledLine>)
    ensures
        lines_view(final(out)@) == lines_view(old(out)@) + row_lines(cells_view(headers@), cells_view(row@)),
{
    let n = row.len();
    let ghost target = row_lines(cells_view(headers@), cells_view(row@));
    let mut j: usize = 0;
    while j < n
        invariant
            j <= n,
            n == row@.len(),
            target == row_lines(cells_view(headers@), cells_view(row@)),
            lines_view(out@) == lines_view(old(out)@) + target.take(j as int),
        decreases n - j,
    {
        let ghost before = lines_view(out@);
        let line = cell_line_of(headers, j, &row[j]);
        out.push(line);
        proof {
            assert(lines_view(out@) =~= before.push(line@));
            assert(target.take(j + 1) =~= target.take(j as int).push(target[j as int]));
        }
        j = j + 1;
    }
    proof {
        assert(target.take(n as int) =~= target);
    }
}

/// Adds the lines of a table to `out`.
fn render_table(headers: &Vec<Vec<char>>, data: &Vec<Vec<Vec<char>>>, out: &mut Vec<StyledLine>)
    ensures
        lines_view(final(out)@) == lines_view(old(out)@) + table_lines(cells_view(headers@), rows_view(data@)),
{
    let ghost h = cells_view(headers@);
    let ghost d = rows_view(data@);
    let n = data.len();
    if n == 0 {
        let text = join_headers_of(headers);
        let mut spans: Vec<StyledSpan> = Vec::new();
        spans.push(StyledSpan { content: string_from_chars(&text), style: SpanStyle::bold() });
        let ghost before = lines_view(out@);
        let line = StyledLine { spans };
        proof {
            assert(line@ =~= seq![(join_headers(h), bold_style())]);
        }
        out.push(line);
        proof {
            assert(lines_view(out@) =~= before.push(line@));
        }
        return;
    }
    let mut k: usize = 0;
    proof {
        assert(d.take(0) =~= Seq::<Seq<Seq<char>>>::empty());
        assert(lines_view(out@) =~= lines_view(old(out)@) + table_body(h, d.take(0)));
    }
    while k < n
        invariant
            k <= n,
            n == data@.len(),
            h == cells_view(headers@),
            d == rows_view(data@),
            lines_view(out@) == lines_view(old(out)@) + table_body(h, d.take(k as int)),
        decreases n - k,
    {
        let ghost before = lines_view(out@);
        proof {
            assert(d.take(k + 1).drop_last() =~= d.take(k as int));
            assert(d[k as int] == cells_view(data@[k as int]@));
        }
        if k > 0 {
            let gap_line = StyledLine { spans: Vec::new() };
            proof {
                assert(gap_line@ =~= Seq::<SpanView>::empty());
            }
            out.push(gap_line);
            proof {
                assert(lines_view(out@) =~= before.push(seq![]));
            }
        }
        let ghost mid = lines_view(out@);
        push_row_lines(headers, &data[k], out);
        proof {
            let gap: Seq<LineView> = if k + 1 > 1 {
                seq![seq![]]
            } else {
                seq![]
            };
            assert(mid =~= before + gap);
            assert(lines_view(out@) =~= lines_view(old(out)@) + (table_body(h, d.take(k as int)) + gap
                + row_lines(h, d[k as int])));
        }
        k = k + 1;
    }
    proof {
        assert(d.take(n as int) =~= d);
    }
}


// ---------------------------------------------------------------------------
// Lines outside tables, looked at trimmed: headings, list items, blank lines, and
// everything else as inline text (untrimmed).
// ---------------------------------------------------------------------------

/// What the `regex` crate's `\d` (the Unicode decimal digits) says of `c`.
pub uninterp spec fn unicode_decimal_digit(c: char) -> bool;

/// Calls `regex::Regex::is_match` with the pattern `^\d$` on the one-character string
/// `c`. Its result is named `unicode_decimal_digit`; the crate documents `\d` as the
/// Unicode decimal digits, and of those the ASCII ones are exactly `0` to `9`, which
/// is all the contract states besides the name.
#[verifier::external_body]
fn is_decimal_digit(c: char) -> (res: bool)
    ensures
        res == unicode_decimal_digit(c),
        '0' <= c <= '9' ==> res,
        (c as u32) < 0x80 && !('0' <= c <= '9') ==> !res,
{
    regex::Regex::new(r"^\d$").unwrap().is_match(&c.to_string())
}

/// End of the run of decimal digits that starts at `i`.
pub open spec fn digits_end(s: Seq<char>, i: int) -> int
    decreases s.len() - i,
{
    if 0 <= i < s.len() && unicode_decimal_digit(s[i]) {
        digits_end(s, i + 1)
    } else {
        i
    }
}

/// A numbered list item (`12.`, whitespace, text, with no line break in the text):
/// its number and its text.
pub open spec fn numbered_item(s: Seq<char>) -> Option<(Seq<char>, Seq<char>)> {
    let d = digits_end(s, 0);
    let w = skip_ws(s, d + 1);
    if 0 < d < s.len() && s[d] == '.' && w > d + 1 && !s.subrange(w, s.len() as int).contains('\n') {
        Some((s.take(d), s.subrange(w, s.len() as int)))
    } else {
        None
    }
}

/// The text of a heading `# text`, `## text` or `### text`.
pub open spec fn heading_text(tr: Seq<char>) -> Option<Seq<char>> {
    if has_prefix(tr, seq!['#', '#', '#', ' ']) {
        Some(tr.skip(4))
    } else if has_prefix(tr, seq!['#', '#', ' ']) {
        Some(tr.skip(3))
    } else if has_prefix(tr, seq!['#', ' ']) {
        Some(tr.skip(2))
    } else {
        None
    }
}

/// The text of a list item `- text` or `* text`.
pub open spec fn bullet_text(tr: Seq<char>) -> Option<Seq<char>> {
    if has_prefix(tr, seq!['-', ' ']) || has_prefix(tr, seq!['*', ' ']) {
        Some(tr.skip(2))
    } else {
        None
    }
}

pub open spec fn bullet_mark() -> Seq<char> {
    seq![' ', ' ', '•', ' ']
}

/// The styled line for a line outside a table.
pub open spec fn markdown_line(line: Seq<char>) -> LineView {
    let tr = trim(line);
    if heading_text(tr) is Some {
        seq![(heading_text(tr)->0, heading_style())]
    } else if bullet_text(tr) is Some {
        seq![(bullet_mark(), plain())] + inline_spans(bullet_text(tr)->0)
    } else if numbered_item(tr) is Some {
        let (num, item) = numbered_item(tr)->0;
        seq![(seq![' ', ' '] + num + seq!['.', ' '], plain())] + inline_spans(item)
    } else if tr.len() == 0 {
        seq![]
    } else {
        inline_spans(line)
    }
}

fn numbered_item_of(s: &Vec<char>) -> (res: Option<(Vec<char>, Vec<char>)>)
    ensures
        res is Some <==> numbered_item(s@) is Some,
        res matches Some(r) ==> numbered_item(s@) == Some((r.0@, r.1@)),
{
    let n = s.len();
    let mut d: usize = 0;
    while d < n && is_decimal_digit(s[d])
        invariant
            d <= n,
            n == s@.len(),
            digits_end(s@, d as int) == digits_end(s@, 0),
        decreases n - d,
    {
        d = d + 1;
    }
    if d == 0 || d >= n || s[d] != '.' {
        return None;
    }
    let mut w: usize = d + 1;
    while w < n && is_whitespace(s[w])
        invariant
            d + 1 <= w <= n,
            n == s@.len(),
            skip_ws(s@, w as int) == skip_ws(s@, d + 1),
        decreases n - w,
    {
        w = w + 1;
    }
    if w == d + 1 || has_char(s, w, '\n') {
        return None;
    }
    let num = chars_range(s, 0, d);
    let item = chars_range(s, w, n);
    proof {
        assert(num@ =~= s@.take(d as int));
    }
    Some((num, item))
}

/// A line of one span holding `t[from..to]`.
fn single_span_line(t: &Vec<char>, from: usize, to: usize, style: SpanStyle) -> (res: StyledLine)
    requires
        from <= to <= t@.len(),
    ensures
        res@ == seq![(t@.subrange(from as int, to as int), style)],
{
    let mut spans: Vec<StyledSpan> = Vec::new();
    spans.push(span_of(t, from, to, style));
    let res = StyledLine { spans };
    proof {
        assert(res@ =~= seq![(t@.subrange(from as int, to as int), style)]);
    }
    res
}

/// A line made of a plain span holding `lead` and the spans of `item`.
fn led_line(lead: &Vec<char>, item: &Vec<char>) -> (res: StyledLine)
    ensures
        res@ == seq![(lead@, plain())] + inline_spans(item@),
{
    let mut spans: Vec<StyledSpan> = Vec::new();
    spans.push(StyledSpan { content: string_from_chars(lead), style: SpanStyle::plain() });
    let ghost head = spans_view(spans@);
    let mut rest = inline_spans_of(item);
    let ghost tail = spans_view(rest@);
    spans.append(&mut rest);
    let res = StyledLine { spans };
    proof {
        assert(head =~= seq![(lead@, plain())]);
        assert(res@ =~= head + tail);
    }
    res
}

/// The styled line for a line outside a table.
fn render_line(line: &Vec<char>) -> (res: StyledLine)
    ensures
        res@ == markdown_line(line@),
{
    let tr = trimmed(line);
    let n = tr.len();
    proof {
        reveal_strlit("### ");
        reveal_strlit("## ");
        reveal_strlit("# ");
        reveal_strlit("- ");
        reveal_strlit("* ");
        assert("### "@ =~= seq!['#', '#', '#', ' ']);
        assert("## "@ =~= seq!['#', '#', ' ']);
        assert("# "@ =~= seq!['#', ' ']);
        assert("- "@ =~= seq!['-', ' ']);
        assert("* "@ =~= seq!['*', ' ']);
    }
    if starts_with(&tr, "### ") {
        proof {
            assert(tr@.skip(4) =~= tr@.subrange(4, n as int));
        }
        return single_span_line(&tr, 4, n, SpanStyle::heading());
    }
    if starts_with(&tr, "## ") {
        proof {
            assert(tr@.skip(3) =~= tr@.subrange(3, n as int));
        }
        return single_span_line(&tr, 3, n, SpanStyle::heading());
    }
    if starts_with(&tr, "# ") {
        proof {
            assert(tr@.skip(2) =~= tr@.subrange(2, n as int));
        }
        return single_span_line(&tr, 2, n, SpanStyle::heading());
    }
    if starts_with(&tr, "- ") || starts_with(&tr, "* ") {
        let mut mark: Vec<char> = Vec::new();
        mark.push(' ');
        mark.push(' ');
        mark.push('•');
        mark.push(' ');
        let item = chars_range(&tr, 2, n);
        proof {
            assert(mark@ =~= bullet_mark());
            assert(item@ =~= tr@.skip(2));
        }
        return led_line(&mark, &item);
    }
    if let Some((num, item)) = numbered_item_of(&tr) {
        let mut lead: Vec<char> = Vec::new();
        lead.push(' ');
        lead.push(' ');
        append_range(&mut lead, &num, 0, num.len());
        lead.push('.');
        lead.push(' ');
        proof {
            assert(lead@ =~= seq![' ', ' '] + num@ + seq!['.', ' ']);
        }
        return led_line(&lead, &item);
    }
    if n == 0 {
        let res = StyledLine { spans: Vec::new() };
        proof {
            assert(res@ =~= Seq::<SpanView>::empty());
        }
        return res;
    }
    StyledLine { spans: inline_spans_of(line) }
}

// ---------------------------------------------------------------------------
// Whole texts. A table starts at a row followed by a separator row; its body is
// the rows that follow, up to the first line that is not a row or is another
// separator.
// ---------------------------------------------------------------------------

/// End of the table body that starts at line `k`.
pub open spec fn table_end(lines: Seq<Seq<char>>, k: int) -> int
    decreases lines.len() - k,
{
    if 0 <= k < lines.len() && is_row(lines[k]) && !is_separator(lines[k]) {
        table_end(lines, k + 1)
    } else {
        k
    }
}

pub proof fn lemma_table_end(lines: Seq<Seq<char>>, k: int)
    ensures
        k <= table_end(lines, k),
        0 <= k <= lines.len() ==> table_end(lines, k) <= lines.len(),
    decreases lines.len() - k,
{
    if 0 <= k < lines.len() && is_row(lines[k]) && !is_separator(lines[k]) {
        lemma_table_end(lines, k + 1);
    }
}

pub open spec fn table_starts(lines: Seq<Seq<char>>, i: int) -> bool {
    0 <= i && i + 1 < lines.len() && is_row(lines[i]) && is_separator(lines[i + 1])
}

/// The cells of the body rows `lines[i + 2..e]` of the table that starts at line `i`.
pub open spec fn table_data(lines: Seq<Seq<char>>, i: int, e: int) -> Seq<Seq<Seq<char>>> {
    Seq::new((e - (i + 2)) as nat, |k: int| table_cells(lines[i + 2 + k]))
}

/// The styled lines for `lines[i..]`.
pub open spec fn render_from(lines: Seq<Seq<char>>, i: int) -> Seq<LineView>
    decreases lines.len() - i,
{
    if i < 0 || i >= lines.len() {
        seq![]
    } else if table_starts(lines, i) {
        let e = table_end(lines, i + 2);
        proof {
            lemma_table_end(lines, i + 2);
        }
        table_lines(table_cells(lines[i]), table_data(lines, i, e)) + render_from(lines, e)
    } else {
        seq![markdown_line(lines[i])] + render_from(lines, i + 1)
    }
}

/// The styled lines for a text.
pub open spec fn markdown_lines(content: Seq<char>) -> Seq<LineView> {
    render_from(text_lines(content), 0)
}

/// Renders a Markdown text as styled lines: `**bold**`, `*italic*`, `` `code` ``
/// (dimmed), `#`/`##`/`###` headings (bold, underlined), `-`/`*` items (led by a
/// bullet), numbered items, and pipe tables, each body row laid out as
/// "Header: value" lines.
pub fn render_markdown(content: &str) -> (res: Vec<StyledLine>)
    ensures
        lines_view(res@) == markdown_lines(content@),
{
    let lines = lines_of(content);
    let ghost ls = text_lines(content@);
    let n = lines.len();
    let mut out: Vec<StyledLine> = Vec::new();
    let mut i: usize = 0;
    proof {
        assert(lines_view(out@) + render_from(ls, 0) =~= render_from(ls, 0));
    }
    while i < n
        invariant
            i <= n,
            n == lines@.len(),
            ls.len() == n,
            forall|k: int| 0 <= k < n ==> #[trigger] lines@[k]@ == ls[k],
            lines_view(out@) + render_from(ls, i as int) == render_from(ls, 0),
        decreases n - i,
    {
        let ghost before = lines_view(out@);
        if n - i > 1 && row_chars(&lines[i]) && separator_chars(&lines[i + 1]) {
            proof {
                assert(lines@[i as int]@ == ls[i as int]);
                assert(lines@[i + 1]@ == ls[i + 1]);
                lemma_table_end(ls, i + 2);
            }
            let header = table_cells_of(&lines[i]);
            let mut data: Vec<Vec<Vec<char>>> = Vec::new();
            let mut j: usize = i + 2;
            proof {
                assert(rows_view(data@) =~= table_data(ls, i as int, j as int));
            }
            while j < n && row_chars(&lines[j]) && !separator_chars(&lines[j])
                invariant
                    i + 2 <= j <= n,
                    n == lines@.len(),
                    ls.len() == n,
                    forall|k: int| 0 <= k < n ==> #[trigger] lines@[k]@ == ls[k],
                    table_end(ls, j as int) == table_end(ls, i + 2),
                    rows_view(data@) == table_data(ls, i as int, j as int),
                decreases n - j,
            {
                proof {
                    assert(lines@[j as int]@ == ls[j as int]);
                }
                let row = table_cells_of(&lines[j]);
                let ghost prev = rows_view(data@);
                data.push(row);
                proof {
                    assert(rows_view(data@) =~= prev.push(table_cells(ls[j as int])));
                    assert(table_data(ls, i as int, j + 1) =~= table_data(ls, i as int, j as int).push(
                        table_cells(ls[j as int]),
                    ));
                }
                j = j + 1;
            }
            proof {
                if j < n {
                    assert(lines@[j as int]@ == ls[j as int]);
                }
                assert(table_end(ls, j as int) == j);
            }
            render_table(&header, &data, &mut out);
            proof {
                assert(lines_view(out@) + render_from(ls, j as int) =~= before + render_from(ls, i as int));
            }
            i = j;
        } else {
            proof {
                assert(lines@[i as int]@ == ls[i as int]);
                if n - i > 1 {
                    assert(lines@[i + 1]@ == ls[i + 1]);
                }
                assert(!table_starts(ls, i as int));
            }
            let line = render_line(&lines[i]);
            out.push(line);
            proof {
                assert(lines_view(out@) =~= before.push(markdown_line(ls[i as int])));
                assert(lines_view(out@) + render_from(ls, i + 1) =~= before + render_from(ls, i as int));
            }
            i = i + 1;
        }
    }
    proof {
        assert(lines_view(out@) + render_from(ls, i as int) =~= lines_view(out@));
    }
    out
}


// ---------------------------------------------------------------------------
// What rendering does to list items and to bold text.

/// No delimited span starts at or after `s`.
proof fn lemma_no_match_after(t: Seq<char>, s: int)
    requires
        0 <= s,
        forall|p: int| s <= p < t.len() ==> inline_match(t, p) is None,
    ensures
        next_match(t, s) is None,
    decreases t.len() - s,
{
    if s < t.len() {
        lemma_no_match_after(t, s + 1);
    }
}

proof fn lemma_close_double_found(t: Seq<char>, k: int, j: int)
    requires
        0 <= k <= j,
        j + 1 < t.len(),
        t[j] == '*',
        t[j + 1] == '*',
        forall|q: int| k <= q < j ==> t[q] != '*' && t[q] != '\n',
    ensures
        close_double(t, k) == Some(j),
    decreases j - k,
{
    if k < j {
        lemma_close_double_found(t, k + 1, j);
    }
}

/// `**b**` followed by plain text `c` renders as `b` in bold followed by `c` as it is:
/// the stars are not shown.
pub proof fn lemma_bold_then_plain(b: Seq<char>, c: Seq<char>)
    requires
        b.len() > 0,
        !b.contains('*'),
        !b.contains('\n'),
        !c.contains('*'),
        !c.contains('`'),
    ensures
        inline_spans(seq!['*', '*'] + b + seq!['*', '*'] + c) == seq![(b, bold_style())] + (if c.len() > 0 {
            seq![(c, plain())]
        } else {
            Seq::<SpanView>::empty()
        }),
{
    let t = seq!['*', '*'] + b + seq!['*', '*'] + c;
    let j: int = b.len() + 2int;
    assert(t[2] == b[0]);
    assert forall|q: int| 3 <= q < j implies t[q] != '*' && t[q] != '\n' by {
        assert(t[q] == b[q - 2]);
    }
    assert(t[j] == '*' && t[j + 1] == '*');
    lemma_close_double_found(t, 3, j);
    assert(inline_match(t, 0) == Some((2int, j as int, j + 2, bold_style())));
    assert(next_match(t, 0) == Some(0int));
    assert(t.subrange(2, j as int) =~= b);
    assert forall|p: int| j + 2 <= p < t.len() implies inline_match(t, p) is None by {
        assert(t[p] == c[p - j - 2]);
    }
    if c.len() > 0 {
        lemma_no_match_after(t, j + 2);
        assert(t.subrange(j + 2, t.len() as int) =~= c);
    }
    assert(inline_from(t, 0) == seq![(t.subrange(2, j as int), bold_style())] + inline_from(t, j + 2));
}

/// A list line `- x` (or `* x`) renders as one line: a plain bullet span, then exactly
/// the inline spans of `x`.
pub proof fn lemma_bullet_line(mark: char, x: Seq<char>)
    requires
        mark == '-' || mark == '*',
        x.len() > 0,
        !is_ws(x.last()),
        !x.contains('\n'),
    ensures
        markdown_lines(seq![mark, ' '] + x) == seq![seq![(bullet_mark(), plain())] + inline_spans(x)],
{
    let line = seq![mark, ' '] + x;
    assert(line[0] == mark);
    assert(line.last() == x.last());
    assert(!line.contains('\n')) by {
        if line.contains('\n') {
            let k = choose|k: int| 0 <= k < line.len() && line[k] == '\n';
            if k >= 2 {
                assert(x[k - 2] == '\n');
            }
        }
    }
    crate::text::lemma_trim_unchanged(line);
    crate::text::lemma_text_lines_single(line);
    assert(!has_prefix(line, seq!['#', '#', '#', ' '])) by {
        if has_prefix(line, seq!['#', '#', '#', ' ']) {
            assert(line.take(4)[0] == line[0]);
        }
    }
    assert(!has_prefix(line, seq!['#', '#', ' '])) by {
        if has_prefix(line, seq!['#', '#', ' ']) {
            assert(line.take(3)[0] == line[0]);
        }
    }
    assert(!has_prefix(line, seq!['#', ' '])) by {
        if has_prefix(line, seq!['#', ' ']) {
            assert(line.take(2)[0] == line[0]);
        }
    }
    assert(line.take(2) =~= seq![mark, ' ']);
    assert(line.skip(2) =~= x);
    assert(markdown_line(line) == seq![(bullet_mark(), plain())] + inline_spans(x));
    let ls = seq![line];
    assert(render_from(ls, 1) == Seq::<LineView>::empty());
    assert(render_from(ls, 0) == seq![markdown_line(line)] + render_from(ls, 1));
}

/// A list item that starts with a bold phrase, `- **b** c`, renders as one line of a
/// plain bullet, `b` in bold, and `c` as it is: no star is shown.
#[verifier::spinoff_prover]
pub proof fn lemma_bullet_bold_item(mark: char, b: Seq<char>, c: Seq<char>)
    requires
        mark == '-' || mark == '*',
        b.len() > 0,
        !b.contains('*'),
        !b.contains('\n'),
        !c.contains('*'),
        !c.contains('`'),
        !c.contains('\n'),
        c.len() > 0 ==> !is_ws(c.last()),
    ensures
        markdown_lines(seq![mark, ' ', '*', '*'] + b + seq!['*', '*'] + c) == seq![
            seq![(bullet_mark(), plain()), (b, bold_style())] + (if c.len() > 0 {
                seq![(c, plain())]
            } else {
                Seq::<SpanView>::empty()
            }),
        ],
{
    let x = seq!['*', '*'] + b + seq!['*', '*'] + c;
    assert(seq![mark, ' ', '*', '*'] + b + seq!['*', '*'] + c =~= seq![mark, ' '] + x);
    if c.len() > 0 {
        assert(x.last() == c.last());
    } else {
        assert(x.last() == '*');
    }
    assert(!x.contains('\n')) by {
        if x.contains('\n') {
            let k = choose|k: int| 0 <= k < x.len() && x[k] == '\n';
            if 2 <= k < b.len() + 2 {
                assert(b[k - 2] == '\n');
            } else if k >= b.len() + 4 {
                assert(c[k - b.len() - 4] == '\n');
            }
        }
    }
    lemma_bullet_line(mark, x);
    lemma_bold_then_plain(b, c);
    assert(seq![(bullet_mark(), plain())] + (seq![(b, bold_style())] + (if c.len() > 0 {
        seq![(c, plain())]
    } else {
        Seq::<SpanView>::empty()
    })) =~= seq![(bullet_mark(), plain()), (b, bold_style())] + (if c.len() > 0 {
        seq![(c, plain())]
    } else {
        Seq::<SpanView>::empty()
    }));
}

proof fn lemma_close_single_found(t: Seq<char>, k: int, j: int)
    requires
        0 <= k <= j < t.len(),
        t[j] == '*',
        forall|q: int| k <= q < j ==> t[q] != '*' && t[q] != '\n',
    ensures
        close_single(t, k) == Some(j),
    decreases j - k,
{
    if k < j {
        lemma_close_single_found(t, k + 1, j);
    }
}

proof fn lemma_close_tick_found(t: Seq<char>, k: int, j: int)
    requires
        0 <= k <= j < t.len(),
        t[j] == '`',
        forall|q: int| k <= q < j ==> t[q] != '`',
    ensures
        close_tick(t, k) == Some(j),
    decreases j - k,
{
    if k < j {
        lemma_close_tick_found(t, k + 1, j);
    }
}

/// `*b*` followed by plain text `c` renders as `b` in italics followed by `c` as it
/// is: the stars are not shown.
pub proof fn lemma_italic_then_plain(b: Seq<char>, c: Seq<char>)
    requires
        b.len() > 0,
        !b.contains('*'),
        !b.contains('\n'),
        !c.contains('*'),
        !c.contains('`'),
    ensures
        inline_spans(seq!['*'] + b + seq!['*'] + c) == seq![(b, italic_style())] + (if c.len() > 0 {
            seq![(c, plain())]
        } else {
            Seq::<SpanView>::empty()
        }),
{
    let t = seq!['*'] + b + seq!['*'] + c;
    let j: int = b.len() + 1int;
    assert(t[1] == b[0]);
    assert(b[0] != '*' && b[0] != '\n');
    assert forall|q: int| 2 <= q < j implies t[q] != '*' && t[q] != '\n' by {
        assert(t[q] == b[q - 1]);
    }
    assert(t[j] == '*');
    lemma_close_single_found(t, 2, j);
    assert(inline_match(t, 0) == Some((1int, j as int, j + 1, italic_style())));
    assert(next_match(t, 0) == Some(0int));
    assert(t.subrange(1, j as int) =~= b);
    assert forall|p: int| j + 1 <= p < t.len() implies inline_match(t, p) is None by {
        assert(t[p] == c[p - j - 1]);
    }
    if c.len() > 0 {
        lemma_no_match_after(t, j + 1);
        assert(t.subrange(j + 1, t.len() as int) =~= c);
    }
    assert(inline_from(t, 0) == seq![(t.subrange(1, j as int), italic_style())] + inline_from(t, j + 1));
}

/// `` `b` `` followed by plain text `c` renders as `b` as code followed by `c` as it
/// is: the backquotes are not shown.
pub proof fn lemma_code_then_plain(b: Seq<char>, c: Seq<char>)
    requires
        b.len() > 0,
        !b.contains('`'),
        !c.contains('*'),
        !c.contains('`'),
    ensures
        inline_spans(seq!['`'] + b + seq!['`'] + c) == seq![(b, code_style())] + (if c.len() > 0 {
            seq![(c, plain())]
        } else {
            Seq::<SpanView>::empty()
        }),
{
    let t = seq!['`'] + b + seq!['`'] + c;
    let j: int = b.len() + 1int;
    assert(t[1] == b[0]);
    assert(b[0] != '`');
    assert forall|q: int| 2 <= q < j implies t[q] != '`' by {
        assert(t[q] == b[q - 1]);
    }
    assert(t[j] == '`');
    lemma_close_tick_found(t, 2, j);
    assert(inline_match(t, 0) == Some((1int, j as int, j + 1, code_style())));
    assert(next_match(t, 0) == Some(0int));
    assert(t.subrange(1, j as int) =~= b);
    assert forall|p: int| j + 1 <= p < t.len() implies inline_match(t, p) is None by {
        assert(t[p] == c[p - j - 1]);
    }
    if c.len() > 0 {
        lemma_no_match_after(t, j + 1);
        assert(t.subrange(j + 1, t.len() as int) =~= c);
    }
    assert(inline_from(t, 0) == seq![(t.subrange(1, j as int), code_style())] + inline_from(t, j + 1));
}

/// A heading line `# x`, `## x` or `### x` renders as one line holding `x` alone, in
/// the heading style: the hashes are not shown and `x` is not parsed further.
#[verifier::spinoff_prover]
pub proof fn lemma_heading_line(hashes: Seq<char>, x: Seq<char>)
    requires
        hashes == seq!['#'] || hashes == seq!['#', '#'] || hashes == seq!['#', '#', '#'],
        x.len() > 0,
        !is_ws(x.last()),
        !x.contains('\n'),
    ensures
        markdown_lines(hashes + seq![' '] + x) == seq![seq![(x, heading_style())]],
{
    let line = hashes + seq![' '] + x;
    let h = hashes.len() as int;
    assert(line[0] == '#');
    assert(line.last() == x.last());
    assert(line[h] == ' ');
    assert(!line.contains('\n')) by {
        if line.contains('\n') {
            let k = choose|k: int| 0 <= k < line.len() && line[k] == '\n';
            if k > h {
                assert(x[k - h - 1] == '\n');
            }
        }
    }
    crate::text::lemma_trim_unchanged(line);
    crate::text::lemma_text_lines_single(line);
    if h == 3 {
        assert(line.take(4) =~= seq!['#', '#', '#', ' ']);
    } else {
        assert(!has_prefix(line, seq!['#', '#', '#', ' '])) by {
            if has_prefix(line, seq!['#', '#', '#', ' ']) {
                assert(line.take(4)[h] == line[h]);
            }
        }
        if h == 2 {
            assert(line.take(3) =~= seq!['#', '#', ' ']);
        } else {
            assert(!has_prefix(line, seq!['#', '#', ' '])) by {
                if has_prefix(line, seq!['#', '#', ' ']) {
                    assert(line.take(3)[1] == line[1]);
                }
            }
            assert(line.take(2) =~= seq!['#', ' ']);
        }
    }
    assert(line.skip(h + 1) =~= x);
    assert(heading_text(line) == Some(x));
    assert(markdown_line(line) == seq![(x, heading_style())]);
    let ls = seq![line];
    assert(render_from(ls, 1) == Seq::<LineView>::empty());
    assert(render_from(ls, 0) == seq![markdown_line(line)] + render_from(ls, 1));
}
} // verus!
