//! Text layout helpers: how an answer typed into a bordered box wraps (the way
//! ratatui's `Wrap { trim: true }` lays it out) and where the cursor lands.
use crate::text::{
    char_starts_at,
    append_range, append_str, byte_len, byte_len_at_most, byte_offset, byte_offsets, char_display_width, char_index_at_byte,
    char_index_of_byte, chars_of, display_width, is_char_start, is_whitespace, is_ws,
    lemma_byte_len_is_offset, lemma_byte_offset_monotone, lemma_char_index_at_start,
    lemma_width_sum_concat, lemma_width_sum_push, string_from_chars, width_sum,
};
use vstd::prelude::*;

pub mod markdown;

verus! {

/// A laid-out line: its text and the character range `[start, end)` it was taken from.
pub type SpecLine = (Seq<char>, int, int);

/// The state of the greedy line filler between two tokens.
pub struct WrapState {
    /// Lines completed so far.
    pub lines: Seq<SpecLine>,
    /// Text of the line being filled (empty when no word is on it yet).
    pub cur: Seq<char>,
    /// Character index at which the line being filled starts.
    pub start: int,
    /// Whitespace seen since the last word, not yet placed on a line.
    pub pend: Seq<char>,
}

/// End of the run of (non-newline) whitespace that starts at `i`.
pub open spec fn ws_run_end(t: Seq<char>, i: int) -> int
    decreases t.len() - i,
{
    if 0 <= i < t.len() && is_ws(t[i]) && t[i] != '\n' {
        ws_run_end(t, i + 1)
    } else {
        i
    }
}

/// End of the word (maximal run of non-whitespace) that starts at `i`.
pub open spec fn word_end(t: Seq<char>, i: int) -> int
    decreases t.len() - i,
{
    if 0 <= i < t.len() && !is_ws(t[i]) {
        word_end(t, i + 1)
    } else {
        i
    }
}

pub proof fn lemma_ws_run_end_bounds(t: Seq<char>, i: int)
    requires
        0 <= i <= t.len(),
    ensures
        i <= ws_run_end(t, i) <= t.len(),
        i < t.len() && is_ws(t[i]) && t[i] != '\n' ==> i < ws_run_end(t, i),
        forall|k: int| i <= k < ws_run_end(t, i) ==> is_ws(#[trigger] t[k]) && t[k] != '\n',
    decreases t.len() - i,
{
    if i < t.len() && is_ws(t[i]) && t[i] != '\n' {
        lemma_ws_run_end_bounds(t, i + 1);
    }
}

pub proof fn lemma_word_end_bounds(t: Seq<char>, i: int)
    requires
        0 <= i <= t.len(),
    ensures
        i <= word_end(t, i) <= t.len(),
        i < t.len() && !is_ws(t[i]) ==> i < word_end(t, i),
        forall|k: int| i <= k < word_end(t, i) ==> !is_ws(#[trigger] t[k]),
        word_end(t, i) < t.len() ==> is_ws(t[word_end(t, i)]),
    decreases t.len() - i,
{
    if i < t.len() && !is_ws(t[i]) {
        lemma_word_end_bounds(t, i + 1);
    }
}

/// The lines so far, plus the line being filled (ending at `end`) if it holds a word.
pub open spec fn close_line(st: WrapState, end: int) -> Seq<SpecLine> {
    if st.cur.len() > 0 {
        st.lines.push((st.cur, st.start, end))
    } else {
        st.lines
    }
}

/// Cuts the word `t[k..word_end]` that is wider than the line into pieces that fit,
/// character by character. `seg` (starting at `seg_start`) is the piece being filled.
/// Gives the lines, and the start and text of the last, unfinished piece.
pub open spec fn break_long_word(
    t: Seq<char>,
    max_width: int,
    k: int,
    word_end: int,
    seg_start: int,
    seg: Seq<char>,
    lines: Seq<SpecLine>,
) -> (Seq<SpecLine>, int, Seq<char>)
    decreases word_end - k,
{
    if k < 0 || k >= word_end || k >= t.len() {
        (lines, seg_start, seg)
    } else if width_sum(seg) + display_width(t[k]) > max_width && seg.len() > 0 {
        break_long_word(t, max_width, k + 1, word_end, k, seq![t[k]], lines.push((seg, seg_start, k)))
    } else {
        break_long_word(t, max_width, k + 1, word_end, seg_start, seg.push(t[k]), lines)
    }
}

/// Greedy line filling of `t` from character `i` on, in state `st`.
pub open spec fn wrap_from(t: Seq<char>, max_width: int, i: int, st: WrapState) -> Seq<SpecLine>
    decreases t.len() - i,
{
    if i < 0 || i >= t.len() {
        close_line(st, t.len() as int)
    } else if t[i] == '\n' {
        wrap_from(
            t,
            max_width,
            i + 1,
            WrapState { lines: close_line(st, i), cur: seq![], start: 0, pend: seq![] },
        )
    } else if is_ws(t[i]) {
        let j = ws_run_end(t, i);
        proof {
            lemma_ws_run_end_bounds(t, i);
        }
        wrap_from(
            t,
            max_width,
            j,
            WrapState { lines: st.lines, cur: st.cur, start: st.start, pend: st.pend + t.subrange(i, j) },
        )
    } else {
        let j = word_end(t, i);
        proof {
            lemma_word_end_bounds(t, i);
        }
        let word = t.subrange(i, j);
        if width_sum(word) > max_width {
            let broken = break_long_word(t, max_width, i, j, i, seq![], close_line(st, i));
            wrap_from(
                t,
                max_width,
                j,
                WrapState { lines: broken.0, cur: broken.2, start: broken.1, pend: seq![] },
            )
        } else if st.cur.len() > 0 && width_sum(st.cur) + width_sum(st.pend) + width_sum(word)
            > max_width {
            wrap_from(
                t,
                max_width,
                j,
                WrapState { lines: st.lines.push((st.cur, st.start, i)), cur: word, start: i, pend: seq![] },
            )
        } else if st.cur.len() > 0 {
            wrap_from(
                t,
                max_width,
                j,
                WrapState { lines: st.lines, cur: st.cur + st.pend + word, start: st.start, pend: seq![] },
            )
        } else {
            wrap_from(
                t,
                max_width,
                j,
                WrapState { lines: st.lines, cur: word, start: i, pend: seq![] },
            )
        }
    }
}

/// The lines that text `t` wraps into at width `max_width`: words are kept whole
/// unless wider than a line, whitespace between words on a line is kept, whitespace at
/// the start and end of lines is dropped, and `'\n'` always ends a line.
pub open spec fn wrapped_lines(t: Seq<char>, max_width: int) -> Seq<SpecLine> {
    if t.len() == 0 || max_width <= 0 {
        seq![]
    } else {
        wrap_from(t, max_width, 0, WrapState { lines: seq![], cur: seq![], start: 0, pend: seq![] })
    }
}

/// A laid-out line is a nonempty run of `t` starting at its start index, begins and ends
/// with a non-whitespace character, ends no later than where the next line's content
/// starts, and fits in `max_width` columns unless it is one character too wide to fit.
pub open spec fn good_line(t: Seq<char>, max_width: int, l: SpecLine) -> bool {
    &&& l.0.len() > 0
    &&& 0 <= l.1
    &&& l.1 + l.0.len() <= l.2 <= t.len()
    &&& l.0 == t.subrange(l.1, l.1 + l.0.len())
    &&& !is_ws(l.0[0])
    &&& !is_ws(l.0.last())
    &&& (width_sum(l.0) <= max_width || l.0.len() == 1)
}

pub open spec fn all_good(t: Seq<char>, max_width: int, ls: Seq<SpecLine>) -> bool {
    forall|k: int| 0 <= k < ls.len() ==> good_line(t, max_width, #[trigger] ls[k])
}

/// What holds of the line filler's state before the token at `i`.
pub open spec fn good_state(t: Seq<char>, max_width: int, i: int, st: WrapState) -> bool {
    &&& 0 <= i <= t.len()
    &&& all_good(t, max_width, st.lines)
    &&& st.cur.len() > 0 ==> {
        &&& good_line(t, max_width, (st.cur, st.start, i))
        &&& st.pend == t.subrange(st.start + st.cur.len(), i)
    }
}

proof fn lemma_push_good(t: Seq<char>, m: int, ls: Seq<SpecLine>, l: SpecLine)
    requires
        all_good(t, m, ls),
        good_line(t, m, l),
    ensures
        all_good(t, m, ls.push(l)),
{
    assert forall|k: int| 0 <= k < ls.push(l).len() implies good_line(t, m, #[trigger] ls.push(l)[k]) by {
        if k < ls.len() {
            assert(ls.push(l)[k] == ls[k]);
        }
    }
}

proof fn lemma_break_long_word_good(
    t: Seq<char>,
    m: int,
    k: int,
    we: int,
    seg_start: int,
    seg: Seq<char>,
    lines: Seq<SpecLine>,
)
    requires
        m > 0,
        0 <= seg_start <= k <= we <= t.len(),
        forall|q: int| seg_start <= q < we ==> !is_ws(#[trigger] t[q]),
        seg == t.subrange(seg_start, k),
        seg.len() > 0 || k < we,
        width_sum(seg) <= m || seg.len() == 1,
        all_good(t, m, lines),
    ensures
        ({
            let r = break_long_word(t, m, k, we, seg_start, seg, lines);
            &&& all_good(t, m, r.0)
            &&& r.2.len() > 0
            &&& seg_start <= r.1 && r.1 + r.2.len() == we
            &&& r.2 == t.subrange(r.1, we)
            &&& (width_sum(r.2) <= m || r.2.len() == 1)
        }),
    decreases we - k,
{
    if k < we {
        let c = t[k];
        if width_sum(seg) + display_width(c) > m && seg.len() > 0 {
            let l = (seg, seg_start, k);
            assert(seg[0] == t[seg_start]);
            assert(seg.last() == t[k - 1]);
            lemma_push_good(t, m, lines, l);
            assert(seq![c] =~= t.subrange(k, k + 1));
            assert(width_sum(seq![c]) == display_width(c)) by {
                assert(seq![c] =~= Seq::<char>::empty().push(c));
                lemma_width_sum_push(Seq::<char>::empty(), c);
            }
            lemma_break_long_word_good(t, m, k + 1, we, k, seq![c], lines.push(l));
        } else {
            lemma_width_sum_push(seg, c);
            assert(seg.push(c) =~= t.subrange(seg_start, k + 1));
            if seg.len() == 0 {
                assert(width_sum(seg) == 0);
            }
            lemma_break_long_word_good(t, m, k + 1, we, seg_start, seg.push(c), lines);
        }
    } else {
        assert(seg == t.subrange(seg_start, we));
    }
}

proof fn lemma_wrap_from_good(t: Seq<char>, m: int, i: int, st: WrapState)
    requires
        m > 0,
        good_state(t, m, i, st),
    ensures
        all_good(t, m, wrap_from(t, m, i, st)),
    decreases t.len() - i,
{
    if i >= t.len() {
        if st.cur.len() > 0 {
            lemma_push_good(t, m, st.lines, (st.cur, st.start, t.len() as int));
        }
    } else if t[i] == '\n' {
        if st.cur.len() > 0 {
            lemma_push_good(t, m, st.lines, (st.cur, st.start, i));
        }
        let next = WrapState { lines: close_line(st, i), cur: seq![], start: 0, pend: seq![] };
        lemma_wrap_from_good(t, m, i + 1, next);
    } else if is_ws(t[i]) {
        let j = ws_run_end(t, i);
        lemma_ws_run_end_bounds(t, i);
        let next = WrapState { lines: st.lines, cur: st.cur, start: st.start, pend: st.pend + t.subrange(i, j) };
        if st.cur.len() > 0 {
            assert(next.pend =~= t.subrange(st.start + st.cur.len(), j));
        }
        lemma_wrap_from_good(t, m, j, next);
    } else {
        let j = word_end(t, i);
        lemma_word_end_bounds(t, i);
        let word = t.subrange(i, j);
        assert(word[0] == t[i]);
        assert(word.last() == t[j - 1]);
        if width_sum(word) > m {
            let lines1 = close_line(st, i);
            if st.cur.len() > 0 {
                lemma_push_good(t, m, st.lines, (st.cur, st.start, i));
            }
            assert(Seq::<char>::empty() =~= t.subrange(i, i));
            lemma_break_long_word_good(t, m, i, j, i, seq![], lines1);
            let broken = break_long_word(t, m, i, j, i, seq![], lines1);
            let next = WrapState { lines: broken.0, cur: broken.2, start: broken.1, pend: seq![] };
            assert(broken.2[0] == t[broken.1]);
            assert(broken.2.last() == t[j - 1]);
            assert(next.pend =~= t.subrange(broken.1 + broken.2.len(), j));
            lemma_wrap_from_good(t, m, j, next);
        } else if st.cur.len() > 0 && width_sum(st.cur) + width_sum(st.pend) + width_sum(word) > m {
            lemma_push_good(t, m, st.lines, (st.cur, st.start, i));
            let next = WrapState { lines: st.lines.push((st.cur, st.start, i)), cur: word, start: i, pend: seq![] };
            assert(next.pend =~= t.subrange(i + word.len(), j));
            lemma_wrap_from_good(t, m, j, next);
        } else if st.cur.len() > 0 {
            let c2 = st.cur + st.pend + word;
            assert(c2 =~= t.subrange(st.start, j));
            lemma_width_sum_concat(st.cur, st.pend);
            lemma_width_sum_concat(st.cur + st.pend, word);
            assert(c2[0] == st.cur[0]);
            assert(c2.last() == word.last());
            let next = WrapState { lines: st.lines, cur: c2, start: st.start, pend: seq![] };
            assert(next.pend =~= t.subrange(st.start + c2.len(), j));
            lemma_wrap_from_good(t, m, j, next);
        } else {
            let next = WrapState { lines: st.lines, cur: word, start: i, pend: seq![] };
            assert(next.pend =~= t.subrange(i + word.len(), j));
            lemma_wrap_from_good(t, m, j, next);
        }
    }
}

/// Every line that text wraps into is a nonempty piece of the text taken from its start
/// position on, with no whitespace at either end, that fits the width unless it is a
/// single character wider than the whole line.
pub proof fn lemma_wrapped_lines_good(t: Seq<char>, max_width: int)
    ensures
        all_good(t, max_width, wrapped_lines(t, max_width)),
{
    if t.len() > 0 && max_width > 0 {
        let st = WrapState { lines: seq![], cur: seq![], start: 0, pend: seq![] };
        lemma_wrap_from_good(t, max_width, 0, st);
    }
}

/// Each line ends no later than any later line starts.
pub open spec fn lines_in_order(ls: Seq<SpecLine>) -> bool {
    forall|a: int, b: int| 0 <= a < b < ls.len() ==> #[trigger] ls[a].2 <= #[trigger] ls[b].1
}

/// Every line ends by position `p`.
pub open spec fn ends_by(ls: Seq<SpecLine>, p: int) -> bool {
    forall|a: int| 0 <= a < ls.len() ==> #[trigger] ls[a].2 <= p
}

/// What holds of the line filler's state before the token at `i`, for the order of lines.
pub open spec fn ordered_state(t: Seq<char>, i: int, st: WrapState) -> bool {
    &&& 0 <= i <= t.len()
    &&& lines_in_order(st.lines)
    &&& ends_by(st.lines, i)
    &&& st.cur.len() > 0 ==> ends_by(st.lines, st.start) && st.start <= i
}

proof fn lemma_push_ordered(ls: Seq<SpecLine>, l: SpecLine, p: int)
    requires
        lines_in_order(ls),
        ends_by(ls, l.1),
        l.1 <= l.2 <= p,
        ends_by(ls, p),
    ensures
        lines_in_order(ls.push(l)),
        ends_by(ls.push(l), p),
        ends_by(ls.push(l), l.2),
{
    let n = ls.push(l);
    assert forall|a: int, b: int| 0 <= a < b < n.len() implies #[trigger] n[a].2 <= #[trigger] n[b].1 by {
        assert(n[a] == ls[a]);
        if b < ls.len() {
            assert(n[b] == ls[b]);
        }
    }
    assert forall|a: int| 0 <= a < n.len() implies #[trigger] n[a].2 <= l.2 by {
        if a < ls.len() {
            assert(n[a] == ls[a]);
            assert(ls[a].2 <= l.1);
        }
    }
    assert forall|a: int| 0 <= a < n.len() implies #[trigger] n[a].2 <= p by {
        if a < ls.len() {
            assert(n[a] == ls[a]);
        }
    }
}

proof fn lemma_ends_by_weaken(ls: Seq<SpecLine>, p: int, q: int)
    requires
        ends_by(ls, p),
        p <= q,
    ensures
        ends_by(ls, q),
{
}

proof fn lemma_close_line_ordered(t: Seq<char>, i: int, st: WrapState)
    requires
        ordered_state(t, i, st),
    ensures
        lines_in_order(close_line(st, i)),
        ends_by(close_line(st, i), i),
{
    if st.cur.len() > 0 {
        lemma_push_ordered(st.lines, (st.cur, st.start, i), i);
    }
}

proof fn lemma_break_long_word_ordered(
    t: Seq<char>,
    m: int,
    k: int,
    we: int,
    seg_start: int,
    seg: Seq<char>,
    lines: Seq<SpecLine>,
)
    requires
        seg_start <= k <= we,
        lines_in_order(lines),
        ends_by(lines, seg_start),
    ensures
        ({
            let r = break_long_word(t, m, k, we, seg_start, seg, lines);
            &&& lines_in_order(r.0)
            &&& ends_by(r.0, r.1)
            &&& seg_start <= r.1 <= we
        }),
    decreases we - k,
{
    if 0 <= k && k < we && k < t.len() {
        if width_sum(seg) + display_width(t[k]) > m && seg.len() > 0 {
            lemma_push_ordered(lines, (seg, seg_start, k), k);
            lemma_break_long_word_ordered(t, m, k + 1, we, k, seq![t[k]], lines.push((seg, seg_start, k)));
        } else {
            lemma_break_long_word_ordered(t, m, k + 1, we, seg_start, seg.push(t[k]), lines);
        }
    }
}

proof fn lemma_wrap_from_ordered(t: Seq<char>, m: int, i: int, st: WrapState)
    requires
        ordered_state(t, i, st),
    ensures
        lines_in_order(wrap_from(t, m, i, st)),
    decreases t.len() - i,
{
    if i >= t.len() {
        lemma_close_line_ordered(t, i, st);
    } else if t[i] == '\n' {
        lemma_close_line_ordered(t, i, st);
        let next = WrapState { lines: close_line(st, i), cur: seq![], start: 0, pend: seq![] };
        lemma_ends_by_weaken(close_line(st, i), i, i + 1);
        lemma_wrap_from_ordered(t, m, i + 1, next);
    } else if is_ws(t[i]) {
        let j = ws_run_end(t, i);
        lemma_ws_run_end_bounds(t, i);
        let next = WrapState { lines: st.lines, cur: st.cur, start: st.start, pend: st.pend + t.subrange(i, j) };
        lemma_ends_by_weaken(st.lines, i, j);
        lemma_wrap_from_ordered(t, m, j, next);
    } else {
        let j = word_end(t, i);
        lemma_word_end_bounds(t, i);
        let word = t.subrange(i, j);
        if width_sum(word) > m {
            let lines1 = close_line(st, i);
            lemma_close_line_ordered(t, i, st);
            lemma_break_long_word_ordered(t, m, i, j, i, seq![], lines1);
            let broken = break_long_word(t, m, i, j, i, seq![], lines1);
            let next = WrapState { lines: broken.0, cur: broken.2, start: broken.1, pend: seq![] };
            lemma_ends_by_weaken(broken.0, broken.1, j);
            lemma_wrap_from_ordered(t, m, j, next);
        } else if st.cur.len() > 0 && width_sum(st.cur) + width_sum(st.pend) + width_sum(word) > m {
            lemma_push_ordered(st.lines, (st.cur, st.start, i), i);
            let next = WrapState { lines: st.lines.push((st.cur, st.start, i)), cur: word, start: i, pend: seq![] };
            lemma_ends_by_weaken(next.lines, i, j);
            lemma_wrap_from_ordered(t, m, j, next);
        } else if st.cur.len() > 0 {
            let next = WrapState { lines: st.lines, cur: st.cur + st.pend + word, start: st.start, pend: seq![] };
            lemma_ends_by_weaken(st.lines, i, j);
            lemma_wrap_from_ordered(t, m, j, next);
        } else {
            let next = WrapState { lines: st.lines, cur: word, start: i, pend: seq![] };
            lemma_ends_by_weaken(st.lines, i, j);
            lemma_wrap_from_ordered(t, m, j, next);
        }
    }
}

/// The wrapped lines come in the order of the text: each is a nonempty run that ends
/// no later than the next one starts.
pub proof fn lemma_wrapped_lines_in_order(t: Seq<char>, max_width: int)
    ensures
        lines_in_order(wrapped_lines(t, max_width)),
        forall|k: int|
            0 <= k < wrapped_lines(t, max_width).len() ==> 0 <= #[trigger] wrapped_lines(t, max_width)[k].1
                < wrapped_lines(t, max_width)[k].2 <= t.len(),
{
    lemma_wrapped_lines_good(t, max_width);
    if t.len() > 0 && max_width > 0 {
        let st = WrapState { lines: seq![], cur: seq![], start: 0, pend: seq![] };
        lemma_wrap_from_ordered(t, max_width, 0, st);
    }
    let ls = wrapped_lines(t, max_width);
    assert forall|k: int| 0 <= k < ls.len() implies 0 <= #[trigger] ls[k].1 < ls[k].2 <= t.len() by {
        assert(good_line(t, max_width, ls[k]));
    }
}

/// Character `q` of the text lies in the content of one of the lines.
pub open spec fn covered(ls: Seq<SpecLine>, q: int) -> bool {
    exists|k: int| 0 <= k < ls.len() && #[trigger] ls[k].1 <= q < ls[k].1 + ls[k].0.len()
}

/// What holds of the line filler's state before the token at `i`, for which characters
/// the lines hold: every non-whitespace character before `i` is on a line already laid
/// out or on the line being filled.
pub open spec fn cover_state(t: Seq<char>, i: int, st: WrapState) -> bool {
    &&& 0 <= i <= t.len()
    &&& st.cur.len() > 0 ==> st.start + st.cur.len() + st.pend.len() == i
    &&& forall|q: int|
        0 <= q < i && !is_ws(#[trigger] t[q]) ==> covered(st.lines, q) || (st.cur.len() > 0 && st.start <= q
            < st.start + st.cur.len())
}

proof fn lemma_covered_push(ls: Seq<SpecLine>, l: SpecLine, q: int)
    requires
        covered(ls, q) || l.1 <= q < l.1 + l.0.len(),
    ensures
        covered(ls.push(l), q),
{
    let n = ls.push(l);
    if covered(ls, q) {
        let k = choose|k: int| 0 <= k < ls.len() && #[trigger] ls[k].1 <= q < ls[k].1 + ls[k].0.len();
        assert(n[k] == ls[k]);
    } else {
        assert(n[ls.len() as int] == l);
    }
}

proof fn lemma_break_long_word_covers(
    t: Seq<char>,
    m: int,
    k: int,
    we: int,
    s0: int,
    seg_start: int,
    seg: Seq<char>,
    lines: Seq<SpecLine>,
)
    requires
        0 <= s0 <= seg_start <= k <= we <= t.len(),
        seg.len() == k - seg_start,
        forall|q: int| s0 <= q < seg_start ==> covered(lines, q),
    ensures
        ({
            let r = break_long_word(t, m, k, we, seg_start, seg, lines);
            &&& r.1 + r.2.len() == we
            &&& s0 <= r.1
            &&& forall|q: int| s0 <= q < r.1 ==> covered(r.0, q)
            &&& forall|q: int| covered(lines, q) ==> covered(r.0, q)
        }),
    decreases we - k,
{
    if 0 <= k && k < we && k < t.len() {
        if width_sum(seg) + display_width(t[k]) > m && seg.len() > 0 {
            let l = (seg, seg_start, k);
            let n = lines.push(l);
            assert forall|q: int| s0 <= q < k implies covered(n, q) by {
                lemma_covered_push(lines, l, q);
            }
            assert forall|q: int| covered(lines, q) implies covered(n, q) by {
                lemma_covered_push(lines, l, q);
            }
            lemma_break_long_word_covers(t, m, k + 1, we, s0, k, seq![t[k]], n);
            let r = break_long_word(t, m, k + 1, we, k, seq![t[k]], n);
            assert(break_long_word(t, m, k, we, seg_start, seg, lines) == r);
            assert forall|q: int| covered(lines, q) implies covered(r.0, q) by {
                lemma_covered_push(lines, l, q);
            }
        } else {
            lemma_break_long_word_covers(t, m, k + 1, we, s0, seg_start, seg.push(t[k]), lines);
            assert(break_long_word(t, m, k, we, seg_start, seg, lines) == break_long_word(
                t,
                m,
                k + 1,
                we,
                seg_start,
                seg.push(t[k]),
                lines,
            ));
        }
    } else {
        assert(k == we);
    }
}

proof fn lemma_wrap_from_covers(t: Seq<char>, m: int, i: int, st: WrapState)
    requires
        cover_state(t, i, st),
    ensures
        forall|q: int| 0 <= q < t.len() && !is_ws(#[trigger] t[q]) ==> covered(wrap_from(t, m, i, st), q),
    decreases t.len() - i,
{
    if i >= t.len() {
        assert forall|q: int| 0 <= q < t.len() && !is_ws(#[trigger] t[q]) implies covered(close_line(st, i), q) by {
            if st.cur.len() > 0 {
                lemma_covered_push(st.lines, (st.cur, st.start, i), q);
            }
        }
    } else if t[i] == '\n' {
        let lines1 = close_line(st, i);
        assert forall|q: int| 0 <= q < i + 1 && !is_ws(#[trigger] t[q]) implies covered(lines1, q) by {
            if st.cur.len() > 0 {
                lemma_covered_push(st.lines, (st.cur, st.start, i), q);
            }
        }
        let next = WrapState { lines: lines1, cur: seq![], start: 0, pend: seq![] };
        lemma_wrap_from_covers(t, m, i + 1, next);
    } else if is_ws(t[i]) {
        let j = ws_run_end(t, i);
        lemma_ws_run_end_bounds(t, i);
        let next = WrapState { lines: st.lines, cur: st.cur, start: st.start, pend: st.pend + t.subrange(i, j) };
        lemma_wrap_from_covers(t, m, j, next);
    } else {
        let j = word_end(t, i);
        lemma_word_end_bounds(t, i);
        let word = t.subrange(i, j);
        if width_sum(word) > m {
            let lines1 = close_line(st, i);
            assert forall|q: int| 0 <= q < i && !is_ws(#[trigger] t[q]) implies covered(lines1, q) by {
                if st.cur.len() > 0 {
                    lemma_covered_push(st.lines, (st.cur, st.start, i), q);
                }
            }
            lemma_break_long_word_covers(t, m, i, j, i, i, seq![], lines1);
            let broken = break_long_word(t, m, i, j, i, seq![], lines1);
            let next = WrapState { lines: broken.0, cur: broken.2, start: broken.1, pend: seq![] };
            lemma_wrap_from_covers(t, m, j, next);
        } else if st.cur.len() > 0 && width_sum(st.cur) + width_sum(st.pend) + width_sum(word) > m {
            let l = (st.cur, st.start, i);
            let next = WrapState { lines: st.lines.push(l), cur: word, start: i, pend: seq![] };
            assert forall|q: int| 0 <= q < j && !is_ws(#[trigger] t[q]) implies covered(next.lines, q) || (
            next.cur.len() > 0 && next.start <= q < next.start + next.cur.len()) by {
                if q < i {
                    lemma_covered_push(st.lines, l, q);
                }
            }
            lemma_wrap_from_covers(t, m, j, next);
        } else if st.cur.len() > 0 {
            let next = WrapState { lines: st.lines, cur: st.cur + st.pend + word, start: st.start, pend: seq![] };
            lemma_wrap_from_covers(t, m, j, next);
        } else {
            let next = WrapState { lines: st.lines, cur: word, start: i, pend: seq![] };
            lemma_wrap_from_covers(t, m, j, next);
        }
    }
}

/// Wrapping loses no word: every non-whitespace character of the text lies on a wrapped
/// line (when the width is positive), and with `lemma_wrapped_lines_in_order` the lines
/// hold them in the order of the text.
pub proof fn lemma_wrapped_lines_cover(t: Seq<char>, max_width: int)
    requires
        max_width > 0,
    ensures
        forall|q: int| 0 <= q < t.len() && !is_ws(#[trigger] t[q]) ==> covered(wrapped_lines(t, max_width), q),
{
    if t.len() > 0 {
        let st = WrapState { lines: seq![], cur: seq![], start: 0, pend: seq![] };
        lemma_wrap_from_covers(t, max_width, 0, st);
    }
}

/// Between the text of one wrapped line and the start of the next there is only
/// whitespace.
pub proof fn lemma_wrapped_gaps_blank(t: Seq<char>, max_width: int, i: int, q: int)
    requires
        max_width > 0,
        0 <= i,
        i + 1 < wrapped_lines(t, max_width).len(),
        wrapped_lines(t, max_width)[i].1 + wrapped_lines(t, max_width)[i].0.len() <= q < wrapped_lines(
            t,
            max_width,
        )[i + 1].1,
    ensures
        is_ws(t[q]),
{
    let ls = wrapped_lines(t, max_width);
    lemma_wrapped_lines_in_order(t, max_width);
    lemma_wrapped_lines_good(t, max_width);
    lemma_wrapped_lines_cover(t, max_width);
    assert(good_line(t, max_width, ls[i]));
    assert(good_line(t, max_width, ls[i + 1]));
    assert(0 <= q < t.len());
    if !is_ws(t[q]) {
        assert(covered(ls, q));
        let k = choose|k: int| 0 <= k < ls.len() && #[trigger] ls[k].1 <= q < ls[k].1 + ls[k].0.len();
        assert(good_line(t, max_width, ls[k]));
        if k < i {
            assert(ls[k].2 <= ls[i].1);
        } else if k > i + 1 {
            assert(ls[i + 1].2 <= ls[k].1);
        }
    }
}

/// Line `n` starts where line `l` ends, unless `l` was ended by a line break.
pub open spec fn follows(t: Seq<char>, l: SpecLine, n: SpecLine) -> bool {
    l.2 == n.1 || (0 <= l.2 < t.len() && t[l.2] == '\n')
}

/// Each line starts where the one before it ends, unless a line break ended that one.
pub open spec fn lines_contiguous(t: Seq<char>, ls: Seq<SpecLine>) -> bool {
    forall|a: int, b: int| 0 <= a && b == a + 1 && b < ls.len() ==> #[trigger] follows(t, ls[a], ls[b])
}

/// What holds of the line filler's state for contiguity: the last line laid out was
/// ended by a line break, or the line being filled starts where it ends.
pub open spec fn contiguous_state(t: Seq<char>, st: WrapState) -> bool {
    &&& lines_contiguous(t, st.lines)
    &&& st.lines.len() > 0 ==> {
        let e = st.lines.last().2;
        (0 <= e < t.len() && t[e] == '\n') || (st.cur.len() > 0 && st.start == e)
    }
}

proof fn lemma_push_contiguous(t: Seq<char>, ls: Seq<SpecLine>, l: SpecLine)
    requires
        lines_contiguous(t, ls),
        ls.len() > 0 ==> follows(t, ls.last(), l),
    ensures
        lines_contiguous(t, ls.push(l)),
{
    let n = ls.push(l);
    assert forall|a: int, b: int| 0 <= a && b == a + 1 && b < n.len() implies #[trigger] follows(t, n[a], n[b]) by {
        assert(n[a] == ls[a]);
        if b < ls.len() {
            assert(n[b] == ls[b]);
            assert(follows(t, ls[a], ls[b]));
        } else {
            assert(n[b] == l);
        }
    }
}

proof fn lemma_break_long_word_contiguous(
    t: Seq<char>,
    m: int,
    k: int,
    we: int,
    seg_start: int,
    seg: Seq<char>,
    lines: Seq<SpecLine>,
)
    requires
        lines_contiguous(t, lines),
        lines.len() > 0 ==> {
            let e = lines.last().2;
            (0 <= e < t.len() && t[e] == '\n') || e == seg_start
        },
    ensures
        ({
            let r = break_long_word(t, m, k, we, seg_start, seg, lines);
            &&& lines_contiguous(t, r.0)
            &&& (seg.len() > 0 || (0 <= k && k < we && we <= t.len())) ==> r.2.len() > 0
            &&& r.0.len() > 0 ==> {
                let e = r.0.last().2;
                (0 <= e < t.len() && t[e] == '\n') || e == r.1
            }
        }),
    decreases we - k,
{
    if 0 <= k && k < we && k < t.len() {
        if width_sum(seg) + display_width(t[k]) > m && seg.len() > 0 {
            let l = (seg, seg_start, k);
            lemma_push_contiguous(t, lines, l);
            lemma_break_long_word_contiguous(t, m, k + 1, we, k, seq![t[k]], lines.push(l));
        } else {
            lemma_break_long_word_contiguous(t, m, k + 1, we, seg_start, seg.push(t[k]), lines);
        }
    }
}

proof fn lemma_wrap_from_contiguous(t: Seq<char>, m: int, i: int, st: WrapState)
    requires
        0 <= i <= t.len(),
        contiguous_state(t, st),
    ensures
        lines_contiguous(t, wrap_from(t, m, i, st)),
    decreases t.len() - i,
{
    if i >= t.len() {
        if st.cur.len() > 0 {
            lemma_push_contiguous(t, st.lines, (st.cur, st.start, i));
        }
    } else if t[i] == '\n' {
        if st.cur.len() > 0 {
            lemma_push_contiguous(t, st.lines, (st.cur, st.start, i));
        }
        let next = WrapState { lines: close_line(st, i), cur: seq![], start: 0, pend: seq![] };
        lemma_wrap_from_contiguous(t, m, i + 1, next);
    } else if is_ws(t[i]) {
        let j = ws_run_end(t, i);
        lemma_ws_run_end_bounds(t, i);
        let next = WrapState { lines: st.lines, cur: st.cur, start: st.start, pend: st.pend + t.subrange(i, j) };
        lemma_wrap_from_contiguous(t, m, j, next);
    } else {
        let j = word_end(t, i);
        lemma_word_end_bounds(t, i);
        let word = t.subrange(i, j);
        if width_sum(word) > m {
            let lines1 = close_line(st, i);
            if st.cur.len() > 0 {
                lemma_push_contiguous(t, st.lines, (st.cur, st.start, i));
            }
            lemma_break_long_word_contiguous(t, m, i, j, i, seq![], lines1);
            let broken = break_long_word(t, m, i, j, i, seq![], lines1);
            let next = WrapState { lines: broken.0, cur: broken.2, start: broken.1, pend: seq![] };
            lemma_wrap_from_contiguous(t, m, j, next);
        } else if st.cur.len() > 0 && width_sum(st.cur) + width_sum(st.pend) + width_sum(word) > m {
            lemma_push_contiguous(t, st.lines, (st.cur, st.start, i));
            let next = WrapState { lines: st.lines.push((st.cur, st.start, i)), cur: word, start: i, pend: seq![] };
            lemma_wrap_from_contiguous(t, m, j, next);
        } else if st.cur.len() > 0 {
            let next = WrapState { lines: st.lines, cur: st.cur + st.pend + word, start: st.start, pend: seq![] };
            lemma_wrap_from_contiguous(t, m, j, next);
        } else {
            let next = WrapState { lines: st.lines, cur: word, start: i, pend: seq![] };
            lemma_wrap_from_contiguous(t, m, j, next);
        }
    }
}

/// Wrapped lines are contiguous: each starts where the one before it ends, unless a line
/// break in the text ended that one (it then ends at the `'\n'`).
pub proof fn lemma_wrapped_lines_contiguous(t: Seq<char>, max_width: int)
    ensures
        lines_contiguous(t, wrapped_lines(t, max_width)),
{
    if t.len() > 0 && max_width > 0 {
        let st = WrapState { lines: seq![], cur: seq![], start: 0, pend: seq![] };
        lemma_wrap_from_contiguous(t, max_width, 0, st);
    }
}

/// Line `l` was ended for a reason: by a line break, or because the word at its end
/// position does not fit a line at all, or does not fit on `l` together with the
/// whitespace before it.
pub open spec fn line_broken_for(t: Seq<char>, max_width: int, l: SpecLine) -> bool {
    ||| (0 <= l.2 < t.len() && t[l.2] == '\n')
    ||| width_sum(t.subrange(l.2, word_end(t, l.2))) > max_width
    ||| width_sum(t.subrange(l.1, word_end(t, l.2))) > max_width
}

pub open spec fn all_broken_for(t: Seq<char>, max_width: int, ls: Seq<SpecLine>) -> bool {
    forall|a: int| 0 <= a < ls.len() ==> line_broken_for(t, max_width, #[trigger] ls[a])
}

proof fn lemma_push_broken_for(t: Seq<char>, m: int, ls: Seq<SpecLine>, l: SpecLine)
    requires
        all_broken_for(t, m, ls),
        line_broken_for(t, m, l),
    ensures
        all_broken_for(t, m, ls.push(l)),
{
    assert forall|a: int| 0 <= a < ls.push(l).len() implies line_broken_for(t, m, #[trigger] ls.push(l)[a]) by {
        if a < ls.len() {
            assert(ls.push(l)[a] == ls[a]);
        }
    }
}

/// Inside a word, the word ends where it ends from its start.
proof fn lemma_word_end_inside(t: Seq<char>, i: int, k: int)
    requires
        0 <= i <= k <= word_end(t, i),
        i <= t.len(),
    ensures
        word_end(t, k) == word_end(t, i),
    decreases k - i,
{
    lemma_word_end_bounds(t, i);
    if i < k {
        assert(i < t.len() && !is_ws(t[i]));
        lemma_word_end_inside(t, i + 1, k);
    }
}

proof fn lemma_break_long_word_broken_for(
    t: Seq<char>,
    m: int,
    k: int,
    we: int,
    seg_start: int,
    seg: Seq<char>,
    lines: Seq<SpecLine>,
)
    requires
        0 <= seg_start <= k <= we <= t.len(),
        we == word_end(t, seg_start),
        seg == t.subrange(seg_start, k),
        all_broken_for(t, m, lines),
    ensures
        all_broken_for(t, m, break_long_word(t, m, k, we, seg_start, seg, lines).0),
    decreases we - k,
{
    if k < we {
        let c = t[k];
        lemma_word_end_bounds(t, seg_start);
        if width_sum(seg) + display_width(c) > m && seg.len() > 0 {
            let l = (seg, seg_start, k);
            lemma_word_end_inside(t, seg_start, k);
            let rest = t.subrange(k, we);
            assert(t.subrange(seg_start, we) =~= seg + rest);
            lemma_width_sum_concat(seg, rest);
            assert(rest =~= seq![c] + rest.drop_first());
            lemma_width_sum_concat(seq![c], rest.drop_first());
            assert(seq![c] =~= Seq::<char>::empty().push(c));
            lemma_width_sum_push(Seq::<char>::empty(), c);
            assert(line_broken_for(t, m, l));
            lemma_push_broken_for(t, m, lines, l);
            lemma_word_end_inside(t, seg_start, k);
            assert(seq![c] =~= t.subrange(k, k + 1));
            lemma_break_long_word_broken_for(t, m, k + 1, we, k, seq![c], lines.push(l));
        } else {
            assert(seg.push(c) =~= t.subrange(seg_start, k + 1));
            lemma_break_long_word_broken_for(t, m, k + 1, we, seg_start, seg.push(c), lines);
        }
    }
}

proof fn lemma_wrap_from_broken_for(t: Seq<char>, m: int, i: int, st: WrapState)
    requires
        m > 0,
        good_state(t, m, i, st),
        all_broken_for(t, m, st.lines),
    ensures
        forall|a: int|
            0 <= a < wrap_from(t, m, i, st).len() - 1 ==> line_broken_for(t, m, #[trigger] wrap_from(t, m, i, st)[a]),
    decreases t.len() - i,
{
    if i >= t.len() {
        let r = close_line(st, i);
        assert(wrap_from(t, m, i, st) == r);
        assert forall|a: int| 0 <= a < r.len() - 1 implies line_broken_for(t, m, #[trigger] r[a]) by {
            if st.cur.len() > 0 {
                assert(r[a] == st.lines[a]);
            }
            assert(line_broken_for(t, m, st.lines[a]));
        }
    } else if t[i] == '\n' {
        if st.cur.len() > 0 {
            lemma_push_good(t, m, st.lines, (st.cur, st.start, i));
            lemma_push_broken_for(t, m, st.lines, (st.cur, st.start, i));
        }
        let next = WrapState { lines: close_line(st, i), cur: seq![], start: 0, pend: seq![] };
        lemma_wrap_from_broken_for(t, m, i + 1, next);
        assert(wrap_from(t, m, i, st) == wrap_from(t, m, i + 1, next));
    } else if is_ws(t[i]) {
        let j = ws_run_end(t, i);
        lemma_ws_run_end_bounds(t, i);
        let next = WrapState { lines: st.lines, cur: st.cur, start: st.start, pend: st.pend + t.subrange(i, j) };
        if st.cur.len() > 0 {
            assert(next.pend =~= t.subrange(st.start + st.cur.len(), j));
        }
        lemma_wrap_from_broken_for(t, m, j, next);
        assert(wrap_from(t, m, i, st) == wrap_from(t, m, j, next));
    } else {
        let j = word_end(t, i);
        lemma_word_end_bounds(t, i);
        let word = t.subrange(i, j);
        assert(word[0] == t[i]);
        assert(word.last() == t[j - 1]);
        if width_sum(word) > m {
            let lines1 = close_line(st, i);
            if st.cur.len() > 0 {
                lemma_push_good(t, m, st.lines, (st.cur, st.start, i));
                lemma_push_broken_for(t, m, st.lines, (st.cur, st.start, i));
            }
            assert(Seq::<char>::empty() =~= t.subrange(i, i));
            lemma_break_long_word_good(t, m, i, j, i, seq![], lines1);
            lemma_break_long_word_broken_for(t, m, i, j, i, seq![], lines1);
            let broken = break_long_word(t, m, i, j, i, seq![], lines1);
            let next = WrapState { lines: broken.0, cur: broken.2, start: broken.1, pend: seq![] };
            assert(broken.2[0] == t[broken.1]);
            assert(broken.2.last() == t[j - 1]);
            assert(next.pend =~= t.subrange(broken.1 + broken.2.len(), j));
            lemma_wrap_from_broken_for(t, m, j, next);
            assert(wrap_from(t, m, i, st) == wrap_from(t, m, j, next));
        } else if st.cur.len() > 0 && width_sum(st.cur) + width_sum(st.pend) + width_sum(word) > m {
            let l = (st.cur, st.start, i);
            lemma_push_good(t, m, st.lines, l);
            assert(t.subrange(st.start, j) =~= st.cur + st.pend + word);
            lemma_width_sum_concat(st.cur, st.pend);
            lemma_width_sum_concat(st.cur + st.pend, word);
            assert(line_broken_for(t, m, l));
            lemma_push_broken_for(t, m, st.lines, l);
            let next = WrapState { lines: st.lines.push(l), cur: word, start: i, pend: seq![] };
            assert(next.pend =~= t.subrange(i + word.len(), j));
            lemma_wrap_from_broken_for(t, m, j, next);
            assert(wrap_from(t, m, i, st) == wrap_from(t, m, j, next));
        } else if st.cur.len() > 0 {
            let c2 = st.cur + st.pend + word;
            assert(c2 =~= t.subrange(st.start, j));
            lemma_width_sum_concat(st.cur, st.pend);
            lemma_width_sum_concat(st.cur + st.pend, word);
            assert(c2[0] == st.cur[0]);
            assert(c2.last() == word.last());
            let next = WrapState { lines: st.lines, cur: c2, start: st.start, pend: seq![] };
            assert(next.pend =~= t.subrange(st.start + c2.len(), j));
            lemma_wrap_from_broken_for(t, m, j, next);
            assert(wrap_from(t, m, i, st) == wrap_from(t, m, j, next));
        } else {
            let next = WrapState { lines: st.lines, cur: word, start: i, pend: seq![] };
            assert(next.pend =~= t.subrange(i + word.len(), j));
            lemma_wrap_from_broken_for(t, m, j, next);
            assert(wrap_from(t, m, i, st) == wrap_from(t, m, j, next));
        }
    }
}

/// Wrapping is greedy: where a line ends without a line break, the next line starts
/// with a word that, if it fits a line at all, would not fit on the line before it
/// together with the whitespace before it.
pub proof fn lemma_wrapped_lines_greedy(t: Seq<char>, max_width: int, i: int)
    requires
        max_width > 0,
        0 <= i,
        i + 1 < wrapped_lines(t, max_width).len(),
        wrapped_lines(t, max_width)[i].2 == wrapped_lines(t, max_width)[i + 1].1,
        width_sum(
            t.subrange(
                wrapped_lines(t, max_width)[i + 1].1,
                word_end(t, wrapped_lines(t, max_width)[i + 1].1),
            ),
        ) <= max_width,
    ensures
        width_sum(
            t.subrange(wrapped_lines(t, max_width)[i].1, word_end(t, wrapped_lines(t, max_width)[i + 1].1)),
        ) > max_width,
{
    let ls = wrapped_lines(t, max_width);
    let st = WrapState { lines: seq![], cur: seq![], start: 0, pend: seq![] };
    lemma_wrap_from_broken_for(t, max_width, 0, st);
    lemma_wrapped_lines_good(t, max_width);
    assert(good_line(t, max_width, ls[i + 1]));
    assert(ls[i + 1].0[0] == t[ls[i + 1].1]);
    assert(line_broken_for(t, max_width, ls[i]));
}

/// When every character fits the width on its own, no wrapped line is wider than the
/// width (whitespace inside a line counted with its own width).
pub proof fn lemma_wrapped_lines_fit(t: Seq<char>, max_width: int)
    requires
        forall|i: int| 0 <= i < t.len() ==> display_width(#[trigger] t[i]) <= max_width,
    ensures
        forall|k: int|
            0 <= k < wrapped_lines(t, max_width).len() ==> width_sum(#[trigger] wrapped_lines(t, max_width)[k].0)
                <= max_width,
{
    lemma_wrapped_lines_good(t, max_width);
    let ls = wrapped_lines(t, max_width);
    assert forall|k: int| 0 <= k < ls.len() implies width_sum(#[trigger] ls[k].0) <= max_width by {
        assert(good_line(t, max_width, ls[k]));
        let l = ls[k];
        if l.0.len() == 1 {
            assert(l.0[0] == t[l.1]);
            assert(l.0.drop_last().len() == 0);
            assert(width_sum(l.0.drop_last()) == 0);
        }
    }
}

/// A wrapped line as returned: (text, start byte, end byte, start char, end char).
pub type LineInfo = (String, usize, usize, usize, usize);

pub open spec fn line_view(l: LineInfo) -> SpecLine {
    (l.0@, l.3 as int, l.4 as int)
}

pub open spec fn lines_view(v: Seq<LineInfo>) -> Seq<SpecLine> {
    v.map_values(|l: LineInfo| line_view(l))
}

/// Every line's byte range is the UTF-8 image of its character range in `t`.
pub open spec fn byte_ranges_match(v: Seq<LineInfo>, t: Seq<char>) -> bool {
    forall|k: int|
        #![trigger v[k]]
        0 <= k < v.len() ==> v[k].1 == byte_offset(t, v[k].3 as int) && v[k].2 == byte_offset(
            t,
            v[k].4 as int,
        )
}

fn push_line(
    lines: &mut Vec<LineInfo>,
    text: &Vec<char>,
    offs: &Vec<usize>,
    content: &Vec<char>,
    start: usize,
    end: usize,
)
    requires
        start <= end <= text@.len(),
        offs@.len() == text@.len() + 1,
        forall|k: int| 0 <= k <= text@.len() ==> offs@[k] == byte_offset(text@, k),
        byte_ranges_match(old(lines)@, text@),
    ensures
        lines_view(final(lines)@) == lines_view(old(lines)@).push((content@, start as int, end as int)),
        byte_ranges_match(final(lines)@, text@),
{
    let s = string_from_chars(content);
    lines.push((s, offs[start], offs[end], start, end));
    proof {
        assert(lines_view(lines@) =~= lines_view(old(lines)@).push((content@, start as int, end as int)));
    }
}

/// Splits `text` into the lines it occupies when wrapped at `max_width` columns,
/// trimming whitespace at line starts and ends as ratatui's `Wrap { trim: true }` does.
/// Each line is (text, start byte, end byte, start char, end char); the end positions
/// are where the next line's content starts.
pub fn simulate_wrapped_lines(text: &str, max_width: usize) -> (lines: Vec<LineInfo>)
    requires
        text@.len() <= usize::MAX / 4,
    ensures
        lines_view(lines@) == wrapped_lines(text@, max_width as int),
        byte_ranges_match(lines@, text@),
        (text@.len() == 0 || max_width == 0) ==> lines@.len() == 0,
{
    let chars = chars_of(text);
    let n = chars.len();
    let ghost t = text@;
    let ghost m = max_width as int;
    if n == 0 || max_width == 0 {
        let lines: Vec<LineInfo> = Vec::new();
        proof {
            assert(lines_view(lines@) =~= Seq::<SpecLine>::empty());
        }
        return lines;
    }
    let offs = byte_offsets(&chars);
    let mut lines: Vec<LineInfo> = Vec::new();
    let mut cur: Vec<char> = Vec::new();
    let mut cur_w: usize = 0;
    let mut start: usize = 0;
    let mut pend: Vec<char> = Vec::new();
    let mut pend_w: usize = 0;
    let mut i: usize = 0;
    proof {
        assert(lines_view(lines@) =~= Seq::<SpecLine>::empty());
        assert(cur@ =~= Seq::<char>::empty());
        assert(pend@ =~= Seq::<char>::empty());
    }
    while i < n
        invariant
            n == t.len(),
            chars@ == t,
            n <= usize::MAX / 4,
            max_width > 0,
            m == max_width as int,
            offs@.len() == n + 1,
            forall|k: int| 0 <= k <= n ==> offs@[k] == byte_offset(t, k),
            i <= n,
            start <= i,
            cur_w == width_sum(cur@),
            cur_w <= 3 * cur@.len(),
            pend_w == width_sum(pend@),
            pend_w <= 3 * pend@.len(),
            cur@.len() + pend@.len() <= i,
            byte_ranges_match(lines@, t),
            wrap_from(t, m, i as int, WrapState { lines: lines_view(lines@), cur: cur@, start: start as int, pend: pend@ })
                == wrapped_lines(t, m),
        decreases n - i,
    {
        let ch = chars[i];
        if ch == '\n' {
            if cur.len() > 0 {
                push_line(&mut lines, &chars, &offs, &cur, start, i);
            }
            cur = Vec::new();
            cur_w = 0;
            start = 0;
            pend = Vec::new();
            pend_w = 0;
            i = i + 1;
            proof {
                assert(cur@ =~= Seq::<char>::empty());
                assert(pend@ =~= Seq::<char>::empty());
            }
        } else if is_whitespace(ch) {
            let ghost pend0 = pend@;
            let ghost i0 = i as int;
            proof {
                lemma_ws_run_end_bounds(t, i0);
            }
            let mut j = i;
            while j < n && is_whitespace(chars[j]) && chars[j] != '\n'
                invariant
                    n == t.len(),
                    chars@ == t,
                    n <= usize::MAX / 4,
                    i0 <= j <= n,
                    ws_run_end(t, j as int) == ws_run_end(t, i0),
                    pend@ == pend0 + t.subrange(i0, j as int),
                    pend_w == width_sum(pend@),
                    pend_w <= 3 * pend@.len(),
                    0 <= i0,
                    pend0.len() <= i0,
                decreases n - j,
            {
                let c = chars[j];
                let w = char_display_width(c);
                proof {
                    lemma_width_sum_push(pend@, c);
                }
                pend.push(c);
                pend_w = pend_w + w;
                j = j + 1;
                proof {
                    assert(pend@ =~= pend0 + t.subrange(i0, j as int));
                }
            }
            i = j;
        } else {
            let ghost i0 = i as int;
            proof {
                lemma_word_end_bounds(t, i0);
            }
            let mut j = i;
            let mut ww: usize = 0;
            while j < n && !is_whitespace(chars[j])
                invariant
                    n == t.len(),
                    chars@ == t,
                    n <= usize::MAX / 4,
                    0 <= i0 <= j <= n,
                    word_end(t, j as int) == word_end(t, i0),
                    ww == width_sum(t.subrange(i0, j as int)),
                    ww <= 3 * (j - i0),
                decreases n - j,
            {
                let w = char_display_width(chars[j]);
                proof {
                    lemma_width_sum_push(t.subrange(i0, j as int), t[j as int]);
                    assert(t.subrange(i0, j as int).push(t[j as int]) =~= t.subrange(i0, j as int + 1));
                }
                ww = ww + w;
                j = j + 1;
            }
            let ghost word = t.subrange(i0, j as int);
            if ww > max_width {
                if cur.len() > 0 {
                    push_line(&mut lines, &chars, &offs, &cur, start, i);
                }
                let ghost lines1 = lines_view(lines@);
                let mut seg: Vec<char> = Vec::new();
                let mut seg_w: usize = 0;
                let mut seg_start: usize = i;
                let mut k: usize = i;
                proof {
                    assert(seg@ =~= Seq::<char>::empty());
                }
                while k < j
                    invariant
                        n == t.len(),
                        chars@ == t,
                        n <= usize::MAX / 4,
                        m == max_width as int,
                        offs@.len() == n + 1,
                        forall|q: int| 0 <= q <= n ==> offs@[q] == byte_offset(t, q),
                        i0 <= seg_start <= k <= j <= n,
                        seg@.len() == k - seg_start,
                        seg_w == width_sum(seg@),
                        seg_w <= 3 * seg@.len(),
                        byte_ranges_match(lines@, t),
                        break_long_word(t, m, k as int, j as int, seg_start as int, seg@, lines_view(lines@))
                            == break_long_word(t, m, i0, j as int, i0, seq![], lines1),
                    decreases j - k,
                {
                    let c = chars[k];
                    let cw = char_display_width(c);
                    if seg_w + cw > max_width && seg.len() > 0 {
                        push_line(&mut lines, &chars, &offs, &seg, seg_start, k);
                        seg = Vec::new();
                        seg_w = 0;
                        seg_start = k;
                        proof {
                            assert(seg@ =~= Seq::<char>::empty());
                            assert(seg@.push(c) =~= seq![c]);
                        }
                    }
                    proof {
                        lemma_width_sum_push(seg@, c);
                    }
                    seg.push(c);
                    seg_w = seg_w + cw;
                    k = k + 1;
                }
                cur = seg;
                cur_w = seg_w;
                start = seg_start;
                pend = Vec::new();
                pend_w = 0;
                proof {
                    assert(pend@ =~= Seq::<char>::empty());
                }
            } else if cur.len() > 0 && cur_w + pend_w + ww > max_width {
                push_line(&mut lines, &chars, &offs, &cur, start, i);
                cur = Vec::new();
                append_range(&mut cur, &chars, i, j);
                cur_w = ww;
                start = i;
                pend = Vec::new();
                pend_w = 0;
                proof {
                    assert(pend@ =~= Seq::<char>::empty());
                    assert(cur@ =~= word);
                }
            } else if cur.len() > 0 {
                let ghost cur0 = cur@;
                let ghost pend0 = pend@;
                append_range(&mut cur, &pend, 0, pend.len());
                append_range(&mut cur, &chars, i, j);
                proof {
                    assert(pend0.subrange(0, pend0.len() as int) =~= pend0);
                    assert(cur@ =~= cur0 + pend0 + word);
                    lemma_width_sum_concat(cur0, pend0);
                    lemma_width_sum_concat(cur0 + pend0, word);
                }
                cur_w = cur_w + pend_w + ww;
                pend = Vec::new();
                pend_w = 0;
                proof {
                    assert(pend@ =~= Seq::<char>::empty());
                }
            } else {
                cur = Vec::new();
                append_range(&mut cur, &chars, i, j);
                cur_w = ww;
                start = i;
                pend = Vec::new();
                pend_w = 0;
                proof {
                    assert(pend@ =~= Seq::<char>::empty());
                    assert(cur@ =~= word);
                }
            }
            i = j;
        }
    }
    if cur.len() > 0 {
        push_line(&mut lines, &chars, &offs, &cur, start, n);
    }
    lines
}

/// Converts a byte index into `text` to the index of the character that holds that
/// byte; gives the number of characters when the byte index is at or past the end.
pub fn byte_index_to_char_index(text: &str, byte_pos: usize) -> (res: usize)
    ensures
        res == char_index_at_byte(text@, byte_pos as int),
{
    let chars = chars_of(text);
    char_index_of_byte(&chars, byte_pos)
}

/// Some non-whitespace character lies in `t[a..e)`.
pub open spec fn has_content(t: Seq<char>, a: int, e: int) -> bool {
    exists|q: int| a <= q < e && 0 <= q < t.len() && !is_ws(#[trigger] t[q])
}

/// Columns taken by `t[k..c)` on a line ending at `e`: characters count their display
/// width, whitespace counts one column once the line has content and either more
/// content follows on the line or it is the last line, and a newline stops the count.
pub open spec fn column_from(t: Seq<char>, k: int, c: int, e: int, last: bool, started: bool) -> nat
    decreases c - k,
{
    if k < 0 || k >= c || k >= t.len() {
        0
    } else if t[k] == '\n' {
        0
    } else if is_ws(t[k]) {
        (if started && (has_content(t, k + 1, e) || last) {
            1nat
        } else {
            0nat
        }) + column_from(t, k + 1, c, e, last, started)
    } else {
        display_width(t[k]) + column_from(t, k + 1, c, e, last, true)
    }
}

/// Display column of a cursor at character `c` on the line that starts at character `s`
/// and ends at character `e` (all character indices).
pub open spec fn display_column(t: Seq<char>, s: int, c: int, e: int, last: bool) -> nat {
    if c <= s || s >= t.len() {
        0
    } else {
        column_from(
            t,
            s,
            if c < t.len() { c } else { t.len() as int },
            if e < t.len() { e } else { t.len() as int },
            last,
            false,
        )
    }
}

/// The same column with the positions given as byte offsets.
pub open spec fn display_column_at(t: Seq<char>, sb: int, cb: int, eb: int, last: bool) -> nat {
    if cb <= sb || sb >= byte_len(t) {
        0
    } else {
        display_column(
            t,
            char_index_at_byte(t, sb),
            char_index_at_byte(t, cb),
            char_index_at_byte(t, eb),
            last,
        )
    }
}

/// The byte positions are where characters start (or past the end), as far as slicing
/// the text at them requires.
pub open spec fn column_positions_ok(t: Seq<char>, sb: int, cb: int, eb: int) -> bool {
    ||| cb <= sb
    ||| sb >= byte_len(t)
    ||| {
        &&& is_char_start(t, sb)
        &&& (cb >= byte_len(t) || is_char_start(t, cb))
        &&& (eb >= byte_len(t) || is_char_start(t, eb))
    }
}

fn column_in_chars(chars: &Vec<char>, s: usize, c: usize, e: usize, last: bool) -> (col: usize)
    requires
        s < c <= chars@.len(),
        e <= chars@.len(),
        chars@.len() <= usize::MAX / 4,
    ensures
        col == column_from(chars@, s as int, c as int, e as int, last, false),
{
    let ghost t = chars@;
    let mut k = s;
    let mut started = false;
    let mut col: usize = 0;
    while k < c
        invariant
            t == chars@,
            s <= k <= c <= t.len(),
            e <= t.len(),
            t.len() <= usize::MAX / 4,
            col <= 3 * (k - s),
            col + column_from(t, k as int, c as int, e as int, last, started)
                == column_from(t, s as int, c as int, e as int, last, false),
        decreases c - k,
    {
        let ch = chars[k];
        if ch == '\n' {
            return col;
        } else if is_whitespace(ch) {
            let mut after = false;
            let mut q = k + 1;
            while q < e
                invariant
                    t == chars@,
                    k < t.len(),
                    e <= t.len(),
                    k + 1 <= q,
                    q <= e || q == k + 1,
                    after == (exists|r: int| k + 1 <= r < q && 0 <= r < t.len() && !is_ws(#[trigger] t[r])),
                decreases e - q,
            {
                if !is_whitespace(chars[q]) {
                    after = true;
                }
                q = q + 1;
            }
            proof {
                if k + 1 < e {
                    assert(after == has_content(t, k + 1, e as int));
                } else {
                    assert(!has_content(t, k + 1, e as int));
                }
            }
            if started && (after || last) {
                col = col + 1;
            }
        } else {
            col = col + char_display_width(ch);
            started = true;
        }
        k = k + 1;
    }
    col
}

/// Display column (0-based) of a cursor at byte `cursor_byte` on the line that starts at
/// byte `line_start_byte` and ends at byte `line_end_byte`, matching ratatui's trimming:
/// leading whitespace is skipped, whitespace between words counts, trailing whitespace
/// counts only on the last line.
#[verifier::spinoff_prover]
pub fn calculate_display_column_in_range(
    text: &str,
    line_start_byte: usize,
    cursor_byte: usize,
    line_end_byte: usize,
    is_last_line: bool,
) -> (col: usize)
    requires
        text@.len() <= usize::MAX / 4,
        column_positions_ok(text@, line_start_byte as int, cursor_byte as int, line_end_byte as int),
    ensures
        col == display_column_at(text@, line_start_byte as int, cursor_byte as int, line_end_byte as int, is_last_line),
        cursor_byte <= line_start_byte ==> col == 0,
{
    let chars = chars_of(text);
    let n = chars.len();
    let offs = byte_offsets(&chars);
    proof {
        lemma_byte_len_is_offset(text@);
    }
    if cursor_byte <= line_start_byte || line_start_byte >= offs[n] {
        return 0;
    }
    let s = char_index_of_byte(&chars, line_start_byte);
    let c = char_index_of_byte(&chars, cursor_byte);
    let e = char_index_of_byte(&chars, line_end_byte);
    proof {
        let t = text@;
        let k = choose|k: int| 0 <= k <= t.len() && byte_offset(t, k) == line_start_byte;
        lemma_char_index_at_start(t, k);
        if cursor_byte < offs[n as int] {
            let kc = choose|kc: int| 0 <= kc <= t.len() && byte_offset(t, kc) == cursor_byte;
            lemma_char_index_at_start(t, kc);
            if kc <= k {
                lemma_byte_offset_monotone(t, kc, k);
            }
        }
    }
    if c <= s {
        return 0;
    }
    column_in_chars(&chars, s, c, e, is_last_line)
}

/// Column of a cursor at byte `b` on line `line`; `None` where the text cannot be
/// sliced at `b` (a byte inside a character, strictly after the line's start).
pub open spec fn line_column(t: Seq<char>, line: SpecLine, b: int, last: bool) -> Option<nat> {
    let sb = byte_offset(t, line.1) as int;
    let eb = byte_offset(t, line.2) as int;
    if column_positions_ok(t, sb, b, eb) {
        Some(display_column_at(t, sb, b, eb, last))
    } else {
        None
    }
}

/// Places the cursor (byte `b`, character `cc`) on the first of the lines `ls[idx..]`
/// whose character range holds it; a cursor at a line's end belongs to the start of the
/// next line, except after the last line, where it stays at the end.
pub open spec fn cursor_from(t: Seq<char>, b: int, cc: int, ls: Seq<SpecLine>, idx: int) -> Option<(int, int)>
    decreases ls.len() - idx,
{
    if idx < 0 || idx >= ls.len() {
        match line_column(t, ls.last(), b, true) {
            Some(c) => Some((ls.len() - 1, c as int)),
            None => None,
        }
    } else if ls[idx].1 <= cc < ls[idx].2 {
        match line_column(t, ls[idx], b, idx == ls.len() - 1) {
            Some(c) => Some((idx, c as int)),
            None => None,
        }
    } else if cc == ls[idx].2 {
        if idx == ls.len() - 1 {
            match line_column(t, ls[idx], b, true) {
                Some(c) => Some((idx, c as int)),
                None => None,
            }
        } else {
            Some((idx + 1, 0))
        }
    } else {
        cursor_from(t, b, cc, ls, idx + 1)
    }
}

/// (line, column) of a cursor at byte `b` in `t` wrapped at `max_width`; `None` for a
/// byte inside a character where the text would have to be sliced there.
pub open spec fn cursor_position(t: Seq<char>, b: int, max_width: int) -> Option<(int, int)> {
    if t.len() == 0 || b == 0 {
        Some((0, 0))
    } else {
        let ls = wrapped_lines(t, max_width);
        if ls.len() == 0 {
            Some((0, 0))
        } else {
            cursor_from(t, b, char_index_at_byte(t, b), ls, 0)
        }
    }
}

proof fn lemma_cursor_walk_to_line(t: Seq<char>, b: int, ls: Seq<SpecLine>, idx: int, k: int)
    requires
        0 <= idx <= k < ls.len(),
        lines_in_order(ls),
        forall|q: int| 0 <= q < ls.len() ==> #[trigger] ls[q].1 < ls[q].2,
        b == byte_offset(t, ls[k].1),
    ensures
        cursor_from(t, b, ls[k].1, ls, idx) == Some((k, 0int)),
    decreases k - idx,
{
    let cc = ls[k].1;
    if idx < k {
        assert(ls[idx].2 <= ls[k].1);
        if idx + 1 < k {
            assert(ls[idx].2 <= ls[idx + 1].1);
            assert(ls[idx + 1].2 <= ls[k].1);
            assert(ls[idx + 1].1 < ls[idx + 1].2);
        }
        lemma_cursor_walk_to_line(t, b, ls, idx + 1, k);
    } else {
        assert(ls[k].1 < ls[k].2);
        assert(column_positions_ok(t, b, b, byte_offset(t, ls[k].2) as int));
        assert(display_column_at(t, b, b, byte_offset(t, ls[k].2) as int, k == ls.len() - 1) == 0);
    }
}

/// A cursor on the first character of wrapped line `k` is drawn at the start of that
/// line: (k, 0).
pub proof fn lemma_cursor_at_line_start(t: Seq<char>, max_width: int, k: int)
    requires
        0 <= k < wrapped_lines(t, max_width).len(),
    ensures
        cursor_position(t, byte_offset(t, wrapped_lines(t, max_width)[k].1) as int, max_width) == Some((k, 0int)),
{
    let ls = wrapped_lines(t, max_width);
    lemma_wrapped_lines_in_order(t, max_width);
    assert forall|q: int| 0 <= q < ls.len() implies #[trigger] ls[q].1 < ls[q].2 by {
        assert(0 <= ls[q].1 < ls[q].2 <= t.len());
    }
    assert(0 <= ls[k].1 < ls[k].2 <= t.len());
    let b = byte_offset(t, ls[k].1) as int;
    lemma_byte_offset_monotone(t, 0, ls[k].1);
    if b == 0 {
        if k > 0 {
            assert(ls[0].2 <= ls[k].1);
            assert(0 <= ls[0].1 < ls[0].2 <= t.len());
        }
    } else {
        lemma_char_index_at_start(t, ls[k].1);
        lemma_cursor_walk_to_line(t, b, ls, 0, k);
    }
}

proof fn lemma_line_column_past_end(t: Seq<char>, line: SpecLine, b: int, last: bool)
    requires
        b >= byte_len(t),
    ensures
        line_column(t, line, b, last) == line_column(t, line, byte_len(t) as int, last),
{
    let e = byte_len(t) as int;
    let sb = byte_offset(t, line.1) as int;
    let eb = byte_offset(t, line.2) as int;
    if sb < e {
        assert(char_index_at_byte(t, b) == char_index_at_byte(t, e));
        assert(column_positions_ok(t, sb, b, eb) == column_positions_ok(t, sb, e, eb));
        assert(display_column_at(t, sb, b, eb, last) == display_column_at(t, sb, e, eb, last));
    } else {
        assert(column_positions_ok(t, sb, b, eb) && column_positions_ok(t, sb, e, eb));
        assert(display_column_at(t, sb, b, eb, last) == 0);
        assert(display_column_at(t, sb, e, eb, last) == 0);
    }
}

proof fn lemma_cursor_from_past_end(t: Seq<char>, b: int, cc: int, ls: Seq<SpecLine>, idx: int)
    requires
        b >= byte_len(t),
        ls.len() > 0,
    ensures
        cursor_from(t, b, cc, ls, idx) == cursor_from(t, byte_len(t) as int, cc, ls, idx),
    decreases ls.len() - idx,
{
    if idx < 0 || idx >= ls.len() {
        lemma_line_column_past_end(t, ls.last(), b, true);
    } else {
        lemma_line_column_past_end(t, ls[idx], b, idx == ls.len() - 1);
        lemma_line_column_past_end(t, ls[idx], b, true);
        lemma_cursor_from_past_end(t, b, cc, ls, idx + 1);
    }
}

/// A cursor at or past the end of the text is placed as a cursor at its end.
pub proof fn lemma_cursor_past_end(t: Seq<char>, b: int, max_width: int)
    requires
        b >= byte_len(t),
    ensures
        cursor_position(t, b, max_width) == cursor_position(t, byte_len(t) as int, max_width),
{
    let e = byte_len(t) as int;
    if t.len() > 0 {
        lemma_byte_len_is_offset(t);
        lemma_byte_offset_monotone(t, 0, t.len() as int);
        assert(t.take(0) =~= Seq::<char>::empty());
        let ls = wrapped_lines(t, max_width);
        if ls.len() > 0 {
            assert(char_index_at_byte(t, b) == char_index_at_byte(t, e));
            lemma_cursor_from_past_end(t, b, char_index_at_byte(t, e), ls, 0);
        }
    }
}

/// `s` holds no line break.
pub open spec fn no_break(s: Seq<char>) -> bool {
    forall|q: int| 0 <= q < s.len() ==> #[trigger] s[q] != '\n'
}

/// What holds of the line filler's state for line breaks: none is on a line laid out,
/// on the line being filled, or in the whitespace waiting to be placed.
pub open spec fn no_break_state(st: WrapState) -> bool {
    &&& forall|a: int| 0 <= a < st.lines.len() ==> no_break(#[trigger] st.lines[a].0)
    &&& no_break(st.cur)
    &&& no_break(st.pend)
}

proof fn lemma_push_no_break(ls: Seq<SpecLine>, l: SpecLine)
    requires
        forall|a: int| 0 <= a < ls.len() ==> no_break(#[trigger] ls[a].0),
        no_break(l.0),
    ensures
        forall|a: int| 0 <= a < ls.push(l).len() ==> no_break(#[trigger] ls.push(l)[a].0),
{
    assert forall|a: int| 0 <= a < ls.push(l).len() implies no_break(#[trigger] ls.push(l)[a].0) by {
        if a < ls.len() {
            assert(ls.push(l)[a] == ls[a]);
        }
    }
}

proof fn lemma_break_long_word_no_break(
    t: Seq<char>,
    m: int,
    k: int,
    we: int,
    seg_start: int,
    seg: Seq<char>,
    lines: Seq<SpecLine>,
)
    requires
        0 <= k <= we <= t.len(),
        forall|q: int| k <= q < we ==> !is_ws(#[trigger] t[q]),
        no_break(seg),
        forall|a: int| 0 <= a < lines.len() ==> no_break(#[trigger] lines[a].0),
    ensures
        ({
            let r = break_long_word(t, m, k, we, seg_start, seg, lines);
            &&& forall|a: int| 0 <= a < r.0.len() ==> no_break(#[trigger] r.0[a].0)
            &&& no_break(r.2)
        }),
    decreases we - k,
{
    if k < we {
        let c = t[k];
        assert(!is_ws(c));
        if width_sum(seg) + display_width(c) > m && seg.len() > 0 {
            lemma_push_no_break(lines, (seg, seg_start, k));
            lemma_break_long_word_no_break(t, m, k + 1, we, k, seq![c], lines.push((seg, seg_start, k)));
        } else {
            assert(no_break(seg.push(c))) by {
                assert forall|q: int| 0 <= q < seg.push(c).len() implies #[trigger] seg.push(c)[q] != '\n' by {
                    if q < seg.len() {
                        assert(seg.push(c)[q] == seg[q]);
                    }
                }
            }
            lemma_break_long_word_no_break(t, m, k + 1, we, seg_start, seg.push(c), lines);
        }
    }
}

proof fn lemma_no_break_concat(a: Seq<char>, b: Seq<char>)
    requires
        no_break(a),
        no_break(b),
    ensures
        no_break(a + b),
{
    assert forall|q: int| 0 <= q < (a + b).len() implies #[trigger] (a + b)[q] != '\n' by {
        if q < a.len() {
            assert((a + b)[q] == a[q]);
        } else {
            assert((a + b)[q] == b[q - a.len()]);
        }
    }
}

proof fn lemma_wrap_from_no_break(t: Seq<char>, m: int, i: int, st: WrapState)
    requires
        0 <= i <= t.len(),
        no_break_state(st),
    ensures
        forall|a: int| 0 <= a < wrap_from(t, m, i, st).len() ==> no_break(#[trigger] wrap_from(t, m, i, st)[a].0),
    decreases t.len() - i,
{
    if i >= t.len() {
        assert(wrap_from(t, m, i, st) == close_line(st, i));
        if st.cur.len() > 0 {
            lemma_push_no_break(st.lines, (st.cur, st.start, i));
        }
    } else if t[i] == '\n' {
        if st.cur.len() > 0 {
            lemma_push_no_break(st.lines, (st.cur, st.start, i));
        }
        let next = WrapState { lines: close_line(st, i), cur: seq![], start: 0, pend: seq![] };
        lemma_wrap_from_no_break(t, m, i + 1, next);
        assert(wrap_from(t, m, i, st) == wrap_from(t, m, i + 1, next));
    } else if is_ws(t[i]) {
        let j = ws_run_end(t, i);
        lemma_ws_run_end_bounds(t, i);
        let run = t.subrange(i, j);
        assert(no_break(run)) by {
            assert forall|q: int| 0 <= q < run.len() implies #[trigger] run[q] != '\n' by {
                assert(run[q] == t[i + q]);
            }
        }
        lemma_no_break_concat(st.pend, run);
        let next = WrapState { lines: st.lines, cur: st.cur, start: st.start, pend: st.pend + run };
        lemma_wrap_from_no_break(t, m, j, next);
        assert(wrap_from(t, m, i, st) == wrap_from(t, m, j, next));
    } else {
        let j = word_end(t, i);
        lemma_word_end_bounds(t, i);
        let word = t.subrange(i, j);
        assert(no_break(word)) by {
            assert forall|q: int| 0 <= q < word.len() implies #[trigger] word[q] != '\n' by {
                assert(word[q] == t[i + q]);
                assert(!is_ws(t[i + q]));
            }
        }
        if width_sum(word) > m {
            let lines1 = close_line(st, i);
            if st.cur.len() > 0 {
                lemma_push_no_break(st.lines, (st.cur, st.start, i));
            }
            lemma_break_long_word_no_break(t, m, i, j, i, seq![], lines1);
            let broken = break_long_word(t, m, i, j, i, seq![], lines1);
            let next = WrapState { lines: broken.0, cur: broken.2, start: broken.1, pend: seq![] };
            lemma_wrap_from_no_break(t, m, j, next);
            assert(wrap_from(t, m, i, st) == wrap_from(t, m, j, next));
        } else if st.cur.len() > 0 && width_sum(st.cur) + width_sum(st.pend) + width_sum(word) > m {
            lemma_push_no_break(st.lines, (st.cur, st.start, i));
            let next = WrapState { lines: st.lines.push((st.cur, st.start, i)), cur: word, start: i, pend: seq![] };
            lemma_wrap_from_no_break(t, m, j, next);
            assert(wrap_from(t, m, i, st) == wrap_from(t, m, j, next));
        } else if st.cur.len() > 0 {
            lemma_no_break_concat(st.cur, st.pend);
            lemma_no_break_concat(st.cur + st.pend, word);
            let next = WrapState { lines: st.lines, cur: st.cur + st.pend + word, start: st.start, pend: seq![] };
            lemma_wrap_from_no_break(t, m, j, next);
            assert(wrap_from(t, m, i, st) == wrap_from(t, m, j, next));
        } else {
            let next = WrapState { lines: st.lines, cur: word, start: i, pend: seq![] };
            lemma_wrap_from_no_break(t, m, j, next);
            assert(wrap_from(t, m, i, st) == wrap_from(t, m, j, next));
        }
    }
}

/// No wrapped line holds a line break.
pub proof fn lemma_wrapped_lines_no_break(t: Seq<char>, max_width: int)
    ensures
        forall|a: int|
            0 <= a < wrapped_lines(t, max_width).len() ==> no_break(#[trigger] wrapped_lines(t, max_width)[a].0),
{
    if t.len() > 0 && max_width > 0 {
        let st = WrapState { lines: seq![], cur: seq![], start: 0, pend: seq![] };
        lemma_wrap_from_no_break(t, max_width, 0, st);
    }
}

/// Columns taken by `s` on a line when every whitespace character counts one column
/// and every other character its display width.
pub open spec fn spaced_width(s: Seq<char>) -> nat
    decreases s.len(),
{
    if s.len() == 0 {
        0
    } else {
        (if is_ws(s[0]) {
            1nat
        } else {
            display_width(s[0])
        }) + spaced_width(s.drop_first())
    }
}

proof fn lemma_column_from_spaced(t: Seq<char>, k: int, c: int, e: int, last: bool, started: bool)
    requires
        0 <= k <= c <= e <= t.len(),
        forall|q: int| k <= q < c ==> #[trigger] t[q] != '\n',
        (!started && k < c) ==> !is_ws(t[k]),
        forall|q: int| k <= q < c && is_ws(#[trigger] t[q]) ==> has_content(t, q + 1, e),
    ensures
        column_from(t, k, c, e, last, started) == spaced_width(t.subrange(k, c)),
    decreases c - k,
{
    if k < c {
        assert(t.subrange(k, c).drop_first() =~= t.subrange(k + 1, c));
        assert(t.subrange(k, c)[0] == t[k]);
        assert(t[k] != '\n');
        if is_ws(t[k]) {
            assert(has_content(t, k + 1, e));
            lemma_column_from_spaced(t, k + 1, c, e, last, started);
        } else {
            lemma_column_from_spaced(t, k + 1, c, e, last, true);
        }
    } else {
        assert(t.subrange(k, c).len() == 0);
    }
}

proof fn lemma_cursor_walk_column(t: Seq<char>, b: int, cc: int, ls: Seq<SpecLine>, idx: int, k: int, col: nat)
    requires
        0 <= idx <= k < ls.len(),
        lines_in_order(ls),
        forall|q: int| 0 <= q < ls.len() ==> #[trigger] ls[q].1 < ls[q].2,
        (ls[k].1 <= cc < ls[k].2) || (cc == ls[k].2 && k == ls.len() - 1),
        line_column(t, ls[k], b, k == ls.len() - 1) == Some(col),
        cc == ls[k].1 ==> col == 0,
    ensures
        cursor_from(t, b, cc, ls, idx) == Some((k, col as int)),
    decreases k - idx,
{
    if idx < k {
        assert(ls[idx].2 <= ls[k].1);
        assert(ls[idx].1 < ls[idx].2);
        if idx + 1 < k {
            assert(ls[idx].2 <= ls[idx + 1].1);
            assert(ls[idx + 1].2 <= ls[k].1);
            assert(ls[idx + 1].1 < ls[idx + 1].2);
        }
        if cc != ls[idx].2 {
            lemma_cursor_walk_column(t, b, cc, ls, idx + 1, k, col);
        }
    }
}

proof fn lemma_display_column_spaced(t: Seq<char>, m: int, l: SpecLine, c: int, last: bool)
    requires
        good_line(t, m, l),
        no_break(l.0),
        l.1 < c <= l.1 + l.0.len(),
    ensures
        display_column(t, l.1, c, l.2, last) == spaced_width(t.subrange(l.1, c)),
{
    let n = l.0.len() as int;
    assert forall|q: int| l.1 <= q < c implies #[trigger] t[q] != '\n' by {
        assert(t[q] == l.0[q - l.1]);
    }
    assert(l.0[0] == t[l.1]);
    assert(l.0.last() == t[l.1 + n - 1]);
    assert forall|q: int| l.1 <= q < c && is_ws(#[trigger] t[q]) implies has_content(t, q + 1, l.2) by {
        assert(q != l.1 + n - 1);
        assert(l.1 + n - 1 < l.2);
        assert(!is_ws(t[l.1 + n - 1]));
    }
    lemma_column_from_spaced(t, l.1, c, l.2, last, false);
}

#[verifier::spinoff_prover]
proof fn lemma_good_line_column(t: Seq<char>, m: int, l: SpecLine, c: int, last: bool)
    requires
        good_line(t, m, l),
        no_break(l.0),
        l.1 <= c <= l.1 + l.0.len(),
    ensures
        line_column(t, l, byte_offset(t, c) as int, last) == Some(spaced_width(l.0.take(c - l.1))),
{
    let text = t.subrange(l.1, c);
    assert(text =~= l.0.take(c - l.1));
    let col = spaced_width(text);
    lemma_byte_offset_monotone(t, l.1, c);
    lemma_byte_offset_monotone(t, c, l.2);
    lemma_byte_offset_monotone(t, l.1, t.len() as int);
    lemma_byte_len_is_offset(t);
    let sb = byte_offset(t, l.1) as int;
    let cb = byte_offset(t, c) as int;
    let eb = byte_offset(t, l.2) as int;
    assert(is_char_start(t, sb));
    assert(is_char_start(t, cb));
    assert(is_char_start(t, eb));
    if c == l.1 {
        assert(text.len() == 0);
        assert(col == 0);
    } else {
        lemma_char_index_at_start(t, l.1);
        lemma_char_index_at_start(t, c);
        lemma_char_index_at_start(t, l.2);
        assert(sb < byte_len(t));
        lemma_display_column_spaced(t, m, l, c, last);
        assert(display_column_at(t, sb, cb, eb, last) == col);
    }
}

/// Where a cursor inside the text of wrapped line `k` is drawn: on line `k`, at the
/// columns the text before it on that line takes, every whitespace character (such as
/// the spaces between words) counting one column. This holds on every line, the last
/// one or not.
#[verifier::spinoff_prover]
pub proof fn lemma_cursor_column(t: Seq<char>, max_width: int, k: int, c: int)
    requires
        0 <= k < wrapped_lines(t, max_width).len(),
        wrapped_lines(t, max_width)[k].1 <= c <= wrapped_lines(t, max_width)[k].1 + wrapped_lines(
            t,
            max_width,
        )[k].0.len(),
        c < wrapped_lines(t, max_width)[k].2 || k == wrapped_lines(t, max_width).len() - 1,
    ensures
        cursor_position(t, byte_offset(t, c) as int, max_width) == Some(
            (k, spaced_width(wrapped_lines(t, max_width)[k].0.take(c - wrapped_lines(t, max_width)[k].1)) as int),
        ),
{
    let ls = wrapped_lines(t, max_width);
    let l = ls[k];
    lemma_wrapped_lines_in_order(t, max_width);
    lemma_wrapped_lines_good(t, max_width);
    assert(good_line(t, max_width, l));
    assert forall|q: int| 0 <= q < ls.len() implies #[trigger] ls[q].1 < ls[q].2 by {
        assert(0 <= ls[q].1 < ls[q].2 <= t.len());
    }
    assert(0 <= l.1 < l.2 <= t.len());
    let col = spaced_width(l.0.take(c - l.1));
    lemma_wrapped_lines_no_break(t, max_width);
    assert(no_break(l.0));
    lemma_good_line_column(t, max_width, l, c, k == ls.len() - 1);
    lemma_byte_offset_monotone(t, 0, c);
    assert(t.take(0) =~= Seq::<char>::empty());
    let cb = byte_offset(t, c) as int;
    if c == l.1 {
        assert(l.0.take(0) =~= Seq::<char>::empty());
        assert(col == 0);
    }
    if cb == 0 {
        if k > 0 {
            assert(ls[0].2 <= ls[k].1);
            assert(0 <= ls[0].1 < ls[0].2);
        }
        assert(c == 0);
        assert(col == 0);
    } else {
        lemma_char_index_at_start(t, c);
        lemma_cursor_walk_column(t, cb, c, ls, 0, k, col);
    }
}

proof fn lemma_column_from_trailing(t: Seq<char>, k: int, m: int, c: int, e: int, last: bool, started: bool)
    requires
        0 <= k <= c <= e <= t.len(),
        m <= c,
        forall|q: int| k <= q < c ==> #[trigger] t[q] != '\n',
        (!started && k < m) ==> !is_ws(t[k]),
        started || k < m,
        forall|q: int| k <= q < m && is_ws(#[trigger] t[q]) ==> has_content(t, q + 1, e),
        forall|q: int| m <= q < c ==> is_ws(#[trigger] t[q]),
        !last ==> forall|q: int| m <= q < e ==> is_ws(#[trigger] t[q]),
    ensures
        column_from(t, k, c, e, last, started) == (if k <= m {
            spaced_width(t.subrange(k, m))
        } else {
            0nat
        }) + (if last {
            c - (if k <= m {
                m
            } else {
                k
            })
        } else {
            0
        }),
    decreases c - k,
{
    if k < c {
        assert(t[k] != '\n');
        if k < m {
            assert(t.subrange(k, m).drop_first() =~= t.subrange(k + 1, m));
            assert(t.subrange(k, m)[0] == t[k]);
            if is_ws(t[k]) {
                assert(has_content(t, k + 1, e));
                lemma_column_from_trailing(t, k + 1, m, c, e, last, started);
            } else {
                lemma_column_from_trailing(t, k + 1, m, c, e, last, true);
            }
            if k + 1 == m {
                assert(t.subrange(k + 1, m).len() == 0);
            }
        } else {
            assert(is_ws(t[k]));
            if !last {
                assert(!has_content(t, k + 1, e)) by {
                    if has_content(t, k + 1, e) {
                        let q = choose|q: int| k + 1 <= q < e && 0 <= q < t.len() && !is_ws(#[trigger] t[q]);
                        assert(is_ws(t[q]));
                    }
                }
            }
            lemma_column_from_trailing(t, k + 1, m, c, e, last, started);
            if k == m {
                assert(t.subrange(k, m).len() == 0);
            }
        }
    } else {
        if k <= m {
            assert(t.subrange(k, m).len() == 0);
        }
    }
}

proof fn lemma_display_column_trailing(t: Seq<char>, m0: int, l: SpecLine, c: int, last: bool)
    requires
        good_line(t, m0, l),
        no_break(l.0),
        l.1 + l.0.len() <= c <= l.2,
        forall|q: int| l.1 + l.0.len() <= q < c ==> is_ws(#[trigger] t[q]) && t[q] != '\n',
        !last ==> forall|q: int| l.1 + l.0.len() <= q < l.2 ==> is_ws(#[trigger] t[q]),
    ensures
        display_column(t, l.1, c, l.2, last) == (spaced_width(l.0) + (if last {
            c - (l.1 + l.0.len())
        } else {
            0
        })) as nat,
{
    let n = l.0.len() as int;
    let m = l.1 + n;
    assert forall|q: int| l.1 <= q < c implies #[trigger] t[q] != '\n' by {
        if q < m {
            assert(t[q] == l.0[q - l.1]);
        }
    }
    assert(l.0[0] == t[l.1]);
    assert(l.0.last() == t[m - 1]);
    assert forall|q: int| l.1 <= q < m && is_ws(#[trigger] t[q]) implies has_content(t, q + 1, l.2) by {
        assert(q != m - 1);
        assert(!is_ws(t[m - 1]));
    }
    lemma_column_from_trailing(t, l.1, m, c, l.2, last, false);
    assert(t.subrange(l.1, m) =~= l.0);
}

#[verifier::spinoff_prover]
proof fn lemma_good_line_trailing(t: Seq<char>, m0: int, l: SpecLine, c: int, last: bool)
    requires
        good_line(t, m0, l),
        no_break(l.0),
        l.1 + l.0.len() <= c <= l.2,
        forall|q: int| l.1 + l.0.len() <= q < c ==> is_ws(#[trigger] t[q]) && t[q] != '\n',
        !last ==> forall|q: int| l.1 + l.0.len() <= q < l.2 ==> is_ws(#[trigger] t[q]),
    ensures
        line_column(t, l, byte_offset(t, c) as int, last) == Some(
            (spaced_width(l.0) + (if last { c - (l.1 + l.0.len()) } else { 0 })) as nat,
        ),
{
    let col = (spaced_width(l.0) + (if last { c - (l.1 + l.0.len()) } else { 0 })) as nat;
    lemma_display_column_trailing(t, m0, l, c, last);
    lemma_byte_offset_monotone(t, l.1, c);
    lemma_byte_offset_monotone(t, c, l.2);
    lemma_byte_offset_monotone(t, l.1, t.len() as int);
    lemma_byte_len_is_offset(t);
    let sb = byte_offset(t, l.1) as int;
    let cb = byte_offset(t, c) as int;
    let eb = byte_offset(t, l.2) as int;
    assert(is_char_start(t, sb));
    assert(is_char_start(t, cb));
    assert(is_char_start(t, eb));
    lemma_char_index_at_start(t, l.1);
    lemma_char_index_at_start(t, c);
    lemma_char_index_at_start(t, l.2);
    assert(sb < byte_len(t));
    assert(display_column_at(t, sb, cb, eb, last) == col);
}

/// Where a cursor in the whitespace after the text of wrapped line `k` is drawn: on
/// line `k`, past the line's text; that whitespace takes no column on a line that
/// another line follows (it is where the line was broken), and one column per
/// character on the last line.
#[verifier::spinoff_prover]
pub proof fn lemma_cursor_trailing(t: Seq<char>, max_width: int, k: int, c: int)
    requires
        max_width > 0,
        0 <= k < wrapped_lines(t, max_width).len(),
        wrapped_lines(t, max_width)[k].1 + wrapped_lines(t, max_width)[k].0.len() <= c <= wrapped_lines(
            t,
            max_width,
        )[k].2,
        c < wrapped_lines(t, max_width)[k].2 || k == wrapped_lines(t, max_width).len() - 1,
        forall|q: int|
            wrapped_lines(t, max_width)[k].1 + wrapped_lines(t, max_width)[k].0.len() <= q < c ==> is_ws(
                #[trigger] t[q],
            ) && t[q] != '\n',
    ensures
        cursor_position(t, byte_offset(t, c) as int, max_width) == Some(
            (
                k,
                spaced_width(wrapped_lines(t, max_width)[k].0) + (if k == wrapped_lines(t, max_width).len() - 1 {
                    c - (wrapped_lines(t, max_width)[k].1 + wrapped_lines(t, max_width)[k].0.len())
                } else {
                    0
                }),
            ),
        ),
{
    let ls = wrapped_lines(t, max_width);
    let l = ls[k];
    let m = l.1 + l.0.len();
    let last = k == ls.len() - 1;
    lemma_wrapped_lines_in_order(t, max_width);
    lemma_wrapped_lines_good(t, max_width);
    lemma_wrapped_lines_no_break(t, max_width);
    assert(good_line(t, max_width, l));
    assert(no_break(l.0));
    assert forall|q: int| 0 <= q < ls.len() implies #[trigger] ls[q].1 < ls[q].2 by {
        assert(0 <= ls[q].1 < ls[q].2 <= t.len());
    }
    if !last {
        assert forall|q: int| m <= q < l.2 implies is_ws(#[trigger] t[q]) by {
            assert(ls[k].2 <= ls[k + 1].1);
            lemma_wrapped_gaps_blank(t, max_width, k, q);
        }
    }
    lemma_good_line_trailing(t, max_width, l, c, last);
    let col = (spaced_width(l.0) + (if last { c - m } else { 0 })) as nat;
    lemma_byte_offset_monotone(t, 0, c);
    assert(t.take(0) =~= Seq::<char>::empty());
    let cb = byte_offset(t, c) as int;
    assert(cb > 0);
    lemma_char_index_at_start(t, c);
    lemma_cursor_walk_column(t, cb, c, ls, 0, k, col);
}

/// Whitespace at the start of a line takes no column: the column counted from a
/// whitespace character (not a line break) is the one counted from the character after it.
pub proof fn lemma_leading_ws_skipped(t: Seq<char>, s: int, c: int, e: int, last: bool)
    requires
        0 <= s,
        s + 1 < c <= t.len(),
        is_ws(t[s]),
        t[s] != '\n',
    ensures
        display_column(t, s, c, e, last) == display_column(t, s + 1, c, e, last),
{
}

/// Whether the text can be sliced at the byte positions of a column computation (see
/// `column_positions_ok`).
fn column_positions_allowed(chars: &Vec<char>, sb: usize, cb: usize, eb: usize) -> (res: bool)
    ensures
        res == column_positions_ok(chars@, sb as int, cb as int, eb as int),
{
    if cb <= sb || byte_len_at_most(chars, sb) {
        return true;
    }
    char_starts_at(chars, sb) && (byte_len_at_most(chars, cb) || char_starts_at(chars, cb)) && (
    byte_len_at_most(chars, eb) || char_starts_at(chars, eb))
}

/// Line and column of the cursor at byte `cursor_index` within `text` wrapped at
/// `max_width` columns with ratatui's trimming; `None` where the cursor lies inside a
/// character and the text would have to be cut there.
pub fn wrapped_cursor_position(text: &str, cursor_index: usize, max_width: usize) -> (res: Option<(usize, usize)>)
    requires
        text@.len() <= usize::MAX / 4,
    ensures
        match cursor_position(text@, cursor_index as int, max_width as int) {
            Some(p) => res matches Some(r) && r.0 == p.0 && r.1 == p.1,
            None => res is None,
        },
{
    let ghost t = text@;
    let chars = chars_of(text);
    if chars.len() == 0 || cursor_index == 0 {
        return Some((0, 0));
    }
    let cc = char_index_of_byte(&chars, cursor_index);
    let lines = simulate_wrapped_lines(text, max_width);
    let nl = lines.len();
    if nl == 0 {
        return Some((0, 0));
    }
    let ghost ls = lines_view(lines@);
    let mut idx: usize = 0;
    while idx < nl
        invariant
            t == text@,
            chars@ == t,
            t.len() <= usize::MAX / 4,
            nl == lines@.len(),
            nl > 0,
            ls == lines_view(lines@),
            ls == wrapped_lines(t, max_width as int),
            t.len() > 0,
            cursor_index != 0,
            byte_ranges_match(lines@, t),
            cc == char_index_at_byte(t, cursor_index as int),
            idx <= nl,
            cursor_from(t, cursor_index as int, cc as int, ls, idx as int)
                == cursor_from(t, cursor_index as int, cc as int, ls, 0),
        decreases nl - idx,
    {
        let line = &lines[idx];
        let last = idx == nl - 1;
        assert(ls[idx as int] == line_view(lines@[idx as int]));
        if (line.3 <= cc && cc < line.4) || (cc == line.4 && last) {
            if !column_positions_allowed(&chars, line.1, cursor_index, line.2) {
                return None;
            }
            let col = calculate_display_column_in_range(text, line.1, cursor_index, line.2, last);
            return Some((idx, col));
        }
        if cc == line.4 {
            return Some((idx + 1, 0));
        }
        idx = idx + 1;
    }
    let line = &lines[nl - 1];
    assert(ls[nl - 1] == line_view(lines@[nl - 1]));
    if !column_positions_allowed(&chars, line.1, cursor_index, line.2) {
        return None;
    }
    let col = calculate_display_column_in_range(text, line.1, cursor_index, line.2, true);
    Some((nl - 1, col))
}

/// Line and column of the cursor at byte `cursor_index` within `text` wrapped at
/// `max_width` columns with ratatui's trimming. A cursor on whitespace trimmed at a wrap
/// goes to the end of the line before it.
pub fn calculate_wrapped_cursor_position(text: &str, cursor_index: usize, max_width: usize) -> (res: (usize, usize))
    requires
        text@.len() <= usize::MAX / 4,
        cursor_position(text@, cursor_index as int, max_width as int) is Some,
    ensures
        cursor_position(text@, cursor_index as int, max_width as int) == Some((res.0 as int, res.1 as int)),
        (text@.len() == 0 || cursor_index == 0) ==> res == (0usize, 0usize),
{
    match wrapped_cursor_position(text, cursor_index, max_width) {
        Some(p) => p,
        None => (0, 0),
    }
}

/// `s` cut to fit `max_len` bytes: unchanged when it fits, otherwise the characters
/// before byte `max_len - 3` followed by "...".
pub open spec fn truncated(s: Seq<char>, max_len: int) -> Seq<char> {
    if byte_len(s) <= max_len {
        s
    } else {
        s.take(char_index_at_byte(s, max_len - 3)) + seq!['.', '.', '.']
    }
}

/// Shortens `s` to `max_len` bytes, marking a cut with "...".
pub fn truncate_string(s: &str, max_len: usize) -> (res: String)
    requires
        byte_len(s@) <= max_len || (max_len >= 3 && is_char_start(s@, max_len - 3)),
    ensures
        res@ == truncated(s@, max_len as int),
{
    let chars = chars_of(s);
    if byte_len_at_most(&chars, max_len) {
        return string_from_chars(&chars);
    }
    let k = char_index_of_byte(&chars, max_len - 3);
    let mut out: Vec<char> = Vec::new();
    append_range(&mut out, &chars, 0, k);
    out.push('.');
    out.push('.');
    out.push('.');
    proof {
        assert(out@ =~= s@.take(k as int) + seq!['.', '.', '.']);
    }
    string_from_chars(&out)
}

proof fn lemma_dots_len()
    ensures
        byte_len(seq!['.', '.', '.']) == 3,
{
    let dots = seq!['.', '.', '.'];
    assert(dots.drop_last() =~= seq!['.', '.']);
    assert(seq!['.', '.'].drop_last() =~= seq!['.']);
    assert(seq!['.'].drop_last() =~= Seq::<char>::empty());
    assert(byte_len(Seq::<char>::empty()) == 0);
    assert(byte_len(seq!['.']) == 1);
    assert(byte_len(seq!['.', '.']) == 2);
}

/// A string too long for `max_len` bytes is cut to exactly `max_len` bytes: a prefix
/// of it, then "...".
#[verifier::spinoff_prover]
pub proof fn lemma_truncated_len(s: Seq<char>, max_len: int)
    requires
        byte_len(s) > max_len >= 3,
        is_char_start(s, max_len - 3),
    ensures
        byte_len(truncated(s, max_len)) == max_len,
        truncated(s, max_len).len() >= 3,
        truncated(s, max_len).subrange(truncated(s, max_len).len() - 3, truncated(s, max_len).len() as int)
            == seq!['.', '.', '.'],
        truncated(s, max_len).take(truncated(s, max_len).len() - 3) == s.take(truncated(s, max_len).len() - 3),
{
    let k = choose|k: int| 0 <= k <= s.len() && byte_offset(s, k) == max_len - 3;
    lemma_char_index_at_start(s, k);
    let dots = seq!['.', '.', '.'];
    let r = s.take(k) + dots;
    assert(truncated(s, max_len) == r);
    crate::text::lemma_byte_len_concat(s.take(k), dots);
    lemma_dots_len();
    assert(r.subrange(r.len() - 3, r.len() as int) =~= dots);
    assert(r.take(r.len() - 3) =~= s.take(k));
}

} // verus!
