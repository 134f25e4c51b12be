//! Flashcard decks: one `question,answer` pair per line; fields may be quoted so that
//! they can hold commas, and `""` inside quotes stands for one quote.
use crate::models::Flashcard;
use crate::text::{
    chars_of, is_whitespace, is_ws, lemma_line_split_append, lemma_text_lines_single, line_split,
    string_from_chars, text_lines,
};
use vstd::prelude::*;

verus! {

/// Where the line scanner stands.
#[verifier::ext_equal]
pub struct CsvState {
    pub question: Seq<char>,
    pub answer: Seq<char>,
    /// The answer field is being read (the question field is done).
    pub in_answer: bool,
    pub in_quotes: bool,
}

/// `st` with `c` added to the field being read.
pub open spec fn push_field(st: CsvState, c: char) -> CsvState {
    if st.in_answer {
        CsvState { answer: st.answer.push(c), ..st }
    } else {
        CsvState { question: st.question.push(c), ..st }
    }
}

/// `st` after a closing quote or a separating comma: reading the answer, outside quotes.
pub open spec fn to_answer(st: CsvState) -> CsvState {
    CsvState { in_answer: true, in_quotes: false, ..st }
}

/// Scans the rest `t` of a line from state `st`.
pub open spec fn csv_scan(t: Seq<char>, st: CsvState) -> CsvState
    decreases t.len(),
{
    if t.len() == 0 {
        st
    } else if t[0] == '"' && !st.in_quotes {
        csv_scan(t.drop_first(), CsvState { in_quotes: true, ..st })
    } else if t[0] == '"' {
        if t.len() > 1 && t[1] == ',' {
            csv_scan(t.subrange(2, t.len() as int), to_answer(st))
        } else if t.len() > 1 && t[1] == '"' {
            csv_scan(t.subrange(2, t.len() as int), push_field(st, '"'))
        } else {
            csv_scan(t.drop_first(), to_answer(st))
        }
    } else if t[0] == ',' && !st.in_quotes && !st.in_answer {
        csv_scan(t.drop_first(), to_answer(st))
    } else {
        csv_scan(t.drop_first(), push_field(st, t[0]))
    }
}

pub open spec fn csv_start() -> CsvState {
    CsvState { question: seq![], answer: seq![], in_answer: false, in_quotes: false }
}

/// The (question, answer) read from one line.
pub open spec fn csv_fields(line: Seq<char>) -> (Seq<char>, Seq<char>) {
    let st = csv_scan(line, csv_start());
    (st.question, st.answer)
}

/// Splits one line into its question and answer fields. Always gives a pair; a missing
/// field is empty.
pub fn parse_csv_line(line: &str) -> (res: Option<(String, String)>)
    ensures
        res matches Some(p) && p.0@ == csv_fields(line@).0 && p.1@ == csv_fields(line@).1,
{
    let chars = chars_of(line);
    let (q, a) = scan_line(&chars, 0, chars.len());
    proof {
        assert(chars@.subrange(0, chars@.len() as int) =~= chars@);
    }
    Some((string_from_chars(&q), string_from_chars(&a)))
}

/// Scans `chars[from..to]` as one line.
fn scan_line(chars: &Vec<char>, from: usize, to: usize) -> (res: (Vec<char>, Vec<char>))
    requires
        from <= to <= chars@.len(),
    ensures
        res.0@ == csv_fields(chars@.subrange(from as int, to as int)).0,
        res.1@ == csv_fields(chars@.subrange(from as int, to as int)).1,
{
    let ghost line = chars@.subrange(from as int, to as int);
    let mut question: Vec<char> = Vec::new();
    let mut answer: Vec<char> = Vec::new();
    let mut in_answer = false;
    let mut in_quotes = false;
    let mut i = from;
    proof {
        assert(question@ =~= Seq::<char>::empty());
        assert(answer@ =~= Seq::<char>::empty());
    }
    while i < to
        invariant
            from <= i <= to <= chars@.len(),
            line == chars@.subrange(from as int, to as int),
            csv_scan(
                chars@.subrange(i as int, to as int),
                CsvState { question: question@, answer: answer@, in_answer, in_quotes },
            ) == csv_scan(line, csv_start()),
        decreases to - i,
    {
        let ghost rest = chars@.subrange(i as int, to as int);
        let c = chars[i];
        proof {
            assert(rest[0] == c);
            assert(rest.drop_first() =~= chars@.subrange(i + 1, to as int));
            if i + 1 < to {
                assert(rest[1] == chars@[i + 1]);
                assert(rest.subrange(2, rest.len() as int) =~= chars@.subrange(i + 2, to as int));
            }
        }
        if c == '"' && !in_quotes {
            in_quotes = true;
            i = i + 1;
        } else if c == '"' {
            if i + 1 < to && chars[i + 1] == ',' {
                in_answer = true;
                in_quotes = false;
                i = i + 2;
            } else if i + 1 < to && chars[i + 1] == '"' {
                if in_answer {
                    answer.push('"');
                } else {
                    question.push('"');
                }
                i = i + 2;
            } else {
                in_answer = true;
                in_quotes = false;
                i = i + 1;
            }
        } else if c == ',' && !in_quotes && !in_answer {
            in_answer = true;
            i = i + 1;
        } else {
            if in_answer {
                answer.push(c);
            } else {
                question.push(c);
            }
            i = i + 1;
        }
    }
    proof {
        assert(chars@.subrange(i as int, to as int) =~= Seq::<char>::empty());
    }
    (question, answer)
}

/// `x` with each quote doubled.
pub open spec fn escape_quotes(x: Seq<char>) -> Seq<char>
    decreases x.len(),
{
    if x.len() == 0 {
        seq![]
    } else if x[0] == '"' {
        seq!['"', '"'] + escape_quotes(x.drop_first())
    } else {
        seq![x[0]] + escape_quotes(x.drop_first())
    }
}

/// `x` written as a quoted field.
pub open spec fn quote_field(x: Seq<char>) -> Seq<char> {
    seq!['"'] + escape_quotes(x) + seq!['"']
}

/// `st` with all of `x` added to the field being read.
pub open spec fn push_all(st: CsvState, x: Seq<char>) -> CsvState {
    if st.in_answer {
        CsvState { answer: st.answer + x, ..st }
    } else {
        CsvState { question: st.question + x, ..st }
    }
}

proof fn lemma_scan_escaped(x: Seq<char>, r: Seq<char>, st: CsvState)
    requires
        st.in_quotes,
    ensures
        csv_scan(escape_quotes(x) + r, st) == csv_scan(r, push_all(st, x)),
    decreases x.len(),
{
    if x.len() == 0 {
        assert(escape_quotes(x) + r =~= r);
        assert(st.answer + x =~= st.answer);
        assert(st.question + x =~= st.question);
    } else {
        let rest = x.drop_first();
        let t = escape_quotes(x) + r;
        let next = push_field(st, x[0]);
        lemma_scan_escaped(rest, r, next);
        assert(st.answer.push(x[0]) + rest =~= st.answer + x);
        assert(st.question.push(x[0]) + rest =~= st.question + x);
        if x[0] == '"' {
            assert(t =~= seq!['"', '"'] + (escape_quotes(rest) + r));
            assert(t.subrange(2, t.len() as int) =~= escape_quotes(rest) + r);
        } else {
            assert(t =~= seq![x[0]] + (escape_quotes(rest) + r));
            assert(t.drop_first() =~= escape_quotes(rest) + r);
        }
    }
}

/// Fields written quoted, with their quotes doubled, read back as they were: a line
/// `"q","a"` gives the question `q` and the answer `a`, whatever commas and quotes they
/// hold.
pub proof fn lemma_quoted_fields_roundtrip(q: Seq<char>, a: Seq<char>)
    ensures
        csv_fields(quote_field(q) + seq![','] + quote_field(a)) == (q, a),
{
    let line = quote_field(q) + seq![','] + quote_field(a);
    let s0 = csv_start();
    let s1 = CsvState { in_quotes: true, ..s0 };
    let r1 = seq!['"', ','] + quote_field(a);
    assert(line =~= seq!['"'] + (escape_quotes(q) + r1));
    assert(line.drop_first() =~= escape_quotes(q) + r1);
    lemma_scan_escaped(q, r1, s1);
    let s2 = push_all(s1, q);
    let r2 = quote_field(a);
    assert(r1.subrange(2, r1.len() as int) =~= r2);
    let s3 = to_answer(s2);
    let s4 = CsvState { in_quotes: true, ..s3 };
    let r3 = seq!['"'];
    assert(r2 =~= seq!['"'] + (escape_quotes(a) + r3));
    assert(r2.drop_first() =~= escape_quotes(a) + r3);
    lemma_scan_escaped(a, r3, s4);
    let s5 = push_all(s4, a);
    assert(r3.drop_first() =~= Seq::<char>::empty());
    assert(s2.question =~= q);
    assert(s5.answer =~= a);
    assert(csv_scan(line, s0) == csv_scan(line.drop_first(), s1));
    assert(csv_scan(r1, s2) == csv_scan(r2, s3));
    assert(csv_scan(r2, s3) == csv_scan(r2.drop_first(), s4));
    assert(csv_scan(r3, s5) == csv_scan(r3.drop_first(), to_answer(s5)));
}

/// A line without quotes whose question holds no comma reads as that question, and the
/// rest of the line (commas included) as the answer.
pub proof fn lemma_plain_fields(q: Seq<char>, a: Seq<char>)
    requires
        forall|i: int| 0 <= i < q.len() ==> q[i] != '"' && q[i] != ',',
        forall|i: int| 0 <= i < a.len() ==> a[i] != '"',
    ensures
        csv_fields(q + seq![','] + a) == (q, a),
{
    let st = csv_start();
    lemma_scan_plain(q, seq![','] + a, st);
    let s1 = push_all(st, q);
    let r = seq![','] + a;
    assert(q + seq![','] + a =~= q + r);
    assert(r.drop_first() =~= a);
    lemma_scan_plain(a, seq![], to_answer(s1));
    assert(a + seq![] =~= a);
    assert(s1.question =~= q);
    assert(push_all(to_answer(s1), a).answer =~= a);
}

/// A line without quotes or commas is all question, with an empty answer.
pub proof fn lemma_no_comma_line(q: Seq<char>)
    requires
        forall|i: int| 0 <= i < q.len() ==> q[i] != '"' && q[i] != ',',
    ensures
        csv_fields(q) == (q, Seq::<char>::empty()),
{
    let st = csv_start();
    lemma_scan_plain(q, seq![], st);
    assert(q + seq![] =~= q);
    assert(push_all(st, q).question =~= q);
}

proof fn lemma_scan_plain(x: Seq<char>, r: Seq<char>, st: CsvState)
    requires
        !st.in_quotes,
        forall|i: int| 0 <= i < x.len() ==> x[i] != '"',
        !st.in_answer ==> forall|i: int| 0 <= i < x.len() ==> x[i] != ',',
    ensures
        csv_scan(x + r, st) == csv_scan(r, push_all(st, x)),
    decreases x.len(),
{
    if x.len() == 0 {
        assert(x + r =~= r);
        assert(st.answer + x =~= st.answer);
        assert(st.question + x =~= st.question);
    } else {
        let rest = x.drop_first();
        let next = push_field(st, x[0]);
        assert forall|i: int| 0 <= i < rest.len() implies rest[i] != '"' by {
            assert(rest[i] == x[i + 1]);
        }
        assert(!next.in_answer ==> forall|i: int| 0 <= i < rest.len() ==> rest[i] != ',') by {
            if !next.in_answer {
                assert forall|i: int| 0 <= i < rest.len() implies rest[i] != ',' by {
                    assert(rest[i] == x[i + 1]);
                }
            }
        }
        lemma_scan_plain(rest, r, next);
        assert(st.answer.push(x[0]) + rest =~= st.answer + x);
        assert(st.question.push(x[0]) + rest =~= st.question + x);
        assert((x + r).drop_first() =~= rest + r);
    }
}

/// Every character of `s` is whitespace (`s.trim()` is empty).
pub open spec fn is_blank(s: Seq<char>) -> bool {
    forall|i: int| 0 <= i < s.len() ==> is_ws(#[trigger] s[i])
}

fn blank(s: &Vec<char>) -> (res: bool)
    ensures
        res == is_blank(s@),
{
    let n = s.len();
    let mut k: usize = 0;
    while k < n
        invariant
            n == s@.len(),
            k <= n,
            forall|i: int| 0 <= i < k ==> is_ws(#[trigger] s@[i]),
        decreases n - k,
    {
        if !is_whitespace(s[k]) {
            return false;
        }
        k = k + 1;
    }
    true
}

/// Question/answer pairs of the lines whose fields both hold a non-blank character.
pub open spec fn deck_pairs(lines: Seq<Seq<char>>) -> Seq<(Seq<char>, Seq<char>)>
    decreases lines.len(),
{
    if lines.len() == 0 {
        seq![]
    } else {
        let rest = deck_pairs(lines.drop_last());
        let f = csv_fields(lines.last());
        if !is_blank(f.0) && !is_blank(f.1) {
            rest.push(f)
        } else {
            rest
        }
    }
}

pub open spec fn fresh_card(card: Flashcard, pair: (Seq<char>, Seq<char>)) -> bool {
    &&& card.question@ == pair.0
    &&& card.answer@ == pair.1
    &&& card.user_answer is None
    &&& card.ai_feedback is None
    &&& !card.written_to_file
    &&& card.id is None
}

fn add_line(cards: &mut Vec<Flashcard>, chars: &Vec<char>, from: usize, to: usize)
    requires
        from <= to <= chars@.len(),
    ensures
        ({
            let f = csv_fields(chars@.subrange(from as int, to as int));
            if !is_blank(f.0) && !is_blank(f.1) {
                &&& final(cards)@.len() == old(cards)@.len() + 1
                &&& final(cards)@.take(old(cards)@.len() as int) == old(cards)@
                &&& fresh_card(final(cards)@.last(), f)
            } else {
                final(cards)@ == old(cards)@
            }
        }),
{
    let (q, a) = scan_line(chars, from, to);
    if !blank(&q) && !blank(&a) {
        cards.push(
            Flashcard {
                question: string_from_chars(&q),
                answer: string_from_chars(&a),
                user_answer: None,
                ai_feedback: None,
                written_to_file: false,
                id: None,
            },
        );
        proof {
            assert(cards@.take(old(cards)@.len() as int) =~= old(cards)@);
        }
    }
}

proof fn lemma_deck_pairs_concat(x: Seq<Seq<char>>, y: Seq<Seq<char>>)
    ensures
        deck_pairs(x + y) == deck_pairs(x) + deck_pairs(y),
    decreases y.len(),
{
    if y.len() == 0 {
        assert(x + y =~= x);
        assert(deck_pairs(x) + Seq::<(Seq<char>, Seq<char>)>::empty() =~= deck_pairs(x));
    } else {
        lemma_deck_pairs_concat(x, y.drop_last());
        assert((x + y).drop_last() =~= x + y.drop_last());
        assert((x + y).last() == y.last());
        let f = csv_fields(y.last());
        assert((deck_pairs(x) + deck_pairs(y.drop_last())).push(f) =~= deck_pairs(x) + deck_pairs(
            y.drop_last(),
        ).push(f));
    }
}

/// Appending lines to a deck file whose last line is finished appends their cards:
/// the cards of `p` followed by `s` are those of `p`, then those of `s`, in order.
pub proof fn lemma_deck_append(p: Seq<char>, s: Seq<char>)
    requires
        p.len() == 0 || p.last() == '\n',
    ensures
        deck_pairs(text_lines(p + s)) == deck_pairs(text_lines(p)) + deck_pairs(text_lines(s)),
{
    if p.len() > 0 {
        assert(p.drop_last().push('\n') =~= p);
    }
    assert(line_split(p).1.len() == 0);
    lemma_line_split_append(p, s);
    assert(text_lines(p) == line_split(p).0);
    let ds = line_split(s);
    if ds.1.len() > 0 {
        assert(line_split(p).0 + ds.0.push(ds.1) =~= (line_split(p).0 + ds.0).push(ds.1));
    }
    assert(text_lines(p + s) =~= text_lines(p) + text_lines(s));
    lemma_deck_pairs_concat(text_lines(p), text_lines(s));
}

/// A line `q,a` without quotes, line breaks or a comma in the question is one card,
/// asking `q` with the answer `a`, when neither is blank.
pub proof fn lemma_deck_line(q: Seq<char>, a: Seq<char>)
    requires
        forall|i: int| 0 <= i < q.len() ==> q[i] != '"' && q[i] != ',' && q[i] != '\n',
        forall|i: int| 0 <= i < a.len() ==> a[i] != '"' && a[i] != '\n',
        !is_blank(q),
        !is_blank(a),
    ensures
        deck_pairs(text_lines(q + seq![','] + a)) == seq![(q, a)],
{
    let line = q + seq![','] + a;
    assert(!line.contains('\n')) by {
        if line.contains('\n') {
            let k = choose|k: int| 0 <= k < line.len() && line[k] == '\n';
            if k < q.len() {
                assert(q[k] == '\n');
            } else if k > q.len() {
                assert(a[k - q.len() - 1] == '\n');
            }
        }
    }
    lemma_text_lines_single(line);
    lemma_plain_fields(q, a);
    let ls = seq![line];
    assert(ls.drop_last() =~= Seq::<Seq<char>>::empty());
    assert(ls.last() == line);
    assert(deck_pairs(ls.drop_last()) == Seq::<(Seq<char>, Seq<char>)>::empty());
    assert(csv_fields(line) == (q, a));
    assert(Seq::<(Seq<char>, Seq<char>)>::empty().push((q, a)) =~= seq![(q, a)]);
}

/// The flashcards of a deck file's contents: one per line whose question and answer
/// are both non-blank, in order.
pub fn flashcards_from_csv(content: &str) -> (cards: Vec<Flashcard>)
    ensures
        cards@.len() == deck_pairs(text_lines(content@)).len(),
        forall|k: int|
            0 <= k < cards@.len() ==> fresh_card(#[trigger] cards@[k], deck_pairs(text_lines(content@))[k]),
{
    let chars = chars_of(content);
    let ghost t = content@;
    let n = chars.len();
    let mut cards: Vec<Flashcard> = Vec::new();
    let mut line_start: usize = 0;
    let mut i: usize = 0;
    proof {
        assert(t.take(0) =~= Seq::<char>::empty());
    }
    while i < n
        invariant
            chars@ == t,
            n == t.len(),
            line_start <= i <= n,
            line_split(t.take(i as int)).1 == t.subrange(line_start as int, i as int),
            cards@.len() == deck_pairs(line_split(t.take(i as int)).0).len(),
            forall|k: int|
                0 <= k < cards@.len() ==> fresh_card(#[trigger] cards@[k], deck_pairs(line_split(t.take(i as int)).0)[k]),
        decreases n - i,
    {
        let ghost old_cards = cards@;
        let ghost prev = line_split(t.take(i as int));
        proof {
            assert(t.take(i + 1).drop_last() =~= t.take(i as int));
        }
        if chars[i] == '\n' {
            let end = if i > line_start && chars[i - 1] == '\r' {
                i - 1
            } else {
                i
            };
            proof {
                let cur = t.subrange(line_start as int, i as int);
                if i > line_start && chars[i - 1] == '\r' {
                    assert(cur.drop_last() =~= t.subrange(line_start as int, end as int));
                } else {
                    assert(cur =~= t.subrange(line_start as int, end as int));
                }
                assert(line_split(t.take(i + 1)).0 == prev.0.push(t.subrange(line_start as int, end as int)));
                assert(prev.0.push(t.subrange(line_start as int, end as int)).drop_last() =~= prev.0);
            }
            add_line(&mut cards, &chars, line_start, end);
            i = i + 1;
            line_start = i;
            proof {
                assert(t.subrange(line_start as int, i as int) =~= Seq::<char>::empty());
                let ds = line_split(t.take(i as int)).0;
                assert forall|k: int| 0 <= k < cards@.len() implies fresh_card(#[trigger] cards@[k], deck_pairs(ds)[k]) by {
                    if k < old_cards.len() {
                        assert(cards@[k] == cards@.take(old_cards.len() as int)[k]);
                    }
                }
            }
        } else {
            i = i + 1;
            proof {
                assert(t.subrange(line_start as int, i as int) =~= t.subrange(line_start as int, i - 1).push(t[i - 1]));
            }
        }
    }
    if line_start < n {
        let ghost old_cards = cards@;
        add_line(&mut cards, &chars, line_start, n);
        proof {
            assert(t.take(n as int) =~= t);
            let ds = text_lines(t);
            assert(ds == line_split(t).0.push(t.subrange(line_start as int, n as int)));
            assert(ds.drop_last() =~= line_split(t).0);
            assert forall|k: int| 0 <= k < cards@.len() implies fresh_card(#[trigger] cards@[k], deck_pairs(ds)[k]) by {
                if k < old_cards.len() {
                    assert(cards@[k] == cards@.take(old_cards.len() as int)[k]);
                }
            }
        }
    } else {
        proof {
            assert(t.take(n as int) =~= t);
        }
    }
    cards
}


// ---------------------------------------------------------------------------
// Deck files: the `.csv` files of the decks directory, in order of their names.

/// `name` has the extension "csv" as `Path::extension` reads a file name: it ends in
/// ".csv" and something comes before the dot.
pub open spec fn is_csv_name(name: Seq<char>) -> bool {
    name.len() >= 5 && name.subrange(name.len() - 4, name.len() as int) == seq!['.', 'c', 's', 'v']
}

/// The names among `names` that are deck files, in their order.
pub open spec fn csv_names(names: Seq<Seq<char>>) -> Seq<Seq<char>>
    decreases names.len(),
{
    if names.len() == 0 {
        seq![]
    } else if is_csv_name(names.last()) {
        csv_names(names.drop_last()).push(names.last())
    } else {
        csv_names(names.drop_last())
    }
}

/// `a` comes strictly before `b`: at the first position where they differ, `a` has the
/// smaller character, or `a` is a proper prefix of `b`. This is the order of their
/// UTF-8 bytes, in which paths of one directory sort.
pub open spec fn name_lt(a: Seq<char>, b: Seq<char>) -> bool
    decreases a.len(),
{
    if a.len() == 0 {
        b.len() > 0
    } else if b.len() == 0 {
        false
    } else if a[0] == b[0] {
        name_lt(a.drop_first(), b.drop_first())
    } else {
        a[0] < b[0]
    }
}

pub open spec fn name_le(a: Seq<char>, b: Seq<char>) -> bool {
    a == b || name_lt(a, b)
}

/// Each name is at most the ones after it.
pub open spec fn names_sorted(s: Seq<Seq<char>>) -> bool {
    forall|i: int, j: int| 0 <= i < j < s.len() ==> name_le(#[trigger] s[i], #[trigger] s[j])
}

pub open spec fn strings_view(v: Seq<String>) -> Seq<Seq<char>> {
    v.map_values(|s: String| s@)
}

proof fn lemma_name_lt_irreflexive(a: Seq<char>)
    ensures
        !name_lt(a, a),
    decreases a.len(),
{
    if a.len() > 0 {
        lemma_name_lt_irreflexive(a.drop_first());
    }
}

proof fn lemma_name_lt_transitive(a: Seq<char>, b: Seq<char>, c: Seq<char>)
    requires
        name_lt(a, b),
        name_lt(b, c),
    ensures
        name_lt(a, c),
    decreases a.len(),
{
    if a.len() > 0 && b.len() > 0 && c.len() > 0 && a[0] == b[0] && b[0] == c[0] {
        lemma_name_lt_transitive(a.drop_first(), b.drop_first(), c.drop_first());
    }
}

proof fn lemma_name_lt_total(a: Seq<char>, b: Seq<char>)
    ensures
        a == b || name_lt(a, b) || name_lt(b, a),
    decreases a.len(),
{
    if a.len() == 0 && b.len() == 0 {
        assert(a =~= b);
    } else if a.len() > 0 && b.len() > 0 && a[0] == b[0] {
        lemma_name_lt_total(a.drop_first(), b.drop_first());
        if a.drop_first() == b.drop_first() {
            assert(a =~= seq![a[0]] + a.drop_first());
            assert(b =~= seq![b[0]] + b.drop_first());
        }
    }
}

/// The order of names is a total order: irreflexive, transitive, and any two different
/// names are ordered one way or the other.
pub proof fn lemma_name_order(a: Seq<char>, b: Seq<char>, c: Seq<char>)
    ensures
        !name_lt(a, a),
        name_lt(a, b) && name_lt(b, c) ==> name_lt(a, c),
        a == b || name_lt(a, b) || name_lt(b, a),
        name_lt(a, b) ==> !name_lt(b, a),
{
    lemma_name_lt_irreflexive(a);
    lemma_name_lt_total(a, b);
    if name_lt(a, b) && name_lt(b, c) {
        lemma_name_lt_transitive(a, b, c);
    }
    if name_lt(a, b) && name_lt(b, a) {
        lemma_name_lt_transitive(a, b, a);
    }
}

fn name_less(a: &Vec<char>, b: &Vec<char>) -> (res: bool)
    ensures
        res == name_lt(a@, b@),
{
    let mut i: usize = 0;
    proof {
        assert(a@.skip(0) =~= a@);
        assert(b@.skip(0) =~= b@);
    }
    while i < a.len() && i < b.len() && a[i] == b[i]
        invariant
            i <= a@.len(),
            i <= b@.len(),
            name_lt(a@, b@) == name_lt(a@.skip(i as int), b@.skip(i as int)),
        decreases a@.len() - i,
    {
        proof {
            assert(a@.skip(i as int).drop_first() =~= a@.skip(i + 1));
            assert(b@.skip(i as int).drop_first() =~= b@.skip(i + 1));
        }
        i = i + 1;
    }
    if i == a.len() {
        i < b.len()
    } else if i == b.len() {
        false
    } else {
        a[i] < b[i]
    }
}

fn csv_name(name: &Vec<char>) -> (res: bool)
    ensures
        res == is_csv_name(name@),
{
    let n = name.len();
    if n < 5 {
        return false;
    }
    let r = name[n - 4] == '.' && name[n - 3] == 'c' && name[n - 2] == 's' && name[n - 1] == 'v';
    proof {
        if r {
            assert(name@.subrange(n - 4, n as int) =~= seq!['.', 'c', 's', 'v']);
        } else if name@.subrange(n - 4, n as int) == seq!['.', 'c', 's', 'v'] {
            assert(name@.subrange(n - 4, n as int)[0] == name@[n - 4]);
            assert(name@.subrange(n - 4, n as int)[1] == name@[n - 3]);
            assert(name@.subrange(n - 4, n as int)[2] == name@[n - 2]);
            assert(name@.subrange(n - 4, n as int)[3] == name@[n - 1]);
        }
    }
    r
}

/// Putting `x` after the names it does not come before, and before the rest, keeps a
/// sorted sequence sorted.
proof fn lemma_insert_sorted(s: Seq<Seq<char>>, j: int, x: Seq<char>)
    requires
        names_sorted(s),
        0 <= j <= s.len(),
        forall|i: int| 0 <= i < j ==> !name_lt(x, #[trigger] s[i]),
        j < s.len() ==> name_lt(x, s[j]),
    ensures
        names_sorted(s.insert(j, x)),
{
    let t = s.insert(j, x);
    assert forall|a: int, b: int| 0 <= a < b < t.len() implies name_le(#[trigger] t[a], #[trigger] t[b]) by {
        if b < j {
            assert(t[a] == s[a] && t[b] == s[b]);
        } else if b == j {
            assert(t[a] == s[a]);
            lemma_name_order(s[a], x, x);
        } else {
            assert(t[b] == s[b - 1]);
            if a < j {
                assert(t[a] == s[a]);
                assert(name_le(s[a], s[b - 1]));
            } else if a == j {
                if j < b - 1 {
                    assert(name_le(s[j], s[b - 1]));
                    lemma_name_order(x, s[j], s[b - 1]);
                }
            } else {
                assert(t[a] == s[a - 1]);
                assert(name_le(s[a - 1], s[b - 1]));
            }
        }
    }
}

/// Where `x` goes in the sorted `v`: before the first name it comes before.
fn insert_position(v: &Vec<String>, x: &Vec<char>) -> (j: usize)
    ensures
        j <= v@.len(),
        forall|i: int| 0 <= i < j ==> !name_lt(x@, #[trigger] v@[i]@),
        j < v@.len() ==> name_lt(x@, v@[j as int]@),
{
    let mut j: usize = 0;
    while j < v.len()
        invariant
            j <= v@.len(),
            forall|i: int| 0 <= i < j ==> !name_lt(x@, #[trigger] v@[i]@),
        decreases v@.len() - j,
    {
        let key = chars_of(v[j].as_str());
        if name_less(x, &key) {
            return j;
        }
        j = j + 1;
    }
    j
}

/// The deck files among the file names of a directory: those with the extension "csv",
/// sorted by name.
pub fn csv_file_names(names: Vec<String>) -> (res: Vec<String>)
    ensures
        names_sorted(strings_view(res@)),
        strings_view(res@).to_multiset() == csv_names(strings_view(names@)).to_multiset(),
{
    let n = names.len();
    let mut res: Vec<String> = Vec::new();
    let mut k: usize = 0;
    proof {
        assert(strings_view(names@).take(0) =~= Seq::<Seq<char>>::empty());
        assert(strings_view(res@) =~= Seq::<Seq<char>>::empty());
    }
    while k < n
        invariant
            k <= n,
            n == names@.len(),
            names_sorted(strings_view(res@)),
            strings_view(res@).to_multiset() == csv_names(strings_view(names@).take(k as int)).to_multiset(),
        decreases n - k,
    {
        let ghost taken = strings_view(names@).take(k as int);
        proof {
            assert(strings_view(names@).take(k + 1).drop_last() =~= taken);
            assert(strings_view(names@).take(k + 1).last() == names@[k as int]@);
        }
        let name = chars_of(names[k].as_str());
        if csv_name(&name) {
            let j = insert_position(&res, &name);
            let ghost old_res = strings_view(res@);
            let copy = names[k].clone();
            res.insert(j, copy);
            proof {
                assert(strings_view(res@) =~= old_res.insert(j as int, names@[k as int]@));
                lemma_insert_sorted(old_res, j as int, name@);
                vstd::seq_lib::to_multiset_insert(old_res, j as int, name@);
                vstd::seq_lib::to_multiset_build(csv_names(taken), name@);
            }
        }
        k = k + 1;
    }
    proof {
        assert(strings_view(names@).take(n as int) =~= strings_view(names@));
    }
    res
}
} // verus!
