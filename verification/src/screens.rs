//! What the screens show: the lines of the session summary, of the quiz's answer
//! panel and help bar, and the menu's list entries. Values that come from `f32`
//! scores (percentages and the colours chosen by them, the verdict's wording) are
//! handed in already written out.
use crate::chat::{empty_line, label_style, one_span_line};
use crate::models::{AIFeedback, Flashcard, SessionAssessment};
use crate::session::QuizSession;
use crate::text::{lines_of, string_from_chars, text_lines};
use crate::ui::{decimal, push_decimal};
use crate::utils::markdown::{
    bold_style, lines_view, markdown_lines, plain, render_markdown, spans_view, Color, LineView,
    SpanStyle, SpanView, StyledLine, StyledSpan,
};
use vstd::prelude::*;

verus! {

broadcast use vstd::string::group_string_axioms;

/// Text in colour `c`, with no modifier.
pub open spec fn color_style(c: Color) -> SpanStyle {
    SpanStyle { fg: Some(c), ..plain() }
}

/// The spans of a line made from plain text: one unstyled span per line of `s`, as a
/// terminal line built from a string keeps them (an empty string gives no span).
pub open spec fn raw_line_view(s: Seq<char>) -> LineView {
    text_lines(s).map_values(|l: Seq<char>| (l, plain()))
}

/// The lines of a block of plain text: one line per line of `s`.
pub open spec fn raw_text_view(s: Seq<char>) -> Seq<LineView> {
    text_lines(s).map_values(|l: Seq<char>| raw_line_view(l))
}

/// A percentage as shown: its digits and the colour it is drawn in.
#[derive(Debug, Clone)]
pub struct Percent {
    pub digits: String,
    pub color: Color,
}

/// `out` with the lines `ls` added at its end.
fn push_lines(out: &mut Vec<StyledLine>, ls: Vec<StyledLine>)
    ensures
        lines_view(final(out)@) == lines_view(old(out)@) + lines_view(ls@),
{
    let mut ls = ls;
    let ghost a = out@;
    let ghost b = ls@;
    out.append(&mut ls);
    proof {
        assert(lines_view(a + b) =~= lines_view(a) + lines_view(b));
    }
}

/// `out` with one line added.
fn push_line(out: &mut Vec<StyledLine>, l: StyledLine)
    ensures
        lines_view(final(out)@) == lines_view(old(out)@).push(l@),
{
    let ghost a = out@;
    out.push(l);
    proof {
        assert(lines_view(a.push(l)) =~= lines_view(a).push(l@));
    }
}

/// A line of plain text, as a terminal line built from `s` holds it.
pub fn raw_line(s: &str) -> (l: StyledLine)
    ensures
        l@ == raw_line_view(s@),
{
    let ls = lines_of(s);
    let n = ls.len();
    let mut spans: Vec<StyledSpan> = Vec::new();
    let mut k: usize = 0;
    while k < n
        invariant
            k <= n,
            n == ls@.len(),
            n == text_lines(s@).len(),
            forall|i: int| 0 <= i < n ==> #[trigger] ls@[i]@ == text_lines(s@)[i],
            spans_view(spans@) == raw_line_view(s@).take(k as int),
        decreases n - k,
    {
        let ghost before = spans@;
        spans.push(StyledSpan { content: string_from_chars(&ls[k]), style: SpanStyle::plain() });
        proof {
            assert(spans_view(spans@) =~= spans_view(before).push((text_lines(s@)[k as int], plain())));
            assert(raw_line_view(s@).take(k + 1) =~= raw_line_view(s@).take(k as int).push(
                (text_lines(s@)[k as int], plain()),
            ));
        }
        k = k + 1;
    }
    proof {
        assert(raw_line_view(s@).take(n as int) =~= raw_line_view(s@));
    }
    StyledLine { spans }
}

/// The lines of a block of plain text.
pub fn raw_text(s: &str) -> (res: Vec<StyledLine>)
    ensures
        lines_view(res@) == raw_text_view(s@),
{
    let ls = lines_of(s);
    let n = ls.len();
    let mut out: Vec<StyledLine> = Vec::new();
    let mut k: usize = 0;
    while k < n
        invariant
            k <= n,
            n == ls@.len(),
            n == text_lines(s@).len(),
            forall|i: int| 0 <= i < n ==> #[trigger] ls@[i]@ == text_lines(s@)[i],
            lines_view(out@) == raw_text_view(s@).take(k as int),
        decreases n - k,
    {
        let line_text = string_from_chars(&ls[k]);
        let l = raw_line(line_text.as_str());
        push_line(&mut out, l);
        proof {
            assert(raw_text_view(s@).take(k + 1) =~= raw_text_view(s@).take(k as int).push(
                raw_line_view(text_lines(s@)[k as int]),
            ));
        }
        k = k + 1;
    }
    proof {
        assert(raw_text_view(s@).take(n as int) =~= raw_text_view(s@));
    }
    out
}

/// A line of one span.
fn text_line(s: &str, style: SpanStyle) -> (l: StyledLine)
    ensures
        l@ == seq![(s@, style)],
{
    one_span_line(s.to_owned(), style)
}

// ---------------------------------------------------------------------------
// The session summary.

/// How many cards have an answer.
pub open spec fn answered_in(cards: Seq<Flashcard>) -> nat
    decreases cards.len(),
{
    if cards.len() == 0 {
        0
    } else {
        answered_in(cards.drop_last()) + if cards.last().user_answer is Some { 1nat } else { 0nat }
    }
}

proof fn lemma_answered_in_bound(cards: Seq<Flashcard>)
    ensures
        answered_in(cards) <= cards.len(),
    decreases cards.len(),
{
    if cards.len() > 0 {
        lemma_answered_in_bound(cards.drop_last());
    }
}

/// The answered count is the number of cards that hold an answer.
pub proof fn lemma_answered_in_counts(cards: Seq<Flashcard>)
    ensures
        answered_in(cards) == cards.filter(|c: Flashcard| c.user_answer is Some).len(),
    decreases cards.len(),
{
    reveal(Seq::filter);
    if cards.len() > 0 {
        lemma_answered_in_counts(cards.drop_last());
    }
}

/// The number of answered cards the summary shows: none for a session of no questions.
pub open spec fn answered_shown(s: QuizSession) -> nat {
    if s.questions_total == 0 {
        0
    } else {
        answered_in(s.flashcards@)
    }
}

/// How many cards of the session have an answer (0 when it has no questions).
pub fn answered_count(session: &QuizSession) -> (n: usize)
    ensures
        n == answered_shown(*session),
{
    if session.questions_total == 0 {
        return 0;
    }
    let cards = &session.flashcards;
    let len = cards.len();
    let mut n: usize = 0;
    let mut k: usize = 0;
    while k < len
        invariant
            k <= len,
            len == cards@.len(),
            n == answered_in(cards@.take(k as int)),
            n <= k,
        decreases len - k,
    {
        proof {
            assert(cards@.take(k + 1).drop_last() =~= cards@.take(k as int));
        }
        if cards[k].user_answer.is_some() {
            n = n + 1;
        }
        k = k + 1;
    }
    proof {
        assert(cards@.take(len as int) =~= cards@);
    }
    n
}

/// "answered/total".
pub open spec fn count_text(answered: nat, total: nat) -> Seq<char> {
    decimal(answered) + seq!['/'] + decimal(total)
}

/// The start of the summary's first line.
pub open spec fn answered_spans(answered: nat, total: nat) -> LineView {
    seq![("Answered: "@, plain()), (count_text(answered, total), bold_style())]
}

/// The Markdown lines of each item, marked with `mark`.
pub open spec fn item_lines(items: Seq<String>, mark: Seq<char>) -> Seq<LineView>
    decreases items.len(),
{
    if items.len() == 0 {
        seq![]
    } else {
        item_lines(items.drop_last(), mark) + markdown_lines(mark + items.last()@)
    }
}

/// A titled list of items followed by an empty line; nothing when there are no items.
pub open spec fn section_lines(title: Seq<char>, c: Color, items: Seq<String>, mark: Seq<char>) -> Seq<LineView> {
    if items.len() == 0 {
        seq![]
    } else {
        seq![seq![(title, label_style(c))]] + item_lines(items, mark) + seq![seq![]]
    }
}

/// The summary of an assessed session: count, grade and mastery level, the feedback
/// as Markdown, then the strengths and the areas to improve.
pub open spec fn assessment_lines(a: SessionAssessment, answered: nat, total: nat, grade: Percent) -> Seq<LineView> {
    seq![
        answered_spans(answered, total) + seq![
            ("  |  "@, plain()),
            (grade.digits@.push('%'), label_style(grade.color)),
            (" "@, plain()),
            (a.mastery_level@, color_style(grade.color)),
        ],
        seq![],
        seq![("Feedback:"@, label_style(Color::Cyan))],
    ] + markdown_lines(a.overall_feedback@) + seq![seq![]] + section_lines(
        "Strengths:"@,
        Color::Green,
        a.strengths@,
        "  \u{2713} "@,
    ) + section_lines("Areas to Improve:"@, Color::Red, a.weaknesses@, "  \u{2717} "@)
}

/// The first line when there is no assessment: count and average score.
pub open spec fn score_line(answered: nat, total: nat, score: Percent) -> LineView {
    answered_spans(answered, total) + seq![
        ("  |  Score: "@, plain()),
        (score.digits@.push('%'), label_style(score.color)),
    ]
}

/// The summary screen's body: while the assessment is loading, the count and a notice;
/// with an assessment, its lines; after a failed assessment, the score and the error;
/// otherwise the score and a note that there is no analysis.
pub open spec fn summary_view(s: QuizSession, answered: nat, grade: Percent, score: Percent) -> Seq<LineView> {
    let total = s.questions_total as nat;
    if s.assessment_loading {
        seq![
            answered_spans(answered, total),
            seq![],
            seq![("Analyzing session..."@, label_style(Color::Yellow))],
        ]
    } else if s.session_assessment is Some {
        assessment_lines(s.session_assessment->0, answered, total, grade)
    } else if s.assessment_error is Some {
        seq![
            score_line(answered, total, score),
            seq![],
            seq![("Analysis unavailable"@, color_style(Color::Red))],
            raw_line_view(s.assessment_error->0@),
        ]
    } else {
        seq![
            score_line(answered, total, score),
            seq![],
            seq![("No AI analysis available"@, color_style(Color::DarkGray))],
        ]
    }
}

fn percent_span(p: &Percent) -> (s: StyledSpan)
    ensures
        s@ == (p.digits@.push('%'), label_style(p.color)),
{
    let mut v: Vec<char> = Vec::new();
    crate::text::append_str(&mut v, p.digits.as_str());
    v.push('%');
    StyledSpan { content: string_from_chars(&v), style: SpanStyle::label(p.color) }
}

fn answered_line(answered: usize, total: usize) -> (l: StyledLine)
    ensures
        l@ == answered_spans(answered as nat, total as nat),
{
    let mut v: Vec<char> = Vec::new();
    push_decimal(&mut v, answered as u64);
    v.push('/');
    push_decimal(&mut v, total as u64);
    let mut spans: Vec<StyledSpan> = Vec::new();
    spans.push(StyledSpan { content: "Answered: ".to_owned(), style: SpanStyle::plain() });
    spans.push(StyledSpan { content: string_from_chars(&v), style: SpanStyle::bold() });
    let l = StyledLine { spans };
    proof {
        assert(v@ =~= count_text(answered as nat, total as nat));
        assert(l@ =~= answered_spans(answered as nat, total as nat));
    }
    l
}

/// `l` with one more span at its end.
fn with_span(l: StyledLine, s: StyledSpan) -> (r: StyledLine)
    ensures
        r@ == l@.push(s@),
{
    let mut spans = l.spans;
    let ghost before = spans@;
    spans.push(s);
    let r = StyledLine { spans };
    proof {
        assert(spans_view(before.push(s)) =~= spans_view(before).push(s@));
    }
    r
}

/// Adds the Markdown lines of each item, marked with `mark`.
fn push_item_lines(out: &mut Vec<StyledLine>, items: &Vec<String>, mark: &str)
    ensures
        lines_view(final(out)@) == lines_view(old(out)@) + item_lines(items@, mark@),
{
    let n = items.len();
    let mut k: usize = 0;
    proof {
        assert(items@.take(0) =~= Seq::<String>::empty());
        assert(lines_view(out@) =~= lines_view(old(out)@) + item_lines(items@.take(0), mark@));
    }
    while k < n
        invariant
            k <= n,
            n == items@.len(),
            lines_view(out@) == lines_view(old(out)@) + item_lines(items@.take(k as int), mark@),
        decreases n - k,
    {
        proof {
            assert(items@.take(k + 1).drop_last() =~= items@.take(k as int));
        }
        let text = crate::text::concat_strs(mark, items[k].as_str());
        let rendered = render_markdown(text.as_str());
        push_lines(out, rendered);
        proof {
            assert(lines_view(out@) =~= lines_view(old(out)@) + item_lines(items@.take(k + 1), mark@));
        }
        k = k + 1;
    }
    proof {
        assert(items@.take(n as int) =~= items@);
    }
}

/// Adds a titled section of items, or nothing when there are none.
fn push_section(out: &mut Vec<StyledLine>, title: &str, c: Color, items: &Vec<String>, mark: &str)
    ensures
        lines_view(final(out)@) == lines_view(old(out)@) + section_lines(title@, c, items@, mark@),
{
    if items.len() == 0 {
        proof {
            assert(lines_view(out@) =~= lines_view(old(out)@) + section_lines(title@, c, items@, mark@));
        }
        return;
    }
    push_line(out, text_line(title, SpanStyle::label(c)));
    push_item_lines(out, items, mark);
    push_line(out, empty_line());
    proof {
        assert(lines_view(out@) =~= lines_view(old(out)@) + section_lines(title@, c, items@, mark@));
    }
}

fn assessment_summary(a: &SessionAssessment, answered: usize, total: usize, grade: &Percent) -> (res: Vec<StyledLine>)
    ensures
        lines_view(res@) == assessment_lines(*a, answered as nat, total as nat, *grade),
{
    let mut out: Vec<StyledLine> = Vec::new();
    let mut first = answered_line(answered, total);
    first = with_span(first, StyledSpan { content: "  |  ".to_owned(), style: SpanStyle::plain() });
    first = with_span(first, percent_span(grade));
    first = with_span(first, StyledSpan { content: " ".to_owned(), style: SpanStyle::plain() });
    first = with_span(
        first,
        StyledSpan {
            content: a.mastery_level.clone(),
            style: SpanStyle { bold: false, italic: false, underlined: false, dim: false, fg: Some(grade.color) },
        },
    );
    let ghost head = first@;
    push_line(&mut out, first);
    push_line(&mut out, empty_line());
    push_line(&mut out, text_line("Feedback:", SpanStyle::label(Color::Cyan)));
    push_lines(&mut out, render_markdown(a.overall_feedback.as_str()));
    push_line(&mut out, empty_line());
    let ghost top = lines_view(out@);
    proof {
        assert(head =~= answered_spans(answered as nat, total as nat) + seq![
            ("  |  "@, plain()),
            (grade.digits@.push('%'), label_style(grade.color)),
            (" "@, plain()),
            (a.mastery_level@, color_style(grade.color)),
        ]);
        assert(top =~= seq![head, seq![], seq![("Feedback:"@, label_style(Color::Cyan))]] + markdown_lines(
            a.overall_feedback@,
        ) + seq![seq![]]);
    }
    push_section(&mut out, "Strengths:", Color::Green, &a.strengths, "  \u{2713} ");
    push_section(&mut out, "Areas to Improve:", Color::Red, &a.weaknesses, "  \u{2717} ");
    proof {
        assert(lines_view(out@) =~= assessment_lines(*a, answered as nat, total as nat, *grade));
    }
    out
}

fn score_summary_line(answered: usize, total: usize, score: &Percent) -> (l: StyledLine)
    ensures
        l@ == score_line(answered as nat, total as nat, *score),
{
    let first = answered_line(answered, total);
    let first = with_span(first, StyledSpan { content: "  |  Score: ".to_owned(), style: SpanStyle::plain() });
    let first = with_span(first, percent_span(score));
    proof {
        assert(first@ =~= score_line(answered as nat, total as nat, *score));
    }
    first
}

/// The lines of the summary screen's body, for `answered` answered cards; `grade` is
/// the assessment's grade and `score` the average score, each as shown.
pub fn summary_lines(session: &QuizSession, answered: usize, grade: &Percent, score: &Percent) -> (res: Vec<StyledLine>)
    ensures
        lines_view(res@) == summary_view(*session, answered as nat, *grade, *score),
{
    let total = session.questions_total;
    let mut out: Vec<StyledLine> = Vec::new();
    if session.assessment_loading {
        push_line(&mut out, answered_line(answered, total));
        push_line(&mut out, empty_line());
        push_line(&mut out, text_line("Analyzing session...", SpanStyle::label(Color::Yellow)));
        proof {
            assert(lines_view(out@) =~= summary_view(*session, answered as nat, *grade, *score));
        }
        return out;
    }
    match &session.session_assessment {
        Some(a) => {
            return assessment_summary(a, answered, total, grade);
        },
        None => {},
    }
    push_line(&mut out, score_summary_line(answered, total, score));
    push_line(&mut out, empty_line());
    match &session.assessment_error {
        Some(e) => {
            push_line(
                &mut out,
                text_line(
                    "Analysis unavailable",
                    SpanStyle { bold: false, italic: false, underlined: false, dim: false, fg: Some(Color::Red) },
                ),
            );
            push_line(&mut out, raw_line(e.as_str()));
        },
        None => {
            push_line(
                &mut out,
                text_line(
                    "No AI analysis available",
                    SpanStyle { bold: false, italic: false, underlined: false, dim: false, fg: Some(Color::DarkGray) },
                ),
            );
        },
    }
    proof {
        assert(lines_view(out@) =~= summary_view(*session, answered as nat, *grade, *score));
    }
    out
}

// ---------------------------------------------------------------------------
// The quiz screen.

/// The header: "Question n / total - deck", counting from one.
pub open spec fn progress_view(s: QuizSession) -> Seq<char> {
    "Question "@ + decimal(s.current_index as nat + 1) + " / "@ + decimal(s.flashcards@.len()) + " - "@
        + s.deck_name@
}

/// The quiz screen's header.
pub fn progress_text(session: &QuizSession) -> (res: String)
    requires
        session.current_index < session.flashcards@.len(),
    ensures
        res@ == progress_view(*session),
{
    let count = session.flashcards.len();
    let mut v: Vec<char> = Vec::new();
    crate::text::append_str(&mut v, "Question ");
    push_decimal(&mut v, (session.current_index + 1) as u64);
    crate::text::append_str(&mut v, " / ");
    push_decimal(&mut v, count as u64);
    crate::text::append_str(&mut v, " - ");
    crate::text::append_str(&mut v, session.deck_name.as_str());
    proof {
        assert(v@ =~= progress_view(*session));
    }
    string_from_chars(&v)
}

/// Each item as a bulleted line of plain text.
pub open spec fn bullet_lines(items: Seq<String>) -> Seq<LineView>
    decreases items.len(),
{
    if items.len() == 0 {
        seq![]
    } else {
        bullet_lines(items.drop_last()).push(raw_line_view(seq!['\u{2022}', ' '] + items.last()@))
    }
}

/// A titled list after an empty line; nothing when there are no items.
pub open spec fn titled_list(title: Seq<char>, items: Seq<String>) -> Seq<LineView> {
    if items.len() == 0 {
        seq![]
    } else {
        seq![seq![], seq![(title, plain())]] + bullet_lines(items)
    }
}

/// The AI's verdict on an answer, under its score line `verdict`: corrections, the
/// explanation, suggestions.
pub open spec fn feedback_view(f: AIFeedback, verdict: Seq<char>) -> Seq<LineView> {
    seq![seq![], seq![("AI Evaluation:"@, bold_style())], raw_line_view(verdict)] + titled_list(
        "Corrections:"@,
        f.corrections@,
    ) + seq![seq![], seq![("Explanation:"@, plain())], raw_line_view(f.explanation@)] + titled_list(
        "Suggestions:"@,
        f.suggestions@,
    )
}

/// The revealed card: the correct answer, the user's answer if any, then the AI's
/// verdict, or else the evaluation error, or else a notice while an evaluation runs.
pub open spec fn revealed_view(c: Flashcard, verdict: Seq<char>, ai_error: Option<Seq<char>>, evaluating: bool) -> Seq<LineView> {
    seq![seq![("Correct Answer:"@, label_style(Color::Green))], seq![], raw_line_view(c.answer@)] + (match c.user_answer {
        Some(u) => seq![seq![], seq![("Your Answer:"@, label_style(Color::Yellow))], raw_line_view(u@)],
        None => seq![],
    }) + (match c.ai_feedback {
        Some(f) => feedback_view(f, verdict),
        None => match ai_error {
            Some(e) => seq![seq![], raw_line_view(e)],
            None => if evaluating {
                seq![seq![], seq![("AI is evaluating your answer..."@, plain())]]
            } else {
                seq![]
            },
        },
    })
}

/// The answer panel: the revealed card, or else the answer being typed (a placeholder
/// while it is empty).
pub open spec fn answer_panel_view(s: QuizSession, verdict: Seq<char>, ai_error: Option<Seq<char>>) -> Seq<LineView> {
    if s.showing_answer {
        revealed_view(s.flashcards@[s.current_index as int], verdict, ai_error, s.ai_enabled && s.ai_evaluation_in_progress)
    } else if s.input_buffer@.len() == 0 {
        seq![seq![("[Type your answer here...]"@, plain())]]
    } else {
        raw_text_view(s.input_buffer@)
    }
}

fn push_bullet_lines(out: &mut Vec<StyledLine>, items: &Vec<String>)
    ensures
        lines_view(final(out)@) == lines_view(old(out)@) + bullet_lines(items@),
{
    let n = items.len();
    let mut k: usize = 0;
    proof {
        assert(items@.take(0) =~= Seq::<String>::empty());
        assert(lines_view(out@) =~= lines_view(old(out)@) + bullet_lines(items@.take(0)));
    }
    while k < n
        invariant
            k <= n,
            n == items@.len(),
            lines_view(out@) == lines_view(old(out)@) + bullet_lines(items@.take(k as int)),
        decreases n - k,
    {
        proof {
            assert(items@.take(k + 1).drop_last() =~= items@.take(k as int));
        }
        let text = crate::text::concat_strs("\u{2022} ", items[k].as_str());
        proof {
            reveal_strlit("\u{2022} ");
            assert("\u{2022} "@ =~= seq!['\u{2022}', ' ']);
        }
        let ghost before = lines_view(out@);
        push_line(out, raw_line(text.as_str()));
        proof {
            assert(lines_view(out@) =~= lines_view(old(out)@) + bullet_lines(items@.take(k + 1)));
        }
        k = k + 1;
    }
    proof {
        assert(items@.take(n as int) =~= items@);
    }
}

fn push_titled_list(out: &mut Vec<StyledLine>, title: &str, items: &Vec<String>)
    ensures
        lines_view(final(out)@) == lines_view(old(out)@) + titled_list(title@, items@),
{
    if items.len() == 0 {
        proof {
            assert(lines_view(out@) =~= lines_view(old(out)@) + titled_list(title@, items@));
        }
        return;
    }
    push_line(out, empty_line());
    push_line(out, text_line(title, SpanStyle::plain()));
    push_bullet_lines(out, items);
    proof {
        assert(lines_view(out@) =~= lines_view(old(out)@) + titled_list(title@, items@));
    }
}

fn push_feedback(out: &mut Vec<StyledLine>, f: &AIFeedback, verdict: &str)
    ensures
        lines_view(final(out)@) == lines_view(old(out)@) + feedback_view(*f, verdict@),
{
    let ghost start = lines_view(out@);
    push_line(out, empty_line());
    push_line(out, text_line("AI Evaluation:", SpanStyle::bold()));
    push_line(out, raw_line(verdict));
    let ghost a = lines_view(out@);
    push_titled_list(out, "Corrections:", &f.corrections);
    let ghost b = lines_view(out@);
    push_line(out, empty_line());
    push_line(out, text_line("Explanation:", SpanStyle::plain()));
    push_line(out, raw_line(f.explanation.as_str()));
    let ghost c = lines_view(out@);
    push_titled_list(out, "Suggestions:", &f.suggestions);
    proof {
        assert(a =~= start + seq![seq![], seq![("AI Evaluation:"@, bold_style())], raw_line_view(verdict@)]);
        assert(c =~= b + seq![seq![], seq![("Explanation:"@, plain())], raw_line_view(f.explanation@)]);
        assert(lines_view(out@) =~= start + feedback_view(*f, verdict@));
    }
}

/// The lines of the quiz screen's answer panel; `verdict` is the score line of the
/// card's verdict, `ai_error` the last evaluation error.
pub fn answer_panel_lines(session: &QuizSession, verdict: &str, ai_error: Option<&str>) -> (res: Vec<StyledLine>)
    requires
        session.current_index < session.flashcards@.len(),
    ensures
        lines_view(res@) == answer_panel_view(
            *session,
            verdict@,
            match ai_error {
                Some(e) => Some(e@),
                None => None,
            },
        ),
{
    let ghost err = match ai_error {
        Some(e) => Some(e@),
        None => None::<Seq<char>>,
    };
    if !session.showing_answer {
        if session.input_buffer.as_str().is_empty() {
            let mut out: Vec<StyledLine> = Vec::new();
            push_line(&mut out, text_line("[Type your answer here...]", SpanStyle::plain()));
            proof {
                assert(lines_view(out@) =~= answer_panel_view(*session, verdict@, err));
            }
            return out;
        }
        return raw_text(session.input_buffer.as_str());
    }
    let card = &session.flashcards[session.current_index];
    let mut out: Vec<StyledLine> = Vec::new();
    push_line(&mut out, text_line("Correct Answer:", SpanStyle::label(Color::Green)));
    push_line(&mut out, empty_line());
    push_line(&mut out, raw_line(card.answer.as_str()));
    let ghost a = lines_view(out@);
    match &card.user_answer {
        Some(u) => {
            push_line(&mut out, empty_line());
            push_line(&mut out, text_line("Your Answer:", SpanStyle::label(Color::Yellow)));
            push_line(&mut out, raw_line(u.as_str()));
        },
        None => {},
    }
    let ghost b = lines_view(out@);
    match &card.ai_feedback {
        Some(f) => {
            push_feedback(&mut out, f, verdict);
        },
        None => match ai_error {
            Some(e) => {
                push_line(&mut out, empty_line());
                push_line(&mut out, raw_line(e));
            },
            None => {
                if session.ai_enabled && session.ai_evaluation_in_progress {
                    push_line(&mut out, empty_line());
                    push_line(&mut out, text_line("AI is evaluating your answer...", SpanStyle::plain()));
                }
            },
        },
    }
    proof {
        assert(a =~= seq![seq![("Correct Answer:"@, label_style(Color::Green))], seq![], raw_line_view(card.answer@)]);
        assert(lines_view(out@) =~= answer_panel_view(*session, verdict@, err));
    }
    out
}

/// A key name followed by what it does.
pub open spec fn key_hint(key: Seq<char>, what: Seq<char>) -> LineView {
    seq![(key, label_style(Color::Cyan)), (what, plain())]
}

/// The quiz screen's help bar: the typing keys while an answer is typed, the
/// navigation keys, the AI keys when the AI is on, and the exit key.
pub open spec fn quiz_help_view(showing_answer: bool, ai_enabled: bool) -> Seq<LineView> {
    (if showing_answer {
        seq![]
    } else {
        seq![key_hint("Enter"@, " Submit Answer  "@) + key_hint("Esc"@, " Quit to Menu  "@)]
    }) + seq![
        key_hint("\u{2191}/\u{2193}"@, " Navigate  "@) + key_hint("Enter"@, " Next  "@) + key_hint(
            "Esc"@,
            " Quit to Menu  "@,
        ),
    ] + (if ai_enabled {
        seq![key_hint("Ctrl+E"@, " AI Re-evaluate  "@) + key_hint("Ctrl+X"@, " AI Cancel  "@)]
    } else {
        seq![]
    }) + seq![key_hint("Ctrl+C"@, " Exit App"@)]
}

fn hint_spans(spans: &mut Vec<StyledSpan>, key: &str, what: &str)
    ensures
        spans_view(final(spans)@) == spans_view(old(spans)@) + key_hint(key@, what@),
{
    let ghost a = spans@;
    spans.push(StyledSpan { content: key.to_owned(), style: SpanStyle::label(Color::Cyan) });
    spans.push(StyledSpan { content: what.to_owned(), style: SpanStyle::plain() });
    proof {
        assert(spans_view(spans@) =~= spans_view(a) + key_hint(key@, what@));
    }
}

/// The lines of the quiz screen's help bar.
pub fn quiz_help_lines(showing_answer: bool, ai_enabled: bool) -> (res: Vec<StyledLine>)
    ensures
        lines_view(res@) == quiz_help_view(showing_answer, ai_enabled),
{
    let mut out: Vec<StyledLine> = Vec::new();
    if !showing_answer {
        let mut spans: Vec<StyledSpan> = Vec::new();
        hint_spans(&mut spans, "Enter", " Submit Answer  ");
        hint_spans(&mut spans, "Esc", " Quit to Menu  ");
        push_line(&mut out, StyledLine { spans });
    }
    let ghost a = lines_view(out@);
    let mut spans: Vec<StyledSpan> = Vec::new();
    hint_spans(&mut spans, "\u{2191}/\u{2193}", " Navigate  ");
    hint_spans(&mut spans, "Enter", " Next  ");
    hint_spans(&mut spans, "Esc", " Quit to Menu  ");
    push_line(&mut out, StyledLine { spans });
    let ghost b = lines_view(out@);
    if ai_enabled {
        let mut spans: Vec<StyledSpan> = Vec::new();
        hint_spans(&mut spans, "Ctrl+E", " AI Re-evaluate  ");
        hint_spans(&mut spans, "Ctrl+X", " AI Cancel  ");
        push_line(&mut out, StyledLine { spans });
    }
    let ghost c = lines_view(out@);
    let mut spans: Vec<StyledSpan> = Vec::new();
    hint_spans(&mut spans, "Ctrl+C", " Exit App");
    push_line(&mut out, StyledLine { spans });
    proof {
        assert(lines_view(out@) =~= quiz_help_view(showing_answer, ai_enabled));
    }
    out
}

/// The summary screen's footer: the menu and quit keys, and the retry key when the AI
/// is on.
pub open spec fn summary_help_view(ai_enabled: bool) -> LineView {
    key_hint("m"@, " Menu  "@) + key_hint("Esc"@, " Quit"@) + if ai_enabled {
        seq![("  "@, plain())] + key_hint("r"@, " Retry Analysis"@)
    } else {
        seq![]
    }
}

/// The summary screen's footer line.
pub fn summary_help_line(ai_enabled: bool) -> (l: StyledLine)
    ensures
        l@ == summary_help_view(ai_enabled),
{
    let mut spans: Vec<StyledSpan> = Vec::new();
    hint_spans(&mut spans, "m", " Menu  ");
    hint_spans(&mut spans, "Esc", " Quit");
    if ai_enabled {
        let ghost a = spans@;
        spans.push(StyledSpan { content: "  ".to_owned(), style: SpanStyle::plain() });
        proof {
            assert(spans_view(spans@) =~= spans_view(a).push(("  "@, plain())));
        }
        hint_spans(&mut spans, "r", " Retry Analysis");
    }
    let l = StyledLine { spans };
    proof {
        assert(l@ =~= summary_help_view(ai_enabled));
    }
    l
}

// ---------------------------------------------------------------------------
// The menu screen.

/// The highlighted entry of a list.
pub open spec fn selected_style() -> SpanStyle {
    SpanStyle { bold: true, fg: Some(Color::Yellow), ..plain() }
}

/// The entry that stands in an empty list.
pub open spec fn placeholder_style() -> SpanStyle {
    SpanStyle { italic: true, fg: Some(Color::DarkGray), ..plain() }
}

/// A menu list: the placeholder alone when there are no names, else each name, the
/// one at `highlighted` in the selection's style.
pub open spec fn menu_items_view(names: Seq<String>, highlighted: Option<usize>, placeholder: Seq<char>) -> Seq<SpanView> {
    if names.len() == 0 {
        seq![(placeholder, placeholder_style())]
    } else {
        Seq::new(
            names.len(),
            |i: int|
                (names[i]@, if highlighted == Some(i as usize) {
                    selected_style()
                } else {
                    plain()
                }),
        )
    }
}

/// A menu list shows every name once, in order, and highlights exactly the selected
/// one; an empty list shows only the placeholder.
pub proof fn lemma_menu_highlight(names: Seq<String>, h: usize, placeholder: Seq<char>)
    requires
        h < names.len() <= usize::MAX,
    ensures
        menu_items_view(names, Some(h), placeholder).len() == names.len(),
        menu_items_view(names, Some(h), placeholder)[h as int] == (names[h as int]@, selected_style()),
        forall|i: int|
            0 <= i < names.len() && i != h ==> #[trigger] menu_items_view(names, Some(h), placeholder)[i] == (
            names[i]@,
            plain(),
        ),
        menu_items_view(Seq::<String>::empty(), Some(h), placeholder) == seq![(placeholder, placeholder_style())],
{
    assert forall|i: int| 0 <= i < names.len() && i != h implies #[trigger] menu_items_view(names, Some(h), placeholder)[i]
        == (names[i]@, plain()) by {
        assert(Some(i as usize) != Some(h));
    }
}

/// The entries of a menu list.
pub fn menu_items(names: &Vec<String>, highlighted: Option<usize>, placeholder: &str) -> (res: Vec<StyledSpan>)
    ensures
        spans_view(res@) == menu_items_view(names@, highlighted, placeholder@),
{
    let mut out: Vec<StyledSpan> = Vec::new();
    if names.len() == 0 {
        out.push(
            StyledSpan {
                content: placeholder.to_owned(),
                style: SpanStyle { bold: false, italic: true, underlined: false, dim: false, fg: Some(Color::DarkGray) },
            },
        );
        proof {
            assert(spans_view(out@) =~= menu_items_view(names@, highlighted, placeholder@));
        }
        return out;
    }
    let n = names.len();
    let mut k: usize = 0;
    while k < n
        invariant
            k <= n,
            n == names@.len(),
            n > 0,
            spans_view(out@) == menu_items_view(names@, highlighted, placeholder@).take(k as int),
        decreases n - k,
    {
        let style = if highlighted == Some(k) {
            SpanStyle { bold: true, italic: false, underlined: false, dim: false, fg: Some(Color::Yellow) }
        } else {
            SpanStyle::plain()
        };
        let ghost a = out@;
        out.push(StyledSpan { content: names[k].clone(), style });
        proof {
            assert(spans_view(out@) =~= spans_view(a).push((names@[k as int]@, style)));
            assert(menu_items_view(names@, highlighted, placeholder@)[k as int] == (names@[k as int]@, style));
            assert(spans_view(out@) =~= menu_items_view(names@, highlighted, placeholder@).take(k + 1));
        }
        k = k + 1;
    }
    proof {
        assert(menu_items_view(names@, highlighted, placeholder@).take(n as int) =~= menu_items_view(
            names@,
            highlighted,
            placeholder@,
        ));
    }
    out
}

/// The menu's AI status box: enabled with the model's name, or how to enable it.
pub open spec fn ai_status_view(ai_enabled: bool) -> Seq<Seq<char>> {
    if ai_enabled {
        seq!["AI: Enabled"@, "Model: "@ + crate::ai::DEFAULT_MODEL@]
    } else {
        seq!["AI: Disabled"@, "Set OPENROUTER_API_KEY"@]
    }
}

/// The lines of the menu's AI status box.
pub fn ai_status_lines(ai_enabled: bool) -> (res: Vec<String>)
    ensures
        res@.len() == 2,
        forall|i: int| 0 <= i < 2 ==> #[trigger] res@[i]@ == ai_status_view(ai_enabled)[i],
{
    let mut out: Vec<String> = Vec::new();
    if ai_enabled {
        out.push("AI: Enabled".to_owned());
        out.push(crate::text::concat_strs("Model: ", crate::ai::DEFAULT_MODEL));
    } else {
        out.push("AI: Disabled".to_owned());
        out.push("Set OPENROUTER_API_KEY".to_owned());
    }
    out
}

} // verus!
