//! The chat about a flashcard: its state, and the lines its messages are drawn as.
use crate::models::{ChatMessage, ChatRole};
use crate::text::{lemma_text_lines_single, lines_of, string_from_chars, text_lines};
use crate::utils::markdown::{
    lines_view, markdown_lines, plain, render_markdown, spans_view, Color, LineView, SpanStyle,
    StyledLine, StyledSpan,
};
use vstd::prelude::*;

verus! {

/// The chat popup about one flashcard.
#[derive(Debug)]
pub struct ChatState {
    pub flashcard_id: u64,
    pub session_id: u64,
    pub messages: Vec<ChatMessage>,
    pub input_buffer: String,
    pub cursor_position: usize,
    pub scroll_y: u16,
    pub is_loading: bool,
    pub error: Option<String>,
    pub read_only: bool,
    /// The lines the messages are drawn as, rebuilt when messages change.
    pub rendered_lines_cache: Vec<StyledLine>,
    /// How many messages the cache was built from.
    pub cached_message_count: usize,
    pub max_scroll: u16,
}

/// A speaker's label: bold, in `c`.
pub open spec fn label_style(c: Color) -> SpanStyle {
    SpanStyle { bold: true, fg: Some(c), ..plain() }
}

pub open spec fn system_style() -> SpanStyle {
    SpanStyle { fg: Some(Color::DarkGray), ..plain() }
}

pub open spec fn indent() -> Seq<char> {
    seq![' ', ' ']
}

/// The lines of one message, followed by an empty line: the user's under a "You:"
/// label, each line indented; the AI's under an "AI:" label, rendered as Markdown and
/// indented; a system message as one dimmed-out span.
pub open spec fn message_lines(m: ChatMessage) -> Seq<LineView> {
    match m.role {
        ChatRole::User => seq![seq![("You:"@, label_style(Color::Cyan))]] + text_lines(m.content@).map_values(
            |l: Seq<char>| seq![(indent() + l, plain())],
        ) + seq![seq![]],
        ChatRole::Assistant => seq![seq![("AI:"@, label_style(Color::Green))]] + markdown_lines(
            m.content@,
        ).map_values(|l: LineView| seq![(indent(), plain())] + l) + seq![seq![]],
        ChatRole::System => seq![seq![(m.content@, system_style())], seq![]],
    }
}

/// The lines of all the messages, in order.
pub open spec fn chat_lines(ms: Seq<ChatMessage>) -> Seq<LineView>
    decreases ms.len(),
{
    if ms.len() == 0 {
        seq![]
    } else {
        chat_lines(ms.drop_last()) + message_lines(ms.last())
    }
}

/// The lines of a conversation are the lines of its first part followed by those of
/// the rest: each message is drawn on its own, in order, so the drawn lines can be
/// extended message by message.
pub proof fn lemma_chat_lines_concat(a: Seq<ChatMessage>, b: Seq<ChatMessage>)
    ensures
        chat_lines(a + b) == chat_lines(a) + chat_lines(b),
    decreases b.len(),
{
    if b.len() == 0 {
        assert(a + b =~= a);
        assert(chat_lines(a) + Seq::<LineView>::empty() =~= chat_lines(a));
    } else {
        lemma_chat_lines_concat(a, b.drop_last());
        assert((a + b).drop_last() =~= a + b.drop_last());
        assert((a + b).last() == b.last());
        assert(chat_lines(a) + chat_lines(b.drop_last()) + message_lines(b.last()) =~= chat_lines(a) + (
        chat_lines(b.drop_last()) + message_lines(b.last())));
    }
}

/// A one-line message of the user is drawn as the "You:" label, the text indented by
/// two spaces, and an empty line.
pub proof fn lemma_user_message_lines(m: ChatMessage)
    requires
        m.role == ChatRole::User,
        m.content@.len() > 0,
        !m.content@.contains('\n'),
    ensures
        message_lines(m) == seq![
            seq![("You:"@, label_style(Color::Cyan))],
            seq![(seq![' ', ' '] + m.content@, plain())],
            Seq::<(Seq<char>, SpanStyle)>::empty(),
        ],
{
    lemma_text_lines_single(m.content@);
    let body = text_lines(m.content@).map_values(|l: Seq<char>| seq![(indent() + l, plain())]);
    assert(body =~= seq![seq![(seq![' ', ' '] + m.content@, plain())]]);
    assert(seq![seq![("You:"@, label_style(Color::Cyan))]] + body + seq![Seq::<(Seq<char>, SpanStyle)>::empty()]
        =~= seq![
        seq![("You:"@, label_style(Color::Cyan))],
        seq![(seq![' ', ' '] + m.content@, plain())],
        Seq::<(Seq<char>, SpanStyle)>::empty(),
    ]);
}

fn copy_span(s: &StyledSpan) -> (r: StyledSpan)
    ensures
        r@ == s@,
{
    StyledSpan { content: s.content.clone(), style: s.style }
}

pub(crate) fn one_span_line(content: String, style: SpanStyle) -> (l: StyledLine)
    ensures
        l@ == seq![(content@, style)],
{
    let mut spans: Vec<StyledSpan> = Vec::new();
    spans.push(StyledSpan { content, style });
    let l = StyledLine { spans };
    proof {
        assert(l@ =~= seq![(content@, style)]);
    }
    l
}

pub(crate) fn empty_line() -> (l: StyledLine)
    ensures
        l@ == Seq::<(Seq<char>, SpanStyle)>::empty(),
{
    let l = StyledLine { spans: Vec::new() };
    proof {
        assert(l@ =~= Seq::<(Seq<char>, SpanStyle)>::empty());
    }
    l
}

/// `line` led by an indentation span.
fn indented(line: &StyledLine) -> (l: StyledLine)
    ensures
        l@ == seq![(indent(), plain())] + line@,
{
    let mut ind: Vec<char> = Vec::new();
    ind.push(' ');
    ind.push(' ');
    let mut spans: Vec<StyledSpan> = Vec::new();
    spans.push(StyledSpan { content: string_from_chars(&ind), style: SpanStyle::plain() });
    proof {
        assert(ind@ =~= indent());
    }
    let n = line.spans.len();
    let mut k: usize = 0;
    while k < n
        invariant
            k <= n,
            n == line.spans@.len(),
            spans_view(spans@) == seq![(indent(), plain())] + spans_view(line.spans@).take(k as int),
        decreases n - k,
    {
        let ghost before = spans_view(spans@);
        spans.push(copy_span(&line.spans[k]));
        proof {
            assert(spans_view(spans@) =~= before.push(line.spans@[k as int]@));
            assert(spans_view(line.spans@).take(k + 1) =~= spans_view(line.spans@).take(k as int).push(
                line.spans@[k as int]@,
            ));
        }
        k = k + 1;
    }
    let l = StyledLine { spans };
    proof {
        assert(spans_view(line.spans@).take(n as int) =~= spans_view(line.spans@));
    }
    l
}

/// Adds the lines of message `m` to `out`.
fn push_message_lines(m: &ChatMessage, out: &mut Vec<StyledLine>)
    ensures
        lines_view(final(out)@) == lines_view(old(out)@) + message_lines(*m),
{
    let ghost start = lines_view(out@);
    match m.role {
        ChatRole::User => {
            let label = one_span_line("You:".to_owned(), SpanStyle::label(Color::Cyan));
            out.push(label);
            let ghost after_label = lines_view(out@);
            proof {
                assert(after_label =~= start.push(seq![("You:"@, label_style(Color::Cyan))]));
            }
            let ls = lines_of(m.content.as_str());
            let ghost target = text_lines(m.content@).map_values(|l: Seq<char>| seq![(indent() + l, plain())]);
            let n = ls.len();
            let mut k: usize = 0;
            while k < n
                invariant
                    k <= n,
                    n == ls@.len(),
                    n == text_lines(m.content@).len(),
                    forall|i: int| 0 <= i < n ==> #[trigger] ls@[i]@ == text_lines(m.content@)[i],
                    target == text_lines(m.content@).map_values(|l: Seq<char>| seq![(indent() + l, plain())]),
                    lines_view(out@) == after_label + target.take(k as int),
                decreases n - k,
            {
                let ghost before = lines_view(out@);
                let mut text: Vec<char> = Vec::new();
                text.push(' ');
                text.push(' ');
                crate::text::append_range(&mut text, &ls[k], 0, ls[k].len());
                proof {
                    assert(ls@[k as int]@ == text_lines(m.content@)[k as int]);
                    assert(text@ =~= indent() + text_lines(m.content@)[k as int]);
                }
                let line = one_span_line(string_from_chars(&text), SpanStyle::plain());
                out.push(line);
                proof {
                    assert(lines_view(out@) =~= before.push(line@));
                    assert(target.take(k + 1) =~= target.take(k as int).push(target[k as int]));
                }
                k = k + 1;
            }
            proof {
                assert(target.take(n as int) =~= target);
                assert(lines_view(out@) =~= start + seq![seq![("You:"@, label_style(Color::Cyan))]] + target);
            }
        },
        ChatRole::Assistant => {
            let label = one_span_line("AI:".to_owned(), SpanStyle::label(Color::Green));
            out.push(label);
            let ghost after_label = lines_view(out@);
            proof {
                assert(after_label =~= start.push(seq![("AI:"@, label_style(Color::Green))]));
            }
            let rendered = render_markdown(m.content.as_str());
            let ghost target = markdown_lines(m.content@).map_values(|l: LineView| seq![(indent(), plain())] + l);
            let n = rendered.len();
            let mut k: usize = 0;
            while k < n
                invariant
                    k <= n,
                    n == rendered@.len(),
                    lines_view(rendered@) == markdown_lines(m.content@),
                    target == markdown_lines(m.content@).map_values(|l: LineView| seq![(indent(), plain())] + l),
                    lines_view(out@) == after_label + target.take(k as int),
                decreases n - k,
            {
                let ghost before = lines_view(out@);
                let line = indented(&rendered[k]);
                out.push(line);
                proof {
                    assert(rendered@[k as int]@ == markdown_lines(m.content@)[k as int]);
                    assert(lines_view(out@) =~= before.push(line@));
                    assert(target.take(k + 1) =~= target.take(k as int).push(target[k as int]));
                }
                k = k + 1;
            }
            proof {
                assert(target.take(n as int) =~= target);
                assert(lines_view(out@) =~= start + seq![seq![("AI:"@, label_style(Color::Green))]] + target);
            }
        },
        ChatRole::System => {
            let line = one_span_line(m.content.clone(), SpanStyle::system());
            out.push(line);
            proof {
                assert(lines_view(out@) =~= start.push(seq![(m.content@, system_style())]));
            }
        },
    }
    let ghost before_gap = lines_view(out@);
    let gap = empty_line();
    out.push(gap);
    proof {
        assert(lines_view(out@) =~= before_gap.push(seq![]));
    }
    proof {
        assert(lines_view(out@) =~= start + message_lines(*m));
    }
}

/// Rebuilds the drawn lines from the messages and notes how many messages they cover;
/// nothing else changes.
pub fn rebuild_chat_cache(chat: &mut ChatState)
    ensures
        lines_view(final(chat).rendered_lines_cache@) == chat_lines(old(chat).messages@),
        final(chat).cached_message_count == old(chat).messages@.len(),
        *final(chat) == (ChatState {
            rendered_lines_cache: final(chat).rendered_lines_cache,
            cached_message_count: final(chat).cached_message_count,
            ..*old(chat)
        }),
{
    let mut lines: Vec<StyledLine> = Vec::new();
    let n = chat.messages.len();
    let mut k: usize = 0;
    proof {
        assert(chat.messages@.take(0) =~= Seq::<ChatMessage>::empty());
        assert(lines_view(lines@) =~= Seq::<LineView>::empty());
    }
    while k < n
        invariant
            k <= n,
            n == chat.messages@.len(),
            lines_view(lines@) == chat_lines(chat.messages@.take(k as int)),
        decreases n - k,
    {
        proof {
            assert(chat.messages@.take(k + 1).drop_last() =~= chat.messages@.take(k as int));
        }
        push_message_lines(&chat.messages[k], &mut lines);
        k = k + 1;
    }
    proof {
        assert(chat.messages@.take(n as int) =~= chat.messages@);
    }
    chat.rendered_lines_cache = lines;
    chat.cached_message_count = n;
}

} // verus!
