//! Talking to the AI: the prompts sent to the model, the text read out of its reply,
//! the JSON object cut out of that text, and the replies the AI worker sends back.
use crate::models::{AIEvaluationResult, AiRequest, AiResponse, SessionAssessment};
use crate::session::CardSnapshot;
use crate::text::{
    append_range, append_str, chars_of, chars_range, concat_strs, has_prefix, split_lines,
    starts_with, string_from_chars, text_lines, trim, trimmed, is_ws, skip_ws, back_ws,
    line_split, strip_cr, lemma_line_split_append, lemma_line_split_closed, lemma_line_split_no_break,
    lemma_trim_unchanged,
};
use crate::ui::{decimal, push_decimal};
use vstd::prelude::*;

verus! {

/// The lines `ls` joined by line breaks.
pub open spec fn join_lines(ls: Seq<Seq<char>>) -> Seq<char>
    decreases ls.len(),
{
    if ls.len() == 0 {
        seq![]
    } else if ls.len() == 1 {
        ls[0]
    } else {
        join_lines(ls.drop_last()) + seq!['\n'] + ls.last()
    }
}

/// `t` without the opening and closing lines of a code fence: a text that starts
/// with three backquotes and has more than two lines keeps only its inner lines.
pub open spec fn unfence(t: Seq<char>) -> Seq<char> {
    let ls = text_lines(t);
    if has_prefix(t, seq!['`', '`', '`']) && ls.len() > 2 {
        join_lines(ls.subrange(1, ls.len() - 1))
    } else {
        t
    }
}

/// Index of the first `c` in `s` at or after `i`.
pub open spec fn find_from(s: Seq<char>, i: int, c: char) -> Option<int>
    decreases s.len() - i,
{
    if i < 0 || i >= s.len() {
        None
    } else if s[i] == c {
        Some(i)
    } else {
        find_from(s, i + 1, c)
    }
}

/// Index of the last `c` in `s` before `j`.
pub open spec fn rfind_before(s: Seq<char>, j: int, c: char) -> Option<int>
    decreases j,
{
    if j <= 0 || j > s.len() {
        None
    } else if s[j - 1] == c {
        Some(j - 1)
    } else {
        rfind_before(s, j - 1, c)
    }
}

pub proof fn lemma_find_from(s: Seq<char>, i: int, c: char)
    ensures
        find_from(s, i, c) matches Some(k) ==> i <= k < s.len() && s[k] == c,
    decreases s.len() - i,
{
    if !(i < 0 || i >= s.len()) && s[i] != c {
        lemma_find_from(s, i + 1, c);
    }
}

pub proof fn lemma_rfind_before(s: Seq<char>, j: int, c: char)
    ensures
        rfind_before(s, j, c) matches Some(k) ==> 0 <= k < j <= s.len() && s[k] == c,
    decreases j,
{
    if !(j <= 0 || j > s.len()) && s[j - 1] != c {
        lemma_rfind_before(s, j - 1, c);
    }
}

/// From the first `{` to the last `}` of `s`, both included (nothing when the `{`
/// directly follows the `}`); all of `s` if it lacks either, or if its first `{` comes
/// later than that, so that no object can be cut out.
pub open spec fn object_span(s: Seq<char>) -> Seq<char> {
    match (find_from(s, 0, '{'), rfind_before(s, s.len() as int, '}')) {
        (Some(a), Some(b)) => if a <= b + 1 {
            s.subrange(a, b + 1)
        } else {
            s
        },
        _ => s,
    }
}

/// The JSON object in a model's reply: the reply trimmed, unwrapped from a code
/// fence, cut from its first `{` to its last `}`, and trimmed again.
pub open spec fn cleaned_json(response: Seq<char>) -> Seq<char> {
    trim(object_span(unfence(trim(response))))
}

/// A reply that is nothing but a JSON object (from `{` to `}`) is left as it is.
pub proof fn lemma_clean_object_unchanged(s: Seq<char>)
    requires
        s.len() > 0,
        s[0] == '{',
        s.last() == '}',
    ensures
        cleaned_json(s) == s,
{
    let n = s.len() as int;
    assert(!is_ws(s[0]));
    assert(skip_ws(s, 0) == 0);
    assert(!is_ws(s[n - 1]));
    assert(back_ws(s, 0, n) == n);
    assert(s.subrange(0, n) =~= s);
    assert(trim(s) == s);
    assert(!has_prefix(s, seq!['`', '`', '`'])) by {
        if has_prefix(s, seq!['`', '`', '`']) {
            assert(s.take(3)[0] == '`');
        }
    }
    assert(unfence(s) == s);
    assert(find_from(s, 0, '{') == Some(0int));
    assert(rfind_before(s, n, '}') == Some(n - 1));
    assert(object_span(s) == s);
}

proof fn lemma_join_push_char(ls: Seq<Seq<char>>, a: Seq<char>, x: char)
    ensures
        join_lines(ls.push(a.push(x))) == join_lines(ls.push(a)).push(x),
{
    assert(ls.push(a.push(x)).drop_last() =~= ls);
    assert(ls.push(a).drop_last() =~= ls);
    if ls.len() > 0 {
        assert(join_lines(ls) + seq!['\n'] + a.push(x) =~= (join_lines(ls) + seq!['\n'] + a).push(x));
    }
}

proof fn lemma_join_line_split(o: Seq<char>)
    requires
        !o.contains('\r'),
    ensures
        join_lines(line_split(o).0.push(line_split(o).1)) == o,
        line_split(o).1.len() > 0 ==> line_split(o).1.last() == o.last(),
    decreases o.len(),
{
    if o.len() == 0 {
        assert(Seq::<Seq<char>>::empty().push(Seq::<char>::empty()) =~= seq![Seq::<char>::empty()]);
    } else {
        let p = o.drop_last();
        assert(!p.contains('\r')) by {
            if p.contains('\r') {
                let k = choose|k: int| 0 <= k < p.len() && p[k] == '\r';
                assert(o[k] == '\r');
            }
        }
        lemma_join_line_split(p);
        let done = line_split(p).0;
        let cur = line_split(p).1;
        assert(o =~= p.push(o.last()));
        if o.last() == '\n' {
            if cur.len() > 0 {
                assert(cur.last() == p.last());
                assert(p.last() == o[o.len() - 2]);
            }
            assert(strip_cr(cur) == cur);
            let ls = done.push(cur).push(Seq::<char>::empty());
            assert(ls.drop_last() =~= done.push(cur));
            assert(join_lines(ls) =~= p + seq!['\n'] + Seq::<char>::empty());
        } else {
            lemma_join_push_char(done, cur, o.last());
        }
    }
}

/// Splitting a text into lines and joining them again by line breaks gives the text
/// back, less a final line break (for a text without carriage returns, which the split
/// drops before a line break).
#[verifier::spinoff_prover]
pub proof fn lemma_lines_rejoined(t: Seq<char>)
    requires
        !t.contains('\r'),
    ensures
        join_lines(text_lines(t)) == (if t.len() > 0 && t.last() == '\n' {
            t.drop_last()
        } else {
            t
        }),
{
    lemma_join_line_split(t);
    let done = line_split(t).0;
    let cur = line_split(t).1;
    if cur.len() == 0 {
        assert(done.push(cur).drop_last() =~= done);
        if t.len() > 0 {
            let p = t.drop_last();
            assert(t =~= p.push(t.last()));
            if t.last() != '\n' {
                assert(line_split(t).1 == line_split(p).1.push(t.last()));
            }
            assert(t.last() == '\n');
            assert(!p.contains('\r')) by {
                if p.contains('\r') {
                    let k = choose|k: int| 0 <= k < p.len() && p[k] == '\r';
                    assert(t[k] == '\r');
                }
            }
            lemma_join_line_split(p);
            let pc = line_split(p).1;
            if pc.len() > 0 {
                assert(pc.last() == p.last());
                assert(p.last() == t[t.len() - 2]);
            }
            assert(strip_cr(pc) == pc);
            assert(done == line_split(p).0.push(pc));
            assert(join_lines(done) == p);
        } else {
            assert(done.len() == 0);
        }
    } else {
        if t.len() > 0 && t.last() == '\n' {
            assert(t =~= t.drop_last().push(t.last()));
            assert(line_split(t).1.len() == 0);
        }
    }
}

/// A JSON object inside a code fence is cut out whole, however many lines it spans:
/// the reply's opening fence line (three backquotes and a tag such as `json`) and its
/// closing fence are dropped, and every line between them is kept, joined by line
/// breaks.
#[verifier::spinoff_prover]
pub proof fn lemma_fenced_object(tag: Seq<char>, o: Seq<char>)
    requires
        !tag.contains('\n'),
        o.len() > 0,
        o[0] == '{',
        o.last() == '}',
        !o.contains('\r'),
    ensures
        cleaned_json(seq!['`', '`', '`'] + tag + seq!['\n'] + o + seq!['\n', '`', '`', '`']) == o,
{
    let fence = seq!['`', '`', '`'];
    let f = fence + tag;
    let r = seq!['`', '`', '`'] + tag + seq!['\n'] + o + seq!['\n', '`', '`', '`'];
    assert(!f.contains('\n')) by {
        if f.contains('\n') {
            let k = choose|k: int| 0 <= k < f.len() && f[k] == '\n';
            if k >= 3 {
                assert(tag[k - 3] == '\n');
            }
        }
    }
    assert(!fence.contains('\n')) by {
        if fence.contains('\n') {
            let k = choose|k: int| 0 <= k < fence.len() && fence[k] == '\n';
        }
    }
    // The reply is already trimmed and starts with a fence.
    assert(r[0] == '`');
    assert(r.last() == '`');
    lemma_trim_unchanged(r);
    assert(r.take(3) =~= fence);
    assert(has_prefix(r, fence));
    // Its lines: the opening fence line, the lines of `o`, the closing fence.
    lemma_line_split_no_break(f);
    lemma_line_split_closed(f);
    lemma_line_split_closed(o);
    lemma_line_split_no_break(fence);
    let p1 = f.push('\n');
    let q = o.push('\n');
    lemma_line_split_append(q, fence);
    assert(line_split(fence).0 =~= Seq::<Seq<char>>::empty());
    assert(line_split(q).0 + Seq::<Seq<char>>::empty() =~= line_split(q).0);
    lemma_line_split_append(p1, q + fence);
    assert(r =~= p1 + (q + fence));
    let ls = text_lines(r);
    let inner = line_split(q).0;
    assert(ls =~= (seq![strip_cr(f)] + inner).push(fence));
    lemma_join_line_split(o);
    let cur = line_split(o).1;
    if cur.len() > 0 {
        assert(cur.last() == '}');
    }
    assert(strip_cr(cur) == cur);
    assert(inner == line_split(o).0.push(cur));
    assert(ls.subrange(1, ls.len() - 1) =~= inner);
    assert(unfence(r) == o);
    // What is left is the object itself.
    lemma_clean_object_unchanged(o);
    lemma_trim_unchanged(o);
    assert(!has_prefix(o, fence)) by {
        if has_prefix(o, fence) {
            assert(o.take(3)[0] == '`');
        }
    }
}

proof fn lemma_skip_ws_before(s: Seq<char>, i: int, j: int)
    requires
        0 <= i <= j < s.len(),
        !is_ws(s[j]),
    ensures
        i <= skip_ws(s, i) <= j,
    decreases j - i,
{
    if is_ws(s[i]) {
        lemma_skip_ws_before(s, i + 1, j);
    }
}

proof fn lemma_back_ws_after(s: Seq<char>, i: int, j: int, k: int)
    requires
        0 <= i <= k < j <= s.len(),
        !is_ws(s[k]),
    ensures
        k < back_ws(s, i, j) <= j,
    decreases j,
{
    if is_ws(s[j - 1]) {
        lemma_back_ws_after(s, i, j - 1, k);
    }
}

proof fn lemma_find_from_found(s: Seq<char>, i: int, j: int, c: char)
    requires
        0 <= i <= j < s.len(),
        s[j] == c,
        forall|q: int| i <= q < j ==> #[trigger] s[q] != c,
    ensures
        find_from(s, i, c) == Some(j),
    decreases j - i,
{
    if i < j {
        lemma_find_from_found(s, i + 1, j, c);
    }
}

proof fn lemma_rfind_before_found(s: Seq<char>, j: int, k: int, c: char)
    requires
        0 <= k < j <= s.len(),
        s[k] == c,
        forall|q: int| k < q < j ==> #[trigger] s[q] != c,
    ensures
        rfind_before(s, j, c) == Some(k),
    decreases j,
{
    if j - 1 > k {
        lemma_rfind_before_found(s, j - 1, k, c);
    }
}

/// A JSON object in the middle of other text is cut out whole: the reply is cut from
/// its first `{` to its last `}`, so text before the object (with no `{` in it) and
/// text after it (with no `}` in it) are dropped.
#[verifier::spinoff_prover]
pub proof fn lemma_object_in_text(pre: Seq<char>, o: Seq<char>, suf: Seq<char>)
    requires
        !pre.contains('{'),
        !pre.contains('`'),
        !suf.contains('}'),
        o.len() > 0,
        o[0] == '{',
        o.last() == '}',
    ensures
        cleaned_json(pre + o + suf) == o,
{
    let r = pre + o + suf;
    let p = pre.len() as int;
    let n = o.len() as int;
    assert(r[p] == '{');
    assert(r[p + n - 1] == '}');
    lemma_skip_ws_before(r, 0, p);
    let a = skip_ws(r, 0);
    lemma_back_ws_after(r, a, r.len() as int, p + n - 1);
    let b = back_ws(r, a, r.len() as int);
    let tr = r.subrange(a, b);
    assert(trim(r) == tr);
    let p2 = p - a;
    // The trimmed reply is no code fence.
    assert(!has_prefix(tr, seq!['`', '`', '`'])) by {
        if has_prefix(tr, seq!['`', '`', '`']) {
            assert(tr.take(3)[0] == tr[0]);
            if a < p {
                assert(tr[0] == pre[a]);
            } else {
                assert(tr[0] == o[0]);
            }
        }
    }
    assert(unfence(tr) == tr);
    // Its first `{` starts the object and its last `}` ends it.
    assert forall|q: int| 0 <= q < p2 implies #[trigger] tr[q] != '{' by {
        assert(tr[q] == pre[q + a]);
    }
    assert(tr[p2] == '{');
    lemma_find_from_found(tr, 0, p2, '{');
    assert forall|q: int| p2 + n - 1 < q < tr.len() implies #[trigger] tr[q] != '}' by {
        assert(tr[q] == suf[q + a - p - n]);
    }
    assert(tr[p2 + n - 1] == '}');
    lemma_rfind_before_found(tr, tr.len() as int, p2 + n - 1, '}');
    assert(tr.subrange(p2, p2 + n) =~= o);
    assert(object_span(tr) == o);
    lemma_trim_unchanged(o);
}

fn find_first(s: &Vec<char>, c: char) -> (res: Option<usize>)
    ensures
        res is Some <==> find_from(s@, 0, c) is Some,
        res matches Some(k) ==> find_from(s@, 0, c) == Some(k as int),
{
    let n = s.len();
    let mut k: usize = 0;
    while k < n
        invariant
            k <= n,
            n == s@.len(),
            find_from(s@, k as int, c) == find_from(s@, 0, c),
        decreases n - k,
    {
        if s[k] == c {
            return Some(k);
        }
        k = k + 1;
    }
    None
}

fn find_last(s: &Vec<char>, c: char) -> (res: Option<usize>)
    ensures
        res is Some <==> rfind_before(s@, s@.len() as int, c) is Some,
        res matches Some(k) ==> rfind_before(s@, s@.len() as int, c) == Some(k as int),
{
    let n = s.len();
    let mut j: usize = n;
    while j > 0
        invariant
            j <= n,
            n == s@.len(),
            rfind_before(s@, j as int, c) == rfind_before(s@, n as int, c),
        decreases j,
    {
        if s[j - 1] == c {
            return Some(j - 1);
        }
        j = j - 1;
    }
    None
}

fn unfence_chars(t: &Vec<char>) -> (res: Vec<char>)
    ensures
        res@ == unfence(t@),
{
    proof {
        reveal_strlit("```");
        assert("```"@ =~= seq!['`', '`', '`']);
    }
    if starts_with(t, "```") {
        let ls = split_lines(t);
        let ghost l = text_lines(t@);
        let n = ls.len();
        if n > 2 {
            let mut out: Vec<char> = Vec::new();
            let mut k: usize = 1;
            while k < n - 1
                invariant
                    1 <= k <= n - 1,
                    n == ls@.len(),
                    n > 2,
                    l == text_lines(t@),
                    l.len() == n,
                    forall|i: int| 0 <= i < n ==> #[trigger] ls@[i]@ == l[i],
                    out@ == join_lines(l.subrange(1, k as int)),
                decreases n - 1 - k,
            {
                proof {
                    assert(l.subrange(1, k + 1).drop_last() =~= l.subrange(1, k as int));
                    assert(ls@[k as int]@ == l[k as int]);
                }
                if k > 1 {
                    out.push('\n');
                }
                append_range(&mut out, &ls[k], 0, ls[k].len());
                proof {
                    assert(ls@[k as int]@.subrange(0, ls@[k as int]@.len() as int) =~= l[k as int]);
                    if k == 1 {
                        assert(out@ =~= l.subrange(1, 2)[0]);
                    } else {
                        assert(out@ =~= join_lines(l.subrange(1, k as int)) + seq!['\n'] + l[k as int]);
                    }
                }
                k = k + 1;
            }
            return out;
        }
    }
    chars_range(t, 0, t.len())
}

fn object_span_chars(s: &Vec<char>) -> (res: Vec<char>)
    ensures
        res@ == object_span(s@),
{
    let first = find_first(s, '{');
    let last = find_last(s, '}');
    proof {
        lemma_find_from(s@, 0, '{');
        lemma_rfind_before(s@, s@.len() as int, '}');
    }
    let n = s.len();
    if let Some(a) = first {
        if let Some(b) = last {
            assert(b < n);
            if a <= b + 1 {
                return chars_range(s, a, b + 1);
            }
        }
    }
    let res = chars_range(s, 0, s.len());
    proof {
        assert(res@ =~= s@);
    }
    res
}

/// The JSON object in a model's reply: the reply trimmed; if it opens a code fence and
/// has more than two lines, only the lines inside the fence; then from its first `{`
/// to its last `}` (the whole text when the first `{` comes after the last `}` and
/// something between them); trimmed again.
pub fn clean_json_response(response: &str) -> (res: String)
    ensures
        res@ == cleaned_json(response@),
{
    let chars = chars_of(response);
    let t = trimmed(&chars);
    let u = unfence_chars(&t);
    let span = object_span_chars(&u);
    let cleaned = trimmed(&span);
    string_from_chars(&cleaned)
}


// ---------------------------------------------------------------------------
// The AI worker: how long each kind of request may take, and the reply sent for it
// however its work ended.
// ---------------------------------------------------------------------------

/// How a piece of the AI worker's work ended.
#[derive(Debug)]
pub enum WorkOutcome<T> {
    /// No client could be made; the reason.
    NoClient(String),
    Done(T),
    /// The model call failed; the reason.
    Failed(String),
    /// The time limit passed.
    TimedOut,
}

/// Seconds the worker waits for the model on `req`: a minute for a session
/// assessment, half a minute otherwise.
pub fn request_timeout_secs(req: &AiRequest) -> (secs: u64)
    ensures
        secs == match req {
            AiRequest::EvaluateSession { .. } => 60u64,
            _ => 30u64,
        },
{
    match req {
        AiRequest::EvaluateSession { .. } => 60,
        _ => 30,
    }
}

/// The worker's reply to the evaluation of card `flashcard_index`.
pub open spec fn evaluation_reply_spec(flashcard_index: usize, o: WorkOutcome<AIEvaluationResult>, r: AiResponse) -> bool {
    match o {
        WorkOutcome::Done(x) => r == AiResponse::Evaluation { flashcard_index, result: x },
        WorkOutcome::NoClient(e) => r matches AiResponse::Error { flashcard_index: i, error }
            && i == flashcard_index && error@ == "Failed to create AI client: "@ + e@,
        WorkOutcome::Failed(e) => r matches AiResponse::Error { flashcard_index: i, error }
            && i == flashcard_index && error@ == "AI evaluation failed: "@ + e@,
        WorkOutcome::TimedOut => r matches AiResponse::Error { flashcard_index: i, error }
            && i == flashcard_index && error@ == "AI evaluation timed out after 30 seconds - press Ctrl+E to retry"@,
    }
}

/// The reply the AI worker sends for the evaluation of card `flashcard_index`: the
/// result, or an error that says what went wrong.
pub fn evaluation_reply(flashcard_index: usize, outcome: WorkOutcome<AIEvaluationResult>) -> (r: AiResponse)
    ensures
        evaluation_reply_spec(flashcard_index, outcome, r),
{
    match outcome {
        WorkOutcome::Done(result) => AiResponse::Evaluation { flashcard_index, result },
        WorkOutcome::NoClient(e) => AiResponse::Error {
            flashcard_index,
            error: concat_strs("Failed to create AI client: ", e.as_str()),
        },
        WorkOutcome::Failed(e) => AiResponse::Error {
            flashcard_index,
            error: concat_strs("AI evaluation failed: ", e.as_str()),
        },
        WorkOutcome::TimedOut => AiResponse::Error {
            flashcard_index,
            error: "AI evaluation timed out after 30 seconds - press Ctrl+E to retry".to_owned(),
        },
    }
}

/// The worker's reply to the assessment of session `session_id`.
pub open spec fn assessment_reply_spec(
    session_id: u64,
    o: WorkOutcome<Result<SessionAssessment, String>>,
    r: AiResponse,
) -> bool {
    match o {
        WorkOutcome::Done(x) => r == AiResponse::SessionAssessment { session_id, result: x },
        WorkOutcome::NoClient(e) => r matches AiResponse::SessionAssessment { session_id: i, result: Err(error) }
            && i == session_id && error@ == "Failed to create AI client: "@ + e@,
        WorkOutcome::Failed(e) => r matches AiResponse::SessionAssessment { session_id: i, result: Err(error) }
            && i == session_id && error@ == "Session assessment failed: "@ + e@,
        WorkOutcome::TimedOut => r matches AiResponse::SessionAssessment { session_id: i, result: Err(error) }
            && i == session_id && error@ == "Session assessment timed out after 60 seconds"@,
    }
}

/// The reply the AI worker sends for the assessment of session `session_id`: the
/// parsed assessment (or why it could not be read), or an error that says what went
/// wrong.
pub fn assessment_reply(session_id: u64, outcome: WorkOutcome<Result<SessionAssessment, String>>) -> (r: AiResponse)
    ensures
        assessment_reply_spec(session_id, outcome, r),
{
    match outcome {
        WorkOutcome::Done(result) => AiResponse::SessionAssessment { session_id, result },
        WorkOutcome::NoClient(e) => AiResponse::SessionAssessment {
            session_id,
            result: Err(concat_strs("Failed to create AI client: ", e.as_str())),
        },
        WorkOutcome::Failed(e) => AiResponse::SessionAssessment {
            session_id,
            result: Err(concat_strs("Session assessment failed: ", e.as_str())),
        },
        WorkOutcome::TimedOut => AiResponse::SessionAssessment {
            session_id,
            result: Err("Session assessment timed out after 60 seconds".to_owned()),
        },
    }
}

/// The worker's reply to a chat message about card `flashcard_id`.
pub open spec fn chat_reply_spec(flashcard_id: u64, o: WorkOutcome<String>, r: AiResponse) -> bool {
    match o {
        WorkOutcome::Done(m) => r == AiResponse::ChatReply { flashcard_id, message: Some(m), error: None },
        WorkOutcome::NoClient(e) => r matches AiResponse::ChatReply { flashcard_id: i, message: None, error: Some(error) }
            && i == flashcard_id && error@ == "Failed to create AI client: "@ + e@,
        WorkOutcome::Failed(e) => r matches AiResponse::ChatReply { flashcard_id: i, message: None, error: Some(error) }
            && i == flashcard_id && error@ == "Chat failed: "@ + e@,
        WorkOutcome::TimedOut => r matches AiResponse::ChatReply { flashcard_id: i, message: None, error: Some(error) }
            && i == flashcard_id && error@ == "Chat response timed out after 30 seconds"@,
    }
}

/// The reply the AI worker sends for a chat message about card `flashcard_id`.
pub fn chat_reply(flashcard_id: u64, outcome: WorkOutcome<String>) -> (r: AiResponse)
    ensures
        chat_reply_spec(flashcard_id, outcome, r),
{
    match outcome {
        WorkOutcome::Done(message) => AiResponse::ChatReply { flashcard_id, message: Some(message), error: None },
        WorkOutcome::NoClient(e) => AiResponse::ChatReply {
            flashcard_id,
            message: None,
            error: Some(concat_strs("Failed to create AI client: ", e.as_str())),
        },
        WorkOutcome::Failed(e) => AiResponse::ChatReply {
            flashcard_id,
            message: None,
            error: Some(concat_strs("Chat failed: ", e.as_str())),
        },
        WorkOutcome::TimedOut => AiResponse::ChatReply {
            flashcard_id,
            message: None,
            error: Some("Chat response timed out after 30 seconds".to_owned()),
        },
    }
}

// ---------------------------------------------------------------------------
// Reading the model's reply.
// ---------------------------------------------------------------------------

/// The content of the model's first choice: a text, or parts, of which only the text
/// ones (`Some`) count.
#[derive(Debug)]
pub enum ReplyContent {
    Text(String),
    Parts(Vec<Option<String>>),
}

/// The texts of the text parts, in order, joined by line breaks.
pub open spec fn joined_parts(parts: Seq<Option<String>>) -> Seq<char>
    decreases parts.len(),
{
    if parts.len() == 0 {
        seq![]
    } else {
        let rest = joined_parts(parts.drop_last());
        match parts.last() {
            None => rest,
            Some(t) => if has_text_part(parts.drop_last()) {
                rest + seq!['\n'] + t@
            } else {
                t@
            },
        }
    }
}

pub open spec fn has_text_part(parts: Seq<Option<String>>) -> bool {
    exists|i: int| 0 <= i < parts.len() && parts[i] is Some
}

pub proof fn lemma_no_text_parts(parts: Seq<Option<String>>)
    requires
        !has_text_part(parts),
    ensures
        joined_parts(parts) == Seq::<char>::empty(),
    decreases parts.len(),
{
    if parts.len() > 0 {
        assert(!has_text_part(parts.drop_last())) by {
            assert forall|i: int| 0 <= i < parts.drop_last().len() implies !(parts.drop_last()[i] is Some) by {
                assert(parts.drop_last()[i] == parts[i]);
            }
        }
        assert(parts[parts.len() - 1] is None);
        lemma_no_text_parts(parts.drop_last());
    }
}

/// The texts of the text parts, in order.
pub open spec fn part_texts(parts: Seq<Option<String>>) -> Seq<Seq<char>>
    decreases parts.len(),
{
    if parts.len() == 0 {
        seq![]
    } else {
        part_texts(parts.drop_last()) + match parts.last() {
            Some(t) => seq![t@],
            None => Seq::<Seq<char>>::empty(),
        }
    }
}

proof fn lemma_part_texts_some(parts: Seq<Option<String>>)
    ensures
        part_texts(parts).len() > 0 <==> has_text_part(parts),
    decreases parts.len(),
{
    if parts.len() > 0 {
        lemma_part_texts_some(parts.drop_last());
        if has_text_part(parts.drop_last()) {
            let i = choose|i: int| 0 <= i < parts.drop_last().len() && parts.drop_last()[i] is Some;
            assert(parts[i] is Some);
        }
        if has_text_part(parts) && parts.last() is None {
            let i = choose|i: int| 0 <= i < parts.len() && parts[i] is Some;
            assert(i < parts.len() - 1);
            assert(parts.drop_last()[i] is Some);
        }
        if parts.last() is Some {
            assert(parts[parts.len() - 1] is Some);
        }
    }
}

/// A reply in parts reads as the texts of its text parts, in order, one per line: the
/// parts that hold no text are left out.
pub proof fn lemma_parts_joined_by_lines(parts: Seq<Option<String>>)
    ensures
        joined_parts(parts) == join_lines(part_texts(parts)),
    decreases parts.len(),
{
    if parts.len() > 0 {
        let p = parts.drop_last();
        lemma_parts_joined_by_lines(p);
        lemma_part_texts_some(p);
        match parts.last() {
            None => {
                assert(part_texts(parts) =~= part_texts(p));
            },
            Some(t) => {
                let ts = part_texts(p).push(t@);
                assert(part_texts(parts) =~= ts);
                assert(ts.drop_last() =~= part_texts(p));
                if !has_text_part(p) {
                    assert(ts =~= seq![t@]);
                }
            },
        }
    }
}

/// The text of a reply: the model's text, or its text parts joined by line breaks; an
/// error when the reply has no choice at all.
pub open spec fn reply_text_spec(first: Option<ReplyContent>, r: Result<String, String>) -> bool {
    match first {
        None => r matches Err(e) && e@ == "No response choices received"@,
        Some(ReplyContent::Text(t)) => r == Ok::<String, String>(t),
        Some(ReplyContent::Parts(ps)) => r matches Ok(t) && t@ == joined_parts(ps@),
    }
}

/// The text of the model's reply, given the content of its first choice (`None` when
/// it gave none).
pub fn reply_text(first: Option<ReplyContent>) -> (r: Result<String, String>)
    ensures
        reply_text_spec(first, r),
{
    match first {
        None => Err("No response choices received".to_owned()),
        Some(ReplyContent::Text(t)) => Ok(t),
        Some(ReplyContent::Parts(ps)) => {
            let n = ps.len();
            let mut out: Vec<char> = Vec::new();
            let mut any = false;
            let mut k: usize = 0;
            proof {
                assert(ps@.take(0) =~= Seq::<Option<String>>::empty());
            }
            while k < n
                invariant
                    k <= n,
                    n == ps@.len(),
                    out@ == joined_parts(ps@.take(k as int)),
                    any == has_text_part(ps@.take(k as int)),
                decreases n - k,
            {
                proof {
                    assert(ps@.take(k + 1).drop_last() =~= ps@.take(k as int));
                }
                match &ps[k] {
                    Some(t) => {
                        proof {
                            if !any {
                                lemma_no_text_parts(ps@.take(k as int));
                            }
                        }
                        if any {
                            out.push('\n');
                        }
                        append_str(&mut out, t.as_str());
                        any = true;
                        proof {
                            assert(ps@.take(k + 1)[k as int] is Some);
                        }
                    },
                    None => {
                        proof {
                            assert forall|i: int| 0 <= i < k + 1 && ps@.take(k + 1)[i] is Some implies 0 <= i < k
                                && ps@.take(k as int)[i] is Some by {}
                        }
                    },
                }
                k = k + 1;
            }
            proof {
                assert(ps@.take(n as int) =~= ps@);
            }
            Ok(string_from_chars(&out))
        },
    }
}


// ---------------------------------------------------------------------------
// Prompts.
// ---------------------------------------------------------------------------

/// The model used when none is configured.
pub const DEFAULT_MODEL: &'static str = "openai/gpt-oss-120b";

/// The system message for evaluating an answer.
pub const ANSWER_SYSTEM_PROMPT: &'static str = "You are an educational assistant evaluating quiz answers. Be concise and helpful.";

/// The system message for assessing a session.
pub const SESSION_SYSTEM_PROMPT: &'static str = "You are an educational assessment coach. Provide constructive, specific feedback to help students improve.";

pub const ANSWER_PROMPT_HEAD: &'static str = "Evaluate this answer and respond ONLY with valid JSON.\n\nQuestion: ";

pub const ANSWER_PROMPT_CORRECT: &'static str = "\nCorrect Answer: ";

pub const ANSWER_PROMPT_USER: &'static str = "\nUser's Answer: ";

pub const ANSWER_PROMPT_TAIL: &'static str = "\n\nIMPORTANT:\n\n- Respond ONLY with this exact JSON structure (no markdown, no extra text):\n{\n    \"is_correct\": boolean,\n    \"correctness_score\": float between 0.0 and 1.0,\n    \"corrections\": [\"correction1\", \"correction2\"],\n    \"explanation\": \"detailed explanation. must contain also deep dives on the topic regardless of correctness\",\n    \"suggestions\": [\"suggestion1\", \"suggestion2\"]\n}\n- Do not account for minor typos in the user's answer when determining correctness.\n";

/// The prompt asking the model to judge `user_answer` to `question` against
/// `correct_answer`, as JSON.
pub open spec fn answer_prompt_text(question: Seq<char>, correct_answer: Seq<char>, user_answer: Seq<char>) -> Seq<char> {
    ANSWER_PROMPT_HEAD@ + question + ANSWER_PROMPT_CORRECT@ + correct_answer + ANSWER_PROMPT_USER@ + user_answer
        + ANSWER_PROMPT_TAIL@
}

/// The prompt asking the model to judge `user_answer` to `question` against
/// `correct_answer`, as JSON.
pub fn answer_prompt(question: &str, correct_answer: &str, user_answer: &str) -> (res: String)
    ensures
        res@ == answer_prompt_text(question@, correct_answer@, user_answer@),
{
    let mut v: Vec<char> = Vec::new();
    append_str(&mut v, ANSWER_PROMPT_HEAD);
    append_str(&mut v, question);
    append_str(&mut v, ANSWER_PROMPT_CORRECT);
    append_str(&mut v, correct_answer);
    append_str(&mut v, ANSWER_PROMPT_USER);
    append_str(&mut v, user_answer);
    append_str(&mut v, ANSWER_PROMPT_TAIL);
    proof {
        assert(v@ =~= answer_prompt_text(question@, correct_answer@, user_answer@));
    }
    string_from_chars(&v)
}


pub const SESSION_PROMPT_HEAD: &'static str = "Analyze this quiz session for \"";

pub const SESSION_PROMPT_TOTAL: &'static str = "\" and provide a comprehensive assessment.\n\nQuiz Results:\n- Total Questions: ";

pub const SESSION_PROMPT_ANSWERED: &'static str = "\n- Answered: ";

pub const SESSION_PROMPT_CORRECT: &'static str = "\n- Correct (AI-evaluated): ";

pub const SESSION_PROMPT_PAIRS: &'static str = "\n\nQuestion-Answer Pairs:\n";

pub const SESSION_PROMPT_TAIL: &'static str = "\n\nIMPORTANT:\n- Respond ONLY with valid JSON (no markdown, no extra text)\n- Use this exact JSON structure:\n{\n    \"grade_percentage\": float (0-100),\n    \"mastery_level\": \"Beginner\" | \"Intermediate\" | \"Advanced\" | \"Expert\",\n    \"overall_feedback\": \"detailed paragraph analysis of performance\",\n    \"suggestions\": [\"suggestion1\", \"suggestion2\", \"suggestion3\"],\n    \"strengths\": [\"strength1\", \"strength2\"],\n    \"weaknesses\": [\"weakness1\", \"weakness2\"]\n}\n\nGuidelines:\n- grade_percentage: weighted by answered questions, consider AI scores\n- mastery_level: Beginner (0-40%), Intermediate (41-70%), Advanced (71-90%), Expert (91-100%)\n- overall_feedback: 2-3 sentences analyzing patterns, progress, areas for improvement\n- suggestions: 3-5 actionable, specific study recommendations\n- strengths: 2-3 specific areas where user performed well\n- weaknesses: 2-3 specific areas needing improvement\n";

/// The `f32` score whose bit pattern is `bits` is at least 0.7 (`0x3F333333`): a
/// non-negative number (sign bit clear) from 0.7 up to infinity, NaN excluded.
pub open spec fn score_passes(bits: u32) -> bool {
    0x3F33_3333 <= bits <= 0x7F80_0000
}

/// Whether the `f32` score whose bit pattern is `bits` is at least 0.7.
pub fn score_at_least_seven_tenths(bits: u32) -> (res: bool)
    ensures
        res == score_passes(bits),
{
    0x3F33_3333 <= bits && bits <= 0x7F80_0000
}

/// The card counts as correct: answered, and its verdict scores at least 0.7.
pub open spec fn counts_correct(c: CardSnapshot) -> bool {
    c.2 is Some && match c.3 {
        Some(f) => score_passes(f.correctness_score_bits),
        None => false,
    }
}

pub open spec fn answered_count(cards: Seq<CardSnapshot>) -> nat
    decreases cards.len(),
{
    if cards.len() == 0 {
        0
    } else {
        answered_count(cards.drop_last()) + if cards.last().2 is Some {
            1nat
        } else {
            0nat
        }
    }
}

pub open spec fn correct_count(cards: Seq<CardSnapshot>) -> nat
    decreases cards.len(),
{
    if cards.len() == 0 {
        0
    } else {
        correct_count(cards.drop_last()) + if counts_correct(cards.last()) {
            1nat
        } else {
            0nat
        }
    }
}

/// The session prompt's counts are counts of cards: the answered ones, and those
/// answered with a verdict of at least 0.7.
pub proof fn lemma_prompt_counts(cards: Seq<CardSnapshot>)
    ensures
        answered_count(cards) == cards.filter(|c: CardSnapshot| c.2 is Some).len(),
        correct_count(cards) == cards.filter(|c: CardSnapshot| counts_correct(c)).len(),
        correct_count(cards) <= answered_count(cards) <= cards.len(),
    decreases cards.len(),
{
    reveal(Seq::filter);
    if cards.len() > 0 {
        lemma_prompt_counts(cards.drop_last());
    }
}

/// At most the first 200 characters of `s`.
pub open spec fn first_200(s: Seq<char>) -> Seq<char> {
    if s.len() <= 200 {
        s
    } else {
        s.take(200)
    }
}

/// The verdict line of a card's entry: its score `percent` and the start of its
/// explanation; nothing without a verdict.
pub open spec fn verdict_text(c: CardSnapshot, percent: Seq<char>) -> Seq<char> {
    match c.3 {
        Some(f) => "AI Score: "@ + percent + "%, Feedback: "@ + first_200(f.explanation@) + "\n"@,
        None => seq![],
    }
}

/// The entry for answered card number `n` (counting from 1): question, answer, the
/// user's answer and, if there is a verdict, its score `percent` and the start of its
/// explanation; then an empty line.
pub open spec fn qa_entry(n: nat, c: CardSnapshot, percent: Seq<char>) -> Seq<char> {
    let verdict = verdict_text(c, percent);
    "Q"@ + decimal(n) + ": "@ + c.0@ + "\n"@ + "A"@ + decimal(n) + ": "@ + c.1@ + "\n"@ + "User: "@
        + c.2->0@ + "\n"@ + verdict + "\n"@
}

/// The entries of the answered cards among `cards`, in order; `percents[i]` is the
/// score of card `i` as a whole percentage.
pub open spec fn qa_list(cards: Seq<CardSnapshot>, percents: Seq<String>) -> Seq<char>
    decreases cards.len(),
{
    if cards.len() == 0 {
        seq![]
    } else {
        let k = cards.len() - 1;
        qa_list(cards.drop_last(), percents) + if cards.last().2 is Some {
            qa_entry((k + 1) as nat, cards.last(), percents[k]@)
        } else {
            seq![]
        }
    }
}

/// The prompt asking the model to assess a session on `deck_name`.
pub open spec fn session_prompt_text(deck_name: Seq<char>, cards: Seq<CardSnapshot>, percents: Seq<String>) -> Seq<char> {
    SESSION_PROMPT_HEAD@ + deck_name + SESSION_PROMPT_TOTAL@ + decimal(cards.len()) + SESSION_PROMPT_ANSWERED@
        + decimal(answered_count(cards)) + SESSION_PROMPT_CORRECT@ + decimal(correct_count(cards))
        + SESSION_PROMPT_PAIRS@ + qa_list(cards, percents) + SESSION_PROMPT_TAIL@
}

proof fn lemma_counts_bounded(cards: Seq<CardSnapshot>)
    ensures
        correct_count(cards) <= answered_count(cards) <= cards.len(),
    decreases cards.len(),
{
    if cards.len() > 0 {
        lemma_counts_bounded(cards.drop_last());
    }
}

/// Appends the first 200 characters (at most) of `s`.
fn push_first_200(out: &mut Vec<char>, s: &str)
    ensures
        final(out)@ == old(out)@ + first_200(s@),
{
    let cs = chars_of(s);
    let n = cs.len();
    let end = if n <= 200 {
        n
    } else {
        200
    };
    append_range(out, &cs, 0, end);
    proof {
        assert(cs@.subrange(0, end as int) =~= first_200(s@));
    }
}

/// Appends the entry for answered card number `n`.
fn push_qa_entry(out: &mut Vec<char>, n: u64, c: &CardSnapshot, percent: &str)
    requires
        c.2 is Some,
    ensures
        final(out)@ == old(out)@ + qa_entry(n as nat, *c, percent@),
{
    let ghost start = out@;
    append_str(out, "Q");
    push_decimal(out, n);
    append_str(out, ": ");
    append_str(out, c.0.as_str());
    append_str(out, "\n");
    append_str(out, "A");
    push_decimal(out, n);
    append_str(out, ": ");
    append_str(out, c.1.as_str());
    append_str(out, "\n");
    append_str(out, "User: ");
    if let Some(u) = &c.2 {
        append_str(out, u.as_str());
    }
    append_str(out, "\n");
    let ghost before_verdict = out@;
    if let Some(f) = &c.3 {
        append_str(out, "AI Score: ");
        append_str(out, percent);
        append_str(out, "%, Feedback: ");
        push_first_200(out, f.explanation.as_str());
        append_str(out, "\n");
    }
    proof {
        assert(out@ =~= before_verdict + verdict_text(*c, percent@));
    }
    append_str(out, "\n");
    proof {
        assert(out@ =~= start + qa_entry(n as nat, *c, percent@));
    }
}

/// The prompt asking the model to assess a session on `deck_name`: how many cards,
/// how many answered, how many answered with a verdict of at least 0.7, then each
/// answered card (`percents[i]` being card `i`'s score as a whole percentage), then
/// the JSON structure to answer in.
pub fn session_prompt(deck_name: &str, cards: &Vec<CardSnapshot>, percents: &Vec<String>) -> (res: String)
    requires
        percents@.len() == cards@.len(),
    ensures
        res@ == session_prompt_text(deck_name@, cards@, percents@),
{
    let n = cards.len();
    let mut qa: Vec<char> = Vec::new();
    let mut answered: usize = 0;
    let mut correct: usize = 0;
    let mut k: usize = 0;
    proof {
        assert(cards@.take(0) =~= Seq::<CardSnapshot>::empty());
    }
    while k < n
        invariant
            k <= n,
            n == cards@.len(),
            percents@.len() == n,
            qa@ == qa_list(cards@.take(k as int), percents@),
            answered == answered_count(cards@.take(k as int)),
            correct == correct_count(cards@.take(k as int)),
        decreases n - k,
    {
        let ghost t = cards@.take(k as int);
        proof {
            assert(cards@.take(k + 1).drop_last() =~= t);
            lemma_counts_bounded(t);
        }
        let c = &cards[k];
        if c.2.is_some() {
            answered = answered + 1;
            let passed = match &c.3 {
                Some(f) => score_at_least_seven_tenths(f.correctness_score_bits),
                None => false,
            };
            if passed {
                correct = correct + 1;
            }
            push_qa_entry(&mut qa, (k + 1) as u64, c, percents[k].as_str());
        }
        k = k + 1;
    }
    proof {
        assert(cards@.take(n as int) =~= cards@);
    }
    let mut v: Vec<char> = Vec::new();
    append_str(&mut v, SESSION_PROMPT_HEAD);
    append_str(&mut v, deck_name);
    append_str(&mut v, SESSION_PROMPT_TOTAL);
    push_decimal(&mut v, n as u64);
    append_str(&mut v, SESSION_PROMPT_ANSWERED);
    push_decimal(&mut v, answered as u64);
    append_str(&mut v, SESSION_PROMPT_CORRECT);
    push_decimal(&mut v, correct as u64);
    append_str(&mut v, SESSION_PROMPT_PAIRS);
    let ghost before_qa = v@;
    v.append(&mut qa);
    append_str(&mut v, SESSION_PROMPT_TAIL);
    proof {
        assert(v@ =~= session_prompt_text(deck_name@, cards@, percents@));
    }
    string_from_chars(&v)
}

} // verus!
