//! The quiz screen's behaviour: how each key press changes the session, when an
//! answer is submitted and stored, and when the AI is asked to evaluate it.
use crate::csv::is_blank;
use crate::models::{
    AIEvaluationResult, AIFeedback, AiRequest, AiResponse, AppState, Flashcard, SessionAssessment,
};
use crate::text::{
    byte_len, byte_len_at_most, byte_len_upto, byte_offset, char_end_of_byte, char_index_at_byte,
    char_start_of_byte, char_starts_at, char_utf8_len, chars_of, insert_at_byte, is_char_start,
    is_whitespace, lemma_byte_len_insert, lemma_byte_len_remove, lemma_byte_offset_after_insert,
    lemma_byte_offset_after_remove, lemma_byte_offset_at_most_len, lemma_byte_offset_step,
    lemma_char_index_at_byte, lemma_char_index_at_start, lemma_char_index_unique, remove_at_byte,
    utf8_len,
};
use vstd::prelude::*;

verus! {

broadcast use vstd::string::group_string_axioms;

/// A quiz in progress.
#[derive(Debug)]
pub struct QuizSession {
    pub flashcards: Vec<Flashcard>,
    pub current_index: usize,
    pub deck_name: String,
    pub showing_answer: bool,
    pub input_buffer: String,
    /// Byte offset of the cursor in `input_buffer`.
    pub cursor_position: usize,
    pub session_id: Option<u64>,
    pub questions_total: usize,
    pub questions_answered: usize,
    pub ai_enabled: bool,
    pub ai_evaluation_in_progress: bool,
    pub ai_last_evaluated_index: Option<usize>,
    pub last_ai_error: Option<String>,
    pub input_scroll_y: u16,
    pub feedback_scroll_y: u16,
    pub session_assessment: Option<SessionAssessment>,
    pub assessment_loading: bool,
    pub assessment_error: Option<String>,
    pub assessment_scroll_y: u16,
}

/// The key of a key press.
#[derive(Debug, Clone, Copy, PartialEq, Eq, Structural)]
pub enum Key {
    Esc,
    Up,
    Down,
    Left,
    Right,
    Enter,
    Backspace,
    Char(char),
    Other,
}

/// A key press: the key and whether Control was held.
#[derive(Debug, Clone, Copy, PartialEq, Eq, Structural)]
pub struct KeyPress {
    pub key: Key,
    pub ctrl: bool,
}

/// Work a key press leaves to the caller.
#[derive(Debug)]
pub enum QuizEffect {
    Nothing,
    /// The answer to card `card_index` was recorded and must be stored in session
    /// `session_id`; then `answer_stored` and `finish_answer_submission` complete it.
    SaveAnswer { session_id: u64, card_index: usize },
    /// Send this request to the AI worker.
    RequestAi(AiRequest),
}

/// Storage work left after an AI verdict was recorded on card `card_index`.
#[derive(Debug, Clone, Copy, PartialEq, Eq, Structural)]
pub enum FeedbackStorage {
    Nothing,
    /// Write the card's new feedback to stored flashcard `flashcard_id`.
    UpdateFeedback { card_index: usize, flashcard_id: u64 },
    /// Store the card's answer and feedback in session `session_id`, then mark the card
    /// written.
    SaveAnswer { session_id: u64, card_index: usize },
}

/// The explanation of the verdict recorded when the evaluation failed.
pub open spec fn error_explanation(error: Seq<char>) -> Seq<char> {
    seq!['E', 'r', 'r', 'o', 'r', ':', ' '] + error
}

/// The request that evaluating card `idx` sends.
pub open spec fn evaluation_request(s: QuizSession, idx: int) -> AiRequest {
    AiRequest::Evaluate {
        flashcard_index: idx as usize,
        question: s.flashcards@[idx].question,
        correct_answer: s.flashcards@[idx].answer,
        user_answer: s.flashcards@[idx].user_answer->0,
    }
}

/// Card `idx` has a non-blank answer that the AI has not evaluated, and no evaluation
/// is running.
pub open spec fn evaluation_due(s: QuizSession, idx: int) -> bool {
    &&& s.ai_enabled
    &&& !s.ai_evaluation_in_progress
    &&& s.ai_last_evaluated_index != Some(idx as usize)
    &&& s.flashcards@[idx].user_answer matches Some(a) && !is_blank(a@)
}

/// Asking for an evaluation of card `idx` reads the card.
pub open spec fn evaluation_reads_card(s: QuizSession, idx: int) -> bool {
    s.ai_enabled && !s.ai_evaluation_in_progress && s.ai_last_evaluated_index != Some(idx as usize)
}

/// `new`/`req` is what asking for an evaluation of card `idx` in `s` gives.
pub open spec fn evaluation_step(s: QuizSession, idx: int, new: QuizSession, req: Option<AiRequest>) -> bool {
    if evaluation_due(s, idx) {
        &&& new == QuizSession { last_ai_error: None, ai_evaluation_in_progress: true, ..s }
        &&& req == Some(evaluation_request(s, idx))
    } else {
        new == s && req is None
    }
}

/// `new` is `s` moved to card `idx`: the answer screen if the card is answered,
/// otherwise an empty input box.
pub open spec fn moved_to(s: QuizSession, idx: int, new: QuizSession) -> bool {
    let answered = s.flashcards@[idx].user_answer is Some;
    &&& new == QuizSession {
        current_index: idx as usize,
        showing_answer: answered,
        last_ai_error: None,
        input_buffer: new.input_buffer,
        cursor_position: new.cursor_position,
        input_scroll_y: new.input_scroll_y,
        ..s
    }
    &&& if answered {
        &&& new.input_buffer == s.input_buffer
        &&& new.cursor_position == s.cursor_position
        &&& new.input_scroll_y == s.input_scroll_y
    } else {
        &&& new.input_buffer@ == Seq::<char>::empty()
        &&& new.cursor_position == 0
        &&& new.input_scroll_y == 0
    }
}

/// `s` with the typed answer recorded on the current card.
pub open spec fn answer_recorded(s: QuizSession, new: QuizSession) -> bool {
    let idx = s.current_index as int;
    let card = s.flashcards@[idx];
    &&& new.flashcards@ == s.flashcards@.update(
        idx,
        Flashcard { user_answer: Some(s.input_buffer), written_to_file: false, ..card },
    )
    &&& new == QuizSession { flashcards: new.flashcards, questions_answered: (s.questions_answered + 1) as usize, ..s }
}

/// `new`/`req` is `s` after finishing a submission: error, input and cursor cleared, the
/// answer shown, and an evaluation asked for when the AI is enabled.
pub open spec fn submission_finished(s: QuizSession, new: QuizSession, req: Option<AiRequest>) -> bool {
    let cleared = QuizSession {
        last_ai_error: None,
        input_buffer: new.input_buffer,
        cursor_position: 0,
        showing_answer: true,
        ..s
    };
    &&& new.input_buffer@ == Seq::<char>::empty()
    &&& if s.ai_enabled {
        evaluation_step(cleared, s.current_index as int, new, req)
    } else {
        new == cleared && req is None
    }
}

/// Where the cursor goes on Left: to the start of the character before it (the end of
/// the input when it stands past the end), and nowhere from the start.
pub open spec fn cursor_after_left(s: QuizSession) -> int {
    if s.cursor_position == 0 {
        0
    } else {
        byte_offset(s.input_buffer@, char_index_at_byte(s.input_buffer@, s.cursor_position - 1)) as int
    }
}

/// Where the cursor goes on Right inside the input: to the end of the character it
/// stands on.
pub open spec fn cursor_after_right(s: QuizSession) -> int {
    byte_offset(s.input_buffer@, char_index_at_byte(s.input_buffer@, s.cursor_position as int) + 1) as int
}

/// Key presses on which the session is changed in a way that cannot fail: none of them
/// indexes past the cards or edits the input inside a character.
pub open spec fn quiz_input_ok(s: QuizSession, k: KeyPress) -> bool {
    let len = s.flashcards@.len();
    let idx = s.current_index as int;
    &&& (k.key == Key::Down && idx < len - 1) ==> idx + 1 < len
    &&& (k.key == Key::Up && idx > 0) ==> idx - 1 < len
    &&& (s.showing_answer && k.key == Key::Enter && idx < len - 1) ==> idx + 1 < len
    &&& !s.showing_answer ==> {
        &&& (k.key == Key::Enter && !k.ctrl && !is_blank(s.input_buffer@)) ==> {
            &&& idx < len
            &&& s.questions_answered < usize::MAX
        }
        &&& (k.key == Key::Enter && k.ctrl) ==> {
            &&& is_char_start(s.input_buffer@, s.cursor_position as int)
            &&& s.cursor_position < usize::MAX
        }
        &&& k.key matches Key::Char(c) ==> {
            &&& is_char_start(s.input_buffer@, s.cursor_position as int)
            &&& s.cursor_position + utf8_len(c) <= usize::MAX
        }
        &&& (k.key == Key::Right && s.cursor_position < byte_len(s.input_buffer@)) ==> byte_len(
            s.input_buffer@,
        ) <= usize::MAX
        &&& (k.key == Key::Backspace && s.cursor_position > 0) ==> s.cursor_position - 1 < byte_len(
            s.input_buffer@,
        )
    }
    &&& (s.showing_answer && k.key == Key::Char('e') && k.ctrl && s.ai_enabled
        && s.ai_last_evaluated_index != Some(s.current_index)) ==> idx < len
}

/// How a key press changes the quiz (`s`, `app`) into (`new`, `app2`), and the work it
/// leaves (`eff`).
pub open spec fn quiz_key_step(
    s: QuizSession,
    app: AppState,
    k: KeyPress,
    new: QuizSession,
    app2: AppState,
    eff: QuizEffect,
) -> bool {
    let len = s.flashcards@.len();
    let idx = s.current_index as int;
    let unchanged = new == s && app2 == app && eff is Nothing;
    if k.key == Key::Esc {
        new == s && app2 == AppState::QuizQuitConfirm && eff is Nothing
    } else if k.key == Key::Down || (s.showing_answer && k.key == Key::Enter && idx < len - 1) {
        if idx < len - 1 {
            moved_to(s, idx + 1, new) && app2 == app && eff is Nothing
        } else {
            unchanged
        }
    } else if k.key == Key::Up {
        if idx > 0 {
            moved_to(s, idx - 1, new) && app2 == app && eff is Nothing
        } else {
            unchanged
        }
    } else if s.showing_answer {
        if k.key == Key::Enter {
            &&& new == QuizSession { assessment_loading: true, assessment_error: None, ..s }
            &&& app2 == AppState::Summary
            &&& eff is Nothing
        } else if k.key == Key::Char('e') && k.ctrl && s.ai_enabled {
            &&& app2 == app
            &&& eff matches QuizEffect::RequestAi(r) ==> evaluation_step(
                QuizSession { last_ai_error: None, ai_evaluation_in_progress: false, ..s },
                idx,
                new,
                Some(r),
            )
            &&& eff matches QuizEffect::Nothing ==> evaluation_step(
                QuizSession { last_ai_error: None, ai_evaluation_in_progress: false, ..s },
                idx,
                new,
                None,
            )
            &&& !(eff is SaveAnswer)
        } else if k.key == Key::Char('x') && k.ctrl && s.ai_enabled && s.ai_evaluation_in_progress {
            &&& new == QuizSession { ai_evaluation_in_progress: false, last_ai_error: new.last_ai_error, ..s }
            &&& new.last_ai_error matches Some(e) && e@ == seq!['E', 'v', 'a', 'l', 'u', 'a', 't', 'i', 'o', 'n', ' ', 'c', 'a', 'n', 'c', 'e', 'l', 'l', 'e', 'd']
            &&& app2 == app
            &&& eff is Nothing
        } else {
            unchanged
        }
    } else if k.key == Key::Enter && k.ctrl {
        &&& new == QuizSession { input_buffer: new.input_buffer, cursor_position: (s.cursor_position + 1) as usize, ..s }
        &&& new.input_buffer@ == s.input_buffer@.insert(char_index_at_byte(s.input_buffer@, s.cursor_position as int), '\n')
        &&& app2 == app
        &&& eff is Nothing
    } else if k.key == Key::Enter {
        if is_blank(s.input_buffer@) {
            unchanged
        } else {
            &&& app2 == app
            &&& match s.session_id {
                Some(sid) => answer_recorded(s, new) && eff == QuizEffect::SaveAnswer { session_id: sid, card_index: idx as usize },
                None => exists|mid: QuizSession| {
                    &&& #[trigger] answer_recorded(s, mid)
                    &&& match eff {
                        QuizEffect::RequestAi(r) => submission_finished(mid, new, Some(r)),
                        QuizEffect::Nothing => submission_finished(mid, new, None),
                        QuizEffect::SaveAnswer { .. } => false,
                    }
                },
            }
        }
    } else if k.key == Key::Left {
        new == QuizSession { cursor_position: cursor_after_left(s) as usize, ..s } && app2 == app && eff is Nothing
    } else if k.key == Key::Right {
        if s.cursor_position < byte_len(s.input_buffer@) {
            new == QuizSession { cursor_position: cursor_after_right(s) as usize, ..s } && app2 == app && eff is Nothing
        } else {
            unchanged
        }
    } else if k.key == Key::Backspace {
        if s.cursor_position > 0 {
            &&& new == QuizSession { input_buffer: new.input_buffer, cursor_position: cursor_after_left(s) as usize, ..s }
            &&& new.input_buffer@ == s.input_buffer@.remove(char_index_at_byte(s.input_buffer@, s.cursor_position - 1))
            &&& app2 == app
            &&& eff is Nothing
        } else {
            unchanged
        }
    } else if let Key::Char(c) = k.key {
        &&& new == QuizSession { input_buffer: new.input_buffer, cursor_position: (s.cursor_position + utf8_len(c)) as usize, ..s }
        &&& new.input_buffer@ == s.input_buffer@.insert(char_index_at_byte(s.input_buffer@, s.cursor_position as int), c)
        &&& app2 == app
        &&& eff is Nothing
    } else {
        unchanged
    }
}

impl QuizSession {
    fn move_to(&mut self, idx: usize)
        requires
            idx < old(self).flashcards@.len(),
        ensures
            moved_to(*old(self), idx as int, *final(self)),
    {
        self.current_index = idx;
        self.showing_answer = self.flashcards[idx].user_answer.is_some();
        self.last_ai_error = None;
        if !self.showing_answer {
            self.input_buffer = String::new();
            self.cursor_position = 0;
            self.input_scroll_y = 0;
        }
    }

    /// Asks for an AI evaluation of card `flashcard_index`, unless AI is off, an
    /// evaluation is running, this card was the last one evaluated, or it has no
    /// non-blank answer. Gives the request to send to the AI worker.
    pub fn request_ai_evaluation(&mut self, flashcard_index: usize) -> (req: Option<AiRequest>)
        requires
            evaluation_reads_card(*old(self), flashcard_index as int) ==> flashcard_index
                < old(self).flashcards@.len(),
        ensures
            evaluation_step(*old(self), flashcard_index as int, *final(self), req),
    {
        if !self.ai_enabled || self.ai_evaluation_in_progress {
            return None;
        }
        if let Some(last_idx) = self.ai_last_evaluated_index {
            if last_idx == flashcard_index {
                return None;
            }
        }
        let card = &self.flashcards[flashcard_index];
        let user_answer = match &card.user_answer {
            Some(ans) => ans.clone(),
            None => {
                return None;
            },
        };
        if blank_str(&user_answer) {
            return None;
        }
        let request = AiRequest::Evaluate {
            flashcard_index,
            question: card.question.clone(),
            correct_answer: card.answer.clone(),
            user_answer,
        };
        self.last_ai_error = None;
        self.ai_evaluation_in_progress = true;
        Some(request)
    }

    /// Asks again for an evaluation of the current card (Ctrl+E): a running evaluation
    /// is no longer waited for.
    pub fn manual_trigger_ai_evaluation(&mut self) -> (req: Option<AiRequest>)
        requires
            (old(self).ai_enabled && old(self).ai_last_evaluated_index != Some(old(self).current_index))
                ==> old(self).current_index < old(self).flashcards@.len(),
        ensures
            old(self).ai_enabled ==> evaluation_step(idle(*old(self)), old(self).current_index as int, *final(self), req),
            !old(self).ai_enabled ==> *final(self) == idle(*old(self)) && req is None,
    {
        self.ai_evaluation_in_progress = false;
        if self.ai_enabled {
            let idx = self.current_index;
            self.request_ai_evaluation(idx)
        } else {
            None
        }
    }

    /// Completes the submission of an answer: clears the error, the input and the
    /// cursor, shows the answer, and asks for an evaluation when the AI is enabled.
    pub fn finish_answer_submission(&mut self) -> (req: Option<AiRequest>)
        requires
            (old(self).ai_enabled && !old(self).ai_evaluation_in_progress
                && old(self).ai_last_evaluated_index != Some(old(self).current_index))
                ==> old(self).current_index < old(self).flashcards@.len(),
        ensures
            submission_finished(*old(self), *final(self), req),
    {
        self.last_ai_error = None;
        self.input_buffer = String::new();
        self.cursor_position = 0;
        self.showing_answer = true;
        if self.ai_enabled {
            let idx = self.current_index;
            self.request_ai_evaluation(idx)
        } else {
            None
        }
    }

    /// Records an AI verdict, an evaluation error (kept as a zero-score verdict whose
    /// explanation is "Error: ..." and shown as the last error) or a session assessment.
    /// Gives the storage work left for a recorded verdict.
    pub fn process_ai_responses(&mut self, response: AiResponse) -> (store: FeedbackStorage)
        requires
            ai_response_ok(*old(self), response),
        ensures
            ai_response_step(*old(self), response, *final(self), store),
    {
        match response {
            AiResponse::Evaluation { flashcard_index, result } => {
                self.ai_last_evaluated_index = Some(flashcard_index);
                self.ai_evaluation_in_progress = false;
                self.last_ai_error = None;
                self.record_feedback(flashcard_index, result.feedback)
            },
            AiResponse::Error { flashcard_index, error } => {
                self.ai_evaluation_in_progress = false;
                let explanation = error_text(&error);
                self.last_ai_error = Some(error);
                let f = AIFeedback {
                    is_correct: false,
                    correctness_score_bits: 0,
                    corrections: Vec::new(),
                    explanation,
                    suggestions: Vec::new(),
                };
                let ghost fg = f;
                let store = self.record_feedback(flashcard_index, f);
                proof {
                    assert(feedback_recorded(
                        QuizSession { ai_evaluation_in_progress: false, last_ai_error: Some(error), ..*old(self) },
                        flashcard_index as int,
                        fg,
                        *self,
                        store,
                    ));
                }
                store
            },
            AiResponse::SessionAssessment { session_id: _, result } => {
                self.assessment_loading = false;
                match result {
                    Ok(assessment) => {
                        self.session_assessment = Some(assessment);
                        self.assessment_error = None;
                    },
                    Err(error) => {
                        self.session_assessment = None;
                        self.assessment_error = Some(error);
                    },
                }
                FeedbackStorage::Nothing
            },
            AiResponse::ChatReply { .. } => FeedbackStorage::Nothing,
        }
    }

    fn record_feedback(&mut self, idx: usize, f: AIFeedback) -> (store: FeedbackStorage)
        requires
            idx < old(self).flashcards@.len(),
        ensures
            feedback_recorded(*old(self), idx as int, f, *final(self), store),
    {
        self.flashcards[idx].ai_feedback = Some(f);
        match self.session_id {
            None => FeedbackStorage::Nothing,
            Some(session_id) => match self.flashcards[idx].id {
                Some(flashcard_id) => FeedbackStorage::UpdateFeedback { card_index: idx, flashcard_id },
                None => {
                    if !self.flashcards[idx].written_to_file {
                        FeedbackStorage::SaveAnswer { session_id, card_index: idx }
                    } else {
                        FeedbackStorage::Nothing
                    }
                },
            },
        }
    }

    /// Marks card `card_index` as stored.
    pub fn card_stored(&mut self, card_index: usize)
        requires
            card_index < old(self).flashcards@.len(),
        ensures
            card_written(*old(self), card_index as int, *final(self)),
    {
        self.flashcards[card_index].written_to_file = true;
    }
}

/// `s` with no evaluation running.
pub open spec fn idle(s: QuizSession) -> QuizSession {
    QuizSession { ai_evaluation_in_progress: false, ..s }
}

/// `new` is `s` with card `idx` marked as stored.
pub open spec fn card_written(s: QuizSession, idx: int, new: QuizSession) -> bool {
    &&& new.flashcards@ == s.flashcards@.update(idx, Flashcard { written_to_file: true, ..s.flashcards@[idx] })
    &&& new == QuizSession { flashcards: new.flashcards, ..s }
}

/// A response about a card names a card of the session.
pub open spec fn ai_response_ok(s: QuizSession, r: AiResponse) -> bool {
    match r {
        AiResponse::Evaluation { flashcard_index, .. } => flashcard_index < s.flashcards@.len(),
        AiResponse::Error { flashcard_index, .. } => flashcard_index < s.flashcards@.len(),
        _ => true,
    }
}

/// Handles a key press on the quiz screen. While typing: arrows move between cards and
/// along the input, Backspace deletes, Ctrl+Enter adds a newline, Enter submits a
/// non-blank answer, Esc asks to quit. On the answer screen: Enter goes on (to the summary
/// after the last card), Ctrl+E asks the AI again, Ctrl+X cancels a running evaluation.
pub fn handle_quiz_input(session: &mut QuizSession, key: KeyPress, app_state: &mut AppState) -> (eff: QuizEffect)
    requires
        quiz_input_ok(*old(session), key),
    ensures
        quiz_key_step(*old(session), *old(app_state), key, *final(session), *final(app_state), eff),
{
    let len = session.flashcards.len();
    let idx = session.current_index;
    let last = if len > 0 { len - 1 } else { 0 };
    match key.key {
        Key::Esc => {
            *app_state = AppState::QuizQuitConfirm;
            return QuizEffect::Nothing;
        },
        Key::Down => {
            if idx < last {
                session.move_to(idx + 1);
            }
            return QuizEffect::Nothing;
        },
        Key::Up => {
            if idx > 0 {
                session.move_to(idx - 1);
            }
            return QuizEffect::Nothing;
        },
        _ => {},
    }
    if session.showing_answer {
        match key.key {
            Key::Enter => {
                if idx < last {
                    session.move_to(idx + 1);
                } else {
                    *app_state = AppState::Summary;
                    session.assessment_loading = true;
                    session.assessment_error = None;
                }
                QuizEffect::Nothing
            },
            Key::Char('e') => {
                if key.ctrl && session.ai_enabled {
                    session.last_ai_error = None;
                    proof {
                        assert(idle(*session) == QuizSession { last_ai_error: None, ai_evaluation_in_progress: false, ..*old(session) });
                    }
                    match session.manual_trigger_ai_evaluation() {
                        Some(r) => QuizEffect::RequestAi(r),
                        None => QuizEffect::Nothing,
                    }
                } else {
                    QuizEffect::Nothing
                }
            },
            Key::Char('x') => {
                if key.ctrl && session.ai_enabled && session.ai_evaluation_in_progress {
                    session.ai_evaluation_in_progress = false;
                    session.last_ai_error = Some(cancelled_text());
                }
                QuizEffect::Nothing
            },
            _ => QuizEffect::Nothing,
        }
    } else {
        match key.key {
            Key::Enter => {
                if key.ctrl {
                    session.input_buffer = insert_at_byte(&session.input_buffer, session.cursor_position, '\n');
                    session.cursor_position = session.cursor_position + 1;
                    QuizEffect::Nothing
                } else if !blank_str(&session.input_buffer) {
                    let answer = session.input_buffer.clone();
                    session.flashcards[idx].user_answer = Some(answer);
                    session.flashcards[idx].written_to_file = false;
                    session.questions_answered = session.questions_answered + 1;
                    let ghost mid = *session;
                    proof {
                        let card = old(session).flashcards@[idx as int];
                        assert(mid.flashcards@ =~= old(session).flashcards@.update(
                            idx as int,
                            Flashcard { user_answer: Some(old(session).input_buffer), written_to_file: false, ..card },
                        ));
                        assert(answer_recorded(*old(session), mid));
                    }
                    match session.session_id {
                        Some(session_id) => QuizEffect::SaveAnswer { session_id, card_index: idx },
                        None => {
                            match session.finish_answer_submission() {
                                Some(r) => QuizEffect::RequestAi(r),
                                None => QuizEffect::Nothing,
                            }
                        },
                    }
                } else {
                    QuizEffect::Nothing
                }
            },
            Key::Left => {
                if session.cursor_position > 0 {
                    let chars = chars_of(session.input_buffer.as_str());
                    session.cursor_position = char_start_of_byte(&chars, session.cursor_position - 1);
                }
                QuizEffect::Nothing
            },
            Key::Right => {
                let chars = chars_of(session.input_buffer.as_str());
                if byte_len_upto(&chars, session.cursor_position).is_none() {
                    session.cursor_position = char_end_of_byte(&chars, session.cursor_position);
                }
                QuizEffect::Nothing
            },
            Key::Backspace => {
                if session.cursor_position > 0 {
                    let chars = chars_of(session.input_buffer.as_str());
                    let start = char_start_of_byte(&chars, session.cursor_position - 1);
                    proof {
                        let buf = old(session).input_buffer@;
                        let k = char_index_at_byte(buf, old(session).cursor_position - 1);
                        lemma_char_index_at_byte(buf, old(session).cursor_position - 1);
                        lemma_char_index_at_start(buf, k);
                        lemma_byte_offset_at_most_len(buf, k + 1);
                        lemma_byte_offset_step(buf, k);
                        assert(is_char_start(buf, byte_offset(buf, k) as int));
                    }
                    session.input_buffer = remove_at_byte(&session.input_buffer, start);
                    session.cursor_position = start;
                }
                QuizEffect::Nothing
            },
            Key::Char(c) => {
                session.input_buffer = insert_at_byte(&session.input_buffer, session.cursor_position, c);
                session.cursor_position = session.cursor_position + char_utf8_len(c);
                QuizEffect::Nothing
            },
            _ => QuizEffect::Nothing,
        }
    }
}

fn cancelled_text() -> (res: String)
    ensures
        res@ == seq!['E', 'v', 'a', 'l', 'u', 'a', 't', 'i', 'o', 'n', ' ', 'c', 'a', 'n', 'c', 'e', 'l', 'l', 'e', 'd'],
{
    proof {
        reveal_strlit("Evaluation cancelled");
    }
    let s = String::from_str("Evaluation cancelled");
    proof {
        assert(s@ =~= seq!['E', 'v', 'a', 'l', 'u', 'a', 't', 'i', 'o', 'n', ' ', 'c', 'a', 'n', 'c', 'e', 'l', 'l', 'e', 'd']);
    }
    s
}

/// The quiz shows a card of the deck and the cursor is within the input, at the start
/// of a character or at the end.
pub open spec fn quiz_wf(s: QuizSession) -> bool {
    &&& s.current_index < s.flashcards@.len()
    &&& s.cursor_position <= byte_len(s.input_buffer@)
    &&& is_char_start(s.input_buffer@, s.cursor_position as int)
}

proof fn lemma_evaluation_step_wf(s: QuizSession, idx: int, new: QuizSession, req: Option<AiRequest>)
    requires
        quiz_wf(s),
        evaluation_step(s, idx, new, req),
    ensures
        quiz_wf(new),
{
}

/// Every accepted key press keeps the quiz on a card of the deck with the cursor within
/// the input.
pub proof fn lemma_key_keeps_wf(
    s: QuizSession,
    app: AppState,
    k: KeyPress,
    new: QuizSession,
    app2: AppState,
    eff: QuizEffect,
)
    requires
        quiz_wf(s),
        quiz_input_ok(s, k),
        quiz_key_step(s, app, k, new, app2, eff),
    ensures
        quiz_wf(new),
{
    let buf = s.input_buffer@;
    let c0 = s.cursor_position as int;
    assert(buf.take(0) =~= Seq::<char>::empty());
    assert(byte_offset(buf, 0) == 0);
    if !s.showing_answer && k.key != Key::Esc && k.key != Key::Down && k.key != Key::Up {
        if (k.key == Key::Enter && k.ctrl) || k.key is Char {
            let w = choose|w: int| 0 <= w <= buf.len() && byte_offset(buf, w) == c0;
            lemma_char_index_at_start(buf, w);
            let ch = if let Key::Char(c) = k.key { c } else { '\n' };
            lemma_byte_len_insert(buf, w, ch);
            lemma_byte_offset_after_insert(buf, w, ch);
            lemma_byte_offset_at_most_len(buf.insert(w, ch), w + 1);
            assert(is_char_start(buf.insert(w, ch), byte_offset(buf.insert(w, ch), w + 1) as int));
        } else if k.key == Key::Backspace && s.cursor_position > 0 {
            let w = char_index_at_byte(buf, c0 - 1);
            lemma_char_index_at_byte(buf, c0 - 1);
            lemma_byte_len_remove(buf, w);
            lemma_byte_offset_after_remove(buf, w);
            lemma_byte_offset_at_most_len(buf.remove(w), w);
            assert(is_char_start(buf.remove(w), byte_offset(buf.remove(w), w) as int));
        } else if k.key == Key::Left && s.cursor_position > 0 {
            let w = char_index_at_byte(buf, c0 - 1);
            lemma_char_index_at_byte(buf, c0 - 1);
            lemma_byte_offset_at_most_len(buf, w);
            assert(is_char_start(buf, byte_offset(buf, w) as int));
        } else if k.key == Key::Right && c0 < byte_len(buf) {
            let w = char_index_at_byte(buf, c0);
            lemma_char_index_at_byte(buf, c0);
            lemma_byte_offset_at_most_len(buf, w + 1);
            assert(is_char_start(buf, byte_offset(buf, w + 1) as int));
        } else if k.key == Key::Enter && !k.ctrl && !is_blank(buf) && s.session_id is None {
            let mid = choose|mid: QuizSession| #[trigger] answer_recorded(s, mid) && match eff {
                QuizEffect::RequestAi(r) => submission_finished(mid, new, Some(r)),
                QuizEffect::Nothing => submission_finished(mid, new, None),
                QuizEffect::SaveAnswer { .. } => false,
            };
            assert(mid.flashcards@.len() == s.flashcards@.len());
            assert(new.input_buffer@.take(0) =~= Seq::<char>::empty());
            assert(byte_offset(new.input_buffer@, 0) == 0);
        }
    } else {
        assert(new.input_buffer@.take(0) =~= Seq::<char>::empty());
        assert(byte_offset(new.input_buffer@, 0) == 0);
    }
}

/// Going down a card and back up returns to the card one started on.
pub proof fn lemma_down_then_up(
    s0: QuizSession,
    app0: AppState,
    s1: QuizSession,
    app1: AppState,
    e1: QuizEffect,
    s2: QuizSession,
    app2: AppState,
    e2: QuizEffect,
)
    requires
        s0.flashcards@.len() <= usize::MAX,
        s0.current_index + 1 < s0.flashcards@.len(),
        quiz_key_step(s0, app0, KeyPress { key: Key::Down, ctrl: false }, s1, app1, e1),
        quiz_key_step(s1, app1, KeyPress { key: Key::Up, ctrl: false }, s2, app2, e2),
    ensures
        s2.current_index == s0.current_index,
        s2.flashcards == s0.flashcards,
        app2 == app0,
{
    let i0 = s0.current_index as int;
    assert(moved_to(s0, i0 + 1, s1));
    assert(s1.current_index == i0 + 1);
    assert(s1.flashcards == s0.flashcards);
    assert(moved_to(s1, i0, s2));
}

/// Esc on the quiz asks whether to leave, changing nothing; on a shown answer, Enter
/// goes on to the next card, and from the last card to the summary, where the
/// session's assessment is awaited.
#[verifier::spinoff_prover]
pub proof fn lemma_quiz_esc_and_enter(
    s: QuizSession,
    app: AppState,
    k: KeyPress,
    new: QuizSession,
    app2: AppState,
    eff: QuizEffect,
)
    requires
        s.flashcards@.len() <= usize::MAX,
        s.current_index < s.flashcards@.len(),
        quiz_key_step(s, app, k, new, app2, eff),
    ensures
        k.key == Key::Esc ==> new == s && app2 == AppState::QuizQuitConfirm && eff is Nothing,
        s.showing_answer && k.key == Key::Enter && s.current_index + 1 < s.flashcards@.len() ==> {
            &&& new.current_index == s.current_index + 1
            &&& new.flashcards == s.flashcards
            &&& new.showing_answer == (s.flashcards@[s.current_index + 1].user_answer is Some)
            &&& app2 == app
        },
        s.showing_answer && k.key == Key::Enter && s.current_index + 1 == s.flashcards@.len() ==> {
            &&& app2 == AppState::Summary
            &&& new == (QuizSession { assessment_loading: true, assessment_error: None, ..s })
            &&& eff is Nothing
        },
{
}

/// Typing a character and then pressing Backspace leaves the input and the cursor as
/// they were: the character goes in at the cursor, the cursor moves past it, and
/// Backspace takes that same character out again.
#[verifier::spinoff_prover]
#[verifier::rlimit(40)]
pub proof fn lemma_type_then_backspace(
    s: QuizSession,
    app: AppState,
    c: char,
    s1: QuizSession,
    app1: AppState,
    e1: QuizEffect,
    s2: QuizSession,
    app2: AppState,
    e2: QuizEffect,
)
    requires
        !s.showing_answer,
        is_char_start(s.input_buffer@, s.cursor_position as int),
        s.cursor_position + utf8_len(c) <= usize::MAX,
        quiz_key_step(s, app, KeyPress { key: Key::Char(c), ctrl: false }, s1, app1, e1),
        quiz_key_step(s1, app1, KeyPress { key: Key::Backspace, ctrl: false }, s2, app2, e2),
    ensures
        s1.input_buffer@.len() == s.input_buffer@.len() + 1,
        s1.cursor_position == s.cursor_position + utf8_len(c),
        s2.input_buffer@ == s.input_buffer@,
        s2 == (QuizSession { input_buffer: s2.input_buffer, ..s }),
        app2 == app,
{
    let buf = s.input_buffer@;
    let cur = s.cursor_position as int;
    let w = choose|w: int| 0 <= w <= buf.len() && byte_offset(buf, w) == cur;
    lemma_char_index_at_start(buf, w);
    let buf1 = buf.insert(w, c);
    assert(s1.input_buffer@ == buf1);
    lemma_byte_offset_after_insert(buf, w, c);
    let cur1 = cur + utf8_len(c);
    assert(s1.cursor_position == cur1);
    assert(cur1 > 0);
    lemma_char_index_unique(buf1, cur1 - 1, w);
    assert(buf1.remove(w) =~= buf);
    assert(cursor_after_left(s1) == cur);
}

/// Enter on a typed answer records exactly that answer on the current card, counts it,
/// and leaves every other card as it was.
#[verifier::spinoff_prover]
pub proof fn lemma_enter_records_answer(
    s: QuizSession,
    app: AppState,
    new: QuizSession,
    app2: AppState,
    eff: QuizEffect,
)
    requires
        !s.showing_answer,
        !is_blank(s.input_buffer@),
        s.current_index < s.flashcards@.len(),
        s.questions_answered < usize::MAX,
        quiz_key_step(s, app, KeyPress { key: Key::Enter, ctrl: false }, new, app2, eff),
    ensures
        new.flashcards@.len() == s.flashcards@.len(),
        new.flashcards@[s.current_index as int].user_answer == Some(s.input_buffer),
        new.flashcards@[s.current_index as int].question == s.flashcards@[s.current_index as int].question,
        new.flashcards@[s.current_index as int].answer == s.flashcards@[s.current_index as int].answer,
        forall|j: int| 0 <= j < s.flashcards@.len() && j != s.current_index ==> new.flashcards@[j] == s.flashcards@[j],
        new.questions_answered == s.questions_answered + 1,
        new.current_index == s.current_index,
        app2 == app,
        s.session_id matches Some(sid) ==> eff == (QuizEffect::SaveAnswer { session_id: sid, card_index: s.current_index }),
        s.session_id is None ==> new.showing_answer && new.input_buffer@.len() == 0 && new.cursor_position == 0,
{
    if s.session_id is None {
        let mid = choose|mid: QuizSession| #[trigger] answer_recorded(s, mid) && match eff {
            QuizEffect::RequestAi(r) => submission_finished(mid, new, Some(r)),
            QuizEffect::Nothing => submission_finished(mid, new, None),
            QuizEffect::SaveAnswer { .. } => false,
        };
        assert(answer_recorded(s, mid));
        assert(mid.flashcards@.len() == s.flashcards@.len());
    }
}

/// Asking for an evaluation of card `idx` sends that card's question, correct answer
/// and the user's answer, and marks an evaluation as running; nothing is sent while one
/// is running, for a card just evaluated, or for a blank answer, and then nothing
/// changes. An unevaluated non-blank answer is always sent when the AI is on and idle.
pub proof fn lemma_evaluation_sends_card(s: QuizSession, idx: usize, new: QuizSession, req: Option<AiRequest>)
    requires
        0 <= idx < s.flashcards@.len(),
        evaluation_step(s, idx as int, new, req),
    ensures
        req matches Some(AiRequest::Evaluate { flashcard_index, question, correct_answer, user_answer }) ==> {
            &&& flashcard_index == idx
            &&& question == s.flashcards@[idx as int].question
            &&& correct_answer == s.flashcards@[idx as int].answer
            &&& s.flashcards@[idx as int].user_answer == Some(user_answer)
            &&& !is_blank(user_answer@)
        },
        req is Some ==> req->0 is Evaluate && new.ai_evaluation_in_progress && new.flashcards == s.flashcards,
        s.ai_evaluation_in_progress || !s.ai_enabled || s.ai_last_evaluated_index == Some(idx) ==> req is None
            && new == s,
        (s.flashcards@[idx as int].user_answer is None || is_blank(s.flashcards@[idx as int].user_answer->0@)) ==> req is None,
        (s.ai_enabled && !s.ai_evaluation_in_progress && s.ai_last_evaluated_index != Some(idx)
            && s.flashcards@[idx as int].user_answer is Some && !is_blank(s.flashcards@[idx as int].user_answer->0@))
            ==> req is Some,
{
}

/// An evaluation is given up exactly when it has run for more than thirty seconds:
/// more than thirty billion nanoseconds in all.
pub proof fn lemma_thirty_second_limit(secs: u64, nanos: u32)
    requires
        nanos < 1_000_000_000,
    ensures
        over_thirty_seconds(secs, nanos) <==> secs * 1_000_000_000 + nanos > 30_000_000_000,
{
    if secs > 30 {
        assert(secs * 1_000_000_000 >= 31_000_000_000) by (nonlinear_arith)
            requires
                secs >= 31,
        ;
    } else if secs < 30 {
        assert(secs * 1_000_000_000 <= 29_000_000_000) by (nonlinear_arith)
            requires
                secs <= 29,
        ;
    }
}

/// How an AI response changes the session, and the storage work it leaves.
pub open spec fn ai_response_step(s: QuizSession, r: AiResponse, new: QuizSession, store: FeedbackStorage) -> bool {
    match r {
        AiResponse::Evaluation { flashcard_index, result } => {
            let mid = QuizSession {
                ai_last_evaluated_index: Some(flashcard_index),
                ai_evaluation_in_progress: false,
                last_ai_error: None,
                ..s
            };
            feedback_recorded(mid, flashcard_index as int, result.feedback, new, store)
        },
        AiResponse::Error { flashcard_index, error } => {
            let mid = QuizSession {
                ai_evaluation_in_progress: false,
                last_ai_error: Some(error),
                ..s
            };
            exists|f: AIFeedback| {
                &&& #[trigger] feedback_recorded(mid, flashcard_index as int, f, new, store)
                &&& !f.is_correct
                &&& f.correctness_score_bits == 0
                &&& f.corrections@.len() == 0
                &&& f.explanation@ == error_explanation(error@)
                &&& f.suggestions@.len() == 0
            }
        },
        AiResponse::SessionAssessment { result, .. } => {
            &&& store == FeedbackStorage::Nothing
            &&& match result {
                Ok(a) => new == QuizSession {
                    assessment_loading: false,
                    session_assessment: Some(a),
                    assessment_error: None,
                    ..s
                },
                Err(e) => new == QuizSession {
                    assessment_loading: false,
                    session_assessment: None,
                    assessment_error: Some(e),
                    ..s
                },
            }
        },
        AiResponse::ChatReply { .. } => new == s && store == FeedbackStorage::Nothing,
    }
}

/// A verdict lands on the card it names, whichever card is on screen: that card's
/// verdict is the one received and the rest of it is as it was, every other card is
/// unchanged, and the quiz stays on the card it showed.
pub proof fn lemma_verdict_lands_on_named_card(
    s: QuizSession,
    i: usize,
    result: AIEvaluationResult,
    new: QuizSession,
    store: FeedbackStorage,
)
    requires
        ai_response_ok(s, AiResponse::Evaluation { flashcard_index: i, result }),
        ai_response_step(s, AiResponse::Evaluation { flashcard_index: i, result }, new, store),
    ensures
        new.flashcards@.len() == s.flashcards@.len(),
        new.flashcards@[i as int].ai_feedback == Some(result.feedback),
        new.flashcards@[i as int].question == s.flashcards@[i as int].question,
        new.flashcards@[i as int].answer == s.flashcards@[i as int].answer,
        new.flashcards@[i as int].user_answer == s.flashcards@[i as int].user_answer,
        new.flashcards@[i as int].id == s.flashcards@[i as int].id,
        forall|j: int| 0 <= j < s.flashcards@.len() && j != i ==> new.flashcards@[j] == s.flashcards@[j],
        new.current_index == s.current_index,
        new.ai_last_evaluated_index == Some(i),
        !new.ai_evaluation_in_progress,
        s.session_id is None ==> store == FeedbackStorage::Nothing,
        store matches FeedbackStorage::UpdateFeedback { card_index, flashcard_id } ==> card_index == i
            && s.flashcards@[i as int].id == Some(flashcard_id),
        store matches FeedbackStorage::SaveAnswer { session_id, card_index } ==> card_index == i && s.session_id
            == Some(session_id),
{
}

/// A session assessment ends the wait for it: a received assessment is kept and any
/// earlier error dropped, a failure is kept as the error and no assessment shown; the
/// cards and the quiz's place are untouched and nothing is stored.
pub proof fn lemma_assessment_reply_kept(
    s: QuizSession,
    session_id: u64,
    result: Result<SessionAssessment, String>,
    new: QuizSession,
    store: FeedbackStorage,
)
    requires
        ai_response_step(s, AiResponse::SessionAssessment { session_id, result }, new, store),
    ensures
        !new.assessment_loading,
        store == FeedbackStorage::Nothing,
        new.flashcards == s.flashcards,
        new.current_index == s.current_index,
        result matches Ok(a) ==> new.session_assessment == Some(a) && new.assessment_error is None,
        result matches Err(e) ==> new.session_assessment is None && new.assessment_error == Some(e),
{
}

/// A failed evaluation lands on the card it names too: its verdict says the answer
/// is wrong and explains the error, and every other card is unchanged.
pub proof fn lemma_error_lands_on_named_card(
    s: QuizSession,
    i: usize,
    error: String,
    new: QuizSession,
    store: FeedbackStorage,
)
    requires
        ai_response_ok(s, AiResponse::Error { flashcard_index: i, error }),
        ai_response_step(s, AiResponse::Error { flashcard_index: i, error }, new, store),
    ensures
        new.flashcards@.len() == s.flashcards@.len(),
        new.flashcards@[i as int].ai_feedback matches Some(f) && !f.is_correct && f.explanation@ == error_explanation(
            error@,
        ),
        forall|j: int| 0 <= j < s.flashcards@.len() && j != i ==> new.flashcards@[j] == s.flashcards@[j],
        new.current_index == s.current_index,
        new.last_ai_error == Some(error),
{
    let mid = QuizSession { ai_evaluation_in_progress: false, last_ai_error: Some(error), ..s };
    let f = choose|f: AIFeedback| {
        &&& #[trigger] feedback_recorded(mid, i as int, f, new, store)
        &&& !f.is_correct
        &&& f.correctness_score_bits == 0
        &&& f.corrections@.len() == 0
        &&& f.explanation@ == error_explanation(error@)
        &&& f.suggestions@.len() == 0
    };
    assert(feedback_recorded(mid, i as int, f, new, store));
}

/// `new` is `s` with verdict `f` on card `idx`; `store` says how to store it: update the
/// stored card if it has an id, else store the answer if it was not yet written.
pub open spec fn feedback_recorded(s: QuizSession, idx: int, f: AIFeedback, new: QuizSession, store: FeedbackStorage) -> bool {
    let card = s.flashcards@[idx];
    &&& new.flashcards@ == s.flashcards@.update(idx, Flashcard { ai_feedback: Some(f), ..card })
    &&& new == QuizSession { flashcards: new.flashcards, ..s }
    &&& store == match s.session_id {
        None => FeedbackStorage::Nothing,
        Some(sid) => match card.id {
            Some(fid) => FeedbackStorage::UpdateFeedback { card_index: idx as usize, flashcard_id: fid },
            None => if !card.written_to_file {
                FeedbackStorage::SaveAnswer { session_id: sid, card_index: idx as usize }
            } else {
                FeedbackStorage::Nothing
            },
        },
    }
}

fn blank_str(s: &String) -> (res: bool)
    ensures
        res == is_blank(s@),
{
    let chars = chars_of(s.as_str());
    let n = chars.len();
    let mut k: usize = 0;
    while k < n
        invariant
            n == chars@.len(),
            chars@ == s@,
            k <= n,
            forall|i: int| 0 <= i < k ==> crate::text::is_ws(#[trigger] chars@[i]),
        decreases n - k,
    {
        if !is_whitespace(chars[k]) {
            return false;
        }
        k = k + 1;
    }
    true
}

fn error_text(error: &String) -> (res: String)
    ensures
        res@ == error_explanation(error@),
{
    let mut out: Vec<char> = Vec::new();
    out.push('E');
    out.push('r');
    out.push('r');
    out.push('o');
    out.push('r');
    out.push(':');
    out.push(' ');
    let chars = chars_of(error.as_str());
    crate::text::append_range(&mut out, &chars, 0, chars.len());
    proof {
        assert(chars@.subrange(0, chars@.len() as int) =~= chars@);
        assert(out@ =~= error_explanation(error@));
    }
    crate::text::string_from_chars(&out)
}


/// Resuming opens at the first unanswered card: every card before it is answered,
/// and it is unanswered unless every card is, in which case it is the last card.
pub proof fn lemma_resume_index(cards: Seq<Flashcard>)
    requires
        cards.len() > 0,
    ensures
        0 <= resume_index(cards) < cards.len(),
        forall|i: int| 0 <= i < resume_index(cards) ==> (#[trigger] cards[i]).user_answer is Some,
        cards[resume_index(cards)].user_answer is None || (resume_index(cards) == cards.len() - 1
            && forall|i: int| 0 <= i < cards.len() ==> (#[trigger] cards[i]).user_answer is Some),
{
    lemma_first_unanswered(cards, 0);
}

proof fn lemma_first_unanswered(cards: Seq<Flashcard>, i: int)
    requires
        0 <= i <= cards.len(),
        forall|q: int| 0 <= q < i ==> (#[trigger] cards[q]).user_answer is Some,
    ensures
        i <= first_unanswered(cards, i) <= cards.len(),
        forall|q: int| 0 <= q < first_unanswered(cards, i) ==> (#[trigger] cards[q]).user_answer is Some,
        first_unanswered(cards, i) < cards.len() ==> cards[first_unanswered(cards, i)].user_answer is None,
    decreases cards.len() - i,
{
    if i < cards.len() && cards[i].user_answer is Some {
        lemma_first_unanswered(cards, i + 1);
    }
}

/// A resumed session with cards satisfies the quiz's invariant, which every key press
/// keeps (`lemma_key_keeps_wf`).
pub proof fn lemma_resumed_session_wf(cards: Seq<Flashcard>, s: QuizSession)
    requires
        cards.len() > 0,
        s.flashcards@ == cards,
        s.current_index == resume_index(cards),
        s.cursor_position <= byte_len(s.input_buffer@),
        is_char_start(s.input_buffer@, s.cursor_position as int),
    ensures
        quiz_wf(s),
{
    lemma_resume_index(cards);
}

/// Pasting one character at the answer being typed is typing it.
pub proof fn lemma_paste_is_typing(s: QuizSession, c: char, new: QuizSession, app: AppState)
    requires
        !s.showing_answer,
        pasted(s, seq![c], new),
    ensures
        quiz_key_step(s, app, KeyPress { key: Key::Char(c), ctrl: false }, new, app, QuizEffect::Nothing),
{
    let t = seq![c];
    let buf = s.input_buffer@;
    let cur = s.cursor_position as int;
    assert(t.drop_last() =~= Seq::<char>::empty());
    assert(t.last() == c);
    assert(paste_state(buf, cur, t.drop_last()) == (buf, cur));
    assert(paste_state(buf, cur, t) == (buf.insert(char_index_at_byte(buf, cur), c), cur + utf8_len(c)));
    let k = KeyPress { key: Key::Char(c), ctrl: false };
    assert(k.key != Key::Esc && k.key != Key::Down && k.key != Key::Up && k.key != Key::Enter);
    assert(k.key != Key::Left && k.key != Key::Right && k.key != Key::Backspace);
}

/// Whether `handle_quiz_input` may be called with `key` (see `quiz_input_ok`).
pub fn quiz_input_allowed(session: &QuizSession, key: KeyPress) -> (res: bool)
    ensures
        res == quiz_input_ok(*session, key),
{
    let len = session.flashcards.len();
    let idx = session.current_index;
    if key.key == Key::Up && idx > 0 && idx - 1 >= len {
        return false;
    }
    if session.showing_answer {
        if key.key == Key::Char('e') && key.ctrl && session.ai_enabled {
            let same = match session.ai_last_evaluated_index {
                Some(i) => i == idx,
                None => false,
            };
            if !same && idx >= len {
                return false;
            }
        }
        return true;
    }
    let is_char = match key.key {
        Key::Char(_) => true,
        _ => false,
    };
    if key.key == Key::Enter && !key.ctrl && !blank_str(&session.input_buffer) {
        if !(idx < len && session.questions_answered < usize::MAX) {
            return false;
        }
    }
    let chars = chars_of(session.input_buffer.as_str());
    if key.key == Key::Enter && key.ctrl {
        if !(char_starts_at(&chars, session.cursor_position) && session.cursor_position < usize::MAX) {
            return false;
        }
    }
    if let Key::Char(c) = key.key {
        if !(char_starts_at(&chars, session.cursor_position) && char_utf8_len(c) <= usize::MAX
            - session.cursor_position) {
            return false;
        }
    }
    if key.key == Key::Right && !byte_len_at_most(&chars, session.cursor_position) {
        if !byte_len_at_most(&chars, usize::MAX) {
            return false;
        }
    }
    if key.key == Key::Backspace && session.cursor_position > 0 {
        let b = session.cursor_position - 1;
        if byte_len_at_most(&chars, b) {
            return false;
        }
    }
    true
}

/// The input and cursor after the characters of `t` are typed one by one at cursor
/// `cur` of input `buf`, the cursor moving past each character typed.
pub open spec fn paste_state(buf: Seq<char>, cur: int, t: Seq<char>) -> (Seq<char>, int)
    decreases t.len(),
{
    if t.len() == 0 {
        (buf, cur)
    } else {
        let p = paste_state(buf, cur, t.drop_last());
        (p.0.insert(char_index_at_byte(p.0, p.1), t.last()), p.1 + utf8_len(t.last()))
    }
}

/// Each character of `t` is typed where a character of the input so far starts.
pub open spec fn paste_ok(buf: Seq<char>, cur: int, t: Seq<char>) -> bool
    decreases t.len(),
{
    if t.len() == 0 {
        true
    } else {
        let p = paste_state(buf, cur, t.drop_last());
        &&& paste_ok(buf, cur, t.drop_last())
        &&& is_char_start(p.0, p.1)
        &&& p.1 + utf8_len(t.last()) <= usize::MAX
    }
}

pub proof fn lemma_paste_ok_prefix(buf: Seq<char>, cur: int, t: Seq<char>, j: int)
    requires
        paste_ok(buf, cur, t),
        0 <= j <= t.len(),
    ensures
        paste_ok(buf, cur, t.take(j)),
    decreases t.len(),
{
    if j == t.len() {
        assert(t.take(j) =~= t);
    } else {
        lemma_paste_ok_prefix(buf, cur, t.drop_last(), j);
        assert(t.drop_last().take(j) =~= t.take(j));
    }
}

/// `new` is `s` after `t` was pasted: typed into the input unless the answer is shown.
pub open spec fn pasted(s: QuizSession, t: Seq<char>, new: QuizSession) -> bool {
    if s.showing_answer {
        new == s
    } else {
        let p = paste_state(s.input_buffer@, s.cursor_position as int, t);
        &&& new.input_buffer@ == p.0
        &&& new == QuizSession { input_buffer: new.input_buffer, cursor_position: p.1 as usize, ..s }
    }
}

/// Checks a step of a paste of `c` into `buf` at `cur`.
fn paste_step_ok(buf: &String, cur: usize, c: char) -> (res: bool)
    ensures
        res == (is_char_start(buf@, cur as int) && cur + utf8_len(c) <= usize::MAX),
{
    let chars = chars_of(buf.as_str());
    char_starts_at(&chars, cur) && char_utf8_len(c) <= usize::MAX - cur
}

/// The quiz timing out an evaluation says so, and how to retry.
pub open spec fn timeout_message() -> Seq<char> {
    "AI evaluation timed out - press Ctrl+E to retry"@
}

/// More than thirty seconds, given as whole seconds and nanoseconds.
pub open spec fn over_thirty_seconds(secs: u64, nanos: u32) -> bool {
    secs > 30 || (secs == 30 && nanos > 0)
}

/// An evaluation is running and has run for longer than thirty seconds.
pub open spec fn evaluation_timed_out(s: QuizSession, elapsed: Option<(u64, u32)>) -> bool {
    s.ai_evaluation_in_progress && match elapsed {
        Some(e) => over_thirty_seconds(e.0, e.1),
        None => false,
    }
}

/// `new` is `s` after giving up on its evaluation.
pub open spec fn timed_out_step(s: QuizSession, new: QuizSession) -> bool {
    &&& new == QuizSession { ai_evaluation_in_progress: false, last_ai_error: new.last_ai_error, ..s }
    &&& new.last_ai_error matches Some(m) && m@ == timeout_message()
}

/// A card as the session assessment sees it: question, answer, the user's answer and
/// the verdict.
pub type CardSnapshot = (String, String, Option<String>, Option<AIFeedback>);

pub open spec fn feedback_view(f: AIFeedback) -> (bool, u32, Seq<String>, Seq<char>, Seq<String>) {
    (f.is_correct, f.correctness_score_bits, f.corrections@, f.explanation@, f.suggestions@)
}

pub open spec fn opt_feedback_view(f: Option<AIFeedback>) -> Option<(bool, u32, Seq<String>, Seq<char>, Seq<String>)> {
    match f {
        Some(x) => Some(feedback_view(x)),
        None => None,
    }
}

/// The snapshot taken of card `c`.
pub open spec fn snapshot_of(t: CardSnapshot, c: Flashcard) -> bool {
    &&& t.0 == c.question
    &&& t.1 == c.answer
    &&& t.2 == c.user_answer
    &&& opt_feedback_view(t.3) == opt_feedback_view(c.ai_feedback)
}

/// `req` asks for the assessment of session `s`: its id, its deck, and a snapshot of
/// every card in order.
pub open spec fn assessment_request_of(s: QuizSession, req: AiRequest) -> bool {
    match req {
        AiRequest::EvaluateSession { session_id, deck_name, flashcards } => {
            &&& s.session_id == Some(session_id)
            &&& deck_name == s.deck_name
            &&& flashcards@.len() == s.flashcards@.len()
            &&& forall|i: int| 0 <= i < flashcards@.len() ==> snapshot_of(#[trigger] flashcards@[i], s.flashcards@[i])
        },
        _ => false,
    }
}

/// `req` is a request for the assessment of `s`.
pub open spec fn assessment_requested(s: QuizSession, req: Option<AiRequest>) -> bool {
    match req {
        Some(r) => assessment_request_of(s, r),
        None => false,
    }
}

/// The assessment is asked for on the summary screen and not answered yet.
pub open spec fn assessment_pending(s: QuizSession) -> bool {
    s.assessment_loading && s.session_assessment is None && s.assessment_error is None && s.session_id is Some
}

/// Index of the first card at or after `i` without an answer, or the number of cards.
pub open spec fn first_unanswered(cards: Seq<Flashcard>, i: int) -> int
    decreases cards.len() - i,
{
    if i < 0 || i >= cards.len() {
        cards.len() as int
    } else if cards[i].user_answer is None {
        i
    } else {
        first_unanswered(cards, i + 1)
    }
}

/// Where a resumed session opens: the first unanswered card, or the last card if all
/// are answered.
pub open spec fn resume_index(cards: Seq<Flashcard>) -> int {
    let f = first_unanswered(cards, 0);
    if f < cards.len() {
        f
    } else if cards.len() > 0 {
        cards.len() - 1
    } else {
        0
    }
}

fn copy_feedback(f: &AIFeedback) -> (r: AIFeedback)
    ensures
        feedback_view(r) == feedback_view(*f),
{
    let corrections = f.corrections.clone();
    let suggestions = f.suggestions.clone();
    proof {
        assert(corrections@ =~= f.corrections@) by {
            assert forall|i: int| 0 <= i < corrections@.len() implies corrections@[i] == f.corrections@[i] by {
                assert(vstd::pervasive::cloned::<String>(f.corrections[i], corrections[i]));
            }
        }
        assert(suggestions@ =~= f.suggestions@) by {
            assert forall|i: int| 0 <= i < suggestions@.len() implies suggestions@[i] == f.suggestions@[i] by {
                assert(vstd::pervasive::cloned::<String>(f.suggestions[i], suggestions[i]));
            }
        }
    }
    AIFeedback {
        is_correct: f.is_correct,
        correctness_score_bits: f.correctness_score_bits,
        corrections,
        explanation: f.explanation.clone(),
        suggestions,
    }
}

fn snapshot(c: &Flashcard) -> (t: CardSnapshot)
    ensures
        snapshot_of(t, *c),
{
    let user_answer = match &c.user_answer {
        Some(a) => Some(a.clone()),
        None => None,
    };
    let feedback = match &c.ai_feedback {
        Some(f) => Some(copy_feedback(f)),
        None => None,
    };
    (c.question.clone(), c.answer.clone(), user_answer, feedback)
}

impl QuizSession {
    /// A new quiz on `flashcards`, stored as session `session_id`: the first card, an
    /// empty answer, nothing answered or evaluated yet.
    pub fn start(flashcards: Vec<Flashcard>, deck_name: String, session_id: u64, ai_enabled: bool) -> (s: QuizSession)
        ensures
            s.flashcards@ == flashcards@,
            s.deck_name == deck_name,
            s.session_id == Some(session_id),
            s.questions_total == flashcards@.len(),
            s.ai_enabled == ai_enabled,
            s == QuizSession::opened(s.flashcards, deck_name, session_id, s.questions_total, 0, ai_enabled, 0, false, s.input_buffer, 0),
            s.input_buffer@ == Seq::<char>::empty(),
    {
        let questions_total = flashcards.len();
        QuizSession {
            flashcards,
            current_index: 0,
            deck_name,
            showing_answer: false,
            input_buffer: String::new(),
            cursor_position: 0,
            session_id: Some(session_id),
            questions_total,
            questions_answered: 0,
            ai_enabled,
            ai_evaluation_in_progress: false,
            ai_last_evaluated_index: None,
            last_ai_error: None,
            input_scroll_y: 0,
            feedback_scroll_y: 0,
            session_assessment: None,
            assessment_loading: false,
            assessment_error: None,
            assessment_scroll_y: 0,
        }
    }

    /// A session as it opens, with nothing evaluated, scrolled or assessed yet.
    pub open spec fn opened(
        flashcards: Vec<Flashcard>,
        deck_name: String,
        session_id: u64,
        questions_total: usize,
        questions_answered: usize,
        ai_enabled: bool,
        current_index: usize,
        showing_answer: bool,
        input_buffer: String,
        cursor_position: usize,
    ) -> QuizSession {
        QuizSession {
            flashcards,
            current_index,
            deck_name,
            showing_answer,
            input_buffer,
            cursor_position,
            session_id: Some(session_id),
            questions_total,
            questions_answered,
            ai_enabled,
            ai_evaluation_in_progress: false,
            ai_last_evaluated_index: None,
            last_ai_error: None,
            input_scroll_y: 0,
            feedback_scroll_y: 0,
            session_assessment: None,
            assessment_loading: false,
            assessment_error: None,
            assessment_scroll_y: 0,
        }
    }

    /// Reopens stored session `session_id` on its cards: at the first unanswered card
    /// with an empty answer, or, when every card is answered, at the last one showing
    /// its answer, the answer in the input and the cursor after it.
    pub fn resume(
        flashcards: Vec<Flashcard>,
        deck_name: String,
        session_id: u64,
        questions_total: usize,
        questions_answered: usize,
        ai_enabled: bool,
    ) -> (s: QuizSession)
        ensures
            s.flashcards@ == flashcards@,
            s.current_index == resume_index(flashcards@),
            s.showing_answer == (resume_index(flashcards@) < flashcards@.len()
                && flashcards@[resume_index(flashcards@)].user_answer is Some),
            s.showing_answer ==> s.input_buffer == flashcards@[resume_index(flashcards@)].user_answer->0,
            !s.showing_answer ==> s.input_buffer@ == Seq::<char>::empty() && s.cursor_position == 0,
            s.showing_answer && byte_len(s.input_buffer@) <= usize::MAX ==> s.cursor_position == byte_len(s.input_buffer@),
            s.cursor_position <= byte_len(s.input_buffer@),
            s == QuizSession::opened(
                s.flashcards,
                deck_name,
                session_id,
                questions_total,
                questions_answered,
                ai_enabled,
                s.current_index,
                s.showing_answer,
                s.input_buffer,
                s.cursor_position,
            ),
    {
        let n = flashcards.len();
        let mut i: usize = 0;
        while i < n && flashcards[i].user_answer.is_some()
            invariant
                i <= n,
                n == flashcards@.len(),
                first_unanswered(flashcards@, i as int) == first_unanswered(flashcards@, 0),
            decreases n - i,
        {
            i = i + 1;
        }
        let idx = if i < n {
            i
        } else if n > 0 {
            n - 1
        } else {
            0
        };
        let mut showing_answer = false;
        let mut input_buffer = String::new();
        let mut cursor_position: usize = 0;
        if idx < n {
            if let Some(a) = &flashcards[idx].user_answer {
                showing_answer = true;
                input_buffer = a.clone();
                let chars = chars_of(input_buffer.as_str());
                cursor_position = match byte_len_upto(&chars, usize::MAX) {
                    Some(l) => l,
                    None => 0,
                };
            }
        }
        QuizSession {
            flashcards,
            current_index: idx,
            deck_name,
            showing_answer,
            input_buffer,
            cursor_position,
            session_id: Some(session_id),
            questions_total,
            questions_answered,
            ai_enabled,
            ai_evaluation_in_progress: false,
            ai_last_evaluated_index: None,
            last_ai_error: None,
            input_scroll_y: 0,
            feedback_scroll_y: 0,
            session_assessment: None,
            assessment_loading: false,
            assessment_error: None,
            assessment_scroll_y: 0,
        }
    }

    /// Whether `paste` may be called with `text` (see `paste_ok`).
    pub fn paste_allowed(&self, text: &str) -> (res: bool)
        ensures
            res == (!self.showing_answer ==> paste_ok(self.input_buffer@, self.cursor_position as int, text@)),
    {
        if self.showing_answer {
            return true;
        }
        let chars = chars_of(text);
        let ghost b0 = self.input_buffer@;
        let ghost c0 = self.cursor_position as int;
        let n = chars.len();
        let mut buf = self.input_buffer.clone();
        let mut cur = self.cursor_position;
        let mut k: usize = 0;
        proof {
            assert(chars@.take(0) =~= Seq::<char>::empty());
        }
        while k < n
            invariant
                k <= n,
                n == chars@.len(),
                chars@ == text@,
                b0 == self.input_buffer@,
                c0 == self.cursor_position as int,
                !self.showing_answer,
                paste_ok(b0, c0, chars@.take(k as int)),
                buf@ == paste_state(b0, c0, chars@.take(k as int)).0,
                cur == paste_state(b0, c0, chars@.take(k as int)).1,
            decreases n - k,
        {
            proof {
                assert(chars@.take(k + 1).drop_last() =~= chars@.take(k as int));
            }
            if !paste_step_ok(&buf, cur, chars[k]) {
                proof {
                    let t1 = chars@.take(k + 1);
                    assert(t1.len() == k + 1);
                    assert(t1.drop_last() =~= chars@.take(k as int));
                    if paste_ok(b0, c0, chars@) {
                        lemma_paste_ok_prefix(b0, c0, chars@, k + 1);
                        assert(paste_ok(b0, c0, t1));
                        assert(t1.last() == chars@[k as int]);
                        assert(false);
                    }
                }
                return false;
            }
            proof {
                assert(chars@.take(k + 1).last() == chars@[k as int]);
            }
            buf = insert_at_byte(&buf, cur, chars[k]);
            cur = cur + char_utf8_len(chars[k]);
            k = k + 1;
        }
        proof {
            assert(chars@.take(n as int) =~= chars@);
        }
        true
    }

    /// Pastes `text` into the answer being typed, character by character at the cursor
    /// (the cursor moving past each character); ignored on the answer screen.
    pub fn paste(&mut self, text: &str)
        requires
            !old(self).showing_answer ==> paste_ok(old(self).input_buffer@, old(self).cursor_position as int, text@),
        ensures
            pasted(*old(self), text@, *final(self)),
    {
        if self.showing_answer {
            return;
        }
        let chars = chars_of(text);
        let ghost s0 = *self;
        let ghost b0 = self.input_buffer@;
        let ghost c0 = self.cursor_position as int;
        let n = chars.len();
        let mut k: usize = 0;
        proof {
            assert(chars@.take(0) =~= Seq::<char>::empty());
        }
        while k < n
            invariant
                k <= n,
                n == chars@.len(),
                chars@ == text@,
                b0 == s0.input_buffer@,
                c0 == s0.cursor_position,
                paste_ok(b0, c0, chars@),
                self.input_buffer@ == paste_state(b0, c0, chars@.take(k as int)).0,
                self.cursor_position == paste_state(b0, c0, chars@.take(k as int)).1,
                *self == (QuizSession { input_buffer: self.input_buffer, cursor_position: self.cursor_position, ..s0 }),
            decreases n - k,
        {
            proof {
                assert(chars@.take(k + 1).drop_last() =~= chars@.take(k as int));
                lemma_paste_ok_prefix(b0, c0, chars@, k + 1);
            }
            proof {
                assert(chars@.take(k + 1).last() == chars@[k as int]);
            }
            let buf = insert_at_byte(&self.input_buffer, self.cursor_position, chars[k]);
            self.input_buffer = buf;
            self.cursor_position = self.cursor_position + char_utf8_len(chars[k]);
            k = k + 1;
        }
        proof {
            assert(chars@.take(n as int) =~= chars@);
        }
    }

    /// Gives up on an evaluation that has run for more than thirty seconds (`elapsed`
    /// is the time since it was asked for, in whole seconds and nanoseconds): it is
    /// no longer in progress and the error says so. Says whether it gave up.
    pub fn expire_ai_evaluation(&mut self, elapsed: Option<(u64, u32)>) -> (expired: bool)
        ensures
            expired == evaluation_timed_out(*old(self), elapsed),
            expired ==> timed_out_step(*old(self), *final(self)),
            !expired ==> *final(self) == *old(self),
    {
        if !self.ai_evaluation_in_progress {
            return false;
        }
        match elapsed {
            Some((secs, nanos)) => {
                if secs > 30 || (secs == 30 && nanos > 0) {
                    self.last_ai_error = Some("AI evaluation timed out - press Ctrl+E to retry".to_owned());
                    self.ai_evaluation_in_progress = false;
                    true
                } else {
                    false
                }
            },
            None => false,
        }
    }

    /// The request for this session's assessment: its id, deck and a snapshot of every
    /// card. `None` for a session that is not stored.
    pub fn assessment_request(&self) -> (req: Option<AiRequest>)
        ensures
            self.session_id is None ==> req is None,
            self.session_id is Some ==> assessment_requested(*self, req),
    {
        match self.session_id {
            None => None,
            Some(session_id) => {
                let n = self.flashcards.len();
                let mut cards: Vec<CardSnapshot> = Vec::new();
                let mut k: usize = 0;
                while k < n
                    invariant
                        k <= n,
                        n == self.flashcards@.len(),
                        cards@.len() == k,
                        forall|i: int| 0 <= i < k ==> snapshot_of(#[trigger] cards@[i], self.flashcards@[i]),
                    decreases n - k,
                {
                    cards.push(snapshot(&self.flashcards[k]));
                    k = k + 1;
                }
                Some(AiRequest::EvaluateSession { session_id, deck_name: self.deck_name.clone(), flashcards: cards })
            },
        }
    }

    /// On the summary screen: the request to send while the assessment is asked for and
    /// not yet answered (see `assessment_pending`).
    pub fn pending_assessment_request(&self) -> (req: Option<AiRequest>)
        ensures
            !assessment_pending(*self) ==> req is None,
            assessment_pending(*self) ==> assessment_requested(*self, req),
    {
        if self.assessment_loading && self.session_assessment.is_none() && self.assessment_error.is_none() {
            self.assessment_request()
        } else {
            None
        }
    }

    /// Asks again for the assessment (r on the summary) when there is none or it
    /// failed: loading again, the error cleared, and the request for a stored session.
    pub fn retry_assessment(&mut self) -> (req: Option<AiRequest>)
        ensures
            (old(self).session_assessment is None || old(self).assessment_error is Some) ==> {
                &&& *final(self) == QuizSession { assessment_loading: true, assessment_error: None, ..*old(self) }
                &&& old(self).session_id is None ==> req is None
                &&& old(self).session_id is Some ==> assessment_requested(*final(self), req)
            },
            !(old(self).session_assessment is None || old(self).assessment_error is Some) ==> {
                *final(self) == *old(self) && req is None
            },
    {
        if self.session_assessment.is_none() || self.assessment_error.is_some() {
            self.assessment_loading = true;
            self.assessment_error = None;
            self.assessment_request()
        } else {
            None
        }
    }
}

} // verus!
