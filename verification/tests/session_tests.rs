use interactive_flashcards::models::{
    AIEvaluationResult, AIFeedback, AiRequest, AiResponse, AppState, Flashcard, SessionAssessment,
};
use interactive_flashcards::session::{handle_quiz_input, quiz_input_allowed, FeedbackStorage, Key, KeyPress, QuizEffect, QuizSession};

fn card(question: &str, answer: &str, user_answer: Option<&str>) -> Flashcard {
    Flashcard {
        question: question.to_string(),
        answer: answer.to_string(),
        user_answer: user_answer.map(|s| s.to_string()),
        ai_feedback: None,
        written_to_file: false,
        id: None,
    }
}

fn session(cards: Vec<Flashcard>, showing_answer: bool, input: &str, cursor: usize, ai_enabled: bool) -> QuizSession {
    let total = cards.len();
    QuizSession {
        flashcards: cards,
        current_index: 0,
        deck_name: "Test".to_string(),
        showing_answer,
        input_buffer: input.to_string(),
        cursor_position: cursor,
        session_id: None,
        questions_total: total,
        questions_answered: 0,
        ai_enabled,
        ai_evaluation_in_progress: false,
        ai_last_evaluated_index: None,
        last_ai_error: None,
        input_scroll_y: 0,
        feedback_scroll_y: 0,
        session_assessment: None,
        assessment_loading: false,
        assessment_error: None,
        assessment_scroll_y: 0,
    }
}

fn key(k: Key) -> KeyPress {
    KeyPress { key: k, ctrl: false }
}

fn ctrl(k: Key) -> KeyPress {
    KeyPress { key: k, ctrl: true }
}

fn press(s: &mut QuizSession, k: KeyPress, app: &mut AppState) -> QuizEffect {
    assert!(quiz_input_allowed(s, k));
    handle_quiz_input(s, k, app)
}

fn feedback(score: f32, explanation: &str) -> AIFeedback {
    AIFeedback {
        is_correct: score >= 0.7,
        correctness_score_bits: score.to_bits(),
        corrections: vec![],
        explanation: explanation.to_string(),
        suggestions: vec![],
    }
}

#[test]
fn file_io_test_saturating_sub_index_bounds() {
    let cards_len: usize = 1;
    let current_index: usize = 0;
    assert_eq!(current_index.saturating_sub(1), 0);
    assert_eq!(cards_len.saturating_sub(1), 0);
}

#[test]
fn session_test_saturating_sub_index_bounds() {
    let cards_len: usize = 1;
    let current_index: usize = 0;
    assert_eq!(current_index.saturating_sub(1), 0);
    assert_eq!(cards_len.saturating_sub(1), 0);
}

#[test]
fn file_io_test_answer_submission_non_empty() {
    let input_buffer = String::from("My Answer");
    let mut user_answer: Option<String> = None;
    if !input_buffer.trim().is_empty() {
        user_answer = Some(input_buffer.clone());
    }
    assert_eq!(user_answer, Some("My Answer".to_string()));
}

#[test]
fn session_test_answer_submission_non_empty() {
    let mut s = session(vec![card("Q?", "A", None)], false, "My Answer", 9, false);
    let mut app = AppState::Quiz;
    press(&mut s, key(Key::Enter), &mut app);
    assert_eq!(s.flashcards[0].user_answer, Some("My Answer".to_string()));
}

#[test]
fn file_io_test_answer_submission_empty() {
    let input_buffer = String::from("   ");
    let mut user_answer: Option<String> = None;
    if !input_buffer.trim().is_empty() {
        user_answer = Some(input_buffer.clone());
    }
    assert!(user_answer.is_none());
}

#[test]
fn session_test_answer_submission_empty() {
    let mut s = session(vec![card("Q?", "A", None)], false, "   ", 3, false);
    let mut app = AppState::Quiz;
    press(&mut s, key(Key::Enter), &mut app);
    assert!(s.flashcards[0].user_answer.is_none());
    assert!(!s.showing_answer);
}

#[test]
fn file_io_test_input_buffer_backspace() {
    let mut buffer = String::from("Hello");
    buffer.pop();
    assert_eq!(buffer, "Hell");
    buffer.pop();
    buffer.pop();
    assert_eq!(buffer, "He");
    buffer.pop();
    buffer.pop();
    buffer.pop();
    assert!(buffer.is_empty());
    buffer.pop();
    assert!(buffer.is_empty());
}

#[test]
fn session_test_input_buffer_backspace() {
    let mut s = session(vec![card("Q?", "A", None)], false, "Hello", 5, false);
    let mut app = AppState::Quiz;
    press(&mut s, key(Key::Backspace), &mut app);
    assert_eq!(s.input_buffer, "Hell");
    press(&mut s, key(Key::Backspace), &mut app);
    press(&mut s, key(Key::Backspace), &mut app);
    assert_eq!(s.input_buffer, "He");
    press(&mut s, key(Key::Backspace), &mut app);
    press(&mut s, key(Key::Backspace), &mut app);
    press(&mut s, key(Key::Backspace), &mut app);
    assert!(s.input_buffer.is_empty());
    press(&mut s, key(Key::Backspace), &mut app);
    assert!(s.input_buffer.is_empty());
}

#[test]
fn test_input_buffer_backspace_basic() {
    let mut s = session(vec![card("Q?", "A", None)], false, "Hello", 5, false);
    let mut app = AppState::Quiz;
    for expected in ["Hell", "Hel", "He", "H", ""] {
        press(&mut s, key(Key::Backspace), &mut app);
        assert_eq!(s.input_buffer, expected);
    }
}

#[test]
fn test_can_type_r_and_c_in_answers() {
    let mut s = session(vec![card("Test?", "Answer", None)], false, "", 0, false);
    let mut app = AppState::Quiz;
    press(&mut s, key(Key::Char('r')), &mut app);
    assert_eq!(s.input_buffer, "r");
    press(&mut s, key(Key::Char('c')), &mut app);
    assert_eq!(s.input_buffer, "rc");
    press(&mut s, key(Key::Char('R')), &mut app);
    assert_eq!(s.input_buffer, "rcR");
    press(&mut s, key(Key::Char('C')), &mut app);
    assert_eq!(s.input_buffer, "rcRC");
}

#[test]
fn test_ctrl_e_triggers_ai_evaluation() {
    let mut s = session(vec![card("Test?", "Answer", Some("test answer"))], true, "", 0, true);
    s.questions_answered = 1;
    let mut app = AppState::Quiz;
    let eff = press(&mut s, ctrl(Key::Char('e')), &mut app);
    assert!(s.ai_evaluation_in_progress);
    assert!(s.last_ai_error.is_none());
    match eff {
        QuizEffect::RequestAi(AiRequest::Evaluate { flashcard_index, question, correct_answer, user_answer }) => {
            assert_eq!(flashcard_index, 0);
            assert_eq!(question, "Test?");
            assert_eq!(correct_answer, "Answer");
            assert_eq!(user_answer, "test answer");
        }
        _ => panic!("expected an evaluation request"),
    }
}

#[test]
fn test_ctrl_x_cancels_ai_evaluation() {
    let mut s = session(vec![card("Test?", "Answer", Some("test answer"))], true, "", 0, true);
    s.ai_evaluation_in_progress = true;
    let mut app = AppState::Quiz;
    press(&mut s, ctrl(Key::Char('x')), &mut app);
    assert!(!s.ai_evaluation_in_progress);
    assert_eq!(s.last_ai_error, Some("Evaluation cancelled".to_string()));
}

#[test]
fn test_ctrl_e_x_without_ctrl_modifier_allows_typing() {
    let mut s = session(vec![card("Test?", "Answer", None)], false, "", 0, true);
    let mut app = AppState::Quiz;
    press(&mut s, key(Key::Char('e')), &mut app);
    assert_eq!(s.input_buffer, "e");
    press(&mut s, key(Key::Char('x')), &mut app);
    assert_eq!(s.input_buffer, "ex");
}

#[test]
fn test_ai_commands_only_work_when_enabled() {
    let mut s = session(vec![card("Test?", "Answer", Some("test answer"))], true, "", 0, false);
    let mut app = AppState::Quiz;
    press(&mut s, ctrl(Key::Char('e')), &mut app);
    assert!(!s.ai_evaluation_in_progress);
}

#[test]
fn test_ctrl_x_only_works_during_evaluation() {
    let mut s = session(vec![card("Test?", "Answer", Some("test answer"))], true, "", 0, true);
    let mut app = AppState::Quiz;
    press(&mut s, ctrl(Key::Char('x')), &mut app);
    assert!(!s.ai_evaluation_in_progress);
    assert!(s.last_ai_error.is_none());
}

#[test]
fn test_cursor_left_right_movement() {
    let mut s = session(vec![card("Test?", "Answer", None)], false, "Hello", 5, false);
    let mut app = AppState::Quiz;
    press(&mut s, key(Key::Left), &mut app);
    assert_eq!(s.cursor_position, 4);
    press(&mut s, key(Key::Left), &mut app);
    assert_eq!(s.cursor_position, 3);
    press(&mut s, key(Key::Right), &mut app);
    assert_eq!(s.cursor_position, 4);
    for _ in 0..10 {
        press(&mut s, key(Key::Left), &mut app);
    }
    assert_eq!(s.cursor_position, 0);
    for _ in 0..10 {
        press(&mut s, key(Key::Right), &mut app);
    }
    assert_eq!(s.cursor_position, 5);
}

#[test]
fn test_insert_character_at_cursor_position() {
    let mut s = session(vec![card("Test?", "Answer", None)], false, "Helo", 3, false);
    let mut app = AppState::Quiz;
    press(&mut s, key(Key::Char('l')), &mut app);
    assert_eq!(s.input_buffer, "Hello");
    assert_eq!(s.cursor_position, 4);
    s.cursor_position = 0;
    press(&mut s, key(Key::Char('W')), &mut app);
    assert_eq!(s.input_buffer, "WHello");
    assert_eq!(s.cursor_position, 1);
}

#[test]
fn test_backspace_deletes_at_cursor_position() {
    let mut s = session(vec![card("Test?", "Answer", None)], false, "Hello World", 5, false);
    let mut app = AppState::Quiz;
    press(&mut s, key(Key::Backspace), &mut app);
    assert_eq!(s.input_buffer, "Hell World");
    assert_eq!(s.cursor_position, 4);
    s.cursor_position = s.input_buffer.len();
    press(&mut s, key(Key::Backspace), &mut app);
    assert_eq!(s.input_buffer, "Hell Worl");
    assert_eq!(s.cursor_position, 9);
    s.cursor_position = 0;
    let buffer_before = s.input_buffer.clone();
    press(&mut s, key(Key::Backspace), &mut app);
    assert_eq!(s.input_buffer, buffer_before);
    assert_eq!(s.cursor_position, 0);
}

#[test]
fn test_ctrl_enter_inserts_newline() {
    let mut s = session(vec![card("Test?", "Answer", None)], false, "Hello", 5, false);
    let mut app = AppState::Quiz;
    press(&mut s, ctrl(Key::Enter), &mut app);
    assert_eq!(s.input_buffer, "Hello\n");
    assert_eq!(s.cursor_position, 6);
    assert!(!s.showing_answer);
}

#[test]
fn test_ctrl_enter_in_middle_of_text() {
    let mut s = session(vec![card("Test?", "Answer", None)], false, "Hello world", 5, false);
    let mut app = AppState::Quiz;
    press(&mut s, ctrl(Key::Enter), &mut app);
    assert_eq!(s.input_buffer, "Hello\n world");
    assert_eq!(s.cursor_position, 6);
}

#[test]
fn test_multiline_answer_submission() {
    let mut s = session(vec![card("Test?", "Answer", None)], false, "Line 1\nLine 2\nLine 3", 17, false);
    let mut app = AppState::Quiz;
    press(&mut s, key(Key::Enter), &mut app);
    assert_eq!(s.flashcards[0].user_answer, Some("Line 1\nLine 2\nLine 3".to_string()));
    assert!(s.showing_answer);
}

#[test]
fn test_cursor_position_on_question_navigation() {
    let mut s = session(vec![card("Q1?", "A1", Some("Answer1")), card("Q2?", "A2", Some("Answer2"))], false, "", 0, false);
    let mut app = AppState::Quiz;
    press(&mut s, key(Key::Down), &mut app);
    assert_eq!(s.current_index, 1);
    assert!(s.showing_answer);
    press(&mut s, key(Key::Up), &mut app);
    assert_eq!(s.current_index, 0);
    assert!(s.showing_answer);
}

#[test]
fn test_cursor_edge_cases() {
    let mut s = session(vec![card("Test?", "Answer", None)], false, "", 0, false);
    let mut app = AppState::Quiz;
    press(&mut s, key(Key::Left), &mut app);
    assert_eq!(s.cursor_position, 0);
    press(&mut s, key(Key::Right), &mut app);
    assert_eq!(s.cursor_position, 0);
    press(&mut s, key(Key::Char('H')), &mut app);
    assert_eq!(s.input_buffer, "H");
    assert_eq!(s.cursor_position, 1);
    s.cursor_position = 10;
    press(&mut s, key(Key::Left), &mut app);
    assert_eq!(s.cursor_position, 1);
    press(&mut s, key(Key::Backspace), &mut app);
    assert_eq!(s.input_buffer, "");
    assert_eq!(s.cursor_position, 0);
}

#[test]
fn test_navigation_shows_answer_screen_for_answered_questions() {
    let mut c1 = card("Q1?", "A1", Some("User A1"));
    c1.ai_feedback = Some(feedback(1.0, "Correct!"));
    let mut c3 = card("Q3?", "A3", Some("User A3"));
    c3.ai_feedback = Some(AIFeedback {
        is_correct: false,
        correctness_score_bits: 0.5f32.to_bits(),
        corrections: vec!["Correction".to_string()],
        explanation: "Partial".to_string(),
        suggestions: vec!["Suggestion".to_string()],
    });
    let mut s = session(vec![c1, card("Q2?", "A2", None), c3], true, "", 0, true);
    s.questions_answered = 2;
    let mut app = AppState::Quiz;
    press(&mut s, key(Key::Down), &mut app);
    assert_eq!(s.current_index, 1);
    assert!(!s.showing_answer);
    assert_eq!(s.input_buffer, "");
    assert_eq!(s.cursor_position, 0);
    press(&mut s, key(Key::Down), &mut app);
    assert_eq!(s.current_index, 2);
    assert!(s.showing_answer);
    press(&mut s, key(Key::Up), &mut app);
    assert_eq!(s.current_index, 1);
    assert!(!s.showing_answer);
    assert_eq!(s.input_buffer, "");
    press(&mut s, key(Key::Up), &mut app);
    assert_eq!(s.current_index, 0);
    assert!(s.showing_answer);
}

#[test]
fn esc_asks_to_quit_and_enter_on_last_answer_opens_summary() {
    let mut s = session(vec![card("Q?", "A", Some("a"))], true, "", 0, false);
    let mut app = AppState::Quiz;
    press(&mut s, key(Key::Esc), &mut app);
    assert_eq!(app, AppState::QuizQuitConfirm);
    let mut app = AppState::Quiz;
    press(&mut s, key(Key::Enter), &mut app);
    assert_eq!(app, AppState::Summary);
    assert!(s.assessment_loading);
}

#[test]
fn stored_session_submission_leaves_saving_to_the_caller() {
    let mut s = session(vec![card("Q?", "A", None)], false, "answer", 6, true);
    s.session_id = Some(7);
    let mut app = AppState::Quiz;
    let eff = press(&mut s, key(Key::Enter), &mut app);
    match eff {
        QuizEffect::SaveAnswer { session_id, card_index } => {
            assert_eq!((session_id, card_index), (7, 0));
        }
        _ => panic!("expected SaveAnswer"),
    }
    assert_eq!(s.questions_answered, 1);
    assert_eq!(s.flashcards[0].user_answer.as_deref(), Some("answer"));
    let req = s.finish_answer_submission();
    assert!(s.showing_answer);
    assert_eq!(s.input_buffer, "");
    assert!(matches!(req, Some(AiRequest::Evaluate { flashcard_index: 0, .. })));
    assert!(s.ai_evaluation_in_progress);
}

#[test]
fn evaluation_error_is_recorded_as_failed_verdict() {
    let mut s = session(vec![card("Q?", "A", Some("a"))], true, "", 0, true);
    s.ai_evaluation_in_progress = true;
    let store = s.process_ai_responses(AiResponse::Error { flashcard_index: 0, error: "boom".to_string() });
    assert_eq!(store, FeedbackStorage::Nothing);
    assert!(!s.ai_evaluation_in_progress);
    assert_eq!(s.last_ai_error.as_deref(), Some("boom"));
    let f = s.flashcards[0].ai_feedback.as_ref().unwrap();
    assert!(!f.is_correct);
    assert_eq!(f.correctness_score_bits, 0);
    assert_eq!(f.explanation, "Error: boom");
}

#[test]
fn verdict_on_stored_card_asks_for_an_update() {
    let mut c = card("Q?", "A", Some("a"));
    c.id = Some(42);
    let mut s = session(vec![c], true, "", 0, true);
    s.session_id = Some(3);
    let result = AIEvaluationResult { feedback: feedback(0.9, "good"), raw_response: "{}".to_string() };
    let store = s.process_ai_responses(AiResponse::Evaluation { flashcard_index: 0, result });
    assert_eq!(store, FeedbackStorage::UpdateFeedback { card_index: 0, flashcard_id: 42 });
    assert_eq!(s.ai_last_evaluated_index, Some(0));
    assert_eq!(s.flashcards[0].ai_feedback.as_ref().unwrap().explanation, "good");
}

#[test]
fn assessment_reply_is_recorded() {
    let mut s = session(vec![card("Q?", "A", Some("a"))], true, "", 0, true);
    s.assessment_loading = true;
    let a = SessionAssessment {
        grade_percentage_bits: 80.0f32.to_bits(),
        mastery_level: "Advanced".to_string(),
        overall_feedback: "Good".to_string(),
        suggestions: vec![],
        strengths: vec![],
        weaknesses: vec![],
    };
    s.process_ai_responses(AiResponse::SessionAssessment { session_id: 1, result: Ok(a) });
    assert!(!s.assessment_loading);
    assert_eq!(s.session_assessment.as_ref().unwrap().mastery_level, "Advanced");
    s.process_ai_responses(AiResponse::SessionAssessment { session_id: 1, result: Err("no".to_string()) });
    assert!(s.session_assessment.is_none());
    assert_eq!(s.assessment_error.as_deref(), Some("no"));
}

#[test]
fn typing_inside_a_multibyte_character_is_refused() {
    let s = session(vec![card("Q?", "A", None)], false, "é", 1, false);
    assert!(!quiz_input_allowed(&s, key(Key::Char('x'))));
    assert!(quiz_input_allowed(&s, key(Key::Left)));
}

#[test]
fn paste_inserts_at_the_cursor() {
    let mut s = session(vec![card("Q?", "A", None)], false, "ad", 1, false);
    assert!(s.paste_allowed("bc"));
    s.paste("bc");
    assert_eq!(s.input_buffer, "abcd");
    assert_eq!(s.cursor_position, 3);
    // On the answer screen a paste changes nothing.
    let mut shown = session(vec![card("Q?", "A", Some("x"))], true, "", 0, false);
    shown.paste("zz");
    assert_eq!(shown.input_buffer, "");
}

#[test]
fn paste_after_a_multibyte_character_is_allowed() {
    let mut s = session(vec![card("Q?", "A", None)], false, "", 0, false);
    assert!(s.paste_allowed("éa"));
    assert!(s.paste_allowed("aé"));
    s.paste("éa");
    assert_eq!(s.input_buffer, "éa");
    assert_eq!(s.cursor_position, 3);
}

#[test]
fn evaluation_expires_after_thirty_seconds() {
    let mut s = session(vec![card("Q?", "A", Some("a"))], true, "", 0, true);
    s.ai_evaluation_in_progress = true;
    assert!(!s.expire_ai_evaluation(Some((30, 0))));
    assert!(s.ai_evaluation_in_progress);
    assert!(s.expire_ai_evaluation(Some((30, 1))));
    assert!(!s.ai_evaluation_in_progress);
    assert_eq!(s.last_ai_error.as_deref(), Some("AI evaluation timed out - press Ctrl+E to retry"));
    assert!(!s.expire_ai_evaluation(Some((100, 0))));
}

#[test]
fn resumed_session_opens_at_first_unanswered_card() {
    let s = QuizSession::resume(
        vec![card("Q1", "A1", Some("x")), card("Q2", "A2", None), card("Q3", "A3", None)],
        "Deck".to_string(),
        5,
        3,
        1,
        false,
    );
    assert_eq!(s.current_index, 1);
    assert!(!s.showing_answer);
    assert_eq!(s.input_buffer, "");
    let done = QuizSession::resume(
        vec![card("Q1", "A1", Some("x")), card("Q2", "A2", Some("héllo"))],
        "Deck".to_string(),
        5,
        2,
        2,
        true,
    );
    assert_eq!(done.current_index, 1);
    assert!(done.showing_answer);
    assert_eq!(done.input_buffer, "héllo");
    assert_eq!(done.cursor_position, 6);
    assert_eq!(done.session_id, Some(5));
}

#[test]
fn started_session_begins_empty() {
    let s = QuizSession::start(vec![card("Q1", "A1", None), card("Q2", "A2", None)], "Deck".to_string(), 9, true);
    assert_eq!(s.current_index, 0);
    assert_eq!(s.questions_total, 2);
    assert_eq!(s.questions_answered, 0);
    assert_eq!(s.session_id, Some(9));
    assert!(!s.showing_answer);
}

#[test]
fn assessment_request_snapshots_every_card() {
    let mut c = card("Q1", "A1", Some("x"));
    c.ai_feedback = Some(feedback(0.8, "fine"));
    let mut s = QuizSession::start(vec![c, card("Q2", "A2", None)], "Deck".to_string(), 4, true);
    assert!(s.pending_assessment_request().is_none());
    s.assessment_loading = true;
    match s.pending_assessment_request() {
        Some(AiRequest::EvaluateSession { session_id, deck_name, flashcards }) => {
            assert_eq!(session_id, 4);
            assert_eq!(deck_name, "Deck");
            assert_eq!(flashcards.len(), 2);
            assert_eq!(flashcards[0].3.as_ref().unwrap().explanation, "fine");
            assert!(flashcards[1].2.is_none());
        }
        _ => panic!("expected a session assessment request"),
    }
    s.assessment_error = Some("x".to_string());
    let retry = s.retry_assessment();
    assert!(retry.is_some());
    assert!(s.assessment_loading);
    assert!(s.assessment_error.is_none());
}

#[test]
fn pasting_a_character_is_typing_it() {
    let mut pasted = session(vec![card("Q?", "A", None)], false, "héllo", 3, false);
    let mut typed = session(vec![card("Q?", "A", None)], false, "héllo", 3, false);
    pasted.paste("x");
    let mut app = AppState::Quiz;
    press(&mut typed, key(Key::Char('x')), &mut app);
    assert_eq!(pasted.input_buffer, typed.input_buffer);
    assert_eq!(pasted.cursor_position, typed.cursor_position);
    assert_eq!(pasted.input_buffer, "héxllo");
}

#[test]
fn key_presses_keep_the_cursor_inside_the_answer() {
    let mut s = session(vec![card("Q1", "A1", None), card("Q2", "A2", None)], false, "", 0, false);
    let mut app = AppState::Quiz;
    let keys = [key(Key::Char('a')), key(Key::Char('é')), key(Key::Left), key(Key::Right), key(Key::Backspace), ctrl(Key::Enter), key(Key::Down), key(Key::Up)];
    for k in keys {
        if quiz_input_allowed(&s, k) {
            handle_quiz_input(&mut s, k, &mut app);
        }
        assert!(s.current_index < s.flashcards.len());
        assert!(s.cursor_position <= s.input_buffer.len());
    }
}

fn type_text(s: &mut QuizSession, text: &str, app: &mut AppState) {
    for c in text.chars() {
        press(s, key(Key::Char(c)), app);
    }
}

fn input_buffer_operations() {
    let mut s = session(vec![card("Q?", "A", None)], false, "", 0, false);
    let mut app = AppState::Quiz;
    type_text(&mut s, "Hi", &mut app);
    assert_eq!(s.input_buffer, "Hi");
    press(&mut s, key(Key::Backspace), &mut app);
    assert_eq!(s.input_buffer, "H");
    press(&mut s, key(Key::Enter), &mut app);
    assert_eq!(s.flashcards[0].user_answer, Some("H".to_string()));
}

#[test]
fn file_io_test_input_buffer_operations() {
    input_buffer_operations();
}

#[test]
fn session_test_input_buffer_operations() {
    input_buffer_operations();
}

fn empty_answer_submission() {
    let mut app = AppState::Quiz;
    let mut s = session(vec![card("Q?", "A", None)], false, "", 0, false);
    press(&mut s, key(Key::Enter), &mut app);
    assert!(s.flashcards[0].user_answer.is_none());
    type_text(&mut s, " ", &mut app);
    press(&mut s, key(Key::Enter), &mut app);
    assert!(s.flashcards[0].user_answer.is_none());
    type_text(&mut s, "A", &mut app);
    press(&mut s, key(Key::Enter), &mut app);
    assert_eq!(s.flashcards[0].user_answer, Some(" A".to_string()));
}

#[test]
fn file_io_test_empty_answer_submission() {
    empty_answer_submission();
}

#[test]
fn session_test_empty_answer_submission() {
    empty_answer_submission();
}

fn input_buffer_character_addition() {
    let mut s = session(vec![card("Q?", "A", None)], false, "", 0, false);
    let mut app = AppState::Quiz;
    type_text(&mut s, "Hello", &mut app);
    assert_eq!(s.input_buffer, "Hello");
    type_text(&mut s, " World", &mut app);
    assert_eq!(s.input_buffer, "Hello World");
    assert_eq!(s.cursor_position, 11);
}

#[test]
fn file_io_test_input_buffer_character_addition() {
    input_buffer_character_addition();
}

#[test]
fn session_test_input_buffer_character_addition() {
    input_buffer_character_addition();
}

#[test]
fn cursor_moves_over_whole_characters() {
    let mut s = session(vec![card("Q?", "A", None)], false, "é", 0, false);
    let mut app = AppState::Quiz;
    press(&mut s, key(Key::Right), &mut app);
    assert_eq!(s.cursor_position, 2);
    press(&mut s, key(Key::Right), &mut app);
    assert_eq!(s.cursor_position, 2);
    press(&mut s, key(Key::Left), &mut app);
    assert_eq!(s.cursor_position, 0);
    press(&mut s, key(Key::Left), &mut app);
    assert_eq!(s.cursor_position, 0);
}

#[test]
fn typing_a_multibyte_character_moves_past_it() {
    let mut s = session(vec![card("Q?", "A", None)], false, "ab", 1, false);
    let mut app = AppState::Quiz;
    press(&mut s, key(Key::Char('世')), &mut app);
    assert_eq!(s.input_buffer, "a世b");
    assert_eq!(s.cursor_position, 4);
    press(&mut s, key(Key::Char('é')), &mut app);
    assert_eq!(s.input_buffer, "a世éb");
    assert_eq!(s.cursor_position, 6);
    press(&mut s, key(Key::Backspace), &mut app);
    assert_eq!(s.input_buffer, "a世b");
    assert_eq!(s.cursor_position, 4);
    press(&mut s, key(Key::Backspace), &mut app);
    assert_eq!(s.input_buffer, "ab");
    assert_eq!(s.cursor_position, 1);
}

#[test]
fn pasting_multibyte_text_moves_past_it() {
    let mut s = session(vec![card("Q?", "A", None)], false, "x", 1, false);
    assert!(s.paste_allowed("né"));
    s.paste("né");
    assert_eq!(s.input_buffer, "xné");
    assert_eq!(s.cursor_position, 4);
}
