use interactive_flashcards::models::{AIFeedback, Flashcard, SessionAssessment};
use interactive_flashcards::screens::{
    ai_status_lines, answer_panel_lines, answered_count, menu_items, progress_text, quiz_help_lines,
    raw_line, summary_help_line, summary_lines, Percent,
};
use interactive_flashcards::session::QuizSession;
use interactive_flashcards::utils::markdown::{Color, StyledLine};

fn card(question: &str, answer: &str, user_answer: Option<&str>) -> Flashcard {
    Flashcard {
        question: question.to_string(),
        answer: answer.to_string(),
        user_answer: user_answer.map(|s| s.to_string()),
        ai_feedback: None,
        written_to_file: false,
        id: None,
    }
}

fn deck() -> QuizSession {
    QuizSession::start(
        vec![card("Q1", "A1", Some("mine")), card("Q2", "A2", None), card("Q3", "A3", Some("other"))],
        "Capitals".to_string(),
        7,
        true,
    )
}

fn texts(lines: &[StyledLine]) -> Vec<String> {
    lines.iter().map(|l| l.to_text()).collect()
}

fn percent(digits: &str, color: Color) -> Percent {
    Percent { digits: digits.to_string(), color }
}

#[test]
fn test_answered_count_counts_answers() {
    let s = deck();
    assert_eq!(answered_count(&s), 2);
}

#[test]
fn test_answered_count_without_questions_is_zero() {
    let mut s = deck();
    s.questions_total = 0;
    assert_eq!(answered_count(&s), 0);
}

#[test]
fn test_summary_while_loading() {
    let mut s = deck();
    s.assessment_loading = true;
    let lines = summary_lines(&s, 2, &percent("0", Color::Red), &percent("0", Color::Red));
    assert_eq!(texts(&lines), vec!["Answered: 2/3", "", "Analyzing session..."]);
    assert_eq!(lines[2].spans[0].style.fg, Some(Color::Yellow));
    assert!(lines[0].spans[1].style.bold);
}

#[test]
fn test_summary_with_assessment() {
    let mut s = deck();
    s.session_assessment = Some(SessionAssessment {
        grade_percentage_bits: 85.0f32.to_bits(),
        mastery_level: "Proficient".to_string(),
        overall_feedback: "Good **work**".to_string(),
        suggestions: vec![],
        strengths: vec!["Recall".to_string(), "Speed".to_string()],
        weaknesses: vec![],
    });
    let lines = summary_lines(&s, 2, &percent("85", Color::Green), &percent("10", Color::Red));
    assert_eq!(
        texts(&lines),
        vec![
            "Answered: 2/3  |  85% Proficient",
            "",
            "Feedback:",
            "Good work",
            "",
            "Strengths:",
            "  \u{2713} Recall",
            "  \u{2713} Speed",
            "",
        ]
    );
    assert_eq!(lines[0].spans[3].style.fg, Some(Color::Green));
    assert!(lines[3].spans[1].style.bold);
}

#[test]
fn test_summary_after_failed_assessment() {
    let mut s = deck();
    s.assessment_error = Some("timeout".to_string());
    let lines = summary_lines(&s, 2, &percent("85", Color::Green), &percent("42", Color::Red));
    assert_eq!(texts(&lines), vec!["Answered: 2/3  |  Score: 42%", "", "Analysis unavailable", "timeout"]);
    assert_eq!(lines[0].spans[3].style.fg, Some(Color::Red));
}

#[test]
fn test_summary_without_analysis() {
    let s = deck();
    let lines = summary_lines(&s, 2, &percent("85", Color::Green), &percent("60", Color::Yellow));
    assert_eq!(texts(&lines), vec!["Answered: 2/3  |  Score: 60%", "", "No AI analysis available"]);
    assert_eq!(lines[2].spans[0].style.fg, Some(Color::DarkGray));
}

#[test]
fn test_progress_text_counts_from_one() {
    let mut s = deck();
    s.current_index = 1;
    assert_eq!(progress_text(&s), "Question 2 / 3 - Capitals");
}

#[test]
fn test_answer_panel_placeholder_and_typed_text() {
    let mut s = deck();
    assert_eq!(texts(&answer_panel_lines(&s, "", None)), vec!["[Type your answer here...]"]);
    s.input_buffer = "first\nsecond".to_string();
    assert_eq!(texts(&answer_panel_lines(&s, "", None)), vec!["first", "second"]);
}

#[test]
fn test_answer_panel_with_feedback() {
    let mut s = deck();
    s.showing_answer = true;
    s.flashcards[0].ai_feedback = Some(AIFeedback {
        is_correct: false,
        correctness_score_bits: 0.6f32.to_bits(),
        corrections: vec!["Spelling".to_string()],
        explanation: "Close".to_string(),
        suggestions: vec![],
    });
    let lines = answer_panel_lines(&s, "Score: 60% - Partially Correct", Some("ignored"));
    assert_eq!(
        texts(&lines),
        vec![
            "Correct Answer:",
            "",
            "A1",
            "",
            "Your Answer:",
            "mine",
            "",
            "AI Evaluation:",
            "Score: 60% - Partially Correct",
            "",
            "Corrections:",
            "\u{2022} Spelling",
            "",
            "Explanation:",
            "Close",
        ]
    );
}

#[test]
fn test_answer_panel_error_and_pending() {
    let mut s = deck();
    s.showing_answer = true;
    s.current_index = 1;
    assert_eq!(texts(&answer_panel_lines(&s, "", Some("AI failed"))), vec!["Correct Answer:", "", "A2", "", "AI failed"]);
    s.ai_evaluation_in_progress = true;
    assert_eq!(
        texts(&answer_panel_lines(&s, "", None)),
        vec!["Correct Answer:", "", "A2", "", "AI is evaluating your answer..."]
    );
    s.ai_enabled = false;
    assert_eq!(texts(&answer_panel_lines(&s, "", None)), vec!["Correct Answer:", "", "A2"]);
}

#[test]
fn test_quiz_help_lines() {
    let typing = quiz_help_lines(false, true);
    assert_eq!(
        texts(&typing),
        vec![
            "Enter Submit Answer  Esc Quit to Menu  ",
            "\u{2191}/\u{2193} Navigate  Enter Next  Esc Quit to Menu  ",
            "Ctrl+E AI Re-evaluate  Ctrl+X AI Cancel  ",
            "Ctrl+C Exit App",
        ]
    );
    assert_eq!(quiz_help_lines(true, false).len(), 2);
}

#[test]
fn test_summary_help_line() {
    assert_eq!(summary_help_line(false).to_text(), "m Menu  Esc Quit");
    assert_eq!(summary_help_line(true).to_text(), "m Menu  Esc Quit  r Retry Analysis");
}

#[test]
fn test_menu_items() {
    let empty = menu_items(&vec![], Some(0), "No CSV files found");
    assert_eq!(empty.len(), 1);
    assert_eq!(empty[0].content, "No CSV files found");
    assert!(empty[0].style.italic);
    let names = vec!["alpha".to_string(), "beta".to_string()];
    let items = menu_items(&names, Some(1), "none");
    assert_eq!(items[0].content, "alpha");
    assert_eq!(items[0].style.fg, None);
    assert_eq!(items[1].style.fg, Some(Color::Yellow));
    assert!(items[1].style.bold);
    let unfocused = menu_items(&names, None, "none");
    assert!(unfocused.iter().all(|i| i.style.fg.is_none()));
}

#[test]
fn test_ai_status_lines() {
    assert_eq!(ai_status_lines(false), vec!["AI: Disabled", "Set OPENROUTER_API_KEY"]);
    assert_eq!(ai_status_lines(true), vec!["AI: Enabled".to_string(), "Model: openai/gpt-oss-120b".to_string()]);
}

#[test]
fn test_raw_line_keeps_lines_as_spans() {
    let l = raw_line("a\nb");
    assert_eq!(l.spans.len(), 2);
    assert_eq!(l.to_text(), "ab");
    assert_eq!(raw_line("").spans.len(), 0);
}
