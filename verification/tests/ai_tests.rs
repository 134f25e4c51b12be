use interactive_flashcards::ai::{
    answer_prompt, assessment_reply, chat_reply, clean_json_response, evaluation_reply,
    reply_text, request_timeout_secs, score_at_least_seven_tenths, session_prompt, ReplyContent, WorkOutcome,
    ANSWER_PROMPT_TAIL,
};
use interactive_flashcards::models::{AIEvaluationResult, AIFeedback, AiRequest, AiResponse};

#[test]
fn test_clean_json_response_simple() {
    let json = r#"{"is_correct":true}"#;
    assert_eq!(clean_json_response(json), r#"{"is_correct":true}"#);
}

#[test]
fn test_clean_json_response_markdown() {
    let json = r#"```json
{"is_correct": true, "correctness_score": 0.9}
```"#;
    assert_eq!(clean_json_response(json), r#"{"is_correct": true, "correctness_score": 0.9}"#);
}

#[test]
fn test_clean_json_response_with_text() {
    let json = r#"Here's your response: {"is_correct": true, "score": 0.9} thanks"#;
    assert_eq!(clean_json_response(json), r#"{"is_correct": true, "score": 0.9}"#);
}

#[test]
fn clean_json_keeps_text_without_braces_trimmed() {
    assert_eq!(clean_json_response("  no json here \n"), "no json here");
    // A two-line fence is not unwrapped.
    assert_eq!(clean_json_response("```\n{}"), "{}");
}

#[test]
fn braces_out_of_order_are_handled() {
    assert_eq!(clean_json_response("} x {"), "} x {");
    assert_eq!(clean_json_response("  }  {\n"), "}  {");
    assert_eq!(clean_json_response("}{"), "");
    assert_eq!(clean_json_response("{ }"), "{ }");
}

fn feedback() -> AIFeedback {
    AIFeedback {
        is_correct: true,
        correctness_score_bits: 1.0f32.to_bits(),
        corrections: vec![],
        explanation: "ok".to_string(),
        suggestions: vec![],
    }
}

#[test]
fn worker_replies_say_what_went_wrong() {
    match evaluation_reply(2, WorkOutcome::NoClient("no key".to_string())) {
        AiResponse::Error { flashcard_index, error } => {
            assert_eq!(flashcard_index, 2);
            assert_eq!(error, "Failed to create AI client: no key");
        }
        _ => panic!(),
    }
    match evaluation_reply(1, WorkOutcome::Failed("bad".to_string())) {
        AiResponse::Error { error, .. } => assert_eq!(error, "AI evaluation failed: bad"),
        _ => panic!(),
    }
    match evaluation_reply(1, WorkOutcome::TimedOut) {
        AiResponse::Error { error, .. } => {
            assert_eq!(error, "AI evaluation timed out after 30 seconds - press Ctrl+E to retry")
        }
        _ => panic!(),
    }
    let done = evaluation_reply(3, WorkOutcome::Done(AIEvaluationResult { feedback: feedback(), raw_response: "r".to_string() }));
    assert!(matches!(done, AiResponse::Evaluation { flashcard_index: 3, .. }));
    match assessment_reply(9, WorkOutcome::TimedOut) {
        AiResponse::SessionAssessment { session_id, result } => {
            assert_eq!(session_id, 9);
            assert_eq!(result.unwrap_err(), "Session assessment timed out after 60 seconds");
        }
        _ => panic!(),
    }
    match assessment_reply(9, WorkOutcome::Failed("x".to_string())) {
        AiResponse::SessionAssessment { result, .. } => assert_eq!(result.unwrap_err(), "Session assessment failed: x"),
        _ => panic!(),
    }
    match chat_reply(5, WorkOutcome::Failed("y".to_string())) {
        AiResponse::ChatReply { flashcard_id, message, error } => {
            assert_eq!(flashcard_id, 5);
            assert!(message.is_none());
            assert_eq!(error.unwrap(), "Chat failed: y");
        }
        _ => panic!(),
    }
    match chat_reply(5, WorkOutcome::Done("hi".to_string())) {
        AiResponse::ChatReply { message, error, .. } => {
            assert_eq!(message.unwrap(), "hi");
            assert!(error.is_none());
        }
        _ => panic!(),
    }
}

#[test]
fn assessments_get_a_minute_and_evaluations_half() {
    let eval = AiRequest::Evaluate {
        flashcard_index: 0,
        question: String::new(),
        correct_answer: String::new(),
        user_answer: String::new(),
    };
    let session = AiRequest::EvaluateSession { session_id: 1, deck_name: String::new(), flashcards: vec![] };
    assert_eq!(request_timeout_secs(&eval), 30);
    assert_eq!(request_timeout_secs(&session), 60);
}

#[test]
fn reply_text_joins_text_parts() {
    assert_eq!(reply_text(None).unwrap_err(), "No response choices received");
    assert_eq!(reply_text(Some(ReplyContent::Text("t".to_string()))).unwrap(), "t");
    let parts = vec![None, Some("a".to_string()), None, Some("b".to_string())];
    assert_eq!(reply_text(Some(ReplyContent::Parts(parts))).unwrap(), "a\nb");
    assert_eq!(reply_text(Some(ReplyContent::Parts(vec![None]))).unwrap(), "");
}

#[test]
fn answer_prompt_holds_the_three_texts() {
    let p = answer_prompt("Q?", "A.", "U!");
    assert!(p.starts_with("Evaluate this answer and respond ONLY with valid JSON.\n\nQuestion: Q?\nCorrect Answer: A.\nUser's Answer: U!"));
    assert!(p.ends_with(ANSWER_PROMPT_TAIL));
}

#[test]
fn session_prompt_counts_answers_and_passes() {
    let mut low = feedback();
    low.correctness_score_bits = 0.5f32.to_bits();
    low.explanation = "x".repeat(250);
    let cards = vec![
        ("Q1".to_string(), "A1".to_string(), Some("u1".to_string()), Some(feedback())),
        ("Q2".to_string(), "A2".to_string(), None, None),
        ("Q3".to_string(), "A3".to_string(), Some("u3".to_string()), Some(low)),
    ];
    let percents = vec!["100".to_string(), String::new(), "50".to_string()];
    let p = session_prompt("Deck", &cards, &percents);
    assert!(p.starts_with("Analyze this quiz session for \"Deck\""));
    assert!(p.contains("- Total Questions: 3\n- Answered: 2\n- Correct (AI-evaluated): 1\n"));
    assert!(p.contains("Q1: Q1\nA1: A1\nUser: u1\nAI Score: 100%, Feedback: ok\n\n"));
    assert!(!p.contains("Q2: Q2"));
    let expected3 = format!("Q3: Q3\nA3: A3\nUser: u3\nAI Score: 50%, Feedback: {}\n\n", "x".repeat(200));
    assert!(p.contains(&expected3));
}

#[test]
fn seven_tenths_is_the_pass_mark() {
    assert!(score_at_least_seven_tenths(0.7f32.to_bits()));
    assert!(score_at_least_seven_tenths(1.0f32.to_bits()));
    assert!(score_at_least_seven_tenths(f32::INFINITY.to_bits()));
    assert!(!score_at_least_seven_tenths(0.69f32.to_bits()));
    assert!(!score_at_least_seven_tenths((-1.0f32).to_bits()));
    assert!(!score_at_least_seven_tenths(f32::NAN.to_bits()));
    for x in [0.0f32, 0.3, 0.6999, 0.7, 0.70001, 0.9, 5.0, -0.0, -3.0] {
        assert_eq!(score_at_least_seven_tenths(x.to_bits()), x >= 0.7);
    }
}

#[test]
fn a_bare_json_object_is_left_unchanged() {
    let json = "{\"a\": [1, 2], \"b\": \"}{\"}";
    assert_eq!(clean_json_response(json), json);
}
