use interactive_flashcards::csv::{csv_file_names, flashcards_from_csv, parse_csv_line};

fn fields(line: &str) -> (String, String) {
    let result = parse_csv_line(line);
    assert!(result.is_some());
    result.unwrap()
}

#[test]
fn test_parse_csv_simple() {
    let (question, answer) = fields("What is 2+2?,Four");
    assert_eq!(question, "What is 2+2?");
    assert_eq!(answer, "Four");
}

#[test]
fn test_parse_csv_with_quotes() {
    let (question, answer) = fields("\"What is 2+2?\",\"Four\"");
    assert_eq!(question, "What is 2+2?");
    assert_eq!(answer, "Four");
}

#[test]
fn test_parse_csv_with_commas_in_answer() {
    let (question, answer) = fields("\"What is 2+2?\",\"Four, or 4\"");
    assert_eq!(question, "What is 2+2?");
    assert_eq!(answer, "Four, or 4");
}

#[test]
fn test_parse_csv_with_commas_in_question() {
    let (question, answer) = fields("\"What is 2+2, 3+3?\",\"Four\"");
    assert_eq!(question, "What is 2+2, 3+3?");
    assert_eq!(answer, "Four");
}

#[test]
fn test_parse_csv_with_escaped_quotes() {
    let (question, answer) = fields("\"What is \"\"quoted\"\"?\",\"Answer with \"\"quotes\"\"\"");
    assert_eq!(question, "What is \"quoted\"?");
    assert_eq!(answer, "Answer with \"quotes\"");
}

#[test]
fn test_parse_csv_empty_fields() {
    let (question, answer) = fields(",");
    assert_eq!(question, "");
    assert_eq!(answer, "");
}

#[test]
fn test_parse_csv_complex_example() {
    let (question, answer) = fields(
        "\"In a CSV, what does a comma do?\",\"It separates fields, but can be part of a field if quoted\"",
    );
    assert_eq!(question, "In a CSV, what does a comma do?");
    assert_eq!(answer, "It separates fields, but can be part of a field if quoted");
}

#[test]
fn test_parse_csv_only_question_quoted() {
    let (question, answer) = fields("\"What is 2+2?\",Four");
    assert_eq!(question, "What is 2+2?");
    assert_eq!(answer, "Four");
}

#[test]
fn test_parse_csv_only_answer_quoted() {
    let (question, answer) = fields("What is 2+2?,\"Four\"");
    assert_eq!(question, "What is 2+2?");
    assert_eq!(answer, "Four");
}

#[test]
fn test_parse_csv_line_with_newlines_in_quoted_field() {
    let (question, answer) = fields("\"Question\",\"Answer with, comma\"");
    assert_eq!(question, "Question");
    assert_eq!(answer, "Answer with, comma");
}

#[test]
fn test_parse_csv_real_world_example() {
    let (question, answer) = fields(
        "\"What is the defining characteristic of a MANET?\",\"It is an infrastructure-less network where all nodes are potentially mobile and communicate directly with each other.\"",
    );
    assert_eq!(question, "What is the defining characteristic of a MANET?");
    assert_eq!(
        answer,
        "It is an infrastructure-less network where all nodes are potentially mobile and communicate directly with each other."
    );
}

#[test]
fn test_parse_csv_multiple_quotes() {
    let (question, answer) = fields("\"Is \"\"quoted\"\" text supported?\",\"Yes, \"\"it works\"\" correctly\"");
    assert_eq!(question, "Is \"quoted\" text supported?");
    assert_eq!(answer, "Yes, \"it works\" correctly");
}

#[test]
fn test_load_csv_with_empty_lines() {
    let flashcards = flashcards_from_csv("Q1,A1\n\nQ2,A2\n\nQ3,A3");
    assert_eq!(flashcards.len(), 3);
    assert_eq!(flashcards[0].question, "Q1");
    assert_eq!(flashcards[1].question, "Q2");
    assert_eq!(flashcards[2].question, "Q3");
}

#[test]
fn test_load_csv_filters_empty_fields() {
    let flashcards = flashcards_from_csv("Q1,A1\n,A2\nQ2,\n,Q3\n");
    assert_eq!(flashcards.len(), 1);
    assert_eq!(flashcards[0].question, "Q1");
    assert_eq!(flashcards[0].answer, "A1");
}

#[test]
fn csv_quoted_fields_read_back_as_written() {
    // A question and an answer holding commas and quotes, written quoted with doubled quotes.
    let (question, answer) = fields("\"a, \"\"b\"\"\",\"c,,\"\"\"");
    assert_eq!(question, "a, \"b\"");
    assert_eq!(answer, "c,,\"");
}

#[test]
fn csv_plain_answer_keeps_its_commas() {
    let (question, answer) = fields("q,a,b,c");
    assert_eq!(question, "q");
    assert_eq!(answer, "a,b,c");
}

#[test]
fn csv_line_without_comma_has_empty_answer() {
    let (question, answer) = fields("only a question");
    assert_eq!(question, "only a question");
    assert_eq!(answer, "");
}

#[test]
fn csv_cards_from_crlf_text_are_fresh() {
    let cards = flashcards_from_csv("Q1,A1\r\nQ2,A2\r\n  ,  \r\n");
    assert_eq!(cards.len(), 2);
    assert_eq!(cards[1].question, "Q2");
    assert_eq!(cards[1].answer, "A2");
    assert!(cards[0].user_answer.is_none());
    assert!(cards[0].ai_feedback.is_none());
    assert!(!cards[0].written_to_file);
    assert!(cards[0].id.is_none());
}

#[test]
fn test_csv_file_names_filters_and_sorts() {
    let names = vec![
        "zoo.csv".to_string(),
        "notes.txt".to_string(),
        "Alpha.csv".to_string(),
        ".csv".to_string(),
        "data.CSV".to_string(),
        "beta.csv".to_string(),
        "archive.csv.bak".to_string(),
        "..csv".to_string(),
    ];
    assert_eq!(
        csv_file_names(names),
        vec!["..csv".to_string(), "Alpha.csv".to_string(), "beta.csv".to_string(), "zoo.csv".to_string()]
    );
}

#[test]
fn test_csv_file_names_empty_directory() {
    assert!(csv_file_names(vec![]).is_empty());
    assert!(csv_file_names(vec!["readme".to_string()]).is_empty());
}

#[test]
fn test_csv_file_names_orders_prefix_first() {
    let names = vec!["ab.csv".to_string(), "a.csv".to_string(), "a.csv.csv".to_string()];
    assert_eq!(csv_file_names(names), vec!["a.csv", "a.csv.csv", "ab.csv"]);
}

#[test]
fn line_without_comma_is_all_question() {
    assert_eq!(fields("just a question"), ("just a question".to_string(), String::new()));
    assert_eq!(fields(","), (String::new(), String::new()));
}
