use interactive_flashcards::utils::{
    byte_index_to_char_index, calculate_display_column_in_range, calculate_wrapped_cursor_position,
    simulate_wrapped_lines, truncate_string, wrapped_cursor_position,
};

fn texts(text: &str, width: usize) -> Vec<String> {
    simulate_wrapped_lines(text, width).into_iter().map(|l| l.0).collect()
}

#[test]
fn test_empty_input() {
    assert!(simulate_wrapped_lines("", 10).is_empty());
}

#[test]
fn test_zero_width() {
    assert!(simulate_wrapped_lines("Hello", 0).is_empty());
}

#[test]
fn test_single_word_fits() {
    assert_eq!(texts("Hello", 10), vec!["Hello"]);
}

#[test]
fn test_two_words_fit_on_one_line() {
    assert_eq!(texts("Hello world", 12), vec!["Hello world"]);
}

#[test]
fn test_two_words_wrap_to_two_lines() {
    assert_eq!(texts("Hello world", 10), vec!["Hello", "world"]);
}

#[test]
fn test_multiple_words_wrap() {
    assert_eq!(texts("Hello world test string", 12), vec!["Hello world", "test string"]);
}

#[test]
fn test_exact_fit() {
    assert_eq!(texts("Hello", 5), vec!["Hello"]);
}

#[test]
fn test_word_boundary_preservation() {
    assert_eq!(texts("abc defgh", 6), vec!["abc", "defgh"]);
}

#[test]
fn test_long_word_character_break() {
    assert_eq!(texts("abcdefghij", 5), vec!["abcde", "fghij"]);
}

#[test]
fn test_long_word_with_other_words() {
    assert_eq!(texts("Hi abcdefghij there", 5), vec!["Hi", "abcde", "fghij", "there"]);
}

#[test]
fn test_explicit_newline() {
    assert_eq!(texts("Line1\nLine2", 20), vec!["Line1", "Line2"]);
}

#[test]
fn test_multiple_newlines() {
    assert_eq!(texts("A\nB\nC", 10), vec!["A", "B", "C"]);
}

#[test]
fn test_newline_with_wrapping() {
    assert_eq!(texts("Hello world\ntest string", 10), vec!["Hello", "world", "test", "string"]);
}

#[test]
fn test_leading_whitespace_trimmed() {
    assert_eq!(texts("   Hello", 10), vec!["Hello"]);
}

#[test]
fn test_trailing_whitespace_trimmed() {
    assert_eq!(texts("Hello   ", 10), vec!["Hello"]);
}

#[test]
fn test_multiple_spaces_between_words() {
    assert_eq!(texts("Hello    world", 20), vec!["Hello    world"]);
}

#[test]
fn test_multibyte_utf8_characters() {
    assert_eq!(texts("Hello 世界", 10), vec!["Hello 世界"]);
    assert_eq!(texts("Hello 世界", 9), vec!["Hello", "世界"]);
}

#[test]
fn test_wrapping_decision_with_multiple_spaces() {
    assert_eq!(texts("Hello     world", 15), vec!["Hello     world"]);
    assert_eq!(texts("Hello     world", 14), vec!["Hello", "world"]);
    assert_eq!(texts("Hello     world", 20), vec!["Hello     world"]);
}

#[test]
fn test_multiple_spaces_preserved_in_line_text() {
    assert_eq!(texts("a  b   c", 20), vec!["a  b   c"]);
}

#[test]
fn test_wrapping_with_spaces_before_boundary() {
    assert_eq!(texts("word  test", 9), vec!["word", "test"]);
    assert_eq!(texts("word  test", 10), vec!["word  test"]);
}

#[test]
fn test_index_tracking_simple() {
    let lines = simulate_wrapped_lines("Hello world", 10);
    assert_eq!(lines[0].3, 0);
    assert_eq!(lines[0].4, 6);
    assert_eq!(lines[1].3, 6);
    assert_eq!(lines[1].4, 11);
}

#[test]
fn test_index_tracking_with_leading_spaces() {
    let lines = simulate_wrapped_lines("  Hello", 10);
    assert_eq!(lines[0].3, 2);
    assert_eq!(lines[0].4, 7);
}

fn cursor(text: &str, byte: usize, width: usize) -> (usize, usize) {
    calculate_wrapped_cursor_position(text, byte, width)
}

#[test]
fn test_cursor_at_start() {
    assert_eq!(cursor("Hello world", 0, 10), (0, 0));
}

#[test]
fn test_cursor_empty_text() {
    assert_eq!(cursor("", 5, 10), (0, 0));
}

#[test]
fn test_cursor_in_first_word() {
    assert_eq!(cursor("Hello world", 3, 10), (0, 3));
}

#[test]
fn test_cursor_at_end_of_first_word() {
    assert_eq!(cursor("Hello world", 5, 10), (0, 5));
}

#[test]
fn test_cursor_at_space_between_words() {
    assert_eq!(cursor("Hello world", 6, 10), (1, 0));
}

#[test]
fn test_cursor_at_start_of_second_word() {
    assert_eq!(cursor("Hello world", 7, 10), (1, 1));
}

#[test]
fn test_cursor_at_end_of_text() {
    assert_eq!(cursor("Hello world", 11, 10), (1, 5));
}

#[test]
fn test_cursor_beyond_text() {
    assert_eq!(cursor("Hello world", 20, 10), (1, 5));
}

#[test]
fn test_cursor_with_no_wrap_needed() {
    assert_eq!(cursor("Hello", 3, 20), (0, 3));
}

#[test]
fn test_cursor_with_newline() {
    assert_eq!(cursor("Line1\nLine2", 6, 20), (1, 0));
}

#[test]
fn test_cursor_in_second_line_after_newline() {
    assert_eq!(cursor("Line1\nLine2", 8, 20), (1, 2));
}

#[test]
fn test_cursor_with_multibyte_chars() {
    assert_eq!(cursor("Hello 世界", 6, 10), (0, 6));
    assert_eq!(cursor("Hello 世界", 6, 9), (1, 0));
}

#[test]
fn test_cursor_in_long_word_break() {
    assert_eq!(cursor("abcdefghij", 2, 5), (0, 2));
    assert_eq!(cursor("abcdefghij", 5, 5), (1, 0));
    assert_eq!(cursor("abcdefghij", 7, 5), (1, 2));
}

#[test]
fn test_cursor_trailing_spaces() {
    assert_eq!(cursor("Hello   ", 8, 10), (0, 8));
}

#[test]
fn test_cursor_single_trailing_space() {
    assert_eq!(cursor("Hello ", 6, 10), (0, 6));
}

#[test]
fn test_cursor_leading_spaces() {
    assert_eq!(cursor("   Hello", 3, 10), (0, 0));
}

#[test]
fn test_cursor_in_multiple_spaces_between_words() {
    let text = "word     another";
    assert_eq!(cursor(text, 4, 20), (0, 4));
    assert_eq!(cursor(text, 5, 20), (0, 5));
    assert_eq!(cursor(text, 6, 20), (0, 6));
    assert_eq!(cursor(text, 7, 20), (0, 7));
    assert_eq!(cursor(text, 9, 20), (0, 9));
    assert_eq!(cursor(text, 10, 20), (0, 10));
}

#[test]
fn test_cursor_multiple_spaces_with_wrapping() {
    let text = "Hello     world";
    assert_eq!(cursor(text, 5, 10), (0, 5));
    assert_eq!(cursor(text, 7, 10), (0, 5));
    assert_eq!(cursor(text, 10, 10), (1, 0));
}

#[test]
fn test_cursor_only_spaces() {
    assert_eq!(cursor("          ", 5, 20), (0, 0));
}

#[test]
fn test_cursor_multiple_spaces_no_wrapping() {
    let text = "Hello     world";
    assert_eq!(cursor(text, 5, 20), (0, 5));
    assert_eq!(cursor(text, 6, 20), (0, 6));
    assert_eq!(cursor(text, 9, 20), (0, 9));
    assert_eq!(cursor(text, 10, 20), (0, 10));
    assert_eq!(cursor(text, 15, 20), (0, 15));
}

#[test]
fn test_byte_to_char_ascii() {
    assert_eq!(byte_index_to_char_index("Hello", 0), 0);
    assert_eq!(byte_index_to_char_index("Hello", 2), 2);
    assert_eq!(byte_index_to_char_index("Hello", 5), 5);
}

#[test]
fn test_byte_to_char_multibyte() {
    let text = "世界";
    assert_eq!(byte_index_to_char_index(text, 0), 0);
    assert_eq!(byte_index_to_char_index(text, 1), 0);
    assert_eq!(byte_index_to_char_index(text, 2), 0);
    assert_eq!(byte_index_to_char_index(text, 3), 1);
    assert_eq!(byte_index_to_char_index(text, 6), 2);
}

#[test]
fn test_byte_to_char_mixed() {
    let text = "Hi世界";
    assert_eq!(byte_index_to_char_index(text, 0), 0);
    assert_eq!(byte_index_to_char_index(text, 1), 1);
    assert_eq!(byte_index_to_char_index(text, 2), 2);
    assert_eq!(byte_index_to_char_index(text, 5), 3);
}

#[test]
fn wrapped_lines_byte_ranges_follow_multibyte_text() {
    let lines = simulate_wrapped_lines("Hello 世界", 9);
    assert_eq!((lines[0].1, lines[0].2), (0, 6));
    assert_eq!((lines[1].1, lines[1].2), (6, 12));
}

#[test]
fn wrapped_lines_are_within_width_laws_example() {
    // Every line is a non-empty slice, trimmed, and no wider than the width (or one character).
    for line in simulate_wrapped_lines("  the quick  brown fox jumps\nover   the lazy dog  ", 7) {
        assert!(!line.0.is_empty());
        assert_eq!(line.0.trim(), line.0);
        assert!(line.0.chars().count() <= 7 || line.0.chars().count() == 1);
    }
}

#[test]
fn checked_cursor_position_refuses_a_cursor_inside_a_character() {
    // Byte 7 lies inside "世", which the column computation would have to slice.
    assert_eq!(wrapped_cursor_position("Hello 世界", 7, 10), None);
    assert_eq!(wrapped_cursor_position("Hello 世界", 9, 10), Some((0, 8)));
}

#[test]
fn display_column_counts_wide_characters_twice() {
    assert_eq!(calculate_display_column_in_range("Hello 世界", 0, 12, 12, true), 10);
    assert_eq!(calculate_display_column_in_range("  ab", 0, 4, 4, true), 2);
}

#[test]
fn truncate_keeps_short_strings_and_marks_cuts() {
    assert_eq!(truncate_string("short", 10), "short");
    assert_eq!(truncate_string("a longer sentence", 10), "a longe...");
}

#[test]
fn wrapped_lines_are_contiguous_trimmed_pieces() {
    let text = "one two  three\nfour abcdefghij x";
    let lines = simulate_wrapped_lines(text, 5);
    let chars: Vec<char> = text.chars().collect();
    for w in lines.windows(2) {
        let (a, b) = (&w[0], &w[1]);
        // Each line starts where the one before it ends, unless a line break ended it.
        assert!(a.4 == b.3 || chars[a.4] == '\n');
        // Between a line's text and the next line there is only whitespace.
        let content_end = a.3 + a.0.chars().count();
        assert!(chars[content_end..b.3].iter().all(|c| c.is_whitespace()));
    }
    let kept: String = lines.iter().flat_map(|l| l.0.chars()).filter(|c| !c.is_whitespace()).collect();
    let all: String = text.chars().filter(|c| !c.is_whitespace()).collect();
    assert_eq!(kept, all);
}

#[test]
fn wrapping_breaks_only_when_the_next_word_does_not_fit() {
    let lines = simulate_wrapped_lines("aa bb cc dddd", 5);
    let texts: Vec<&str> = lines.iter().map(|l| l.0.as_str()).collect();
    assert_eq!(texts, vec!["aa bb", "cc", "dddd"]);
    // "cc dddd" would be 7 columns wide.
}

#[test]
fn cursor_at_a_line_start_is_at_column_zero() {
    let text = "Hello world again\nnext";
    let lines = simulate_wrapped_lines(text, 8);
    for (k, l) in lines.iter().enumerate() {
        assert_eq!(calculate_wrapped_cursor_position(text, l.1, 8), (k, 0));
    }
}

#[test]
fn cursor_past_the_end_is_at_the_end() {
    let end = calculate_wrapped_cursor_position("Hello world", 11, 10);
    assert_eq!(calculate_wrapped_cursor_position("Hello world", 20, 10), end);
    assert_eq!(end, (1, 5));
    assert_eq!(calculate_wrapped_cursor_position("", 3, 10), (0, 0));
}
