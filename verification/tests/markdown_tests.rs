use interactive_flashcards::utils::markdown::{
    is_table_row, is_table_separator, parse_inline, parse_table_row, render_markdown, Color, SpanStyle,
    StyledLine,
};

fn joined(lines: &[StyledLine], sep: &str) -> String {
    lines.iter().map(|l| l.to_text()).collect::<Vec<_>>().join(sep)
}

#[test]
fn test_render_markdown_plain_text() {
    let result = render_markdown("Hello world");
    assert_eq!(result.len(), 1);
    assert_eq!(result[0].to_text(), "Hello world");
}

#[test]
fn test_render_markdown_multiline() {
    let result = render_markdown("Line 1\nLine 2");
    assert!(!result.is_empty());
    let combined = joined(&result, " ");
    assert!(combined.contains("Line 1"));
    assert!(combined.contains("Line 2"));
}

#[test]
fn test_table_detection() {
    assert!(is_table_row("| A | B |"));
    assert!(is_table_row("| A | B"));
    assert!(!is_table_row("no pipes here"));
    assert!(is_table_separator("|---|---|"));
    assert!(is_table_separator("| --- | :---: |"));
    assert!(!is_table_separator("| A | B |"));
}

#[test]
fn test_parse_table_row() {
    let row = parse_table_row("| Hello | World |");
    assert_eq!(row, vec!["Hello", "World"]);
}

#[test]
fn test_render_markdown_with_table() {
    let result = render_markdown("| Col1 | Col2 |\n|------|------|\n| A | B |");
    let combined = joined(&result, "\n");
    assert!(combined.contains("Col1"));
    assert!(combined.contains("A"));
    assert!(combined.contains("B"));
}

#[test]
fn test_table_mixed_with_text() {
    let result = render_markdown("Before\n\n| X | Y |\n|---|---|\n| 1 | 2 |\n\nAfter");
    let combined = joined(&result, "\n");
    assert!(combined.contains("Before"));
    assert!(combined.contains("After"));
    assert!(combined.contains("1"));
    assert!(combined.contains("2"));
}

#[test]
fn test_markdown_styling_actually_preserved() {
    let result = render_markdown("**bold**");
    let line = &result[0];
    assert_eq!(line.spans.len(), 1);
    assert!(line.spans[0].style.bold);
}

#[test]
fn test_italic_rendering() {
    let result = render_markdown("*italic*");
    let line = &result[0];
    assert_eq!(line.spans.len(), 1);
    assert!(line.spans[0].style.italic);
}

#[test]
fn test_code_rendering() {
    let result = render_markdown("`code`");
    let line = &result[0];
    assert_eq!(line.spans.len(), 1);
    assert_eq!(line.spans[0].content, "code");
}

#[test]
fn test_mixed_inline() {
    let result = render_markdown("Hello **bold** and *italic* world");
    let line = &result[0];
    assert!(line.spans.len() >= 5);
    assert_eq!(line.spans[0].content, "Hello ");
    assert!(line.spans[1].style.bold);
    assert_eq!(line.spans[1].content, "bold");
}

#[test]
fn test_unordered_list() {
    let result = render_markdown("- Item 1\n- Item 2\n* Item 3");
    assert_eq!(result.len(), 3);
    assert!(result[0].to_text().contains("•"));
    assert!(result[0].to_text().contains("Item 1"));
    assert!(result[2].to_text().contains("Item 3"));
}

#[test]
fn test_numbered_list() {
    let result = render_markdown("1. First\n2. Second");
    assert_eq!(result.len(), 2);
    assert!(result[0].to_text().contains("1."));
    assert!(result[0].to_text().contains("First"));
}

#[test]
fn test_heading() {
    let result = render_markdown("### My Heading");
    assert_eq!(result.len(), 1);
    assert!(result[0].spans[0].style.bold);
    assert_eq!(result[0].spans[0].content, "My Heading");
}

#[test]
fn test_bold_in_list() {
    let result = render_markdown("- **Important** item");
    let text = result[0].to_text();
    assert!(text.contains("•"));
    assert!(text.contains("Important"));
}

#[test]
fn test_empty_lines() {
    let result = render_markdown("Line 1\n\nLine 2");
    assert_eq!(result.len(), 3);
    assert_eq!(result[1].to_text(), "");
}

fn plain() -> SpanStyle {
    SpanStyle { bold: false, italic: false, underlined: false, dim: false, fg: None }
}

fn spans(text: &str) -> Vec<(String, SpanStyle)> {
    parse_inline(text).into_iter().map(|s| (s.content, s.style)).collect()
}

#[test]
fn inline_prefers_double_stars_then_single_then_backquotes() {
    let s = spans("a **b** c *d* e `f` g");
    let texts: Vec<&str> = s.iter().map(|x| x.0.as_str()).collect();
    assert_eq!(texts, vec!["a ", "b", " c ", "d", " e ", "f", " g"]);
    assert!(s[1].1.bold && !s[1].1.italic);
    assert!(s[3].1.italic && !s[3].1.bold);
    assert!(s[5].1.dim);
    assert_eq!(s[6].1, plain());
}

#[test]
fn inline_unclosed_double_star_falls_back_to_italic() {
    let s = spans("**a*");
    assert_eq!(s.len(), 1);
    assert_eq!(s[0].0, "*a");
    assert!(s[0].1.italic);
}

#[test]
fn inline_empty_text_is_one_empty_span() {
    let s = spans("");
    assert_eq!(s, vec![(String::new(), plain())]);
}

#[test]
fn inline_empty_code_is_not_code() {
    let s = spans("x `` y");
    assert_eq!(s, vec![("x `` y".to_string(), plain())]);
}

#[test]
fn headings_are_bold_and_underlined() {
    for text in ["# One", "## One", "### One", "  ## One  "] {
        let result = render_markdown(text);
        assert_eq!(result.len(), 1);
        assert_eq!(result[0].spans.len(), 1);
        assert_eq!(result[0].spans[0].content, "One");
        assert!(result[0].spans[0].style.bold && result[0].spans[0].style.underlined);
    }
    // No space after the hashes: plain text.
    assert_eq!(render_markdown("###One")[0].spans[0].style, plain());
}

#[test]
fn numbered_items_keep_their_number() {
    let result = render_markdown("12.   Twelfth *item*");
    let line = &result[0];
    assert_eq!(line.spans[0].content, "  12. ");
    assert_eq!(line.spans[1].content, "Twelfth ");
    assert_eq!(line.spans[2].content, "item");
    assert!(line.spans[2].style.italic);
    // Without whitespace after the dot it is not a list item.
    assert_eq!(render_markdown("3.x")[0].to_text(), "3.x");
}

#[test]
fn table_rows_become_header_value_lines() {
    let result = render_markdown("| Name | Age |\n|---|---|\n| Ann | 3 |\n| Bob | 4 | extra |");
    let texts: Vec<String> = result.iter().map(|l| l.to_text()).collect();
    assert_eq!(texts, vec!["Name: Ann", "Age: 3", "", "Name: Bob", "Age: 4", "?: extra"]);
    assert!(result[0].spans[0].style.bold);
    assert_eq!(result[0].spans[0].content, "Name: ");
}

#[test]
fn header_only_table_is_one_bold_line() {
    let result = render_markdown("| A | B |\n|---|---|");
    assert_eq!(result.len(), 1);
    assert_eq!(result[0].to_text(), "A │ B");
    assert!(result[0].spans[0].style.bold);
}

#[test]
fn table_cells_are_trimmed_between_outer_bars() {
    assert_eq!(parse_table_row("  ||a|  b ||  "), vec!["a", "b"]);
    assert_eq!(parse_table_row("|"), vec![""]);
}

#[test]
fn colors_compare_by_variant() {
    assert_ne!(Color::Cyan, Color::Green);
}

#[test]
fn text_without_markup_is_one_plain_span() {
    let s = spans("plain text, with punctuation!");
    assert_eq!(s, vec![("plain text, with punctuation!".to_string(), plain())]);
}
