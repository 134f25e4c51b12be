use interactive_flashcards::chat::{rebuild_chat_cache, ChatState};
use interactive_flashcards::db::{
    flashcard_from_stored, get_data_dir, get_db_path, get_flashcards_dir, get_log_path, now, shuffle_deck, FlashcardData,
    SessionSummary,
};
use interactive_flashcards::layout::{calculate_quiz_chunks, calculate_summary_chunks, centered_rect, split_layout, Area, Constraint};
use interactive_flashcards::logger::log_line;
use interactive_flashcards::models::{ChatMessage, ChatRole, Flashcard};
use interactive_flashcards::text::{char_display_width, char_utf8_len, is_whitespace};
use interactive_flashcards::ui::{
    format_session_date, format_session_date_at, format_session_item, session_item_with_date, CalendarDate, LocalDateTime,
};
use interactive_flashcards::utils::markdown::Color;

#[test]
fn test_chat_role_roundtrip() {
    assert_eq!(ChatRole::parse(ChatRole::User.as_str()), ChatRole::User);
    assert_eq!(ChatRole::parse(ChatRole::Assistant.as_str()), ChatRole::Assistant);
    assert_eq!(ChatRole::parse(ChatRole::System.as_str()), ChatRole::System);
}

#[test]
fn unknown_chat_role_reads_as_user() {
    assert_eq!(ChatRole::parse("robot"), ChatRole::User);
    assert_eq!(ChatRole::Assistant.as_str(), "assistant");
}

#[test]
fn test_quiz_layout() {
    let layout = calculate_quiz_chunks(Area { x: 0, y: 0, width: 100, height: 100 });
    assert_eq!(layout.header_area.height, 3);
    assert_eq!(layout.help_area.height, 4);
    assert!(layout.answer_area.height > 0);
    assert!(layout.question_area.height > 0);
}

#[test]
fn test_summary_layout() {
    let layout = calculate_summary_chunks(Area { x: 0, y: 0, width: 100, height: 100 });
    assert_eq!(layout.header_area.height, 3);
    assert_eq!(layout.footer_area.height, 3);
    assert_eq!(layout.content_area.height, 92);
}

#[test]
fn centered_popup_sits_in_the_middle() {
    let r = centered_rect(50, 50, Area { x: 0, y: 0, width: 100, height: 40 });
    assert_eq!((r.x, r.y, r.width, r.height), (25, 10, 50, 20));
}

fn when(year: i32, month: u32, day: u32, hour: u32, minute: u32) -> LocalDateTime {
    LocalDateTime { year, month, day, hour, minute }
}

#[test]
fn session_dates_are_relative_to_today() {
    let today = CalendarDate { year: 2024, month: 3, day: 5 };
    let yesterday = Some(CalendarDate { year: 2024, month: 3, day: 4 });
    assert_eq!(format_session_date_at(when(2024, 3, 5, 9, 7), today, yesterday), "Today 09:07");
    assert_eq!(format_session_date_at(when(2024, 3, 4, 23, 59), today, yesterday), "Yesterday 23:59");
    assert_eq!(format_session_date_at(when(2024, 3, 1, 12, 0), today, yesterday), "2024-03-01");
    assert_eq!(format_session_date_at(when(987, 12, 31, 0, 0), today, yesterday), "0987-12-31");
    assert_eq!(format_session_date_at(when(12345, 1, 2, 0, 0), today, yesterday), "+12345-01-02");
    assert_eq!(format_session_date_at(when(-5, 1, 2, 0, 0), today, None), "-0005-01-02");
}

#[test]
fn session_dates_from_the_clock_have_one_of_three_forms() {
    let text = format_session_date(0);
    assert!(
        text.starts_with("Today ") || text.starts_with("Yesterday ") || (text.len() == 10 && text.as_bytes()[4] == b'-')
    );
}

#[test]
fn sessions_of_today_and_yesterday_are_labelled() {
    let now = now().unwrap();
    let today = format_session_date(now);
    assert!(today.starts_with("Today "), "{}", today);
    // Twenty-five hours back is yesterday (or, across a clock change, two days back).
    let earlier = format_session_date(now - 25 * 3600 + 1800);
    assert!(earlier.starts_with("Yesterday ") || earlier.len() == 10, "{}", earlier);
    let long_ago = format_session_date(86400 * 365 * 10);
    assert!(long_ago.starts_with("1979-12-") || long_ago.starts_with("1980-01-0"), "{}", long_ago);
}

fn summary(completed: bool) -> SessionSummary {
    SessionSummary {
        id: 1,
        deck_name: "Rust".to_string(),
        started_at: 0,
        completed_at: if completed { Some(10) } else { None },
        questions_total: 12,
        questions_answered: 3,
    }
}

#[test]
fn session_items_show_status() {
    assert_eq!(session_item_with_date(&summary(false), "Today 10:00"), "Today 10:00 - Rust (3/12)");
    assert_eq!(session_item_with_date(&summary(true), "2020-01-01"), "2020-01-01 - Rust (COMPLETED)");
    assert!(format_session_item(&summary(false)).ends_with(" - Rust (3/12)"));
}

#[test]
fn database_lives_under_the_home_directory() {
    assert_eq!(get_data_dir(Some("/home/ann"), false), "/home/ann/.local/share/interactive-flashcards");
    assert_eq!(get_db_path(Some("/home/ann"), false), "/home/ann/.local/share/interactive-flashcards/if.db");
    assert_eq!(get_db_path(None, false), "/home/user/.local/share/interactive-flashcards/if.db");
}

#[test]
fn data_dir_separators() {
    assert_eq!(get_data_dir(Some("/home/ann/"), false), "/home/ann/.local/share/interactive-flashcards");
    assert_eq!(get_data_dir(Some(""), false), ".local/share/interactive-flashcards");
    assert_eq!(
        get_db_path(None, true),
        "C:\\Users\\User\\.local\\share\\interactive-flashcards\\if.db"
    );
    assert_eq!(get_data_dir(Some("D:"), true), "D:.local\\share\\interactive-flashcards");
    assert_eq!(get_data_dir(Some("D:/x/"), true), "D:/x/.local\\share\\interactive-flashcards");
}

#[test]
fn clock_is_after_the_epoch() {
    assert!(now().unwrap() > 1_600_000_000);
}

#[test]
fn stored_cards_come_back_written() {
    let card = flashcard_from_stored(FlashcardData {
        id: 8,
        session_id: 2,
        created_at: 0,
        updated_at: 0,
        question: "Q".to_string(),
        answer: "A".to_string(),
        user_answer: Some("u".to_string()),
        ai_feedback: None,
        answered_at: Some(1),
        display_order: 0,
    });
    assert!(card.written_to_file);
    assert_eq!(card.id, Some(8));
    assert_eq!(card.user_answer.as_deref(), Some("u"));
}

#[test]
fn shuffled_deck_keeps_every_card() {
    let mut cards: Vec<Flashcard> = (0..20)
        .map(|i| Flashcard {
            question: format!("Q{}", i),
            answer: format!("A{}", i),
            user_answer: None,
            ai_feedback: None,
            written_to_file: false,
            id: None,
        })
        .collect();
    shuffle_deck(&mut cards);
    let mut qs: Vec<String> = cards.iter().map(|c| c.question.clone()).collect();
    qs.sort();
    let mut expected: Vec<String> = (0..20).map(|i| format!("Q{}", i)).collect();
    expected.sort();
    assert_eq!(qs, expected);
}

#[test]
fn log_lines_carry_the_timestamp() {
    assert_eq!(log_line(1700000000, "Application started"), "[1700000000] Application started");
}

#[test]
fn chat_cache_labels_and_indents_messages() {
    let mut chat = ChatState {
        flashcard_id: 1,
        session_id: 1,
        messages: vec![
            ChatMessage { id: None, role: ChatRole::User, content: "why?\nreally".to_string(), message_order: 0 },
            ChatMessage { id: None, role: ChatRole::Assistant, content: "**Because**".to_string(), message_order: 1 },
            ChatMessage { id: None, role: ChatRole::System, content: "note".to_string(), message_order: 2 },
        ],
        input_buffer: String::new(),
        cursor_position: 0,
        scroll_y: 0,
        is_loading: false,
        error: None,
        read_only: false,
        rendered_lines_cache: Vec::new(),
        cached_message_count: 0,
        max_scroll: 0,
    };
    rebuild_chat_cache(&mut chat);
    let texts: Vec<String> = chat.rendered_lines_cache.iter().map(|l| l.to_text()).collect();
    assert_eq!(texts, vec!["You:", "  why?", "  really", "", "AI:", "  Because", "", "note", ""]);
    assert_eq!(chat.cached_message_count, 3);
    assert_eq!(chat.rendered_lines_cache[0].spans[0].style.fg, Some(Color::Cyan));
    assert!(chat.rendered_lines_cache[5].spans[1].style.bold);
    assert_eq!(chat.rendered_lines_cache[7].spans[0].style.fg, Some(Color::DarkGray));
}

#[test]
fn whitespace_matches_std_for_every_char() {
    for v in 0u32..=0x10FFFF {
        if let Some(c) = char::from_u32(v) {
            assert_eq!(is_whitespace(c), c.is_whitespace(), "{:x}", v);
            assert_eq!(char_utf8_len(c), c.len_utf8());
        }
    }
}

#[test]
fn display_width_follows_unicode_width() {
    assert_eq!(char_display_width('a'), 1);
    assert_eq!(char_display_width('世'), 2);
    assert_eq!(char_display_width('\u{7}'), 1);
    assert_eq!(char_display_width('\u{301}'), 0);
}

#[test]
fn deck_and_log_paths_are_in_the_data_directory() {
    assert_eq!(get_flashcards_dir(Some("/home/ann"), false), "/home/ann/.local/share/interactive-flashcards/flashcards");
    assert_eq!(get_log_path(Some("/home/ann"), false), "/home/ann/.local/share/interactive-flashcards/ai_debug.log");
    assert_eq!(get_log_path(None, true), "C:\\Users\\User\\.local\\share\\interactive-flashcards\\ai_debug.log");
}

#[test]
fn split_layout_gives_one_part_per_constraint_inside_the_margin() {
    let area = Area { x: 0, y: 0, width: 20, height: 30 };
    let parts = split_layout(area, true, 1, &vec![Constraint::Length(3), Constraint::Min(1), Constraint::Length(3)]);
    assert_eq!(parts.len(), 3);
    assert_eq!(parts[0], Area { x: 1, y: 1, width: 18, height: 3 });
    assert_eq!(parts[2], Area { x: 1, y: 26, width: 18, height: 3 });
    for p in &parts {
        assert_eq!((p.x, p.width), (1, 18));
        assert!(p.y >= 1 && p.y + p.height <= 29);
    }
}
