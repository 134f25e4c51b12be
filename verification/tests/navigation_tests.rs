use interactive_flashcards::models::{AppState, Flashcard, UiMenuState, UiState, UiStateTypes};
use interactive_flashcards::navigation::{
    apply_scroll_with_bounds, handle_nav_key, handle_scroll, ui_state_of, MenuState, NavCommand,
};
use interactive_flashcards::session::{Key, KeyPress, QuizSession};

fn key(k: Key) -> KeyPress {
    KeyPress { key: k, ctrl: false }
}

fn menu_tuple(selected: usize) -> (AppState, Option<(usize, bool, bool, usize, usize, usize, usize, bool, usize, usize)>) {
    (AppState::Menu, Some((selected, false, false, 0, 0, 0, 0, false, 0, 0)))
}

#[test]
fn test_menu_navigation_triggers_ui_update() {
    let initial_state = menu_tuple(0);
    let after_navigation = menu_tuple(1);
    assert_ne!(initial_state, after_navigation);
    // The same holds of the state the application compares between frames.
    let mut app = AppState::Menu;
    let mut menu = MenuState::new();
    let before = ui_state_of(app, &menu, 0, None);
    handle_nav_key(&mut app, &mut menu, key(Key::Down), 2, 0);
    let after = ui_state_of(app, &menu, 0, None);
    assert_ne!(before, after);
}

#[test]
fn test_menu_navigation_boundary_wrapping() {
    let mut app = AppState::Menu;
    let mut menu = MenuState::new();
    handle_nav_key(&mut app, &mut menu, key(Key::Up), 2, 0);
    assert_eq!(menu.selected_file_index, 0);
    handle_nav_key(&mut app, &mut menu, key(Key::Down), 2, 0);
    assert_eq!(menu.selected_file_index, 1);
    handle_nav_key(&mut app, &mut menu, key(Key::Down), 2, 0);
    assert_eq!(menu.selected_file_index, 1);
}

#[test]
fn test_menu_delete_confirm_state_transition() {
    let mut app = AppState::Menu;
    let mut menu = MenuState::new();
    handle_nav_key(&mut app, &mut menu, key(Key::Char('2')), 1, 3);
    handle_nav_key(&mut app, &mut menu, key(Key::Char('d')), 1, 3);
    assert_eq!(app, AppState::MenuDeleteConfirm);
    let cmd = handle_nav_key(&mut app, &mut menu, key(Key::Char('n')), 1, 3);
    assert_eq!(app, AppState::Menu);
    assert_eq!(cmd, NavCommand::Nothing);
    handle_nav_key(&mut app, &mut menu, key(Key::Char('d')), 1, 3);
    assert_eq!(app, AppState::MenuDeleteConfirm);
    let cmd = handle_nav_key(&mut app, &mut menu, key(Key::Char('y')), 1, 3);
    assert_eq!(app, AppState::Menu);
    assert_eq!(cmd, NavCommand::DeleteSession { session_index: 0 });
}

#[test]
fn enter_starts_or_resumes_and_esc_quits() {
    let mut app = AppState::Menu;
    let mut menu = MenuState::new();
    assert_eq!(handle_nav_key(&mut app, &mut menu, key(Key::Enter), 2, 2), NavCommand::StartQuiz { file_index: 0 });
    assert_eq!(handle_nav_key(&mut app, &mut menu, key(Key::Enter), 0, 2), NavCommand::Nothing);
    handle_nav_key(&mut app, &mut menu, key(Key::Char('2')), 2, 2);
    handle_nav_key(&mut app, &mut menu, key(Key::Down), 2, 2);
    assert_eq!(handle_nav_key(&mut app, &mut menu, key(Key::Enter), 2, 2), NavCommand::ResumeSession { session_index: 1 });
    assert_eq!(handle_nav_key(&mut app, &mut menu, key(Key::Esc), 2, 2), NavCommand::Quit);
}

#[test]
fn ctrl_c_quits_everywhere() {
    for state in [AppState::Menu, AppState::MenuDeleteConfirm, AppState::Quiz, AppState::QuizQuitConfirm, AppState::Summary] {
        let mut app = state;
        let mut menu = MenuState::new();
        let cmd = handle_nav_key(&mut app, &mut menu, KeyPress { key: Key::Char('c'), ctrl: true }, 1, 1);
        assert_eq!(cmd, NavCommand::Quit);
        assert_eq!(app, state);
    }
}

#[test]
fn delete_needs_the_sessions_panel() {
    let mut app = AppState::Menu;
    let mut menu = MenuState::new();
    handle_nav_key(&mut app, &mut menu, key(Key::Char('d')), 1, 3);
    assert_eq!(app, AppState::Menu);
}

#[test]
fn quit_confirmation_and_summary_keys() {
    let mut menu = MenuState::new();
    let mut app = AppState::QuizQuitConfirm;
    assert_eq!(handle_nav_key(&mut app, &mut menu, key(Key::Char('n')), 0, 0), NavCommand::Nothing);
    assert_eq!(app, AppState::Quiz);
    assert_eq!(handle_nav_key(&mut app, &mut menu, key(Key::Char('a')), 0, 0), NavCommand::QuizInput);
    let mut app = AppState::QuizQuitConfirm;
    assert_eq!(handle_nav_key(&mut app, &mut menu, key(Key::Char('y')), 0, 0), NavCommand::CloseSession);
    assert_eq!(app, AppState::Menu);
    let mut app = AppState::Summary;
    assert_eq!(handle_nav_key(&mut app, &mut menu, key(Key::Char('R')), 0, 0), NavCommand::RetryAssessment);
    assert_eq!(handle_nav_key(&mut app, &mut menu, key(Key::Char('m')), 0, 0), NavCommand::CloseSession);
    assert_eq!(app, AppState::Menu);
}

#[test]
fn reloaded_session_list_keeps_selection_inside() {
    let mut menu = MenuState { selected_file_index: 0, selected_session_index: 4, focused_panel: 1 };
    menu.sessions_reloaded(3);
    assert_eq!(menu.selected_session_index, 2);
    menu.sessions_reloaded(0);
    assert_eq!(menu.selected_session_index, 2);
}

#[test]
fn scrolling_stays_within_bounds() {
    assert_eq!(apply_scroll_with_bounds(3, -5, 100), 0);
    assert_eq!(apply_scroll_with_bounds(3, 5, 100), 8);
    assert_eq!(apply_scroll_with_bounds(98, 5, 100), 100);
    let card = Flashcard {
        question: "Q".to_string(),
        answer: "A".to_string(),
        user_answer: Some("a".to_string()),
        ai_feedback: None,
        written_to_file: false,
        id: None,
    };
    let mut s = QuizSession::start(vec![card], "D".to_string(), 1, false);
    handle_scroll(AppState::Quiz, &mut s, false);
    assert_eq!(s.feedback_scroll_y, 0);
    s.showing_answer = true;
    handle_scroll(AppState::Quiz, &mut s, false);
    assert_eq!(s.feedback_scroll_y, 5);
    handle_scroll(AppState::Summary, &mut s, false);
    assert_eq!(s.assessment_scroll_y, 5);
    handle_scroll(AppState::Summary, &mut s, true);
    assert_eq!(s.assessment_scroll_y, 0);
}

#[test]
fn ui_state_tracks_quiz_progress() {
    let card = Flashcard {
        question: "Q".to_string(),
        answer: "A".to_string(),
        user_answer: None,
        ai_feedback: None,
        written_to_file: false,
        id: None,
    };
    let mut s = QuizSession::start(vec![card], "D".to_string(), 1, false);
    let menu = MenuState::new();
    let before = ui_state_of(AppState::Quiz, &menu, 0, Some(&s));
    s.input_buffer = "ab".to_string();
    s.cursor_position = 2;
    let after = ui_state_of(AppState::Quiz, &menu, 0, Some(&s));
    assert_ne!(before, after);
    match after.current {
        Some(UiStateTypes::Quiz(q)) => {
            assert_eq!(q.input_buffer_len, 2);
            assert_eq!(q.cursor_position, 2);
        }
        _ => panic!("expected the quiz state"),
    }
    let summary = ui_state_of(AppState::Summary, &menu, 0, Some(&s));
    assert_eq!(summary, UiState { app_state: AppState::Summary, current: None });
    let m = ui_state_of(AppState::Menu, &menu, 4, None);
    assert_eq!(
        m.current,
        Some(UiStateTypes::Menu(UiMenuState { selected_file_index: 0, selected_session_index: 0, focused_panel: 0, sessions_count: 4 }))
    );
}
