//! The screens around the quiz: the menu with its deck and session panels, the
//! delete and quit confirmations, and the summary. Which key does what there, and
//! what is left to the caller (loading decks, storage, the AI worker).
use crate::models::{AppState, Flashcard, UiMenuState, UiQuizState, UiState, UiStateTypes};
use crate::session::{Key, KeyPress, QuizSession};
use crate::text::{byte_len, byte_len_upto, chars_of};
use vstd::prelude::*;

verus! {

/// The menu's selection: a deck file (panel 0) and a stored session (panel 1).
#[derive(Debug, Clone, Copy, PartialEq, Eq, Structural)]
pub struct MenuState {
    pub selected_file_index: usize,
    pub selected_session_index: usize,
    /// 0: the deck files; any other value: the stored sessions.
    pub focused_panel: usize,
}

/// Work a key press outside the quiz leaves to the caller.
#[derive(Debug, Clone, Copy, PartialEq, Eq, Structural)]
pub enum NavCommand {
    Nothing,
    /// Leave the application.
    Quit,
    /// Start a quiz on the deck file with this index.
    StartQuiz { file_index: usize },
    /// Resume the stored session with this index in the list.
    ResumeSession { session_index: usize },
    /// Delete the stored session with this index in the list, then reload the list.
    DeleteSession { session_index: usize },
    /// Drop the quiz and reload the session list.
    CloseSession,
    /// Ask again for the session's assessment.
    RetryAssessment,
    /// The key belongs to the quiz screen.
    QuizInput,
}

pub open spec fn is_char_key(k: KeyPress, c: char) -> bool {
    k.key == Key::Char(c)
}

/// The menu after a key press on the menu screen, with `files` deck files and
/// `sessions` stored sessions.
pub open spec fn menu_after(m: MenuState, k: KeyPress, files: nat, sessions: nat) -> MenuState {
    if is_char_key(k, '1') {
        MenuState { focused_panel: 0, ..m }
    } else if is_char_key(k, '2') {
        MenuState { focused_panel: 1, ..m }
    } else if k.key == Key::Up {
        if m.focused_panel == 0 {
            MenuState { selected_file_index: if m.selected_file_index > 0 { (m.selected_file_index - 1) as usize } else { 0 }, ..m }
        } else {
            MenuState { selected_session_index: if m.selected_session_index > 0 { (m.selected_session_index - 1) as usize } else { 0 }, ..m }
        }
    } else if k.key == Key::Down {
        if m.focused_panel == 0 {
            if m.selected_file_index + 1 < files {
                MenuState { selected_file_index: (m.selected_file_index + 1) as usize, ..m }
            } else {
                m
            }
        } else if m.selected_session_index + 1 < sessions {
            MenuState { selected_session_index: (m.selected_session_index + 1) as usize, ..m }
        } else {
            m
        }
    } else {
        m
    }
}

/// What a key press on the menu screen asks for.
pub open spec fn menu_command(m: MenuState, k: KeyPress, files: nat, sessions: nat) -> NavCommand {
    if k.key == Key::Enter {
        if m.focused_panel == 0 {
            if files > 0 {
                NavCommand::StartQuiz { file_index: m.selected_file_index }
            } else {
                NavCommand::Nothing
            }
        } else if sessions > 0 && m.selected_session_index < sessions {
            NavCommand::ResumeSession { session_index: m.selected_session_index }
        } else {
            NavCommand::Nothing
        }
    } else if k.key == Key::Esc {
        NavCommand::Quit
    } else {
        NavCommand::Nothing
    }
}

/// How a key press outside the quiz changes the screen (`app` to `app2`) and the menu
/// (`m` to `m2`), and what it leaves to the caller. Ctrl+C quits everywhere.
pub open spec fn nav_step(
    app: AppState,
    m: MenuState,
    k: KeyPress,
    files: nat,
    sessions: nat,
    app2: AppState,
    m2: MenuState,
    cmd: NavCommand,
) -> bool {
    if is_char_key(k, 'c') && k.ctrl {
        app2 == app && m2 == m && cmd == NavCommand::Quit
    } else {
        match app {
            AppState::Menu => {
                &&& m2 == menu_after(m, k, files, sessions)
                &&& if is_char_key(k, 'd') && m.focused_panel == 1 && sessions > 0 {
                    app2 == AppState::MenuDeleteConfirm && cmd == NavCommand::Nothing
                } else {
                    app2 == app && cmd == menu_command(m, k, files, sessions)
                }
            },
            AppState::MenuDeleteConfirm => {
                &&& m2 == m
                &&& if is_char_key(k, 'y') {
                    &&& app2 == AppState::Menu
                    &&& cmd == if sessions > 0 && m.selected_session_index < sessions {
                        NavCommand::DeleteSession { session_index: m.selected_session_index }
                    } else {
                        NavCommand::Nothing
                    }
                } else if is_char_key(k, 'n') || k.key == Key::Esc {
                    app2 == AppState::Menu && cmd == NavCommand::Nothing
                } else {
                    app2 == app && cmd == NavCommand::Nothing
                }
            },
            AppState::Quiz => app2 == app && m2 == m && cmd == NavCommand::QuizInput,
            AppState::QuizQuitConfirm => {
                &&& m2 == m
                &&& if is_char_key(k, 'y') {
                    app2 == AppState::Menu && cmd == NavCommand::CloseSession
                } else if is_char_key(k, 'n') {
                    app2 == AppState::Quiz && cmd == NavCommand::Nothing
                } else {
                    app2 == app && cmd == NavCommand::Nothing
                }
            },
            AppState::Summary => {
                &&& m2 == m
                &&& if is_char_key(k, 'm') {
                    app2 == AppState::Menu && cmd == NavCommand::CloseSession
                } else if is_char_key(k, 'r') || is_char_key(k, 'R') {
                    app2 == app && cmd == NavCommand::RetryAssessment
                } else if k.key == Key::Esc {
                    app2 == app && cmd == NavCommand::Quit
                } else {
                    app2 == app && cmd == NavCommand::Nothing
                }
            },
        }
    }
}

/// Up in the menu moves the focused panel's selection one entry back (it stays on the
/// first), and leaves the other panel's selection and the focus as they were.
pub proof fn lemma_menu_up(m: MenuState, ctrl: bool, files: nat, sessions: nat, app2: AppState, m2: MenuState, cmd: NavCommand)
    requires
        nav_step(AppState::Menu, m, KeyPress { key: Key::Up, ctrl }, files, sessions, app2, m2, cmd),
    ensures
        m2.focused_panel == m.focused_panel,
        m.focused_panel == 0 ==> {
            &&& m2.selected_session_index == m.selected_session_index
            &&& m.selected_file_index > 0 ==> m2.selected_file_index + 1 == m.selected_file_index
            &&& m.selected_file_index == 0 ==> m2.selected_file_index == 0
        },
        m.focused_panel != 0 ==> {
            &&& m2.selected_file_index == m.selected_file_index
            &&& m.selected_session_index > 0 ==> m2.selected_session_index + 1 == m.selected_session_index
            &&& m.selected_session_index == 0 ==> m2.selected_session_index == 0
        },
        app2 == AppState::Menu,
        cmd == NavCommand::Nothing,
{
}

/// Down in the menu moves the focused panel's selection one entry on while there is a
/// next entry, and otherwise leaves it.
pub proof fn lemma_menu_down(m: MenuState, ctrl: bool, files: nat, sessions: nat, app2: AppState, m2: MenuState, cmd: NavCommand)
    requires
        nav_step(AppState::Menu, m, KeyPress { key: Key::Down, ctrl }, files, sessions, app2, m2, cmd),
        files <= usize::MAX,
        sessions <= usize::MAX,
    ensures
        m2.focused_panel == m.focused_panel,
        app2 == AppState::Menu,
        cmd == NavCommand::Nothing,
        m.focused_panel == 0 ==> {
            &&& m2.selected_session_index == m.selected_session_index
            &&& m.selected_file_index + 1 < files ==> m2.selected_file_index == m.selected_file_index + 1
            &&& m.selected_file_index + 1 >= files ==> m2.selected_file_index == m.selected_file_index
        },
        m.focused_panel != 0 ==> {
            &&& m2.selected_file_index == m.selected_file_index
            &&& m.selected_session_index + 1 < sessions ==> m2.selected_session_index == m.selected_session_index + 1
            &&& m.selected_session_index + 1 >= sessions ==> m2.selected_session_index == m.selected_session_index
        },
{
}

/// In the menu, Down then Up comes back to the selection one started on when there was
/// a next entry, and so does Up then Down from any entry but the first.
pub proof fn lemma_menu_down_up(
    m0: MenuState,
    files: nat,
    sessions: nat,
    a1: AppState,
    m1: MenuState,
    c1: NavCommand,
    a2: AppState,
    m2: MenuState,
    c2: NavCommand,
    up_first: bool,
)
    requires
        files <= usize::MAX,
        sessions <= usize::MAX,
        up_first ==> {
            &&& nav_step(AppState::Menu, m0, KeyPress { key: Key::Up, ctrl: false }, files, sessions, a1, m1, c1)
            &&& nav_step(a1, m1, KeyPress { key: Key::Down, ctrl: false }, files, sessions, a2, m2, c2)
            &&& (if m0.focused_panel == 0 {
                0 < m0.selected_file_index < files
            } else {
                0 < m0.selected_session_index < sessions
            })
        },
        !up_first ==> {
            &&& nav_step(AppState::Menu, m0, KeyPress { key: Key::Down, ctrl: false }, files, sessions, a1, m1, c1)
            &&& nav_step(a1, m1, KeyPress { key: Key::Up, ctrl: false }, files, sessions, a2, m2, c2)
            &&& (if m0.focused_panel == 0 { m0.selected_file_index + 1 < files } else { m0.selected_session_index + 1 < sessions })
        },
    ensures
        m2 == m0,
        a2 == AppState::Menu,
{
    if up_first {
        lemma_menu_up(m0, false, files, sessions, a1, m1, c1);
        lemma_menu_down(m1, false, files, sessions, a2, m2, c2);
    } else {
        lemma_menu_down(m0, false, files, sessions, a1, m1, c1);
        lemma_menu_up(m1, false, files, sessions, a2, m2, c2);
    }
}

/// Enter in the menu opens what is selected: the selected deck when the deck panel has
/// focus, the selected stored session when the session panel has; nothing when the
/// panel is empty. The menu itself stays as it was.
pub proof fn lemma_enter_opens_selection(
    m: MenuState,
    files: nat,
    sessions: nat,
    app2: AppState,
    m2: MenuState,
    cmd: NavCommand,
)
    requires
        selection_valid(m, files, sessions),
        nav_step(AppState::Menu, m, KeyPress { key: Key::Enter, ctrl: false }, files, sessions, app2, m2, cmd),
    ensures
        m2 == m,
        app2 == AppState::Menu,
        m.focused_panel == 0 && files > 0 ==> cmd == (NavCommand::StartQuiz { file_index: m.selected_file_index }),
        m.focused_panel != 0 && sessions > 0 ==> cmd == (NavCommand::ResumeSession {
            session_index: m.selected_session_index,
        }),
        (m.focused_panel == 0 && files == 0) || (m.focused_panel != 0 && sessions == 0) ==> cmd
            == NavCommand::Nothing,
{
}

/// Deleting a stored session asks first: `d` on the session panel opens the
/// confirmation, where `y` deletes the selected session and `n` deletes nothing; either
/// way the menu comes back with its selection unchanged.
pub proof fn lemma_delete_asks_first(
    m: MenuState,
    files: nat,
    sessions: nat,
    confirm: bool,
    a1: AppState,
    m1: MenuState,
    c1: NavCommand,
    a2: AppState,
    m2: MenuState,
    c2: NavCommand,
)
    requires
        m.focused_panel == 1,
        m.selected_session_index < sessions,
        nav_step(AppState::Menu, m, KeyPress { key: Key::Char('d'), ctrl: false }, files, sessions, a1, m1, c1),
        nav_step(
            a1,
            m1,
            KeyPress { key: Key::Char(if confirm { 'y' } else { 'n' }), ctrl: false },
            files,
            sessions,
            a2,
            m2,
            c2,
        ),
    ensures
        a1 == AppState::MenuDeleteConfirm,
        c1 == NavCommand::Nothing,
        a2 == AppState::Menu,
        m2 == m,
        confirm ==> c2 == (NavCommand::DeleteSession { session_index: m.selected_session_index }),
        !confirm ==> c2 == NavCommand::Nothing,
{
}

/// Leaving a quiz asks first: on the confirmation `y` closes the session and returns
/// to the menu, `n` returns to the quiz, and any other key waits.
pub proof fn lemma_quit_confirm(m: MenuState, k: KeyPress, files: nat, sessions: nat, app2: AppState, m2: MenuState, cmd: NavCommand)
    requires
        !k.ctrl,
        nav_step(AppState::QuizQuitConfirm, m, k, files, sessions, app2, m2, cmd),
    ensures
        m2 == m,
        k.key == Key::Char('y') ==> app2 == AppState::Menu && cmd == NavCommand::CloseSession,
        k.key == Key::Char('n') ==> app2 == AppState::Quiz && cmd == NavCommand::Nothing,
        k.key != Key::Char('y') && k.key != Key::Char('n') ==> app2 == AppState::QuizQuitConfirm && cmd
            == NavCommand::Nothing,
{
}

/// On the menu, `1` focuses the deck panel and `2` the session panel, keeping both
/// selections; Ctrl+C quits from any screen and changes nothing else.
pub proof fn lemma_focus_and_quit_keys(
    app: AppState,
    m: MenuState,
    k: KeyPress,
    files: nat,
    sessions: nat,
    app2: AppState,
    m2: MenuState,
    cmd: NavCommand,
)
    requires
        nav_step(app, m, k, files, sessions, app2, m2, cmd),
    ensures
        app == AppState::Menu && !k.ctrl && k.key == Key::Char('1') ==> m2 == (MenuState { focused_panel: 0, ..m })
            && app2 == AppState::Menu && cmd == NavCommand::Nothing,
        app == AppState::Menu && !k.ctrl && k.key == Key::Char('2') ==> m2 == (MenuState { focused_panel: 1, ..m })
            && app2 == AppState::Menu && cmd == NavCommand::Nothing,
        k.ctrl && k.key == Key::Char('c') ==> cmd == NavCommand::Quit && app2 == app && m2 == m,
{
}

/// On the summary, `m` closes the session and returns to the menu, `r` (or `R`) asks
/// again for the assessment, and Esc quits.
pub proof fn lemma_summary_keys(m: MenuState, k: KeyPress, files: nat, sessions: nat, app2: AppState, m2: MenuState, cmd: NavCommand)
    requires
        !k.ctrl,
        nav_step(AppState::Summary, m, k, files, sessions, app2, m2, cmd),
    ensures
        m2 == m,
        k.key == Key::Char('m') ==> app2 == AppState::Menu && cmd == NavCommand::CloseSession,
        k.key == Key::Char('r') || k.key == Key::Char('R') ==> app2 == AppState::Summary && cmd
            == NavCommand::RetryAssessment,
        k.key == Key::Esc ==> cmd == NavCommand::Quit,
{
}

/// The selection points at an existing deck file and stored session, where there are any.
pub open spec fn selection_valid(m: MenuState, files: nat, sessions: nat) -> bool {
    &&& (files > 0 ==> m.selected_file_index < files)
    &&& (sessions > 0 ==> m.selected_session_index < sessions)
}

impl MenuState {
    /// The menu as the application starts: first deck, first session, deck panel.
    pub fn new() -> (m: MenuState)
        ensures
            m.selected_file_index == 0,
            m.selected_session_index == 0,
            m.focused_panel == 0,
    {
        MenuState { selected_file_index: 0, selected_session_index: 0, focused_panel: 0 }
    }

    /// After the session list was reloaded with `sessions` entries: a selection past its
    /// end moves to the last entry.
    pub fn sessions_reloaded(&mut self, sessions: usize)
        ensures
            final(self).selected_session_index == if old(self).selected_session_index >= sessions && sessions > 0 {
                (sessions - 1) as usize
            } else {
                old(self).selected_session_index
            },
            final(self).selected_file_index == old(self).selected_file_index,
            final(self).focused_panel == old(self).focused_panel,
    {
        if self.selected_session_index >= sessions && sessions > 0 {
            self.selected_session_index = sessions - 1;
        }
    }
}

/// Handles a key press outside the quiz, with `files_count` deck files and
/// `sessions_count` stored sessions listed. In the menu: 1 and 2 focus a panel, the
/// arrows move the focused selection without leaving the list, Enter starts a quiz on
/// the selected deck or resumes the selected session, d asks to delete the selected
/// session, Esc quits. y and n answer the confirmations; on the summary, m goes back
/// to the menu and r retries the assessment.
pub fn handle_nav_key(
    app_state: &mut AppState,
    menu: &mut MenuState,
    key: KeyPress,
    files_count: usize,
    sessions_count: usize,
) -> (cmd: NavCommand)
    ensures
        nav_step(
            *old(app_state),
            *old(menu),
            key,
            files_count as nat,
            sessions_count as nat,
            *final(app_state),
            *final(menu),
            cmd,
        ),
{
    if key.key == Key::Char('c') && key.ctrl {
        return NavCommand::Quit;
    }
    match *app_state {
        AppState::Menu => {
            match key.key {
                Key::Char('1') => {
                    menu.focused_panel = 0;
                },
                Key::Char('2') => {
                    menu.focused_panel = 1;
                },
                Key::Up => {
                    if menu.focused_panel == 0 {
                        if menu.selected_file_index > 0 {
                            menu.selected_file_index = menu.selected_file_index - 1;
                        }
                    } else if menu.selected_session_index > 0 {
                        menu.selected_session_index = menu.selected_session_index - 1;
                    }
                },
                Key::Down => {
                    if menu.focused_panel == 0 {
                        if files_count > 0 && menu.selected_file_index < files_count - 1 {
                            menu.selected_file_index = menu.selected_file_index + 1;
                        }
                    } else if sessions_count > 0 && menu.selected_session_index < sessions_count - 1 {
                        menu.selected_session_index = menu.selected_session_index + 1;
                    }
                },
                Key::Enter => {
                    if menu.focused_panel == 0 {
                        if files_count > 0 {
                            return NavCommand::StartQuiz { file_index: menu.selected_file_index };
                        }
                    } else if sessions_count > 0 && menu.selected_session_index < sessions_count {
                        return NavCommand::ResumeSession { session_index: menu.selected_session_index };
                    }
                },
                Key::Char('d') => {
                    if menu.focused_panel == 1 && sessions_count > 0 {
                        *app_state = AppState::MenuDeleteConfirm;
                    }
                },
                Key::Esc => {
                    return NavCommand::Quit;
                },
                _ => {},
            }
            NavCommand::Nothing
        },
        AppState::MenuDeleteConfirm => {
            match key.key {
                Key::Char('y') => {
                    *app_state = AppState::Menu;
                    if sessions_count > 0 && menu.selected_session_index < sessions_count {
                        return NavCommand::DeleteSession { session_index: menu.selected_session_index };
                    }
                },
                Key::Char('n') | Key::Esc => {
                    *app_state = AppState::Menu;
                },
                _ => {},
            }
            NavCommand::Nothing
        },
        AppState::Quiz => NavCommand::QuizInput,
        AppState::QuizQuitConfirm => {
            match key.key {
                Key::Char('y') => {
                    *app_state = AppState::Menu;
                    NavCommand::CloseSession
                },
                Key::Char('n') => {
                    *app_state = AppState::Quiz;
                    NavCommand::Nothing
                },
                _ => NavCommand::Nothing,
            }
        },
        AppState::Summary => {
            match key.key {
                Key::Char('m') => {
                    *app_state = AppState::Menu;
                    NavCommand::CloseSession
                },
                Key::Char('r') | Key::Char('R') => NavCommand::RetryAssessment,
                Key::Esc => NavCommand::Quit,
                _ => NavCommand::Nothing,
            }
        },
    }
}

/// Keys never move the selection off the lists: from a selection that points at an
/// existing deck and session, every key press leaves one that does, and a quiz is only
/// started on an existing deck.
pub proof fn lemma_selection_stays_valid(
    app: AppState,
    m: MenuState,
    k: KeyPress,
    files: nat,
    sessions: nat,
    app2: AppState,
    m2: MenuState,
    cmd: NavCommand,
)
    requires
        selection_valid(m, files, sessions),
        nav_step(app, m, k, files, sessions, app2, m2, cmd),
    ensures
        selection_valid(m2, files, sessions),
        cmd matches NavCommand::StartQuiz { file_index } ==> file_index < files,
        cmd matches NavCommand::ResumeSession { session_index } ==> session_index < sessions,
        cmd matches NavCommand::DeleteSession { session_index } ==> session_index < sessions,
{
}

/// A lines offset after scrolling by `delta` lines, kept within `0..=max`.
pub open spec fn scrolled(current: int, delta: int, max: int) -> int {
    let v = current + delta;
    if v < 0 {
        0
    } else if v > max {
        max
    } else {
        v
    }
}

/// Scrolls `current` by `delta` lines, within `0..=max`.
pub fn apply_scroll_with_bounds(current: u16, delta: i16, max: u16) -> (res: u16)
    ensures
        res == scrolled(current as int, delta as int, max as int),
{
    let v: i32 = current as i32 + delta as i32;
    if v < 0 {
        0
    } else if v > max as i32 {
        max
    } else {
        v as u16
    }
}


/// Lines one turn of the mouse wheel scrolls.
pub const SCROLL_LINES_PER_EVENT: i16 = 5;

/// How a turn of the wheel (`up` or down) changes the session: on the quiz screen it
/// scrolls the AI feedback while the answer is shown, on the summary the assessment.
pub open spec fn scroll_step(app: AppState, s: QuizSession, up: bool, new: QuizSession) -> bool {
    let delta: int = if up {
        -5
    } else {
        5
    };
    if app == AppState::Quiz && s.showing_answer {
        new == QuizSession { feedback_scroll_y: scrolled(s.feedback_scroll_y as int, delta, u16::MAX as int) as u16, ..s }
    } else if app == AppState::Summary {
        new == QuizSession { assessment_scroll_y: scrolled(s.assessment_scroll_y as int, delta, u16::MAX as int) as u16, ..s }
    } else {
        new == s
    }
}

/// Scrolls the feedback or the assessment by a turn of the mouse wheel.
pub fn handle_scroll(app_state: AppState, session: &mut QuizSession, up: bool)
    ensures
        scroll_step(app_state, *old(session), up, *final(session)),
{
    let delta: i16 = if up {
        -SCROLL_LINES_PER_EVENT
    } else {
        SCROLL_LINES_PER_EVENT
    };
    if app_state == AppState::Quiz && session.showing_answer {
        session.feedback_scroll_y = apply_scroll_with_bounds(session.feedback_scroll_y, delta, u16::MAX);
    } else if app_state == AppState::Summary {
        session.assessment_scroll_y = apply_scroll_with_bounds(session.assessment_scroll_y, delta, u16::MAX);
    }
}

/// Number of cards with an AI verdict.
pub open spec fn feedback_count(cards: Seq<Flashcard>) -> nat
    decreases cards.len(),
{
    if cards.len() == 0 {
        0
    } else {
        feedback_count(cards.drop_last()) + if cards.last().ai_feedback is Some {
            1nat
        } else {
            0nat
        }
    }
}

/// The verdict count is the number of cards that hold an AI verdict.
pub proof fn lemma_feedback_count_counts(cards: Seq<Flashcard>)
    ensures
        feedback_count(cards) == cards.filter(|c: Flashcard| c.ai_feedback is Some).len(),
    decreases cards.len(),
{
    reveal(Seq::filter);
    if cards.len() > 0 {
        lemma_feedback_count_counts(cards.drop_last());
    }
}

pub proof fn lemma_feedback_count_bound(cards: Seq<Flashcard>)
    ensures
        feedback_count(cards) <= cards.len(),
    decreases cards.len(),
{
    if cards.len() > 0 {
        lemma_feedback_count_bound(cards.drop_last());
    }
}

/// What the quiz screen is drawn from.
pub open spec fn quiz_ui_state(s: QuizSession, q: UiQuizState) -> bool {
    &&& q.current_index == s.current_index
    &&& q.showing_answer == s.showing_answer
    &&& q.ai_evaluation_in_progress == s.ai_evaluation_in_progress
    &&& (byte_len(s.input_buffer@) <= usize::MAX ==> q.input_buffer_len == byte_len(s.input_buffer@))
    &&& q.cursor_position == s.cursor_position
    &&& q.input_scroll_y == s.input_scroll_y
    &&& q.feedback_scroll_y == s.feedback_scroll_y
    &&& q.has_ai_error == (s.last_ai_error is Some)
    &&& q.questions_answered == s.questions_answered
    &&& q.ai_feedback_count == feedback_count(s.flashcards@)
    &&& !q.chat_open
    &&& q.chat_message_count == 0
    &&& q.chat_input_len == 0
    &&& !q.chat_is_loading
    &&& q.chat_scroll_y == 0
}

/// What the screen `app` is drawn from; a change means a redraw.
pub open spec fn ui_state_spec(app: AppState, m: MenuState, sessions: usize, session: Option<&QuizSession>, u: UiState) -> bool {
    &&& u.app_state == app
    &&& match app {
        AppState::Menu | AppState::MenuDeleteConfirm => u.current == Some(
            UiStateTypes::Menu(
                UiMenuState {
                    selected_file_index: m.selected_file_index,
                    selected_session_index: m.selected_session_index,
                    focused_panel: m.focused_panel,
                    sessions_count: sessions,
                },
            ),
        ),
        AppState::Quiz => match session {
            Some(s) => u.current matches Some(UiStateTypes::Quiz(q)) && quiz_ui_state(*s, q),
            None => u.current is None,
        },
        _ => u.current is None,
    }
}

fn quiz_ui_of(s: &QuizSession) -> (q: UiQuizState)
    ensures
        quiz_ui_state(*s, q),
{
    let n = s.flashcards.len();
    let mut count: usize = 0;
    let mut k: usize = 0;
    proof {
        assert(s.flashcards@.take(0) =~= Seq::<Flashcard>::empty());
    }
    while k < n
        invariant
            k <= n,
            n == s.flashcards@.len(),
            count == feedback_count(s.flashcards@.take(k as int)),
        decreases n - k,
    {
        proof {
            assert(s.flashcards@.take(k + 1).drop_last() =~= s.flashcards@.take(k as int));
            lemma_feedback_count_bound(s.flashcards@.take(k as int));
        }
        if s.flashcards[k].ai_feedback.is_some() {
            count = count + 1;
        }
        k = k + 1;
    }
    proof {
        assert(s.flashcards@.take(n as int) =~= s.flashcards@);
    }
    let chars = chars_of(s.input_buffer.as_str());
    let input_len = match byte_len_upto(&chars, usize::MAX) {
        Some(l) => l,
        None => usize::MAX,
    };
    UiQuizState {
        current_index: s.current_index,
        showing_answer: s.showing_answer,
        ai_evaluation_in_progress: s.ai_evaluation_in_progress,
        input_buffer_len: input_len,
        cursor_position: s.cursor_position,
        input_scroll_y: s.input_scroll_y,
        feedback_scroll_y: s.feedback_scroll_y,
        has_ai_error: s.last_ai_error.is_some(),
        questions_answered: s.questions_answered,
        ai_feedback_count: count,
        chat_open: false,
        chat_message_count: 0,
        chat_input_len: 0,
        chat_is_loading: false,
        chat_scroll_y: 0,
    }
}

/// What the screen is drawn from: the menu's selection and the number of stored
/// sessions on the menu, the quiz's progress, input and AI state on the quiz screen.
pub fn ui_state_of(app_state: AppState, menu: &MenuState, sessions_count: usize, session: Option<&QuizSession>) -> (u: UiState)
    ensures
        ui_state_spec(app_state, *menu, sessions_count, session, u),
{
    match app_state {
        AppState::Menu | AppState::MenuDeleteConfirm => UiState {
            app_state,
            current: Some(
                UiStateTypes::Menu(
                    UiMenuState {
                        selected_file_index: menu.selected_file_index,
                        selected_session_index: menu.selected_session_index,
                        focused_panel: menu.focused_panel,
                        sessions_count,
                    },
                ),
            ),
        },
        AppState::Quiz => match session {
            Some(s) => UiState { app_state, current: Some(UiStateTypes::Quiz(quiz_ui_of(s))) },
            None => UiState { app_state, current: None },
        },
        _ => UiState { app_state, current: None },
    }
}


/// The first shown line of the answer box after the cursor moved to line `line`:
/// unchanged while the cursor is among the `visible` lines shown from `scroll`,
/// otherwise moved just far enough to show it.
pub open spec fn scroll_to_show(scroll: int, line: int, visible: int) -> int {
    if line < scroll {
        line
    } else if line >= scroll + visible {
        line - visible + 1
    } else {
        scroll
    }
}

/// Keeps the cursor's line in view: the answer box's new first shown line, given the
/// current one, the cursor's line and how many lines the box shows (kept in a `u16`
/// as the session stores it).
pub fn input_scroll_for_cursor(scroll: u16, cursor_line: usize, visible_height: usize) -> (res: u16)
    requires
        visible_height > 0 || cursor_line < usize::MAX,
    ensures
        res == scroll_to_show(scroll as int, cursor_line as int, visible_height as int) as u16,
{
    let s = scroll as usize;
    let new_scroll: usize = if cursor_line < s {
        cursor_line
    } else if cursor_line - s >= visible_height {
        cursor_line - visible_height + 1
    } else {
        s
    };
    #[verifier::truncate]
    (new_scroll as u16)
}

/// A scrolled offset stays within `0..=max`; it moves by exactly `delta` where that
/// stays in range.
pub proof fn lemma_scrolled_bounds(current: int, delta: int, max: int)
    requires
        max >= 0,
    ensures
        0 <= scrolled(current, delta, max) <= max,
        0 <= current + delta <= max ==> scrolled(current, delta, max) == current + delta,
{
}

/// On the quiz screen with the answer shown, a turn of the wheel down scrolls the
/// feedback five lines, and a turn back up returns to where it was; nothing else in the
/// session changes.
pub proof fn lemma_wheel_down_up(s: QuizSession, s1: QuizSession, s2: QuizSession)
    requires
        s.showing_answer,
        s.feedback_scroll_y + 5 <= u16::MAX,
        scroll_step(AppState::Quiz, s, false, s1),
        scroll_step(AppState::Quiz, s1, true, s2),
    ensures
        s1.feedback_scroll_y == s.feedback_scroll_y + 5,
        s1 == (QuizSession { feedback_scroll_y: s1.feedback_scroll_y, ..s }),
        s2 == s,
{
}

/// After the cursor moves to line `line`, that line is among the `visible` lines shown
/// from the new first line; where it was already shown, the box does not scroll.
pub proof fn lemma_cursor_line_shown(scroll: int, line: int, visible: int)
    requires
        visible > 0,
        scroll >= 0,
        line >= 0,
    ensures
        0 <= scroll_to_show(scroll, line, visible) <= line < scroll_to_show(scroll, line, visible) + visible,
        scroll <= line < scroll + visible ==> scroll_to_show(scroll, line, visible) == scroll,
{
}

} // verus!
