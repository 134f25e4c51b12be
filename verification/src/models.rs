//! The quiz's data: flashcards, chat messages, sessions and the states the UI can be in.
use vstd::prelude::*;

verus! {

broadcast use vstd::string::group_string_axioms;

/// Who wrote a chat message.
#[derive(Debug, Clone, Copy, PartialEq, Eq, Structural)]
pub enum ChatRole {
    User,
    Assistant,
    System,
}

/// The name under which a role is stored.
pub open spec fn role_name(role: ChatRole) -> Seq<char> {
    match role {
        ChatRole::User => seq!['u', 's', 'e', 'r'],
        ChatRole::Assistant => seq!['a', 's', 's', 'i', 's', 't', 'a', 'n', 't'],
        ChatRole::System => seq!['s', 'y', 's', 't', 'e', 'm'],
    }
}

/// The role stored under `s`; anything unknown reads as a user message.
pub open spec fn role_from_name(s: Seq<char>) -> ChatRole {
    if s == role_name(ChatRole::Assistant) {
        ChatRole::Assistant
    } else if s == role_name(ChatRole::System) {
        ChatRole::System
    } else {
        ChatRole::User
    }
}

fn chars_equal(a: &str, b: &str) -> (res: bool)
    ensures
        res == (a@ == b@),
{
    let x = crate::text::chars_of(a);
    let y = crate::text::chars_of(b);
    if x.len() != y.len() {
        return false;
    }
    let n = x.len();
    let mut k: usize = 0;
    while k < n
        invariant
            n == x@.len(),
            n == y@.len(),
            x@ == a@,
            y@ == b@,
            k <= n,
            forall|i: int| 0 <= i < k ==> x@[i] == y@[i],
        decreases n - k,
    {
        if x[k] != y[k] {
            proof {
                assert(x@[k as int] != y@[k as int]);
            }
            return false;
        }
        k = k + 1;
    }
    proof {
        assert(x@ =~= y@);
    }
    true
}

impl ChatRole {
    /// The name under which the role is stored.
    pub fn as_str(&self) -> (res: &'static str)
        ensures
            res@ == role_name(*self),
    {
        proof {
            reveal_strlit("user");
            reveal_strlit("assistant");
            reveal_strlit("system");
            assert("user"@ =~= role_name(ChatRole::User));
            assert("assistant"@ =~= role_name(ChatRole::Assistant));
            assert("system"@ =~= role_name(ChatRole::System));
        }
        match self {
            ChatRole::User => "user",
            ChatRole::Assistant => "assistant",
            ChatRole::System => "system",
        }
    }

    /// The role stored under `s`; an unknown name reads as `User`.
    pub fn parse(s: &str) -> (res: ChatRole)
        ensures
            res == role_from_name(s@),
    {
        proof {
            reveal_strlit("user");
            reveal_strlit("assistant");
            reveal_strlit("system");
            assert("user"@ =~= role_name(ChatRole::User));
            assert("assistant"@ =~= role_name(ChatRole::Assistant));
            assert("system"@ =~= role_name(ChatRole::System));
            assert(role_name(ChatRole::User) != role_name(ChatRole::Assistant));
            assert(role_name(ChatRole::User) != role_name(ChatRole::System));
        }
        if chars_equal(s, "user") {
            ChatRole::User
        } else if chars_equal(s, "assistant") {
            ChatRole::Assistant
        } else if chars_equal(s, "system") {
            ChatRole::System
        } else {
            ChatRole::User
        }
    }
}

/// Reading back the name a role is stored under gives the role again.
pub proof fn lemma_role_roundtrip(role: ChatRole)
    ensures
        role_from_name(role_name(role)) == role,
{
    match role {
        ChatRole::User => {
            assert(role_name(ChatRole::User) != role_name(ChatRole::Assistant));
            assert(role_name(ChatRole::User) != role_name(ChatRole::System));
        },
        ChatRole::Assistant => {},
        ChatRole::System => {
            assert(role_name(ChatRole::System) != role_name(ChatRole::Assistant));
        },
    }
}

/// One message of the chat about a flashcard.
#[derive(Debug, Clone)]
pub struct ChatMessage {
    pub id: Option<u64>,
    pub role: ChatRole,
    pub content: String,
    pub message_order: u32,
}

/// The AI's verdict on an answer. The score (0.0 to 1.0) is kept as the bit pattern
/// of its `f32` value, which this library never interprets.
#[derive(Debug, Clone)]
pub struct AIFeedback {
    pub is_correct: bool,
    pub correctness_score_bits: u32,
    pub corrections: Vec<String>,
    pub explanation: String,
    pub suggestions: Vec<String>,
}

/// The AI's assessment of a whole session; the grade (0 to 100) is kept as the bit
/// pattern of its `f32` value.
#[derive(Debug, Clone)]
pub struct SessionAssessment {
    pub grade_percentage_bits: u32,
    pub mastery_level: String,
    pub overall_feedback: String,
    pub suggestions: Vec<String>,
    pub strengths: Vec<String>,
    pub weaknesses: Vec<String>,
}

/// A question with its answer, and what happened to it in the session.
#[derive(Debug, Clone)]
pub struct Flashcard {
    pub question: String,
    pub answer: String,
    pub user_answer: Option<String>,
    pub ai_feedback: Option<AIFeedback>,
    pub written_to_file: bool,
    pub id: Option<u64>,
}

/// An AI evaluation together with the raw reply it was read from.
#[derive(Debug, Clone)]
pub struct AIEvaluationResult {
    pub feedback: AIFeedback,
    pub raw_response: String,
}

/// Work handed to the AI worker.
#[derive(Debug)]
pub enum AiRequest {
    Evaluate { flashcard_index: usize, question: String, correct_answer: String, user_answer: String },
    EvaluateSession {
        session_id: u64,
        deck_name: String,
        flashcards: Vec<(String, String, Option<String>, Option<AIFeedback>)>,
    },
    Chat {
        flashcard_id: u64,
        session_id: u64,
        question: String,
        correct_answer: String,
        user_answer: String,
        initial_feedback: String,
        conversation_history: Vec<(String, String)>,
        user_message: String,
    },
}

/// What the AI worker reports back.
#[derive(Debug)]
pub enum AiResponse {
    Evaluation { flashcard_index: usize, result: AIEvaluationResult },
    SessionAssessment { session_id: u64, result: Result<SessionAssessment, String> },
    Error { flashcard_index: usize, error: String },
    ChatReply { flashcard_id: u64, message: Option<String>, error: Option<String> },
}

/// A stored session as read back.
#[derive(Debug, Clone)]
pub struct SessionData {
    pub id: u64,
    pub created_at: u64,
    pub updated_at: u64,
    pub deck_name: String,
    pub started_at: u64,
    pub completed_at: Option<u64>,
    pub questions_total: usize,
    pub questions_answered: usize,
}

/// Which screen the application shows.
#[derive(Debug, Clone, Copy, PartialEq, Eq, Structural)]
pub enum AppState {
    Menu,
    MenuDeleteConfirm,
    Quiz,
    QuizQuitConfirm,
    Summary,
}

/// What the menu screen shows; a change means it must be redrawn.
#[derive(Debug, Clone, Copy, PartialEq, Eq, Structural)]
pub struct UiMenuState {
    pub selected_file_index: usize,
    pub selected_session_index: usize,
    pub focused_panel: usize,
    pub sessions_count: usize,
}

/// What the quiz screen shows; a change means it must be redrawn.
#[derive(Debug, Clone, Copy, PartialEq, Eq, Structural)]
pub struct UiQuizState {
    pub current_index: usize,
    pub showing_answer: bool,
    pub ai_evaluation_in_progress: bool,
    pub input_buffer_len: usize,
    pub cursor_position: usize,
    pub input_scroll_y: u16,
    pub feedback_scroll_y: u16,
    pub has_ai_error: bool,
    pub questions_answered: usize,
    pub ai_feedback_count: usize,
    pub chat_open: bool,
    pub chat_message_count: usize,
    pub chat_input_len: usize,
    pub chat_is_loading: bool,
    pub chat_scroll_y: u16,
}

/// The screen-specific part of the drawn state.
#[derive(Debug, Clone, Copy, PartialEq, Eq, Structural)]
pub enum UiStateTypes {
    Menu(UiMenuState),
    Quiz(UiQuizState),
}

/// Everything the last frame was drawn from.
#[derive(Debug, Clone, Copy, PartialEq, Eq, Structural)]
pub struct UiState {
    pub app_state: AppState,
    pub current: Option<UiStateTypes>,
}

} // verus!
