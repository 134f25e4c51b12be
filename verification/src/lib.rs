//! A flashcard quiz library: deck parsing, the quiz session's state machine,
//! text layout and wrapping, markdown rendering, and the prompts and replies
//! of the AI grader.
pub mod text;
pub mod utils;
pub mod models;
pub mod csv;
pub mod session;
pub mod ai;
pub mod db;
pub mod ui;
pub mod navigation;
pub mod chat;
pub mod layout;
pub mod logger;
pub mod screens;
