//! What the storage layer shares with the rest of the library: the session records
//! read back from the database, the clock its timestamps come from, and where the
//! database file lives.
use crate::models::{AIFeedback, Flashcard};
use crate::text::{append_str, chars_of, string_from_chars};
use rand::seq::SliceRandom;
use std::time::{Duration, SystemTime, UNIX_EPOCH};
use vstd::prelude::*;

verus! {

/// A stored session as listed in the menu.
#[derive(Debug, Clone)]
pub struct SessionSummary {
    pub id: u64,
    pub deck_name: String,
    pub started_at: u64,
    pub completed_at: Option<u64>,
    pub questions_total: usize,
    pub questions_answered: usize,
}

#[verifier::external_type_specification]
#[verifier::external_body]
pub struct ExSystemTime(SystemTime);

/// Calls `SystemTime::now`. What it returns depends on the clock, so nothing is
/// stated of it.
#[verifier::external_body]
fn system_now() -> SystemTime {
    SystemTime::now()
}

/// Calls `SystemTime::duration_since` with the Unix epoch, `None` where it fails (when
/// `t` lies before the epoch). Nothing is stated of the result, since `t` is opaque.
#[verifier::external_body]
fn since_unix_epoch(t: &SystemTime) -> Option<Duration> {
    t.duration_since(UNIX_EPOCH).ok()
}

/// Calls `Duration::as_secs`: the whole seconds of `d`, which is opaque, so nothing
/// is stated of the result.
#[verifier::external_body]
fn whole_seconds(d: &Duration) -> u64 {
    d.as_secs()
}

/// Seconds since the Unix epoch by the system clock, the timestamps that the database
/// stores; `None` if the clock is set before the epoch.
pub fn now() -> Option<u64> {
    let t = system_now();
    match since_unix_epoch(&t) {
        Some(d) => Some(whole_seconds(&d)),
        None => None,
    }
}

pub open spec fn str_opt_view(s: Option<&str>) -> Option<Seq<char>> {
    match s {
        Some(x) => Some(x@),
        None => None,
    }
}

/// The home directory to use: the one given, or the platform's usual default.
pub open spec fn home_or_default(home: Option<Seq<char>>, windows: bool) -> Seq<char> {
    match home {
        Some(h) => h,
        None => if windows {
            "C:\\Users\\User"@
        } else {
            "/home/user"@
        },
    }
}

pub open spec fn data_subdir(windows: bool) -> Seq<char> {
    if windows {
        ".local\\share\\interactive-flashcards"@
    } else {
        ".local/share/interactive-flashcards"@
    }
}

/// `c` separates the parts of a path: `/`, and on Windows `\` as well.
pub open spec fn is_path_sep(c: char, windows: bool) -> bool {
    c == '/' || (windows && c == '\\')
}

/// The separator a path gains when a part is added: `\` on Windows, `/` elsewhere.
pub open spec fn main_sep(windows: bool) -> char {
    if windows {
        '\\'
    } else {
        '/'
    }
}

/// On Windows, `base` is a drive alone (such as `C:`), to which a part is added with
/// no separator.
pub open spec fn drive_only(base: Seq<char>, windows: bool) -> bool {
    &&& windows
    &&& base.len() == 2
    &&& base[1] == ':'
    &&& (('a' <= base[0] <= 'z') || ('A' <= base[0] <= 'Z'))
}

/// `base` with the relative path `rel` added as `Path::join` documents it: a separator
/// between them unless `base` is empty, already ends in one, or is a bare Windows drive.
pub open spec fn joined_path(base: Seq<char>, rel: Seq<char>, windows: bool) -> Seq<char> {
    if base.len() == 0 || is_path_sep(base.last(), windows) || drive_only(base, windows) {
        base + rel
    } else {
        base + seq![main_sep(windows)] + rel
    }
}

/// `base` joined with `rel` (which has no root, drive, `.` or `..` part).
fn join_path(base: &str, rel: &str, windows: bool) -> (res: String)
    ensures
        res@ == joined_path(base@, rel@, windows),
{
    let b = chars_of(base);
    let n = b.len();
    let mut v: Vec<char> = Vec::new();
    append_str(&mut v, base);
    let bare_drive = windows && n == 2 && b[1] == ':' && (('a' <= b[0] && b[0] <= 'z') || ('A' <= b[0]
        && b[0] <= 'Z'));
    if n > 0 && !(b[n - 1] == '/' || (windows && b[n - 1] == '\\')) && !bare_drive {
        if windows {
            v.push('\\');
        } else {
            v.push('/');
        }
    }
    append_str(&mut v, rel);
    proof {
        assert(v@ =~= joined_path(base@, rel@, windows));
    }
    string_from_chars(&v)
}

/// The directory the database lives in: `.local/share/interactive-flashcards` (with
/// backslashes on Windows) under the home directory, `home` being the value of `HOME`
/// (`USERPROFILE` on Windows) if it is set.
pub fn get_data_dir(home: Option<&str>, windows: bool) -> (res: String)
    ensures
        res@ == joined_path(home_or_default(str_opt_view(home), windows), data_subdir(windows), windows),
{
    proof {
        reveal_strlit(".local\\share\\interactive-flashcards");
        reveal_strlit(".local/share/interactive-flashcards");
    }
    let base = match home {
        Some(h) => h,
        None => if windows {
            "C:\\Users\\User"
        } else {
            "/home/user"
        },
    };
    if windows {
        join_path(base, ".local\\share\\interactive-flashcards", windows)
    } else {
        join_path(base, ".local/share/interactive-flashcards", windows)
    }
}

/// The database file: `if.db` in the data directory.
pub fn get_db_path(home: Option<&str>, windows: bool) -> (res: String)
    ensures
        res@ == joined_path(
            joined_path(home_or_default(str_opt_view(home), windows), data_subdir(windows), windows),
            "if.db"@,
            windows,
        ),
{
    let dir = get_data_dir(home, windows);
    join_path(dir.as_str(), "if.db", windows)
}


/// The directory the decks are read from: `flashcards` in the data directory.
pub fn get_flashcards_dir(home: Option<&str>, windows: bool) -> (res: String)
    ensures
        res@ == joined_path(
            joined_path(home_or_default(str_opt_view(home), windows), data_subdir(windows), windows),
            "flashcards"@,
            windows,
        ),
{
    let dir = get_data_dir(home, windows);
    join_path(dir.as_str(), "flashcards", windows)
}

/// The debug log file: `ai_debug.log` in the data directory.
pub fn get_log_path(home: Option<&str>, windows: bool) -> (res: String)
    ensures
        res@ == joined_path(
            joined_path(home_or_default(str_opt_view(home), windows), data_subdir(windows), windows),
            "ai_debug.log"@,
            windows,
        ),
{
    let dir = get_data_dir(home, windows);
    join_path(dir.as_str(), "ai_debug.log", windows)
}

/// A stored flashcard as read back.
#[derive(Debug, Clone)]
pub struct FlashcardData {
    pub id: u64,
    pub session_id: u64,
    pub created_at: u64,
    pub updated_at: u64,
    pub question: String,
    pub answer: String,
    pub user_answer: Option<String>,
    pub ai_feedback: Option<AIFeedback>,
    pub answered_at: Option<u64>,
    pub display_order: usize,
}

/// The card of a resumed session for stored card `data`: already written, with its
/// id.
pub fn flashcard_from_stored(data: FlashcardData) -> (card: Flashcard)
    ensures
        card.question == data.question,
        card.answer == data.answer,
        card.user_answer == data.user_answer,
        card.ai_feedback == data.ai_feedback,
        card.written_to_file,
        card.id == Some(data.id),
{
    Flashcard {
        question: data.question,
        answer: data.answer,
        user_answer: data.user_answer,
        ai_feedback: data.ai_feedback,
        written_to_file: true,
        id: Some(data.id),
    }
}

/// Calls `rand::seq::SliceRandom::shuffle` with the thread's random generator. The
/// order it leaves is random, so the contract states only what holds of every
/// outcome: the same cards, each as often as before.
#[verifier::external_body]
fn shuffle_cards(cards: &mut Vec<Flashcard>)
    ensures
        final(cards)@.to_multiset() == old(cards)@.to_multiset(),
{
    cards.shuffle(&mut rand::thread_rng());
}

/// Puts a new quiz's cards in a random order.
pub fn shuffle_deck(cards: &mut Vec<Flashcard>)
    ensures
        final(cards)@.to_multiset() == old(cards)@.to_multiset(),
        final(cards)@.len() == old(cards)@.len(),
{
    shuffle_cards(cards);
    proof {
        vstd::seq_lib::to_multiset_len(old(cards)@);
        vstd::seq_lib::to_multiset_len(cards@);
    }
}

} // verus!
