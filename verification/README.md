## Interactive Flashcards

A terminal flashcard quiz: pick a CSV deck, type answers, optionally have an AI grade
them, and review a summary of the session. Sessions are stored in SQLite and can be
resumed.

### Layout

- `src/` is the library, verified with Verus. Each public function states what it
  returns or changes in its `ensures`, over spec functions of plain values (`Seq`,
  `nat`, views of the types).
  - `text`: characters, UTF-8 byte offsets, display widths, line splitting.
  - `utils` (and `utils/markdown`): word wrapping and the cursor's place in wrapped
    text; the Markdown dialect the AI's replies are shown in.
  - `csv`: reading a deck line.
  - `session`: the quiz's state machine: key presses, pasting, answer submission, AI
    requests and replies, resuming, timeouts.
  - `navigation`: the menu and the screens' transitions, scrolling, redraw tracking.
  - `ai`: the prompts sent to the AI, cleaning its JSON replies, the worker's replies.
  - `screens`, `chat`, `layout`, `ui`: what the screens show and where.
  - `db`, `logger`: data directory paths, stored cards, the log line format.
- `app/` is the terminal program around it: the event loop, drawing with ratatui,
  SQLite, the HTTP client, JSON, files and logging.
- `tests/` runs the library on concrete values.

Calls into outside crates and the system that the library makes (display widths,
regular expressions, dates and the clock, shuffling, layout splitting) go through a
few functions whose contracts are trusted; each says in its doc comment what it
claims.
