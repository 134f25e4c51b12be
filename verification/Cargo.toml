[package]
name = "interactive_flashcards"
version = "0.1.0"
edition = "2021"
publish = false

[dependencies]
unicode-width = "=0.2.0"
chrono = "=0.4.45"
crossterm = { version = "=0.28.1", features = ["event-stream"] }
ratatui = "=0.29.0"
tokio = { version = "=1.54.1", features = ["full"] }
futures = "=0.3.34"
rusqlite = { version = "=0.32.1", features = ["bundled"] }
serde = { version = "=1.0.229", features = ["derive"] }
serde_json = "=1.0.154"
openrouter_api = "=0.7.1"
rand = "=0.8.8"
lazy_static = "=1.5.1"
regex = "=1.13.1"
