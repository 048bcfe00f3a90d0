[package]
name = "rode"
version = "0.1.0"
edition = "2021"
publish = false

[dependencies]
unicode-width = "=0.2.3"
serde_json = "=1.0.154"
uuid = { version = "=1.29.0", features = ["v7", "serde"] }
chrono = { version = "=0.4.45", features = ["serde"] }
serde = { version = "=1.0.229", features = ["derive"] }
tokio = { version = "=1.54.1", features = ["full"] }
anyhow = "=1.0.104"
crossterm = { version = "=0.29.0", features = ["event-stream"] }
ratatui = "=0.30.2"
termimad = "=0.35.5"
ansi-to-tui = "=8.0.1"
futures = "=0.3.34"
async-openai = { version = "=0.43.0", features = ["chat-completion"] }
config = "=0.15.27"
