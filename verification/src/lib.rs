//! A terminal coding agent: the editor of the input line, the chat layout, the
//! conversation and its storage, the tools the model may call, and the
//! decisions of the agent loop.

pub mod agent;
pub mod app;
pub mod chat;
pub mod config;
pub mod message;
pub mod state;
pub mod text;
pub mod tool;
pub mod tools;
pub mod tui;
pub mod ui;
pub mod utils;
