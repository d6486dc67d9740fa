//! Verified core of `ask`, a command-line helper that turns natural-language
//! questions into shell commands with the help of a language model.

pub mod cli;
pub mod client;
pub mod config;
pub mod prompt;
pub mod text;
pub mod ui;

pub use client::{ClientError, LlmClient, OllamaClient, OllamaError, OpenAiClient};
pub use config::Config;
