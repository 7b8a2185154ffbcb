//! Core logic of a Discord chat bot backed by GPT: message splitting, text
//! extraction, conversation bookkeeping and reply formatting.
pub mod utils;
pub mod text;
pub mod services;
pub mod config;
pub mod error;
pub mod commands;
pub mod gpt;
