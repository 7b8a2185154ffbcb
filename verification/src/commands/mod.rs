pub mod all_commands;
pub mod chat;
pub mod manage;
pub mod roast;
