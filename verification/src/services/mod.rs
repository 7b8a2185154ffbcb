pub mod channel_summary;
pub mod chat;
pub mod conversation;
pub mod image;
pub mod image_generator;
pub mod json;
pub mod search;
pub mod url_reader;
