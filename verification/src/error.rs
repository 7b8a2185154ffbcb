//! Errors the bot reports to the user.
use vstd::prelude::*;

verus! {

/// What went wrong while handling a command. Errors of the Discord and
/// OpenAI clients, of image decoding and of I/O arrive as their messages.
#[derive(Debug)]
pub enum AppError {
    Discord(String),
    OpenAi(String),
    Image(String),
    Io(String),
    NoConversation,
    NoResponseContent,
    NoImageUrl,
}

/// The message shown for an error.
pub open spec fn error_message(e: AppError) -> Seq<char> {
    match e {
        AppError::Discord(m) => "Discord error: "@ + m@,
        AppError::OpenAi(m) => "OpenAI error: "@ + m@,
        AppError::Image(m) => "Image error: "@ + m@,
        AppError::Io(m) => "IO error: "@ + m@,
        AppError::NoConversation => "No active conversation. Use /ask first."@,
        AppError::NoResponseContent => "No response content from GPT"@,
        AppError::NoImageUrl => "No image URL in response"@,
    }
}

impl AppError {
    /// The message shown for this error.
    pub fn message(&self) -> (s: String)
        ensures
            s@ == error_message(*self),
    {
        let (prefix, detail) = match self {
            AppError::Discord(m) => ("Discord error: ", m.as_str()),
            AppError::OpenAi(m) => ("OpenAI error: ", m.as_str()),
            AppError::Image(m) => ("Image error: ", m.as_str()),
            AppError::Io(m) => ("IO error: ", m.as_str()),
            AppError::NoConversation => {
                return String::from_str("No active conversation. Use /ask first.");
            },
            AppError::NoResponseContent => {
                return String::from_str("No response content from GPT");
            },
            AppError::NoImageUrl => {
                return String::from_str("No image URL in response");
            },
        };
        let mut s = String::from_str(prefix);
        s.append(detail);
        s
    }
}

} // verus!
