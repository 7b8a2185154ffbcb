//! Settings of the bot, taken from environment variables.
use vstd::prelude::*;
use crate::utils::{parse_u64, spec_parse_u64};

verus! {

/// Chat model used when `OPENAI_MODEL` is not set.
pub const DEFAULT_MODEL: &'static str = "gpt-4o";
/// Token limit per response used when `MAX_TOKENS` is not set.
pub const DEFAULT_MAX_TOKENS: u32 = 2048;
/// Number of earlier messages sent along with a reply.
pub const DEFAULT_MAX_HISTORY_MESSAGES: usize = 20;

/// Settings of the bot.
pub struct Config {
    pub discord_token: String,
    pub openai_api_key: String,
    pub model: String,
    pub max_tokens: u32,
    pub system_prompt: String,
    pub tavily_api_key: Option<String>,
    pub max_history_messages: usize,
}

/// The system prompt used when `SYSTEM_PROMPT` is not set.
pub open spec fn default_system_prompt() -> Seq<char> {
    "You are PodGPT, a witty and helpful assistant in a Discord server. Keep answers concise and conversational."@
}

/// `MAX_TOKENS` as a number, or the default where it is unset or not a
/// number that fits in 32 bits.
pub open spec fn spec_max_tokens(v: Option<Seq<char>>) -> u32 {
    match v {
        Some(s) => match spec_parse_u64(s) {
            Some(n) => if n <= u32::MAX { n as u32 } else { DEFAULT_MAX_TOKENS },
            None => DEFAULT_MAX_TOKENS,
        },
        None => DEFAULT_MAX_TOKENS,
    }
}

impl Config {
    /// Settings from the values of `DISCORD_TOKEN`, `OPENAI_API_KEY`,
    /// `OPENAI_MODEL`, `MAX_TOKENS`, `SYSTEM_PROMPT` and `TAVILY_API_KEY`;
    /// the optional ones fall back to their defaults.
    pub fn from_values(
        discord_token: String,
        openai_api_key: String,
        model: Option<String>,
        max_tokens: Option<String>,
        system_prompt: Option<String>,
        tavily_api_key: Option<String>,
    ) -> (c: Config)
        ensures
            c.discord_token == discord_token,
            c.openai_api_key == openai_api_key,
            c.model@ == (match model { Some(m) => m@, None => DEFAULT_MODEL@ }),
            c.max_tokens == spec_max_tokens(match max_tokens { Some(t) => Some(t@), None => None }),
            c.system_prompt@ == (match system_prompt { Some(p) => p@, None => default_system_prompt() }),
            c.tavily_api_key == tavily_api_key,
            c.max_history_messages == DEFAULT_MAX_HISTORY_MESSAGES,
    {
        let model = match model {
            Some(m) => m,
            None => String::from_str(DEFAULT_MODEL),
        };
        let max_tokens = match max_tokens {
            Some(t) => match parse_u64(t.as_str()) {
                Some(n) => if n <= 4294967295u64 { n as u32 } else { DEFAULT_MAX_TOKENS },
                None => DEFAULT_MAX_TOKENS,
            },
            None => DEFAULT_MAX_TOKENS,
        };
        let system_prompt = match system_prompt {
            Some(p) => p,
            None => String::from_str(
                "You are PodGPT, a witty and helpful assistant in a Discord server. Keep answers concise and conversational.",
            ),
        };
        Config {
            discord_token,
            openai_api_key,
            model,
            max_tokens,
            system_prompt,
            tavily_api_key,
            max_history_messages: DEFAULT_MAX_HISTORY_MESSAGES,
        }
    }
}

} // verus!
