//! Replies of `/clear`, `/history` and `/conversations`.
use vstd::prelude::*;
use vstd::utf8::*;
use crate::services::chat::HistoryResult;
use crate::services::conversation::{message_views, ChatMessage, MessageRole, MessageView};
use crate::text::{join, join_strings};
use crate::utils::{byte_prefix, decimal, decimal_string};

verus! {

/// Messages `/history` shows when no count is given.
pub const DEFAULT_HISTORY_COUNT: usize = 6;

/// Longest message text, in bytes, that `/history` shows in full.
pub const HISTORY_PREVIEW_LENGTH: usize = 100;

/// The reply to `/clear`.
pub fn clear_reply(removed: bool) -> (s: &'static str)
    ensures
        s@ == if removed { "Conversation cleared."@ } else { "No active conversation to clear."@ },
{
    if removed { "Conversation cleared." } else { "No active conversation to clear." }
}

/// How many messages `/history` shows.
pub fn history_count(count: Option<usize>) -> (n: usize)
    ensures
        n == match count { Some(c) => c, None => DEFAULT_HISTORY_COUNT },
{
    match count {
        Some(c) => c,
        None => DEFAULT_HISTORY_COUNT,
    }
}

/// Who wrote a message, as `/history` names them.
pub open spec fn role_label(r: MessageRole) -> Seq<char> {
    match r {
        MessageRole::User => "You"@,
        MessageRole::Assistant => "GPT"@,
    }
}

/// A message text as `/history` shows it: its first 100 bytes and "..."
/// when it is longer.
pub open spec fn spec_preview(content: Seq<char>) -> Seq<char> {
    let b = encode_utf8(content);
    if b.len() > HISTORY_PREVIEW_LENGTH {
        decode_utf8(b.take(HISTORY_PREVIEW_LENGTH as int)) + "..."@
    } else {
        content
    }
}

/// Whether cutting a message text to 100 bytes keeps its characters whole.
pub open spec fn preview_fits(content: Seq<char>) -> bool {
    let b = encode_utf8(content);
    b.len() > HISTORY_PREVIEW_LENGTH ==> is_char_boundary(b, HISTORY_PREVIEW_LENGTH as int)
}

/// One message as `/history` shows it.
pub open spec fn history_line(m: MessageView) -> Seq<char> {
    "**"@ + role_label(m.role) + ":** "@ + spec_preview(m.content) + "\n"@
}

/// The header of `/history`.
pub open spec fn history_header(shown: nat, total: nat) -> Seq<char> {
    "**Conversation history** (showing "@ + decimal(shown) + " of "@ + decimal(total) + " messages):\n\n"@
}

/// The reply to `/history` for the last messages `msgs` of a conversation
/// of `total` messages, or for no conversation.
pub open spec fn spec_history_reply(h: Option<(Seq<MessageView>, nat)>) -> Seq<char> {
    match h {
        None => "No active conversation. Use /ask to start one."@,
        Some((msgs, total)) => if msgs.len() == 0 {
            "Conversation is empty."@
        } else {
            history_header(msgs.len(), total) + join(msgs.map_values(|m: MessageView| history_line(m)), "\n"@)
        },
    }
}

/// Whether every text of `msgs` can be cut for `/history`.
pub open spec fn previews_fit(msgs: Seq<MessageView>) -> bool {
    forall|i: int| 0 <= i < msgs.len() ==> preview_fits(#[trigger] msgs[i].content)
}

/// The history as plain values.
pub open spec fn history_view(h: Option<HistoryResult>) -> Option<(Seq<MessageView>, nat)> {
    match h {
        Some(r) => Some((message_views(r.messages@), r.total as nat)),
        None => None,
    }
}

fn preview(content: &String) -> (r: Option<String>)
    ensures
        r is Some <==> preview_fits(content@),
        r matches Some(p) ==> p@ == spec_preview(content@),
{
    let s = content.as_str();
    proof {
        encode_utf8_valid_utf8(content@);
    }
    if s.as_bytes().len() > HISTORY_PREVIEW_LENGTH {
        if !s.is_char_boundary(HISTORY_PREVIEW_LENGTH) {
            return None;
        }
        let mut p = byte_prefix(s, HISTORY_PREVIEW_LENGTH);
        p.append("...");
        Some(p)
    } else {
        Some(content.clone())
    }
}

/// The reply to `/history`, or `None` where cutting a message text to 100
/// bytes would slice a character in two.
pub fn try_history_reply(h: &Option<HistoryResult>) -> (r: Option<String>)
    ensures
        r is Some <==> (h matches Some(x) ==> previews_fit(message_views(x.messages@))),
        r matches Some(s) ==> s@ == spec_history_reply(history_view(*h)),
{
    let result = match h {
        None => {
            return Some(String::from_str("No active conversation. Use /ask to start one."));
        },
        Some(x) => x,
    };
    let msgs = &result.messages;
    let ghost mv = message_views(msgs@);
    if msgs.len() == 0 {
        proof {
            assert(mv.len() == 0);
            assert(previews_fit(mv));
        }
        return Some(String::from_str("Conversation is empty."));
    }
    let mut lines: Vec<String> = Vec::new();
    let mut i: usize = 0;
    while i < msgs.len()
        invariant
            i <= msgs.len(),
            mv == message_views(msgs@),
            h matches Some(x) && message_views(x.messages@) == mv,
            lines.len() == i,
            forall|k: int| 0 <= k < i ==> preview_fits(#[trigger] mv[k].content),
            forall|k: int| 0 <= k < i ==> #[trigger] lines@[k]@ == history_line(mv[k]),
        decreases msgs.len() - i,
    {
        let m: &ChatMessage = &msgs[i];
        let p = match preview(&m.content) {
            Some(p) => p,
            None => {
                proof {
                    assert(!preview_fits(mv[i as int].content));
                }
                return None;
            },
        };
        let mut line = String::from_str("**");
        let label = match m.role {
            MessageRole::User => "You",
            MessageRole::Assistant => "GPT",
        };
        line.append(label);
        line.append(":** ");
        line.append(p.as_str());
        line.append("\n");
        lines.push(line);
        i = i + 1;
    }
    proof {
        assert(previews_fit(mv));
    }
    let body = join_strings(&lines, "\n");
    let mut out = String::from_str("**Conversation history** (showing ");
    out.append(decimal_string(msgs.len() as u64).as_str());
    out.append(" of ");
    out.append(decimal_string(result.total as u64).as_str());
    out.append(" messages):\n\n");
    out.append(body.as_str());
    proof {
        assert(lines@.map_values(|l: String| l@) =~= mv.map_values(|m: MessageView| history_line(m)));
    }
    Some(out)
}

/// The reply to `/history`.
pub fn history_reply(h: &Option<HistoryResult>) -> (s: String)
    requires
        h matches Some(x) ==> previews_fit(message_views(x.messages@)),
    ensures
        s@ == spec_history_reply(history_view(*h)),
{
    match try_history_reply(h) {
        Some(s) => s,
        None => {
            // Ruled out by the precondition.
            proof {
                assert(false);
            }
            String::new()
        },
    }
}

/// The reply to `/conversations` for a user and the summary of their
/// conversation, if they have one.
pub open spec fn spec_conversations_reply(user_id: Seq<char>, summary: Option<Seq<char>>) -> Seq<char> {
    match summary {
        None => "No active conversations."@,
        Some(s) => "**Active conversations:**\n\n1. User <"@ + user_id + ">: "@ + s + "\n"@,
    }
}

/// The reply to `/conversations`.
pub fn conversations_reply(user_id: &str, summary: Option<String>) -> (s: String)
    ensures
        s@ == spec_conversations_reply(user_id@, match summary { Some(x) => Some(x@), None => None }),
{
    match summary {
        None => String::from_str("No active conversations."),
        Some(sm) => {
            let mut s = String::from_str("**Active conversations:**\n\n1. User <");
            s.append(user_id);
            s.append(">: ");
            s.append(sm.as_str());
            s.append("\n");
            s
        },
    }
}

} // verus!
