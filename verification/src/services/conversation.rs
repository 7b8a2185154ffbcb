//! Chat messages and the conversation they form.
use vstd::prelude::*;
use crate::utils::{decimal, decimal_string, spec_truncate, truncate};

verus! {

/// Who wrote a message.
#[derive(Debug, Clone, Copy, PartialEq, Eq, Structural)]
pub enum MessageRole {
    User,
    Assistant,
}

/// One message of a conversation, with the images the user attached.
#[derive(Debug, Clone)]
pub struct ChatMessage {
    pub role: MessageRole,
    pub content: String,
    pub image_urls: Vec<String>,
}

/// A message as plain values.
#[verifier::ext_equal]
pub struct MessageView {
    pub role: MessageRole,
    pub content: Seq<char>,
    pub image_urls: Seq<Seq<char>>,
}

/// The texts of `v`, as sequences of characters.
pub open spec fn texts(v: Seq<String>) -> Seq<Seq<char>> {
    v.map_values(|s: String| s@)
}

impl View for ChatMessage {
    type V = MessageView;

    open spec fn view(&self) -> MessageView {
        MessageView { role: self.role, content: self.content@, image_urls: texts(self.image_urls@) }
    }
}

/// A copy of every string of `v`.
pub fn copy_strings(v: &Vec<String>) -> (r: Vec<String>)
    ensures
        texts(r@) == texts(v@),
{
    let mut r: Vec<String> = Vec::new();
    let mut i: usize = 0;
    while i < v.len()
        invariant
            i <= v.len(),
            r.len() == i,
            forall|j: int| 0 <= j < i ==> #[trigger] r@[j]@ == v@[j]@,
        decreases v.len() - i,
    {
        r.push(v[i].clone());
        i = i + 1;
    }
    proof {
        assert(texts(r@) =~= texts(v@));
    }
    r
}

impl ChatMessage {
    /// A copy of this message.
    pub fn copy(&self) -> (r: ChatMessage)
        ensures
            r@ == self@,
    {
        ChatMessage { role: self.role, content: self.content.clone(), image_urls: copy_strings(&self.image_urls) }
    }
}

/// The views of `msgs`.
pub open spec fn message_views(msgs: Seq<ChatMessage>) -> Seq<MessageView> {
    msgs.map_values(|m: ChatMessage| m@)
}

/// Copies of `msgs[from..]`.
pub fn copy_messages_from(msgs: &Vec<ChatMessage>, from: usize) -> (r: Vec<ChatMessage>)
    requires
        from <= msgs.len(),
    ensures
        message_views(r@) == message_views(msgs@).skip(from as int),
{
    let mut r: Vec<ChatMessage> = Vec::new();
    let mut i = from;
    while i < msgs.len()
        invariant
            from <= i <= msgs.len(),
            r.len() == i - from,
            forall|j: int| 0 <= j < i - from ==> #[trigger] r@[j]@ == msgs@[from + j]@,
        decreases msgs.len() - i,
    {
        r.push(msgs[i].copy());
        i = i + 1;
    }
    proof {
        assert(message_views(r@) =~= message_views(msgs@).skip(from as int));
    }
    r
}

/// The messages exchanged with one user, oldest first.
#[derive(Debug)]
pub struct Conversation {
    pub messages: Vec<ChatMessage>,
}

impl View for Conversation {
    type V = Seq<MessageView>;

    open spec fn view(&self) -> Seq<MessageView> {
        message_views(self.messages@)
    }
}

/// One-line description of a conversation: its first message cut to 50
/// bytes, in quotes, and the number of messages.
pub open spec fn spec_summary(conv: Seq<MessageView>) -> Seq<char> {
    if conv.len() == 0 {
        "(empty)"@
    } else {
        "\""@ + spec_truncate(conv[0].content, 50) + "\" ("@ + decimal(conv.len()) + " messages)"@
    }
}

impl Conversation {
    /// An empty conversation.
    pub fn new() -> (c: Conversation)
        ensures
            c@ == Seq::<MessageView>::empty(),
            c.messages@.len() == 0,
    {
        let c = Conversation { messages: Vec::new() };
        proof {
            assert(c@ =~= Seq::<MessageView>::empty());
        }
        c
    }

    /// One-line description of the conversation.
    pub fn summary(&self) -> (s: String)
        ensures
            s@ == spec_summary(self@),
    {
        if self.messages.len() == 0 {
            return String::from_str("(empty)");
        }
        let preview = truncate(self.messages[0].content.as_str(), 50);
        let mut s = String::from_str("\"");
        s.append(preview.as_str());
        s.append("\" (");
        let n = decimal_string(self.messages.len() as u64);
        s.append(n.as_str());
        s.append(" messages)");
        s
    }
}

} // verus!
