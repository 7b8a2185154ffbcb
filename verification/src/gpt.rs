//! The single running conversation of the first, command-less chat client:
//! an id and the texts exchanged, all sent to the model as system messages.
use vstd::prelude::*;
use crate::services::chat::ApiMessage;
use crate::services::conversation::texts;

verus! {

/// A conversation: the id of the completion that opened it and the texts
/// exchanged, oldest first.
#[derive(Debug)]
pub struct Conversation {
    pub _id: String,
    pub messages: Vec<String>,
}

impl Conversation {
    /// The conversation a client starts with: id "1" and no messages.
    pub fn initial() -> (c: Conversation)
        ensures
            c._id@ == "1"@,
            texts(c.messages@) == Seq::<Seq<char>>::empty(),
    {
        let c = Conversation { _id: String::from_str("1"), messages: Vec::new() };
        proof {
            assert(texts(c.messages@) =~= Seq::<Seq<char>>::empty());
        }
        c
    }

    /// The conversation a new chat opens: the completion's id, the prompt
    /// and the answer.
    pub fn started(id: String, prompt: String, answer: String) -> (c: Conversation)
        ensures
            c._id@ == id@,
            texts(c.messages@) == seq![prompt@, answer@],
    {
        let mut messages: Vec<String> = Vec::new();
        messages.push(prompt);
        messages.push(answer);
        let c = Conversation { _id: id, messages };
        proof {
            assert(texts(c.messages@) =~= seq![c.messages@[0]@, c.messages@[1]@]);
        }
        c
    }

    /// Appends a text to the conversation; a reply sends the whole
    /// conversation after its prompt is appended, and appends the answer.
    pub fn push(&mut self, text: String)
        ensures
            final(self)._id == old(self)._id,
            texts(final(self).messages@) == texts(old(self).messages@).push(text@),
    {
        self.messages.push(text);
        proof {
            assert(texts(self.messages@) =~= texts(old(self).messages@).push(text@));
        }
    }

    /// The messages a reply sends: every text of the conversation, oldest
    /// first, each as a system message.
    pub fn request_messages(&self) -> (msgs: Vec<ApiMessage>)
        ensures
            msgs@.len() == self.messages@.len(),
            forall|i: int| 0 <= i < msgs@.len()
                ==> (#[trigger] msgs@[i] matches ApiMessage::System(s) && s@ == self.messages@[i]@),
    {
        let mut msgs: Vec<ApiMessage> = Vec::new();
        let mut i: usize = 0;
        while i < self.messages.len()
            invariant
                i <= self.messages.len(),
                msgs@.len() == i,
                forall|k: int| 0 <= k < i
                    ==> (#[trigger] msgs@[k] matches ApiMessage::System(s) && s@ == self.messages@[k]@),
            decreases self.messages.len() - i,
        {
            msgs.push(ApiMessage::System(self.messages[i].clone()));
            i = i + 1;
        }
        msgs
    }
}

} // verus!
