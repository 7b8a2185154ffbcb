//! Conversation bookkeeping of the chat service: who has a conversation,
//! what the model is sent, and how a conversation grows and is trimmed.
use vstd::prelude::*;
use dashmap::DashMap;
use crate::config::Config;
use crate::error::AppError;
use crate::utils::{decimal, decimal_string};
use crate::services::conversation::{
    copy_messages_from, copy_strings, message_views, texts, ChatMessage, Conversation, MessageRole,
    MessageView, spec_summary,
};

verus! {

#[verifier::external_type_specification]
#[verifier::external_body]
#[verifier::reject_recursive_types(K)]
#[verifier::reject_recursive_types(V)]
#[verifier::reject_recursive_types(S)]
pub struct ExDashMap<K, V, S>(DashMap<K, V, S>);

/// Conversations keyed by user id.
pub type ConversationStore = DashMap<String, Conversation>;

/// The conversation held under each user id.
pub uninterp spec fn conversations_in(m: ConversationStore) -> Map<Seq<char>, Seq<MessageView>>;

/// No conversation for anybody.
pub open spec fn no_conversations() -> Map<Seq<char>, Seq<MessageView>> {
    Map::empty()
}

/// `DashMap::new`: an empty map.
#[verifier::external_body]
fn store_new() -> (store: ConversationStore)
    ensures
        conversations_in(store) == no_conversations(),
{
    DashMap::new()
}

/// `DashMap::insert`: the conversation is held under `user_id` afterwards,
/// replacing any held there before; every other entry stays.
#[verifier::external_body]
fn store_insert(m: &mut ConversationStore, user_id: String, conv: Conversation)
    ensures
        conversations_in(*final(m)) == conversations_in(*old(m)).insert(user_id@, conv@),
{
    m.insert(user_id, conv);
}

/// `DashMap::remove`: takes out the entry of `user_id` and hands back its
/// conversation; every other entry stays.
#[verifier::external_body]
fn store_remove(m: &mut ConversationStore, user_id: &str) -> (r: Option<Conversation>)
    ensures
        conversations_in(*final(m)) == conversations_in(*old(m)).remove(user_id@),
        r is Some <==> conversations_in(*old(m)).contains_key(user_id@),
        r matches Some(c) ==> c@ == conversations_in(*old(m))[user_id@],
{
    m.remove(user_id).map(|entry| entry.1)
}

/// `DashMap::get`: the messages of the conversation of `user_id`, copied
/// out of the map.
#[verifier::external_body]
fn store_messages(m: &ConversationStore, user_id: &str) -> (r: Option<Vec<ChatMessage>>)
    ensures
        r is Some <==> conversations_in(*m).contains_key(user_id@),
        r matches Some(v) ==> message_views(v@) == conversations_in(*m)[user_id@],
{
    m.get(user_id).map(|entry| entry.value().messages.clone())
}

/// Longest a conversation gets: twice the history that is sent along, and
/// never less than the two messages of a new conversation.
pub open spec fn history_bound(max_history: nat) -> nat {
    if 2 * max_history > 2 { 2 * max_history } else { 2 }
}

/// The message a user sent.
pub open spec fn user_message(prompt: Seq<char>, image_urls: Seq<Seq<char>>) -> MessageView {
    MessageView { role: MessageRole::User, content: prompt, image_urls }
}

/// The message the model answered.
pub open spec fn assistant_message(text: Seq<char>) -> MessageView {
    MessageView { role: MessageRole::Assistant, content: text, image_urls: seq![] }
}

/// The earlier messages sent along with a reply: the last `max_history`.
pub open spec fn reply_window(conv: Seq<MessageView>, max_history: nat) -> Seq<MessageView> {
    if conv.len() > max_history { conv.skip(conv.len() - max_history) } else { conv }
}

/// A conversation after one more exchange: both messages appended, and once
/// it holds more than twice `max_history` messages, cut to the last
/// `max_history`.
pub open spec fn after_reply(conv: Seq<MessageView>, asked: MessageView, answer: MessageView, max_history: nat) -> Seq<MessageView> {
    let c = conv.push(asked).push(answer);
    if c.len() > 2 * max_history { c.skip(c.len() - max_history) } else { c }
}

/// The last `count` messages of a conversation and how many it holds.
pub open spec fn history_of(conv: Seq<MessageView>, count: nat) -> (Seq<MessageView>, nat) {
    let start = if conv.len() > count { conv.len() - count } else { 0 };
    (conv.skip(start), conv.len())
}

/// Whether `after` holds the same conversations as `before` for every user
/// but `user_id`.
pub open spec fn same_except(
    before: Map<Seq<char>, Seq<MessageView>>,
    after: Map<Seq<char>, Seq<MessageView>>,
    user_id: Seq<char>,
) -> bool {
    forall|v: Seq<char>| v != user_id ==> (#[trigger] after.contains_key(v) <==> before.contains_key(v))
        && (before.contains_key(v) ==> after[v] == before[v])
}

/// The last messages of a conversation, and how many it holds in all.
pub struct HistoryResult {
    pub messages: Vec<ChatMessage>,
    pub total: usize,
}

/// The answer to a chat request: its text and the images generated on the way.
pub struct ChatResponse {
    pub text: String,
    pub images: Vec<Vec<u8>>,
}

/// Conversations of all users, the settings, and the names of the tools the
/// model may call, in the order they were registered.
pub struct ChatService {
    conversations: ConversationStore,
    config: Config,
    tools: Vec<String>,
}

/// Name under which the web search tool is registered.
pub const WEB_SEARCH_TOOL: &'static str = "web_search";
/// Name under which the image generation tool is registered.
pub const GENERATE_IMAGE_TOOL: &'static str = "generate_image";
/// Name under which the channel history tool is registered.
pub const CHANNEL_SUMMARY_TOOL: &'static str = "channel_summary";

impl ChatService {
    /// Conversation of each user id.
    pub closed spec fn conversations(&self) -> Map<Seq<char>, Seq<MessageView>> {
        conversations_in(self.conversations)
    }

    /// The settings the service runs with.
    pub closed spec fn settings(&self) -> Config {
        self.config
    }

    /// The settings the service runs with.
    pub fn config(&self) -> (c: &Config)
        ensures
            *c == self.settings(),
    {
        &self.config
    }

    /// Names of the registered tools, in registration order.
    pub closed spec fn tool_names(&self) -> Seq<Seq<char>> {
        texts(self.tools@)
    }

    /// No conversation is longer than `history_bound`.
    pub closed spec fn wf(&self) -> bool {
        forall|u: Seq<char>| #[trigger] self.conversations().contains_key(u)
            ==> self.conversations()[u].len() <= history_bound(self.settings().max_history_messages as nat)
    }

    /// A service without conversations, with the web search tool registered
    /// when a Tavily key is configured, then the image generation tool.
    pub fn new(config: Config) -> (s: ChatService)
        ensures
            s.wf(),
            s.settings() == config,
            s.conversations() == no_conversations(),
            s.tool_names() == (if config.tavily_api_key is Some {
                seq![WEB_SEARCH_TOOL@, GENERATE_IMAGE_TOOL@]
            } else {
                seq![GENERATE_IMAGE_TOOL@]
            }),
    {
        let has_search = config.tavily_api_key.is_some();
        let mut s = ChatService { conversations: store_new(), config, tools: Vec::new() };
        if has_search {
            s.register_tool(String::from_str(WEB_SEARCH_TOOL));
        }
        s.register_tool(String::from_str(GENERATE_IMAGE_TOOL));
        proof {
            if has_search {
                assert(s.tool_names() =~= seq![WEB_SEARCH_TOOL@, GENERATE_IMAGE_TOOL@]);
            } else {
                assert(s.tool_names() =~= seq![GENERATE_IMAGE_TOOL@]);
            }
        }
        s
    }

    /// Registers a tool that the model may call.
    pub fn register_tool(&mut self, name: String)
        ensures
            final(self).tool_names() == old(self).tool_names().push(name@),
            final(self).conversations() == old(self).conversations(),
            final(self).settings() == old(self).settings(),
    {
        self.tools.push(name);
        proof {
            assert(texts(self.tools@) =~= texts(old(self).tools@).push(name@));
        }
    }

    /// Whether any tool is registered, so that tool definitions go along
    /// with a request.
    pub fn has_tools(&self) -> (b: bool)
        ensures
            b == (self.tool_names().len() > 0),
    {
        self.tools.len() > 0
    }

    /// Position of the first registered tool named `name`.
    pub fn tool_index(&self, name: &str) -> (r: Option<usize>)
        ensures
            match r {
                Some(i) => i < self.tool_names().len() && self.tool_names()[i as int] == name@
                    && forall|j: int| 0 <= j < i ==> self.tool_names()[j] != name@,
                None => forall|j: int| 0 <= j < self.tool_names().len() ==> self.tool_names()[j] != name@,
            },
    {
        let mut i: usize = 0;
        while i < self.tools.len()
            invariant
                i <= self.tools.len(),
                forall|j: int| 0 <= j < i ==> self.tool_names()[j] != name@,
            decreases self.tools.len() - i,
        {
            if crate::text::str_eq(self.tools[i].as_str(), name) {
                return Some(i);
            }
            i = i + 1;
        }
        None
    }

    /// Starts a new conversation for `user_id` from one exchange: what the
    /// user asked, with the images they shared, and what the model answered.
    /// Any earlier conversation of that user is replaced.
    pub fn create(&mut self, user_id: &str, prompt: &str, image_urls: Vec<String>, answer: &str)
        requires
            old(self).wf(),
        ensures
            final(self).wf(),
            final(self).conversations() == old(self).conversations().insert(
                user_id@,
                seq![user_message(prompt@, texts(image_urls@)), assistant_message(answer@)],
            ),
            same_except(old(self).conversations(), final(self).conversations(), user_id@),
            final(self).settings() == old(self).settings(),
            final(self).tool_names() == old(self).tool_names(),
    {
        let mut conversation = Conversation::new();
        conversation.messages.push(ChatMessage {
            role: MessageRole::User,
            content: String::from_str(prompt),
            image_urls,
        });
        conversation.messages.push(ChatMessage {
            role: MessageRole::Assistant,
            content: String::from_str(answer),
            image_urls: Vec::new(),
        });
        proof {
            let ms = conversation.messages@;
            assert(ms.len() == 2);
            assert(ms[1].image_urls@ =~= Seq::<String>::empty());
            assert(texts(ms[1].image_urls@) =~= Seq::<Seq<char>>::empty());
            assert(ms[0]@ == user_message(prompt@, texts(image_urls@)));
            assert(ms[1]@ =~~= assistant_message(answer@));
            assert(conversation@ =~~= seq![user_message(prompt@, texts(image_urls@)), assistant_message(answer@)]);
        }
        let ghost before = self.conversations();
        store_insert(&mut self.conversations, String::from_str(user_id), conversation);
        proof {
            assert forall|u: Seq<char>| #[trigger] self.conversations().contains_key(u)
                implies self.conversations()[u].len() <= history_bound(self.settings().max_history_messages as nat) by {
                if u != user_id@ {
                    assert(before.contains_key(u));
                }
            }
        }
    }

    /// The earlier messages to send along with a reply of `user_id`: the last
    /// `max_history_messages` of their conversation. Fails when they have none.
    pub fn reply_history(&self, user_id: &str) -> (r: Result<Vec<ChatMessage>, AppError>)
        ensures
            match r {
                Ok(h) => self.conversations().contains_key(user_id@) && message_views(h@) == reply_window(
                    self.conversations()[user_id@],
                    self.settings().max_history_messages as nat,
                ),
                Err(e) => !self.conversations().contains_key(user_id@) && e is NoConversation,
            },
    {
        match store_messages(&self.conversations, user_id) {
            Some(msgs) => {
                let max_history = self.config.max_history_messages;
                let start = msgs.len().saturating_sub(max_history);
                let h = copy_messages_from(&msgs, start);
                proof {
                    if msgs.len() <= max_history {
                        assert(message_views(msgs@).skip(0) =~= message_views(msgs@));
                    }
                }
                Ok(h)
            },
            None => Err(AppError::NoConversation),
        }
    }

    /// Records one more exchange in the conversation of `user_id` and trims
    /// it; a conversation cleared meanwhile stays cleared.
    pub fn reply(&mut self, user_id: &str, prompt: &str, image_urls: Vec<String>, answer: &str)
        requires
            old(self).wf(),
        ensures
            final(self).wf(),
            final(self).conversations() == if old(self).conversations().contains_key(user_id@) {
                old(self).conversations().insert(
                    user_id@,
                    after_reply(
                        old(self).conversations()[user_id@],
                        user_message(prompt@, texts(image_urls@)),
                        assistant_message(answer@),
                        old(self).settings().max_history_messages as nat,
                    ),
                )
            } else {
                old(self).conversations()
            },
            same_except(old(self).conversations(), final(self).conversations(), user_id@),
            final(self).settings() == old(self).settings(),
            final(self).tool_names() == old(self).tool_names(),
    {
        let ghost before = self.conversations();
        match store_remove(&mut self.conversations, user_id) {
            Some(mut conv) => {
                let ghost c0 = conv@;
                let ghost m0 = conv.messages@;
                let ghost asked = user_message(prompt@, texts(image_urls@));
                let ghost answer_view = assistant_message(answer@);
                conv.messages.push(ChatMessage {
                    role: MessageRole::User,
                    content: String::from_str(prompt),
                    image_urls,
                });
                conv.messages.push(ChatMessage {
                    role: MessageRole::Assistant,
                    content: String::from_str(answer),
                    image_urls: Vec::new(),
                });
                let max_history = self.config.max_history_messages;
                proof {
                    let ms = conv.messages@;
                    let n: int = m0.len() as int;
                    assert(ms.len() == n + 2);
                    assert(ms[n + 1].image_urls@ =~= Seq::<String>::empty());
                    assert(texts(ms[n + 1].image_urls@) =~= Seq::<Seq<char>>::empty());
                    assert(ms[n]@ == asked);
                    assert(ms[n + 1]@ =~~= answer_view);
                    assert forall|k: int| 0 <= k < n implies #[trigger] ms[k]@ == c0[k] by {
                        assert(ms[k] == m0[k]);
                    }
                    assert(conv@ =~~= c0.push(asked).push(answer_view));
                }
                let trimmed = if max_history <= usize::MAX / 2 && conv.messages.len() > max_history * 2 {
                    let keep = conv.messages.len() - max_history;
                    let kept = copy_messages_from(&conv.messages, keep);
                    Conversation { messages: kept }
                } else {
                    conv
                };
                proof {
                    lemma_after_reply_bound(c0, asked, answer_view, max_history as nat);
                    assert(trimmed@ =~= after_reply(c0, asked, answer_view, max_history as nat));
                }
                store_insert(&mut self.conversations, String::from_str(user_id), trimmed);
                proof {
                    assert(self.conversations() =~= before.insert(user_id@, trimmed@));
                }
            },
            None => {
                proof {
                    assert(self.conversations() =~= before);
                }
            },
        }
    }

    /// Forgets the conversation of `user_id`; whether there was one.
    pub fn clear(&mut self, user_id: &str) -> (removed: bool)
        requires
            old(self).wf(),
        ensures
            final(self).wf(),
            removed == old(self).conversations().contains_key(user_id@),
            final(self).conversations() == old(self).conversations().remove(user_id@),
            !final(self).conversations().contains_key(user_id@),
            same_except(old(self).conversations(), final(self).conversations(), user_id@),
            final(self).settings() == old(self).settings(),
            final(self).tool_names() == old(self).tool_names(),
    {
        let ghost before = self.conversations();
        let removed = store_remove(&mut self.conversations, user_id).is_some();
        proof {
            assert forall|u: Seq<char>| #[trigger] self.conversations().contains_key(u)
                implies self.conversations()[u].len() <= history_bound(self.settings().max_history_messages as nat) by {
                assert(before.contains_key(u));
            }
        }
        removed
    }

    /// The last `count` messages of the conversation of `user_id`, and how
    /// many it holds; `None` when they have none.
    pub fn get_history(&self, user_id: &str, count: usize) -> (r: Option<HistoryResult>)
        ensures
            match r {
                Some(h) => self.conversations().contains_key(user_id@)
                    && (message_views(h.messages@), h.total as nat) == history_of(
                        self.conversations()[user_id@],
                        count as nat,
                    ),
                None => !self.conversations().contains_key(user_id@),
            },
    {
        match store_messages(&self.conversations, user_id) {
            Some(msgs) => {
                let total = msgs.len();
                let start = total.saturating_sub(count);
                let messages = copy_messages_from(&msgs, start);
                Some(HistoryResult { messages, total })
            },
            None => None,
        }
    }

    /// One-line summary of the conversation of `user_id`; `None` when they
    /// have none.
    pub fn get_conversation_summary(&self, user_id: &str) -> (r: Option<String>)
        ensures
            match r {
                Some(s) => self.conversations().contains_key(user_id@)
                    && s@ == spec_summary(self.conversations()[user_id@]),
                None => !self.conversations().contains_key(user_id@),
            },
    {
        match store_messages(&self.conversations, user_id) {
            Some(msgs) => {
                let conv = Conversation { messages: msgs };
                Some(conv.summary())
            },
            None => None,
        }
    }
}

/// Every conversation that a well-formed service holds is at most
/// `history_bound` messages long.
pub proof fn lemma_conversations_bounded(s: &ChatService, user_id: Seq<char>)
    requires
        s.wf(),
        s.conversations().contains_key(user_id),
    ensures
        s.conversations()[user_id].len() <= history_bound(s.settings().max_history_messages as nat),
{
}

/// A conversation within the bound stays within it after one more exchange.
pub proof fn lemma_after_reply_bound(conv: Seq<MessageView>, asked: MessageView, answer: MessageView, max_history: nat)
    requires
        conv.len() <= history_bound(max_history),
    ensures
        after_reply(conv, asked, answer, max_history).len() <= history_bound(max_history),
{
}

/// At most `max_history` earlier messages go along with a reply: the newest
/// ones, in order, and the whole conversation when it is that short.
pub proof fn lemma_reply_window_shape(conv: Seq<MessageView>, max_history: nat)
    ensures
        reply_window(conv, max_history).len() == (if conv.len() > max_history { max_history } else { conv.len() }),
        reply_window(conv, max_history) == conv.skip(conv.len() - reply_window(conv, max_history).len()),
{
    if conv.len() <= max_history {
        assert(conv.skip(0) =~= conv);
    }
}

/// What a user asked and was answered when a conversation starts is the
/// context of their next reply, as long as two or more messages go along.
pub proof fn lemma_new_conversation_context(asked: MessageView, answer: MessageView, max_history: nat)
    requires
        max_history >= 2,
    ensures
        reply_window(seq![asked, answer], max_history) == seq![asked, answer],
{
}

/// A reply keeps its own exchange: the conversation afterwards ends with
/// what was asked and answered, and it is the newest part of the
/// conversation before with those two messages added.
pub proof fn lemma_reply_keeps_exchange(conv: Seq<MessageView>, asked: MessageView, answer: MessageView, max_history: nat)
    requires
        max_history >= 2,
    ensures
        ({
            let a = after_reply(conv, asked, answer, max_history);
            &&& a.len() >= 2
            &&& a[a.len() - 2] == asked
            &&& a[a.len() - 1] == answer
            &&& a == conv.push(asked).push(answer).skip(conv.len() + 2 - a.len())
        }),
{
    let c = conv.push(asked).push(answer);
    if c.len() <= 2 * max_history {
        assert(c.skip(0) =~= c);
    }
}

/// Whether neighbouring messages of a conversation always come from
/// different sides.
pub open spec fn roles_alternate(conv: Seq<MessageView>) -> bool {
    forall|i: int| 0 <= i < conv.len() - 1 ==> #[trigger] sides_differ(conv, i)
}

/// Whether message `i` and the one after it come from different sides.
pub open spec fn sides_differ(conv: Seq<MessageView>, i: int) -> bool {
    conv[i].role != conv[i + 1].role
}

/// A conversation that `create` starts alternates and ends with the answer.
pub proof fn lemma_new_conversation_roles(prompt: Seq<char>, image_urls: Seq<Seq<char>>, answer: Seq<char>)
    ensures
        roles_alternate(seq![user_message(prompt, image_urls), assistant_message(answer)]),
{
    let c = seq![user_message(prompt, image_urls), assistant_message(answer)];
    assert forall|i: int| 0 <= i < c.len() - 1 implies #[trigger] sides_differ(c, i) by {
        assert(i == 0);
    }
}

proof fn lemma_push_alternates(conv: Seq<MessageView>, m: MessageView)
    requires
        roles_alternate(conv),
        conv.len() > 0 ==> conv.last().role != m.role,
    ensures
        roles_alternate(conv.push(m)),
{
    let c = conv.push(m);
    assert forall|i: int| 0 <= i < c.len() - 1 implies #[trigger] sides_differ(c, i) by {
        assert(c[i] == conv[i]);
        if i < conv.len() - 1 {
            assert(c[i + 1] == conv[i + 1]);
            assert(sides_differ(conv, i));
        }
    }
}

proof fn lemma_skip_alternates(c: Seq<MessageView>, k: int)
    requires
        roles_alternate(c),
        0 <= k <= c.len(),
    ensures
        roles_alternate(c.skip(k)),
{
    let a = c.skip(k);
    assert forall|i: int| 0 <= i < a.len() - 1 implies #[trigger] sides_differ(a, i) by {
        assert(a[i] == c[i + k]);
        assert(a[i + 1] == c[i + k + 1]);
        assert(sides_differ(c, i + k));
    }
}

/// A reply keeps a conversation in shape: with at least one earlier message
/// sent along, it stays within twice that many messages, its roles keep
/// alternating, and it ends with the answer just given.
pub proof fn lemma_reply_keeps_roles(
    conv: Seq<MessageView>,
    prompt: Seq<char>,
    image_urls: Seq<Seq<char>>,
    answer: Seq<char>,
    max_history: nat,
)
    requires
        max_history >= 1,
        roles_alternate(conv),
        conv.len() > 0 ==> conv.last().role == MessageRole::Assistant,
    ensures
        ({
            let a = after_reply(conv, user_message(prompt, image_urls), assistant_message(answer), max_history);
            &&& a.len() <= 2 * max_history
            &&& a.len() > 0
            &&& roles_alternate(a)
            &&& a.last() == assistant_message(answer)
        }),
{
    let u = user_message(prompt, image_urls);
    let w = assistant_message(answer);
    lemma_push_alternates(conv, u);
    lemma_push_alternates(conv.push(u), w);
    let c = conv.push(u).push(w);
    let a = after_reply(conv, u, w, max_history);
    assert(c.last() == w);
    if c.len() > 2 * max_history {
        let k = c.len() - max_history;
        assert(a == c.skip(k));
        lemma_skip_alternates(c, k);
        assert(a.len() == max_history);
        assert(a[a.len() - 1] == c[c.len() - 1]);
    } else {
        assert(a == c);
    }
}

/// The history shown holds the last `count` messages, or all of them when
/// there are fewer, and the total is the length of the conversation.
pub proof fn lemma_history_of_shape(conv: Seq<MessageView>, count: nat)
    ensures
        history_of(conv, count).0.len() == (if conv.len() > count { count } else { conv.len() }),
        history_of(conv, count).0 == conv.skip(conv.len() - history_of(conv, count).0.len()),
        history_of(conv, count).1 == conv.len(),
{
}

/// Rounds of tool calls the model gets before a chat request gives up.
pub const MAX_TOOL_ROUNDS: usize = 5;

/// One part of a user message that carries images.
pub enum ContentPart {
    Text(String),
    ImageUrl(String),
}

/// The content of a user message: plain text, or text followed by images.
pub enum UserContent {
    Text(String),
    Parts(Vec<ContentPart>),
}

/// A tool call the model asked for.
pub struct ToolCall {
    pub id: String,
    pub name: String,
    pub arguments: String,
}

/// A message of a chat request.
pub enum ApiMessage {
    System(String),
    User(UserContent),
    Assistant(String),
    AssistantToolCalls(Vec<ToolCall>),
    Tool { call_id: String, content: String },
}

/// Whether `parts` is the text followed by one image part per URL.
pub open spec fn parts_are(parts: Seq<ContentPart>, text: Seq<char>, image_urls: Seq<Seq<char>>) -> bool {
    &&& parts.len() == image_urls.len() + 1
    &&& parts[0] matches ContentPart::Text(t) && t@ == text
    &&& forall|i: int| 0 <= i < image_urls.len()
        ==> (#[trigger] parts[i + 1] matches ContentPart::ImageUrl(u) && u@ == image_urls[i])
}

/// Whether `c` is the content of a user message with `text` and images at
/// `image_urls`: the bare text when there are no images.
pub open spec fn user_content_is(c: UserContent, text: Seq<char>, image_urls: Seq<Seq<char>>) -> bool {
    if image_urls.len() == 0 {
        c matches UserContent::Text(t) && t@ == text
    } else {
        c matches UserContent::Parts(parts) && parts_are(parts@, text, image_urls)
    }
}

/// Whether `m` is the request message for the conversation message `h`.
pub open spec fn history_message_is(m: ApiMessage, h: MessageView) -> bool {
    match h.role {
        MessageRole::User => m matches ApiMessage::User(c) && user_content_is(c, h.content, h.image_urls),
        MessageRole::Assistant => m matches ApiMessage::Assistant(t) && t@ == h.content,
    }
}

/// Whether `msgs` is the request for `new_prompt` with its images, after
/// the system prompt and the earlier messages `history`.
pub open spec fn request_is(
    msgs: Seq<ApiMessage>,
    system: Seq<char>,
    history: Seq<MessageView>,
    new_prompt: Seq<char>,
    image_urls: Seq<Seq<char>>,
) -> bool {
    &&& msgs.len() == history.len() + 2
    &&& msgs[0] matches ApiMessage::System(s) && s@ == system
    &&& forall|i: int| 0 <= i < history.len() ==> history_message_is(#[trigger] msgs[i + 1], history[i])
    &&& msgs.last() matches ApiMessage::User(c) && user_content_is(c, new_prompt, image_urls)
}

/// The content of a user message with `text` and images at `image_urls`.
pub fn build_user_content(text: &str, image_urls: &Vec<String>) -> (c: UserContent)
    ensures
        user_content_is(c, text@, texts(image_urls@)),
{
    if image_urls.len() == 0 {
        return UserContent::Text(String::from_str(text));
    }
    let mut parts: Vec<ContentPart> = Vec::new();
    parts.push(ContentPart::Text(String::from_str(text)));
    let mut i: usize = 0;
    while i < image_urls.len()
        invariant
            i <= image_urls.len(),
            parts@.len() == i + 1,
            parts@[0] matches ContentPart::Text(t) && t@ == text@,
            forall|k: int| 0 <= k < i ==> (#[trigger] parts@[k + 1] matches ContentPart::ImageUrl(u) && u@ == image_urls@[k]@),
        decreases image_urls.len() - i,
    {
        parts.push(ContentPart::ImageUrl(image_urls[i].clone()));
        i = i + 1;
    }
    UserContent::Parts(parts)
}

/// The request for `new_prompt` with its images, after the system prompt
/// and the earlier messages `history`.
pub fn build_api_messages(
    system_prompt: &str,
    history: &Vec<ChatMessage>,
    new_prompt: &str,
    image_urls: &Vec<String>,
) -> (msgs: Vec<ApiMessage>)
    ensures
        request_is(msgs@, system_prompt@, message_views(history@), new_prompt@, texts(image_urls@)),
{
    let mut result: Vec<ApiMessage> = Vec::new();
    result.push(ApiMessage::System(String::from_str(system_prompt)));
    let mut i: usize = 0;
    while i < history.len()
        invariant
            i <= history.len(),
            result@.len() == i + 1,
            result@[0] matches ApiMessage::System(s) && s@ == system_prompt@,
            forall|k: int| 0 <= k < i ==> history_message_is(#[trigger] result@[k + 1], history@[k]@),
        decreases history.len() - i,
    {
        let msg = &history[i];
        let m = match msg.role {
            MessageRole::User => ApiMessage::User(build_user_content(msg.content.as_str(), &msg.image_urls)),
            MessageRole::Assistant => ApiMessage::Assistant(msg.content.clone()),
        };
        result.push(m);
        i = i + 1;
    }
    result.push(ApiMessage::User(build_user_content(new_prompt, image_urls)));
    result
}

/// Added to the system prompt when the user shared images.
pub const IMAGE_HINT: &'static str = "\n\nThe user has shared images. Be sure to acknowledge and react to them. \
     If they're funny, roast them or add witty commentary. Don't just describe \
     the image — riff on it like you're in a group chat with friends.";

/// The system prompt of a chat request: the configured prompt, the channel
/// the request comes from, and the image hint where images were shared.
pub open spec fn spec_system_prompt(base: Seq<char>, channel_id: u64, has_images: bool) -> Seq<char> {
    base + "\n\nCurrent Discord channel ID: "@ + decimal(channel_id as nat) + if has_images {
        IMAGE_HINT@
    } else {
        Seq::<char>::empty()
    }
}

/// The system prompt of a chat request.
pub fn system_prompt(base: &str, channel_id: u64, has_images: bool) -> (s: String)
    ensures
        s@ == spec_system_prompt(base@, channel_id, has_images),
{
    let mut s = String::from_str(base);
    s.append("\n\nCurrent Discord channel ID: ");
    let id = decimal_string(channel_id);
    s.append(id.as_str());
    if has_images {
        s.append(IMAGE_HINT);
    }
    proof {
        if !has_images {
            assert(s@ =~= spec_system_prompt(base@, channel_id, has_images));
        }
    }
    s
}

/// A tool call as plain values: id, tool name and arguments.
pub open spec fn tool_call_views(calls: Seq<ToolCall>) -> Seq<(Seq<char>, Seq<char>, Seq<char>)> {
    calls.map_values(|c: ToolCall| (c.id@, c.name@, c.arguments@))
}

/// Copies of the tool calls.
pub fn copy_tool_calls(calls: &Vec<ToolCall>) -> (r: Vec<ToolCall>)
    ensures
        tool_call_views(r@) == tool_call_views(calls@),
{
    let mut r: Vec<ToolCall> = Vec::new();
    let mut i: usize = 0;
    while i < calls.len()
        invariant
            i <= calls.len(),
            r.len() == i,
            forall|k: int| 0 <= k < i ==> (#[trigger] r@[k]).id@ == calls@[k].id@ && r@[k].name@ == calls@[k].name@
                && r@[k].arguments@ == calls@[k].arguments@,
        decreases calls.len() - i,
    {
        let c = &calls[i];
        r.push(ToolCall { id: c.id.clone(), name: c.name.clone(), arguments: c.arguments.clone() });
        i = i + 1;
    }
    proof {
        assert(tool_call_views(r@) =~= tool_call_views(calls@));
    }
    r
}

/// What the model answered to one request.
pub enum ModelReply {
    /// The response held no choice.
    NoChoice,
    /// The first choice: whether it finished to call tools, the tool calls
    /// it holds, and its text.
    Choice { finished_for_tools: bool, tool_calls: Option<Vec<ToolCall>>, content: Option<String> },
}

/// How a reply of the model ends a turn: `None` when it calls tools and the
/// turn goes on, `Some(None)` when the response held no choice, and
/// `Some(Some(text))` with its text, empty where it had none.
pub open spec fn reply_outcome(reply: ModelReply) -> Option<Option<Seq<char>>> {
    match reply {
        ModelReply::NoChoice => Some(None),
        ModelReply::Choice { finished_for_tools, tool_calls, content } => if finished_for_tools
            && tool_calls is Some {
            None
        } else {
            Some(Some(match content {
                Some(c) => c@,
                None => Seq::<char>::empty(),
            }))
        },
    }
}

/// A turn from request `k` on, when the model answers request `j` with
/// `replies[j]`: how many requests it makes in all, and what it ends with
/// (`None` for the `NoResponseContent` error).
pub open spec fn turn_result(replies: Seq<ModelReply>, k: nat) -> (nat, Option<Seq<char>>)
    decreases MAX_TOOL_ROUNDS - k,
{
    if k >= MAX_TOOL_ROUNDS {
        (MAX_TOOL_ROUNDS as nat, None)
    } else {
        match reply_outcome(replies[k as int]) {
            None => turn_result(replies, k + 1),
            Some(o) => ((k + 1) as nat, o),
        }
    }
}

proof fn lemma_turn_result_from(replies: Seq<ModelReply>, k: nat)
    requires
        k <= MAX_TOOL_ROUNDS,
        replies.len() >= MAX_TOOL_ROUNDS,
    ensures
        ({
            let (n, o) = turn_result(replies, k);
            &&& k <= n <= MAX_TOOL_ROUNDS
            &&& forall|j: int| k <= j < n - 1 ==> #[trigger] reply_outcome(replies[j]) is None
            &&& if n > k && reply_outcome(replies[n - 1]) is Some {
                reply_outcome(replies[n - 1]) == Some(o)
            } else {
                &&& n == MAX_TOOL_ROUNDS
                &&& o is None
                &&& forall|j: int| k <= j < MAX_TOOL_ROUNDS ==> #[trigger] reply_outcome(replies[j]) is None
            }
        }),
    decreases MAX_TOOL_ROUNDS - k,
{
    if k < MAX_TOOL_ROUNDS {
        if reply_outcome(replies[k as int]) is None {
            lemma_turn_result_from(replies, k + 1);
        }
    }
}

/// A chat request ends at the first reply of the model that does not call
/// tools, after as many requests as it took, with that reply's text, or
/// with `NoResponseContent` where the reply held no choice; when the model
/// is still calling tools after `MAX_TOOL_ROUNDS` requests, it ends there
/// with `NoResponseContent`.
pub proof fn lemma_turn_result(replies: Seq<ModelReply>)
    requires
        replies.len() >= MAX_TOOL_ROUNDS,
    ensures
        ({
            let (n, o) = turn_result(replies, 0);
            &&& n <= MAX_TOOL_ROUNDS
            &&& forall|j: int| 0 <= j < n - 1 ==> #[trigger] reply_outcome(replies[j]) is None
            &&& if n > 0 && reply_outcome(replies[n - 1]) is Some {
                reply_outcome(replies[n - 1]) == Some(o)
            } else {
                &&& n == MAX_TOOL_ROUNDS
                &&& o is None
                &&& forall|j: int| 0 <= j < MAX_TOOL_ROUNDS ==> #[trigger] reply_outcome(replies[j]) is None
            }
        }),
{
    lemma_turn_result_from(replies, 0);
}

/// What to do after a reply of the model.
pub enum TurnStep {
    /// Run these tools, report each result, and ask the model again.
    CallTools(Vec<ToolCall>),
    /// The turn is over, with this answer or error.
    Finished(Result<String, AppError>),
}

/// One chat request: the messages sent so far and how many times the model
/// has been asked.
pub struct ChatTurn {
    messages: Vec<ApiMessage>,
    rounds: usize,
    replies: Ghost<Seq<ModelReply>>,
}

/// Whether the replies `all` begin with `done`.
pub open spec fn extends(all: Seq<ModelReply>, done: Seq<ModelReply>) -> bool {
    done.len() <= all.len() && all.take(done.len() as int) == done
}

/// Whether every reply in `done` called tools, so that the turn goes on.
pub open spec fn still_running(done: Seq<ModelReply>) -> bool {
    forall|j: int| 0 <= j < done.len() ==> #[trigger] reply_outcome(done[j]) is None
}

/// Whether a turn's result is the outcome `o` of `turn_result`: its text,
/// or `NoResponseContent` for `None`.
pub open spec fn result_is(r: Result<String, AppError>, o: Option<Seq<char>>) -> bool {
    match o {
        Some(t) => r matches Ok(x) && x@ == t,
        None => r matches Err(e) && e is NoResponseContent,
    }
}

/// Replies that all called tools are skipped over: a turn with them behind
/// it ends as it would from the next request on.
proof fn lemma_turn_skips(all: Seq<ModelReply>, done: Seq<ModelReply>, j: nat)
    requires
        still_running(done),
        extends(all, done),
        j <= done.len(),
        j <= MAX_TOOL_ROUNDS,
    ensures
        turn_result(all, j) == turn_result(
            all,
            (if done.len() < MAX_TOOL_ROUNDS { done.len() } else { MAX_TOOL_ROUNDS as nat }),
        ),
    decreases done.len() - j,
{
    if j < done.len() && j < MAX_TOOL_ROUNDS {
        assert(all[j as int] == all.take(done.len() as int)[j as int]);
        assert(reply_outcome(done[j as int]) is None);
        lemma_turn_skips(all, done, j + 1);
    }
}

impl ChatTurn {
    /// The model's replies so far, oldest first.
    pub closed spec fn replies(&self) -> Seq<ModelReply> {
        self.replies@
    }

    /// The turn counts one request per reply.
    pub closed spec fn wf(&self) -> bool {
        self.rounds == self.replies@.len()
    }

    /// The messages the next request sends.
    pub closed spec fn sent(&self) -> Seq<ApiMessage> {
        self.messages@
    }

    /// How many times the model has been asked.
    pub closed spec fn asked(&self) -> nat {
        self.rounds as nat
    }

    /// A turn for `prompt` of a user with the images at `image_urls`, in the
    /// channel `channel_id`, after the earlier messages `history`.
    pub fn start(
        service: &ChatService,
        history: &Vec<ChatMessage>,
        prompt: &str,
        channel_id: u64,
        image_urls: &Vec<String>,
    ) -> (t: ChatTurn)
        ensures
            t.asked() == 0,
            t.wf(),
            t.replies() == Seq::<ModelReply>::empty(),
            request_is(
                t.sent(),
                spec_system_prompt(service.settings().system_prompt@, channel_id, image_urls.len() > 0),
                message_views(history@),
                prompt@,
                texts(image_urls@),
            ),
    {
        let system = system_prompt(service.config().system_prompt.as_str(), channel_id, image_urls.len() > 0);
        ChatTurn {
            messages: build_api_messages(system.as_str(), history, prompt, image_urls),
            rounds: 0,
            replies: Ghost(Seq::empty()),
        }
    }

    /// The messages the next request sends.
    pub fn messages(&self) -> (m: &Vec<ApiMessage>)
        ensures
            m@ == self.sent(),
    {
        &self.messages
    }

    /// Whether the model may be asked once more.
    pub fn can_request(&self) -> (b: bool)
        ensures
            b == (self.asked() < MAX_TOOL_ROUNDS),
    {
        self.rounds < MAX_TOOL_ROUNDS
    }

    /// Takes in the model's reply: tool calls it asked for go on record and
    /// are handed out to be run; otherwise the turn is over with its text, or
    /// with an error when the response held no choice.
    pub fn on_reply(&mut self, reply: ModelReply) -> (step: TurnStep)
        requires
            old(self).wf(),
            old(self).asked() < MAX_TOOL_ROUNDS,
        ensures
            final(self).wf(),
            final(self).asked() == old(self).asked() + 1,
            final(self).replies() == old(self).replies().push(reply),
            still_running(old(self).replies()) && step is CallTools ==> still_running(final(self).replies()),
            still_running(old(self).replies()) ==> forall|all: Seq<ModelReply>| #[trigger]
                extends(all, final(self).replies()) ==> (step matches TurnStep::Finished(r) ==> (
                turn_result(all, 0).0 == final(self).asked() && result_is(r, turn_result(all, 0).1))),
            match reply_outcome(reply) {
                None => step is CallTools,
                Some(None) => step matches TurnStep::Finished(Err(e)) && e is NoResponseContent,
                Some(Some(text)) => step matches TurnStep::Finished(Ok(t)) && t@ == text,
            },
            match reply {
                ModelReply::NoChoice => step matches TurnStep::Finished(Err(e)) && e is NoResponseContent
                    && final(self).sent() == old(self).sent(),
                ModelReply::Choice { finished_for_tools, tool_calls, content } => if finished_for_tools
                    && tool_calls is Some {
                    &&& step matches TurnStep::CallTools(calls)
                        && tool_call_views(calls@) == tool_call_views(tool_calls->0@)
                    &&& final(self).sent().len() == old(self).sent().len() + 1
                    &&& final(self).sent().drop_last() == old(self).sent()
                    &&& final(self).sent().last() matches ApiMessage::AssistantToolCalls(recorded)
                        && tool_call_views(recorded@) == tool_call_views(tool_calls->0@)
                } else {
                    &&& final(self).sent() == old(self).sent()
                    &&& step matches TurnStep::Finished(Ok(text)) && text@ == match content {
                        Some(c) => c@,
                        None => Seq::<char>::empty(),
                    }
                },
            },
    {
        let ghost done = self.replies@;
        let ghost k: nat = done.len();
        self.rounds = self.rounds + 1;
        self.replies = Ghost(done.push(reply));
        proof {
            let now = done.push(reply);
            if still_running(done) {
                assert forall|all: Seq<ModelReply>| #[trigger] extends(all, now) implies turn_result(all, 0)
                    == (match reply_outcome(reply) {
                    Some(o) => ((k + 1) as nat, o),
                    None => turn_result(all, k + 1),
                }) by {
                    assert(all.take(k as int) =~= now.take(k as int));
                    assert(now.take(k as int) =~= done);
                    assert(extends(all, done));
                    lemma_turn_skips(all, done, 0);
                    assert(all[k as int] == all.take(now.len() as int)[k as int]);
                    assert(all[k as int] == reply);
                }
                if reply_outcome(reply) is None {
                    assert forall|j: int| 0 <= j < now.len() implies #[trigger] reply_outcome(now[j]) is None by {
                        if j < k {
                            assert(now[j] == done[j]);
                        }
                    }
                }
            }
        }
        match reply {
            ModelReply::NoChoice => TurnStep::Finished(Err(AppError::NoResponseContent)),
            ModelReply::Choice { finished_for_tools, tool_calls, content } => {
                if finished_for_tools {
                    if let Some(calls) = tool_calls {
                        let recorded = copy_tool_calls(&calls);
                        self.messages.push(ApiMessage::AssistantToolCalls(recorded));
                        proof {
                            assert(self.messages@.drop_last() =~= old(self).messages@);
                        }
                        return TurnStep::CallTools(calls);
                    }
                }
                match content {
                    Some(c) => TurnStep::Finished(Ok(c)),
                    None => TurnStep::Finished(Ok(String::new())),
                }
            },
        }
    }

    /// Records the result of the tool call `call_id`.
    pub fn on_tool_result(&mut self, call_id: String, result: String)
        ensures
            final(self).asked() == old(self).asked(),
            final(self).replies() == old(self).replies(),
            final(self).wf() == old(self).wf(),
            final(self).sent().len() == old(self).sent().len() + 1,
            final(self).sent().drop_last() == old(self).sent(),
            final(self).sent().last() matches ApiMessage::Tool { call_id: id, content }
                && id@ == call_id@ && content@ == result@,
    {
        self.messages.push(ApiMessage::Tool { call_id, content: result });
        proof {
            assert(self.messages@.drop_last() =~= old(self).messages@);
        }
    }

    /// The error a turn ends with when the model is still calling tools
    /// after `MAX_TOOL_ROUNDS` requests.
    pub fn out_of_rounds(&self) -> (e: AppError)
        ensures
            e is NoResponseContent,
            self.wf() && self.asked() >= MAX_TOOL_ROUNDS && still_running(self.replies())
                ==> forall|all: Seq<ModelReply>| #[trigger] extends(all, self.replies())
                ==> turn_result(all, 0).0 == MAX_TOOL_ROUNDS && turn_result(all, 0).1 is None,
    {
        proof {
            if self.wf() && self.asked() >= MAX_TOOL_ROUNDS && still_running(self.replies()) {
                assert forall|all: Seq<ModelReply>| #[trigger] extends(all, self.replies()) implies turn_result(all, 0).0
                    == MAX_TOOL_ROUNDS && turn_result(all, 0).1 is None by {
                    lemma_turn_skips(all, self.replies(), 0);
                }
            }
        }
        AppError::NoResponseContent
    }
}

/// What a tool call of an unknown tool is answered.
pub open spec fn spec_unknown_tool(name: Seq<char>) -> Seq<char> {
    "Unknown tool: "@ + name
}

/// What a tool call of an unknown tool is answered.
pub fn unknown_tool(name: &str) -> (s: String)
    ensures
        s@ == spec_unknown_tool(name@),
{
    let mut s = String::from_str("Unknown tool: ");
    s.append(name);
    s
}

/// The system prompt of a roast.
pub const ROAST_SYSTEM_PROMPT: &'static str = "You are the meanest comedian at a no-holds-barred roast between close friends. \
    Nothing is off limits. Be ruthless, personal, and creative with your insults. \
    Use sarcasm, backhanded compliments, and cutting observations. \
    Make it sting but make it funny. No generic insults — everything should be specific \
    to what this person actually said and did in chat. \
    Keep it to 3-5 sentences max.";

/// What the channel history of a roast reads when there is no channel tool.
pub const NO_MESSAGES_FOUND: &'static str = "No messages found.";

/// The request for a roast of `target` from the channel history `channel_messages`.
pub open spec fn spec_roast_prompt(target: Seq<char>, channel_messages: Seq<char>) -> Seq<char> {
    "Based on the following recent Discord messages, write a brutal roast of the user \""@ + target
        + "\". Tear apart what they've said, how they talk, their terrible opinions, their personality, and their behavior in chat. Be specific — quote them and use their own words against them. Go for the jugular. If you can't find messages from them, absolutely destroy them for being a lurker who contributes nothing.\n\nMessages:\n"@
        + channel_messages
}

/// The request for a roast of `target` from the channel history `channel_messages`.
pub fn roast_prompt(target: &str, channel_messages: &str) -> (s: String)
    ensures
        s@ == spec_roast_prompt(target@, channel_messages@),
{
    let mut s = String::from_str("Based on the following recent Discord messages, write a brutal roast of the user \"");
    s.append(target);
    s.append("\". Tear apart what they've said, how they talk, their terrible opinions, their personality, and their behavior in chat. Be specific — quote them and use their own words against them. Go for the jugular. If you can't find messages from them, absolutely destroy them for being a lurker who contributes nothing.\n\nMessages:\n");
    s.append(channel_messages);
    s
}

/// The arguments the channel history tool is called with for a roast: the
/// channel and the last 50 messages.
pub open spec fn spec_roast_tool_arguments(channel_id: u64) -> Seq<char> {
    "{\"channel_id\":\""@ + decimal(channel_id as nat) + "\",\"limit\":50}"@
}

/// The arguments the channel history tool is called with for a roast.
pub fn roast_tool_arguments(channel_id: u64) -> (s: String)
    ensures
        s@ == spec_roast_tool_arguments(channel_id),
{
    let mut s = String::from_str("{\"channel_id\":\"");
    let id = decimal_string(channel_id);
    s.append(id.as_str());
    s.append("\",\"limit\":50}");
    s
}

/// The messages of a roast request.
pub fn roast_messages(target: &str, channel_messages: &str) -> (msgs: Vec<ApiMessage>)
    ensures
        request_is(msgs@, ROAST_SYSTEM_PROMPT@, Seq::empty(), spec_roast_prompt(target@, channel_messages@), Seq::empty()),
{
    let prompt = roast_prompt(target, channel_messages);
    let none: Vec<ChatMessage> = Vec::new();
    let no_images: Vec<String> = Vec::new();
    let msgs = build_api_messages(ROAST_SYSTEM_PROMPT, &none, prompt.as_str(), &no_images);
    proof {
        assert(message_views(none@) =~= Seq::<MessageView>::empty());
        assert(texts(no_images@) =~= Seq::<Seq<char>>::empty());
    }
    msgs
}

/// Where a roast reads the channel's recent messages from.
pub enum RoastSource {
    /// Run the registered tool at `index` with these arguments.
    Tool { index: usize, arguments: String },
    /// No channel tool is registered: this text stands for the messages.
    Fixed(String),
}

impl ChatService {
    /// Where a roast in the channel `channel_id` reads its messages from:
    /// the first registered channel history tool, asked for the last 50
    /// messages, or the fixed text saying none were found.
    pub fn roast_source(&self, channel_id: u64) -> (r: RoastSource)
        ensures
            match r {
                RoastSource::Tool { index, arguments } => index < self.tool_names().len()
                    && self.tool_names()[index as int] == CHANNEL_SUMMARY_TOOL@
                    && (forall|j: int| 0 <= j < index ==> self.tool_names()[j] != CHANNEL_SUMMARY_TOOL@)
                    && arguments@ == spec_roast_tool_arguments(channel_id),
                RoastSource::Fixed(t) => (forall|j: int| 0 <= j < self.tool_names().len()
                    ==> self.tool_names()[j] != CHANNEL_SUMMARY_TOOL@) && t@ == NO_MESSAGES_FOUND@,
            },
    {
        match self.tool_index(CHANNEL_SUMMARY_TOOL) {
            Some(index) => RoastSource::Tool { index, arguments: roast_tool_arguments(channel_id) },
            None => RoastSource::Fixed(String::from_str(NO_MESSAGES_FOUND)),
        }
    }
}

/// The roast, from the text of the model's first choice.
pub fn roast_answer(content: Option<String>) -> (r: Result<String, AppError>)
    ensures
        match content {
            Some(c) => r matches Ok(t) && t@ == c@,
            None => r matches Err(e) && e is NoResponseContent,
        },
{
    match content {
        Some(c) => Ok(c),
        None => Err(AppError::NoResponseContent),
    }
}

} // verus!
