use podgpt::config::{Config, DEFAULT_MAX_HISTORY_MESSAGES, DEFAULT_MAX_TOKENS, DEFAULT_MODEL};
use podgpt::error::AppError;
use podgpt::gpt;
use podgpt::services::chat::{
    build_api_messages, build_user_content, roast_answer, roast_messages, roast_prompt, roast_tool_arguments,
    system_prompt, unknown_tool, ApiMessage, ChatService, ChatTurn, ContentPart, ModelReply, ToolCall, TurnStep,
    UserContent, RoastSource, GENERATE_IMAGE_TOOL, IMAGE_HINT, MAX_TOOL_ROUNDS, NO_MESSAGES_FOUND, ROAST_SYSTEM_PROMPT,
    WEB_SEARCH_TOOL,
};
use podgpt::services::conversation::{copy_messages_from, ChatMessage, Conversation, MessageRole};

fn config(tavily: Option<&str>) -> Config {
    Config::from_values(
        "discord".to_string(),
        "openai".to_string(),
        None,
        None,
        None,
        tavily.map(|t| t.to_string()),
    )
}

fn service() -> ChatService {
    ChatService::new(config(None))
}

#[test]
fn config_defaults() {
    let c = config(None);
    assert_eq!(c.model, DEFAULT_MODEL);
    assert_eq!(c.max_tokens, DEFAULT_MAX_TOKENS);
    assert_eq!(c.max_history_messages, DEFAULT_MAX_HISTORY_MESSAGES);
    assert!(c.system_prompt.starts_with("You are PodGPT"));
    assert_eq!(c.tavily_api_key, None);
}

#[test]
fn config_from_values() {
    let c = Config::from_values(
        "d".to_string(),
        "o".to_string(),
        Some("gpt-4.1".to_string()),
        Some("512".to_string()),
        Some("Be brief.".to_string()),
        Some("tv".to_string()),
    );
    assert_eq!(c.discord_token, "d");
    assert_eq!(c.openai_api_key, "o");
    assert_eq!(c.model, "gpt-4.1");
    assert_eq!(c.max_tokens, 512);
    assert_eq!(c.system_prompt, "Be brief.");
    assert_eq!(c.tavily_api_key, Some("tv".to_string()));
}

#[test]
fn config_bad_max_tokens_falls_back() {
    for bad in ["lots", "", "-5", "4294967296"] {
        let c = Config::from_values("d".into(), "o".into(), None, Some(bad.to_string()), None, None);
        assert_eq!(c.max_tokens, DEFAULT_MAX_TOKENS);
    }
    let c = Config::from_values("d".into(), "o".into(), None, Some("4294967295".into()), None, None);
    assert_eq!(c.max_tokens, u32::MAX);
}

#[test]
fn tools_registered_by_configuration() {
    let s = ChatService::new(config(None));
    assert!(s.has_tools());
    assert_eq!(s.tool_index(GENERATE_IMAGE_TOOL), Some(0));
    assert_eq!(s.tool_index(WEB_SEARCH_TOOL), None);

    let mut s = ChatService::new(config(Some("key")));
    assert_eq!(s.tool_index(WEB_SEARCH_TOOL), Some(0));
    assert_eq!(s.tool_index(GENERATE_IMAGE_TOOL), Some(1));
    s.register_tool("channel_summary".to_string());
    assert_eq!(s.tool_index("channel_summary"), Some(2));
    assert_eq!(s.tool_index("read_url"), None);
    assert_eq!(s.config().tavily_api_key, Some("key".to_string()));
}

#[test]
fn new_service_has_no_conversations() {
    let s = service();
    assert!(s.get_history("u1", 6).is_none());
    assert!(s.get_conversation_summary("u1").is_none());
    assert!(matches!(s.reply_history("u1"), Err(AppError::NoConversation)));
}

#[test]
fn ask_then_history_holds_the_exchange() {
    let mut s = service();
    s.create("u1", "What is Rust?", vec!["https://img/1.png".to_string()], "A language.");
    let h = s.get_history("u1", 6).expect("a conversation was started");
    assert_eq!(h.total, 2);
    assert_eq!(h.messages.len(), 2);
    assert_eq!(h.messages[0].role, MessageRole::User);
    assert_eq!(h.messages[0].content, "What is Rust?");
    assert_eq!(h.messages[0].image_urls, vec!["https://img/1.png".to_string()]);
    assert_eq!(h.messages[1].role, MessageRole::Assistant);
    assert_eq!(h.messages[1].content, "A language.");
    assert!(h.messages[1].image_urls.is_empty());
}

#[test]
fn ask_then_reply_sends_the_exchange_as_context() {
    let mut s = service();
    s.create("u1", "first question", Vec::new(), "first answer");
    let ctx = s.reply_history("u1").expect("the conversation exists");
    assert_eq!(ctx.len(), 2);
    assert_eq!(ctx[0].content, "first question");
    assert_eq!(ctx[1].content, "first answer");
}

#[test]
fn reply_appends_the_exchange() {
    let mut s = service();
    s.create("u1", "q1", Vec::new(), "a1");
    s.reply("u1", "q2", Vec::new(), "a2");
    let h = s.get_history("u1", 10).unwrap();
    assert_eq!(h.total, 4);
    let contents: Vec<&str> = h.messages.iter().map(|m| m.content.as_str()).collect();
    assert_eq!(contents, vec!["q1", "a1", "q2", "a2"]);
}

#[test]
fn reply_without_conversation_changes_nothing() {
    let mut s = service();
    s.reply("ghost", "q", Vec::new(), "a");
    assert!(s.get_history("ghost", 6).is_none());
}

#[test]
fn conversation_is_trimmed_past_twice_the_history() {
    let mut s = service();
    s.create("u1", "q0", Vec::new(), "a0");
    for i in 1..20 {
        s.reply("u1", &format!("q{i}"), Vec::new(), &format!("a{i}"));
    }
    assert_eq!(s.get_history("u1", 100).unwrap().total, 40);
    s.reply("u1", "q20", Vec::new(), "a20");
    let h = s.get_history("u1", 100).unwrap();
    assert_eq!(h.total, 20);
    assert_eq!(h.messages[0].content, "q11");
    assert_eq!(h.messages[18].content, "q20");
    assert_eq!(h.messages[19].content, "a20");
}

#[test]
fn reply_context_is_the_last_messages() {
    let mut s = service();
    s.create("u1", "q0", Vec::new(), "a0");
    for i in 1..15 {
        s.reply("u1", &format!("q{i}"), Vec::new(), &format!("a{i}"));
    }
    let ctx = s.reply_history("u1").unwrap();
    assert_eq!(ctx.len(), DEFAULT_MAX_HISTORY_MESSAGES);
    assert_eq!(ctx[0].content, "q5");
    assert_eq!(ctx[19].content, "a14");
}

#[test]
fn history_count_takes_the_newest() {
    let mut s = service();
    s.create("u1", "q1", Vec::new(), "a1");
    s.reply("u1", "q2", Vec::new(), "a2");
    let h = s.get_history("u1", 3).unwrap();
    assert_eq!(h.total, 4);
    let contents: Vec<&str> = h.messages.iter().map(|m| m.content.as_str()).collect();
    assert_eq!(contents, vec!["a1", "q2", "a2"]);
    let none = s.get_history("u1", 0).unwrap();
    assert!(none.messages.is_empty());
    assert_eq!(none.total, 4);
}

#[test]
fn ask_again_starts_over() {
    let mut s = service();
    s.create("u1", "q1", Vec::new(), "a1");
    s.reply("u1", "q2", Vec::new(), "a2");
    s.create("u1", "fresh", Vec::new(), "start");
    let h = s.get_history("u1", 10).unwrap();
    assert_eq!(h.total, 2);
    assert_eq!(h.messages[0].content, "fresh");
}

#[test]
fn clear_forgets_only_that_user() {
    let mut s = service();
    s.create("u1", "q1", Vec::new(), "a1");
    s.create("u2", "other", Vec::new(), "answer");
    assert!(s.clear("u1"));
    assert!(s.get_history("u1", 6).is_none());
    assert!(matches!(s.reply_history("u1"), Err(AppError::NoConversation)));
    assert_eq!(s.get_history("u2", 6).unwrap().total, 2);
    assert!(!s.clear("u1"));
}

#[test]
fn users_are_kept_apart() {
    let mut s = service();
    s.create("u1", "mine", Vec::new(), "yours");
    s.create("u2", "theirs", Vec::new(), "ok");
    s.reply("u2", "more", Vec::new(), "sure");
    assert_eq!(s.get_history("u1", 10).unwrap().total, 2);
    assert_eq!(s.get_history("u2", 10).unwrap().total, 4);
}

#[test]
fn summary_of_a_conversation() {
    let mut s = service();
    s.create("u1", "Tell me a joke", Vec::new(), "Why did...");
    assert_eq!(s.get_conversation_summary("u1").unwrap(), "\"Tell me a joke\" (2 messages)");
    let long = "x".repeat(60);
    s.create("u2", &long, Vec::new(), "ok");
    assert_eq!(
        s.get_conversation_summary("u2").unwrap(),
        format!("\"{}...\" (2 messages)", "x".repeat(50))
    );
}

#[test]
fn conversation_summary_directly() {
    let c = Conversation::new();
    assert!(c.messages.is_empty());
    assert_eq!(c.summary(), "(empty)");
    let c = Conversation {
        messages: vec![ChatMessage { role: MessageRole::User, content: "hi".into(), image_urls: vec![] }],
    };
    assert_eq!(c.summary(), "\"hi\" (1 messages)");
}

#[test]
fn copying_messages() {
    let msgs = vec![
        ChatMessage { role: MessageRole::User, content: "a".into(), image_urls: vec!["u".into()] },
        ChatMessage { role: MessageRole::Assistant, content: "b".into(), image_urls: vec![] },
    ];
    let tail = copy_messages_from(&msgs, 1);
    assert_eq!(tail.len(), 1);
    assert_eq!(tail[0].content, "b");
    let all = copy_messages_from(&msgs, 0);
    assert_eq!(all[0].image_urls, vec!["u".to_string()]);
    let c = msgs[0].copy();
    assert_eq!(c.role, MessageRole::User);
    assert_eq!(c.content, "a");
}

#[test]
fn system_prompt_names_the_channel() {
    assert_eq!(system_prompt("Base.", 42, false), "Base.\n\nCurrent Discord channel ID: 42");
    assert_eq!(system_prompt("Base.", 7, true), format!("Base.\n\nCurrent Discord channel ID: 7{IMAGE_HINT}"));
}

#[test]
fn user_content_with_and_without_images() {
    match build_user_content("hi", &Vec::new()) {
        UserContent::Text(t) => assert_eq!(t, "hi"),
        UserContent::Parts(_) => panic!("no images"),
    }
    match build_user_content("look", &vec!["u1".to_string(), "u2".to_string()]) {
        UserContent::Parts(parts) => {
            assert_eq!(parts.len(), 3);
            assert!(matches!(&parts[0], ContentPart::Text(t) if t == "look"));
            assert!(matches!(&parts[1], ContentPart::ImageUrl(u) if u == "u1"));
            assert!(matches!(&parts[2], ContentPart::ImageUrl(u) if u == "u2"));
        },
        UserContent::Text(_) => panic!("images were given"),
    }
}

#[test]
fn request_messages_in_order() {
    let history = vec![
        ChatMessage { role: MessageRole::User, content: "q".into(), image_urls: vec!["img".into()] },
        ChatMessage { role: MessageRole::Assistant, content: "a".into(), image_urls: vec![] },
    ];
    let msgs = build_api_messages("sys", &history, "next", &Vec::new());
    assert_eq!(msgs.len(), 4);
    assert!(matches!(&msgs[0], ApiMessage::System(s) if s == "sys"));
    assert!(matches!(&msgs[1], ApiMessage::User(UserContent::Parts(p)) if p.len() == 2));
    assert!(matches!(&msgs[2], ApiMessage::Assistant(a) if a == "a"));
    assert!(matches!(&msgs[3], ApiMessage::User(UserContent::Text(t)) if t == "next"));
}

fn call(id: &str, name: &str, args: &str) -> ToolCall {
    ToolCall { id: id.to_string(), name: name.to_string(), arguments: args.to_string() }
}

#[test]
fn turn_runs_tools_then_finishes() {
    let s = service();
    let mut turn = ChatTurn::start(&s, &Vec::new(), "draw a cat", 99, &Vec::new());
    assert_eq!(turn.messages().len(), 2);
    assert!(matches!(&turn.messages()[0], ApiMessage::System(p) if p.ends_with("Current Discord channel ID: 99")));
    assert!(turn.can_request());
    let step = turn.on_reply(ModelReply::Choice {
        finished_for_tools: true,
        tool_calls: Some(vec![call("c1", "generate_image", "{\"prompt\":\"cat\"}")]),
        content: None,
    });
    match step {
        TurnStep::CallTools(calls) => {
            assert_eq!(calls.len(), 1);
            assert_eq!(calls[0].name, "generate_image");
        },
        TurnStep::Finished(_) => panic!("the model asked for a tool"),
    }
    assert_eq!(turn.messages().len(), 3);
    assert!(matches!(&turn.messages()[2], ApiMessage::AssistantToolCalls(c) if c.len() == 1 && c[0].id == "c1"));
    turn.on_tool_result("c1".to_string(), "Image generated".to_string());
    assert!(matches!(&turn.messages()[3], ApiMessage::Tool { call_id, content } if call_id == "c1" && content == "Image generated"));
    let step = turn.on_reply(ModelReply::Choice { finished_for_tools: false, tool_calls: None, content: Some("Done!".into()) });
    assert!(matches!(step, TurnStep::Finished(Ok(t)) if t == "Done!"));
    assert_eq!(turn.messages().len(), 4);
}

#[test]
fn turn_without_content_answers_empty() {
    let s = service();
    let mut turn = ChatTurn::start(&s, &Vec::new(), "hi", 1, &Vec::new());
    let step = turn.on_reply(ModelReply::Choice { finished_for_tools: false, tool_calls: None, content: None });
    assert!(matches!(step, TurnStep::Finished(Ok(t)) if t.is_empty()));
    let mut turn = ChatTurn::start(&s, &Vec::new(), "hi", 1, &Vec::new());
    let step = turn.on_reply(ModelReply::Choice { finished_for_tools: true, tool_calls: None, content: Some("x".into()) });
    assert!(matches!(step, TurnStep::Finished(Ok(t)) if t == "x"));
}

#[test]
fn turn_without_choice_fails() {
    let s = service();
    let mut turn = ChatTurn::start(&s, &Vec::new(), "hi", 1, &Vec::new());
    assert!(matches!(turn.on_reply(ModelReply::NoChoice), TurnStep::Finished(Err(AppError::NoResponseContent))));
}

#[test]
fn turn_gives_up_after_the_rounds() {
    let s = service();
    let mut turn = ChatTurn::start(&s, &Vec::new(), "loop", 1, &Vec::new());
    let mut rounds = 0;
    while turn.can_request() {
        let step = turn.on_reply(ModelReply::Choice {
            finished_for_tools: true,
            tool_calls: Some(vec![call("c", "read_url", "{}")]),
            content: None,
        });
        assert!(matches!(step, TurnStep::CallTools(_)));
        turn.on_tool_result("c".into(), "r".into());
        rounds += 1;
    }
    assert_eq!(rounds, MAX_TOOL_ROUNDS);
    assert!(matches!(turn.out_of_rounds(), AppError::NoResponseContent));
}

#[test]
fn unknown_tools_are_answered() {
    assert_eq!(unknown_tool("teleport"), "Unknown tool: teleport");
}

#[test]
fn roast_request() {
    assert_eq!(roast_tool_arguments(123), "{\"channel_id\":\"123\",\"limit\":50}");
    let p = roast_prompt("bob", "[t] @bob: hi\n");
    assert!(p.starts_with("Based on the following recent Discord messages, write a brutal roast of the user \"bob\"."));
    assert!(p.ends_with("\n\nMessages:\n[t] @bob: hi\n"));
    let msgs = roast_messages("bob", NO_MESSAGES_FOUND);
    assert_eq!(msgs.len(), 2);
    assert!(matches!(&msgs[0], ApiMessage::System(s) if s == ROAST_SYSTEM_PROMPT));
    assert!(matches!(&msgs[1], ApiMessage::User(UserContent::Text(t)) if t.ends_with("Messages:\nNo messages found.")));
    assert!(matches!(roast_answer(Some("burn".into())), Ok(t) if t == "burn"));
    assert!(matches!(roast_answer(None), Err(AppError::NoResponseContent)));
}

#[test]
fn first_client_conversation() {
    let c = gpt::Conversation::initial();
    assert_eq!(c._id, "1");
    assert!(c.messages.is_empty());
    let mut c = gpt::Conversation::started("chatcmpl-1".into(), "hi".into(), "hello".into());
    assert_eq!(c._id, "chatcmpl-1");
    c.push("more".into());
    assert_eq!(c.messages, vec!["hi".to_string(), "hello".to_string(), "more".to_string()]);
    let msgs = c.request_messages();
    assert_eq!(msgs.len(), 3);
    assert!(matches!(&msgs[0], ApiMessage::System(s) if s == "hi"));
    assert!(matches!(&msgs[2], ApiMessage::System(s) if s == "more"));
    assert!(gpt::Conversation::initial().request_messages().is_empty());
}

#[test]
fn roles_keep_alternating() {
    let mut s = service();
    s.create("u1", "q0", Vec::new(), "a0");
    for i in 1..25 {
        s.reply("u1", &format!("q{i}"), Vec::new(), &format!("a{i}"));
        let h = s.get_history("u1", 1000).unwrap();
        assert!(h.total <= 2 * DEFAULT_MAX_HISTORY_MESSAGES);
        for pair in h.messages.windows(2) {
            assert_ne!(pair[0].role, pair[1].role);
        }
        let last = h.messages.last().unwrap();
        assert_eq!(last.role, MessageRole::Assistant);
        assert_eq!(last.content, format!("a{i}"));
    }
}

#[test]
fn roast_reads_the_channel_tool_when_there_is_one() {
    let mut s = service();
    assert!(matches!(s.roast_source(7), RoastSource::Fixed(t) if t == NO_MESSAGES_FOUND));
    s.register_tool("read_url".to_string());
    s.register_tool("channel_summary".to_string());
    match s.roast_source(7) {
        RoastSource::Tool { index, arguments } => {
            assert_eq!(index, 2);
            assert_eq!(arguments, "{\"channel_id\":\"7\",\"limit\":50}");
        },
        RoastSource::Fixed(_) => panic!("a channel tool is registered"),
    }
}

#[test]
fn turn_ends_at_first_reply_without_tools() {
    let s = service();
    let mut turn = ChatTurn::start(&s, &Vec::new(), "q", 1, &Vec::new());
    let mut requests = 0;
    let replies = vec![
        ModelReply::Choice { finished_for_tools: true, tool_calls: Some(vec![call("c1", "read_url", "{}")]), content: None },
        ModelReply::Choice { finished_for_tools: true, tool_calls: Some(vec![call("c2", "read_url", "{}")]), content: None },
        ModelReply::Choice { finished_for_tools: false, tool_calls: None, content: Some("third".into()) },
        ModelReply::Choice { finished_for_tools: false, tool_calls: None, content: Some("never".into()) },
    ];
    let mut answer = None;
    for r in replies {
        assert!(turn.can_request());
        requests += 1;
        match turn.on_reply(r) {
            TurnStep::CallTools(calls) => {
                for c in calls {
                    turn.on_tool_result(c.id, "r".into());
                }
            },
            TurnStep::Finished(res) => {
                answer = Some(res);
                break;
            },
        }
    }
    assert_eq!(requests, 3);
    assert!(matches!(answer, Some(Ok(t)) if t == "third"));
}
