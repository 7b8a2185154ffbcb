use podgpt::commands::all_commands::AllCommands;
use podgpt::commands::chat::{image_urls_from_attachment, plan_response, AttachmentInfo, ResponsePlan};
use podgpt::commands::manage::{
    clear_reply, conversations_reply, history_count, history_reply, try_history_reply, DEFAULT_HISTORY_COUNT,
};
use podgpt::commands::roast::roast_reply;
use podgpt::error::AppError;
use podgpt::services::channel_summary::{
    channel_answer, channel_request, format_channel_messages, shown_content, tweet_links, ChannelMessage,
    ChannelRequest, CHANNEL_SUMMARY_NAME,
};
use podgpt::services::chat::HistoryResult;
use podgpt::services::conversation::{ChatMessage, MessageRole};
use podgpt::services::image::{image_from_response, GeneratedImage, ImageData, ImageGeneratorTool, IMAGE_MODEL};
use podgpt::services::image_generator::OpenAiImageGenerator;
use podgpt::services::search::{api_error, format_results, SearchResult, SearchTool};
use podgpt::services::url_reader::ToolArgument;

fn msg(role: MessageRole, content: &str) -> ChatMessage {
    ChatMessage { role, content: content.to_string(), image_urls: Vec::new() }
}

#[test]
fn clear_replies() {
    assert_eq!(clear_reply(true), "Conversation cleared.");
    assert_eq!(clear_reply(false), "No active conversation to clear.");
}

#[test]
fn history_count_defaults_to_six() {
    assert_eq!(history_count(None), DEFAULT_HISTORY_COUNT);
    assert_eq!(DEFAULT_HISTORY_COUNT, 6);
    assert_eq!(history_count(Some(3)), 3);
}

#[test]
fn history_reply_without_conversation() {
    assert_eq!(history_reply(&None), "No active conversation. Use /ask to start one.");
}

#[test]
fn history_reply_of_an_empty_window() {
    let h = Some(HistoryResult { messages: Vec::new(), total: 4 });
    assert_eq!(history_reply(&h), "Conversation is empty.");
}

#[test]
fn history_reply_lists_messages() {
    let h = Some(HistoryResult {
        messages: vec![msg(MessageRole::User, "Hi"), msg(MessageRole::Assistant, "Hello!")],
        total: 5,
    });
    assert_eq!(
        history_reply(&h),
        "**Conversation history** (showing 2 of 5 messages):\n\n**You:** Hi\n\n**GPT:** Hello!\n"
    );
}

#[test]
fn history_reply_cuts_long_messages() {
    let long = "y".repeat(150);
    let h = Some(HistoryResult { messages: vec![msg(MessageRole::Assistant, &long)], total: 1 });
    assert_eq!(
        history_reply(&h),
        format!("**Conversation history** (showing 1 of 1 messages):\n\n**GPT:** {}...\n", "y".repeat(100))
    );
}

#[test]
fn history_reply_refuses_to_cut_inside_a_character() {
    let text = format!("a{}", "é".repeat(60));
    let h = Some(HistoryResult { messages: vec![msg(MessageRole::User, &text)], total: 1 });
    assert_eq!(try_history_reply(&h), None);
}

#[test]
fn conversations_replies() {
    assert_eq!(conversations_reply("42", None), "No active conversations.");
    assert_eq!(
        conversations_reply("42", Some("\"hi\" (2 messages)".to_string())),
        "**Active conversations:**\n\n1. User <42>: \"hi\" (2 messages)\n"
    );
}

#[test]
fn roast_replies() {
    assert_eq!(roast_reply(1234, "You type like a fax machine."), "**Roasting <@1234>:**\n\nYou type like a fax machine.");
}

#[test]
fn image_attachments_only() {
    let atts = vec![
        AttachmentInfo { content_type: Some("image/png".into()), url: "https://cdn/a.png".into() },
        AttachmentInfo { content_type: Some("text/plain".into()), url: "https://cdn/b.txt".into() },
        AttachmentInfo { content_type: None, url: "https://cdn/c".into() },
        AttachmentInfo { content_type: Some("image/jpeg".into()), url: "https://cdn/d.jpg".into() },
    ];
    assert_eq!(
        image_urls_from_attachment(&atts),
        vec!["https://cdn/a.png".to_string(), "https://cdn/d.jpg".to_string()]
    );
    assert!(image_urls_from_attachment(&Vec::new()).is_empty());
}

#[test]
fn text_answers_are_said() {
    assert!(matches!(plan_response("hello".into(), 0), ResponsePlan::Say(t) if t == "hello"));
}

#[test]
fn one_image_is_attached_as_image_png() {
    match plan_response(String::new(), 1) {
        ResponsePlan::Attach { content, filenames } => {
            assert_eq!(content, "Here you go!");
            assert_eq!(filenames, vec!["image.png".to_string()]);
        },
        ResponsePlan::Say(_) => panic!("an image was generated"),
    }
}

#[test]
fn several_images_are_numbered() {
    match plan_response("Two cats".into(), 3) {
        ResponsePlan::Attach { content, filenames } => {
            assert_eq!(content, "Two cats");
            assert_eq!(
                filenames,
                vec!["image_1.png".to_string(), "image_2.png".to_string(), "image_3.png".to_string()]
            );
        },
        ResponsePlan::Say(_) => panic!("images were generated"),
    }
}

#[test]
fn search_tool_calls() {
    let tool = SearchTool::new("key".into());
    assert_eq!(tool.api_key, "key");
    assert_eq!(tool.name(), "web_search");
    assert!(tool.description().starts_with("Search the web"));
    assert!(matches!(tool.query_argument(r#"{"query":"rust news"}"#), ToolArgument::Valid(q) if q == "rust news"));
    assert!(matches!(tool.query_argument("{}"), ToolArgument::Invalid(m) if m == "Invalid search arguments."));
    assert_eq!(tool.answer(Ok("r".into())), "r");
    assert_eq!(tool.answer(Err("boom".into())), "Search failed: boom");
}

#[test]
fn search_results_layout() {
    let results = vec![
        SearchResult { title: "A".into(), url: "https://a".into(), content: "first".into() },
        SearchResult { title: "B".into(), url: "https://b".into(), content: "second".into() },
    ];
    assert_eq!(format_results(&results), "[1] A\nhttps://a\nfirst\n\n[2] B\nhttps://b\nsecond\n\n");
    assert_eq!(format_results(&Vec::new()), "No results found.");
    assert_eq!(api_error(401, "unauthorized"), "Tavily API error (401): unauthorized");
}

fn channel_message(ts: &str, author: &str, content: &str) -> ChannelMessage {
    ChannelMessage {
        timestamp: ts.into(),
        author: author.into(),
        content: content.into(),
        has_attachments: false,
        has_embeds: false,
    }
}

#[test]
fn shown_content_stands_in_for_empty_messages() {
    let mut m = channel_message("t", "a", "");
    assert_eq!(shown_content(&m), "[no text content]");
    m.has_embeds = true;
    assert_eq!(shown_content(&m), "[embed]");
    m.has_attachments = true;
    assert_eq!(shown_content(&m), "[attachment]");
    m.content = "text".into();
    assert_eq!(shown_content(&m), "text");
}

#[test]
fn tweet_links_in_a_message() {
    assert_eq!(
        tweet_links("lol https://x.com/a/status/1 and https://example.com https://twitter.com/b"),
        vec!["https://x.com/a/status/1".to_string()]
    );
}

#[test]
fn channel_history_oldest_first_with_previews() {
    let msgs = vec![
        channel_message("2024-01-01 10:05", "bob", "newest"),
        channel_message("2024-01-01 10:00", "amy", "oldest https://x.com/a/status/1"),
    ];
    let previews = vec![Vec::new(), vec!["[Link from x.com: tweet]".to_string()]];
    assert_eq!(
        format_channel_messages(&msgs, &previews),
        "[2024-01-01 10:00] @amy: oldest https://x.com/a/status/1\n  ↳ [Link from x.com: tweet]\n\
         [2024-01-01 10:05] @bob: newest\n"
    );
    assert_eq!(format_channel_messages(&Vec::new(), &Vec::new()), "No messages found in this channel.");
}

#[test]
fn channel_requests() {
    assert_eq!(CHANNEL_SUMMARY_NAME, "channel_summary");
    assert!(matches!(
        channel_request(r#"{"channel_id":"123","limit":10}"#),
        ChannelRequest::Fetch { channel_id: 123, limit: 10 }
    ));
    assert!(matches!(channel_request(r#"{"channel_id":"5"}"#), ChannelRequest::Fetch { channel_id: 5, limit: 25 }));
    assert!(matches!(
        channel_request(r#"{"channel_id":"5","limit":500}"#),
        ChannelRequest::Fetch { channel_id: 5, limit: 50 }
    ));
    assert!(matches!(
        channel_request(r#"{"channel_id":"5","limit":0}"#),
        ChannelRequest::Fetch { channel_id: 5, limit: 1 }
    ));
    assert!(matches!(
        channel_request(r#"{"channel_id":"5","limit":-3}"#),
        ChannelRequest::Fetch { channel_id: 5, limit: 25 }
    ));
    assert!(matches!(channel_request(r#"{"channel_id":5}"#), ChannelRequest::Invalid(m) if m == "Invalid channel_id."));
    assert!(matches!(channel_request(r#"{"channel_id":"abc"}"#), ChannelRequest::Invalid(m) if m == "Invalid channel_id."));
    assert!(matches!(channel_request("nope"), ChannelRequest::Invalid(m) if m == "Invalid arguments."));
    assert_eq!(channel_answer(Ok("history".into())), "history");
    assert_eq!(channel_answer(Err("Missing Access".into())), "Error: Missing Access");
}

#[test]
fn images_from_the_api_answer() {
    assert!(matches!(
        image_from_response(Some(ImageData::B64Json("aGVsbG8=".into()))),
        Ok(GeneratedImage::Bytes(b)) if b == b"hello".to_vec()
    ));
    assert!(matches!(
        image_from_response(Some(ImageData::Url("https://img".into()))),
        Ok(GeneratedImage::Url(u)) if u == "https://img"
    ));
    assert!(matches!(image_from_response(None), Err(AppError::NoImageUrl)));
    assert!(matches!(image_from_response(Some(ImageData::B64Json("@@@".into()))), Err(AppError::Image(_))));
    assert_eq!(IMAGE_MODEL, "gpt-image-1");
}

#[test]
fn image_tool_answers() {
    let tool = ImageGeneratorTool::new();
    assert_eq!(tool.name(), "generate_image");
    assert!(tool.description().starts_with("Generate an image"));
    assert!(matches!(tool.prompt_argument(r#"{"prompt":"a cat"}"#), ToolArgument::Valid(p) if p == "a cat"));
    assert!(matches!(
        tool.prompt_argument("{}"),
        ToolArgument::Invalid(m) if m == "Invalid arguments: missing 'prompt' field."
    ));
    assert_eq!(
        tool.answer(&Ok(GeneratedImage::Bytes(vec![1, 2]))),
        "Image generated successfully. It will be attached to your response."
    );
    assert_eq!(tool.answer(&Ok(GeneratedImage::Url("https://i".into()))), "Image generated: https://i");
    assert_eq!(
        tool.answer(&Err(AppError::OpenAi("rate limited".into()))),
        "Failed to generate image: OpenAI error: rate limited"
    );
}

#[test]
fn image_generator_request_and_answer() {
    let g = OpenAiImageGenerator::new("sk".into());
    assert_eq!(g.api_key, "sk");
    assert_eq!(
        g.request_body("a \"red\" fox"),
        "{\"prompt\": \"a \\\"red\\\" fox\", \"n\":1, \"size\":\"512x512\"}"
    );
    let api = "https://api.openai.com/v1/images/generations";
    assert_eq!(g.image_url(r#"{"data":[{"url":"https://img/1"}]}"#, api), Ok("https://img/1".to_string()));
    assert_eq!(g.image_url(r#"{"data":[]}"#, api), Err("No image URL in response".to_string()));
    assert_eq!(g.image_url(r#"{"data":[{"b64_json":"x"}]}"#, api), Err("No image URL in response".to_string()));
    assert_eq!(
        g.image_url("not json", api),
        Err("error decoding response body for url (https://api.openai.com/v1/images/generations)".to_string())
    );
}

#[test]
fn error_messages() {
    assert_eq!(AppError::Discord("x".into()).message(), "Discord error: x");
    assert_eq!(AppError::OpenAi("y".into()).message(), "OpenAI error: y");
    assert_eq!(AppError::Image("z".into()).message(), "Image error: z");
    assert_eq!(AppError::Io("w".into()).message(), "IO error: w");
    assert_eq!(AppError::NoConversation.message(), "No active conversation. Use /ask first.");
    assert_eq!(AppError::NoResponseContent.message(), "No response content from GPT");
    assert_eq!(AppError::NoImageUrl.message(), "No image URL in response");
}

#[test]
fn commands_offered() {
    assert_eq!(AllCommands::Chat, AllCommands::Chat);
    assert_ne!(AllCommands::Chat, AllCommands::Image);
}
