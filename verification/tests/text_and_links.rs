use podgpt::services::url_reader::{
    domain, extract_urls, fetch_target, format_tweet, http_status_error, link_preview, page_text, strip_html,
    to_fxtwitter_url, truncate_text, tweet_json_error, try_page_text, try_strip_html, FetchTarget, ToolArgument, UrlReaderTool,
    MAX_CONTENT_LENGTH, MAX_INLINE_LENGTH,
};
use podgpt::text::{
    chars_of, contains_str, find_bytes_from, find_from, is_whitespace, join_strings, replace_chars, split_whitespace,
    starts_with, str_eq, string_from_chars, string_of, suffix, trim,
};

#[test]
fn chars_round_trip() {
    let cs = chars_of("héllo");
    assert_eq!(cs, vec!['h', 'é', 'l', 'l', 'o']);
    assert_eq!(string_of(&cs), "héllo");
    assert_eq!(string_from_chars(&cs, 1, 3), "él");
    assert_eq!(string_of(&suffix(&cs, 2)), "llo");
}

#[test]
fn whitespace_is_unicode_whitespace() {
    for c in [' ', '\t', '\n', '\r', '\u{a0}', '\u{2003}', '\u{3000}'] {
        assert!(is_whitespace(c));
        assert!(c.is_whitespace());
    }
    for c in ['a', '_', '\u{200b}', '0'] {
        assert!(!is_whitespace(c));
        assert!(!c.is_whitespace());
    }
}

#[test]
fn words_and_joining() {
    let words = split_whitespace(&chars_of("  one\ttwo \n three  "));
    assert_eq!(words, vec!["one".to_string(), "two".to_string(), "three".to_string()]);
    assert_eq!(join_strings(&words, "-"), "one-two-three");
    assert_eq!(join_strings(&Vec::new(), ", "), "");
    assert!(split_whitespace(&chars_of("   ")).is_empty());
}

#[test]
fn searching_characters() {
    let cs = chars_of("abcabc");
    assert_eq!(find_from(&cs, &chars_of("bc"), 0), Some(1));
    assert_eq!(find_from(&cs, &chars_of("bc"), 2), Some(4));
    assert_eq!(find_from(&cs, &chars_of("x"), 0), None);
    assert!(contains_str(&cs, "cab"));
    assert!(!contains_str(&cs, "cc"));
    assert!(starts_with(&cs, "abc"));
    assert!(!starts_with(&cs, "bc"));
}

#[test]
fn searching_bytes() {
    assert_eq!(find_bytes_from(b"hello world", b"o", 0), Some(4));
    assert_eq!(find_bytes_from(b"hello world", b"o", 5), Some(7));
    assert_eq!(find_bytes_from(b"hello", b"z", 0), None);
}

#[test]
fn replacing_and_trimming() {
    let r = replace_chars(&chars_of("a&amp;b&amp;"), "&amp;", "&");
    assert_eq!(string_of(&r), "a&b&");
    assert_eq!(string_of(&trim(&chars_of("  x y \n"))), "x y");
    assert!(str_eq("same", "same"));
    assert!(!str_eq("same", "Same"));
}

#[test]
fn extract_urls_finds_links_and_trims_punctuation() {
    let urls = extract_urls("see https://a.com/x), and http://b.org. ftp://c.net <https://d.io/p>");
    assert_eq!(urls, vec!["https://a.com/x".to_string(), "http://b.org".to_string()]);
}

#[test]
fn extract_urls_matches_the_word_filter() {
    let text = "look: https://example.com/a,b]. and (https://nope) https://x.com/u/status/1...";
    let expected: Vec<String> = text
        .split_whitespace()
        .filter(|w| w.starts_with("http://") || w.starts_with("https://"))
        .map(|u| u.trim_end_matches(|c: char| matches!(c, '>' | ')' | ']' | ',' | '.')).to_string())
        .collect();
    assert_eq!(extract_urls(text), expected);
}

#[test]
fn extracted_urls_are_links() {
    for u in extract_urls("https://... http://. https://a.b/c.") {
        assert!(u.starts_with("http://") || u.starts_with("https://"));
    }
}

#[test]
fn extract_urls_of_plain_text_is_empty() {
    assert!(extract_urls("no links here").is_empty());
    assert!(extract_urls("").is_empty());
}

#[test]
fn fxtwitter_rewrites_status_links() {
    assert_eq!(
        to_fxtwitter_url("https://x.com/user/status/123"),
        Some("https://api.fxtwitter.com/user/status/123".to_string())
    );
    assert_eq!(
        to_fxtwitter_url("  https://mobile.twitter.com/a/status/9?s=20 "),
        Some("https://api.fxtwitter.com/a/status/9?s=20".to_string())
    );
    assert_eq!(
        to_fxtwitter_url("http://twitter.com/b/status/1"),
        Some("https://api.fxtwitter.com/b/status/1".to_string())
    );
}

#[test]
fn fxtwitter_ignores_other_links() {
    assert_eq!(to_fxtwitter_url("https://twitter.com/user"), None);
    assert_eq!(to_fxtwitter_url("https://example.com/a/status/1"), None);
    assert_eq!(to_fxtwitter_url("https://xx.com/a/status/1"), None);
    assert_eq!(to_fxtwitter_url(""), None);
}

#[test]
fn fetch_target_sends_tweets_to_the_api() {
    match fetch_target("https://www.x.com/u/status/5") {
        FetchTarget::Tweet(api) => assert_eq!(api, "https://api.fxtwitter.com/u/status/5"),
        FetchTarget::Page => panic!("a status link is a tweet"),
    }
    assert!(matches!(fetch_target("https://example.com"), FetchTarget::Page));
}

#[test]
fn strip_html_keeps_readable_text() {
    let html = "<html><head><title>T</title><style>p { color: red; }</style></head>\
                <body><script>var x = 1 < 2;</script><p>Hello&nbsp;&amp; welcome</p>\n\n<p>to &lt;here&gt;</p></body></html>";
    assert_eq!(strip_html(html), "T Hello & welcome to <here>");
}

#[test]
fn strip_html_drops_blocks_in_any_case() {
    assert_eq!(strip_html("a<SCRIPT>bad()</script>b"), "a b");
    assert_eq!(strip_html("<noscript>x</noscript>y"), "y");
}

#[test]
fn strip_html_keeps_unclosed_block_text() {
    assert_eq!(strip_html("<script>never closed"), "never closed");
}

#[test]
fn strip_html_decodes_entities_once() {
    assert_eq!(strip_html("&amp;lt; &quot;q&quot; &#39;s&#39;"), "< \"q\" 's'");
}

#[test]
fn strip_html_of_plain_text_collapses_whitespace() {
    assert_eq!(strip_html("  a \n\t b  "), "a b");
    assert_eq!(try_strip_html(""), Some(String::new()));
}

#[test]
fn page_text_strips_only_html() {
    assert_eq!(page_text("text/html; charset=utf-8", "<b>bold</b>").unwrap(), "bold");
    assert_eq!(page_text("text/plain", "<b>bold</b>").unwrap(), "<b>bold</b>");
    assert_eq!(try_page_text("application/json", "{}"), Some("{}".to_string()));
}

#[test]
fn page_text_is_cut_to_the_limit() {
    let body = "a".repeat(MAX_CONTENT_LENGTH + 10);
    let t = page_text("text/plain", &body).unwrap();
    assert_eq!(t, format!("{}...", "a".repeat(MAX_CONTENT_LENGTH)));
}

#[test]
fn truncate_text_is_ok() {
    assert_eq!(truncate_text("abcdef", 3), Ok("abc...".to_string()));
    assert_eq!(truncate_text("abc", 3), Ok("abc".to_string()));
}

const API: &str = "https://api.fxtwitter.com/u/status/1";

#[test]
fn tweet_is_read_out() {
    let body = r#"{"tweet":{"author":{"name":"Jane","screen_name":"jane"},"text":"Hi all",
        "likes":3,"retweets":1,"replies":0,"created_at":"Mon Jan 01",
        "quote":{"author":{"screen_name":"bob"},"text":"Quoted"}}}"#;
    assert_eq!(
        format_tweet(body, API).unwrap(),
        "@jane (Jane)\nHi all\n\nLikes: 3 | Retweets: 1 | Replies: 0\nPosted: Mon Jan 01\n\nQuoting @bob: Quoted"
    );
}

#[test]
fn tweet_defaults_for_missing_fields() {
    let body = r#"{"tweet":{"quote":null,"created_at":""}}"#;
    assert_eq!(format_tweet(body, API).unwrap(), "@unknown (Unknown)\n\n\nLikes: 0 | Retweets: 0 | Replies: 0");
}

#[test]
fn tweet_errors() {
    assert_eq!(format_tweet(r#"{"tweet":null}"#, API), Err("Tweet not found.".to_string()));
    assert_eq!(format_tweet(r#"{"other":1}"#, API), Err("Tweet not found.".to_string()));
    assert_eq!(
        format_tweet("not json", API),
        Err("Failed to parse tweet JSON: error decoding response body for url (https://api.fxtwitter.com/u/status/1)"
            .to_string())
    );
    assert_eq!(
        tweet_json_error("https://a.b/"),
        "Failed to parse tweet JSON: error decoding response body for url (https://a.b/)"
    );
}

#[test]
fn http_status_errors() {
    assert_eq!(http_status_error("404 Not Found"), "HTTP 404 Not Found");
}

#[test]
fn domain_of_links() {
    assert_eq!(domain("https://example.com/a/b"), "example.com");
    assert_eq!(domain("http://host.org"), "host.org");
    assert_eq!(domain("https://https://x.io/"), "x.io");
    assert_eq!(domain("/path"), "");
}

#[test]
fn link_previews() {
    assert_eq!(
        link_preview("https://news.site/story", Ok("Big news".to_string())),
        "[Link from news.site: Big news]"
    );
    assert_eq!(
        link_preview("https://news.site/story", Err("HTTP 500".to_string())),
        "[Link from news.site: could not load]"
    );
    let long = "z".repeat(MAX_INLINE_LENGTH + 1);
    assert_eq!(
        link_preview("http://a.b", Ok(long)),
        format!("[Link from a.b: {}...]", "z".repeat(MAX_INLINE_LENGTH))
    );
}

#[test]
fn url_reader_tool() {
    let tool = UrlReaderTool::new();
    assert_eq!(tool.name(), "read_url");
    assert!(tool.description().starts_with("Fetch and read"));
    match tool.url_argument(r#"{"url":"https://a.b"}"#) {
        ToolArgument::Valid(u) => assert_eq!(u, "https://a.b"),
        ToolArgument::Invalid(_) => panic!("the url is there"),
    }
    match tool.url_argument(r#"{"link":"https://a.b"}"#) {
        ToolArgument::Invalid(m) => assert_eq!(m, "Invalid arguments: missing 'url' field."),
        ToolArgument::Valid(_) => panic!("no url member"),
    }
    assert!(matches!(tool.url_argument("garbage"), ToolArgument::Invalid(_)));
    assert!(matches!(tool.url_argument(r#"{"url":5}"#), ToolArgument::Invalid(_)));
    assert_eq!(tool.answer(Ok("page".to_string())), "page");
    assert_eq!(tool.answer(Err("HTTP 404".to_string())), "Error reading URL: HTTP 404");
}

#[test]
fn stripped_text_has_collapsed_whitespace() {
    let t = strip_html("<div>\n  <p> one </p>\t<p>two&nbsp;&nbsp;three</p>\n</div>  ");
    assert_eq!(t, "one two three");
    assert!(!t.contains("  "));
    assert!(!t.starts_with(char::is_whitespace));
    assert!(!t.ends_with(char::is_whitespace));
}

#[test]
fn ascii_text_without_markup_is_only_respaced() {
    let t = "plain   words\n\tand more ";
    assert_eq!(try_strip_html(t), Some("plain words and more".to_string()));
    assert_eq!(strip_html(t), t.split_whitespace().collect::<Vec<_>>().join(" "));
}

#[test]
fn ascii_pages_always_reduce() {
    let page = "<SCRIPT>x</script><Style>y</STYLE><p>ok</p><script>never";
    assert!(try_strip_html(page).is_some());
    assert!(try_page_text("text/html", page).is_some());
}

#[test]
fn urls_follow_their_words() {
    let text = "go https://a.io/x). now http://b.io, then https://c.io";
    let words: Vec<&str> = text
        .split_whitespace()
        .filter(|w| w.starts_with("http://") || w.starts_with("https://"))
        .collect();
    let urls = extract_urls(text);
    assert_eq!(urls.len(), words.len());
    for (u, w) in urls.iter().zip(words) {
        assert!(w.starts_with(u.as_str()));
        assert!(!u.contains(char::is_whitespace));
        assert!(!u.ends_with(['>', ')', ']', ',', '.']));
    }
}

#[test]
fn urls_of_joined_texts() {
    let a = "see https://one.io/a.";
    let b = "and (https://nope) http://two.io";
    let joined = extract_urls(&format!("{} {}", a, b));
    assert_eq!(joined, [extract_urls(a), extract_urls(b)].concat());
}

#[test]
fn every_twitter_prefix_is_rewritten() {
    for p in [
        "https://twitter.com/",
        "https://www.twitter.com/",
        "https://mobile.twitter.com/",
        "https://x.com/",
        "https://www.x.com/",
        "http://twitter.com/",
        "http://x.com/",
    ] {
        assert_eq!(
            to_fxtwitter_url(&format!("{p}jack/status/20")),
            Some("https://api.fxtwitter.com/jack/status/20".to_string())
        );
        assert_eq!(to_fxtwitter_url(&format!("{p}jack")), None);
    }
}

#[test]
fn ascii_page_text_is_exact() {
    let html = "<HTML><Script type=x>a<b</SCRIPT><b>Big</b>&amp;<i>bold</i>\n<style>.c{}</style>end";
    assert_eq!(strip_html(html), "Big & bold end");
    assert_eq!(try_page_text("text/html", html), Some("Big & bold end".to_string()));
}
