//! Reading a Discord channel's recent history out for the model.
use vstd::prelude::*;
use crate::services::json::{as_str, as_str_exec, as_u64, as_u64_exec, json_parse, member, member_exec, parse_json, Json};
use crate::services::url_reader::{extract_urls, spec_extract_urls, spec_fxtwitter_url, to_fxtwitter_url};
use crate::utils::{parse_u64, spec_parse_u64};

verus! {

/// Name under which the model calls the channel history tool.
pub const CHANNEL_SUMMARY_NAME: &'static str = "channel_summary";

/// What the model is told the channel history tool does.
pub const CHANNEL_SUMMARY_DESCRIPTION: &'static str = "Read recent messages from a Discord channel to summarize what's been discussed. \
     The current channel ID is provided in the system context. \
     Use when the user asks about recent activity or wants a channel summary.";

/// A message of the channel as the summary reads it: when and by whom it
/// was sent, its text, and whether it has attachments or embeds.
pub struct ChannelMessage {
    pub timestamp: String,
    pub author: String,
    pub content: String,
    pub has_attachments: bool,
    pub has_embeds: bool,
}

/// The text shown for a message: its content, or what stands in for it.
pub open spec fn spec_shown_content(m: ChannelMessage) -> Seq<char> {
    if m.content@.len() == 0 {
        if m.has_attachments {
            "[attachment]"@
        } else if m.has_embeds {
            "[embed]"@
        } else {
            "[no text content]"@
        }
    } else {
        m.content@
    }
}

/// The text shown for a message.
pub fn shown_content(m: &ChannelMessage) -> (s: String)
    ensures
        s@ == spec_shown_content(*m),
{
    if m.content.as_str().is_empty() {
        if m.has_attachments {
            String::from_str("[attachment]")
        } else if m.has_embeds {
            String::from_str("[embed]")
        } else {
            String::from_str("[no text content]")
        }
    } else {
        m.content.clone()
    }
}

/// The links to tweets among `urls`, in order.
pub open spec fn tweet_urls_among(urls: Seq<Seq<char>>) -> Seq<Seq<char>>
    decreases urls.len(),
{
    if urls.len() == 0 {
        seq![]
    } else if spec_fxtwitter_url(urls[0]) is Some {
        seq![urls[0]] + tweet_urls_among(urls.drop_first())
    } else {
        tweet_urls_among(urls.drop_first())
    }
}

/// The links to tweets in a message text, which the summary previews inline.
pub open spec fn spec_tweet_links(text: Seq<char>) -> Seq<Seq<char>> {
    tweet_urls_among(spec_extract_urls(text))
}

proof fn lemma_tweet_urls_push(urls: Seq<Seq<char>>, u: Seq<char>)
    ensures
        tweet_urls_among(urls.push(u)) == tweet_urls_among(urls) + (if spec_fxtwitter_url(u) is Some {
            seq![u]
        } else {
            seq![]
        }),
    decreases urls.len(),
{
    if urls.len() == 0 {
        assert(urls.push(u).drop_first() =~= urls);
        assert(tweet_urls_among(urls) =~= Seq::<Seq<char>>::empty());
    } else {
        assert(urls.push(u).drop_first() =~= urls.drop_first().push(u));
        lemma_tweet_urls_push(urls.drop_first(), u);
    }
}

/// The links to tweets in a message text.
pub fn tweet_links(text: &str) -> (links: Vec<String>)
    ensures
        links@.map_values(|l: String| l@) =~= spec_tweet_links(text@),
{
    let urls = extract_urls(text);
    let ghost uv = urls@.map_values(|u: String| u@);
    let mut links: Vec<String> = Vec::new();
    let mut i: usize = 0;
    while i < urls.len()
        invariant
            i <= urls.len(),
            uv == urls@.map_values(|u: String| u@),
            links@.map_values(|l: String| l@) =~= tweet_urls_among(uv.take(i as int)),
        decreases urls.len() - i,
    {
        let is_tweet = to_fxtwitter_url(urls[i].as_str()).is_some();
        proof {
            assert(uv.take(i + 1) =~= uv.take(i as int).push(uv[i as int]));
            lemma_tweet_urls_push(uv.take(i as int), uv[i as int]);
        }
        if is_tweet {
            links.push(urls[i].clone());
        }
        i = i + 1;
    }
    proof {
        assert(uv.take(urls.len() as int) =~= uv);
    }
    links
}

/// The preview lines under a message.
pub open spec fn preview_lines(previews: Seq<Seq<char>>) -> Seq<char>
    decreases previews.len(),
{
    if previews.len() == 0 {
        seq![]
    } else {
        preview_lines(previews.drop_last()) + "  ↳ "@ + previews.last() + "\n"@
    }
}

/// A message in the summary: its line, then one line per tweet preview.
pub open spec fn message_block(m: ChannelMessage, previews: Seq<Seq<char>>) -> Seq<char> {
    "["@ + m.timestamp@ + "] @"@ + m.author@ + ": "@ + spec_shown_content(m) + "\n"@ + preview_lines(previews)
}

/// The blocks of the `j` oldest messages, oldest first; `msgs` is newest first.
pub open spec fn oldest_blocks(msgs: Seq<ChannelMessage>, previews: Seq<Seq<Seq<char>>>, j: int) -> Seq<char>
    decreases j,
{
    if j <= 0 {
        seq![]
    } else {
        oldest_blocks(msgs, previews, j - 1) + message_block(msgs[msgs.len() - j], previews[msgs.len() - j])
    }
}

/// The channel history as the model reads it: the messages in the order
/// they were sent, each with the previews of the tweets it links to.
pub open spec fn spec_channel_summary(msgs: Seq<ChannelMessage>, previews: Seq<Seq<Seq<char>>>) -> Seq<char> {
    if msgs.len() == 0 {
        "No messages found in this channel."@
    } else {
        oldest_blocks(msgs, previews, msgs.len() as int)
    }
}

/// Every fetched message is read out once, oldest first: the history of
/// one message is its block, and a newer message adds its block after the
/// history of the older ones.
pub proof fn lemma_channel_summary_blocks(
    msgs: Seq<ChannelMessage>,
    previews: Seq<Seq<Seq<char>>>,
    m: ChannelMessage,
    p: Seq<Seq<char>>,
)
    requires
        previews.len() == msgs.len(),
    ensures
        spec_channel_summary(seq![m], seq![p]) == message_block(m, p),
        msgs.len() > 0 ==> spec_channel_summary(seq![m] + msgs, seq![p] + previews) == spec_channel_summary(
            msgs,
            previews,
        ) + message_block(m, p),
{
    let one_m = seq![m];
    let one_p = seq![p];
    assert(oldest_blocks(one_m, one_p, 0) =~= Seq::<char>::empty());
    assert(Seq::<char>::empty() + message_block(m, p) =~= message_block(m, p));
    if msgs.len() > 0 {
        let am = seq![m] + msgs;
        let ap = seq![p] + previews;
        lemma_oldest_blocks_prefix(msgs, previews, m, p, msgs.len() as int);
        assert(am[am.len() - (msgs.len() + 1)] == m);
        assert(ap[ap.len() - (msgs.len() + 1)] == p);
    }
}

proof fn lemma_oldest_blocks_prefix(
    msgs: Seq<ChannelMessage>,
    previews: Seq<Seq<Seq<char>>>,
    m: ChannelMessage,
    p: Seq<Seq<char>>,
    j: int,
)
    requires
        previews.len() == msgs.len(),
        0 <= j <= msgs.len(),
    ensures
        oldest_blocks(seq![m] + msgs, seq![p] + previews, j) == oldest_blocks(msgs, previews, j),
    decreases j,
{
    if j > 0 {
        lemma_oldest_blocks_prefix(msgs, previews, m, p, j - 1);
        let am = seq![m] + msgs;
        let ap = seq![p] + previews;
        assert(am[am.len() - j] == msgs[msgs.len() - j]);
        assert(ap[ap.len() - j] == previews[previews.len() - j]);
    }
}

/// Lays out the channel history; `msgs` come newest first, as Discord
/// returns them, and `previews[i]` are the tweet previews of `msgs[i]`.
pub fn format_channel_messages(msgs: &Vec<ChannelMessage>, previews: &Vec<Vec<String>>) -> (s: String)
    requires
        previews.len() == msgs.len(),
    ensures
        s@ == spec_channel_summary(msgs@, previews@.map_values(|p: Vec<String>| p@.map_values(|x: String| x@))),
{
    let ghost pv = previews@.map_values(|p: Vec<String>| p@.map_values(|x: String| x@));
    if msgs.len() == 0 {
        return String::from_str("No messages found in this channel.");
    }
    let mut out = String::new();
    let mut j: usize = 0;
    while j < msgs.len()
        invariant
            j <= msgs.len(),
            previews.len() == msgs.len(),
            pv == previews@.map_values(|p: Vec<String>| p@.map_values(|x: String| x@)),
            out@ == oldest_blocks(msgs@, pv, j as int),
        decreases msgs.len() - j,
    {
        let k = msgs.len() - 1 - j;
        let m = &msgs[k];
        out.append("[");
        out.append(m.timestamp.as_str());
        out.append("] @");
        out.append(m.author.as_str());
        out.append(": ");
        let shown = shown_content(m);
        out.append(shown.as_str());
        out.append("\n");
        let ps = &previews[k];
        let ghost line_start = out@;
        let ghost pk = pv[k as int];
        let mut t: usize = 0;
        proof {
            assert(pk.take(0) =~= Seq::<Seq<char>>::empty());
            assert(line_start + preview_lines(pk.take(0)) =~= line_start);
        }
        while t < ps.len()
            invariant
                t <= ps.len(),
                pk == ps@.map_values(|x: String| x@),
                out@ == line_start + preview_lines(pk.take(t as int)),
            decreases ps.len() - t,
        {
            out.append("  ↳ ");
            out.append(ps[t].as_str());
            out.append("\n");
            proof {
                assert(pk.take(t + 1).drop_last() =~= pk.take(t as int));
                assert(pk.take(t + 1).last() == ps@[t as int]@);
            }
            t = t + 1;
        }
        proof {
            assert(pk.take(ps.len() as int) =~= pk);
            assert(msgs@.len() - (j + 1) == k);
        }
        j = j + 1;
    }
    out
}

/// What a call of the channel history tool asks for.
pub enum ChannelRequest {
    /// Read the last `limit` messages of the channel.
    Fetch { channel_id: u64, limit: u8 },
    /// The call cannot be served; this is the tool's answer.
    Invalid(String),
}

/// The number of messages a call asks for: its `limit` member cut into 1
/// to 50, and 25 where it has none.
pub open spec fn spec_limit(v: Json) -> u8 {
    match as_u64(member(v, "limit"@)) {
        Some(n) => if n > 50 { 50 } else if n < 1 { 1 } else { n as u8 },
        None => 25,
    }
}

/// The channel a call asks for: its `channel_id` member, a decimal string.
pub open spec fn spec_channel_id(v: Json) -> Option<u64> {
    match as_str(member(v, "channel_id"@)) {
        Some(s) => spec_parse_u64(s),
        None => None,
    }
}

/// What a call of the channel history tool with these JSON arguments asks for.
pub open spec fn spec_channel_request(arguments: Seq<char>) -> Result<(u64, u8), Seq<char>> {
    match parse_json(arguments) {
        Err(_) => Err("Invalid arguments."@),
        Ok(v) => match spec_channel_id(v) {
            Some(id) => Ok((id, spec_limit(v))),
            None => Err("Invalid channel_id."@),
        },
    }
}

/// What a call of the channel history tool asks for.
pub fn channel_request(arguments: &str) -> (r: ChannelRequest)
    ensures
        match r {
            ChannelRequest::Fetch { channel_id, limit } => spec_channel_request(arguments@) matches Ok(req)
                && req == (channel_id, limit),
            ChannelRequest::Invalid(m) => spec_channel_request(arguments@) matches Err(msg) && msg == m@,
        },
{
    let parsed = match json_parse(arguments) {
        Ok(v) => v,
        Err(_) => return ChannelRequest::Invalid(String::from_str("Invalid arguments.")),
    };
    let channel_id = match as_str_exec(member_exec(&parsed, "channel_id")) {
        Some(s) => parse_u64(s.as_str()),
        None => None,
    };
    let limit: u8 = match as_u64_exec(member_exec(&parsed, "limit")) {
        Some(n) => if n > 50 { 50 } else if n < 1 { 1 } else { n as u8 },
        None => 25,
    };
    match channel_id {
        Some(id) => ChannelRequest::Fetch { channel_id: id, limit },
        None => ChannelRequest::Invalid(String::from_str("Invalid channel_id.")),
    }
}

/// The tool's answer from what reading the channel gave.
pub fn channel_answer(read: Result<String, String>) -> (s: String)
    ensures
        s@ == match read {
            Ok(t) => t@,
            Err(e) => "Error: "@ + e@,
        },
{
    match read {
        Ok(t) => t,
        Err(e) => {
            let mut s = String::from_str("Error: ");
            s.append(e.as_str());
            s
        },
    }
}

} // verus!
