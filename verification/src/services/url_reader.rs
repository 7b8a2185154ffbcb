//! Reading links: which URLs a message holds, Twitter/X links rewritten to
//! the fxtwitter API, and the readable text of an HTML page.
use vstd::prelude::*;
use vstd::utf8::*;
use vstd::string::*;
use crate::services::json::{
    as_str, as_str_exec, as_u64, as_u64_exec, get_member, get_member_exec, is_null, json_parse, member,
    member_exec, parse_json, str_member, str_member_of, Json,
};
use crate::utils::{
    decimal, decimal_string, lemma_ascii_boundaries, lemma_ascii_skip, lemma_encode_concat, lemma_encode_len, spec_truncate,
    truncate,
};
use crate::text::{
    find_bytes_from, first_occurrence_from, occurs_at, join, join_strings, lemma_first_occurrence, opt_index,
    replace_all, replace_chars, chars_of, contains, contains_str, has_prefix, split_whitespace, split_ws, starts_with,
    string_from_chars, string_of, suffix, trim, trim_ws, whitespace_collapsed, lemma_split_ws_words, lemma_split_ws_concat, is_word, spec_is_whitespace,
    lemma_join_words_collapsed,
};

verus! {


/// Longest page text, in bytes, handed back to the model.
pub const MAX_CONTENT_LENGTH: usize = 6000;
/// Longest link preview, in bytes, inlined in a channel summary.
pub const MAX_INLINE_LENGTH: usize = 500;

/// Characters that end a word but not the link inside it.
pub open spec fn is_url_trailer(c: char) -> bool {
    c == '>' || c == ')' || c == ']' || c == ',' || c == '.'
}

/// `s` without trailing link-ending punctuation.
pub open spec fn trim_url_end(s: Seq<char>) -> Seq<char>
    decreases s.len(),
{
    if s.len() > 0 && is_url_trailer(s.last()) {
        trim_url_end(s.drop_last())
    } else {
        s
    }
}

/// Whether a word is a web link.
pub open spec fn is_link(w: Seq<char>) -> bool {
    has_prefix(w, "http://"@) || has_prefix(w, "https://"@)
}

/// The links among `words`, in order, without trailing punctuation.
pub open spec fn links_of(words: Seq<Seq<char>>) -> Seq<Seq<char>>
    decreases words.len(),
{
    if words.len() == 0 {
        seq![]
    } else if is_link(words[0]) {
        seq![trim_url_end(words[0])] + links_of(words.drop_first())
    } else {
        links_of(words.drop_first())
    }
}

/// The URLs that a message holds.
pub open spec fn spec_extract_urls(text: Seq<char>) -> Seq<Seq<char>> {
    links_of(split_ws(text))
}

proof fn lemma_links_of_push(words: Seq<Seq<char>>, w: Seq<char>)
    ensures
        links_of(words.push(w)) == links_of(words) + (if is_link(w) { seq![trim_url_end(w)] } else { seq![] }),
    decreases words.len(),
{
    if words.len() == 0 {
        assert(words.push(w).drop_first() =~= words);
        assert(links_of(words) =~= Seq::<Seq<char>>::empty());
    } else {
        assert(words.push(w).drop_first() =~= words.drop_first().push(w));
        lemma_links_of_push(words.drop_first(), w);
    }
}

fn trim_url_trailers(cs: &Vec<char>) -> (r: String)
    ensures
        r@ == trim_url_end(cs@),
{
    let mut j = cs.len();
    proof {
        assert(cs@.subrange(0, j as int) =~= cs@);
    }
    while j > 0 && (cs[j - 1] == '>' || cs[j - 1] == ')' || cs[j - 1] == ']' || cs[j - 1] == ','
        || cs[j - 1] == '.')
        invariant
            j <= cs.len(),
            trim_url_end(cs@.subrange(0, j as int)) == trim_url_end(cs@),
        decreases j,
    {
        proof {
            assert(cs@.subrange(0, j as int).drop_last() =~= cs@.subrange(0, j - 1));
        }
        j = j - 1;
    }
    string_from_chars(cs, 0, j)
}

/// Extracts the URLs from a message: the whitespace-separated words that
/// start with `http://` or `https://`, without trailing `>`, `)`, `]`, `,`
/// or `.`.
pub fn extract_urls(text: &str) -> (urls: Vec<String>)
    ensures
        urls@.map_values(|u: String| u@) =~= spec_extract_urls(text@),
{
    let cs = chars_of(text);
    let words = split_whitespace(&cs);
    let ghost wv = words@.map_values(|w: String| w@);
    let mut urls: Vec<String> = Vec::new();
    let mut i: usize = 0;
    while i < words.len()
        invariant
            i <= words.len(),
            wv == words@.map_values(|w: String| w@),
            urls@.map_values(|u: String| u@) =~= links_of(wv.take(i as int)),
        decreases words.len() - i,
    {
        let wc = chars_of(words[i].as_str());
        let link = starts_with(&wc, "http://") || starts_with(&wc, "https://");
        proof {
            assert(wv.take(i + 1) =~= wv.take(i as int).push(wv[i as int]));
            lemma_links_of_push(wv.take(i as int), wv[i as int]);
        }
        if link {
            let u = trim_url_trailers(&wc);
            urls.push(u);
        }
        i = i + 1;
    }
    proof {
        assert(wv.take(words.len() as int) =~= wv);
    }
    urls
}

proof fn lemma_trim_url_end_keeps_prefix(s: Seq<char>, p: Seq<char>)
    requires
        has_prefix(s, p),
        p.len() > 0,
        !is_url_trailer(p.last()),
    ensures
        has_prefix(trim_url_end(s), p),
    decreases s.len(),
{
    if s.len() > 0 && is_url_trailer(s.last()) {
        assert(s.len() > p.len()) by {
            if s.len() == p.len() {
                assert(s.last() == s.take(p.len() as int)[p.len() - 1]);
            }
        }
        assert(s.drop_last().take(p.len() as int) =~= s.take(p.len() as int));
        lemma_trim_url_end_keeps_prefix(s.drop_last(), p);
    }
}

proof fn lemma_links_are_links(words: Seq<Seq<char>>)
    ensures
        forall|i: int| 0 <= i < links_of(words).len() ==> is_link(#[trigger] links_of(words)[i]),
    decreases words.len(),
{
    if words.len() > 0 {
        lemma_links_are_links(words.drop_first());
        let w = words[0];
        if is_link(w) {
            reveal_strlit("http://");
            reveal_strlit("https://");
            if has_prefix(w, "http://"@) {
                lemma_trim_url_end_keeps_prefix(w, "http://"@);
            } else {
                lemma_trim_url_end_keeps_prefix(w, "https://"@);
            }
            let rest = links_of(words.drop_first());
            let u = trim_url_end(w);
            assert(links_of(words) == seq![u] + rest);
            assert forall|i: int| 0 <= i < links_of(words).len() implies is_link(#[trigger] links_of(words)[i]) by {
                if i > 0 {
                    assert(links_of(words)[i] == rest[i - 1]);
                } else {
                    assert(links_of(words)[0] == u);
                }
            }
        } else {
            assert(links_of(words) == links_of(words.drop_first()));
        }
    }
}

/// Every URL taken from a message is a web link: it starts with `http://`
/// or `https://`, however much trailing punctuation was cut off.
pub proof fn lemma_extracted_urls_are_links(text: Seq<char>)
    ensures
        forall|i: int| 0 <= i < spec_extract_urls(text).len() ==> is_link(#[trigger] spec_extract_urls(text)[i]),
{
    lemma_links_are_links(split_ws(text));
}

/// The words among `words` that are web links, in order.
pub open spec fn link_words(words: Seq<Seq<char>>) -> Seq<Seq<char>>
    decreases words.len(),
{
    if words.len() == 0 {
        seq![]
    } else if is_link(words[0]) {
        seq![words[0]] + link_words(words.drop_first())
    } else {
        link_words(words.drop_first())
    }
}

/// Whether `u` is what is kept of the link word `w`: `w` is `u` followed
/// by characters that are each `>`, `)`, `]`, `,` or `.`, and `u` is a
/// link without whitespace that does not end in one of them.
pub open spec fn url_of_word(u: Seq<char>, w: Seq<char>) -> bool {
    &&& is_link(w)
    &&& is_link(u)
    &&& u.len() <= w.len()
    &&& w.take(u.len() as int) == u
    &&& forall|k: int| u.len() <= k < w.len() ==> {
        let c = #[trigger] w[k];
        c == '>' || c == ')' || c == ']' || c == ',' || c == '.'
    }
    &&& forall|k: int| 0 <= k < u.len() ==> !spec_is_whitespace(#[trigger] u[k])
    &&& !(u.last() == '>' || u.last() == ')' || u.last() == ']' || u.last() == ',' || u.last() == '.')
}

proof fn lemma_trim_url_end_shape(s: Seq<char>)
    ensures
        trim_url_end(s).len() <= s.len(),
        s.take(trim_url_end(s).len() as int) == trim_url_end(s),
        trim_url_end(s).len() > 0 ==> !is_url_trailer(trim_url_end(s).last()),
        forall|k: int| trim_url_end(s).len() <= k < s.len() ==> is_url_trailer(#[trigger] s[k]),
    decreases s.len(),
{
    if s.len() > 0 && is_url_trailer(s.last()) {
        lemma_trim_url_end_shape(s.drop_last());
        let t = trim_url_end(s.drop_last());
        assert(s.drop_last().take(t.len() as int) =~= s.take(t.len() as int));
        assert forall|k: int| t.len() <= k < s.len() implies is_url_trailer(#[trigger] s[k]) by {
            if k < s.len() - 1 {
                assert(s[k] == s.drop_last()[k]);
            }
        }
    } else {
        assert(s.take(s.len() as int) =~= s);
    }
}

proof fn lemma_links_of_words(words: Seq<Seq<char>>)
    requires
        forall|i: int| 0 <= i < words.len() ==> is_word(#[trigger] words[i]),
    ensures
        links_of(words).len() == link_words(words).len(),
        forall|i: int| 0 <= i < links_of(words).len()
            ==> #[trigger] url_of_word(links_of(words)[i], link_words(words)[i]),
    decreases words.len(),
{
    if words.len() > 0 {
        let d = words.drop_first();
        assert forall|i: int| 0 <= i < d.len() implies is_word(#[trigger] d[i]) by {
            assert(d[i] == words[i + 1]);
        }
        lemma_links_of_words(d);
        let w = words[0];
        if is_link(w) {
            assert(is_word(w));
            let u = trim_url_end(w);
            lemma_trim_url_end_shape(w);
            reveal_strlit("http://");
            reveal_strlit("https://");
            if has_prefix(w, "http://"@) {
                lemma_trim_url_end_keeps_prefix(w, "http://"@);
            } else {
                lemma_trim_url_end_keeps_prefix(w, "https://"@);
            }
            assert(is_link(u));
            assert(u.len() > 0);
            assert forall|k: int| 0 <= k < u.len() implies !spec_is_whitespace(#[trigger] u[k]) by {
                assert(u[k] == w.take(u.len() as int)[k]);
                assert(w.take(u.len() as int)[k] == w[k]);
            }
            assert(url_of_word(u, w));
            assert forall|i: int| 0 <= i < links_of(words).len()
                implies #[trigger] url_of_word(links_of(words)[i], link_words(words)[i]) by {
                if i > 0 {
                    assert(links_of(words)[i] == links_of(d)[i - 1]);
                    assert(link_words(words)[i] == link_words(d)[i - 1]);
                }
            }
        }
    }
}

/// The URLs taken from a message match its link words one for one: as many
/// as there are words starting with `http://` or `https://`, each a prefix
/// of its word that is still a link, holds no whitespace and does not end
/// in trailing punctuation.
pub proof fn lemma_extracted_urls_shape(text: Seq<char>)
    ensures
        spec_extract_urls(text).len() == link_words(split_ws(text)).len(),
        forall|i: int| 0 <= i < spec_extract_urls(text).len()
            ==> #[trigger] url_of_word(spec_extract_urls(text)[i], link_words(split_ws(text))[i]),
{
    lemma_split_ws_words(text);
    lemma_links_of_words(split_ws(text));
}

proof fn lemma_links_of_concat(x: Seq<Seq<char>>, y: Seq<Seq<char>>)
    ensures
        links_of(x + y) == links_of(x) + links_of(y),
    decreases x.len(),
{
    if x.len() == 0 {
        assert(x + y =~= y);
        assert(links_of(x) + links_of(y) =~= links_of(y));
    } else {
        assert((x + y).drop_first() =~= x.drop_first() + y);
        assert((x + y)[0] == x[0]);
        lemma_links_of_concat(x.drop_first(), y);
        if is_link(x[0]) {
            assert(links_of(x + y) =~= links_of(x) + links_of(y));
        }
    }
}

/// The URLs of two texts joined by a space are those of the first, then
/// those of the second.
pub proof fn lemma_extract_urls_concat(a: Seq<char>, b: Seq<char>)
    ensures
        spec_extract_urls(a + seq![' '] + b) == spec_extract_urls(a) + spec_extract_urls(b),
{
    lemma_split_ws_concat(a, b);
    lemma_links_of_concat(split_ws(a), split_ws(b));
}

/// The path after the first Twitter/X host prefix that `u` starts with.
pub open spec fn twitter_path(u: Seq<char>) -> Option<Seq<char>> {
    if has_prefix(u, "https://twitter.com/"@) {
        Some(u.skip("https://twitter.com/"@.len() as int))
    } else if has_prefix(u, "https://www.twitter.com/"@) {
        Some(u.skip("https://www.twitter.com/"@.len() as int))
    } else if has_prefix(u, "https://mobile.twitter.com/"@) {
        Some(u.skip("https://mobile.twitter.com/"@.len() as int))
    } else if has_prefix(u, "https://x.com/"@) {
        Some(u.skip("https://x.com/"@.len() as int))
    } else if has_prefix(u, "https://www.x.com/"@) {
        Some(u.skip("https://www.x.com/"@.len() as int))
    } else if has_prefix(u, "http://twitter.com/"@) {
        Some(u.skip("http://twitter.com/"@.len() as int))
    } else if has_prefix(u, "http://x.com/"@) {
        Some(u.skip("http://x.com/"@.len() as int))
    } else {
        None
    }
}

/// The fxtwitter API URL for a link to a tweet.
pub open spec fn spec_fxtwitter_url(url: Seq<char>) -> Option<Seq<char>> {
    match twitter_path(trim_ws(url)) {
        Some(path) => if contains(path, "/status/"@) {
            Some("https://api.fxtwitter.com/"@ + path)
        } else {
            None
        },
        None => None,
    }
}

/// The Twitter/X link prefixes, in the order they are tried.
pub open spec fn twitter_prefix(i: int) -> Seq<char> {
    if i == 0 {
        "https://twitter.com/"@
    } else if i == 1 {
        "https://www.twitter.com/"@
    } else if i == 2 {
        "https://mobile.twitter.com/"@
    } else if i == 3 {
        "https://x.com/"@
    } else if i == 4 {
        "https://www.x.com/"@
    } else if i == 5 {
        "http://twitter.com/"@
    } else {
        "http://x.com/"@
    }
}

proof fn lemma_prefix_char(u: Seq<char>, p: Seq<char>, k: int)
    requires
        has_prefix(u, p),
        0 <= k < p.len(),
    ensures
        u[k] == p[k],
{
    assert(u.take(p.len() as int)[k] == u[k]);
}

proof fn lemma_prefix_marks(u: Seq<char>, i: int)
    requires
        0 <= i < 7,
        has_prefix(u, twitter_prefix(i)),
    ensures
        u.len() > 12,
        u[4] == twitter_prefix(i)[4],
        u[7] == twitter_prefix(i)[7],
        u[8] == twitter_prefix(i)[8],
        u[12] == twitter_prefix(i)[12],
{
    reveal_strlit("https://twitter.com/");
    reveal_strlit("https://www.twitter.com/");
    reveal_strlit("https://mobile.twitter.com/");
    reveal_strlit("https://x.com/");
    reveal_strlit("https://www.x.com/");
    reveal_strlit("http://twitter.com/");
    reveal_strlit("http://x.com/");
    let p = twitter_prefix(i);
    lemma_prefix_char(u, p, 4);
    lemma_prefix_char(u, p, 7);
    lemma_prefix_char(u, p, 8);
    lemma_prefix_char(u, p, 12);
}

/// No text starts with two of the Twitter/X prefixes, so a link that starts
/// with any of them is rewritten from the text after that prefix, whichever
/// order they are tried in.
pub proof fn lemma_fxtwitter_any_prefix(url: Seq<char>, i: int)
    requires
        0 <= i < 7,
        has_prefix(trim_ws(url), twitter_prefix(i)),
    ensures
        forall|j: int| 0 <= j < 7 && j != i ==> !has_prefix(trim_ws(url), #[trigger] twitter_prefix(j)),
        twitter_path(trim_ws(url)) == Some(trim_ws(url).skip(twitter_prefix(i).len() as int)),
        spec_fxtwitter_url(url) == (if contains(trim_ws(url).skip(twitter_prefix(i).len() as int), "/status/"@) {
            Some("https://api.fxtwitter.com/"@ + trim_ws(url).skip(twitter_prefix(i).len() as int))
        } else {
            None
        }),
{
    reveal_strlit("https://twitter.com/");
    reveal_strlit("https://www.twitter.com/");
    reveal_strlit("https://mobile.twitter.com/");
    reveal_strlit("https://x.com/");
    reveal_strlit("https://www.x.com/");
    reveal_strlit("http://twitter.com/");
    reveal_strlit("http://x.com/");
    let u = trim_ws(url);
    lemma_prefix_marks(u, i);
    assert forall|j: int| 0 <= j < 7 && j != i implies !has_prefix(u, #[trigger] twitter_prefix(j)) by {
        if has_prefix(u, twitter_prefix(j)) {
            lemma_prefix_marks(u, j);
        }
    }
    assert(!has_prefix(u, twitter_prefix(0)) || i == 0);
    assert(!has_prefix(u, twitter_prefix(1)) || i == 1);
    assert(!has_prefix(u, twitter_prefix(2)) || i == 2);
    assert(!has_prefix(u, twitter_prefix(3)) || i == 3);
    assert(!has_prefix(u, twitter_prefix(4)) || i == 4);
    assert(!has_prefix(u, twitter_prefix(5)) || i == 5);
}

/// A rewritten link is an fxtwitter API URL that still names a status.
pub proof fn lemma_fxtwitter_url_shape(url: Seq<char>)
    ensures
        spec_fxtwitter_url(url) matches Some(r) ==> has_prefix(r, "https://api.fxtwitter.com/"@)
            && contains(r, "/status/"@),
{
    if let Some(r) = spec_fxtwitter_url(url) {
        let p = "https://api.fxtwitter.com/"@;
        let path = twitter_path(trim_ws(url))->0;
        assert(r == p + path);
        assert(r.take(p.len() as int) =~= p);
        let i = choose|i: int| occurs_at(path, "/status/"@, i);
        assert(r.subrange(i + p.len(), i + p.len() + "/status/"@.len()) =~= path.subrange(i, i + "/status/"@.len()));
        assert(occurs_at(r, "/status/"@, i + p.len()));
    }
}

fn strip_prefix_chars(cs: &Vec<char>, p: &str) -> (r: Option<Vec<char>>)
    ensures
        has_prefix(cs@, p@) ==> (r matches Some(v) && v@ == cs@.skip(p@.len() as int)),
        !has_prefix(cs@, p@) ==> r is None,
{
    if starts_with(cs, p) {
        let pc = chars_of(p);
        Some(suffix(cs, pc.len()))
    } else {
        None
    }
}

/// Rewrites a Twitter/X status link to the fxtwitter API URL that serves the
/// tweet as JSON; `None` for anything that is not a link to a tweet.
pub fn to_fxtwitter_url(url: &str) -> (r: Option<String>)
    ensures
        match r {
            Some(s) => spec_fxtwitter_url(url@) == Some(s@),
            None => spec_fxtwitter_url(url@) is None,
        },
{
    let cs = chars_of(url);
    let u = trim(&cs);
    let path = if let Some(p) = strip_prefix_chars(&u, "https://twitter.com/") {
        p
    } else if let Some(p) = strip_prefix_chars(&u, "https://www.twitter.com/") {
        p
    } else if let Some(p) = strip_prefix_chars(&u, "https://mobile.twitter.com/") {
        p
    } else if let Some(p) = strip_prefix_chars(&u, "https://x.com/") {
        p
    } else if let Some(p) = strip_prefix_chars(&u, "https://www.x.com/") {
        p
    } else if let Some(p) = strip_prefix_chars(&u, "http://twitter.com/") {
        p
    } else if let Some(p) = strip_prefix_chars(&u, "http://x.com/") {
        p
    } else {
        return None;
    };
    proof {
        assert(twitter_path(u@) == Some(path@));
    }
    if contains_str(&path, "/status/") {
        let mut s = String::from_str("https://api.fxtwitter.com/");
        let ps = string_of(&path);
        s.append(ps.as_str());
        Some(s)
    } else {
        None
    }
}

/// Lowercase form of a string, as `str::to_lowercase` computes it.
pub uninterp spec fn lowercase(s: Seq<char>) -> Seq<char>;

/// An ASCII character in lowercase: `A` to `Z` become `a` to `z`, every
/// other character stays.
pub open spec fn ascii_lower_char(c: char) -> char {
    if 'A' <= c && c <= 'Z' {
        ((c as u32) + 32) as char
    } else {
        c
    }
}

/// ASCII text in lowercase, character by character.
pub open spec fn ascii_lowercase(s: Seq<char>) -> Seq<char> {
    Seq::new(s.len(), |i: int| ascii_lower_char(s[i]))
}

/// `str::to_lowercase`: the lowercase equivalent of `s` by the Unicode
/// `Lowercase` property. The result is stated to be a function of `s`;
/// for ASCII text, which std's Unicode mapping takes to ASCII lowercase
/// letter for letter (`A`-`Z` to `a`-`z`, all else unchanged), it is
/// stated exactly. What it is for other text is left unsaid.
#[verifier::external_body]
fn to_lowercase(s: &str) -> (r: String)
    ensures
        r@ == lowercase(s@),
        is_ascii_chars(s@) ==> r@ == ascii_lowercase(s@),
{
    s.to_lowercase()
}

/// ASCII text in lowercase is ASCII text of the same length.
proof fn lemma_ascii_lowercase(s: Seq<char>)
    requires
        is_ascii_chars(s),
    ensures
        is_ascii_chars(ascii_lowercase(s)),
        ascii_lowercase(s).len() == s.len(),
        encode_utf8(ascii_lowercase(s)).len() == s.len(),
        forall|i: int| 0 <= i < s.len() ==> #[trigger] encode_utf8(ascii_lowercase(s))[i] == ascii_lowercase(s)[i] as u8,
{
    let l = ascii_lowercase(s);
    assert forall|i: int| 0 <= i < l.len() implies '\0' <= #[trigger] l[i] <= '\u{7f}' by {
        assert(l[i] == ascii_lower_char(s[i]));
    }
    is_ascii_chars_encode_utf8(l);
}

/// Byte range, in the lowercased text, from the first `open` to the end of
/// the first `close` after it.
pub open spec fn block_range(text: Seq<char>, open: Seq<u8>, close: Seq<u8>) -> Option<(int, int)> {
    block_range_in(lowercase(text), open, close)
}

/// Byte range, in `lower`, from the first `open` to the end of the first
/// `close` after it.
pub open spec fn block_range_in(lower: Seq<char>, open: Seq<u8>, close: Seq<u8>) -> Option<(int, int)> {
    let lb = encode_utf8(lower);
    match first_occurrence_from(lb, open, 0) {
        Some(s) => match first_occurrence_from(lb, close, s) {
            Some(c) => Some((s, c + close.len())),
            None => None,
        },
        None => None,
    }
}

/// Whether the byte range `r` lies within `text` on character boundaries.
pub open spec fn range_fits(text: Seq<char>, r: (int, int)) -> bool {
    let b = encode_utf8(text);
    &&& 0 <= r.0
    &&& r.0 + 1 < r.1 <= b.len()
    &&& is_char_boundary(b, r.0)
    &&& is_char_boundary(b, r.1)
}

/// `text` with the bytes in `r` replaced by one space.
pub open spec fn replace_byte_range(text: Seq<char>, r: (int, int)) -> Seq<char> {
    let b = encode_utf8(text);
    decode_utf8(b.take(r.0)) + seq![' '] + decode_utf8(b.skip(r.1))
}

pub proof fn lemma_replace_byte_range(text: Seq<char>, r: (int, int))
    requires
        range_fits(text, r),
    ensures
        encode_utf8(replace_byte_range(text, r)).len() < encode_utf8(text).len(),
{
    let b = encode_utf8(text);
    encode_utf8_valid_utf8(text);
    valid_utf8_split(b, r.0);
    valid_utf8_split(b, r.1);
    let x = decode_utf8(b.take(r.0));
    let y = decode_utf8(b.skip(r.1));
    decode_utf8_encode_utf8(b.take(r.0));
    decode_utf8_encode_utf8(b.skip(r.1));
    lemma_encode_concat(x, seq![' ']);
    lemma_encode_concat(x + seq![' '], y);
    assert(encode_utf8(seq![' ']).len() == 1) by {
        reveal_with_fuel(encode_utf8, 2);
        assert(seq![' '].drop_first() =~= Seq::<char>::empty());
    }
}

/// `text` with every `open ... close` block cut out, scanning the
/// lowercased text for the next block each time.
pub open spec fn strip_blocks(text: Seq<char>, open: Seq<u8>, close: Seq<u8>) -> Seq<char>
    decreases encode_utf8(text).len(),
{
    match block_range(text, open, close) {
        Some(r) => if range_fits(text, r) {
            proof {
                lemma_replace_byte_range(text, r);
            }
            strip_blocks(replace_byte_range(text, r), open, close)
        } else {
            text
        },
        None => text,
    }
}

/// Whether every block that `strip_blocks` cuts lies on character boundaries
/// of the text it is cut from.
pub open spec fn blocks_removable(text: Seq<char>, open: Seq<u8>, close: Seq<u8>) -> bool
    decreases encode_utf8(text).len(),
{
    match block_range(text, open, close) {
        Some(r) => range_fits(text, r) && {
            proof {
                lemma_replace_byte_range(text, r);
            }
            blocks_removable(replace_byte_range(text, r), open, close)
        },
        None => true,
    }
}

/// `strip_blocks` on ASCII text, whose lowercase form is `ascii_lowercase`.
pub open spec fn strip_blocks_ascii(text: Seq<char>, open: Seq<u8>, close: Seq<u8>) -> Seq<char>
    decreases encode_utf8(text).len(),
{
    match block_range_in(ascii_lowercase(text), open, close) {
        Some(r) => if range_fits(text, r) {
            proof {
                lemma_replace_byte_range(text, r);
            }
            strip_blocks_ascii(replace_byte_range(text, r), open, close)
        } else {
            text
        },
        None => text,
    }
}

/// ASCII `text` without `script`, `style` and `noscript` blocks.
pub open spec fn strip_code_blocks_ascii(text: Seq<char>) -> Seq<char> {
    let a = strip_blocks_ascii(text, encode_utf8("<script"@), encode_utf8("</script>"@));
    let b = strip_blocks_ascii(a, encode_utf8("<style"@), encode_utf8("</style>"@));
    strip_blocks_ascii(b, encode_utf8("<noscript"@), encode_utf8("</noscript>"@))
}

/// Readable text of an ASCII page: `spec_strip_html` with the lowercase
/// form of the text spelled out.
pub open spec fn spec_strip_html_ascii(html: Seq<char>) -> Seq<char> {
    join(split_ws(decode_entities(drop_tags(strip_code_blocks_ascii(html), false))), " "@)
}

/// Whether the lowercased text `lower` holds `open` with `close` at or
/// after it: a block that the stripping would cut.
pub open spec fn has_block(lower: Seq<char>, open: Seq<u8>, close: Seq<u8>) -> bool {
    exists|i: int, j: int|
        #![trigger occurs_at(encode_utf8(lower), open, i), occurs_at(encode_utf8(lower), close, j)]
        i <= j && occurs_at(encode_utf8(lower), open, i) && occurs_at(encode_utf8(lower), close, j)
}

proof fn lemma_no_range_no_block(lower: Seq<char>, open: Seq<u8>, close: Seq<u8>)
    requires
        block_range_in(lower, open, close) is None,
    ensures
        !has_block(lower, open, close),
{
    let lb = encode_utf8(lower);
    lemma_first_occurrence(lb, open, 0);
    if let Some(st) = first_occurrence_from(lb, open, 0) {
        lemma_first_occurrence(lb, close, st);
        if has_block(lower, open, close) {
            let (i, j) = choose|i: int, j: int|
                #![trigger occurs_at(encode_utf8(lower), open, i), occurs_at(encode_utf8(lower), close, j)]
                i <= j && occurs_at(encode_utf8(lower), open, i) && occurs_at(encode_utf8(lower), close, j);
            assert(occurs_at(lb, open, i));
            assert(i >= st);
            assert(occurs_at(lb, close, j));
        }
    } else {
        if has_block(lower, open, close) {
            let (i, j) = choose|i: int, j: int|
                #![trigger occurs_at(encode_utf8(lower), open, i), occurs_at(encode_utf8(lower), close, j)]
                i <= j && occurs_at(encode_utf8(lower), open, i) && occurs_at(encode_utf8(lower), close, j);
            assert(occurs_at(lb, open, i));
        }
    }
}

/// Every block is cut, not only the first: once the stripping has run,
/// the lowercased text holds no `open` with a `close` at or after it.
pub proof fn lemma_strip_blocks_complete(text: Seq<char>, open: Seq<u8>, close: Seq<u8>)
    requires
        blocks_removable(text, open, close),
    ensures
        !has_block(lowercase(strip_blocks(text, open, close)), open, close),
    decreases encode_utf8(text).len(),
{
    match block_range(text, open, close) {
        Some(r) => {
            lemma_replace_byte_range(text, r);
            lemma_strip_blocks_complete(replace_byte_range(text, r), open, close);
        },
        None => {
            lemma_no_range_no_block(lowercase(text), open, close);
        },
    }
}

/// The same for ASCII text, whose lowercase form is spelled out: every
/// block is cut, and the stripping always runs to the end.
pub proof fn lemma_strip_blocks_ascii_complete(text: Seq<char>, open: Seq<u8>, close: Seq<u8>)
    requires
        is_ascii_chars(text),
        close.len() > 1,
    ensures
        !has_block(ascii_lowercase(strip_blocks_ascii(text, open, close)), open, close),
        is_ascii_chars(strip_blocks_ascii(text, open, close)),
    decreases encode_utf8(text).len(),
{
    lemma_ascii_lowercase(text);
    lemma_ascii_boundaries(text);
    let lower = ascii_lowercase(text);
    match block_range_in(lower, open, close) {
        Some(r) => {
            let lb = encode_utf8(lower);
            let st = first_occurrence_from(lb, open, 0)->0;
            lemma_first_occurrence(lb, open, 0);
            lemma_first_occurrence(lb, close, st);
            assert(range_fits(text, r));
            lemma_replace_byte_range(text, r);
            let next = replace_byte_range(text, r);
            let b = encode_utf8(text);
            lemma_ascii_skip(text, r.0);
            lemma_ascii_skip(text, r.1);
            encode_utf8_decode_utf8(text.take(r.0));
            encode_utf8_decode_utf8(text.skip(r.1));
            assert(next == text.take(r.0) + seq![' '] + text.skip(r.1));
            assert(is_ascii_chars(next));
            lemma_strip_blocks_ascii_complete(next, open, close);
        },
        None => {
            lemma_no_range_no_block(lower, open, close);
        },
    }
}

/// `text` without `script`, `style` and `noscript` blocks.
pub open spec fn strip_code_blocks(text: Seq<char>) -> Seq<char> {
    let a = strip_blocks(text, encode_utf8("<script"@), encode_utf8("</script>"@));
    let b = strip_blocks(a, encode_utf8("<style"@), encode_utf8("</style>"@));
    strip_blocks(b, encode_utf8("<noscript"@), encode_utf8("</noscript>"@))
}

/// Whether cutting the `script`, `style` and `noscript` blocks out of
/// `text` slices no character in two.
pub open spec fn html_blocks_removable(text: Seq<char>) -> bool {
    let a = strip_blocks(text, encode_utf8("<script"@), encode_utf8("</script>"@));
    let b = strip_blocks(a, encode_utf8("<style"@), encode_utf8("</style>"@));
    &&& blocks_removable(text, encode_utf8("<script"@), encode_utf8("</script>"@))
    &&& blocks_removable(a, encode_utf8("<style"@), encode_utf8("</style>"@))
    &&& blocks_removable(b, encode_utf8("<noscript"@), encode_utf8("</noscript>"@))
}

/// `s` with every `<...>` tag replaced by a space; text outside tags kept.
pub open spec fn drop_tags(s: Seq<char>, in_tag: bool) -> Seq<char>
    decreases s.len(),
{
    if s.len() == 0 {
        seq![]
    } else if s[0] == '<' {
        drop_tags(s.drop_first(), true)
    } else if s[0] == '>' && in_tag {
        seq![' '] + drop_tags(s.drop_first(), false)
    } else if !in_tag {
        seq![s[0]] + drop_tags(s.drop_first(), false)
    } else {
        drop_tags(s.drop_first(), in_tag)
    }
}

/// `s` with the common HTML entities decoded, one entity after another.
pub open spec fn decode_entities(s: Seq<char>) -> Seq<char> {
    let a = replace_all(s, "&amp;"@, "&"@);
    let b = replace_all(a, "&lt;"@, "<"@);
    let c = replace_all(b, "&gt;"@, ">"@);
    let d = replace_all(c, "&quot;"@, "\""@);
    let e = replace_all(d, "&#39;"@, "'"@);
    replace_all(e, "&nbsp;"@, " "@)
}

/// Readable text of an HTML page: code blocks cut, tags dropped, entities
/// decoded and whitespace collapsed to single spaces.
pub open spec fn spec_strip_html(html: Seq<char>) -> Seq<char> {
    join(split_ws(decode_entities(drop_tags(strip_code_blocks(html), false))), " "@)
}

/// The text read out of a page has its whitespace collapsed: no leading or
/// trailing whitespace, and nothing but single spaces between words.
pub proof fn lemma_strip_html_collapsed(html: Seq<char>)
    ensures
        whitespace_collapsed(spec_strip_html(html)),
{
    let x = decode_entities(drop_tags(strip_code_blocks(html), false));
    lemma_split_ws_words(x);
    lemma_join_words_collapsed(split_ws(x));
}

fn remove_blocks(text: String, open: &str, close: &str) -> (r: Option<String>)
    requires
        close.spec_bytes().len() > 1,
        open.spec_bytes().len() > 0,
        open.spec_bytes()[0] == 60u8,
    ensures
        r is Some <==> blocks_removable(text@, open.spec_bytes(), close.spec_bytes()),
        r matches Some(v) ==> v@ == strip_blocks(text@, open.spec_bytes(), close.spec_bytes()),
        is_ascii_chars(text@) ==> (r matches Some(v) && is_ascii_chars(v@)),
        is_ascii_chars(text@) ==> (r matches Some(v) && v@ == strip_blocks_ascii(
            text@,
            open.spec_bytes(),
            close.spec_bytes(),
        )),
        is_ascii_chars(text@) && !text@.contains('<') ==> (r matches Some(v) && v@ == text@),
{
    let ghost ob = open.spec_bytes();
    let ghost cb = close.spec_bytes();
    let ghost orig = text@;
    let mut cur = text;
    loop
        invariant
            orig == text@,
            cb == close.spec_bytes(),
            ob == open.spec_bytes(),
            cb.len() > 1,
            ob.len() > 0,
            ob[0] == 60u8,
            blocks_removable(cur@, ob, cb) == blocks_removable(orig, ob, cb),
            strip_blocks(cur@, ob, cb) == strip_blocks(orig, ob, cb),
            is_ascii_chars(orig) ==> is_ascii_chars(cur@),
            is_ascii_chars(orig) ==> strip_blocks_ascii(cur@, ob, cb) == strip_blocks_ascii(orig, ob, cb),
            is_ascii_chars(orig) && !orig.contains('<') ==> cur@ == orig,
        decreases encode_utf8(cur@).len(),
    {
        let lower = to_lowercase(cur.as_str());
        let lb = lower.as_str().as_bytes();
        assert(lb@ == encode_utf8(lowercase(cur@)));
        proof {
            if is_ascii_chars(cur@) {
                lemma_ascii_lowercase(cur@);
                lemma_ascii_boundaries(cur@);
            }
        }
        let start = match find_bytes_from(lb, open.as_bytes(), 0) {
            Some(s) => s,
            None => {
                assert(block_range(cur@, ob, cb) is None);
                assert(blocks_removable(cur@, ob, cb));
                assert(strip_blocks(cur@, ob, cb) == cur@);
                return Some(cur);
            },
        };
        proof {
            lemma_first_occurrence(lb@, ob, 0);
            if is_ascii_chars(orig) && !orig.contains('<') {
                let l = ascii_lowercase(cur@);
                assert(lb@.subrange(start as int, start + ob.len())[0] == ob[0]);
                assert(lb@[start as int] == 60u8);
                assert(lb@[start as int] == l[start as int] as u8);
                assert(l[start as int] == ascii_lower_char(cur@[start as int]));
                assert(cur@[start as int] != '<');
                assert(false);
            }
        }
        let c = match find_bytes_from(lb, close.as_bytes(), start) {
            Some(c) => c,
            None => {
                assert(block_range(cur@, ob, cb) is None);
                assert(blocks_removable(cur@, ob, cb));
                assert(strip_blocks(cur@, ob, cb) == cur@);
                return Some(cur);
            },
        };
        proof {
            lemma_first_occurrence(lb@, cb, start as int);
        }
        let cbytes = close.as_bytes();
        let n = cbytes.len();
        let lbl = lb.len();
        assert(c + n <= lbl);
        let end = c + n;
        let tb = cur.as_str().as_bytes();
        let ghost r = (start as int, end as int);
        assert(block_range(cur@, ob, cb) == Some(r));
        if end > tb.len() || !cur.as_str().is_char_boundary(start) || !cur.as_str().is_char_boundary(end) {
            assert(!range_fits(cur@, r));
            assert(!blocks_removable(cur@, ob, cb));
            assert(!is_ascii_chars(orig));
            return None;
        }
        proof {
            encode_utf8_valid_utf8(cur@);
            lemma_replace_byte_range(cur@, r);
        }
        let (head, _) = cur.as_str().split_at(start);
        let (_, tail) = cur.as_str().split_at(end);
        let mut next = head.to_owned();
        next.append(" ");
        next.append(tail);
        proof {
            reveal_strlit(" ");
            let b = encode_utf8(cur@);
            valid_utf8_split(b, start as int);
            valid_utf8_split(b, end as int);
            encode_utf8_decode_utf8(head@);
            encode_utf8_decode_utf8(tail@);
            assert(head@ == decode_utf8(b.take(start as int)));
            assert(tail@ == decode_utf8(b.skip(end as int)));
            assert(next@ =~= replace_byte_range(cur@, r));
            if is_ascii_chars(cur@) {
                lemma_ascii_skip(cur@, start as int);
                lemma_ascii_skip(cur@, end as int);
                encode_utf8_decode_utf8(cur@.take(start as int));
                encode_utf8_decode_utf8(cur@.skip(end as int));
                assert(head@ == cur@.take(start as int));
                assert(tail@ == cur@.skip(end as int));
                assert(is_ascii_chars(next@));
            }
        }
        cur = next;
    }
}

proof fn lemma_drop_tags_step(s: Seq<char>, i: int, in_tag: bool)
    requires
        0 <= i < s.len(),
    ensures
        drop_tags(s.skip(i), in_tag) == (if s[i] == '<' {
            drop_tags(s.skip(i + 1), true)
        } else if s[i] == '>' && in_tag {
            seq![' '] + drop_tags(s.skip(i + 1), false)
        } else if !in_tag {
            seq![s[i]] + drop_tags(s.skip(i + 1), false)
        } else {
            drop_tags(s.skip(i + 1), in_tag)
        }),
{
    assert(s.skip(i).drop_first() =~= s.skip(i + 1));
}

fn drop_tag_chars(cs: &Vec<char>) -> (r: Vec<char>)
    ensures
        r@ == drop_tags(cs@, false),
{
    let mut out: Vec<char> = Vec::new();
    let mut in_tag = false;
    let mut i: usize = 0;
    proof {
        assert(cs@.skip(0) =~= cs@);
    }
    while i < cs.len()
        invariant
            i <= cs.len(),
            out@ + drop_tags(cs@.skip(i as int), in_tag) == drop_tags(cs@, false),
        decreases cs.len() - i,
    {
        let c = cs[i];
        let ghost before = out@;
        let ghost was = in_tag;
        let ghost next = cs@.skip(i + 1);
        proof {
            lemma_drop_tags_step(cs@, i as int, in_tag);
        }
        if c == '<' {
            in_tag = true;
        } else if c == '>' && in_tag {
            in_tag = false;
            out.push(' ');
            proof {
                assert(before.push(' ') + drop_tags(next, false) =~= before + (seq![' '] + drop_tags(next, false)));
            }
        } else if !in_tag {
            out.push(c);
            proof {
                assert(before.push(c) + drop_tags(next, false) =~= before + (seq![c] + drop_tags(next, false)));
            }
        }
        i = i + 1;
    }
    proof {
        assert(cs@.skip(i as int) =~= Seq::<char>::empty());
        assert(out@ + Seq::<char>::empty() =~= out@);
    }
    out
}

proof fn lemma_opens_with_angle(p: Seq<char>)
    requires
        p.len() > 0,
        p[0] == '<',
        is_ascii_chars(p),
    ensures
        encode_utf8(p).len() > 0,
        encode_utf8(p)[0] == 60u8,
{
    is_ascii_chars_encode_utf8(p);
}

/// Readable text of an HTML page, or `None` where cutting a code block out
/// would slice a character in two, which never happens to ASCII pages.
/// ASCII text without `<` or `&` comes back with its whitespace collapsed
/// and nothing else changed.
pub fn try_strip_html(html: &str) -> (r: Option<String>)
    ensures
        r is Some <==> html_blocks_removable(html@),
        r matches Some(t) ==> t@ == spec_strip_html(html@),
        is_ascii_chars(html@) ==> (r matches Some(t) && t@ == spec_strip_html_ascii(html@)),
        is_ascii_chars(html@) && !html@.contains('<') && !html@.contains('&')
            ==> (r matches Some(t) && t@ == join(split_ws(html@), " "@)),
{
    proof {
        reveal_strlit("<script");
        reveal_strlit("<style");
        reveal_strlit("<noscript");
        lemma_opens_with_angle("<script"@);
        lemma_opens_with_angle("<style"@);
        lemma_opens_with_angle("<noscript"@);
        reveal_strlit("</script>");
        reveal_strlit("</style>");
        reveal_strlit("</noscript>");
        lemma_encode_len("</script>"@);
        lemma_encode_len("</style>"@);
        lemma_encode_len("</noscript>"@);
        reveal_strlit("&amp;");
        reveal_strlit("&lt;");
        reveal_strlit("&gt;");
        reveal_strlit("&quot;");
        reveal_strlit("&#39;");
        reveal_strlit("&nbsp;");
    }
    let t0 = html.to_owned();
    let t1 = match remove_blocks(t0, "<script", "</script>") {
        Some(t) => t,
        None => return None,
    };
    let t2 = match remove_blocks(t1, "<style", "</style>") {
        Some(t) => t,
        None => return None,
    };
    let t3 = match remove_blocks(t2, "<noscript", "</noscript>") {
        Some(t) => t,
        None => return None,
    };
    let cs = chars_of(t3.as_str());
    let plain = drop_tag_chars(&cs);
    let a = replace_chars(&plain, "&amp;", "&");
    let b = replace_chars(&a, "&lt;", "<");
    let c = replace_chars(&b, "&gt;", ">");
    let d = replace_chars(&c, "&quot;", "\"");
    let e = replace_chars(&d, "&#39;", "'");
    let f = replace_chars(&e, "&nbsp;", " ");
    let words = split_whitespace(&f);
    proof {
        if is_ascii_chars(html@) && !html@.contains('<') && !html@.contains('&') {
            lemma_drop_tags_plain(html@);
            lemma_replace_absent(html@, "&amp;"@, "&"@);
            lemma_replace_absent(html@, "&lt;"@, "<"@);
            lemma_replace_absent(html@, "&gt;"@, ">"@);
            lemma_replace_absent(html@, "&quot;"@, "\""@);
            lemma_replace_absent(html@, "&#39;"@, "'"@);
            lemma_replace_absent(html@, "&nbsp;"@, " "@);
            assert(f@ == html@);
        }
    }
    Some(join_strings(&words, " "))
}

proof fn lemma_drop_tags_plain(s: Seq<char>)
    requires
        !s.contains('<'),
    ensures
        drop_tags(s, false) == s,
    decreases s.len(),
{
    if s.len() > 0 {
        assert(s[0] != '<');
        let d = s.drop_first();
        assert(!d.contains('<')) by {
            if d.contains('<') {
                let k = choose|k: int| 0 <= k < d.len() && d[k] == '<';
                assert(s[k + 1] == '<');
            }
        }
        lemma_drop_tags_plain(d);
        assert(seq![s[0]] + d =~= s);
    }
}

proof fn lemma_replace_absent(s: Seq<char>, p: Seq<char>, q: Seq<char>)
    requires
        p.len() > 0,
        p[0] == '&',
        !s.contains('&'),
    ensures
        replace_all(s, p, q) == s,
    decreases s.len(),
{
    if s.len() > 0 {
        if has_prefix(s, p) {
            assert(s.take(p.len() as int)[0] == s[0]);
            assert(s.contains('&'));
        }
        let d = s.drop_first();
        assert(!d.contains('&')) by {
            if d.contains('&') {
                let k = choose|k: int| 0 <= k < d.len() && d[k] == '&';
                assert(s[k + 1] == '&');
            }
        }
        lemma_replace_absent(d, p, q);
        assert(seq![s[0]] + d =~= s);
    }
}

/// Readable text of an HTML page: `script`, `style` and `noscript` blocks
/// cut out, tags replaced by spaces, common entities decoded and runs of
/// whitespace collapsed to single spaces.
pub fn strip_html(html: &str) -> (r: String)
    requires
        html_blocks_removable(html@),
    ensures
        r@ == spec_strip_html(html@),
        is_ascii_chars(html@) ==> r@ == spec_strip_html_ascii(html@),
{
    match try_strip_html(html) {
        Some(t) => t,
        None => {
            // Ruled out by the precondition.
            proof {
                assert(false);
            }
            String::new()
        },
    }
}

/// `text` cut to `max` bytes, as the result the fetch returns.
pub fn truncate_text(text: &str, max: usize) -> (r: Result<String, String>)
    ensures
        r matches Ok(s) && s@ == spec_truncate(text@, max as int),
{
    Ok(truncate(text, max))
}

/// Whether a content type names an HTML document.
pub open spec fn is_html(content_type: Seq<char>) -> bool {
    contains(content_type, "text/html"@)
}

/// The text the model gets for a fetched page: HTML reduced to its
/// readable text, then everything cut to `MAX_CONTENT_LENGTH` bytes.
pub open spec fn spec_page_text(content_type: Seq<char>, body: Seq<char>) -> Seq<char> {
    let text = if is_html(content_type) { spec_strip_html(body) } else { body };
    spec_truncate(text, MAX_CONTENT_LENGTH as int)
}

/// `spec_page_text` of an ASCII page.
pub open spec fn spec_page_text_ascii(content_type: Seq<char>, body: Seq<char>) -> Seq<char> {
    let text = if is_html(content_type) { spec_strip_html_ascii(body) } else { body };
    spec_truncate(text, MAX_CONTENT_LENGTH as int)
}

/// The text the model gets for a fetched page, or `None` where reducing the
/// HTML would slice a character in two.
pub fn try_page_text(content_type: &str, body: &str) -> (r: Option<String>)
    ensures
        r is Some <==> (is_html(content_type@) ==> html_blocks_removable(body@)),
        r matches Some(t) ==> t@ == spec_page_text(content_type@, body@),
        is_ascii_chars(body@) ==> (r matches Some(t) && t@ == spec_page_text_ascii(content_type@, body@)),
{
    let ct = chars_of(content_type);
    if contains_str(&ct, "text/html") {
        match try_strip_html(body) {
            Some(text) => Some(truncate(text.as_str(), MAX_CONTENT_LENGTH)),
            None => None,
        }
    } else {
        Some(truncate(body, MAX_CONTENT_LENGTH))
    }
}

/// The text the model gets for a fetched page.
pub fn page_text(content_type: &str, body: &str) -> (r: Result<String, String>)
    requires
        is_html(content_type@) ==> html_blocks_removable(body@),
    ensures
        r matches Ok(t) && t@ == spec_page_text(content_type@, body@),
        is_ascii_chars(body@) ==> (r matches Ok(t) && t@ == spec_page_text_ascii(content_type@, body@)),
{
    match try_page_text(content_type, body) {
        Some(t) => Ok(t),
        None => {
            // Ruled out by the precondition.
            proof {
                assert(false);
            }
            Ok(String::new())
        },
    }
}

/// The text of `v` where it is a string, and `default` otherwise.
pub open spec fn str_or(v: Json, default: Seq<char>) -> Seq<char> {
    match as_str(v) {
        Some(s) => s,
        None => default,
    }
}

/// The value of `v` where it is an unsigned integer, and 0 otherwise.
pub open spec fn u64_or_zero(v: Json) -> u64 {
    match as_u64(v) {
        Some(n) => n,
        None => 0,
    }
}

/// The member `key` of `v`, where there is one and it is not `null`.
pub open spec fn present_member(v: Json, key: Seq<char>) -> Option<Json> {
    match get_member(v, key) {
        Some(x) => if is_null(x) { None } else { Some(x) },
        None => None,
    }
}

/// A tweet as the bot reads it out: author, text, counts, date and the
/// tweet it quotes.
pub open spec fn spec_tweet_text(tweet: Json) -> Seq<char> {
    let author = member(tweet, "author"@);
    let created = str_or(member(tweet, "created_at"@), Seq::empty());
    let head = "@"@ + str_or(member(author, "screen_name"@), "unknown"@) + " ("@
        + str_or(member(author, "name"@), "Unknown"@) + ")\n"@ + str_or(member(tweet, "text"@), Seq::empty())
        + "\n\nLikes: "@ + decimal(u64_or_zero(member(tweet, "likes"@)) as nat) + " | Retweets: "@
        + decimal(u64_or_zero(member(tweet, "retweets"@)) as nat) + " | Replies: "@
        + decimal(u64_or_zero(member(tweet, "replies"@)) as nat);
    let dated = if created.len() > 0 { head + "\nPosted: "@ + created } else { head };
    match present_member(tweet, "quote"@) {
        Some(q) => dated + "\n\nQuoting @"@ + str_or(member(member(q, "author"@), "screen_name"@), "unknown"@)
            + ": "@ + str_or(member(q, "text"@), Seq::empty()),
        None => dated,
    }
}

/// The error for a tweet answer from `url` that is no JSON document: what
/// reqwest's `json` reports for a body it cannot decode, after the prefix.
pub open spec fn spec_tweet_json_error(url: Seq<char>) -> Seq<char> {
    "Failed to parse tweet JSON: error decoding response body for url ("@ + url + ")"@
}

/// The error for a tweet answer from `url` that is no JSON document.
pub fn tweet_json_error(url: &str) -> (s: String)
    ensures
        s@ == spec_tweet_json_error(url@),
{
    let mut s = String::from_str("Failed to parse tweet JSON: error decoding response body for url (");
    s.append(url);
    s.append(")");
    s
}

/// A tweet read out of the fxtwitter API's JSON answer, served from `url`.
pub open spec fn spec_format_tweet(body: Seq<char>, url: Seq<char>) -> Result<Seq<char>, Seq<char>> {
    match parse_json(body) {
        Err(_) => Err(spec_tweet_json_error(url)),
        Ok(v) => match present_member(v, "tweet"@) {
            Some(t) => Ok(spec_tweet_text(t)),
            None => Err("Tweet not found."@),
        },
    }
}

fn present_member_exec<'a>(v: &'a Json, key: &str) -> (r: Option<&'a Json>)
    ensures
        match r {
            Some(x) => present_member(*v, key@) == Some(*x),
            None => present_member(*v, key@) is None,
        },
{
    match get_member_exec(v, key) {
        Some(x) => match x {
            Json::Null => None,
            _ => Some(x),
        },
        None => None,
    }
}

fn str_or_exec(v: Option<&Json>, default: &str) -> (r: String)
    ensures
        r@ == str_or(match v { Some(x) => *x, None => Json::Null }, default@),
{
    match as_str_exec(v) {
        Some(s) => s,
        None => String::from_str(default),
    }
}

fn member_of<'a>(v: Option<&'a Json>, key: &str) -> (r: Option<&'a Json>)
    ensures
        member(match v { Some(x) => *x, None => Json::Null }, key@) == match r {
            Some(x) => *x,
            None => Json::Null,
        },
{
    match v {
        Some(x) => member_exec(x, key),
        None => None,
    }
}

fn tweet_text(tweet: &Json) -> (s: String)
    ensures
        s@ == spec_tweet_text(*tweet),
{
    let author = member_exec(tweet, "author");
    let handle = str_or_exec(member_of(author, "screen_name"), "unknown");
    let name = str_or_exec(member_of(author, "name"), "Unknown");
    let text = str_or_exec(member_exec(tweet, "text"), "");
    let likes = match as_u64_exec(member_exec(tweet, "likes")) { Some(n) => n, None => 0 };
    let retweets = match as_u64_exec(member_exec(tweet, "retweets")) { Some(n) => n, None => 0 };
    let replies = match as_u64_exec(member_exec(tweet, "replies")) { Some(n) => n, None => 0 };
    let created = str_or_exec(member_exec(tweet, "created_at"), "");
    let mut out = String::from_str("@");
    out.append(handle.as_str());
    out.append(" (");
    out.append(name.as_str());
    out.append(")\n");
    out.append(text.as_str());
    out.append("\n\nLikes: ");
    out.append(decimal_string(likes).as_str());
    out.append(" | Retweets: ");
    out.append(decimal_string(retweets).as_str());
    out.append(" | Replies: ");
    out.append(decimal_string(replies).as_str());
    proof {
        reveal_strlit("");
    }
    if !created.as_str().is_empty() {
        out.append("\nPosted: ");
        out.append(created.as_str());
    }
    match present_member_exec(tweet, "quote") {
        Some(q) => {
            let q_author = str_or_exec(member_of(member_exec(q, "author"), "screen_name"), "unknown");
            let q_text = str_or_exec(member_exec(q, "text"), "");
            out.append("\n\nQuoting @");
            out.append(q_author.as_str());
            out.append(": ");
            out.append(q_text.as_str());
        },
        None => {},
    }
    out
}

/// Reads a tweet out of the fxtwitter API's JSON answer, served from `url`.
pub fn format_tweet(body: &str, url: &str) -> (r: Result<String, String>)
    ensures
        match r {
            Ok(t) => spec_format_tweet(body@, url@) matches Ok(x) && x == t@,
            Err(e) => spec_format_tweet(body@, url@) matches Err(x) && x == e@,
        },
{
    match json_parse(body) {
        Err(_) => Err(tweet_json_error(url)),
        Ok(v) => match present_member_exec(&v, "tweet") {
            Some(t) => Ok(tweet_text(t)),
            None => Err(String::from_str("Tweet not found.")),
        },
    }
}

/// Where a link is read from.
pub enum FetchTarget {
    /// The fxtwitter API answer for a tweet, at this URL.
    Tweet(String),
    /// The page itself.
    Page,
}

/// Where the link `url` is read from: tweets through the fxtwitter API.
pub fn fetch_target(url: &str) -> (t: FetchTarget)
    ensures
        match t {
            FetchTarget::Tweet(api) => spec_fxtwitter_url(url@) == Some(api@),
            FetchTarget::Page => spec_fxtwitter_url(url@) is None,
        },
{
    match to_fxtwitter_url(url) {
        Some(api) => FetchTarget::Tweet(api),
        None => FetchTarget::Page,
    }
}

/// The error for an answer with a status other than success.
pub fn http_status_error(status: &str) -> (s: String)
    ensures
        s@ == "HTTP "@ + status@,
{
    let mut s = String::from_str("HTTP ");
    s.append(status);
    s
}

/// `s` with `p` stripped from its front as often as it occurs there.
pub open spec fn strip_repeated_prefix(s: Seq<char>, p: Seq<char>) -> Seq<char>
    decreases s.len(),
{
    if p.len() > 0 && has_prefix(s, p) {
        strip_repeated_prefix(s.skip(p.len() as int), p)
    } else {
        s
    }
}

/// `s` up to its first `/`.
pub open spec fn before_slash(s: Seq<char>) -> Seq<char>
    decreases s.len(),
{
    if s.len() == 0 || s[0] == '/' {
        seq![]
    } else {
        seq![s[0]] + before_slash(s.drop_first())
    }
}

/// The host part of a link: the text after any `https://` and then any
/// `http://` prefixes, up to the first `/`.
pub open spec fn spec_domain(url: Seq<char>) -> Seq<char> {
    before_slash(strip_repeated_prefix(strip_repeated_prefix(url, "https://"@), "http://"@))
}

fn strip_repeated(cs: Vec<char>, p: &str) -> (r: Vec<char>)
    ensures
        r@ == strip_repeated_prefix(cs@, p@),
{
    let pc = chars_of(p);
    let mut cur = cs;
    if pc.len() == 0 {
        return cur;
    }
    loop
        invariant
            pc@ == p@,
            pc@.len() > 0,
            strip_repeated_prefix(cur@, p@) == strip_repeated_prefix(cs@, p@),
        decreases cur@.len(),
    {
        if !starts_with(&cur, p) {
            return cur;
        }
        cur = suffix(&cur, pc.len());
    }
}

/// The host part of a link.
pub fn domain(url: &str) -> (d: String)
    ensures
        d@ == spec_domain(url@),
{
    let cs = chars_of(url);
    let a = strip_repeated(cs, "https://");
    let b = strip_repeated(a, "http://");
    let mut j: usize = 0;
    proof {
        assert(b@.skip(0) =~= b@);
        assert(b@.take(0) + b@ =~= b@);
    }
    while j < b.len() && b[j] != '/'
        invariant
            j <= b.len(),
            forall|k: int| 0 <= k < j ==> b@[k] != '/',
            before_slash(b@) == b@.take(j as int) + before_slash(b@.skip(j as int)),
        decreases b.len() - j,
    {
        proof {
            assert(b@.skip(j as int).drop_first() =~= b@.skip(j + 1));
            assert(b@.take(j + 1) =~= b@.take(j as int).push(b@[j as int]));
            assert(b@.take(j as int) + seq![b@[j as int]] =~= b@.take(j + 1));
            assert((b@.take(j as int) + seq![b@[j as int]]) + before_slash(b@.skip(j + 1))
                =~= b@.take(j as int) + (seq![b@[j as int]] + before_slash(b@.skip(j + 1))));
        }
        j = j + 1;
    }
    proof {
        assert(before_slash(b@.skip(j as int)) =~= Seq::<char>::empty());
        assert(b@.take(j as int) + Seq::<char>::empty() =~= b@.take(j as int));
        assert(b@.take(j as int) =~= b@.subrange(0, j as int));
    }
    string_from_chars(&b, 0, j)
}

/// The inline preview of a link in a channel summary: its host and the
/// start of its text, or that it could not be loaded.
pub open spec fn spec_link_preview(url: Seq<char>, fetched: Result<Seq<char>, Seq<char>>) -> Seq<char> {
    match fetched {
        Ok(content) => "[Link from "@ + spec_domain(url) + ": "@ + spec_truncate(content, MAX_INLINE_LENGTH as int) + "]"@,
        Err(_) => "[Link from "@ + spec_domain(url) + ": could not load]"@,
    }
}

/// The inline preview of a link, from what fetching it gave.
pub fn link_preview(url: &str, fetched: Result<String, String>) -> (s: String)
    ensures
        s@ == spec_link_preview(url@, match fetched { Ok(c) => Ok(c@), Err(e) => Err(e@) }),
{
    let d = domain(url);
    let mut s = String::from_str("[Link from ");
    s.append(d.as_str());
    match fetched {
        Ok(content) => {
            let preview = truncate(content.as_str(), MAX_INLINE_LENGTH);
            s.append(": ");
            s.append(preview.as_str());
            s.append("]");
        },
        Err(_) => {
            s.append(": could not load]");
        },
    }
    s
}

/// The tool that lets the model read a web page.
pub struct UrlReaderTool;

/// What a tool was called with: the value to work on, or the reply to an
/// unusable call.
pub enum ToolArgument {
    Valid(String),
    Invalid(String),
}

impl UrlReaderTool {
    pub fn new() -> (t: UrlReaderTool) {
        UrlReaderTool
    }

    /// Name under which the model calls the tool.
    pub fn name(&self) -> (s: &'static str)
        ensures
            s@ == "read_url"@,
    {
        "read_url"
    }

    /// What the model is told the tool does.
    pub fn description(&self) -> (s: &'static str)
        ensures
            s@ == "Fetch and read the text content of a web page or URL. Use when the user shares a link \
             or asks about content at a specific URL."@,
    {
        "Fetch and read the text content of a web page or URL. Use when the user shares a link \
         or asks about content at a specific URL."
    }

    /// The URL a call asks for: the string member `url` of its JSON arguments.
    pub fn url_argument(&self, arguments: &str) -> (a: ToolArgument)
        ensures
            match a {
                ToolArgument::Valid(u) => str_member_of(arguments@, "url"@) == Some(u@),
                ToolArgument::Invalid(m) => str_member_of(arguments@, "url"@) is None
                    && m@ == "Invalid arguments: missing 'url' field."@,
            },
    {
        match str_member(arguments, "url") {
            Some(u) => ToolArgument::Valid(u),
            None => ToolArgument::Invalid(String::from_str("Invalid arguments: missing 'url' field.")),
        }
    }

    /// The tool's answer from what fetching the URL gave.
    pub fn answer(&self, fetched: Result<String, String>) -> (s: String)
        ensures
            s@ == match fetched {
                Ok(c) => c@,
                Err(e) => "Error reading URL: "@ + e@,
            },
    {
        match fetched {
            Ok(content) => content,
            Err(e) => {
                let mut s = String::from_str("Error reading URL: ");
                s.append(e.as_str());
                s
            },
        }
    }
}

} // verus!
