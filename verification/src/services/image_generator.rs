//! Image generation through the images endpoint of the OpenAI API.
use vstd::prelude::*;
use crate::services::json::{decode_error, spec_decode_error, as_str, as_str_exec, element, element_exec, json_parse, member, member_exec, parse_json};
use crate::text::{chars_of, replace_all, replace_chars, string_of};

verus! {

/// Generates images with an OpenAI API key.
pub struct OpenAiImageGenerator {
    pub api_key: String,
}

/// The JSON body of a generation request: the prompt with its double
/// quotes escaped, one image, 512 by 512 pixels.
pub open spec fn spec_request_body(prompt: Seq<char>) -> Seq<char> {
    "{\"prompt\": \""@ + replace_all(prompt, "\""@, "\\\""@) + "\", \"n\":1, \"size\":\"512x512\"}"@
}

/// The URL of the first image in the API's JSON answer, served from `url`.
pub open spec fn spec_image_url(body: Seq<char>, url: Seq<char>) -> Result<Seq<char>, Seq<char>> {
    match parse_json(body) {
        Err(_) => Err(spec_decode_error(url)),
        Ok(v) => match as_str(member(element(member(v, "data"@), 0), "url"@)) {
            Some(u) => Ok(u),
            None => Err("No image URL in response"@),
        },
    }
}

impl OpenAiImageGenerator {
    pub fn new(api_key: String) -> (g: OpenAiImageGenerator)
        ensures
            g.api_key == api_key,
    {
        OpenAiImageGenerator { api_key }
    }

    /// The JSON body of a generation request for `prompt`.
    pub fn request_body(&self, prompt: &str) -> (s: String)
        ensures
            s@ == spec_request_body(prompt@),
    {
        proof {
            reveal_strlit("\"");
        }
        let cs = chars_of(prompt);
        let escaped = replace_chars(&cs, "\"", "\\\"");
        let mut s = String::from_str("{\"prompt\": \"");
        s.append(string_of(&escaped).as_str());
        s.append("\", \"n\":1, \"size\":\"512x512\"}");
        s
    }

    /// The URL of the first image in the API's JSON answer, served from `url`.
    pub fn image_url(&self, body: &str, url: &str) -> (r: Result<String, String>)
        ensures
            match r {
                Ok(u) => spec_image_url(body@, url@) matches Ok(x) && x == u@,
                Err(e) => spec_image_url(body@, url@) matches Err(x) && x == e@,
            },
    {
        match json_parse(body) {
            Err(_) => Err(decode_error(url)),
            Ok(v) => {
                let data = member_exec(&v, "data");
                let first = match data {
                    Some(d) => element_exec(d, 0),
                    None => None,
                };
                let url = match first {
                    Some(f) => member_exec(f, "url"),
                    None => None,
                };
                match as_str_exec(url) {
                    Some(u) => Ok(u),
                    None => Err(String::from_str("No image URL in response")),
                }
            },
        }
    }
}

} // verus!
