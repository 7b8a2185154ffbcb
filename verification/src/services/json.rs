//! JSON documents as plain library values, read through `serde_json`.
use vstd::prelude::*;
use crate::text::str_eq;

verus! {

/// A parsed JSON document, holding what the bot reads of it: numbers are
/// kept as their value as an unsigned 64-bit integer, where they have one.
pub enum Json {
    Null,
    Bool(bool),
    Number(Option<u64>),
    Str(String),
    Array(Vec<Json>),
    Object(Vec<(String, Json)>),
}

#[verifier::external_type_specification]
#[verifier::external_body]
pub struct ExJsonValue(serde_json::Value);

/// What `serde_json::from_str::<serde_json::Value>` yields for a text: the
/// document, or the parser's error message.
pub uninterp spec fn parse_json(text: Seq<char>) -> Result<Json, Seq<char>>;

/// Carries a `serde_json::Value` over into a `Json`, variant for variant:
/// the conversion step of `json_parse`, in a function of its own only
/// because it recurses into arrays and objects. Nothing is claimed of it
/// beyond what `json_parse` claims of their result together.
#[verifier::external_body]
fn json_from_value(v: &serde_json::Value) -> Json {
    match v {
        serde_json::Value::Null => Json::Null,
        serde_json::Value::Bool(b) => Json::Bool(*b),
        serde_json::Value::Number(n) => Json::Number(n.as_u64()),
        serde_json::Value::String(s) => Json::Str(s.clone()),
        serde_json::Value::Array(items) => Json::Array(items.iter().map(json_from_value).collect()),
        serde_json::Value::Object(map) => Json::Object(
            map.iter().map(|(k, x)| (k.clone(), json_from_value(x))).collect(),
        ),
    }
}

/// `serde_json::from_str` into a `serde_json::Value`, carried over into a
/// `Json`; on failure the error's message. The result is stated to be a
/// function of the text alone; what it is, is not stated.
#[verifier::external_body]
pub(crate) fn json_parse(text: &str) -> (r: Result<Json, String>)
    ensures
        match r {
            Ok(j) => parse_json(text@) matches Ok(pj) && pj == j,
            Err(e) => parse_json(text@) matches Err(pe) && pe == e@,
        },
{
    match serde_json::from_str::<serde_json::Value>(text) {
        Ok(v) => Ok(json_from_value(&v)),
        Err(e) => Err(e.to_string()),
    }
}

/// What reqwest's `Response::json` reports for a body from `url` that is
/// no JSON document.
pub open spec fn spec_decode_error(url: Seq<char>) -> Seq<char> {
    "error decoding response body for url ("@ + url + ")"@
}

/// What reqwest's `Response::json` reports for a body from `url` that is
/// no JSON document.
pub fn decode_error(url: &str) -> (s: String)
    ensures
        s@ == spec_decode_error(url@),
{
    let mut s = String::from_str("error decoding response body for url (");
    s.append(url);
    s.append(")");
    s
}

/// The value under `key` in the first entry of `entries` that has it.
pub open spec fn lookup(entries: Seq<(String, Json)>, key: Seq<char>) -> Option<Json>
    decreases entries.len(),
{
    if entries.len() == 0 {
        None
    } else if entries[0].0@ == key {
        Some(entries[0].1)
    } else {
        lookup(entries.drop_first(), key)
    }
}

/// `value.get(key)`: the member `key` of an object; `None` for a missing key
/// or a value that is not an object.
pub open spec fn get_member(v: Json, key: Seq<char>) -> Option<Json> {
    match v {
        Json::Object(entries) => lookup(entries@, key),
        _ => None,
    }
}

/// `value[key]`: the member `key` of an object, and `Null` where there is none.
pub open spec fn member(v: Json, key: Seq<char>) -> Json {
    match get_member(v, key) {
        Some(x) => x,
        None => Json::Null,
    }
}

/// `value[i]`: element `i` of an array, and `Null` where there is none.
pub open spec fn element(v: Json, i: int) -> Json {
    match v {
        Json::Array(items) => if 0 <= i < items.len() { items@[i] } else { Json::Null },
        _ => Json::Null,
    }
}

/// `value.as_str()`.
pub open spec fn as_str(v: Json) -> Option<Seq<char>> {
    match v {
        Json::Str(s) => Some(s@),
        _ => None,
    }
}

/// `value.as_u64()`.
pub open spec fn as_u64(v: Json) -> Option<u64> {
    match v {
        Json::Number(n) => n,
        _ => None,
    }
}

/// `value.is_null()`.
pub open spec fn is_null(v: Json) -> bool {
    v is Null
}

/// The member `key` of `v`, where `v` is an object that has one.
pub fn get_member_exec<'a>(v: &'a Json, key: &str) -> (r: Option<&'a Json>)
    ensures
        match r {
            Some(x) => get_member(*v, key@) == Some(*x),
            None => get_member(*v, key@) is None,
        },
{
    match v {
        Json::Object(entries) => {
            let mut i: usize = 0;
            proof {
                assert(entries@.skip(0) =~= entries@);
            }
            while i < entries.len()
                invariant
                    i <= entries.len(),
                    get_member(*v, key@) == lookup(entries@, key@),
                    lookup(entries@.skip(i as int), key@) == lookup(entries@, key@),
                decreases entries.len() - i,
            {
                proof {
                    assert(entries@.skip(i as int).drop_first() =~= entries@.skip(i + 1));
                }
                proof {
                    assert(entries@.skip(i as int)[0] == entries@[i as int]);
                }
                if str_eq(entries[i].0.as_str(), key) {
                    proof {
                        assert(lookup(entries@.skip(i as int), key@) == Some(entries@[i as int].1));
                    }
                    return Some(&entries[i].1);
                }
                i = i + 1;
            }
            proof {
                assert(entries@.skip(i as int) =~= Seq::<(String, Json)>::empty());
            }
            None
        },
        _ => None,
    }
}

/// `v[key]`, with `None` standing for `Null`.
pub fn member_exec<'a>(v: &'a Json, key: &str) -> (r: Option<&'a Json>)
    ensures
        member(*v, key@) == match r {
            Some(x) => *x,
            None => Json::Null,
        },
{
    get_member_exec(v, key)
}

/// `v[i]`, with `None` standing for `Null`.
pub fn element_exec<'a>(v: &'a Json, i: usize) -> (r: Option<&'a Json>)
    ensures
        element(*v, i as int) == match r {
            Some(x) => *x,
            None => Json::Null,
        },
{
    match v {
        Json::Array(items) => if i < items.len() {
            Some(&items[i])
        } else {
            None
        },
        _ => None,
    }
}

/// `v.as_str()`, for a value that may stand for `Null`.
pub fn as_str_exec(v: Option<&Json>) -> (r: Option<String>)
    ensures
        match r {
            Some(s) => as_str(match v { Some(x) => *x, None => Json::Null }) == Some(s@),
            None => as_str(match v { Some(x) => *x, None => Json::Null }) is None,
        },
{
    match v {
        Some(Json::Str(s)) => Some(s.clone()),
        _ => None,
    }
}

/// `v.as_u64()`, for a value that may stand for `Null`.
pub fn as_u64_exec(v: Option<&Json>) -> (r: Option<u64>)
    ensures
        r == as_u64(match v { Some(x) => *x, None => Json::Null }),
{
    match v {
        Some(Json::Number(n)) => *n,
        _ => None,
    }
}

/// The text of the string member `key` of the JSON document `text`: what
/// `serde_json::from_str::<Value>(text).ok().and_then(|v| v[key].as_str())` gives.
pub open spec fn str_member_of(text: Seq<char>, key: Seq<char>) -> Option<Seq<char>> {
    match parse_json(text) {
        Ok(v) => as_str(member(v, key)),
        Err(_) => None,
    }
}

/// The string member `key` of the JSON document `text`, if it parses and has one.
pub fn str_member(text: &str, key: &str) -> (r: Option<String>)
    ensures
        match r {
            Some(s) => str_member_of(text@, key@) == Some(s@),
            None => str_member_of(text@, key@) is None,
        },
{
    match json_parse(text) {
        Ok(v) => as_str_exec(member_exec(&v, key)),
        Err(_) => None,
    }
}

} // verus!
