//! Requests to the internal meeting-bot service: its base address, the
//! headers sent, the paths asked for, and how a reply is read.
use vstd::prelude::*;

use crate::config::MeetingBotConfig;
use crate::json::Json;
use crate::text::{chars_of, extend_str, string_of, strip_trailing, strip_trailing_exec};

verus! {

broadcast use vstd::string::group_string_axioms;

/// The base address requests go to: the configured URL without trailing
/// slashes. Without a URL there is no client.
pub fn bot_client_base(cfg: &MeetingBotConfig) -> (r: Result<String, String>)
    ensures
        match cfg.url {
            Some(u) => r matches Ok(b) && b@ == strip_trailing(u@, '/'),
            None => r matches Err(e) && e@ == "MEETING_BOT_URL is not set"@,
        },
{
    match cfg.base_url() {
        Some(u) => Ok(string_of(&strip_trailing_exec(&chars_of(u), '/'))),
        None => Err(string_of(&chars_of("MEETING_BOT_URL is not set"))),
    }
}

/// A character that may stand in an HTTP header value: tab, or anything from
/// space on but DEL (every byte of a multi-byte character qualifies).
pub open spec fn header_char_ok(c: char) -> bool {
    ((c as u32) >= 32 && (c as u32) != 127) || c == '\t'
}

pub open spec fn header_value_ok(s: Seq<char>) -> bool {
    forall|i: int| 0 <= i < s.len() ==> header_char_ok(#[trigger] s[i])
}

/// `HeaderValue::from_str` (reqwest's re-export of the `http` crate's type):
/// it accepts a text exactly when every byte is a tab or at least 32 and not
/// 127, which for the bytes of a `&str` is `header_value_ok`.
#[verifier::external_body]
fn header_value_accepted(v: &str) -> (b: bool)
    ensures
        b == header_value_ok(v@),
{
    reqwest::header::HeaderValue::from_str(v).is_ok()
}

/// The headers of a request, as name and value: the API key (when one is
/// set and not empty) and the JSON content type. A key that cannot be a
/// header value is refused.
pub fn bot_request_headers(api_key: &Option<String>) -> (r: Result<Vec<(String, String)>, String>)
    ensures
        ({
            let keyed = api_key matches Some(k) && k@.len() > 0;
            &&& (keyed && !header_value_ok(api_key->0@)) ==> (r matches Err(e) && e@
                == "invalid MEETING_BOT_INTERNAL_KEY"@)
            &&& (keyed && header_value_ok(api_key->0@)) ==> (r matches Ok(h) && h@.len() == 2
                && h@[0].0@ == "X-API-Key"@ && h@[0].1@ == api_key->0@ && h@[1].0@
                == "content-type"@ && h@[1].1@ == "application/json"@)
            &&& !keyed ==> (r matches Ok(h) && h@.len() == 1 && h@[0].0@ == "content-type"@
                && h@[0].1@ == "application/json"@)
        }),
{
    let mut h: Vec<(String, String)> = Vec::new();
    match api_key {
        Some(k) => {
            if !k.as_str().is_empty() {
                if !header_value_accepted(k.as_str()) {
                    return Err(string_of(&chars_of("invalid MEETING_BOT_INTERNAL_KEY")));
                }
                h.push((string_of(&chars_of("X-API-Key")), string_of(&chars_of(k.as_str()))));
            }
        },
        None => {},
    }
    h.push((string_of(&chars_of("content-type")), string_of(&chars_of("application/json"))));
    Ok(h)
}

/// The path listing bots: `/bots`, with the query when there is one.
pub fn bots_list_path(query: &str) -> (r: String)
    ensures
        query@.len() == 0 ==> r@ == "/bots"@,
        query@.len() > 0 ==> r@ == "/bots?"@ + query@,
{
    if query.is_empty() {
        string_of(&chars_of("/bots"))
    } else {
        let mut out = chars_of("/bots?");
        extend_str(&mut out, query);
        string_of(&out)
    }
}

/// The path of one bot: `/bots/{id}`.
pub fn bot_path(id: &str) -> (r: String)
    ensures
        r@ == "/bots/"@ + id@,
{
    let mut out = chars_of("/bots/");
    extend_str(&mut out, id);
    string_of(&out)
}

/// The address of a request: the base followed by the path.
pub fn bot_url(base: &str, path: &str) -> (r: String)
    ensures
        r@ == base@ + path@,
{
    let mut out = chars_of(base);
    extend_str(&mut out, path);
    string_of(&out)
}

/// A reading request succeeds on a 2xx status.
pub fn bot_status_ok(status: u16) -> (b: bool)
    ensures
        b == (200 <= status < 300),
{
    200 <= status && status < 300
}

/// The value of a reply: `null` for an empty body, the parsed document when
/// it reads as JSON, else the body as a string.
pub fn bot_reply_value(body: String, parsed: Option<Json>) -> (r: Json)
    ensures
        body@.len() == 0 ==> r == Json::Null,
        body@.len() > 0 ==> match parsed {
            Some(j) => r == j,
            None => r matches Json::Str(s) && s@ == body@,
        },
{
    if body.as_str().is_empty() {
        Json::Null
    } else {
        match parsed {
            Some(j) => j,
            None => Json::Str(body),
        }
    }
}

} // verus!
