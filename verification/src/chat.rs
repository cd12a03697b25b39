//! Framing of OpenAI-compatible chat completion response bodies: telling a
//! server-sent event stream from a single JSON document, cutting the stream
//! into its data payloads, and the short previews used in error messages.
use vstd::prelude::*;

use crate::text::{
    chars_of, contains, contains_str, eq_str, extend_chars, extend_str, lines, skip_ws,
    split_lines, starts_with, starts_with_str, string_of, sviews, to_ascii_lower, ascii_lower,
    trim, trim_chars, trim_start, vviews,
};

verus! {

broadcast use vstd::string::group_string_axioms;

/// How many characters of a body an error message quotes.
pub const PREVIEW_CHARS: usize = 300;

/// The preview of a body: its first characters, with an ellipsis when some
/// were cut.
pub open spec fn preview_text(body: Seq<char>) -> Seq<char> {
    if body.len() > PREVIEW_CHARS {
        body.take(PREVIEW_CHARS as int) + seq!['…']
    } else {
        body
    }
}

/// The first 300 characters of `body`, followed by `…` when it is longer.
pub fn preview_body(body: &str) -> (r: String)
    ensures
        r@ == preview_text(body@),
{
    let chars = chars_of(body);
    if chars.len() > PREVIEW_CHARS {
        let mut out: Vec<char> = Vec::new();
        let mut i: usize = 0;
        while i < PREVIEW_CHARS
            invariant
                i <= PREVIEW_CHARS,
                PREVIEW_CHARS < chars@.len(),
                out@ == chars@.take(i as int),
            decreases PREVIEW_CHARS - i,
        {
            out.push(chars[i]);
            i += 1;
            assert(chars@.take(i as int) =~= chars@.take(i - 1).push(chars@[i - 1]));
        }
        out.push('…');
        string_of(&out)
    } else {
        string_of(&chars)
    }
}

// ---------------------------------------------------------------------------
// Stream detection
// ---------------------------------------------------------------------------

/// Whether a line, its leading whitespace skipped, is an SSE `data:` line.
pub open spec fn is_data_line(line: Seq<char>) -> bool {
    starts_with(trim_start(line), "data:"@)
}

/// Whether a body is read as a server-sent event stream: the content type
/// names `text/event-stream` (in any case), or a line of the trimmed body is a
/// `data:` line.
pub open spec fn looks_like_sse_spec(body: Seq<char>, content_type: Seq<char>) -> bool {
    contains(ascii_lower(content_type), "text/event-stream"@) || exists|i: int|
        0 <= i < lines(trim(body)).len() && #[trigger] is_data_line(lines(trim(body))[i])
}

fn is_data_line_exec(line: &Vec<char>) -> (b: bool)
    ensures
        b == is_data_line(line@),
{
    let start = skip_ws(line, 0);
    assert(line@.skip(0) =~= line@);
    let rest = crate::text::slice_chars(line, start, line.len());
    assert(rest@ =~= line@.skip(start as int));
    starts_with_str(&rest, "data:")
}

/// Whether a chat completion body is a server-sent event stream.
pub fn looks_like_sse(body: &str, content_type: &str) -> (b: bool)
    ensures
        b == looks_like_sse_spec(body@, content_type@),
{
    let ct = chars_of(content_type);
    let lowered = to_ascii_lower(&ct);
    if contains_str(&lowered, "text/event-stream") {
        return true;
    }
    let trimmed = crate::text::trim_str(body);
    let ls = split_lines(&trimmed);
    let ghost lv = vviews(ls@);
    let mut i: usize = 0;
    while i < ls.len()
        invariant
            i <= ls@.len(),
            lv == vviews(ls@),
            lv == lines(trim(body@)),
            forall|j: int| 0 <= j < i ==> !is_data_line(#[trigger] lv[j]),
        decreases ls.len() - i,
    {
        if is_data_line_exec(&ls[i]) {
            assert(is_data_line(lv[i as int]));
            return true;
        }
        i += 1;
    }
    false
}

// ---------------------------------------------------------------------------
// Data payloads of a stream
// ---------------------------------------------------------------------------

/// The data of one stream line: for a trimmed line starting with `data:`, the
/// rest without its leading whitespace.
pub open spec fn sse_data(raw: Seq<char>) -> Option<Seq<char>> {
    let line = trim(raw);
    if line.len() == 0 || line[0] == ':' || !starts_with(line, "data:"@) {
        None
    } else {
        Some(trim_start(line.skip(5)))
    }
}

/// The payloads of the stream lines read so far, and whether `[DONE]` ended
/// the stream.
pub open spec fn sse_scan(ls: Seq<Seq<char>>) -> (Seq<Seq<char>>, bool)
    decreases ls.len(),
{
    if ls.len() == 0 {
        (Seq::empty(), false)
    } else {
        let (payloads, stopped) = sse_scan(ls.drop_last());
        if stopped {
            (payloads, true)
        } else {
            match sse_data(ls.last()) {
                Some(d) => if d == "[DONE]"@ {
                    (payloads, true)
                } else if d.len() == 0 {
                    (payloads, false)
                } else {
                    (payloads.push(d), false)
                },
                None => (payloads, false),
            }
        }
    }
}

/// The data payloads of a stream, in order, up to `[DONE]`.
pub open spec fn sse_payloads(body: Seq<char>) -> Seq<Seq<char>> {
    sse_scan(lines(body)).0
}

fn sse_data_exec(raw: &Vec<char>) -> (r: Option<Vec<char>>)
    ensures
        r matches Some(d) ==> sse_data(raw@) == Some(d@),
        r is None ==> sse_data(raw@) is None,
{
    let line = trim_chars(raw);
    if line.len() == 0 || line[0] == ':' || !starts_with_str(&line, "data:") {
        return None;
    }
    proof {
        reveal_strlit("data:");
    }
    let start = skip_ws(&line, 5);
    let d = crate::text::slice_chars(&line, start, line.len());
    assert(d@ =~= line@.skip(start as int));
    Some(d)
}

/// Cuts an OpenAI-style event stream into the data payloads of its `data:`
/// lines, in order, stopping at `data: [DONE]`; comment lines, other lines and
/// empty data are skipped.
pub fn sse_data_payloads(body: &str) -> (r: Vec<String>)
    ensures
        sviews(r@) == sse_payloads(body@),
{
    let chars = chars_of(body);
    let ls = split_lines(&chars);
    let ghost lv = vviews(ls@);
    let mut out: Vec<String> = Vec::new();
    let mut i: usize = 0;
    assert(sviews(out@) =~= Seq::<Seq<char>>::empty());
    while i < ls.len()
        invariant
            i <= ls@.len(),
            lv == vviews(ls@),
            lv == lines(body@),
            sse_scan(lv.take(i as int)) == (sviews(out@), false),
        decreases ls.len() - i,
    {
        assert(lv.take(i + 1).drop_last() =~= lv.take(i as int));
        assert(lv.take(i + 1).last() == ls@[i as int]@);
        let ghost o0 = sviews(out@);
        match sse_data_exec(&ls[i]) {
            Some(d) => {
                if eq_str(&d, "[DONE]") {
                    proof {
                        lemma_sse_scan_stays_stopped(lv, i as int + 1);
                    }
                    assert(lv.take(lv.len() as int) =~= lv);
                    return out;
                }
                if d.len() > 0 {
                    out.push(string_of(&d));
                    assert(sviews(out@) =~= o0.push(d@));
                }
            },
            None => {},
        }
        i += 1;
    }
    assert(lv.take(ls@.len() as int) =~= lv);
    out
}

proof fn lemma_sse_scan_stays_stopped(ls: Seq<Seq<char>>, k: int)
    requires
        0 <= k <= ls.len(),
        sse_scan(ls.take(k)).1,
    ensures
        sse_scan(ls) == sse_scan(ls.take(k)),
    decreases ls.len() - k,
{
    if k < ls.len() {
        assert(ls.take(k + 1).drop_last() =~= ls.take(k));
        lemma_sse_scan_stays_stopped(ls, k + 1);
    } else {
        assert(ls.take(k) =~= ls);
    }
}

// ---------------------------------------------------------------------------
// Outcome of a response body
// ---------------------------------------------------------------------------

/// Why a chat completion body gave no content. The previews quote the
/// trimmed body.
#[derive(Debug, Clone)]
pub enum ChatBodyError {
    /// The body was blank.
    Empty,
    /// An event stream whose data held no content.
    EmptyStream { preview: String },
    /// A body that is not a stream and not a chat completion document.
    InvalidJson { preview: String },
    /// A chat completion document without a non-empty first choice.
    NoContent { preview: String },
}

/// The message of each error.
pub open spec fn chat_error_text(e: ChatBodyError) -> Seq<char> {
    match e {
        ChatBodyError::Empty => "chat completion response body was empty"@,
        ChatBodyError::EmptyStream { preview } => "SSE chat completion produced empty content (body preview: "@
            + preview@ + ")"@,
        ChatBodyError::InvalidJson { preview } => "invalid non-stream chat completion JSON (body preview: "@
            + preview@ + ")"@,
        ChatBodyError::NoContent { preview } => "chat completion response contained no content (body preview: "@
            + preview@ + ")"@,
    }
}

impl ChatBodyError {
    /// The error message.
    pub fn message(&self) -> (r: String)
        ensures
            r@ == chat_error_text(*self),
    {
        let mut out: Vec<char> = Vec::new();
        match self {
            ChatBodyError::Empty => {
                extend_str(&mut out, "chat completion response body was empty");
            },
            ChatBodyError::EmptyStream { preview } => {
                extend_str(&mut out, "SSE chat completion produced empty content (body preview: ");
                extend_str(&mut out, preview.as_str());
                extend_str(&mut out, ")");
            },
            ChatBodyError::InvalidJson { preview } => {
                extend_str(&mut out, "invalid non-stream chat completion JSON (body preview: ");
                extend_str(&mut out, preview.as_str());
                extend_str(&mut out, ")");
            },
            ChatBodyError::NoContent { preview } => {
                extend_str(
                    &mut out,
                    "chat completion response contained no content (body preview: ",
                );
                extend_str(&mut out, preview.as_str());
                extend_str(&mut out, ")");
            },
        }
        string_of(&out)
    }
}

/// A non-blank body, framed: the payloads of an event stream, or the trimmed
/// JSON document.
#[derive(Debug, Clone)]
pub enum ChatBody {
    Stream { payloads: Vec<String>, trimmed: String },
    Json { trimmed: String },
}

/// How `frame_chat_body` frames a body.
pub open spec fn framed_as(body: Seq<char>, content_type: Seq<char>, r: Result<ChatBody, ChatBodyError>) -> bool {
    if trim(body).len() == 0 {
        r == Err::<ChatBody, ChatBodyError>(ChatBodyError::Empty)
    } else if looks_like_sse_spec(body, content_type) {
        r matches Ok(ChatBody::Stream { payloads, trimmed }) && trimmed@ == trim(body)
            && sviews(payloads@) == sse_payloads(trim(body))
    } else {
        r matches Ok(ChatBody::Json { trimmed }) && trimmed@ == trim(body)
    }
}

/// Frames a chat completion body: blank bodies are refused, event streams are
/// cut into their data payloads, anything else is a JSON document to decode.
pub fn frame_chat_body(body: &str, content_type: &str) -> (r: Result<ChatBody, ChatBodyError>)
    ensures
        framed_as(body@, content_type@, r),
{
    let t = crate::text::trim_str(body);
    if t.len() == 0 {
        return Err(ChatBodyError::Empty);
    }
    let trimmed = string_of(&t);
    if looks_like_sse(body, content_type) {
        let payloads = sse_data_payloads(trimmed.as_str());
        Ok(ChatBody::Stream { payloads, trimmed })
    } else {
        Ok(ChatBody::Json { trimmed })
    }
}

/// The content of an event stream: the concatenated delta pieces, refused
/// when empty.
pub fn stream_content(pieces: &[String], trimmed: &str) -> (r: Result<String, ChatBodyError>)
    ensures
        ({
            let all = sviews(pieces@).flatten();
            &&& all.len() > 0 ==> (r matches Ok(c) && c@ == all)
            &&& all.len() == 0 ==> (r matches Err(ChatBodyError::EmptyStream { preview }) && preview@
                == preview_text(trimmed@))
        }),
{
    broadcast use Seq::lemma_flatten_push;

    let ghost pv = sviews(pieces@);
    let mut out: Vec<char> = Vec::new();
    let mut i: usize = 0;
    assert(pv.take(0).flatten() =~= Seq::<char>::empty());
    while i < pieces.len()
        invariant
            i <= pieces@.len(),
            pv == sviews(pieces@),
            out@ == pv.take(i as int).flatten(),
        decreases pieces.len() - i,
    {
        assert(pv.take(i + 1) =~= pv.take(i as int).push(pieces@[i as int]@));
        extend_str(&mut out, pieces[i].as_str());
        proof {
            pv.take(i as int).lemma_flatten_push(pieces@[i as int]@);
        }
        i += 1;
    }
    assert(pv.take(pieces@.len() as int) =~= pv);
    if out.len() == 0 {
        Err(ChatBodyError::EmptyStream { preview: preview_body(trimmed) })
    } else {
        Ok(string_of(&out))
    }
}

/// The content of a JSON chat completion, given what decoding it gave:
/// `None` when it was not a chat completion document, `Some(None)` when it
/// had no choice, `Some(Some(c))` for the first choice's message content.
pub fn json_content(decoded: Option<Option<String>>, trimmed: &str) -> (r: Result<
    String,
    ChatBodyError,
>)
    ensures
        decoded is None ==> (r matches Err(ChatBodyError::InvalidJson { preview }) && preview@
            == preview_text(trimmed@)),
        decoded matches Some(Some(c)) ==> (c@.len() > 0 ==> (r matches Ok(out) && out@ == c@)),
        decoded matches Some(Some(c)) ==> (c@.len() == 0 ==> (r matches Err(
            ChatBodyError::NoContent { preview },
        ) && preview@ == preview_text(trimmed@))),
        decoded matches Some(None) ==> (r matches Err(ChatBodyError::NoContent { preview })
            && preview@ == preview_text(trimmed@)),
{
    match decoded {
        None => Err(ChatBodyError::InvalidJson { preview: preview_body(trimmed) }),
        Some(Some(c)) => {
            if !c.as_str().is_empty() {
                Ok(c)
            } else {
                Err(ChatBodyError::NoContent { preview: preview_body(trimmed) })
            }
        },
        Some(None) => Err(ChatBodyError::NoContent { preview: preview_body(trimmed) }),
    }
}

} // verus!
