//! Where a meeting's recording is fetched from: the bot API's URLs, the
//! object-store URL of a recording key, the file name a download is saved
//! under, and the order in which the sources are tried.
use vstd::prelude::*;

use vstd::utf8::encode_utf8;

use crate::orchestrator::{filled, ov, MeetingEndedEvent, OrchestratorConfig};
use crate::text::{
    ascii_lower, chars_of, contains, eq_str, extend_chars, extend_str, hex2_upper, index_of,
    push_hex2, slice_chars, starts_with, string_of, to_ascii_lower, trim, trim_chars,
    strip_trailing, strip_trailing_exec,
};

verus! {

broadcast use vstd::string::group_string_axioms;

// ---------------------------------------------------------------------------
// Percent-encoding
// ---------------------------------------------------------------------------

/// Bytes left as they are: ASCII letters, digits and `-_.~`.
pub open spec fn is_unreserved(b: u8) -> bool {
    (0x41 <= b <= 0x5A) || (0x61 <= b <= 0x7A) || (0x30 <= b <= 0x39) || b == 0x2D || b == 0x5F
        || b == 0x2E || b == 0x7E
}

/// Percent-encoding of bytes: unreserved bytes as characters, any other as
/// `%XX` in upper-case hexadecimal.
pub open spec fn percent_encode(bs: Seq<u8>) -> Seq<char>
    decreases bs.len(),
{
    if bs.len() == 0 {
        Seq::empty()
    } else {
        let prev = percent_encode(bs.drop_last());
        let b = bs.last();
        if is_unreserved(b) {
            prev.push((b as u32) as char)
        } else {
            prev + seq!['%'] + hex2_upper(b)
        }
    }
}

/// Minimal escaping of a path segment or query value: the UTF-8 bytes of `s`,
/// percent-encoded.
pub fn urlencoding_lite(s: &str) -> (r: String)
    ensures
        r@ == percent_encode(encode_utf8(s@)),
{
    let bytes = s.as_bytes();
    let mut out: Vec<char> = Vec::new();
    let mut i: usize = 0;
    while i < bytes.len()
        invariant
            i <= bytes@.len(),
            out@ == percent_encode(bytes@.take(i as int)),
        decreases bytes.len() - i,
    {
        let b = bytes[i];
        assert(bytes@.take(i + 1).drop_last() =~= bytes@.take(i as int));
        assert(bytes@.take(i + 1).last() == b);
        if (0x41 <= b && b <= 0x5A) || (0x61 <= b && b <= 0x7A) || (0x30 <= b && b <= 0x39) || b
            == 0x2D || b == 0x5F || b == 0x2E || b == 0x7E {
            out.push(b as char);
        } else {
            out.push('%');
            push_hex2(&mut out, b, true);
        }
        i += 1;
    }
    assert(bytes@.take(bytes@.len() as int) =~= bytes@);
    string_of(&out)
}

// ---------------------------------------------------------------------------
// File names
// ---------------------------------------------------------------------------

/// `s` up to the first `c` (all of it when there is none).
pub open spec fn before_first(s: Seq<char>, c: char) -> Seq<char> {
    match index_of(s, c) {
        Some(k) => s.take(k),
        None => s,
    }
}

/// `s` after its last `c` (all of it when there is none).
pub open spec fn after_last(s: Seq<char>, c: char) -> Seq<char>
    decreases s.len(),
{
    if s.len() == 0 {
        s
    } else if s.last() == c {
        Seq::empty()
    } else {
        after_last(s.drop_last(), c).push(s.last())
    }
}

/// The file name at the end of a URL's path, when it has an extension dot.
pub open spec fn filename_from_url_spec(url: Seq<char>) -> Option<Seq<char>> {
    let name = after_last(before_first(url, '?'), '/');
    if name.len() == 0 || !name.contains('.') {
        None
    } else {
        Some(name)
    }
}

fn before_first_exec(v: &[char], c: char) -> (r: Vec<char>)
    ensures
        r@ == before_first(v@, c),
{
    match crate::text::find_char(v, c) {
        Some(k) => slice_chars(v, 0, k),
        None => slice_chars(v, 0, v.len()),
    }
}

fn after_last_exec(v: &[char], c: char) -> (r: Vec<char>)
    ensures
        r@ == after_last(v@, c),
{
    let mut start = v.len();
    assert(v@.take(v@.len() as int) =~= v@);
    assert(v@.skip(v@.len() as int) =~= Seq::<char>::empty());
    assert(v@ + Seq::<char>::empty() =~= v@);
    while start > 0 && v[start - 1] != c
        invariant
            start <= v@.len(),
            after_last(v@, c) == after_last(v@.take(start as int), c) + v@.skip(start as int),
        decreases start,
    {
        assert(v@.take(start as int).drop_last() =~= v@.take(start - 1));
        assert(v@.skip(start - 1) =~= seq![v@[start - 1]] + v@.skip(start as int));
        assert(after_last(v@.take(start as int), c) == after_last(v@.take(start - 1), c).push(
            v@[start - 1],
        ));
        start -= 1;
    }
    if start > 0 {
        assert(v@.take(start as int).last() == c);
    }
    assert(v@.take(0) =~= Seq::<char>::empty());
    let r = slice_chars(v, start, v.len());
    assert(r@ =~= v@.skip(start as int));
    r
}

/// The file name a URL ends in: the last `/` segment of the part before any
/// `?`, when it is not empty and has a `.`.
pub fn filename_from_url(url: &str) -> (r: Option<String>)
    ensures
        match filename_from_url_spec(url@) {
            Some(n) => r matches Some(s) && s@ == n,
            None => r is None,
        },
{
    let v = chars_of(url);
    let path = before_first_exec(&v, '?');
    let name = after_last_exec(&path, '/');
    if name.len() == 0 {
        return None;
    }
    match crate::text::find_char(&name, '.') {
        Some(k) => {
            assert(name@.contains('.')) by {
                assert(name@[k as int] == '.');
            }
            Some(string_of(&name))
        },
        None => {
            proof {
                if name@.contains('.') {
                    let w = choose|w: int| 0 <= w < name@.len() && name@[w] == '.';
                    crate::text::lemma_index_of_none(name@, '.', w);
                }
            }
            None
        },
    }
}

/// The recording file extension a content type names.
pub open spec fn content_type_ext(ct: Seq<char>) -> Option<Seq<char>> {
    if ct == "audio/wav"@ || ct == "audio/x-wav"@ || ct == "audio/wave"@ {
        Some("wav"@)
    } else if ct == "audio/mpeg"@ || ct == "audio/mp3"@ {
        Some("mp3"@)
    } else if ct == "audio/mp4"@ || ct == "audio/m4a"@ || ct == "audio/x-m4a"@ {
        Some("m4a"@)
    } else if ct == "audio/webm"@ || ct == "video/webm"@ {
        Some("webm"@)
    } else if ct == "audio/ogg"@ {
        Some("ogg"@)
    } else if ct == "video/mp4"@ {
        Some("mp4"@)
    } else {
        None
    }
}

/// The file name a content type suggests: `recording.<ext>` for the audio and
/// video types the importer knows, by the media type before any parameters,
/// trimmed and lower-cased.
pub open spec fn filename_from_content_type(ct: Seq<char>) -> Option<Seq<char>> {
    match content_type_ext(ascii_lower(trim(before_first(ct, ';')))) {
        Some(ext) => Some("recording."@ + ext),
        None => None,
    }
}

pub fn extension_from_content_type(ct: &str) -> (r: Option<String>)
    ensures
        match filename_from_content_type(ct@) {
            Some(n) => r matches Some(s) && s@ == n,
            None => r is None,
        },
{
    let v = chars_of(ct);
    let head = before_first_exec(&v, ';');
    let t = to_ascii_lower(&trim_chars(&head));
    let ext = if eq_str(&t, "audio/wav") || eq_str(&t, "audio/x-wav") || eq_str(&t, "audio/wave") {
        "wav"
    } else if eq_str(&t, "audio/mpeg") || eq_str(&t, "audio/mp3") {
        "mp3"
    } else if eq_str(&t, "audio/mp4") || eq_str(&t, "audio/m4a") || eq_str(&t, "audio/x-m4a") {
        "m4a"
    } else if eq_str(&t, "audio/webm") || eq_str(&t, "video/webm") {
        "webm"
    } else if eq_str(&t, "audio/ogg") {
        "ogg"
    } else if eq_str(&t, "video/mp4") {
        "mp4"
    } else {
        return None;
    };
    let mut out = chars_of("recording.");
    extend_str(&mut out, ext);
    Some(string_of(&out))
}

/// The file name a download is saved under: the caller's hint, else the
/// URL's file name, else one from the content type, else `recording.webm`.
pub open spec fn recording_filename_spec(
    hint: Option<Seq<char>>,
    url: Seq<char>,
    ct: Seq<char>,
) -> Seq<char> {
    match hint {
        Some(h) => h,
        None => match filename_from_url_spec(url) {
            Some(n) => n,
            None => match filename_from_content_type(ct) {
                Some(n) => n,
                None => "recording.webm"@,
            },
        },
    }
}

pub fn recording_filename(hint: Option<&str>, url: &str, content_type: &str) -> (r: String)
    ensures
        r@ == recording_filename_spec(
            match hint {
                Some(h) => Some(h@),
                None => None,
            },
            url@,
            content_type@,
        ),
{
    match hint {
        Some(h) => string_of(&chars_of(h)),
        None => match filename_from_url(url) {
            Some(n) => n,
            None => match extension_from_content_type(content_type) {
                Some(n) => n,
                None => string_of(&chars_of("recording.webm")),
            },
        },
    }
}

// ---------------------------------------------------------------------------
// URLs
// ---------------------------------------------------------------------------

/// `s` without any number of leading copies of `p` (`trim_start_matches`).
pub open spec fn strip_leading(s: Seq<char>, p: Seq<char>) -> Seq<char>
    decreases s.len(),
{
    if p.len() > 0 && starts_with(s, p) {
        strip_leading(s.skip(p.len() as int), p)
    } else {
        s
    }
}

fn strip_leading_exec(v: &[char], p: &str) -> (r: Vec<char>)
    ensures
        r@ == strip_leading(v@, p@),
{
    let pv = chars_of(p);
    let mut start: usize = 0;
    assert(v@.skip(0) =~= v@);
    loop
        invariant
            start <= v@.len(),
            pv@ == p@,
            strip_leading(v@, p@) == strip_leading(v@.skip(start as int), p@),
        decreases v.len() - start,
    {
        let ghost rest = v@.skip(start as int);
        let at = crate::text::occurs_at_exec(v, &pv, start);
        proof {
            if start + pv@.len() <= v@.len() {
                assert(rest.take(pv@.len() as int) =~= v@.subrange(
                    start as int,
                    start + pv@.len(),
                ));
            }
        }
        if pv.len() == 0 || !at {
            let r = slice_chars(v, start, v.len());
            assert(r@ =~= rest);
            return r;
        }
        assert(rest.skip(pv@.len() as int) =~= v@.skip(start + pv@.len()));
        start = start + pv.len();
    }
}

/// The object-store URL of a recording key: scheme by the secure switch, the
/// endpoint without scheme prefixes and trailing slashes, the bucket, and the
/// key without leading slashes.
pub open spec fn minio_url_spec(endpoint: Seq<char>, bucket: Seq<char>, secure: bool, key: Seq<char>) -> Seq<char> {
    (if secure {
        "https"@
    } else {
        "http"@
    }) + "://"@ + strip_trailing(strip_leading(strip_leading(endpoint, "https://"@), "http://"@), '/')
        + "/"@ + bucket + "/"@ + strip_leading(key, "/"@)
}

/// The object-store URL of `key`, when an endpoint and a bucket are configured.
pub fn minio_object_url(config: &OrchestratorConfig, key: &str) -> (r: Option<String>)
    ensures
        match (config.minio_endpoint, config.minio_bucket) {
            (Some(e), Some(b)) => r matches Some(u) && u@ == minio_url_spec(
                e@,
                b@,
                config.minio_secure,
                key@,
            ),
            _ => r is None,
        },
{
    let endpoint = match &config.minio_endpoint {
        Some(e) => e,
        None => return None,
    };
    let bucket = match &config.minio_bucket {
        Some(b) => b,
        None => return None,
    };
    let mut out: Vec<char> = Vec::new();
    if config.minio_secure {
        extend_str(&mut out, "https");
    } else {
        extend_str(&mut out, "http");
    }
    extend_str(&mut out, "://");
    let e1 = strip_leading_exec(&chars_of(endpoint.as_str()), "https://");
    let e2 = strip_leading_exec(&e1, "http://");
    let e4 = strip_trailing_exec(&e2, '/');
    extend_chars(&mut out, &e4);
    extend_str(&mut out, "/");
    extend_str(&mut out, bucket.as_str());
    extend_str(&mut out, "/");
    let k = strip_leading_exec(&chars_of(key), "/");
    extend_chars(&mut out, &k);
    Some(string_of(&out))
}

/// The bot API query listing a meeting's recordings.
pub open spec fn recordings_query_url_spec(base: Seq<char>, platform: Seq<char>, native: Seq<char>) -> Seq<char> {
    strip_trailing(base, '/') + "/recordings?platform="@ + percent_encode(encode_utf8(platform))
        + "&native_meeting_id="@ + percent_encode(encode_utf8(native))
}

/// The bot API path of a meeting's recording.
pub open spec fn recording_path_url_spec(base: Seq<char>, platform: Seq<char>, native: Seq<char>) -> Seq<char> {
    strip_trailing(base, '/') + "/recordings/"@ + percent_encode(encode_utf8(platform)) + "/"@
        + percent_encode(encode_utf8(native))
}

pub fn recordings_query_url(base: &str, platform: &str, native: &str) -> (r: String)
    ensures
        r@ == recordings_query_url_spec(base@, platform@, native@),
{
    let mut out = strip_trailing_exec(&chars_of(base), '/');
    extend_str(&mut out, "/recordings?platform=");
    extend_str(&mut out, urlencoding_lite(platform).as_str());
    extend_str(&mut out, "&native_meeting_id=");
    extend_str(&mut out, urlencoding_lite(native).as_str());
    string_of(&out)
}

pub fn recording_path_url(base: &str, platform: &str, native: &str) -> (r: String)
    ensures
        r@ == recording_path_url_spec(base@, platform@, native@),
{
    let mut out = strip_trailing_exec(&chars_of(base), '/');
    extend_str(&mut out, "/recordings/");
    extend_str(&mut out, urlencoding_lite(platform).as_str());
    extend_str(&mut out, "/");
    extend_str(&mut out, urlencoding_lite(native).as_str());
    string_of(&out)
}

// ---------------------------------------------------------------------------
// Where to download from
// ---------------------------------------------------------------------------

/// A place a recording is tried from, in the order the downloader tries them.
#[derive(Debug, Clone)]
pub enum RecordingSource {
    /// The event's own URL; if it fails, the download fails.
    Direct(String),
    /// The bot API's recording listing; an unreachable or URL-less listing
    /// moves on to the next source, a listed URL that fails ends the download.
    Listing(String),
    /// The bot API's recording path; if it fails, the next source is tried.
    ApiPath(String),
    /// The object store's URL of the recording key; if it fails, the download
    /// fails.
    ObjectStore(String),
}

/// Whether the bot API can be asked for the event's recording.
pub open spec fn api_usable(e: MeetingEndedEvent, c: OrchestratorConfig) -> bool {
    c.vexa_api_base is Some && e.platform is Some && e.native_meeting_id is Some
}

/// Whether the object store can serve the event's recording key.
pub open spec fn object_usable(e: MeetingEndedEvent, c: OrchestratorConfig) -> bool {
    e.recording_key is Some && c.minio_endpoint is Some && c.minio_bucket is Some
}

/// The sources to try for an event's recording, in order: its own URL alone
/// when it has one; else the bot API's listing and path when the API and the
/// meeting's platform ids are known, then the object store when a key and a
/// store are. No source means the recording cannot be resolved.
pub fn recording_sources(event: &MeetingEndedEvent, config: &OrchestratorConfig) -> (r: Vec<
    RecordingSource,
>)
    ensures
        filled(event.recording_url) ==> r@.len() == 1 && (r@[0] matches RecordingSource::Direct(u)
            && u@ == event.recording_url.unwrap()@),
        !filled(event.recording_url) ==> {
            let api = api_usable(*event, *config);
            let obj = object_usable(*event, *config);
            &&& r@.len() == (if api { 2int } else { 0int }) + (if obj { 1int } else { 0int })
            &&& api ==> (r@[0] matches RecordingSource::Listing(u) && u@ == recordings_query_url_spec(
                config.vexa_api_base.unwrap()@,
                event.platform.unwrap()@,
                event.native_meeting_id.unwrap()@,
            ))
            &&& api ==> (r@[1] matches RecordingSource::ApiPath(u) && u@ == recording_path_url_spec(
                config.vexa_api_base.unwrap()@,
                event.platform.unwrap()@,
                event.native_meeting_id.unwrap()@,
            ))
            &&& obj ==> (r@.last() matches RecordingSource::ObjectStore(u) && u@ == minio_url_spec(
                config.minio_endpoint.unwrap()@,
                config.minio_bucket.unwrap()@,
                config.minio_secure,
                event.recording_key.unwrap()@,
            ))
        },
{
    let mut out: Vec<RecordingSource> = Vec::new();
    match &event.recording_url {
        Some(u) => {
            if !u.as_str().is_empty() {
                out.push(RecordingSource::Direct(string_of(&chars_of(u.as_str()))));
                return out;
            }
        },
        None => {},
    }
    match (&config.vexa_api_base, &event.platform, &event.native_meeting_id) {
        (Some(base), Some(platform), Some(native)) => {
            out.push(
                RecordingSource::Listing(
                    recordings_query_url(base.as_str(), platform.as_str(), native.as_str()),
                ),
            );
            out.push(
                RecordingSource::ApiPath(
                    recording_path_url(base.as_str(), platform.as_str(), native.as_str()),
                ),
            );
        },
        _ => {},
    }
    match &event.recording_key {
        Some(key) => match minio_object_url(config, key.as_str()) {
            Some(url) => out.push(RecordingSource::ObjectStore(url)),
            None => {},
        },
        None => {},
    }
    out
}

} // verus!
