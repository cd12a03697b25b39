//! Reading the bot platform's loosely shaped JSON: meeting-ended webhooks and
//! recording listings, across the field names its versions use.
use vstd::prelude::*;

use crate::json::{as_str, get, json_get, member, Json};
use crate::orchestrator::{ov, MeetingEndedEvent};
use crate::text::{chars_of, string_of};

verus! {

broadcast use vstd::string::group_string_axioms;

// ---------------------------------------------------------------------------
// Webhooks
// ---------------------------------------------------------------------------

/// The first of `keys` whose member in `j` is a non-empty string, as that
/// string.
pub open spec fn first_str(j: Json, keys: Seq<Seq<char>>) -> Option<Seq<char>>
    decreases keys.len(),
{
    if keys.len() == 0 {
        None
    } else {
        match as_str(get(j, keys[0])) {
            Some(s) => if s.len() > 0 {
                Some(s)
            } else {
                first_str(j, keys.drop_first())
            },
            None => first_str(j, keys.drop_first()),
        }
    }
}

/// The objects a field may be nested in.
pub open spec fn nest_keys() -> Seq<Seq<char>> {
    seq!["meeting"@, "data"@, "payload"@, "recording"@]
}

/// The field found under the first nest, in order, that holds one.
pub open spec fn first_nested_str(j: Json, nests: Seq<Seq<char>>, keys: Seq<Seq<char>>) -> Option<
    Seq<char>,
>
    decreases nests.len(),
{
    if nests.len() == 0 {
        None
    } else {
        let here = match get(j, nests[0]) {
            Some(Json::Object(inner)) => first_str(Json::Object(inner), keys),
            _ => None,
        };
        match here {
            Some(s) => Some(s),
            None => first_nested_str(j, nests.drop_first(), keys),
        }
    }
}

/// A webhook field: the first of its names holding a non-empty string at the
/// top level, else inside the first nested object that has one; nothing when
/// the payload is not an object.
pub open spec fn webhook_field(j: Json, keys: Seq<Seq<char>>) -> Option<Seq<char>> {
    match j {
        Json::Object(_) => match first_str(j, keys) {
            Some(s) => Some(s),
            None => first_nested_str(j, nest_keys(), keys),
        },
        _ => None,
    }
}

/// The field as the object nested under `nest` holds it, if `nest` names an
/// object.
pub open spec fn nested_field(j: Json, nest: Seq<char>, keys: Seq<Seq<char>>) -> Option<Seq<char>> {
    match get(j, nest) {
        Some(Json::Object(inner)) => first_str(Json::Object(inner), keys),
        _ => None,
    }
}

/// Where a webhook field is read from: the top level first; a field missing
/// there is read from the first of the objects nested under `meeting`,
/// `data`, `payload` and `recording`, in that order, that holds it as a
/// non-empty string; nothing when none does.
pub proof fn law_webhook_field_lookup(j: Json, keys: Seq<Seq<char>>)
    requires
        j is Object,
    ensures
        first_str(j, keys) matches Some(s) ==> webhook_field(j, keys) == Some(s),
        first_str(j, keys) is None ==> {
            let m = nested_field(j, "meeting"@, keys);
            let d = nested_field(j, "data"@, keys);
            let p = nested_field(j, "payload"@, keys);
            let r = nested_field(j, "recording"@, keys);
            &&& m is Some ==> webhook_field(j, keys) == m
            &&& m is None && d is Some ==> webhook_field(j, keys) == d
            &&& m is None && d is None && p is Some ==> webhook_field(j, keys) == p
            &&& m is None && d is None && p is None ==> webhook_field(j, keys) == r
        },
{
    let n0 = nest_keys();
    let n1 = n0.drop_first();
    let n2 = n1.drop_first();
    let n3 = n2.drop_first();
    assert(n0[0] == "meeting"@);
    assert(n1 =~= seq!["data"@, "payload"@, "recording"@]);
    assert(n2 =~= seq!["payload"@, "recording"@]);
    assert(n3 =~= seq!["recording"@]);
    assert(n3.drop_first() =~= Seq::<Seq<char>>::empty());
    assert(first_nested_str(j, n3.drop_first(), keys) is None);
    assert(n1[0] == "data"@ && n2[0] == "payload"@ && n3[0] == "recording"@);
    assert(first_nested_str(j, n3, keys) == nested_field(j, "recording"@, keys));
    assert(first_nested_str(j, n2, keys) == match nested_field(j, "payload"@, keys) {
        Some(x) => Some(x),
        None => first_nested_str(j, n3, keys),
    });
    assert(first_nested_str(j, n1, keys) == match nested_field(j, "data"@, keys) {
        Some(x) => Some(x),
        None => first_nested_str(j, n2, keys),
    });
    assert(first_nested_str(j, n0, keys) == match nested_field(j, "meeting"@, keys) {
        Some(x) => Some(x),
        None => first_nested_str(j, n1, keys),
    });
}

fn first_str_exec(j: &Json, keys: &[&str]) -> (r: Option<String>)
    ensures
        ov(r) == first_str(*j, str_seq(keys@)),
{
    let ghost ks = str_seq(keys@);
    let mut i: usize = 0;
    assert(ks.skip(0) =~= ks);
    while i < keys.len()
        invariant
            i <= keys@.len(),
            ks == str_seq(keys@),
            first_str(*j, ks) == first_str(*j, ks.skip(i as int)),
        decreases keys.len() - i,
    {
        assert(ks.skip(i as int).drop_first() =~= ks.skip(i + 1));
        assert(ks.skip(i as int)[0] == keys@[i as int]@);
        match json_get(j, keys[i]) {
            Some(Json::Str(s)) => {
                if !s.as_str().is_empty() {
                    return Some(string_of(&chars_of(s.as_str())));
                }
            },
            _ => {},
        }
        i += 1;
    }
    None
}

/// The views of string literals.
pub open spec fn str_seq(v: Seq<&str>) -> Seq<Seq<char>> {
    Seq::new(v.len(), |i: int| v[i]@)
}

fn webhook_field_exec(j: &Json, keys: &[&str]) -> (r: Option<String>)
    ensures
        ov(r) == webhook_field(*j, str_seq(keys@)),
{
    match j {
        Json::Object(_) => {},
        _ => return None,
    }
    match first_str_exec(j, keys) {
        Some(s) => return Some(s),
        None => {},
    }
    let nests = vec!["meeting", "data", "payload", "recording"];
    let ghost ns = str_seq(nests@);
    assert(ns =~= nest_keys());
    let mut i: usize = 0;
    assert(ns.skip(0) =~= ns);
    while i < nests.len()
        invariant
            i <= nests@.len(),
            ns == str_seq(nests@),
            ns == nest_keys(),
            *j is Object,
            first_str(*j, str_seq(keys@)) is None,
            first_nested_str(*j, ns, str_seq(keys@)) == first_nested_str(
                *j,
                ns.skip(i as int),
                str_seq(keys@),
            ),
        decreases nests.len() - i,
    {
        assert(ns.skip(i as int).drop_first() =~= ns.skip(i + 1));
        assert(ns.skip(i as int)[0] == nests@[i as int]@);
        match json_get(j, nests[i]) {
            Some(inner) => {
                match inner {
                    Json::Object(entries) => {
                        match first_str_exec(inner, keys) {
                            Some(s) => {
                                assert(get(*j, ns.skip(i as int)[0]) == Some(Json::Object(*entries)));
                                assert(first_nested_str(*j, ns.skip(i as int), str_seq(keys@)) == Some(s@));
                                return Some(s);
                            },
                            None => {},
                        }
                    },
                    _ => {},
                }
            },
            None => {},
        }
        i += 1;
    }
    None
}

/// The field names each event field is read from.
pub open spec fn platform_keys() -> Seq<Seq<char>> {
    seq!["platform"@, "meeting_platform"@]
}

pub open spec fn native_id_keys() -> Seq<Seq<char>> {
    seq!["native_meeting_id"@, "nativeMeetingId"@, "meeting_code"@, "meetingCode"@]
}

pub open spec fn meeting_id_keys() -> Seq<Seq<char>> {
    seq!["meeting_id"@, "meetingId"@, "id"@]
}

pub open spec fn status_keys() -> Seq<Seq<char>> {
    seq!["status"@, "state"@, "completion_reason"@, "completionReason"@]
}

pub open spec fn recording_url_keys() -> Seq<Seq<char>> {
    seq![
        "recording_url"@,
        "recordingUrl"@,
        "download_url"@,
        "downloadUrl"@,
        "url"@,
        "audio_url"@,
        "audioUrl"@,
    ]
}

pub open spec fn recording_key_keys() -> Seq<Seq<char>> {
    seq!["recording_key"@, "recordingKey"@, "object_key"@, "objectKey"@, "s3_key"@, "key"@]
}

pub open spec fn title_keys() -> Seq<Seq<char>> {
    seq!["title"@, "meeting_title"@, "bot_name"@, "botName"@, "name"@]
}

pub open spec fn filename_keys() -> Seq<Seq<char>> {
    seq!["filename"@, "file_name"@, "fileName"@]
}

/// Reads a meeting-ended event from a webhook payload, accepting the field
/// names the bot platform's versions use, at the top level or nested.
pub fn parse_vexa_webhook(value: &Json) -> (e: MeetingEndedEvent)
    ensures
        ov(e.platform) == webhook_field(*value, platform_keys()),
        ov(e.native_meeting_id) == webhook_field(*value, native_id_keys()),
        ov(e.meeting_id) == webhook_field(*value, meeting_id_keys()),
        ov(e.status) == webhook_field(*value, status_keys()),
        ov(e.recording_url) == webhook_field(*value, recording_url_keys()),
        ov(e.recording_key) == webhook_field(*value, recording_key_keys()),
        ov(e.title) == webhook_field(*value, title_keys()),
        ov(e.filename) == webhook_field(*value, filename_keys()),
{
    let k1 = vec!["platform", "meeting_platform"];
    assert(str_seq(k1@) =~= platform_keys());
    let k2 = vec!["native_meeting_id", "nativeMeetingId", "meeting_code", "meetingCode"];
    assert(str_seq(k2@) =~= native_id_keys());
    let k3 = vec!["meeting_id", "meetingId", "id"];
    assert(str_seq(k3@) =~= meeting_id_keys());
    let k4 = vec!["status", "state", "completion_reason", "completionReason"];
    assert(str_seq(k4@) =~= status_keys());
    let k5 = vec![
        "recording_url",
        "recordingUrl",
        "download_url",
        "downloadUrl",
        "url",
        "audio_url",
        "audioUrl",
    ];
    assert(str_seq(k5@) =~= recording_url_keys());
    let k6 = vec!["recording_key", "recordingKey", "object_key", "objectKey", "s3_key", "key"];
    assert(str_seq(k6@) =~= recording_key_keys());
    let k7 = vec!["title", "meeting_title", "bot_name", "botName", "name"];
    assert(str_seq(k7@) =~= title_keys());
    let k8 = vec!["filename", "file_name", "fileName"];
    assert(str_seq(k8@) =~= filename_keys());
    MeetingEndedEvent {
        platform: webhook_field_exec(value, k1.as_slice()),
        native_meeting_id: webhook_field_exec(value, k2.as_slice()),
        meeting_id: webhook_field_exec(value, k3.as_slice()),
        status: webhook_field_exec(value, k4.as_slice()),
        recording_url: webhook_field_exec(value, k5.as_slice()),
        recording_key: webhook_field_exec(value, k6.as_slice()),
        title: webhook_field_exec(value, k7.as_slice()),
        filename: webhook_field_exec(value, k8.as_slice()),
    }
}

// ---------------------------------------------------------------------------
// Recording listings
// ---------------------------------------------------------------------------

/// The URL an item names: its first present member among `url`,
/// `download_url`, `recording_url`, when that member is a string.
pub open spec fn item_url(item: Json) -> Option<Seq<char>> {
    match get(item, "url"@) {
        Some(v) => as_str(Some(v)),
        None => match get(item, "download_url"@) {
            Some(v) => as_str(Some(v)),
            None => as_str(get(item, "recording_url"@)),
        },
    }
}

/// The URL of the first item that names one.
pub open spec fn first_item_url(items: Seq<Json>) -> Option<Seq<char>>
    decreases items.len(),
{
    if items.len() == 0 {
        None
    } else {
        match item_url(items[0]) {
            Some(u) => Some(u),
            None => first_item_url(items.drop_first()),
        }
    }
}

/// The URL found in the list under the first of the list keys, in order,
/// whose list names one.
pub open spec fn first_listed_url(body: Json, keys: Seq<Seq<char>>) -> Option<Seq<char>>
    decreases keys.len(),
{
    if keys.len() == 0 {
        None
    } else {
        let here = match get(body, keys[0]) {
            Some(Json::Array(items)) => first_item_url(items@),
            _ => None,
        };
        match here {
            Some(u) => Some(u),
            None => first_listed_url(body, keys.drop_first()),
        }
    }
}

pub open spec fn list_keys() -> Seq<Seq<char>> {
    seq!["recordings"@, "items"@, "data"@, "results"@]
}

/// The recording URL of a listing: from a top-level array, else from the
/// list under `recordings`, `items`, `data` or `results`, else from the body
/// itself.
pub open spec fn extract_recording_url_spec(body: Json) -> Option<Seq<char>> {
    let top = match body {
        Json::Array(items) => first_item_url(items@),
        _ => None,
    };
    match top {
        Some(u) => Some(u),
        None => match first_listed_url(body, list_keys()) {
            Some(u) => Some(u),
            None => item_url(body),
        },
    }
}

fn as_str_exec(j: Option<&Json>) -> (r: Option<String>)
    ensures
        ov(r) == as_str(
            match j {
                Some(x) => Some(*x),
                None => None,
            },
        ),
{
    match j {
        Some(Json::Str(s)) => Some(string_of(&chars_of(s.as_str()))),
        _ => None,
    }
}

fn item_url_exec(item: &Json) -> (r: Option<String>)
    ensures
        ov(r) == item_url(*item),
{
    match json_get(item, "url") {
        Some(v) => as_str_exec(Some(v)),
        None => match json_get(item, "download_url") {
            Some(v) => as_str_exec(Some(v)),
            None => as_str_exec(json_get(item, "recording_url")),
        },
    }
}

fn first_item_url_exec(items: &Vec<Json>) -> (r: Option<String>)
    ensures
        ov(r) == first_item_url(items@),
{
    let mut i: usize = 0;
    assert(items@.skip(0) =~= items@);
    while i < items.len()
        invariant
            i <= items@.len(),
            first_item_url(items@) == first_item_url(items@.skip(i as int)),
        decreases items.len() - i,
    {
        assert(items@.skip(i as int).drop_first() =~= items@.skip(i + 1));
        assert(items@.skip(i as int)[0] == items@[i as int]);
        match item_url_exec(&items[i]) {
            Some(u) => return Some(u),
            None => {},
        }
        i += 1;
    }
    None
}

/// Finds the recording URL in a listing response.
pub fn extract_recording_url(body: &Json) -> (r: Option<String>)
    ensures
        ov(r) == extract_recording_url_spec(*body),
{
    match body {
        Json::Array(items) => match first_item_url_exec(items) {
            Some(u) => return Some(u),
            None => {},
        },
        _ => {},
    }
    let keys = vec!["recordings", "items", "data", "results"];
    let ghost ks = str_seq(keys@);
    assert(ks =~= list_keys());
    let mut i: usize = 0;
    assert(ks.skip(0) =~= ks);
    while i < keys.len()
        invariant
            i <= keys@.len(),
            ks == str_seq(keys@),
            ks == list_keys(),
            match *body {
                Json::Array(items) => first_item_url(items@) is None,
                _ => true,
            },
            first_listed_url(*body, ks) == first_listed_url(*body, ks.skip(i as int)),
        decreases keys.len() - i,
    {
        assert(ks.skip(i as int).drop_first() =~= ks.skip(i + 1));
        assert(ks.skip(i as int)[0] == keys@[i as int]@);
        match json_get(body, keys[i]) {
            Some(Json::Array(items)) => match first_item_url_exec(items) {
                Some(u) => {
                    assert(get(*body, ks.skip(i as int)[0]) == Some(Json::Array(*items)));
                    assert(first_listed_url(*body, ks.skip(i as int)) == Some(u@));
                    return Some(u);
                },
                None => {},
            },
            _ => {},
        }
        i += 1;
    }
    item_url_exec(body)
}

} // verus!
