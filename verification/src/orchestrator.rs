//! Live-bot orchestrator: a meeting-ended event from the bot platform becomes
//! an idempotent import run. This module holds the events, runs and
//! configuration, the idempotency key, the recording URLs and file names, and
//! the decisions the service makes between its I/O steps.
use vstd::prelude::*;

use std::collections::hash_map::DefaultHasher;
use std::hash::Hasher;
use vstd::std_specs::hash::DefaultHasherAdditionalSpecFns;
use vstd::utf8::encode_utf8;

use crate::text::{
    chars_of, contains, contains_str, eq_str, extend_chars, extend_str, hex_lower, hex_lower_u64,
    string_of, to_ascii_lower, ascii_lower, to_lowercase, trim, trim_str, unicode_lowercase,
    strip_trailing, strip_trailing_exec,
};

verus! {

broadcast use vstd::string::group_string_axioms;

// ---------------------------------------------------------------------------
// Run status
// ---------------------------------------------------------------------------

/// Status of a durable orchestrator run.
#[derive(Clone, Copy, Debug, PartialEq, Eq, Structural)]
pub enum OrchestratorRunStatus {
    Received,
    Downloading,
    Importing,
    Completed,
    Failed,
    Skipped,
}

/// The text a status is stored and shown under.
pub open spec fn run_status_text(s: OrchestratorRunStatus) -> Seq<char> {
    match s {
        OrchestratorRunStatus::Received => "received"@,
        OrchestratorRunStatus::Downloading => "downloading"@,
        OrchestratorRunStatus::Importing => "importing"@,
        OrchestratorRunStatus::Completed => "completed"@,
        OrchestratorRunStatus::Failed => "failed"@,
        OrchestratorRunStatus::Skipped => "skipped"@,
    }
}

/// The status a stored text reads as; an unknown text reads as `Received`.
pub open spec fn run_status_of_text(s: Seq<char>) -> OrchestratorRunStatus {
    if s == "downloading"@ {
        OrchestratorRunStatus::Downloading
    } else if s == "importing"@ {
        OrchestratorRunStatus::Importing
    } else if s == "completed"@ {
        OrchestratorRunStatus::Completed
    } else if s == "failed"@ {
        OrchestratorRunStatus::Failed
    } else if s == "skipped"@ {
        OrchestratorRunStatus::Skipped
    } else {
        OrchestratorRunStatus::Received
    }
}

impl OrchestratorRunStatus {
    pub fn as_str(self) -> (r: &'static str)
        ensures
            r@ == run_status_text(self),
    {
        match self {
            OrchestratorRunStatus::Received => "received",
            OrchestratorRunStatus::Downloading => "downloading",
            OrchestratorRunStatus::Importing => "importing",
            OrchestratorRunStatus::Completed => "completed",
            OrchestratorRunStatus::Failed => "failed",
            OrchestratorRunStatus::Skipped => "skipped",
        }
    }

    pub fn parse(s: &str) -> (r: Self)
        ensures
            r == run_status_of_text(s@),
    {
        let v = chars_of(s);
        if eq_str(&v, "downloading") {
            OrchestratorRunStatus::Downloading
        } else if eq_str(&v, "importing") {
            OrchestratorRunStatus::Importing
        } else if eq_str(&v, "completed") {
            OrchestratorRunStatus::Completed
        } else if eq_str(&v, "failed") {
            OrchestratorRunStatus::Failed
        } else if eq_str(&v, "skipped") {
            OrchestratorRunStatus::Skipped
        } else {
            OrchestratorRunStatus::Received
        }
    }
}

/// Parsing the text of a status gives the status back.
pub proof fn law_run_status_roundtrip(s: OrchestratorRunStatus)
    ensures
        run_status_of_text(run_status_text(s)) == s,
{
    reveal_strlit("received");
    reveal_strlit("downloading");
    reveal_strlit("importing");
    reveal_strlit("completed");
    reveal_strlit("failed");
    reveal_strlit("skipped");
    assert("received"@[0] == 'r');
    assert("downloading"@[0] == 'd');
    assert("importing"@[0] == 'i');
    assert("completed"@[0] == 'c');
    assert("failed"@[0] == 'f');
    assert("skipped"@[0] == 's');
}

// ---------------------------------------------------------------------------
// Events and requests
// ---------------------------------------------------------------------------

/// Normalized meeting-ended event (from a bot webhook or a manual request).
#[derive(Debug, Clone)]
pub struct MeetingEndedEvent {
    /// Capture platform: `teams` | `zoom` | `google_meet` | `jitsi` | …
    pub platform: Option<String>,
    /// Platform-native meeting id (from share link).
    pub native_meeting_id: Option<String>,
    /// Optional bot-side meeting uuid.
    pub meeting_id: Option<String>,
    /// Terminal status from the bot (`completed`, `failed`, …).
    pub status: Option<String>,
    /// Direct download URL for the recording (preferred when present).
    pub recording_url: Option<String>,
    /// Object key in the object store.
    pub recording_key: Option<String>,
    pub title: Option<String>,
    /// Filename hint for conversion (e.g. `meeting.webm`).
    pub filename: Option<String>,
}

/// Status words that mean the meeting completed normally.
pub open spec fn is_completion_word(s: Seq<char>) -> bool {
    s == "completed"@ || s == "complete"@ || s == "done"@ || s == "finished"@ || s == "stopped"@
        || s == "success"@
}

/// An event is import-worthy when it has no status, an empty one, or a
/// completion word (in any ASCII case).
pub open spec fn event_completed(status: Option<String>) -> bool {
    match status {
        None => true,
        Some(s) => s@.len() == 0 || is_completion_word(ascii_lower(s@)),
    }
}

/// The view of an optional string.
pub open spec fn ov(o: Option<String>) -> Option<Seq<char>> {
    match o {
        Some(s) => Some(s@),
        None => None,
    }
}

/// Whether an optional string is present and not empty.
pub open spec fn filled(o: Option<String>) -> bool {
    o matches Some(s) && s@.len() > 0
}

/// What `DefaultHasher` gives for a string hashed with `Hash::hash`: its UTF-8
/// bytes, then the `0xFF` terminator that `Hasher::write_str` adds.
pub open spec fn str_hash(s: Seq<char>) -> u64 {
    DefaultHasher::spec_finish(seq![encode_utf8(s), seq![0xFFu8]])
}

/// The idempotency key of an event, when its fields determine one: by
/// platform and native id, else by bot meeting id, else by a hash of the
/// recording URL, else by the object key.
pub open spec fn determined_key(e: MeetingEndedEvent) -> Option<Seq<char>> {
    if filled(e.platform) && filled(e.native_meeting_id) {
        Some(
            "vexa:"@ + ascii_lower(e.platform.unwrap()@) + ":"@ + e.native_meeting_id.unwrap()@,
        )
    } else if filled(e.meeting_id) {
        Some("vexa:meeting:"@ + e.meeting_id.unwrap()@)
    } else if filled(e.recording_url) {
        Some("vexa:url:"@ + hex_lower(str_hash(e.recording_url.unwrap()@) as nat))
    } else if filled(e.recording_key) {
        Some("vexa:object:"@ + e.recording_key.unwrap()@)
    } else {
        None
    }
}

/// Two events that name the same meeting get the same idempotency key: the
/// key depends neither on the status, the title or the file name, nor on the
/// letter case of the platform.
pub proof fn law_key_identifies_meeting(a: MeetingEndedEvent, b: MeetingEndedEvent)
    requires
        filled(a.platform) == filled(b.platform),
        filled(a.platform) ==> ascii_lower(a.platform->0@) == ascii_lower(b.platform->0@),
        ov(a.native_meeting_id) == ov(b.native_meeting_id),
        ov(a.meeting_id) == ov(b.meeting_id),
        ov(a.recording_url) == ov(b.recording_url),
        ov(a.recording_key) == ov(b.recording_key),
    ensures
        determined_key(a) == determined_key(b),
{
}

/// Hex form of the `DefaultHasher` hash of a string.
pub fn short_hash(s: &str) -> (r: String)
    ensures
        r@ == hex_lower(str_hash(s@) as nat),
{
    let mut h = DefaultHasher::new();
    let bytes = s.as_bytes();
    assert(bytes@ == encode_utf8(s@));
    h.write(bytes);
    let term: Vec<u8> = vec![0xFFu8];
    h.write(term.as_slice());
    assert(term@ =~= seq![0xFFu8]);
    assert(h@ =~= seq![encode_utf8(s@), seq![0xFFu8]]);
    let v = hex_lower_u64(h.finish());
    string_of(&v)
}

fn filled_exec(o: &Option<String>) -> (b: bool)
    ensures
        b == filled(*o),
{
    match o {
        Some(s) => !s.as_str().is_empty(),
        None => false,
    }
}

impl MeetingEndedEvent {
    /// True when the event is a successful completion (import-worthy).
    pub fn is_completed(&self) -> (b: bool)
        ensures
            b == event_completed(self.status),
    {
        match &self.status {
            None => true,
            Some(s) => {
                if s.as_str().is_empty() {
                    return true;
                }
                let v = chars_of(s.as_str());
                let l = to_ascii_lower(&v);
                eq_str(&l, "completed") || eq_str(&l, "complete") || eq_str(&l, "done") || eq_str(
                    &l,
                    "finished",
                ) || eq_str(&l, "stopped") || eq_str(&l, "success")
            },
        }
    }

    /// The idempotency key, with `fallback_id` naming an event whose fields
    /// determine none.
    pub fn external_key_with(&self, fallback_id: &str) -> (r: String)
        ensures
            match determined_key(*self) {
                Some(k) => r@ == k,
                None => r@ == "vexa:unknown:"@ + fallback_id@,
            },
    {
        let mut out: Vec<char> = Vec::new();
        if filled_exec(&self.platform) && filled_exec(&self.native_meeting_id) {
            let p = chars_of(self.platform.as_ref().unwrap().as_str());
            extend_str(&mut out, "vexa:");
            extend_chars(&mut out, &to_ascii_lower(&p));
            extend_str(&mut out, ":");
            extend_str(&mut out, self.native_meeting_id.as_ref().unwrap().as_str());
        } else if filled_exec(&self.meeting_id) {
            extend_str(&mut out, "vexa:meeting:");
            extend_str(&mut out, self.meeting_id.as_ref().unwrap().as_str());
        } else if filled_exec(&self.recording_url) {
            extend_str(&mut out, "vexa:url:");
            let h = short_hash(self.recording_url.as_ref().unwrap().as_str());
            extend_str(&mut out, h.as_str());
        } else if filled_exec(&self.recording_key) {
            extend_str(&mut out, "vexa:object:");
            extend_str(&mut out, self.recording_key.as_ref().unwrap().as_str());
        } else {
            extend_str(&mut out, "vexa:unknown:");
            extend_str(&mut out, fallback_id);
        }
        string_of(&out)
    }

    /// Builds a stable external key for idempotency; an event whose fields
    /// determine none gets a random one.
    pub fn external_key(&self) -> (r: String)
        ensures
            determined_key(*self) matches Some(k) ==> r@ == k,
            determined_key(*self) is None ==> crate::text::starts_with(r@, "vexa:unknown:"@),
    {
        proof {
            reveal_strlit("vexa:unknown:");
        }
        let id = crate::jobs::new_uuid();
        let r = self.external_key_with(id.as_str());
        proof {
            if determined_key(*self) is None {
                assert(r@.take("vexa:unknown:"@.len() as int) =~= "vexa:unknown:"@);
            }
        }
        r
    }
}

/// Manual dispatch request.
#[derive(Debug, Clone)]
pub struct OrchestratorImportRequest {
    pub platform: Option<String>,
    pub native_meeting_id: Option<String>,
    pub recording_url: Option<String>,
    pub recording_key: Option<String>,
    pub title: Option<String>,
    pub filename: Option<String>,
    /// Force re-import even if an external_key already completed.
    pub force: bool,
}

impl OrchestratorImportRequest {
    /// The meeting-ended event a manual request stands for: a completed
    /// meeting with the request's fields.
    pub fn into_event(self) -> (e: MeetingEndedEvent)
        ensures
            e.platform == self.platform,
            e.native_meeting_id == self.native_meeting_id,
            e.meeting_id is None,
            e.status matches Some(s) && s@ == "completed"@,
            e.recording_url == self.recording_url,
            e.recording_key == self.recording_key,
            e.title == self.title,
            e.filename == self.filename,
    {
        let status = string_of(&chars_of("completed"));
        MeetingEndedEvent {
            platform: self.platform,
            native_meeting_id: self.native_meeting_id,
            meeting_id: None,
            status: Some(status),
            recording_url: self.recording_url,
            recording_key: self.recording_key,
            title: self.title,
            filename: self.filename,
        }
    }
}

/// Result of accepting an orchestrator import (job already spawned or skipped).
#[derive(Debug, Clone)]
pub struct OrchestratorStartResult {
    pub run_id: String,
    pub external_key: String,
    pub status: OrchestratorRunStatus,
    pub job_id: Option<String>,
    pub meeting_id: Option<String>,
    /// True when an existing completed/in-flight run was reused.
    pub reused: bool,
}

/// A downloaded recording and the file name it is imported under.
fn clone_opt(o: &Option<String>) -> (r: Option<String>)
    ensures
        r == *o,
{
    match o {
        Some(s) => Some(s.clone()),
        None => None,
    }
}

/// The record of one handling of a meeting-ended event. Times are seconds on
/// the caller's clock.
#[derive(Debug, Clone)]
pub struct OrchestratorRun {
    pub id: String,
    pub source: String,
    pub platform: Option<String>,
    pub native_meeting_id: Option<String>,
    pub recording_key: Option<String>,
    /// Stable idempotency key (unique).
    pub external_key: String,
    pub status: OrchestratorRunStatus,
    pub job_id: Option<String>,
    pub meeting_id: Option<String>,
    pub title: Option<String>,
    pub error: Option<String>,
    pub created_at: i64,
    pub updated_at: i64,
}

impl OrchestratorRun {
    /// A run of the bot platform for `event`, under a fresh random id, with
    /// no job, meeting or error.
    fn for_event(
        event: &MeetingEndedEvent,
        external_key: String,
        status: OrchestratorRunStatus,
        error: Option<String>,
        now: i64,
    ) -> (r: Self)
        ensures
            r.source@ == "vexa"@,
            r.platform == event.platform,
            r.native_meeting_id == event.native_meeting_id,
            r.recording_key == event.recording_key,
            r.title == event.title,
            r.external_key == external_key,
            r.status == status,
            r.error == error,
            r.job_id is None,
            r.meeting_id is None,
            r.created_at == now,
            r.updated_at == now,
    {
        OrchestratorRun {
            id: crate::jobs::new_uuid(),
            source: string_of(&chars_of("vexa")),
            platform: clone_opt(&event.platform),
            native_meeting_id: clone_opt(&event.native_meeting_id),
            recording_key: clone_opt(&event.recording_key),
            external_key,
            status,
            job_id: None,
            meeting_id: None,
            title: clone_opt(&event.title),
            error,
            created_at: now,
            updated_at: now,
        }
    }

    /// The run of an event that is imported: received, nothing started yet.
    pub fn received(event: &MeetingEndedEvent, external_key: String, now: i64) -> (r: Self)
        ensures
            r.source@ == "vexa"@,
            r.platform == event.platform,
            r.native_meeting_id == event.native_meeting_id,
            r.recording_key == event.recording_key,
            r.title == event.title,
            r.external_key == external_key,
            r.status == OrchestratorRunStatus::Received,
            r.error is None,
            r.job_id is None,
            r.meeting_id is None,
            r.created_at == now,
            r.updated_at == now,
    {
        Self::for_event(event, external_key, OrchestratorRunStatus::Received, None, now)
    }

    /// The run of an event that is not imported, with the reason.
    pub fn skipped(event: &MeetingEndedEvent, external_key: String, reason: &str, now: i64) -> (r:
        Self)
        ensures
            r.source@ == "vexa"@,
            r.platform == event.platform,
            r.native_meeting_id == event.native_meeting_id,
            r.recording_key == event.recording_key,
            r.title == event.title,
            r.external_key == external_key,
            r.status == OrchestratorRunStatus::Skipped,
            r.error matches Some(e) && e@ == reason@,
            r.job_id is None,
            r.meeting_id is None,
            r.created_at == now,
            r.updated_at == now,
    {
        Self::for_event(
            event,
            external_key,
            OrchestratorRunStatus::Skipped,
            Some(string_of(&chars_of(reason))),
            now,
        )
    }

    /// The run once its import job exists: the recording is being downloaded.
    pub fn start_download(&mut self, job_id: String, now: i64)
        ensures
            final(self).job_id == Some(job_id),
            final(self).status == OrchestratorRunStatus::Downloading,
            final(self).updated_at == now,
            final(self).id == old(self).id,
            final(self).external_key == old(self).external_key,
            final(self).meeting_id == old(self).meeting_id,
            final(self).error == old(self).error,
            final(self).created_at == old(self).created_at,
    {
        self.job_id = Some(job_id);
        self.status = OrchestratorRunStatus::Downloading;
        self.updated_at = now;
    }

    /// What a caller is told about a run, new or reused.
    pub fn start_result(&self, reused: bool) -> (r: OrchestratorStartResult)
        ensures
            r.run_id == self.id,
            r.external_key == self.external_key,
            r.status == self.status,
            r.job_id == self.job_id,
            r.meeting_id == self.meeting_id,
            r.reused == reused,
    {
        OrchestratorStartResult {
            run_id: self.id.clone(),
            external_key: self.external_key.clone(),
            status: self.status,
            job_id: clone_opt(&self.job_id),
            meeting_id: clone_opt(&self.meeting_id),
            reused,
        }
    }
}

#[derive(Debug, Clone)]
pub struct DownloadedRecording {
    pub bytes: Vec<u8>,
    pub filename: String,
}

// ---------------------------------------------------------------------------
// Configuration
// ---------------------------------------------------------------------------

/// Orchestrator configuration (environment-overridable).
#[derive(Debug, Clone)]
pub struct OrchestratorConfig {
    /// Master switch. When false, HTTP handlers return 503.
    pub enabled: bool,
    /// Bot gateway base, e.g. `http://127.0.0.1:18056`.
    pub vexa_api_base: Option<String>,
    /// Bot API key (`X-API-Key`).
    pub vexa_api_key: Option<String>,
    /// Optional shared secret for the webhook (`X-Webhook-Secret`).
    pub webhook_secret: Option<String>,
    /// Optional object-store endpoint if recordings are fetched by object key.
    pub minio_endpoint: Option<String>,
    pub minio_access_key: Option<String>,
    pub minio_secret_key: Option<String>,
    pub minio_bucket: Option<String>,
    pub minio_secure: bool,
}

/// The default orchestrator settings: off, with nothing set.
pub open spec fn is_default_orchestrator(c: OrchestratorConfig) -> bool {
    &&& !c.enabled
    &&& c.vexa_api_base is None
    &&& c.vexa_api_key is None
    &&& c.webhook_secret is None
    &&& c.minio_endpoint is None
    &&& c.minio_access_key is None
    &&& c.minio_secret_key is None
    &&& c.minio_bucket is None
    &&& !c.minio_secure
}

impl Default for OrchestratorConfig {
    fn default() -> (r: Self)
        ensures
            is_default_orchestrator(r),
    {
        OrchestratorConfig {
            enabled: false,
            vexa_api_base: None,
            vexa_api_key: None,
            webhook_secret: None,
            minio_endpoint: None,
            minio_access_key: None,
            minio_secret_key: None,
            minio_bucket: None,
            minio_secure: false,
        }
    }
}

/// The environment variables the configuration reads, as read.
#[derive(Debug, Clone)]
pub struct OrchestratorEnv {
    pub orchestrator_enabled: Option<String>,
    pub vexa_api_base: Option<String>,
    pub vexa_api_key: Option<String>,
    pub vexa_webhook_secret: Option<String>,
    pub minio_endpoint: Option<String>,
    pub minio_access_key: Option<String>,
    pub minio_secret_key: Option<String>,
    pub minio_bucket: Option<String>,
    pub minio_secure: Option<String>,
}

/// A switch value that turns an option on: `1`, `true` or `yes`, lower-cased.
pub open spec fn truthy(v: Seq<char>) -> bool {
    let l = unicode_lowercase(v);
    l == "1"@ || l == "true"@ || l == "yes"@
}

fn truthy_exec(v: &str) -> (b: bool)
    ensures
        b == truthy(v@),
{
    let l = to_lowercase(&chars_of(v));
    eq_str(&l, "1") || eq_str(&l, "true") || eq_str(&l, "yes")
}

/// A secret-like value is kept when it is not blank.
pub open spec fn kept_value(e: Option<String>, old: Option<Seq<char>>) -> Option<Seq<char>> {
    match e {
        Some(v) => if trim(v@).len() > 0 {
            Some(v@)
        } else {
            old
        },
        None => old,
    }
}

fn kept_value_exec(e: &Option<String>, old: Option<String>) -> (r: Option<String>)
    ensures
        ov(r) == kept_value(*e, ov(old)),
{
    match e {
        Some(v) => {
            if trim_str(v.as_str()).len() > 0 {
                Some(v.clone())
            } else {
                old
            }
        },
        None => old,
    }
}

impl OrchestratorConfig {
    /// Overrides the configuration from environment values: a switch is set
    /// from `1`/`true`/`yes`; blank values leave a field as it was; URLs lose
    /// trailing slashes (the API base is trimmed first).
    pub fn apply_env(&mut self, env: &OrchestratorEnv)
        ensures
            final(self).enabled == match env.orchestrator_enabled {
                Some(v) => truthy(v@),
                None => old(self).enabled,
            },
            ov(final(self).vexa_api_base) == match env.vexa_api_base {
                Some(v) => if trim(v@).len() > 0 {
                    Some(strip_trailing(trim(v@), '/'))
                } else {
                    ov(old(self).vexa_api_base)
                },
                None => ov(old(self).vexa_api_base),
            },
            ov(final(self).vexa_api_key) == kept_value(env.vexa_api_key, ov(old(self).vexa_api_key)),
            ov(final(self).webhook_secret) == kept_value(
                env.vexa_webhook_secret,
                ov(old(self).webhook_secret),
            ),
            ov(final(self).minio_endpoint) == match env.minio_endpoint {
                Some(v) => if trim(v@).len() > 0 {
                    Some(strip_trailing(v@, '/'))
                } else {
                    ov(old(self).minio_endpoint)
                },
                None => ov(old(self).minio_endpoint),
            },
            ov(final(self).minio_access_key) == kept_value(
                env.minio_access_key,
                ov(old(self).minio_access_key),
            ),
            ov(final(self).minio_secret_key) == kept_value(
                env.minio_secret_key,
                ov(old(self).minio_secret_key),
            ),
            ov(final(self).minio_bucket) == kept_value(env.minio_bucket, ov(old(self).minio_bucket)),
            final(self).minio_secure == match env.minio_secure {
                Some(v) => truthy(v@),
                None => old(self).minio_secure,
            },
    {
        if let Some(v) = &env.orchestrator_enabled {
            self.enabled = truthy_exec(v.as_str());
        }
        if let Some(v) = &env.vexa_api_base {
            let t = trim_str(v.as_str());
            if t.len() > 0 {
                self.vexa_api_base = Some(string_of(&strip_trailing_exec(&t, '/')));
            }
        }
        let k = self.vexa_api_key.take();
        self.vexa_api_key = kept_value_exec(&env.vexa_api_key, k);
        let w = self.webhook_secret.take();
        self.webhook_secret = kept_value_exec(&env.vexa_webhook_secret, w);
        if let Some(v) = &env.minio_endpoint {
            if trim_str(v.as_str()).len() > 0 {
                self.minio_endpoint = Some(string_of(&strip_trailing_exec(&chars_of(v.as_str()), '/')));
            }
        }
        let a = self.minio_access_key.take();
        self.minio_access_key = kept_value_exec(&env.minio_access_key, a);
        let sk = self.minio_secret_key.take();
        self.minio_secret_key = kept_value_exec(&env.minio_secret_key, sk);
        let b = self.minio_bucket.take();
        self.minio_bucket = kept_value_exec(&env.minio_bucket, b);
        if let Some(v) = &env.minio_secure {
            self.minio_secure = truthy_exec(v.as_str());
        }
    }

    /// The default configuration with the environment values applied.
    pub fn from_env(env: &OrchestratorEnv) -> (r: Self)
        ensures
            r.enabled == match env.orchestrator_enabled {
                Some(v) => truthy(v@),
                None => false,
            },
            ov(r.vexa_api_base) == match env.vexa_api_base {
                Some(v) => if trim(v@).len() > 0 {
                    Some(strip_trailing(trim(v@), '/'))
                } else {
                    None
                },
                None => None,
            },
            ov(r.vexa_api_key) == kept_value(env.vexa_api_key, None),
            ov(r.webhook_secret) == kept_value(env.vexa_webhook_secret, None),
            ov(r.minio_endpoint) == match env.minio_endpoint {
                Some(v) => if trim(v@).len() > 0 {
                    Some(strip_trailing(v@, '/'))
                } else {
                    None
                },
                None => None,
            },
            ov(r.minio_access_key) == kept_value(env.minio_access_key, None),
            ov(r.minio_secret_key) == kept_value(env.minio_secret_key, None),
            ov(r.minio_bucket) == kept_value(env.minio_bucket, None),
            r.minio_secure == match env.minio_secure {
                Some(v) => truthy(v@),
                None => false,
            },
    {
        let mut c = OrchestratorConfig::default();
        c.apply_env(env);
        c
    }
}

// ---------------------------------------------------------------------------
// Decisions of the import service
// ---------------------------------------------------------------------------

/// What the service does first with a meeting-ended event.
#[derive(Debug, Clone, Copy, PartialEq, Eq, Structural)]
pub enum StartStep {
    /// The orchestrator is switched off: refuse.
    Disabled,
    /// The meeting did not complete: record a skipped run.
    SkipNotCompleted,
    /// Look for an earlier run under the event's key before starting one.
    LookUpExisting,
    /// Start a new run (forced re-import).
    StartNew,
}

pub open spec fn start_step_spec(enabled: bool, completed: bool, force: bool) -> StartStep {
    if !enabled {
        StartStep::Disabled
    } else if !completed {
        StartStep::SkipNotCompleted
    } else if !force {
        StartStep::LookUpExisting
    } else {
        StartStep::StartNew
    }
}

/// The first step for an event, by the master switch, the event's status and
/// the force flag.
pub fn start_step(config: &OrchestratorConfig, event: &MeetingEndedEvent, force: bool) -> (r:
    StartStep)
    ensures
        r == start_step_spec(config.enabled, event_completed(event.status), force),
{
    if !config.enabled {
        StartStep::Disabled
    } else if !event.is_completed() {
        StartStep::SkipNotCompleted
    } else if !force {
        StartStep::LookUpExisting
    } else {
        StartStep::StartNew
    }
}

/// An earlier run is reused unless it failed or was skipped.
pub open spec fn reusable_spec(s: OrchestratorRunStatus) -> bool {
    s == OrchestratorRunStatus::Completed || s == OrchestratorRunStatus::Importing || s
        == OrchestratorRunStatus::Downloading || s == OrchestratorRunStatus::Received
}

/// Whether an earlier run with this status is reused instead of starting a
/// new one.
pub fn reuse_existing(status: OrchestratorRunStatus) -> (b: bool)
    ensures
        b == reusable_spec(status),
{
    let reusable = match status {
        OrchestratorRunStatus::Completed
        | OrchestratorRunStatus::Importing
        | OrchestratorRunStatus::Downloading
        | OrchestratorRunStatus::Received => true,
        _ => false,
    };
    reusable && status != OrchestratorRunStatus::Failed
}

/// A run that failed or was skipped is never reused; any other is.
pub proof fn law_reuse_excludes_failed(s: OrchestratorRunStatus)
    ensures
        reusable_spec(s) <==> !(s == OrchestratorRunStatus::Failed || s
            == OrchestratorRunStatus::Skipped),
{
}

/// The status and error a run ends with, by the state its import job ended
/// in and the job's error.
pub fn run_outcome(job_state: Option<crate::jobs::JobState>, job_error: Option<String>) -> (r: (
    OrchestratorRunStatus,
    Option<String>,
))
    ensures
        job_state == Some(crate::jobs::JobState::Completed) ==> r.0 == OrchestratorRunStatus::Completed
            && r.1 is None,
        job_state == Some(crate::jobs::JobState::Cancelled) ==> r.0 == OrchestratorRunStatus::Failed
            && ov(r.1) == Some("import cancelled"@),
        job_state != Some(crate::jobs::JobState::Completed) && job_state != Some(
            crate::jobs::JobState::Cancelled,
        ) ==> r.0 == OrchestratorRunStatus::Failed && ov(r.1) == Some(
            match job_error {
                Some(e) => e@,
                None => "import failed"@,
            },
        ),
{
    match job_state {
        Some(crate::jobs::JobState::Completed) => (OrchestratorRunStatus::Completed, None),
        Some(crate::jobs::JobState::Cancelled) => (
            OrchestratorRunStatus::Failed,
            Some(string_of(&chars_of("import cancelled"))),
        ),
        _ => match job_error {
            Some(e) => (OrchestratorRunStatus::Failed, Some(e)),
            None => (OrchestratorRunStatus::Failed, Some(string_of(&chars_of("import failed")))),
        },
    }
}

/// Whether a manual request names a recording source: a URL, an object key,
/// a platform with a native meeting id, or a configured bot API base.
pub open spec fn request_has_source(e: MeetingEndedEvent, api_base_set: bool) -> bool {
    !(e.recording_url is None && e.recording_key is None && (e.platform is None
        || e.native_meeting_id is None) && !api_base_set)
}

/// Checks that a manual request's event names a recording source; the error
/// says what to provide.
pub fn check_request_source(event: &MeetingEndedEvent, config: &OrchestratorConfig) -> (r: Result<
    (),
    String,
>)
    ensures
        r is Ok <==> request_has_source(*event, config.vexa_api_base is Some),
        r matches Err(m) ==> m@ == "Provide recording_url, or recording_key (+ MINIO_*), or platform + native_meeting_id (+ VEXA_API_BASE)"@,
{
    if event.recording_url.is_none() && event.recording_key.is_none() && (event.platform.is_none()
        || event.native_meeting_id.is_none()) && config.vexa_api_base.is_none() {
        Err(
            string_of(
                &chars_of(
                    "Provide recording_url, or recording_key (+ MINIO_*), or platform + native_meeting_id (+ VEXA_API_BASE)",
                ),
            ),
        )
    } else {
        Ok(())
    }
}


/// What a meeting-end event comes to, once the store was asked for an
/// earlier run under the event's key (when the decision needs one).
#[derive(Debug)]
pub enum StartDecision {
    /// Refuse the event with this error; nothing is recorded or started.
    Refuse(String),
    /// Record a run skipped because the meeting did not complete.
    RecordSkipped,
    /// Answer with the earlier run; nothing is recorded or started.
    Reuse(OrchestratorStartResult),
    /// Record a new run and start importing.
    StartNew,
}

/// Decides a meeting-end event: refused while the orchestrator is off;
/// recorded as skipped when the meeting did not complete; answered with the
/// earlier run under its key when that run is reusable and no re-import is
/// forced; else a new run. `existing` is the run the store holds under the
/// event's key, if any (looked at only when no re-import is forced).
pub fn start_decision(
    config: &OrchestratorConfig,
    event: &MeetingEndedEvent,
    force: bool,
    existing: Option<&OrchestratorRun>,
) -> (r: StartDecision)
    ensures
        !config.enabled ==> (r matches StartDecision::Refuse(e) && e@
            == "Orchestrator is disabled (set ORCHESTRATOR_ENABLED=true)"@),
        config.enabled && !event_completed(event.status) ==> r is RecordSkipped,
        config.enabled && event_completed(event.status) && !force && (existing matches Some(x)
            && reusable_spec(x.status)) ==> (r matches StartDecision::Reuse(res) && existing
            matches Some(x) && res.run_id == x.id && res.external_key == x.external_key
            && res.status == x.status && res.job_id == x.job_id && res.meeting_id == x.meeting_id
            && res.reused),
        config.enabled && event_completed(event.status) && !(!force && (existing matches Some(x)
            && reusable_spec(x.status))) ==> r is StartNew,
{
    match start_step(config, event, force) {
        StartStep::Disabled => StartDecision::Refuse(
            crate::text::string_of(
                &crate::text::chars_of("Orchestrator is disabled (set ORCHESTRATOR_ENABLED=true)"),
            ),
        ),
        StartStep::SkipNotCompleted => StartDecision::RecordSkipped,
        StartStep::LookUpExisting => match existing {
            Some(x) => if reuse_existing(x.status) {
                StartDecision::Reuse(x.start_result(true))
            } else {
                StartDecision::StartNew
            },
            None => StartDecision::StartNew,
        },
        StartStep::StartNew => StartDecision::StartNew,
    }
}

} // verus!
