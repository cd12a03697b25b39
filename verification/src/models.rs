//! Domain enumerations and the text codes they are stored and exchanged under.
use vstd::prelude::*;

use crate::text::{chars_of, eq_str, extend_chars, string_of};

verus! {

broadcast use vstd::string::group_string_axioms;

/// Source of meeting metadata.
#[derive(Clone, Copy, Debug, PartialEq, Eq, Structural)]
pub enum MetadataSource {
    /// User-provided metadata
    UserProvided,
    /// Extracted from calendar bot
    CalendarBot,
    /// Parsed from filename
    Filename,
    /// Extracted via FFprobe
    FFprobe,
    /// Default/fallback values
    Default,
}

/// Audio file metadata.
#[derive(Clone, Debug)]
pub struct FileMetadata {
    /// Audio/video codec (e.g., "aac", "opus", "h264")
    pub codec: Option<String>,
    /// Audio sample rate in Hz
    pub sample_rate: Option<u32>,
    /// Audio bit rate in bits/s
    pub bit_rate: Option<u64>,
    /// Number of audio channels
    pub channels: Option<u8>,
    /// File size in bytes
    pub file_size_bytes: Option<u64>,
}

/// Lifecycle of an imported meeting.
#[derive(Clone, Copy, Debug, PartialEq, Eq, Structural)]
pub enum MeetingStatus {
    Importing,
    Ready,
    Failed,
}

/// Who transcribed a meeting, and when (seconds on the caller's clock).
#[derive(Debug, Clone)]
pub struct TranscriptionInfo {
    pub provider: String,
    pub model: String,
    pub completed_at: i64,
}

/// A meeting. Times are seconds on the caller's clock.
#[derive(Debug, Clone)]
pub struct Meeting {
    pub id: String,
    pub title: String,
    pub date: i64,
    pub duration_seconds: Option<u64>,
    pub status: MeetingStatus,
    pub transcription: Option<TranscriptionInfo>,
    pub created_at: i64,
    pub updated_at: i64,
    /// List of meeting participants
    pub participants: Option<Vec<String>>,
    /// Physical or virtual location
    pub location: Option<String>,
    /// Meeting organizer
    pub organizer: Option<String>,
    /// Source of the metadata
    pub metadata_source: Option<MetadataSource>,
    /// Audio file metadata
    pub file_metadata: Option<FileMetadata>,
    /// Recording date (may differ from the meeting's date)
    pub recording_date: Option<crate::metadata::DateTime>,
    /// Path to audio file
    pub audio_file: Option<String>,
    /// Platform source (e.g., "Upload", "Teams", "Zoom", "Meet")
    pub platform: Option<String>,
}

impl Meeting {
    /// A new meeting being imported, under a fresh random id, dated now.
    pub fn new(title: String, now: i64) -> (r: Self)
        ensures
            r.title == title,
            r.date == now,
            r.created_at == now,
            r.updated_at == now,
            r.status == MeetingStatus::Importing,
            r.duration_seconds is None,
            r.transcription is None,
            r.participants is None,
            r.location is None,
            r.organizer is None,
            r.metadata_source is None,
            r.file_metadata is None,
            r.recording_date is None,
            r.audio_file is None,
            r.platform is None,
    {
        Meeting {
            id: crate::jobs::new_uuid(),
            title,
            date: now,
            duration_seconds: None,
            status: MeetingStatus::Importing,
            transcription: None,
            created_at: now,
            updated_at: now,
            participants: None,
            location: None,
            organizer: None,
            metadata_source: None,
            file_metadata: None,
            recording_date: None,
            audio_file: None,
            platform: None,
        }
    }
}

impl Meeting {
    /// A meeting whose transcription finished: ready, with its duration and
    /// who transcribed it.
    pub fn mark_transcription_complete(
        &mut self,
        provider: &str,
        model: &str,
        duration_seconds: Option<u64>,
        now: i64,
    )
        ensures
            final(self).status == MeetingStatus::Ready,
            final(self).duration_seconds == duration_seconds,
            final(self).transcription matches Some(t) && t.provider@ == provider@ && t.model@
                == model@ && t.completed_at == now,
            final(self).updated_at == now,
            final(self).id == old(self).id,
            final(self).title == old(self).title,
            final(self).date == old(self).date,
            final(self).created_at == old(self).created_at,
    {
        self.status = MeetingStatus::Ready;
        self.duration_seconds = duration_seconds;
        self.transcription = Some(
            TranscriptionInfo {
                provider: string_of(&chars_of(provider)),
                model: string_of(&chars_of(model)),
                completed_at: now,
            },
        );
        self.updated_at = now;
    }

    /// A meeting whose transcription failed.
    pub fn mark_transcription_failed(&mut self, now: i64)
        ensures
            final(self).status == MeetingStatus::Failed,
            final(self).updated_at == now,
            final(self).id == old(self).id,
            final(self).title == old(self).title,
            final(self).duration_seconds == old(self).duration_seconds,
            final(self).transcription == old(self).transcription,
            final(self).created_at == old(self).created_at,
    {
        self.status = MeetingStatus::Failed;
        self.updated_at = now;
    }
}

/// A person in the voice bank (stable identity across meetings).
#[derive(Debug, Clone)]
pub struct Person {
    pub id: String,
    pub name: String,
    pub aliases: Vec<String>,
    pub created_at: i64,
    pub updated_at: i64,
}

impl Person {
    /// A new person without aliases, under a fresh random id.
    pub fn new(name: String, now: i64) -> (r: Self)
        ensures
            r.name == name,
            r.aliases@.len() == 0,
            r.created_at == now,
            r.updated_at == now,
    {
        Person { id: crate::jobs::new_uuid(), name, aliases: Vec::new(), created_at: now, updated_at: now }
    }
}

/// Template for summary generation. User picks per request.
#[derive(Clone, Copy, Debug, PartialEq, Eq, Structural)]
pub enum SummaryTemplate {
    KeyPoints,
    ActionItems,
    Decisions,
    /// All three sections (key points, action items, decisions) in one LLM call.
    Full,
    /// Internship meeting notes format.
    MeetingNotes,
}

/// Output format for summary content.
#[derive(Clone, Copy, Debug, PartialEq, Eq, Structural)]
pub enum SummaryFormat {
    /// Structured markdown with headings and bullet points (default).
    Markdown,
    /// Plain text without markdown formatting.
    RawText,
}

impl Default for SummaryFormat {
    fn default() -> (r: Self)
        ensures
            r == SummaryFormat::Markdown,
    {
        SummaryFormat::Markdown
    }
}

/// Status of a summary generation job.
#[derive(Clone, Copy, Debug, PartialEq, Eq, Structural)]
pub enum SummaryStatus {
    Pending,
    Processing,
    Completed,
    Failed,
}

/// Source of a voiceprint enrollment sample.
#[derive(Clone, Copy, Debug, PartialEq, Eq, Structural)]
pub enum VoiceprintSampleSource {
    Upload,
    MeetingTurn,
}

/// How the current voiceprint centroid was enrolled.
#[derive(Clone, Copy, Debug, PartialEq, Eq, Structural)]
pub enum VoiceprintEnrolledFrom {
    Sample,
    MeetingTurn,
}

// ---------------------------------------------------------------------------
// Database codes
// ---------------------------------------------------------------------------

/// Database code of a summary template.
pub open spec fn template_code(t: SummaryTemplate) -> Seq<char> {
    match t {
        SummaryTemplate::KeyPoints => "keypoints"@,
        SummaryTemplate::ActionItems => "actionitems"@,
        SummaryTemplate::Decisions => "decisions"@,
        SummaryTemplate::Full => "full"@,
        SummaryTemplate::MeetingNotes => "meetingnotes"@,
    }
}

/// The template whose database code is `s`, if any.
pub open spec fn template_of_code(s: Seq<char>) -> Option<SummaryTemplate> {
    if s == "keypoints"@ {
        Some(SummaryTemplate::KeyPoints)
    } else if s == "actionitems"@ {
        Some(SummaryTemplate::ActionItems)
    } else if s == "decisions"@ {
        Some(SummaryTemplate::Decisions)
    } else if s == "full"@ {
        Some(SummaryTemplate::Full)
    } else if s == "meetingnotes"@ {
        Some(SummaryTemplate::MeetingNotes)
    } else {
        None
    }
}

pub fn template_to_db(template: SummaryTemplate) -> (r: &'static str)
    ensures
        r@ == template_code(template),
{
    match template {
        SummaryTemplate::KeyPoints => "keypoints",
        SummaryTemplate::ActionItems => "actionitems",
        SummaryTemplate::Decisions => "decisions",
        SummaryTemplate::Full => "full",
        SummaryTemplate::MeetingNotes => "meetingnotes",
    }
}

/// Reads a template back from its database code.
pub fn template_from_db(value: &str) -> (r: Result<SummaryTemplate, String>)
    ensures
        match r {
            Ok(t) => template_of_code(value@) == Some(t),
            Err(e) => template_of_code(value@) is None && e@
                == "Invalid summary template in database: "@ + value@,
        },
{
    let v = chars_of(value);
    if eq_str(&v, "keypoints") {
        Ok(SummaryTemplate::KeyPoints)
    } else if eq_str(&v, "actionitems") {
        Ok(SummaryTemplate::ActionItems)
    } else if eq_str(&v, "decisions") {
        Ok(SummaryTemplate::Decisions)
    } else if eq_str(&v, "full") {
        Ok(SummaryTemplate::Full)
    } else if eq_str(&v, "meetingnotes") {
        Ok(SummaryTemplate::MeetingNotes)
    } else {
        let mut e = chars_of("Invalid summary template in database: ");
        extend_chars(&mut e, &v);
        Err(string_of(&e))
    }
}

/// Database code of a summary format.
pub open spec fn format_code(f: SummaryFormat) -> Seq<char> {
    match f {
        SummaryFormat::Markdown => "markdown"@,
        SummaryFormat::RawText => "rawtext"@,
    }
}

pub open spec fn format_of_code(s: Seq<char>) -> Option<SummaryFormat> {
    if s == "markdown"@ {
        Some(SummaryFormat::Markdown)
    } else if s == "rawtext"@ {
        Some(SummaryFormat::RawText)
    } else {
        None
    }
}

pub fn format_to_db(format: SummaryFormat) -> (r: &'static str)
    ensures
        r@ == format_code(format),
{
    match format {
        SummaryFormat::Markdown => "markdown",
        SummaryFormat::RawText => "rawtext",
    }
}

pub fn format_from_db(value: &str) -> (r: Result<SummaryFormat, String>)
    ensures
        match r {
            Ok(f) => format_of_code(value@) == Some(f),
            Err(e) => format_of_code(value@) is None && e@ == "Invalid summary format in database: "@
                + value@,
        },
{
    let v = chars_of(value);
    if eq_str(&v, "markdown") {
        Ok(SummaryFormat::Markdown)
    } else if eq_str(&v, "rawtext") {
        Ok(SummaryFormat::RawText)
    } else {
        let mut e = chars_of("Invalid summary format in database: ");
        extend_chars(&mut e, &v);
        Err(string_of(&e))
    }
}

/// Database code of a summary status.
pub open spec fn summary_status_code(s: SummaryStatus) -> Seq<char> {
    match s {
        SummaryStatus::Pending => "pending"@,
        SummaryStatus::Processing => "processing"@,
        SummaryStatus::Completed => "completed"@,
        SummaryStatus::Failed => "failed"@,
    }
}

pub open spec fn summary_status_of_code(s: Seq<char>) -> Option<SummaryStatus> {
    if s == "pending"@ {
        Some(SummaryStatus::Pending)
    } else if s == "processing"@ {
        Some(SummaryStatus::Processing)
    } else if s == "completed"@ {
        Some(SummaryStatus::Completed)
    } else if s == "failed"@ {
        Some(SummaryStatus::Failed)
    } else {
        None
    }
}

pub fn status_to_db(status: SummaryStatus) -> (r: &'static str)
    ensures
        r@ == summary_status_code(status),
{
    match status {
        SummaryStatus::Pending => "pending",
        SummaryStatus::Processing => "processing",
        SummaryStatus::Completed => "completed",
        SummaryStatus::Failed => "failed",
    }
}

pub fn status_from_db(value: &str) -> (r: Result<SummaryStatus, String>)
    ensures
        match r {
            Ok(s) => summary_status_of_code(value@) == Some(s),
            Err(e) => summary_status_of_code(value@) is None && e@
                == "Invalid summary status in database: "@ + value@,
        },
{
    let v = chars_of(value);
    if eq_str(&v, "pending") {
        Ok(SummaryStatus::Pending)
    } else if eq_str(&v, "processing") {
        Ok(SummaryStatus::Processing)
    } else if eq_str(&v, "completed") {
        Ok(SummaryStatus::Completed)
    } else if eq_str(&v, "failed") {
        Ok(SummaryStatus::Failed)
    } else {
        let mut e = chars_of("Invalid summary status in database: ");
        extend_chars(&mut e, &v);
        Err(string_of(&e))
    }
}

/// Database code of a meeting status (the variant name in lower case).
pub open spec fn meeting_status_code(s: MeetingStatus) -> Seq<char> {
    match s {
        MeetingStatus::Importing => "importing"@,
        MeetingStatus::Ready => "ready"@,
        MeetingStatus::Failed => "failed"@,
    }
}

/// Meeting status read from the database; unknown codes read as `Failed`.
pub open spec fn meeting_status_of_code(s: Seq<char>) -> MeetingStatus {
    if s == "importing"@ {
        MeetingStatus::Importing
    } else if s == "ready"@ {
        MeetingStatus::Ready
    } else {
        MeetingStatus::Failed
    }
}

pub fn meeting_status_to_db(status: MeetingStatus) -> (r: &'static str)
    ensures
        r@ == meeting_status_code(status),
{
    match status {
        MeetingStatus::Importing => "importing",
        MeetingStatus::Ready => "ready",
        MeetingStatus::Failed => "failed",
    }
}

pub fn meeting_status_from_db(value: &str) -> (r: MeetingStatus)
    ensures
        r == meeting_status_of_code(value@),
{
    let v = chars_of(value);
    if eq_str(&v, "importing") {
        MeetingStatus::Importing
    } else if eq_str(&v, "ready") {
        MeetingStatus::Ready
    } else {
        MeetingStatus::Failed
    }
}

/// Database code of a metadata source (the variant name in lower case).
pub open spec fn metadata_source_code(s: MetadataSource) -> Seq<char> {
    match s {
        MetadataSource::UserProvided => "userprovided"@,
        MetadataSource::CalendarBot => "calendarbot"@,
        MetadataSource::Filename => "filename"@,
        MetadataSource::FFprobe => "ffprobe"@,
        MetadataSource::Default => "default"@,
    }
}

pub open spec fn metadata_source_of_code(s: Seq<char>) -> Option<MetadataSource> {
    if s == "userprovided"@ {
        Some(MetadataSource::UserProvided)
    } else if s == "calendarbot"@ {
        Some(MetadataSource::CalendarBot)
    } else if s == "filename"@ {
        Some(MetadataSource::Filename)
    } else if s == "ffprobe"@ {
        Some(MetadataSource::FFprobe)
    } else if s == "default"@ {
        Some(MetadataSource::Default)
    } else {
        None
    }
}

pub fn metadata_source_to_db(source: MetadataSource) -> (r: &'static str)
    ensures
        r@ == metadata_source_code(source),
{
    match source {
        MetadataSource::UserProvided => "userprovided",
        MetadataSource::CalendarBot => "calendarbot",
        MetadataSource::Filename => "filename",
        MetadataSource::FFprobe => "ffprobe",
        MetadataSource::Default => "default",
    }
}

pub fn metadata_source_from_db(value: &str) -> (r: Option<MetadataSource>)
    ensures
        r == metadata_source_of_code(value@),
{
    let v = chars_of(value);
    if eq_str(&v, "userprovided") {
        Some(MetadataSource::UserProvided)
    } else if eq_str(&v, "calendarbot") {
        Some(MetadataSource::CalendarBot)
    } else if eq_str(&v, "filename") {
        Some(MetadataSource::Filename)
    } else if eq_str(&v, "ffprobe") {
        Some(MetadataSource::FFprobe)
    } else if eq_str(&v, "default") {
        Some(MetadataSource::Default)
    } else {
        None
    }
}

/// Database code of how a voiceprint was enrolled.
pub open spec fn enrolled_from_code(v: VoiceprintEnrolledFrom) -> Seq<char> {
    match v {
        VoiceprintEnrolledFrom::Sample => "sample"@,
        VoiceprintEnrolledFrom::MeetingTurn => "meeting_turn"@,
    }
}

pub open spec fn enrolled_from_of_code(s: Seq<char>) -> Option<VoiceprintEnrolledFrom> {
    if s == "sample"@ {
        Some(VoiceprintEnrolledFrom::Sample)
    } else if s == "meeting_turn"@ {
        Some(VoiceprintEnrolledFrom::MeetingTurn)
    } else {
        None
    }
}

pub fn enrolled_from_to_db(v: VoiceprintEnrolledFrom) -> (r: &'static str)
    ensures
        r@ == enrolled_from_code(v),
{
    match v {
        VoiceprintEnrolledFrom::Sample => "sample",
        VoiceprintEnrolledFrom::MeetingTurn => "meeting_turn",
    }
}

pub fn enrolled_from_from_db(s: &str) -> (r: Result<VoiceprintEnrolledFrom, String>)
    ensures
        match r {
            Ok(v) => enrolled_from_of_code(s@) == Some(v),
            Err(e) => enrolled_from_of_code(s@) is None && e@ == "unknown enrolled_from: "@ + s@,
        },
{
    let v = chars_of(s);
    if eq_str(&v, "sample") {
        Ok(VoiceprintEnrolledFrom::Sample)
    } else if eq_str(&v, "meeting_turn") {
        Ok(VoiceprintEnrolledFrom::MeetingTurn)
    } else {
        let mut e = chars_of("unknown enrolled_from: ");
        extend_chars(&mut e, &v);
        Err(string_of(&e))
    }
}

/// Database code of a sample source.
pub open spec fn sample_source_code(v: VoiceprintSampleSource) -> Seq<char> {
    match v {
        VoiceprintSampleSource::Upload => "upload"@,
        VoiceprintSampleSource::MeetingTurn => "meeting_turn"@,
    }
}

pub open spec fn sample_source_of_code(s: Seq<char>) -> Option<VoiceprintSampleSource> {
    if s == "upload"@ {
        Some(VoiceprintSampleSource::Upload)
    } else if s == "meeting_turn"@ {
        Some(VoiceprintSampleSource::MeetingTurn)
    } else {
        None
    }
}

pub fn sample_source_to_db(v: VoiceprintSampleSource) -> (r: &'static str)
    ensures
        r@ == sample_source_code(v),
{
    match v {
        VoiceprintSampleSource::Upload => "upload",
        VoiceprintSampleSource::MeetingTurn => "meeting_turn",
    }
}

pub fn sample_source_from_db(s: &str) -> (r: Result<VoiceprintSampleSource, String>)
    ensures
        match r {
            Ok(v) => sample_source_of_code(s@) == Some(v),
            Err(e) => sample_source_of_code(s@) is None && e@ == "unknown sample source: "@ + s@,
        },
{
    let v = chars_of(s);
    if eq_str(&v, "upload") {
        Ok(VoiceprintSampleSource::Upload)
    } else if eq_str(&v, "meeting_turn") {
        Ok(VoiceprintSampleSource::MeetingTurn)
    } else {
        let mut e = chars_of("unknown sample source: ");
        extend_chars(&mut e, &v);
        Err(string_of(&e))
    }
}

// ---------------------------------------------------------------------------
// Laws: reading back what was written gives the original value.
// ---------------------------------------------------------------------------

/// Reading a template back from the code it is stored under gives the template.
pub proof fn law_template_code_roundtrip(t: SummaryTemplate)
    ensures
        template_of_code(template_code(t)) == Some(t),
{
    reveal_strlit("keypoints");
    assert("keypoints"@[0] == 'k');
    assert("keypoints"@[1] == 'e');
    reveal_strlit("actionitems");
    assert("actionitems"@[0] == 'a');
    assert("actionitems"@[1] == 'c');
    reveal_strlit("decisions");
    assert("decisions"@[0] == 'd');
    assert("decisions"@[1] == 'e');
    reveal_strlit("full");
    assert("full"@[0] == 'f');
    assert("full"@[1] == 'u');
    reveal_strlit("meetingnotes");
    assert("meetingnotes"@[0] == 'm');
    assert("meetingnotes"@[1] == 'e');
}

/// Reading a format back from its code gives the format.
pub proof fn law_format_code_roundtrip(f: SummaryFormat)
    ensures
        format_of_code(format_code(f)) == Some(f),
{
    reveal_strlit("markdown");
    assert("markdown"@[0] == 'm');
    assert("markdown"@[1] == 'a');
    reveal_strlit("rawtext");
    assert("rawtext"@[0] == 'r');
    assert("rawtext"@[1] == 'a');
}

/// Reading a summary status back from its code gives the status.
pub proof fn law_summary_status_code_roundtrip(s: SummaryStatus)
    ensures
        summary_status_of_code(summary_status_code(s)) == Some(s),
{
    reveal_strlit("pending");
    assert("pending"@[0] == 'p');
    assert("pending"@[1] == 'e');
    reveal_strlit("processing");
    assert("processing"@[0] == 'p');
    assert("processing"@[1] == 'r');
    reveal_strlit("completed");
    assert("completed"@[0] == 'c');
    assert("completed"@[1] == 'o');
    reveal_strlit("failed");
    assert("failed"@[0] == 'f');
    assert("failed"@[1] == 'a');
}

/// Reading a meeting status back from its code gives the status.
pub proof fn law_meeting_status_code_roundtrip(s: MeetingStatus)
    ensures
        meeting_status_of_code(meeting_status_code(s)) == s,
{
    reveal_strlit("importing");
    assert("importing"@[0] == 'i');
    assert("importing"@[1] == 'm');
    reveal_strlit("ready");
    assert("ready"@[0] == 'r');
    assert("ready"@[1] == 'e');
    reveal_strlit("failed");
    assert("failed"@[0] == 'f');
    assert("failed"@[1] == 'a');
}

/// Reading a metadata source back from its code gives the source.
pub proof fn law_metadata_source_code_roundtrip(s: MetadataSource)
    ensures
        metadata_source_of_code(metadata_source_code(s)) == Some(s),
{
    reveal_strlit("userprovided");
    assert("userprovided"@[0] == 'u');
    assert("userprovided"@[1] == 's');
    reveal_strlit("calendarbot");
    assert("calendarbot"@[0] == 'c');
    assert("calendarbot"@[1] == 'a');
    reveal_strlit("filename");
    assert("filename"@[0] == 'f');
    assert("filename"@[1] == 'i');
    reveal_strlit("ffprobe");
    assert("ffprobe"@[0] == 'f');
    assert("ffprobe"@[1] == 'f');
    reveal_strlit("default");
    assert("default"@[0] == 'd');
    assert("default"@[1] == 'e');
}

/// Reading an enrolment origin back from its code gives the origin.
pub proof fn law_enrolled_from_code_roundtrip(v: VoiceprintEnrolledFrom)
    ensures
        enrolled_from_of_code(enrolled_from_code(v)) == Some(v),
{
    reveal_strlit("sample");
    assert("sample"@[0] == 's');
    assert("sample"@[1] == 'a');
    reveal_strlit("meeting_turn");
    assert("meeting_turn"@[0] == 'm');
    assert("meeting_turn"@[1] == 'e');
}

/// Reading a sample source back from its code gives the source.
pub proof fn law_sample_source_code_roundtrip(v: VoiceprintSampleSource)
    ensures
        sample_source_of_code(sample_source_code(v)) == Some(v),
{
    reveal_strlit("upload");
    assert("upload"@[0] == 'u');
    assert("upload"@[1] == 'p');
    reveal_strlit("meeting_turn");
    assert("meeting_turn"@[0] == 'm');
    assert("meeting_turn"@[1] == 'e');
}

} // verus!
