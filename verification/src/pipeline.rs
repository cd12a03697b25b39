//! Decisions of the import, re-transcription and summary pipelines, between
//! their I/O steps: how a job ends, what a converted recording is saved as,
//! and what a refinement changes on a transcript.
use vstd::prelude::*;

use crate::jobs::JobState;
use crate::orchestrator::ov;
use crate::paths::{extension, extension_spec, file_stem, file_stem_spec};
use crate::text::{
    chars_of, extend_chars, extend_str, string_of, sviews, to_lowercase, trim, trim_str,
    unicode_lowercase,
};

verus! {

broadcast use vstd::string::group_string_axioms;

/// How a background job is closed in the job table.
#[derive(Clone, Copy, Debug, PartialEq, Eq, Structural)]
pub enum JobEnding {
    /// Mark it completed.
    Complete,
    /// Mark it cancelled (it was cancelled but not yet marked so).
    Cancel,
    /// Leave it: it is already marked cancelled.
    AlreadyCancelled,
    /// Mark it failed with the error.
    Fail,
}

pub open spec fn job_ending_spec(succeeded: bool, cancel_requested: bool, state: Option<JobState>) -> JobEnding {
    if succeeded {
        JobEnding::Complete
    } else if cancel_requested {
        if state == Some(JobState::Cancelled) {
            JobEnding::AlreadyCancelled
        } else {
            JobEnding::Cancel
        }
    } else {
        JobEnding::Fail
    }
}

/// How a job ends: completed when its work succeeded; when it failed, cancelled
/// if cancellation was requested (unless already marked so), else failed.
pub fn job_ending(succeeded: bool, cancel_requested: bool, state: Option<JobState>) -> (r: JobEnding)
    ensures
        r == job_ending_spec(succeeded, cancel_requested, state),
{
    if succeeded {
        JobEnding::Complete
    } else if cancel_requested {
        if state == Some(JobState::Cancelled) {
            JobEnding::AlreadyCancelled
        } else {
            JobEnding::Cancel
        }
    } else {
        JobEnding::Fail
    }
}

/// The name a recording is saved under: as uploaded, or, when it was
/// converted, its stem (`recording` when it has none) with `.wav`.
pub open spec fn saved_audio_name(filename: Seq<char>, converted: bool) -> Seq<char> {
    if converted {
        match file_stem_spec(filename) {
            Some(s) => s + ".wav"@,
            None => "recording"@ + ".wav"@,
        }
    } else {
        filename
    }
}

pub fn saved_audio_filename(filename: &str, converted: bool) -> (r: String)
    ensures
        r@ == saved_audio_name(filename@, converted),
{
    if !converted {
        return string_of(&chars_of(filename));
    }
    let mut out = match file_stem(filename) {
        Some(s) => s,
        None => chars_of("recording"),
    };
    extend_str(&mut out, ".wav");
    string_of(&out)
}

/// The refined text a segment keeps: the refinement's line for it, trimmed,
/// unless that is blank (then the segment keeps what it had). Lines past the
/// last segment are ignored; segments past the last line keep theirs.
pub open spec fn refined_segment_text(old: Option<Seq<char>>, line: Option<Seq<char>>) -> Option<
    Seq<char>,
> {
    match line {
        Some(l) => if trim(l).len() > 0 {
            Some(trim(l))
        } else {
            old
        },
        None => old,
    }
}

/// Applies a refinement's per-segment lines to the segments' refined texts.
pub fn apply_refined_lines(current: Vec<Option<String>>, lines: &[String]) -> (r: Vec<Option<String>>)
    ensures
        r@.len() == current@.len(),
        forall|i: int|
            0 <= i < r@.len() ==> ov(#[trigger] r@[i]) == refined_segment_text(
                ov(current@[i]),
                if i < lines@.len() {
                    Some(lines@[i]@)
                } else {
                    None
                },
            ),
{
    let mut out: Vec<Option<String>> = Vec::new();
    let mut i: usize = 0;
    let n = current.len();
    while i < n
        invariant
            i <= n,
            n == current@.len(),
            out@.len() == i,
            forall|k: int|
                0 <= k < i ==> ov(#[trigger] out@[k]) == refined_segment_text(
                    ov(current@[k]),
                    if k < lines@.len() {
                        Some(lines@[k]@)
                    } else {
                        None
                    },
                ),
        decreases n - i,
    {
        let keep: Option<String> = match &current[i] {
            Some(s) => Some(string_of(&chars_of(s.as_str()))),
            None => None,
        };
        let next = if i < lines.len() {
            let t = trim_str(lines[i].as_str());
            if t.len() > 0 {
                Some(string_of(&t))
            } else {
                keep
            }
        } else {
            keep
        };
        out.push(next);
        i += 1;
    }
    out
}

/// The title of a meeting imported from a file: the given title, else the
/// file's stem, else `Untitled Meeting`.
pub open spec fn meeting_title_spec(title: Option<Seq<char>>, path: Seq<char>) -> Seq<char> {
    match title {
        Some(t) => t,
        None => match file_stem_spec(path) {
            Some(s) => s,
            None => "Untitled Meeting"@,
        },
    }
}

pub fn meeting_title(title: Option<String>, audio_path: &str) -> (r: String)
    ensures
        r@ == meeting_title_spec(ov(title), audio_path@),
{
    match title {
        Some(t) => t,
        None => match file_stem(audio_path) {
            Some(s) => string_of(&s),
            None => string_of(&chars_of("Untitled Meeting")),
        },
    }
}

/// The extension an uploaded recording is written to disk with: its own,
/// lower-cased, or `bin` when it has none.
pub open spec fn upload_extension_spec(filename: Seq<char>) -> Seq<char> {
    match extension_spec(filename) {
        Some(e) => if unicode_lowercase(e).len() > 0 {
            unicode_lowercase(e)
        } else {
            "bin"@
        },
        None => "bin"@,
    }
}

pub fn upload_extension(filename: &str) -> (r: String)
    ensures
        r@ == upload_extension_spec(filename@),
{
    match extension(filename) {
        Some(e) => {
            let l = to_lowercase(&e);
            if l.len() > 0 {
                string_of(&l)
            } else {
                string_of(&chars_of("bin"))
            }
        },
        None => string_of(&chars_of("bin")),
    }
}

/// The name of the temporary copy of an upload:
/// `meeting_agent_import_{id}.{ext}`.
pub fn import_temp_name(id: &str, ext: &str) -> (r: String)
    ensures
        r@ == "meeting_agent_import_"@ + id@ + "."@ + ext@,
{
    let mut out = chars_of("meeting_agent_import_");
    extend_str(&mut out, id);
    extend_str(&mut out, ".");
    extend_str(&mut out, ext);
    string_of(&out)
}

/// Whether any segment carries a speaker label.
pub fn has_speaker_labels(speakers: &[Option<String>]) -> (b: bool)
    ensures
        b == exists|i: int| 0 <= i < speakers@.len() && (#[trigger] speakers@[i]) is Some,
{
    let mut i: usize = 0;
    while i < speakers.len()
        invariant
            i <= speakers@.len(),
            forall|k: int| 0 <= k < i ==> (#[trigger] speakers@[k]) is None,
        decreases speakers.len() - i,
    {
        if speakers[i].is_some() {
            return true;
        }
        i += 1;
    }
    false
}

/// Whether speaker identification runs after separation: only with
/// separation on, speaker labels on the transcript, and a voice bank that
/// could be listed and holds at least one voiceprint.
pub open spec fn identify_runs_spec(diarize_enabled: bool, has_labels: bool, bank_size: Option<nat>) -> bool {
    diarize_enabled && has_labels && (bank_size matches Some(n) && n > 0)
}

pub fn identify_runs(diarize_enabled: bool, has_labels: bool, bank_size: Option<usize>) -> (b: bool)
    ensures
        b == identify_runs_spec(
            diarize_enabled,
            has_labels,
            match bank_size {
                Some(n) => Some(n as nat),
                None => None,
            },
        ),
{
    diarize_enabled && has_labels && match bank_size {
        Some(n) => n > 0,
        None => false,
    }
}

/// Refinement runs only when a summary endpoint is configured.
pub fn refine_enabled(summary_base_url: &str) -> (b: bool)
    ensures
        b == (trim(summary_base_url@).len() > 0),
{
    trim_str(summary_base_url).len() > 0
}


/// The steps of re-transcribing a meeting's recording, in the order they run.
#[derive(Clone, Copy, Debug, PartialEq, Eq, Structural)]
pub enum RetranscribeStep {
    Load,
    Transcribe,
    Diarize,
    Identify,
    Refine,
    Save,
}

/// What a re-transcription does at a step.
#[derive(Clone, Debug)]
pub enum RetranscribeAction {
    /// Run the step, first reporting the progress stage, message and
    /// percentage given (steps that report their own progress give none).
    Run(RetranscribeStep, Option<(&'static str, &'static str, Option<u32>)>),
    /// Stop with this error: the job was cancelled.
    Stop(String),
}

/// Before which steps cancellation is looked at, and the words that name
/// the step in the error.
pub open spec fn cancel_point(step: RetranscribeStep) -> Option<Seq<char>> {
    match step {
        RetranscribeStep::Load => Some("starting"@),
        RetranscribeStep::Transcribe => None,
        RetranscribeStep::Diarize => Some("diarization"@),
        RetranscribeStep::Identify => Some("identification"@),
        RetranscribeStep::Refine => Some("refinement"@),
        RetranscribeStep::Save => Some("saving"@),
    }
}

/// The progress a step reports before it runs.
pub open spec fn step_progress(step: RetranscribeStep) -> Option<(Seq<char>, Seq<char>, Option<u32>)> {
    match step {
        RetranscribeStep::Load => Some(("loading"@, "Loading audio file"@, None)),
        RetranscribeStep::Transcribe => Some(("transcribing"@, "Starting transcription"@, Some(10u32))),
        RetranscribeStep::Save => Some(("saving"@, "Saving new transcript version"@, Some(95u32))),
        _ => None,
    }
}

pub open spec fn progress_view(p: Option<(&'static str, &'static str, Option<u32>)>) -> Option<
    (Seq<char>, Seq<char>, Option<u32>),
> {
    match p {
        Some((a, b, c)) => Some((a@, b@, c)),
        None => None,
    }
}

/// The step after `step`, if any.
pub open spec fn step_after(step: RetranscribeStep) -> Option<RetranscribeStep> {
    match step {
        RetranscribeStep::Load => Some(RetranscribeStep::Transcribe),
        RetranscribeStep::Transcribe => Some(RetranscribeStep::Diarize),
        RetranscribeStep::Diarize => Some(RetranscribeStep::Identify),
        RetranscribeStep::Identify => Some(RetranscribeStep::Refine),
        RetranscribeStep::Refine => Some(RetranscribeStep::Save),
        RetranscribeStep::Save => None,
    }
}

/// Decides a re-transcription step: stop with `Job cancelled before ...`
/// when the job was cancelled and the step looks at cancellation, else run
/// it after reporting its progress.
pub fn retranscribe_action(step: RetranscribeStep, cancelled: bool) -> (r: RetranscribeAction)
    ensures
        match (cancel_point(step), cancelled) {
            (Some(p), true) => r matches RetranscribeAction::Stop(e) && e@ == "Job cancelled before "@ + p,
            _ => r matches RetranscribeAction::Run(s, pr) && s == step && progress_view(pr)
                == step_progress(step),
        },
{
    let point: Option<&'static str> = match step {
        RetranscribeStep::Load => Some("starting"),
        RetranscribeStep::Transcribe => None,
        RetranscribeStep::Diarize => Some("diarization"),
        RetranscribeStep::Identify => Some("identification"),
        RetranscribeStep::Refine => Some("refinement"),
        RetranscribeStep::Save => Some("saving"),
    };
    if cancelled {
        if let Some(p) = point {
            let mut e: Vec<char> = Vec::new();
            extend_str(&mut e, "Job cancelled before ");
            extend_str(&mut e, p);
            proof {
                reveal_strlit("starting");
                reveal_strlit("diarization");
                reveal_strlit("identification");
                reveal_strlit("refinement");
                reveal_strlit("saving");
            }
            return RetranscribeAction::Stop(string_of(&e));
        }
    }
    let progress: Option<(&'static str, &'static str, Option<u32>)> = match step {
        RetranscribeStep::Load => Some(("loading", "Loading audio file", None)),
        RetranscribeStep::Transcribe => Some(("transcribing", "Starting transcription", Some(10))),
        RetranscribeStep::Save => Some(("saving", "Saving new transcript version", Some(95))),
        _ => None,
    };
    RetranscribeAction::Run(step, progress)
}

/// The step that follows `step`; `None` after saving.
pub fn next_retranscribe_step(step: RetranscribeStep) -> (r: Option<RetranscribeStep>)
    ensures
        r == step_after(step),
{
    match step {
        RetranscribeStep::Load => Some(RetranscribeStep::Transcribe),
        RetranscribeStep::Transcribe => Some(RetranscribeStep::Diarize),
        RetranscribeStep::Diarize => Some(RetranscribeStep::Identify),
        RetranscribeStep::Identify => Some(RetranscribeStep::Refine),
        RetranscribeStep::Refine => Some(RetranscribeStep::Save),
        RetranscribeStep::Save => None,
    }
}

/// How a re-transcription job ends: completed on success; on an error,
/// cancelled when cancellation was requested, else failed.
pub open spec fn retranscribe_ending_spec(succeeded: bool, cancel_requested: bool) -> JobEnding {
    if succeeded {
        JobEnding::Complete
    } else if cancel_requested {
        JobEnding::Cancel
    } else {
        JobEnding::Fail
    }
}

pub fn retranscribe_ending(succeeded: bool, cancel_requested: bool) -> (r: JobEnding)
    ensures
        r == retranscribe_ending_spec(succeeded, cancel_requested),
{
    if succeeded {
        JobEnding::Complete
    } else if cancel_requested {
        JobEnding::Cancel
    } else {
        JobEnding::Fail
    }
}

/// The error a failed re-transcription job is marked with.
pub fn retranscribe_failure(error: &str) -> (r: String)
    ensures
        r@ == "Retranscription failed: "@ + error@,
{
    let mut e: Vec<char> = Vec::new();
    extend_str(&mut e, "Retranscription failed: ");
    extend_str(&mut e, error);
    string_of(&e)
}

} // verus!
