//! Speaker diarization: its errors, the execution backend a configuration
//! selects, and how the speakers of a diarization reply reach a transcript.
use vstd::prelude::*;

use crate::paths::{file_name, file_name_spec};
use crate::text::{
    chars_of, eq_str, extend_str, string_of, strip_trailing, strip_trailing_exec,
    to_lowercase, unicode_lowercase,
};

verus! {

broadcast use vstd::string::group_string_axioms;

/// Entry point for in-process speaker diarization.
pub struct Diarizer;

/// Errors of in-process diarization.
#[derive(Debug, Clone)]
pub enum DiarizeError {
    AudioDecodeError(String),
    PipelineError(String),
    ConfigError(String),
}

pub open spec fn diarize_error_text(e: DiarizeError) -> Seq<char> {
    match e {
        DiarizeError::AudioDecodeError(m) => "failed to decode audio: "@ + m@,
        DiarizeError::PipelineError(m) => "diarization pipeline failed: "@ + m@,
        DiarizeError::ConfigError(m) => "config error: "@ + m@,
    }
}

impl DiarizeError {
    /// The error's message.
    pub fn message(&self) -> (r: String)
        ensures
            r@ == diarize_error_text(*self),
    {
        let mut out: Vec<char> = Vec::new();
        match self {
            DiarizeError::AudioDecodeError(m) => {
                extend_str(&mut out, "failed to decode audio: ");
                extend_str(&mut out, m.as_str());
            },
            DiarizeError::PipelineError(m) => {
                extend_str(&mut out, "diarization pipeline failed: ");
                extend_str(&mut out, m.as_str());
            },
            DiarizeError::ConfigError(m) => {
                extend_str(&mut out, "config error: ");
                extend_str(&mut out, m.as_str());
            },
        }
        string_of(&out)
    }
}

/// The message of an error from the ONNX runtime.
pub fn ort_err(e: &str) -> (r: String)
    ensures
        r@ == "ORT: "@ + e@,
{
    let mut out = chars_of("ORT: ");
    extend_str(&mut out, e);
    string_of(&out)
}

/// Execution backend of the diarization pipeline.
#[derive(Clone, Copy, Debug, PartialEq, Eq, Structural)]
pub enum ExecMode {
    Cpu,
    CoreMl,
    CoreMlFast,
    Cuda,
    CudaFast,
    MiGraphX,
}

/// The backend a mode name selects (in any case); an unknown name selects
/// the portable CPU backend.
pub open spec fn exec_mode_of(s: Seq<char>) -> ExecMode {
    let l = unicode_lowercase(s);
    if l == "cpu"@ {
        ExecMode::Cpu
    } else if l == "coreml"@ {
        ExecMode::CoreMl
    } else if l == "coreml-fast"@ {
        ExecMode::CoreMlFast
    } else if l == "cuda"@ {
        ExecMode::Cuda
    } else if l == "cuda-fast"@ {
        ExecMode::CudaFast
    } else if l == "migraphx"@ {
        ExecMode::MiGraphX
    } else {
        ExecMode::Cpu
    }
}

/// Parses an execution mode name. Unknown values fall back to `Cpu`.
pub fn parse_execution_mode(s: &str) -> (r: ExecMode)
    ensures
        r == exec_mode_of(s@),
{
    let l = to_lowercase(&chars_of(s));
    if eq_str(&l, "cpu") {
        ExecMode::Cpu
    } else if eq_str(&l, "coreml") {
        ExecMode::CoreMl
    } else if eq_str(&l, "coreml-fast") {
        ExecMode::CoreMlFast
    } else if eq_str(&l, "cuda") {
        ExecMode::Cuda
    } else if eq_str(&l, "cuda-fast") {
        ExecMode::CudaFast
    } else if eq_str(&l, "migraphx") {
        ExecMode::MiGraphX
    } else {
        ExecMode::Cpu
    }
}

/// The best backend to try first on a platform: CoreML on macOS, CUDA
/// elsewhere (the pipeline falls back to CPU when it fails).
pub open spec fn best_exec_mode(is_macos: bool) -> ExecMode {
    if is_macos {
        ExecMode::CoreMlFast
    } else {
        ExecMode::CudaFast
    }
}

pub fn detect_best_execution_mode(is_macos: bool) -> (r: ExecMode)
    ensures
        r == best_exec_mode(is_macos),
{
    if is_macos {
        ExecMode::CoreMlFast
    } else {
        ExecMode::CudaFast
    }
}

/// Resolves a configured mode: `auto` (in any case) picks the platform's best
/// backend, anything else is parsed.
pub fn resolve_execution_mode(config_string: &str, is_macos: bool) -> (r: ExecMode)
    ensures
        r == if unicode_lowercase(config_string@) == "auto"@ {
            best_exec_mode(is_macos)
        } else {
            exec_mode_of(config_string@)
        },
{
    let l = to_lowercase(&chars_of(config_string));
    if eq_str(&l, "auto") {
        detect_best_execution_mode(is_macos)
    } else {
        parse_execution_mode(config_string)
    }
}

/// The speaker labels after a diarization reply: the `i`-th diarized
/// segment's speaker goes to the `i`-th transcript segment; segments past the
/// reply keep theirs; a transcript without segments stays without.
pub open spec fn merged_speakers_spec(speakers: Seq<Option<i32>>, diarized: Seq<i32>) -> Seq<
    Option<i32>,
> {
    Seq::new(
        speakers.len(),
        |i: int|
            if i < diarized.len() {
                Some(diarized[i])
            } else {
                speakers[i]
            },
    )
}

pub fn merge_speakers(speakers: Option<Vec<Option<i32>>>, diarized: &[i32]) -> (r: Option<
    Vec<Option<i32>>,
>)
    ensures
        match speakers {
            Some(v) => r matches Some(w) && w@ == merged_speakers_spec(v@, diarized@),
            None => r is None,
        },
{
    match speakers {
        None => None,
        Some(v) => {
            let mut w = v;
            let ghost v0 = w@;
            let mut i: usize = 0;
            while i < w.len()
                invariant
                    w@.len() == v0.len(),
                    i <= w@.len(),
                    forall|k: int|
                        0 <= k < w@.len() ==> #[trigger] w@[k] == if k < i && k < diarized@.len() {
                            Some(diarized@[k])
                        } else {
                            v0[k]
                        },
                decreases w.len() - i,
            {
                if i < diarized.len() {
                    w.set(i, Some(diarized[i]));
                }
                i += 1;
            }
            assert(w@ =~= merged_speakers_spec(v0, diarized@));
            Some(w)
        },
    }
}


// ---------------------------------------------------------------------------
// The separation service's client
// ---------------------------------------------------------------------------

/// The address of a separation service, without its trailing slashes.
pub fn diarize_service_base(base_url: &str) -> (r: String)
    ensures
        r@ == strip_trailing(base_url@, '/'),
{
    string_of(&strip_trailing_exec(&chars_of(base_url), '/'))
}

/// The service's separation endpoint under its address.
pub fn diarize_endpoint(base: &str) -> (r: String)
    ensures
        r@ == base@ + "/v1/diarize"@,
{
    let mut out = chars_of(base);
    extend_str(&mut out, "/v1/diarize");
    string_of(&out)
}

/// The name a recording is uploaded under: its file name, or `audio.mp3`
/// when its path has none.
pub fn upload_file_name(audio_path: &str) -> (r: String)
    ensures
        r@ == match file_name_spec(audio_path@) {
            Some(n) => n,
            None => "audio.mp3"@,
        },
{
    match file_name(audio_path) {
        Some(n) => string_of(&n),
        None => string_of(&chars_of("audio.mp3")),
    }
}

} // verus!
