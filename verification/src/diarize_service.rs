//! The standalone diarization service: its errors and HTTP statuses, the
//! checks on an upload, its numeric settings, and which transcript segments
//! it works on.
use vstd::prelude::*;

use crate::config::{number_error, parse_number, NumberError};
use crate::media::{is_mp3, is_mp3_spec, is_wav, is_wav_spec, sniff_format, sniff_format_spec};
use crate::text::{
    all_digits, all_digits_exec, chars_of, decimal_value, extend_str, parse_unsigned, slice_chars,
    string_of, trim, trim_str,
};

verus! {

broadcast use vstd::string::group_string_axioms;

/// Errors of the diarization service.
#[derive(Debug, Clone)]
pub enum DiarizeError {
    MissingField(&'static str),
    InvalidNumSpeakers(String),
    UnsupportedAudioFormat(String),
    TranscriptParseError(String),
    AudioDecodeError(String),
    ModelLoadError(String),
    DiarizationFailed(String),
    ConfigError(String),
}

pub open spec fn service_error_text(e: DiarizeError) -> Seq<char> {
    match e {
        DiarizeError::MissingField(f) => "missing required field: "@ + f@,
        DiarizeError::InvalidNumSpeakers(m) => "invalid num_speakers: "@ + m@,
        DiarizeError::UnsupportedAudioFormat(m) => "unsupported audio format: "@ + m@
            + " (only mp3 and wav allowed)"@,
        DiarizeError::TranscriptParseError(m) => "failed to parse transcript JSON: "@ + m@,
        DiarizeError::AudioDecodeError(m) => "failed to decode audio: "@ + m@,
        DiarizeError::ModelLoadError(m) => "model load failed: "@ + m@,
        DiarizeError::DiarizationFailed(m) => "diarization failed: "@ + m@,
        DiarizeError::ConfigError(m) => "config error: "@ + m@,
    }
}

/// The HTTP status an error is answered with: 400 for a malformed request,
/// 422 for content that cannot be processed, 500 for failures of the service.
pub open spec fn service_error_status(e: DiarizeError) -> u16 {
    match e {
        DiarizeError::MissingField(_) => 400,
        DiarizeError::InvalidNumSpeakers(_) => 400,
        DiarizeError::UnsupportedAudioFormat(_) => 422,
        DiarizeError::TranscriptParseError(_) => 422,
        DiarizeError::AudioDecodeError(_) => 422,
        DiarizeError::ModelLoadError(_) => 500,
        DiarizeError::DiarizationFailed(_) => 500,
        DiarizeError::ConfigError(_) => 500,
    }
}

impl DiarizeError {
    pub fn message(&self) -> (r: String)
        ensures
            r@ == service_error_text(*self),
    {
        let mut out: Vec<char> = Vec::new();
        match self {
            DiarizeError::MissingField(f) => {
                extend_str(&mut out, "missing required field: ");
                extend_str(&mut out, f);
            },
            DiarizeError::InvalidNumSpeakers(m) => {
                extend_str(&mut out, "invalid num_speakers: ");
                extend_str(&mut out, m.as_str());
            },
            DiarizeError::UnsupportedAudioFormat(m) => {
                extend_str(&mut out, "unsupported audio format: ");
                extend_str(&mut out, m.as_str());
                extend_str(&mut out, " (only mp3 and wav allowed)");
            },
            DiarizeError::TranscriptParseError(m) => {
                extend_str(&mut out, "failed to parse transcript JSON: ");
                extend_str(&mut out, m.as_str());
            },
            DiarizeError::AudioDecodeError(m) => {
                extend_str(&mut out, "failed to decode audio: ");
                extend_str(&mut out, m.as_str());
            },
            DiarizeError::ModelLoadError(m) => {
                extend_str(&mut out, "model load failed: ");
                extend_str(&mut out, m.as_str());
            },
            DiarizeError::DiarizationFailed(m) => {
                extend_str(&mut out, "diarization failed: ");
                extend_str(&mut out, m.as_str());
            },
            DiarizeError::ConfigError(m) => {
                extend_str(&mut out, "config error: ");
                extend_str(&mut out, m.as_str());
            },
        }
        string_of(&out)
    }

    /// The HTTP status code the error is answered with.
    pub fn status_code(&self) -> (r: u16)
        ensures
            r == service_error_status(*self),
    {
        match self {
            DiarizeError::MissingField(_) => 400,
            DiarizeError::InvalidNumSpeakers(_) => 400,
            DiarizeError::UnsupportedAudioFormat(_) => 422,
            DiarizeError::TranscriptParseError(_) => 422,
            DiarizeError::AudioDecodeError(_) => 422,
            DiarizeError::ModelLoadError(_) => 500,
            DiarizeError::DiarizationFailed(_) => 500,
            DiarizeError::ConfigError(_) => 500,
        }
    }
}

// ---------------------------------------------------------------------------
// Signed numbers
// ---------------------------------------------------------------------------

/// What `str::parse::<i32>()` returns: an optional sign, then decimal digits
/// whose value fits.
pub open spec fn parse_i32_spec(s: Seq<char>) -> Option<int> {
    if s.len() > 1 && s[0] == '-' {
        let d = s.drop_first();
        if all_digits(d) && decimal_value(d) <= 0x8000_0000 {
            Some(-decimal_value(d))
        } else {
            None
        }
    } else {
        match parse_unsigned(s, 0x7FFF_FFFF) {
            Some(n) => Some(n as int),
            None => None,
        }
    }
}

/// The error `str::parse::<i32>()` gives, if any.
pub open spec fn i32_error(s: Seq<char>) -> Option<NumberError> {
    if parse_i32_spec(s) is Some {
        None
    } else if s.len() > 1 && s[0] == '-' {
        if all_digits(s.drop_first()) {
            Some(NumberError::TooSmall)
        } else {
            Some(NumberError::InvalidDigit)
        }
    } else {
        number_error(s, 0x7FFF_FFFF)
    }
}

/// Parses an `i32`, or says why the text is not one.
pub fn parse_i32(v: &str) -> (r: Result<i32, NumberError>)
    ensures
        match parse_i32_spec(v@) {
            Some(n) => r == Ok::<i32, NumberError>(n as i32),
            None => r matches Err(e) && i32_error(v@) == Some(e),
        },
{
    let c = chars_of(v);
    if c.len() > 1 && c[0] == '-' {
        let d = slice_chars(&c, 1, c.len());
        assert(d@ =~= c@.drop_first());
        assert(c@ == v@);
        if !all_digits_exec(&d) {
            return Err(NumberError::InvalidDigit);
        }
        // the digits, read with the limit of the magnitude of i32::MIN
        let mut acc: u64 = 0;
        let mut i: usize = 0;
        while i < d.len()
            invariant
                i <= d@.len(),
                d@ == v@.drop_first(),
                v@.len() > 1,
                v@[0] == '-',
                all_digits(d@),
                acc as nat == decimal_value(d@.take(i as int)),
                acc <= 0x8000_0000,
            decreases d.len() - i,
        {
            let ch = d[i];
            assert(d@.take(i + 1).drop_last() =~= d@.take(i as int));
            assert(crate::text::is_digit(d@[i as int]));
            let dv = (ch as u32 - '0' as u32) as u64;
            let next = acc * 10 + dv;
            assert(decimal_value(d@.take(i + 1)) == next);
            if next > 0x8000_0000 {
                proof {
                    lemma_digits_prefix_bound(d@, i + 1);
                }
                return Err(NumberError::TooSmall);
            }
            acc = next;
            i += 1;
        }
        assert(d@.take(d@.len() as int) =~= d@);
        Ok((0 - (acc as i64)) as i32)
    } else {
        match parse_number(v, 0x7FFF_FFFF) {
            Ok(n) => Ok(n as i32),
            Err(e) => Err(e),
        }
    }
}

proof fn lemma_digits_prefix_bound(s: Seq<char>, k: int)
    requires
        0 <= k <= s.len(),
        all_digits(s),
    ensures
        decimal_value(s.take(k)) <= decimal_value(s),
    decreases s.len() - k,
{
    if k < s.len() {
        lemma_digits_prefix_bound(s, k + 1);
        assert(s.take(k + 1).drop_last() =~= s.take(k));
    } else {
        assert(s.take(k) =~= s);
    }
}

// ---------------------------------------------------------------------------
// Requests and settings
// ---------------------------------------------------------------------------

/// Reads the `num_speakers` field of a request: a non-negative `i32`,
/// surrounding whitespace ignored.
pub fn parse_num_speakers(text: &str) -> (r: Result<i32, DiarizeError>)
    ensures
        match parse_i32_spec(trim(text@)) {
            Some(n) => if n >= 0 {
                r == Ok::<i32, DiarizeError>(n as i32)
            } else {
                r matches Err(DiarizeError::InvalidNumSpeakers(m)) && m@ == text@
            },
            None => r matches Err(DiarizeError::InvalidNumSpeakers(m)) && m@ == text@,
        },
{
    let t = string_of(&trim_str(text));
    match parse_i32(t.as_str()) {
        Ok(n) => {
            if n < 0 {
                Err(DiarizeError::InvalidNumSpeakers(string_of(&chars_of(text))))
            } else {
                Ok(n)
            }
        },
        Err(_) => Err(DiarizeError::InvalidNumSpeakers(string_of(&chars_of(text)))),
    }
}

/// Checks an upload: both the audio file and the transcript are present, and
/// the audio is an MP3 or a WAV file by its first bytes.
pub fn check_upload(audio: Option<&[u8]>, has_transcript: bool) -> (r: Result<(), DiarizeError>)
    ensures
        match audio {
            None => r matches Err(DiarizeError::MissingField(f)) && f@ == "file"@,
            Some(a) => if !has_transcript {
                r matches Err(DiarizeError::MissingField(f)) && f@ == "transcript"@
            } else if !is_mp3_spec(a@) && !is_wav_spec(a@) {
                r matches Err(DiarizeError::UnsupportedAudioFormat(m)) && m@ == sniff_format_spec(
                    a@,
                )
            } else {
                r is Ok
            },
        },
{
    let a = match audio {
        Some(a) => a,
        None => return Err(DiarizeError::MissingField("file")),
    };
    if !has_transcript {
        return Err(DiarizeError::MissingField("transcript"));
    }
    if !is_mp3(a) && !is_wav(a) {
        return Err(DiarizeError::UnsupportedAudioFormat(sniff_format(a)));
    }
    Ok(())
}

/// The speaker count a `num_speakers` field asks for, if it reads as one.
pub open spec fn num_speakers_value(text: Seq<char>) -> Option<i32> {
    match parse_i32_spec(trim(text)) {
        Some(n) => if n >= 0 {
            Some(n as i32)
        } else {
            None
        },
        None => None,
    }
}

/// What a request with a readable (or no) speaker count comes to: the
/// checks of the upload, then the count.
pub open spec fn upload_outcome(
    audio: Option<Seq<u8>>,
    has_transcript: bool,
    count: Option<i32>,
    r: Result<Option<i32>, DiarizeError>,
) -> bool {
    match audio {
        None => r matches Err(DiarizeError::MissingField(f)) && f@ == "file"@,
        Some(a) => if !has_transcript {
            r matches Err(DiarizeError::MissingField(f)) && f@ == "transcript"@
        } else if !is_mp3_spec(a) && !is_wav_spec(a) {
            r matches Err(DiarizeError::UnsupportedAudioFormat(m)) && m@ == sniff_format_spec(a)
        } else {
            r == Ok::<Option<i32>, DiarizeError>(count)
        },
    }
}

/// Checks a separation request as its fields came: a `num_speakers` field
/// that is not a non-negative number is refused first, wherever it stood
/// among the fields; then a missing file, a missing transcript, or audio
/// that is neither MP3 nor WAV. Otherwise it gives the speaker count asked
/// for, if any.
pub fn check_diarize_request(
    num_speakers: Option<&str>,
    audio: Option<&[u8]>,
    has_transcript: bool,
) -> (r: Result<Option<i32>, DiarizeError>)
    ensures
        match num_speakers {
            Some(t) => match num_speakers_value(t@) {
                None => r matches Err(DiarizeError::InvalidNumSpeakers(m)) && m@ == t@,
                Some(n) => upload_outcome(
                    match audio {
                        Some(a) => Some(a@),
                        None => None,
                    },
                    has_transcript,
                    Some(n),
                    r,
                ),
            },
            None => upload_outcome(
                match audio {
                    Some(a) => Some(a@),
                    None => None,
                },
                has_transcript,
                None,
                r,
            ),
        },
{
    let count: Option<i32> = match num_speakers {
        Some(t) => match parse_num_speakers(t) {
            Ok(n) => Some(n),
            Err(e) => return Err(e),
        },
        None => None,
    };
    match check_upload(audio, has_transcript) {
        Ok(()) => Ok(count),
        Err(e) => Err(e),
    }
}

/// The request body limit: a size in megabytes as bytes, saturating.
pub open spec fn body_limit(mb: u64) -> usize {
    let m = mb as usize;
    let k = if m * 1024 > usize::MAX {
        usize::MAX
    } else {
        (m * 1024) as usize
    };
    if k * 1024 > usize::MAX {
        usize::MAX
    } else {
        (k * 1024) as usize
    }
}

/// The numeric service settings from `DIARIZE_NUM_SPEAKERS` (default 0) and
/// `DIARIZE_MAX_BODY_MB` (default 512): the cluster count and the request
/// body limit in bytes.
pub fn service_limits(num_speakers: Option<&str>, max_body_mb: Option<&str>) -> (r: Result<
    (i32, usize),
    DiarizeError,
>)
    ensures
        match num_speakers {
            Some(s) => match parse_i32_spec(s@) {
                Some(n) => r matches Ok(v) ==> v.0 == n,
                None => r matches Err(DiarizeError::ConfigError(m)) && exists|e: NumberError|
                    i32_error(s@) == Some(e) && m@ == "DIARIZE_NUM_SPEAKERS: "@
                        + crate::config::number_error_text(e),
            },
            None => r matches Ok(v) ==> v.0 == 0,
        },
        (num_speakers is None || parse_i32_spec(num_speakers.unwrap()@) is Some) ==> match max_body_mb {
            Some(s) => match parse_unsigned(s@, u64::MAX as nat) {
                Some(n) => r matches Ok(v) && v.1 == body_limit(n as u64),
                None => r matches Err(DiarizeError::ConfigError(m)) && exists|e: NumberError|
                    number_error(s@, u64::MAX as nat) == Some(e) && m@ == "DIARIZE_MAX_BODY_MB: "@
                        + crate::config::number_error_text(e),
            },
            None => r matches Ok(v) && v.1 == body_limit(512),
        },
{
    let n: i32 = match num_speakers {
        Some(s) => match parse_i32(s) {
            Ok(n) => n,
            Err(e) => {
                let mut out = chars_of("DIARIZE_NUM_SPEAKERS: ");
                extend_str(&mut out, e.message().as_str());
                return Err(DiarizeError::ConfigError(string_of(&out)));
            },
        },
        None => 0,
    };
    let mb: u64 = match max_body_mb {
        Some(s) => match parse_number(s, u64::MAX) {
            Ok(m) => m,
            Err(e) => {
                let mut out = chars_of("DIARIZE_MAX_BODY_MB: ");
                extend_str(&mut out, e.message().as_str());
                return Err(DiarizeError::ConfigError(string_of(&out)));
            },
        },
        None => 512,
    };
    let m = mb as usize;
    let k: usize = match m.checked_mul(1024) {
        Some(x) => x,
        None => usize::MAX,
    };
    let limit: usize = match k.checked_mul(1024) {
        Some(x) => x,
        None => usize::MAX,
    };
    Ok((n, limit))
}


// ---------------------------------------------------------------------------
// Transcript segments sent to the service
// ---------------------------------------------------------------------------

/// A segment of the transcript sent along with a recording. `T` is the type
/// of its start and end times (floating-point numbers in the program).
#[derive(Debug, Clone)]
pub struct WhisperSegment<T> {
    pub start: T,
    pub end: T,
    pub text: String,
}

/// The segments kept: those whose text is not blank and whose times are
/// usable (`times_ok`, one flag per segment).
pub open spec fn usable_segments<T>(raw: Seq<WhisperSegment<T>>, times_ok: Seq<bool>) -> Seq<
    WhisperSegment<T>,
>
    decreases raw.len(),
{
    if raw.len() == 0 {
        Seq::empty()
    } else {
        let kept = usable_segments(raw.drop_last(), times_ok);
        let n = raw.len() - 1;
        if trim(raw.last().text@).len() > 0 && times_ok[n] {
            kept.push(raw.last())
        } else {
            kept
        }
    }
}

/// Drops the segments the service cannot use: those with blank text, and
/// those whose times are not usable. Whether times are usable (both finite,
/// the start before the end) is decided by the caller, one flag per segment.
pub fn validate_whisper_segments<T>(raw: Vec<WhisperSegment<T>>, times_ok: &[bool]) -> (r: Vec<
    WhisperSegment<T>,
>)
    requires
        times_ok@.len() == raw@.len(),
    ensures
        r@ == usable_segments(raw@, times_ok@),
{
    let ghost input = raw@;
    let n = raw.len();
    let mut rest = raw;
    let mut out: Vec<WhisperSegment<T>> = Vec::new();
    let mut i: usize = 0;
    assert(input.skip(0) =~= input);
    while i < n
        invariant
            n == input.len(),
            n == times_ok@.len(),
            i <= n,
            rest@ == input.skip(i as int),
            out@ == usable_segments(input.take(i as int), times_ok@),
        decreases n - i,
    {
        let seg = rest.remove(0);
        assert(seg == input[i as int]);
        let keep = trim_str(seg.text.as_str()).len() > 0 && times_ok[i];
        assert(input.take(i + 1).drop_last() =~= input.take(i as int));
        if keep {
            out.push(seg);
        }
        i += 1;
        assert(rest@ =~= input.skip(i as int));
    }
    assert(input.take(n as int) =~= input);
    out
}

} // verus!
