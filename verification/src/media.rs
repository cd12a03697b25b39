//! Audio formats: which files the transcription API takes as they are, the
//! MIME types recordings are served and uploaded with, and sniffing a format
//! from its first bytes.
use vstd::prelude::*;

use crate::paths::{extension, extension_spec, file_name, file_name_spec};
use crate::text::{extend_str, hex2_lower, push_hex2, string_of, to_lowercase, unicode_lowercase};

verus! {

broadcast use vstd::string::group_string_axioms;

/// Whether the transcription API takes a file with this (lower-cased)
/// extension as it is.
pub open spec fn whisper_supported(ext: Seq<char>) -> bool {
    ext == "mp3"@ || ext == "wav"@
}

/// Whether a file must be converted before transcription: it has no
/// extension, or its extension, lower-cased, is neither `mp3` nor `wav`.
pub open spec fn needs_conversion_spec(path: Seq<char>) -> bool {
    match extension_spec(path) {
        Some(ext) => !whisper_supported(unicode_lowercase(ext)),
        None => true,
    }
}

fn is_whisper_format(ext: &[char]) -> (b: bool)
    ensures
        b == whisper_supported(ext@),
{
    crate::text::eq_str(ext, "mp3") || crate::text::eq_str(ext, "wav")
}

/// Whether the audio file at `path` needs conversion to WAV.
pub fn needs_conversion(path: &str) -> (b: bool)
    ensures
        b == needs_conversion_spec(path@),
{
    match extension(path) {
        Some(ext) => {
            let lower = to_lowercase(&ext);
            !is_whisper_format(&lower)
        },
        None => true,
    }
}

/// Whether a file with this name needs conversion to WAV.
pub fn needs_conversion_by_filename(filename: &str) -> (b: bool)
    ensures
        b == needs_conversion_spec(filename@),
{
    needs_conversion(filename)
}

/// The MIME type a stored recording is served with, by its lower-cased
/// extension (a missing extension reads as empty).
pub open spec fn recording_mime_spec(path: Seq<char>) -> Seq<char> {
    let ext = match extension_spec(path) {
        Some(e) => e,
        None => Seq::empty(),
    };
    let l = unicode_lowercase(ext);
    if l == "mp3"@ {
        "audio/mpeg"@
    } else if l == "wav"@ {
        "audio/wav"@
    } else if l == "m4a"@ {
        "audio/mp4"@
    } else if l == "flac"@ {
        "audio/flac"@
    } else if l == "ogg"@ || l == "opus"@ {
        "audio/ogg"@
    } else if l == "webm"@ {
        "audio/webm"@
    } else {
        "application/octet-stream"@
    }
}

/// Detects the MIME type of a saved recording from its extension.
pub fn recording_mime_type(path: &str) -> (r: &'static str)
    ensures
        r@ == recording_mime_spec(path@),
{
    let ext: Vec<char> = match extension(path) {
        Some(e) => e,
        None => Vec::new(),
    };
    let l = to_lowercase(&ext);
    if crate::text::eq_str(&l, "mp3") {
        "audio/mpeg"
    } else if crate::text::eq_str(&l, "wav") {
        "audio/wav"
    } else if crate::text::eq_str(&l, "m4a") {
        "audio/mp4"
    } else if crate::text::eq_str(&l, "flac") {
        "audio/flac"
    } else if crate::text::eq_str(&l, "ogg") || crate::text::eq_str(&l, "opus") {
        "audio/ogg"
    } else if crate::text::eq_str(&l, "webm") {
        "audio/webm"
    } else {
        "application/octet-stream"
    }
}

/// The MIME type an audio part is uploaded with to the diarization service:
/// `audio/wav` for a `.wav` file (in any case), `audio/mpeg` otherwise.
pub open spec fn upload_mime_spec(path: Seq<char>) -> Seq<char> {
    match extension_spec(path) {
        Some(ext) => if unicode_lowercase(ext) == "wav"@ {
            "audio/wav"@
        } else {
            "audio/mpeg"@
        },
        None => "audio/mpeg"@,
    }
}

pub fn mime_for_extension(path: &str) -> (r: &'static str)
    ensures
        r@ == upload_mime_spec(path@),
{
    match extension(path) {
        Some(ext) => {
            let l = to_lowercase(&ext);
            if crate::text::eq_str(&l, "wav") {
                "audio/wav"
            } else {
                "audio/mpeg"
            }
        },
        None => "audio/mpeg",
    }
}

/// The file name kept for a recording: the last part of the path it came
/// from.
pub fn audio_file_name(audio_file: Option<&str>) -> (r: Option<String>)
    ensures
        match audio_file {
            Some(p) => match file_name_spec(p@) {
                Some(n) => r matches Some(s) && s@ == n,
                None => r is None,
            },
            None => r is None,
        },
{
    match audio_file {
        Some(p) => match file_name(p) {
            Some(n) => Some(string_of(&n)),
            None => None,
        },
        None => None,
    }
}

// ---------------------------------------------------------------------------
// Sniffing
// ---------------------------------------------------------------------------

/// A RIFF/WAVE header.
pub open spec fn is_wav_spec(b: Seq<u8>) -> bool {
    b.len() >= 12 && b.take(4) == seq![0x52u8, 0x49, 0x46, 0x46] && b.subrange(8, 12) == seq![
        0x57u8,
        0x41,
        0x56,
        0x45,
    ]
}

/// An ID3 tag or an MPEG frame sync.
pub open spec fn is_mp3_spec(b: Seq<u8>) -> bool {
    (b.len() >= 3 && b.take(3) == seq![0x49u8, 0x44, 0x33]) || (b.len() >= 2 && b[0] == 0xFF
        && b[1] & 0xE0 == 0xE0)
}

pub fn is_wav(b: &[u8]) -> (r: bool)
    ensures
        r == is_wav_spec(b@),
{
    let r = b.len() >= 12 && b[0] == 0x52 && b[1] == 0x49 && b[2] == 0x46 && b[3] == 0x46 && b[8]
        == 0x57 && b[9] == 0x41 && b[10] == 0x56 && b[11] == 0x45;
    proof {
        if b@.len() >= 12 {
            if r {
                assert(b@.take(4) =~= seq![0x52u8, 0x49, 0x46, 0x46]);
                assert(b@.subrange(8, 12) =~= seq![0x57u8, 0x41, 0x56, 0x45]);
            } else if b@.take(4) == seq![0x52u8, 0x49, 0x46, 0x46] && b@.subrange(8, 12) == seq![
                0x57u8,
                0x41,
                0x56,
                0x45,
            ] {
                assert(b@.take(4)[0] == b@[0] && b@.take(4)[1] == b@[1]);
                assert(b@.take(4)[2] == b@[2] && b@.take(4)[3] == b@[3]);
                assert(b@.subrange(8, 12)[0] == b@[8] && b@.subrange(8, 12)[1] == b@[9]);
                assert(b@.subrange(8, 12)[2] == b@[10] && b@.subrange(8, 12)[3] == b@[11]);
            }
        }
    }
    r
}

pub fn is_mp3(b: &[u8]) -> (r: bool)
    ensures
        r == is_mp3_spec(b@),
{
    let id3 = b.len() >= 3 && b[0] == 0x49 && b[1] == 0x44 && b[2] == 0x33;
    let sync = b.len() >= 2 && b[0] == 0xFF && (b[1] & 0xE0) == 0xE0;
    proof {
        if b@.len() >= 3 {
            if id3 {
                assert(b@.take(3) =~= seq![0x49u8, 0x44, 0x33]);
            } else if b@.take(3) == seq![0x49u8, 0x44, 0x33] {
                assert(b@.take(3)[0] == b@[0] && b@.take(3)[1] == b@[1] && b@.take(3)[2] == b@[2]);
            }
        }
    }
    id3 || sync
}

/// `{:02x?}` of four bytes: `[xx, xx, xx, xx]`.
pub open spec fn magic_text(b: Seq<u8>) -> Seq<char> {
    seq!['['] + hex2_lower(b[0]) + seq![',', ' '] + hex2_lower(b[1]) + seq![',', ' '] + hex2_lower(
        b[2],
    ) + seq![',', ' '] + hex2_lower(b[3]) + seq![']']
}

/// The name of a format sniffed from its first bytes.
pub open spec fn sniff_format_spec(b: Seq<u8>) -> Seq<char> {
    if is_wav_spec(b) {
        "wav"@
    } else if is_mp3_spec(b) {
        "mp3"@
    } else if b.len() >= 4 {
        "unknown (magic="@ + magic_text(b) + ")"@
    } else {
        "unknown"@
    }
}

pub fn sniff_format(b: &[u8]) -> (r: String)
    ensures
        r@ == sniff_format_spec(b@),
{
    let mut out: Vec<char> = Vec::new();
    if is_wav(b) {
        extend_str(&mut out, "wav");
    } else if is_mp3(b) {
        extend_str(&mut out, "mp3");
    } else if b.len() >= 4 {
        extend_str(&mut out, "unknown (magic=");
        out.push('[');
        push_hex2(&mut out, b[0], false);
        out.push(',');
        out.push(' ');
        push_hex2(&mut out, b[1], false);
        out.push(',');
        out.push(' ');
        push_hex2(&mut out, b[2], false);
        out.push(',');
        out.push(' ');
        push_hex2(&mut out, b[3], false);
        out.push(']');
        extend_str(&mut out, ")");
        assert(out@ =~= "unknown (magic="@ + magic_text(b@) + ")"@);
    } else {
        extend_str(&mut out, "unknown");
    }
    string_of(&out)
}

} // verus!
