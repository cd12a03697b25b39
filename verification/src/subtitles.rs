//! Transcript export as subtitles: SRT and WebVTT documents built from cues
//! whose times are already split into hours, minutes, seconds and
//! milliseconds.
use vstd::prelude::*;

use crate::summary::{push_two_digits, two_digits};
use crate::text::{decimal_text, extend_chars, extend_str, push_decimal, string_of, trim, trim_str};

verus! {

broadcast use vstd::string::group_string_axioms;

/// `{:03}`: the decimal form padded with zeros to three digits.
pub open spec fn three_digits(n: nat) -> Seq<char> {
    if n < 10 {
        "00"@ + decimal_text(n)
    } else if n < 100 {
        "0"@ + decimal_text(n)
    } else {
        decimal_text(n)
    }
}

/// A point in time split into its parts.
#[derive(Clone, Copy, Debug, PartialEq, Eq)]
pub struct Timestamp {
    pub hours: u32,
    pub minutes: u32,
    pub seconds: u32,
    pub millis: u32,
}

/// `hh:mm:ss{ms_sep}mmm`, each part zero-padded: SRT separates the
/// milliseconds with a comma, WebVTT with a full stop.
pub open spec fn timestamp_text(t: Timestamp, ms_sep: char) -> Seq<char> {
    two_digits(t.hours as nat) + ":"@ + two_digits(t.minutes as nat) + ":"@ + two_digits(
        t.seconds as nat,
    ) + seq![ms_sep] + three_digits(t.millis as nat)
}

fn push_three_digits(out: &mut Vec<char>, n: u64)
    ensures
        final(out)@ == old(out)@ + three_digits(n as nat),
{
    if n < 10 {
        out.push('0');
        out.push('0');
    } else if n < 100 {
        out.push('0');
    }
    let ghost mid = out@;
    push_decimal(out, n);
    proof {
        reveal_strlit("00");
        reveal_strlit("0");
        if n < 10 {
            assert(mid =~= old(out)@ + "00"@);
        } else if n < 100 {
            assert(mid =~= old(out)@ + "0"@);
        }
    }
}

fn push_timestamp(out: &mut Vec<char>, t: Timestamp, ms_sep: char)
    ensures
        final(out)@ == old(out)@ + timestamp_text(t, ms_sep),
{
    push_two_digits(out, t.hours as u64);
    extend_str(out, ":");
    push_two_digits(out, t.minutes as u64);
    extend_str(out, ":");
    push_two_digits(out, t.seconds as u64);
    out.push(ms_sep);
    push_three_digits(out, t.millis as u64);
    assert(out@ =~= old(out)@ + timestamp_text(t, ms_sep));
}

/// Writes a timestamp as `hh:mm:ss` and the milliseconds after `ms_sep`.
pub fn format_timestamp(t: Timestamp, ms_sep: char) -> (r: String)
    ensures
        r@ == timestamp_text(t, ms_sep),
{
    let mut out: Vec<char> = Vec::new();
    push_timestamp(&mut out, t, ms_sep);
    string_of(&out)
}

/// One subtitle: when it starts and ends, and what is said.
#[derive(Clone, Debug)]
pub struct Cue {
    pub start: Timestamp,
    pub end: Timestamp,
    pub text: String,
}

/// The SRT block of the cue at position `i`: its number (from 1), its times
/// as `hh:mm:ss,mmm`, its text trimmed, and a blank line.
pub open spec fn srt_block(i: nat, c: Cue) -> Seq<char> {
    decimal_text(i + 1) + "\n"@ + timestamp_text(c.start, ',') + " --> "@ + timestamp_text(
        c.end,
        ',',
    ) + "\n"@ + trim(c.text@) + "\n\n"@
}

/// The WebVTT block of a cue: its times as `hh:mm:ss.mmm`, its text
/// trimmed, and a blank line.
pub open spec fn vtt_block(c: Cue) -> Seq<char> {
    timestamp_text(c.start, '.') + " --> "@ + timestamp_text(c.end, '.') + "\n"@ + trim(c.text@)
        + "\n\n"@
}

/// The SRT blocks of the first `n` cues, one after another.
pub open spec fn srt_blocks(cues: Seq<Cue>, n: nat) -> Seq<char>
    decreases n,
{
    if n == 0 {
        Seq::empty()
    } else {
        srt_blocks(cues, (n - 1) as nat) + srt_block((n - 1) as nat, cues[n - 1])
    }
}

/// The WebVTT blocks of the first `n` cues, one after another.
pub open spec fn vtt_blocks(cues: Seq<Cue>, n: nat) -> Seq<char>
    decreases n,
{
    if n == 0 {
        Seq::empty()
    } else {
        vtt_blocks(cues, (n - 1) as nat) + vtt_block(cues[n - 1])
    }
}

/// The cues as an SRT document.
pub open spec fn srt_document(cues: Seq<Cue>) -> Seq<char> {
    srt_blocks(cues, cues.len())
}

/// The cues as a WebVTT document: the `WEBVTT` header line, a blank line,
/// then the blocks.
pub open spec fn vtt_document(cues: Seq<Cue>) -> Seq<char> {
    "WEBVTT\n\n"@ + vtt_blocks(cues, cues.len())
}

/// Writes the cues as an SRT document.
pub fn to_srt(cues: &[Cue]) -> (r: String)
    ensures
        r@ == srt_document(cues@),
{
    let mut out: Vec<char> = Vec::new();
    let mut i: usize = 0;
    while i < cues.len()
        invariant
            i <= cues.len(),
            out@ == srt_blocks(cues@, i as nat),
        decreases cues.len() - i,
    {
        let ghost before = out@;
        push_decimal(&mut out, (i as u64) + 1);
        extend_str(&mut out, "\n");
        push_timestamp(&mut out, cues[i].start, ',');
        extend_str(&mut out, " --> ");
        push_timestamp(&mut out, cues[i].end, ',');
        extend_str(&mut out, "\n");
        let t = trim_str(cues[i].text.as_str());
        extend_chars(&mut out, &t);
        extend_str(&mut out, "\n\n");
        assert(out@ =~= before + srt_block(i as nat, cues@[i as int]));
        i += 1;
    }
    string_of(&out)
}

/// Writes the cues as a WebVTT document.
pub fn to_vtt(cues: &[Cue]) -> (r: String)
    ensures
        r@ == vtt_document(cues@),
{
    let mut out: Vec<char> = Vec::new();
    extend_str(&mut out, "WEBVTT\n\n");
    let mut i: usize = 0;
    while i < cues.len()
        invariant
            i <= cues.len(),
            out@ == "WEBVTT\n\n"@ + vtt_blocks(cues@, i as nat),
        decreases cues.len() - i,
    {
        let ghost before = out@;
        push_timestamp(&mut out, cues[i].start, '.');
        extend_str(&mut out, " --> ");
        push_timestamp(&mut out, cues[i].end, '.');
        extend_str(&mut out, "\n");
        let t = trim_str(cues[i].text.as_str());
        extend_chars(&mut out, &t);
        extend_str(&mut out, "\n\n");
        assert(out@ =~= before + vtt_block(cues@[i as int]));
        i += 1;
    }
    string_of(&out)
}

} // verus!
