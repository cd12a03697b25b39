//! Reading the arguments of the command-line tool: summary templates and
//! export formats by name.
use vstd::prelude::*;

use crate::models::SummaryTemplate;
use crate::summary::{push_two_digits, two_digits};
use crate::text::{chars_of, eq_str, extend_str, string_of};

verus! {

broadcast use vstd::string::group_string_axioms;

/// The template a name selects on the command line.
pub open spec fn cli_template_spec(name: Seq<char>) -> Option<SummaryTemplate> {
    if name == "full"@ {
        Some(SummaryTemplate::Full)
    } else if name == "key-points"@ || name == "keypoints"@ {
        Some(SummaryTemplate::KeyPoints)
    } else if name == "action-items"@ || name == "actionitems"@ {
        Some(SummaryTemplate::ActionItems)
    } else if name == "decisions"@ {
        Some(SummaryTemplate::Decisions)
    } else {
        None
    }
}

/// Reads a summary template name: `full`, `key-points`, `action-items` or
/// `decisions` (the last three also without the hyphen).
pub fn cli_template(name: &str) -> (r: Result<SummaryTemplate, String>)
    ensures
        match cli_template_spec(name@) {
            Some(t) => r == Ok::<SummaryTemplate, String>(t),
            None => r matches Err(e) && e@ == "Unknown template: "@ + name@
                + ". Use: full, key-points, action-items, decisions"@,
        },
{
    let n = chars_of(name);
    if eq_str(&n, "full") {
        Ok(SummaryTemplate::Full)
    } else if eq_str(&n, "key-points") || eq_str(&n, "keypoints") {
        Ok(SummaryTemplate::KeyPoints)
    } else if eq_str(&n, "action-items") || eq_str(&n, "actionitems") {
        Ok(SummaryTemplate::ActionItems)
    } else if eq_str(&n, "decisions") {
        Ok(SummaryTemplate::Decisions)
    } else {
        let mut out = chars_of("Unknown template: ");
        extend_str(&mut out, name);
        extend_str(&mut out, ". Use: full, key-points, action-items, decisions");
        Err(string_of(&out))
    }
}

/// How a transcript is exported.
#[derive(Clone, Copy, Debug, PartialEq, Eq, Structural)]
pub enum ExportFormat {
    Srt,
    Vtt,
    Text,
    Json,
}

pub open spec fn export_format_spec(name: Seq<char>) -> Option<ExportFormat> {
    if name == "srt"@ {
        Some(ExportFormat::Srt)
    } else if name == "vtt"@ {
        Some(ExportFormat::Vtt)
    } else if name == "text"@ {
        Some(ExportFormat::Text)
    } else if name == "json"@ {
        Some(ExportFormat::Json)
    } else {
        None
    }
}

/// Reads an export format name: `srt`, `vtt`, `text` or `json`.
pub fn parse_export_format(name: &str) -> (r: Result<ExportFormat, String>)
    ensures
        match export_format_spec(name@) {
            Some(f) => r == Ok::<ExportFormat, String>(f),
            None => r matches Err(e) && e@ == "Unknown format: "@ + name@
                + ". Use: srt, vtt, text, json"@,
        },
{
    let n = chars_of(name);
    if eq_str(&n, "srt") {
        Ok(ExportFormat::Srt)
    } else if eq_str(&n, "vtt") {
        Ok(ExportFormat::Vtt)
    } else if eq_str(&n, "text") {
        Ok(ExportFormat::Text)
    } else if eq_str(&n, "json") {
        Ok(ExportFormat::Json)
    } else {
        let mut out = chars_of("Unknown format: ");
        extend_str(&mut out, name);
        extend_str(&mut out, ". Use: srt, vtt, text, json");
        Err(string_of(&out))
    }
}

/// The name an export format goes by on the command line.
pub open spec fn export_format_name(f: ExportFormat) -> Seq<char> {
    match f {
        ExportFormat::Srt => "srt"@,
        ExportFormat::Vtt => "vtt"@,
        ExportFormat::Text => "text"@,
        ExportFormat::Json => "json"@,
    }
}

/// Each export format name selects the format of that name, and no other
/// name selects a format: `srt` gives SRT, `vtt` WebVTT, `text` plain text
/// and `json` JSON.
pub proof fn law_export_format_by_name(f: ExportFormat, name: Seq<char>)
    ensures
        export_format_spec(export_format_name(f)) == Some(f),
        export_format_spec(name) matches Some(g) ==> name == export_format_name(g),
{
    reveal_strlit("srt");
    reveal_strlit("vtt");
    reveal_strlit("text");
    reveal_strlit("json");
    assert("srt"@ != "vtt"@) by {
        assert("srt"@[0] != "vtt"@[0]);
    }
    assert("srt"@ != "text"@) by {
        assert("srt"@.len() != "text"@.len());
    }
    assert("srt"@ != "json"@) by {
        assert("srt"@.len() != "json"@.len());
    }
    assert("vtt"@ != "text"@) by {
        assert("vtt"@.len() != "text"@.len());
    }
    assert("vtt"@ != "json"@) by {
        assert("vtt"@.len() != "json"@.len());
    }
    assert("text"@ != "json"@) by {
        assert("text"@[0] != "json"@[0]);
    }
}

/// A duration in seconds as `HH:MM:SS` (hours take more digits when needed).
pub open spec fn duration_text(secs: nat) -> Seq<char> {
    two_digits(secs / 3600) + ":"@ + two_digits((secs % 3600) / 60) + ":"@ + two_digits(secs % 60)
}

pub fn format_duration(secs: u64) -> (r: String)
    ensures
        r@ == duration_text(secs as nat),
{
    let mut out: Vec<char> = Vec::new();
    push_two_digits(&mut out, secs / 3600);
    extend_str(&mut out, ":");
    push_two_digits(&mut out, (secs % 3600) / 60);
    extend_str(&mut out, ":");
    push_two_digits(&mut out, secs % 60);
    string_of(&out)
}

} // verus!
