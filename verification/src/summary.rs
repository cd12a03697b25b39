//! Summary prompts, section parsing and transcript chunking for the LLM client.
use vstd::prelude::*;

use crate::models::{SummaryFormat, SummaryTemplate};
use crate::text::{
    chars_of, eq_ignore_ascii_case, eq_ignore_ascii_case_chars, eq_str, extend_chars, extend_str,
    join, join_chars, lines, slice_chars, split_lines, starts_with, starts_with_str, string_of,
    sviews, to_lowercase, trim, trim_chars, trim_str, unicode_lowercase, vviews, decimal_text,
    push_decimal, ascii_lower, ascii_lower_char, is_ws, lemma_lines_of_join, lemma_trim_ends,
    lemma_trim_noop, strip_cr,
};

verus! {

broadcast use vstd::string::group_string_axioms;

/// Result of LLM transcript refinement.
#[derive(Debug, Clone)]
pub struct RefineResult {
    /// Joined document-level refined text (space-separated segment refinements).
    pub refined_text: String,
    /// Per-segment refined text, same length/order as input segments (empty if no segments).
    pub segment_refined: Vec<String>,
}

/// Known meeting metadata injected into the LLM prompt.
#[derive(Debug, Clone)]
pub struct MeetingContext {
    pub title: Option<String>,
    pub date: Option<String>,
    pub participants: Option<Vec<String>>,
}

impl Default for MeetingContext {
    /// A context with no known metadata.
    fn default() -> (r: Self)
        ensures
            r.title is None,
            r.date is None,
            r.participants is None,
    {
        MeetingContext { title: None, date: None, participants: None }
    }
}

/// Options of one summary request.
#[derive(Debug, Clone)]
pub struct SummarizeOptions {
    pub template: SummaryTemplate,
    pub format: SummaryFormat,
    pub language: Option<String>,
    /// Known meeting metadata injected into the LLM prompt.
    pub meeting: MeetingContext,
}

/// Parsed result of one summary request.
#[derive(Debug, Clone)]
pub struct SummarizeResult {
    pub content: String,
    pub key_points: Vec<String>,
    pub action_items: Vec<String>,
    pub decisions: Vec<String>,
}

// ---------------------------------------------------------------------------
// System prompts
// ---------------------------------------------------------------------------

/// What the summary should focus on, by template.
pub open spec fn section_desc(t: SummaryTemplate) -> Seq<char> {
    match t {
        SummaryTemplate::KeyPoints => "key points"@,
        SummaryTemplate::ActionItems => "action items"@,
        SummaryTemplate::Decisions => "decisions"@,
        _ => "key points, action items, and decisions"@,
    }
}

/// Output-format sentence of the meeting-notes system prompt.
pub open spec fn notes_format_note(f: SummaryFormat) -> Seq<char> {
    match f {
        SummaryFormat::Markdown => "Output valid GitHub-flavored Markdown only."@,
        SummaryFormat::RawText => "Output plain text following the same section order (no markdown tables if avoidable; use simple lists)."@,
    }
}

/// The system prompt for meeting-notes summaries.
pub open spec fn notes_system_prompt(f: SummaryFormat) -> Seq<char> {
    "You are a meeting notes assistant for an internship program. Produce meeting notes that match this exact document structure and section order. "@
        + notes_format_note(f)
        + " Be detailed, factual, and comprehensive. When Meeting Context supplies title, date, or participants, use those values and do not invent replacements. Only infer date, participants, or topic from the transcript when the corresponding context field is missing. Action items must be measurable deliverables with owners when possible."@
}

/// The system prompt of a summary request.
pub open spec fn system_prompt_text(t: SummaryTemplate, f: SummaryFormat) -> Seq<char> {
    if t == SummaryTemplate::MeetingNotes {
        notes_system_prompt(f)
    } else {
        match f {
            SummaryFormat::Markdown => "You are a meeting notes assistant. Read the transcript and produce a structured summary in Markdown. Always wrap each section in a Markdown heading using exactly these names: '## Key Points', '## Action Items', '## Decisions'. Under each heading, list items as Markdown bullet points (one per line, starting with '- '). For this request, focus on: "@
                + section_desc(t)
                + ". If a section has no content, include the heading anyway with a single line: '- (none)'. Be concise and factual."@,
            SummaryFormat::RawText => "You are a meeting notes assistant. Read the transcript and produce a plain text summary WITHOUT any markdown formatting. Organize the summary with clear section labels: 'Key Points:', 'Action Items:', 'Decisions:'. List each item on a new line without bullet points or markdown syntax. For this request, focus on: "@
                + section_desc(t)
                + ". If a section has no content, write '(none)'. Use simple, readable plain text formatting only. Be concise and factual."@,
        }
    }
}

pub fn meeting_notes_system_prompt(format: SummaryFormat) -> (r: String)
    ensures
        r@ == notes_system_prompt(format),
{
    let mut out = chars_of(
        "You are a meeting notes assistant for an internship program. Produce meeting notes that match this exact document structure and section order. ",
    );
    match format {
        SummaryFormat::Markdown => extend_str(&mut out, "Output valid GitHub-flavored Markdown only."),
        SummaryFormat::RawText => extend_str(
            &mut out,
            "Output plain text following the same section order (no markdown tables if avoidable; use simple lists).",
        ),
    }
    extend_str(
        &mut out,
        " Be detailed, factual, and comprehensive. When Meeting Context supplies title, date, or participants, use those values and do not invent replacements. Only infer date, participants, or topic from the transcript when the corresponding context field is missing. Action items must be measurable deliverables with owners when possible.",
    );
    string_of(&out)
}

pub fn system_prompt(template: SummaryTemplate, format: SummaryFormat) -> (r: String)
    ensures
        r@ == system_prompt_text(template, format),
{
    if template == SummaryTemplate::MeetingNotes {
        return meeting_notes_system_prompt(format);
    }
    let desc = match template {
        SummaryTemplate::KeyPoints => "key points",
        SummaryTemplate::ActionItems => "action items",
        SummaryTemplate::Decisions => "decisions",
        _ => "key points, action items, and decisions",
    };
    let mut out: Vec<char> = Vec::new();
    match format {
        SummaryFormat::Markdown => {
            extend_str(
                &mut out,
                "You are a meeting notes assistant. Read the transcript and produce a structured summary in Markdown. Always wrap each section in a Markdown heading using exactly these names: '## Key Points', '## Action Items', '## Decisions'. Under each heading, list items as Markdown bullet points (one per line, starting with '- '). For this request, focus on: ",
            );
            extend_str(&mut out, desc);
            extend_str(
                &mut out,
                ". If a section has no content, include the heading anyway with a single line: '- (none)'. Be concise and factual.",
            );
        },
        SummaryFormat::RawText => {
            extend_str(
                &mut out,
                "You are a meeting notes assistant. Read the transcript and produce a plain text summary WITHOUT any markdown formatting. Organize the summary with clear section labels: 'Key Points:', 'Action Items:', 'Decisions:'. List each item on a new line without bullet points or markdown syntax. For this request, focus on: ",
            );
            extend_str(&mut out, desc);
            extend_str(
                &mut out,
                ". If a section has no content, write '(none)'. Use simple, readable plain text formatting only. Be concise and factual.",
            );
        },
    }
    string_of(&out)
}

// ---------------------------------------------------------------------------
// Meeting context and user prompt
// ---------------------------------------------------------------------------

/// `o` trimmed, when it is present and not blank.
pub open spec fn trimmed_opt(o: Option<String>) -> Option<Seq<char>> {
    match o {
        Some(t) => if trim(t@).len() > 0 {
            Some(trim(t@))
        } else {
            None
        },
        None => None,
    }
}

/// The trimmed, non-blank names, in order.
pub open spec fn trimmed_names(ns: Seq<Seq<char>>) -> Seq<Seq<char>>
    decreases ns.len(),
{
    if ns.len() == 0 {
        Seq::empty()
    } else {
        let r = trimmed_names(ns.drop_last());
        if trim(ns.last()).len() > 0 {
            r.push(trim(ns.last()))
        } else {
            r
        }
    }
}

/// The participant names, trimmed and without blanks, joined with `", "`;
/// `None` when no name is left.
pub open spec fn participants_list(p: Option<Vec<String>>) -> Option<Seq<char>> {
    match p {
        Some(v) => if trimmed_names(sviews(v@)).len() > 0 {
            Some(join(trimmed_names(sviews(v@)), ", "@))
        } else {
            None
        },
        None => None,
    }
}

pub open spec fn opt_line(o: Option<Seq<char>>, label: Seq<char>) -> Seq<Seq<char>> {
    match o {
        Some(v) => seq![label + v],
        None => Seq::empty(),
    }
}

/// The bullet lines of the meeting-context block.
pub open spec fn context_lines(m: MeetingContext) -> Seq<Seq<char>> {
    opt_line(trimmed_opt(m.title), "- Title: "@) + opt_line(trimmed_opt(m.date), "- Date: "@)
        + opt_line(participants_list(m.participants), "- Participants: "@)
}

/// The meeting-context block placed before the prompt; empty when nothing is known.
pub open spec fn meeting_context_text(m: MeetingContext) -> Seq<char> {
    if context_lines(m).len() == 0 {
        Seq::empty()
    } else {
        "Meeting Context:\n"@ + join(context_lines(m), "\n"@)
            + "\nUse Title/Date/Participants above when filling those fields. Do not invent participant names that conflict with the list; the transcript may mention additional speakers not listed.\n\n"@
    }
}

/// `trimmed_opt` of an optional string.
fn trimmed_option(o: &Option<String>) -> (r: Option<Vec<char>>)
    ensures
        match r {
            Some(v) => trimmed_opt(*o) == Some(v@),
            None => trimmed_opt(*o) is None,
        },
{
    match o {
        Some(t) => {
            let v = trim_str(t.as_str());
            if v.len() > 0 {
                Some(v)
            } else {
                None
            }
        },
        None => None,
    }
}

/// `participants_list` of the optional participant names.
fn participants_joined(p: &Option<Vec<String>>) -> (r: Option<Vec<char>>)
    ensures
        match r {
            Some(v) => participants_list(*p) == Some(v@),
            None => participants_list(*p) is None,
        },
{
    match p {
        Some(names) => {
            let mut kept: Vec<Vec<char>> = Vec::new();
            let mut i: usize = 0;
            while i < names.len()
                invariant
                    i <= names@.len(),
                    crate::text::vviews(kept@) == trimmed_names(sviews(names@).take(i as int)),
                decreases names.len() - i,
            {
                let t = trim_str(names[i].as_str());
                assert(sviews(names@).take(i + 1).drop_last() == sviews(names@).take(i as int));
                let ghost k0 = crate::text::vviews(kept@);
                if t.len() > 0 {
                    let ghost tv = t@;
                    kept.push(t);
                    assert(crate::text::vviews(kept@) =~= k0.push(tv));
                }
                i += 1;
            }
            assert(sviews(names@).take(names@.len() as int) == sviews(names@));
            if kept.len() > 0 {
                let sep = chars_of(", ");
                Some(join_chars(&kept, &sep))
            } else {
                None
            }
        },
        None => None,
    }
}

pub fn format_meeting_context(meeting: &MeetingContext) -> (r: String)
    ensures
        r@ == meeting_context_text(*meeting),
{
    let mut lines: Vec<Vec<char>> = Vec::new();
    let ghost l0 = crate::text::vviews(lines@);
    assert(l0 =~= Seq::<Seq<char>>::empty());
    match trimmed_option(&meeting.title) {
        Some(t) => {
            let mut line = chars_of("- Title: ");
            extend_chars(&mut line, &t);
            lines.push(line);
        },
        None => {},
    }
    let ghost l1 = crate::text::vviews(lines@);
    assert(l1 =~= opt_line(trimmed_opt(meeting.title), "- Title: "@));
    match trimmed_option(&meeting.date) {
        Some(t) => {
            let mut line = chars_of("- Date: ");
            extend_chars(&mut line, &t);
            lines.push(line);
        },
        None => {},
    }
    let ghost l2 = crate::text::vviews(lines@);
    assert(l2 =~= l1 + opt_line(trimmed_opt(meeting.date), "- Date: "@));
    match participants_joined(&meeting.participants) {
        Some(t) => {
            let mut line = chars_of("- Participants: ");
            extend_chars(&mut line, &t);
            lines.push(line);
        },
        None => {},
    }
    assert(crate::text::vviews(lines@) =~= l2 + opt_line(
        participants_list(meeting.participants),
        "- Participants: "@,
    ));
    if lines.len() == 0 {
        return String::new();
    }
    let mut out = chars_of("Meeting Context:\n");
    let nl = chars_of("\n");
    let body = join_chars(&lines, &nl);
    extend_chars(&mut out, &body);
    extend_str(
        &mut out,
        "\nUse Title/Date/Participants above when filling those fields. Do not invent participant names that conflict with the list; the transcript may mention additional speakers not listed.\n\n",
    );
    string_of(&out)
}

/// The language instruction appended to the prompt.
pub open spec fn lang_note(language: Option<Seq<char>>) -> Seq<char> {
    match language {
        Some(l) => "\n\nWrite the notes in this language: "@ + l + "."@,
        None => Seq::empty(),
    }
}

/// The sections a non-notes template asks for.
pub open spec fn template_name(t: SummaryTemplate) -> Seq<char> {
    match t {
        SummaryTemplate::KeyPoints => "key points only"@,
        SummaryTemplate::ActionItems => "action items only"@,
        SummaryTemplate::Decisions => "decisions only"@,
        _ => "key points, action items, and decisions (all three sections)"@,
    }
}

/// The formatting sentence of a non-notes prompt.
pub open spec fn prompt_format_note(f: SummaryFormat) -> Seq<char> {
    match f {
        SummaryFormat::Markdown => " Use markdown formatting with headings and bullet points."@,
        SummaryFormat::RawText => " Use plain text without any markdown syntax."@,
    }
}

/// Cells of the meeting-information table of the notes template.
pub open spec fn participants_cell(m: MeetingContext) -> Seq<char> {
    match participants_list(m.participants) {
        Some(p) => p,
        None => "<comma-separated names>"@,
    }
}

pub open spec fn date_cell(m: MeetingContext) -> Seq<char> {
    match trimmed_opt(m.date) {
        Some(d) => d,
        None => "<full date with weekday if known>"@,
    }
}

pub open spec fn topic_cell(m: MeetingContext) -> Seq<char> {
    match trimmed_opt(m.title) {
        Some(t) => t,
        None => "<short meeting topic>"@,
    }
}

/// The user prompt of a meeting-notes request.
pub open spec fn notes_prompt_text(
    transcript: Seq<char>,
    language: Option<Seq<char>>,
    m: MeetingContext,
) -> Seq<char> {
    "Generate internship meeting notes from the transcript below.\n\n"@ + meeting_context_text(m)
        + "Use this exact Markdown structure (fill every section; use 'N/A' or '- (none)' when empty):\n\n# Meeting Notes\n\n## Meeting Information\n\n| Item | Description |\n|------|-------------|\n| Date | "@
        + date_cell(m) + " |\n| Participants | "@ + participants_cell(m) + " |\n| Topic | "@
        + topic_cell(m)
        + " |\n\n---\n\n## 1. Review Pending Tasks\n\n| Pending Task | Owner | Status | Remarks |\n|--------------|-------|--------|---------|\n| ... | ... | ... | ... |\n\n---\n\n## 2. Discussion Topics\n\n### Topic 1: <title>\n\n**Reference:** <optional context>\n\n- bullet points covering discussion\n\n### Topic N: ...\n\n---\n\n## 3. New Action Items\n\n| Task | Owner | Measurable Deliverable | Due Date | Evidence |\n|------|-------|------------------------|----------|----------|\n| ... | ... | ... | ... | ... |\n\nDo not wrap the whole document in a code fence. Output only the notes document.\n"@
        + lang_note(language) + "\n\n--- TRANSCRIPT START ---\n"@ + transcript
        + "\n--- TRANSCRIPT END ---"@
}

/// The user prompt of a summary request.
pub open spec fn prompt_text(
    t: SummaryTemplate,
    f: SummaryFormat,
    transcript: Seq<char>,
    language: Option<Seq<char>>,
    m: MeetingContext,
) -> Seq<char> {
    if t == SummaryTemplate::MeetingNotes {
        notes_prompt_text(transcript, language, m)
    } else {
        meeting_context_text(m) + "Please summarize the following meeting transcript.\n\nSections to include: "@
            + template_name(t) + "."@ + prompt_format_note(f) + lang_note(language)
            + "\n\n--- TRANSCRIPT START ---\n"@ + transcript + "\n--- TRANSCRIPT END ---"@
    }
}

/// The view of an optional string slice.
pub open spec fn opt_str_view(o: Option<&str>) -> Option<Seq<char>> {
    match o {
        Some(s) => Some(s@),
        None => None,
    }
}

fn push_lang_note(out: &mut Vec<char>, language: Option<&str>)
    ensures
        final(out)@ == old(out)@ + lang_note(opt_str_view(language)),
{
    match language {
        Some(l) => {
            extend_str(out, "\n\nWrite the notes in this language: ");
            extend_str(out, l);
            extend_str(out, ".");
        },
        None => {
            assert(old(out)@ + Seq::<char>::empty() =~= old(out)@);
        },
    }
}

pub fn build_prompt(
    template: SummaryTemplate,
    format: SummaryFormat,
    transcript: &str,
    language: Option<&str>,
    meeting: &MeetingContext,
) -> (r: String)
    ensures
        r@ == prompt_text(template, format, transcript@, opt_str_view(language), *meeting),
{
    let context_block = format_meeting_context(meeting);
    if template == SummaryTemplate::MeetingNotes {
        let participants = match participants_joined(&meeting.participants) {
            Some(p) => p,
            None => chars_of("<comma-separated names>"),
        };
        let date = match trimmed_option(&meeting.date) {
            Some(d) => d,
            None => chars_of("<full date with weekday if known>"),
        };
        let topic = match trimmed_option(&meeting.title) {
            Some(t) => t,
            None => chars_of("<short meeting topic>"),
        };
        let mut out = chars_of("Generate internship meeting notes from the transcript below.\n\n");
        extend_str(&mut out, context_block.as_str());
        extend_str(
            &mut out,
            "Use this exact Markdown structure (fill every section; use 'N/A' or '- (none)' when empty):\n\n# Meeting Notes\n\n## Meeting Information\n\n| Item | Description |\n|------|-------------|\n| Date | ",
        );
        extend_chars(&mut out, &date);
        extend_str(&mut out, " |\n| Participants | ");
        extend_chars(&mut out, &participants);
        extend_str(&mut out, " |\n| Topic | ");
        extend_chars(&mut out, &topic);
        extend_str(
            &mut out,
            " |\n\n---\n\n## 1. Review Pending Tasks\n\n| Pending Task | Owner | Status | Remarks |\n|--------------|-------|--------|---------|\n| ... | ... | ... | ... |\n\n---\n\n## 2. Discussion Topics\n\n### Topic 1: <title>\n\n**Reference:** <optional context>\n\n- bullet points covering discussion\n\n### Topic N: ...\n\n---\n\n## 3. New Action Items\n\n| Task | Owner | Measurable Deliverable | Due Date | Evidence |\n|------|-------|------------------------|----------|----------|\n| ... | ... | ... | ... | ... |\n\nDo not wrap the whole document in a code fence. Output only the notes document.\n",
        );
        push_lang_note(&mut out, language);
        extend_str(&mut out, "\n\n--- TRANSCRIPT START ---\n");
        extend_str(&mut out, transcript);
        extend_str(&mut out, "\n--- TRANSCRIPT END ---");
        return string_of(&out);
    }
    let name = match template {
        SummaryTemplate::KeyPoints => "key points only",
        SummaryTemplate::ActionItems => "action items only",
        SummaryTemplate::Decisions => "decisions only",
        _ => "key points, action items, and decisions (all three sections)",
    };
    let note = match format {
        SummaryFormat::Markdown => " Use markdown formatting with headings and bullet points.",
        SummaryFormat::RawText => " Use plain text without any markdown syntax.",
    };
    let mut out = chars_of(context_block.as_str());
    extend_str(
        &mut out,
        "Please summarize the following meeting transcript.\n\nSections to include: ",
    );
    extend_str(&mut out, name);
    extend_str(&mut out, ".");
    extend_str(&mut out, note);
    push_lang_note(&mut out, language);
    extend_str(&mut out, "\n\n--- TRANSCRIPT START ---\n");
    extend_str(&mut out, transcript);
    extend_str(&mut out, "\n--- TRANSCRIPT END ---");
    string_of(&out)
}

// ---------------------------------------------------------------------------
// Section parsing
// ---------------------------------------------------------------------------

/// Whether a line reads as the start of another section (`key points`,
/// `action items`, `decisions`, `summary` or `notes`, after lower-casing).
pub open spec fn is_section_header_text(line: Seq<char>) -> bool {
    let lower = unicode_lowercase(line);
    ||| starts_with(lower, "key points"@)
    ||| starts_with(lower, "action items"@)
    ||| starts_with(lower, "decisions"@)
    ||| starts_with(lower, "summary"@)
    ||| starts_with(lower, "notes"@)
}

pub fn is_section_header(line: &str) -> (b: bool)
    ensures
        b == is_section_header_text(line@),
{
    let v = chars_of(line);
    let lower = to_lowercase(&v);
    starts_with_str(&lower, "key points") || starts_with_str(&lower, "action items")
        || starts_with_str(&lower, "decisions") || starts_with_str(&lower, "summary")
        || starts_with_str(&lower, "notes")
}

/// The views of a sequence of string slices.
pub open spec fn str_views(v: Seq<&str>) -> Seq<Seq<char>> {
    Seq::new(v.len(), |i: int| v[i]@)
}

/// Whether the trimmed line equals one of the headers, ignoring ASCII case.
pub open spec fn is_header_line(line: Seq<char>, headers: Seq<Seq<char>>) -> bool {
    exists|j: int| 0 <= j < headers.len() && eq_ignore_ascii_case(trim(line), #[trigger] headers[j])
}

/// Index of the first header line.
pub open spec fn first_header(ls: Seq<Seq<char>>, headers: Seq<Seq<char>>) -> Option<int>
    decreases ls.len(),
{
    if ls.len() == 0 {
        None
    } else {
        match first_header(ls.drop_last(), headers) {
            Some(i) => Some(i),
            None => if is_header_line(ls.last(), headers) {
                Some(ls.len() - 1)
            } else {
                None
            },
        }
    }
}

/// A trimmed line that ends the section: a markdown heading or a known
/// section title, unless it is a bullet.
pub open spec fn ends_section(t: Seq<char>) -> bool {
    (starts_with(t, "#"@) || is_section_header_text(t)) && !starts_with(t, "-"@)
}

/// The item a non-blank trimmed line of a section contributes.
pub open spec fn section_item(t: Seq<char>) -> Option<Seq<char>> {
    if t == "- (none)"@ {
        None
    } else if starts_with(t, "- "@) || starts_with(t, "* "@) {
        if trim(t.skip(2)).len() > 0 {
            Some(trim(t.skip(2)))
        } else {
            None
        }
    } else if !starts_with(t, "-"@) && !starts_with(t, "*"@) {
        Some(t)
    } else {
        None
    }
}

/// Items read from the lines after a header, and whether the section has ended.
pub open spec fn section_scan(ls: Seq<Seq<char>>) -> (Seq<Seq<char>>, bool)
    decreases ls.len(),
{
    if ls.len() == 0 {
        (Seq::empty(), false)
    } else {
        let (items, ended) = section_scan(ls.drop_last());
        let t = trim(ls.last());
        if ended {
            (items, true)
        } else if t.len() == 0 {
            (items, false)
        } else if ends_section(t) {
            (items, true)
        } else {
            match section_item(t) {
                Some(c) => (items.push(c), false),
                None => (items, false),
            }
        }
    }
}

/// The items of the first section whose header is one of `headers`.
pub open spec fn section_items(content: Seq<char>, headers: Seq<Seq<char>>) -> Seq<Seq<char>> {
    match first_header(lines(content), headers) {
        Some(i) => section_scan(lines(content).skip(i + 1)).0,
        None => Seq::empty(),
    }
}

fn is_header_line_exec(line: &Vec<char>, headers: &[&str]) -> (b: bool)
    ensures
        b == is_header_line(line@, str_views(headers@)),
{
    let t = trim_chars(line);
    let mut j: usize = 0;
    while j < headers.len()
        invariant
            j <= headers@.len(),
            t@ == trim(line@),
            forall|k: int| 0 <= k < j ==> !eq_ignore_ascii_case(t@, #[trigger] str_views(headers@)[k]),
        decreases headers.len() - j,
    {
        let h = chars_of(headers[j]);
        if eq_ignore_ascii_case_chars(&t, &h) {
            assert(str_views(headers@)[j as int] == h@);
            return true;
        }
        j += 1;
    }
    false
}

fn section_item_exec(t: &Vec<char>) -> (r: Option<Vec<char>>)
    ensures
        match r {
            Some(c) => section_item(t@) == Some(c@),
            None => section_item(t@) is None,
        },
{
    if eq_str(t, "- (none)") {
        return None;
    }
    if starts_with_str(t, "- ") || starts_with_str(t, "* ") {
        proof { reveal_strlit("- "); reveal_strlit("* "); }
        let rest = slice_chars(t, 2, t.len());
        assert(rest@ == t@.skip(2));
        let c = trim_chars(&rest);
        if c.len() > 0 {
            Some(c)
        } else {
            None
        }
    } else if !starts_with_str(t, "-") && !starts_with_str(t, "*") {
        Some(copy_vec(t))
    } else {
        None
    }
}

fn copy_vec(v: &Vec<char>) -> (r: Vec<char>)
    ensures
        r@ == v@,
{
    crate::text::copy_chars(v)
}

pub fn extract_section(content: &str, headers: &[&str]) -> (r: Vec<String>)
    ensures
        sviews(r@) == section_items(content@, str_views(headers@)),
{
    let cv = chars_of(content);
    let ls = split_lines(&cv);
    let ghost lsv = vviews(ls@);
    let mut i: usize = 0;
    let mut start: usize = 0;
    let mut found = false;
    while i < ls.len() && !found
        invariant
            i <= ls@.len(),
            lsv == vviews(ls@),
            lsv == lines(content@),
            !found ==> first_header(lsv.take(i as int), str_views(headers@)) is None,
            found ==> first_header(lsv, str_views(headers@)) == Some(start - 1) && 1 <= start <= ls@.len(),
        decreases ls.len() - i + (if found { 0int } else { 1int }),
    {
        assert(lsv.take(i + 1).drop_last() == lsv.take(i as int));
        if is_header_line_exec(&ls[i], headers) {
            proof { lemma_first_header_extend(lsv, str_views(headers@), i as int); }
            start = i + 1;
            found = true;
        } else {
            i += 1;
        }
    }
    let mut items: Vec<String> = Vec::new();
    if !found {
        assert(lsv.take(ls@.len() as int) == lsv);
        return items;
    }
    let mut ended = false;
    let mut k = start;
    while k < ls.len()
        invariant
            start <= k <= ls@.len(),
            lsv == vviews(ls@),
            (sviews(items@), ended) == section_scan(lsv.subrange(start as int, k as int)),
        decreases ls.len() - k,
    {
        assert(lsv.subrange(start as int, k + 1).drop_last() == lsv.subrange(start as int, k as int));
        if !ended {
            let t = trim_chars(&ls[k]);
            if t.len() == 0 {
            } else if (starts_with_str(&t, "#") || is_section_header(string_of(&t).as_str()))
                && !starts_with_str(&t, "-") {
                ended = true;
            } else {
                match section_item_exec(&t) {
                    Some(c) => {
                        let ghost i0 = sviews(items@);
                        let s = string_of(&c);
                        items.push(s);
                        assert(sviews(items@) =~= i0.push(c@));
                    },
                    None => {},
                }
            }
        }
        k += 1;
    }
    assert(lsv.subrange(start as int, ls@.len() as int) == lsv.skip(start as int));
    items
}

/// Extending the searched lines by one keeps an earlier header, else finds the new line.
proof fn lemma_first_header_extend(ls: Seq<Seq<char>>, headers: Seq<Seq<char>>, i: int)
    requires
        0 <= i < ls.len(),
        first_header(ls.take(i), headers) is None,
        is_header_line(ls[i], headers),
    ensures
        first_header(ls, headers) == Some(i),
    decreases ls.len() - i,
{
    lemma_first_header_prefix(ls, headers, i + 1);
    assert(ls.take(i + 1).drop_last() == ls.take(i));
}

/// The first header of a sequence is the first header of a prefix that contains one.
proof fn lemma_first_header_prefix(ls: Seq<Seq<char>>, headers: Seq<Seq<char>>, n: int)
    requires
        0 <= n <= ls.len(),
        first_header(ls.take(n), headers) is Some,
    ensures
        first_header(ls, headers) == first_header(ls.take(n), headers),
    decreases ls.len() - n,
{
    if n < ls.len() {
        assert(ls.take(n + 1).drop_last() == ls.take(n));
        lemma_first_header_prefix(ls, headers, n + 1);
    } else {
        assert(ls.take(n) == ls);
    }
}

/// The headers under which each section may appear.
pub open spec fn key_point_headers() -> Seq<Seq<char>> {
    seq!["## Key Points"@, "# Key Points"@, "Key Points:"@]
}

pub open spec fn action_item_headers() -> Seq<Seq<char>> {
    seq!["## Action Items"@, "# Action Items"@, "Action Items:"@]
}

pub open spec fn decision_headers() -> Seq<Seq<char>> {
    seq!["## Decisions"@, "# Decisions"@, "Decisions:"@]
}

/// Key points, action items and decisions parsed from summary content; a
/// template only fills the sections it asks for, and meeting notes fill none.
pub open spec fn parsed_sections(content: Seq<char>, t: SummaryTemplate) -> (
    Seq<Seq<char>>,
    Seq<Seq<char>>,
    Seq<Seq<char>>,
) {
    if t == SummaryTemplate::MeetingNotes {
        (Seq::empty(), Seq::empty(), Seq::empty())
    } else {
        (
            if t == SummaryTemplate::KeyPoints || t == SummaryTemplate::Full {
                section_items(content, key_point_headers())
            } else {
                Seq::empty()
            },
            if t == SummaryTemplate::ActionItems || t == SummaryTemplate::Full {
                section_items(content, action_item_headers())
            } else {
                Seq::empty()
            },
            if t == SummaryTemplate::Decisions || t == SummaryTemplate::Full {
                section_items(content, decision_headers())
            } else {
                Seq::empty()
            },
        )
    }
}

pub fn parse_sections(content: &str, template: SummaryTemplate) -> (r: (
    Vec<String>,
    Vec<String>,
    Vec<String>,
))
    ensures
        (sviews(r.0@), sviews(r.1@), sviews(r.2@)) == parsed_sections(content@, template),
{
    let mut key_points: Vec<String> = Vec::new();
    let mut action_items: Vec<String> = Vec::new();
    let mut decisions: Vec<String> = Vec::new();
    assert(sviews(key_points@) =~= Seq::<Seq<char>>::empty());
    assert(sviews(action_items@) =~= Seq::<Seq<char>>::empty());
    assert(sviews(decisions@) =~= Seq::<Seq<char>>::empty());
    if template == SummaryTemplate::MeetingNotes {
        return (key_points, action_items, decisions);
    }
    if template == SummaryTemplate::KeyPoints || template == SummaryTemplate::Full {
        let h = vec!["## Key Points", "# Key Points", "Key Points:"];
        assert(str_views(h@) =~= key_point_headers());
        key_points = extract_section(content, h.as_slice());
    }
    if template == SummaryTemplate::ActionItems || template == SummaryTemplate::Full {
        let h = vec!["## Action Items", "# Action Items", "Action Items:"];
        assert(str_views(h@) =~= action_item_headers());
        action_items = extract_section(content, h.as_slice());
    }
    if template == SummaryTemplate::Decisions || template == SummaryTemplate::Full {
        let h = vec!["## Decisions", "# Decisions", "Decisions:"];
        assert(str_views(h@) =~= decision_headers());
        decisions = extract_section(content, h.as_slice());
    }
    (key_points, action_items, decisions)
}

// ---------------------------------------------------------------------------
// Reading back a summary written as instructed
// ---------------------------------------------------------------------------

/// A bullet line of an item.
pub open spec fn bullet(x: Seq<char>) -> Seq<char> {
    "- "@ + x
}

/// The bullet lines of a section, as the system prompt asks: one per item,
/// or `- (none)` for a section without items.
pub open spec fn section_bullets(xs: Seq<Seq<char>>) -> Seq<Seq<char>> {
    if xs.len() == 0 {
        seq!["- (none)"@]
    } else {
        Seq::new(xs.len(), |i: int| bullet(xs[i]))
    }
}

/// The lines of a Markdown summary written as the system prompt asks.
pub open spec fn markdown_summary_lines(
    kp: Seq<Seq<char>>,
    ai: Seq<Seq<char>>,
    dc: Seq<Seq<char>>,
) -> Seq<Seq<char>> {
    seq!["## Key Points"@] + section_bullets(kp) + seq!["## Action Items"@] + section_bullets(ai)
        + seq!["## Decisions"@] + section_bullets(dc)
}

/// An item that reads back as itself: not blank, already trimmed, on one
/// line, and not the `(none)` marker.
pub open spec fn plain_item(x: Seq<char>) -> bool {
    x.len() > 0 && trim(x) == x && !x.contains('\n') && x != "(none)"@
}

/// A line that `str::lines` keeps as it is.
pub open spec fn whole_line(l: Seq<char>) -> bool {
    l.len() > 0 && !l.contains('\n') && strip_cr(l) == l
}

/// A section line written as `* ` and non-blank text gives that text,
/// trimmed, as an item, just as a `- ` bullet with the same text does.
pub proof fn law_star_bullets_are_items(x: Seq<char>)
    requires
        trim(x).len() > 0,
    ensures
        section_item(seq!['*', ' '] + x) == Some(trim(x)),
        x != "(none)"@ ==> section_item(seq!['-', ' '] + x) == section_item(seq!['*', ' '] + x),
{
    reveal_strlit("* ");
    reveal_strlit("- ");
    reveal_strlit("- (none)");
    reveal_strlit("(none)");
    let st = seq!['*', ' '] + x;
    let da = seq!['-', ' '] + x;
    assert(st.take(2) =~= "* "@);
    assert(st.skip(2) =~= x);
    assert(st != "- (none)"@) by {
        assert(st[0] != "- (none)"@[0]);
    }
    assert(da.take(2) =~= "- "@);
    assert(da.skip(2) =~= x);
    if x != "(none)"@ {
        if da == "- (none)"@ {
            assert(x =~= da.skip(2));
            assert("- (none)"@.skip(2) =~= "(none)"@);
        }
    }
}

proof fn lemma_bullet_line(x: Seq<char>)
    requires
        plain_item(x),
    ensures
        whole_line(bullet(x)),
        bullet(x)[0] == '-',
        trim(bullet(x)) == bullet(x),
        !ends_section(bullet(x)),
        section_item(bullet(x)) == Some(x),
{
    reveal_strlit("- ");
    reveal_strlit("-");
    reveal_strlit("(none)");
    reveal_strlit("- (none)");
    lemma_trim_ends(x);
    let b = bullet(x);
    assert(b =~= seq!['-', ' '] + x);
    assert(b.last() == x.last());
    assert(!is_ws('-'));
    assert(is_ws('\r'));
    lemma_trim_noop(b);
    if b.contains('\n') {
        let w = choose|w: int| 0 <= w < b.len() && b[w] == '\n';
        assert(b[w] == x[w - 2]);
        assert(x.contains('\n'));
    }
    assert(b.take(1) =~= "-"@);
    assert(b.take(2) =~= "- "@);
    assert(b.skip(2) =~= x);
    if b == "- (none)"@ {
        assert(x =~= b.skip(2));
        assert(x =~= "(none)"@);
    }
}

proof fn lemma_none_line()
    ensures
        whole_line("- (none)"@),
        ("- (none)"@)[0] == '-',
        trim("- (none)"@) == "- (none)"@,
        !ends_section("- (none)"@),
        section_item("- (none)"@) is None,
{
    reveal_strlit("- (none)");
    reveal_strlit("-");
    let b = "- (none)"@;
    assert(!is_ws('-'));
    assert(!is_ws(')'));
    lemma_trim_noop(b);
    assert(b.take(1) =~= "-"@);
    if b.contains('\n') {
        let w = choose|w: int| 0 <= w < b.len() && b[w] == '\n';
        assert(false);
    }
}

proof fn lemma_heading_line(h: Seq<char>)
    requires
        h.len() > 2,
        h[0] == '#',
        !is_ws(h.last()),
        h.last() != '\n',
        forall|i: int| 0 <= i < h.len() ==> h[i] != '\n',
    ensures
        whole_line(h),
        trim(h) == h,
        ends_section(h),
{
    reveal_strlit("#");
    reveal_strlit("-");
    assert(!is_ws('#'));
    assert(is_ws('\r'));
    lemma_trim_noop(h);
    assert(h.take(1) =~= "#"@);
    assert(h.take(1) != "-"@) by {
        assert(h.take(1)[0] == '#');
    }
    if h.contains('\n') {
        let w = choose|w: int| 0 <= w < h.len() && h[w] == '\n';
        assert(false);
    }
}

proof fn lemma_headings()
    ensures
        whole_line("## Key Points"@),
        trim("## Key Points"@) == "## Key Points"@,
        ends_section("## Key Points"@),
        whole_line("## Action Items"@),
        trim("## Action Items"@) == "## Action Items"@,
        ends_section("## Action Items"@),
        whole_line("## Decisions"@),
        trim("## Decisions"@) == "## Decisions"@,
        ends_section("## Decisions"@),
{
    reveal_strlit("## Key Points");
    reveal_strlit("## Action Items");
    reveal_strlit("## Decisions");
    lemma_heading_line("## Key Points"@);
    lemma_heading_line("## Action Items"@);
    lemma_heading_line("## Decisions"@);
}

/// A line is not one of the headers when each header differs from it in
/// length or, after lower-casing, in the first character.
proof fn lemma_not_header(line: Seq<char>, hs: Seq<Seq<char>>)
    requires
        line.len() > 0,
        trim(line) == line,
        forall|j: int|
            0 <= j < hs.len() ==> (#[trigger] hs[j]).len() != line.len() || (hs[j].len() > 0
                && ascii_lower_char(hs[j][0]) != ascii_lower_char(line[0])),
    ensures
        !is_header_line(line, hs),
{
    assert forall|j: int| 0 <= j < hs.len() implies !eq_ignore_ascii_case(trim(line), #[trigger] hs[j]) by {
        if hs[j].len() == line.len() {
            assert(ascii_lower(line)[0] != ascii_lower(hs[j])[0]);
        } else {
            assert(ascii_lower(line).len() != ascii_lower(hs[j]).len());
        }
    }
}

proof fn lemma_is_header(line: Seq<char>, hs: Seq<Seq<char>>, j: int)
    requires
        trim(line) == line,
        0 <= j < hs.len(),
        hs[j] == line,
    ensures
        is_header_line(line, hs),
{
    assert(eq_ignore_ascii_case(trim(line), hs[j]));
}

/// The first header is at `p` when no earlier line is one and line `p` is.
proof fn lemma_first_header_at(ls: Seq<Seq<char>>, hs: Seq<Seq<char>>, p: int)
    requires
        0 <= p < ls.len(),
        forall|j: int| 0 <= j < p ==> !is_header_line(#[trigger] ls[j], hs),
        is_header_line(ls[p], hs),
    ensures
        first_header(ls, hs) == Some(p),
{
    lemma_first_header_none_before(ls, hs, p);
    assert(ls.take(p + 1).drop_last() =~= ls.take(p));
    assert(ls.take(p + 1).last() == ls[p]);
    lemma_first_header_keeps(ls, hs, p + 1);
}

proof fn lemma_first_header_none_before(ls: Seq<Seq<char>>, hs: Seq<Seq<char>>, k: int)
    requires
        0 <= k <= ls.len(),
        forall|j: int| 0 <= j < k ==> !is_header_line(#[trigger] ls[j], hs),
    ensures
        first_header(ls.take(k), hs) is None,
    decreases k,
{
    if k > 0 {
        assert(ls.take(k).drop_last() =~= ls.take(k - 1));
        assert(ls.take(k).last() == ls[k - 1]);
        lemma_first_header_none_before(ls, hs, k - 1);
    }
}

proof fn lemma_first_header_keeps(ls: Seq<Seq<char>>, hs: Seq<Seq<char>>, k: int)
    requires
        0 <= k <= ls.len(),
        first_header(ls.take(k), hs) is Some,
    ensures
        first_header(ls, hs) == first_header(ls.take(k), hs),
    decreases ls.len() - k,
{
    if k < ls.len() {
        assert(ls.take(k + 1).drop_last() =~= ls.take(k));
        lemma_first_header_keeps(ls, hs, k + 1);
    } else {
        assert(ls.take(k) =~= ls);
    }
}

proof fn lemma_scan_bullets(xs: Seq<Seq<char>>)
    requires
        forall|i: int| 0 <= i < xs.len() ==> plain_item(#[trigger] xs[i]),
    ensures
        section_scan(section_bullets(xs)) == (xs, false),
        forall|i: int| 0 <= i < section_bullets(xs).len() ==> whole_line(#[trigger] section_bullets(xs)[i])
            && section_bullets(xs)[i][0] == '-' && trim(section_bullets(xs)[i]) == section_bullets(xs)[i],
{
    lemma_none_line();
    if xs.len() == 0 {
        let b = section_bullets(xs);
        assert(b.drop_last() =~= Seq::<Seq<char>>::empty());
        assert(section_scan(b.drop_last()) == (Seq::<Seq<char>>::empty(), false));
        assert(xs =~= Seq::<Seq<char>>::empty());
    } else {
        lemma_scan_bullet_prefix(xs, xs.len() as int);
        assert(section_bullets(xs).take(xs.len() as int) =~= section_bullets(xs));
        assert(xs.take(xs.len() as int) =~= xs);
        assert forall|i: int| 0 <= i < section_bullets(xs).len() implies whole_line(
            #[trigger] section_bullets(xs)[i],
        ) && section_bullets(xs)[i][0] == '-' && trim(section_bullets(xs)[i])
            == section_bullets(xs)[i] by {
            lemma_bullet_line(xs[i]);
        }
    }
}

proof fn lemma_scan_bullet_prefix(xs: Seq<Seq<char>>, k: int)
    requires
        xs.len() > 0,
        0 <= k <= xs.len(),
        forall|i: int| 0 <= i < xs.len() ==> plain_item(#[trigger] xs[i]),
    ensures
        section_scan(section_bullets(xs).take(k)) == (xs.take(k), false),
    decreases k,
{
    let b = section_bullets(xs);
    if k == 0 {
        assert(b.take(0) =~= Seq::<Seq<char>>::empty());
        assert(xs.take(0) =~= Seq::<Seq<char>>::empty());
    } else {
        lemma_scan_bullet_prefix(xs, k - 1);
        assert(b.take(k).drop_last() =~= b.take(k - 1));
        assert(b.take(k).last() == bullet(xs[k - 1]));
        lemma_bullet_line(xs[k - 1]);
        assert(xs.take(k - 1).push(xs[k - 1]) =~= xs.take(k));
    }
}

proof fn lemma_scan_stays_ended(p: Seq<Seq<char>>, q: Seq<Seq<char>>)
    requires
        section_scan(p).1,
    ensures
        section_scan(p + q) == section_scan(p),
    decreases q.len(),
{
    if q.len() == 0 {
        assert(p + q =~= p);
    } else {
        assert((p + q).drop_last() =~= p + q.drop_last());
        lemma_scan_stays_ended(p, q.drop_last());
    }
}

/// The items of a section that is followed by a heading and anything else.
proof fn lemma_scan_section_then_heading(xs: Seq<Seq<char>>, h: Seq<Seq<char>>, rest: Seq<Seq<char>>)
    requires
        forall|i: int| 0 <= i < xs.len() ==> plain_item(#[trigger] xs[i]),
        h.len() == 1,
        h[0].len() > 0,
        trim(h[0]) == h[0],
        ends_section(h[0]),
    ensures
        section_scan(section_bullets(xs) + h + rest).0 == xs,
{
    lemma_scan_bullets(xs);
    let p = section_bullets(xs) + h;
    assert(p.drop_last() =~= section_bullets(xs));
    assert(p.last() == h[0]);
    assert(section_scan(p) == (xs, true));
    assert(section_bullets(xs) + h + rest =~= p + rest);
    lemma_scan_stays_ended(p, rest);
}

/// A Markdown summary written as the system prompt asks reads back as the
/// items it was written from: each section gives its items, in order, and
/// a section written as `- (none)` gives none.
pub proof fn law_markdown_sections_read_back(kp: Seq<Seq<char>>, ai: Seq<Seq<char>>, dc: Seq<Seq<char>>)
    requires
        forall|i: int| 0 <= i < kp.len() ==> plain_item(#[trigger] kp[i]),
        forall|i: int| 0 <= i < ai.len() ==> plain_item(#[trigger] ai[i]),
        forall|i: int| 0 <= i < dc.len() ==> plain_item(#[trigger] dc[i]),
    ensures
        parsed_sections(join(markdown_summary_lines(kp, ai, dc), "\n"@), SummaryTemplate::Full) == (
            kp,
            ai,
            dc,
        ),
{
    reveal_strlit("\n");
    reveal_strlit("## Key Points");
    reveal_strlit("# Key Points");
    reveal_strlit("Key Points:");
    reveal_strlit("## Action Items");
    reveal_strlit("# Action Items");
    reveal_strlit("Action Items:");
    reveal_strlit("## Decisions");
    reveal_strlit("# Decisions");
    reveal_strlit("Decisions:");
    let kh = seq!["## Key Points"@];
    let ah = seq!["## Action Items"@];
    let dh = seq!["## Decisions"@];
    let bk = section_bullets(kp);
    let ba = section_bullets(ai);
    let bd = section_bullets(dc);
    let ls = markdown_summary_lines(kp, ai, dc);
    lemma_headings();
    lemma_scan_bullets(kp);
    lemma_scan_bullets(ai);
    lemma_scan_bullets(dc);
    let a = bk.len() as int;
    let b = ba.len() as int;
    assert(ls.len() == a + b + bd.len() + 3);
    assert(ls[0] == "## Key Points"@);
    assert(ls[a + 1] == "## Action Items"@);
    assert(ls[a + b + 2] == "## Decisions"@);
    assert forall|j: int| 1 <= j <= a implies ls[j] == bk[j - 1] by {}
    assert forall|j: int| a + 2 <= j <= a + b + 1 implies ls[j] == ba[j - a - 2] by {}
    assert forall|j: int| a + b + 3 <= j < ls.len() implies ls[j] == bd[j - a - b - 3] by {}
    // the lines of the joined text are the lines written
    assert forall|i: int| 0 <= i < ls.len() implies (#[trigger] ls[i]).len() > 0 && !ls[i].contains(
        '\n',
    ) && strip_cr(ls[i]) == ls[i] by {
        if i == 0 || i == a + 1 || i == a + b + 2 {
        } else if i <= a {
            assert(whole_line(bk[i - 1]));
        } else if i <= a + b + 1 {
            assert(whole_line(ba[i - a - 2]));
        } else {
            assert(whole_line(bd[i - a - b - 3]));
        }
    }
    assert("\n"@ =~= seq!['\n']);
    lemma_lines_of_join(ls);
    let content = join(ls, "\n"@);
    assert(lines(content) == ls);
    // key points: the first line is their header
    lemma_is_header(ls[0], key_point_headers(), 0);
    lemma_first_header_at(ls, key_point_headers(), 0);
    assert(ls.skip(1) =~= bk + ah + (ba + dh + bd));
    lemma_scan_section_then_heading(kp, ah, ba + dh + bd);
    // action items: no line before their header is one
    assert forall|j: int| 0 <= j < a + 1 implies !is_header_line(#[trigger] ls[j], action_item_headers()) by {
        if j == 0 {
            lemma_not_header(ls[0], action_item_headers());
        } else {
            assert(ls[j] == bk[j - 1]);
            lemma_not_header(ls[j], action_item_headers());
        }
    }
    lemma_is_header(ls[a + 1], action_item_headers(), 0);
    lemma_first_header_at(ls, action_item_headers(), a + 1);
    assert(ls.skip(a + 2) =~= ba + dh + bd);
    lemma_scan_section_then_heading(ai, dh, bd);
    assert(ba + dh + bd =~= ba + dh + bd);
    // decisions: no line before their header is one
    assert forall|j: int| 0 <= j < a + b + 2 implies !is_header_line(#[trigger] ls[j], decision_headers()) by {
        if j == 0 || j == a + 1 {
            lemma_not_header(ls[j], decision_headers());
        } else if j <= a {
            assert(ls[j] == bk[j - 1]);
            lemma_not_header(ls[j], decision_headers());
        } else {
            assert(ls[j] == ba[j - a - 2]);
            lemma_not_header(ls[j], decision_headers());
        }
    }
    lemma_is_header(ls[a + b + 2], decision_headers(), 0);
    lemma_first_header_at(ls, decision_headers(), a + b + 2);
    assert(ls.skip(a + b + 3) =~= bd);
}

// ---------------------------------------------------------------------------
// A summary request and its reply
// ---------------------------------------------------------------------------

/// The prompts of a summary request: the system prompt and the user prompt,
/// in the language of the request or else of the configuration.
pub fn summary_prompts(options: &SummarizeOptions, config_language: Option<&str>, transcript: &str) -> (r: (
    String,
    String,
))
    ensures
        r.0@ == system_prompt_text(options.template, options.format),
        r.1@ == prompt_text(
            options.template,
            options.format,
            transcript@,
            match options.language {
                Some(l) => Some(l@),
                None => opt_str_view(config_language),
            },
            options.meeting,
        ),
{
    let language: Option<&str> = match &options.language {
        Some(l) => Some(l.as_str()),
        None => config_language,
    };
    let prompt = build_prompt(options.template, options.format, transcript, language, &options.meeting);
    (system_prompt(options.template, options.format), prompt)
}

/// The result of a summary reply: sections are parsed from Markdown only.
pub fn summary_result(content: String, template: SummaryTemplate, format: SummaryFormat) -> (r:
    SummarizeResult)
    ensures
        r.content@ == content@,
        format == SummaryFormat::Markdown ==> (sviews(r.key_points@), sviews(r.action_items@), sviews(
            r.decisions@,
        )) == parsed_sections(content@, template),
        format == SummaryFormat::RawText ==> r.key_points@.len() == 0 && r.action_items@.len() == 0
            && r.decisions@.len() == 0,
{
    let (key_points, action_items, decisions) = match format {
        SummaryFormat::Markdown => parse_sections(content.as_str(), template),
        SummaryFormat::RawText => (Vec::new(), Vec::new(), Vec::new()),
    };
    SummarizeResult { content, key_points, action_items, decisions }
}

// ---------------------------------------------------------------------------
// The transcript as the model reads it
// ---------------------------------------------------------------------------

/// `{:02}` of a number: at least two digits.
pub open spec fn two_digits(n: nat) -> Seq<char> {
    if n < 10 {
        seq!['0'] + decimal_text(n)
    } else {
        decimal_text(n)
    }
}

/// A segment line: `[mm:ss] text`, from the segment's start in whole seconds.
pub open spec fn segment_line(start_secs: nat, text: Seq<char>) -> Seq<char> {
    "["@ + two_digits(start_secs / 60) + ":"@ + two_digits(start_secs % 60) + "] "@ + trim(text)
}

/// The lines of timed segments.
pub open spec fn segment_lines(segs: Seq<(u64, String)>) -> Seq<Seq<char>> {
    Seq::new(segs.len(), |i: int| segment_line(segs[i].0 as nat, segs[i].1@))
}

pub(crate) fn push_two_digits(out: &mut Vec<char>, n: u64)
    ensures
        final(out)@ == old(out)@ + two_digits(n as nat),
{
    if n < 10 {
        out.push('0');
    }
    let ghost mid = out@;
    push_decimal(out, n);
    proof {
        if n < 10 {
            assert(mid == old(out)@ + seq!['0']);
        }
    }
}

/// The transcript as sent for summarizing: one `[mm:ss] text` line per
/// segment (start times in whole seconds), or the plain text when there are
/// no segments.
pub fn format_transcript(segments: &[(u64, String)], text: &str) -> (r: String)
    ensures
        segments@.len() > 0 ==> r@ == join(segment_lines(segments@), "\n"@),
        segments@.len() == 0 ==> r@ == text@,
{
    if segments.len() == 0 {
        return string_of(&chars_of(text));
    }
    let mut parts: Vec<Vec<char>> = Vec::new();
    let mut i: usize = 0;
    while i < segments.len()
        invariant
            i <= segments@.len(),
            vviews(parts@) == segment_lines(segments@).take(i as int),
        decreases segments.len() - i,
    {
        let secs = segments[i].0;
        let mut line: Vec<char> = Vec::new();
        line.push('[');
        push_two_digits(&mut line, secs / 60);
        line.push(':');
        push_two_digits(&mut line, secs % 60);
        line.push(']');
        line.push(' ');
        let t = trim_str(segments[i].1.as_str());
        extend_chars(&mut line, &t);
        proof {
            reveal_strlit("[");
            reveal_strlit(":");
            reveal_strlit("] ");
            assert(line@ =~= segment_line(secs as nat, segments@[i as int].1@));
        }
        let ghost p0 = vviews(parts@);
        parts.push(line);
        i += 1;
        assert(vviews(parts@) =~= p0.push(segment_line(secs as nat, segments@[i - 1].1@)));
        assert(segment_lines(segments@).take(i as int) =~= segment_lines(segments@).take(i - 1).push(
            segment_line(secs as nat, segments@[i - 1].1@),
        ));
    }
    assert(segment_lines(segments@).take(segments@.len() as int) =~= segment_lines(segments@));
    let nl = chars_of("\n");
    let joined = join_chars(&parts, &nl);
    string_of(&joined)
}

} // verus!
