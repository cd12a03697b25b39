use meeting_agent::models::{SummaryFormat, SummaryTemplate};
use meeting_agent::summary::{
    build_prompt, extract_section, format_meeting_context, format_transcript, is_section_header,
    meeting_notes_system_prompt, parse_sections, summary_prompts, summary_result, system_prompt,
    MeetingContext, SummarizeOptions,
};

#[test]
fn test_build_prompt_key_points() {
    let p = build_prompt(
        SummaryTemplate::KeyPoints,
        SummaryFormat::Markdown,
        "transcript text",
        None,
        &MeetingContext::default(),
    );
    assert!(p.contains("key points only"));
    assert!(p.contains("transcript text"));
    assert!(!p.contains("Meeting Context:"));
}

#[test]
fn test_build_prompt_full() {
    let p = build_prompt(
        SummaryTemplate::Full,
        SummaryFormat::Markdown,
        "t",
        Some("zh"),
        &MeetingContext::default(),
    );
    assert!(p.contains("all three sections"));
    assert!(p.contains("language: zh"));
}

#[test]
fn test_build_prompt_raw_text() {
    let p = build_prompt(
        SummaryTemplate::Full,
        SummaryFormat::RawText,
        "t",
        None,
        &MeetingContext::default(),
    );
    assert!(p.contains("plain text"));
    assert!(p.contains("without any markdown syntax"));
}

#[test]
fn test_build_prompt_with_participants() {
    let ctx = MeetingContext {
        title: Some("Weekly Sync".to_string()),
        date: Some("2026-07-21T10:00:00Z".to_string()),
        participants: Some(vec!["Alice".to_string(), "Bob".to_string()]),
    };
    let p = build_prompt(
        SummaryTemplate::MeetingNotes,
        SummaryFormat::Markdown,
        "hello transcript",
        None,
        &ctx,
    );
    assert!(p.contains("Meeting Context:"));
    assert!(p.contains("Participants: Alice, Bob"));
    assert!(p.contains("| Participants | Alice, Bob |"));
    assert!(p.contains("| Date | 2026-07-21T10:00:00Z |"));
    assert!(p.contains("Weekly Sync"));
}

#[test]
fn test_parse_sections_full() {
    let content = "## Key Points\n- Point one\n- Point two\n\n## Action Items\n- Do X\n\n## Decisions\n- Decided Y\n";
    let (kp, ai, dec) = parse_sections(content, SummaryTemplate::Full);
    assert_eq!(kp, vec!["Point one".to_string(), "Point two".to_string()]);
    assert_eq!(ai, vec!["Do X".to_string()]);
    assert_eq!(dec, vec!["Decided Y".to_string()]);
}

#[test]
fn test_parse_sections_single_template() {
    let content = "## Key Points\n- Only point\n\n## Action Items\n- Should be ignored\n";
    let (kp, _ai, _dec) = parse_sections(content, SummaryTemplate::KeyPoints);
    assert_eq!(kp, vec!["Only point".to_string()]);
}

#[test]
fn test_parse_sections_missing_section() {
    let content = "Some intro text without any headers.";
    let (kp, ai, dec) = parse_sections(content, SummaryTemplate::Full);
    assert!(kp.is_empty());
    assert!(ai.is_empty());
    assert!(dec.is_empty());
}

#[test]
fn test_parse_sections_none_marker() {
    let content = "## Key Points\n- (none)\n";
    let (kp, _ai, _dec) = parse_sections(content, SummaryTemplate::KeyPoints);
    assert!(kp.is_empty());
}

#[test]
fn test_extract_section_alt_headers() {
    let content = "# Key Points\n- A\n\n# Action Items\n- B\n";
    let kp = extract_section(content, &["## Key Points", "# Key Points", "Key Points:"]);
    assert_eq!(kp, vec!["A".to_string()]);
}

#[test]
fn test_system_prompt_full() {
    let p = system_prompt(SummaryTemplate::Full, SummaryFormat::Markdown);
    assert!(p.contains("key points, action items, and decisions"));
}

#[test]
fn test_system_prompt_raw_text() {
    let p = system_prompt(SummaryTemplate::Full, SummaryFormat::RawText);
    assert!(p.contains("plain text"));
    assert!(!p.contains("Markdown"));
}

#[test]
fn test_format_transcript() {
    let segments = vec![(0u64, "Hello world".to_string()), (65u64, "Second line".to_string())];
    let out = format_transcript(&segments, "");
    assert!(out.contains("[00:00] Hello world"));
    assert!(out.contains("[01:05] Second line"));
}

#[test]
fn test_format_transcript_no_segments_fallback() {
    let out = format_transcript(&[], "Hello world from text");
    assert_eq!(out, "Hello world from text");
}

#[test]
fn test_format_transcript_empty_segments_fallback() {
    let out = format_transcript(&[], "Fallback text");
    assert_eq!(out, "Fallback text");
}

#[test]
fn format_transcript_exact_lines() {
    let segments = vec![(3599u64, "  late  ".to_string()), (7322u64, "later".to_string())];
    assert_eq!(format_transcript(&segments, "x"), "[59:59] late\n[122:02] later");
}

#[test]
fn system_prompt_key_points_markdown_is_exact_text() {
    let p = system_prompt(SummaryTemplate::KeyPoints, SummaryFormat::Markdown);
    assert_eq!(
        p,
        "You are a meeting notes assistant. Read the transcript and produce a structured summary in Markdown. Always wrap each section in a Markdown heading using exactly these names: '## Key Points', '## Action Items', '## Decisions'. Under each heading, list items as Markdown bullet points (one per line, starting with '- '). For this request, focus on: key points. If a section has no content, include the heading anyway with a single line: '- (none)'. Be concise and factual."
    );
}

#[test]
fn meeting_notes_template_uses_notes_system_prompt() {
    let a = system_prompt(SummaryTemplate::MeetingNotes, SummaryFormat::RawText);
    let b = meeting_notes_system_prompt(SummaryFormat::RawText);
    assert_eq!(a, b);
    assert!(a.contains("internship program"));
    assert!(a.contains("Output plain text following the same section order"));
}

#[test]
fn meeting_context_lists_known_fields() {
    let ctx = MeetingContext {
        title: Some("  Sync  ".to_string()),
        date: None,
        participants: Some(vec![" Ann ".to_string(), "  ".to_string(), "Bo".to_string()]),
    };
    let block = format_meeting_context(&ctx);
    assert!(block.starts_with("Meeting Context:\n"));
    assert!(block.contains("Title: Sync"));
    assert!(block.contains("Participants: Ann, Bo"));
    assert!(!block.contains("Date:"));
    assert_eq!(format_meeting_context(&MeetingContext::default()), "");
}

#[test]
fn section_header_detection() {
    assert!(is_section_header("Decisions"));
    assert!(!is_section_header("## Decisions"));
    assert!(is_section_header("Action Items:"));
    assert!(!is_section_header("- Do X"));
}

#[test]
fn summary_result_parses_markdown_only() {
    let content = "## Key Points\n- A\n".to_string();
    let md = summary_result(content.clone(), SummaryTemplate::KeyPoints, SummaryFormat::Markdown);
    assert_eq!(md.key_points, vec!["A".to_string()]);
    let raw = summary_result(content.clone(), SummaryTemplate::KeyPoints, SummaryFormat::RawText);
    assert!(raw.key_points.is_empty());
    assert_eq!(raw.content, content);
}

#[test]
fn summary_prompts_fall_back_to_configured_language() {
    let options = SummarizeOptions {
        template: SummaryTemplate::Decisions,
        format: SummaryFormat::Markdown,
        language: None,
        meeting: MeetingContext::default(),
    };
    let (system, user) = summary_prompts(&options, Some("de"), "words");
    assert!(system.contains("focus on: decisions"));
    assert!(user.contains("language: de"));
    assert!(user.contains("words"));
    let options = SummarizeOptions { language: Some("fr".to_string()), ..options };
    let (_, user) = summary_prompts(&options, Some("de"), "words");
    assert!(user.contains("language: fr"));
}

#[test]
fn markdown_written_as_asked_reads_back() {
    let content = "## Key Points\n- Budget approved\n- Hiring paused\n## Action Items\n- (none)\n## Decisions\n- Ship on Friday";
    let (kp, ai, dc) = parse_sections(content, SummaryTemplate::Full);
    assert_eq!(kp, vec!["Budget approved".to_string(), "Hiring paused".to_string()]);
    assert!(ai.is_empty());
    assert_eq!(dc, vec!["Ship on Friday".to_string()]);
}
