use meeting_agent::refine::{refine_chunks, refine_from_replies};
use std::collections::HashMap;

use meeting_agent::chat::{
    frame_chat_body, json_content, looks_like_sse, preview_body, sse_data_payloads, stream_content,
    ChatBody, ChatBodyError,
};
use meeting_agent::refine::{
    apply_refined_chunk, chunk_indexed_lines, chunk_words, finish_refined, indexed_segment_lines,
    join_refined_chunks, parse_indexed_refined_lines, refine_system_prompt, segment_chunk_prompt,
    text_chunk_prompt,
};

#[test]
fn test_parse_indexed_refined_lines() {
    let map = parse_indexed_refined_lines(
        "[0] Hello world.\n[1] SPEAKER_00: Second line.\nnoise\n[2] Third.",
    );
    assert_eq!(map.get(&0).map(String::as_str), Some("Hello world."));
    assert_eq!(map.get(&1).map(String::as_str), Some("Second line."));
    assert_eq!(map.get(&2).map(String::as_str), Some("Third."));
}

#[test]
fn test_chunk_indexed_lines() {
    let lines = vec![
        (0, "[0] a".to_string()),
        (1, "[1] bbb".to_string()),
        (2, "[2] c".to_string()),
    ];
    let chunks = chunk_indexed_lines(&lines, 12);
    assert!(chunks.len() >= 2);
    assert_eq!(chunks.iter().map(|c| c.len()).sum::<usize>(), 3);
}

#[test]
fn chunk_indexed_lines_keeps_order_and_budget() {
    let lines = vec![
        (0, "[0] a".to_string()),
        (1, "[1] bbb".to_string()),
        (2, "[2] c".to_string()),
    ];
    let chunks = chunk_indexed_lines(&lines, 13);
    assert_eq!(chunks.len(), 2);
    assert_eq!(chunks[0], vec![(0, "[0] a".to_string()), (1, "[1] bbb".to_string())]);
    assert_eq!(chunks[1], vec![(2, "[2] c".to_string())]);
    let flat: Vec<(usize, String)> = chunks.into_iter().flatten().collect();
    assert_eq!(flat, lines);
}

#[test]
fn chunk_indexed_lines_empty_gives_one_empty_chunk() {
    let chunks = chunk_indexed_lines(&[], 10);
    assert_eq!(chunks.len(), 1);
    assert!(chunks[0].is_empty());
}

#[test]
fn chunk_indexed_lines_long_line_gets_own_chunk() {
    let lines = vec![(0, "x".repeat(50)), (1, "y".to_string())];
    let chunks = chunk_indexed_lines(&lines, 10);
    assert_eq!(chunks.len(), 2);
    assert_eq!(chunks[0].len(), 1);
}

#[test]
fn chunk_words_packs_by_bytes() {
    assert_eq!(chunk_words("a bb ccc dddd", 6), vec!["a bb".to_string(), "ccc".to_string(), "dddd".to_string()]);
    assert_eq!(chunk_words("  ", 5), vec![String::new()]);
    assert_eq!(chunk_words("one", 1), vec!["one".to_string()]);
    // multi-byte characters count by their UTF-8 length
    assert_eq!(chunk_words("é é", 3), vec!["é".to_string(), "é".to_string()]);
    assert_eq!(chunk_words("é é", 5), vec!["é é".to_string()]);
}

#[test]
fn chunk_words_rejoined_gives_the_words() {
    let text = "The  quick\tbrown fox\njumps over the lazy dog";
    let chunks = chunk_words(text, 10);
    let words: Vec<&str> = text.split_whitespace().collect();
    assert_eq!(chunks.join(" "), words.join(" "));
    for c in &chunks {
        assert!(c.len() <= 10 || !c.contains(' '));
    }
}

#[test]
fn parse_indexed_lines_edge_cases() {
    let map = parse_indexed_refined_lines(
        "  [ 7 ]   12: digits label  \r\n[x] bad index\n[3]\n[4] Plain: keeps colon\n[5] first\n[5] second",
    );
    assert_eq!(map.get(&7).map(String::as_str), Some("digits label"));
    assert!(map.get(&3).is_none());
    assert_eq!(map.get(&4).map(String::as_str), Some("Plain: keeps colon"));
    assert_eq!(map.get(&5).map(String::as_str), Some("second"));
    assert_eq!(map.len(), 3);
    let map = parse_indexed_refined_lines("[9] : empty label");
    assert_eq!(map.get(&9).map(String::as_str), Some("empty label"));
}

#[test]
fn indexed_lines_and_prompts() {
    let texts = vec!["  hi there ".to_string(), "x".to_string()];
    let lines = indexed_segment_lines(&texts);
    assert_eq!(lines, vec![(0, "[0] hi there".to_string()), (1, "[1] x".to_string())]);
    let p = segment_chunk_prompt(0, 2, &lines);
    assert_eq!(
        p,
        "Refine this transcript chunk (1/2). Keep every [N] line; one refined line per input line.\n\n[0] hi there\n[1] x"
    );
    assert_eq!(
        text_chunk_prompt(0, 1, "abc"),
        "Refine this transcript text. Output only the refined text:\n\nabc"
    );
    assert_eq!(
        text_chunk_prompt(2, 3, "abc"),
        "Refine this transcript chunk (3/3). Do not summarize.\n\nabc"
    );
    assert!(refine_system_prompt().starts_with("You are a transcript refinement assistant."));
    assert!(refine_system_prompt().contains("\n8. Do NOT invent"));
}

#[test]
fn refined_chunks_fill_slots_and_fallback_to_raw() {
    let raw = vec![" a ".to_string(), "b".to_string(), "c".to_string()];
    let lines = indexed_segment_lines(&raw);
    let mut slots: Vec<Option<String>> = vec![None; 3];
    let mut parsed = HashMap::new();
    parsed.insert(0usize, "A.".to_string());
    parsed.insert(2usize, "C.".to_string());
    parsed.insert(9usize, "ignored".to_string());
    apply_refined_chunk(&mut slots, &lines[0..2], &parsed);
    assert_eq!(slots, vec![Some("A.".to_string()), None, None]);
    apply_refined_chunk(&mut slots, &lines[2..3], &parsed);
    let result = finish_refined(slots, &raw);
    assert_eq!(result.segment_refined, vec!["A.".to_string(), "b".to_string(), "C.".to_string()]);
    assert_eq!(result.refined_text, "A. b C.");
    let doc = join_refined_chunks(&["one".to_string(), "two".to_string()]);
    assert_eq!(doc.refined_text, "one\n\ntwo");
    assert!(doc.segment_refined.is_empty());
}

#[test]
fn preview_cuts_at_300_chars() {
    let short = "abc";
    assert_eq!(preview_body(short), "abc");
    let long = "é".repeat(301);
    let p = preview_body(&long);
    assert_eq!(p.chars().count(), 301);
    assert!(p.ends_with('…'));
    assert_eq!(preview_body(&"x".repeat(300)), "x".repeat(300));
}

#[test]
fn sse_detection_and_payloads() {
    let body = "data: {\"a\":1}\n\n: comment\nevent: x\ndata:   \ndata: {\"b\":2}\ndata: [DONE]\ndata: {\"c\":3}\n";
    assert!(looks_like_sse(body, "application/json"));
    assert!(looks_like_sse("{}", "Text/Event-Stream; charset=utf-8"));
    assert!(!looks_like_sse("{\"x\": 1}", "application/json"));
    assert_eq!(
        sse_data_payloads(body),
        vec!["{\"a\":1}".to_string(), "{\"b\":2}".to_string()]
    );
}

#[test]
fn chat_body_framing_and_outcomes() {
    match frame_chat_body("   ", "text/event-stream") {
        Err(ChatBodyError::Empty) => {}
        other => panic!("unexpected {:?}", other),
    }
    match frame_chat_body(" {\"choices\":[]} ", "application/json") {
        Ok(ChatBody::Json { trimmed }) => assert_eq!(trimmed, "{\"choices\":[]}"),
        other => panic!("unexpected {:?}", other),
    }
    match frame_chat_body("data: {\"x\":1}\n\ndata: [DONE]\n", "") {
        Ok(ChatBody::Stream { payloads, .. }) => assert_eq!(payloads, vec!["{\"x\":1}".to_string()]),
        other => panic!("unexpected {:?}", other),
    }
    let ok = stream_content(&["## Key".to_string(), " Points".to_string()], "t").unwrap();
    assert_eq!(ok, "## Key Points");
    let err = stream_content(&[], "data: x").unwrap_err();
    assert!(err.message().contains("empty content"));
    assert_eq!(
        err.message(),
        "SSE chat completion produced empty content (body preview: data: x)"
    );
    assert_eq!(json_content(Some(Some("Hello world".to_string())), "b").unwrap(), "Hello world");
    assert!(json_content(Some(Some(String::new())), "b").unwrap_err().message().contains("no content"));
    assert!(json_content(Some(None), "b").unwrap_err().message().contains("no content"));
    assert!(json_content(None, "b").unwrap_err().message().starts_with("invalid non-stream"));
}

#[test]
fn indexed_lines_read_back_by_the_parser() {
    let texts = vec![
        "  hello world ".to_string(),
        "   ".to_string(),
        "second line".to_string(),
        "ünïcode 日本".to_string(),
    ];
    let lines = indexed_segment_lines(&texts);
    let body = lines.iter().map(|(_, l)| l.as_str()).collect::<Vec<_>>().join("\n");
    let map = parse_indexed_refined_lines(&body);
    assert_eq!(map.len(), 3);
    assert_eq!(map.get(&0).map(String::as_str), Some("hello world"));
    assert_eq!(map.get(&1), None);
    assert_eq!(map.get(&2).map(String::as_str), Some("second line"));
    assert_eq!(map.get(&3).map(String::as_str), Some("ünïcode 日本"));
}

#[test]
fn refinement_run_takes_reply_lines_or_keeps_raw_text() {
    let raw = vec![" hello there ".to_string(), "general kenobi".to_string(), "bye".to_string()];
    let chunks = refine_chunks(&raw, 20);
    assert_eq!(
        chunks,
        vec![
            vec![(0, "[0] hello there".to_string())],
            vec![(1, "[1] general kenobi".to_string())],
            vec![(2, "[2] bye".to_string())],
        ]
    );
    let replies = vec![
        "[0] Hello there.".to_string(),
        "nothing useful".to_string(),
        "[2] Bye!\n[7] stray".to_string(),
    ];
    let r = refine_from_replies(&raw, &chunks, &replies);
    assert_eq!(r.segment_refined, vec!["Hello there.", "general kenobi", "Bye!"]);
    assert_eq!(r.refined_text, "Hello there. general kenobi Bye!");
    let one = refine_chunks(&raw, 3000);
    assert_eq!(one.len(), 1);
    let r = refine_from_replies(&raw, &one, &["[1] General Kenobi.".to_string()]);
    assert_eq!(r.segment_refined, vec!["hello there", "General Kenobi.", "bye"]);
}
