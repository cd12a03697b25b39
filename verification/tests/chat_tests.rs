use meeting_agent::chat::{
    frame_chat_body, json_content, looks_like_sse, preview_body, sse_data_payloads,
    stream_content, ChatBody, ChatBodyError,
};
use serde_json::Value;

/// The delta pieces of the stream payloads that decode as chunks.
fn delta_pieces(payloads: &[String]) -> Vec<String> {
    let mut out = Vec::new();
    for p in payloads {
        if let Ok(v) = serde_json::from_str::<Value>(p) {
            if let Some(choices) = v.get("choices").and_then(|c| c.as_array()) {
                for c in choices {
                    if let Some(s) = c.get("delta").and_then(|d| d.get("content")).and_then(|s| s.as_str()) {
                        out.push(s.to_string());
                    }
                }
            }
        }
    }
    out
}

/// The first choice's message content of a non-stream document.
fn decode_message(trimmed: &str) -> Option<Option<String>> {
    let v: Value = serde_json::from_str(trimmed).ok()?;
    let choices = v.get("choices")?.as_array()?;
    match choices.first() {
        None => Some(None),
        Some(c) => Some(Some(c.get("message")?.get("content")?.as_str()?.to_string())),
    }
}

fn parse_chat_completion_body(body: &str, content_type: &str) -> Result<String, ChatBodyError> {
    match frame_chat_body(body, content_type)? {
        ChatBody::Stream { payloads, trimmed } => stream_content(&delta_pieces(&payloads), &trimmed),
        ChatBody::Json { trimmed } => json_content(decode_message(&trimmed), &trimmed),
    }
}

#[test]
fn test_parse_chat_completion_non_stream_json() {
    let body = r#"{"id":"x","choices":[{"index":0,"message":{"role":"assistant","content":"Hello world"},"finish_reason":"stop"}]}"#;
    let content = parse_chat_completion_body(body, "application/json").unwrap();
    assert_eq!(content, "Hello world");
}

#[test]
fn test_parse_chat_completion_sse_stream() {
    let body = "\
data: {\"id\":\"c\",\"object\":\"chat.completion.chunk\",\"choices\":[{\"index\":0,\"delta\":{\"role\":\"assistant\",\"content\":\"## Key\"},\"finish_reason\":null}]}\n\
\n\
data: {\"id\":\"c\",\"object\":\"chat.completion.chunk\",\"choices\":[{\"index\":0,\"delta\":{\"content\":\" Points\"},\"finish_reason\":null}]}\n\
\n\
data: {\"id\":\"c\",\"object\":\"chat.completion.chunk\",\"choices\":[{\"index\":0,\"delta\":{},\"finish_reason\":\"stop\"}]}\n\
\n\
data: [DONE]\n";
    let content = parse_chat_completion_body(body, "text/event-stream").unwrap();
    assert_eq!(content, "## Key Points");
}

#[test]
fn test_parse_chat_completion_sse_detected_from_body() {
    // No event-stream content-type; body still has data: lines.
    let body = "data: {\"choices\":[{\"delta\":{\"content\":\"Hi\"}}]}\n\ndata: [DONE]\n";
    let content = parse_chat_completion_body(body, "application/json").unwrap();
    assert_eq!(content, "Hi");
}

#[test]
fn test_parse_chat_completion_empty_sse_errors() {
    let body = "data: {\"choices\":[{\"delta\":{}}]}\n\ndata: [DONE]\n";
    let err = parse_chat_completion_body(body, "text/event-stream").unwrap_err();
    assert!(err.message().contains("empty content"));
}

#[test]
fn blank_body_is_refused() {
    let err = parse_chat_completion_body("  \n ", "application/json").unwrap_err();
    assert!(matches!(err, ChatBodyError::Empty));
}

#[test]
fn invalid_json_and_missing_content_are_refused() {
    let err = parse_chat_completion_body("{not json", "application/json").unwrap_err();
    assert!(matches!(err, ChatBodyError::InvalidJson { .. }));
    let err = parse_chat_completion_body(r#"{"choices":[]}"#, "application/json").unwrap_err();
    assert!(matches!(err, ChatBodyError::NoContent { .. }));
    let err = parse_chat_completion_body(
        r#"{"choices":[{"message":{"role":"assistant","content":""}}]}"#,
        "application/json",
    )
    .unwrap_err();
    assert!(matches!(err, ChatBodyError::NoContent { .. }));
}

#[test]
fn stream_detection_by_header_or_data_lines() {
    assert!(looks_like_sse("{}", "Text/Event-Stream; charset=utf-8"));
    assert!(looks_like_sse("x\n   data: y", "application/json"));
    assert!(!looks_like_sse("{\"a\":1}", "application/json"));
}

#[test]
fn stream_payloads_stop_at_done_and_skip_comments() {
    let body = ": keep-alive\ndata: a\nevent: x\ndata:\ndata:b\ndata: [DONE]\ndata: c\n";
    assert_eq!(sse_data_payloads(body), vec!["a".to_string(), "b".to_string()]);
}

#[test]
fn previews_are_cut_at_three_hundred_chars() {
    let short = "é".repeat(300);
    assert_eq!(preview_body(&short), short);
    let long = "é".repeat(301);
    let p = preview_body(&long);
    assert_eq!(p.chars().count(), 301);
    assert!(p.ends_with('…'));
    assert!(p.starts_with(&"é".repeat(300)));
}
