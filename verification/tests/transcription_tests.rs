use meeting_agent::transcription::restore_chunk_order;
use meeting_agent::transcription::{
    default_prompt, merge_chunk_transcripts, retry_step, transcription_url, upload_text_fields,
    AttemptOutcome, ChunkTranscript, RetryStep, MAX_ATTEMPTS,
};

fn chunk(text: &str, language: Option<&str>, segs: Option<Vec<&'static str>>) -> ChunkTranscript<&'static str> {
    ChunkTranscript {
        text: text.to_string(),
        language: language.map(|l| l.to_string()),
        segments: segs,
    }
}

#[test]
fn merge_renumbers_segments_and_joins_text() {
    let merged = merge_chunk_transcripts(vec![
        chunk("hello there", Some("en"), Some(vec!["hello", "there"])),
        chunk("general kenobi", Some("en"), Some(vec!["general", "kenobi"])),
    ]);
    assert_eq!(merged.text, "hello there general kenobi");
    assert_eq!(merged.language.as_deref(), Some("en"));
    let segs = merged.segments.expect("no segments");
    assert_eq!(
        segs,
        vec![(0, "hello"), (1, "there"), (2, "general"), (3, "kenobi")]
    );
}

#[test]
fn merge_single_chunk() {
    let merged = merge_chunk_transcripts(vec![chunk("only chunk", Some("ja"), Some(vec!["only"]))]);
    assert_eq!(merged.text, "only chunk");
    assert_eq!(merged.language.as_deref(), Some("ja"));
    assert_eq!(merged.segments, Some(vec![(0, "only")]));
}

#[test]
fn merge_without_segments_skips_blank_text() {
    let merged = merge_chunk_transcripts(vec![
        chunk("  ", None, None),
        chunk(" no segments ", Some("fr"), Some(vec![])),
        chunk("tail", Some("de"), None),
    ]);
    assert_eq!(merged.text, "no segments tail");
    assert_eq!(merged.language.as_deref(), Some("fr"));
    assert!(merged.segments.is_none());
    let empty = merge_chunk_transcripts::<&str>(vec![]);
    assert_eq!(empty.text, "");
    assert!(empty.language.is_none());
    assert!(empty.segments.is_none());
}

#[test]
fn default_prompts_by_language() {
    assert_eq!(
        default_prompt("en"),
        Some("The following is a clear and structured transcription:")
    );
    assert_eq!(
        default_prompt("id"),
        Some("Berikut adalah transkripsi percakapan yang jelas dan terstruktur:")
    );
    assert!(default_prompt("ja").is_some());
    assert!(default_prompt("ko").is_some());
    assert!(default_prompt("zh").is_some());
    assert_eq!(default_prompt("fr"), None);
    assert_eq!(default_prompt("EN"), None);
}

#[test]
fn upload_fields_defaults_and_prompt_choice() {
    let f = upload_text_fields("whisper-1", None, None, Some("en"));
    assert_eq!(f.len(), 3);
    assert_eq!(f[0], ("model".to_string(), "whisper-1".to_string()));
    assert_eq!(f[1], ("response_format".to_string(), "verbose_json".to_string()));
    assert_eq!(
        f[2],
        ("prompt".to_string(), "The following is a clear and structured transcription:".to_string())
    );
    let f = upload_text_fields("m", Some("json"), Some("names: Ann"), Some("en"));
    assert_eq!(f[1].1, "json");
    assert_eq!(f[2].1, "names: Ann");
    let f = upload_text_fields("m", None, None, Some("xx"));
    assert_eq!(f.len(), 2);
    let f = upload_text_fields("m", None, None, None);
    assert_eq!(f.len(), 2);
}

#[test]
fn url_of_transcriptions_endpoint() {
    assert_eq!(
        transcription_url("https://api.openai.com/v1"),
        "https://api.openai.com/v1/audio/transcriptions"
    );
}

#[test]
fn retries_double_and_stop_at_last_attempt() {
    assert_eq!(MAX_ATTEMPTS, 3);
    assert_eq!(retry_step(1, AttemptOutcome::Success), RetryStep::Accept);
    assert_eq!(retry_step(1, AttemptOutcome::ServerError), RetryStep::RetryAfter(1));
    assert_eq!(retry_step(2, AttemptOutcome::NetworkError), RetryStep::RetryAfter(2));
    assert_eq!(retry_step(3, AttemptOutcome::ServerError), RetryStep::FailStatus);
    assert_eq!(retry_step(3, AttemptOutcome::NetworkError), RetryStep::FailNetwork);
    assert_eq!(retry_step(1, AttemptOutcome::OtherStatus), RetryStep::FailStatus);
}

#[test]
fn chunk_transcripts_return_to_chunk_order() {
    let done = vec![(2usize, "c"), (0, "a"), (3, "d"), (1, "b")];
    assert_eq!(restore_chunk_order(done), vec![(0, "a"), (1, "b"), (2, "c"), (3, "d")]);
    let repeated = vec![(1usize, "x"), (0, "a"), (1, "y")];
    assert_eq!(restore_chunk_order(repeated), vec![(0, "a"), (1, "x"), (1, "y")]);
    assert!(restore_chunk_order(Vec::<(usize, u8)>::new()).is_empty());
}
