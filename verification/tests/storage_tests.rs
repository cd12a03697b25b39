use meeting_agent::storage::resolve_meeting_id;
use meeting_agent::storage::stored_transcript_text;
use meeting_agent::cli::{cli_template, format_duration, parse_export_format, ExportFormat};
use meeting_agent::config::{chunk_concurrency_from_env, max_tokens_from_env};
use meeting_agent::models::SummaryTemplate;
use meeting_agent::refine::refine_max_tokens;
use meeting_agent::storage::{
    aliases_from_db, aliases_to_db, centroid_from_bytes, centroid_to_bytes, check_id_prefix,
    check_rename_allowed, effective_renames, pick_prefix_match, sample_relative_path,
};

#[test]
fn short_prefixes_are_refused() {
    assert_eq!(
        check_id_prefix("abc"),
        Err("ID too short, need at least 8 characters".to_string())
    );
    assert_eq!(check_id_prefix("abcdefgh"), Ok(()));
    // Length counts bytes.
    assert_eq!(check_id_prefix("ééé"), Err("ID too short, need at least 8 characters".to_string()));
    assert_eq!(check_id_prefix("éééé"), Ok(()));
}

#[test]
fn prefix_matches_pick_one_or_report_ambiguity() {
    assert_eq!(pick_prefix_match("abcdefgh", vec![]), Ok(None));
    assert_eq!(
        pick_prefix_match("abcdefgh", vec!["abcdefgh-1".to_string()]),
        Ok(Some("abcdefgh-1".to_string()))
    );
    let many = vec!["a1".to_string(), "a2".to_string(), "a3".to_string(), "a4".to_string()];
    assert_eq!(
        pick_prefix_match("abcdefgh", many),
        Err("Ambiguous ID 'abcdefgh', matches: a1, a2, a3".to_string())
    );
    assert_eq!(
        pick_prefix_match("abcdefgh", vec!["x".to_string(), "y".to_string()]),
        Err("Ambiguous ID 'abcdefgh', matches: x, y".to_string())
    );
}

#[test]
fn renames_of_identified_speakers() {
    assert_eq!(check_rename_allowed("SPEAKER_00", None), Ok(()));
    assert_eq!(check_rename_allowed("SPEAKER_00", Some("Guest-2")), Ok(()));
    assert_eq!(
        check_rename_allowed("SPEAKER_00", Some("Alice")),
        Err("Cannot rename speaker 'SPEAKER_00' - identified as 'Alice' from voice bank. Use 'Clear Voice Identification' to reset.".to_string())
    );
    let pairs = vec![
        ("A".to_string(), "A".to_string()),
        ("B".to_string(), "Bob".to_string()),
    ];
    assert_eq!(effective_renames(&pairs), vec![("B".to_string(), "Bob".to_string())]);
}

#[test]
fn sample_paths() {
    assert_eq!(sample_relative_path("p1", "s9"), "voiceprints/p1/samples/s9.wav");
}

#[test]
fn centroid_bytes_roundtrip() {
    let centroid: Vec<f32> = vec![1.0, -0.5, 0.25, f32::MIN_POSITIVE];
    let words: Vec<u32> = centroid.iter().map(|v| v.to_bits()).collect();
    let bytes = centroid_to_bytes(&words);
    let expected: Vec<u8> = centroid.iter().flat_map(|v| v.to_le_bytes()).collect();
    assert_eq!(bytes, expected);
    let back = centroid_from_bytes(&bytes, 4).unwrap();
    let floats: Vec<f32> = back.iter().map(|w| f32::from_bits(*w)).collect();
    assert_eq!(floats, centroid);
}

#[test]
fn centroid_size_mismatch() {
    assert_eq!(
        centroid_from_bytes(&[0, 0, 0], 1),
        Err("centroid blob size 3 does not match dim 1 (expected 4 bytes)".to_string())
    );
    assert_eq!(centroid_from_bytes(&[], 0), Ok(vec![]));
}

#[test]
fn aliases_roundtrip_through_json() {
    assert_eq!(aliases_to_db(&[]), None);
    let a = vec!["Al".to_string(), "A \"quoted\"".to_string()];
    let stored = aliases_to_db(&a).unwrap();
    assert_eq!(stored, r#"["Al","A \"quoted\""]"#);
    assert_eq!(aliases_from_db(Some(stored)), a);
    assert!(aliases_from_db(None).is_empty());
    assert!(aliases_from_db(Some("not json".to_string())).is_empty());
}

#[test]
fn cli_arguments() {
    assert_eq!(cli_template("full"), Ok(SummaryTemplate::Full));
    assert_eq!(cli_template("keypoints"), Ok(SummaryTemplate::KeyPoints));
    assert_eq!(cli_template("action-items"), Ok(SummaryTemplate::ActionItems));
    assert_eq!(
        cli_template("notes"),
        Err("Unknown template: notes. Use: full, key-points, action-items, decisions".to_string())
    );
    assert_eq!(parse_export_format("vtt"), Ok(ExportFormat::Vtt));
    assert_eq!(
        parse_export_format("pdf"),
        Err("Unknown format: pdf. Use: srt, vtt, text, json".to_string())
    );
}

#[test]
fn env_overrides_of_numbers() {
    assert_eq!(chunk_concurrency_from_env(4, "8"), 8);
    assert_eq!(chunk_concurrency_from_env(4, "0"), 1);
    assert_eq!(chunk_concurrency_from_env(4, "x"), 4);
    assert_eq!(chunk_concurrency_from_env(4, " 8"), 4);
    assert_eq!(max_tokens_from_env(2000, "4096"), 4096);
    assert_eq!(max_tokens_from_env(2000, "-1"), 2000);
    assert_eq!(refine_max_tokens(100), 1024);
    assert_eq!(refine_max_tokens(4096), 4096);
}

#[test]
fn durations_as_clock_time() {
    assert_eq!(format_duration(0), "00:00:00");
    assert_eq!(format_duration(3725), "01:02:05");
    assert_eq!(format_duration(360000), "100:00:00");
}

#[test]
fn stored_transcript_text_joins_segments() {
    assert_eq!(
        stored_transcript_text("m1", &["hello".to_string(), "big world".to_string()]),
        Ok("hello big world".to_string())
    );
    assert_eq!(
        stored_transcript_text("m1", &[]),
        Err("Transcript not found for meeting: m1".to_string())
    );
}

#[test]
fn meeting_ids_resolve_from_prefixes() {
    let a = "abcdef12-0000".to_string();
    let b = "abcdef12-1111".to_string();
    assert_eq!(
        resolve_meeting_id("abc", true, vec![a.clone()]),
        Err("ID too short, need at least 8 characters".to_string())
    );
    assert_eq!(resolve_meeting_id("abcdef12-0000", true, vec![]), Ok(Some(a.clone())));
    assert_eq!(resolve_meeting_id("abcdef12", false, vec![]), Ok(None));
    assert_eq!(resolve_meeting_id("abcdef12", false, vec![b.clone()]), Ok(Some(b.clone())));
    assert_eq!(
        resolve_meeting_id("abcdef12", false, vec![a, b]),
        Err("Ambiguous ID 'abcdef12', matches: abcdef12-0000, abcdef12-1111".to_string())
    );
}
