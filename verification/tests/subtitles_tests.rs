use meeting_agent::subtitles::{format_timestamp, to_srt, to_vtt, Cue, Timestamp};

fn ts(hours: u32, minutes: u32, seconds: u32, millis: u32) -> Timestamp {
    Timestamp { hours, minutes, seconds, millis }
}

#[test]
fn timestamp_parts_are_zero_padded() {
    assert_eq!(format_timestamp(ts(0, 1, 5, 7), ','), "00:01:05,007");
    assert_eq!(format_timestamp(ts(1, 2, 3, 45), '.'), "01:02:03.045");
    assert_eq!(format_timestamp(ts(12, 34, 56, 789), ','), "12:34:56,789");
    assert_eq!(format_timestamp(ts(123, 0, 0, 0), ','), "123:00:00,000");
}

#[test]
fn srt_numbers_cues_and_trims_text() {
    let cues = vec![
        Cue { start: ts(0, 0, 0, 0), end: ts(0, 0, 2, 500), text: "  Hello there ".to_string() },
        Cue { start: ts(0, 0, 2, 500), end: ts(0, 0, 4, 0), text: "General Kenobi".to_string() },
    ];
    assert_eq!(
        to_srt(&cues),
        "1\n00:00:00,000 --> 00:00:02,500\nHello there\n\n2\n00:00:02,500 --> 00:00:04,000\nGeneral Kenobi\n\n"
    );
}

#[test]
fn vtt_has_header_then_cues() {
    let cues = vec![Cue { start: ts(0, 1, 0, 250), end: ts(0, 1, 3, 0), text: "hi\n".to_string() }];
    assert_eq!(to_vtt(&cues), "WEBVTT\n\n00:01:00.250 --> 00:01:03.000\nhi\n\n");
}

#[test]
fn empty_transcripts_export_as_empty_documents() {
    assert_eq!(to_srt(&[]), "");
    assert_eq!(to_vtt(&[]), "WEBVTT\n\n");
}
