use meeting_agent::pipeline::{
    next_retranscribe_step, retranscribe_action, retranscribe_ending, retranscribe_failure,
    RetranscribeAction, RetranscribeStep,
};
use meeting_agent::diarization::{
    detect_best_execution_mode, ort_err, parse_execution_mode, resolve_execution_mode,
    DiarizeError, ExecMode,
};
use meeting_agent::diarize_service::{
    check_diarize_request, check_upload, parse_i32, parse_num_speakers, service_limits,
    validate_whisper_segments,
    WhisperSegment,
};
use meeting_agent::fs::{data_dir_in, meeting_dir};
use meeting_agent::media::{
    audio_file_name, is_mp3, is_wav, mime_for_extension, needs_conversion,
    needs_conversion_by_filename, recording_mime_type, sniff_format,
};
use meeting_agent::metadata::{
    date_from_ymd, parse_filename, recording_date, resolve_metadata, time_from_hms,
    user_metadata_from_flags, CalendarBotMetadata, Date, DateTime, MetadataSources,
    ParsedFilename, Time, UserMetadata,
};
use meeting_agent::models::{Meeting, MeetingStatus, MetadataSource, Person};
use meeting_agent::pipeline::{apply_refined_lines, job_ending, saved_audio_filename, JobEnding};
use meeting_agent::search::escape_fts5_query;
use meeting_agent::jobs::JobState;
use meeting_agent::config::NumberError;

#[test]
fn test_placeholder() {
    // The metadata module's own placeholder test: nothing to check.
}

#[test]
fn escape_fts5_quotes_special_chars() {
    assert_eq!(escape_fts5_query("C++").as_deref(), Some("\"C++\""));
    assert_eq!(escape_fts5_query("hello-world").as_deref(), Some("\"hello-world\""));
    assert_eq!(escape_fts5_query("what's up").as_deref(), Some("\"what's\" \"up\""));
    assert_eq!(escape_fts5_query("foo:bar AND").as_deref(), Some("\"foo:bar\" \"AND\""));
    assert_eq!(escape_fts5_query("say \"hi\"").as_deref(), Some("\"say\" \"\"\"hi\"\"\""));
}

#[test]
fn escape_fts5_blank_query_is_none() {
    assert_eq!(escape_fts5_query(""), None);
    assert_eq!(escape_fts5_query(" \t\n "), None);
}

#[test]
fn mime_for_mp3_and_wav() {
    assert_eq!(mime_for_extension("a.mp3"), "audio/mpeg");
    assert_eq!(mime_for_extension("a.wav"), "audio/wav");
    assert_eq!(mime_for_extension("a"), "audio/mpeg");
    assert_eq!(mime_for_extension("dir/A.WAV"), "audio/wav");
}

#[test]
fn conversion_and_recording_types() {
    assert!(!needs_conversion("/tmp/a.MP3"));
    assert!(!needs_conversion_by_filename("b.wav"));
    assert!(needs_conversion("c.m4a"));
    assert!(needs_conversion("noext"));
    assert!(needs_conversion(".wav"));
    assert_eq!(recording_mime_type("x/rec.Opus"), "audio/ogg");
    assert_eq!(recording_mime_type("rec.m4a"), "audio/mp4");
    assert_eq!(recording_mime_type("rec"), "application/octet-stream");
    assert_eq!(audio_file_name(Some("/a/b/c.mp3")).as_deref(), Some("c.mp3"));
    assert_eq!(audio_file_name(Some("/a/..")), None);
    assert_eq!(audio_file_name(None), None);
}

#[test]
fn sniffing_formats() {
    let wav = b"RIFF\x00\x00\x00\x00WAVEfmt ";
    assert!(is_wav(wav));
    assert_eq!(sniff_format(wav), "wav");
    assert!(is_mp3(b"ID3\x04"));
    assert!(is_mp3(&[0xFF, 0xFB, 0x90]));
    assert_eq!(sniff_format(&[0xFF, 0xE3]), "mp3");
    assert_eq!(sniff_format(&[0x1A, 0x45, 0xDF, 0xA3, 0x00]), "unknown (magic=[1a, 45, df, a3])");
    assert_eq!(sniff_format(b"ab"), "unknown");
    assert_eq!(sniff_format(&[0x00, 0x01, 0x02, 0x03]), format!("unknown (magic={:02x?})", &[0u8, 1, 2, 3]));
}

#[test]
fn execution_modes() {
    assert_eq!(parse_execution_mode("CUDA-fast"), ExecMode::CudaFast);
    assert_eq!(parse_execution_mode("tpu"), ExecMode::Cpu);
    assert_eq!(resolve_execution_mode("Auto", true), ExecMode::CoreMlFast);
    assert_eq!(resolve_execution_mode("auto", false), ExecMode::CudaFast);
    assert_eq!(resolve_execution_mode("migraphx", false), ExecMode::MiGraphX);
    assert_eq!(detect_best_execution_mode(false), ExecMode::CudaFast);
    assert_eq!(ort_err("bad"), "ORT: bad");
    assert_eq!(DiarizeError::PipelineError("x".into()).message(), "diarization pipeline failed: x");
}

#[test]
fn diarize_service_requests() {
    assert_eq!(parse_num_speakers(" 3 ").unwrap(), 3);
    assert_eq!(parse_num_speakers("-0").unwrap(), 0);
    let e = parse_num_speakers("-2").unwrap_err();
    assert_eq!(e.message(), "invalid num_speakers: -2");
    assert_eq!(e.status_code(), 400);
    assert!(parse_num_speakers("two").is_err());
    assert_eq!(parse_i32("-2147483648"), Ok(i32::MIN));
    assert_eq!(parse_i32("-2147483649"), Err(NumberError::TooSmall));
    assert_eq!(parse_i32("2147483648"), Err(NumberError::TooLarge));
    assert_eq!(parse_i32("-"), Err(NumberError::InvalidDigit));
    let missing = check_upload(None, true).unwrap_err();
    assert_eq!(missing.message(), "missing required field: file");
    let missing = check_upload(Some(b"RIFF0000WAVE"), false).unwrap_err();
    assert_eq!(missing.message(), "missing required field: transcript");
    let bad = check_upload(Some(b"abcd"), true).unwrap_err();
    assert_eq!(bad.status_code(), 422);
    assert_eq!(bad.message(), "unsupported audio format: unknown (magic=[61, 62, 63, 64]) (only mp3 and wav allowed)");
    assert!(check_upload(Some(b"ID3"), true).is_ok());
    assert_eq!(service_limits(None, None).unwrap(), (0, 512 * 1024 * 1024));
    assert_eq!(service_limits(Some("4"), Some("1")).unwrap(), (4, 1024 * 1024));
    let err = service_limits(Some("x"), None).unwrap_err();
    assert_eq!(err.message(), "config error: DIARIZE_NUM_SPEAKERS: invalid digit found in string");
    let err = service_limits(None, Some("")).unwrap_err();
    assert_eq!(err.message(), "config error: DIARIZE_MAX_BODY_MB: cannot parse integer from empty string");
}

#[test]
fn data_paths() {
    assert_eq!(data_dir_in(Some("/home/u")).unwrap(), "/home/u/.meeting-agent");
    assert_eq!(data_dir_in(Some("/home/u/")).unwrap(), "/home/u/.meeting-agent");
    assert_eq!(data_dir_in(None).unwrap_err(), "Could not find home directory");
    if let Ok(p) = meeting_dir("m1") {
        assert!(p.ends_with("/.meeting-agent/meetings/m1"));
    }
}

#[test]
fn filename_patterns() {
    let p = parse_filename("/x/2026-07-09_14-30_Weekly_Standup.m4a").unwrap();
    assert_eq!(p.date, Some(Date { year: 2026, month: 7, day: 9 }));
    assert_eq!(p.time, Some(Time { hour: 14, minute: 30, second: 0 }));
    assert_eq!(p.title.as_deref(), Some("Weekly Standup"));
    let p = parse_filename("2026-07-09_Project_Review.mp3").unwrap();
    assert_eq!(p.date, Some(Date { year: 2026, month: 7, day: 9 }));
    assert_eq!(p.time, None);
    assert_eq!(p.title.as_deref(), Some("Project Review"));
    let p = parse_filename("Meeting_20260709.wav").unwrap();
    assert_eq!(p.date, Some(Date { year: 2026, month: 7, day: 9 }));
    assert_eq!(p.title, None);
    let p = parse_filename("Weekly_Team_Sync.ogg").unwrap();
    assert_eq!(p.date, None);
    assert_eq!(p.title.as_deref(), Some("Weekly Team Sync"));
    let p = parse_filename("2026-02-30_Bad_Date.mp3").unwrap();
    assert_eq!(p.date, None);
    assert_eq!(p.title.as_deref(), Some("Bad Date"));
    let p = parse_filename("2026-07-09_25-00_Late.mp3").unwrap();
    assert_eq!(p.time, None);
    assert!(parse_filename("").is_none());
    // Arabic-Indic digits match `\d` but do not parse: no metadata at all.
    assert!(parse_filename("٢٠٢٦-07-09_Topic.mp3").is_none());
}

#[test]
fn dates_and_times() {
    assert!(date_from_ymd(2024, 2, 29).is_some());
    assert!(date_from_ymd(2023, 2, 29).is_none());
    assert!(date_from_ymd(1900, 2, 29).is_none());
    assert!(date_from_ymd(2000, 2, 29).is_some());
    assert!(date_from_ymd(2023, 4, 31).is_none());
    assert!(date_from_ymd(262142, 12, 31).is_some());
    assert!(date_from_ymd(262143, 1, 1).is_none());
    assert!(time_from_hms(23, 59, 59).is_some());
    assert!(time_from_hms(24, 0, 0).is_none());
}

#[test]
fn metadata_precedence() {
    let when = DateTime {
        date: Date { year: 2026, month: 1, day: 2 },
        time: Time { hour: 3, minute: 4, second: 5 },
    };
    let sources = MetadataSources {
        user_provided: Some(UserMetadata {
            title: None,
            date: None,
            participants: Some(vec!["A".into()]),
            location: None,
            organizer: Some("O".into()),
        }),
        calendar_bot: Some(CalendarBotMetadata {
            title: Some("Cal".into()),
            date: None,
            participants: Some(vec!["B".into()]),
            location: Some("Room".into()),
            organizer: Some("X".into()),
        }),
        filename: Some(ParsedFilename {
            date: Some(Date { year: 2026, month: 7, day: 9 }),
            time: None,
            title: Some("File".into()),
        }),
        ffprobe: None,
    };
    let r = resolve_metadata(sources.clone());
    assert_eq!(r.title, "Cal");
    assert_eq!(r.title_source, MetadataSource::CalendarBot);
    assert_eq!(
        r.date,
        Some(DateTime { date: Date { year: 2026, month: 7, day: 9 }, time: Time { hour: 0, minute: 0, second: 0 } })
    );
    assert_eq!(r.date_source, MetadataSource::Filename);
    assert_eq!(r.participants, Some(vec!["A".to_string()]));
    assert_eq!(r.participants_source, MetadataSource::UserProvided);
    assert_eq!(r.location.as_deref(), Some("Room"));
    assert_eq!(r.organizer.as_deref(), Some("O"));
    let mut s2 = sources;
    s2.user_provided.as_mut().unwrap().date = Some(when);
    s2.calendar_bot = None;
    s2.filename = None;
    let r = resolve_metadata(s2);
    assert_eq!(r.date, Some(when));
    assert_eq!(r.title, "Untitled Meeting");
    assert_eq!(r.title_source, MetadataSource::Default);
    assert_eq!(r.location, None);
    assert_eq!(r.location_source, MetadataSource::Default);
}

#[test]
fn pipeline_decisions() {
    assert_eq!(job_ending(true, true, None), JobEnding::Complete);
    assert_eq!(job_ending(false, true, Some(JobState::Cancelled)), JobEnding::AlreadyCancelled);
    assert_eq!(job_ending(false, true, Some(JobState::Processing)), JobEnding::Cancel);
    assert_eq!(job_ending(false, false, Some(JobState::Cancelled)), JobEnding::Fail);
    assert_eq!(saved_audio_filename("talk.m4a", true), "talk.wav");
    assert_eq!(saved_audio_filename("talk.m4a", false), "talk.m4a");
    assert_eq!(saved_audio_filename("", true), "recording.wav");
    let out = apply_refined_lines(
        vec![Some("old".into()), None, None],
        &["  new  ".to_string(), "   ".to_string()],
    );
    assert_eq!(out, vec![Some("new".to_string()), None, None]);
}

#[test]
fn recording_dates_from_the_command_line() {
    let d = recording_date("2026-07-09 14:30:05").unwrap();
    assert_eq!(d.date, Date { year: 2026, month: 7, day: 9 });
    assert_eq!(d.time, Time { hour: 14, minute: 30, second: 5 });
    let d = recording_date("2026-07-09").unwrap();
    assert_eq!(d.time, Time { hour: 0, minute: 0, second: 0 });
    assert!(recording_date("2026-02-30").is_none());
    assert!(recording_date("tomorrow").is_none());
    assert!(recording_date("2026-07-09 25:00:00").is_none());
}

#[test]
fn command_line_metadata_only_when_given() {
    assert!(user_metadata_from_flags(None, None, None, None, None).is_none());
    let u = user_metadata_from_flags(None, None, Some("Room A".to_string()), None, None).unwrap();
    assert_eq!(u.location.as_deref(), Some("Room A"));
    assert!(u.title.is_none());
}

#[test]
fn new_meetings_and_people() {
    let m = Meeting::new("Standup".to_string(), 42);
    assert_eq!(m.title, "Standup");
    assert_eq!(m.status, MeetingStatus::Importing);
    assert_eq!((m.date, m.created_at, m.updated_at), (42, 42, 42));
    assert!(m.transcription.is_none() && m.audio_file.is_none());
    let m2 = Meeting::new("Standup".to_string(), 42);
    assert_ne!(m.id, m2.id);
    let p = Person::new("Alice".to_string(), 9);
    assert_eq!(p.name, "Alice");
    assert!(p.aliases.is_empty());
    assert_eq!(p.id.len(), 36);
}

#[test]
fn retranscribe_steps_stop_when_cancelled() {
    match retranscribe_action(RetranscribeStep::Diarize, true) {
        RetranscribeAction::Stop(e) => assert_eq!(e, "Job cancelled before diarization"),
        other => panic!("unexpected {:?}", other),
    }
    match retranscribe_action(RetranscribeStep::Load, true) {
        RetranscribeAction::Stop(e) => assert_eq!(e, "Job cancelled before starting"),
        other => panic!("unexpected {:?}", other),
    }
    match retranscribe_action(RetranscribeStep::Transcribe, true) {
        RetranscribeAction::Run(s, p) => {
            assert_eq!(s, RetranscribeStep::Transcribe);
            assert_eq!(p, Some(("transcribing", "Starting transcription", Some(10))));
        }
        other => panic!("unexpected {:?}", other),
    }
    match retranscribe_action(RetranscribeStep::Save, false) {
        RetranscribeAction::Run(_, p) => {
            assert_eq!(p, Some(("saving", "Saving new transcript version", Some(95))))
        }
        other => panic!("unexpected {:?}", other),
    }
    match retranscribe_action(RetranscribeStep::Refine, false) {
        RetranscribeAction::Run(_, p) => assert_eq!(p, None),
        other => panic!("unexpected {:?}", other),
    }
    assert_eq!(next_retranscribe_step(RetranscribeStep::Refine), Some(RetranscribeStep::Save));
    assert_eq!(next_retranscribe_step(RetranscribeStep::Save), None);
    assert_eq!(retranscribe_ending(false, true), JobEnding::Cancel);
    assert_eq!(retranscribe_ending(false, false), JobEnding::Fail);
    assert_eq!(retranscribe_ending(true, true), JobEnding::Complete);
    assert_eq!(retranscribe_failure("boom"), "Retranscription failed: boom");
}

#[test]
fn unusable_whisper_segments_are_dropped() {
    let raw = vec![
        WhisperSegment { start: 0.0f64, end: 1.0, text: "hello".to_string() },
        WhisperSegment { start: 1.0, end: 2.0, text: "   ".to_string() },
        WhisperSegment { start: 3.0, end: 2.0, text: "backwards".to_string() },
        WhisperSegment { start: f64::NAN, end: 4.0, text: "nan".to_string() },
        WhisperSegment { start: 4.0, end: 5.0, text: "world".to_string() },
    ];
    let ok: Vec<bool> =
        raw.iter().map(|s| s.start.is_finite() && s.end.is_finite() && s.start < s.end).collect();
    let kept = validate_whisper_segments(raw, &ok);
    let texts: Vec<&str> = kept.iter().map(|s| s.text.as_str()).collect();
    assert_eq!(texts, vec!["hello", "world"]);
}

#[test]
fn separation_requests_are_checked_in_order() {
    let wav: &[u8] = b"RIFF0000WAVE";
    let e = check_diarize_request(Some("-2"), None, false).unwrap_err();
    assert_eq!(e.message(), "invalid num_speakers: -2");
    let e = check_diarize_request(Some("3"), None, true).unwrap_err();
    assert_eq!(e.message(), "missing required field: file");
    let e = check_diarize_request(None, Some(wav), false).unwrap_err();
    assert_eq!(e.message(), "missing required field: transcript");
    let e = check_diarize_request(None, Some(b"abcd"), true).unwrap_err();
    assert_eq!(e.message(), "unsupported audio format: unknown (magic=[61, 62, 63, 64]) (only mp3 and wav allowed)");
    assert_eq!(check_diarize_request(Some(" 2 "), Some(wav), true).unwrap(), Some(2));
    assert_eq!(check_diarize_request(None, Some(wav), true).unwrap(), None);
}
