use meeting_agent::orchestrator::{start_decision, StartDecision};
use meeting_agent::jobs::JobState;
use meeting_agent::json::Json;
use meeting_agent::orchestrator::{
    OrchestratorRun, check_request_source, reuse_existing, run_outcome, short_hash, start_step, MeetingEndedEvent,
    OrchestratorConfig, OrchestratorEnv, OrchestratorImportRequest, OrchestratorRunStatus,
    StartStep,
};
use meeting_agent::recordings::{
    extension_from_content_type, filename_from_url, minio_object_url, recording_filename,
    recording_path_url, recording_sources, recordings_query_url, urlencoding_lite,
    RecordingSource,
};
use meeting_agent::webhook::{extract_recording_url, parse_vexa_webhook};
use std::collections::hash_map::DefaultHasher;
use std::hash::{Hash, Hasher};

fn event(status: Option<&str>) -> MeetingEndedEvent {
    MeetingEndedEvent {
        platform: Some("teams".into()),
        native_meeting_id: Some("x".into()),
        meeting_id: None,
        status: status.map(|s| s.to_string()),
        recording_url: None,
        recording_key: None,
        title: None,
        filename: None,
    }
}

fn s(v: &str) -> Json {
    Json::Str(v.to_string())
}

fn obj(entries: Vec<(&str, Json)>) -> Json {
    Json::Object(entries.into_iter().map(|(k, v)| (k.to_string(), v)).collect())
}

#[test]
fn failed_status_not_completed() {
    let e = event(Some("failed"));
    assert!(!e.is_completed());
}

#[test]
fn external_key_platform_native() {
    let e = MeetingEndedEvent {
        platform: Some("teams".into()),
        native_meeting_id: Some("abc-123".into()),
        meeting_id: None,
        status: Some("completed".into()),
        recording_url: None,
        recording_key: None,
        title: None,
        filename: None,
    };
    assert_eq!(e.external_key(), "vexa:teams:abc-123");
    assert!(e.is_completed());
}

#[test]
fn completion_words_in_any_case() {
    for w in ["COMPLETED", "Done", "finished", "stopped", "success", "complete", ""] {
        assert!(event(Some(w)).is_completed(), "{w}");
    }
    assert!(event(None).is_completed());
    assert!(!event(Some("error")).is_completed());
}

#[test]
fn external_key_precedence() {
    let mut e = event(None);
    e.platform = Some("Google_Meet".into());
    assert_eq!(e.external_key_with("u"), "vexa:google_meet:x");
    e.platform = Some(String::new());
    e.meeting_id = Some("m1".into());
    assert_eq!(e.external_key_with("u"), "vexa:meeting:m1");
    e.meeting_id = None;
    e.recording_url = Some("http://h/a.webm".into());
    assert_eq!(e.external_key_with("u"), format!("vexa:url:{}", short_hash("http://h/a.webm")));
    e.recording_url = None;
    e.recording_key = Some("k/1".into());
    assert_eq!(e.external_key_with("u"), "vexa:object:k/1");
    e.recording_key = None;
    assert_eq!(e.external_key_with("u"), "vexa:unknown:u");
    assert!(e.external_key().starts_with("vexa:unknown:"));
}

#[test]
fn short_hash_matches_std_hash_of_str() {
    let mut h = DefaultHasher::new();
    "http://h/a.webm".hash(&mut h);
    assert_eq!(short_hash("http://h/a.webm"), format!("{:x}", h.finish()));
}

#[test]
fn run_status_text_roundtrip() {
    for st in [
        OrchestratorRunStatus::Received,
        OrchestratorRunStatus::Downloading,
        OrchestratorRunStatus::Importing,
        OrchestratorRunStatus::Completed,
        OrchestratorRunStatus::Failed,
        OrchestratorRunStatus::Skipped,
    ] {
        assert_eq!(OrchestratorRunStatus::parse(st.as_str()), st);
    }
    assert_eq!(OrchestratorRunStatus::parse("whatever"), OrchestratorRunStatus::Received);
    assert_eq!(OrchestratorRunStatus::Importing.as_str(), "importing");
}

#[test]
fn request_becomes_completed_event() {
    let req = OrchestratorImportRequest {
        platform: Some("zoom".into()),
        native_meeting_id: Some("1".into()),
        recording_url: None,
        recording_key: Some("k".into()),
        title: Some("T".into()),
        filename: None,
        force: true,
    };
    let e = req.into_event();
    assert_eq!(e.status.as_deref(), Some("completed"));
    assert_eq!(e.platform.as_deref(), Some("zoom"));
    assert_eq!(e.recording_key.as_deref(), Some("k"));
    assert!(e.meeting_id.is_none());
}

#[test]
fn config_from_env() {
    let env = OrchestratorEnv {
        orchestrator_enabled: Some("Yes".into()),
        vexa_api_base: Some("  http://vexa:18056/ ".into()),
        vexa_api_key: Some("  ".into()),
        vexa_webhook_secret: Some("s".into()),
        minio_endpoint: Some("minio:9000//".into()),
        minio_access_key: None,
        minio_secret_key: None,
        minio_bucket: Some("vexa".into()),
        minio_secure: Some("0".into()),
    };
    let c = OrchestratorConfig::from_env(&env);
    assert!(c.enabled);
    assert_eq!(c.vexa_api_base.as_deref(), Some("http://vexa:18056"));
    assert_eq!(c.vexa_api_key, None);
    assert_eq!(c.webhook_secret.as_deref(), Some("s"));
    assert_eq!(c.minio_endpoint.as_deref(), Some("minio:9000"));
    assert!(!c.minio_secure);
}

#[test]
fn minio_url_builds() {
    let mut cfg = OrchestratorConfig::default();
    cfg.minio_endpoint = Some("127.0.0.1:9000".into());
    cfg.minio_bucket = Some("vexa".into());
    assert_eq!(
        minio_object_url(&cfg, "meetings/x.webm").as_deref(),
        Some("http://127.0.0.1:9000/vexa/meetings/x.webm")
    );
}

#[test]
fn minio_url_strips_schemes_and_slashes() {
    let mut cfg = OrchestratorConfig::default();
    cfg.minio_endpoint = Some("https://https://store/".into());
    cfg.minio_bucket = Some("b".into());
    cfg.minio_secure = true;
    assert_eq!(minio_object_url(&cfg, "//k").as_deref(), Some("https://store/b/k"));
    cfg.minio_bucket = None;
    assert_eq!(minio_object_url(&cfg, "k"), None);
}

#[test]
fn urls_and_file_names() {
    assert_eq!(urlencoding_lite("a b/é~"), "a%20b%2F%C3%A9~");
    assert_eq!(
        recordings_query_url("http://v/", "google meet", "a-b"),
        "http://v/recordings?platform=google%20meet&native_meeting_id=a-b"
    );
    assert_eq!(recording_path_url("http://v", "teams", "1"), "http://v/recordings/teams/1");
    assert_eq!(filename_from_url("http://h/x/rec.webm?sig=1/2").as_deref(), Some("rec.webm"));
    assert_eq!(filename_from_url("http://h/x/"), None);
    assert_eq!(filename_from_url("http://h/x/noext"), None);
    assert_eq!(extension_from_content_type(" Audio/X-WAV ; codecs=1").as_deref(), Some("recording.wav"));
    assert_eq!(extension_from_content_type("video/mp4").as_deref(), Some("recording.mp4"));
    assert_eq!(extension_from_content_type("text/html"), None);
    assert_eq!(recording_filename(Some("m.ogg"), "http://h/a.webm", ""), "m.ogg");
    assert_eq!(recording_filename(None, "http://h/a.webm", ""), "a.webm");
    assert_eq!(recording_filename(None, "http://h/a", "audio/mpeg"), "recording.mp3");
    assert_eq!(recording_filename(None, "http://h/a", ""), "recording.webm");
}

#[test]
fn recording_sources_order() {
    let mut e = event(None);
    e.recording_url = Some("http://direct/a.webm".into());
    let cfg = OrchestratorConfig::default();
    match recording_sources(&e, &cfg).as_slice() {
        [RecordingSource::Direct(u)] => assert_eq!(u, "http://direct/a.webm"),
        other => panic!("unexpected {:?}", other),
    }
    e.recording_url = None;
    e.recording_key = Some("k".into());
    let mut cfg = OrchestratorConfig::default();
    cfg.vexa_api_base = Some("http://v".into());
    cfg.minio_endpoint = Some("m".into());
    cfg.minio_bucket = Some("b".into());
    let sources = recording_sources(&e, &cfg);
    assert_eq!(sources.len(), 3);
    assert!(matches!(&sources[0], RecordingSource::Listing(u) if u == "http://v/recordings?platform=teams&native_meeting_id=x"));
    assert!(matches!(&sources[1], RecordingSource::ApiPath(u) if u == "http://v/recordings/teams/x"));
    assert!(matches!(&sources[2], RecordingSource::ObjectStore(u) if u == "http://m/b/k"));
    assert!(recording_sources(&event(None), &OrchestratorConfig::default()).is_empty());
}

#[test]
fn service_decisions() {
    let mut cfg = OrchestratorConfig::default();
    assert_eq!(start_step(&cfg, &event(None), false), StartStep::Disabled);
    cfg.enabled = true;
    assert_eq!(start_step(&cfg, &event(Some("failed")), false), StartStep::SkipNotCompleted);
    assert_eq!(start_step(&cfg, &event(None), false), StartStep::LookUpExisting);
    assert_eq!(start_step(&cfg, &event(None), true), StartStep::StartNew);
    assert!(reuse_existing(OrchestratorRunStatus::Completed));
    assert!(reuse_existing(OrchestratorRunStatus::Received));
    assert!(!reuse_existing(OrchestratorRunStatus::Failed));
    assert!(!reuse_existing(OrchestratorRunStatus::Skipped));
    assert_eq!(run_outcome(Some(JobState::Completed), None), (OrchestratorRunStatus::Completed, None));
    assert_eq!(
        run_outcome(Some(JobState::Cancelled), Some("x".into())),
        (OrchestratorRunStatus::Failed, Some("import cancelled".to_string()))
    );
    assert_eq!(
        run_outcome(Some(JobState::Failed), Some("boom".into())),
        (OrchestratorRunStatus::Failed, Some("boom".to_string()))
    );
    assert_eq!(run_outcome(None, None), (OrchestratorRunStatus::Failed, Some("import failed".to_string())));
    let mut e = event(None);
    e.native_meeting_id = None;
    assert!(check_request_source(&e, &OrchestratorConfig::default()).is_err());
    assert!(check_request_source(&event(None), &OrchestratorConfig::default()).is_ok());
}

#[test]
fn parse_nested_webhook() {
    let v = obj(vec![
        ("status", s("completed")),
        ("meeting", obj(vec![("platform", s("google_meet")), ("native_meeting_id", s("xxx-yyyy-zzz"))])),
        ("recording", obj(vec![("url", s("http://minio:9000/vexa/rec.webm"))])),
    ]);
    let e = parse_vexa_webhook(&v);
    assert_eq!(e.platform.as_deref(), Some("google_meet"));
    assert_eq!(e.native_meeting_id.as_deref(), Some("xxx-yyyy-zzz"));
    assert_eq!(e.recording_url.as_deref(), Some("http://minio:9000/vexa/rec.webm"));
    assert!(e.is_completed());
}

#[test]
fn webhook_field_names_and_blanks() {
    let v = obj(vec![
        ("meetingId", s("")),
        ("id", s("7")),
        ("state", Json::Number("3".into())),
        ("completionReason", s("stopped")),
        ("botName", s("Bot")),
        ("data", obj(vec![("meeting_title", s("ignored: top level wins"))])),
    ]);
    let e = parse_vexa_webhook(&v);
    assert_eq!(e.meeting_id.as_deref(), Some("7"));
    assert_eq!(e.status.as_deref(), Some("stopped"));
    assert_eq!(e.title.as_deref(), Some("Bot"));
    assert!(parse_vexa_webhook(&Json::Array(vec![])).platform.is_none());
}

#[test]
fn extract_url_from_list() {
    let v = Json::Array(vec![obj(vec![("id", s("1")), ("url", s("http://example.com/a.webm"))])]);
    assert_eq!(extract_recording_url(&v).as_deref(), Some("http://example.com/a.webm"));
}

#[test]
fn extract_url_from_nested_lists_and_body() {
    let v = obj(vec![
        ("items", Json::Array(vec![obj(vec![("download_url", s("http://a"))])])),
        ("recordings", Json::Array(vec![obj(vec![("url", Json::Null)])])),
    ]);
    assert_eq!(extract_recording_url(&v).as_deref(), Some("http://a"));
    let v = obj(vec![("recording_url", s("http://b"))]);
    assert_eq!(extract_recording_url(&v).as_deref(), Some("http://b"));
    assert_eq!(extract_recording_url(&Json::Null), None);
}

#[test]
fn runs_record_their_event() {
    let mut e = event(Some("completed"));
    e.title = Some("Weekly".to_string());
    e.recording_key = Some("k/1".to_string());
    let mut run = OrchestratorRun::received(&e, "vexa:teams:x".to_string(), 100);
    assert_eq!(run.source, "vexa");
    assert_eq!(run.status, OrchestratorRunStatus::Received);
    assert_eq!(run.platform.as_deref(), Some("teams"));
    assert_eq!(run.title.as_deref(), Some("Weekly"));
    assert_eq!(run.recording_key.as_deref(), Some("k/1"));
    assert!(run.job_id.is_none() && run.error.is_none());
    run.start_download("job-1".to_string(), 105);
    assert_eq!(run.status, OrchestratorRunStatus::Downloading);
    assert_eq!(run.job_id.as_deref(), Some("job-1"));
    assert_eq!((run.created_at, run.updated_at), (100, 105));
    let r = run.start_result(false);
    assert_eq!(r.run_id, run.id);
    assert_eq!(r.status, OrchestratorRunStatus::Downloading);
    assert_eq!(r.job_id.as_deref(), Some("job-1"));
    assert!(!r.reused);

    let skipped = OrchestratorRun::skipped(&e, "vexa:teams:x".to_string(), "meeting status is not completed", 7);
    assert_eq!(skipped.status, OrchestratorRunStatus::Skipped);
    assert_eq!(skipped.error.as_deref(), Some("meeting status is not completed"));
    assert_ne!(skipped.id, run.id);
    assert!(skipped.start_result(true).reused);
}

#[test]
fn meeting_end_decisions() {
    let done = event(Some("completed"));
    let mut cfg = OrchestratorConfig::default();
    match start_decision(&cfg, &done, false, None) {
        StartDecision::Refuse(e) => assert_eq!(e, "Orchestrator is disabled (set ORCHESTRATOR_ENABLED=true)"),
        other => panic!("unexpected {:?}", other),
    }
    cfg.enabled = true;
    assert!(matches!(start_decision(&cfg, &event(Some("failed")), false, None), StartDecision::RecordSkipped));
    let mut earlier = OrchestratorRun::received(&done, done.external_key(), 5);
    earlier.start_download("job-1".to_string(), 6);
    match start_decision(&cfg, &done, false, Some(&earlier)) {
        StartDecision::Reuse(r) => {
            assert!(r.reused);
            assert_eq!(r.run_id, earlier.id);
            assert_eq!(r.status, OrchestratorRunStatus::Downloading);
            assert_eq!(r.job_id.as_deref(), Some("job-1"));
        }
        other => panic!("unexpected {:?}", other),
    }
    assert!(matches!(start_decision(&cfg, &done, true, Some(&earlier)), StartDecision::StartNew));
    let skipped = OrchestratorRun::skipped(&done, done.external_key(), "meeting status is not completed", 7);
    assert!(matches!(start_decision(&cfg, &done, false, Some(&skipped)), StartDecision::StartNew));
    assert!(matches!(start_decision(&cfg, &done, false, None), StartDecision::StartNew));
}
