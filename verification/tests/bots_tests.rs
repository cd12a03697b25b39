use meeting_agent::bots::{
    bot_client_base, bot_path, bot_reply_value, bot_request_headers, bot_status_ok, bot_url,
    bots_list_path,
};
use meeting_agent::config::MeetingBotConfig;
use meeting_agent::json::Json;
use meeting_agent::pipeline::{
    has_speaker_labels, identify_runs, import_temp_name, meeting_title, refine_enabled,
    upload_extension,
};

fn cfg(url: Option<&str>, key: Option<&str>) -> MeetingBotConfig {
    MeetingBotConfig {
        enabled: true,
        url: url.map(|s| s.to_string()),
        api_key: key.map(|s| s.to_string()),
    }
}

#[test]
fn client_base_strips_trailing_slashes() {
    assert_eq!(bot_client_base(&cfg(Some("http://bot:8080//"), None)), Ok("http://bot:8080".to_string()));
    assert_eq!(
        bot_client_base(&cfg(None, None)),
        Err("MEETING_BOT_URL is not set".to_string())
    );
}

#[test]
fn headers_carry_key_when_set() {
    let h = bot_request_headers(&Some("secret".to_string())).unwrap();
    assert_eq!(
        h,
        vec![
            ("X-API-Key".to_string(), "secret".to_string()),
            ("content-type".to_string(), "application/json".to_string())
        ]
    );
    let h = bot_request_headers(&Some(String::new())).unwrap();
    assert_eq!(h, vec![("content-type".to_string(), "application/json".to_string())]);
    let h = bot_request_headers(&None).unwrap();
    assert_eq!(h.len(), 1);
    assert_eq!(
        bot_request_headers(&Some("bad\nkey".to_string())),
        Err("invalid MEETING_BOT_INTERNAL_KEY".to_string())
    );
    assert!(bot_request_headers(&Some("tab\tand é".to_string())).is_ok());
}

#[test]
fn paths_and_urls() {
    assert_eq!(bots_list_path(""), "/bots");
    assert_eq!(bots_list_path("status=active"), "/bots?status=active");
    assert_eq!(bot_path("b1"), "/bots/b1");
    assert_eq!(bot_url("http://h", "/health"), "http://h/health");
}

#[test]
fn statuses_and_replies() {
    assert!(bot_status_ok(200));
    assert!(bot_status_ok(299));
    assert!(!bot_status_ok(300));
    assert!(!bot_status_ok(199));
    assert!(matches!(bot_reply_value(String::new(), None), Json::Null));
    assert!(matches!(bot_reply_value("oops".to_string(), None), Json::Str(s) if s == "oops"));
    assert!(matches!(bot_reply_value("true".to_string(), Some(Json::Bool(true))), Json::Bool(true)));
}

#[test]
fn import_naming() {
    assert_eq!(meeting_title(Some("Standup".to_string()), "/tmp/a.m4a"), "Standup");
    assert_eq!(meeting_title(None, "/tmp/weekly sync.m4a"), "weekly sync");
    assert_eq!(meeting_title(None, "/"), "Untitled Meeting");
    assert_eq!(upload_extension("Talk.M4A"), "m4a");
    assert_eq!(upload_extension("noext"), "bin");
    assert_eq!(import_temp_name("u-1", "wav"), "meeting_agent_import_u-1.wav");
}

#[test]
fn identification_and_refinement_gates() {
    assert!(has_speaker_labels(&[None, Some("SPEAKER_00".to_string())]));
    assert!(!has_speaker_labels(&[None, None]));
    assert!(identify_runs(true, true, Some(2)));
    assert!(!identify_runs(true, true, Some(0)));
    assert!(!identify_runs(true, true, None));
    assert!(!identify_runs(false, true, Some(2)));
    assert!(!identify_runs(true, false, Some(2)));
    assert!(refine_enabled("http://llm"));
    assert!(!refine_enabled("   "));
}
