use meeting_agent::config::check_parsed_url;
use meeting_agent::config::{Config, SummaryConfig, SummaryEnv, TranscriptionConfig, TranscriptionEnv};
use meeting_agent::orchestrator::OrchestratorConfig;
use meeting_agent::config::{
    default_chunk_concurrency, default_diarize_execution_mode, default_embedding_dim,
    default_embedding_model, default_summary_base_url, default_summary_max_tokens, mask,
    mask_secret, parse_setting, resolve_base_url, resolve_secret, validate_config, validate_diarize,
    validate_server, validate_summary, validate_transcription, validate_url, DiarizeConfig,
    DiarizeEnv, MeetingBotConfig, NumberError, ServerConfig, Setting, SettingError,
    MASK_SENTINEL,
};

fn good_transcription() -> TranscriptionConfig<f64> {
    TranscriptionConfig {
        provider: "openai".into(),
        api_key: None,
        base_url: "https://api.openai.com/v1".into(),
        model: "whisper-1".into(),
        chunk_seconds: 600.0,
        chunk_concurrency: 2,
    }
}

fn good_summary() -> SummaryConfig<f32> {
    SummaryConfig {
        provider: "openai".into(),
        api_key: None,
        base_url: "https://api.openai.com/v1".into(),
        model: "gpt-4o-mini".into(),
        temperature: 0.3,
        max_tokens: 1024,
        language: None,
    }
}

fn check_transcription(t: &TranscriptionConfig<f64>) -> Result<(), Vec<String>> {
    validate_transcription(t, t.chunk_seconds < 0.0)
}

fn check_summary(s: &SummaryConfig<f32>) -> Result<(), Vec<String>> {
    validate_summary(s, !(0.0..=2.0).contains(&s.temperature))
}

fn good_server() -> ServerConfig {
    ServerConfig { port: 8080, host: "127.0.0.1".into(), api_key: None }
}

fn diarize(enabled: bool, mode: &str) -> DiarizeConfig {
    DiarizeConfig { enabled, execution_mode: mode.into(), ..DiarizeConfig::default() }
}

#[test]
fn resolve_secret_keep() {
    assert_eq!(
        resolve_secret(&Some(MASK_SENTINEL.into()), &Some("real".into())),
        Some("real".into())
    );
}

#[test]
fn resolve_secret_replace() {
    assert_eq!(resolve_secret(&Some("new".into()), &Some("old".into())), Some("new".into()));
}

#[test]
fn resolve_secret_clear() {
    assert_eq!(resolve_secret(&None, &Some("old".into())), None);
}

#[test]
fn resolve_secret_clear_when_no_existing() {
    assert_eq!(resolve_secret(&None, &None), None);
}

#[test]
fn resolve_secret_mask_without_existing_stays_unset() {
    assert_eq!(resolve_secret(&Some("****".into()), &None), None);
}

#[test]
fn empty_provider_rejected() {
    let mut t = good_transcription();
    t.provider = "".into();
    let errs = check_transcription(&t).unwrap_err();
    assert!(errs.iter().any(|e| e.contains("provider")));
}

#[test]
fn bad_url_rejected() {
    let mut t = good_transcription();
    t.base_url = "not a url".into();
    assert!(check_transcription(&t).is_err());
}

#[test]
fn ftp_scheme_rejected() {
    let mut t = good_transcription();
    t.base_url = "ftp://example.com".into();
    let errs = check_transcription(&t).unwrap_err();
    assert!(errs.iter().any(|e| e.contains("scheme")));
    assert_eq!(errs, vec!["transcription.base_url: scheme must be http or https, got ftp".to_string()]);
}

#[test]
fn chunk_concurrency_zero_rejected() {
    let mut t = good_transcription();
    t.chunk_concurrency = 0;
    assert!(check_transcription(&t).is_err());
}

#[test]
fn temperature_out_of_range() {
    let mut s = good_summary();
    s.temperature = 3.0;
    let errs = check_summary(&s).unwrap_err();
    assert!(errs.iter().any(|e| e.contains("temperature")));
}

#[test]
fn max_tokens_boundary() {
    let mut s = good_summary();
    s.max_tokens = 31;
    assert!(check_summary(&s).is_err());
    s.max_tokens = 32;
    assert!(check_summary(&s).is_ok());
    s.max_tokens = 8192;
    assert!(check_summary(&s).is_ok());
    s.max_tokens = 8193;
    assert!(check_summary(&s).is_err());
}

#[test]
fn diarize_disabled_skips_validation() {
    let d = diarize(false, "garbage");
    assert!(validate_diarize(&d, false).is_ok());
}

#[test]
fn diarize_enabled_validates() {
    let d = diarize(true, "garbage");
    let errs = validate_diarize(&d, true).unwrap_err();
    assert_eq!(
        errs,
        vec!["diarize.execution_mode must be one of [\"auto\", \"cpu\", \"coreml\", \"coreml-fast\", \"cuda\", \"cuda-fast\", \"migraphx\"] (got garbage)".to_string()]
    );
    let d = diarize(true, "cpu");
    assert!(validate_diarize(&d, true).is_ok());
    let d = DiarizeConfig { enabled: true, ..DiarizeConfig::default() };
    assert!(validate_diarize(&d, true).is_ok());
    assert!(validate_diarize(&diarize(true, "Auto"), true).is_ok());
    let d = DiarizeConfig { model_dir: Some("/nope".into()), ..diarize(true, "CUDA") };
    assert_eq!(
        validate_diarize(&d, false).unwrap_err(),
        vec!["diarize.model_dir not found: /nope".to_string()]
    );
}

#[test]
fn validation_reports_every_error_in_order() {
    let t = TranscriptionConfig {
        provider: " ".into(),
        api_key: None,
        base_url: "".into(),
        model: " ".into(),
        chunk_seconds: -1.0f64,
        chunk_concurrency: 0,
    };
    let errs = check_transcription(&t).unwrap_err();
    assert_eq!(
        errs,
        vec![
            "transcription.provider must not be empty".to_string(),
            "transcription.base_url: must not be empty".to_string(),
            "transcription.model must not be empty".to_string(),
            "transcription.chunk_seconds must be >= 0".to_string(),
            "transcription.chunk_concurrency must be >= 1".to_string(),
        ]
    );
    let errs = validate_url("not a url").unwrap_err();
    assert!(errs.starts_with("invalid URL: "));
    assert!(validate_url("http://localhost:8080/v1").is_ok());
}

#[test]
fn server_validation() {
    assert!(validate_server(&good_server()).is_ok());
    let bad = ServerConfig { port: 0, host: "  ".into(), api_key: None };
    assert_eq!(
        validate_server(&bad).unwrap_err(),
        vec![
            "server.port must be between 1 and 65535".to_string(),
            "server.host must not be empty".to_string(),
        ]
    );
}

#[test]
fn test_resolve_base_url_openai() {
    let cfg = SummaryConfig {
        provider: "openai".to_string(),
        api_key: None,
        base_url: String::new(),
        model: "gpt-4o-mini".to_string(),
        temperature: 0.3,
        max_tokens: 1024,
        language: None,
    };
    let url = cfg.resolve_base_url();
    assert_eq!(url, "https://api.openai.com/v1/chat/completions");
}

#[test]
fn test_resolve_base_url_groq() {
    let cfg = SummaryConfig {
        provider: "groq".to_string(),
        api_key: None,
        base_url: String::new(),
        model: "llama-3.1-70b".to_string(),
        temperature: 0.3,
        max_tokens: 1024,
        language: None,
    };
    let url = cfg.resolve_base_url();
    assert_eq!(url, "https://api.groq.com/openai/v1/chat/completions");
}

#[test]
fn test_resolve_base_url_custom() {
    let cfg = SummaryConfig {
        provider: "custom".to_string(),
        api_key: None,
        base_url: "https://my.endpoint/v1".to_string(),
        model: "m".to_string(),
        temperature: 0.3,
        max_tokens: 1024,
        language: None,
    };
    let url = cfg.resolve_base_url();
    assert_eq!(url, "https://my.endpoint/v1/chat/completions");
}

#[test]
fn test_resolve_base_url_already_full() {
    let cfg = SummaryConfig {
        provider: "custom".to_string(),
        api_key: None,
        base_url: "https://my.endpoint/v1/chat/completions".to_string(),
        model: "m".to_string(),
        temperature: 0.3,
        max_tokens: 1024,
        language: None,
    };
    let url = cfg.resolve_base_url();
    assert_eq!(url, "https://my.endpoint/v1/chat/completions");
}

#[test]
fn resolve_base_url_other_providers_and_slashes() {
    assert_eq!(resolve_base_url("Ollama", ""), "http://localhost:11434/v1/chat/completions");
    assert_eq!(resolve_base_url("OpenRouter", ""), "https://openrouter.ai/api/v1/chat/completions");
    assert_eq!(resolve_base_url("unknown", ""), "https://api.openai.com/v1/chat/completions");
    assert_eq!(resolve_base_url("x", "http://h/v1//"), "http://h/v1/chat/completions");
}

#[test]
fn defaults_are_as_documented() {
    assert_eq!(default_chunk_concurrency(), 2);
    assert_eq!(default_summary_base_url(), "https://api.openai.com/v1");
    assert_eq!(default_summary_max_tokens(), 1024);
    assert_eq!(default_diarize_execution_mode(), "auto");
    assert_eq!(default_embedding_model(), "wespeaker-voxceleb-CAM++_LM");
    assert_eq!(default_embedding_dim(), 512);
    let d = DiarizeConfig::default();
    assert!(!d.enabled);
    assert!(d.uses_campplus_embedding());
}

#[test]
fn masks_hide_secrets() {
    assert_eq!(mask_secret(""), "(not set)");
    assert_eq!(mask_secret("12345678"), "****");
    assert_eq!(mask_secret("sk-abcdefghijkl"), "sk-a****ijkl");
    assert_eq!(mask_secret("ééééé"), "éé****éé");
    assert_eq!(mask(&None), "(not set)");
    assert_eq!(mask(&Some("x".into())), "****");
}

#[test]
fn diarize_env_overrides() {
    let env = DiarizeEnv {
        enabled: Some("YES".into()),
        execution_mode: Some("  cuda ".into()),
        model_dir: Some("   ".into()),
        service_url: Some("http://svc:8001".into()),
        embedding_model: Some(" wespeaker-voxceleb-resnet34 ".into()),
        embedding_dim: None,
    };
    let d = DiarizeConfig::from_env(&env);
    assert!(d.enabled);
    assert_eq!(d.execution_mode, "cuda");
    assert_eq!(d.model_dir, None);
    assert_eq!(d.service_url.as_deref(), Some("http://svc:8001"));
    assert_eq!(d.embedding_model, "wespeaker-voxceleb-resnet34");
    assert_eq!(d.embedding_dim, 256);
    let env = DiarizeEnv { embedding_dim: Some(" 192 ".into()), ..env };
    assert_eq!(DiarizeConfig::from_env(&env).embedding_dim, 192);
    let env = DiarizeEnv { embedding_dim: Some("0".into()), embedding_model: None, ..env };
    assert_eq!(DiarizeConfig::from_env(&env).embedding_dim, 512);
}

#[test]
fn meeting_bot_env() {
    let mut c = MeetingBotConfig::default();
    c.apply_env(Some("true"), Some("  http://bot:9000/// "), Some("   "));
    assert!(c.enabled);
    assert_eq!(c.base_url(), Some("http://bot:9000"));
    assert_eq!(c.api_key, None);
    c.apply_env(Some("no"), Some("///"), Some("k"));
    assert!(!c.enabled);
    assert_eq!(c.base_url(), Some("http://bot:9000"));
    assert_eq!(c.api_key.as_deref(), Some("k"));
}

#[test]
fn server_env() {
    let mut s = ServerConfig::default_config();
    s.apply_env(Some("70000"), Some("localhost"), Some("key"));
    assert_eq!(s.port, 8080);
    assert_eq!(s.host, "localhost");
    s.apply_env(Some("9000"), None, None);
    assert_eq!(s.port, 9000);
    assert_eq!(s.api_key.as_deref(), Some("key"));
}

#[test]
fn config_set_keys() {
    match parse_setting("transcription.chunk_concurrency", "0") {
        Ok(Setting::TranscriptionChunkConcurrency(n)) => assert_eq!(n, 1),
        other => panic!("unexpected {:?}", other),
    }
    match parse_setting("server.port", "80a") {
        Err(SettingError::Number(NumberError::InvalidDigit)) => {}
        other => panic!("unexpected {:?}", other),
    }
    match parse_setting("summary.max_tokens", "") {
        Err(e) => assert_eq!(e.message(), "cannot parse integer from empty string"),
        other => panic!("unexpected {:?}", other),
    }
    match parse_setting("server.port", "65536") {
        Err(e) => assert_eq!(e.message(), "number too large to fit in target type"),
        other => panic!("unexpected {:?}", other),
    }
    match parse_setting("diarize.model_dir", "  /m  ") {
        Ok(Setting::DiarizeModelDir(d)) => assert_eq!(d.as_deref(), Some("/m")),
        other => panic!("unexpected {:?}", other),
    }
    match parse_setting("diarize.enabled", "True") {
        Ok(Setting::DiarizeEnabled(b)) => assert!(b),
        other => panic!("unexpected {:?}", other),
    }
    match parse_setting("nope.key", "v") {
        Err(e) => assert_eq!(e.message(), "Unknown config key: nope.key"),
        other => panic!("unexpected {:?}", other),
    }
    match parse_setting("summary.temperature", "0.7") {
        Ok(Setting::SummaryTemperature(t)) => assert_eq!(t, "0.7"),
        other => panic!("unexpected {:?}", other),
    }
}

#[test]
fn valid_config_passes() {
    let c = Config {
        transcription: good_transcription(),
        summary: good_summary(),
        server: good_server(),
        diarize: diarize(false, "cpu"),
        orchestrator: OrchestratorConfig::default(),
        meeting_bot: MeetingBotConfig::default(),
    };
    let chunk_seconds_negative = c.transcription.chunk_seconds < 0.0;
    let temperature_out_of_range = !(0.0..=2.0).contains(&c.summary.temperature);
    assert!(validate_config(&c, chunk_seconds_negative, temperature_out_of_range, false).is_ok());
}

#[test]
fn service_settings_take_environment_overrides() {
    let mut t = TranscriptionConfig {
        provider: "openai".to_string(),
        api_key: None,
        base_url: "https://api.openai.com/v1".to_string(),
        model: "whisper-1".to_string(),
        chunk_seconds: 600.0f64,
        chunk_concurrency: 2,
    };
    t.apply_env(&TranscriptionEnv {
        provider: Some("groq".to_string()),
        api_key: Some("k".to_string()),
        base_url: None,
        model: None,
        chunk_concurrency: Some("0".to_string()),
    });
    assert_eq!(t.provider, "groq");
    assert_eq!(t.api_key.as_deref(), Some("k"));
    assert_eq!(t.base_url, "https://api.openai.com/v1");
    assert_eq!(t.model, "whisper-1");
    assert_eq!(t.chunk_concurrency, 1);
    assert_eq!(t.chunk_seconds, 600.0);
    t.apply_env(&TranscriptionEnv {
        provider: None,
        api_key: None,
        base_url: None,
        model: None,
        chunk_concurrency: Some("many".to_string()),
    });
    assert_eq!(t.chunk_concurrency, 1);

    let mut s = SummaryConfig {
        provider: "openai".to_string(),
        api_key: Some("old".to_string()),
        base_url: "https://api.openai.com/v1".to_string(),
        model: "gpt-4o-mini".to_string(),
        temperature: 0.3f32,
        max_tokens: 1024,
        language: None,
    };
    s.apply_env(&SummaryEnv {
        provider: None,
        api_key: None,
        base_url: Some("http://localhost:8000/v1".to_string()),
        model: Some("m".to_string()),
        max_tokens: Some("2048".to_string()),
        language: Some("ja".to_string()),
    });
    assert_eq!(s.api_key.as_deref(), Some("old"));
    assert_eq!(s.base_url, "http://localhost:8000/v1");
    assert_eq!(s.model, "m");
    assert_eq!(s.max_tokens, 2048);
    assert_eq!(s.language.as_deref(), Some("ja"));
    s.apply_env(&SummaryEnv {
        provider: None,
        api_key: None,
        base_url: None,
        model: None,
        max_tokens: Some("-1".to_string()),
        language: None,
    });
    assert_eq!(s.max_tokens, 2048);
}

#[test]
fn default_configuration_is_valid_and_collects_all_errors() {
    let c: Config<f64, f32> = Config::with_defaults(600.0, 0.3);
    assert_eq!(c.transcription.model, "whisper-1");
    assert_eq!(c.summary.model, "gpt-4o-mini");
    assert_eq!(c.summary.max_tokens, 1024);
    assert_eq!(c.server.port, 8080);
    assert!(!c.diarize.enabled);
    assert!(validate_config(&c, false, false, false).is_ok());
    let mut bad = c.clone();
    bad.transcription.model = "".into();
    bad.summary.temperature = 5.0;
    bad.summary.max_tokens = 1;
    bad.server.port = 0;
    bad.diarize.enabled = true;
    bad.diarize.execution_mode = "tpu".into();
    let chunk_seconds_negative = bad.transcription.chunk_seconds < 0.0;
    let temperature_out_of_range = !(0.0..=2.0).contains(&bad.summary.temperature);
    let errs =
        validate_config(&bad, chunk_seconds_negative, temperature_out_of_range, false).unwrap_err();
    assert_eq!(
        errs,
        vec![
            "transcription.model must not be empty".to_string(),
            "summary.temperature must be between 0.0 and 2.0".to_string(),
            "summary.max_tokens must be between 32 and 8192".to_string(),
            "server.port must be between 1 and 65535".to_string(),
            "diarize.execution_mode must be one of [\"auto\", \"cpu\", \"coreml\", \"coreml-fast\", \"cuda\", \"cuda-fast\", \"migraphx\"] (got tpu)".to_string(),
        ]
    );
}

#[test]
fn parsed_urls_are_judged_by_scheme() {
    assert_eq!(check_parsed_url(Ok("https".to_string())), Ok(()));
    assert_eq!(check_parsed_url(Ok("http".to_string())), Ok(()));
    assert_eq!(
        check_parsed_url(Ok("ftp".to_string())),
        Err("scheme must be http or https, got ftp".to_string())
    );
    assert_eq!(
        check_parsed_url(Err("relative URL without a base".to_string())),
        Err("invalid URL: relative URL without a base".to_string())
    );
}
