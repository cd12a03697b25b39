//! Configuration: defaults, environment overrides, validation, the summary
//! endpoint, secrets in views and updates, and the CLI's `config set` keys.
//! Floating-point settings (chunk length, temperature) are parsed and checked
//! by the caller; the rest is here.
use vstd::prelude::*;

use crate::orchestrator::{is_default_orchestrator, kept_value, ov, truthy, OrchestratorConfig};
use crate::text::{
    chars_of, ends_with, ends_with_chars, eq_str, extend_chars, extend_str, parse_unsigned,
    parse_u32, parse_usize, string_of, to_lowercase, trim, trim_str, unicode_lowercase, utf8_len,
    utf8_len_exec, contains, contains_str, to_ascii_lower, ascii_lower, strip_trailing,
    strip_trailing_exec,
};

verus! {

broadcast use vstd::string::group_string_axioms;

// ---------------------------------------------------------------------------
// Defaults
// ---------------------------------------------------------------------------

pub fn default_chunk_concurrency() -> (r: usize)
    ensures
        r == 2,
{
    2
}

pub fn default_summary_base_url() -> (r: String)
    ensures
        r@ == "https://api.openai.com/v1"@,
{
    string_of(&chars_of("https://api.openai.com/v1"))
}

pub fn default_summary_max_tokens() -> (r: u32)
    ensures
        r == 1024,
{
    1024
}

pub fn default_diarize_execution_mode() -> (r: String)
    ensures
        r@ == "auto"@,
{
    string_of(&chars_of("auto"))
}

pub fn default_embedding_model() -> (r: String)
    ensures
        r@ == "wespeaker-voxceleb-CAM++_LM"@,
{
    string_of(&chars_of("wespeaker-voxceleb-CAM++_LM"))
}

pub fn default_embedding_dim() -> (r: u32)
    ensures
        r == 512,
{
    512
}

// ---------------------------------------------------------------------------
// Server
// ---------------------------------------------------------------------------

/// HTTP server settings.
#[derive(Debug, Clone)]
pub struct ServerConfig {
    pub port: u16,
    pub host: String,
    pub api_key: Option<String>,
}

impl ServerConfig {
    /// Port 8080 on all interfaces, open access.
    pub fn default_config() -> (r: Self)
        ensures
            r.port == 8080,
            r.host@ == "0.0.0.0"@,
            r.api_key is None,
    {
        ServerConfig { port: 8080, host: string_of(&chars_of("0.0.0.0")), api_key: None }
    }

    /// Applies `MEETING_AGENT_PORT` (when it parses as a port),
    /// `MEETING_AGENT_HOST` and `MEETING_AGENT_API_KEY`.
    pub fn apply_env(&mut self, port: Option<&str>, host: Option<&str>, api_key: Option<&str>)
        ensures
            final(self).port == match port {
                Some(p) => match parse_unsigned(p@, u16::MAX as nat) {
                    Some(n) => n as u16,
                    None => old(self).port,
                },
                None => old(self).port,
            },
            final(self).host@ == match host {
                Some(h) => h@,
                None => old(self).host@,
            },
            ov(final(self).api_key) == match api_key {
                Some(k) => Some(k@),
                None => ov(old(self).api_key),
            },
    {
        if let Some(p) = port {
            match crate::text::parse_unsigned_exec(&chars_of(p), 65535) {
                Some(n) => {
                    self.port = n as u16;
                },
                None => {},
            }
        }
        if let Some(h) = host {
            self.host = string_of(&chars_of(h));
        }
        if let Some(k) = api_key {
            self.api_key = Some(string_of(&chars_of(k)));
        }
    }
}

/// What `TRANSCRIPTION_CHUNK_CONCURRENCY` makes of the concurrency: the
/// number it reads as, at least one; the current value if it is not a number.
pub open spec fn concurrency_from_env(current: usize, v: Seq<char>) -> usize {
    match parse_unsigned(v, usize::MAX as nat) {
        Some(n) => if n >= 1 {
            n as usize
        } else {
            1usize
        },
        None => current,
    }
}

/// `TRANSCRIPTION_CHUNK_CONCURRENCY`: a number of parallel chunk requests,
/// at least one; a value that is not a number keeps the current setting.
pub fn chunk_concurrency_from_env(current: usize, value: &str) -> (r: usize)
    ensures
        r == concurrency_from_env(current, value@),
{
    match parse_usize(&chars_of(value)) {
        Some(n) => if n >= 1 {
            n
        } else {
            1
        },
        None => current,
    }
}

/// `SUMMARY_MAX_TOKENS`: a token limit; a value that is not a `u32` keeps the
/// current setting.
pub fn max_tokens_from_env(current: u32, value: &str) -> (r: u32)
    ensures
        r == match parse_unsigned(value@, u32::MAX as nat) {
            Some(n) => n as u32,
            None => current,
        },
{
    match parse_u32(&chars_of(value)) {
        Some(n) => n,
        None => current,
    }
}

// ---------------------------------------------------------------------------
// Transcription and summary services
// ---------------------------------------------------------------------------

/// A text setting after an optional override: the override when given.
pub open spec fn overridden(e: Option<String>, old: Seq<char>) -> Seq<char> {
    match e {
        Some(v) => v@,
        None => old,
    }
}

/// An optional text setting after an optional override.
pub open spec fn overridden_opt(e: Option<String>, old: Option<String>) -> Option<Seq<char>> {
    match e {
        Some(v) => Some(v@),
        None => ov(old),
    }
}

fn copy_string(s: &String) -> (r: String)
    ensures
        r@ == s@,
{
    string_of(&chars_of(s.as_str()))
}

/// The transcription service. `F` is the type of the chunk length in
/// seconds (a floating-point number in the program, which reads and checks
/// it itself).
#[derive(Debug, Clone)]
pub struct TranscriptionConfig<F> {
    pub provider: String,
    pub api_key: Option<String>,
    pub base_url: String,
    pub model: String,
    /// Longest audio per request; longer files are split. Zero: no split.
    pub chunk_seconds: F,
    /// Most chunk requests in flight at once.
    pub chunk_concurrency: usize,
}

/// The `TRANSCRIPTION_*` variables that are set, but for the chunk length.
#[derive(Debug, Clone)]
pub struct TranscriptionEnv {
    pub provider: Option<String>,
    pub api_key: Option<String>,
    pub base_url: Option<String>,
    pub model: Option<String>,
    pub chunk_concurrency: Option<String>,
}

impl<F> TranscriptionConfig<F> {
    /// Applies the environment: each variable that is set replaces its
    /// setting (the concurrency only when it reads as a number, then at
    /// least one); the chunk length is left to the caller.
    pub fn apply_env(&mut self, env: &TranscriptionEnv)
        ensures
            final(self).provider@ == overridden(env.provider, old(self).provider@),
            ov(final(self).api_key) == overridden_opt(env.api_key, old(self).api_key),
            final(self).base_url@ == overridden(env.base_url, old(self).base_url@),
            final(self).model@ == overridden(env.model, old(self).model@),
            final(self).chunk_seconds == old(self).chunk_seconds,
            final(self).chunk_concurrency == match env.chunk_concurrency {
                Some(v) => concurrency_from_env(old(self).chunk_concurrency, v@),
                None => old(self).chunk_concurrency,
            },
    {
        if let Some(v) = &env.provider {
            self.provider = copy_string(v);
        }
        if let Some(v) = &env.api_key {
            self.api_key = Some(copy_string(v));
        }
        if let Some(v) = &env.base_url {
            self.base_url = copy_string(v);
        }
        if let Some(v) = &env.model {
            self.model = copy_string(v);
        }
        if let Some(v) = &env.chunk_concurrency {
            self.chunk_concurrency = chunk_concurrency_from_env(self.chunk_concurrency, v.as_str());
        }
    }
}

/// The summary service. `F` is the type of the sampling temperature (a
/// floating-point number in the program, which reads and checks it itself).
#[derive(Debug, Clone)]
pub struct SummaryConfig<F> {
    pub provider: String,
    pub api_key: Option<String>,
    pub base_url: String,
    pub model: String,
    pub temperature: F,
    pub max_tokens: u32,
    /// Language of the summaries; none: the transcript's.
    pub language: Option<String>,
}

/// The `SUMMARY_*` variables that are set, but for the temperature.
#[derive(Debug, Clone)]
pub struct SummaryEnv {
    pub provider: Option<String>,
    pub api_key: Option<String>,
    pub base_url: Option<String>,
    pub model: Option<String>,
    pub max_tokens: Option<String>,
    pub language: Option<String>,
}

impl<F> SummaryConfig<F> {
    /// The chat completions endpoint of the configured service.
    pub fn resolve_base_url(&self) -> (r: String)
        ensures
            r@ == resolved_base_url(self.provider@, self.base_url@),
    {
        resolve_base_url(self.provider.as_str(), self.base_url.as_str())
    }

    /// Applies the environment: each variable that is set replaces its
    /// setting (the token limit only when it reads as a `u32`); the
    /// temperature is left to the caller.
    pub fn apply_env(&mut self, env: &SummaryEnv)
        ensures
            final(self).provider@ == overridden(env.provider, old(self).provider@),
            ov(final(self).api_key) == overridden_opt(env.api_key, old(self).api_key),
            final(self).base_url@ == overridden(env.base_url, old(self).base_url@),
            final(self).model@ == overridden(env.model, old(self).model@),
            final(self).temperature == old(self).temperature,
            final(self).max_tokens == match env.max_tokens {
                Some(v) => match parse_unsigned(v@, u32::MAX as nat) {
                    Some(n) => n as u32,
                    None => old(self).max_tokens,
                },
                None => old(self).max_tokens,
            },
            ov(final(self).language) == overridden_opt(env.language, old(self).language),
    {
        if let Some(v) = &env.provider {
            self.provider = copy_string(v);
        }
        if let Some(v) = &env.api_key {
            self.api_key = Some(copy_string(v));
        }
        if let Some(v) = &env.base_url {
            self.base_url = copy_string(v);
        }
        if let Some(v) = &env.model {
            self.model = copy_string(v);
        }
        if let Some(v) = &env.max_tokens {
            self.max_tokens = max_tokens_from_env(self.max_tokens, v.as_str());
        }
        if let Some(v) = &env.language {
            self.language = Some(copy_string(v));
        }
    }
}

/// The whole configuration. `T` is the type of the transcription chunk
/// length and `S` that of the summary temperature (floating-point numbers
/// in the program).
#[derive(Debug, Clone)]
pub struct Config<T, S> {
    pub transcription: TranscriptionConfig<T>,
    pub summary: SummaryConfig<S>,
    pub server: ServerConfig,
    pub diarize: DiarizeConfig,
    pub orchestrator: OrchestratorConfig,
    pub meeting_bot: MeetingBotConfig,
}

impl<T, S> Config<T, S> {
    /// The configuration written when there is none: OpenAI's `whisper-1`
    /// and `gpt-4o-mini` at `https://api.openai.com/v1`, two chunk requests
    /// at once, 1024 summary tokens, the server on port 8080 of all
    /// interfaces, and the optional services off. The chunk length (600
    /// seconds in the program) and the temperature (0.3) are given.
    pub fn with_defaults(chunk_seconds: T, temperature: S) -> (r: Self)
        ensures
            r.transcription.provider@ == "openai"@,
            r.transcription.api_key is None,
            r.transcription.base_url@ == "https://api.openai.com/v1"@,
            r.transcription.model@ == "whisper-1"@,
            r.transcription.chunk_seconds == chunk_seconds,
            r.transcription.chunk_concurrency == 2,
            r.summary.provider@ == "openai"@,
            r.summary.api_key is None,
            r.summary.base_url@ == "https://api.openai.com/v1"@,
            r.summary.model@ == "gpt-4o-mini"@,
            r.summary.temperature == temperature,
            r.summary.max_tokens == 1024,
            r.summary.language is None,
            r.server.port == 8080,
            r.server.host@ == "0.0.0.0"@,
            r.server.api_key is None,
            is_default_diarize(r.diarize),
            is_default_orchestrator(r.orchestrator),
            is_default_meeting_bot(r.meeting_bot),
    {
        Config {
            transcription: TranscriptionConfig {
                provider: string_of(&chars_of("openai")),
                api_key: None,
                base_url: string_of(&chars_of("https://api.openai.com/v1")),
                model: string_of(&chars_of("whisper-1")),
                chunk_seconds,
                chunk_concurrency: default_chunk_concurrency(),
            },
            summary: SummaryConfig {
                provider: string_of(&chars_of("openai")),
                api_key: None,
                base_url: default_summary_base_url(),
                model: string_of(&chars_of("gpt-4o-mini")),
                temperature,
                max_tokens: default_summary_max_tokens(),
                language: None,
            },
            server: ServerConfig::default_config(),
            diarize: DiarizeConfig::default(),
            orchestrator: OrchestratorConfig::default(),
            meeting_bot: MeetingBotConfig::default(),
        }
    }
}

// ---------------------------------------------------------------------------
// Meeting-bot proxy
// ---------------------------------------------------------------------------

/// Config for proxying to the meeting-bot service.
#[derive(Debug, Clone)]
pub struct MeetingBotConfig {
    /// When false, public `/bots` routes return 503.
    pub enabled: bool,
    /// Base URL of the internal meeting-bot service (no trailing slash).
    pub url: Option<String>,
    /// Optional X-API-Key sent to meeting-bot.
    pub api_key: Option<String>,
}

/// The default meeting-bot settings: off, with no address and no key.
pub open spec fn is_default_meeting_bot(b: MeetingBotConfig) -> bool {
    !b.enabled && b.url is None && b.api_key is None
}

impl Default for MeetingBotConfig {
    fn default() -> (r: Self)
        ensures
            is_default_meeting_bot(r),
    {
        MeetingBotConfig { enabled: false, url: None, api_key: None }
    }
}

impl MeetingBotConfig {
    /// Applies `MEETING_BOT_ENABLED`, `MEETING_BOT_URL` (trimmed, without
    /// trailing slashes, ignored when that leaves nothing) and
    /// `MEETING_BOT_INTERNAL_KEY` (ignored when blank).
    pub fn apply_env(&mut self, enabled: Option<&str>, url: Option<&str>, internal_key: Option<&str>)
        ensures
            final(self).enabled == match enabled {
                Some(v) => truthy(v@),
                None => old(self).enabled,
            },
            ov(final(self).url) == match url {
                Some(u) => if strip_trailing(trim(u@), '/').len() > 0 {
                    Some(strip_trailing(trim(u@), '/'))
                } else {
                    ov(old(self).url)
                },
                None => ov(old(self).url),
            },
            ov(final(self).api_key) == match internal_key {
                Some(k) => if trim(k@).len() > 0 {
                    Some(k@)
                } else {
                    ov(old(self).api_key)
                },
                None => ov(old(self).api_key),
            },
    {
        if let Some(v) = enabled {
            let l = to_lowercase(&chars_of(v));
            self.enabled = eq_str(&l, "1") || eq_str(&l, "true") || eq_str(&l, "yes");
        }
        if let Some(u) = url {
            let t = trim_str(u);
            let s = strip_trailing_exec(&t, '/');
            if s.len() > 0 {
                self.url = Some(string_of(&s));
            }
        }
        if let Some(k) = internal_key {
            if trim_str(k).len() > 0 {
                self.api_key = Some(string_of(&chars_of(k)));
            }
        }
    }

    pub fn base_url(&self) -> (r: Option<&str>)
        ensures
            match self.url {
                Some(u) => r matches Some(s) && s@ == u@,
                None => r is None,
            },
    {
        match &self.url {
            Some(u) => Some(u.as_str()),
            None => None,
        }
    }
}

// ---------------------------------------------------------------------------
// Diarization
// ---------------------------------------------------------------------------

/// Configuration for the optional speaker-diarization step.
#[derive(Debug, Clone)]
pub struct DiarizeConfig {
    /// Whether to run diarization during import. Default false.
    pub enabled: bool,
    /// Execution backend: `auto` (default), `cpu`, `coreml`, `coreml-fast`,
    /// `cuda`, `cuda-fast` or `migraphx`. Only used in-process.
    pub execution_mode: String,
    /// Optional local model directory (downloaded on first use when unset).
    pub model_dir: Option<String>,
    /// Optional HTTP service URL; when set, diarization is remote.
    pub service_url: Option<String>,
    /// Voiceprint embedding model id.
    pub embedding_model: String,
    /// Expected embedding dimension for the selected model.
    pub embedding_dim: u32,
}

/// The default speaker separation settings: off, `auto` execution, models
/// downloaded on first use, in-process, the CAM++ embedding of 512 values.
pub open spec fn is_default_diarize(d: DiarizeConfig) -> bool {
    &&& !d.enabled
    &&& d.execution_mode@ == "auto"@
    &&& d.model_dir is None
    &&& d.service_url is None
    &&& d.embedding_model@ == "wespeaker-voxceleb-CAM++_LM"@
    &&& d.embedding_dim == 512
}

impl Default for DiarizeConfig {
    fn default() -> (r: Self)
        ensures
            is_default_diarize(r),
    {
        DiarizeConfig {
            enabled: false,
            execution_mode: default_diarize_execution_mode(),
            model_dir: None,
            service_url: None,
            embedding_model: default_embedding_model(),
            embedding_dim: default_embedding_dim(),
        }
    }
}

/// The `DIARIZE_*` environment variables, as read.
#[derive(Debug, Clone)]
pub struct DiarizeEnv {
    pub enabled: Option<String>,
    pub execution_mode: Option<String>,
    pub model_dir: Option<String>,
    pub service_url: Option<String>,
    pub embedding_model: Option<String>,
    pub embedding_dim: Option<String>,
}

/// Whether an embedding model id names CAM++ (in any ASCII case).
pub open spec fn is_campplus(model: Seq<char>) -> bool {
    contains(ascii_lower(model), "cam++"@) || contains(ascii_lower(model), "campplus"@)
}

/// The embedding dimension set from `DIARIZE_EMBEDDING_DIM`: a positive `u32`.
pub open spec fn env_dim(v: Seq<char>) -> Option<nat> {
    match parse_unsigned(trim(v), u32::MAX as nat) {
        Some(d) => if d > 0 {
            Some(d)
        } else {
            None
        },
        None => None,
    }
}

/// A switch set from an environment value (`1`, `true` or `yes`).
pub open spec fn env_switch(e: Option<String>, old: bool) -> bool {
    match e {
        Some(v) => truthy(v@),
        None => old,
    }
}

/// A setting replaced by an environment value, trimmed, unless it is blank.
pub open spec fn env_trimmed(e: Option<String>, old: Seq<char>) -> Seq<char> {
    match e {
        Some(v) => if trim(v@).len() > 0 {
            trim(v@)
        } else {
            old
        },
        None => old,
    }
}

/// The embedding dimension after the environment: an explicit positive
/// `DIARIZE_EMBEDDING_DIM`, else the one implied by a model set alone, else
/// the old one.
pub open spec fn env_embedding_dim(env: DiarizeEnv, old: nat) -> nat {
    let after_model: nat = match env.embedding_model {
        Some(m) => if trim(m@).len() > 0 && env.embedding_dim is None {
            if is_campplus(trim(m@)) {
                512
            } else {
                256
            }
        } else {
            old
        },
        None => old,
    };
    match env.embedding_dim {
        Some(d) => match env_dim(d@) {
            Some(n) => n,
            None => after_model,
        },
        None => after_model,
    }
}

impl DiarizeConfig {
    /// Whether the configured embedding model is CAM++ (ORT fbank path).
    pub fn uses_campplus_embedding(&self) -> (b: bool)
        ensures
            b == is_campplus(self.embedding_model@),
    {
        let m = to_ascii_lower(&chars_of(self.embedding_model.as_str()));
        contains_str(&m, "cam++") || contains_str(&m, "campplus")
    }

    /// Applies the `DIARIZE_*` overrides. Setting only the model fills in its
    /// dimension (512 for CAM++, 256 otherwise); a positive dimension given
    /// explicitly wins.
    pub fn apply_env(&mut self, env: &DiarizeEnv)
        ensures
            final(self).enabled == env_switch(env.enabled, old(self).enabled),
            final(self).execution_mode@ == env_trimmed(env.execution_mode, old(self).execution_mode@),
            ov(final(self).model_dir) == kept_value(env.model_dir, ov(old(self).model_dir)),
            ov(final(self).service_url) == kept_value(env.service_url, ov(old(self).service_url)),
            final(self).embedding_model@ == env_trimmed(env.embedding_model, old(self).embedding_model@),
            final(self).embedding_dim == env_embedding_dim(*env, old(self).embedding_dim as nat),
    {
        if let Some(v) = &env.enabled {
            let l = to_lowercase(&chars_of(v.as_str()));
            self.enabled = eq_str(&l, "1") || eq_str(&l, "true") || eq_str(&l, "yes");
        }
        if let Some(m) = &env.execution_mode {
            let t = trim_str(m.as_str());
            if t.len() > 0 {
                self.execution_mode = string_of(&t);
            }
        }
        if let Some(d) = &env.model_dir {
            if trim_str(d.as_str()).len() > 0 {
                self.model_dir = Some(string_of(&chars_of(d.as_str())));
            }
        }
        if let Some(u) = &env.service_url {
            if trim_str(u.as_str()).len() > 0 {
                self.service_url = Some(string_of(&chars_of(u.as_str())));
            }
        }
        if let Some(m) = &env.embedding_model {
            let t = trim_str(m.as_str());
            if t.len() > 0 {
                self.embedding_model = string_of(&t);
                if env.embedding_dim.is_none() {
                    self.embedding_dim = if self.uses_campplus_embedding() {
                        512
                    } else {
                        256
                    };
                }
            }
        }
        if let Some(d) = &env.embedding_dim {
            match parse_u32(&trim_str(d.as_str())) {
                Some(n) => {
                    if n > 0 {
                        self.embedding_dim = n;
                    }
                },
                None => {},
            }
        }
    }

    /// The defaults with the environment applied.
    pub fn from_env(env: &DiarizeEnv) -> (r: Self)
        ensures
            r.enabled == env_switch(env.enabled, false),
            r.execution_mode@ == env_trimmed(env.execution_mode, "auto"@),
            ov(r.model_dir) == kept_value(env.model_dir, None),
            ov(r.service_url) == kept_value(env.service_url, None),
            r.embedding_model@ == env_trimmed(env.embedding_model, "wespeaker-voxceleb-CAM++_LM"@),
            r.embedding_dim == env_embedding_dim(*env, 512),
    {
        let mut c = DiarizeConfig::default();
        c.apply_env(env);
        c
    }
}

// ---------------------------------------------------------------------------
// Summary endpoint
// ---------------------------------------------------------------------------

/// The base URL a known provider's API lives at.
pub open spec fn provider_base(provider_lower: Seq<char>) -> Seq<char> {
    if provider_lower == "openai"@ {
        "https://api.openai.com/v1"@
    } else if provider_lower == "groq"@ {
        "https://api.groq.com/openai/v1"@
    } else if provider_lower == "openrouter"@ {
        "https://openrouter.ai/api/v1"@
    } else if provider_lower == "ollama"@ {
        "http://localhost:11434/v1"@
    } else {
        "https://api.openai.com/v1"@
    }
}

/// The chat completions endpoint: the configured base URL without trailing
/// slashes (or the provider's own when none is configured), with
/// `/chat/completions` appended unless it already ends so.
pub open spec fn resolved_base_url(provider: Seq<char>, base_url: Seq<char>) -> Seq<char> {
    let base = if base_url.len() == 0 {
        provider_base(unicode_lowercase(provider))
    } else {
        strip_trailing(base_url, '/')
    };
    if ends_with(base, "/chat/completions"@) {
        base
    } else {
        base + "/chat/completions"@
    }
}

/// Resolves the chat completions endpoint URL for a summary provider.
pub fn resolve_base_url(provider: &str, base_url: &str) -> (r: String)
    ensures
        r@ == resolved_base_url(provider@, base_url@),
{
    let base: Vec<char> = if base_url.is_empty() {
        let l = to_lowercase(&chars_of(provider));
        let b = if eq_str(&l, "openai") {
            "https://api.openai.com/v1"
        } else if eq_str(&l, "groq") {
            "https://api.groq.com/openai/v1"
        } else if eq_str(&l, "openrouter") {
            "https://openrouter.ai/api/v1"
        } else if eq_str(&l, "ollama") {
            "http://localhost:11434/v1"
        } else {
            "https://api.openai.com/v1"
        };
        chars_of(b)
    } else {
        strip_trailing_exec(&chars_of(base_url), '/')
    };
    let suffix = chars_of("/chat/completions");
    if ends_with_chars(&base, &suffix) {
        string_of(&base)
    } else {
        let mut out = base;
        extend_chars(&mut out, &suffix);
        string_of(&out)
    }
}

// ---------------------------------------------------------------------------
// Secrets
// ---------------------------------------------------------------------------

/// Sentinel used by the HTTP API and CLI to mean "keep the existing key".
pub const MASK_SENTINEL: &'static str = "****";

/// The key after an update: cleared when none is sent, kept when the mask
/// sentinel is sent, replaced otherwise.
pub open spec fn resolved_secret(incoming: Option<Seq<char>>, existing: Option<Seq<char>>) -> Option<
    Seq<char>,
> {
    match incoming {
        None => None,
        Some(v) => if v == "****"@ {
            existing
        } else {
            Some(v)
        },
    }
}

/// Resolves an incoming api_key value against the existing one.
pub fn resolve_secret(incoming: &Option<String>, existing: &Option<String>) -> (r: Option<String>)
    ensures
        ov(r) == resolved_secret(ov(*incoming), ov(*existing)),
{
    match incoming {
        None => None,
        Some(v) => {
            if eq_str(&chars_of(v.as_str()), MASK_SENTINEL) {
                match existing {
                    Some(e) => Some(string_of(&chars_of(e.as_str()))),
                    None => None,
                }
            } else {
                Some(string_of(&chars_of(v.as_str())))
            }
        },
    }
}

/// Sending the mask back keeps a key; sending nothing clears it.
pub proof fn law_mask_keeps_secret(existing: Option<Seq<char>>, v: Seq<char>)
    ensures
        resolved_secret(Some("****"@), existing) == existing,
        resolved_secret(None, existing) is None,
        v != "****"@ ==> resolved_secret(Some(v), existing) == Some(v),
{
}

/// What a read shows of a secret: `****` when one is set.
pub open spec fn masked_view(s: Option<Seq<char>>) -> Seq<char> {
    if s is Some {
        "****"@
    } else {
        "(not set)"@
    }
}

/// Writing back what a read showed of a key that is set keeps that key.
pub proof fn law_masked_read_keeps_key(k: Seq<char>)
    ensures
        resolved_secret(Some(masked_view(Some(k))), Some(k)) == Some(k),
{
}

/// A view of an optional secret: whether one is set, never its value.
pub fn mask(s: &Option<String>) -> (r: String)
    ensures
        r@ == masked_view(crate::orchestrator::ov(*s)),
{
    match s {
        None => string_of(&chars_of("(not set)")),
        Some(_) => string_of(&chars_of("****")),
    }
}

/// Whether the first `n` bytes of `s` end on a character boundary.
pub open spec fn prefix_boundary(s: Seq<char>, n: nat) -> bool {
    exists|k: int| 0 <= k <= s.len() && utf8_len(#[trigger] s.take(k)) == n
}

/// Whether the last `n` bytes of `s` start on a character boundary.
pub open spec fn suffix_boundary(s: Seq<char>, n: nat) -> bool {
    exists|k: int| 0 <= k <= s.len() && utf8_len(#[trigger] s.skip(k)) == n
}

/// A secret shown in a listing: `(not set)` when empty, `****` when at most
/// 8 bytes long, otherwise its first and last 4 bytes around `****`.
pub open spec fn masked_secret(s: Seq<char>) -> Seq<char> {
    if s.len() == 0 {
        "(not set)"@
    } else if utf8_len(s) <= 8 {
        "****"@
    } else {
        let k1 = choose|k: int| 0 <= k <= s.len() && utf8_len(#[trigger] s.take(k)) == 4;
        let k2 = choose|k: int| 0 <= k <= s.len() && utf8_len(#[trigger] s.skip(k)) == 4;
        s.take(k1) + "****"@ + s.skip(k2)
    }
}

proof fn lemma_utf8_len_take_step(s: Seq<char>, k: int)
    requires
        0 <= k < s.len(),
    ensures
        utf8_len(s.take(k + 1)) == utf8_len(s.take(k)) + crate::text::char_utf8_len(s[k]),
        utf8_len(s.take(k + 1)) > utf8_len(s.take(k)),
{
    assert(s.take(k + 1).drop_last() =~= s.take(k));
}

proof fn lemma_utf8_len_take_mono(s: Seq<char>, a: int, b: int)
    requires
        0 <= a < b <= s.len(),
    ensures
        utf8_len(s.take(a)) < utf8_len(s.take(b)),
    decreases b - a,
{
    lemma_utf8_len_take_step(s, b - 1);
    if a < b - 1 {
        lemma_utf8_len_take_mono(s, a, b - 1);
    }
}

proof fn lemma_utf8_len_split(s: Seq<char>, k: int)
    requires
        0 <= k <= s.len(),
    ensures
        utf8_len(s) == utf8_len(s.take(k)) + utf8_len(s.skip(k)),
{
    crate::text::lemma_utf8_len_concat(s.take(k), s.skip(k));
    assert(s.take(k) + s.skip(k) =~= s);
}

/// Shows a secret in a listing without revealing it. For a secret longer
/// than 8 bytes, its 4th byte and its 4th byte from the end must end and
/// start characters.
pub fn mask_secret(s: &str) -> (r: String)
    requires
        utf8_len(s@) > 8 ==> prefix_boundary(s@, 4) && suffix_boundary(s@, 4),
    ensures
        r@ == masked_secret(s@),
{
    let v = chars_of(s);
    if v.len() == 0 {
        return string_of(&chars_of("(not set)"));
    }
    let total = utf8_len_exec(&v);
    if total <= 8 {
        return string_of(&chars_of("****"));
    }
    // characters holding the first 4 bytes
    let mut k1: usize = 0;
    let mut b1: u128 = 0;
    let n0 = v.len();
    while b1 < 4
        invariant
            n0 == v@.len(),
            k1 <= v@.len(),
            b1 == utf8_len(v@.take(k1 as int)),
            b1 <= 4,
            prefix_boundary(v@, 4),
            utf8_len(v@) == total,
            total > 8,
        decreases 4 - b1,
    {
        proof {
            if k1 == v@.len() {
                assert(v@.take(k1 as int) =~= v@);
            }
        }
        assert(k1 < v@.len());
        let c = v[k1];
        let w: u128 = if (c as u32) < 0x80 {
            1
        } else if (c as u32) < 0x800 {
            2
        } else if (c as u32) < 0x10000 {
            3
        } else {
            4
        };
        proof {
            lemma_utf8_len_take_step(v@, k1 as int);
            let kk = choose|k: int| 0 <= k <= v@.len() && utf8_len(#[trigger] v@.take(k)) == 4;
            if b1 + w > 4 {
                if kk <= k1 {
                    if kk < k1 {
                        lemma_utf8_len_take_mono(v@, kk, k1 as int);
                    }
                } else {
                    if kk > k1 + 1 {
                        lemma_utf8_len_take_mono(v@, k1 + 1, kk);
                    }
                }
            }
        }
        b1 = b1 + w;
        k1 += 1;
    }
    // characters holding the last 4 bytes
    let n = v.len();
    let mut k2: usize = n;
    let mut b2: u128 = 0;
    proof {
        assert(v@.skip(n as int) =~= Seq::<char>::empty());
    }
    while b2 < 4
        invariant
            k2 <= v@.len(),
            n == v@.len(),
            b2 == utf8_len(v@.skip(k2 as int)),
            b2 <= 4,
            suffix_boundary(v@, 4),
            utf8_len(v@) == total,
            total > 8,
        decreases k2,
    {
        proof {
            if k2 == 0 {
                assert(v@.skip(0) =~= v@);
            }
        }
        assert(k2 > 0);
        let c = v[k2 - 1];
        let w: u128 = if (c as u32) < 0x80 {
            1
        } else if (c as u32) < 0x800 {
            2
        } else if (c as u32) < 0x10000 {
            3
        } else {
            4
        };
        proof {
            lemma_utf8_len_split(v@, k2 as int);
            lemma_utf8_len_split(v@, k2 - 1);
            lemma_utf8_len_take_step(v@, k2 - 1);
            let kk = choose|k: int| 0 <= k <= v@.len() && utf8_len(#[trigger] v@.skip(k)) == 4;
            lemma_utf8_len_split(v@, kk);
            if b2 + w > 4 {
                if kk >= k2 {
                    if kk > k2 {
                        lemma_utf8_len_take_mono(v@, k2 as int, kk);
                    }
                } else {
                    if kk < k2 - 1 {
                        lemma_utf8_len_take_mono(v@, kk, k2 - 1);
                    }
                }
            }
        }
        b2 = b2 + w;
        k2 -= 1;
    }
    proof {
        let c1 = choose|k: int| 0 <= k <= v@.len() && utf8_len(#[trigger] v@.take(k)) == 4;
        if c1 != k1 {
            if c1 < k1 {
                lemma_utf8_len_take_mono(v@, c1, k1 as int);
            } else {
                lemma_utf8_len_take_mono(v@, k1 as int, c1);
            }
        }
        let c2 = choose|k: int| 0 <= k <= v@.len() && utf8_len(#[trigger] v@.skip(k)) == 4;
        lemma_utf8_len_split(v@, c2);
        lemma_utf8_len_split(v@, k2 as int);
        if c2 != k2 {
            if c2 < k2 {
                lemma_utf8_len_take_mono(v@, c2, k2 as int);
            } else {
                lemma_utf8_len_take_mono(v@, k2 as int, c2);
            }
        }
    }
    let mut out = crate::text::slice_chars(&v, 0, k1);
    extend_str(&mut out, "****");
    let tail = crate::text::slice_chars(&v, k2, n);
    extend_chars(&mut out, &tail);
    assert(out@ =~= v@.take(k1 as int) + "****"@ + v@.skip(k2 as int));
    string_of(&out)
}

// ---------------------------------------------------------------------------
// Validation
// ---------------------------------------------------------------------------

/// What `url::Url::parse` (re-exported by reqwest) gives for a string: the
/// parsed URL's scheme, or the text of the parse error.
pub uninterp spec fn url_parse_outcome(s: Seq<char>) -> Result<Seq<char>, Seq<char>>;

/// `reqwest::Url::parse`: returns the scheme of the parsed URL, or the parse
/// error's message. Trusted: both are named by `url_parse_outcome`, a
/// function of the input alone; nothing else is claimed of the parser.
#[verifier::external_body]
fn parse_url_scheme(url: &str) -> (r: Result<String, String>)
    ensures
        match r {
            Ok(s) => url_parse_outcome(url@) == Ok::<Seq<char>, Seq<char>>(s@),
            Err(e) => url_parse_outcome(url@) == Err::<Seq<char>, Seq<char>>(e@),
        },
{
    match reqwest::Url::parse(url) {
        Ok(u) => Ok(u.scheme().to_string()),
        Err(e) => Err(e.to_string()),
    }
}

/// What is wrong with a URL setting: blank, unparsable, or not http(s).
pub open spec fn url_problem(url: Seq<char>) -> Option<Seq<char>> {
    if trim(url).len() == 0 {
        Some("must not be empty"@)
    } else {
        parsed_url_problem(url_parse_outcome(url))
    }
}

/// What is wrong with a URL that is not blank, given what the parser made
/// of it: its scheme, or the parse error.
pub open spec fn parsed_url_problem(outcome: Result<Seq<char>, Seq<char>>) -> Option<Seq<char>> {
    match outcome {
        Err(e) => Some("invalid URL: "@ + e),
        Ok(scheme) => if scheme == "http"@ || scheme == "https"@ {
            None
        } else {
            Some("scheme must be http or https, got "@ + scheme)
        },
    }
}

/// Judges a parsed URL: a parse error is refused with its message, and a
/// scheme other than `http` and `https` is refused.
pub fn check_parsed_url(outcome: Result<String, String>) -> (r: Result<(), String>)
    ensures
        match parsed_url_problem(
            match outcome {
                Ok(s) => Ok::<Seq<char>, Seq<char>>(s@),
                Err(e) => Err::<Seq<char>, Seq<char>>(e@),
            },
        ) {
            Some(m) => r matches Err(e) && e@ == m,
            None => r is Ok,
        },
{
    match outcome {
        Err(e) => {
            let mut out = chars_of("invalid URL: ");
            extend_str(&mut out, e.as_str());
            Err(string_of(&out))
        },
        Ok(scheme) => {
            let sc = chars_of(scheme.as_str());
            if eq_str(&sc, "http") || eq_str(&sc, "https") {
                Ok(())
            } else {
                let mut out = chars_of("scheme must be http or https, got ");
                extend_chars(&mut out, &sc);
                Err(string_of(&out))
            }
        },
    }
}

/// The errors a validation reported (none for `Ok`).
pub open spec fn reported_errors(r: Result<(), Vec<String>>) -> Seq<Seq<char>> {
    match r {
        Ok(_) => Seq::empty(),
        Err(v) => crate::text::sviews(v@),
    }
}

fn append_errors(all: &mut Vec<String>, r: Result<(), Vec<String>>)
    ensures
        crate::text::sviews(final(all)@) == crate::text::sviews(old(all)@) + reported_errors(r),
{
    match r {
        Ok(_) => {
            assert(crate::text::sviews(all@) =~= crate::text::sviews(all@) + Seq::<Seq<char>>::empty());
        },
        Err(v) => {
            let ghost a0 = crate::text::sviews(all@);
            let mut i: usize = 0;
            while i < v.len()
                invariant
                    i <= v@.len(),
                    crate::text::sviews(all@) == a0 + crate::text::sviews(v@).take(i as int),
                decreases v.len() - i,
            {
                let ghost p = all@;
                let e = string_of(&chars_of(v[i].as_str()));
                all.push(e);
                assert(crate::text::sviews(all@) =~= crate::text::sviews(p).push(e@));
                assert(crate::text::sviews(v@).take(i + 1) =~= crate::text::sviews(v@).take(
                    i as int,
                ).push(v@[i as int]@));
                assert(crate::text::sviews(all@) =~= a0 + crate::text::sviews(v@).take(i + 1));
                i += 1;
            }
            assert(crate::text::sviews(v@).take(v@.len() as int) =~= crate::text::sviews(v@));
        },
    }
}

/// All errors of a configuration: transcription first, then summary, server
/// and speaker separation.
pub open spec fn config_errors<T, S>(
    c: Config<T, S>,
    chunk_seconds_negative: bool,
    temperature_out_of_range: bool,
    model_dir_exists: bool,
) -> Seq<Seq<char>> {
    transcription_errors(
        c.transcription.provider@,
        c.transcription.base_url@,
        c.transcription.model@,
        chunk_seconds_negative,
        c.transcription.chunk_concurrency,
    ) + summary_errors(
        c.summary.provider@,
        c.summary.base_url@,
        c.summary.model@,
        temperature_out_of_range,
        c.summary.max_tokens,
    ) + server_errors(c.server) + diarize_errors(c.diarize, model_dir_exists)
}

/// Validates a whole configuration, reporting every error of every section.
/// The caller says whether the chunk length is negative, whether the
/// temperature lies outside 0.0..=2.0, and whether the model directory
/// exists.
pub fn validate_config<T, S>(
    c: &Config<T, S>,
    chunk_seconds_negative: bool,
    temperature_out_of_range: bool,
    model_dir_exists: bool,
) -> (r: Result<(), Vec<String>>)
    ensures
        validation_result(
            config_errors(*c, chunk_seconds_negative, temperature_out_of_range, model_dir_exists),
            r,
        ),
{
    let transcription = validate_transcription(&c.transcription, chunk_seconds_negative);
    let summary = validate_summary(&c.summary, temperature_out_of_range);
    let server = validate_server(&c.server);
    let diarize = validate_diarize(&c.diarize, model_dir_exists);
    let mut errs: Vec<String> = Vec::new();
    assert(crate::text::sviews(errs@) =~= Seq::<Seq<char>>::empty());
    append_errors(&mut errs, transcription);
    append_errors(&mut errs, summary);
    append_errors(&mut errs, server);
    append_errors(&mut errs, diarize);
    assert(crate::text::sviews(errs@) =~= config_errors(
        *c,
        chunk_seconds_negative,
        temperature_out_of_range,
        model_dir_exists,
    ));
    if errs.len() == 0 {
        Ok(())
    } else {
        Err(errs)
    }
}

/// Validates a URL: it must not be blank and must parse with an http or
/// https scheme.
pub fn validate_url(url: &str) -> (r: Result<(), String>)
    ensures
        match url_problem(url@) {
            Some(m) => r matches Err(e) && e@ == m,
            None => r is Ok,
        },
{
    if trim_str(url).len() == 0 {
        return Err(string_of(&chars_of("must not be empty")));
    }
    check_parsed_url(parse_url_scheme(url))
}

/// `msg` when `cond` holds.
pub open spec fn error_if(cond: bool, msg: Seq<char>) -> Seq<Seq<char>> {
    if cond {
        seq![msg]
    } else {
        Seq::empty()
    }
}

/// A URL problem, prefixed with the setting's name.
pub open spec fn url_errors(field: Seq<char>, url: Seq<char>) -> Seq<Seq<char>> {
    match url_problem(url) {
        Some(m) => seq![field + ": "@ + m],
        None => Seq::empty(),
    }
}

/// The outcome of a validation with the errors found.
pub open spec fn validation_result(errs: Seq<Seq<char>>, r: Result<(), Vec<String>>) -> bool {
    if errs.len() == 0 {
        r is Ok
    } else {
        r matches Err(v) && crate::text::sviews(v@) == errs
    }
}

fn push_msg(errs: &mut Vec<String>, msg: &str)
    ensures
        crate::text::sviews(final(errs)@) == crate::text::sviews(old(errs)@).push(msg@),
{
    let ghost e0 = crate::text::sviews(errs@);
    errs.push(string_of(&chars_of(msg)));
    assert(crate::text::sviews(errs@) =~= e0.push(msg@));
}

fn push_prefixed(errs: &mut Vec<String>, prefix: &str, msg: &str)
    ensures
        crate::text::sviews(final(errs)@) == crate::text::sviews(old(errs)@).push(prefix@ + msg@),
{
    let ghost e0 = crate::text::sviews(errs@);
    let mut out = chars_of(prefix);
    extend_str(&mut out, msg);
    errs.push(string_of(&out));
    assert(crate::text::sviews(errs@) =~= e0.push(prefix@ + msg@));
}

fn finish(errs: Vec<String>) -> (r: Result<(), Vec<String>>)
    ensures
        validation_result(crate::text::sviews(errs@), r),
{
    if errs.len() == 0 {
        Ok(())
    } else {
        Err(errs)
    }
}

/// The errors of a transcription section.
pub open spec fn transcription_errors(
    provider: Seq<char>,
    base_url: Seq<char>,
    model: Seq<char>,
    chunk_seconds_negative: bool,
    chunk_concurrency: usize,
) -> Seq<Seq<char>> {
    error_if(trim(provider).len() == 0, "transcription.provider must not be empty"@) + url_errors(
        "transcription.base_url"@,
        base_url,
    ) + error_if(trim(model).len() == 0, "transcription.model must not be empty"@) + error_if(
        chunk_seconds_negative,
        "transcription.chunk_seconds must be >= 0"@,
    ) + error_if(chunk_concurrency == 0, "transcription.chunk_concurrency must be >= 1"@)
}

/// Validates the transcription settings, reporting every problem found;
/// whether the chunk length is negative is given by the caller.
pub fn validate_transcription<F>(t: &TranscriptionConfig<F>, chunk_seconds_negative: bool) -> (r:
    Result<(), Vec<String>>)
    ensures
        validation_result(
            transcription_errors(
                t.provider@,
                t.base_url@,
                t.model@,
                chunk_seconds_negative,
                t.chunk_concurrency,
            ),
            r,
        ),
{
    let provider = t.provider.as_str();
    let base_url = t.base_url.as_str();
    let model = t.model.as_str();
    let chunk_concurrency = t.chunk_concurrency;
    let mut errs: Vec<String> = Vec::new();
    assert(crate::text::sviews(errs@) =~= Seq::<Seq<char>>::empty());
    if trim_str(provider).len() == 0 {
        push_msg(&mut errs, "transcription.provider must not be empty");
    }
    let ghost e1 = crate::text::sviews(errs@);
    if let Err(e) = validate_url(base_url) {
        push_prefixed(&mut errs, "transcription.base_url: ", e.as_str());
        assert("transcription.base_url: "@ =~= "transcription.base_url"@ + ": "@) by {
            reveal_strlit("transcription.base_url: ");
            reveal_strlit("transcription.base_url");
            reveal_strlit(": ");
        }
    }
    assert(crate::text::sviews(errs@) =~= e1 + url_errors("transcription.base_url"@, base_url@));
    if trim_str(model).len() == 0 {
        push_msg(&mut errs, "transcription.model must not be empty");
    }
    if chunk_seconds_negative {
        push_msg(&mut errs, "transcription.chunk_seconds must be >= 0");
    }
    if chunk_concurrency == 0 {
        push_msg(&mut errs, "transcription.chunk_concurrency must be >= 1");
    }
    assert(crate::text::sviews(errs@) =~= transcription_errors(
        provider@,
        base_url@,
        model@,
        chunk_seconds_negative,
        chunk_concurrency,
    ));
    finish(errs)
}

/// The errors of a summary section.
pub open spec fn summary_errors(
    provider: Seq<char>,
    base_url: Seq<char>,
    model: Seq<char>,
    temperature_out_of_range: bool,
    max_tokens: u32,
) -> Seq<Seq<char>> {
    error_if(trim(provider).len() == 0, "summary.provider must not be empty"@) + url_errors(
        "summary.base_url"@,
        base_url,
    ) + error_if(trim(model).len() == 0, "summary.model must not be empty"@) + error_if(
        temperature_out_of_range,
        "summary.temperature must be between 0.0 and 2.0"@,
    ) + error_if(max_tokens < 32 || max_tokens > 8192, "summary.max_tokens must be between 32 and 8192"@)
}

/// Validates the summary settings, reporting every problem found; whether
/// the temperature lies outside 0.0..=2.0 is given by the caller.
pub fn validate_summary<F>(s: &SummaryConfig<F>, temperature_out_of_range: bool) -> (r: Result<
    (),
    Vec<String>,
>)
    ensures
        validation_result(
            summary_errors(s.provider@, s.base_url@, s.model@, temperature_out_of_range, s.max_tokens),
            r,
        ),
{
    let provider = s.provider.as_str();
    let base_url = s.base_url.as_str();
    let model = s.model.as_str();
    let max_tokens = s.max_tokens;
    let mut errs: Vec<String> = Vec::new();
    assert(crate::text::sviews(errs@) =~= Seq::<Seq<char>>::empty());
    if trim_str(provider).len() == 0 {
        push_msg(&mut errs, "summary.provider must not be empty");
    }
    let ghost e1 = crate::text::sviews(errs@);
    if let Err(e) = validate_url(base_url) {
        push_prefixed(&mut errs, "summary.base_url: ", e.as_str());
        assert("summary.base_url: "@ =~= "summary.base_url"@ + ": "@) by {
            reveal_strlit("summary.base_url: ");
            reveal_strlit("summary.base_url");
            reveal_strlit(": ");
        }
    }
    assert(crate::text::sviews(errs@) =~= e1 + url_errors("summary.base_url"@, base_url@));
    if trim_str(model).len() == 0 {
        push_msg(&mut errs, "summary.model must not be empty");
    }
    if temperature_out_of_range {
        push_msg(&mut errs, "summary.temperature must be between 0.0 and 2.0");
    }
    if max_tokens < 32 || max_tokens > 8192 {
        push_msg(&mut errs, "summary.max_tokens must be between 32 and 8192");
    }
    assert(crate::text::sviews(errs@) =~= summary_errors(
        provider@,
        base_url@,
        model@,
        temperature_out_of_range,
        max_tokens,
    ));
    finish(errs)
}

/// The errors of a server section.
pub open spec fn server_errors(s: ServerConfig) -> Seq<Seq<char>> {
    error_if(s.port == 0, "server.port must be between 1 and 65535"@) + error_if(
        trim(s.host@).len() == 0,
        "server.host must not be empty"@,
    )
}

/// Validates the server settings: a non-zero port and a non-blank host.
pub fn validate_server(s: &ServerConfig) -> (r: Result<(), Vec<String>>)
    ensures
        validation_result(server_errors(*s), r),
{
    let mut errs: Vec<String> = Vec::new();
    assert(crate::text::sviews(errs@) =~= Seq::<Seq<char>>::empty());
    if s.port == 0 {
        push_msg(&mut errs, "server.port must be between 1 and 65535");
    }
    if trim_str(s.host.as_str()).len() == 0 {
        push_msg(&mut errs, "server.host must not be empty");
    }
    assert(crate::text::sviews(errs@) =~= server_errors(*s));
    finish(errs)
}

/// The in-process execution modes a configuration may name.
pub open spec fn valid_execution_mode(m: Seq<char>) -> bool {
    m == "auto"@ || m == "cpu"@ || m == "coreml"@ || m == "coreml-fast"@ || m == "cuda"@ || m == "cuda-fast"@ || m
        == "migraphx"@
}

/// The errors of an enabled diarization section; whether the model
/// directory exists is given by the caller.
pub open spec fn diarize_errors(d: DiarizeConfig, model_dir_exists: bool) -> Seq<Seq<char>> {
    if !d.enabled {
        Seq::empty()
    } else {
        error_if(
            !valid_execution_mode(unicode_lowercase(d.execution_mode@)),
            "diarize.execution_mode must be one of [\"auto\", \"cpu\", \"coreml\", \"coreml-fast\", \"cuda\", \"cuda-fast\", \"migraphx\"] (got "@
                + d.execution_mode@ + ")"@,
        ) + match d.model_dir {
            Some(dir) => error_if(!model_dir_exists, "diarize.model_dir not found: "@ + dir@),
            None => Seq::empty(),
        }
    }
}

/// Validates the diarization settings when diarization is enabled.
pub fn validate_diarize(d: &DiarizeConfig, model_dir_exists: bool) -> (r: Result<(), Vec<String>>)
    ensures
        validation_result(diarize_errors(*d, model_dir_exists), r),
{
    let mut errs: Vec<String> = Vec::new();
    assert(crate::text::sviews(errs@) =~= Seq::<Seq<char>>::empty());
    if !d.enabled {
        return Ok(());
    }
    let l = to_lowercase(&chars_of(d.execution_mode.as_str()));
    let valid = eq_str(&l, "auto") || eq_str(&l, "cpu") || eq_str(&l, "coreml") || eq_str(&l, "coreml-fast") || eq_str(
        &l,
        "cuda",
    ) || eq_str(&l, "cuda-fast") || eq_str(&l, "migraphx");
    if !valid {
        let mut out = chars_of(
            "diarize.execution_mode must be one of [\"auto\", \"cpu\", \"coreml\", \"coreml-fast\", \"cuda\", \"cuda-fast\", \"migraphx\"] (got ",
        );
        extend_str(&mut out, d.execution_mode.as_str());
        extend_str(&mut out, ")");
        let ghost e0 = crate::text::sviews(errs@);
        errs.push(string_of(&out));
        assert(crate::text::sviews(errs@) =~= e0.push(out@));
    }
    if let Some(dir) = &d.model_dir {
        if !model_dir_exists {
            push_prefixed(&mut errs, "diarize.model_dir not found: ", dir.as_str());
        }
    }
    assert(crate::text::sviews(errs@) =~= diarize_errors(*d, model_dir_exists));
    finish(errs)
}

// ---------------------------------------------------------------------------
// `config set`
// ---------------------------------------------------------------------------

/// Why an unsigned number did not parse, as `str::parse` reports it.
#[derive(Clone, Copy, Debug, PartialEq, Eq, Structural)]
pub enum NumberError {
    Empty,
    InvalidDigit,
    TooLarge,
    TooSmall,
}

/// The error `str::parse` gives for an unsigned integer type with maximum
/// `max`, if any.
pub open spec fn number_error(s: Seq<char>, max: nat) -> Option<NumberError> {
    if parse_unsigned(s, max) is Some {
        None
    } else if s.len() == 0 {
        Some(NumberError::Empty)
    } else if !(crate::text::unsigned_digits(s).len() > 0 && crate::text::all_digits(
        crate::text::unsigned_digits(s),
    )) {
        Some(NumberError::InvalidDigit)
    } else {
        Some(NumberError::TooLarge)
    }
}

pub open spec fn number_error_text(e: NumberError) -> Seq<char> {
    match e {
        NumberError::Empty => "cannot parse integer from empty string"@,
        NumberError::InvalidDigit => "invalid digit found in string"@,
        NumberError::TooLarge => "number too large to fit in target type"@,
        NumberError::TooSmall => "number too small to fit in target type"@,
    }
}

impl NumberError {
    pub fn message(&self) -> (r: String)
        ensures
            r@ == number_error_text(*self),
    {
        match self {
            NumberError::Empty => string_of(&chars_of("cannot parse integer from empty string")),
            NumberError::InvalidDigit => string_of(&chars_of("invalid digit found in string")),
            NumberError::TooLarge => string_of(&chars_of("number too large to fit in target type")),
            NumberError::TooSmall => string_of(&chars_of("number too small to fit in target type")),
        }
    }
}

/// Parses an unsigned number no larger than `max`, or says why it is not one.
pub fn parse_number(v: &str, max: u64) -> (r: Result<u64, NumberError>)
    ensures
        match parse_unsigned(v@, max as nat) {
            Some(n) => r == Ok::<u64, NumberError>(n as u64),
            None => r matches Err(e) && number_error(v@, max as nat) == Some(e),
        },
{
    let c = chars_of(v);
    match crate::text::parse_unsigned_exec(&c, max) {
        Some(n) => Ok(n),
        None => {
            if c.len() == 0 {
                return Err(NumberError::Empty);
            }
            let d = if c.len() > 1 && c[0] == '+' {
                crate::text::slice_chars(&c, 1, c.len())
            } else {
                crate::text::slice_chars(&c, 0, c.len())
            };
            assert(d@ =~= crate::text::unsigned_digits(c@));
            if d.len() > 0 && crate::text::all_digits_exec(&d) {
                Err(NumberError::TooLarge)
            } else {
                Err(NumberError::InvalidDigit)
            }
        },
    }
}

/// A setting named on the command line, with its value parsed. The two
/// fractional settings keep their text, which the caller parses.
#[derive(Debug, Clone)]
pub enum Setting {
    TranscriptionProvider(String),
    TranscriptionApiKey(String),
    TranscriptionBaseUrl(String),
    TranscriptionModel(String),
    TranscriptionChunkSeconds(String),
    TranscriptionChunkConcurrency(usize),
    SummaryProvider(String),
    SummaryApiKey(String),
    SummaryBaseUrl(String),
    SummaryModel(String),
    SummaryTemperature(String),
    SummaryMaxTokens(u32),
    SummaryLanguage(String),
    ServerPort(u16),
    ServerHost(String),
    ServerApiKey(String),
    DiarizeEnabled(bool),
    DiarizeServiceUrl(Option<String>),
    DiarizeExecutionMode(String),
    DiarizeModelDir(Option<String>),
}

/// Why a setting was refused.
#[derive(Debug, Clone)]
pub enum SettingError {
    Number(NumberError),
    UnknownKey(String),
}

pub open spec fn setting_error_text(e: SettingError) -> Seq<char> {
    match e {
        SettingError::Number(n) => number_error_text(n),
        SettingError::UnknownKey(k) => "Unknown config key: "@ + k@,
    }
}

impl SettingError {
    pub fn message(&self) -> (r: String)
        ensures
            r@ == setting_error_text(*self),
    {
        match self {
            SettingError::Number(n) => n.message(),
            SettingError::UnknownKey(k) => {
                let mut out = chars_of("Unknown config key: ");
                extend_str(&mut out, k.as_str());
                string_of(&out)
            },
        }
    }
}

/// A path-like setting: cleared when blank, else trimmed.
pub open spec fn trimmed_or_none(v: Seq<char>) -> Option<Seq<char>> {
    if trim(v).len() == 0 {
        None
    } else {
        Some(trim(v))
    }
}

/// The outcome of `parse_setting` for a key and value.
pub open spec fn setting_parsed(key: Seq<char>, value: Seq<char>, r: Result<Setting, SettingError>) -> bool {
    if key == "transcription.provider"@ {
        r matches Ok(Setting::TranscriptionProvider(v)) && v@ == value
    } else if key == "transcription.api_key"@ {
        r matches Ok(Setting::TranscriptionApiKey(v)) && v@ == value
    } else if key == "transcription.base_url"@ {
        r matches Ok(Setting::TranscriptionBaseUrl(v)) && v@ == value
    } else if key == "transcription.model"@ {
        r matches Ok(Setting::TranscriptionModel(v)) && v@ == value
    } else if key == "transcription.chunk_seconds"@ {
        r matches Ok(Setting::TranscriptionChunkSeconds(v)) && v@ == value
    } else if key == "transcription.chunk_concurrency"@ {
        match parse_unsigned(value, usize::MAX as nat) {
            Some(n) => r matches Ok(Setting::TranscriptionChunkConcurrency(c)) && c == (if n
                == 0 {
                1
            } else {
                n
            }),
            None => r matches Err(SettingError::Number(e)) && number_error(value, usize::MAX as nat)
                == Some(e),
        }
    } else if key == "summary.provider"@ {
        r matches Ok(Setting::SummaryProvider(v)) && v@ == value
    } else if key == "summary.api_key"@ {
        r matches Ok(Setting::SummaryApiKey(v)) && v@ == value
    } else if key == "summary.base_url"@ {
        r matches Ok(Setting::SummaryBaseUrl(v)) && v@ == value
    } else if key == "summary.model"@ {
        r matches Ok(Setting::SummaryModel(v)) && v@ == value
    } else if key == "summary.temperature"@ {
        r matches Ok(Setting::SummaryTemperature(v)) && v@ == value
    } else if key == "summary.max_tokens"@ {
        match parse_unsigned(value, u32::MAX as nat) {
            Some(n) => r matches Ok(Setting::SummaryMaxTokens(m)) && m == n,
            None => r matches Err(SettingError::Number(e)) && number_error(value, u32::MAX as nat)
                == Some(e),
        }
    } else if key == "summary.language"@ {
        r matches Ok(Setting::SummaryLanguage(v)) && v@ == value
    } else if key == "server.port"@ {
        match parse_unsigned(value, u16::MAX as nat) {
            Some(n) => r matches Ok(Setting::ServerPort(p)) && p == n,
            None => r matches Err(SettingError::Number(e)) && number_error(value, u16::MAX as nat)
                == Some(e),
        }
    } else if key == "server.host"@ {
        r matches Ok(Setting::ServerHost(v)) && v@ == value
    } else if key == "server.api_key"@ {
        r matches Ok(Setting::ServerApiKey(v)) && v@ == value
    } else if key == "diarize.enabled"@ {
        r matches Ok(Setting::DiarizeEnabled(b)) && b == truthy(value)
    } else if key == "diarize.service_url"@ {
        r matches Ok(Setting::DiarizeServiceUrl(u)) && ov(u) == trimmed_or_none(value)
    } else if key == "diarize.execution_mode"@ {
        r matches Ok(Setting::DiarizeExecutionMode(v)) && v@ == value
    } else if key == "diarize.model_dir"@ {
        r matches Ok(Setting::DiarizeModelDir(d)) && ov(d) == trimmed_or_none(value)
    } else {
        r matches Err(SettingError::UnknownKey(k)) && k@ == key
    }
}

fn trimmed_or_none_exec(value: &str) -> (r: Option<String>)
    ensures
        ov(r) == trimmed_or_none(value@),
{
    let t = trim_str(value);
    if t.len() == 0 {
        None
    } else {
        Some(string_of(&t))
    }
}

/// Reads a `config set KEY VALUE` request: the setting the key names, with
/// its value parsed for the number and switch settings.
pub fn parse_setting(key: &str, value: &str) -> (r: Result<Setting, SettingError>)
    ensures
        setting_parsed(key@, value@, r),
{
    let k = chars_of(key);
    let v = string_of(&chars_of(value));
    if eq_str(&k, "transcription.provider") {
        Ok(Setting::TranscriptionProvider(v))
    } else if eq_str(&k, "transcription.api_key") {
        Ok(Setting::TranscriptionApiKey(v))
    } else if eq_str(&k, "transcription.base_url") {
        Ok(Setting::TranscriptionBaseUrl(v))
    } else if eq_str(&k, "transcription.model") {
        Ok(Setting::TranscriptionModel(v))
    } else if eq_str(&k, "transcription.chunk_seconds") {
        Ok(Setting::TranscriptionChunkSeconds(v))
    } else if eq_str(&k, "transcription.chunk_concurrency") {
        match parse_number(value, usize::MAX as u64) {
            Ok(n) => Ok(
                Setting::TranscriptionChunkConcurrency(
                    if n == 0 {
                        1
                    } else {
                        n as usize
                    },
                ),
            ),
            Err(e) => Err(SettingError::Number(e)),
        }
    } else if eq_str(&k, "summary.provider") {
        Ok(Setting::SummaryProvider(v))
    } else if eq_str(&k, "summary.api_key") {
        Ok(Setting::SummaryApiKey(v))
    } else if eq_str(&k, "summary.base_url") {
        Ok(Setting::SummaryBaseUrl(v))
    } else if eq_str(&k, "summary.model") {
        Ok(Setting::SummaryModel(v))
    } else if eq_str(&k, "summary.temperature") {
        Ok(Setting::SummaryTemperature(v))
    } else if eq_str(&k, "summary.max_tokens") {
        match parse_number(value, u32::MAX as u64) {
            Ok(n) => Ok(Setting::SummaryMaxTokens(n as u32)),
            Err(e) => Err(SettingError::Number(e)),
        }
    } else if eq_str(&k, "summary.language") {
        Ok(Setting::SummaryLanguage(v))
    } else if eq_str(&k, "server.port") {
        match parse_number(value, u16::MAX as u64) {
            Ok(n) => Ok(Setting::ServerPort(n as u16)),
            Err(e) => Err(SettingError::Number(e)),
        }
    } else if eq_str(&k, "server.host") {
        Ok(Setting::ServerHost(v))
    } else if eq_str(&k, "server.api_key") {
        Ok(Setting::ServerApiKey(v))
    } else if eq_str(&k, "diarize.enabled") {
        let l = to_lowercase(&chars_of(value));
        Ok(Setting::DiarizeEnabled(eq_str(&l, "1") || eq_str(&l, "true") || eq_str(&l, "yes")))
    } else if eq_str(&k, "diarize.service_url") {
        Ok(Setting::DiarizeServiceUrl(trimmed_or_none_exec(value)))
    } else if eq_str(&k, "diarize.execution_mode") {
        Ok(Setting::DiarizeExecutionMode(v))
    } else if eq_str(&k, "diarize.model_dir") {
        Ok(Setting::DiarizeModelDir(trimmed_or_none_exec(value)))
    } else {
        Err(SettingError::UnknownKey(string_of(&k)))
    }
}

} // verus!
