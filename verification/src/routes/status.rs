//! Status endpoint: which services are configured, and how the server is
//! set up.
use vstd::prelude::*;

verus! {

/// Answer of `GET /api/status`.
pub struct StatusResponse {
    pub services: Services,
    pub server: ServerConfig,
}

/// The state of each service the server uses.
pub struct Services {
    pub ollama: ServiceStatus,
    pub anthropic: ServiceStatus,
    pub gemini: ServiceStatus,
    pub whisper: ServiceStatus,
    pub web_clip: ServiceStatus,
    pub openai_tts: ServiceStatus,
    pub elevenlabs_tts: ServiceStatus,
}

/// The state of one service.
pub struct ServiceStatus {
    pub configured: bool,
    pub url: Option<String>,
    pub model: Option<String>,
    pub model_size: Option<String>,
    pub model_dir: Option<String>,
    pub healthy: bool,
}

/// How the server is set up.
pub struct ServerConfig {
    pub port: String,
    pub db_path: String,
    pub auth_enabled: bool,
    pub web_dir: String,
}

/// A service reached with an API key: configured, and taken as healthy,
/// exactly when the key (empty when unset) is not empty.
pub fn keyed_service(key: &str, model: String) -> (r: ServiceStatus)
    ensures
        r.configured == (key@.len() > 0),
        r.healthy == r.configured,
        r.model matches Some(m) && m@ == model@,
        r.url is None,
        r.model_size is None,
        r.model_dir is None,
{
    proof {
        crate::text::lemma_utf8_len_ge_len(key@);
    }
    let configured = crate::text::str_len(key) > 0;
    proof {
        if key@.len() == 0 {
            assert(crate::text::utf8_len(key@) == 0);
        }
    }
    ServiceStatus {
        configured,
        url: None,
        model: Some(model),
        model_size: None,
        model_dir: None,
        healthy: configured,
    }
}

/// The local embedding service, healthy when it answered.
pub fn ollama_status(healthy: bool) -> (r: ServiceStatus)
    ensures
        r.configured,
        r.healthy == healthy,
        r.url matches Some(u) && u@ == "http://localhost:11434"@,
        r.model matches Some(m) && m@ == "nomic-embed-text"@,
        r.model_size is None,
        r.model_dir is None,
{
    ServiceStatus {
        configured: true,
        url: Some("http://localhost:11434".to_owned()),
        model: Some("nomic-embed-text".to_owned()),
        model_size: None,
        model_dir: None,
        healthy,
    }
}

/// Web clipping, which needs nothing configured.
pub fn web_clip_status() -> (r: ServiceStatus)
    ensures
        r.configured,
        r.healthy,
        r.url is None,
        r.model is None,
        r.model_size is None,
        r.model_dir is None,
{
    ServiceStatus {
        configured: true,
        url: None,
        model: None,
        model_size: None,
        model_dir: None,
        healthy: true,
    }
}

/// Local transcription: configured and healthy when the converter is
/// installed; the model size and directory as configured, else `medium`
/// and `~/.cache/whisper`.
pub fn whisper_status(
    converter_installed: bool,
    model_size: Option<String>,
    model_dir: Option<String>,
) -> (r: ServiceStatus)
    ensures
        r.configured == converter_installed,
        r.healthy == converter_installed,
        r.url is None,
        r.model is None,
        r.model_size matches Some(s) && s@ == match model_size {
            Some(m) => m@,
            None => "medium"@,
        },
        r.model_dir matches Some(d) && d@ == match model_dir {
            Some(m) => m@,
            None => "~/.cache/whisper"@,
        },
{
    let size = match model_size {
        Some(s) => s,
        None => "medium".to_owned(),
    };
    let dir = match model_dir {
        Some(d) => d,
        None => "~/.cache/whisper".to_owned(),
    };
    ServiceStatus {
        configured: converter_installed,
        url: None,
        model: None,
        model_size: Some(size),
        model_dir: Some(dir),
        healthy: converter_installed,
    }
}

/// The ElevenLabs model: the configured one, else `eleven_v3`.
pub fn elevenlabs_model(configured: Option<String>) -> (r: String)
    ensures
        r@ == match configured {
            Some(m) => m@,
            None => "eleven_v3"@,
        },
{
    match configured {
        Some(m) => m,
        None => "eleven_v3".to_owned(),
    }
}

/// The server setup from its configuration: port 8999, database
/// `note.db` and web directory `web/dist` unless configured; access
/// control on when a non-empty token is set.
pub fn server_config(
    port: Option<String>,
    db_path: Option<String>,
    token: Option<String>,
    web_dir: Option<String>,
) -> (r: ServerConfig)
    ensures
        r.port@ == match port {
            Some(p) => p@,
            None => "8999"@,
        },
        r.db_path@ == match db_path {
            Some(d) => d@,
            None => "note.db"@,
        },
        r.auth_enabled == match token {
            Some(t) => t@.len() > 0,
            None => false,
        },
        r.web_dir@ == match web_dir {
            Some(w) => w@,
            None => "web/dist"@,
        },
{
    let auth_enabled = match &token {
        Some(t) => {
            proof {
                crate::text::lemma_utf8_len_ge_len(t@);
            }
            let b = crate::text::str_len(t.as_str()) > 0;
            proof {
                if t@.len() == 0 {
                    assert(crate::text::utf8_len(t@) == 0);
                }
            }
            b
        },
        None => false,
    };
    ServerConfig {
        port: match port {
            Some(p) => p,
            None => "8999".to_owned(),
        },
        db_path: match db_path {
            Some(d) => d,
            None => "note.db".to_owned(),
        },
        auth_enabled,
        web_dir: match web_dir {
            Some(w) => w,
            None => "web/dist".to_owned(),
        },
    }
}

} // verus!
