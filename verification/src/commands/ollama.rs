//! The LLM engine choice as the settings screens edit it, and the checks on
//! what the user typed.
use vstd::prelude::*;

use crate::errors::AppError;
use crate::models::settings::{AppSettings, LlmProvider, OllamaSettings};
use crate::services::ollama::{normalized_url, strip_trailing_chars};
use crate::text::{owned, starts_with, str_chars, string_from_chars, trim, trim_chars, trim_str};

verus! {

/// The engine choice as shown to and edited by the user.
pub struct LlmEngineSettings {
    pub provider: LlmProvider,
    pub ollama_base_url: String,
    pub ollama_model: Option<String>,
}

/// Whether a normalised address is accepted: not empty, and with an
/// `http://` or `https://` scheme.
pub open spec fn url_accepted(url: Seq<char>) -> bool {
    url.len() > 0 && (starts_with(url, "http://"@) || starts_with(url, "https://"@))
}

/// Normalises a user-entered server address (surrounding whitespace and
/// trailing slashes dropped) and checks it: an empty address, or one without
/// an `http://` or `https://` scheme, is refused with `ConfigError`.
pub fn normalize_base_url(raw: &str) -> (r: Result<String, AppError>)
    ensures
        r is Ok <==> url_accepted(normalized_url(raw@)),
        r matches Ok(s) ==> s@ == normalized_url(raw@),
        normalized_url(raw@).len() == 0 ==> (r matches Err(AppError::ConfigError(m)) && m@
            == "Ollama base URL can't be empty"@),
        normalized_url(raw@).len() > 0 && !url_accepted(normalized_url(raw@)) ==> (r matches Err(
            AppError::ConfigError(m),
        ) && m@ == "Ollama base URL must start with http:// or https://"@),
{
    let v = str_chars(raw);
    let t = trim_chars(v.as_slice());
    let s = strip_trailing_chars(t.as_slice(), '/');
    if s.len() == 0 {
        return Err(AppError::ConfigError(owned("Ollama base URL can't be empty")));
    }
    let http = str_chars("http://");
    let https = str_chars("https://");
    if !crate::text::has_prefix(s.as_slice(), http.as_slice()) && !crate::text::has_prefix(
        s.as_slice(),
        https.as_slice(),
    ) {
        return Err(
            AppError::ConfigError(owned("Ollama base URL must start with http:// or https://")),
        );
    }
    Ok(string_from_chars(s.as_slice()))
}

/// The model name as kept: trimmed, and dropped when nothing is left.
pub open spec fn kept_model(m: Option<Seq<char>>) -> Option<Seq<char>> {
    match m {
        Some(s) => if trim(s).len() > 0 {
            Some(trim(s))
        } else {
            None
        },
        None => None,
    }
}

pub open spec fn opt_chars(o: Option<String>) -> Option<Seq<char>> {
    match o {
        Some(s) => Some(s@),
        None => None,
    }
}

/// The engine choice held in the settings.
pub fn engine_settings_of(settings: &AppSettings) -> (r: LlmEngineSettings)
    ensures
        r.provider == settings.llm_provider,
        r.ollama_base_url@ == settings.ollama.base_url@,
        opt_chars(r.ollama_model) == opt_chars(settings.ollama.model),
{
    LlmEngineSettings {
        provider: settings.llm_provider,
        ollama_base_url: settings.ollama.base_url.clone(),
        ollama_model: match &settings.ollama.model {
            Some(m) => Some(m.clone()),
            None => None,
        },
    }
}

/// Stores an edited engine choice in the settings. A refused address
/// (see [`normalize_base_url`]) leaves the settings unchanged; otherwise the
/// provider, the normalised address and the kept model name replace the old
/// ones and everything else stays.
pub fn apply_engine_settings(settings: &mut AppSettings, engine: LlmEngineSettings) -> (r: Result<
    (),
    AppError,
>)
    ensures
        r is Ok <==> url_accepted(normalized_url(engine.ollama_base_url@)),
        r is Err ==> *final(settings) == *old(settings),
        r is Err ==> (r matches Err(AppError::ConfigError(_))),
        r is Ok ==> {
            &&& final(settings).llm_provider == engine.provider
            &&& final(settings).ollama.base_url@ == normalized_url(engine.ollama_base_url@)
            &&& opt_chars(final(settings).ollama.model) == kept_model(opt_chars(engine.ollama_model))
            &&& final(settings).selected_model == old(settings).selected_model
            &&& final(settings).selected_llm_model == old(settings).selected_llm_model
            &&& final(settings).default_template == old(settings).default_template
            &&& final(settings).recording_consent_acknowledged
                == old(settings).recording_consent_acknowledged
            &&& final(settings).live_minutes_enabled == old(settings).live_minutes_enabled
        },
{
    let base_url = match normalize_base_url(engine.ollama_base_url.as_str()) {
        Ok(u) => u,
        Err(e) => {
            return Err(e);
        },
    };
    let model = match engine.ollama_model {
        Some(m) => {
            let t = trim_str(m.as_str());
            if t.as_str().is_empty() {
                None
            } else {
                Some(t)
            }
        },
        None => None,
    };
    settings.llm_provider = engine.provider;
    settings.ollama = OllamaSettings { base_url, model };
    Ok(())
}

} // verus!
