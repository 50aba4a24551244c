//! Speech models, the model catalogs' entries, and the app settings.
use vstd::prelude::*;

use super::llm::LlmModel;
use super::Model;
use crate::text::{opt_view, owned, str_eq};

verus! {

/// A downloadable speech-recognition model.
#[derive(Debug, Clone, Copy, PartialEq, Eq, Structural)]
pub enum WhisperModel {
    BaseEn,
    LargeV3TurboQ5,
}

pub open spec fn whisper_id(m: WhisperModel) -> Seq<char> {
    match m {
        WhisperModel::BaseEn => "BaseEn"@,
        WhisperModel::LargeV3TurboQ5 => "LargeV3TurboQ5"@,
    }
}

pub open spec fn whisper_filename(m: WhisperModel) -> Seq<char> {
    match m {
        WhisperModel::BaseEn => "ggml-base.en.bin"@,
        WhisperModel::LargeV3TurboQ5 => "ggml-large-v3-turbo-q5_0.bin"@,
    }
}

pub open spec fn whisper_from_id(id: Seq<char>) -> Option<WhisperModel> {
    if id == "BaseEn"@ {
        Some(WhisperModel::BaseEn)
    } else if id == "LargeV3TurboQ5"@ {
        Some(WhisperModel::LargeV3TurboQ5)
    } else {
        None
    }
}

impl Model for WhisperModel {
    fn id(&self) -> (r: &'static str)
        ensures
            r@ == whisper_id(*self),
    {
        match self {
            WhisperModel::BaseEn => "BaseEn",
            WhisperModel::LargeV3TurboQ5 => "LargeV3TurboQ5",
        }
    }

    fn filename(&self) -> (r: &'static str)
        ensures
            r@ == whisper_filename(*self),
    {
        match self {
            WhisperModel::BaseEn => "ggml-base.en.bin",
            WhisperModel::LargeV3TurboQ5 => "ggml-large-v3-turbo-q5_0.bin",
        }
    }

    fn download_url(&self) -> (r: &'static str)
        ensures
            r@ == match *self {
                WhisperModel::BaseEn => "https://huggingface.co/ggerganov/whisper.cpp/resolve/main/ggml-base.en.bin"@,
                WhisperModel::LargeV3TurboQ5 => "https://huggingface.co/ggerganov/whisper.cpp/resolve/main/ggml-large-v3-turbo-q5_0.bin"@,
            },
    {
        match self {
            WhisperModel::BaseEn => "https://huggingface.co/ggerganov/whisper.cpp/resolve/main/ggml-base.en.bin",
            WhisperModel::LargeV3TurboQ5 => "https://huggingface.co/ggerganov/whisper.cpp/resolve/main/ggml-large-v3-turbo-q5_0.bin",
        }
    }

    fn from_id(id: &str) -> (r: Option<WhisperModel>)
        ensures
            r == whisper_from_id(id@),
    {
        if str_eq(id, "BaseEn") {
            Some(WhisperModel::BaseEn)
        } else if str_eq(id, "LargeV3TurboQ5") {
            Some(WhisperModel::LargeV3TurboQ5)
        } else {
            None
        }
    }

    fn event_prefix() -> (r: &'static str)
        ensures
            r@ == "model"@,
    {
        "model"
    }
}

/// Every speech model is found again by its own id.
pub proof fn law_whisper_id_roundtrip(m: WhisperModel)
    ensures
        whisper_from_id(whisper_id(m)) == Some(m),
{
    reveal_strlit("BaseEn");
    reveal_strlit("LargeV3TurboQ5");
    assert("LargeV3TurboQ5"@[0] != "BaseEn"@[0]);
}

/// A catalog entry of a downloadable model.
pub struct ModelInfo<M: Model> {
    pub id: M,
    pub name: String,
    pub description: String,
    pub size_bytes: u64,
    pub filename: String,
    pub recommended: Option<bool>,
}

/// Progress of a model download.
pub struct DownloadProgress {
    pub model_id: String,
    pub downloaded_bytes: u64,
    pub total_bytes: u64,
}

/// Which engine powers summarization and chat: the built-in model run
/// in-process, or a user-managed local Ollama server.
#[derive(Debug, Clone, Copy, PartialEq, Eq, Structural)]
pub enum LlmProvider {
    BuiltIn,
    Ollama,
}

impl Default for LlmProvider {
    fn default() -> (r: LlmProvider)
        ensures
            r == LlmProvider::BuiltIn,
    {
        LlmProvider::BuiltIn
    }
}

/// The address of a local Ollama server on its default port.
pub fn default_ollama_base_url() -> (r: String)
    ensures
        r@ == "http://localhost:11434"@,
{
    owned("http://localhost:11434")
}

/// Connection details of a user-managed Ollama server.
#[derive(Debug, Clone, PartialEq)]
pub struct OllamaSettings {
    pub base_url: String,
    /// The Ollama model to run (e.g. `qwen3:4b`); `None` until one is
    /// picked.
    pub model: Option<String>,
}

impl Default for OllamaSettings {
    fn default() -> (r: OllamaSettings)
        ensures
            r.base_url@ == "http://localhost:11434"@,
            r.model is None,
    {
        OllamaSettings { base_url: default_ollama_base_url(), model: None }
    }
}

/// The app's settings.
pub struct AppSettings {
    pub selected_model: Option<WhisperModel>,
    pub selected_llm_model: Option<LlmModel>,
    /// App-wide default summary template id (`None`: the default template).
    pub default_template: Option<String>,
    /// Whether the user acknowledged being responsible for recording
    /// lawfully.
    pub recording_consent_acknowledged: bool,
    /// Whether live minutes are generated while recording.
    pub live_minutes_enabled: bool,
    pub llm_provider: LlmProvider,
    /// Kept while the built-in engine is used, so switching loses nothing.
    pub ollama: OllamaSettings,
}

impl Default for AppSettings {
    fn default() -> (r: AppSettings)
        ensures
            r.selected_model is None,
            r.selected_llm_model is None,
            r.default_template is None,
            !r.recording_consent_acknowledged,
            r.live_minutes_enabled,
            r.llm_provider == LlmProvider::BuiltIn,
            r.ollama.base_url@ == "http://localhost:11434"@,
            r.ollama.model is None,
    {
        AppSettings {
            selected_model: None,
            selected_llm_model: None,
            default_template: None,
            recording_consent_acknowledged: false,
            live_minutes_enabled: true,
            llm_provider: LlmProvider::default(),
            ollama: OllamaSettings::default(),
        }
    }
}

} // verus!
