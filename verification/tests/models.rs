use tucknotes::models::llm::LlmModel;
use tucknotes::models::settings::WhisperModel;
use tucknotes::models::Model;

#[test]
fn llm_model_from_id_valid() {
    assert_eq!(
        LlmModel::from_id("Qwen3_5_4B_Q4KM"),
        Some(LlmModel::Qwen3_5_4B_Q4KM)
    );
}

#[test]
fn llm_model_from_id_old_qwen3_id_backward_compat() {
    assert_eq!(
        LlmModel::from_id("Qwen3_4B_Q4KM"),
        Some(LlmModel::Qwen3_5_4B_Q4KM)
    );
}

#[test]
fn llm_model_from_id_invalid() {
    assert_eq!(LlmModel::from_id("nonexistent"), None);
}

#[test]
fn llm_model_filename() {
    assert_eq!(
        LlmModel::Qwen3_5_4B_Q4KM.filename(),
        "Qwen3.5-4B-Q4_K_M.gguf"
    );
}

#[test]
fn llm_model_id_matches_from_id() {
    assert_eq!(
        LlmModel::from_id(LlmModel::Qwen3_5_4B_Q4KM.id()),
        Some(LlmModel::Qwen3_5_4B_Q4KM)
    );
    assert_eq!(
        LlmModel::from_id(LlmModel::Gemma4_E2B_Q8.id()),
        Some(LlmModel::Gemma4_E2B_Q8)
    );
    assert_eq!(
        LlmModel::from_id(LlmModel::Lfm2_2_6B_Q8.id()),
        Some(LlmModel::Lfm2_2_6B_Q8)
    );
}

#[test]
fn llm_model_gemma4_from_id() {
    assert_eq!(
        LlmModel::from_id("Gemma4_E2B_Q8"),
        Some(LlmModel::Gemma4_E2B_Q8)
    );
}

#[test]
fn llm_model_gemma4_filename() {
    assert_eq!(
        LlmModel::Gemma4_E2B_Q8.filename(),
        "gemma-4-E2B-it-Q8_0.gguf"
    );
}

#[test]
fn llm_model_lfm2_from_id() {
    assert_eq!(
        LlmModel::from_id("Lfm2_2_6B_Q8"),
        Some(LlmModel::Lfm2_2_6B_Q8)
    );
}

#[test]
fn llm_model_lfm2_filename() {
    assert_eq!(
        LlmModel::Lfm2_2_6B_Q8.filename(),
        "LFM2-2.6B-Q8_0.gguf"
    );
}

#[test]
fn whisper_model_from_id_valid() {
    assert_eq!(WhisperModel::from_id("BaseEn"), Some(WhisperModel::BaseEn));
    assert_eq!(
        WhisperModel::from_id("LargeV3TurboQ5"),
        Some(WhisperModel::LargeV3TurboQ5)
    );
}

#[test]
fn whisper_model_from_id_invalid() {
    assert_eq!(WhisperModel::from_id("nonexistent"), None);
}

#[test]
fn whisper_model_filenames() {
    assert_eq!(WhisperModel::BaseEn.filename(), "ggml-base.en.bin");
    assert_eq!(
        WhisperModel::LargeV3TurboQ5.filename(),
        "ggml-large-v3-turbo-q5_0.bin"
    );
}

#[test]
fn whisper_model_id_matches_from_id() {
    assert_eq!(WhisperModel::from_id(WhisperModel::BaseEn.id()), Some(WhisperModel::BaseEn));
    assert_eq!(
        WhisperModel::from_id(WhisperModel::LargeV3TurboQ5.id()),
        Some(WhisperModel::LargeV3TurboQ5)
    );
}
