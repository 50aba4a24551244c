use tucknotes::errors::AppError;
use tucknotes::models::llm::LlmModel;
use tucknotes::models::settings::{AppSettings, WhisperModel};
use tucknotes::models::Model;
use tucknotes::services::model_manager::{
    list_llm_models, list_whisper_models, llm_model_for_id, partial_filename, settle_llm_removal,
    settle_whisper_removal, whisper_model_for_id,
};

#[test]
fn list_whisper_models_returns_both_models() {
    let models = list_whisper_models();
    assert_eq!(models.len(), 2);
    assert_eq!(models[0].id, WhisperModel::LargeV3TurboQ5);
    assert_eq!(models[1].id, WhisperModel::BaseEn);
    // The recommended model is listed first.
    assert_eq!(models[0].recommended, Some(true));
}

#[test]
fn list_whisper_models_filenames_match_enum() {
    for m in &list_whisper_models() {
        assert_eq!(m.filename, m.id.filename());
    }
}

#[test]
fn list_llm_models_returns_catalog() {
    let models = list_llm_models();
    assert_eq!(models.len(), 2);
    assert_eq!(models[0].id, LlmModel::Gemma4_E2B_Q8);
    assert_eq!(models[1].id, LlmModel::Qwen3_5_4B_Q4KM);
    // The recommended model is listed first.
    assert_eq!(models[0].recommended, Some(true));
}

#[test]
fn list_llm_models_filename_matches_enum() {
    for m in &list_llm_models() {
        assert_eq!(m.filename, m.id.filename());
    }
}

#[test]
fn catalog_entries_carry_sizes_and_names() {
    let w = list_whisper_models();
    assert_eq!(w[0].name, "Large v3 Turbo (Quantized)");
    assert_eq!(w[0].size_bytes, 547_000_000);
    assert_eq!(w[1].size_bytes, 148_000_000);
    assert_eq!(w[1].recommended, None);
    let l = list_llm_models();
    assert_eq!(l[0].size_bytes, 5_050_000_000);
    assert_eq!(l[1].name, "Qwen3.5 4B (Q4_K_M)");
}

#[test]
fn partial_download_name() {
    assert_eq!(partial_filename("ggml-base.en.bin"), "ggml-base.en.bin.partial");
}

#[test]
fn removing_selected_model_clears_selection_and_asks_to_save() {
    let mut settings = AppSettings { selected_model: Some(WhisperModel::BaseEn), ..Default::default() };
    let r = settle_whisper_removal(&mut settings, WhisperModel::BaseEn, true, false);
    assert!(matches!(r, Ok(true)));
    assert_eq!(settings.selected_model, None);
}

#[test]
fn removing_other_model_keeps_selection() {
    let mut settings =
        AppSettings { selected_model: Some(WhisperModel::LargeV3TurboQ5), ..Default::default() };
    let r = settle_whisper_removal(&mut settings, WhisperModel::BaseEn, false, true);
    assert!(matches!(r, Ok(false)));
    assert_eq!(settings.selected_model, Some(WhisperModel::LargeV3TurboQ5));
}

#[test]
fn removing_absent_unselected_model_is_not_found() {
    let mut settings = AppSettings::default();
    match settle_whisper_removal(&mut settings, WhisperModel::BaseEn, false, false) {
        Err(AppError::NotFound(m)) => assert_eq!(m, "Model BaseEn is not on disk"),
        other => panic!("unexpected {:?}", other.map_err(|e| e.message())),
    }
    match settle_llm_removal(&mut settings, LlmModel::Gemma4_E2B_Q8, false, false) {
        Err(AppError::NotFound(m)) => assert_eq!(m, "Model Gemma4_E2B_Q8 is not on disk"),
        other => panic!("unexpected {:?}", other.map_err(|e| e.message())),
    }
}

#[test]
fn removing_selected_llm_clears_only_llm_selection() {
    let mut settings = AppSettings {
        selected_model: Some(WhisperModel::BaseEn),
        selected_llm_model: Some(LlmModel::Qwen3_5_4B_Q4KM),
        ..Default::default()
    };
    let r = settle_llm_removal(&mut settings, LlmModel::Qwen3_5_4B_Q4KM, true, true);
    assert!(matches!(r, Ok(true)));
    assert_eq!(settings.selected_llm_model, None);
    assert_eq!(settings.selected_model, Some(WhisperModel::BaseEn));
}

#[test]
fn model_lookup_by_id() {
    assert_eq!(whisper_model_for_id("BaseEn").ok(), Some(WhisperModel::BaseEn));
    match whisper_model_for_id("nope") {
        Err(AppError::InvalidModel(m)) => assert_eq!(m, "nope"),
        _ => panic!("expected InvalidModel"),
    }
    assert_eq!(llm_model_for_id("Gemma4_E2B_Q8").ok(), Some(LlmModel::Gemma4_E2B_Q8));
    assert!(matches!(llm_model_for_id(""), Err(AppError::InvalidModel(_))));
}
