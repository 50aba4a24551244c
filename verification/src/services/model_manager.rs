//! Model catalogs and the decisions around removing a downloaded model.
//! Reading and writing files stays with the caller: these functions take
//! what was found on disk and say what to do next.
use vstd::prelude::*;

use crate::errors::AppError;
use crate::models::llm::{llm_filename, llm_id, llm_from_id, LlmModel};
use crate::models::settings::{
    whisper_filename, whisper_from_id, whisper_id, AppSettings, ModelInfo, WhisperModel,
};
use crate::models::Model;
use crate::text::{append_str, owned};

verus! {

/// The name of the temporary file a download streams into.
pub open spec fn partial_name(filename: Seq<char>) -> Seq<char> {
    filename + ".partial"@
}

/// `<filename>.partial`: where a model download is written until it is
/// complete.
pub fn partial_filename(filename: &str) -> (r: String)
    ensures
        r@ == partial_name(filename@),
{
    let mut r = owned(filename);
    append_str(&mut r, ".partial");
    r
}

/// The catalog of speech models the user can download.
pub fn list_whisper_models() -> (r: Vec<ModelInfo<WhisperModel>>)
    ensures
        r.len() == 2,
        r[0].id == WhisperModel::LargeV3TurboQ5,
        r[0].name@ == "Large v3 Turbo (Quantized)"@,
        r[0].description@ == "Higher accuracy, multilingual support. Larger download."@,
        r[0].size_bytes == 547_000_000,
        r[0].filename@ == whisper_filename(WhisperModel::LargeV3TurboQ5),
        r[0].recommended == Some(true),
        r[1].id == WhisperModel::BaseEn,
        r[1].name@ == "Base (English Only)"@,
        r[1].description@ == "Smallest download — choose only when storage is limited."@,
        r[1].size_bytes == 148_000_000,
        r[1].filename@ == whisper_filename(WhisperModel::BaseEn),
        r[1].recommended == None::<bool>,
{
    let turbo = ModelInfo {
        id: WhisperModel::LargeV3TurboQ5,
        name: owned("Large v3 Turbo (Quantized)"),
        description: owned("Higher accuracy, multilingual support. Larger download."),
        size_bytes: 547_000_000,
        filename: owned(WhisperModel::LargeV3TurboQ5.filename()),
        recommended: Some(true),
    };
    let base = ModelInfo {
        id: WhisperModel::BaseEn,
        name: owned("Base (English Only)"),
        description: owned("Smallest download — choose only when storage is limited."),
        size_bytes: 148_000_000,
        filename: owned(WhisperModel::BaseEn.filename()),
        recommended: None,
    };
    let mut v: Vec<ModelInfo<WhisperModel>> = Vec::new();
    v.push(turbo);
    v.push(base);
    v
}

/// The catalog of language models the user can download.
pub fn list_llm_models() -> (r: Vec<ModelInfo<LlmModel>>)
    ensures
        r.len() == 2,
        r[0].id == LlmModel::Gemma4_E2B_Q8,
        r[0].name@ == "Gemma 4 E2B (Q8_0)"@,
        r[0].description@
            == "Google's Gemma 4 model, 8-bit quantized. Higher quality, larger download."@,
        r[0].size_bytes == 5_050_000_000,
        r[0].filename@ == llm_filename(LlmModel::Gemma4_E2B_Q8),
        r[0].recommended == Some(true),
        r[1].id == LlmModel::Qwen3_5_4B_Q4KM,
        r[1].name@ == "Qwen3.5 4B (Q4_K_M)"@,
        r[1].description@ == "Compact 4-bit quantized model for meeting summarization."@,
        r[1].size_bytes == 2_740_000_000,
        r[1].filename@ == llm_filename(LlmModel::Qwen3_5_4B_Q4KM),
        r[1].recommended == None::<bool>,
{
    let gemma = ModelInfo {
        id: LlmModel::Gemma4_E2B_Q8,
        name: owned("Gemma 4 E2B (Q8_0)"),
        description: owned(
            "Google's Gemma 4 model, 8-bit quantized. Higher quality, larger download.",
        ),
        size_bytes: 5_050_000_000,
        filename: owned(LlmModel::Gemma4_E2B_Q8.filename()),
        recommended: Some(true),
    };
    let qwen = ModelInfo {
        id: LlmModel::Qwen3_5_4B_Q4KM,
        name: owned("Qwen3.5 4B (Q4_K_M)"),
        description: owned("Compact 4-bit quantized model for meeting summarization."),
        size_bytes: 2_740_000_000,
        filename: owned(LlmModel::Qwen3_5_4B_Q4KM.filename()),
        recommended: None,
    };
    let mut v: Vec<ModelInfo<LlmModel>> = Vec::new();
    v.push(gemma);
    v.push(qwen);
    v
}

/// The error for removing a model of which nothing was found.
pub open spec fn not_on_disk(id: Seq<char>) -> Seq<char> {
    "Model "@ + id + " is not on disk"@
}

fn not_on_disk_error(id: &str) -> (e: AppError)
    ensures
        e matches AppError::NotFound(m) && m@ == not_on_disk(id@),
{
    let mut m = owned("Model ");
    append_str(&mut m, id);
    append_str(&mut m, " is not on disk");
    AppError::NotFound(m)
}

/// What removing a speech model does to the settings, given whether its file
/// and its partial download were on disk (and have now been deleted).
///
/// A selection of this model is cleared. When neither file existed and the
/// model was not selected, the removal fails with `NotFound`; otherwise the
/// result says whether the settings changed and must be saved.
pub fn settle_whisper_removal(
    settings: &mut AppSettings,
    model: WhisperModel,
    file_existed: bool,
    partial_existed: bool,
) -> (r: Result<bool, AppError>)
    ensures
        ({
            let had = old(settings).selected_model == Some(model);
            &&& final(settings).selected_model == (if had { None } else {
                old(settings).selected_model
            })
            &&& final(settings).selected_llm_model == old(settings).selected_llm_model
            &&& final(settings).default_template == old(settings).default_template
            &&& final(settings).recording_consent_acknowledged
                == old(settings).recording_consent_acknowledged
            &&& final(settings).live_minutes_enabled == old(settings).live_minutes_enabled
            &&& final(settings).llm_provider == old(settings).llm_provider
            &&& final(settings).ollama == old(settings).ollama
            &&& (r is Ok <==> (file_existed || partial_existed || had))
            &&& (r matches Ok(save) ==> save == had)
            &&& (r matches Err(e) ==> e matches AppError::NotFound(m) && m@ == not_on_disk(
                whisper_id(model),
            ))
        }),
{
    let had = match settings.selected_model {
        Some(m) => m == model,
        None => false,
    };
    if had {
        settings.selected_model = None;
    }
    if !file_existed && !partial_existed && !had {
        return Err(not_on_disk_error(model.id()));
    }
    Ok(had)
}

/// What removing a language model does to the settings, given whether its
/// file and its partial download were on disk (and have now been deleted).
///
/// A selection of this model is cleared. When neither file existed and the
/// model was not selected, the removal fails with `NotFound`; otherwise the
/// result says whether the settings changed and must be saved.
pub fn settle_llm_removal(
    settings: &mut AppSettings,
    model: LlmModel,
    file_existed: bool,
    partial_existed: bool,
) -> (r: Result<bool, AppError>)
    ensures
        ({
            let had = old(settings).selected_llm_model == Some(model);
            &&& final(settings).selected_llm_model == (if had { None } else {
                old(settings).selected_llm_model
            })
            &&& final(settings).selected_model == old(settings).selected_model
            &&& final(settings).default_template == old(settings).default_template
            &&& final(settings).recording_consent_acknowledged
                == old(settings).recording_consent_acknowledged
            &&& final(settings).live_minutes_enabled == old(settings).live_minutes_enabled
            &&& final(settings).llm_provider == old(settings).llm_provider
            &&& final(settings).ollama == old(settings).ollama
            &&& (r is Ok <==> (file_existed || partial_existed || had))
            &&& (r matches Ok(save) ==> save == had)
            &&& (r matches Err(e) ==> e matches AppError::NotFound(m) && m@ == not_on_disk(
                llm_id(model),
            ))
        }),
{
    let had = match settings.selected_llm_model {
        Some(m) => m == model,
        None => false,
    };
    if had {
        settings.selected_llm_model = None;
    }
    if !file_existed && !partial_existed && !had {
        return Err(not_on_disk_error(model.id()));
    }
    Ok(had)
}

/// The speech model with the given id, or `InvalidModel` carrying the id.
pub fn whisper_model_for_id(id: &str) -> (r: Result<WhisperModel, AppError>)
    ensures
        match whisper_from_id(id@) {
            Some(m) => r == Ok::<WhisperModel, AppError>(m),
            None => r matches Err(AppError::InvalidModel(s)) && s@ == id@,
        },
{
    match WhisperModel::from_id(id) {
        Some(m) => Ok(m),
        None => Err(AppError::InvalidModel(owned(id))),
    }
}

/// The language model with the given id, or `InvalidModel` carrying the id.
pub fn llm_model_for_id(id: &str) -> (r: Result<LlmModel, AppError>)
    ensures
        match llm_from_id(id@) {
            Some(m) => r == Ok::<LlmModel, AppError>(m),
            None => r matches Err(AppError::InvalidModel(s)) && s@ == id@,
        },
{
    match LlmModel::from_id(id) {
        Some(m) => Ok(m),
        None => Err(AppError::InvalidModel(owned(id))),
    }
}

} // verus!
