//! The language models the app can download.
use vstd::prelude::*;

use super::Model;
use crate::text::str_eq;

verus! {

/// A downloadable language model.
#[derive(Debug, Clone, Copy, PartialEq, Eq, Structural)]
#[allow(non_camel_case_types)]
pub enum LlmModel {
    Qwen3_5_4B_Q4KM,
    Gemma4_E2B_Q8,
    Lfm2_2_6B_Q8,
}

/// A model's stable id.
pub open spec fn llm_id(m: LlmModel) -> Seq<char> {
    match m {
        LlmModel::Qwen3_5_4B_Q4KM => "Qwen3_5_4B_Q4KM"@,
        LlmModel::Gemma4_E2B_Q8 => "Gemma4_E2B_Q8"@,
        LlmModel::Lfm2_2_6B_Q8 => "Lfm2_2_6B_Q8"@,
    }
}

/// A model's file name.
pub open spec fn llm_filename(m: LlmModel) -> Seq<char> {
    match m {
        LlmModel::Qwen3_5_4B_Q4KM => "Qwen3.5-4B-Q4_K_M.gguf"@,
        LlmModel::Gemma4_E2B_Q8 => "gemma-4-E2B-it-Q8_0.gguf"@,
        LlmModel::Lfm2_2_6B_Q8 => "LFM2-2.6B-Q8_0.gguf"@,
    }
}

/// The model an id names; the retired `Qwen3_4B_Q4KM` id still names the
/// Qwen model.
pub open spec fn llm_from_id(id: Seq<char>) -> Option<LlmModel> {
    if id == "Qwen3_5_4B_Q4KM"@ || id == "Qwen3_4B_Q4KM"@ {
        Some(LlmModel::Qwen3_5_4B_Q4KM)
    } else if id == "Gemma4_E2B_Q8"@ {
        Some(LlmModel::Gemma4_E2B_Q8)
    } else if id == "Lfm2_2_6B_Q8"@ {
        Some(LlmModel::Lfm2_2_6B_Q8)
    } else {
        None
    }
}

impl Model for LlmModel {
    fn id(&self) -> (r: &'static str)
        ensures
            r@ == llm_id(*self),
    {
        match self {
            LlmModel::Qwen3_5_4B_Q4KM => "Qwen3_5_4B_Q4KM",
            LlmModel::Gemma4_E2B_Q8 => "Gemma4_E2B_Q8",
            LlmModel::Lfm2_2_6B_Q8 => "Lfm2_2_6B_Q8",
        }
    }

    fn filename(&self) -> (r: &'static str)
        ensures
            r@ == llm_filename(*self),
    {
        match self {
            LlmModel::Qwen3_5_4B_Q4KM => "Qwen3.5-4B-Q4_K_M.gguf",
            LlmModel::Gemma4_E2B_Q8 => "gemma-4-E2B-it-Q8_0.gguf",
            LlmModel::Lfm2_2_6B_Q8 => "LFM2-2.6B-Q8_0.gguf",
        }
    }

    fn download_url(&self) -> (r: &'static str)
        ensures
            r@ == match *self {
                LlmModel::Qwen3_5_4B_Q4KM => "https://huggingface.co/unsloth/Qwen3.5-4B-GGUF/resolve/main/Qwen3.5-4B-Q4_K_M.gguf"@,
                LlmModel::Gemma4_E2B_Q8 => "https://huggingface.co/unsloth/gemma-4-E2B-it-GGUF/resolve/main/gemma-4-E2B-it-Q8_0.gguf"@,
                LlmModel::Lfm2_2_6B_Q8 => "https://huggingface.co/LiquidAI/LFM2-2.6B-GGUF/resolve/main/LFM2-2.6B-Q8_0.gguf"@,
            },
    {
        match self {
            LlmModel::Qwen3_5_4B_Q4KM => "https://huggingface.co/unsloth/Qwen3.5-4B-GGUF/resolve/main/Qwen3.5-4B-Q4_K_M.gguf",
            LlmModel::Gemma4_E2B_Q8 => "https://huggingface.co/unsloth/gemma-4-E2B-it-GGUF/resolve/main/gemma-4-E2B-it-Q8_0.gguf",
            LlmModel::Lfm2_2_6B_Q8 => "https://huggingface.co/LiquidAI/LFM2-2.6B-GGUF/resolve/main/LFM2-2.6B-Q8_0.gguf",
        }
    }

    fn from_id(id: &str) -> (r: Option<LlmModel>)
        ensures
            r == llm_from_id(id@),
    {
        if str_eq(id, "Qwen3_5_4B_Q4KM") || str_eq(id, "Qwen3_4B_Q4KM") {
            Some(LlmModel::Qwen3_5_4B_Q4KM)
        } else if str_eq(id, "Gemma4_E2B_Q8") {
            Some(LlmModel::Gemma4_E2B_Q8)
        } else if str_eq(id, "Lfm2_2_6B_Q8") {
            Some(LlmModel::Lfm2_2_6B_Q8)
        } else {
            None
        }
    }

    fn event_prefix() -> (r: &'static str)
        ensures
            r@ == "llm-model"@,
    {
        "llm-model"
    }
}

/// Every model is found again by its own id.
pub proof fn law_llm_id_roundtrip(m: LlmModel)
    ensures
        llm_from_id(llm_id(m)) == Some(m),
{
    reveal_strlit("Qwen3_5_4B_Q4KM");
    reveal_strlit("Qwen3_4B_Q4KM");
    reveal_strlit("Gemma4_E2B_Q8");
    reveal_strlit("Lfm2_2_6B_Q8");
    assert("Gemma4_E2B_Q8"@[0] != "Qwen3_5_4B_Q4KM"@[0]);
    assert("Gemma4_E2B_Q8"@[0] != "Qwen3_4B_Q4KM"@[0]);
    assert("Lfm2_2_6B_Q8"@[0] != "Qwen3_5_4B_Q4KM"@[0]);
    assert("Lfm2_2_6B_Q8"@[0] != "Qwen3_4B_Q4KM"@[0]);
    assert("Lfm2_2_6B_Q8"@[0] != "Gemma4_E2B_Q8"@[0]);
}

} // verus!
