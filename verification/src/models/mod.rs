//! Data model shared by the services.
use vstd::prelude::*;

pub mod audio;
pub mod licensing;
pub mod llm;
pub mod meeting_detection;
pub mod settings;
pub mod template;

verus! {

/// Shared interface of the downloadable model types (Whisper, LLM): their
/// stable id, file name, download location, lookup by id, and the prefix of
/// their download-progress events.
pub trait Model: Sized {
    fn id(&self) -> &'static str;

    fn filename(&self) -> &'static str;

    fn download_url(&self) -> &'static str;

    fn from_id(id: &str) -> Option<Self>;

    fn event_prefix() -> &'static str;
}

} // verus!
