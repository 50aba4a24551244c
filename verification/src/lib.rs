//! Verified core logic of a meeting-notes application: transcript
//! deduplication, live-minutes bookkeeping, meeting-window detection,
//! streamed model-output filtering and tool-call extraction, summary
//! templates, licensing status, and model catalogs.
pub mod commands;
pub mod errors;
pub mod models;
pub mod services;
pub mod text;
