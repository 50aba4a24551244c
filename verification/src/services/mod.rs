pub mod chat_messages;
pub mod database;
pub mod dedup;
pub mod json;
pub mod licensing;
pub mod live_minutes;
pub mod meeting_detector;
pub mod model_manager;
pub mod ollama;
pub mod prompt_text;
pub mod stream_split;
pub mod summarization;
pub mod template_store;
pub mod templates;
pub mod tool_calls;
pub mod transcription;
