pub mod chatbot;
pub mod meetings;
pub mod ollama;
pub mod recording;
pub mod summarization;
