//! The library's error type.
use vstd::prelude::*;

use crate::text::append_str;

verus! {

/// Every failure the application reports. Each variant carries a
/// human-readable message except `Interrupted`, which marks a model run that
/// was cooperatively cancelled.
#[derive(Debug, Clone, PartialEq, Eq)]
pub enum AppError {
    CaptureFailed(String),
    ConfigError(String),
    DownloadFailed(String),
    IoError(String),
    InvalidModel(String),
    TranscriptionFailed(String),
    DatabaseError(String),
    LockPoisoned(String),
    NotSupported(String),
    PermissionDenied(String),
    SummarizationFailed(String),
    LicenseValidationFailed(String),
    LicenseRequired(String),
    InvalidTemplate(String),
    NotFound(String),
    OllamaUnavailable(String),
    Interrupted,
}

impl AppError {
    /// The label that precedes the message when the error is displayed.
    pub open spec fn label(&self) -> Seq<char> {
        match self {
            AppError::CaptureFailed(_) => "Capture failed: "@,
            AppError::ConfigError(_) => "Config error: "@,
            AppError::DownloadFailed(_) => "Download failed: "@,
            AppError::IoError(_) => "IO error: "@,
            AppError::InvalidModel(_) => "Invalid model: "@,
            AppError::TranscriptionFailed(_) => "Transcription failed: "@,
            AppError::DatabaseError(_) => "Database error: "@,
            AppError::LockPoisoned(_) => "Lock poisoned: "@,
            AppError::NotSupported(_) => "Not supported: "@,
            AppError::PermissionDenied(_) => "Permission denied: "@,
            AppError::SummarizationFailed(_) => "Summarization failed: "@,
            AppError::LicenseValidationFailed(_) => "License validation failed: "@,
            AppError::LicenseRequired(_) => "License required: "@,
            AppError::InvalidTemplate(_) => "Invalid template: "@,
            AppError::NotFound(_) => "Not found: "@,
            AppError::OllamaUnavailable(_) => "Ollama unavailable: "@,
            AppError::Interrupted => "Interrupted"@,
        }
    }

    /// The message a variant carries (empty for `Interrupted`).
    pub open spec fn detail(&self) -> Seq<char> {
        match self {
            AppError::CaptureFailed(m) => m@,
            AppError::ConfigError(m) => m@,
            AppError::DownloadFailed(m) => m@,
            AppError::IoError(m) => m@,
            AppError::InvalidModel(m) => m@,
            AppError::TranscriptionFailed(m) => m@,
            AppError::DatabaseError(m) => m@,
            AppError::LockPoisoned(m) => m@,
            AppError::NotSupported(m) => m@,
            AppError::PermissionDenied(m) => m@,
            AppError::SummarizationFailed(m) => m@,
            AppError::LicenseValidationFailed(m) => m@,
            AppError::LicenseRequired(m) => m@,
            AppError::InvalidTemplate(m) => m@,
            AppError::NotFound(m) => m@,
            AppError::OllamaUnavailable(m) => m@,
            AppError::Interrupted => Seq::empty(),
        }
    }

    /// The displayed form: the variant's label followed by its message.
    pub fn message(&self) -> (r: String)
        ensures
            r@ == self.label() + self.detail(),
    {
        let (label, detail): (&str, &str) = match self {
            AppError::CaptureFailed(m) => ("Capture failed: ", m.as_str()),
            AppError::ConfigError(m) => ("Config error: ", m.as_str()),
            AppError::DownloadFailed(m) => ("Download failed: ", m.as_str()),
            AppError::IoError(m) => ("IO error: ", m.as_str()),
            AppError::InvalidModel(m) => ("Invalid model: ", m.as_str()),
            AppError::TranscriptionFailed(m) => ("Transcription failed: ", m.as_str()),
            AppError::DatabaseError(m) => ("Database error: ", m.as_str()),
            AppError::LockPoisoned(m) => ("Lock poisoned: ", m.as_str()),
            AppError::NotSupported(m) => ("Not supported: ", m.as_str()),
            AppError::PermissionDenied(m) => ("Permission denied: ", m.as_str()),
            AppError::SummarizationFailed(m) => ("Summarization failed: ", m.as_str()),
            AppError::LicenseValidationFailed(m) => ("License validation failed: ", m.as_str()),
            AppError::LicenseRequired(m) => ("License required: ", m.as_str()),
            AppError::InvalidTemplate(m) => ("Invalid template: ", m.as_str()),
            AppError::NotFound(m) => ("Not found: ", m.as_str()),
            AppError::OllamaUnavailable(m) => ("Ollama unavailable: ", m.as_str()),
            AppError::Interrupted => ("Interrupted", ""),
        };
        let mut r = String::new();
        append_str(&mut r, label);
        append_str(&mut r, detail);
        proof {
            reveal_strlit("");
        }
        assert(r@ == self.label() + self.detail());
        r
    }

    /// Whether this is the cooperative-cancellation marker.
    pub fn is_interrupted(&self) -> (r: bool)
        ensures
            r == (*self is Interrupted),
    {
        match self {
            AppError::Interrupted => true,
            _ => false,
        }
    }
}

} // verus!
