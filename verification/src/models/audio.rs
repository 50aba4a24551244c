//! The events of a recording session as the user interface receives them.
use vstd::prelude::*;

verus! {

/// Where captured audio comes from: the other participants (system audio)
/// or the user (microphone).
#[derive(Debug, Clone, Copy, PartialEq, Eq, Structural)]
pub enum AudioSource {
    SystemAudio,
    Microphone,
}

/// A transcribed piece of the meeting. Provisional text is a preview of the
/// current window and is replaced by the final segments.
pub struct TranscriptEvent {
    pub text: String,
    pub source: String,
    pub timestamp_ms: u64,
    pub is_provisional: bool,
}

#[verifier::ext_equal]
pub struct TranscriptEventView {
    pub text: Seq<char>,
    pub source: Seq<char>,
    pub timestamp_ms: u64,
    pub is_provisional: bool,
}

impl View for TranscriptEvent {
    type V = TranscriptEventView;

    open spec fn view(&self) -> TranscriptEventView {
        TranscriptEventView {
            text: self.text@,
            source: self.source@,
            timestamp_ms: self.timestamp_ms,
            is_provisional: self.is_provisional,
        }
    }
}

/// The recording state as shown by the user interface.
pub struct RecordingStateEvent {
    pub recording: bool,
    pub paused: bool,
    pub meeting_id: Option<String>,
    pub elapsed_secs: u64,
    pub reset_live_transcript: bool,
}

/// Sent once a stopped recording's transcript is fully saved.
pub struct RecordingFinalizedEvent {
    pub meeting_id: String,
}

} // verus!
