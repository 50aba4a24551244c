//! Meeting-detection model: detection phases, pattern confidence, the
//! per-app window-title patterns, and the event announcing a phase change.
use vstd::prelude::*;

verus! {

/// Where the detector is in a meeting's lifecycle.
#[derive(Debug, Clone, Copy, PartialEq, Eq, Structural)]
pub enum DetectionPhase {
    Idle,
    Active,
    Ending,
}

/// How specific a title pattern is.
#[derive(Debug, Clone, Copy, PartialEq, Eq, Structural)]
pub enum MeetingConfidence {
    Low,
    Medium,
    High,
}

/// The order of confidences: `Low < Medium < High`.
pub open spec fn confidence_rank(c: MeetingConfidence) -> nat {
    match c {
        MeetingConfidence::Low => 0,
        MeetingConfidence::Medium => 1,
        MeetingConfidence::High => 2,
    }
}

/// The rank of a confidence.
pub fn rank(c: MeetingConfidence) -> (r: u8)
    ensures
        r == confidence_rank(c),
{
    match c {
        MeetingConfidence::Low => 0,
        MeetingConfidence::Medium => 1,
        MeetingConfidence::High => 2,
    }
}

/// A window-title pattern of a meeting app.
#[derive(Debug, Clone)]
pub struct MeetingPattern {
    pub keyword: &'static str,
    pub confidence: MeetingConfidence,
    pub case_sensitive: bool,
    /// When any of these appears in the title (case-insensitively), the
    /// pattern is rejected (e.g. Teams chat windows).
    pub exclude_patterns: Vec<&'static str>,
}

/// A meeting app: its name, the bundle ids of its windows (empty: any
/// window, for browser-hosted meetings), and its title patterns.
#[derive(Debug, Clone)]
pub struct MeetingAppProfile {
    pub app_name: &'static str,
    pub bundle_ids: Vec<&'static str>,
    pub patterns: Vec<MeetingPattern>,
}

/// A pattern as plain values.
#[verifier::ext_equal]
pub struct MeetingPatternView {
    pub keyword: Seq<char>,
    pub confidence: MeetingConfidence,
    pub case_sensitive: bool,
    pub exclude_patterns: Seq<Seq<char>>,
}

impl View for MeetingPattern {
    type V = MeetingPatternView;

    open spec fn view(&self) -> MeetingPatternView {
        MeetingPatternView {
            keyword: self.keyword@,
            confidence: self.confidence,
            case_sensitive: self.case_sensitive,
            exclude_patterns: self.exclude_patterns@.map_values(|e: &'static str| e@),
        }
    }
}

/// A profile as plain values.
#[verifier::ext_equal]
pub struct MeetingAppProfileView {
    pub app_name: Seq<char>,
    pub bundle_ids: Seq<Seq<char>>,
    pub patterns: Seq<MeetingPatternView>,
}

impl View for MeetingAppProfile {
    type V = MeetingAppProfileView;

    open spec fn view(&self) -> MeetingAppProfileView {
        MeetingAppProfileView {
            app_name: self.app_name@,
            bundle_ids: self.bundle_ids@.map_values(|b: &'static str| b@),
            patterns: self.patterns@.map_values(|p: MeetingPattern| p@),
        }
    }
}

/// Announces a detection phase change.
pub struct MeetingDetectedEvent {
    pub phase: DetectionPhase,
    pub app_name: Option<String>,
}

} // verus!
