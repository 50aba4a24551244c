use tucknotes::models::meeting_detection::DetectionPhase;
use tucknotes::services::meeting_detector::{
    find_best_match, meet_patterns, slack_patterns, teams_patterns, zoom_patterns,
    DetectorStateMachine,
};

#[test]
fn matches_zoom_meeting_window_title() {
    // Real-world Zoom title from a host's screenshot.
    assert!(find_best_match("Andre Gagnon's Zoom Meeting", &zoom_patterns()).is_some());
}

#[test]
fn matches_zoom_when_participant_too() {
    assert!(find_best_match("Zoom Meeting", &zoom_patterns()).is_some());
}

#[test]
fn rejects_text_editor_meeting_notes() {
    // Profiles only match high-specificity strings ("zoom meeting", not bare
    // "meeting"), so a TextEdit doc called "Meeting Notes" never matches.
    assert!(find_best_match("Meeting Notes.txt", &zoom_patterns()).is_none());
}

#[test]
fn matches_google_meet_in_call_title() {
    assert!(find_best_match(
        "Meet - abc-defg-hij - Google Chrome",
        &meet_patterns()
    )
    .is_some());
    // En dash variant (some locales).
    assert!(find_best_match("Meet \u{2013} abc-defg-hij", &meet_patterns()).is_some());
    // Em dash variant.
    assert!(find_best_match("Meet \u{2014} abc-defg-hij", &meet_patterns()).is_some());
}

#[test]
fn rejects_google_meet_landing_page() {
    // The /landing page's title is just "Google Meet" — must NOT match,
    // otherwise the detector stays Active forever and the auto-stop
    // overlay never appears when a real meeting ends.
    assert!(find_best_match("Google Meet", &meet_patterns()).is_none());
    // The /new "create meeting" page also lands here.
    assert!(find_best_match("Google Meet - Google Chrome", &meet_patterns()).is_none());
}

#[test]
fn teams_chat_window_excluded() {
    // "| Microsoft Teams" with "chat" in title should be excluded.
    assert!(find_best_match("Some Chat | Microsoft Teams", &teams_patterns()).is_none());
}

#[test]
fn slack_huddle_matches() {
    assert!(find_best_match("Huddle in #engineering", &slack_patterns()).is_some());
}

#[test]
fn empty_title_no_match() {
    assert!(find_best_match("", &zoom_patterns()).is_none());
}

#[test]
fn state_machine_requires_consecutive_misses() {
    let mut sm = DetectorStateMachine::new();
    assert_eq!(sm.tick(true, Some("Zoom"), 0), Some(DetectionPhase::Active));
    // First miss: no transition (consecutive_misses = 1).
    assert_eq!(sm.tick(false, None, 0), None);
    assert_eq!(sm.phase, DetectionPhase::Active);
    // Second miss: transitions to Ending (consecutive_misses = 2).
    assert_eq!(sm.tick(false, None, 0), None);
    assert_eq!(sm.phase, DetectionPhase::Ending);
}

#[test]
fn state_machine_resets_misses_on_signal() {
    let mut sm = DetectorStateMachine::new();
    sm.tick(true, Some("Zoom"), 0);
    sm.tick(false, None, 0); // 1 miss
    sm.tick(true, Some("Zoom"), 0); // resets
    sm.tick(false, None, 0); // 1 miss again
    assert_eq!(sm.phase, DetectionPhase::Active);
}
