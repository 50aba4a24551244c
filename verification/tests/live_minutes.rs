use tucknotes::errors::AppError;
use tucknotes::services::live_minutes::{
    apply_pass_result, cap_keep_head, cap_keep_tail, dedupe_against_recorded, group_topics,
    head_tokens, is_near_duplicate, norm_head, tail_context, tail_words, Session,
    CONTEXT_TAIL_BULLETS, GIST_MAX_FAILURES, MAX_FAILURES,
};

fn bullets(items: &[&str]) -> Vec<String> {
    items.iter().map(|s| s.to_string()).collect()
}

fn session() -> Session {
    Session {
        meeting_id: "m1".to_string(),
        pending: String::new(),
        bullets: Vec::new(),
        carry: String::new(),
        gist: String::new(),
        gist_pending: String::new(),
        gist_failures: 0,
        gist_disabled: false,
        pass_running: false,
        finalizing: false,
        disabled: false,
        failures: 0,
    }
}

#[test]
fn group_topics_keeps_flat_input_one_per_line() {
    assert_eq!(group_topics("- a\n- b"), bullets(&["- a", "- b"]));
}

#[test]
fn group_topics_attaches_sub_bullets_to_parent() {
    assert_eq!(
        group_topics("- a\n  - a1\n  - a2\n- b"),
        bullets(&["- a\n  - a1\n  - a2", "- b"])
    );
}

#[test]
fn group_topics_leading_orphan_becomes_own_group() {
    assert_eq!(
        group_topics("  - orphan\n- a"),
        bullets(&["  - orphan", "- a"])
    );
}

#[test]
fn tail_context_returns_trailing_bullets() {
    let all: Vec<String> = (0..CONTEXT_TAIL_BULLETS + 3)
        .map(|i| format!("- bullet {i}"))
        .collect();
    let tail = tail_context(&all);
    // Only the last CONTEXT_TAIL_BULLETS are shown to the model, in order.
    assert_eq!(tail.lines().count(), CONTEXT_TAIL_BULLETS);
    assert_eq!(tail.lines().next(), Some("- bullet 3"));
    let last = format!("- bullet {}", CONTEXT_TAIL_BULLETS + 2);
    assert_eq!(tail.lines().last(), Some(last.as_str()));
}

#[test]
fn tail_context_handles_short_or_empty_document() {
    assert_eq!(tail_context(&bullets(&["- a", "- b"])), "- a\n- b");
    assert_eq!(tail_context(&[]), "");
}

#[test]
fn norm_head_strips_marker_and_lowercases() {
    assert_eq!(norm_head("- Demo Friday"), "demo friday");
    // Only the head line matters; sub-bullets are ignored.
    assert_eq!(norm_head("  - Sub detail\n  - more"), "sub detail");
}

#[test]
fn dedupe_drops_repeat_of_recorded_bullet() {
    let recorded = bullets(&["- demo friday", "- pricing agreed"]);
    let mut new_groups = bullets(&["- Demo Friday", "- new point"]);
    dedupe_against_recorded(&recorded, &mut new_groups);
    // The restated bullet is dropped; the genuinely new one is kept.
    assert_eq!(new_groups, bullets(&["- new point"]));
}

#[test]
fn dedupe_drops_within_batch_dupes_and_empty_heads() {
    let mut new_groups = bullets(&["- a", "- A", "-   ", "- b"]);
    dedupe_against_recorded(&[], &mut new_groups);
    assert_eq!(new_groups, bullets(&["- a", "- b"]));
}

#[test]
fn dedupe_drops_paraphrase_of_old_bullet_beyond_context_tail() {
    // The paraphrased bullet is far older than the tail the model saw.
    let mut recorded = bullets(&["- Q3 budget cut 15% to $85k"]);
    recorded.extend((0..CONTEXT_TAIL_BULLETS).map(|i| format!("- filler point number {i}")));
    let mut new_groups = bullets(&["- Budget for Q3 cut by 15%, about $85k"]);
    dedupe_against_recorded(&recorded, &mut new_groups);
    assert!(new_groups.is_empty());
}

#[test]
fn dedupe_keeps_update_that_adds_new_information() {
    let recorded = bullets(&["- Demo Friday"]);
    let mut new_groups = bullets(&["- Demo moved to Monday, room 4B"]);
    dedupe_against_recorded(&recorded, &mut new_groups);
    assert_eq!(new_groups, bullets(&["- Demo moved to Monday, room 4B"]));
}

#[test]
fn dedupe_does_not_fuzzy_match_short_bullets() {
    // One content token is too little signal to call a near-duplicate.
    let recorded = bullets(&["- Q3 approved"]);
    let mut new_groups = bullets(&["- Q4 approved"]);
    dedupe_against_recorded(&recorded, &mut new_groups);
    assert_eq!(new_groups, bullets(&["- Q4 approved"]));
}

#[test]
fn head_tokens_drops_stopwords_short_tokens_and_lowercases() {
    let tokens: std::collections::HashSet<String> =
        head_tokens("- The Demo WAS moved to Friday at 3pm").into_iter().collect();
    let expect: std::collections::HashSet<String> = ["demo", "moved", "friday", "3pm"]
        .iter()
        .map(|s| s.to_string())
        .collect();
    assert_eq!(tokens, expect);
}

#[test]
fn near_duplicate_requires_high_containment() {
    let old = head_tokens("- Q3 budget cut 15% to $85k");
    assert!(is_near_duplicate(&head_tokens("- Budget for Q3 cut, about $85k"), &old));
    assert!(!is_near_duplicate(&head_tokens("- Q3 budget review moved to Monday"), &old));
}

#[test]
fn tail_words_keeps_last_n_words_with_original_text() {
    assert_eq!(tail_words("You: hello there\nSpeaker: demo friday", 3), "Speaker: demo friday");
    assert_eq!(tail_words("You: hello there\nSpeaker: demo friday", 4), "there\nSpeaker: demo friday");
    assert_eq!(tail_words("one two", 5), "one two");
    assert_eq!(tail_words("", 5), "");
    assert_eq!(tail_words("one two", 0), "");
}

#[test]
fn cap_keep_tail_and_head_respect_char_boundaries() {
    let mut s = "abcdé".to_string();
    cap_keep_tail(&mut s, 2);
    assert_eq!(s, "é");
    let mut s = "éabcd".to_string();
    cap_keep_head(&mut s, 1);
    assert_eq!(s, "");
    let mut s = "short".to_string();
    cap_keep_tail(&mut s, 10);
    assert_eq!(s, "short");
}

#[test]
fn pass_ok_appends_bullets_sets_carry_and_gist_pending() {
    let mut s = session();
    let (persist, rerun) = apply_pass_result(
        &mut s,
        "You: chunk text here\n",
        Ok("- Demo Friday".to_string()),
        None,
    );
    assert_eq!(persist.as_deref(), Some("- Demo Friday"));
    assert!(!rerun);
    assert_eq!(s.carry, "You: chunk text here");
    assert_eq!(s.gist_pending, "You: chunk text here\n");
    assert_eq!(s.failures, 0);
}

#[test]
fn pass_interrupted_returns_chunk_to_pending_and_gist_chunk_to_backlog() {
    let mut s = session();
    s.pending = "newer text\n".to_string();
    s.carry = "old carry".to_string();
    let (persist, rerun) = apply_pass_result(
        &mut s,
        "chunk text\n",
        Err(AppError::Interrupted),
        Some(("gist backlog\n".to_string(), Err(AppError::Interrupted))),
    );
    assert!(persist.is_none());
    assert!(!rerun);
    assert_eq!(s.pending, "chunk text\nnewer text\n");
    // Carry untouched: the chunk will reappear as NEW TRANSCRIPT.
    assert_eq!(s.carry, "old carry");
    assert_eq!(s.gist_pending, "gist backlog\n");
}

#[test]
fn pass_failures_disable_minutes_but_gist_failures_do_not() {
    let mut s = session();
    for _ in 0..MAX_FAILURES {
        apply_pass_result(
            &mut s,
            "chunk\n",
            Err(AppError::SummarizationFailed("boom".into())),
            None,
        );
    }
    assert!(s.disabled);

    let mut s = session();
    for _ in 0..GIST_MAX_FAILURES {
        apply_pass_result(
            &mut s,
            "chunk\n",
            Ok(String::new()),
            Some((
                "backlog\n".to_string(),
                Err(AppError::SummarizationFailed("boom".into())),
            )),
        );
    }
    assert!(s.gist_disabled);
    assert!(!s.disabled);
    assert_eq!(s.failures, 0);
}

#[test]
fn gist_ok_replaces_gist_and_resets_failures() {
    let mut s = session();
    s.gist = "old gist".to_string();
    s.gist_failures = 2;
    apply_pass_result(
        &mut s,
        "chunk\n",
        Ok(String::new()),
        Some((
            "backlog\n".to_string(),
            Ok("Participants: You\nTopics: demo".to_string()),
        )),
    );
    assert_eq!(s.gist, "Participants: You\nTopics: demo");
    assert_eq!(s.gist_failures, 0);
}
