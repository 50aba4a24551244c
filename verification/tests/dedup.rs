use tucknotes::services::dedup::{dedup_finalized, is_duplicate, normalize, Candidate, RecentSegments};

fn toks(s: &str) -> Vec<String> {
    normalize(s)
}

fn cand(source: &str, start: u64, end: u64, text: &str) -> Candidate {
    Candidate {
        source: source.into(),
        start_ms: start,
        end_ms: end,
        text: text.into(),
    }
}

#[test]
fn normalize_strips_punct_and_case() {
    assert_eq!(normalize("Hello, World!  Yes…"), vec!["hello", "world", "yes"]);
}

#[test]
fn normalize_empty_on_punct_only() {
    assert!(normalize("  …,. ").is_empty());
}

#[test]
fn normalize_collapses_contractions() {
    // Straight and curly apostrophes both fold to the bare word, matching a
    // stream that dropped the apostrophe entirely.
    assert_eq!(normalize("let\u{2019}s go"), vec!["lets", "go"]);
    assert_eq!(normalize("let's go"), normalize("lets go"));
}

#[test]
fn echo_garble_is_duplicate() {
    // one-word substitution out of seven (ship -> shift)
    let a = toks("i think we should ship it thursday");
    let b = toks("i think we should shift it thursday");
    assert!(is_duplicate(&a, 1000, 4000, &b, 1200, 4200, true));
}

#[test]
fn distinct_but_shared_function_words_kept() {
    let a = toks("i think we should wait until monday");
    let b = toks("i think we should ship it thursday");
    assert!(!is_duplicate(&a, 1000, 4000, &b, 1000, 4000, true));
}

#[test]
fn boundary_repeat_via_containment() {
    let prev = toks("we will finalize the plan on thursday and then we ship the build");
    let frag = toks("thursday and then we ship");
    // same-source, overlapping time -> window-boundary repeat
    assert!(is_duplicate(&frag, 30000, 32000, &prev, 28000, 33000, false));
}

#[test]
fn short_affirmation_same_source_kept() {
    let a = toks("yeah");
    let b = toks("yeah");
    assert!(!is_duplicate(&a, 1000, 1500, &b, 1200, 1700, false));
}

#[test]
fn short_affirmation_cross_source_exact_dropped() {
    let a = toks("okay");
    let b = toks("okay");
    assert!(is_duplicate(&a, 1000, 1500, &b, 1100, 1600, true));
}

#[test]
fn short_affirmation_cross_source_nonexact_kept() {
    let a = toks("okay");
    let b = toks("yep");
    assert!(!is_duplicate(&a, 1000, 1500, &b, 1000, 1500, true));
}

#[test]
fn time_gate_blocks_far_apart() {
    let a = toks("i think we should ship it thursday");
    let b = toks("i think we should ship it thursday");
    // ~16s apart, well beyond slack
    assert!(!is_duplicate(&a, 1000, 4000, &b, 20000, 23000, true));
}

#[test]
fn time_gate_allows_slack_offset() {
    let a = toks("i think we should ship it thursday");
    let b = toks("i think we should ship it thursday");
    // mic starts 1.2s after the system segment ends -> within slack
    assert!(is_duplicate(&a, 1000, 4000, &b, 5200, 8000, true));
}

#[test]
fn dedup_finalized_drops_mic_echo_keeps_system() {
    let recent = RecentSegments::new();
    let cands = vec![
        cand("system", 1000, 4000, "let's reconvene next week to review"),
        cand("microphone", 1200, 4200, "lets reconvene next week to review"),
    ];
    let out = dedup_finalized(&recent, cands);
    assert_eq!(out.len(), 1);
    assert_eq!(out[0].source, "system");
}

#[test]
fn dedup_finalized_keeps_distinct_cross_source() {
    let recent = RecentSegments::new();
    let cands = vec![
        cand("system", 1000, 4000, "let's reconvene next week to review"),
        cand("microphone", 1200, 4200, "sounds good i will send an agenda"),
    ];
    let out = dedup_finalized(&recent, cands);
    assert_eq!(out.len(), 2);
}

#[test]
fn dedup_finalized_drops_same_source_boundary_repeat() {
    let mut recent = RecentSegments::new();
    recent.extend_and_prune(&[cand("system", 28000, 31000, "and then we ship the build on friday")]);
    let cands = vec![
        cand("system", 31000, 34000, "and then we ship the build on friday"),
        cand("system", 34000, 37000, "after that we start the next milestone"),
    ];
    let out = dedup_finalized(&recent, cands);
    assert_eq!(out.len(), 1);
    assert_eq!(out[0].text, "after that we start the next milestone");
}

#[test]
fn dedup_finalized_empty() {
    let recent = RecentSegments::new();
    assert!(dedup_finalized(&recent, vec![]).is_empty());
}

#[test]
fn extend_and_prune_evicts_old() {
    let mut recent = RecentSegments::new();
    recent.extend_and_prune(&[cand("system", 0, 2000, "old segment far in the past")]);
    assert_eq!(recent.len(), 1);
    // newest jumps far ahead: 2000 + 45000 = 47000 < 60000 -> old evicted
    recent.extend_and_prune(&[cand("system", 60000, 62000, "a brand new segment right now")]);
    assert_eq!(recent.len(), 1);
}

#[test]
fn extend_and_prune_keeps_within_retention() {
    let mut recent = RecentSegments::new();
    recent.extend_and_prune(&[cand("system", 0, 2000, "first segment spoken here")]);
    recent.extend_and_prune(&[cand("system", 10000, 12000, "second segment a bit later")]);
    // 2000 + 45000 = 47000 >= 12000 -> both retained
    assert_eq!(recent.len(), 2);
}

#[test]
fn normalize_tokens_rejoin_to_themselves() {
    for text in ["Hello, World!  Yes…", "let\u{2019}s go", "Ship it — on Thursday (3pm)", "  …,. "] {
        let t = normalize(text);
        assert!(t.iter().all(|w| !w.is_empty() && w.chars().all(|c| c.is_alphanumeric())));
        assert_eq!(normalize(&t.join(" ")), t);
    }
    assert_eq!(normalize("let\u{2019}s go"), normalize("lets go"));
}
