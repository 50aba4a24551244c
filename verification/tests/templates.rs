use tucknotes::models::template::{OwnedSection, OwnedTemplate};
use tucknotes::services::templates::{
    build_section_system_prompt, build_system_prompt, built_in_templates, builtin_as_owned,
    builtin_seed_by_id, builtin_seeds, count_word, default_template, is_builtin_id, list_templates,
    minutes_template, one_on_one_template, section_action_items, section_description,
    standup_template, template_by_id,
};

/// The expected assembled system prompt for the built-in Recap template — a
/// golden snapshot guarding the built-in prompt against accidental drift.
/// `build_system_prompt(&default_template())` must reproduce this verbatim.
const DEFAULT_SYSTEM_PROMPT: &str = "\
You are a professional, detail-oriented Meeting Analyst AI designed to review meeting transcripts \
and provide concise, actionable minutes for busy professionals.\n\
You will be given a full transcript of a meeting, which may include a mix of speakers, topics, and \
discussion threads. Participants may use informal language, go off-topic, or interleave multiple subjects. \
Your job is to distill the transcript into the fixed four-section structure described below.\n\
\n\
The output is composed of up to four sections. Each section has a fixed `##` markdown heading. \
The headings, in order, are exactly: `## Summary`, `## Action items`, `## Decisions`, `## Open questions`. \
Never invent, rename, abbreviate, or reorder these headings.\n\
\n\
Rule for emitting a section: if and only if the section has content, emit its `##` heading on its own line, \
then a blank line, then the body. If a section has no content, omit both the heading and the body entirely. \
Never emit a heading with no body beneath it. Never emit body content without its heading directly above it.\n\
\n\
Section bodies:\n\
- ## Summary — 2 to 4 sentences of prose (no bullets, no bold). Factual, terse, scannable. What happened, what was decided, and the immediate next steps in plain language. The Summary section is always present.\n\
- ## Action items — GitHub-flavored task list of work that is still outstanding. Only major items. Every line is exactly `- [ ] action.` (unchecked square brackets, never `- [x]`). Only list tasks that still need to be done — exclude anything the transcript indicates is already finished or completed. Do not use any attribution (no personal names, `Owner:`, `Speaker:`, `Team:`, or roles). When the transcript explicitly mentions a concrete deadline (a date, weekday, or relative day like \"tomorrow\"), append a space then an inline-code span containing an em dash and the date, like `` `— Wed` ``, at the end of the line. NEVER invent or guess deadlines, and NEVER emit `` `— TBD` ``, `` `— soon` ``, or similar placeholders — if there's no real deadline, just omit the suffix.\n\
- ## Decisions — A bullet list (`- `) of choices the group made. Be VERY specific. Always make sure to provide the full context and details for each bullet. If there is much context, add sub-bullets for each point (`  - `). Each noun in the bullet points needs sub-bullets to explain the context and details. Top level bullet items should generally be chronological by topic discussed. Top level bullets should be highly specific and not general.\n\
- ## Open questions — A bullet list (`- `) of unresolved items, each phrased as a question ending with `?`. Be VERY specific. Always make sure to provide the full context and details for each bullet. If there is much context, add sub-bullets for each point (`  - `). Each noun in the bullet points needs sub-bullets to explain the context and details. Top level bullet items should generally be chronological by topic discussed. Top level bullets should be highly specific and not general. Skip any topics that do not have currently open questions that were not resolved on the call.\n\
\n\
Rules:\n\
- Only name a person when the transcript clearly attributes the work, decision, or statement to them — never guess at attribution.\n\
- Skip filler, chit-chat, repeated points, and pleasantries.\n\
- No editorializing, no summarizing importance, no meta-commentary.\n\
- Do not invent labels beyond the four section headings.\n\
- Do not give the output a title — the title is generated separately.\n\
\n\
Example shape (illustrative only, do not copy the content):\n\
## Summary\n\
The team agreed to ship v2 onboarding on Friday. QA gets the full week for regression. Dev cuts the release branch tonight; Priya drafts the launch email by Wednesday.\n\
\n\
## Action items\n\
- [ ] Cut the release branch tonight.\n\
- [ ] Draft the launch email. `— Wed`\n\
- [ ] Publish the updated dark-mode docs.\n\
\n\
## Decisions\n\
- Version 2 onboarding\n\
\x20 - Will ship on Friday\n\
- Country restrictions\n\
\x20 - Will not restrict any countries for the first iteration of the feature.\n\
\n\
## Open questions\n\
- Announce the launch in-app, or just over email?\n\
\x20 - Marketing prefers email-only; an in-app banner needs design time.\n\
- Which regions are in scope for the beta?\n\
\x20 - Legal review of the EU requirements is still pending.";

#[test]
fn default_template_prompt_snapshot() {
    assert_eq!(
        build_system_prompt(&builtin_as_owned(&default_template())),
        DEFAULT_SYSTEM_PROMPT
    );
}

#[test]
fn custom_template_rules_block_is_section_agnostic() {
    // A user template that doesn't use the built-in Action items section must
    // not inherit its rules: the shared Rules block names no section, so the
    // model is never told to attribute owners the template didn't ask for.
    // Mirrors the real "Action Items" custom template (id `quick_summary`).
    let t = OwnedTemplate {
        id: "quick_summary".to_string(),
        name: "Action Items".to_string(),
        description: String::new(),
        sections: vec![OwnedSection {
            id: "new-2".to_string(),
            heading: "Action Items".to_string(),
            description:
                "GitHub-flavored task list of outstanding work. Every line is exactly `- [ ] action.`"
                    .to_string(),
            example: None,
        }],
        builtin: false,
        template_example: None,
    };
    let prompt = build_system_prompt(&t);
    assert!(!prompt.contains("Only major items"), "leaked the built-in Action items spec");
    assert!(!prompt.contains("no personal names"), "leaked an Action items rule");
    assert!(
        !prompt.contains("Name people only in the Summary and Decisions"),
        "named sections the template does not contain"
    );
    assert!(prompt.contains("Skip filler, chit-chat"), "lost the universal rules");

    // Built-ins without an Action items section likewise carry none of its rules.
    assert!(
        !build_system_prompt(&builtin_as_owned(&standup_template())).contains("Only major items")
    );
}

#[test]
fn all_built_in_templates_build_without_panic() {
    for t in &built_in_templates() {
        let prompt = build_system_prompt(&builtin_as_owned(t));
        assert!(!prompt.is_empty(), "{} produced an empty prompt", t.id);
        // Every template's headings must appear in order.
        let mut cursor = 0;
        for ts in &t.sections {
            let needle = format!("`## {}`", ts.section.heading);
            let at = prompt[cursor..].find(&needle).unwrap_or_else(|| {
                panic!("{}: heading {:?} missing or out of order", t.id, needle)
            });
            cursor += at + needle.len();
        }
    }
}

#[test]
fn templates_reuse_action_items_section_verbatim() {
    // The tuned Action items rules must carry into every template that uses it.
    for t in [&minutes_template(), &one_on_one_template()] {
        let prompt = build_system_prompt(&builtin_as_owned(t));
        assert!(
            prompt.contains(section_action_items().body_spec.as_str()),
            "{} lost the verbatim Action items body_spec",
            t.id
        );
    }
}

#[test]
fn section_description_is_lossless() {
    // Splitting body_spec into heading + description must reassemble exactly.
    let s = &section_action_items();
    let rebuilt = format!("- ## {} — {}", s.heading, section_description(s));
    assert_eq!(rebuilt, s.body_spec);
}

#[test]
fn builtin_seeds_match_static_ids() {
    let ids: Vec<String> = builtin_seeds().into_iter().map(|t| t.id).collect();
    assert_eq!(ids, ["default", "minutes", "one_on_one", "standup"]);
    assert!(builtin_seeds().iter().all(|t| t.builtin));
    assert!(builtin_seed_by_id("minutes").is_some());
    assert!(builtin_seed_by_id("nope").is_none());
    assert!(is_builtin_id("standup"));
    assert!(!is_builtin_id("custom"));
}

#[test]
fn per_section_example_emits_example_block() {
    let mut t = builtin_as_owned(&standup_template());
    for s in &mut t.sections {
        s.example = None; // strip the shipped examples
    }
    assert!(!build_system_prompt(&t).contains("Example shape"));
    t.sections[0].example = Some("- Shipped the login flow.".to_string());
    let prompt = build_system_prompt(&t);
    assert!(prompt.contains("Example shape (illustrative only, do not copy the content):"));
    assert!(prompt.contains("## Progress\n- Shipped the login flow."));
}

#[test]
fn minutes_template_shape() {
    let prompt = build_system_prompt(&builtin_as_owned(&minutes_template()));
    assert!(prompt.contains("up to two sections"));
    for h in ["## Agenda", "## Action items"] {
        assert!(prompt.contains(h), "minutes missing {h}");
    }
    // Sections from other templates must not leak in.
    assert!(!prompt.contains("## Discussion"));
    assert!(!prompt.contains("## Decisions"));
    assert!(!prompt.contains("## Open questions"));
    assert!(!prompt.contains("## Blockers"));
    // Every section ships an illustrative example.
    assert!(prompt.contains("Example shape"));
}

#[test]
fn standup_template_shape() {
    let prompt = build_system_prompt(&builtin_as_owned(&standup_template()));
    assert!(prompt.contains("up to two sections"));
    for h in ["## Progress", "## Blockers"] {
        assert!(prompt.contains(h), "standup missing {h}");
    }
    assert!(!prompt.contains("## Plans"));
    assert!(!prompt.contains("## Summary"));
    assert!(!prompt.contains("## Action items"));
}

#[test]
fn one_on_one_template_shape() {
    let prompt = build_system_prompt(&builtin_as_owned(&one_on_one_template()));
    assert!(prompt.contains("up to three sections"));
    for h in ["## Discussion", "## Action items", "## Follow-ups"] {
        assert!(prompt.contains(h), "1:1 missing {h}");
    }
}

#[test]
fn template_by_id_resolves_known_and_falls_back() {
    assert_eq!(template_by_id(Some("default")).id, "default");
    assert_eq!(template_by_id(Some("minutes")).id, "minutes");
    assert_eq!(template_by_id(Some("one_on_one")).id, "one_on_one");
    assert_eq!(template_by_id(Some("standup")).id, "standup");
    // Unknown / None → default.
    assert_eq!(template_by_id(Some("does_not_exist")).id, "default");
    assert_eq!(template_by_id(None).id, "default");
}

#[test]
fn list_templates_exposes_all_built_ins() {
    let infos = list_templates();
    let ids: Vec<&str> = infos.iter().map(|i| i.id.as_str()).collect();
    assert_eq!(ids, ["default", "minutes", "one_on_one", "standup"]);
}

#[test]
fn count_word_spells_small_numbers() {
    assert_eq!(count_word(3), "three");
    assert_eq!(count_word(4), "four");
    assert_eq!(count_word(10), "10");
}

#[test]
fn section_prompt_writes_body_only_and_keeps_section_rules() {
    let recap = builtin_as_owned(&default_template());
    let action_items = recap
        .sections
        .iter()
        .find(|s| s.heading == "Action items")
        .expect("Recap has an Action items section");
    let prompt = build_section_system_prompt(action_items);

    // The body-only contract is present (the app injects the heading).
    assert!(prompt.contains("Write ONLY the body"));
    assert!(prompt.contains("Do NOT output the `## Action items` line"));
    // The section's own tuned rules carry through.
    assert!(prompt.contains("Only major items"));
    assert!(prompt.contains("NEVER invent or guess deadlines"));
    // Its example is shown, but WITHOUT a `## Action items` heading above it.
    assert!(prompt.contains("Example shape (illustrative only, do not copy the content):"));
    assert!(!prompt.contains("## Action items\n- [ ]"));
    // Universal rules are present.
    assert!(prompt.contains("Skip filler, chit-chat"));
}

#[test]
fn section_prompt_does_not_leak_other_sections_rules() {
    // A pass for a non-Action-items section must not carry its checkbox rules.
    let recap = builtin_as_owned(&default_template());
    let summary = recap
        .sections
        .iter()
        .find(|s| s.heading == "Summary")
        .expect("Recap has a Summary section");
    let prompt = build_section_system_prompt(summary);
    assert!(!prompt.contains("Only major items"), "leaked the Action items spec");
    assert!(!prompt.contains("- [ ]"), "leaked the Action items checkbox format");
}

#[test]
fn section_prompt_example_only_when_present() {
    // With the example stripped, no example block appears.
    let standup = builtin_as_owned(&standup_template());
    let mut progress = standup.sections[0].clone();
    progress.example = None;
    assert!(!build_section_system_prompt(&progress).contains("Example shape"));

    // With an example set, the example block appears verbatim.
    progress.example = Some("- Shipped the login flow.".to_string());
    let prompt = build_section_system_prompt(&progress);
    assert!(prompt.contains("Example shape (illustrative only, do not copy the content):"));
    assert!(prompt.contains("- Shipped the login flow."));
}

#[test]
fn section_prompt_demands_concrete_specifics() {
    // The universal Rules block must push the model toward concrete, self-
    // contained lines (with the abstract-line example) — for any section.
    let recap = builtin_as_owned(&default_template());
    let summary = recap
        .sections
        .iter()
        .find(|s| s.heading == "Summary")
        .expect("Recap has a Summary section");
    let prompt = build_section_system_prompt(summary);
    assert!(prompt.contains("Be concrete and self-contained"));
    assert!(prompt.contains("Refactoring completed and tested"));
}
