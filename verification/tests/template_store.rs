use tucknotes::models::template::{OwnedSection, OwnedTemplate, TemplateStore};
use tucknotes::services::template_store::{
    create, delete, get_resolved, list_resolved, reset, resolve_owned, update,
};
use tucknotes::services::templates::builtin_seed_by_id;

fn sample(name: &str) -> OwnedTemplate {
    OwnedTemplate {
        id: String::new(),
        name: name.into(),
        description: "desc".into(),
        sections: vec![OwnedSection {
            id: "s1".into(),
            heading: "Notes".into(),
            description: "Bullet points.".into(),
            example: Some("- a note".into()),
        }],
        builtin: false,
        template_example: None,
    }
}

#[test]
fn list_resolved_returns_seeds_when_no_file() {
    let mut store = TemplateStore::new();
    let list = list_resolved(&store);
    let ids: Vec<&str> = list.iter().map(|t| t.id.as_str()).collect();
    assert_eq!(ids, ["default", "minutes", "one_on_one", "standup"]);
    assert!(list.iter().all(|t| t.builtin));
}

#[test]
fn create_assigns_slug_and_appends_after_builtins() {
    let mut store = TemplateStore::new();
    let created = create(&mut store, sample("My Notes!")).unwrap();
    assert_eq!(created.id, "my_notes");
    assert!(!created.builtin);

    let list = list_resolved(&store);
    assert_eq!(list.len(), 5);
    assert_eq!(list.last().unwrap().id, "my_notes");
}

#[test]
fn create_avoids_builtin_and_existing_id_collisions() {
    let mut store = TemplateStore::new();
    // "Default" slugifies to "default", which is reserved → bumped.
    let a = create(&mut store, sample("Default")).unwrap();
    assert_eq!(a.id, "default_2");
    let b = create(&mut store, sample("Default")).unwrap();
    assert_eq!(b.id, "default_3");
}

#[test]
fn editing_builtin_stores_override_and_keeps_id() {
    let mut store = TemplateStore::new();
    let mut standup = builtin_seed_by_id("standup").unwrap();
    standup.sections[0].description = "Edited progress instructions.".into();
    update(&mut store, standup).unwrap();

    let resolved = get_resolved(&store, "standup").unwrap();
    assert!(resolved.builtin);
    assert_eq!(resolved.id, "standup");
    assert_eq!(resolved.sections[0].description, "Edited progress instructions.");
    // Still listed in built-in position (first four), not appended.
    let list = list_resolved(&store);
    assert_eq!(list.len(), 4);
}

#[test]
fn reset_restores_seed() {
    let mut store = TemplateStore::new();
    let mut standup = builtin_seed_by_id("standup").unwrap();
    standup.sections[0].description = "Edited.".into();
    update(&mut store, standup).unwrap();

    let seed = reset(&mut store, "standup").unwrap();
    assert_eq!(seed, builtin_seed_by_id("standup").unwrap());
    let resolved = get_resolved(&store, "standup").unwrap();
    assert_eq!(resolved, builtin_seed_by_id("standup").unwrap());
}

#[test]
fn delete_removes_user_template_and_rejects_builtin() {
    let mut store = TemplateStore::new();
    let created = create(&mut store, sample("Temp")).unwrap();
    delete(&mut store, &created.id).unwrap();
    assert!(get_resolved(&store, &created.id).is_none());

    assert!(delete(&mut store, "default").is_err());
}

#[test]
fn resolve_owned_falls_back_to_default_for_unknown_or_none() {
    let mut store = TemplateStore::new();
    assert_eq!(resolve_owned(&store, None).unwrap().id, "default");
    assert_eq!(resolve_owned(&store, Some("ghost")).unwrap().id, "default");
    assert_eq!(resolve_owned(&store, Some("minutes")).unwrap().id, "minutes");
}

#[test]
fn validate_rejects_empty_sections_and_headings() {
    let mut store = TemplateStore::new();
    let mut bad = sample("X");
    bad.sections.clear();
    assert!(create(&mut store, bad).is_err());

    let mut bad2 = sample("Y");
    bad2.sections[0].description = "   ".into();
    assert!(create(&mut store, bad2).is_err());
}

#[test]
fn editing_builtin_persists_per_section_example() {
    let mut store = TemplateStore::new();
    let mut default = builtin_seed_by_id("default").unwrap();
    // The Recap seed now ships editable per-section examples.
    assert!(default.sections[0].example.is_some());
    // The user edits one section's example; it must round-trip.
    default.sections[0].example = Some("- A fresh example.".into());
    update(&mut store, default).unwrap();
    let resolved = get_resolved(&store, "default").unwrap();
    assert_eq!(
        resolved.sections[0].example.as_deref(),
        Some("- A fresh example.")
    );
    assert!(resolved.builtin);
}

#[test]
fn stored_template_example_is_kept_through_edits() {
    let mut store = TemplateStore::new();
    let mut t = sample("Weekly sync");
    t.template_example = Some("## Notes\n- a note".into());
    let created = create(&mut store, t).unwrap();
    assert_eq!(created.template_example.as_deref(), Some("## Notes\n- a note"));
    let got = get_resolved(&store, &created.id).unwrap();
    assert_eq!(got.template_example.as_deref(), Some("## Notes\n- a note"));
    assert_eq!(builtin_seed_by_id("default").unwrap().template_example, None);
}

#[test]
fn reset_reads_back_the_seed_even_with_duplicate_overrides() {
    let mut store = TemplateStore::new();
    let mut a = builtin_seed_by_id("default").unwrap();
    a.name = "First".into();
    let mut b = builtin_seed_by_id("default").unwrap();
    b.name = "Second".into();
    store.templates.push(a);
    store.templates.push(b);
    let seed = reset(&mut store, "default").unwrap();
    assert_eq!(seed, builtin_seed_by_id("default").unwrap());
    assert!(store.templates.is_empty());
    assert_eq!(get_resolved(&store, "default"), Some(seed.clone()));
    let again = reset(&mut store, "default").unwrap();
    assert_eq!(again, seed);
    assert!(store.templates.is_empty());
}
