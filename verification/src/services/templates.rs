//! Summary templates: composable sections assembled into the system prompt
//! that drives summarization.
//!
//! A [`SummaryTemplate`] is an ordered list of reusable [`Section`]s. The
//! system prompt is assembled from a template's sections plus a shared
//! preamble and rule set, so a section (e.g. "Action items", with its tuned
//! formatting rules) is written once and reused by every template that
//! includes it. Four templates are built in; the first is the default.
use vstd::prelude::*;

use crate::models::template::{OwnedSection, OwnedSectionView, OwnedTemplate, OwnedTemplateView};
use crate::services::prompt_text::{
    EMIT_RULE, DETAIL_SPEC, SUMMARY_BODY, ACTION_ITEMS_BODY, DECISIONS_LEAD, OPEN_QUESTIONS_LEAD, OPEN_QUESTIONS_TAIL, AGENDA_LEAD, DISCUSSION_LEAD, FOLLOW_UPS_LEAD, PROGRESS_LEAD, BLOCKERS_LEAD, EXAMPLE_SUMMARY, EXAMPLE_ACTION_ITEMS, EXAMPLE_DECISIONS, EXAMPLE_OPEN_QUESTIONS, EXAMPLE_AGENDA, EXAMPLE_DISCUSSION_ONE_ON_ONE, EXAMPLE_ACTION_ITEMS_ONE_ON_ONE, EXAMPLE_FOLLOW_UPS, EXAMPLE_PROGRESS, EXAMPLE_BLOCKERS, PREAMBLE_LEAD, PREAMBLE_TAIL, HEADINGS_LEAD, HEADINGS_MID, HEADINGS_TAIL, RULES_LEAD, RULES_TAIL, EXAMPLE_SHAPE_LEAD, SECTION_PREAMBLE_LEAD, SECTION_PREAMBLE_TAIL, SECTION_BODY_LEAD, SECTION_BODY_MID, SECTION_BODY_TAIL, SECTION_EMIT_RULE, SECTION_RULES, LIVE_MINUTES_PROMPT, MEETING_GIST_PROMPT,
};
use crate::text::{
    append_str, decimal, decimal_string, has_prefix, join, join_strings, opt_view, owned,
    skip_chars, starts_with, str_chars, str_eq, string_from_chars,
};

verus! {

/// One composable section of a summary template.
pub struct Section {
    /// Stable identifier (e.g. `"action_items"`).
    pub id: String,
    /// The exact `##` heading text, without the leading `"## "`.
    pub heading: String,
    /// The full `- ## Heading — …` line of the prompt's "Section bodies:"
    /// block.
    pub body_spec: String,
    /// Whether the section is always emitted (only the Summary is).
    pub always_present: bool,
}

/// A section as used within a template: the shared [`Section`] plus the
/// template's own illustrative example, if any.
pub struct TemplateSection {
    pub section: Section,
    pub example: Option<String>,
}

/// An ordered set of sections, each with an optional example.
pub struct SummaryTemplate {
    /// Stable identifier (`"default"`, `"minutes"`, `"one_on_one"`,
    /// `"standup"`).
    pub id: String,
    /// Human-readable label shown in the template picker.
    pub name: String,
    /// One-line description for the picker.
    pub description: String,
    pub sections: Vec<TemplateSection>,
}

/// Summary of a template for the template pickers.
pub struct TemplateInfo {
    pub id: String,
    pub name: String,
    pub description: String,
    /// `true` for templates that ship with the app.
    pub builtin: bool,
}

#[verifier::ext_equal]
pub struct SectionView {
    pub id: Seq<char>,
    pub heading: Seq<char>,
    pub body_spec: Seq<char>,
    pub always_present: bool,
}

#[verifier::ext_equal]
pub struct TemplateSectionView {
    pub section: SectionView,
    pub example: Option<Seq<char>>,
}

#[verifier::ext_equal]
pub struct SummaryTemplateView {
    pub id: Seq<char>,
    pub name: Seq<char>,
    pub description: Seq<char>,
    pub sections: Seq<TemplateSectionView>,
}

#[verifier::ext_equal]
pub struct TemplateInfoView {
    pub id: Seq<char>,
    pub name: Seq<char>,
    pub description: Seq<char>,
    pub builtin: bool,
}

impl View for Section {
    type V = SectionView;

    open spec fn view(&self) -> SectionView {
        SectionView {
            id: self.id@,
            heading: self.heading@,
            body_spec: self.body_spec@,
            always_present: self.always_present,
        }
    }
}

impl View for TemplateSection {
    type V = TemplateSectionView;

    open spec fn view(&self) -> TemplateSectionView {
        TemplateSectionView { section: self.section@, example: opt_view(self.example) }
    }
}

impl View for SummaryTemplate {
    type V = SummaryTemplateView;

    open spec fn view(&self) -> SummaryTemplateView {
        SummaryTemplateView {
            id: self.id@,
            name: self.name@,
            description: self.description@,
            sections: self.sections@.map_values(|s: TemplateSection| s@),
        }
    }
}

impl View for TemplateInfo {
    type V = TemplateInfoView;

    open spec fn view(&self) -> TemplateInfoView {
        TemplateInfoView {
            id: self.id@,
            name: self.name@,
            description: self.description@,
            builtin: self.builtin,
        }
    }
}

// ---------------------------------------------------------------------------
// Built-in sections and templates
// ---------------------------------------------------------------------------

pub open spec fn section_view(
    id: Seq<char>,
    heading: Seq<char>,
    body_spec: Seq<char>,
    always_present: bool,
) -> SectionView {
    SectionView { id, heading, body_spec, always_present }
}

pub open spec fn summary_section() -> SectionView {
    section_view("summary"@, "Summary"@, SUMMARY_BODY@, true)
}

pub open spec fn decisions_section() -> SectionView {
    section_view("decisions"@, "Decisions"@, DECISIONS_LEAD@ + DETAIL_SPEC@, false)
}

pub open spec fn action_items_section() -> SectionView {
    section_view("action_items"@, "Action items"@, ACTION_ITEMS_BODY@, false)
}

pub open spec fn open_questions_section() -> SectionView {
    section_view(
        "open_questions"@,
        "Open questions"@,
        OPEN_QUESTIONS_LEAD@ + DETAIL_SPEC@ + OPEN_QUESTIONS_TAIL@,
        false,
    )
}

pub open spec fn agenda_section() -> SectionView {
    section_view("agenda"@, "Agenda"@, AGENDA_LEAD@ + DETAIL_SPEC@, false)
}

pub open spec fn discussion_section() -> SectionView {
    section_view("discussion"@, "Discussion"@, DISCUSSION_LEAD@ + DETAIL_SPEC@, false)
}

pub open spec fn follow_ups_section() -> SectionView {
    section_view("follow_ups"@, "Follow-ups"@, FOLLOW_UPS_LEAD@ + DETAIL_SPEC@, false)
}

pub open spec fn progress_section() -> SectionView {
    section_view("progress"@, "Progress"@, PROGRESS_LEAD@ + DETAIL_SPEC@, false)
}

pub open spec fn blockers_section() -> SectionView {
    section_view("blockers"@, "Blockers"@, BLOCKERS_LEAD@ + DETAIL_SPEC@, false)
}

pub open spec fn with_example(section: SectionView, example: Seq<char>) -> TemplateSectionView {
    TemplateSectionView { section, example: Some(example) }
}

pub open spec fn default_template_view() -> SummaryTemplateView {
    SummaryTemplateView {
        id: "default"@,
        name: "Recap"@,
        description: "General-purpose summary with decisions, action items, and open questions."@,
        sections: seq![
            with_example(summary_section(), EXAMPLE_SUMMARY@),
            with_example(action_items_section(), EXAMPLE_ACTION_ITEMS@),
            with_example(decisions_section(), EXAMPLE_DECISIONS@),
            with_example(open_questions_section(), EXAMPLE_OPEN_QUESTIONS@),
        ],
    }
}

pub open spec fn minutes_template_view() -> SummaryTemplateView {
    SummaryTemplateView {
        id: "minutes"@,
        name: "Meeting minutes"@,
        description: "Formal minutes: agenda and action items."@,
        sections: seq![
            with_example(agenda_section(), EXAMPLE_AGENDA@),
            with_example(action_items_section(), EXAMPLE_ACTION_ITEMS@),
        ],
    }
}

pub open spec fn one_on_one_template_view() -> SummaryTemplateView {
    SummaryTemplateView {
        id: "one_on_one"@,
        name: "1:1"@,
        description: "One-on-one notes: discussion, action items, and follow-ups."@,
        sections: seq![
            with_example(discussion_section(), EXAMPLE_DISCUSSION_ONE_ON_ONE@),
            with_example(action_items_section(), EXAMPLE_ACTION_ITEMS_ONE_ON_ONE@),
            with_example(follow_ups_section(), EXAMPLE_FOLLOW_UPS@),
        ],
    }
}

pub open spec fn standup_template_view() -> SummaryTemplateView {
    SummaryTemplateView {
        id: "standup"@,
        name: "Standup"@,
        description: "Daily standup: progress and blockers."@,
        sections: seq![
            with_example(progress_section(), EXAMPLE_PROGRESS@),
            with_example(blockers_section(), EXAMPLE_BLOCKERS@),
        ],
    }
}

/// The built-in templates, in display order; the first is the default.
pub open spec fn built_in_views() -> Seq<SummaryTemplateView> {
    seq![
        default_template_view(),
        minutes_template_view(),
        one_on_one_template_view(),
        standup_template_view(),
    ]
}

fn make_section(id: &str, heading: &str, body_spec: String, always_present: bool) -> (r: Section)
    ensures
        r@ == section_view(id@, heading@, body_spec@, always_present),
{
    Section { id: owned(id), heading: owned(heading), body_spec, always_present }
}

fn detailed(lead: &str) -> (r: String)
    ensures
        r@ == lead@ + DETAIL_SPEC@,
{
    let mut s = owned(lead);
    append_str(&mut s, DETAIL_SPEC);
    s
}

pub fn section_summary() -> (r: Section)
    ensures
        r@ == summary_section(),
{
    make_section("summary", "Summary", owned(SUMMARY_BODY), true)
}

pub fn section_decisions() -> (r: Section)
    ensures
        r@ == decisions_section(),
{
    make_section("decisions", "Decisions", detailed(DECISIONS_LEAD), false)
}

pub fn section_action_items() -> (r: Section)
    ensures
        r@ == action_items_section(),
{
    make_section("action_items", "Action items", owned(ACTION_ITEMS_BODY), false)
}

pub fn section_open_questions() -> (r: Section)
    ensures
        r@ == open_questions_section(),
{
    let mut body = detailed(OPEN_QUESTIONS_LEAD);
    append_str(&mut body, OPEN_QUESTIONS_TAIL);
    make_section("open_questions", "Open questions", body, false)
}

pub fn section_agenda() -> (r: Section)
    ensures
        r@ == agenda_section(),
{
    make_section("agenda", "Agenda", detailed(AGENDA_LEAD), false)
}

pub fn section_discussion() -> (r: Section)
    ensures
        r@ == discussion_section(),
{
    make_section("discussion", "Discussion", detailed(DISCUSSION_LEAD), false)
}

pub fn section_follow_ups() -> (r: Section)
    ensures
        r@ == follow_ups_section(),
{
    make_section("follow_ups", "Follow-ups", detailed(FOLLOW_UPS_LEAD), false)
}

pub fn section_progress() -> (r: Section)
    ensures
        r@ == progress_section(),
{
    make_section("progress", "Progress", detailed(PROGRESS_LEAD), false)
}

pub fn section_blockers() -> (r: Section)
    ensures
        r@ == blockers_section(),
{
    make_section("blockers", "Blockers", detailed(BLOCKERS_LEAD), false)
}

fn paired(section: Section, example: &str) -> (r: TemplateSection)
    ensures
        r@ == with_example(section@, example@),
{
    TemplateSection { section, example: Some(owned(example)) }
}

fn make_template(id: &str, name: &str, description: &str, sections: Vec<TemplateSection>) -> (r:
    SummaryTemplate)
    ensures
        r@ == (SummaryTemplateView {
            id: id@,
            name: name@,
            description: description@,
            sections: sections@.map_values(|s: TemplateSection| s@),
        }),
{
    SummaryTemplate { id: owned(id), name: owned(name), description: owned(description), sections }
}

/// The built-in Recap template (the default).
pub fn default_template() -> (r: SummaryTemplate)
    ensures
        r@ == default_template_view(),
{
    let mut v: Vec<TemplateSection> = Vec::new();
    v.push(paired(section_summary(), EXAMPLE_SUMMARY));
    v.push(paired(section_action_items(), EXAMPLE_ACTION_ITEMS));
    v.push(paired(section_decisions(), EXAMPLE_DECISIONS));
    v.push(paired(section_open_questions(), EXAMPLE_OPEN_QUESTIONS));
    assert(v@.map_values(|s: TemplateSection| s@) =~= default_template_view().sections);
    make_template(
        "default",
        "Recap",
        "General-purpose summary with decisions, action items, and open questions.",
        v,
    )
}

/// The built-in meeting-minutes template.
pub fn minutes_template() -> (r: SummaryTemplate)
    ensures
        r@ == minutes_template_view(),
{
    let mut v: Vec<TemplateSection> = Vec::new();
    v.push(paired(section_agenda(), EXAMPLE_AGENDA));
    v.push(paired(section_action_items(), EXAMPLE_ACTION_ITEMS));
    assert(v@.map_values(|s: TemplateSection| s@) =~= minutes_template_view().sections);
    make_template("minutes", "Meeting minutes", "Formal minutes: agenda and action items.", v)
}

/// The built-in 1:1 template.
pub fn one_on_one_template() -> (r: SummaryTemplate)
    ensures
        r@ == one_on_one_template_view(),
{
    let mut v: Vec<TemplateSection> = Vec::new();
    v.push(paired(section_discussion(), EXAMPLE_DISCUSSION_ONE_ON_ONE));
    v.push(paired(section_action_items(), EXAMPLE_ACTION_ITEMS_ONE_ON_ONE));
    v.push(paired(section_follow_ups(), EXAMPLE_FOLLOW_UPS));
    assert(v@.map_values(|s: TemplateSection| s@) =~= one_on_one_template_view().sections);
    make_template(
        "one_on_one",
        "1:1",
        "One-on-one notes: discussion, action items, and follow-ups.",
        v,
    )
}

/// The built-in standup template.
pub fn standup_template() -> (r: SummaryTemplate)
    ensures
        r@ == standup_template_view(),
{
    let mut v: Vec<TemplateSection> = Vec::new();
    v.push(paired(section_progress(), EXAMPLE_PROGRESS));
    v.push(paired(section_blockers(), EXAMPLE_BLOCKERS));
    assert(v@.map_values(|s: TemplateSection| s@) =~= standup_template_view().sections);
    make_template("standup", "Standup", "Daily standup: progress and blockers.", v)
}

/// All built-in templates, in display order. The first entry is the default.
pub fn built_in_templates() -> (r: Vec<SummaryTemplate>)
    ensures
        r@.map_values(|t: SummaryTemplate| t@) == built_in_views(),
{
    let mut v: Vec<SummaryTemplate> = Vec::new();
    v.push(default_template());
    v.push(minutes_template());
    v.push(one_on_one_template());
    v.push(standup_template());
    assert(v@.map_values(|t: SummaryTemplate| t@) =~= built_in_views());
    v
}

/// The first template of `ts` with id `id`.
pub open spec fn find_template(ts: Seq<SummaryTemplateView>, id: Seq<char>) -> Option<
    SummaryTemplateView,
>
    decreases ts.len(),
{
    if ts.len() == 0 {
        None
    } else if ts[0].id == id {
        Some(ts[0])
    } else {
        find_template(ts.drop_first(), id)
    }
}

/// The built-in template with id `id`, if any.
pub open spec fn builtin_with_id(id: Seq<char>) -> Option<SummaryTemplateView> {
    find_template(built_in_views(), id)
}

/// The position in `ts` of the first template with id `id`.
fn position_of(ts: &Vec<SummaryTemplate>, id: &str) -> (r: Option<usize>)
    ensures
        match r {
            Some(i) => i < ts@.len() && find_template(
                ts@.map_values(|t: SummaryTemplate| t@),
                id@,
            ) == Some(ts@[i as int]@),
            None => find_template(ts@.map_values(|t: SummaryTemplate| t@), id@) is None,
        },
{
    let ghost vs = ts@.map_values(|t: SummaryTemplate| t@);
    let mut i: usize = 0;
    assert(vs.skip(0) =~= vs);
    while i < ts.len()
        invariant
            i <= ts.len(),
            vs == ts@.map_values(|t: SummaryTemplate| t@),
            find_template(vs, id@) == find_template(vs.skip(i as int), id@),
        decreases ts.len() - i,
    {
        assert(vs.skip(i as int)[0] == ts@[i as int]@);
        if str_eq(ts[i].id.as_str(), id) {
            return Some(i);
        }
        assert(vs.skip(i as int).drop_first() == vs.skip(i + 1));
        i = i + 1;
    }
    assert(vs.skip(i as int).len() == 0);
    None
}

/// Every built-in template is found by its own id: the built-in ids are
/// distinct, so resolving one never lands on another template.
pub proof fn law_builtin_ids_resolve(i: int)
    requires
        0 <= i < built_in_views().len(),
    ensures
        builtin_with_id(built_in_views()[i].id) == Some(built_in_views()[i]),
{
    reveal_strlit("default");
    reveal_strlit("minutes");
    reveal_strlit("one_on_one");
    reveal_strlit("standup");
    let vs = built_in_views();
    assert(vs[0].id[0] == 'd' && vs[1].id[0] == 'm' && vs[2].id[0] == 'o' && vs[3].id[0] == 's');
    let id = vs[i].id;
    let t1 = vs.drop_first();
    let t2 = t1.drop_first();
    let t3 = t2.drop_first();
    assert(t1 =~= seq![vs[1], vs[2], vs[3]]);
    assert(t2 =~= seq![vs[2], vs[3]]);
    assert(t3 =~= seq![vs[3]]);
    if i == 0 {
        assert(find_template(vs, id) == Some(vs[0]));
    } else {
        assert(vs[0].id[0] != id[0]);
        assert(find_template(vs, id) == find_template(t1, id));
        if i == 1 {
            assert(find_template(t1, id) == Some(vs[1]));
        } else {
            assert(t1[0].id[0] != id[0]);
            assert(find_template(t1, id) == find_template(t2, id));
            if i == 2 {
                assert(find_template(t2, id) == Some(vs[2]));
            } else {
                assert(t2[0].id[0] != id[0]);
                assert(find_template(t2, id) == find_template(t3, id));
                assert(find_template(t3, id) == Some(vs[3]));
            }
        }
    }
}

/// Splitting a section line into heading and description loses nothing:
/// when the line starts with `- ## {heading} — `, that prefix followed by
/// the recovered description is the line again.
pub proof fn law_section_description_lossless(s: SectionView)
    requires
        starts_with(s.body_spec, body_prefix(s.heading)),
    ensures
        body_line(s.heading, description_of(s)) == s.body_spec,
{
    let p = body_prefix(s.heading);
    assert(s.body_spec.take(p.len() as int) =~= p);
    assert(p + s.body_spec.skip(p.len() as int) =~= s.body_spec);
}

/// Resolves a template id to a built-in template. `None` or an unknown id
/// falls back to the default template.
pub fn template_by_id(id: Option<&str>) -> (r: SummaryTemplate)
    ensures
        r@ == match id {
            Some(i) => match builtin_with_id(i@) {
                Some(t) => t,
                None => default_template_view(),
            },
            None => default_template_view(),
        },
{
    match id {
        Some(i) => {
            let mut all = built_in_templates();
            match position_of(&all, i) {
                Some(k) => all.remove(k),
                None => default_template(),
            }
        },
        None => default_template(),
    }
}

/// What the pickers show of a built-in template.
pub open spec fn info_of(t: SummaryTemplateView) -> TemplateInfoView {
    TemplateInfoView { id: t.id, name: t.name, description: t.description, builtin: true }
}

/// The built-in templates for the template pickers.
pub fn list_templates() -> (r: Vec<TemplateInfo>)
    ensures
        r@.map_values(|t: TemplateInfo| t@) == built_in_views().map_values(
            |t: SummaryTemplateView| info_of(t),
        ),
{
    let all = built_in_templates();
    let ghost vs = all@.map_values(|t: SummaryTemplate| t@);
    let mut out: Vec<TemplateInfo> = Vec::new();
    for i in 0..all.len()
        invariant
            vs == all@.map_values(|t: SummaryTemplate| t@),
            out@.map_values(|t: TemplateInfo| t@) == vs.take(i as int).map_values(
                |t: SummaryTemplateView| info_of(t),
            ),
    {
        let ghost before = out@.map_values(|t: TemplateInfo| t@);
        let t = &all[i];
        out.push(
            TemplateInfo {
                id: owned(t.id.as_str()),
                name: owned(t.name.as_str()),
                description: owned(t.description.as_str()),
                builtin: true,
            },
        );
        assert(out@.map_values(|t: TemplateInfo| t@) =~= before.push(info_of(vs[i as int])));
        assert(out@.map_values(|t: TemplateInfo| t@) =~= vs.take(i + 1).map_values(
            |t: SummaryTemplateView| info_of(t),
        ));
    }
    assert(vs.take(all.len() as int) =~= vs);
    out
}

// ---------------------------------------------------------------------------
// Conversion to the owned model
// ---------------------------------------------------------------------------

/// The prefix `- ## {heading} — ` of a section's body line.
pub open spec fn body_prefix(heading: Seq<char>) -> Seq<char> {
    "- ## "@ + heading + " — "@
}

/// A section's `- ## {heading} — {description}` line.
pub open spec fn body_line(heading: Seq<char>, description: Seq<char>) -> Seq<char> {
    body_prefix(heading) + description
}

/// A section's user-editable instructions: its body line without the
/// `- ## {heading} — ` prefix (the whole line when it lacks that prefix).
pub open spec fn description_of(s: SectionView) -> Seq<char> {
    if starts_with(s.body_spec, body_prefix(s.heading)) {
        s.body_spec.skip(body_prefix(s.heading).len() as int)
    } else {
        s.body_spec
    }
}

/// Recovers a section's user-editable instructions from its body line by
/// stripping the `- ## {heading} — ` prefix the prompt assembler re-adds.
pub fn section_description(s: &Section) -> (r: String)
    ensures
        r@ == description_of(s@),
{
    let mut prefix = owned("- ## ");
    append_str(&mut prefix, s.heading.as_str());
    append_str(&mut prefix, " — ");
    let body = str_chars(s.body_spec.as_str());
    let p = str_chars(prefix.as_str());
    if has_prefix(body.as_slice(), p.as_slice()) {
        let rest = skip_chars(body.as_slice(), p.len());
        string_from_chars(rest.as_slice())
    } else {
        owned(s.body_spec.as_str())
    }
}

/// A built-in section in owned form.
pub open spec fn owned_section_of(ts: TemplateSectionView) -> OwnedSectionView {
    OwnedSectionView {
        id: ts.section.id,
        heading: ts.section.heading,
        description: description_of(ts.section),
        example: ts.example,
    }
}

/// A built-in template in owned (seed) form.
pub open spec fn owned_template_of(t: SummaryTemplateView) -> OwnedTemplateView {
    OwnedTemplateView {
        id: t.id,
        name: t.name,
        description: t.description,
        sections: t.sections.map_values(|ts: TemplateSectionView| owned_section_of(ts)),
        builtin: true,
        template_example: None,
    }
}

/// Converts a built-in template into its owned (seed) form; each section's
/// example is carried into the editable per-section `example` field.
pub fn builtin_as_owned(t: &SummaryTemplate) -> (r: OwnedTemplate)
    ensures
        r@ == owned_template_of(t@),
{
    let ghost tv = t@;
    let mut sections: Vec<OwnedSection> = Vec::new();
    for i in 0..t.sections.len()
        invariant
            tv == t@,
            sections@.map_values(|s: OwnedSection| s@) == tv.sections.take(i as int).map_values(
                |ts: TemplateSectionView| owned_section_of(ts),
            ),
    {
        let ghost before = sections@.map_values(|s: OwnedSection| s@);
        let ts = &t.sections[i];
        let example = match &ts.example {
            Some(e) => Some(owned(e.as_str())),
            None => None,
        };
        sections.push(
            OwnedSection {
                id: owned(ts.section.id.as_str()),
                heading: owned(ts.section.heading.as_str()),
                description: section_description(&ts.section),
                example,
            },
        );
        assert(tv.sections[i as int] == ts@);
        assert(sections@.map_values(|s: OwnedSection| s@) =~= before.push(
            owned_section_of(ts@),
        ));
        assert(sections@.map_values(|s: OwnedSection| s@) =~= tv.sections.take(i + 1).map_values(
            |ts: TemplateSectionView| owned_section_of(ts),
        ));
    }
    assert(tv.sections.take(t.sections.len() as int) =~= tv.sections);
    OwnedTemplate {
        id: owned(t.id.as_str()),
        name: owned(t.name.as_str()),
        description: owned(t.description.as_str()),
        sections,
        builtin: true,
        template_example: None,
    }
}

/// All built-in templates as owned seeds, in display order: the source that
/// resetting a built-in restores.
pub fn builtin_seeds() -> (r: Vec<OwnedTemplate>)
    ensures
        r@.map_values(|t: OwnedTemplate| t@) == built_in_views().map_values(
            |t: SummaryTemplateView| owned_template_of(t),
        ),
{
    let all = built_in_templates();
    let ghost vs = all@.map_values(|t: SummaryTemplate| t@);
    let mut out: Vec<OwnedTemplate> = Vec::new();
    for i in 0..all.len()
        invariant
            vs == all@.map_values(|t: SummaryTemplate| t@),
            out@.map_values(|t: OwnedTemplate| t@) == vs.take(i as int).map_values(
                |t: SummaryTemplateView| owned_template_of(t),
            ),
    {
        let ghost before = out@.map_values(|t: OwnedTemplate| t@);
        out.push(builtin_as_owned(&all[i]));
        assert(out@.map_values(|t: OwnedTemplate| t@) =~= before.push(
            owned_template_of(vs[i as int]),
        ));
        assert(out@.map_values(|t: OwnedTemplate| t@) =~= vs.take(i + 1).map_values(
            |t: SummaryTemplateView| owned_template_of(t),
        ));
    }
    assert(vs.take(all.len() as int) =~= vs);
    out
}

/// The owned seed for a built-in id, or `None` if `id` is not built in.
pub fn builtin_seed_by_id(id: &str) -> (r: Option<OwnedTemplate>)
    ensures
        match builtin_with_id(id@) {
            Some(t) => r matches Some(o) && o@ == owned_template_of(t),
            None => r is None,
        },
{
    let all = built_in_templates();
    match position_of(&all, id) {
        Some(k) => Some(builtin_as_owned(&all[k])),
        None => None,
    }
}

/// Whether `id` names a built-in template (a reserved id).
pub fn is_builtin_id(id: &str) -> (r: bool)
    ensures
        r == builtin_with_id(id@) is Some,
{
    let all = built_in_templates();
    position_of(&all, id).is_some()
}

// ---------------------------------------------------------------------------
// Prompt assembly
// ---------------------------------------------------------------------------

/// Small counts spelled out ("four sections"); larger ones in digits.
pub open spec fn count_word_of(n: nat) -> Seq<char> {
    if n == 1 {
        "one"@
    } else if n == 2 {
        "two"@
    } else if n == 3 {
        "three"@
    } else if n == 4 {
        "four"@
    } else if n == 5 {
        "five"@
    } else if n == 6 {
        "six"@
    } else if n == 7 {
        "seven"@
    } else if n == 8 {
        "eight"@
    } else if n == 9 {
        "nine"@
    } else {
        decimal(n)
    }
}

/// Spells out small counts so the prompt reads naturally; counts beyond
/// nine are written in digits.
pub fn count_word(n: usize) -> (r: String)
    ensures
        r@ == count_word_of(n as nat),
{
    if n == 1 {
        owned("one")
    } else if n == 2 {
        owned("two")
    } else if n == 3 {
        owned("three")
    } else if n == 4 {
        owned("four")
    } else if n == 5 {
        owned("five")
    } else if n == 6 {
        owned("six")
    } else if n == 7 {
        owned("seven")
    } else if n == 8 {
        owned("eight")
    } else if n == 9 {
        owned("nine")
    } else {
        decimal_string(n as u64)
    }
}

/// The `` `## {heading}` `` items of the heading list.
pub open spec fn heading_items(s: Seq<OwnedSectionView>) -> Seq<Seq<char>> {
    s.map_values(|x: OwnedSectionView| "`## "@ + x.heading + "`"@)
}

/// The `- ## {heading} — {description}` lines of the section bodies.
pub open spec fn body_lines(s: Seq<OwnedSectionView>) -> Seq<Seq<char>> {
    s.map_values(|x: OwnedSectionView| body_line(x.heading, x.description))
}

/// For each section with an example, `## {heading}` and the example.
pub open spec fn example_blocks(s: Seq<OwnedSectionView>) -> Seq<Seq<char>>
    decreases s.len(),
{
    if s.len() == 0 {
        Seq::empty()
    } else {
        let prev = example_blocks(s.drop_last());
        match s.last().example {
            Some(e) => prev.push("## "@ + s.last().heading + "\n"@ + e),
            None => prev,
        }
    }
}

/// The blocks of a template's system prompt: preamble, heading list, emit
/// rule, section bodies, rules, and (when any section has one) examples.
pub open spec fn prompt_blocks(t: OwnedTemplateView) -> Seq<Seq<char>> {
    let count = count_word_of(t.sections.len());
    let base = seq![
        PREAMBLE_LEAD@ + count + PREAMBLE_TAIL@,
        HEADINGS_LEAD@ + count + HEADINGS_MID@ + join(heading_items(t.sections), ", "@)
            + HEADINGS_TAIL@,
        EMIT_RULE@,
        "Section bodies:\n"@ + join(body_lines(t.sections), "\n"@),
        RULES_LEAD@ + count + RULES_TAIL@,
    ];
    let examples = example_blocks(t.sections);
    if examples.len() == 0 {
        base
    } else {
        base.push(EXAMPLE_SHAPE_LEAD@ + join(examples, "\n\n"@))
    }
}

/// A template's system prompt: its blocks joined by a blank line.
pub open spec fn system_prompt(t: OwnedTemplateView) -> Seq<char> {
    join(prompt_blocks(t), "\n\n"@)
}

fn concat3(a: &str, b: &str, c: &str) -> (r: String)
    ensures
        r@ == a@ + b@ + c@,
{
    let mut s = owned(a);
    append_str(&mut s, b);
    append_str(&mut s, c);
    s
}

/// Assembles the full system prompt for a template from the shared
/// preamble, the template's sections, and the shared rule set. Blocks are
/// joined by a blank line; only the count word, the heading list, the
/// section bodies and the examples vary per template.
pub fn build_system_prompt(template: &OwnedTemplate) -> (r: String)
    ensures
        r@ == system_prompt(template@),
{
    let ghost tv = template@;
    let count = count_word(template.sections.len());
    let mut items: Vec<String> = Vec::new();
    let mut lines: Vec<String> = Vec::new();
    let mut examples: Vec<String> = Vec::new();
    for i in 0..template.sections.len()
        invariant
            tv == template@,
            items@.map_values(|s: String| s@) == heading_items(tv.sections.take(i as int)),
            lines@.map_values(|s: String| s@) == body_lines(tv.sections.take(i as int)),
            examples@.map_values(|s: String| s@) == example_blocks(tv.sections.take(i as int)),
    {
        let s = &template.sections[i];
        assert(tv.sections[i as int] == s@);
        assert(tv.sections.take(i + 1) == tv.sections.take(i as int).push(s@));
        assert(tv.sections.take(i + 1).drop_last() == tv.sections.take(i as int));
        let ghost bi = items@.map_values(|s: String| s@);
        let ghost bl = lines@.map_values(|s: String| s@);
        let ghost be = examples@.map_values(|s: String| s@);
        items.push(concat3("`## ", s.heading.as_str(), "`"));
        assert(items@.map_values(|s: String| s@) =~= bi.push("`## "@ + s@.heading + "`"@));
        assert(items@.map_values(|s: String| s@) =~= heading_items(tv.sections.take(i + 1)));
        let mut line = concat3("- ## ", s.heading.as_str(), " — ");
        append_str(&mut line, s.description.as_str());
        lines.push(line);
        assert(lines@.map_values(|s: String| s@) =~= bl.push(
            body_line(s@.heading, s@.description),
        ));
        assert(lines@.map_values(|s: String| s@) =~= body_lines(tv.sections.take(i + 1)));
        match &s.example {
            Some(ex) => {
                let mut block = concat3("## ", s.heading.as_str(), "\n");
                append_str(&mut block, ex.as_str());
                examples.push(block);
                assert(examples@.map_values(|s: String| s@) =~= be.push(
                    "## "@ + s@.heading + "\n"@ + ex@,
                ));
            },
            None => {},
        }
    }
    assert(tv.sections.take(template.sections.len() as int) =~= tv.sections);
    let mut blocks: Vec<String> = Vec::new();
    blocks.push(concat3(PREAMBLE_LEAD, count.as_str(), PREAMBLE_TAIL));
    let heading_list = join_strings(items.as_slice(), ", ");
    let mut b = concat3(HEADINGS_LEAD, count.as_str(), HEADINGS_MID);
    append_str(&mut b, heading_list.as_str());
    append_str(&mut b, HEADINGS_TAIL);
    blocks.push(b);
    blocks.push(owned(EMIT_RULE));
    let bodies = join_strings(lines.as_slice(), "\n");
    let mut d = owned("Section bodies:\n");
    append_str(&mut d, bodies.as_str());
    blocks.push(d);
    blocks.push(concat3(RULES_LEAD, count.as_str(), RULES_TAIL));
    if examples.len() > 0 {
        let mut e = owned(EXAMPLE_SHAPE_LEAD);
        let joined = join_strings(examples.as_slice(), "\n\n");
        append_str(&mut e, joined.as_str());
        blocks.push(e);
    }
    assert(blocks@.map_values(|s: String| s@) =~= prompt_blocks(tv));
    join_strings(blocks.as_slice(), "\n\n")
}

/// The blocks of a single section's prompt: preamble, body-only contract,
/// the section's own spec, the emit rule, the universal rules, and the
/// section's example when it has one.
pub open spec fn section_prompt_blocks(s: OwnedSectionView) -> Seq<Seq<char>> {
    let h = s.heading;
    let base = seq![
        SECTION_PREAMBLE_LEAD@ + h + SECTION_PREAMBLE_TAIL@,
        SECTION_BODY_LEAD@ + h + SECTION_BODY_MID@ + h + SECTION_BODY_TAIL@,
        "Section spec:\n"@ + body_line(h, s.description),
        SECTION_EMIT_RULE@,
        SECTION_RULES@,
    ];
    match s.example {
        Some(e) => base.push(EXAMPLE_SHAPE_LEAD@ + e),
        None => base,
    }
}

/// A single section's system prompt: its blocks joined by a blank line.
pub open spec fn section_prompt(s: OwnedSectionView) -> Seq<char> {
    join(section_prompt_blocks(s), "\n\n"@)
}

/// Assembles the system prompt for one section's pass: the model sees only
/// this section's heading, description and example, and writes the body
/// only (the heading is added by the caller).
pub fn build_section_system_prompt(section: &OwnedSection) -> (r: String)
    ensures
        r@ == section_prompt(section@),
{
    let h = section.heading.as_str();
    let mut blocks: Vec<String> = Vec::new();
    blocks.push(concat3(SECTION_PREAMBLE_LEAD, h, SECTION_PREAMBLE_TAIL));
    let mut b = concat3(SECTION_BODY_LEAD, h, SECTION_BODY_MID);
    append_str(&mut b, h);
    append_str(&mut b, SECTION_BODY_TAIL);
    blocks.push(b);
    let mut c = concat3("Section spec:\n", "- ## ", h);
    append_str(&mut c, " — ");
    append_str(&mut c, section.description.as_str());
    assert(c@ =~= "Section spec:\n"@ + body_line(section@.heading, section@.description));
    blocks.push(c);
    blocks.push(owned(SECTION_EMIT_RULE));
    blocks.push(owned(SECTION_RULES));
    match &section.example {
        Some(e) => {
            let mut f = owned(EXAMPLE_SHAPE_LEAD);
            append_str(&mut f, e.as_str());
            blocks.push(f);
        },
        None => {},
    }
    assert(blocks@.map_values(|s: String| s@) =~= section_prompt_blocks(section@));
    join_strings(blocks.as_slice(), "\n\n")
}

/// System prompt for the live-minutes pass that runs while a meeting is
/// recorded: an append-only log of short bullets for genuinely new
/// information, or nothing at all.
pub fn live_minutes_system_prompt() -> (r: String)
    ensures
        r@ == LIVE_MINUTES_PROMPT@,
{
    owned(LIVE_MINUTES_PROMPT)
}

/// System prompt for the gist update: the private rolling summary of the
/// meeting, rewritten wholesale on every update.
pub fn meeting_gist_system_prompt() -> (r: String)
    ensures
        r@ == MEETING_GIST_PROMPT@,
{
    owned(MEETING_GIST_PROMPT)
}

} // verus!
