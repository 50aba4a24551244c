//! Owned summary-template model: the form that is persisted, edited, and
//! assembled into a system prompt. Built-in templates are converted into it
//! by [`crate::services::templates::builtin_as_owned`].
use vstd::prelude::*;

use crate::text::{opt_view, owned};

verus! {

/// One composable section of a summary template, in owned form.
#[derive(Clone, Debug, PartialEq, Eq)]
pub struct OwnedSection {
    /// Stable within a template; used for reordering.
    pub id: String,
    /// The `##` heading text, without the leading `"## "`.
    pub heading: String,
    /// User-editable instructions: the text that follows `- ## {heading} — `
    /// in the assembled "Section bodies:" block.
    pub description: String,
    /// Optional per-section example, shown verbatim in the prompt.
    pub example: Option<String>,
}

/// An owned summary template: name, description, ordered sections.
#[derive(Clone, Debug, PartialEq, Eq)]
pub struct OwnedTemplate {
    pub id: String,
    pub name: String,
    pub description: String,
    pub sections: Vec<OwnedSection>,
    /// `true` for templates that ship with the app: editable and resettable,
    /// never deletable.
    pub builtin: bool,
    /// A frozen example block for the whole template, kept as stored; not
    /// shown in the editor (templates use per-section examples).
    pub template_example: Option<String>,
}

/// Persisted set of templates: built-in overrides and user templates.
#[derive(Clone, Debug)]
pub struct TemplateStore {
    pub templates: Vec<OwnedTemplate>,
}

/// A section as plain values.
#[verifier::ext_equal]
pub struct OwnedSectionView {
    pub id: Seq<char>,
    pub heading: Seq<char>,
    pub description: Seq<char>,
    pub example: Option<Seq<char>>,
}

/// A template as plain values.
#[verifier::ext_equal]
pub struct OwnedTemplateView {
    pub id: Seq<char>,
    pub name: Seq<char>,
    pub description: Seq<char>,
    pub sections: Seq<OwnedSectionView>,
    pub builtin: bool,
    pub template_example: Option<Seq<char>>,
}

impl View for OwnedSection {
    type V = OwnedSectionView;

    open spec fn view(&self) -> OwnedSectionView {
        OwnedSectionView {
            id: self.id@,
            heading: self.heading@,
            description: self.description@,
            example: opt_view(self.example),
        }
    }
}

impl View for OwnedTemplate {
    type V = OwnedTemplateView;

    open spec fn view(&self) -> OwnedTemplateView {
        OwnedTemplateView {
            id: self.id@,
            name: self.name@,
            description: self.description@,
            sections: self.sections@.map_values(|s: OwnedSection| s@),
            builtin: self.builtin,
            template_example: opt_view(self.template_example),
        }
    }
}

impl View for TemplateStore {
    type V = Seq<OwnedTemplateView>;

    open spec fn view(&self) -> Seq<OwnedTemplateView> {
        self.templates@.map_values(|t: OwnedTemplate| t@)
    }
}

impl OwnedSection {
    /// A copy of this section.
    pub fn duplicate(&self) -> (r: OwnedSection)
        ensures
            r@ == self@,
    {
        let example = match &self.example {
            Some(e) => Some(owned(e.as_str())),
            None => None,
        };
        OwnedSection {
            id: owned(self.id.as_str()),
            heading: owned(self.heading.as_str()),
            description: owned(self.description.as_str()),
            example,
        }
    }
}

impl OwnedTemplate {
    /// A copy of this template.
    pub fn duplicate(&self) -> (r: OwnedTemplate)
        ensures
            r@ == self@,
    {
        let mut sections: Vec<OwnedSection> = Vec::new();
        for i in 0..self.sections.len()
            invariant
                sections@.map_values(|s: OwnedSection| s@) == self.sections@.map_values(
                    |s: OwnedSection| s@,
                ).take(i as int),
        {
            let ghost before = sections@.map_values(|s: OwnedSection| s@);
            sections.push(self.sections[i].duplicate());
            assert(sections@.map_values(|s: OwnedSection| s@) =~= before.push(
                self.sections@[i as int]@,
            ));
            assert(sections@.map_values(|s: OwnedSection| s@) =~= self.sections@.map_values(
                |s: OwnedSection| s@,
            ).take(i + 1));
        }
        assert(self.sections@.map_values(|s: OwnedSection| s@).take(self.sections.len() as int)
            =~= self.sections@.map_values(|s: OwnedSection| s@));
        let template_example = match &self.template_example {
            Some(e) => Some(owned(e.as_str())),
            None => None,
        };
        OwnedTemplate {
            id: owned(self.id.as_str()),
            name: owned(self.name.as_str()),
            description: owned(self.description.as_str()),
            sections,
            builtin: self.builtin,
            template_example,
        }
    }
}

impl TemplateStore {
    /// An empty store.
    pub fn new() -> (r: TemplateStore)
        ensures
            r@ == Seq::<OwnedTemplateView>::empty(),
    {
        let r = TemplateStore { templates: Vec::new() };
        assert(r@ =~= Seq::<OwnedTemplateView>::empty());
        r
    }
}

} // verus!
