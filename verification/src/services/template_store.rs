//! User-editable summary templates: the stored overrides, their resolution
//! over the built-in seeds, and the create / update / delete / reset
//! operations on the store. Reading and writing the store file happens at
//! the application's edge; these functions take and change the store itself.
//!
//! The store holds only overrides: edited built-ins (keyed by their fixed id)
//! and user-created templates. Resolution overlays the store on the built-in
//! seeds, so the resolved list is always the built-ins (with overrides
//! applied) first, then the user templates in store order.
use vstd::prelude::*;

use crate::errors::AppError;
use crate::models::template::{OwnedSection, OwnedSectionView, OwnedTemplate, OwnedTemplateView, TemplateStore};
use crate::services::templates::{
    built_in_views, builtin_as_owned, builtin_seed_by_id, builtin_seeds, builtin_with_id, find_template,
    is_builtin_id, owned_template_of,
};
use crate::text::{
    append_str, contains_string, decimal, decimal_string, lemma_decimal_injective, lowercase,
    owned, str_chars, str_eq, string_from_chars, to_lowercase, trim, trim_chars, trim_str,
    views,
};

verus! {

broadcast use vstd::seq_lib::group_seq_properties;

/// The built-in templates in owned (seed) form.
pub open spec fn seed_views() -> Seq<OwnedTemplateView> {
    built_in_views().map_values(|t| owned_template_of(t))
}

/// `t` with its `builtin` flag set to `b`.
pub open spec fn flagged(t: OwnedTemplateView, b: bool) -> OwnedTemplateView {
    OwnedTemplateView { builtin: b, ..t }
}

/// The first position in `ts` of a template with id `id`.
pub open spec fn index_of_id(ts: Seq<OwnedTemplateView>, id: Seq<char>) -> Option<int>
    decreases ts.len(),
{
    if ts.len() == 0 {
        None
    } else {
        match index_of_id(ts.drop_last(), id) {
            Some(i) => Some(i),
            None => if ts.last().id == id {
                Some(ts.len() - 1)
            } else {
                None
            },
        }
    }
}

/// Applies the stored templates `stored`, in order, to the resolved list
/// `resolved` (built-ins) and the user templates `user`: a stored template
/// whose id is resolved replaces it (as a built-in); any other joins the
/// user templates.
pub open spec fn overlay(
    resolved: Seq<OwnedTemplateView>,
    user: Seq<OwnedTemplateView>,
    stored: Seq<OwnedTemplateView>,
) -> Seq<OwnedTemplateView>
    decreases stored.len(),
{
    if stored.len() == 0 {
        resolved + user
    } else {
        let s = stored[0];
        match index_of_id(resolved, s.id) {
            Some(i) => overlay(resolved.update(i, flagged(s, true)), user, stored.drop_first()),
            None => overlay(resolved, user.push(flagged(s, false)), stored.drop_first()),
        }
    }
}

/// The full, ordered list of templates for a store.
pub open spec fn resolved_list(store: Seq<OwnedTemplateView>) -> Seq<OwnedTemplateView> {
    overlay(seed_views(), Seq::empty(), store)
}

proof fn lemma_overlay_shape(
    resolved: Seq<OwnedTemplateView>,
    user: Seq<OwnedTemplateView>,
    stored: Seq<OwnedTemplateView>,
)
    requires
        forall|i: int| 0 <= i < resolved.len() ==> (#[trigger] resolved[i]).builtin,
        forall|j: int| 0 <= j < user.len() ==> !(#[trigger] user[j]).builtin,
    ensures
        ({
            let o = overlay(resolved, user, stored);
            &&& o.len() >= resolved.len()
            &&& forall|i: int|
                0 <= i < resolved.len() ==> (#[trigger] o[i]).id == resolved[i].id && o[i].builtin
            &&& forall|i: int| resolved.len() <= i < o.len() ==> !(#[trigger] o[i]).builtin
        }),
    decreases stored.len(),
{
    if stored.len() == 0 {
        let o = resolved + user;
        assert forall|i: int| resolved.len() <= i < o.len() implies !(#[trigger] o[i]).builtin by {
            assert(o[i] == user[i - resolved.len()]);
        }
    } else {
        let s = stored[0];
        lemma_index_of_bounds(resolved, s.id);
        match index_of_id(resolved, s.id) {
            Some(k) => {
                let r2 = resolved.update(k, flagged(s, true));
                lemma_overlay_shape(r2, user, stored.drop_first());
                assert forall|i: int| 0 <= i < resolved.len() implies r2[i].id == resolved[i].id by {
                }
            },
            None => {
                let u2 = user.push(flagged(s, false));
                lemma_overlay_shape(resolved, u2, stored.drop_first());
            },
        }
    }
}

/// The resolved list always starts with the four built-in templates, in
/// their fixed order and flagged built-in (an override keeps the built-in's
/// id and place); every template after them is a user template.
pub proof fn law_builtins_first(store: Seq<OwnedTemplateView>)
    ensures
        ({
            let list = resolved_list(store);
            &&& list.len() >= built_in_views().len()
            &&& forall|i: int|
                0 <= i < built_in_views().len() ==> (#[trigger] list[i]).id
                    == built_in_views()[i].id && list[i].builtin
            &&& forall|i: int| built_in_views().len() <= i < list.len() ==> !(#[trigger] list[i]).builtin
        }),
{
    lemma_overlay_shape(seed_views(), Seq::empty(), store);
}

/// Resolving a template for summarizing never fails: the Default template
/// is always among the resolved templates.
pub proof fn law_resolve_never_fails(store: Seq<OwnedTemplateView>, id: Option<Seq<char>>)
    ensures
        chosen_template(store, id) is Some,
{
    law_builtins_first(store);
    let list = resolved_list(store);
    lemma_index_of_bounds(list, "default"@);
    assert(list[0].id == "default"@);
}

/// The position of the first template of `v` with id `id`.
fn index_of_template(v: &Vec<OwnedTemplate>, id: &str) -> (r: Option<usize>)
    ensures
        match r {
            Some(i) => index_of_id(v@.map_values(|t: OwnedTemplate| t@), id@) == Some(i as int),
            None => index_of_id(v@.map_values(|t: OwnedTemplate| t@), id@) is None,
        },
{
    let ghost vs = v@.map_values(|t: OwnedTemplate| t@);
    for i in 0..v.len()
        invariant
            vs == v@.map_values(|t: OwnedTemplate| t@),
            index_of_id(vs.take(i as int), id@) is None,
    {
        assert(vs.take(i + 1).drop_last() == vs.take(i as int));
        if str_eq(v[i].id.as_str(), id) {
            proof {
                lemma_index_of_prefix(vs, id@, i + 1);
            }
            return Some(i);
        }
    }
    assert(vs.take(v.len() as int) == vs);
    None
}

proof fn lemma_index_of_prefix(ts: Seq<OwnedTemplateView>, id: Seq<char>, k: int)
    requires
        0 < k <= ts.len(),
        index_of_id(ts.take(k), id) == Some(k - 1),
    ensures
        index_of_id(ts, id) == Some(k - 1),
    decreases ts.len(),
{
    if k < ts.len() {
        assert(ts.drop_last().take(k) == ts.take(k));
        lemma_index_of_prefix(ts.drop_last(), id, k);
    } else {
        assert(ts.take(k) == ts);
    }
}

proof fn lemma_index_of_bounds(ts: Seq<OwnedTemplateView>, id: Seq<char>)
    ensures
        match index_of_id(ts, id) {
            Some(i) => 0 <= i < ts.len() && ts[i].id == id,
            None => forall|k: int| 0 <= k < ts.len() ==> #[trigger] ts[k].id != id,
        },
    decreases ts.len(),
{
    if ts.len() > 0 {
        lemma_index_of_bounds(ts.drop_last(), id);
        if index_of_id(ts.drop_last(), id) is None {
            assert forall|k: int| 0 <= k < ts.len() - 1 implies #[trigger] ts[k].id != id by {
                assert(ts.drop_last()[k] == ts[k]);
            }
        }
    }
}

/// A copy of `t` with its `builtin` flag set to `b`.
fn with_flag(t: &OwnedTemplate, b: bool) -> (r: OwnedTemplate)
    ensures
        r@ == flagged(t@, b),
{
    let mut c = t.duplicate();
    c.builtin = b;
    c
}

/// The full, ordered list of templates: built-in seeds (with any stored
/// override applied) first, then user-created templates in store order.
pub fn list_resolved(store: &TemplateStore) -> (r: Vec<OwnedTemplate>)
    ensures
        r@.map_values(|t: OwnedTemplate| t@) == resolved_list(store@),
{
    let mut resolved = builtin_seeds();
    let mut user: Vec<OwnedTemplate> = Vec::new();
    let ghost stored = store@;
    assert(stored.skip(0) == stored);
    assert(user@.map_values(|t: OwnedTemplate| t@) =~= Seq::<OwnedTemplateView>::empty());
    for i in 0..store.templates.len()
        invariant
            stored == store@,
            stored == store.templates@.map_values(|t: OwnedTemplate| t@),
            overlay(
                resolved@.map_values(|t: OwnedTemplate| t@),
                user@.map_values(|t: OwnedTemplate| t@),
                stored.skip(i as int),
            ) == resolved_list(stored),
    {
        let s = &store.templates[i];
        let ghost rv = resolved@.map_values(|t: OwnedTemplate| t@);
        let ghost uv = user@.map_values(|t: OwnedTemplate| t@);
        assert(stored.skip(i as int)[0] == s@);
        assert(stored.skip(i as int).drop_first() == stored.skip(i + 1));
        match index_of_template(&resolved, s.id.as_str()) {
            Some(k) => {
                proof {
                    lemma_index_of_bounds(rv, s@.id);
                }
                resolved.set(k, with_flag(s, true));
                assert(resolved@.map_values(|t: OwnedTemplate| t@) =~= rv.update(
                    k as int,
                    flagged(s@, true),
                ));
            },
            None => {
                user.push(with_flag(s, false));
                assert(user@.map_values(|t: OwnedTemplate| t@) =~= uv.push(flagged(s@, false)));
            },
        }
    }
    assert(stored.skip(store.templates.len() as int) =~= Seq::<OwnedTemplateView>::empty());
    let ghost rv = resolved@.map_values(|t: OwnedTemplate| t@);
    let ghost uv = user@.map_values(|t: OwnedTemplate| t@);
    resolved.append(&mut user);
    assert(resolved@.map_values(|t: OwnedTemplate| t@) =~= rv + uv);
    resolved
}

/// The resolved template with id `id`, or `None` if unknown.
pub fn get_resolved(store: &TemplateStore, id: &str) -> (r: Option<OwnedTemplate>)
    ensures
        match index_of_id(resolved_list(store@), id@) {
            Some(k) => r matches Some(t) && t@ == resolved_list(store@)[k],
            None => r is None,
        },
{
    let mut list = list_resolved(store);
    match index_of_template(&list, id) {
        Some(k) => {
            proof {
                lemma_index_of_bounds(list@.map_values(|t: OwnedTemplate| t@), id@);
            }
            Some(list.swap_remove(k))
        },
        None => None,
    }
}

/// The template to summarize with: `id` when it resolves; otherwise the
/// Default template.
pub open spec fn chosen_template(store: Seq<OwnedTemplateView>, id: Option<Seq<char>>) -> Option<
    OwnedTemplateView,
> {
    let list = resolved_list(store);
    match (match id {
        Some(i) => index_of_id(list, i),
        None => None,
    }) {
        Some(k) => Some(list[k]),
        None => match index_of_id(list, "default"@) {
            Some(k) => Some(list[k]),
            None => None,
        },
    }
}

/// Resolves the template to summarize with. `None` or an unknown id falls
/// back to the Default template.
pub fn resolve_owned(store: &TemplateStore, id: Option<&str>) -> (r: Result<OwnedTemplate, AppError>)
    ensures
        match chosen_template(store@, opt_str_view(id)) {
            Some(t) => r matches Ok(o) && o@ == t,
            None => r matches Err(AppError::SummarizationFailed(m))
                && m@ == "No Default template available"@,
        },
{
    let mut list = list_resolved(store);
    let ghost lv = list@.map_values(|t: OwnedTemplate| t@);
    proof {
        lemma_index_of_bounds(lv, "default"@);
    }
    let found = match id {
        Some(i) => {
            proof {
                lemma_index_of_bounds(lv, i@);
            }
            index_of_template(&list, i)
        },
        None => None,
    };
    match found {
        Some(k) => Ok(list.swap_remove(k)),
        None => match index_of_template(&list, "default") {
            Some(k) => Ok(list.swap_remove(k)),
            None => Err(AppError::SummarizationFailed(owned("No Default template available"))),
        },
    }
}

/// The characters of an optional string slice.
pub open spec fn opt_str_view(o: Option<&str>) -> Option<Seq<char>> {
    match o {
        Some(s) => Some(s@),
        None => None,
    }
}

// ---------------------------------------------------------------------------
// Validation
// ---------------------------------------------------------------------------

/// A trimmed example; a blank one becomes `None`.
pub open spec fn cleaned_example(e: Option<Seq<char>>) -> Option<Seq<char>> {
    match e {
        Some(x) => if trim(x).len() == 0 {
            None
        } else {
            Some(trim(x))
        },
        None => None,
    }
}

/// A section with its editable fields trimmed.
pub open spec fn cleaned_section(s: OwnedSectionView) -> OwnedSectionView {
    OwnedSectionView {
        id: s.id,
        heading: trim(s.heading),
        description: trim(s.description),
        example: cleaned_example(s.example),
    }
}

/// A section is acceptable when its trimmed heading and instructions are
/// non-empty.
pub open spec fn section_ok(s: OwnedSectionView) -> bool {
    trim(s.heading).len() > 0 && trim(s.description).len() > 0
}

/// The first section of `secs` that is not acceptable.
pub open spec fn first_bad_section(secs: Seq<OwnedSectionView>) -> Option<int>
    decreases secs.len(),
{
    if secs.len() == 0 {
        None
    } else {
        match first_bad_section(secs.drop_last()) {
            Some(i) => Some(i),
            None => if section_ok(secs.last()) {
                None
            } else {
                Some(secs.len() - 1)
            },
        }
    }
}

/// The outcome of validating a template: the template with its editable
/// fields trimmed, or the message of the first problem found.
pub open spec fn validation(t: OwnedTemplateView) -> Result<OwnedTemplateView, Seq<char>> {
    if trim(t.name).len() == 0 {
        Err("Template name is required"@)
    } else if t.sections.len() == 0 {
        Err("A template needs at least one section"@)
    } else {
        match first_bad_section(t.sections) {
            Some(i) => if trim(t.sections[i].heading).len() == 0 {
                Err("Every section needs a heading"@)
            } else {
                Err("Section \""@ + trim(t.sections[i].heading) + "\" needs instructions"@)
            },
            None => Ok(
                OwnedTemplateView {
                    name: trim(t.name),
                    description: trim(t.description),
                    sections: t.sections.map_values(|s: OwnedSectionView| cleaned_section(s)),
                    ..t
                },
            ),
        }
    }
}

/// Whether `r` is the answer owed for the outcome `v` of a validation:
/// the template, or an `InvalidTemplate` error with the message.
pub open spec fn answers_validation(
    r: Result<OwnedTemplate, AppError>,
    v: Result<OwnedTemplateView, Seq<char>>,
) -> bool {
    match v {
        Ok(t) => r matches Ok(o) && o@ == t,
        Err(m) => r matches Err(AppError::InvalidTemplate(e)) && e@ == m,
    }
}

fn clean_section(s: &OwnedSection) -> (r: OwnedSection)
    ensures
        r@ == cleaned_section(s@),
{
    let example = match &s.example {
        Some(e) => {
            let t = trim_str(e.as_str());
            if t.as_str().is_empty() {
                None
            } else {
                Some(t)
            }
        },
        None => None,
    };
    OwnedSection {
        id: owned(s.id.as_str()),
        heading: trim_str(s.heading.as_str()),
        description: trim_str(s.description.as_str()),
        example,
    }
}

fn invalid(m: String) -> (r: Result<OwnedTemplate, AppError>)
    ensures
        r matches Err(AppError::InvalidTemplate(e)) && e@ == m@,
{
    Err(AppError::InvalidTemplate(m))
}

/// Validates a template's user-editable fields, returning it trimmed.
pub fn validate(t: OwnedTemplate) -> (r: Result<OwnedTemplate, AppError>)
    ensures
        answers_validation(r, validation(t@)),
{
    let ghost tv = t@;
    let name = trim_str(t.name.as_str());
    if name.as_str().is_empty() {
        return invalid(owned("Template name is required"));
    }
    if t.sections.len() == 0 {
        return invalid(owned("A template needs at least one section"));
    }
    let mut sections: Vec<OwnedSection> = Vec::new();
    for i in 0..t.sections.len()
        invariant
            tv == t@,
            trim(tv.name).len() > 0,
            tv.sections.len() > 0,
            first_bad_section(tv.sections.take(i as int)) is None,
            sections@.map_values(|s: OwnedSection| s@) == tv.sections.take(i as int).map_values(
                |s: OwnedSectionView| cleaned_section(s),
            ),
    {
        let s = clean_section(&t.sections[i]);
        let ghost before = sections@.map_values(|s: OwnedSection| s@);
        assert(tv.sections[i as int] == t.sections@[i as int]@);
        assert(tv.sections.take(i + 1).drop_last() == tv.sections.take(i as int));
        if s.heading.as_str().is_empty() || s.description.as_str().is_empty() {
            proof {
                lemma_first_bad_prefix(tv.sections, i as int);
            }
            if s.heading.as_str().is_empty() {
                return invalid(owned("Every section needs a heading"));
            }
            let mut m = owned("Section \"");
            append_str(&mut m, s.heading.as_str());
            append_str(&mut m, "\" needs instructions");
            return invalid(m);
        }
        sections.push(s);
        assert(sections@.map_values(|s: OwnedSection| s@) =~= before.push(
            cleaned_section(tv.sections[i as int]),
        ));
        assert(sections@.map_values(|s: OwnedSection| s@) =~= tv.sections.take(i + 1).map_values(
            |s: OwnedSectionView| cleaned_section(s),
        ));
    }
    assert(tv.sections.take(t.sections.len() as int) == tv.sections);
    Ok(
        OwnedTemplate {
            id: t.id,
            name,
            description: trim_str(t.description.as_str()),
            sections,
            builtin: t.builtin,
            template_example: t.template_example,
        },
    )
}

proof fn lemma_first_bad_prefix(secs: Seq<OwnedSectionView>, i: int)
    requires
        0 <= i < secs.len(),
        first_bad_section(secs.take(i)) is None,
        !section_ok(secs[i]),
    ensures
        first_bad_section(secs) == Some(i),
    decreases secs.len(),
{
    if i + 1 < secs.len() {
        assert(secs.drop_last().take(i) == secs.take(i));
        assert(secs.drop_last()[i] == secs[i]);
        lemma_first_bad_prefix(secs.drop_last(), i);
    } else {
        assert(secs.drop_last() == secs.take(i));
    }
}

// ---------------------------------------------------------------------------
// Ids for new templates
// ---------------------------------------------------------------------------

/// ASCII letters and digits (`char::is_ascii_alphanumeric`).
pub open spec fn ascii_alnum(c: char) -> bool {
    ('a' <= c && c <= 'z') || ('A' <= c && c <= 'Z') || ('0' <= c && c <= '9')
}

/// The slug of `cs` and whether it ends in a separator: ASCII letters and
/// digits are kept; each run of other characters becomes one `_`.
pub open spec fn slug_state(cs: Seq<char>) -> (Seq<char>, bool)
    decreases cs.len(),
{
    if cs.len() == 0 {
        (Seq::empty(), false)
    } else {
        let (s, dash) = slug_state(cs.drop_last());
        let c = cs.last();
        if ascii_alnum(c) {
            (s.push(c), false)
        } else if !dash {
            (s.push('_'), true)
        } else {
            (s, dash)
        }
    }
}

/// `s` without leading `_` characters.
pub open spec fn strip_leading_underscores(s: Seq<char>) -> Seq<char>
    decreases s.len(),
{
    if s.len() > 0 && s[0] == '_' {
        strip_leading_underscores(s.drop_first())
    } else {
        s
    }
}

/// `s` without trailing `_` characters.
pub open spec fn strip_trailing_underscores(s: Seq<char>) -> Seq<char>
    decreases s.len(),
{
    if s.len() > 0 && s.last() == '_' {
        strip_trailing_underscores(s.drop_last())
    } else {
        s
    }
}

/// The id a template named `name` is based on: the slug of its trimmed,
/// lowercased name without surrounding `_`, or `template` when that is
/// empty.
pub open spec fn id_base(name: Seq<char>) -> Seq<char> {
    let slug = strip_trailing_underscores(
        strip_leading_underscores(slug_state(lowercase(trim(name))).0),
    );
    if slug.len() == 0 {
        "template"@
    } else {
        slug
    }
}

/// The `n`-th alternative to the id `base`.
pub open spec fn numbered(base: Seq<char>, n: nat) -> Seq<char> {
    base + "_"@ + decimal(n)
}

/// `r` is the id generated for `name` while `taken` ids are in use: the
/// base id when it is free, otherwise its first free numbered alternative
/// from 2 up.
pub open spec fn is_generated_id(r: Seq<char>, name: Seq<char>, taken: Seq<Seq<char>>) -> bool {
    let base = id_base(name);
    &&& !taken.contains(r)
    &&& !taken.contains(base) ==> r == base
    &&& taken.contains(base) ==> exists|n: nat|
        #![trigger numbered(base, n)]
        n >= 2 && r == numbered(base, n) && forall|k: nat|
            #![trigger numbered(base, k)]
            2 <= k < n ==> taken.contains(numbered(base, k))
}

fn slugify(cs: &[char]) -> (r: Vec<char>)
    ensures
        r@ == slug_state(cs@).0,
{
    let mut slug: Vec<char> = Vec::new();
    let mut dash = false;
    for i in 0..cs.len()
        invariant
            (slug@, dash) == slug_state(cs@.take(i as int)),
    {
        assert(cs@.take(i + 1).drop_last() == cs@.take(i as int));
        let c = cs[i];
        if ('a' <= c && c <= 'z') || ('A' <= c && c <= 'Z') || ('0' <= c && c <= '9') {
            slug.push(c);
            dash = false;
        } else if !dash {
            slug.push('_');
            dash = true;
        }
    }
    assert(cs@.take(cs.len() as int) == cs@);
    slug
}

fn trim_underscores(v: &[char]) -> (r: Vec<char>)
    ensures
        r@ == strip_trailing_underscores(strip_leading_underscores(v@)),
{
    let mut lo: usize = 0;
    while lo < v.len() && v[lo] == '_'
        invariant
            lo <= v.len(),
            strip_leading_underscores(v@) == strip_leading_underscores(v@.skip(lo as int)),
        decreases v.len() - lo,
    {
        assert(v@.skip(lo as int).drop_first() == v@.skip(lo + 1));
        lo = lo + 1;
    }
    assert(v@.skip(0) == v@);
    let rest = crate::text::skip_chars(v, lo);
    let mut hi: usize = rest.len();
    assert(rest@.take(hi as int) == rest@);
    while hi > 0 && rest[hi - 1] == '_'
        invariant
            hi <= rest.len(),
            strip_trailing_underscores(rest@) == strip_trailing_underscores(
                rest@.take(hi as int),
            ),
        decreases hi,
    {
        assert(rest@.take(hi as int).drop_last() == rest@.take(hi - 1));
        hi = hi - 1;
    }
    crate::text::take_chars(rest.as_slice(), hi)
}

fn numbered_exec(base: &str, n: u64) -> (r: String)
    ensures
        r@ == numbered(base@, n as nat),
{
    let mut s = owned(base);
    append_str(&mut s, "_");
    let d = decimal_string(n);
    append_str(&mut s, d.as_str());
    s
}

proof fn lemma_numbered_injective(base: Seq<char>, n: nat, m: nat)
    requires
        numbered(base, n) == numbered(base, m),
    ensures
        n == m,
{
    reveal_strlit("_");
    let k: int = base.len() as int + 1;
    assert(numbered(base, n).skip(k) =~= decimal(n));
    assert(numbered(base, m).skip(k) =~= decimal(m));
    lemma_decimal_injective(n, m);
}

/// When the numbered alternatives `2..n` of `base` are all taken, there are
/// at least `n - 2` distinct taken ids.
proof fn lemma_taken_count(base: Seq<char>, taken: Seq<Seq<char>>, n: nat)
    requires
        n >= 2,
        forall|k: nat| 2 <= k < n ==> taken.contains(#[trigger] numbered(base, k)),
    ensures
        n - 2 <= taken.len(),
{
    let f = |k: int| numbered(base, k as nat);
    let dom = vstd::set_lib::set_int_range(2, n as int);
    vstd::set_lib::lemma_int_range(2, n as int);
    let img = dom.map(f);
    assert(vstd::relations::injective_on(f, dom)) by {
        assert forall|a: int, b: int| dom.contains(a) && dom.contains(b) && f(a) == f(b) implies a
            == b by {
            lemma_numbered_injective(base, a as nat, b as nat);
        }
    }
    vstd::set_lib::lemma_map_size(dom, img, f);
    assert(img.subset_of(taken.to_set())) by {
        assert forall|x: Seq<char>| img.contains(x) implies taken.to_set().contains(x) by {
            let a = choose|a: int| dom.contains(a) && f(a) == x;
            assert(taken.contains(numbered(base, a as nat)));
        }
    }
    vstd::set_lib::lemma_len_subset(img, taken.to_set());
    taken.lemma_cardinality_of_set();
}

/// Derives a unique, url-ish slug id from `name`, avoiding the `taken` ids.
pub fn generate_id(name: &str, taken: &[String]) -> (r: String)
    requires
        taken.len() + 4 < u64::MAX,
    ensures
        is_generated_id(r@, name@, views(taken@)),
{
    let ghost tk = views(taken@);
    let trimmed = trim_str(name);
    let lower = to_lowercase(trimmed.as_str());
    let lc = str_chars(lower.as_str());
    let slug = slugify(lc.as_slice());
    let stripped = trim_underscores(slug.as_slice());
    let base = if stripped.len() == 0 {
        owned("template")
    } else {
        string_from_chars(stripped.as_slice())
    };
    assert(base@ == id_base(name@));
    if !contains_string(taken, &base) {
        return base;
    }
    let mut n: u64 = 2;
    while n <= taken.len() as u64 + 2
        invariant
            tk == views(taken@),
            base@ == id_base(name@),
            tk.contains(base@),
            2 <= n,
            taken.len() + 4 < u64::MAX,
            forall|k: nat| 2 <= k < n ==> tk.contains(#[trigger] numbered(base@, k)),
        decreases taken.len() + 3 - n,
    {
        let candidate = numbered_exec(base.as_str(), n);
        if !contains_string(taken, &candidate) {
            assert(numbered(base@, n as nat) == candidate@);
            return candidate;
        }
        n = n + 1;
    }
    proof {
        lemma_taken_count(base@, tk, n as nat);
    }
    assert(false);
    base
}

// ---------------------------------------------------------------------------
// Mutations
// ---------------------------------------------------------------------------

/// The ids in use for a store: the built-in ids, then the stored ids.
pub open spec fn taken_ids(store: Seq<OwnedTemplateView>) -> Seq<Seq<char>> {
    seed_views().map_values(|t: OwnedTemplateView| t.id) + store.map_values(
        |t: OwnedTemplateView| t.id,
    )
}

/// Creates a user template with a fresh id and appends it to the store.
/// Returns the stored template (its assigned id, `builtin` false); an
/// invalid template leaves the store unchanged.
pub fn create(store: &mut TemplateStore, template: OwnedTemplate) -> (r: Result<
    OwnedTemplate,
    AppError,
>)
    requires
        old(store).templates.len() + 8 < u64::MAX,
    ensures
        match validation(template@) {
            Err(m) => r matches Err(AppError::InvalidTemplate(e)) && e@ == m && final(store)@
                == old(store)@,
            Ok(v) => r matches Ok(t) && {
                &&& t@ == OwnedTemplateView { id: t@.id, builtin: false, ..v }
                &&& is_generated_id(t@.id, v.name, taken_ids(old(store)@))
                &&& final(store)@ == old(store)@.push(t@)
            },
        },
        ids_unique(old(store)@) ==> ids_unique(final(store)@),
{
    let seeds = builtin_seeds();
    let mut taken: Vec<String> = Vec::new();
    let ghost sv = seeds@.map_values(|t: OwnedTemplate| t@);
    for i in 0..seeds.len()
        invariant
            sv == seeds@.map_values(|t: OwnedTemplate| t@),
            views(taken@) == sv.take(i as int).map_values(|t: OwnedTemplateView| t.id),
    {
        let ghost before = views(taken@);
        taken.push(owned(seeds[i].id.as_str()));
        assert(views(taken@) =~= before.push(sv[i as int].id));
        assert(views(taken@) =~= sv.take(i + 1).map_values(|t: OwnedTemplateView| t.id));
    }
    assert(sv.take(seeds.len() as int) == sv);
    let ghost st = store@;
    let ghost mid = views(taken@);
    for i in 0..store.templates.len()
        invariant
            st == store@,
            st == store.templates@.map_values(|t: OwnedTemplate| t@),
            views(taken@) == mid + st.take(i as int).map_values(|t: OwnedTemplateView| t.id),
            taken.len() == mid.len() + i,
    {
        let ghost before = views(taken@);
        taken.push(owned(store.templates[i].id.as_str()));
        assert(views(taken@) =~= before.push(st[i as int].id));
        assert(views(taken@) =~= mid + st.take(i + 1).map_values(|t: OwnedTemplateView| t.id));
    }
    assert(st.take(store.templates.len() as int) == st);
    assert(views(taken@) =~= taken_ids(old(store)@));
    let v = validate(template);
    match v {
        Err(e) => Err(e),
        Ok(mut t) => {
            t.id = generate_id(t.name.as_str(), taken.as_slice());
            t.builtin = false;
            let ghost before = store@;
            store.templates.push(t.duplicate());
            assert(store@ =~= before.push(t@));
            proof {
                if ids_unique(before) {
                    law_create_then_get(before, t@, t@.name);
                }
            }
            Ok(t)
        },
    }
}

/// Whether `r` is the answer owed when a template operation fails with the
/// message `m`: an `InvalidTemplate` error carrying it.
pub open spec fn invalid_with(r: Result<(), AppError>, m: Seq<char>) -> bool {
    r matches Err(AppError::InvalidTemplate(e)) && e@ == m
}

/// Updates an existing template by id: a built-in's override is stored (or
/// replaced), a user template is replaced. Unknown ids and invalid templates
/// are refused and leave the store unchanged.
pub fn update(store: &mut TemplateStore, template: OwnedTemplate) -> (r: Result<(), AppError>)
    ensures
        ({
            let builtin = builtin_with_id(template@.id) is Some;
            if !builtin && index_of_id(old(store)@, template@.id) is None {
                &&& invalid_with(r, "Unknown template \""@ + template@.id + "\""@)
                &&& final(store)@ == old(store)@
            } else {
                match validation(template@) {
                    Err(m) => invalid_with(r, m) && final(store)@ == old(store)@,
                    Ok(v) => {
                        let t = flagged(v, builtin);
                        &&& r is Ok
                        &&& final(store)@ == match index_of_id(old(store)@, t.id) {
                            Some(i) => old(store)@.update(i, t),
                            None => old(store)@.push(t),
                        }
                    },
                }
            }
        }),
        ids_unique(old(store)@) ==> ids_unique(final(store)@),
{
    let builtin = is_builtin_id(template.id.as_str());
    let pos = index_of_template(&store.templates, template.id.as_str());
    if !builtin && pos.is_none() {
        let mut m = owned("Unknown template \"");
        append_str(&mut m, template.id.as_str());
        append_str(&mut m, "\"");
        return Err(AppError::InvalidTemplate(m));
    }
    match validate(template) {
        Err(e) => Err(e),
        Ok(mut t) => {
            t.builtin = builtin;
            let ghost before = store@;
            match pos {
                Some(i) => {
                    proof {
                        lemma_index_of_bounds(before, t@.id);
                    }
                    store.templates.set(i, t);
                    assert(store@ =~= before.update(i as int, flagged(t@, builtin)));
                },
                None => {
                    store.templates.push(t);
                    assert(store@ =~= before.push(t@));
                },
            }
            proof {
                if ids_unique(before) {
                    law_update_then_get(before, flagged(t@, builtin));
                }
            }
            Ok(())
        },
    }
}

/// `ts` without the templates whose id is `id`.
pub open spec fn without_id(ts: Seq<OwnedTemplateView>, id: Seq<char>) -> Seq<OwnedTemplateView>
    decreases ts.len(),
{
    if ts.len() == 0 {
        Seq::empty()
    } else {
        let p = without_id(ts.drop_last(), id);
        if ts.last().id == id {
            p
        } else {
            p.push(ts.last())
        }
    }
}

fn remove_id(store: &mut TemplateStore, id: &str)
    ensures
        final(store)@ == without_id(old(store)@, id@),
{
    let ghost st = store@;
    let mut kept: Vec<OwnedTemplate> = Vec::new();
    for i in 0..store.templates.len()
        invariant
            st == store@,
            st == store.templates@.map_values(|t: OwnedTemplate| t@),
            kept@.map_values(|t: OwnedTemplate| t@) == without_id(st.take(i as int), id@),
    {
        assert(st.take(i + 1).drop_last() == st.take(i as int));
        let ghost before = kept@.map_values(|t: OwnedTemplate| t@);
        if !str_eq(store.templates[i].id.as_str(), id) {
            kept.push(store.templates[i].duplicate());
            assert(kept@.map_values(|t: OwnedTemplate| t@) =~= before.push(st[i as int]));
        }
    }
    assert(st.take(store.templates.len() as int) == st);
    store.templates = kept;
}

proof fn lemma_without_id_len(ts: Seq<OwnedTemplateView>, id: Seq<char>)
    ensures
        without_id(ts, id).len() <= ts.len(),
        without_id(ts, id).len() == ts.len() <==> index_of_id(ts, id) is None,
        index_of_id(ts, id) is None ==> without_id(ts, id) == ts,
    decreases ts.len(),
{
    if ts.len() > 0 {
        lemma_without_id_len(ts.drop_last(), id);
    }
}

/// Deletes a user template. Built-ins can't be deleted (they are reset
/// instead); unknown ids are refused.
pub fn delete(store: &mut TemplateStore, id: &str) -> (r: Result<(), AppError>)
    ensures
        if builtin_with_id(id@) is Some {
            &&& invalid_with(r, "Built-in templates can't be deleted — reset them instead"@)
            &&& final(store)@ == old(store)@
        } else if index_of_id(old(store)@, id@) is None {
            &&& invalid_with(r, "Unknown template \""@ + id@ + "\""@)
            &&& final(store)@ == old(store)@
        } else {
            &&& r is Ok
            &&& final(store)@ == without_id(old(store)@, id@)
        },
        ids_unique(old(store)@) ==> ids_unique(final(store)@),
{
    if is_builtin_id(id) {
        return Err(
            AppError::InvalidTemplate(owned("Built-in templates can't be deleted — reset them instead")),
        );
    }
    let before = store.templates.len();
    proof {
        lemma_without_id_len(store@, id@);
        if ids_unique(store@) {
            lemma_without_id(store@, id@);
        }
    }
    remove_id(store, id);
    if store.templates.len() == before {
        let mut m = owned("Unknown template \"");
        append_str(&mut m, id);
        append_str(&mut m, "\"");
        return Err(AppError::InvalidTemplate(m));
    }
    Ok(())
}

/// Resets a built-in template to its shipped seed by dropping any stored
/// override; returns the seed. Refused for ids that are not built in.
pub fn reset(store: &mut TemplateStore, id: &str) -> (r: Result<OwnedTemplate, AppError>)
    ensures
        match builtin_with_id(id@) {
            None => r matches Err(AppError::InvalidTemplate(e)) && e@ == "\""@ + id@
                + "\" is not a built-in template"@ && final(store)@ == old(store)@,
            Some(t) => r matches Ok(seed) && seed@ == owned_template_of(t) && final(store)@
                == without_id(old(store)@, id@),
        },
        ids_unique(old(store)@) ==> ids_unique(final(store)@),
{
    match builtin_seed_by_id(id) {
        None => {
            let mut m = owned("\"");
            append_str(&mut m, id);
            append_str(&mut m, "\" is not a built-in template");
            Err(AppError::InvalidTemplate(m))
        },
        Some(seed) => {
            proof {
                if ids_unique(store@) {
                    lemma_without_id(store@, id@);
                }
            }
            remove_id(store, id);
            Ok(seed)
        },
    }
}

// ---------------------------------------------------------------------------
// Reading back what was written
// ---------------------------------------------------------------------------

/// The first template of `ts` with id `id`, if any.
pub open spec fn lookup(ts: Seq<OwnedTemplateView>, id: Seq<char>) -> Option<OwnedTemplateView> {
    match index_of_id(ts, id) {
        Some(k) => Some(ts[k]),
        None => None,
    }
}

/// No two templates share an id (the store's invariant).
pub open spec fn ids_unique(ts: Seq<OwnedTemplateView>) -> bool {
    forall|i: int, j: int| 0 <= i < j < ts.len() ==> #[trigger] ts[i].id != #[trigger] ts[j].id
}

/// The store after an update stores `t`: in place of the template with its
/// id, else at the end.
pub open spec fn stored_update(store: Seq<OwnedTemplateView>, t: OwnedTemplateView) -> Seq<
    OwnedTemplateView,
> {
    match index_of_id(store, t.id) {
        Some(i) => store.update(i, t),
        None => store.push(t),
    }
}

proof fn lemma_index_of_spec(ts: Seq<OwnedTemplateView>, id: Seq<char>)
    ensures
        match index_of_id(ts, id) {
            Some(i) => 0 <= i < ts.len() && ts[i].id == id && forall|j: int|
                0 <= j < i ==> #[trigger] ts[j].id != id,
            None => forall|k: int| 0 <= k < ts.len() ==> #[trigger] ts[k].id != id,
        },
    decreases ts.len(),
{
    if ts.len() > 0 {
        lemma_index_of_spec(ts.drop_last(), id);
        assert forall|k: int| 0 <= k < ts.len() - 1 implies ts.drop_last()[k] == ts[k] by {}
    }
}

proof fn lemma_index_of_first(ts: Seq<OwnedTemplateView>, id: Seq<char>, k: int)
    requires
        0 <= k < ts.len(),
        ts[k].id == id,
        forall|j: int| 0 <= j < k ==> #[trigger] ts[j].id != id,
    ensures
        index_of_id(ts, id) == Some(k),
    decreases ts.len(),
{
    if k < ts.len() - 1 {
        assert(ts.drop_last()[k] == ts[k]);
        assert forall|j: int| 0 <= j < k implies #[trigger] ts.drop_last()[j].id != id by {
            assert(ts.drop_last()[j] == ts[j]);
        }
        lemma_index_of_first(ts.drop_last(), id, k);
    } else {
        lemma_index_of_spec(ts.drop_last(), id);
        if index_of_id(ts.drop_last(), id) is Some {
            let i = index_of_id(ts.drop_last(), id)->0;
            assert(ts.drop_last()[i] == ts[i]);
        }
    }
}

proof fn lemma_index_of_absent(ts: Seq<OwnedTemplateView>, id: Seq<char>)
    requires
        forall|k: int| 0 <= k < ts.len() ==> #[trigger] ts[k].id != id,
    ensures
        index_of_id(ts, id) is None,
{
    lemma_index_of_spec(ts, id);
}

proof fn lemma_lookup_append(a: Seq<OwnedTemplateView>, b: Seq<OwnedTemplateView>, id: Seq<char>)
    ensures
        lookup(a + b, id) == match lookup(a, id) {
            Some(x) => Some(x),
            None => lookup(b, id),
        },
        (index_of_id(a + b, id) is Some) == (index_of_id(a, id) is Some || index_of_id(b, id) is Some),
{
    let c = a + b;
    lemma_index_of_spec(a, id);
    lemma_index_of_spec(b, id);
    match index_of_id(a, id) {
        Some(k) => {
            assert forall|j: int| 0 <= j < k implies #[trigger] c[j].id != id by {
                assert(c[j] == a[j]);
            }
            lemma_index_of_first(c, id, k);
        },
        None => match index_of_id(b, id) {
            Some(m) => {
                assert forall|j: int| 0 <= j < a.len() + m implies #[trigger] c[j].id != id by {
                    if j < a.len() {
                        assert(c[j] == a[j]);
                    } else {
                        assert(c[j] == b[j - a.len()]);
                    }
                }
                assert(c[a.len() + m] == b[m]);
                lemma_index_of_first(c, id, a.len() + m);
            },
            None => {
                assert forall|k: int| 0 <= k < c.len() implies #[trigger] c[k].id != id by {
                    if k < a.len() {
                        assert(c[k] == a[k]);
                    } else {
                        assert(c[k] == b[k - a.len()]);
                    }
                }
                lemma_index_of_absent(c, id);
            },
        },
    }
}

proof fn lemma_lookup_single(x: OwnedTemplateView, id: Seq<char>)
    ensures
        lookup(seq![x], id) == (if x.id == id {
            Some(x)
        } else {
            None::<OwnedTemplateView>
        }),
{
    lemma_index_of_spec(seq![x], id);
    if x.id == id {
        lemma_index_of_first(seq![x], id, 0);
    }
}

proof fn lemma_same_ids(a: Seq<OwnedTemplateView>, b: Seq<OwnedTemplateView>, id: Seq<char>)
    requires
        a.len() == b.len(),
        forall|k: int| 0 <= k < a.len() ==> #[trigger] a[k].id == b[k].id,
    ensures
        index_of_id(a, id) == index_of_id(b, id),
{
    lemma_index_of_spec(a, id);
    lemma_index_of_spec(b, id);
    match index_of_id(a, id) {
        Some(k) => {
            assert forall|j: int| 0 <= j < k implies #[trigger] b[j].id != id by {
                assert(a[j].id == b[j].id);
            }
            lemma_index_of_first(b, id, k);
        },
        None => {
            assert forall|k: int| 0 <= k < b.len() implies #[trigger] b[k].id != id by {
                assert(a[k].id == b[k].id);
            }
            lemma_index_of_absent(b, id);
        },
    }
}

/// What overlaying the stored templates `stored` on `resolved` (with the
/// user templates `user` so far) gives for one id: the stored template with
/// that id (built-in exactly when `resolved` has the id), else the resolved
/// one, else the user one.
proof fn lemma_overlay_lookup(
    resolved: Seq<OwnedTemplateView>,
    user: Seq<OwnedTemplateView>,
    stored: Seq<OwnedTemplateView>,
    id: Seq<char>,
)
    requires
        ids_unique(resolved),
        ids_unique(user),
        ids_unique(stored),
        forall|m: int| 0 <= m < user.len() ==> index_of_id(resolved, #[trigger] user[m].id) is None,
        forall|j: int, m: int|
            0 <= j < stored.len() && 0 <= m < user.len() ==> #[trigger] stored[j].id
                != #[trigger] user[m].id,
    ensures
        lookup(overlay(resolved, user, stored), id) == match lookup(stored, id) {
            Some(s) => Some(flagged(s, index_of_id(resolved, id) is Some)),
            None => match lookup(resolved, id) {
                Some(r) => Some(r),
                None => lookup(user, id),
            },
        },
    decreases stored.len(),
{
    if stored.len() == 0 {
        lemma_lookup_append(resolved, user, id);
        lemma_index_of_spec(stored, id);
    } else {
        let s = stored[0];
        let rest = stored.drop_first();
        assert(stored =~= seq![s] + rest);
        lemma_lookup_append(seq![s], rest, id);
        lemma_lookup_single(s, id);
        assert(ids_unique(rest)) by {
            assert forall|i: int, j: int| 0 <= i < j < rest.len() implies #[trigger] rest[i].id
                != #[trigger] rest[j].id by {
                assert(rest[i] == stored[i + 1] && rest[j] == stored[j + 1]);
            }
        }
        assert forall|j: int| 0 <= j < rest.len() implies #[trigger] rest[j].id != s.id by {
            assert(rest[j] == stored[j + 1]);
        }
        lemma_index_of_spec(resolved, s.id);
        lemma_index_of_spec(resolved, id);
        match index_of_id(resolved, s.id) {
            Some(k0) => {
                let r2 = resolved.update(k0, flagged(s, true));
                assert forall|k: int| 0 <= k < resolved.len() implies #[trigger] resolved[k].id
                    == r2[k].id by {}
                assert(ids_unique(r2)) by {
                    assert forall|i: int, j: int| 0 <= i < j < r2.len() implies #[trigger] r2[i].id
                        != #[trigger] r2[j].id by {
                        assert(resolved[i].id == r2[i].id && resolved[j].id == r2[j].id);
                    }
                }
                assert forall|m: int| 0 <= m < user.len() implies index_of_id(
                    r2,
                    #[trigger] user[m].id,
                ) is None by {
                    lemma_same_ids(resolved, r2, user[m].id);
                }
                assert forall|j: int, m: int|
                    0 <= j < rest.len() && 0 <= m < user.len() implies #[trigger] rest[j].id
                    != #[trigger] user[m].id by {
                    assert(rest[j] == stored[j + 1]);
                }
                lemma_overlay_lookup(r2, user, rest, id);
                lemma_same_ids(resolved, r2, id);
                lemma_index_of_spec(rest, id);
                if id == s.id {
                    lemma_index_of_absent(rest, id);
                }
            },
            None => {
                let u2 = user.push(flagged(s, false));
                assert(ids_unique(u2)) by {
                    assert forall|i: int, j: int| 0 <= i < j < u2.len() implies #[trigger] u2[i].id
                        != #[trigger] u2[j].id by {
                        if j == user.len() {
                            assert(stored[0].id != user[i].id);
                        }
                    }
                }
                assert forall|m: int| 0 <= m < u2.len() implies index_of_id(
                    resolved,
                    #[trigger] u2[m].id,
                ) is None by {
                    if m < user.len() {
                        assert(u2[m] == user[m]);
                    }
                }
                assert forall|j: int, m: int|
                    0 <= j < rest.len() && 0 <= m < u2.len() implies #[trigger] rest[j].id
                    != #[trigger] u2[m].id by {
                    assert(rest[j] == stored[j + 1]);
                    if m < user.len() {
                        assert(u2[m] == user[m]);
                    }
                }
                lemma_overlay_lookup(resolved, u2, rest, id);
                assert(u2 =~= user + seq![flagged(s, false)]);
                lemma_lookup_append(user, seq![flagged(s, false)], id);
                lemma_lookup_single(flagged(s, false), id);
                lemma_index_of_spec(rest, id);
                if id == s.id {
                    lemma_index_of_absent(rest, id);
                    assert forall|m: int| 0 <= m < user.len() implies #[trigger] user[m].id != id by {
                        assert(stored[0].id != user[m].id);
                    }
                    lemma_index_of_absent(user, id);
                }
            },
        }
    }
}

proof fn lemma_seed_ids()
    ensures
        seed_views().len() == 4,
        seed_views()[0].id == "default"@,
        seed_views()[1].id == "minutes"@,
        seed_views()[2].id == "one_on_one"@,
        seed_views()[3].id == "standup"@,
        ids_unique(seed_views()),
{
    reveal_strlit("default");
    reveal_strlit("minutes");
    reveal_strlit("one_on_one");
    reveal_strlit("standup");
    let sv = seed_views();
    assert(sv[0].id == "default"@);
    assert(sv[1].id == "minutes"@);
    assert(sv[2].id == "one_on_one"@);
    assert(sv[3].id == "standup"@);
    assert forall|i: int, j: int| 0 <= i < j < sv.len() implies #[trigger] sv[i].id
        != #[trigger] sv[j].id by {
        assert(sv[i].id[0] != sv[j].id[0]);
    }
}

/// A shipped template's id is found among the seeds, as that seed.
proof fn lemma_seed_lookup(id: Seq<char>)
    ensures
        lookup(seed_views(), id) == match builtin_with_id(id) {
            Some(t) => Some(owned_template_of(t)),
            None => None::<OwnedTemplateView>,
        },
{
    lemma_seed_ids();
    let sv = seed_views();
    let bv = built_in_views();
    let b1 = bv.drop_first();
    let b2 = b1.drop_first();
    let b3 = b2.drop_first();
    let b4 = b3.drop_first();
    assert(b1[0] == bv[1] && b2[0] == bv[2] && b3[0] == bv[3] && b4.len() == 0);
    assert(find_template(b4, id) is None);
    assert(sv[0] == owned_template_of(bv[0]) && sv[1] == owned_template_of(bv[1]));
    assert(sv[2] == owned_template_of(bv[2]) && sv[3] == owned_template_of(bv[3]));
    assert(find_template(b3, id) == if bv[3].id == id { Some(bv[3]) } else { None });
    assert(find_template(b2, id) == if bv[2].id == id { Some(bv[2]) } else { find_template(b3, id) });
    assert(find_template(b1, id) == if bv[1].id == id { Some(bv[1]) } else { find_template(b2, id) });
    assert(find_template(bv, id) == if bv[0].id == id { Some(bv[0]) } else { find_template(b1, id) });
    lemma_index_of_spec(sv, id);
    if id == sv[0].id {
        lemma_index_of_first(sv, id, 0);
    } else if id == sv[1].id {
        lemma_index_of_first(sv, id, 1);
    } else if id == sv[2].id {
        lemma_index_of_first(sv, id, 2);
    } else if id == sv[3].id {
        lemma_index_of_first(sv, id, 3);
    } else {
        lemma_index_of_absent(sv, id);
    }
}

/// The resolved template with an id: the stored one when the store has it
/// (built-in exactly when a shipped template has that id), else the
/// shipped one.
proof fn lemma_resolved_lookup(store: Seq<OwnedTemplateView>, id: Seq<char>)
    requires
        ids_unique(store),
    ensures
        lookup(resolved_list(store), id) == match lookup(store, id) {
            Some(s) => Some(flagged(s, builtin_with_id(id) is Some)),
            None => lookup(seed_views(), id),
        },
{
    lemma_seed_ids();
    lemma_seed_lookup(id);
    lemma_index_of_spec(seed_views(), id);
    lemma_overlay_lookup(seed_views(), Seq::empty(), store, id);
    lemma_index_of_absent(Seq::<OwnedTemplateView>::empty(), id);
}

proof fn lemma_without_id(ts: Seq<OwnedTemplateView>, id: Seq<char>)
    requires
        ids_unique(ts),
    ensures
        ids_unique(without_id(ts, id)),
        forall|k: int| 0 <= k < without_id(ts, id).len() ==> #[trigger] without_id(ts, id)[k].id != id,
        forall|k: int|
            0 <= k < without_id(ts, id).len() ==> exists|j: int|
                0 <= j < ts.len() && #[trigger] without_id(ts, id)[k] == ts[j],
    decreases ts.len(),
{
    if ts.len() > 0 {
        let t = ts.drop_last();
        assert(ids_unique(t)) by {
            assert forall|i: int, j: int| 0 <= i < j < t.len() implies #[trigger] t[i].id
                != #[trigger] t[j].id by {
                assert(t[i] == ts[i] && t[j] == ts[j]);
            }
        }
        lemma_without_id(t, id);
        let p = without_id(t, id);
        if ts.last().id != id {
            let q = p.push(ts.last());
            assert forall|k: int| 0 <= k < p.len() implies exists|j: int|
                0 <= j < ts.len() && #[trigger] p[k] == ts[j] by {
                let j = choose|j: int| 0 <= j < t.len() && p[k] == t[j];
                assert(t[j] == ts[j]);
            }
            assert forall|i: int, j: int| 0 <= i < j < q.len() implies #[trigger] q[i].id
                != #[trigger] q[j].id by {
                if j == p.len() {
                    let m = choose|m: int| 0 <= m < t.len() && p[i] == t[m];
                    assert(t[m] == ts[m]);
                    assert(ts[m].id != ts[ts.len() - 1].id);
                }
            }
            assert forall|k: int| 0 <= k < q.len() implies exists|j: int|
                0 <= j < ts.len() && #[trigger] q[k] == ts[j] by {
                if k == p.len() {
                    assert(q[k] == ts[ts.len() - 1]);
                } else {
                    assert(q[k] == p[k]);
                }
            }
        } else {
            assert forall|k: int| 0 <= k < p.len() implies exists|j: int|
                0 <= j < ts.len() && #[trigger] p[k] == ts[j] by {
                let j = choose|j: int| 0 <= j < t.len() && p[k] == t[j];
                assert(t[j] == ts[j]);
            }
        }
    }
}

/// Editing a template and reading it back gives the edit: after an update
/// stores `t` (as [`update`] does), the resolved template with that id is
/// `t`, flagged built-in exactly when it overrides a shipped template; the
/// store still holds each id once.
pub proof fn law_update_then_get(store: Seq<OwnedTemplateView>, t: OwnedTemplateView)
    requires
        ids_unique(store),
    ensures
        ids_unique(stored_update(store, t)),
        lookup(resolved_list(stored_update(store, t)), t.id) == Some(
            flagged(t, builtin_with_id(t.id) is Some),
        ),
{
    let s2 = stored_update(store, t);
    lemma_index_of_spec(store, t.id);
    match index_of_id(store, t.id) {
        Some(i) => {
            assert(ids_unique(s2)) by {
                assert forall|a: int, b: int| 0 <= a < b < s2.len() implies #[trigger] s2[a].id
                    != #[trigger] s2[b].id by {
                    assert(s2[a].id == store[a].id && s2[b].id == store[b].id);
                }
            }
            assert forall|j: int| 0 <= j < i implies #[trigger] s2[j].id != t.id by {
                assert(s2[j] == store[j]);
            }
            lemma_index_of_first(s2, t.id, i);
        },
        None => {
            assert(ids_unique(s2)) by {
                assert forall|a: int, b: int| 0 <= a < b < s2.len() implies #[trigger] s2[a].id
                    != #[trigger] s2[b].id by {
                    assert(s2[a] == store[a]);
                    if b < store.len() {
                        assert(s2[b] == store[b]);
                    }
                }
            }
            assert forall|j: int| 0 <= j < store.len() implies #[trigger] s2[j].id != t.id by {
                assert(s2[j] == store[j]);
            }
            lemma_index_of_first(s2, t.id, store.len() as int);
        },
    }
    lemma_resolved_lookup(s2, t.id);
}

/// Two lists that agree on which places hold `id`, and on what is there,
/// look `id` up alike.
proof fn lemma_lookup_same(a: Seq<OwnedTemplateView>, b: Seq<OwnedTemplateView>, id: Seq<char>)
    requires
        a.len() == b.len(),
        forall|k: int| 0 <= k < a.len() ==> ((#[trigger] a[k]).id == id) == (b[k].id == id),
        forall|k: int| 0 <= k < a.len() && (#[trigger] a[k]).id == id ==> a[k] == b[k],
    ensures
        lookup(a, id) == lookup(b, id),
{
    lemma_index_of_spec(a, id);
    lemma_index_of_spec(b, id);
    match index_of_id(a, id) {
        Some(i) => {
            assert forall|j: int| 0 <= j < i implies #[trigger] b[j].id != id by {
                assert(a[j].id != id);
            }
            lemma_index_of_first(b, id, i);
        },
        None => {
            assert forall|k: int| 0 <= k < b.len() implies #[trigger] b[k].id != id by {
                assert(a[k].id != id);
            }
            lemma_index_of_absent(b, id);
        },
    }
}

/// Stored templates with other ids leave the lookup of `id` to the seeds
/// and user templates already placed.
proof fn lemma_overlay_absent(
    resolved: Seq<OwnedTemplateView>,
    user: Seq<OwnedTemplateView>,
    stored: Seq<OwnedTemplateView>,
    id: Seq<char>,
)
    requires
        forall|j: int| 0 <= j < stored.len() ==> (#[trigger] stored[j]).id != id,
    ensures
        lookup(overlay(resolved, user, stored), id) == lookup(resolved + user, id),
    decreases stored.len(),
{
    if stored.len() > 0 {
        let s = stored[0];
        let rest = stored.drop_first();
        assert forall|j: int| 0 <= j < rest.len() implies (#[trigger] rest[j]).id != id by {
            assert(rest[j] == stored[j + 1]);
        }
        lemma_index_of_spec(resolved, s.id);
        match index_of_id(resolved, s.id) {
            Some(i) => {
                let r2 = resolved.update(i, flagged(s, true));
                lemma_overlay_absent(r2, user, rest, id);
                let x = r2 + user;
                let y = resolved + user;
                assert forall|k: int| 0 <= k < x.len() implies ((#[trigger] x[k]).id == id) == (
                y[k].id == id) && (x[k].id == id ==> x[k] == y[k]) by {
                    if k < resolved.len() && k != i {
                        assert(x[k] == y[k]);
                    } else if k >= resolved.len() {
                        assert(x[k] == y[k]);
                    }
                }
                lemma_lookup_same(x, y, id);
            },
            None => {
                let u2 = user.push(flagged(s, false));
                lemma_overlay_absent(resolved, u2, rest, id);
                assert(resolved + u2 =~= (resolved + user) + seq![flagged(s, false)]);
                lemma_lookup_append(resolved + user, seq![flagged(s, false)], id);
                lemma_lookup_single(flagged(s, false), id);
            },
        }
    }
}

/// `without_id` leaves no template with that id.
proof fn lemma_without_id_absent(ts: Seq<OwnedTemplateView>, id: Seq<char>)
    ensures
        forall|k: int|
            0 <= k < without_id(ts, id).len() ==> (#[trigger] without_id(ts, id)[k]).id != id,
    decreases ts.len(),
{
    if ts.len() > 0 {
        lemma_without_id_absent(ts.drop_last(), id);
        let p = without_id(ts.drop_last(), id);
        if ts.last().id != id {
            assert forall|k: int| 0 <= k < p.push(ts.last()).len() implies (#[trigger] p.push(
                ts.last(),
            )[k]).id != id by {
                if k < p.len() {
                    assert(p.push(ts.last())[k] == p[k]);
                }
            }
        }
    }
}

/// With no stored template of that id, reading `id` back gives the seed of
/// that id, if any.
proof fn lemma_resolved_absent(store: Seq<OwnedTemplateView>, id: Seq<char>)
    requires
        forall|j: int| 0 <= j < store.len() ==> (#[trigger] store[j]).id != id,
    ensures
        lookup(resolved_list(store), id) == lookup(seed_views(), id),
{
    lemma_overlay_absent(seed_views(), Seq::empty(), store, id);
    assert(seed_views() + Seq::<OwnedTemplateView>::empty() =~= seed_views());
}

/// Resetting a shipped template and reading it back gives the shipped
/// version, whatever was stored, duplicates included; resetting again
/// changes nothing.
pub proof fn law_reset_then_get(store: Seq<OwnedTemplateView>, id: Seq<char>)
    requires
        builtin_with_id(id) is Some,
    ensures
        lookup(resolved_list(without_id(store, id)), id) == Some(
            owned_template_of(builtin_with_id(id)->0),
        ),
        without_id(without_id(store, id), id) == without_id(store, id),
        ids_unique(store) ==> ids_unique(without_id(store, id)),
{
    let w = without_id(store, id);
    lemma_without_id_absent(store, id);
    lemma_resolved_absent(w, id);
    lemma_seed_lookup(id);
    lemma_index_of_absent(w, id);
    lemma_without_id_len(w, id);
    if ids_unique(store) {
        lemma_without_id(store, id);
    }
}

/// A deleted user template is gone: reading its id back finds nothing,
/// whatever was stored, duplicates included.
pub proof fn law_delete_then_get(store: Seq<OwnedTemplateView>, id: Seq<char>)
    requires
        builtin_with_id(id) is None,
    ensures
        lookup(resolved_list(without_id(store, id)), id) is None,
        ids_unique(store) ==> ids_unique(without_id(store, id)),
{
    let w = without_id(store, id);
    lemma_without_id_absent(store, id);
    lemma_resolved_absent(w, id);
    lemma_seed_lookup(id);
    if ids_unique(store) {
        lemma_without_id(store, id);
    }
}

/// A template stored last under an id that nothing else has is read back
/// as the user template it was stored as.
proof fn lemma_overlay_fresh(
    resolved: Seq<OwnedTemplateView>,
    user: Seq<OwnedTemplateView>,
    stored: Seq<OwnedTemplateView>,
    id: Seq<char>,
)
    requires
        stored.len() > 0,
        stored.last().id == id,
        forall|j: int| 0 <= j < stored.len() - 1 ==> (#[trigger] stored[j]).id != id,
        forall|k: int| 0 <= k < resolved.len() ==> (#[trigger] resolved[k]).id != id,
        forall|k: int| 0 <= k < user.len() ==> (#[trigger] user[k]).id != id,
    ensures
        lookup(overlay(resolved, user, stored), id) == Some(flagged(stored.last(), false)),
    decreases stored.len(),
{
    let s = stored[0];
    let rest = stored.drop_first();
    lemma_index_of_spec(resolved, s.id);
    if stored.len() == 1 {
        assert(s == stored.last());
        lemma_index_of_absent(resolved, id);
        let u2 = user.push(flagged(s, false));
        assert(rest.len() == 0);
        assert(overlay(resolved, user, stored) == overlay(resolved, u2, rest));
        assert(overlay(resolved, u2, rest) == resolved + u2);
        assert(resolved + u2 =~= (resolved + user) + seq![flagged(s, false)]);
        lemma_lookup_append(resolved + user, seq![flagged(s, false)], id);
        lemma_lookup_single(flagged(s, false), id);
        lemma_lookup_append(resolved, user, id);
        lemma_index_of_absent(user, id);
    } else {
        assert(s.id != id);
        assert(rest.last() == stored.last());
        assert forall|j: int| 0 <= j < rest.len() - 1 implies (#[trigger] rest[j]).id != id by {
            assert(rest[j] == stored[j + 1]);
        }
        match index_of_id(resolved, s.id) {
            Some(i) => {
                let r2 = resolved.update(i, flagged(s, true));
                assert forall|k: int| 0 <= k < r2.len() implies (#[trigger] r2[k]).id != id by {
                    if k != i {
                        assert(r2[k] == resolved[k]);
                    }
                }
                lemma_overlay_fresh(r2, user, rest, id);
                assert(overlay(resolved, user, stored) == overlay(r2, user, rest));
            },
            None => {
                let u2 = user.push(flagged(s, false));
                assert forall|k: int| 0 <= k < u2.len() implies (#[trigger] u2[k]).id != id by {
                    if k < user.len() {
                        assert(u2[k] == user[k]);
                    }
                }
                lemma_overlay_fresh(resolved, u2, rest, id);
                assert(overlay(resolved, user, stored) == overlay(resolved, u2, rest));
            },
        }
    }
}

/// A created template is found by its new id as the user template it was
/// stored as, whatever else the store holds; its id is fresh, so a store
/// that held each id once still does.
pub proof fn law_create_then_get(store: Seq<OwnedTemplateView>, t: OwnedTemplateView, name: Seq<char>)
    requires
        is_generated_id(t.id, name, taken_ids(store)),
    ensures
        lookup(resolved_list(store.push(t)), t.id) == Some(flagged(t, false)),
        ids_unique(store) ==> ids_unique(store.push(t)),
{
    let s2 = store.push(t);
    let taken = taken_ids(store);
    lemma_seed_ids();
    assert forall|j: int| 0 <= j < store.len() implies #[trigger] store[j].id != t.id by {
        assert(taken[seed_views().len() + j] == store[j].id);
    }
    assert forall|j: int| 0 <= j < seed_views().len() implies #[trigger] seed_views()[j].id
        != t.id by {
        assert(taken[j] == seed_views()[j].id);
    }
    if ids_unique(store) {
        assert(ids_unique(s2)) by {
            assert forall|a: int, b: int| 0 <= a < b < s2.len() implies #[trigger] s2[a].id
                != #[trigger] s2[b].id by {
                assert(s2[a] == store[a]);
                if b < store.len() {
                    assert(s2[b] == store[b]);
                }
            }
        }
    }
    assert forall|j: int| 0 <= j < s2.len() - 1 implies (#[trigger] s2[j]).id != t.id by {
        assert(s2[j] == store[j]);
    }
    lemma_overlay_fresh(seed_views(), Seq::empty(), s2, t.id);
}

} // verus!
