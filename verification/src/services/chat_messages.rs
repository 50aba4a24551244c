//! Conversion of chat messages from the OpenAI shape the app assembles to
//! the shape of Ollama's native `/api/chat`:
//!  - a recorded tool call's `arguments` JSON string becomes the object it
//!    encodes (`{}` when it is not JSON), and its `id` and `type` are dropped;
//!  - a `tool` message's `tool_call_id` becomes the `tool_name` of the call
//!    it answers (known from the assistant messages before it);
//!  - `content: null` becomes `""`.
//! Messages are JSON texts; objects are taken apart and rebuilt through
//! `serde_json`.
use vstd::prelude::*;

use crate::errors::AppError;
use crate::services::json::{
    array_items, array_of, json_array, entries, entry_views, json_array_items, json_entries, json_member, json_object,
    json_parse_error, json_quoted, json_reformat, member, object, parse_error, quoted, reformat,
    JsonField, JsonFieldView,
};
use crate::text::{append_str, join, join_strings, owned, str_eq, views};

verus! {

/// The string member `key` of the JSON object `text`.
pub open spec fn str_member(text: Seq<char>, key: Seq<char>) -> Option<Seq<char>> {
    match json_member(text, key) {
        Some(JsonFieldView::Str(s)) => Some(s),
        _ => None,
    }
}

/// The member `key` of `text` when it is not a string: its compact text.
pub open spec fn value_member(text: Seq<char>, key: Seq<char>) -> Option<Seq<char>> {
    match json_member(text, key) {
        Some(JsonFieldView::Other(t)) => Some(t),
        _ => None,
    }
}

/// `es` without the members named `a` or `b`.
pub open spec fn drop_keys(es: Seq<(Seq<char>, Seq<char>)>, a: Seq<char>, b: Seq<char>) -> Seq<
    (Seq<char>, Seq<char>),
>
    decreases es.len(),
{
    if es.len() == 0 {
        es
    } else {
        let p = drop_keys(es.drop_last(), a, b);
        if es.last().0 == a || es.last().0 == b {
            p
        } else {
            p.push(es.last())
        }
    }
}

/// The name recorded last for the call with id `id`.
pub open spec fn name_of(names: Seq<(Seq<char>, Seq<char>)>, id: Seq<char>) -> Option<Seq<char>>
    decreases names.len(),
{
    if names.len() == 0 {
        None
    } else if names.last().0 == id {
        Some(names.last().1)
    } else {
        name_of(names.drop_last(), id)
    }
}

/// The JSON text of a call's arguments: the value a JSON string encodes,
/// else an empty object.
pub open spec fn parsed_arguments(a: Seq<char>) -> Seq<char> {
    match json_reformat(a) {
        Some(t) => t,
        None => "{}"@,
    }
}

/// A call's `function` object with string `arguments` parsed.
pub open spec fn fixed_function(f: Seq<char>) -> Seq<char> {
    match json_entries(f) {
        Some(es) => match str_member(f, "arguments"@) {
            Some(a) => json_object(es.push(("arguments"@, parsed_arguments(a)))),
            None => json_object(es),
        },
        None => f,
    }
}

/// A recorded tool call without `id` and `type`, its function fixed.
pub open spec fn fixed_call(tc: Seq<char>) -> Seq<char> {
    match json_entries(tc) {
        Some(es) => {
            let kept = drop_keys(es, "id"@, "type"@);
            match value_member(tc, "function"@) {
                Some(f) => if json_entries(f) is Some {
                    json_object(kept.push(("function"@, fixed_function(f))))
                } else {
                    json_object(kept)
                },
                None => json_object(kept),
            }
        },
        None => tc,
    }
}

/// The id and function name a recorded tool call announces, when it names
/// both as strings.
pub open spec fn call_name(tc: Seq<char>) -> Option<(Seq<char>, Seq<char>)> {
    if json_entries(tc) is Some {
        match (str_member(tc, "id"@), value_member(tc, "function"@)) {
            (Some(id), Some(f)) => if json_entries(f) is Some {
                match str_member(f, "name"@) {
                    Some(n) => Some((id, n)),
                    None => None,
                }
            } else {
                None
            },
            _ => None,
        }
    } else {
        None
    }
}

/// The names announced by a list of recorded tool calls, in order.
pub open spec fn call_names(calls: Seq<Seq<char>>) -> Seq<(Seq<char>, Seq<char>)>
    decreases calls.len(),
{
    if calls.len() == 0 {
        Seq::empty()
    } else {
        let p = call_names(calls.drop_last());
        match call_name(calls.last()) {
            Some(pair) => p.push(pair),
            None => p,
        }
    }
}

/// A message with `content: null` turned into `""`: its members.
pub open spec fn content_fixed(m: Seq<char>, es: Seq<(Seq<char>, Seq<char>)>) -> Seq<
    (Seq<char>, Seq<char>),
> {
    if value_member(m, "content"@) == Some("null"@) {
        es.push(("content"@, "\"\""@))
    } else {
        es
    }
}

/// One message converted, given the call names announced before it; and
/// the call names known after it.
pub open spec fn fixed_message(m: Seq<char>, names: Seq<(Seq<char>, Seq<char>)>) -> (
    Seq<char>,
    Seq<(Seq<char>, Seq<char>)>,
) {
    match json_entries(m) {
        None => (m, names),
        Some(es) => {
            let es1 = content_fixed(m, es);
            let role = match str_member(m, "role"@) {
                Some(r) => r,
                None => Seq::empty(),
            };
            if role == "assistant"@ {
                match value_member(m, "tool_calls"@) {
                    Some(t) => match json_array_items(t) {
                        Some(calls) => (
                            json_object(
                                es1.push(
                                    (
                                        "tool_calls"@,
                                        json_array(calls.map_values(|c: Seq<char>| fixed_call(c))),
                                    ),
                                ),
                            ),
                            names + call_names(calls),
                        ),
                        None => (json_object(es1), names),
                    },
                    None => (json_object(es1), names),
                }
            } else if role == "tool"@ {
                let kept = drop_keys(es1, "tool_call_id"@, "tool_call_id"@);
                match str_member(m, "tool_call_id"@) {
                    Some(id) => match name_of(names, id) {
                        Some(n) => (json_object(kept.push(("tool_name"@, json_quoted(n)))), names),
                        None => (json_object(kept), names),
                    },
                    None => (json_object(kept), names),
                }
            } else {
                (json_object(es1), names)
            }
        },
    }
}

/// The messages converted in order, and the call names known at the end.
pub open spec fn fixed_messages(ms: Seq<Seq<char>>) -> (Seq<Seq<char>>, Seq<(Seq<char>, Seq<char>)>)
    decreases ms.len(),
{
    if ms.len() == 0 {
        (Seq::empty(), Seq::empty())
    } else {
        let prev = fixed_messages(ms.drop_last());
        let cur = fixed_message(ms.last(), prev.1);
        (prev.0.push(cur.0), cur.1)
    }
}

pub open spec fn pair_views(v: Seq<(String, String)>) -> Seq<(Seq<char>, Seq<char>)> {
    v.map_values(|p: (String, String)| (p.0@, p.1@))
}

fn str_field(text: &str, key: &str) -> (r: Option<String>)
    ensures
        match r {
            Some(s) => str_member(text@, key@) == Some(s@),
            None => str_member(text@, key@) is None,
        },
{
    match member(text, key) {
        Some(JsonField::Str(s)) => Some(s),
        _ => None,
    }
}

fn value_field(text: &str, key: &str) -> (r: Option<String>)
    ensures
        match r {
            Some(s) => value_member(text@, key@) == Some(s@),
            None => value_member(text@, key@) is None,
        },
{
    match member(text, key) {
        Some(JsonField::Other(t)) => Some(t),
        _ => None,
    }
}

fn without_keys(es: &Vec<(String, String)>, a: &str, b: &str) -> (r: Vec<(String, String)>)
    ensures
        entry_views(r@) == drop_keys(entry_views(es@), a@, b@),
{
    let ghost ev = entry_views(es@);
    let mut out: Vec<(String, String)> = Vec::new();
    for k in 0..es.len()
        invariant
            ev == entry_views(es@),
            entry_views(out@) == drop_keys(ev.take(k as int), a@, b@),
    {
        assert(ev.take(k + 1).drop_last() =~= ev.take(k as int));
        assert(ev.take(k + 1).last() == (es@[k as int].0@, es@[k as int].1@));
        if !str_eq(es[k].0.as_str(), a) && !str_eq(es[k].0.as_str(), b) {
            let ghost before = entry_views(out@);
            out.push((es[k].0.clone(), es[k].1.clone()));
            assert(entry_views(out@) =~= before.push(ev[k as int]));
        }
    }
    assert(ev.take(es.len() as int) =~= ev);
    out
}

fn lookup_name(names: &Vec<(String, String)>, id: &str) -> (r: Option<String>)
    ensures
        match r {
            Some(n) => name_of(pair_views(names@), id@) == Some(n@),
            None => name_of(pair_views(names@), id@) is None,
        },
{
    let ghost nv = pair_views(names@);
    let mut i = names.len();
    assert(nv.take(i as int) =~= nv);
    while i > 0
        invariant
            i <= names.len(),
            nv == pair_views(names@),
            name_of(nv, id@) == name_of(nv.take(i as int), id@),
        decreases i,
    {
        assert(nv.take(i as int).drop_last() =~= nv.take(i - 1));
        assert(nv.take(i as int).last() == (names@[i - 1].0@, names@[i - 1].1@));
        if str_eq(names[i - 1].0.as_str(), id) {
            return Some(names[i - 1].1.clone());
        }
        i = i - 1;
    }
    None
}

fn fix_function(f: &str) -> (r: String)
    ensures
        r@ == fixed_function(f@),
{
    match entries(f) {
        Some(mut es) => {
            match str_field(f, "arguments") {
                Some(a) => {
                    let parsed = match reformat(a.as_str()) {
                        Some(t) => t,
                        None => owned("{}"),
                    };
                    let ghost before = entry_views(es@);
                    es.push((owned("arguments"), parsed));
                    assert(entry_views(es@) =~= before.push(
                        ("arguments"@, parsed_arguments(a@)),
                    ));
                    object(es.as_slice())
                },
                None => object(es.as_slice()),
            }
        },
        None => owned(f),
    }
}

fn fix_call(tc: &str) -> (r: String)
    ensures
        r@ == fixed_call(tc@),
{
    match entries(tc) {
        Some(es) => {
            let mut kept = without_keys(&es, "id", "type");
            match value_field(tc, "function") {
                Some(f) => {
                    if entries(f.as_str()).is_some() {
                        let fixed = fix_function(f.as_str());
                        let ghost before = entry_views(kept@);
                        kept.push((owned("function"), fixed));
                        assert(entry_views(kept@) =~= before.push(
                            ("function"@, fixed_function(f@)),
                        ));
                        object(kept.as_slice())
                    } else {
                        object(kept.as_slice())
                    }
                },
                None => object(kept.as_slice()),
            }
        },
        None => owned(tc),
    }
}

fn name_announced(tc: &str) -> (r: Option<(String, String)>)
    ensures
        match r {
            Some(p) => call_name(tc@) == Some((p.0@, p.1@)),
            None => call_name(tc@) is None,
        },
{
    if entries(tc).is_none() {
        return None;
    }
    match (str_field(tc, "id"), value_field(tc, "function")) {
        (Some(id), Some(f)) => {
            if entries(f.as_str()).is_some() {
                match str_field(f.as_str(), "name") {
                    Some(n) => Some((id, n)),
                    None => None,
                }
            } else {
                None
            }
        },
        _ => None,
    }
}

fn fix_calls(calls: &Vec<String>, names: &mut Vec<(String, String)>) -> (r: Vec<String>)
    ensures
        views(r@) == views(calls@).map_values(|c: Seq<char>| fixed_call(c)),
        pair_views(final(names)@) == pair_views(old(names)@) + call_names(views(calls@)),
{
    let ghost cv = views(calls@);
    let ghost start = pair_views(names@);
    let mut out: Vec<String> = Vec::new();
    for k in 0..calls.len()
        invariant
            cv == views(calls@),
            views(out@) == cv.take(k as int).map_values(|c: Seq<char>| fixed_call(c)),
            pair_views(names@) == start + call_names(cv.take(k as int)),
    {
        let c = &calls[k];
        assert(cv.take(k + 1).drop_last() =~= cv.take(k as int));
        assert(cv.take(k + 1).last() == c@);
        let ghost before = views(out@);
        out.push(fix_call(c.as_str()));
        assert(views(out@) =~= before.push(fixed_call(c@)));
        assert(cv.take(k + 1).map_values(|c: Seq<char>| fixed_call(c)) =~= cv.take(
            k as int,
        ).map_values(|c: Seq<char>| fixed_call(c)).push(fixed_call(c@)));
        let ghost nb = pair_views(names@);
        match name_announced(c.as_str()) {
            Some(p) => {
                names.push(p);
                assert(pair_views(names@) =~= nb.push(call_name(c@)->0));
            },
            None => {},
        }
    }
    assert(cv.take(calls.len() as int) =~= cv);
    out
}

fn fix_message(m: &str, names: &mut Vec<(String, String)>) -> (r: String)
    ensures
        r@ == fixed_message(m@, pair_views(old(names)@)).0,
        pair_views(final(names)@) == fixed_message(m@, pair_views(old(names)@)).1,
{
    match entries(m) {
        None => owned(m),
        Some(mut es) => {
            let ghost ev = entry_views(es@);
            let content = value_field(m, "content");
            let is_null = match &content {
                Some(t) => str_eq(t.as_str(), "null"),
                None => false,
            };
            if is_null {
                es.push((owned("content"), owned("\"\"")));
                assert(entry_views(es@) =~= ev.push(("content"@, "\"\""@)));
            }
            assert(entry_views(es@) == content_fixed(m@, ev));
            let role = match str_field(m, "role") {
                Some(r) => r,
                None => String::new(),
            };
            if str_eq(role.as_str(), "assistant") {
                match value_field(m, "tool_calls") {
                    Some(t) => match array_items(t.as_str()) {
                        Some(calls) => {
                            assert(calls@.map_values(|s: String| s@) == views(calls@));
                            let fixed = fix_calls(&calls, names);
                            let arr = array_of(fixed.as_slice());
                            let ghost before = entry_views(es@);
                            es.push((owned("tool_calls"), arr));
                            assert(entry_views(es@) =~= before.push(
                                (
                                    "tool_calls"@,
                                    json_array(
                                        views(calls@).map_values(|c: Seq<char>| fixed_call(c)),
                                    ),
                                ),
                            ));
                            object(es.as_slice())
                        },
                        None => object(es.as_slice()),
                    },
                    None => object(es.as_slice()),
                }
            } else if str_eq(role.as_str(), "tool") {
                let mut kept = without_keys(&es, "tool_call_id", "tool_call_id");
                match str_field(m, "tool_call_id") {
                    Some(id) => match lookup_name(names, id.as_str()) {
                        Some(n) => {
                            let ghost before = entry_views(kept@);
                            kept.push((owned("tool_name"), quoted(n.as_str())));
                            assert(entry_views(kept@) =~= before.push(
                                ("tool_name"@, json_quoted(n@)),
                            ));
                            object(kept.as_slice())
                        },
                        None => object(kept.as_slice()),
                    },
                    None => object(kept.as_slice()),
                }
            } else {
                object(es.as_slice())
            }
        },
    }
}

/// The Ollama-shaped message array for an OpenAI-shaped one, or the
/// message it is refused with.
pub open spec fn normalized(messages_json: Seq<char>) -> Result<Seq<char>, Seq<char>> {
    match json_parse_error(messages_json) {
        Some(e) => Err("Invalid messages JSON: "@ + e),
        None => match json_array_items(messages_json) {
            None => Err("Messages JSON must be an array"@),
            Some(items) => Ok(json_array(fixed_messages(items).0)),
        },
    }
}

/// Converts an OpenAI-shaped message array (JSON text) to Ollama's shape.
/// Text that is not JSON, or not an array, is refused.
pub fn normalize_messages(messages_json: &str) -> (r: Result<String, AppError>)
    ensures
        match normalized(messages_json@) {
            Ok(t) => r matches Ok(x) && x@ == t,
            Err(m) => r matches Err(AppError::SummarizationFailed(x)) && x@ == m,
        },
{
    match parse_error(messages_json) {
        Some(e) => {
            let mut m = owned("Invalid messages JSON: ");
            append_str(&mut m, e.as_str());
            return Err(AppError::SummarizationFailed(m));
        },
        None => {},
    }
    let items = match array_items(messages_json) {
        Some(v) => v,
        None => {
            return Err(AppError::SummarizationFailed(owned("Messages JSON must be an array")));
        },
    };
    let ghost iv = items@.map_values(|s: String| s@);
    let mut names: Vec<(String, String)> = Vec::new();
    let mut out: Vec<String> = Vec::new();
    for k in 0..items.len()
        invariant
            iv == items@.map_values(|s: String| s@),
            views(out@) == fixed_messages(iv.take(k as int)).0,
            pair_views(names@) == fixed_messages(iv.take(k as int)).1,
    {
        assert(iv.take(k + 1).drop_last() =~= iv.take(k as int));
        assert(iv.take(k + 1).last() == items@[k as int]@);
        let ghost before = views(out@);
        let fixed = fix_message(items[k].as_str(), &mut names);
        out.push(fixed);
        assert(views(out@) =~= before.push(fixed@));
    }
    assert(iv.take(items.len() as int) =~= iv);
    Ok(array_of(out.as_slice()))
}

} // verus!
