//! Recovery of structured tool calls from a finished model turn. Four
//! sources are scanned, in order:
//!
//!  1. `<tool_call>…</tool_call>` blocks (Qwen family): a JSON body
//!     (`{"name":…,"arguments":…}`) or the XML/Hermes form
//!     (`<function=NAME><parameter=K>V</parameter></function>`).
//!  2. `<|tool_call>…<tool_call|>` blocks (Gemma family): `call:NAME{K:V, …}`
//!     with string values wrapped in `<|"|>`.
//!  3. `<|tool_call_start|>…<|tool_call_end|>` blocks (LFM2 family): a
//!     Pythonic list of calls.
//!  4. Fenced code blocks tagged `tool_code`, `tool_call`, `python` or
//!     `json`: a JSON object or a Python-style call.
//!
//! Malformed blocks are skipped. Arguments are kept as JSON text.
use vstd::prelude::*;

use crate::services::json::{
    json_member, json_object, json_or_string, json_quoted, member, object, quoted,
    value_or_string, JsonField, JsonFieldView, entry_views,
};
use crate::services::summarization::{
    GEMMA_STR_MARKER, GEMMA_TOOL_CLOSE, GEMMA_TOOL_OPEN, LFM2_TOOL_CLOSE, LFM2_TOOL_OPEN,
    TOOL_CLOSE, TOOL_OPEN,
};
use crate::text::{
    append_str, ascii_lower, ascii_lower_exec, decimal, decimal_string, ends_with, find, find_chars, find_from, has_prefix,
    has_suffix, lemma_find_from, lemma_rfind_char, occurs_at, owned, rfind_char,
    rfind_char_exec, skip_chars, slice_chars, starts_with, str_chars, string_from_chars,
    take_chars, trim, trim_chars,
};

verus! {

broadcast use vstd::seq_lib::group_seq_properties;

/// One tool call recovered from a model turn; `arguments` is JSON text.
pub struct ToolCallSpec {
    pub id: String,
    pub name: String,
    pub arguments: String,
}

#[verifier::ext_equal]
pub struct ToolCallView {
    pub id: Seq<char>,
    pub name: Seq<char>,
    pub arguments: Seq<char>,
}

impl View for ToolCallSpec {
    type V = ToolCallView;

    open spec fn view(&self) -> ToolCallView {
        ToolCallView { id: self.id@, name: self.name@, arguments: self.arguments@ }
    }
}

/// A parsed call: its name and its arguments as JSON text.
pub type Call = (Seq<char>, Seq<char>);

// ---------------------------------------------------------------------------
// Specification
// ---------------------------------------------------------------------------

/// The values of `s` that are present, in order.
pub open spec fn somes<A>(s: Seq<Option<A>>) -> Seq<A>
    decreases s.len(),
{
    if s.len() == 0 {
        Seq::empty()
    } else {
        let p = somes(s.drop_last());
        match s.last() {
            Some(a) => p.push(a),
            None => p,
        }
    }
}

/// The trimmed bodies of the `open … close` blocks of `text` from `cursor`,
/// left to right; a block without its close ends the scan.
pub open spec fn block_bodies(text: Seq<char>, open: Seq<char>, close: Seq<char>, cursor: int) -> Seq<
    Seq<char>,
>
    decreases text.len() - cursor,
{
    if cursor < 0 || open.len() == 0 {
        Seq::empty()
    } else {
        match find_from(text, open, cursor) {
            None => Seq::empty(),
            Some(s) => {
                let bs = s + open.len();
                match find_from(text, close, bs) {
                    None => Seq::empty(),
                    Some(e) => {
                        proof {
                            lemma_find_from(text, open, cursor);
                            lemma_find_from(text, close, bs);
                        }
                        if cursor <= s && bs <= e && e + close.len() <= text.len() {
                            seq![trim(text.subrange(bs, e))] + block_bodies(
                                text,
                                open,
                                close,
                                e + close.len(),
                            )
                        } else {
                            Seq::empty()
                        }
                    },
                }
            },
        }
    }
}

/// A JSON tool-call body: `name` must be a string; the arguments are the
/// `arguments` member, else the `parameters` member, else `{}`; a string
/// argument value is taken as the JSON text itself.
pub open spec fn json_call(body: Seq<char>) -> Option<Call> {
    match json_member(body, "name"@) {
        Some(JsonFieldView::Str(name)) => {
            let args = match json_member(body, "arguments"@) {
                Some(f) => Some(f),
                None => json_member(body, "parameters"@),
            };
            Some(
                (
                    name,
                    match args {
                        Some(JsonFieldView::Str(s)) => s,
                        Some(JsonFieldView::Other(t)) => t,
                        None => "{}"@,
                    },
                ),
            )
        },
        _ => None,
    }
}

/// The `<parameter=K>V</parameter>` entries of an XML function body from
/// `cursor`: trimmed keys (empty ones skipped) with the JSON text of their
/// trimmed values.
pub open spec fn xml_params(fb: Seq<char>, cursor: int) -> Seq<Call>
    decreases fb.len() - cursor,
{
    if cursor < 0 {
        Seq::empty()
    } else {
        match find_from(fb, "<parameter="@, cursor) {
            None => Seq::empty(),
            Some(po) => {
                let ks = po + "<parameter="@.len();
                match find_from(fb, ">"@, ks) {
                    None => Seq::empty(),
                    Some(ke) => {
                        let vs = ke + 1;
                        match find_from(fb, "</parameter>"@, vs) {
                            None => Seq::empty(),
                            Some(ve) => {
                                proof {
                                    reveal_strlit("</parameter>");
                                    lemma_find_from(fb, "</parameter>"@, vs);
                                    lemma_find_from(fb, ">"@, ks);
                                    lemma_find_from(fb, "<parameter="@, cursor);
                                }
                                let key = trim(fb.subrange(ks, ke));
                                let raw = trim(fb.subrange(vs, ve));
                                let entry = if key.len() > 0 {
                                    seq![(key, json_or_string(raw))]
                                } else {
                                    Seq::empty()
                                };
                                if cursor <= po && ks <= ke && vs <= ve {
                                    entry + xml_params(fb, ve + "</parameter>"@.len())
                                } else {
                                    Seq::empty()
                                }
                            },
                        }
                    },
                }
            },
        }
    }
}

/// The XML/Hermes form `<function=NAME>…</function>` of a tool-call body.
pub open spec fn xml_call(body: Seq<char>) -> Option<Call> {
    match find(body, "<function="@) {
        None => None,
        Some(fo) => {
            let ns = fo + "<function="@.len();
            match find_from(body, ">"@, ns) {
                None => None,
                Some(ne) => {
                    let name = trim(body.subrange(ns, ne));
                    if name.len() == 0 {
                        None
                    } else {
                        let after = body.skip(ne + 1);
                        let fc = match find(after, "</function>"@) {
                            Some(i) => i,
                            None => after.len() as int,
                        };
                        Some((name, json_object(xml_params(after.take(fc), 0))))
                    }
                },
            }
        },
    }
}

/// A `<tool_call>` body: JSON first, then the XML/Hermes form.
pub open spec fn qwen_call(body: Seq<char>) -> Option<Call> {
    match json_call(body) {
        Some(c) => Some(c),
        None => xml_call(body),
    }
}

/// `s` split at top-level `,` from `i`, Gemma style: `<|"|>…<|"|>` spans are
/// opaque; `start` is where the current piece began.
pub open spec fn gemma_split_from(s: Seq<char>, i: int, start: int, in_str: bool) -> Seq<Seq<char>>
    decreases s.len() - i,
{
    if i < 0 || i >= s.len() {
        if 0 <= start < s.len() {
            seq![s.subrange(start, s.len() as int)]
        } else {
            Seq::empty()
        }
    } else if occurs_at(s, GEMMA_STR_MARKER@, i) && GEMMA_STR_MARKER@.len() > 0 {
        gemma_split_from(s, i + GEMMA_STR_MARKER@.len(), start, !in_str)
    } else if !in_str && s[i] == ',' {
        seq![s.subrange(start, i)] + gemma_split_from(s, i + 1, i + 1, in_str)
    } else {
        gemma_split_from(s, i + 1, start, in_str)
    }
}

/// The value text of a Gemma argument written `raw`: a `<|"|>`-wrapped
/// string, else JSON, else a string.
pub open spec fn gemma_value(raw: Seq<char>) -> Seq<char> {
    let m = GEMMA_STR_MARKER@;
    if starts_with(raw, m) && ends_with(raw.skip(m.len() as int), m) {
        json_quoted(raw.subrange(m.len() as int, raw.len() - m.len()))
    } else {
        json_or_string(raw)
    }
}

/// The `KEY:VALUE` entries of Gemma argument pieces, in order; pieces that
/// are blank, lack a `:`, or have an empty key are skipped.
pub open spec fn gemma_entries(pieces: Seq<Seq<char>>) -> Seq<Call>
    decreases pieces.len(),
{
    if pieces.len() == 0 {
        Seq::empty()
    } else {
        let prev = gemma_entries(pieces.drop_last());
        let p = trim(pieces.last());
        match find(p, ":"@) {
            None => prev,
            Some(c) => {
                let key = trim(p.take(c));
                if p.len() == 0 || key.len() == 0 {
                    prev
                } else {
                    prev.push((key, gemma_value(trim(p.skip(c + 1)))))
                }
            },
        }
    }
}

/// `s` without a leading `call:`.
pub open spec fn without_call_prefix(s: Seq<char>) -> Seq<char> {
    if starts_with(s, "call:"@) {
        s.skip("call:"@.len() as int)
    } else {
        s
    }
}

/// A Gemma tool-call body `call:NAME{K:V, …}`.
pub open spec fn gemma_call(body: Seq<char>) -> Option<Call> {
    let s = without_call_prefix(trim(body));
    match find(s, "{"@) {
        None => None,
        Some(bo) => match rfind_char(s, '}') {
            None => None,
            Some(bc) => if bc <= bo {
                None
            } else {
                let name = trim(s.take(bo));
                if name.len() == 0 {
                    None
                } else {
                    Some(
                        (
                            name,
                            json_object(gemma_entries(gemma_split_from(s.subrange(bo + 1, bc), 0, 0, false))),
                        ),
                    )
                }
            },
        },
    }
}

/// `s` split at top-level `,` from `i`, Python style: commas inside
/// brackets or quotes are kept; a backslash inside quotes escapes the next
/// character.
pub open spec fn comma_split_from(
    s: Seq<char>,
    i: int,
    depth: int,
    quote: Option<char>,
    start: int,
) -> Seq<Seq<char>>
    decreases s.len() + 1 - i,
{
    if i < 0 || i >= s.len() {
        if 0 <= start < s.len() {
            seq![s.subrange(start, s.len() as int)]
        } else {
            Seq::empty()
        }
    } else {
        let ch = s[i];
        match quote {
            Some(q) => if ch == '\\' {
                comma_split_from(s, i + 2, depth, quote, start)
            } else if ch == q {
                comma_split_from(s, i + 1, depth, None, start)
            } else {
                comma_split_from(s, i + 1, depth, quote, start)
            },
            None => if ch == '"' || ch == '\'' {
                comma_split_from(s, i + 1, depth, Some(ch), start)
            } else if ch == '(' || ch == '[' || ch == '{' {
                comma_split_from(s, i + 1, depth + 1, quote, start)
            } else if ch == ')' || ch == ']' || ch == '}' {
                comma_split_from(s, i + 1, depth - 1, quote, start)
            } else if ch == ',' && depth == 0 {
                seq![s.subrange(start, i)] + comma_split_from(s, i + 1, depth, quote, i + 1)
            } else {
                comma_split_from(s, i + 1, depth, quote, start)
            },
        }
    }
}

/// `s` split at its top-level commas.
pub open spec fn top_level_pieces(s: Seq<char>) -> Seq<Seq<char>> {
    comma_split_from(s, 0, 0, None, 0)
}

/// The JSON text of a Python literal: quoted strings lose their quotes,
/// `True`/`False`/`None` (and their JSON spellings) map to JSON, anything
/// else is JSON when it parses and a string otherwise.
pub open spec fn python_literal(s0: Seq<char>) -> Seq<char> {
    let s = trim(s0);
    if s.len() >= 2 && ((s[0] == '"' && s.last() == '"') || (s[0] == '\'' && s.last() == '\'')) {
        json_quoted(s.subrange(1, s.len() - 1))
    } else if s == "True"@ || s == "true"@ {
        "true"@
    } else if s == "False"@ || s == "false"@ {
        "false"@
    } else if s == "None"@ || s == "null"@ {
        "null"@
    } else {
        json_or_string(s)
    }
}

/// The `key=value` entries of keyword-argument pieces, in order; pieces that
/// are blank, lack `=`, or have an empty key are skipped.
pub open spec fn python_entries(pieces: Seq<Seq<char>>) -> Seq<Call>
    decreases pieces.len(),
{
    if pieces.len() == 0 {
        Seq::empty()
    } else {
        let prev = python_entries(pieces.drop_last());
        let p = trim(pieces.last());
        match find(p, "="@) {
            None => prev,
            Some(e) => {
                let key = trim(p.take(e));
                if p.len() == 0 || key.len() == 0 {
                    prev
                } else {
                    prev.push((key, python_literal(trim(p.skip(e + 1)))))
                }
            },
        }
    }
}

/// A call text with an optional `print(…)` wrapper removed (`None` when the
/// wrapper is not closed).
pub open spec fn unwrap_print(s: Seq<char>) -> Option<Seq<char>> {
    if starts_with(s, "print("@) {
        let st = s.skip("print("@.len() as int);
        if ends_with(st, ")"@) && st.len() > 0 {
            Some(trim(st.drop_last()))
        } else {
            None
        }
    } else {
        Some(s)
    }
}

/// A Python-style call: optional `print(` wrapper, optional `module.`
/// prefix on the name, keyword arguments only.
pub open spec fn python_call(body: Seq<char>) -> Option<Call> {
    match unwrap_print(trim(body)) {
        None => None,
        Some(s) => match find(s, "("@) {
            None => None,
            Some(p) => {
                let full = trim(s.take(p));
                let name = match rfind_char(full, '.') {
                    Some(d) => full.skip(d + 1),
                    None => full,
                };
                let after = s.skip(p + 1);
                if name.len() == 0 || !(ends_with(after, ")"@) && after.len() > 0) {
                    None
                } else {
                    Some(
                        (name, json_object(python_entries(top_level_pieces(trim(after.drop_last()))))),
                    )
                }
            },
        },
    }
}

/// An LFM2 block body without its surrounding `[` `]`.
pub open spec fn unbracket(body: Seq<char>) -> Seq<char> {
    if body.len() >= 2 && body[0] == '[' && body.last() == ']' {
        body.subrange(1, body.len() - 1)
    } else {
        body
    }
}

/// The calls of Python-style call pieces, in order; blank pieces and
/// pieces that are not calls are skipped.
pub open spec fn python_calls(pieces: Seq<Seq<char>>) -> Seq<Call>
    decreases pieces.len(),
{
    if pieces.len() == 0 {
        Seq::empty()
    } else {
        let prev = python_calls(pieces.drop_last());
        let c = trim(pieces.last());
        if c.len() == 0 {
            prev
        } else {
            match python_call(c) {
                Some(x) => prev.push(x),
                None => prev,
            }
        }
    }
}

/// The calls of one LFM2 block body.
pub open spec fn lfm2_block_calls(body: Seq<char>) -> Seq<Call> {
    python_calls(top_level_pieces(unbracket(body)))
}

/// Concatenation of a sequence of sequences.
pub open spec fn flatten_calls(s: Seq<Seq<Call>>) -> Seq<Call>
    decreases s.len(),
{
    if s.len() == 0 {
        Seq::empty()
    } else {
        flatten_calls(s.drop_last()) + s.last()
    }
}

/// The fenced code blocks ```` ```lang\n…``` ```` of `text` from `i`: the
/// trimmed language tag and the body.
pub open spec fn fences_from(text: Seq<char>, i: int) -> Seq<(Seq<char>, Seq<char>)>
    decreases text.len() - i,
{
    if i < 0 {
        Seq::empty()
    } else {
        match find_from(text, "```"@, i) {
            None => Seq::empty(),
            Some(open) => {
                let ao = open + 3;
                let le = match find_from(text, "\n"@, ao) {
                    Some(n) => n,
                    None => text.len() as int,
                };
                let bs = le + 1;
                if bs >= text.len() {
                    Seq::empty()
                } else {
                    match find_from(text, "```"@, bs) {
                        None => Seq::empty(),
                        Some(be) => {
                            proof {
                                reveal_strlit("```");
                                lemma_find_from(text, "```"@, bs);
                                lemma_find_from(text, "```"@, i);
                                lemma_find_from(text, "\n"@, ao);
                            }
                            if i <= open && bs <= be {
                                seq![(trim(text.subrange(ao, le)), text.subrange(bs, be))]
                                    + fences_from(text, be + 3)
                            } else {
                                Seq::empty()
                            }
                        },
                    }
                }
            },
        }
    }
}

/// The fence tags whose bodies may hold a call.
pub open spec fn call_fence(lang: Seq<char>) -> bool {
    let l = ascii_lower(lang);
    l == "tool_code"@ || l == "tool_call"@ || l == "python"@ || l == "json"@
}

/// The call in a fenced block's body: JSON first, then Python style.
pub open spec fn fence_call(body: Seq<char>) -> Option<Call> {
    let c = trim(body);
    match json_call(c) {
        Some(x) => Some(x),
        None => python_call(c),
    }
}

/// The calls of the fenced blocks of `fences`, in order.
pub open spec fn fence_calls(fences: Seq<(Seq<char>, Seq<char>)>) -> Seq<Call>
    decreases fences.len(),
{
    if fences.len() == 0 {
        Seq::empty()
    } else {
        let prev = fence_calls(fences.drop_last());
        let (lang, body) = fences.last();
        if call_fence(lang) {
            match fence_call(body) {
                Some(c) => prev.push(c),
                None => prev,
            }
        } else {
            prev
        }
    }
}

/// Every call of a model turn's text, in scan order.
pub open spec fn tool_call_pairs(text: Seq<char>) -> Seq<Call> {
    somes(block_bodies(text, TOOL_OPEN@, TOOL_CLOSE@, 0).map_values(|b: Seq<char>| qwen_call(b)))
        + somes(
        block_bodies(text, GEMMA_TOOL_OPEN@, GEMMA_TOOL_CLOSE@, 0).map_values(
            |b: Seq<char>| gemma_call(b),
        ),
    ) + flatten_calls(
        block_bodies(text, LFM2_TOOL_OPEN@, LFM2_TOOL_CLOSE@, 0).map_values(
            |b: Seq<char>| lfm2_block_calls(b),
        ),
    ) + fence_calls(fences_from(text, 0))
}

/// The id of the `k`-th call of a turn.
pub open spec fn call_id(k: int) -> Seq<char> {
    "call_"@ + decimal(k as nat)
}

/// Calls with their ids assigned by position.
pub open spec fn with_ids(calls: Seq<Call>) -> Seq<ToolCallView> {
    Seq::new(
        calls.len(),
        |k: int| ToolCallView { id: call_id(k), name: calls[k].0, arguments: calls[k].1 },
    )
}

/// The tool calls of a model turn's text.
pub open spec fn tool_calls_of(text: Seq<char>) -> Seq<ToolCallView> {
    with_ids(tool_call_pairs(text))
}

// ---------------------------------------------------------------------------
// Parsers
// ---------------------------------------------------------------------------

/// A parsed call as plain values.
pub open spec fn call_view(o: Option<(String, String)>) -> Option<Call> {
    match o {
        Some(c) => Some((c.0@, c.1@)),
        None => None,
    }
}

/// The characters of each of a list of character vectors.
pub open spec fn char_seqs(v: Seq<Vec<char>>) -> Seq<Seq<char>> {
    v.map_values(|b: Vec<char>| b@)
}

/// The trimmed bodies of the `open … close` blocks of `text`.
fn block_bodies_exec(text: &[char], open: &[char], close: &[char]) -> (r: Vec<Vec<char>>)
    ensures
        char_seqs(r@) == block_bodies(text@, open@, close@, 0),
{
    let mut out: Vec<Vec<char>> = Vec::new();
    if open.len() == 0 {
        assert(char_seqs(out@) =~= Seq::<Seq<char>>::empty());
        return out;
    }
    let mut cursor: usize = 0;
    assert(char_seqs(out@) + block_bodies(text@, open@, close@, 0) =~= block_bodies(
        text@,
        open@,
        close@,
        0,
    ));
    loop
        invariant_except_break
            cursor <= text.len(),
            open.len() > 0,
            char_seqs(out@) + block_bodies(text@, open@, close@, cursor as int) == block_bodies(
                text@,
                open@,
                close@,
                0,
            ),
        ensures
            char_seqs(out@) == block_bodies(text@, open@, close@, 0),
        decreases text.len() - cursor,
    {
        let ghost acc = char_seqs(out@);
        match find_chars(text, open, cursor) {
            None => {
                assert(acc + Seq::<Seq<char>>::empty() =~= acc);
                break ;
            },
            Some(s0) => {
                proof {
                    lemma_find_from(text@, open@, cursor as int);
                }
                let bs = s0 + open.len();
                match find_chars(text, close, bs) {
                    None => {
                        assert(acc + Seq::<Seq<char>>::empty() =~= acc);
                        break ;
                    },
                    Some(e) => {
                        proof {
                            lemma_find_from(text@, close@, bs as int);
                        }
                        let body = slice_chars(text, bs, e);
                        let t = trim_chars(body.as_slice());
                        out.push(t);
                        assert(char_seqs(out@) =~= acc.push(trim(text@.subrange(bs as int, e as int))));
                        assert(e + close.len() <= text.len());
                        cursor = e + close.len();
                        assert(char_seqs(out@) + block_bodies(text@, open@, close@, cursor as int)
                            =~= acc + (seq![trim(text@.subrange(bs as int, e as int))]
                            + block_bodies(text@, open@, close@, cursor as int)));
                    },
                }
            },
        }
    }
    out
}

/// A JSON tool-call body.
fn json_call_exec(body: &str) -> (r: Option<(String, String)>)
    ensures
        call_view(r) == json_call(body@),
{
    match member(body, "name") {
        Some(JsonField::Str(name)) => {
            let args = match member(body, "arguments") {
                Some(f) => Some(f),
                None => member(body, "parameters"),
            };
            let a = match args {
                Some(JsonField::Str(s)) => s,
                Some(JsonField::Other(t)) => t,
                None => owned("{}"),
            };
            Some((name, a))
        },
        _ => None,
    }
}

/// The `<parameter=K>V</parameter>` entries of an XML function body.
fn xml_params_exec(fb: &[char]) -> (r: Vec<(String, String)>)
    ensures
        entry_views(r@) == xml_params(fb@, 0),
{
    let pat_open = str_chars("<parameter=");
    let pat_gt = str_chars(">");
    let pat_close = str_chars("</parameter>");
    proof {
        reveal_strlit("</parameter>");
        reveal_strlit("<parameter=");
        reveal_strlit(">");
    }
    let mut out: Vec<(String, String)> = Vec::new();
    let mut cursor: usize = 0;
    assert(entry_views(out@) + xml_params(fb@, 0) =~= xml_params(fb@, 0));
    loop
        invariant_except_break
            cursor <= fb.len(),
            pat_open@ == "<parameter="@,
            pat_gt@ == ">"@,
            pat_close@ == "</parameter>"@,
            pat_close@.len() == 12,
            pat_gt@.len() == 1,
            entry_views(out@) + xml_params(fb@, cursor as int) == xml_params(fb@, 0),
        ensures
            entry_views(out@) == xml_params(fb@, 0),
        decreases fb.len() - cursor,
    {
        let ghost acc = entry_views(out@);
        match find_chars(fb, pat_open.as_slice(), cursor) {
            None => {
                assert(acc + Seq::<Call>::empty() =~= acc);
                break ;
            },
            Some(po) => {
                proof {
                    lemma_find_from(fb@, pat_open@, cursor as int);
                }
                let ks = po + pat_open.len();
                match find_chars(fb, pat_gt.as_slice(), ks) {
                    None => {
                        assert(acc + Seq::<Call>::empty() =~= acc);
                        break ;
                    },
                    Some(ke) => {
                        proof {
                            lemma_find_from(fb@, pat_gt@, ks as int);
                        }
                        assert(ke + 1 <= fb.len());
                        let vs = ke + 1;
                        match find_chars(fb, pat_close.as_slice(), vs) {
                            None => {
                                assert(acc + Seq::<Call>::empty() =~= acc);
                                break ;
                            },
                            Some(ve) => {
                                proof {
                                    lemma_find_from(fb@, pat_close@, vs as int);
                                }
                                let kslice = slice_chars(fb, ks, ke);
                                let key = trim_chars(kslice.as_slice());
                                let vslice = slice_chars(fb, vs, ve);
                                let raw = trim_chars(vslice.as_slice());
                                let ghost entry = if key@.len() > 0 {
                                    seq![(key@, json_or_string(raw@))]
                                } else {
                                    Seq::<Call>::empty()
                                };
                                if key.len() > 0 {
                                    let rs = string_from_chars(raw.as_slice());
                                    let v = value_or_string(rs.as_str());
                                    out.push((string_from_chars(key.as_slice()), v));
                                }
                                assert(entry_views(out@) =~= acc + entry);
                                assert(ve + 12 <= fb.len());
                                cursor = ve + pat_close.len();
                                assert(entry_views(out@) + xml_params(fb@, cursor as int) =~= acc + (
                                entry + xml_params(fb@, cursor as int)));
                            },
                        }
                    },
                }
            },
        }
    }
    out
}

/// The XML/Hermes form of a tool-call body.
fn xml_call_exec(body: &[char]) -> (r: Option<(String, String)>)
    ensures
        call_view(r) == xml_call(body@),
{
    let fopen = str_chars("<function=");
    let gt = str_chars(">");
    let fclose = str_chars("</function>");
    match find_chars(body, fopen.as_slice(), 0) {
        None => None,
        Some(fo) => {
            proof {
                lemma_find_from(body@, fopen@, 0);
            }
            assert(occurs_at(body@, fopen@, fo as int));
            assert(fo + fopen@.len() <= body@.len());
            assert(fopen.len() == fopen@.len());
            assert(body@.len() == body.len());
            let ns = fo + fopen.len();
            match find_chars(body, gt.as_slice(), ns) {
                None => None,
                Some(ne) => {
                    proof {
                        reveal_strlit(">");
                        lemma_find_from(body@, gt@, ns as int);
                    }
                    let nslice = slice_chars(body, ns, ne);
                    let name = trim_chars(nslice.as_slice());
                    if name.len() == 0 {
                        return None;
                    }
                    assert(occurs_at(body@, gt@, ne as int));
                    assert(ne + 1 <= body.len());
                    let after = skip_chars(body, ne + 1);
                    let fc = match find_chars(after.as_slice(), fclose.as_slice(), 0) {
                        Some(i) => {
                            proof {
                                lemma_find_from(after@, fclose@, 0);
                            }
                            i
                        },
                        None => after.len(),
                    };
                    let fb = take_chars(after.as_slice(), fc);
                    let params = xml_params_exec(fb.as_slice());
                    Some((string_from_chars(name.as_slice()), object(params.as_slice())))
                },
            }
        },
    }
}

/// A `<tool_call>` body: JSON first, then the XML/Hermes form.
fn qwen_call_exec(body: &[char]) -> (r: Option<(String, String)>)
    ensures
        call_view(r) == qwen_call(body@),
{
    let text = string_from_chars(body);
    match json_call_exec(text.as_str()) {
        Some(c) => Some(c),
        None => xml_call_exec(body),
    }
}

/// `s` split at top-level commas, Gemma style.
fn gemma_split_exec(s: &[char]) -> (r: Vec<Vec<char>>)
    ensures
        char_seqs(r@) == gemma_split_from(s@, 0, 0, false),
{
    let marker = str_chars(GEMMA_STR_MARKER);
    proof {
        reveal_strlit("<|\"|>");
    }
    let mut out: Vec<Vec<char>> = Vec::new();
    let mut in_str = false;
    let mut start: usize = 0;
    let mut i: usize = 0;
    assert(char_seqs(out@) + gemma_split_from(s@, 0, 0, false) =~= gemma_split_from(
        s@,
        0,
        0,
        false,
    ));
    while i < s.len()
        invariant
            i <= s.len(),
            start <= i,
            marker@ == GEMMA_STR_MARKER@,
            marker@.len() == 5,
            s@.len() == s.len(),
            char_seqs(out@) + gemma_split_from(s@, i as int, start as int, in_str)
                == gemma_split_from(s@, 0, 0, false),
        decreases s.len() - i,
    {
        let ghost acc = char_seqs(out@);
        if crate::text::matches_at(s, marker.as_slice(), i) {
            assert(i + 5 <= s.len());
            in_str = !in_str;
            i = i + marker.len();
        } else if !in_str && s[i] == ',' {
            let piece = slice_chars(s, start, i);
            let ghost pv = s@.subrange(start as int, i as int);
            out.push(piece);
            assert(char_seqs(out@) =~= acc.push(pv));
            i = i + 1;
            start = i;
            assert(char_seqs(out@) + gemma_split_from(s@, i as int, start as int, in_str) =~= acc
                + (seq![pv] + gemma_split_from(s@, i as int, start as int, in_str)));
        } else {
            i = i + 1;
        }
    }
    let ghost acc = char_seqs(out@);
    if start < s.len() {
        out.push(slice_chars(s, start, s.len()));
        assert(char_seqs(out@) =~= acc.push(s@.subrange(start as int, s.len() as int)));
    } else {
        assert(acc + Seq::<Seq<char>>::empty() =~= acc);
    }
    out
}

/// The value text of a Gemma argument.
fn gemma_value_exec(raw: &[char]) -> (r: String)
    ensures
        r@ == gemma_value(raw@),
{
    let m = str_chars(GEMMA_STR_MARKER);
    if crate::text::has_prefix(raw, m.as_slice()) {
        let rest = skip_chars(raw, m.len());
        if has_suffix(rest.as_slice(), m.as_slice()) {
            let inner = take_chars(rest.as_slice(), rest.len() - m.len());
            assert(inner@ =~= raw@.subrange(m@.len() as int, raw@.len() - m@.len()));
            let t = string_from_chars(inner.as_slice());
            return quoted(t.as_str());
        }
    }
    let t = string_from_chars(raw);
    value_or_string(t.as_str())
}

/// The `KEY:VALUE` entries of Gemma argument pieces.
fn gemma_entries_exec(pieces: &Vec<Vec<char>>) -> (r: Vec<(String, String)>)
    ensures
        entry_views(r@) == gemma_entries(char_seqs(pieces@)),
{
    let ghost pv = char_seqs(pieces@);
    let colon = str_chars(":");
    proof {
        reveal_strlit(":");
    }
    let mut out: Vec<(String, String)> = Vec::new();
    for i in 0..pieces.len()
        invariant
            pv == char_seqs(pieces@),
            colon@ == ":"@,
            colon@.len() == 1,
            entry_views(out@) == gemma_entries(pv.take(i as int)),
    {
        assert(pv.take(i + 1).drop_last() == pv.take(i as int));
        assert(pv.take(i + 1).last() == pieces@[i as int]@);
        let ghost acc = entry_views(out@);
        let p = trim_chars(pieces[i].as_slice());
        match find_chars(p.as_slice(), colon.as_slice(), 0) {
            None => {},
            Some(c) => {
                proof {
                    lemma_find_from(p@, colon@, 0);
                }
                assert(c + 1 <= p.len());
                let kslice = take_chars(p.as_slice(), c);
                let key = trim_chars(kslice.as_slice());
                if p.len() > 0 && key.len() > 0 {
                    let vslice = skip_chars(p.as_slice(), c + 1);
                    let raw = trim_chars(vslice.as_slice());
                    let v = gemma_value_exec(raw.as_slice());
                    out.push((string_from_chars(key.as_slice()), v));
                    assert(entry_views(out@) =~= acc.push((key@, gemma_value(raw@))));
                }
            },
        }
    }
    assert(pv.take(pieces.len() as int) == pv);
    out
}

/// A Gemma tool-call body `call:NAME{K:V, …}`.
fn gemma_call_exec(body: &[char]) -> (r: Option<(String, String)>)
    ensures
        call_view(r) == gemma_call(body@),
{
    let t = trim_chars(body);
    let pre = str_chars("call:");
    let s = if crate::text::has_prefix(t.as_slice(), pre.as_slice()) {
        skip_chars(t.as_slice(), pre.len())
    } else {
        t
    };
    assert(s@ == without_call_prefix(trim(body@)));
    let lb = str_chars("{");
    match find_chars(s.as_slice(), lb.as_slice(), 0) {
        None => None,
        Some(bo) => {
            proof {
                lemma_find_from(s@, lb@, 0);
            }
            match rfind_char_exec(s.as_slice(), '}') {
                None => None,
                Some(bc) => {
                    proof {
                        lemma_rfind_char(s@, '}');
                    }
                    if bc <= bo {
                        return None;
                    }
                    let nslice = take_chars(s.as_slice(), bo);
                    let name = trim_chars(nslice.as_slice());
                    if name.len() == 0 {
                        return None;
                    }
                    let inner = slice_chars(s.as_slice(), bo + 1, bc);
                    let pieces = gemma_split_exec(inner.as_slice());
                    let entries = gemma_entries_exec(&pieces);
                    Some((string_from_chars(name.as_slice()), object(entries.as_slice())))
                },
            }
        },
    }
}

/// `s` split at its top-level commas, Python style.
fn comma_split_exec(s: &[char]) -> (r: Vec<Vec<char>>)
    ensures
        char_seqs(r@) == top_level_pieces(s@),
{
    let mut out: Vec<Vec<char>> = Vec::new();
    let mut depth: i128 = 0;
    let mut quote: Option<char> = None;
    let mut start: usize = 0;
    let mut i: usize = 0;
    assert(char_seqs(out@) + top_level_pieces(s@) =~= top_level_pieces(s@));
    while i < s.len()
        invariant
            i <= s.len(),
            start <= i,
            start <= s.len(),
            s@.len() == s.len(),
            -(i as int) <= depth <= i,
            char_seqs(out@) + comma_split_from(s@, i as int, depth as int, quote, start as int)
                == top_level_pieces(s@),
        decreases s.len() + 1 - i,
    {
        let ghost acc = char_seqs(out@);
        let ch = s[i];
        match quote {
            Some(q) => {
                if ch == '\\' {
                    if i + 1 < s.len() {
                        i = i + 2;
                    } else {
                        assert(comma_split_from(s@, i + 2, depth as int, quote, start as int)
                            == comma_split_from(s@, s.len() as int, depth as int, quote, start as int));
                        i = s.len();
                    }
                } else if ch == q {
                    quote = None;
                    i = i + 1;
                } else {
                    i = i + 1;
                }
            },
            None => {
                if ch == '"' || ch == '\'' {
                    quote = Some(ch);
                    i = i + 1;
                } else if ch == '(' || ch == '[' || ch == '{' {
                    depth = depth + 1;
                    i = i + 1;
                } else if ch == ')' || ch == ']' || ch == '}' {
                    depth = depth - 1;
                    i = i + 1;
                } else if ch == ',' && depth == 0 {
                    let piece = slice_chars(s, start, i);
                    let ghost pv = s@.subrange(start as int, i as int);
                    out.push(piece);
                    assert(char_seqs(out@) =~= acc.push(pv));
                    i = i + 1;
                    start = i;
                    assert(char_seqs(out@) + comma_split_from(
                        s@,
                        i as int,
                        depth as int,
                        quote,
                        start as int,
                    ) =~= acc + (seq![pv] + comma_split_from(
                        s@,
                        i as int,
                        depth as int,
                        quote,
                        start as int,
                    )));
                } else {
                    i = i + 1;
                }
            },
        }
    }
    let ghost acc = char_seqs(out@);
    if start < s.len() {
        out.push(slice_chars(s, start, s.len()));
        assert(char_seqs(out@) =~= acc.push(s@.subrange(start as int, s.len() as int)));
    } else {
        assert(acc + Seq::<Seq<char>>::empty() =~= acc);
    }
    out
}

/// The JSON text of a Python literal.
fn python_literal_exec(s0: &[char]) -> (r: String)
    ensures
        r@ == python_literal(s0@),
{
    let s = trim_chars(s0);
    let n = s.len();
    if n >= 2 && ((s[0] == '"' && s[n - 1] == '"') || (s[0] == '\'' && s[n - 1] == '\'')) {
        let inner = slice_chars(s.as_slice(), 1, n - 1);
        let t = string_from_chars(inner.as_slice());
        return quoted(t.as_str());
    }
    let st = string_from_chars(s.as_slice());
    if crate::text::str_eq(st.as_str(), "True") || crate::text::str_eq(st.as_str(), "true") {
        owned("true")
    } else if crate::text::str_eq(st.as_str(), "False") || crate::text::str_eq(st.as_str(), "false") {
        owned("false")
    } else if crate::text::str_eq(st.as_str(), "None") || crate::text::str_eq(st.as_str(), "null") {
        owned("null")
    } else {
        value_or_string(st.as_str())
    }
}

/// The `key=value` entries of keyword-argument pieces.
fn python_entries_exec(pieces: &Vec<Vec<char>>) -> (r: Vec<(String, String)>)
    ensures
        entry_views(r@) == python_entries(char_seqs(pieces@)),
{
    let ghost pv = char_seqs(pieces@);
    let eq = str_chars("=");
    proof {
        reveal_strlit("=");
    }
    let mut out: Vec<(String, String)> = Vec::new();
    for i in 0..pieces.len()
        invariant
            pv == char_seqs(pieces@),
            eq@ == "="@,
            eq@.len() == 1,
            entry_views(out@) == python_entries(pv.take(i as int)),
    {
        assert(pv.take(i + 1).drop_last() == pv.take(i as int));
        assert(pv.take(i + 1).last() == pieces@[i as int]@);
        let ghost acc = entry_views(out@);
        let p = trim_chars(pieces[i].as_slice());
        match find_chars(p.as_slice(), eq.as_slice(), 0) {
            None => {},
            Some(e) => {
                proof {
                    lemma_find_from(p@, eq@, 0);
                }
                assert(e + 1 <= p.len());
                let kslice = take_chars(p.as_slice(), e);
                let key = trim_chars(kslice.as_slice());
                if p.len() > 0 && key.len() > 0 {
                    let vslice = skip_chars(p.as_slice(), e + 1);
                    let raw = trim_chars(vslice.as_slice());
                    let v = python_literal_exec(raw.as_slice());
                    out.push((string_from_chars(key.as_slice()), v));
                    assert(entry_views(out@) =~= acc.push((key@, python_literal(raw@))));
                }
            },
        }
    }
    assert(pv.take(pieces.len() as int) == pv);
    out
}

/// A Python-style call.
fn python_call_exec(body: &[char]) -> (r: Option<(String, String)>)
    ensures
        call_view(r) == python_call(body@),
{
    let t = trim_chars(body);
    let pre = str_chars("print(");
    let rp = str_chars(")");
    proof {
        reveal_strlit(")");
    }
    let s = if crate::text::has_prefix(t.as_slice(), pre.as_slice()) {
        let st = skip_chars(t.as_slice(), pre.len());
        if has_suffix(st.as_slice(), rp.as_slice()) && st.len() > 0 {
            let inner = take_chars(st.as_slice(), st.len() - 1);
            trim_chars(inner.as_slice())
        } else {
            return None;
        }
    } else {
        t
    };
    assert(unwrap_print(trim(body@)) == Some(s@));
    let lp = str_chars("(");
    match find_chars(s.as_slice(), lp.as_slice(), 0) {
        None => None,
        Some(p) => {
            proof {
                reveal_strlit("(");
                lemma_find_from(s@, lp@, 0);
            }
            assert(p + 1 <= s.len());
            let fslice = take_chars(s.as_slice(), p);
            let full = trim_chars(fslice.as_slice());
            let name = match rfind_char_exec(full.as_slice(), '.') {
                Some(d) => {
                    proof {
                        lemma_rfind_char(full@, '.');
                    }
                    skip_chars(full.as_slice(), d + 1)
                },
                None => full,
            };
            let after = skip_chars(s.as_slice(), p + 1);
            if name.len() == 0 || !(has_suffix(after.as_slice(), rp.as_slice()) && after.len() > 0) {
                return None;
            }
            let aslice = take_chars(after.as_slice(), after.len() - 1);
            let args = trim_chars(aslice.as_slice());
            let pieces = comma_split_exec(args.as_slice());
            let entries = python_entries_exec(&pieces);
            Some((string_from_chars(name.as_slice()), object(entries.as_slice())))
        },
    }
}

/// The calls of Python-style call pieces.
fn python_calls_exec(pieces: &Vec<Vec<char>>) -> (r: Vec<(String, String)>)
    ensures
        entry_views(r@) == python_calls(char_seqs(pieces@)),
{
    let ghost pv = char_seqs(pieces@);
    let mut out: Vec<(String, String)> = Vec::new();
    for i in 0..pieces.len()
        invariant
            pv == char_seqs(pieces@),
            entry_views(out@) == python_calls(pv.take(i as int)),
    {
        assert(pv.take(i + 1).drop_last() == pv.take(i as int));
        assert(pv.take(i + 1).last() == pieces@[i as int]@);
        let ghost acc = entry_views(out@);
        let c = trim_chars(pieces[i].as_slice());
        if c.len() > 0 {
            match python_call_exec(c.as_slice()) {
                Some(x) => {
                    out.push(x);
                    assert(entry_views(out@) =~= acc.push((x.0@, x.1@)));
                },
                None => {},
            }
        }
    }
    assert(pv.take(pieces.len() as int) == pv);
    out
}

/// The calls of one LFM2 block body.
fn lfm2_block_calls_exec(body: &[char]) -> (r: Vec<(String, String)>)
    ensures
        entry_views(r@) == lfm2_block_calls(body@),
{
    let n = body.len();
    let inner = if n >= 2 && body[0] == '[' && body[n - 1] == ']' {
        slice_chars(body, 1, n - 1)
    } else {
        crate::text::skip_chars(body, 0)
    };
    assert(inner@ =~= unbracket(body@));
    let pieces = comma_split_exec(inner.as_slice());
    python_calls_exec(&pieces)
}

/// The views of language-and-body pairs.
pub open spec fn fence_views(v: Seq<(Vec<char>, Vec<char>)>) -> Seq<(Seq<char>, Seq<char>)> {
    v.map_values(|p: (Vec<char>, Vec<char>)| (p.0@, p.1@))
}

/// The fenced code blocks of `text`.
fn fences_exec(text: &[char]) -> (r: Vec<(Vec<char>, Vec<char>)>)
    ensures
        fence_views(r@) == fences_from(text@, 0),
{
    let tick = str_chars("```");
    let nl = str_chars("\n");
    proof {
        reveal_strlit("```");
        reveal_strlit("\n");
    }
    let mut out: Vec<(Vec<char>, Vec<char>)> = Vec::new();
    let mut i: usize = 0;
    assert(fence_views(out@) + fences_from(text@, 0) =~= fences_from(text@, 0));
    loop
        invariant_except_break
            i <= text.len(),
            text@.len() == text.len(),
            tick@ == "```"@,
            tick@.len() == 3,
            nl@ == "\n"@,
            fence_views(out@) + fences_from(text@, i as int) == fences_from(text@, 0),
        ensures
            fence_views(out@) == fences_from(text@, 0),
        decreases text.len() - i,
    {
        let ghost acc = fence_views(out@);
        match find_chars(text, tick.as_slice(), i) {
            None => {
                assert(acc + Seq::<(Seq<char>, Seq<char>)>::empty() =~= acc);
                break ;
            },
            Some(open) => {
                proof {
                    lemma_find_from(text@, tick@, i as int);
                }
                assert(open + 3 <= text.len());
                let ao = open + 3;
                let le = match find_chars(text, nl.as_slice(), ao) {
                    Some(n) => {
                        proof {
                            lemma_find_from(text@, nl@, ao as int);
                        }
                        n
                    },
                    None => text.len(),
                };
                if le >= text.len() || le + 1 >= text.len() {
                    assert(acc + Seq::<(Seq<char>, Seq<char>)>::empty() =~= acc);
                    break ;
                }
                let bs = le + 1;
                match find_chars(text, tick.as_slice(), bs) {
                    None => {
                        assert(acc + Seq::<(Seq<char>, Seq<char>)>::empty() =~= acc);
                        break ;
                    },
                    Some(be) => {
                        proof {
                            lemma_find_from(text@, tick@, bs as int);
                        }
                        assert(be + 3 <= text.len());
                        let lslice = slice_chars(text, ao, le);
                        let lang = trim_chars(lslice.as_slice());
                        let b = slice_chars(text, bs, be);
                        let ghost item = (lang@, b@);
                        out.push((lang, b));
                        assert(fence_views(out@) =~= acc.push(item));
                        i = be + 3;
                        assert(fence_views(out@) + fences_from(text@, i as int) =~= acc + (seq![item]
                            + fences_from(text@, i as int)));
                    },
                }
            },
        }
    }
    out
}

/// Whether a fence tag may hold a call.
fn call_fence_exec(lang: &[char]) -> (r: bool)
    ensures
        r == call_fence(lang@),
{
    let l = ascii_lower_exec(lang);
    let a = str_chars("tool_code");
    let b = str_chars("tool_call");
    let c = str_chars("python");
    let d = str_chars("json");
    crate::text::chars_eq(l.as_slice(), a.as_slice()) || crate::text::chars_eq(
        l.as_slice(),
        b.as_slice(),
    ) || crate::text::chars_eq(l.as_slice(), c.as_slice()) || crate::text::chars_eq(
        l.as_slice(),
        d.as_slice(),
    )
}

/// The calls of fenced blocks.
fn fence_calls_exec(fences: &Vec<(Vec<char>, Vec<char>)>) -> (r: Vec<(String, String)>)
    ensures
        entry_views(r@) == fence_calls(fence_views(fences@)),
{
    let ghost fv = fence_views(fences@);
    let mut out: Vec<(String, String)> = Vec::new();
    for i in 0..fences.len()
        invariant
            fv == fence_views(fences@),
            entry_views(out@) == fence_calls(fv.take(i as int)),
    {
        assert(fv.take(i + 1).drop_last() == fv.take(i as int));
        assert(fv.take(i + 1).last() == (fences@[i as int].0@, fences@[i as int].1@));
        let ghost acc = entry_views(out@);
        let (lang, body) = &fences[i];
        if call_fence_exec(lang.as_slice()) {
            let c = trim_chars(body.as_slice());
            let ct = string_from_chars(c.as_slice());
            let found = match json_call_exec(ct.as_str()) {
                Some(x) => Some(x),
                None => python_call_exec(c.as_slice()),
            };
            match found {
                Some(x) => {
                    out.push(x);
                    assert(entry_views(out@) =~= acc.push((x.0@, x.1@)));
                },
                None => {},
            }
        }
    }
    assert(fv.take(fences.len() as int) == fv);
    out
}

proof fn lemma_somes_push<A>(s: Seq<Option<A>>, o: Option<A>)
    ensures
        somes(s.push(o)) == match o {
            Some(a) => somes(s).push(a),
            None => somes(s),
        },
{
    assert(s.push(o).drop_last() == s);
}

/// The calls of the `<tool_call>` blocks.
fn qwen_calls_exec(cs: &[char]) -> (r: Vec<(String, String)>)
    ensures
        entry_views(r@) == somes(
            block_bodies(cs@, TOOL_OPEN@, TOOL_CLOSE@, 0).map_values(|b: Seq<char>| qwen_call(b)),
        ),
{
    let open = str_chars(TOOL_OPEN);
    let close = str_chars(TOOL_CLOSE);
    let bodies = block_bodies_exec(cs, open.as_slice(), close.as_slice());
    let ghost bv = char_seqs(bodies@);
    let mut out: Vec<(String, String)> = Vec::new();
    for i in 0..bodies.len()
        invariant
            bv == char_seqs(bodies@),
            entry_views(out@) == somes(bv.take(i as int).map_values(|b: Seq<char>| qwen_call(b))),
    {
        let ghost prev = bv.take(i as int).map_values(|b: Seq<char>| qwen_call(b));
        assert(bv.take(i + 1).map_values(|b: Seq<char>| qwen_call(b)) =~= prev.push(
            qwen_call(bodies@[i as int]@),
        ));
        proof {
            lemma_somes_push(prev, qwen_call(bodies@[i as int]@));
        }
        let ghost acc = entry_views(out@);
        match qwen_call_exec(bodies[i].as_slice()) {
            Some(x) => {
                out.push(x);
                assert(entry_views(out@) =~= acc.push((x.0@, x.1@)));
            },
            None => {},
        }
    }
    assert(bv.take(bodies.len() as int) == bv);
    out
}

/// The calls of the Gemma `<|tool_call>` blocks.
fn gemma_calls_exec(cs: &[char]) -> (r: Vec<(String, String)>)
    ensures
        entry_views(r@) == somes(
            block_bodies(cs@, GEMMA_TOOL_OPEN@, GEMMA_TOOL_CLOSE@, 0).map_values(
                |b: Seq<char>| gemma_call(b),
            ),
        ),
{
    let open = str_chars(GEMMA_TOOL_OPEN);
    let close = str_chars(GEMMA_TOOL_CLOSE);
    let bodies = block_bodies_exec(cs, open.as_slice(), close.as_slice());
    let ghost bv = char_seqs(bodies@);
    let mut out: Vec<(String, String)> = Vec::new();
    for i in 0..bodies.len()
        invariant
            bv == char_seqs(bodies@),
            entry_views(out@) == somes(bv.take(i as int).map_values(|b: Seq<char>| gemma_call(b))),
    {
        let ghost prev = bv.take(i as int).map_values(|b: Seq<char>| gemma_call(b));
        assert(bv.take(i + 1).map_values(|b: Seq<char>| gemma_call(b)) =~= prev.push(
            gemma_call(bodies@[i as int]@),
        ));
        proof {
            lemma_somes_push(prev, gemma_call(bodies@[i as int]@));
        }
        let ghost acc = entry_views(out@);
        match gemma_call_exec(bodies[i].as_slice()) {
            Some(x) => {
                out.push(x);
                assert(entry_views(out@) =~= acc.push((x.0@, x.1@)));
            },
            None => {},
        }
    }
    assert(bv.take(bodies.len() as int) == bv);
    out
}

/// The calls of the LFM2 `<|tool_call_start|>` blocks.
fn lfm2_calls_exec(cs: &[char]) -> (r: Vec<(String, String)>)
    ensures
        entry_views(r@) == flatten_calls(
            block_bodies(cs@, LFM2_TOOL_OPEN@, LFM2_TOOL_CLOSE@, 0).map_values(
                |b: Seq<char>| lfm2_block_calls(b),
            ),
        ),
{
    let open = str_chars(LFM2_TOOL_OPEN);
    let close = str_chars(LFM2_TOOL_CLOSE);
    let bodies = block_bodies_exec(cs, open.as_slice(), close.as_slice());
    let ghost bv = char_seqs(bodies@);
    let mut out: Vec<(String, String)> = Vec::new();
    for i in 0..bodies.len()
        invariant
            bv == char_seqs(bodies@),
            entry_views(out@) == flatten_calls(
                bv.take(i as int).map_values(|b: Seq<char>| lfm2_block_calls(b)),
            ),
    {
        let ghost prev = bv.take(i as int).map_values(|b: Seq<char>| lfm2_block_calls(b));
        let ghost next = bv.take(i + 1).map_values(|b: Seq<char>| lfm2_block_calls(b));
        assert(next =~= prev.push(lfm2_block_calls(bodies@[i as int]@)));
        assert(next.drop_last() == prev);
        let ghost acc = entry_views(out@);
        let mut more = lfm2_block_calls_exec(bodies[i].as_slice());
        let ghost mv = entry_views(more@);
        out.append(&mut more);
        assert(entry_views(out@) =~= acc + mv);
    }
    assert(bv.take(bodies.len() as int) == bv);
    out
}

/// The tool calls of a finished model turn's text, with ids `call_0`,
/// `call_1`, … by position. Malformed blocks are skipped.
pub fn extract_tool_calls(text: &str) -> (r: Vec<ToolCallSpec>)
    ensures
        r@.map_values(|t: ToolCallSpec| t@) == tool_calls_of(text@),
{
    let cs = str_chars(text);
    let mut calls = qwen_calls_exec(cs.as_slice());
    let ghost a = entry_views(calls@);
    let mut g = gemma_calls_exec(cs.as_slice());
    let ghost b = entry_views(g@);
    calls.append(&mut g);
    assert(entry_views(calls@) =~= a + b);
    let mut l = lfm2_calls_exec(cs.as_slice());
    let ghost c = entry_views(l@);
    calls.append(&mut l);
    assert(entry_views(calls@) =~= a + b + c);
    let fences = fences_exec(cs.as_slice());
    let mut f = fence_calls_exec(&fences);
    let ghost d = entry_views(f@);
    calls.append(&mut f);
    assert(entry_views(calls@) =~= tool_call_pairs(text@));
    let ghost pairs = entry_views(calls@);
    let mut out: Vec<ToolCallSpec> = Vec::new();
    for k in 0..calls.len()
        invariant
            pairs == entry_views(calls@),
            out@.map_values(|t: ToolCallSpec| t@) == with_ids(pairs).take(k as int),
            calls.len() == pairs.len(),
    {
        let mut id = owned("call_");
        let n = decimal_string(k as u64);
        append_str(&mut id, n.as_str());
        let ghost before = out@.map_values(|t: ToolCallSpec| t@);
        let ghost item = ToolCallView {
            id: call_id(k as int),
            name: pairs[k as int].0,
            arguments: pairs[k as int].1,
        };
        let spec_item = ToolCallSpec {
            id,
            name: calls[k].0.clone(),
            arguments: calls[k].1.clone(),
        };
        assert(spec_item@ == item);
        out.push(spec_item);
        assert(out@.map_values(|t: ToolCallSpec| t@) =~= before.push(item));
        assert(out@.map_values(|t: ToolCallSpec| t@) =~= with_ids(pairs).take(k + 1));
    }
    assert(with_ids(pairs).take(calls.len() as int) =~= with_ids(pairs));
    out
}

/// Every tool call of a turn has its own id: ids never repeat within a turn.
pub proof fn law_call_ids_distinct(text: Seq<char>, i: int, j: int)
    requires
        0 <= i < tool_calls_of(text).len(),
        0 <= j < tool_calls_of(text).len(),
        i != j,
    ensures
        tool_calls_of(text)[i].id != tool_calls_of(text)[j].id,
{
    reveal_strlit("call_");
    if tool_calls_of(text)[i].id == tool_calls_of(text)[j].id {
        let k: int = "call_"@.len() as int;
        assert(call_id(i).skip(k) =~= decimal(i as nat));
        assert(call_id(j).skip(k) =~= decimal(j as nat));
        crate::text::lemma_decimal_injective(i as nat, j as nat);
    }
}

} // verus!
