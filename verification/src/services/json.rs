//! JSON text, through serde_json: the few calls the tool-call parsers make.
//! A JSON value is carried as its compact text; what serde_json computes is
//! named here and not restated.
use vstd::prelude::*;

use crate::text::{append_str, join, join_strings, owned, views};

verus! {

/// A member of a JSON object: a string (its contents) or any other value
/// (its compact JSON text).
pub enum JsonField {
    Str(String),
    Other(String),
}

pub enum JsonFieldView {
    Str(Seq<char>),
    Other(Seq<char>),
}

impl View for JsonField {
    type V = JsonFieldView;

    open spec fn view(&self) -> JsonFieldView {
        match self {
            JsonField::Str(s) => JsonFieldView::Str(s@),
            JsonField::Other(t) => JsonFieldView::Other(t@),
        }
    }
}

/// The member `key` of the JSON object that `text` parses to (`None` when
/// `text` is not JSON, is not an object, or lacks the member).
pub uninterp spec fn json_member(text: Seq<char>, key: Seq<char>) -> Option<JsonFieldView>;

/// The compact JSON text of the value that `text` parses to (`None` when
/// `text` is not JSON).
pub uninterp spec fn json_reformat(text: Seq<char>) -> Option<Seq<char>>;

/// A lowercase hexadecimal digit.
pub open spec fn hex_digit(n: u32) -> char {
    if n < 10 {
        (n + 48) as char
    } else {
        (n + 87) as char
    }
}

/// How serde_json writes one character inside a string literal: `"` and
/// `\` behind a backslash, the short escapes `\b \t \n \f \r`, other
/// control characters below U+0020 as `\u00XX` (lowercase hex), anything
/// else as itself.
pub open spec fn json_escape(c: char) -> Seq<char> {
    let u = c as u32;
    if c == '"' {
        seq!['\\', '"']
    } else if c == '\\' {
        seq!['\\', '\\']
    } else if u == 0x8 {
        seq!['\\', 'b']
    } else if u == 0x9 {
        seq!['\\', 't']
    } else if u == 0xA {
        seq!['\\', 'n']
    } else if u == 0xC {
        seq!['\\', 'f']
    } else if u == 0xD {
        seq!['\\', 'r']
    } else if u < 0x20 {
        seq!['\\', 'u', '0', '0', hex_digit(u / 16), hex_digit(u % 16)]
    } else {
        seq![c]
    }
}

/// The characters of `s`, each escaped as in a JSON string literal.
pub open spec fn json_escaped(s: Seq<char>) -> Seq<char>
    decreases s.len(),
{
    if s.len() == 0 {
        Seq::empty()
    } else {
        json_escaped(s.drop_last()) + json_escape(s.last())
    }
}

/// The JSON string literal holding `s`.
pub open spec fn json_quoted(s: Seq<char>) -> Seq<char> {
    seq!['"'] + json_escaped(s) + seq!['"']
}

/// The compact JSON text of the object built by inserting, in order, each
/// key with the value whose JSON text is given.
pub uninterp spec fn json_object(entries: Seq<(Seq<char>, Seq<char>)>) -> Seq<char>;

/// The value of a hexadecimal digit (either case).
pub open spec fn hex_value(c: char) -> Option<int> {
    let u = c as u32;
    if 0x30 <= u <= 0x39 {
        Some(u - 0x30)
    } else if 0x61 <= u <= 0x66 {
        Some(u - 0x61 + 10)
    } else if 0x41 <= u <= 0x46 {
        Some(u - 0x41 + 10)
    } else {
        None
    }
}

/// The character that the escape at the start of `e` stands for, and the
/// escape's length: `\" \\ \/ \b \t \n \f \r` and `\u00XX`.
pub open spec fn unescape_one(e: Seq<char>) -> Option<(char, int)> {
    if e.len() < 2 || e[0] != '\\' {
        None
    } else {
        let c = e[1];
        if c == '"' {
            Some(('"', 2))
        } else if c == '\\' {
            Some(('\\', 2))
        } else if c == '/' {
            Some(('/', 2))
        } else if c == 'b' {
            Some(('\u{8}', 2))
        } else if c == 't' {
            Some(('\t', 2))
        } else if c == 'n' {
            Some(('\n', 2))
        } else if c == 'f' {
            Some(('\u{c}', 2))
        } else if c == 'r' {
            Some(('\r', 2))
        } else if c == 'u' && e.len() >= 6 && e[2] == '0' && e[3] == '0' && hex_value(e[4]) is Some
            && hex_value(e[5]) is Some {
            Some(((16 * hex_value(e[4])->0 + hex_value(e[5])->0) as char, 6))
        } else {
            None
        }
    }
}

/// The characters that the body of a JSON string literal (the text between
/// its quotes) stands for, or `None` when it is not a valid body: an
/// unescaped `"` or an unknown escape.
pub open spec fn json_unescape(e: Seq<char>) -> Option<Seq<char>>
    decreases e.len(),
{
    if e.len() == 0 {
        Some(Seq::empty())
    } else if e[0] == '\\' {
        match unescape_one(e) {
            Some((c, n)) => if 2 <= n <= e.len() {
                match json_unescape(e.skip(n)) {
                    Some(r) => Some(seq![c] + r),
                    None => None,
                }
            } else {
                None
            },
            None => None,
        }
    } else if e[0] == '"' {
        None
    } else {
        match json_unescape(e.drop_first()) {
            Some(r) => Some(seq![e[0]] + r),
            None => None,
        }
    }
}

/// The string a JSON text stands for when it is a string literal
/// (`None` for any other JSON value, such as `null`).
pub open spec fn json_string_value(text: Seq<char>) -> Option<Seq<char>> {
    if text.len() >= 2 && text[0] == '"' && text[text.len() - 1] == '"' {
        json_unescape(text.subrange(1, text.len() - 1))
    } else {
        None
    }
}

proof fn lemma_escaped_concat(a: Seq<char>, b: Seq<char>)
    ensures
        json_escaped(a + b) == json_escaped(a) + json_escaped(b),
    decreases b.len(),
{
    if b.len() == 0 {
        assert(a + b =~= a);
        assert(json_escaped(a) + json_escaped(b) =~= json_escaped(a));
    } else {
        assert((a + b).drop_last() =~= a + b.drop_last());
        assert((a + b).last() == b.last());
        lemma_escaped_concat(a, b.drop_last());
        assert(json_escaped(a) + json_escaped(b.drop_last()) + json_escape(b.last())
            =~= json_escaped(a) + (json_escaped(b.drop_last()) + json_escape(b.last())));
    }
}

proof fn lemma_unescape_one_char(c: char, rest: Seq<char>)
    ensures
        json_unescape(json_escape(c) + rest) == match json_unescape(rest) {
            Some(r) => Some(seq![c] + r),
            None => None::<Seq<char>>,
        },
{
    let e = json_escape(c) + rest;
    let u = c as u32;
    if c == '"' || c == '\\' || u == 0x8 || u == 0x9 || u == 0xA || u == 0xC || u == 0xD {
        assert(e[0] == '\\');
        assert(e.skip(2) =~= rest);
    } else if u < 0x20 {
        assert(e[0] == '\\');
        let h1 = u / 16;
        let h2 = u % 16;
        assert(hex_value(hex_digit(h1)) == Some(h1 as int));
        assert(hex_value(hex_digit(h2)) == Some(h2 as int));
        assert(e[4] == hex_digit(h1) && e[5] == hex_digit(h2));
        assert(16 * h1 + h2 == u);
        assert(((16 * h1 + h2) as int) as char == c);
        assert(e.skip(6) =~= rest);
    } else {
        assert(e[0] == c);
        assert(e.drop_first() =~= rest);
    }
}

proof fn lemma_unescape_escaped(s: Seq<char>)
    ensures
        json_unescape(json_escaped(s)) == Some(s),
    decreases s.len(),
{
    if s.len() > 0 {
        let rest = s.drop_first();
        assert(s =~= seq![s[0]] + rest);
        lemma_escaped_concat(seq![s[0]], rest);
        let x = seq![s[0]];
        let e0 = Seq::<char>::empty();
        assert(x.drop_last() =~= e0);
        assert(x.last() == s[0]);
        assert(json_escaped(e0) == e0);
        assert(json_escaped(x) == json_escaped(e0) + json_escape(s[0]));
        assert(json_escaped(x) =~= json_escape(s[0]));
        lemma_unescape_escaped(rest);
        lemma_unescape_one_char(s[0], json_escaped(rest));
        assert(seq![s[0]] + rest =~= s);
    }
}

/// A JSON string literal stands for the string it was written from: the
/// quoting loses nothing.
pub proof fn law_quoted_round_trip(s: Seq<char>)
    ensures
        json_string_value(json_quoted(s)) == Some(s),
{
    let q = json_quoted(s);
    assert(q.subrange(1, q.len() - 1) =~= json_escaped(s));
    lemma_unescape_escaped(s);
}

/// The characters of each key and value text.
pub open spec fn entry_views(entries: Seq<(String, String)>) -> Seq<(Seq<char>, Seq<char>)> {
    entries.map_values(|e: (String, String)| (e.0@, e.1@))
}

/// The optional member view.
pub open spec fn field_view(f: Option<JsonField>) -> Option<JsonFieldView> {
    match f {
        Some(x) => Some(x@),
        None => None,
    }
}

/// `serde_json::from_str::<Value>` then `Value::get(key)`: the member `key`
/// of the object `text` parses to, a string member by its contents and any
/// other by its compact text (`Value::to_string`); the result is named
/// [`json_member`].
#[verifier::external_body]
pub(crate) fn member(text: &str, key: &str) -> (r: Option<JsonField>)
    ensures
        field_view(r) == json_member(text@, key@),
{
    match serde_json::from_str::<serde_json::Value>(text) {
        Ok(v) => match v.get(key) {
            Some(serde_json::Value::String(s)) => Some(JsonField::Str(s.clone())),
            Some(other) => Some(JsonField::Other(other.to_string())),
            None => None,
        },
        Err(_) => None,
    }
}

/// The member `key` of the JSON object that `text` parses to, when it is an
/// integer that fits in `i64` (`None` otherwise).
pub uninterp spec fn json_member_i64(text: Seq<char>, key: Seq<char>) -> Option<i64>;

/// `serde_json::from_str::<Value>`, `Value::get(key)` and `Value::as_i64`: the
/// integer member `key` of the object `text` parses to, named
/// [`json_member_i64`].
#[verifier::external_body]
pub(crate) fn member_i64(text: &str, key: &str) -> (r: Option<i64>)
    ensures
        r == json_member_i64(text@, key@),
{
    match serde_json::from_str::<serde_json::Value>(text) {
        Ok(v) => v.get(key).and_then(|x| x.as_i64()),
        Err(_) => None,
    }
}

/// `serde_json::from_str::<Value>` then `Value::to_string`: the compact text
/// of the value `text` parses to, named [`json_reformat`]; `None` on a parse
/// error.
#[verifier::external_body]
pub(crate) fn reformat(text: &str) -> (r: Option<String>)
    ensures
        match r {
            Some(t) => json_reformat(text@) == Some(t@),
            None => json_reformat(text@) is None,
        },
{
    match serde_json::from_str::<serde_json::Value>(text) {
        Ok(v) => Some(v.to_string()),
        Err(_) => None,
    }
}

/// `Value::String(s).to_string()`: the JSON string literal holding `s`,
/// escaped as [`json_quoted`] states.
#[verifier::external_body]
pub(crate) fn quoted(s: &str) -> (r: String)
    ensures
        r@ == json_quoted(s@),
{
    serde_json::Value::String(s.to_string()).to_string()
}

/// `serde_json::Map::insert` for each entry (its value text parsed by
/// `serde_json::from_str`), then `Value::Object(..).to_string()`: the compact
/// text of the object, named [`json_object`].
#[verifier::external_body]
pub(crate) fn object(entries: &[(String, String)]) -> (r: String)
    ensures
        r@ == json_object(entry_views(entries@)),
{
    let mut map = serde_json::Map::new();
    for (k, v) in entries {
        map.insert(k.clone(), serde_json::from_str(v).unwrap_or(serde_json::Value::Null));
    }
    serde_json::Value::Object(map).to_string()
}

/// The message of the error `serde_json` reports when `text` is not JSON
/// (`None` when it is).
pub uninterp spec fn json_parse_error(text: Seq<char>) -> Option<Seq<char>>;

/// The compact texts of the elements of the JSON array `text` parses to
/// (`None` when it is not JSON or not an array).
pub uninterp spec fn json_array_items(text: Seq<char>) -> Option<Seq<Seq<char>>>;

/// The members of the JSON object `text` parses to, each key with the
/// compact text of its value, in the object's iteration order (`None` when
/// it is not JSON or not an object).
pub uninterp spec fn json_entries(text: Seq<char>) -> Option<Seq<(Seq<char>, Seq<char>)>>;

/// `serde_json::from_str::<Value>` and the `Display` of its error: the
/// error's message, named [`json_parse_error`]; `None` when `text` parses.
#[verifier::external_body]
pub(crate) fn parse_error(text: &str) -> (r: Option<String>)
    ensures
        match r {
            Some(m) => json_parse_error(text@) == Some(m@),
            None => json_parse_error(text@) is None,
        },
{
    match serde_json::from_str::<serde_json::Value>(text) {
        Ok(_) => None,
        Err(e) => Some(e.to_string()),
    }
}

/// `serde_json::from_str::<Value>`, then for an array each element's
/// `Value::to_string`: the elements' compact texts, named
/// [`json_array_items`].
#[verifier::external_body]
pub(crate) fn array_items(text: &str) -> (r: Option<Vec<String>>)
    ensures
        match r {
            Some(v) => json_array_items(text@) == Some(v@.map_values(|s: String| s@)),
            None => json_array_items(text@) is None,
        },
{
    match serde_json::from_str::<serde_json::Value>(text) {
        Ok(serde_json::Value::Array(items)) => Some(items.iter().map(|v| v.to_string()).collect()),
        _ => None,
    }
}

/// `serde_json::from_str::<Value>`, then for an object each member's key
/// and `Value::to_string`, in the map's order: named [`json_entries`].
#[verifier::external_body]
pub(crate) fn entries(text: &str) -> (r: Option<Vec<(String, String)>>)
    ensures
        match r {
            Some(v) => json_entries(text@) == Some(entry_views(v@)),
            None => json_entries(text@) is None,
        },
{
    match serde_json::from_str::<serde_json::Value>(text) {
        Ok(serde_json::Value::Object(map)) => {
            Some(map.iter().map(|(k, v)| (k.clone(), v.to_string())).collect())
        },
        _ => None,
    }
}

/// The JSON text of a value written `raw`: its compact text when `raw` is
/// JSON, else the string literal holding `raw`.
pub open spec fn json_or_string(raw: Seq<char>) -> Seq<char> {
    match json_reformat(raw) {
        Some(t) => t,
        None => json_quoted(raw),
    }
}

/// The JSON text of a value written `raw`: parsed as JSON when it is, else
/// taken as a string.
pub fn value_or_string(raw: &str) -> (r: String)
    ensures
        r@ == json_or_string(raw@),
{
    match reformat(raw) {
        Some(t) => t,
        None => quoted(raw),
    }
}


/// The JSON text of an array with the given element texts.
pub open spec fn json_array(items: Seq<Seq<char>>) -> Seq<char> {
    "["@ + join(items, ","@) + "]"@
}

/// The JSON array text with the given element texts.
pub fn array_of(items: &[String]) -> (r: String)
    ensures
        r@ == json_array(views(items@)),
{
    let mut r = owned("[");
    let body = join_strings(items, ",");
    append_str(&mut r, body.as_str());
    append_str(&mut r, "]");
    r
}

} // verus!
