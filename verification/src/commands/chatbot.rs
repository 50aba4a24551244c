//! The meeting assistant's chat turn: the system message, the conversation
//! as JSON messages, the tool-call loop's bookkeeping, and the
//! `search_meetings` tool's request and reply. The model runs and the
//! database search are performed by the caller.
use vstd::prelude::*;

use crate::errors::AppError;
use crate::services::database::{transcript_of, transcript_text, MeetingRow, SearchHit, SegmentRow};
use crate::services::json::{
    array_of, entry_views, json_array, json_string_value, law_quoted_round_trip, json_member, json_member_i64, json_object, json_quoted, member, member_i64,
    object, quoted, JsonField, JsonFieldView,
};
use crate::services::summarization::TurnOutcome;
use crate::services::tool_calls::{ToolCallSpec, ToolCallView};
use crate::text::{
    i64_text, int_text, append_str, decimal, decimal_string, find, find_chars, join, join_strings, lemma_find_from,
    owned, str_chars, str_eq, string_from_chars, views,
};

verus! {

/// The assistant's standing instructions.
pub const CHAT_SYSTEM_PROMPT: &'static str = "\
You are Tuck, an assistant embedded in a meeting-notes app. Help the user think \
about, recall, and act on their meetings.\n\
\n\
You have a search_meetings tool that performs full-text search across the \
user's past meeting transcripts and summaries. Use it whenever a question \
might benefit from content from prior meetings — by topic, name, decision, \
project, or any specific term. Prefer calling the tool over guessing.\n\
\n\
When the user is viewing a specific meeting, you'll receive its transcript below. \
Use it to ground answers about the current meeting. If the user asks something \
that spans multiple meetings or refers to past discussions, use search_meetings. \
Be concise. Use markdown (lists, headings) when it helps. Keep replies short \
unless the user asks for depth.";

/// The name of the search tool offered to the model.
pub const TOOL_NAME_SEARCH_MEETINGS: &'static str = "search_meetings";

/// How many model turns one chat message may take (each turn after the
/// first answers tool results).
pub const MAX_TOOL_ITERATIONS: usize = 3;

/// The tool definitions offered to the model, as compact JSON.
pub const TOOLS_JSON: &'static str = "[{\"function\":{\"description\":\"Full-text search across the user's past meeting transcripts and summaries. Call this when the user asks about specific topics, decisions, names, or anything that may have been discussed in a prior meeting.\",\"name\":\"search_meetings\",\"parameters\":{\"properties\":{\"limit\":{\"description\":\"Maximum number of hits to return. Default 8.\",\"maximum\":20,\"minimum\":1,\"type\":\"integer\"},\"query\":{\"description\":\"Natural-language search phrase. Words are AND'd together; the FTS index uses Porter stemming.\",\"type\":\"string\"}},\"required\":[\"query\"],\"type\":\"object\"}},\"type\":\"function\"}]";

/// The tools schema offered to the model, as JSON text.
pub fn tools_json() -> (r: String)
    ensures
        r@ == TOOLS_JSON@,
{
    owned(TOOLS_JSON)
}

/// A message of the conversation as the user interface keeps it.
pub struct ChatMessage {
    /// `user` or `assistant`.
    pub role: String,
    pub text: String,
}

// ---------------------------------------------------------------------------
// The conversation
// ---------------------------------------------------------------------------

/// The system message: the instructions, followed, when a meeting with a
/// non-empty transcript is open, by its title (`Untitled` when it has none)
/// and its transcript.
pub open spec fn system_content(meeting: Option<MeetingRow>, segments: Seq<SegmentRow>) -> Seq<
    char,
> {
    match meeting {
        None => CHAT_SYSTEM_PROMPT@,
        Some(m) => {
            let transcript = transcript_of(segments);
            if transcript.len() == 0 {
                CHAT_SYSTEM_PROMPT@
            } else {
                let title = match m.title {
                    Some(t) => t@,
                    None => "Untitled"@,
                };
                CHAT_SYSTEM_PROMPT@ + "\n\nActive meeting: "@ + title + "\n\nTranscript:\n"@
                    + transcript
            }
        },
    }
}

/// Builds the system message for a chat turn, with the open meeting's
/// transcript when there is one.
pub fn chat_system_content(meeting: Option<&MeetingRow>, segments: &[SegmentRow]) -> (r: String)
    ensures
        r@ == system_content(
            match meeting {
                Some(m) => Some(*m),
                None => None,
            },
            segments@,
        ),
{
    match meeting {
        None => owned(CHAT_SYSTEM_PROMPT),
        Some(m) => {
            let transcript = transcript_text(segments);
            if transcript.as_str().is_empty() {
                owned(CHAT_SYSTEM_PROMPT)
            } else {
                let mut r = owned(CHAT_SYSTEM_PROMPT);
                append_str(&mut r, "\n\nActive meeting: ");
                match &m.title {
                    Some(t) => append_str(&mut r, t.as_str()),
                    None => append_str(&mut r, "Untitled"),
                }
                append_str(&mut r, "\n\nTranscript:\n");
                append_str(&mut r, transcript.as_str());
                r
            }
        },
    }
}

/// The JSON text of a chat message with a role and text content.
pub open spec fn message_json(role: Seq<char>, content: Seq<char>) -> Seq<char> {
    json_object(seq![("role"@, json_quoted(role)), ("content"@, json_quoted(content))])
}

/// The conversation's messages as JSON texts: user and assistant messages,
/// in order; messages with any other role are left out.
pub open spec fn history_messages(history: Seq<ChatMessage>) -> Seq<Seq<char>>
    decreases history.len(),
{
    if history.len() == 0 {
        Seq::empty()
    } else {
        let prev = history_messages(history.drop_last());
        let m = history.last();
        if m.role@ == "user"@ || m.role@ == "assistant"@ {
            prev.push(message_json(m.role@, m.text@))
        } else {
            prev
        }
    }
}

fn message_text(role: &str, content: &str) -> (r: String)
    ensures
        r@ == message_json(role@, content@),
{
    let mut entries: Vec<(String, String)> = Vec::new();
    entries.push((owned("role"), quoted(role)));
    entries.push((owned("content"), quoted(content)));
    assert(entry_views(entries@) =~= seq![
        ("role"@, json_quoted(role@)),
        ("content"@, json_quoted(content@)),
    ]);
    object(entries.as_slice())
}

/// The opening messages of a chat turn: the system message, then the
/// conversation's user and assistant messages.
pub fn initial_messages(system_content: &str, history: &[ChatMessage]) -> (r: Vec<String>)
    ensures
        views(r@) == seq![message_json("system"@, system_content@)] + history_messages(
            history@,
        ),
{
    let mut out: Vec<String> = Vec::new();
    out.push(message_text("system", system_content));
    let ghost head = seq![message_json("system"@, system_content@)];
    assert(views(out@) =~= head + history_messages(history@.take(0)));
    for k in 0..history.len()
        invariant
            head == seq![message_json("system"@, system_content@)],
            views(out@) == head + history_messages(history@.take(k as int)),
    {
        let m = &history[k];
        assert(history@.take(k + 1).drop_last() =~= history@.take(k as int));
        assert(history@.take(k + 1).last() == *m);
        if str_eq(m.role.as_str(), "user") || str_eq(m.role.as_str(), "assistant") {
            let ghost before = views(out@);
            out.push(message_text(m.role.as_str(), m.text.as_str()));
            assert(views(out@) =~= before.push(message_json(m.role@, m.text@)));
        }
    }
    assert(history@.take(history.len() as int) =~= history@);
    out
}

/// The messages as one JSON array text, the form the model runner takes.
pub fn messages_json(messages: &[String]) -> (r: String)
    ensures
        r@ == json_array(views(messages@)),
{
    array_of(messages)
}

/// The JSON text of one recorded tool call, with its arguments kept as a
/// string.
pub open spec fn call_json(c: ToolCallView) -> Seq<char> {
    json_object(
        seq![
            ("id"@, json_quoted(c.id)),
            ("type"@, json_quoted("function"@)),
            (
                "function"@,
                json_object(
                    seq![("name"@, json_quoted(c.name)), ("arguments"@, json_quoted(c.arguments))],
                ),
            ),
        ],
    )
}

/// The assistant message that records a turn's tool calls: no content, and
/// the calls.
pub open spec fn tool_calls_message_json(calls: Seq<ToolCallView>) -> Seq<char> {
    json_object(
        seq![
            ("role"@, json_quoted("assistant"@)),
            ("content"@, "null"@),
            ("tool_calls"@, json_array(calls.map_values(|c: ToolCallView| call_json(c)))),
        ],
    )
}

fn call_text(c: &ToolCallSpec) -> (r: String)
    ensures
        r@ == call_json(c@),
{
    let mut f: Vec<(String, String)> = Vec::new();
    f.push((owned("name"), quoted(c.name.as_str())));
    f.push((owned("arguments"), quoted(c.arguments.as_str())));
    assert(entry_views(f@) =~= seq![
        ("name"@, json_quoted(c.name@)),
        ("arguments"@, json_quoted(c.arguments@)),
    ]);
    let fun = object(f.as_slice());
    let mut e: Vec<(String, String)> = Vec::new();
    e.push((owned("id"), quoted(c.id.as_str())));
    e.push((owned("type"), quoted("function")));
    e.push((owned("function"), fun));
    assert(entry_views(e@) =~= seq![
        ("id"@, json_quoted(c.id@)),
        ("type"@, json_quoted("function"@)),
        (
            "function"@,
            json_object(
                seq![("name"@, json_quoted(c.name@)), ("arguments"@, json_quoted(c.arguments@))],
            ),
        ),
    ]);
    object(e.as_slice())
}

/// The assistant message recording a turn's tool calls.
pub fn tool_calls_message(calls: &[ToolCallSpec]) -> (r: String)
    ensures
        r@ == tool_calls_message_json(calls@.map_values(|t: ToolCallSpec| t@)),
{
    let ghost cv = calls@.map_values(|t: ToolCallSpec| t@);
    let mut items: Vec<String> = Vec::new();
    for k in 0..calls.len()
        invariant
            cv == calls@.map_values(|t: ToolCallSpec| t@),
            views(items@) == cv.take(k as int).map_values(|c: ToolCallView| call_json(c)),
    {
        let ghost before = views(items@);
        items.push(call_text(&calls[k]));
        assert(views(items@) =~= before.push(call_json(cv[k as int])));
        assert(cv.take(k + 1).map_values(|c: ToolCallView| call_json(c)) =~= cv.take(
            k as int,
        ).map_values(|c: ToolCallView| call_json(c)).push(call_json(cv[k as int])));
    }
    assert(cv.take(calls.len() as int) =~= cv);
    let arr = messages_json(items.as_slice());
    let mut e: Vec<(String, String)> = Vec::new();
    e.push((owned("role"), quoted("assistant")));
    e.push((owned("content"), owned("null")));
    e.push((owned("tool_calls"), arr));
    assert(entry_views(e@) =~= seq![
        ("role"@, json_quoted("assistant"@)),
        ("content"@, "null"@),
        ("tool_calls"@, json_array(cv.map_values(|c: ToolCallView| call_json(c)))),
    ]);
    object(e.as_slice())
}

/// The message that answers one tool call with the tool's output.
pub open spec fn tool_result_json(call_id: Seq<char>, content: Seq<char>) -> Seq<char> {
    json_object(
        seq![
            ("role"@, json_quoted("tool"@)),
            ("tool_call_id"@, json_quoted(call_id)),
            ("content"@, json_quoted(content)),
        ],
    )
}

/// The message carrying a tool's output back to the model.
pub fn tool_result_message(call_id: &str, content: &str) -> (r: String)
    ensures
        r@ == tool_result_json(call_id@, content@),
{
    let mut e: Vec<(String, String)> = Vec::new();
    e.push((owned("role"), quoted("tool")));
    e.push((owned("tool_call_id"), quoted(call_id)));
    e.push((owned("content"), quoted(content)));
    assert(entry_views(e@) =~= seq![
        ("role"@, json_quoted("tool"@)),
        ("tool_call_id"@, json_quoted(call_id@)),
        ("content"@, json_quoted(content@)),
    ]);
    object(e.as_slice())
}

/// Whether the tool loop runs another model turn: at most
/// [`MAX_TOOL_ITERATIONS`] turns, and none after the first once the user has
/// stopped the chat.
pub fn should_run_turn(iteration: usize, interrupted: bool) -> (r: bool)
    ensures
        r == (iteration < MAX_TOOL_ITERATIONS && !(interrupted && iteration > 0)),
{
    iteration < MAX_TOOL_ITERATIONS && !(interrupted && iteration > 0)
}

/// What the tool loop does after a model turn.
pub enum TurnStep {
    /// The reply is complete (no tool calls, or the user stopped it, which
    /// leaves the partial reply in place).
    Complete,
    /// The turn failed; the chat reports the error.
    Fail(AppError),
    /// Run these tool calls, answer them, and take another turn.
    RunTools(Vec<ToolCallSpec>),
}

/// The tool loop's decision after a model turn.
pub fn after_turn(result: Result<TurnOutcome, AppError>) -> (r: TurnStep)
    ensures
        match result {
            Err(AppError::Interrupted) => r is Complete,
            Err(e) => r == TurnStep::Fail(e),
            Ok(o) => if o.tool_calls.len() == 0 {
                r is Complete
            } else {
                r == TurnStep::RunTools(o.tool_calls)
            },
        },
{
    match result {
        Err(AppError::Interrupted) => TurnStep::Complete,
        Err(e) => TurnStep::Fail(e),
        Ok(o) => {
            if o.tool_calls.len() == 0 {
                TurnStep::Complete
            } else {
                TurnStep::RunTools(o.tool_calls)
            }
        },
    }
}

// ---------------------------------------------------------------------------
// The search tool
// ---------------------------------------------------------------------------

/// What a tool call asks for.
pub enum ToolRequest {
    /// A meeting search for `query`, with at most `limit` hits.
    Search { query: String, limit: i64 },
    /// An unknown tool; `content` is the error reply for the model.
    Unknown { content: String },
}

/// The search phrase of a call's arguments: the string member `query`, else
/// empty.
pub open spec fn query_of(arguments: Seq<char>) -> Seq<char> {
    match json_member(arguments, "query"@) {
        Some(JsonFieldView::Str(s)) => s,
        _ => Seq::empty(),
    }
}

/// The hit limit of a call's arguments: the integer member `limit` (8 when
/// missing), clamped to 1..=20.
pub open spec fn limit_of(arguments: Seq<char>) -> i64 {
    let l = match json_member_i64(arguments, "limit"@) {
        Some(n) => n,
        None => 8,
    };
    if l < 1 {
        1
    } else if l > 20 {
        20
    } else {
        l
    }
}

/// The JSON text of an error reply to the model.
pub open spec fn error_json(message: Seq<char>) -> Seq<char> {
    json_object(seq![("error"@, json_quoted(message))])
}

/// The error reply for a tool call that failed or is unknown.
pub fn tool_error_content(message: &str) -> (r: String)
    ensures
        r@ == error_json(message@),
{
    let mut e: Vec<(String, String)> = Vec::new();
    e.push((owned("error"), quoted(message)));
    assert(entry_views(e@) =~= seq![("error"@, json_quoted(message@))]);
    object(e.as_slice())
}

/// Reads a tool call: `search_meetings` with its query and clamped limit,
/// or any other name as an unknown tool.
pub fn tool_request(call: &ToolCallSpec) -> (r: ToolRequest)
    ensures
        call.name@ == TOOL_NAME_SEARCH_MEETINGS@ ==> (r matches ToolRequest::Search { query, limit }
            && query@ == query_of(call.arguments@) && limit == limit_of(call.arguments@)),
        call.name@ != TOOL_NAME_SEARCH_MEETINGS@ ==> (r matches ToolRequest::Unknown { content }
            && content@ == error_json("Unknown tool: "@ + call.name@)),
{
    if str_eq(call.name.as_str(), TOOL_NAME_SEARCH_MEETINGS) {
        let query = match member(call.arguments.as_str(), "query") {
            Some(JsonField::Str(s)) => s,
            _ => String::new(),
        };
        let l = match member_i64(call.arguments.as_str(), "limit") {
            Some(n) => n,
            None => 8,
        };
        let limit = if l < 1 {
            1
        } else if l > 20 {
            20
        } else {
            l
        };
        ToolRequest::Search { query, limit }
    } else {
        let mut m = owned("Unknown tool: ");
        append_str(&mut m, call.name.as_str());
        ToolRequest::Unknown { content: tool_error_content(m.as_str()) }
    }
}

/// `s` with every occurrence of `pat` removed, scanning left to right
/// (`str::replace(pat, "")`).
pub open spec fn remove_all(s: Seq<char>, pat: Seq<char>) -> Seq<char>
    decreases s.len(),
{
    if pat.len() == 0 {
        s
    } else {
        match find(s, pat) {
            Some(i) => if 0 <= i && i + pat.len() <= s.len() {
                s.take(i) + remove_all(s.skip(i + pat.len()), pat)
            } else {
                s
            },
            None => s,
        }
    }
}

fn remove_all_chars(s: &[char], pat: &[char]) -> (r: Vec<char>)
    ensures
        r@ == remove_all(s@, pat@),
    decreases s.len(),
{
    if pat.len() == 0 {
        let mut r: Vec<char> = Vec::new();
        let mut k: usize = 0;
        while k < s.len()
            invariant
                k <= s.len(),
                r@ == s@.take(k as int),
            decreases s.len() - k,
        {
            r.push(s[k]);
            assert(r@ =~= s@.take(k + 1));
            k = k + 1;
        }
        assert(s@.take(s.len() as int) =~= s@);
        return r;
    }
    match find_chars(s, pat, 0) {
        None => {
            let mut r: Vec<char> = Vec::new();
            let mut k: usize = 0;
            while k < s.len()
                invariant
                    k <= s.len(),
                    r@ == s@.take(k as int),
                decreases s.len() - k,
            {
                r.push(s[k]);
                assert(r@ =~= s@.take(k + 1));
                k = k + 1;
            }
            assert(s@.take(s.len() as int) =~= s@);
            r
        },
        Some(i) => {
            proof {
                lemma_find_from(s@, pat@, 0);
            }
            let mut r: Vec<char> = Vec::new();
            let mut k: usize = 0;
            while k < i
                invariant
                    k <= i,
                    i + pat.len() <= s.len(),
                    r@ == s@.take(k as int),
                decreases i - k,
            {
                r.push(s[k]);
                assert(r@ =~= s@.take(k + 1));
                k = k + 1;
            }
            let mut rest: Vec<char> = Vec::new();
            let mut j: usize = i + pat.len();
            while j < s.len()
                invariant
                    i + pat.len() <= j <= s.len(),
                    rest@ == s@.subrange(i + pat.len(), j as int),
                decreases s.len() - j,
            {
                rest.push(s[j]);
                assert(rest@ =~= s@.subrange(i + pat.len(), j + 1));
                j = j + 1;
            }
            assert(rest@ =~= s@.skip(i + pat.len()));
            let tail = remove_all_chars(rest.as_slice(), pat);
            let mut out = r;
            let mut t: usize = 0;
            let ghost head = out@;
            while t < tail.len()
                invariant
                    t <= tail.len(),
                    out@ == head + tail@.take(t as int),
                decreases tail.len() - t,
            {
                out.push(tail[t]);
                assert(out@ =~= head + tail@.take(t + 1));
                t = t + 1;
            }
            assert(tail@.take(tail.len() as int) =~= tail@);
            out
        },
    }
}

/// A search snippet without its `<mark>` highlighting, which only the user
/// interface uses.
pub open spec fn unmarked(snippet: Seq<char>) -> Seq<char> {
    remove_all(remove_all(snippet, "<mark>"@), "</mark>"@)
}

/// Removes the `<mark>` and `</mark>` highlighting from a snippet.
pub fn strip_marks(snippet: &str) -> (r: String)
    ensures
        r@ == unmarked(snippet@),
{
    let s = str_chars(snippet);
    let open = str_chars("<mark>");
    let a = remove_all_chars(s.as_slice(), open.as_slice());
    let close = str_chars("</mark>");
    let b = remove_all_chars(a.as_slice(), close.as_slice());
    string_from_chars(b.as_slice())
}

/// The JSON text of one search hit as the model sees it.
pub open spec fn hit_json(h: SearchHit) -> Seq<char> {
    json_object(hit_members(h))
}

/// The members of one search hit as the model sees it, each with the JSON
/// text of its value.
pub open spec fn hit_members(h: SearchHit) -> Seq<(Seq<char>, Seq<char>)> {
    seq![
        ("meeting_id"@, json_quoted(h.meeting_id@)),
        (
            "meeting_title"@,
            match h.meeting_title {
                Some(t) => json_quoted(t@),
                None => "null"@,
            },
        ),
        ("meeting_created_at"@, int_text(h.meeting_created_at as int)),
        ("kind"@, json_quoted(h.kind@)),
        ("snippet"@, json_quoted(unmarked(h.snippet@))),
    ]
}

/// Each hit tells the model which meeting it came from: the hit's JSON
/// object has exactly one `meeting_title` member, a string literal holding
/// the title when the meeting has one and not a string (`null`) when it
/// has none; likewise its `meeting_id` member holds the meeting's id and
/// its `snippet` member the snippet without its highlighting.
pub proof fn law_hit_names_its_meeting(h: SearchHit)
    ensures
        hit_json(h) == json_object(hit_members(h)),
        forall|k: int|
            0 <= k < hit_members(h).len() && (#[trigger] hit_members(h)[k]).0 == "meeting_title"@
                ==> json_string_value(hit_members(h)[k].1) == match h.meeting_title {
                Some(t) => Some(t@),
                None => None::<Seq<char>>,
            },
        exists|k: int|
            0 <= k < hit_members(h).len() && (#[trigger] hit_members(h)[k]).0 == "meeting_title"@,
        forall|k: int|
            0 <= k < hit_members(h).len() && (#[trigger] hit_members(h)[k]).0 == "meeting_id"@
                ==> json_string_value(hit_members(h)[k].1) == Some(h.meeting_id@),
        forall|k: int|
            0 <= k < hit_members(h).len() && (#[trigger] hit_members(h)[k]).0 == "snippet"@
                ==> json_string_value(hit_members(h)[k].1) == Some(unmarked(h.snippet@)),
{
    reveal_strlit("meeting_id");
    reveal_strlit("meeting_title");
    reveal_strlit("meeting_created_at");
    reveal_strlit("kind");
    reveal_strlit("snippet");
    reveal_strlit("null");
    let m = hit_members(h);
    assert(m[1].0 == "meeting_title"@);
    law_quoted_round_trip(h.meeting_id@);
    law_quoted_round_trip(unmarked(h.snippet@));
    match h.meeting_title {
        Some(t) => {
            law_quoted_round_trip(t@);
        },
        None => {},
    }
    assert forall|k: int| 0 <= k < m.len() && (#[trigger] m[k]).0 == "meeting_title"@ implies k == 1 by {
        if k != 1 {
            assert(m[k].0.len() != "meeting_title"@.len() || m[k].0[0] != 'm' || m[k].0[8] != 't'
                || m[k].0[9] != 'i');
        }
    }
    assert forall|k: int| 0 <= k < m.len() && (#[trigger] m[k]).0 == "meeting_id"@ implies k == 0 by {
        if k != 0 {
            assert(m[k].0.len() != "meeting_id"@.len() || m[k].0[8] != 'i' || m[k].0[9] != 'd');
        }
    }
    assert forall|k: int| 0 <= k < m.len() && (#[trigger] m[k]).0 == "snippet"@ implies k == 4 by {
        if k != 4 {
            assert(m[k].0.len() != "snippet"@.len() || m[k].0[0] != 's');
        }
    }
}

/// The search tool's reply to the model: the query and the hits.
pub open spec fn search_reply_json(query: Seq<char>, hits: Seq<SearchHit>) -> Seq<char> {
    json_object(
        seq![
            ("query"@, json_quoted(query)),
            ("hits"@, json_array(hits.map_values(|h: SearchHit| hit_json(h)))),
        ],
    )
}

fn hit_text(h: &SearchHit) -> (r: String)
    ensures
        r@ == hit_json(*h),
{
    let title = match &h.meeting_title {
        Some(t) => quoted(t.as_str()),
        None => owned("null"),
    };
    let snippet = strip_marks(h.snippet.as_str());
    let mut e: Vec<(String, String)> = Vec::new();
    e.push((owned("meeting_id"), quoted(h.meeting_id.as_str())));
    e.push((owned("meeting_title"), title));
    e.push((owned("meeting_created_at"), i64_text(h.meeting_created_at)));
    e.push((owned("kind"), quoted(h.kind.as_str())));
    e.push((owned("snippet"), quoted(snippet.as_str())));
    assert(entry_views(e@) =~= hit_members(*h));
    object(e.as_slice())
}

/// The search tool's reply to the model for the hits found for `query`;
/// snippets lose their highlighting.
pub fn search_reply(query: &str, hits: &[SearchHit]) -> (r: String)
    ensures
        r@ == search_reply_json(query@, hits@),
{
    let mut items: Vec<String> = Vec::new();
    for k in 0..hits.len()
        invariant
            views(items@) == hits@.take(k as int).map_values(|h: SearchHit| hit_json(h)),
    {
        let ghost before = views(items@);
        items.push(hit_text(&hits[k]));
        assert(views(items@) =~= before.push(hit_json(hits@[k as int])));
        assert(hits@.take(k + 1).map_values(|h: SearchHit| hit_json(h)) =~= hits@.take(
            k as int,
        ).map_values(|h: SearchHit| hit_json(h)).push(hit_json(hits@[k as int])));
    }
    assert(hits@.take(hits.len() as int) =~= hits@);
    let arr = messages_json(items.as_slice());
    let mut e: Vec<(String, String)> = Vec::new();
    e.push((owned("query"), quoted(query)));
    e.push((owned("hits"), arr));
    assert(entry_views(e@) =~= seq![
        ("query"@, json_quoted(query@)),
        ("hits"@, json_array(hits@.map_values(|h: SearchHit| hit_json(h)))),
    ]);
    object(e.as_slice())
}

/// The reply for a tool call whose search failed: the error's displayed
/// form.
pub fn failed_tool_content(e: &AppError) -> (r: String)
    ensures
        r@ == error_json(e.label() + e.detail()),
{
    let m = e.message();
    tool_error_content(m.as_str())
}

} // verus!
