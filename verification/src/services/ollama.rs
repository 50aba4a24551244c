//! The decisions of the client for a user-managed local Ollama server
//! (`/api/chat`): server address normalisation, context sizing, the retry
//! ladder for servers that reject `think` or `tools`, the per-chunk handling
//! of the streamed reply, and the tool calls a finished turn yields.
//!
//! The HTTP exchange itself is performed by the caller, which hands each
//! response status and each parsed stream chunk to these functions.
use vstd::prelude::*;
use vstd::string::StringSliceAdditionalSpecFns;

use crate::errors::AppError;
use crate::services::chat_messages::{normalize_messages, normalized};
use crate::services::json::{
    array_of, entry_views, json_array, json_member, json_object, json_parse_error, json_quoted, member,
    object, parse_error, quoted, JsonField, JsonFieldView,
};
use crate::services::summarization::{
    call_events, content_events, drain_spec, event_views, tool_call_events, InferenceEvent, InferenceEventView, StreamFilter,
    TurnOutcome,
};
use crate::services::tool_calls::{
    call_id, extract_tool_calls, tool_calls_of, ToolCallSpec, ToolCallView,
};
use crate::text::{
    decimal, i64_text, int_text, views, append_str, contains, decimal_string, lowercase, owned, str_chars, str_contains,
    string_from_chars, to_lowercase, trim, trim_chars, trim_str,
};

verus! {

/// Where a local Ollama server listens by default.
pub const DEFAULT_BASE_URL: &'static str = "http://localhost:11434";

/// `keep_alive` for passes made while recording: long enough that a quiet
/// stretch does not unload the model, bounded so the model is released
/// after the recording.
pub const KEEP_ALIVE_RECORDING: &'static str = "30m";

/// The `num_ctx` values requests are rounded up to. Changing `num_ctx` makes
/// the server reload the model, so only a few coarse sizes are used.
pub const CTX_BUCKET_SMALL: u32 = 16384;

pub const CTX_BUCKET_MEDIUM: u32 = 32768;

pub const CTX_BUCKET_LARGE: u32 = 65536;

// ---------------------------------------------------------------------------
// Server address
// ---------------------------------------------------------------------------

/// `s` without its trailing run of `c` (`str::trim_end_matches` with a char).
pub open spec fn strip_trailing(s: Seq<char>, c: char) -> Seq<char>
    decreases s.len(),
{
    if s.len() > 0 && s.last() == c {
        strip_trailing(s.drop_last(), c)
    } else {
        s
    }
}

/// A server address as typed, without surrounding whitespace and trailing
/// slashes.
pub open spec fn normalized_url(raw: Seq<char>) -> Seq<char> {
    strip_trailing(trim(raw), '/')
}

/// `v` without its trailing run of `c`.
pub fn strip_trailing_chars(v: &[char], c: char) -> (r: Vec<char>)
    ensures
        r@ == strip_trailing(v@, c),
{
    let mut i = v.len();
    assert(v@.take(i as int) == v@);
    while i > 0 && v[i - 1] == c
        invariant
            i <= v.len(),
            strip_trailing(v@, c) == strip_trailing(v@.take(i as int), c),
        decreases i,
    {
        assert(v@.take(i as int).drop_last() == v@.take(i - 1));
        i = i - 1;
    }
    let mut r: Vec<char> = Vec::new();
    let mut k: usize = 0;
    while k < i
        invariant
            k <= i <= v.len(),
            r@ == v@.take(k as int),
        decreases i - k,
    {
        r.push(v[k]);
        assert(r@ =~= v@.take(k + 1));
        k = k + 1;
    }
    r
}

/// The server address without surrounding whitespace and trailing slashes.
pub fn normalize_base_url(base_url: &str) -> (r: String)
    ensures
        r@ == normalized_url(base_url@),
{
    let v = str_chars(base_url);
    let t = trim_chars(v.as_slice());
    let s = strip_trailing_chars(t.as_slice(), '/');
    string_from_chars(s.as_slice())
}

/// The message for a server that could not be reached.
pub open spec fn unreachable_message(base: Seq<char>) -> Seq<char> {
    "Can't reach Ollama at "@ + base
        + ". Start Ollama, or switch the summarization engine in Settings."@
}

/// The error reported when nothing answers at `base_url`.
pub fn unreachable_error(base_url: &str) -> (e: AppError)
    ensures
        e matches AppError::OllamaUnavailable(m) && m@ == unreachable_message(base_url@),
{
    let mut m = owned("Can't reach Ollama at ");
    append_str(&mut m, base_url);
    append_str(&mut m, ". Start Ollama, or switch the summarization engine in Settings.");
    AppError::OllamaUnavailable(m)
}

// ---------------------------------------------------------------------------
// Context sizing
// ---------------------------------------------------------------------------

/// Tokens estimated for `bytes` bytes of prose: one per three and a half
/// bytes, rounded up, at most `u32::MAX`.
pub open spec fn token_estimate(bytes: nat) -> int {
    let e: int = (2 * bytes + 6) as int / 7;
    if e > u32::MAX {
        u32::MAX as int
    } else {
        e
    }
}

/// A slightly generous token count for `text`: its UTF-8 length divided by
/// three and a half, rounded up.
pub fn estimate_tokens(text: &str) -> (r: u32)
    ensures
        r == token_estimate(text.len() as nat),
{
    let n = text.len() as u128;
    let e = (2 * n + 6) / 7;
    if e > u32::MAX as u128 {
        u32::MAX
    } else {
        e as u32
    }
}

/// The context a request needs: the estimated prompt with an eighth of
/// slack, the generation budget and a fixed margin.
pub open spec fn ctx_needed(est_prompt_tokens: u32, max_tokens: i32) -> int {
    est_prompt_tokens + est_prompt_tokens / 8 + (if max_tokens > 0 {
        max_tokens as int
    } else {
        0
    }) + 256
}

/// The smallest bucket that holds `needed`, or the largest bucket.
pub open spec fn ctx_bucket(needed: int) -> u32 {
    if needed <= CTX_BUCKET_SMALL {
        CTX_BUCKET_SMALL
    } else if needed <= CTX_BUCKET_MEDIUM {
        CTX_BUCKET_MEDIUM
    } else {
        CTX_BUCKET_LARGE
    }
}

/// The `num_ctx` bucket for a request whose prompt is estimated at
/// `est_prompt_tokens` and that may generate `max_tokens`.
pub fn compute_num_ctx(est_prompt_tokens: u32, max_tokens: i32) -> (r: u32)
    requires
        ctx_needed(est_prompt_tokens, max_tokens) <= u32::MAX,
    ensures
        r == ctx_bucket(ctx_needed(est_prompt_tokens, max_tokens)),
{
    let budget: u32 = if max_tokens > 0 {
        max_tokens as u32
    } else {
        0
    };
    let needed = est_prompt_tokens + est_prompt_tokens / 8 + budget + 256;
    if needed <= CTX_BUCKET_SMALL {
        CTX_BUCKET_SMALL
    } else if needed <= CTX_BUCKET_MEDIUM {
        CTX_BUCKET_MEDIUM
    } else {
        CTX_BUCKET_LARGE
    }
}

// ---------------------------------------------------------------------------
// Rejected requests
// ---------------------------------------------------------------------------

/// What to do after the server refused a chat request.
pub enum AttemptAction {
    /// Send the request again with these fields.
    Retry { include_think: bool, include_tools: bool },
    /// Give up with this error.
    Fail(AppError),
}

/// The message for a model the server does not have.
pub open spec fn missing_model_message(model: Seq<char>, err: Seq<char>) -> Seq<char> {
    "Ollama can't find model \""@ + model + "\" — pick another model in Settings. ("@ + err
        + ")"@
}

/// The message for any other refusal.
pub open spec fn refusal_message(status: Seq<char>, err: Seq<char>) -> Seq<char> {
    "Ollama error ("@ + status + "): "@ + err
}

/// Whether a 400 naming `think` is answered by dropping the `think` field.
pub open spec fn drops_think(code: u16, err: Seq<char>, include_think: bool) -> bool {
    code == 400 && include_think && contains(lowercase(err), "think"@)
}

/// Whether a 400 naming tools is answered by dropping the `tools` field.
pub open spec fn drops_tools(code: u16, err: Seq<char>, include_think: bool, include_tools: bool) -> bool {
    code == 400 && !drops_think(code, err, include_think) && include_tools && contains(
        lowercase(err),
        "tool"@,
    )
}

/// The retry ladder: a 404 means the model is missing; a 400 that names
/// `think` (or, failing that, tools) is retried without that field, once
/// each; anything else fails with the status and the server's message.
/// `status_text` is the status as displayed (code and reason).
pub fn after_rejection(
    code: u16,
    status_text: &str,
    err_msg: &str,
    model: &str,
    include_think: bool,
    include_tools: bool,
) -> (r: AttemptAction)
    ensures
        code == 404 ==> (r matches AttemptAction::Fail(AppError::InvalidModel(m)) && m@
            == missing_model_message(model@, err_msg@)),
        drops_think(code, err_msg@, include_think) ==> r == (AttemptAction::Retry {
            include_think: false,
            include_tools,
        }),
        drops_tools(code, err_msg@, include_think, include_tools) ==> r == (AttemptAction::Retry {
            include_think,
            include_tools: false,
        }),
        code != 404 && !drops_think(code, err_msg@, include_think) && !drops_tools(
            code,
            err_msg@,
            include_think,
            include_tools,
        ) ==> (r matches AttemptAction::Fail(AppError::SummarizationFailed(m)) && m@
            == refusal_message(status_text@, err_msg@)),
{
    if code == 404 {
        let mut m = owned("Ollama can't find model \"");
        append_str(&mut m, model);
        append_str(&mut m, "\" — pick another model in Settings. (");
        append_str(&mut m, err_msg);
        append_str(&mut m, ")");
        return AttemptAction::Fail(AppError::InvalidModel(m));
    }
    if code == 400 {
        let lower = to_lowercase(err_msg);
        if include_think && str_contains(lower.as_str(), "think") {
            return AttemptAction::Retry { include_think: false, include_tools };
        }
        if include_tools && str_contains(lower.as_str(), "tool") {
            return AttemptAction::Retry { include_think, include_tools: false };
        }
    }
    let mut m = owned("Ollama error (");
    append_str(&mut m, status_text);
    append_str(&mut m, "): ");
    append_str(&mut m, err_msg);
    AttemptAction::Fail(AppError::SummarizationFailed(m))
}

/// The message of an error response: the string member `error` of its JSON
/// body, else the body without surrounding whitespace.
pub open spec fn error_body_message(text: Seq<char>) -> Seq<char> {
    match json_member(text, "error"@) {
        Some(JsonFieldView::Str(s)) => s,
        _ => trim(text),
    }
}

/// Extracts the server's `{"error": "..."}` message, falling back to the
/// raw body.
pub fn parse_error_body(text: &str) -> (r: String)
    ensures
        r@ == error_body_message(text@),
{
    match member(text, "error") {
        Some(JsonField::Str(s)) => s,
        _ => trim_str(text),
    }
}

// ---------------------------------------------------------------------------
// The streamed reply
// ---------------------------------------------------------------------------

/// A structured tool call in a stream chunk: the function's name and its
/// arguments as compact JSON text (`None` when they were JSON `null`).
pub struct ChunkToolCall {
    pub name: String,
    pub arguments: Option<String>,
}

/// The message part of a stream chunk.
pub struct ChunkMessage {
    pub content: Option<String>,
    pub thinking: Option<String>,
    pub tool_calls: Vec<ChunkToolCall>,
}

/// One line of the streamed reply, as parsed.
pub struct ChatChunk {
    pub message: Option<ChunkMessage>,
    pub done: bool,
    pub done_reason: Option<String>,
    pub prompt_eval_count: Option<u32>,
    pub eval_count: Option<u32>,
    pub error: Option<String>,
}

/// A piece of streamed model output.
pub enum Delta {
    Content(String),
    Thinking(String),
}

pub enum DeltaView {
    Content(Seq<char>),
    Thinking(Seq<char>),
}

impl View for Delta {
    type V = DeltaView;

    open spec fn view(&self) -> DeltaView {
        match self {
            Delta::Content(t) => DeltaView::Content(t@),
            Delta::Thinking(t) => DeltaView::Thinking(t@),
        }
    }
}

pub open spec fn delta_views(v: Seq<Delta>) -> Seq<DeltaView> {
    v.map_values(|d: Delta| d@)
}

/// What a streamed reply has produced so far.
pub struct StreamOutcome {
    /// The assistant content, unfiltered.
    pub content: String,
    pub structured_tool_calls: Vec<ToolCallSpec>,
    pub prompt_eval_count: u32,
    pub eval_count: u32,
    pub num_ctx: u32,
    pub done_reason: Option<String>,
}

/// The text of a non-empty optional string, as a one-element sequence.
pub open spec fn nonempty(o: Option<String>) -> Seq<Seq<char>> {
    match o {
        Some(s) => if s@.len() > 0 {
            seq![s@]
        } else {
            Seq::empty()
        },
        None => Seq::empty(),
    }
}

/// The arguments text of a structured call: `{}` for JSON `null`.
pub open spec fn arguments_text(a: Option<String>) -> Seq<char> {
    match a {
        Some(t) => t@,
        None => "{}"@,
    }
}

/// The structured calls of a chunk, numbered on from `first`.
pub open spec fn numbered_calls(calls: Seq<ChunkToolCall>, first: int) -> Seq<ToolCallView> {
    Seq::new(
        calls.len(),
        |k: int|
            ToolCallView {
                id: call_id(first + k),
                name: calls[k].name@,
                arguments: arguments_text(calls[k].arguments),
            },
    )
}

/// The deltas a chunk message yields: its thinking, then its content, each
/// when not empty.
pub open spec fn message_deltas(m: ChunkMessage) -> Seq<DeltaView> {
    nonempty(m.thinking).map_values(|t: Seq<char>| DeltaView::Thinking(t)) + nonempty(
        m.content,
    ).map_values(|t: Seq<char>| DeltaView::Content(t))
}

pub open spec fn tool_views(v: Seq<ToolCallSpec>) -> Seq<ToolCallView> {
    v.map_values(|t: ToolCallSpec| t@)
}

fn push_nonempty(out: &mut Vec<Delta>, o: &Option<String>, thinking: bool) -> (added: bool)
    ensures
        delta_views(final(out)@) == delta_views(old(out)@) + (if thinking {
            nonempty(*o).map_values(|t: Seq<char>| DeltaView::Thinking(t))
        } else {
            nonempty(*o).map_values(|t: Seq<char>| DeltaView::Content(t))
        }),
        added == (nonempty(*o).len() > 0),
{
    let ghost before = delta_views(out@);
    match o {
        Some(s) => {
            if s.as_str().is_empty() {
                assert(delta_views(out@) =~= before + Seq::<DeltaView>::empty());
                false
            } else {
                if thinking {
                    out.push(Delta::Thinking(s.clone()));
                } else {
                    out.push(Delta::Content(s.clone()));
                }
                assert(delta_views(out@) =~= before + (if thinking {
                    nonempty(*o).map_values(|t: Seq<char>| DeltaView::Thinking(t))
                } else {
                    nonempty(*o).map_values(|t: Seq<char>| DeltaView::Content(t))
                }));
                true
            }
        },
        None => {
            assert(delta_views(out@) =~= before + Seq::<DeltaView>::empty());
            false
        },
    }
}

impl StreamOutcome {
    /// An empty reply for a request made with `num_ctx`.
    pub fn new(num_ctx: u32) -> (r: StreamOutcome)
        ensures
            r.content@ == Seq::<char>::empty(),
            r.structured_tool_calls@.len() == 0,
            r.prompt_eval_count == 0,
            r.eval_count == 0,
            r.num_ctx == num_ctx,
            r.done_reason is None,
    {
        StreamOutcome {
            content: String::new(),
            structured_tool_calls: Vec::new(),
            prompt_eval_count: 0,
            eval_count: 0,
            num_ctx,
            done_reason: None,
        }
    }

    /// Takes in one parsed line of the stream. An `error` line fails the
    /// turn. Otherwise the message's thinking and content are returned as
    /// deltas (the content is also accumulated), its tool calls are recorded
    /// with ids numbered on from those already recorded, and a final line
    /// records the token counts; the boolean says whether the stream is done.
    pub fn apply_chunk(&mut self, chunk: ChatChunk) -> (r: Result<(Vec<Delta>, bool), AppError>)
        requires
            old(self).structured_tool_calls@.len() + match chunk.message {
                Some(m) => m.tool_calls@.len(),
                None => 0,
            } <= u64::MAX,
        ensures
            match chunk.error {
                Some(err) => {
                    &&& r matches Err(AppError::SummarizationFailed(m)) && m@ == "Ollama error: "@
                        + err@
                    &&& *final(self) == *old(self)
                },
                None => {
                    let calls = match chunk.message {
                        Some(m) => m.tool_calls@,
                        None => Seq::empty(),
                    };
                    &&& r is Ok
                    &&& delta_views(r->Ok_0.0@) == match chunk.message {
                        Some(m) => message_deltas(m),
                        None => Seq::empty(),
                    }
                    &&& r->Ok_0.1 == chunk.done
                    &&& final(self).content@ == old(self).content@ + match chunk.message {
                        Some(m) => match m.content {
                            Some(c) => c@,
                            None => Seq::empty(),
                        },
                        None => Seq::empty(),
                    }
                    &&& tool_views(final(self).structured_tool_calls@) == tool_views(
                        old(self).structured_tool_calls@,
                    ) + numbered_calls(calls, old(self).structured_tool_calls@.len() as int)
                    &&& final(self).num_ctx == old(self).num_ctx
                    &&& if chunk.done {
                        &&& final(self).prompt_eval_count == match chunk.prompt_eval_count {
                            Some(n) => n,
                            None => 0u32,
                        }
                        &&& final(self).eval_count == match chunk.eval_count {
                            Some(n) => n,
                            None => 0u32,
                        }
                        &&& final(self).done_reason == chunk.done_reason
                    } else {
                        &&& final(self).prompt_eval_count == old(self).prompt_eval_count
                        &&& final(self).eval_count == old(self).eval_count
                        &&& final(self).done_reason == old(self).done_reason
                    }
                },
            },
    {
        if let Some(err) = chunk.error {
            let mut m = owned("Ollama error: ");
            append_str(&mut m, err.as_str());
            return Err(AppError::SummarizationFailed(m));
        }
        let mut deltas: Vec<Delta> = Vec::new();
        if let Some(message) = chunk.message {
            push_nonempty(&mut deltas, &message.thinking, true);
            let ghost d1 = delta_views(deltas@);
            let added = push_nonempty(&mut deltas, &message.content, false);
            assert(delta_views(deltas@) == message_deltas(message));
            if let Some(c) = &message.content {
                append_str(&mut self.content, c.as_str());
            }
            let calls = message.tool_calls;
            let ghost first = self.structured_tool_calls@.len() as int;
            let ghost before = tool_views(self.structured_tool_calls@);
            let ghost snap_content = self.content@;
            let ghost snap_counts = (self.prompt_eval_count, self.eval_count, self.num_ctx);
            let ghost snap_reason = self.done_reason;
            let mut k: usize = 0;
            while k < calls.len()
                invariant
                    k <= calls.len(),
                    first + calls.len() <= u64::MAX,
                    self.structured_tool_calls@.len() == first + k,
                    self.content@ == snap_content,
                    (self.prompt_eval_count, self.eval_count, self.num_ctx) == snap_counts,
                    self.done_reason == snap_reason,
                    tool_views(self.structured_tool_calls@) == before + numbered_calls(
                        calls@,
                        first,
                    ).take(k as int),
                decreases calls.len() - k,
            {
                let n = self.structured_tool_calls.len() as u64;
                let mut id = owned("call_");
                let digits = decimal_string(n);
                append_str(&mut id, digits.as_str());
                let arguments = match &calls[k].arguments {
                    Some(t) => t.clone(),
                    None => owned("{}"),
                };
                let tc = ToolCallSpec { id, name: calls[k].name.clone(), arguments };
                assert(tc@ == numbered_calls(calls@, first)[k as int]);
                let ghost prev = tool_views(self.structured_tool_calls@);
                self.structured_tool_calls.push(tc);
                assert(tool_views(self.structured_tool_calls@) =~= prev.push(tc@));
                assert(numbered_calls(calls@, first).take(k + 1) =~= numbered_calls(
                    calls@,
                    first,
                ).take(k as int).push(tc@));
                k = k + 1;
            }
            assert(numbered_calls(calls@, first).take(calls.len() as int) =~= numbered_calls(
                calls@,
                first,
            ));
        } else {
            assert(tool_views(self.structured_tool_calls@) =~= tool_views(
                self.structured_tool_calls@,
            ) + numbered_calls(Seq::empty(), self.structured_tool_calls@.len() as int));
        }
        if chunk.done {
            self.prompt_eval_count = match chunk.prompt_eval_count {
                Some(n) => n,
                None => 0,
            };
            self.eval_count = match chunk.eval_count {
                Some(n) => n,
                None => 0,
            };
            self.done_reason = chunk.done_reason;
        }
        Ok((deltas, chunk.done))
    }
}

/// Whether a byte is ASCII whitespace (`u8::is_ascii_whitespace`).
pub open spec fn ascii_space(b: u8) -> bool {
    b == 9 || b == 10 || b == 12 || b == 13 || b == 32
}

/// Whether a stream line holds nothing but ASCII whitespace (such lines are
/// skipped).
pub fn is_blank_line(line: &[u8]) -> (r: bool)
    ensures
        r == forall|i: int| 0 <= i < line@.len() ==> ascii_space(#[trigger] line@[i]),
{
    let mut i: usize = 0;
    while i < line.len()
        invariant
            i <= line.len(),
            forall|j: int| 0 <= j < i ==> ascii_space(#[trigger] line@[j]),
        decreases line.len() - i,
    {
        let b = line[i];
        if !(b == 9 || b == 10 || b == 12 || b == 13 || b == 32) {
            return false;
        }
        i = i + 1;
    }
    true
}

/// Takes the first complete line (without its `\n`) off the front of the
/// stream buffer; `None`, leaving the buffer as it is, when no line is
/// complete yet.
pub fn take_line(buf: &mut Vec<u8>) -> (r: Option<Vec<u8>>)
    ensures
        match r {
            Some(line) => {
                let pos = line@.len() as int;
                &&& pos < old(buf)@.len()
                &&& old(buf)@[pos] == 10u8
                &&& line@ == old(buf)@.take(pos)
                &&& forall|j: int| 0 <= j < pos ==> old(buf)@[j] != 10u8
                &&& final(buf)@ == old(buf)@.skip(pos + 1)
            },
            None => {
                &&& forall|j: int| 0 <= j < old(buf)@.len() ==> old(buf)@[j] != 10u8
                &&& final(buf)@ == old(buf)@
            },
        },
{
    let mut pos: usize = 0;
    while pos < buf.len() && buf[pos] != 10
        invariant
            pos <= buf.len(),
            forall|j: int| 0 <= j < pos ==> buf@[j] != 10u8,
        decreases buf.len() - pos,
    {
        pos = pos + 1;
    }
    if pos == buf.len() {
        return None;
    }
    let mut line: Vec<u8> = Vec::new();
    let mut rest: Vec<u8> = Vec::new();
    let mut k: usize = 0;
    while k < buf.len()
        invariant
            pos < buf.len(),
            k <= buf.len(),
            k <= pos ==> line@ == buf@.take(k as int) && rest@.len() == 0,
            k > pos ==> line@ == buf@.take(pos as int) && rest@ == buf@.subrange(
                pos + 1,
                k as int,
            ),
        decreases buf.len() - k,
    {
        if k < pos {
            line.push(buf[k]);
            assert(line@ =~= buf@.take(k + 1));
        } else if k > pos {
            rest.push(buf[k]);
            assert(rest@ =~= buf@.subrange(pos + 1, k + 1));
        } else {
            assert(rest@ =~= buf@.subrange(pos + 1, k + 1));
        }
        k = k + 1;
    }
    assert(rest@ =~= buf@.skip(pos + 1));
    *buf = rest;
    Some(line)
}

/// The events a streamed delta produces: content goes through the stream
/// filter, thinking is passed on as thinking text.
pub fn route_delta(filter: &mut StreamFilter, delta: Delta) -> (r: Vec<InferenceEvent>)
    ensures
        match delta {
            Delta::Content(t) => {
                let d = drain_spec(old(filter).state, old(filter).buf@ + t@, false);
                &&& event_views(r@) == content_events(d.0)
                &&& final(filter).state == d.1
                &&& final(filter).buf@ == d.2
            },
            Delta::Thinking(t) => {
                &&& *final(filter) == *old(filter)
                &&& event_views(r@) == seq![
                    InferenceEventView::ContentToken { text: t@, is_thinking: true },
                ]
            },
        },
{
    match delta {
        Delta::Content(t) => filter.push(t.as_str()),
        Delta::Thinking(t) => {
            let mut v: Vec<InferenceEvent> = Vec::new();
            v.push(InferenceEvent::ContentToken { text: t, is_thinking: true });
            assert(event_views(v@) =~= seq![
                InferenceEventView::ContentToken { text: t@, is_thinking: true },
            ]);
            v
        },
    }
}

/// The tool calls of a finished reply: the structured ones when there are
/// any, else those written inline in its content.
pub open spec fn reply_calls(outcome: StreamOutcome) -> Seq<ToolCallView> {
    if outcome.structured_tool_calls@.len() == 0 {
        tool_calls_of(outcome.content@)
    } else {
        tool_views(outcome.structured_tool_calls@)
    }
}

/// Completes a tool-aware chat turn from the finished reply: its tool calls,
/// the events announcing them, and the token counts.
pub fn finish_reply(outcome: StreamOutcome) -> (r: (TurnOutcome, Vec<InferenceEvent>))
    ensures
        tool_views(r.0.tool_calls@) == reply_calls(outcome),
        event_views(r.1@) == call_events(reply_calls(outcome)),
        r.0.prompt_tokens == outcome.prompt_eval_count,
        r.0.completion_tokens == outcome.eval_count,
        r.0.max_tokens == outcome.num_ctx,
{
    let calls = if outcome.structured_tool_calls.len() == 0 {
        extract_tool_calls(outcome.content.as_str())
    } else {
        outcome.structured_tool_calls
    };
    let events = tool_call_events(calls.as_slice());
    (
        TurnOutcome {
            tool_calls: calls,
            prompt_tokens: outcome.prompt_eval_count,
            completion_tokens: outcome.eval_count,
            max_tokens: outcome.num_ctx,
        },
        events,
    )
}

// ---------------------------------------------------------------------------
// Server status and installed models
// ---------------------------------------------------------------------------

/// Whether a server answered, and its version when it said.
pub struct OllamaStatus {
    pub reachable: bool,
    pub version: Option<String>,
}

/// An installed model as the settings screen lists it.
pub struct OllamaModelInfo {
    pub name: String,
    pub size_bytes: u64,
    pub parameter_size: Option<String>,
    pub quantization: Option<String>,
    pub family: Option<String>,
}

/// The details the server reports for an installed model.
pub struct TagDetails {
    pub parameter_size: Option<String>,
    pub quantization_level: Option<String>,
    pub family: Option<String>,
}

/// An installed model as the server lists it.
pub struct TagModel {
    pub name: String,
    pub size: u64,
    pub details: Option<TagDetails>,
}

/// The listing entry for an installed model; missing details are left
/// empty.
pub open spec fn model_info_of(t: TagModel) -> OllamaModelInfo {
    match t.details {
        Some(d) => OllamaModelInfo {
            name: t.name,
            size_bytes: t.size,
            parameter_size: d.parameter_size,
            quantization: d.quantization_level,
            family: d.family,
        },
        None => OllamaModelInfo {
            name: t.name,
            size_bytes: t.size,
            parameter_size: None,
            quantization: None,
            family: None,
        },
    }
}

/// The listing of installed models, in the server's order.
pub fn model_infos(tags: Vec<TagModel>) -> (r: Vec<OllamaModelInfo>)
    ensures
        r@ == tags@.map_values(|t: TagModel| model_info_of(t)),
{
    let ghost input = tags@;
    let mut rest = tags;
    let mut out: Vec<OllamaModelInfo> = Vec::new();
    let mut k: usize = 0;
    let n = rest.len();
    while rest.len() > 0
        invariant
            n == input.len(),
            k + rest.len() == n,
            rest@ == input.skip(k as int),
            out@ == input.take(k as int).map_values(|t: TagModel| model_info_of(t)),
        decreases rest.len(),
    {
        let ghost rv = rest@;
        let t = rest.remove(0);
        assert(rest@ =~= input.skip(k + 1));
        assert(t == input[k as int]);
        let info = match t.details {
            Some(d) => OllamaModelInfo {
                name: t.name,
                size_bytes: t.size,
                parameter_size: d.parameter_size,
                quantization: d.quantization_level,
                family: d.family,
            },
            None => OllamaModelInfo {
                name: t.name,
                size_bytes: t.size,
                parameter_size: None,
                quantization: None,
                family: None,
            },
        };
        out.push(info);
        assert(input.take(k + 1).map_values(|t: TagModel| model_info_of(t)) =~= input.take(
            k as int,
        ).map_values(|t: TagModel| model_info_of(t)).push(model_info_of(input[k as int])));
        k = k + 1;
    }
    assert(input.take(k as int) =~= input);
    out
}

/// Options of a plain-text generation pass.
pub struct TextOptions {
    pub max_tokens: i32,
    /// Extra stop sequences.
    pub stop: Option<Vec<String>>,
    /// How long the server keeps the model loaded afterwards (`None`: its
    /// default).
    pub keep_alive: Option<String>,
}

/// One `/api/chat` request: where it goes, the model, the OpenAI-shaped
/// messages (JSON text), the tools schema (JSON text) and the generation
/// limits.
pub struct ChatRequestParams {
    pub base_url: String,
    pub model: String,
    pub messages_json: String,
    pub tools_json: Option<String>,
    pub max_tokens: i32,
    pub stop: Option<Vec<String>>,
    pub keep_alive: Option<String>,
}

/// The `options` members: the context size, the token budget, greedy
/// sampling, and the stop sequences when there are any.
pub open spec fn options_entries(num_ctx: u32, max_tokens: i32, stop: Option<Vec<String>>) -> Seq<
    (Seq<char>, Seq<char>),
> {
    let base = seq![
        ("num_ctx"@, decimal(num_ctx as nat)),
        ("num_predict"@, int_text(max_tokens as int)),
        ("temperature"@, "0.0"@),
    ];
    match stop {
        Some(v) => if v.len() > 0 {
            base.push(("stop"@, json_array(views(v@).map_values(|x: Seq<char>| json_quoted(x)))))
        } else {
            base
        },
        None => base,
    }
}

/// The request body's members, given the normalised messages: `think` off
/// when `include_think`, the tools when `include_tools` and there are any,
/// and `keep_alive` when set.
pub open spec fn body_entries(
    p: ChatRequestParams,
    messages: Seq<char>,
    num_ctx: u32,
    include_think: bool,
    include_tools: bool,
) -> Seq<(Seq<char>, Seq<char>)> {
    let e0 = seq![
        ("model"@, json_quoted(p.model@)),
        ("messages"@, messages),
        ("stream"@, "true"@),
        ("options"@, json_object(options_entries(num_ctx, p.max_tokens, p.stop))),
    ];
    let e1 = if include_think {
        e0.push(("think"@, "false"@))
    } else {
        e0
    };
    let e2 = match p.tools_json {
        Some(t) => if include_tools {
            e1.push(("tools"@, t@))
        } else {
            e1
        },
        None => e1,
    };
    match p.keep_alive {
        Some(k) => e2.push(("keep_alive"@, json_quoted(k@))),
        None => e2,
    }
}

/// The tools schema that a request with `include_tools` would carry, when
/// it is not JSON: the parser's message.
pub open spec fn tools_error(p: ChatRequestParams, include_tools: bool) -> Option<Seq<char>> {
    match p.tools_json {
        Some(t) => if include_tools {
            json_parse_error(t@)
        } else {
            None
        },
        None => None,
    }
}

fn options_text(num_ctx: u32, max_tokens: i32, stop: &Option<Vec<String>>) -> (r: String)
    ensures
        r@ == json_object(options_entries(num_ctx, max_tokens, *stop)),
{
    let mut es: Vec<(String, String)> = Vec::new();
    es.push((owned("num_ctx"), decimal_string(num_ctx as u64)));
    es.push((owned("num_predict"), i64_text(max_tokens as i64)));
    es.push((owned("temperature"), owned("0.0")));
    match stop {
        Some(v) => {
            if v.len() > 0 {
                let mut qs: Vec<String> = Vec::new();
                for k in 0..v.len()
                    invariant
                        views(qs@) == views(v@).take(k as int).map_values(
                            |x: Seq<char>| json_quoted(x),
                        ),
                {
                    let ghost before = views(qs@);
                    qs.push(quoted(v[k].as_str()));
                    assert(views(qs@) =~= before.push(json_quoted(v@[k as int]@)));
                    assert(views(v@).take(k + 1) =~= views(v@).take(k as int).push(v@[k as int]@));
                    assert(views(qs@) =~= views(v@).take(k + 1).map_values(
                        |x: Seq<char>| json_quoted(x),
                    ));
                }
                assert(views(v@).take(v.len() as int) =~= views(v@));
                es.push((owned("stop"), array_of(qs.as_slice())));
            }
        },
        None => {},
    }
    let r = object(es.as_slice());
    assert(entry_views(es@) =~= options_entries(num_ctx, max_tokens, *stop));
    r
}

/// The `/api/chat` request body (compact JSON text) for `p`: the messages
/// normalised to Ollama's shape, streaming on, greedy sampling within
/// `num_ctx`, `think` off when `include_think`, the tools when
/// `include_tools`. Messages or tools that are not JSON are refused.
pub fn build_request_body(
    p: &ChatRequestParams,
    num_ctx: u32,
    include_think: bool,
    include_tools: bool,
) -> (r: Result<String, AppError>)
    ensures
        match normalized(p.messages_json@) {
            Err(m) => r matches Err(AppError::SummarizationFailed(x)) && x@ == m,
            Ok(msgs) => match tools_error(*p, include_tools) {
                Some(e) => r matches Err(AppError::SummarizationFailed(x)) && x@
                    == "Invalid tools JSON: "@ + e,
                None => r matches Ok(b) && b@ == json_object(
                    body_entries(*p, msgs, num_ctx, include_think, include_tools),
                ),
            },
        },
{
    let messages = normalize_messages(p.messages_json.as_str())?;
    let ghost mv = messages@;
    let mut es: Vec<(String, String)> = Vec::new();
    es.push((owned("model"), quoted(p.model.as_str())));
    es.push((owned("messages"), messages));
    es.push((owned("stream"), owned("true")));
    es.push((owned("options"), options_text(num_ctx, p.max_tokens, &p.stop)));
    if include_think {
        es.push((owned("think"), owned("false")));
    }
    if include_tools {
        match &p.tools_json {
            Some(t) => {
                match parse_error(t.as_str()) {
                    Some(e) => {
                        let mut m = owned("Invalid tools JSON: ");
                        append_str(&mut m, e.as_str());
                        return Err(AppError::SummarizationFailed(m));
                    },
                    None => {},
                }
                es.push((owned("tools"), t.clone()));
            },
            None => {},
        }
    }
    match &p.keep_alive {
        Some(k) => es.push((owned("keep_alive"), quoted(k.as_str()))),
        None => {},
    }
    let r = object(es.as_slice());
    assert(entry_views(es@) =~= body_entries(*p, mv, num_ctx, include_think, include_tools));
    Ok(r)
}

} // verus!
