//! Model output handling for summarization and chat: the streaming filter
//! that hides reasoning and tool-call markup from the user, the removal of
//! `<think>` blocks from stored output, and the recovery of structured tool
//! calls from a finished turn. Running the model itself happens outside this
//! module; it hands the generated text in.
use vstd::prelude::*;

use crate::services::tool_calls::{
    extract_tool_calls, tool_calls_of, ToolCallSpec, ToolCallView,
};
use crate::services::stream_split::lemma_find_extend;
use crate::text::{
    char_is_whitespace, lemma_find_from_at, lemma_trim_end_keeps_first, lemma_trim_start_blank,
    lemma_trim_start_skip,
    trim_end, trim_start,
    append_str, ends_with, find, find_chars, find_from, lemma_find_from, lemma_rfind_char, occurs_at,
    owned, rfind_char, rfind_char_exec, skip_chars, slice_chars, str_chars, string_from_chars, take_chars,
    trim, trim_chars, trim_str,
};

verus! {

broadcast use vstd::seq_lib::group_seq_properties;

pub const THINK_OPEN: &'static str = "<think>";
pub const THINK_CLOSE: &'static str = "</think>";
/// Qwen-family tool-call markers.
pub const TOOL_OPEN: &'static str = "<tool_call>";
pub const TOOL_CLOSE: &'static str = "</tool_call>";
/// Gemma-family tool-call markers (note the asymmetric `|`).
pub const GEMMA_TOOL_OPEN: &'static str = "<|tool_call>";
pub const GEMMA_TOOL_CLOSE: &'static str = "<tool_call|>";
/// Gemma-family hallucinated tool-response wrapper.
pub const GEMMA_RESPONSE_OPEN: &'static str = "<|tool_response>";
pub const GEMMA_RESPONSE_CLOSE: &'static str = "<channel|>";
/// Gemma's string-literal marker inside tool-call bodies.
pub const GEMMA_STR_MARKER: &'static str = "<|\"|>";
/// LFM2-family tool-call markers.
pub const LFM2_TOOL_OPEN: &'static str = "<|tool_call_start|>";
pub const LFM2_TOOL_CLOSE: &'static str = "<|tool_call_end|>";

/// Structured events of a tool-aware chat turn.
pub enum InferenceEvent {
    /// A piece of natural-language assistant content.
    ContentToken { text: String, is_thinking: bool },
    /// A tool call starts. Fires once per call.
    ToolCallStart { id: String, name: String },
    /// A fragment of a tool call's `arguments` JSON.
    ToolCallArgsDelta { id: String, delta: String },
    /// A tool call has completed streaming.
    ToolCallEnd { id: String },
}

pub enum InferenceEventView {
    ContentToken { text: Seq<char>, is_thinking: bool },
    ToolCallStart { id: Seq<char>, name: Seq<char> },
    ToolCallArgsDelta { id: Seq<char>, delta: Seq<char> },
    ToolCallEnd { id: Seq<char> },
}

impl View for InferenceEvent {
    type V = InferenceEventView;

    open spec fn view(&self) -> InferenceEventView {
        match self {
            InferenceEvent::ContentToken { text, is_thinking } => InferenceEventView::ContentToken {
                text: text@,
                is_thinking: *is_thinking,
            },
            InferenceEvent::ToolCallStart { id, name } => InferenceEventView::ToolCallStart {
                id: id@,
                name: name@,
            },
            InferenceEvent::ToolCallArgsDelta { id, delta } => InferenceEventView::ToolCallArgsDelta {
                id: id@,
                delta: delta@,
            },
            InferenceEvent::ToolCallEnd { id } => InferenceEventView::ToolCallEnd { id: id@ },
        }
    }
}

/// The views of a list of events.
pub open spec fn event_views(v: Seq<InferenceEvent>) -> Seq<InferenceEventView> {
    v.map_values(|e: InferenceEvent| e@)
}

/// Content pieces `(text, is_thinking)` as events.
pub open spec fn content_events(pieces: Seq<(Seq<char>, bool)>) -> Seq<InferenceEventView> {
    pieces.map_values(
        |p: (Seq<char>, bool)| InferenceEventView::ContentToken { text: p.0, is_thinking: p.1 },
    )
}

// ---------------------------------------------------------------------------
// Streaming filter
// ---------------------------------------------------------------------------

/// Where the filter is: in plain content, inside a `<think>` block, or in a
/// suppressed block that ends at `close`.
#[derive(Clone, Copy, Debug, PartialEq, Eq)]
pub enum FilterState {
    Plain,
    InThink,
    Suppressed { close: &'static str },
}

/// The opening markers, in the order they are tried, with the state each
/// one enters.
pub open spec fn open_markers() -> Seq<(Seq<char>, FilterState)> {
    seq![
        (THINK_OPEN@, FilterState::InThink),
        (TOOL_OPEN@, FilterState::Suppressed { close: TOOL_CLOSE }),
        (GEMMA_TOOL_OPEN@, FilterState::Suppressed { close: GEMMA_TOOL_CLOSE }),
        (GEMMA_RESPONSE_OPEN@, FilterState::Suppressed { close: GEMMA_RESPONSE_CLOSE }),
        (LFM2_TOOL_OPEN@, FilterState::Suppressed { close: LFM2_TOOL_CLOSE }),
    ]
}

/// The earliest occurrence in `buf` of one of `markers`: its position, the
/// marker and the state it enters; on a tie the marker listed first wins.
pub open spec fn earliest_marker(buf: Seq<char>, markers: Seq<(Seq<char>, FilterState)>) -> Option<
    (int, Seq<char>, FilterState),
>
    decreases markers.len(),
{
    if markers.len() == 0 {
        None
    } else {
        let before = earliest_marker(buf, markers.drop_last());
        let (open, st) = markers.last();
        match find(buf, open) {
            Some(idx) => match before {
                Some(b) => if idx < b.0 {
                    Some((idx, open, st))
                } else {
                    before
                },
                None => Some((idx, open, st)),
            },
            None => before,
        }
    }
}

/// `text` as a content piece when it is not empty.
pub open spec fn piece(text: Seq<char>, thinking: bool) -> Seq<(Seq<char>, bool)> {
    if text.len() > 0 {
        seq![(text, thinking)]
    } else {
        Seq::empty()
    }
}

/// The close marker of a suppressed block.
pub open spec fn close_of(state: FilterState) -> Seq<char> {
    match state {
        FilterState::Suppressed { close } => close@,
        _ => Seq::empty(),
    }
}

pub proof fn lemma_marker_lengths()
    ensures
        THINK_CLOSE@.len() > 0,
        forall|k: int| 0 <= k < open_markers().len() ==> (#[trigger] open_markers()[k]).0.len() > 0,
        forall|k: int|
            0 <= k < open_markers().len() ==> close_of((#[trigger] open_markers()[k]).1).len() > 0
                || open_markers()[k].1 == FilterState::InThink,
{
    reveal_strlit("<think>");
    reveal_strlit("</think>");
    reveal_strlit("<tool_call>");
    reveal_strlit("</tool_call>");
    reveal_strlit("<|tool_call>");
    reveal_strlit("<tool_call|>");
    reveal_strlit("<|tool_response>");
    reveal_strlit("<channel|>");
    reveal_strlit("<|tool_call_start|>");
    reveal_strlit("<|tool_call_end|>");
}

pub proof fn lemma_earliest_marker(buf: Seq<char>, markers: Seq<(Seq<char>, FilterState)>)
    ensures
        earliest_marker(buf, markers) matches Some(e) ==> 0 <= e.0 && e.0 + e.1.len() <= buf.len()
            && exists|k: int|
            0 <= k < markers.len() && (#[trigger] markers[k]).0 == e.1 && markers[k].1 == e.2,
    decreases markers.len(),
{
    if markers.len() > 0 {
        lemma_earliest_marker(buf, markers.drop_last());
        let (open, st) = markers.last();
        lemma_find_from(buf, open, 0);
        if let Some(e) = earliest_marker(buf, markers.drop_last()) {
            let k = choose|k: int|
                0 <= k < markers.drop_last().len() && (#[trigger] markers.drop_last()[k]).0
                    == e.1 && markers.drop_last()[k].1 == e.2;
            assert(markers[k] == markers.drop_last()[k]);
        }
        assert(markers[markers.len() - 1] == markers.last());
    }
}

/// What the filter emits and leaves behind when it drains `buf` from
/// `state`: content pieces `(text, is_thinking)`, the new state, and the
/// text kept for later (the start of a marker may be assembling). `<think>`
/// bodies are emitted as thinking; suppressed blocks are dropped; plain text
/// is emitted up to the last `<`, and, when `is_final`, all of it.
pub open spec fn drain_spec(state: FilterState, buf: Seq<char>, is_final: bool) -> (
    Seq<(Seq<char>, bool)>,
    FilterState,
    Seq<char>,
)
    decreases buf.len(),
{
    match state {
        FilterState::Plain => match earliest_marker(buf, open_markers()) {
            Some((idx, open, next)) => {
                proof {
                    lemma_marker_lengths();
                    lemma_earliest_marker(buf, open_markers());
                }
                if 0 <= idx && 0 < open.len() && idx + open.len() <= buf.len() {
                    let rest = drain_spec(next, buf.skip(idx + open.len()), is_final);
                    (piece(buf.take(idx), false) + rest.0, rest.1, rest.2)
                } else {
                    (Seq::empty(), state, buf)
                }
            },
            None => match rfind_char(buf, '<') {
                Some(lt) => {
                    let kept = buf.skip(lt);
                    if is_final && kept.len() > 0 {
                        (piece(buf.take(lt), false) + seq![(kept, false)], state, Seq::empty())
                    } else {
                        (piece(buf.take(lt), false), state, kept)
                    }
                },
                None => (piece(buf, false), state, Seq::empty()),
            },
        },
        FilterState::InThink => match find(buf, THINK_CLOSE@) {
            Some(end) => {
                proof {
                    lemma_marker_lengths();
                    lemma_find_from(buf, THINK_CLOSE@, 0);
                }
                let rest = drain_spec(
                    FilterState::Plain,
                    buf.skip(end + THINK_CLOSE@.len()),
                    is_final,
                );
                (piece(buf.take(end), true) + rest.0, rest.1, rest.2)
            },
            None => match rfind_char(buf, '<') {
                Some(lt) => (piece(buf.take(lt), true), state, buf.skip(lt)),
                None => (piece(buf, true), state, Seq::empty()),
            },
        },
        FilterState::Suppressed { close } => match find(buf, close@) {
            Some(end) => {
                proof {
                    lemma_find_from(buf, close@, 0);
                }
                if close@.len() > 0 {
                    drain_spec(FilterState::Plain, buf.skip(end + close@.len()), is_final)
                } else {
                    (Seq::empty(), state, buf)
                }
            },
            None => (Seq::empty(), state, buf),
        },
    }
}

/// Streaming filter for the tool-aware chat path: `<think>` bodies are
/// emitted as thinking content; `<tool_call>`, Gemma `<|tool_call>` and
/// `<|tool_response>`, and LFM2 `<|tool_call_start|>` blocks are suppressed.
/// Text is buffered across pieces so markers split across pieces are still
/// recognised.
pub struct StreamFilter {
    pub state: FilterState,
    /// Pending text not yet emitted (may hold the start of a marker).
    pub buf: String,
}

impl StreamFilter {
    pub fn new() -> (r: StreamFilter)
        ensures
            r.state == FilterState::Plain,
            r.buf@.len() == 0,
    {
        StreamFilter { state: FilterState::Plain, buf: String::new() }
    }

    /// Feeds a piece of model output; returns the content it releases.
    pub fn push(&mut self, piece: &str) -> (r: Vec<InferenceEvent>)
        ensures
            ({
                let d = drain_spec(old(self).state, old(self).buf@ + piece@, false);
                &&& event_views(r@) == content_events(d.0)
                &&& final(self).state == d.1
                &&& final(self).buf@ == d.2
            }),
    {
        append_str(&mut self.buf, piece);
        self.drain(false)
    }

    /// Ends the stream: releases what is left, except an unterminated
    /// `<think>` tail or suppressed block.
    pub fn flush(&mut self) -> (r: Vec<InferenceEvent>)
        ensures
            ({
                let d = drain_spec(old(self).state, old(self).buf@, true);
                &&& event_views(r@) == content_events(d.0)
                &&& final(self).state == d.1
                &&& final(self).buf@ == d.2
            }),
    {
        self.drain(true)
    }

    fn drain(&mut self, is_final: bool) -> (r: Vec<InferenceEvent>)
        ensures
            ({
                let d = drain_spec(old(self).state, old(self).buf@, is_final);
                &&& event_views(r@) == content_events(d.0)
                &&& final(self).state == d.1
                &&& final(self).buf@ == d.2
            }),
    {
        let ghost target = drain_spec(self.state, self.buf@, is_final);
        let mut out: Vec<InferenceEvent> = Vec::new();
        let mut cs = str_chars(self.buf.as_str());
        let mut state = self.state;
        loop
            invariant_except_break
                ({
                    let d = drain_spec(state, cs@, is_final);
                    &&& event_views(out@) + content_events(d.0) == content_events(target.0)
                    &&& d.1 == target.1
                    &&& d.2 == target.2
                }),
            ensures
                event_views(out@) == content_events(target.0),
                state == target.1,
                cs@ == target.2,
            decreases cs.len(),
        {
            let ghost before = event_views(out@);
            let (events, next, rest, done) = drain_step(state, cs, is_final);
            let ghost ev = event_views(events@);
            let mut events = events;
            out.append(&mut events);
            assert(event_views(out@) =~= before + ev);
            state = next;
            cs = rest;
            if done {
                assert(content_events(target.0) =~= event_views(out@));
                break ;
            }
            assert(event_views(out@) + content_events(drain_spec(state, cs@, is_final).0)
                =~= before + (ev + content_events(drain_spec(state, cs@, is_final).0)));
        }
        self.state = state;
        self.buf = string_from_chars(cs.as_slice());
        out
    }
}

/// One step of draining `cs` from `state`: the pieces released, the next
/// state and text, and whether draining is over; when it is not, the step
/// consumed a marker, so the text is shorter.
fn drain_step(state: FilterState, cs: Vec<char>, is_final: bool) -> (r: (
    Vec<InferenceEvent>,
    FilterState,
    Vec<char>,
    bool,
))
    ensures
        ({
            let d = drain_spec(state, cs@, is_final);
            let (events, next, rest, done) = r;
            if done {
                &&& event_views(events@) == content_events(d.0)
                &&& next == d.1
                &&& rest@ == d.2
            } else {
                let d2 = drain_spec(next, rest@, is_final);
                &&& content_events(d.0) == event_views(events@) + content_events(d2.0)
                &&& d.1 == d2.1
                &&& d.2 == d2.2
                &&& rest.len() < cs.len()
            }
        }),
{
    match state {
        FilterState::Plain => drain_plain(cs, is_final),
        FilterState::InThink => drain_think(cs, is_final),
        FilterState::Suppressed { close } => drain_suppressed(close, cs, is_final),
    }
}

fn drain_plain(cs: Vec<char>, is_final: bool) -> (r: (Vec<InferenceEvent>, FilterState, Vec<char>, bool))
    ensures
        ({
            let d = drain_spec(FilterState::Plain, cs@, is_final);
            let (events, next, rest, done) = r;
            if done {
                &&& event_views(events@) == content_events(d.0)
                &&& next == d.1
                &&& rest@ == d.2
            } else {
                let d2 = drain_spec(next, rest@, is_final);
                &&& content_events(d.0) == event_views(events@) + content_events(d2.0)
                &&& d.1 == d2.1
                &&& d.2 == d2.2
                &&& rest.len() < cs.len()
            }
        }),
{
    proof {
        lemma_marker_lengths();
    }
    let ghost d = drain_spec(FilterState::Plain, cs@, is_final);
    let mut out: Vec<InferenceEvent> = Vec::new();
    let found = earliest_exec(cs.as_slice());
    proof {
        lemma_earliest_marker(cs@, open_markers());
    }
    match found {
        Some((idx, open_len, next)) => {
            let ghost e = earliest_marker(cs@, open_markers()).unwrap();
            proof {
                let k = choose|k: int|
                    0 <= k < open_markers().len() && (#[trigger] open_markers()[k]).0
                        == e.1 && open_markers()[k].1 == e.2;
                assert(open_markers()[k].0.len() > 0);
            }
            if idx > 0 {
                let t = take_chars(cs.as_slice(), idx);
                out.push(
                    InferenceEvent::ContentToken {
                        text: string_from_chars(t.as_slice()),
                        is_thinking: false,
                    },
                );
            }
            assert(event_views(out@) =~= content_events(piece(cs@.take(idx as int), false)));
            assert(occurs_at(cs@, e.1, e.0) || e.0 + e.1.len() <= cs@.len());
            assert(idx + open_len <= cs.len());
            let rest = skip_chars(cs.as_slice(), idx + open_len);
            let ghost d2 = drain_spec(next, rest@, is_final);
            assert(content_events(d.0) =~= event_views(out@) + content_events(d2.0));
            (out, next, rest, false)
        },
        None => {
            let rest = match rfind_char_exec(cs.as_slice(), '<') {
                Some(lt) => {
                    proof {
                        lemma_rfind_char(cs@, '<');
                    }
                    if lt > 0 {
                        let t = take_chars(cs.as_slice(), lt);
                        out.push(
                            InferenceEvent::ContentToken {
                                text: string_from_chars(t.as_slice()),
                                is_thinking: false,
                            },
                        );
                    }
                    let kept = skip_chars(cs.as_slice(), lt);
                    if is_final && kept.len() > 0 {
                        let ghost mid = event_views(out@);
                        out.push(
                            InferenceEvent::ContentToken {
                                text: string_from_chars(kept.as_slice()),
                                is_thinking: false,
                            },
                        );
                        assert(event_views(out@) =~= mid.push(
                            InferenceEventView::ContentToken { text: kept@, is_thinking: false },
                        ));
                        Vec::new()
                    } else {
                        kept
                    }
                },
                None => {
                    if cs.len() > 0 {
                        out.push(
                            InferenceEvent::ContentToken {
                                text: string_from_chars(cs.as_slice()),
                                is_thinking: false,
                            },
                        );
                    }
                    Vec::new()
                },
            };
            assert(event_views(out@) =~= content_events(d.0));
            (out, FilterState::Plain, rest, true)
        },
    }
    
}

fn drain_think(cs: Vec<char>, is_final: bool) -> (r: (Vec<InferenceEvent>, FilterState, Vec<char>, bool))
    ensures
        ({
            let d = drain_spec(FilterState::InThink, cs@, is_final);
            let (events, next, rest, done) = r;
            if done {
                &&& event_views(events@) == content_events(d.0)
                &&& next == d.1
                &&& rest@ == d.2
            } else {
                let d2 = drain_spec(next, rest@, is_final);
                &&& content_events(d.0) == event_views(events@) + content_events(d2.0)
                &&& d.1 == d2.1
                &&& d.2 == d2.2
                &&& rest.len() < cs.len()
            }
        }),
{
    proof {
        lemma_marker_lengths();
    }
    let ghost d = drain_spec(FilterState::InThink, cs@, is_final);
    let mut out: Vec<InferenceEvent> = Vec::new();
    let close = str_chars(THINK_CLOSE);
    match find_chars(cs.as_slice(), close.as_slice(), 0) {
        Some(end) => {
            proof {
                lemma_find_from(cs@, THINK_CLOSE@, 0);
            }
            if end > 0 {
                let t = take_chars(cs.as_slice(), end);
                out.push(
                    InferenceEvent::ContentToken {
                        text: string_from_chars(t.as_slice()),
                        is_thinking: true,
                    },
                );
            }
            assert(event_views(out@) =~= content_events(piece(cs@.take(end as int), true)));
            assert(occurs_at(cs@, close@, end as int));
            assert(end + close@.len() <= cs@.len());
            assert(close.len() == close@.len());
            assert(end + close.len() <= cs.len());
            let rest = skip_chars(cs.as_slice(), end + close.len());
            let ghost d2 = drain_spec(FilterState::Plain, rest@, is_final);
            assert(content_events(d.0) =~= event_views(out@) + content_events(d2.0));
            (out, FilterState::Plain, rest, false)
        },
        None => {
            let rest = match rfind_char_exec(cs.as_slice(), '<') {
                Some(lt) => {
                    proof {
                        lemma_rfind_char(cs@, '<');
                    }
                    if lt > 0 {
                        let t = take_chars(cs.as_slice(), lt);
                        out.push(
                            InferenceEvent::ContentToken {
                                text: string_from_chars(t.as_slice()),
                                is_thinking: true,
                            },
                        );
                    }
                    skip_chars(cs.as_slice(), lt)
                },
                None => {
                    if cs.len() > 0 {
                        out.push(
                            InferenceEvent::ContentToken {
                                text: string_from_chars(cs.as_slice()),
                                is_thinking: true,
                            },
                        );
                    }
                    Vec::new()
                },
            };
            assert(event_views(out@) =~= content_events(d.0));
            (out, FilterState::InThink, rest, true)
        },
    }
    
}

fn drain_suppressed(close: &'static str, cs: Vec<char>, is_final: bool) -> (r: (Vec<InferenceEvent>, FilterState, Vec<char>, bool))
    ensures
        ({
            let d = drain_spec(FilterState::Suppressed { close }, cs@, is_final);
            let (events, next, rest, done) = r;
            if done {
                &&& event_views(events@) == content_events(d.0)
                &&& next == d.1
                &&& rest@ == d.2
            } else {
                let d2 = drain_spec(next, rest@, is_final);
                &&& content_events(d.0) == event_views(events@) + content_events(d2.0)
                &&& d.1 == d2.1
                &&& d.2 == d2.2
                &&& rest.len() < cs.len()
            }
        }),
{
    proof {
        lemma_marker_lengths();
    }
    let ghost d = drain_spec(FilterState::Suppressed { close }, cs@, is_final);
    let mut out: Vec<InferenceEvent> = Vec::new();
    let cl = str_chars(close);
    match find_chars(cs.as_slice(), cl.as_slice(), 0) {
        Some(end) => {
            proof {
                lemma_find_from(cs@, close@, 0);
            }
            if cl.len() == 0 {
                assert(event_views(out@) =~= content_events(d.0));
                return (out, FilterState::Suppressed { close }, cs, true);
            }
            assert(occurs_at(cs@, cl@, end as int));
            assert(end + cl@.len() <= cs@.len());
            assert(cl.len() == cl@.len());
            assert(end + cl.len() <= cs.len());
            let rest = skip_chars(cs.as_slice(), end + cl.len());
            assert(event_views(out@) =~= Seq::<InferenceEventView>::empty());
            assert(content_events(d.0) =~= event_views(out@) + content_events(
                drain_spec(FilterState::Plain, rest@, is_final).0,
            ));
            (out, FilterState::Plain, rest, false)
        },
        None => {
            assert(event_views(out@) =~= content_events(d.0));
            (out, FilterState::Suppressed { close }, cs, true)
        },
    }
    
}

/// The opening marker tried at position `k`, and the state it enters.
fn open_marker(k: usize) -> (r: (&'static str, FilterState))
    requires
        k < 5,
    ensures
        (r.0@, r.1) == open_markers()[k as int],
{
    if k == 0 {
        (THINK_OPEN, FilterState::InThink)
    } else if k == 1 {
        (TOOL_OPEN, FilterState::Suppressed { close: TOOL_CLOSE })
    } else if k == 2 {
        (GEMMA_TOOL_OPEN, FilterState::Suppressed { close: GEMMA_TOOL_CLOSE })
    } else if k == 3 {
        (GEMMA_RESPONSE_OPEN, FilterState::Suppressed { close: GEMMA_RESPONSE_CLOSE })
    } else {
        (LFM2_TOOL_OPEN, FilterState::Suppressed { close: LFM2_TOOL_CLOSE })
    }
}

/// The earliest opening marker in `buf`: its position, length, and state.
fn earliest_exec(buf: &[char]) -> (r: Option<(usize, usize, FilterState)>)
    ensures
        match earliest_marker(buf@, open_markers()) {
            Some(e) => r matches Some(x) && x.0 == e.0 && x.1 == e.1.len() && x.2 == e.2,
            None => r is None,
        },
{
    let mut best: Option<(usize, usize, FilterState)> = None;
    for k in 0..5
        invariant
            match earliest_marker(buf@, open_markers().take(k as int)) {
                Some(e) => best matches Some(x) && x.0 == e.0 && x.1 == e.1.len() && x.2 == e.2,
                None => best is None,
            },
    {
        let (open, st) = open_marker(k);
        assert(open_markers().take(k + 1).drop_last() == open_markers().take(k as int));
        assert(open_markers().take(k + 1).last() == open_markers()[k as int]);
        let oc = str_chars(open);
        match find_chars(buf, oc.as_slice(), 0) {
            Some(idx) => {
                let better = match best {
                    Some((b, _, _)) => idx < b,
                    None => true,
                };
                if better {
                    best = Some((idx, oc.len(), st));
                }
            },
            None => {},
        }
    }
    assert(open_markers().take(5) == open_markers());
    best
}

// ---------------------------------------------------------------------------
// Removing reasoning from stored output
// ---------------------------------------------------------------------------

/// What stripping `<think>` blocks from `rest` leaves after the kept text
/// `acc`: text outside the blocks is kept; an unterminated block drops the
/// rest of the text, and everything kept is then trimmed.
pub open spec fn without_think_from(acc: Seq<char>, rest: Seq<char>) -> Seq<char>
    decreases rest.len(),
{
    match find(rest, THINK_OPEN@) {
        None => acc + rest,
        Some(start) => match find_from(rest, THINK_CLOSE@, start) {
            None => trim(acc + rest.take(start)),
            Some(close_at) => {
                proof {
                    reveal_strlit("</think>");
                    lemma_find_from(rest, THINK_CLOSE@, start);
                    lemma_find_from(rest, THINK_OPEN@, 0);
                }
                if 0 <= start <= close_at && close_at + THINK_CLOSE@.len() <= rest.len() {
                    without_think_from(
                        acc + rest.take(start),
                        rest.skip(close_at + THINK_CLOSE@.len()),
                    )
                } else {
                    acc + rest
                }
            },
        },
    }
}

/// `s` without its `<think>…</think>` blocks.
pub open spec fn without_think(s: Seq<char>) -> Seq<char> {
    without_think_from(Seq::empty(), s)
}

/// Strips `<think>…</think>` blocks from model output. An unterminated
/// block drops the rest of the text, and the kept text is then trimmed.
pub fn strip_think_tags(s: &str) -> (r: String)
    ensures
        r@ == without_think(s@),
{
    let open = str_chars(THINK_OPEN);
    let close = str_chars(THINK_CLOSE);
    let mut result: Vec<char> = Vec::new();
    let mut rest = str_chars(s);
    proof {
        reveal_strlit("</think>");
        reveal_strlit("<think>");
    }
    assert(result@ + rest@ =~= rest@);
    loop
        invariant_except_break
            without_think(s@) == without_think_from(result@, rest@),
            close@ == THINK_CLOSE@,
            open@ == THINK_OPEN@,
            close@.len() > 0,
        ensures
            result@ == without_think(s@),
        decreases rest.len(),
    {
        let ghost r0 = result@;
        match find_chars(rest.as_slice(), open.as_slice(), 0) {
            None => {
                for i in 0..rest.len()
                    invariant
                        result@ == r0 + rest@.take(i as int),
                {
                    result.push(rest[i]);
                }
                assert(rest@.take(rest.len() as int) == rest@);
                break ;
            },
            Some(start) => {
                proof {
                    lemma_find_from(rest@, THINK_OPEN@, 0);
                }
                for i in 0..start
                    invariant
                        start <= rest.len(),
                        result@ == r0 + rest@.take(i as int),
                {
                    result.push(rest[i]);
                }
                match find_chars(rest.as_slice(), close.as_slice(), start) {
                    None => {
                        result = trim_chars(result.as_slice());
                        break ;
                    },
                    Some(end) => {
                        proof {
                            lemma_find_from(rest@, THINK_CLOSE@, start as int);
                        }
                        rest = skip_chars(rest.as_slice(), end + close.len());
                    },
                }
            },
        }
    }
    string_from_chars(result.as_slice())
}

// ---------------------------------------------------------------------------
// Decisions of the generation loops
// ---------------------------------------------------------------------------

/// What the plain-generation filter emits and keeps when it drains `buf`:
/// `<think>` bodies are dropped; answer text is emitted up to the last `<`
/// (a marker may be assembling).
pub open spec fn think_drain(inside: bool, buf: Seq<char>) -> (Seq<Seq<char>>, bool, Seq<char>)
    decreases buf.len(),
{
    if inside {
        match find(buf, THINK_CLOSE@) {
            Some(end) => {
                proof {
                    reveal_strlit("</think>");
                    lemma_find_from(buf, THINK_CLOSE@, 0);
                }
                if 0 <= end && end + THINK_CLOSE@.len() <= buf.len() {
                    think_drain(false, buf.skip(end + THINK_CLOSE@.len()))
                } else {
                    (Seq::empty(), inside, buf)
                }
            },
            None => match rfind_char(buf, '<') {
                Some(lt) => (Seq::empty(), true, buf.skip(lt)),
                None => (Seq::empty(), true, Seq::empty()),
            },
        }
    } else {
        match find(buf, THINK_OPEN@) {
            Some(start) => {
                proof {
                    reveal_strlit("<think>");
                    lemma_find_from(buf, THINK_OPEN@, 0);
                }
                if 0 <= start && start + THINK_OPEN@.len() <= buf.len() {
                    let rest = think_drain(true, buf.skip(start + THINK_OPEN@.len()));
                    (text_piece(buf.take(start)) + rest.0, rest.1, rest.2)
                } else {
                    (Seq::empty(), inside, buf)
                }
            },
            None => match rfind_char(buf, '<') {
                Some(lt) => (text_piece(buf.take(lt)), false, buf.skip(lt)),
                None => (text_piece(buf), false, Seq::empty()),
            },
        }
    }
}

/// `text` as an emitted piece when it is not empty.
pub open spec fn text_piece(text: Seq<char>) -> Seq<Seq<char>> {
    if text.len() > 0 {
        seq![text]
    } else {
        Seq::empty()
    }
}

/// The streaming filter of plain generation (summaries and chat): hides
/// `<think>` blocks and releases answer text, holding back a possible
/// marker start.
pub struct ThinkFilter {
    pub inside_think: bool,
    pub buf: String,
}

impl ThinkFilter {
    pub fn new() -> (r: ThinkFilter)
        ensures
            !r.inside_think,
            r.buf@.len() == 0,
    {
        ThinkFilter { inside_think: false, buf: String::new() }
    }

    /// Feeds a generated piece; returns the answer text it releases.
    pub fn push(&mut self, piece: &str) -> (r: Vec<String>)
        ensures
            ({
                let d = think_drain(old(self).inside_think, old(self).buf@ + piece@);
                &&& crate::text::views(r@) == d.0
                &&& final(self).inside_think == d.1
                &&& final(self).buf@ == d.2
            }),
    {
        append_str(&mut self.buf, piece);
        let ghost target = think_drain(self.inside_think, self.buf@);
        let mut out: Vec<String> = Vec::new();
        let mut cs = str_chars(self.buf.as_str());
        let mut inside = self.inside_think;
        let open = str_chars(THINK_OPEN);
        let close = str_chars(THINK_CLOSE);
        proof {
            reveal_strlit("</think>");
            reveal_strlit("<think>");
        }
        assert(crate::text::views(out@) + think_drain(inside, cs@).0 =~= target.0);
        loop
            invariant_except_break
                open@ == THINK_OPEN@,
                close@ == THINK_CLOSE@,
                open@.len() == 7,
                close@.len() == 8,
                crate::text::views(out@) + think_drain(inside, cs@).0 == target.0,
                think_drain(inside, cs@).1 == target.1,
                think_drain(inside, cs@).2 == target.2,
            ensures
                crate::text::views(out@) == target.0,
                inside == target.1,
                cs@ == target.2,
            decreases cs.len(),
        {
            let ghost acc = crate::text::views(out@);
            let ghost d = think_drain(inside, cs@);
            if inside {
                match find_chars(cs.as_slice(), close.as_slice(), 0) {
                    Some(end) => {
                        proof {
                            lemma_find_from(cs@, close@, 0);
                        }
                        assert(end + close@.len() <= cs@.len());
                        assert(cs@.len() == cs.len());
                        cs = skip_chars(cs.as_slice(), end + close.len());
                        inside = false;
                    },
                    None => {
                        match rfind_char_exec(cs.as_slice(), '<') {
                            Some(lt) => {
                                proof {
                                    lemma_rfind_char(cs@, '<');
                                }
                                cs = skip_chars(cs.as_slice(), lt);
                            },
                            None => {
                                cs = Vec::new();
                            },
                        }
                        assert(acc + Seq::<Seq<char>>::empty() =~= acc);
                        break ;
                    },
                }
            } else {
                match find_chars(cs.as_slice(), open.as_slice(), 0) {
                    Some(start) => {
                        proof {
                            lemma_find_from(cs@, open@, 0);
                        }
                        assert(start + open@.len() <= cs@.len());
                        assert(cs@.len() == cs.len());
                        if start > 0 {
                            let t = take_chars(cs.as_slice(), start);
                            out.push(string_from_chars(t.as_slice()));
                        }
                        assert(crate::text::views(out@) =~= acc + text_piece(cs@.take(start as int)));
                        let ghost rest = think_drain(true, cs@.skip(start + open@.len()));
                        cs = skip_chars(cs.as_slice(), start + open.len());
                        inside = true;
                        assert(crate::text::views(out@) + rest.0 =~= acc + d.0);
                    },
                    None => {
                        match rfind_char_exec(cs.as_slice(), '<') {
                            Some(lt) => {
                                proof {
                                    lemma_rfind_char(cs@, '<');
                                }
                                if lt > 0 {
                                    let t = take_chars(cs.as_slice(), lt);
                                    out.push(string_from_chars(t.as_slice()));
                                }
                                cs = skip_chars(cs.as_slice(), lt);
                            },
                            None => {
                                if cs.len() > 0 {
                                    out.push(string_from_chars(cs.as_slice()));
                                }
                                cs = Vec::new();
                            },
                        }
                        assert(crate::text::views(out@) =~= acc + d.0);
                        break ;
                    },
                }
            }
        }
        self.inside_think = inside;
        self.buf = string_from_chars(cs.as_slice());
        out
    }

    /// Ends generation: the answer text still held back, unless the output
    /// ended inside a `<think>` block.
    pub fn finish(&self) -> (r: Option<String>)
        ensures
            match r {
                Some(t) => t@ == self.buf@ && self.buf@.len() > 0 && !self.inside_think,
                None => self.buf@.len() == 0 || self.inside_think,
            },
    {
        if !self.buf.as_str().is_empty() && !self.inside_think {
            Some(owned(self.buf.as_str()))
        } else {
            None
        }
    }
}

/// Token budget of a summary.
pub const MAX_SUMMARIZATION_TOKENS: u32 = 4096;
/// Token budget of a plain chat reply.
pub const MAX_CHAT_TOKENS: u32 = 1024;
/// Token budget of one tool-aware chat turn.
pub const MAX_TOOL_CHAT_TOKENS: u32 = 4096;
/// Smallest context of a tool-aware chat turn.
pub const MIN_TOOL_CHAT_CTX: u32 = 16384;
/// Smallest context of plain generation.
pub const MIN_CTX: u32 = 4096;

/// The context size for a prompt of `n_input` tokens and a budget of
/// `max_tokens`: room for both plus `slack`, and at least `min`.
pub fn context_size(n_input: u32, max_tokens: u32, slack: u32, min: u32) -> (r: u32)
    requires
        n_input + max_tokens + slack <= u32::MAX,
    ensures
        r == if n_input + max_tokens + slack >= min {
            (n_input + max_tokens + slack) as u32
        } else {
            min
        },
{
    let n = n_input + max_tokens + slack;
    if n >= min {
        n
    } else {
        min
    }
}

/// A summary or chat reply as stored: trimmed, `<think>` blocks removed,
/// trimmed again.
pub fn clean_output(raw: &str) -> (r: String)
    ensures
        r@ == trim(without_think(trim(raw@))),
{
    let t = trim_str(raw);
    let stripped = strip_think_tags(t.as_str());
    trim_str(stripped.as_str())
}

/// Whether a tool-aware turn stops after `text`: it ends with a non-empty
/// stop sequence of the chat template, or with a closed tool call.
pub open spec fn stops_after(text: Seq<char>, stops: Seq<Seq<char>>) -> bool {
    (exists|k: int| 0 <= k < stops.len() && stops[k].len() > 0 && ends_with(text, #[trigger] stops[k]))
        || ends_with(text, TOOL_CLOSE@) || ends_with(text, GEMMA_TOOL_CLOSE@)
}

/// Whether a tool-aware turn stops after the generated `text`.
pub fn should_stop(text: &str, stops: &[String]) -> (r: bool)
    ensures
        r == stops_after(text@, crate::text::views(stops@)),
{
    let cs = str_chars(text);
    for k in 0..stops.len()
        invariant
            cs@ == text@,
            forall|j: int|
                0 <= j < k ==> !(stops@[j]@.len() > 0 && ends_with(text@, #[trigger] stops@[j]@)),
    {
        let st = str_chars(stops[k].as_str());
        if st.len() > 0 && crate::text::has_suffix(cs.as_slice(), st.as_slice()) {
            assert(crate::text::views(stops@)[k as int] == stops@[k as int]@);
            return true;
        }
    }
    let a = str_chars(TOOL_CLOSE);
    let b = str_chars(GEMMA_TOOL_CLOSE);
    let r = crate::text::has_suffix(cs.as_slice(), a.as_slice()) || crate::text::has_suffix(
        cs.as_slice(),
        b.as_slice(),
    );
    assert(r == stops_after(text@, crate::text::views(stops@))) by {
        if exists|k: int|
            0 <= k < stops@.len() && crate::text::views(stops@)[k].len() > 0 && ends_with(
                text@,
                #[trigger] crate::text::views(stops@)[k],
            ) {
            let k = choose|k: int|
                0 <= k < stops@.len() && crate::text::views(stops@)[k].len() > 0 && ends_with(
                    text@,
                    #[trigger] crate::text::views(stops@)[k],
                );
            assert(crate::text::views(stops@)[k] == stops@[k]@);
        }
    }
    r
}

/// `text` without a trailing stop sequence: the first non-empty stop of
/// `stops` that ends it is cut off.
pub open spec fn without_stop(text: Seq<char>, stops: Seq<Seq<char>>) -> Seq<char>
    decreases stops.len(),
{
    if stops.len() == 0 {
        text
    } else if stops[0].len() > 0 && ends_with(text, stops[0]) {
        text.take(text.len() - stops[0].len())
    } else {
        without_stop(text, stops.drop_first())
    }
}

/// The generated text of a turn without its trailing stop sequence.
pub fn strip_stop(text: &str, stops: &[String]) -> (r: String)
    ensures
        r@ == without_stop(text@, crate::text::views(stops@)),
{
    let cs = str_chars(text);
    let ghost sv = crate::text::views(stops@);
    for k in 0..stops.len()
        invariant
            cs@ == text@,
            sv == crate::text::views(stops@),
            without_stop(text@, sv) == without_stop(text@, sv.skip(k as int)),
    {
        assert(sv.skip(k as int)[0] == stops@[k as int]@);
        assert(sv.skip(k as int).drop_first() == sv.skip(k + 1));
        let st = str_chars(stops[k].as_str());
        if st.len() > 0 && crate::text::has_suffix(cs.as_slice(), st.as_slice()) {
            let t = take_chars(cs.as_slice(), cs.len() - st.len());
            return string_from_chars(t.as_slice());
        }
    }
    assert(sv.skip(stops.len() as int).len() == 0);
    owned(text)
}

/// What a finished tool-aware turn produced. Empty `tool_calls` means the
/// natural-language reply stands.
pub struct TurnOutcome {
    pub tool_calls: Vec<ToolCallSpec>,
    pub prompt_tokens: u32,
    pub completion_tokens: u32,
    pub max_tokens: u32,
}

/// The events announcing one tool call: its start, its arguments as one
/// delta (when not empty), and its end.
pub open spec fn one_call_events(c: ToolCallView) -> Seq<InferenceEventView> {
    seq![InferenceEventView::ToolCallStart { id: c.id, name: c.name }] + (if c.arguments.len() > 0 {
        seq![InferenceEventView::ToolCallArgsDelta { id: c.id, delta: c.arguments }]
    } else {
        Seq::empty()
    }) + seq![InferenceEventView::ToolCallEnd { id: c.id }]
}

/// The events announcing each of `calls`, in order.
pub open spec fn call_events(calls: Seq<ToolCallView>) -> Seq<InferenceEventView>
    decreases calls.len(),
{
    if calls.len() == 0 {
        Seq::empty()
    } else {
        call_events(calls.drop_last()) + one_call_events(calls.last())
    }
}

/// The events announcing each of `calls`, in order: its start, its
/// arguments as one delta (when not empty), and its end.
pub fn tool_call_events(calls: &[ToolCallSpec]) -> (r: Vec<InferenceEvent>)
    ensures
        event_views(r@) == call_events(calls@.map_values(|t: ToolCallSpec| t@)),
{
    let ghost cv = calls@.map_values(|t: ToolCallSpec| t@);
    let mut events: Vec<InferenceEvent> = Vec::new();
    for k in 0..calls.len()
        invariant
            cv == calls@.map_values(|t: ToolCallSpec| t@),
            event_views(events@) == call_events(cv.take(k as int)),
    {
        let c = &calls[k];
        let ghost before = event_views(events@);
        assert(cv.take(k + 1).drop_last() == cv.take(k as int));
        assert(cv.take(k + 1).last() == c@);
        events.push(InferenceEvent::ToolCallStart { id: c.id.clone(), name: c.name.clone() });
        if !c.arguments.as_str().is_empty() {
            events.push(
                InferenceEvent::ToolCallArgsDelta { id: c.id.clone(), delta: c.arguments.clone() },
            );
        }
        events.push(InferenceEvent::ToolCallEnd { id: c.id.clone() });
        assert(event_views(events@) =~= before + one_call_events(c@));
    }
    assert(cv.take(calls.len() as int) == cv);
    events
}

/// The text a turn's tool calls are recovered from.
pub open spec fn turn_text(generated: Seq<char>, stops: Seq<Seq<char>>) -> Seq<char> {
    without_stop(generated, stops)
}

/// Completes a tool-aware turn: the trailing stop sequence is cut from the
/// generated text, the tool calls are recovered from it, and the events
/// announcing them are returned with the outcome.
pub fn finish_turn(
    generated: &str,
    stops: &[String],
    prompt_tokens: u32,
    completion_tokens: u32,
    max_tokens: u32,
) -> (r: (TurnOutcome, Vec<InferenceEvent>))
    ensures
        r.0.tool_calls@.map_values(|t: ToolCallSpec| t@) == tool_calls_of(
            turn_text(generated@, crate::text::views(stops@)),
        ),
        r.0.prompt_tokens == prompt_tokens,
        r.0.completion_tokens == completion_tokens,
        r.0.max_tokens == max_tokens,
        event_views(r.1@) == call_events(
            tool_calls_of(turn_text(generated@, crate::text::views(stops@))),
        ),
{
    let text = strip_stop(generated, stops);
    let calls = extract_tool_calls(text.as_str());
    let events = tool_call_events(calls.as_slice());
    (TurnOutcome { tool_calls: calls, prompt_tokens, completion_tokens, max_tokens }, events)
}

// ---------------------------------------------------------------------------
// Titles
// ---------------------------------------------------------------------------

/// The state of title generation: all output so far, whether it is inside
/// a `<think>` block, and the title text outside such blocks.
pub struct TitleState {
    pub output: String,
    pub inside_think: bool,
    pub title_text: String,
}

impl TitleState {
    pub fn new() -> (r: TitleState)
        ensures
            r.output@.len() == 0,
            !r.inside_think,
            r.title_text@.len() == 0,
    {
        TitleState { output: String::new(), inside_think: false, title_text: String::new() }
    }

    /// Takes a generated piece; returns whether the title is complete (its
    /// trimmed text is non-empty and spans a line break).
    pub fn step(&mut self, piece: &str) -> (stop: bool)
        ensures
            ({
                let out = old(self).output@ + piece@;
                let opened = old(self).inside_think || crate::text::contains(piece@, THINK_OPEN@);
                let inside = opened && !ends_with(out, THINK_CLOSE@);
                let title = if inside {
                    old(self).title_text@
                } else {
                    old(self).title_text@ + piece@
                };
                &&& final(self).output@ == out
                &&& final(self).inside_think == inside
                &&& final(self).title_text@ == title
                &&& stop == (!inside && trim(title).len() > 0 && trim(title).contains('\n'))
            }),
    {
        append_str(&mut self.output, piece);
        let pc = str_chars(piece);
        let open = str_chars(THINK_OPEN);
        if !self.inside_think && find_chars(pc.as_slice(), open.as_slice(), 0).is_some() {
            self.inside_think = true;
        }
        let oc = str_chars(self.output.as_str());
        let close = str_chars(THINK_CLOSE);
        if self.inside_think && crate::text::has_suffix(oc.as_slice(), close.as_slice()) {
            self.inside_think = false;
        }
        if !self.inside_think {
            append_str(&mut self.title_text, piece);
            let tc = str_chars(self.title_text.as_str());
            let t = trim_chars(tc.as_slice());
            let mut has_nl = false;
            for i in 0..t.len()
                invariant
                    has_nl == t@.take(i as int).contains('\n'),
            {
                if t[i] == '\n' {
                    has_nl = true;
                }
                assert(t@.take(i + 1) == t@.take(i as int).push(t@[i as int]));
            }
            assert(t@.take(t.len() as int) == t@);
            return t.len() > 0 && has_nl;
        }
        false
    }
}

/// `s` without leading and trailing characters satisfying `f`.
pub open spec fn trim_matching(s: Seq<char>, f: spec_fn(char) -> bool) -> Seq<char>
    decreases s.len(),
{
    if s.len() > 0 && f(s[0]) {
        trim_matching(s.drop_first(), f)
    } else if s.len() > 0 && f(s.last()) {
        trim_matching(s.drop_last(), f)
    } else {
        s
    }
}

/// Dashes a title may carry around it.
pub open spec fn is_dash(c: char) -> bool {
    c == '-' || c == '–' || c == '—'
}

/// A generated title as stored: `<think>` blocks removed, trimmed, its
/// surrounding quotes and dashes removed, trimmed again.
pub open spec fn title_of(output: Seq<char>) -> Seq<char> {
    trim(
        trim_matching(
            trim_matching(trim(without_think(trim(output))), |c: char| c == '"'),
            |c: char| is_dash(c),
        ),
    )
}

fn trim_quotes(v: &[char]) -> (r: Vec<char>)
    ensures
        r@ == trim_matching(v@, |c: char| c == '"'),
{
    let mut lo: usize = 0;
    let mut hi: usize = v.len();
    while lo < hi && (v[lo] == '"' || v[hi - 1] == '"')
        invariant
            lo <= hi <= v.len(),
            trim_matching(v@, |c: char| c == '"') == trim_matching(
                v@.subrange(lo as int, hi as int),
                |c: char| c == '"',
            ),
        decreases hi - lo,
    {
        let ghost cur = v@.subrange(lo as int, hi as int);
        if v[lo] == '"' {
            assert(cur.drop_first() == v@.subrange(lo + 1, hi as int));
            lo = lo + 1;
        } else {
            assert(cur.drop_last() == v@.subrange(lo as int, hi - 1));
            hi = hi - 1;
        }
    }
    slice_chars(v, lo, hi)
}

fn trim_dashes(v: &[char]) -> (r: Vec<char>)
    ensures
        r@ == trim_matching(v@, |c: char| is_dash(c)),
{
    let mut lo: usize = 0;
    let mut hi: usize = v.len();
    while lo < hi && (v[lo] == '-' || v[lo] == '–' || v[lo] == '—' || v[hi - 1] == '-' || v[hi
        - 1] == '–' || v[hi - 1] == '—')
        invariant
            lo <= hi <= v.len(),
            trim_matching(v@, |c: char| is_dash(c)) == trim_matching(
                v@.subrange(lo as int, hi as int),
                |c: char| is_dash(c),
            ),
        decreases hi - lo,
    {
        let ghost cur = v@.subrange(lo as int, hi as int);
        if v[lo] == '-' || v[lo] == '–' || v[lo] == '—' {
            assert(cur.drop_first() == v@.subrange(lo + 1, hi as int));
            lo = lo + 1;
        } else {
            assert(cur.drop_last() == v@.subrange(lo as int, hi - 1));
            hi = hi - 1;
        }
    }
    slice_chars(v, lo, hi)
}

/// The title to store from title generation's output.
pub fn clean_title(output: &str) -> (r: String)
    ensures
        r@ == title_of(output@),
{
    let cleaned = clean_output(output);
    let cs = str_chars(cleaned.as_str());
    let q = trim_quotes(cs.as_slice());
    let d = trim_dashes(q.as_slice());
    let t = trim_chars(d.as_slice());
    string_from_chars(t.as_slice())
}

// ---------------------------------------------------------------------------
// Reasoning never reaches a stored title
// ---------------------------------------------------------------------------

/// Every character of `w` is whitespace.
pub open spec fn all_ws(w: Seq<char>) -> bool {
    forall|j: int| 0 <= j < w.len() ==> char_is_whitespace(#[trigger] w[j])
}

proof fn lemma_trim_ws_prefix(w: Seq<char>, z: Seq<char>)
    requires
        all_ws(w),
    ensures
        trim(w + z) == trim(z),
{
    let s = w + z;
    assert forall|j: int| 0 <= j < w.len() implies char_is_whitespace(s[j]) by {
        assert(s[j] == w[j]);
    }
    lemma_trim_start_skip(s, w.len() as int);
    assert(s.skip(w.len() as int) =~= z);
}

proof fn lemma_trim_end_concat(a: Seq<char>, b: Seq<char>)
    requires
        trim_end(b).len() > 0 || (a.len() > 0 && !char_is_whitespace(a.last())),
    ensures
        trim_end(a + b) == a + trim_end(b),
    decreases b.len(),
{
    if b.len() == 0 {
        assert(a + b =~= a);
        assert(a + trim_end(b) =~= a);
    } else if char_is_whitespace(b.last()) {
        assert((a + b).drop_last() =~= a + b.drop_last());
        assert((a + b).last() == b.last());
        lemma_trim_end_concat(a, b.drop_last());
    } else {
        assert((a + b).last() == b.last());
    }
}

/// A search that cannot match inside a whitespace prefix `w` finds in
/// `w + y` what it finds in `y`, moved by `w`.
proof fn lemma_find_from_ws_prefix(w: Seq<char>, y: Seq<char>, m: Seq<char>, f: int)
    requires
        f >= 0,
        m.len() > 0,
    ensures
        find_from(w + y, m, f + w.len()) == match find_from(y, m, f) {
            Some(i) => Some(i + w.len()),
            None => None::<int>,
        },
    decreases y.len() + 1 - f,
{
    let s = w + y;
    let n = w.len() as int;
    if f + m.len() > y.len() {
    } else {
        assert(s.subrange(f + n, f + n + m.len()) =~= y.subrange(f, f + m.len()));
        if !occurs_at(y, m, f) {
            lemma_find_from_ws_prefix(w, y, m, f + 1);
        }
    }
}

proof fn lemma_find_skips_ws(w: Seq<char>, y: Seq<char>, m: Seq<char>, f: int)
    requires
        0 <= f <= w.len(),
        all_ws(w),
        m.len() > 0,
        !char_is_whitespace(m[0]),
    ensures
        find_from(w + y, m, f) == find_from(w + y, m, w.len() as int),
    decreases w.len() - f,
{
    let s = w + y;
    if f < w.len() {
        if occurs_at(s, m, f) {
            assert(s.subrange(f, f + m.len())[0] == s[f]);
            assert(s[f] == w[f]);
        }
        if f + m.len() <= s.len() {
            lemma_find_skips_ws(w, y, m, f + 1);
        } else {
            lemma_find_from(s, m, f);
            lemma_find_from(s, m, w.len() as int);
        }
    }
}

/// Whitespace in front of the text still to be stripped can as well be
/// counted as already kept.
proof fn lemma_wt_ws_rest(acc: Seq<char>, w: Seq<char>, y: Seq<char>)
    requires
        all_ws(w),
    ensures
        without_think_from(acc, w + y) == without_think_from(acc + w, y),
{
    reveal_strlit("<think>");
    reveal_strlit("</think>");
    let s = w + y;
    let n = w.len() as int;
    let op = THINK_OPEN@;
    let cl = THINK_CLOSE@;
    lemma_find_skips_ws(w, y, op, 0);
    lemma_find_from_ws_prefix(w, y, op, 0);
    lemma_find_from(y, op, 0);
    match find(y, op) {
        None => {
            assert(acc + s =~= (acc + w) + y);
        },
        Some(st) => {
            lemma_find_from_ws_prefix(w, y, cl, st);
            assert(acc + s.take(st + n) =~= (acc + w) + y.take(st));
            match find_from(y, cl, st) {
                None => {},
                Some(ca) => {
                    lemma_find_from(y, cl, st);
                    assert(s.skip(ca + n + cl.len()) =~= y.skip(ca + cl.len()));
                },
            }
            assert(acc + s =~= (acc + w) + y);
        },
    }
}

/// Whitespace at the front of the kept text does not survive the final
/// trim.
proof fn lemma_wt_ws_acc(w: Seq<char>, acc: Seq<char>, rest: Seq<char>)
    requires
        all_ws(w),
    ensures
        trim(without_think_from(w + acc, rest)) == trim(without_think_from(acc, rest)),
    decreases rest.len(),
{
    reveal_strlit("</think>");
    match find(rest, THINK_OPEN@) {
        None => {
            assert(w + acc + rest =~= w + (acc + rest));
            lemma_trim_ws_prefix(w, acc + rest);
        },
        Some(start) => match find_from(rest, THINK_CLOSE@, start) {
            None => {
                assert(w + acc + rest.take(start) =~= w + (acc + rest.take(start)));
                lemma_trim_ws_prefix(w, acc + rest.take(start));
            },
            Some(close_at) => {
                lemma_find_from(rest, THINK_CLOSE@, start);
                lemma_find_from(rest, THINK_OPEN@, 0);
                if 0 <= start <= close_at && close_at + THINK_CLOSE@.len() <= rest.len() {
                    assert(w + acc + rest.take(start) =~= w + (acc + rest.take(start)));
                    lemma_wt_ws_acc(w, acc + rest.take(start), rest.skip(close_at + THINK_CLOSE@.len()));
                } else {
                    assert(w + acc + rest =~= w + (acc + rest));
                    lemma_trim_ws_prefix(w, acc + rest);
                }
            },
        },
    }
}

/// Stripping reasoning and trimming does not care about leading
/// whitespace.
proof fn lemma_wt_leading_ws(w: Seq<char>, y: Seq<char>)
    requires
        all_ws(w),
    ensures
        trim(without_think(w + y)) == trim(without_think(y)),
{
    let e = Seq::<char>::empty();
    lemma_wt_ws_rest(e, w, y);
    assert(e + w =~= w + e);
    lemma_wt_ws_acc(w, e, y);
}

/// Trimming before stripping reasoning changes nothing once the result is
/// trimmed.
proof fn lemma_wt_trim(o: Seq<char>)
    ensures
        trim(without_think(trim_end(o))) == trim(without_think(trim(o))),
{
    lemma_trim_start_blank(o);
    let y = trim_start(o);
    lemma_trim_start_is_suffix(o);
    let k = o.len() - y.len();
    let w = o.take(k);
    assert(o =~= w + y);
    if y.len() > 0 {
        lemma_trim_end_keeps_first(y);
        lemma_trim_end_concat(w, y);
        lemma_wt_leading_ws(w, trim_end(y));
    } else {
        assert(all_ws(o));
        lemma_trim_end_all_ws(o);
        assert(trim(o) == trim_end(y));
    }
}

proof fn lemma_trim_end_all_ws(o: Seq<char>)
    requires
        all_ws(o),
    ensures
        trim_end(o).len() == 0,
    decreases o.len(),
{
    if o.len() > 0 {
        assert forall|j: int| 0 <= j < o.drop_last().len() implies char_is_whitespace(
            #[trigger] o.drop_last()[j],
        ) by {
            assert(o.drop_last()[j] == o[j]);
        }
        lemma_trim_end_all_ws(o.drop_last());
    }
}

proof fn lemma_trim_start_is_suffix(o: Seq<char>)
    ensures
        trim_start(o).len() <= o.len(),
        trim_start(o) == o.skip(o.len() - trim_start(o).len()),
        all_ws(o.take(o.len() - trim_start(o).len())),
    decreases o.len(),
{
    if o.len() > 0 && char_is_whitespace(o[0]) {
        lemma_trim_start_is_suffix(o.drop_first());
        let t = trim_start(o.drop_first());
        let k = o.drop_first().len() - t.len();
        assert(o.drop_first().skip(k) =~= o.skip(k + 1));
        assert forall|j: int| 0 <= j < k + 1 implies char_is_whitespace(#[trigger] o.take(k + 1)[j]) by {
            if j > 0 {
                assert(o.take(k + 1)[j] == o.drop_first().take(k)[j - 1]);
            }
        }
    } else {
        assert(o.skip(0) =~= o);
        assert(o.take(0).len() == 0);
    }
}

/// A reasoning block `<think>r</think>` in front of the output (one whose
/// first close is its own) never reaches the stored title: the title is
/// the one the output without the block gives, whatever follows it.
pub proof fn law_title_ignores_reasoning(r: Seq<char>, o: Seq<char>)
    requires
        find(THINK_OPEN@ + r + THINK_CLOSE@, THINK_CLOSE@) == Some(
            (THINK_OPEN@.len() + r.len()) as int,
        ),
    ensures
        title_of(THINK_OPEN@ + r + THINK_CLOSE@ + o) == title_of(o),
{
    reveal_strlit("<think>");
    reveal_strlit("</think>");
    let x = THINK_OPEN@ + r + THINK_CLOSE@;
    let xo = x + o;
    // trimming the whole output keeps the block in front
    assert(xo[0] == '<');
    assert(trim_start(xo) == xo);
    assert(x.last() == '>');
    lemma_trim_end_concat(x, o);
    let o2 = trim_end(o);
    assert(trim(xo) == x + o2);
    // stripping removes the block
    let s = x + o2;
    assert(s.subrange(0, 7) =~= THINK_OPEN@);
    lemma_find_from_at(s, THINK_OPEN@, 0, 0);
    lemma_find_extend(x, o2, THINK_CLOSE@);
    let ca = x.len() - 8;
    lemma_find_from(s, THINK_CLOSE@, 0);
    let e = Seq::<char>::empty();
    assert(e + s.take(0) =~= e);
    assert(s.skip(ca + 8) =~= o2);
    assert(without_think(s) == without_think_from(e, o2));
    // the rest of the title depends only on the trimmed, stripped text
    lemma_wt_trim(o);
}

/// Text without a `<think>` marker comes back unchanged from stripping.
pub proof fn law_no_think_unchanged(s: Seq<char>)
    requires
        !crate::text::contains(s, THINK_OPEN@),
    ensures
        without_think(s) == s,
{
    assert(Seq::<char>::empty() + s =~= s);
}

} // verus!
