//! The rows the meeting store hands out. Storage itself (SQLite) is done by
//! the caller; these are the plain values the rest of the library reads.
use vstd::prelude::*;

use crate::text::{append_str, join, join_strings, owned, str_eq, views};

verus! {

/// A recorded meeting.
pub struct MeetingRow {
    pub id: String,
    pub title: Option<String>,
    pub created_at: i64,
    pub ended_at: Option<i64>,
    pub duration_ms: Option<i64>,
}

/// A document attached to a meeting (its summary, notes, ...).
pub struct MeetingDocumentRow {
    pub id: String,
    pub meeting_id: String,
    pub kind: String,
    pub title: String,
    pub body: Option<String>,
    pub sort_order: i64,
    pub created_at: i64,
}

/// One transcribed segment of a meeting; `source` is `system` (the other
/// participants) or `microphone` (the user).
pub struct SegmentRow {
    pub id: i64,
    pub meeting_id: String,
    pub text: String,
    pub source: String,
    pub timestamp_ms: i64,
    pub prompt: Option<String>,
    pub created_at: i64,
}

/// A full-text search hit over past meetings.
pub struct SearchHit {
    pub meeting_id: String,
    pub meeting_title: Option<String>,
    pub meeting_created_at: i64,
    pub kind: String,
    pub snippet: String,
}

/// The line of a transcript for one segment: the other participants
/// (`system` audio) speak as `Speaker`, the user as `You`.
pub open spec fn speaker_line(source: Seq<char>, text: Seq<char>) -> Seq<char> {
    (if source == "system"@ {
        "Speaker"@
    } else {
        "You"@
    }) + ": "@ + text
}

/// A meeting's transcript: one speaker line per segment, in order.
pub open spec fn transcript_of(segments: Seq<SegmentRow>) -> Seq<char> {
    join(segments.map_values(|s: SegmentRow| speaker_line(s.source@, s.text@)), "\n"@)
}

/// The transcript text handed to the model: `Speaker: …` or `You: …` per
/// segment, one per line.
pub fn transcript_text(segments: &[SegmentRow]) -> (r: String)
    ensures
        r@ == transcript_of(segments@),
{
    let mut lines: Vec<String> = Vec::new();
    for k in 0..segments.len()
        invariant
            views(lines@) == segments@.take(k as int).map_values(
                |s: SegmentRow| speaker_line(s.source@, s.text@),
            ),
    {
        let s = &segments[k];
        let mut line = if str_eq(s.source.as_str(), "system") {
            owned("Speaker")
        } else {
            owned("You")
        };
        append_str(&mut line, ": ");
        append_str(&mut line, s.text.as_str());
        let ghost before = views(lines@);
        lines.push(line);
        assert(views(lines@) =~= before.push(speaker_line(s.source@, s.text@)));
        assert(segments@.take(k + 1).map_values(|s: SegmentRow| speaker_line(s.source@, s.text@))
            =~= segments@.take(k as int).map_values(
            |s: SegmentRow| speaker_line(s.source@, s.text@),
        ).push(speaker_line(s.source@, s.text@)));
    }
    assert(segments@.take(segments.len() as int) =~= segments@);
    join_strings(lines.as_slice(), "\n")
}

} // verus!
