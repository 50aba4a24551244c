//! The decisions of the recorder: whether a start, pause or resume may go
//! ahead, the state the user interface shows, the total recorded time, and
//! how recognised segments become transcript events. Capture, timing and
//! speech recognition themselves are performed by the caller.
use vstd::prelude::*;

use crate::errors::AppError;
use crate::models::audio::{AudioSource, RecordingStateEvent, TranscriptEvent, TranscriptEventView};
use crate::services::licensing::sat_add;
use crate::services::transcription::TimestampedSegment;
use crate::text::{join, join_strings, owned, views};

verus! {

/// The label of an audio source in events and stored segments.
pub fn source_label(source: AudioSource) -> (r: &'static str)
    ensures
        r@ == match source {
            AudioSource::SystemAudio => "system"@,
            AudioSource::Microphone => "microphone"@,
        },
{
    match source {
        AudioSource::SystemAudio => "system",
        AudioSource::Microphone => "microphone",
    }
}

/// What the recorder is doing: capturing audio, saving a stopped
/// recording, and whether the session clock is set.
#[derive(Debug, Clone, Copy, PartialEq, Eq, Structural)]
pub struct CaptureStatus {
    pub capturing: bool,
    pub finalizing: bool,
    pub has_clock: bool,
}

/// The refusal while a stopped recording is still being saved.
pub open spec fn still_saving() -> Seq<char> {
    "Still saving the previous recording. Try again in a moment."@
}

/// Whether a recording may start: screen-recording permission is needed, a
/// previous recording must be saved, and nothing may be recording already.
pub fn check_start(screen_permission: bool, status: CaptureStatus) -> (r: Result<(), AppError>)
    ensures
        !screen_permission ==> (r matches Err(AppError::PermissionDenied(m)) && m@
            == "Screen recording permission is required to capture audio."@),
        screen_permission && status.finalizing ==> (r matches Err(AppError::CaptureFailed(m))
            && m@ == still_saving()),
        screen_permission && !status.finalizing && status.capturing ==> (r matches Err(
            AppError::CaptureFailed(m),
        ) && m@ == "Already recording"@),
        r is Ok <==> screen_permission && !status.finalizing && !status.capturing,
{
    if !screen_permission {
        return Err(
            AppError::PermissionDenied(
                owned("Screen recording permission is required to capture audio."),
            ),
        );
    }
    if status.finalizing {
        return Err(
            AppError::CaptureFailed(
                owned("Still saving the previous recording. Try again in a moment."),
            ),
        );
    }
    if status.capturing {
        return Err(AppError::CaptureFailed(owned("Already recording")));
    }
    Ok(())
}

/// The meeting a start continues: the given id when it is not empty;
/// otherwise a new meeting is created.
pub fn resume_target(resume_meeting_id: Option<String>) -> (r: Option<String>)
    ensures
        match resume_meeting_id {
            Some(id) => if id@.len() > 0 {
                r matches Some(t) && t@ == id@
            } else {
                r is None
            },
            None => r is None,
        },
{
    match resume_meeting_id {
        Some(id) => if id.as_str().is_empty() {
            None
        } else {
            Some(id)
        },
        None => None,
    }
}

/// Whether a pause has work to do: refused while a recording is being
/// saved, nothing to do when not capturing.
pub fn check_pause(status: CaptureStatus) -> (r: Result<bool, AppError>)
    ensures
        status.finalizing ==> (r matches Err(AppError::CaptureFailed(m)) && m@
            == "Cannot pause while saving recording."@),
        !status.finalizing ==> r == Ok::<bool, AppError>(status.capturing),
{
    if status.finalizing {
        return Err(AppError::CaptureFailed(owned("Cannot pause while saving recording.")));
    }
    Ok(status.capturing)
}

/// The meeting a resume continues: refused while a recording is being
/// saved, nothing to do (`None`) when already capturing, and refused without
/// a paused meeting or its clock.
pub fn check_resume(status: CaptureStatus, session: Option<String>) -> (r: Result<
    Option<String>,
    AppError,
>)
    ensures
        status.finalizing ==> (r matches Err(AppError::CaptureFailed(m)) && m@ == still_saving()),
        !status.finalizing && status.capturing ==> (r matches Ok(None)),
        !status.finalizing && !status.capturing && session is None ==> (r matches Err(
            AppError::CaptureFailed(m),
        ) && m@ == "No meeting to resume"@),
        !status.finalizing && !status.capturing && session is Some && !status.has_clock ==> (
        r matches Err(AppError::CaptureFailed(m)) && m@ == "Missing session clock"@),
        !status.finalizing && !status.capturing && status.has_clock ==> match session {
            Some(id) => r matches Ok(Some(t)) && t@ == id@,
            None => r is Err,
        },
{
    if status.finalizing {
        return Err(
            AppError::CaptureFailed(
                owned("Still saving the previous recording. Try again in a moment."),
            ),
        );
    }
    if status.capturing {
        return Ok(None);
    }
    match session {
        None => Err(AppError::CaptureFailed(owned("No meeting to resume"))),
        Some(id) => if !status.has_clock {
            Err(AppError::CaptureFailed(owned("Missing session clock")))
        } else {
            Ok(Some(id))
        },
    }
}

/// The recording state shown to the user: a meeting is paused when it has
/// a session but is neither capturing nor being saved.
pub fn recording_state_event(status: CaptureStatus, meeting_id: Option<String>, elapsed_secs: u64) -> (r:
    RecordingStateEvent)
    ensures
        r.recording == status.capturing,
        r.paused == (meeting_id is Some && !status.capturing && !status.finalizing),
        r.meeting_id == meeting_id,
        r.elapsed_secs == elapsed_secs,
        !r.reset_live_transcript,
{
    let paused = meeting_id.is_some() && !status.capturing && !status.finalizing;
    RecordingStateEvent {
        recording: status.capturing,
        paused,
        meeting_id,
        elapsed_secs,
        reset_live_transcript: false,
    }
}

/// A meeting's recorded time after another session: the earlier total plus
/// the session, saturating.
pub fn total_recorded_ms(previous_ms: i64, session_ms: i64) -> (r: i64)
    ensures
        r == sat_add(previous_ms as int, session_ms as int),
{
    if session_ms > 0 && previous_ms > i64::MAX - session_ms {
        i64::MAX
    } else if session_ms < 0 && previous_ms < i64::MIN - session_ms {
        i64::MIN
    } else {
        previous_ms + session_ms
    }
}

// ---------------------------------------------------------------------------
// Transcript events
// ---------------------------------------------------------------------------

/// An audio buffer sent for recognition: its source label and the time of
/// its first sample, in milliseconds from the start of the meeting.
pub struct BatchSource {
    pub label: String,
    pub timestamp_ms: u64,
}

pub open spec fn transcript_views(v: Seq<TranscriptEvent>) -> Seq<TranscriptEventView> {
    v.map_values(|e: TranscriptEvent| e@)
}

/// The texts of a buffer's segments joined with spaces.
pub open spec fn joined_text(segments: Seq<TimestampedSegment>) -> Seq<char> {
    join(segments.map_values(|s: TimestampedSegment| s.text@), " "@)
}

/// The preview events of the first `n` buffers: one per buffer that
/// produced segments, with their joined text.
pub open spec fn preview_events(
    items: Seq<BatchSource>,
    lists: Seq<Vec<TimestampedSegment>>,
    n: int,
) -> Seq<TranscriptEventView>
    decreases n,
{
    if n <= 0 {
        Seq::empty()
    } else {
        let prev = preview_events(items, lists, n - 1);
        if lists[n - 1]@.len() > 0 {
            prev.push(
                TranscriptEventView {
                    text: joined_text(lists[n - 1]@),
                    source: items[n - 1].label@,
                    timestamp_ms: items[n - 1].timestamp_ms,
                    is_provisional: true,
                },
            )
        } else {
            prev
        }
    }
}

/// The absolute time of a segment: its buffer's start plus its offset.
pub open spec fn segment_time(item: BatchSource, s: TimestampedSegment) -> u64 {
    (item.timestamp_ms + s.start_cs * 10) as u64
}

/// The final events of one buffer, one per segment, in order.
pub open spec fn buffer_events(item: BatchSource, segments: Seq<TimestampedSegment>) -> Seq<
    TranscriptEventView,
> {
    segments.map_values(
        |s: TimestampedSegment|
            TranscriptEventView {
                text: s.text@,
                source: item.label@,
                timestamp_ms: segment_time(item, s),
                is_provisional: false,
            },
    )
}

/// The final events of the first `n` buffers, buffer by buffer.
pub open spec fn tagged_events(
    items: Seq<BatchSource>,
    lists: Seq<Vec<TimestampedSegment>>,
    n: int,
) -> Seq<TranscriptEventView>
    decreases n,
{
    if n <= 0 {
        Seq::empty()
    } else {
        tagged_events(items, lists, n - 1) + buffer_events(items[n - 1], lists[n - 1]@)
    }
}

/// The context each source's next recognition is primed with: for each of
/// the first `n` buffers that produced segments, its label and joined text
/// (a later entry for the same label replaces an earlier one).
pub open spec fn context_updates(
    items: Seq<BatchSource>,
    lists: Seq<Vec<TimestampedSegment>>,
    n: int,
) -> Seq<(Seq<char>, Seq<char>)>
    decreases n,
{
    if n <= 0 {
        Seq::empty()
    } else {
        let prev = context_updates(items, lists, n - 1);
        if lists[n - 1]@.len() > 0 {
            prev.push((items[n - 1].label@, joined_text(lists[n - 1]@)))
        } else {
            prev
        }
    }
}

/// `e` placed after every event of `s` that is not later than it (`s`
/// already in time order).
pub open spec fn insert_by_time(s: Seq<TranscriptEventView>, e: TranscriptEventView) -> Seq<
    TranscriptEventView,
>
    decreases s.len(),
{
    if s.len() == 0 || s.last().timestamp_ms <= e.timestamp_ms {
        s.push(e)
    } else {
        insert_by_time(s.drop_last(), e).push(s.last())
    }
}

/// `s` in time order, events with equal times keeping their order (a
/// stable sort by timestamp).
pub open spec fn by_time(s: Seq<TranscriptEventView>) -> Seq<TranscriptEventView>
    decreases s.len(),
{
    if s.len() == 0 {
        s
    } else {
        insert_by_time(by_time(s.drop_last()), s.last())
    }
}

/// Whether events are in nondecreasing time order.
pub open spec fn chronological(s: Seq<TranscriptEventView>) -> bool {
    forall|i: int, j: int| 0 <= i <= j < s.len() ==> s[i].timestamp_ms <= s[j].timestamp_ms
}

proof fn lemma_insert_at(s: Seq<TranscriptEventView>, e: TranscriptEventView, j: int)
    requires
        0 <= j <= s.len(),
        forall|m: int| j <= m < s.len() ==> s[m].timestamp_ms > e.timestamp_ms,
        j > 0 ==> s[j - 1].timestamp_ms <= e.timestamp_ms,
    ensures
        insert_by_time(s, e) == s.insert(j, e),
    decreases s.len(),
{
    if s.len() == j {
        assert(s.insert(j, e) =~= s.push(e));
    } else {
        lemma_insert_at(s.drop_last(), e, j);
        assert(s.insert(j, e) =~= s.drop_last().insert(j, e).push(s.last()));
    }
}

proof fn lemma_insert_keeps_order(s: Seq<TranscriptEventView>, e: TranscriptEventView)
    requires
        chronological(s),
    ensures
        chronological(insert_by_time(s, e)),
        insert_by_time(s, e).len() == s.len() + 1,
    decreases s.len(),
{
    if s.len() == 0 || s.last().timestamp_ms <= e.timestamp_ms {
        let r = s.push(e);
        assert forall|i: int, j: int| 0 <= i <= j < r.len() implies r[i].timestamp_ms
            <= r[j].timestamp_ms by {
            if j == r.len() - 1 && i < j {
                assert(s[i].timestamp_ms <= s[s.len() - 1].timestamp_ms);
            }
        }
    } else {
        let t = s.drop_last();
        assert(chronological(t));
        lemma_insert_keeps_order(t, e);
        let u = insert_by_time(t, e);
        let r = u.push(s.last());
        lemma_insert_members(t, e);
        assert forall|i: int, j: int| 0 <= i <= j < r.len() implies r[i].timestamp_ms
            <= r[j].timestamp_ms by {
            if j == r.len() - 1 && i < j {
                assert(u[i].timestamp_ms <= s.last().timestamp_ms);
            }
        }
    }
}

proof fn lemma_insert_members(s: Seq<TranscriptEventView>, e: TranscriptEventView)
    requires
        chronological(s),
        s.len() > 0 ==> s.last().timestamp_ms <= s.last().timestamp_ms,
    ensures
        forall|i: int|
            0 <= i < insert_by_time(s, e).len() ==> (insert_by_time(s, e)[i] == e || exists|
                m: int,
            | 0 <= m < s.len() && insert_by_time(s, e)[i] == s[m]),
    decreases s.len(),
{
    if s.len() == 0 || s.last().timestamp_ms <= e.timestamp_ms {
        let r = s.push(e);
        assert forall|i: int| 0 <= i < r.len() implies (r[i] == e || exists|m: int|
            0 <= m < s.len() && r[i] == s[m]) by {
            if i < s.len() {
                assert(r[i] == s[i]);
            }
        }
    } else {
        let t = s.drop_last();
        lemma_insert_members(t, e);
        let r = insert_by_time(t, e).push(s.last());
        assert forall|i: int| 0 <= i < r.len() implies (r[i] == e || exists|m: int|
            0 <= m < s.len() && r[i] == s[m]) by {
            if i == r.len() - 1 {
                assert(r[i] == s[s.len() - 1]);
            } else {
                let u = insert_by_time(t, e);
                assert(r[i] == u[i]);
                if u[i] != e {
                    let m = choose|m: int| 0 <= m < t.len() && u[i] == t[m];
                    assert(r[i] == s[m]);
                }
            }
        }
    }
}

/// Final transcript events are emitted in time order: whatever the
/// buffers and their segments, the events after sorting never go back in
/// time, and none is lost or added.
pub proof fn law_events_chronological(s: Seq<TranscriptEventView>)
    ensures
        chronological(by_time(s)),
        by_time(s).len() == s.len(),
    decreases s.len(),
{
    if s.len() > 0 {
        law_events_chronological(s.drop_last());
        lemma_insert_keeps_order(by_time(s.drop_last()), s.last());
    }
}

/// Sorts events by time, keeping the order of events with equal times.
pub fn sort_by_time(events: Vec<TranscriptEvent>) -> (r: Vec<TranscriptEvent>)
    ensures
        transcript_views(r@) == by_time(transcript_views(events@)),
{
    let ghost input = transcript_views(events@);
    let mut out: Vec<TranscriptEvent> = Vec::new();
    let mut rest = events;
    let n = rest.len();
    let mut k: usize = 0;
    while rest.len() > 0
        invariant
            k <= n,
            n == input.len(),
            rest.len() + k == n,
            transcript_views(rest@) == input.skip(k as int),
            transcript_views(out@) == by_time(input.take(k as int)),
            chronological(transcript_views(out@)),
        decreases rest.len(),
    {
        let ghost rv = transcript_views(rest@);
        let e = rest.remove(0);
        proof {
            assert(e@ == rv[0]);
            assert(rv[0] == input[k as int]);
            assert(transcript_views(rest@) =~= rv.remove(0));
            assert(rv.remove(0) =~= input.skip(k + 1));
        }
        let ghost ov = transcript_views(out@);
        let mut j = out.len();
        while j > 0 && out[j - 1].timestamp_ms > e.timestamp_ms
            invariant
                j <= out.len(),
                transcript_views(out@) == ov,
                forall|m: int| j <= m < ov.len() ==> ov[m].timestamp_ms > e.timestamp_ms,
            decreases j,
        {
            j = j - 1;
        }
        proof {
            lemma_insert_at(ov, e@, j as int);
            lemma_insert_keeps_order(ov, e@);
            assert(input.take(k + 1).drop_last() =~= input.take(k as int));
            assert(input.take(k + 1).last() == e@);
        }
        out.insert(j, e);
        assert(transcript_views(out@) =~= ov.insert(j as int, e@));
        k = k + 1;
    }
    assert(input.take(n as int) =~= input);
    out
}

fn joined_segment_text(segments: &[TimestampedSegment]) -> (r: String)
    ensures
        r@ == joined_text(segments@),
{
    let mut texts: Vec<String> = Vec::new();
    for k in 0..segments.len()
        invariant
            views(texts@) == segments@.take(k as int).map_values(|s: TimestampedSegment| s.text@),
    {
        let ghost before = views(texts@);
        texts.push(segments[k].text.clone());
        assert(views(texts@) =~= before.push(segments@[k as int].text@));
        assert(segments@.take(k + 1).map_values(|s: TimestampedSegment| s.text@) =~= segments@.take(
            k as int,
        ).map_values(|s: TimestampedSegment| s.text@).push(segments@[k as int].text@));
    }
    assert(segments@.take(segments.len() as int) =~= segments@);
    join_strings(texts.as_slice(), " ")
}

/// The preview events of a window still being recorded: one event per
/// buffer that produced segments, with their joined text.
pub fn preview_transcript_events(items: &[BatchSource], lists: &[Vec<TimestampedSegment>]) -> (r:
    Vec<TranscriptEvent>)
    ensures
        transcript_views(r@) == preview_events(
            items@,
            lists@,
            if items.len() <= lists.len() {
                items.len() as int
            } else {
                lists.len() as int
            },
        ),
{
    let n = if items.len() <= lists.len() {
        items.len()
    } else {
        lists.len()
    };
    let mut out: Vec<TranscriptEvent> = Vec::new();
    for k in 0..n
        invariant
            n <= items.len(),
            n <= lists.len(),
            transcript_views(out@) == preview_events(items@, lists@, k as int),
    {
        if lists[k].len() > 0 {
            let text = joined_segment_text(lists[k].as_slice());
            let ghost before = transcript_views(out@);
            out.push(
                TranscriptEvent {
                    text,
                    source: items[k].label.clone(),
                    timestamp_ms: items[k].timestamp_ms,
                    is_provisional: true,
                },
            );
            assert(transcript_views(out@) =~= preview_events(items@, lists@, k + 1));
        }
    }
    out
}

/// Whether every segment of a buffer starts at a representable time.
pub open spec fn times_fit(item: BatchSource, segments: Seq<TimestampedSegment>) -> bool {
    forall|j: int|
        0 <= j < segments.len() ==> segments[j].start_cs >= 0 && item.timestamp_ms
            + segments[j].start_cs * 10 <= u64::MAX
}

fn append_buffer_events(
    out: &mut Vec<TranscriptEvent>,
    item: &BatchSource,
    segments: &[TimestampedSegment],
)
    requires
        times_fit(*item, segments@),
    ensures
        transcript_views(final(out)@) == transcript_views(old(out)@) + buffer_events(
            *item,
            segments@,
        ),
{
    let ghost start = transcript_views(out@);
    for j in 0..segments.len()
        invariant
            times_fit(*item, segments@),
            transcript_views(out@) == start + buffer_events(*item, segments@.take(j as int)),
    {
        let s = &segments[j];
        let t: u64 = item.timestamp_ms + (s.start_cs as u64) * 10;
        let ghost before = transcript_views(out@);
        out.push(
            TranscriptEvent {
                text: s.text.clone(),
                source: item.label.clone(),
                timestamp_ms: t,
                is_provisional: false,
            },
        );
        assert(transcript_views(out@) =~= before.push(buffer_events(*item, segments@)[j as int]));
        assert(buffer_events(*item, segments@.take(j + 1)) =~= buffer_events(
            *item,
            segments@.take(j as int),
        ).push(buffer_events(*item, segments@)[j as int]));
    }
    assert(segments@.take(segments.len() as int) =~= segments@);
}

/// The final events of a recorded window, in time order across sources,
/// and the context updates for the next window.
pub fn final_transcript_events(items: &[BatchSource], lists: &[Vec<TimestampedSegment>]) -> (r: (
    Vec<TranscriptEvent>,
    Vec<(String, String)>,
))
    requires
        forall|k: int|
            0 <= k < items.len() && k < lists.len() ==> times_fit(#[trigger] items@[k], lists@[k]@),
    ensures
        ({
            let n = if items.len() <= lists.len() {
                items.len() as int
            } else {
                lists.len() as int
            };
            &&& transcript_views(r.0@) == by_time(tagged_events(items@, lists@, n))
            &&& r.1@.map_values(|p: (String, String)| (p.0@, p.1@)) == context_updates(
                items@,
                lists@,
                n,
            )
        }),
{
    let n = if items.len() <= lists.len() {
        items.len()
    } else {
        lists.len()
    };
    let mut tagged: Vec<TranscriptEvent> = Vec::new();
    let mut context: Vec<(String, String)> = Vec::new();
    for k in 0..n
        invariant
            n <= items.len(),
            n <= lists.len(),
            forall|m: int|
                0 <= m < items.len() && m < lists.len() ==> times_fit(
                    #[trigger] items@[m],
                    lists@[m]@,
                ),
            transcript_views(tagged@) == tagged_events(items@, lists@, k as int),
            context@.map_values(|p: (String, String)| (p.0@, p.1@)) == context_updates(
                items@,
                lists@,
                k as int,
            ),
    {
        assert(times_fit(items@[k as int], lists@[k as int]@));
        append_buffer_events(&mut tagged, &items[k], lists[k].as_slice());
        if lists[k].len() > 0 {
            let text = joined_segment_text(lists[k].as_slice());
            let ghost before = context@.map_values(|p: (String, String)| (p.0@, p.1@));
            context.push((items[k].label.clone(), text));
            assert(context@.map_values(|p: (String, String)| (p.0@, p.1@)) =~= before.push(
                (items@[k as int].label@, joined_text(lists@[k as int]@)),
            ));
        }
    }
    (sort_by_time(tagged), context)
}

} // verus!
