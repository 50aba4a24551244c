//! The summarization queue and the small decisions around a summary run:
//! which meeting runs, which wait, what a preempted run does, the
//! transcript a run needs, and the title a finished run gives its meeting.
use vstd::prelude::*;

use crate::errors::AppError;
use crate::models::settings::AppSettings;
use crate::services::database::{transcript_of, transcript_text, SegmentRow};
use crate::text::{append_str, contains_string, owned, str_eq, trim, trim_str, views};

verus! {

/// Which meeting is being summarized and which wait, oldest first.
pub struct SummarizationQueue {
    pub active: Option<String>,
    pub pending: Vec<String>,
}

pub struct QueueView {
    pub active: Option<Seq<char>>,
    pub pending: Seq<Seq<char>>,
}

impl View for SummarizationQueue {
    type V = QueueView;

    open spec fn view(&self) -> QueueView {
        QueueView {
            active: match self.active {
                Some(a) => Some(a@),
                None => None,
            },
            pending: views(self.pending@),
        }
    }
}

/// How a summarization request was taken.
#[derive(Debug, Clone, Copy, PartialEq, Eq, Structural)]
pub enum QueueStart {
    /// Nothing was running: the meeting runs now.
    Started,
    /// Another meeting is running: this one waits its turn.
    Queued,
}

/// No meeting is both running and waiting, and none waits twice.
pub open spec fn queue_unique(q: QueueView) -> bool {
    &&& q.pending.no_duplicates()
    &&& (q.active matches Some(a) ==> !q.pending.contains(a))
}

/// Whether a meeting is running or waiting.
pub open spec fn in_queue(q: QueueView, id: Seq<char>) -> bool {
    q.active == Some(id) || q.pending.contains(id)
}

impl SummarizationQueue {
    /// An idle queue.
    pub fn new() -> (r: SummarizationQueue)
        ensures
            r@.active is None,
            r@.pending.len() == 0,
    {
        SummarizationQueue { active: None, pending: Vec::new() }
    }

    /// Asks for a meeting's summary. A meeting already running or waiting is
    /// refused; otherwise it runs at once when nothing is running, else it
    /// waits at the back. The queue never holds a meeting twice.
    pub fn request(&mut self, meeting_id: String) -> (r: Result<QueueStart, AppError>)
        ensures
            in_queue(old(self)@, meeting_id@) ==> {
                &&& r matches Err(AppError::SummarizationFailed(m)) && m@
                    == "This meeting is already being summarized or queued"@
                &&& final(self)@ == old(self)@
            },
            !in_queue(old(self)@, meeting_id@) && old(self)@.active is Some ==> {
                &&& r == Ok::<QueueStart, AppError>(QueueStart::Queued)
                &&& final(self)@.active == old(self)@.active
                &&& final(self)@.pending == old(self)@.pending.push(meeting_id@)
            },
            !in_queue(old(self)@, meeting_id@) && old(self)@.active is None ==> {
                &&& r == Ok::<QueueStart, AppError>(QueueStart::Started)
                &&& final(self)@.active == Some(meeting_id@)
                &&& final(self)@.pending == old(self)@.pending
            },
            queue_unique(old(self)@) ==> queue_unique(final(self)@),
    {
        let running = match &self.active {
            Some(a) => str_eq(a.as_str(), meeting_id.as_str()),
            None => false,
        };
        if running || contains_string(self.pending.as_slice(), &meeting_id) {
            return Err(
                AppError::SummarizationFailed(
                    owned("This meeting is already being summarized or queued"),
                ),
            );
        }
        if self.active.is_some() {
            let ghost before = views(self.pending@);
            self.pending.push(meeting_id);
            assert(views(self.pending@) =~= before.push(meeting_id@));
            return Ok(QueueStart::Queued);
        }
        self.active = Some(meeting_id);
        Ok(QueueStart::Started)
    }

    /// The running summary ended (finished or failed): nothing runs.
    pub fn finish(&mut self)
        ensures
            final(self)@.active is None,
            final(self)@.pending == old(self)@.pending,
            queue_unique(old(self)@) ==> queue_unique(final(self)@),
    {
        self.active = None;
    }

    /// The running summary gave way to a chat: it goes back to the front of
    /// the queue, to resume first.
    pub fn preempt(&mut self)
        ensures
            final(self)@.active is None,
            final(self)@.pending == match old(self)@.active {
                Some(a) => seq![a] + old(self)@.pending,
                None => old(self)@.pending,
            },
            queue_unique(old(self)@) ==> queue_unique(final(self)@),
    {
        let taken = self.active.take();
        match taken {
            Some(a) => {
                let ghost av = a@;
                let ghost before = views(self.pending@);
                self.pending.insert(0, a);
                assert(views(self.pending@) =~= seq![av] + before);
            },
            None => {},
        }
    }

    /// Starts the meeting that has waited longest, if any.
    pub fn start_next(&mut self) -> (r: Option<String>)
        requires
            old(self)@.active is None,
        ensures
            old(self)@.pending.len() == 0 ==> r is None && final(self)@ == old(self)@,
            old(self)@.pending.len() > 0 ==> {
                &&& r matches Some(id) && id@ == old(self)@.pending[0]
                &&& final(self)@.active == Some(old(self)@.pending[0])
                &&& final(self)@.pending == old(self)@.pending.drop_first()
            },
            queue_unique(old(self)@) ==> queue_unique(final(self)@),
    {
        if self.pending.len() == 0 {
            return None;
        }
        let ghost before = views(self.pending@);
        let next = self.pending.remove(0);
        assert(views(self.pending@) =~= before.drop_first());
        let r = next.clone();
        self.active = Some(next);
        Some(r)
    }
}

/// The transcript a summary is made from; an empty transcript is refused.
pub fn summary_transcript(segments: &[SegmentRow]) -> (r: Result<String, AppError>)
    ensures
        transcript_of(segments@).len() == 0 ==> (r matches Err(AppError::SummarizationFailed(m))
            && m@ == "No transcript to summarize"@),
        transcript_of(segments@).len() > 0 ==> (r matches Ok(t) && t@ == transcript_of(
            segments@,
        )),
{
    let t = transcript_text(segments);
    if t.as_str().is_empty() {
        Err(AppError::SummarizationFailed(owned("No transcript to summarize")))
    } else {
        Ok(t)
    }
}

/// The title a meeting gets from a generated title: appended to the title
/// it already has, unless that is empty or the placeholder `Recording`.
pub open spec fn combined_title(existing: Option<Seq<char>>, generated: Seq<char>) -> Seq<char> {
    match existing {
        Some(e) => if trim(e).len() > 0 && trim(e) != "Recording"@ {
            trim(e) + " — "@ + generated
        } else {
            generated
        },
        None => generated,
    }
}

/// Combines a meeting's current title with a generated one.
pub fn combine_title(existing: Option<&str>, generated: &str) -> (r: String)
    ensures
        r@ == combined_title(
            match existing {
                Some(e) => Some(e@),
                None => None,
            },
            generated@,
        ),
{
    match existing {
        Some(e) => {
            let t = trim_str(e);
            if !t.as_str().is_empty() && !str_eq(t.as_str(), "Recording") {
                let mut r = t;
                append_str(&mut r, " — ");
                append_str(&mut r, generated);
                r
            } else {
                owned(generated)
            }
        },
        None => owned(generated),
    }
}

/// After a template is deleted: the app-wide default no longer names it.
/// Returns whether the settings changed.
pub fn forget_default_template(settings: &mut AppSettings, id: &str) -> (changed: bool)
    ensures
        changed == (old(settings).default_template matches Some(d) && d@ == id@),
        changed ==> final(settings).default_template is None,
        !changed ==> *final(settings) == *old(settings),
        final(settings).selected_model == old(settings).selected_model,
        final(settings).selected_llm_model == old(settings).selected_llm_model,
        final(settings).llm_provider == old(settings).llm_provider,
        final(settings).ollama == old(settings).ollama,
        final(settings).live_minutes_enabled == old(settings).live_minutes_enabled,
        final(settings).recording_consent_acknowledged
            == old(settings).recording_consent_acknowledged,
{
    let hit = match &settings.default_template {
        Some(d) => str_eq(d.as_str(), id),
        None => false,
    };
    if hit {
        settings.default_template = None;
    }
    hit
}

} // verus!
