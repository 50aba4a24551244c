//! Transcript-level deduplication.
//!
//! The mic and system audio are transcribed as two separate streams, so the
//! same speech can land in the transcript twice: as a cross-stream echo (the
//! mic re-capturing the far party, whose clean copy arrives on the system
//! stream) or as a window-boundary repeat (the transcriber re-emitting the
//! seam of the previous window on the same stream). Echoes drop the mic copy;
//! boundary repeats drop the newer copy. Matching is conservative: when
//! unsure, keep both.
//!
//! Similarity thresholds are exact ratios: two token sets match when their
//! Jaccard index is at least 18/25, or, when the smaller set has fewer than
//! 3/5 of the larger set's tokens, when the containment of the smaller in the
//! larger is at least 18/25.
use std::collections::VecDeque;

use vstd::prelude::*;

use crate::text::{
    char_is_alphanumeric, contains_string, join, is_alphanumeric, lowercase, str_chars, str_eq,
    string_from_chars, to_lowercase, views,
};

verus! {

broadcast use vstd::seq_lib::group_seq_properties;

/// Slack (ms) added to each segment's interval when checking time overlap.
pub const TIME_SLACK_MS: u64 = 1_500;

/// Segments with fewer tokens than this only match on an exact,
/// cross-source token match.
pub const MIN_TOKENS_FOR_FUZZY: usize = 4;

/// How long an accepted segment stays in the rolling buffer, measured back
/// from the newest segment's start.
pub const RETENTION_MS: u64 = 45_000;

// ---------------------------------------------------------------------------
// Tokenization
// ---------------------------------------------------------------------------

pub open spec fn is_apostrophe(c: char) -> bool {
    c == '\'' || c == '\u{2019}'
}

/// The token in progress, as a (possibly empty) list of finished tokens.
pub open spec fn flush_token(cur: Seq<char>) -> Seq<Seq<char>> {
    if cur.len() == 0 {
        Seq::empty()
    } else {
        seq![cur]
    }
}

/// The alphanumeric runs of `s`, continuing the token in progress `cur`.
/// Apostrophes are removed rather than split on; every other
/// non-alphanumeric character separates tokens.
pub open spec fn tokens_from(s: Seq<char>, cur: Seq<char>) -> Seq<Seq<char>>
    decreases s.len(),
{
    if s.len() == 0 {
        flush_token(cur)
    } else if is_apostrophe(s[0]) {
        tokens_from(s.drop_first(), cur)
    } else if char_is_alphanumeric(s[0]) {
        tokens_from(s.drop_first(), cur.push(s[0]))
    } else {
        flush_token(cur) + tokens_from(s.drop_first(), Seq::empty())
    }
}

/// The word tokens of `text`: lowercased, apostrophes removed, split into
/// non-empty alphanumeric runs.
pub open spec fn normalized(text: Seq<char>) -> Seq<Seq<char>> {
    tokens_from(lowercase(text), Seq::empty())
}

/// Lowercases `text` and splits it into alphanumeric word tokens, dropping
/// punctuation and collapsing whitespace. Apostrophes (straight and curly)
/// are removed rather than split on, so "let's" and "lets" give the same
/// token.
pub fn normalize(text: &str) -> (r: Vec<String>)
    ensures
        views(r@) == normalized(text@),
{
    let lower = to_lowercase(text);
    let cs = str_chars(lower.as_str());
    let mut out: Vec<String> = Vec::new();
    let mut cur: Vec<char> = Vec::new();
    for i in 0..cs.len()
        invariant
            cs@ == lowercase(text@),
            views(out@) + tokens_from(cs@.skip(i as int), cur@) == normalized(text@),
    {
        let c = cs[i];
        assert(cs@.skip(i as int).drop_first() == cs@.skip(i + 1));
        if c == '\'' || c == '\u{2019}' {
        } else if is_alphanumeric(c) {
            cur.push(c);
        } else {
            if cur.len() > 0 {
                let ghost before = views(out@);
                let t = string_from_chars(cur.as_slice());
                out.push(t);
                assert(views(out@) =~= before.push(cur@));
            }
            assert(views(out@) + tokens_from(cs@.skip(i + 1), Seq::empty()) == normalized(
                text@,
            ));
            cur = Vec::new();
        }
    }
    assert(cs@.skip(cs.len() as int) =~= Seq::<char>::empty());
    if cur.len() > 0 {
        let ghost before = views(out@);
        let t = string_from_chars(cur.as_slice());
        out.push(t);
        assert(views(out@) =~= before.push(cur@));
    } else {
        assert(views(out@) + Seq::<Seq<char>>::empty() =~= views(out@));
    }
    out
}

/// A word token: non-empty, every character alphanumeric and none an
/// apostrophe.
pub open spec fn token_ok(t: Seq<char>) -> bool {
    &&& t.len() > 0
    &&& forall|i: int|
        0 <= i < t.len() ==> char_is_alphanumeric(#[trigger] t[i]) && !is_apostrophe(t[i])
}

proof fn lemma_tokens_from_ok(s: Seq<char>, cur: Seq<char>)
    requires
        forall|i: int|
            0 <= i < cur.len() ==> char_is_alphanumeric(#[trigger] cur[i]) && !is_apostrophe(
                cur[i],
            ),
    ensures
        forall|k: int|
            0 <= k < tokens_from(s, cur).len() ==> token_ok(#[trigger] tokens_from(s, cur)[k]),
    decreases s.len(),
{
    if s.len() > 0 {
        if is_apostrophe(s[0]) {
            lemma_tokens_from_ok(s.drop_first(), cur);
            assert(tokens_from(s, cur) == tokens_from(s.drop_first(), cur));
        } else if char_is_alphanumeric(s[0]) {
            let c2 = cur.push(s[0]);
            assert(tokens_from(s, cur) == tokens_from(s.drop_first(), c2));
            assert forall|i: int| 0 <= i < c2.len() implies char_is_alphanumeric(
                #[trigger] c2[i],
            ) && !is_apostrophe(c2[i]) by {
                if i < cur.len() {
                    assert(c2[i] == cur[i]);
                }
            }
            lemma_tokens_from_ok(s.drop_first(), c2);
        } else {
            lemma_tokens_from_ok(s.drop_first(), Seq::empty());
            let f = flush_token(cur);
            let r = tokens_from(s.drop_first(), Seq::empty());
            assert(tokens_from(s, cur) == f + r);
            assert forall|k: int| 0 <= k < (f + r).len() implies token_ok(#[trigger] (f + r)[k]) by {
                if k >= f.len() {
                    assert((f + r)[k] == r[k - f.len()]);
                } else {
                    assert((f + r)[k] == cur);
                    assert(token_ok(cur));
                }
            }
        }
    } else if cur.len() > 0 {
        assert(tokens_from(s, cur) == seq![cur]);
        assert(token_ok(cur));
    }
}

/// Every token `normalize` yields is non-empty, made of alphanumeric
/// characters only, and free of apostrophes.
pub proof fn law_normalize_tokens(text: Seq<char>)
    ensures
        forall|k: int|
            0 <= k < normalized(text).len() ==> token_ok(#[trigger] normalized(text)[k]),
{
    lemma_tokens_from_ok(lowercase(text), Seq::empty());
}

/// A run of token characters continues the token in progress.
proof fn lemma_tokens_run(t: Seq<char>, cur: Seq<char>, rest: Seq<char>)
    requires
        forall|i: int|
            0 <= i < t.len() ==> char_is_alphanumeric(#[trigger] t[i]) && !is_apostrophe(t[i]),
    ensures
        tokens_from(t + rest, cur) == tokens_from(rest, cur + t),
    decreases t.len(),
{
    if t.len() == 0 {
        assert(t + rest =~= rest);
        assert(cur + t =~= cur);
    } else {
        assert((t + rest).drop_first() =~= t.drop_first() + rest);
        assert((t + rest)[0] == t[0]);
        lemma_tokens_run(t.drop_first(), cur.push(t[0]), rest);
        assert(cur.push(t[0]) + t.drop_first() =~= cur + t);
    }
}

proof fn lemma_join_front(ts: Seq<Seq<char>>, sep: Seq<char>)
    requires
        ts.len() >= 2,
    ensures
        join(ts, sep) == ts[0] + sep + join(ts.drop_first(), sep),
    decreases ts.len(),
{
    if ts.len() == 2 {
        assert(ts.drop_last().len() == 1);
        assert(ts.drop_first().len() == 1);
        assert(join(ts.drop_last(), sep) == ts[0]);
        assert(join(ts.drop_first(), sep) == ts[1]);
    } else {
        let dl = ts.drop_last();
        lemma_join_front(dl, sep);
        assert(dl.drop_first() =~= ts.drop_first().drop_last());
        assert(ts.drop_first().last() == ts.last());
        assert(dl[0] == ts[0]);
    }
}

/// Joining word tokens with a separator that is neither alphanumeric nor an
/// apostrophe and splitting the result again gives the same tokens.
pub proof fn law_tokens_rejoin(ts: Seq<Seq<char>>, c: char)
    requires
        forall|k: int| 0 <= k < ts.len() ==> token_ok(#[trigger] ts[k]),
        !char_is_alphanumeric(c),
        !is_apostrophe(c),
    ensures
        tokens_from(join(ts, seq![c]), Seq::empty()) == ts,
    decreases ts.len(),
{
    let e = Seq::<char>::empty();
    if ts.len() == 0 {
        assert(flush_token(e) =~= ts);
    } else if ts.len() == 1 {
        assert(join(ts, seq![c]) == ts[0]);
        assert(token_ok(ts[0]));
        lemma_tokens_run(ts[0], e, e);
        assert(ts[0] + e =~= ts[0]);
        assert(e + ts[0] =~= ts[0]);
        assert(flush_token(ts[0]) =~= ts);
    } else {
        let rest = ts.drop_first();
        assert forall|k: int| 0 <= k < rest.len() implies token_ok(#[trigger] rest[k]) by {
            assert(rest[k] == ts[k + 1]);
        }
        law_tokens_rejoin(rest, c);
        lemma_join_front(ts, seq![c]);
        let tail = seq![c] + join(rest, seq![c]);
        assert(ts[0] + seq![c] + join(rest, seq![c]) =~= ts[0] + tail);
        assert(token_ok(ts[0]));
        lemma_tokens_run(ts[0], e, tail);
        assert(e + ts[0] =~= ts[0]);
        assert(tail.drop_first() =~= join(rest, seq![c]));
        assert(tail[0] == c);
        assert(flush_token(ts[0]) + rest =~= ts);
    }
}

// ---------------------------------------------------------------------------
// Similarity
// ---------------------------------------------------------------------------

pub open spec fn min_nat(a: nat, b: nat) -> nat {
    if a <= b { a } else { b }
}

pub open spec fn max_nat(a: nat, b: nat) -> nat {
    if a <= b { b } else { a }
}

/// Whether the token sets of `a` and `b` are similar enough to be the same
/// utterance: they share a token, and either their Jaccard index reaches
/// 18/25 or, for size-disparate sets (smaller < 3/5 of larger), the
/// containment of the smaller set reaches 18/25.
pub open spec fn similar_enough(a: Seq<Seq<char>>, b: Seq<Seq<char>>) -> bool {
    let sa = a.to_set();
    let sb = b.to_set();
    let inter = sa.intersect(sb).len();
    let union = sa.union(sb).len();
    let small = min_nat(sa.len(), sb.len());
    let large = max_nat(sa.len(), sb.len());
    &&& inter > 0
    &&& (25 * inter >= 18 * union || (5 * small < 3 * large && 25 * inter >= 18 * small))
}

/// Whether `[a_start, a_end]` and `[b_start, b_end]` overlap once each is
/// widened by [`TIME_SLACK_MS`].
pub open spec fn intervals_overlap(a_start: u64, a_end: u64, b_start: u64, b_end: u64) -> bool {
    a_start <= b_end + TIME_SLACK_MS && b_start <= a_end + TIME_SLACK_MS
}

/// Whether two segments are the same speech: both have tokens, their
/// intervals overlap within the slack, and either (short segments) they come
/// from different streams with identical tokens, or their token sets are
/// [`similar_enough`].
pub open spec fn duplicate_segments(
    a: Seq<Seq<char>>,
    a_start: u64,
    a_end: u64,
    b: Seq<Seq<char>>,
    b_start: u64,
    b_end: u64,
    cross_source: bool,
) -> bool {
    &&& a.len() > 0
    &&& b.len() > 0
    &&& intervals_overlap(a_start, a_end, b_start, b_end)
    &&& if min_nat(a.len(), b.len()) < MIN_TOKENS_FOR_FUZZY {
        cross_source && a == b
    } else {
        similar_enough(a, b)
    }
}

/// Whether two segments' `[start, end]` intervals overlap, each expanded by
/// [`TIME_SLACK_MS`].
pub fn intervals_compatible(a_start: u64, a_end: u64, b_start: u64, b_end: u64) -> (r: bool)
    ensures
        r == intervals_overlap(a_start, a_end, b_start, b_end),
{
    a_start <= b_end.saturating_add(TIME_SLACK_MS) && b_start <= a_end.saturating_add(
        TIME_SLACK_MS,
    )
}

/// The distinct strings of `v`, in first-occurrence order.
fn distinct(v: &[String]) -> (r: Vec<String>)
    ensures
        views(r@).no_duplicates(),
        views(r@).to_set() == views(v@).to_set(),
{
    let mut r: Vec<String> = Vec::new();
    for i in 0..v.len()
        invariant
            views(r@).no_duplicates(),
            views(r@).to_set() == views(v@).take(i as int).to_set(),
    {
        let ghost before = views(r@);
        assert(views(v@).take(i + 1) == views(v@).take(i as int).push(v@[i as int]@));
        if !contains_string(r.as_slice(), &v[i]) {
            r.push(v[i].clone());
            assert(views(r@) == before.push(v@[i as int]@));
            assert(views(r@).to_set() =~= before.to_set().insert(v@[i as int]@));
        } else {
            assert(before.to_set().contains(v@[i as int]@));
            assert(before.to_set() =~= before.to_set().insert(v@[i as int]@));
        }
        assert(views(v@).take(i + 1).to_set() =~= views(v@).take(i as int).to_set().insert(
            v@[i as int]@,
        ));
    }
    assert(views(v@).take(v.len() as int) == views(v@));
    r
}

/// Decides [`similar_enough`] for two token lists.
fn similar_tokens(a: &[String], b: &[String]) -> (r: bool)
    ensures
        r == similar_enough(views(a@), views(b@)),
{
    let da = distinct(a);
    let db = distinct(b);
    let ghost sa = views(a@).to_set();
    let ghost sb = views(b@).to_set();
    let mut common: Vec<String> = Vec::new();
    for i in 0..da.len()
        invariant
            views(da@).no_duplicates(),
            views(da@).to_set() == sa,
            views(db@).to_set() == sb,
            views(common@).no_duplicates(),
            views(common@).to_set() == views(da@).take(i as int).to_set().intersect(sb),
            forall|k: int| 0 <= k < common.len() ==> views(da@).take(i as int).contains(
                #[trigger] views(common@)[k],
            ),
    {
        let ghost before = views(common@);
        let ghost x = da@[i as int]@;
        assert(views(da@).take(i + 1) == views(da@).take(i as int).push(x));
        assert(!views(da@).take(i as int).contains(x)) by {
            if views(da@).take(i as int).contains(x) {
                let k = choose|k: int|
                    0 <= k < i && #[trigger] views(da@).take(i as int)[k] == x;
                assert(views(da@)[k] == views(da@)[i as int]);
            }
        }
        if contains_string(db.as_slice(), &da[i]) {
            assert(sb.contains(x));
            common.push(da[i].clone());
            assert(views(common@) == before.push(x));
            assert(!before.contains(x));
            assert(views(common@).to_set() =~= before.to_set().insert(x));
            assert(views(da@).take(i + 1).to_set() =~= views(da@).take(i as int).to_set().insert(x));
            assert(views(common@).to_set() =~= views(da@).take(i + 1).to_set().intersect(sb));
        } else {
            assert(!sb.contains(x));
            assert(views(common@).to_set() =~= views(da@).take(i + 1).to_set().intersect(sb));
        }
        assert forall|k: int| 0 <= k < common.len() implies views(da@).take(i + 1).contains(
            #[trigger] views(common@)[k],
        ) by {
            if k < before.len() {
                assert(views(common@)[k] == before[k]);
                let m = choose|m: int|
                    0 <= m < i && #[trigger] views(da@).take(i as int)[m] == before[k];
                assert(views(da@).take(i + 1)[m] == before[k]);
            } else {
                assert(views(da@).take(i + 1)[i as int] == x);
            }
        }
    }
    assert(views(da@).take(da.len() as int) == views(da@));
    proof {
        views(da@).unique_seq_to_set();
        views(db@).unique_seq_to_set();
        views(common@).unique_seq_to_set();
        vstd::set_lib::lemma_set_intersect_union_lens(sa, sb);
    }
    let inter = common.len() as u128;
    let na = da.len() as u128;
    let nb = db.len() as u128;
    let union = na + nb - inter;
    let small = if na <= nb { na } else { nb };
    let large = if na <= nb { nb } else { na };
    inter > 0 && (25 * inter >= 18 * union || (5 * small < 3 * large && 25 * inter >= 18
        * small))
}

/// Whether two token lists are equal.
fn tokens_eq(a: &[String], b: &[String]) -> (r: bool)
    ensures
        r == (views(a@) == views(b@)),
{
    if a.len() != b.len() {
        assert(views(a@).len() != views(b@).len());
        return false;
    }
    for i in 0..a.len()
        invariant
            a.len() == b.len(),
            forall|j: int| 0 <= j < i ==> a@[j]@ == b@[j]@,
    {
        if a[i] != b[i] {
            assert(views(a@)[i as int] != views(b@)[i as int]);
            return false;
        }
    }
    assert(views(a@) =~= views(b@));
    true
}

/// Core predicate: are these two segments the same speech?
///
/// `cross_source` is true when the segments come from different streams.
/// Short segments only match when cross-source and token-identical (the echo
/// signature of a brief utterance), so a speaker may repeat a short word on
/// one stream.
pub fn is_duplicate(
    a_tokens: &[String],
    a_start: u64,
    a_end: u64,
    b_tokens: &[String],
    b_start: u64,
    b_end: u64,
    cross_source: bool,
) -> (r: bool)
    ensures
        r == duplicate_segments(
            views(a_tokens@),
            a_start,
            a_end,
            views(b_tokens@),
            b_start,
            b_end,
            cross_source,
        ),
{
    if a_tokens.len() == 0 || b_tokens.len() == 0 {
        return false;
    }
    if !intervals_compatible(a_start, a_end, b_start, b_end) {
        return false;
    }
    let shorter = if a_tokens.len() <= b_tokens.len() {
        a_tokens.len()
    } else {
        b_tokens.len()
    };
    if shorter < MIN_TOKENS_FOR_FUZZY {
        return cross_source && tokens_eq(a_tokens, b_tokens);
    }
    similar_tokens(a_tokens, b_tokens)
}

/// `is_duplicate` does not depend on which segment is passed first.
pub proof fn duplicate_is_symmetric(
    a: Seq<Seq<char>>,
    a_start: u64,
    a_end: u64,
    b: Seq<Seq<char>>,
    b_start: u64,
    b_end: u64,
    cross_source: bool,
)
    ensures
        duplicate_segments(a, a_start, a_end, b, b_start, b_end, cross_source)
            == duplicate_segments(b, b_start, b_end, a, a_start, a_end, cross_source),
{
    assert(a.to_set().intersect(b.to_set()) =~= b.to_set().intersect(a.to_set()));
    assert(a.to_set().union(b.to_set()) =~= b.to_set().union(a.to_set()));
}

/// Segments whose tokens are empty are never duplicates, whatever their times.
pub proof fn empty_segments_never_duplicate(
    b: Seq<Seq<char>>,
    a_start: u64,
    a_end: u64,
    b_start: u64,
    b_end: u64,
    cross_source: bool,
)
    ensures
        !duplicate_segments(Seq::empty(), a_start, a_end, b, b_start, b_end, cross_source),
{
}

// ---------------------------------------------------------------------------
// Candidates and the rolling buffer
// ---------------------------------------------------------------------------

/// A finalized segment proposed for emission, before dedup.
#[derive(Debug)]
pub struct Candidate {
    pub source: String,
    pub start_ms: u64,
    pub end_ms: u64,
    pub text: String,
}

/// The tokens a candidate's text normalizes to.
pub open spec fn candidate_tokens(c: Candidate) -> Seq<Seq<char>> {
    normalized(c.text@)
}

impl Candidate {
    /// A field-for-field copy.
    pub fn duplicate(&self) -> (r: Candidate)
        ensures
            r == *self,
    {
        Candidate {
            source: self.source.clone(),
            start_ms: self.start_ms,
            end_ms: self.end_ms,
            text: self.text.clone(),
        }
    }

    /// The buffer entry recording this candidate once accepted.
    pub fn to_entry(&self) -> (r: DedupEntry)
        ensures
            r@ == entry_of(*self),
    {
        DedupEntry {
            source: self.source.clone(),
            start_ms: self.start_ms,
            end_ms: self.end_ms,
            tokens: normalize(self.text.as_str()),
        }
    }
}

/// An accepted segment retained for cross-call comparison.
#[derive(Debug)]
pub struct DedupEntry {
    pub source: String,
    pub start_ms: u64,
    pub end_ms: u64,
    pub tokens: Vec<String>,
}

/// What a buffer entry records of a segment.
pub struct EntryView {
    pub source: Seq<char>,
    pub start_ms: u64,
    pub end_ms: u64,
    pub tokens: Seq<Seq<char>>,
}

impl View for DedupEntry {
    type V = EntryView;

    open spec fn view(&self) -> EntryView {
        EntryView {
            source: self.source@,
            start_ms: self.start_ms,
            end_ms: self.end_ms,
            tokens: views(self.tokens@),
        }
    }
}

pub open spec fn entry_of(c: Candidate) -> EntryView {
    EntryView {
        source: c.source@,
        start_ms: c.start_ms,
        end_ms: c.end_ms,
        tokens: candidate_tokens(c),
    }
}

/// The largest start time among `s` (0 when empty).
pub open spec fn newest_start(s: Seq<EntryView>) -> u64
    decreases s.len(),
{
    if s.len() == 0 {
        0
    } else {
        let m = newest_start(s.drop_last());
        if s.last().start_ms > m {
            s.last().start_ms
        } else {
            m
        }
    }
}

/// The entries of `s` that end no more than [`RETENTION_MS`] before `newest`.
pub open spec fn keep_recent(s: Seq<EntryView>, newest: u64) -> Seq<EntryView>
    decreases s.len(),
{
    if s.len() == 0 {
        Seq::empty()
    } else if s.last().end_ms + RETENTION_MS >= newest {
        keep_recent(s.drop_last(), newest).push(s.last())
    } else {
        keep_recent(s.drop_last(), newest)
    }
}

/// Rolling buffer of recently accepted finalized segments, used to catch
/// duplicates that span transcription windows.
pub struct RecentSegments {
    entries: VecDeque<DedupEntry>,
}

impl View for RecentSegments {
    type V = Seq<EntryView>;

    closed spec fn view(&self) -> Seq<EntryView> {
        self.entries@.map_values(|e: DedupEntry| e@)
    }
}

impl RecentSegments {
    /// An empty buffer.
    pub fn new() -> (r: RecentSegments)
        ensures
            r@ == Seq::<EntryView>::empty(),
    {
        let r = RecentSegments { entries: VecDeque::new() };
        assert(r@ =~= Seq::<EntryView>::empty());
        r
    }

    /// The number of retained entries.
    pub fn len(&self) -> (r: usize)
        ensures
            r == self@.len(),
    {
        self.entries.len()
    }

    /// Whether no entry is retained.
    pub fn is_empty(&self) -> (r: bool)
        ensures
            r == (self@.len() == 0),
    {
        self.entries.len() == 0
    }

    /// Appends the accepted segments, then evicts every entry that ended more
    /// than [`RETENTION_MS`] before the newest retained segment's start.
    pub fn extend_and_prune(&mut self, accepted: &[Candidate])
        ensures
            final(self)@ == keep_recent(
                old(self)@ + accepted@.map_values(|c: Candidate| entry_of(c)),
                newest_start(old(self)@ + accepted@.map_values(|c: Candidate| entry_of(c))),
            ),
    {
        let ghost all = old(self)@ + accepted@.map_values(|c: Candidate| entry_of(c));
        for k in 0..accepted.len()
            invariant
                self@ == old(self)@ + accepted@.map_values(|c: Candidate| entry_of(c)).take(
                    k as int,
                ),
        {
            let e = accepted[k].to_entry();
            let ghost before = self.entries@;
            self.entries.push_back(e);
            assert(self.entries@.map_values(|e: DedupEntry| e@) =~= before.map_values(
                |e: DedupEntry| e@,
            ).push(entry_of(accepted@[k as int])));
            assert(accepted@.map_values(|c: Candidate| entry_of(c)).take(k + 1) == accepted@.map_values(
                |c: Candidate| entry_of(c),
            ).take(k as int).push(entry_of(accepted@[k as int])));
            assert(self@ =~= old(self)@ + accepted@.map_values(|c: Candidate| entry_of(c)).take(
                k + 1,
            ));
        }
        assert(accepted@.map_values(|c: Candidate| entry_of(c)).take(accepted.len() as int)
            == accepted@.map_values(|c: Candidate| entry_of(c)));
        assert(self@ == all);
        let mut newest: u64 = 0;
        for k in 0..self.entries.len()
            invariant
                self@ == all,
                newest == newest_start(all.take(k as int)),
        {
            assert(all.take(k + 1).drop_last() == all.take(k as int));
            assert(all[k as int] == self.entries@[k as int]@);
            if self.entries[k].start_ms > newest {
                newest = self.entries[k].start_ms;
            }
        }
        assert(all.take(all.len() as int) == all);
        let ghost n = all.len();
        let mut old_entries: VecDeque<DedupEntry> = VecDeque::new();
        std::mem::swap(&mut old_entries, &mut self.entries);
        let mut rest: Vec<DedupEntry> = Vec::new();
        while old_entries.len() > 0
            invariant
                n == all.len(),
                old_entries@.len() + rest@.len() == n,
                forall|j: int|
                    0 <= j < old_entries@.len() ==> #[trigger] old_entries@[j]@ == all[j],
                forall|j: int|
                    0 <= j < rest@.len() ==> #[trigger] rest@[j]@ == all[n - 1 - j],
            decreases old_entries.len(),
        {
            let e = old_entries.pop_back().unwrap();
            rest.push(e);
        }
        let mut kept: VecDeque<DedupEntry> = VecDeque::new();
        while rest.len() > 0
            invariant
                rest@.len() <= n,
                n == all.len(),
                forall|j: int|
                    0 <= j < rest@.len() ==> #[trigger] rest@[j]@ == all[n - 1 - j],
                kept@.map_values(|e: DedupEntry| e@) == keep_recent(
                    all.take(n - rest@.len()),
                    newest,
                ),
            decreases rest.len(),
        {
            let ghost i = n - rest@.len();
            let e = rest.pop().unwrap();
            assert(e@ == all[i]);
            assert(all.take(i + 1).drop_last() == all.take(i));
            assert(all.take(i + 1).last() == all[i]);
            if e.end_ms.saturating_add(RETENTION_MS) >= newest {
                kept.push_back(e);
                assert(kept@.map_values(|e: DedupEntry| e@) =~= keep_recent(all.take(i), newest).push(all[i]));
            }
        }
        assert(all.take(n as int) == all);
        self.entries = kept;
    }
}

// ---------------------------------------------------------------------------
// Batch dedup
// ---------------------------------------------------------------------------

pub open spec fn is_mic(c: Candidate) -> bool {
    c.source@ == "microphone"@
}

pub open spec fn candidates_duplicate(a: Candidate, b: Candidate, cross_source: bool) -> bool {
    duplicate_segments(
        candidate_tokens(a),
        a.start_ms,
        a.end_ms,
        candidate_tokens(b),
        b.start_ms,
        b.end_ms,
        cross_source,
    )
}

/// Pass 1: candidate `i` is a mic segment that echoes some system segment of
/// the same batch.
pub open spec fn echo_of_system(cs: Seq<Candidate>, i: int) -> bool {
    &&& is_mic(cs[i])
    &&& exists|j: int|
        0 <= j < cs.len() && j != i && !is_mic(cs[j]) && candidates_duplicate(
            cs[i],
            cs[j],
            true,
        )
}

/// Candidate `c` repeats a same-source entry of the rolling buffer.
pub open spec fn repeats_buffered(recent: Seq<EntryView>, c: Candidate) -> bool {
    exists|k: int|
        0 <= k < recent.len() && recent[k].source == c.source@ && duplicate_segments(
            candidate_tokens(c),
            c.start_ms,
            c.end_ms,
            recent[k].tokens,
            recent[k].start_ms,
            recent[k].end_ms,
            false,
        )
}

/// Candidate `i` repeats a same-source candidate accepted before it.
pub open spec fn repeats_accepted(cs: Seq<Candidate>, accepted: Seq<int>, i: int) -> bool {
    exists|k: int|
        0 <= k < accepted.len() && cs[accepted[k]].source@ == cs[i].source@
            && candidates_duplicate(cs[i], cs[accepted[k]], false)
}

/// The indices of the first `n` candidates that survive both passes, in
/// input order.
pub open spec fn accepted_prefix(recent: Seq<EntryView>, cs: Seq<Candidate>, n: int) -> Seq<int>
    decreases n,
{
    if n <= 0 {
        Seq::empty()
    } else {
        let prev = accepted_prefix(recent, cs, n - 1);
        let i = n - 1;
        if echo_of_system(cs, i) || repeats_buffered(recent, cs[i]) || repeats_accepted(
            cs,
            prev,
            i,
        ) {
            prev
        } else {
            prev.push(i)
        }
    }
}

/// The indices of the candidates `dedup_finalized` keeps.
pub open spec fn accepted_indices(recent: Seq<EntryView>, cs: Seq<Candidate>) -> Seq<int> {
    accepted_prefix(recent, cs, cs.len() as int)
}

/// The kept indices are strictly increasing and in range.
pub proof fn accepted_prefix_ordered(recent: Seq<EntryView>, cs: Seq<Candidate>, n: int)
    requires
        0 <= n <= cs.len(),
    ensures
        forall|k: int|
            0 <= k < accepted_prefix(recent, cs, n).len() ==> 0 <= #[trigger] accepted_prefix(
                recent,
                cs,
                n,
            )[k] < n,
        forall|k1: int, k2: int|
            0 <= k1 < k2 < accepted_prefix(recent, cs, n).len() ==> accepted_prefix(
                recent,
                cs,
                n,
            )[k1] < accepted_prefix(recent, cs, n)[k2],
    decreases n,
{
    if n > 0 {
        accepted_prefix_ordered(recent, cs, n - 1);
        let p = accepted_prefix(recent, cs, n - 1);
        let q = accepted_prefix(recent, cs, n);
        assert(q == p || q == p.push(n - 1));
        assert forall|k: int| 0 <= k < q.len() implies 0 <= #[trigger] q[k] < n by {
            if k < p.len() {
                assert(q[k] == p[k]);
            }
        }
        assert forall|k1: int, k2: int| 0 <= k1 < k2 < q.len() implies q[k1] < q[k2] by {
            assert(q[k1] == p[k1]);
            if k2 < p.len() {
                assert(q[k2] == p[k2]);
            }
        }
    }
}

proof fn lemma_dropped_stays_out(recent: Seq<EntryView>, cs: Seq<Candidate>, i: int, n: int)
    requires
        0 <= i < n <= cs.len(),
        echo_of_system(cs, i),
    ensures
        !accepted_prefix(recent, cs, n).contains(i),
    decreases n,
{
    if n == i + 1 {
        accepted_prefix_ordered(recent, cs, i);
        let p = accepted_prefix(recent, cs, i);
        if p.contains(i) {
            let k = choose|k: int| 0 <= k < p.len() && p[k] == i;
            assert(p[k] < i);
        }
    } else {
        lemma_dropped_stays_out(recent, cs, i, n - 1);
        let p = accepted_prefix(recent, cs, n - 1);
        if accepted_prefix(recent, cs, n).contains(i) {
            let q = p.push(n - 1);
            let k = choose|k: int| 0 <= k < accepted_prefix(recent, cs, n).len() && accepted_prefix(
                recent,
                cs,
                n,
            )[k] == i;
            if k < p.len() {
                assert(q[k] == p[k]);
            }
        }
    }
}

/// A microphone segment that duplicates a system segment of the same batch
/// under the cross-stream rule is the speakers' echo picked up by the
/// microphone: it is never kept, whatever else the batch and the buffer
/// hold.
pub proof fn law_mic_echo_dropped(recent: Seq<EntryView>, cs: Seq<Candidate>, i: int, j: int)
    requires
        0 <= i < cs.len(),
        0 <= j < cs.len(),
        i != j,
        cs[i].source@ == "microphone"@,
        cs[j].source@ != "microphone"@,
        duplicate_segments(
            candidate_tokens(cs[i]),
            cs[i].start_ms,
            cs[i].end_ms,
            candidate_tokens(cs[j]),
            cs[j].start_ms,
            cs[j].end_ms,
            true,
        ),
    ensures
        !accepted_indices(recent, cs).contains(i),
{
    assert(echo_of_system(cs, i));
    lemma_dropped_stays_out(recent, cs, i, cs.len() as int);
}

/// Deduplicate one finalized batch against the rolling buffer.
///
/// Pass 1 drops every mic segment that matches (cross-source) a system
/// segment of the batch. Pass 2, in input order, drops every remaining
/// segment that repeats (same source) an entry of `recent` or a segment
/// already accepted from this batch. Returns the survivors in input order;
/// `recent` is not changed.
pub fn dedup_finalized(recent: &RecentSegments, candidates: Vec<Candidate>) -> (r: Vec<Candidate>)
    ensures
        r@ == accepted_indices(recent@, candidates@).map_values(|i: int| candidates@[i]),
{
    let n = candidates.len();
    let ghost cs = candidates@;
    if n == 0 {
        assert(accepted_indices(recent@, cs) =~= Seq::<int>::empty());
        return Vec::new();
    }
    let mut toks: Vec<Vec<String>> = Vec::new();
    for i in 0..n
        invariant
            n == candidates.len(),
            cs == candidates@,
            toks.len() == i,
            forall|j: int| 0 <= j < i ==> views(#[trigger] toks@[j]@) == candidate_tokens(cs[j]),
    {
        toks.push(normalize(candidates[i].text.as_str()));
    }
    let mut mics: Vec<bool> = Vec::new();
    for i in 0..n
        invariant
            n == candidates.len(),
            cs == candidates@,
            mics.len() == i,
            forall|j: int| 0 <= j < i ==> #[trigger] mics@[j] == is_mic(cs[j]),
    {
        mics.push(str_eq(candidates[i].source.as_str(), "microphone"));
    }

    // Pass 1: cross-stream echo.
    let mut dropped: Vec<bool> = Vec::new();
    for i in 0..n
        invariant
            n == candidates.len(),
            cs == candidates@,
            toks.len() == n,
            mics.len() == n,
            forall|j: int| 0 <= j < n ==> views(#[trigger] toks@[j]@) == candidate_tokens(cs[j]),
            forall|j: int| 0 <= j < n ==> #[trigger] mics@[j] == is_mic(cs[j]),
            dropped.len() == i,
            forall|j: int| 0 <= j < i ==> #[trigger] dropped@[j] == echo_of_system(cs, j),
    {
        let mut echo = false;
        if mics[i] {
            let mut j: usize = 0;
            while j < n
                invariant
                    n == candidates.len(),
                    cs == candidates@,
                    0 <= i < n,
                    j <= n,
                    toks.len() == n,
                    mics.len() == n,
                    forall|k: int|
                        0 <= k < n ==> views(#[trigger] toks@[k]@) == candidate_tokens(cs[k]),
                    forall|k: int| 0 <= k < n ==> #[trigger] mics@[k] == is_mic(cs[k]),
                    echo == exists|k: int|
                        0 <= k < j && k != i && !is_mic(cs[k]) && candidates_duplicate(
                            cs[i as int],
                            cs[k],
                            true,
                        ),
                decreases n - j,
            {
                if j != i && !mics[j] && is_duplicate(
                    toks[i].as_slice(),
                    candidates[i].start_ms,
                    candidates[i].end_ms,
                    toks[j].as_slice(),
                    candidates[j].start_ms,
                    candidates[j].end_ms,
                    true,
                ) {
                    echo = true;
                }
                j = j + 1;
            }
        }
        dropped.push(echo);
    }

    // Pass 2: same-source repeats against the buffer and earlier survivors.
    let mut accepted_idx: Vec<usize> = Vec::new();
    for i in 0..n
        invariant
            n == candidates.len(),
            cs == candidates@,
            toks.len() == n,
            dropped.len() == n,
            forall|j: int| 0 <= j < n ==> views(#[trigger] toks@[j]@) == candidate_tokens(cs[j]),
            forall|j: int| 0 <= j < n ==> #[trigger] dropped@[j] == echo_of_system(cs, j),
            accepted_idx@.map_values(|x: usize| x as int) == accepted_prefix(recent@, cs, i as int),
            forall|k: int| 0 <= k < accepted_idx.len() ==> #[trigger] accepted_idx@[k] < i,
    {
        let ghost prev = accepted_prefix(recent@, cs, i as int);
        if !dropped[i] {
            let mut in_recent = false;
            let mut k: usize = 0;
            while k < recent.entries.len()
                invariant
                    n == candidates.len(),
                    cs == candidates@,
                    0 <= i < n,
                    toks.len() == n,
                    views(toks@[i as int]@) == candidate_tokens(cs[i as int]),
                    k <= recent.entries.len(),
                    in_recent == exists|m: int|
                        0 <= m < k && recent@[m].source == cs[i as int].source@
                            && duplicate_segments(
                            candidate_tokens(cs[i as int]),
                            cs[i as int].start_ms,
                            cs[i as int].end_ms,
                            recent@[m].tokens,
                            recent@[m].start_ms,
                            recent@[m].end_ms,
                            false,
                        ),
                decreases recent.entries.len() - k,
            {
                let e = &recent.entries[k];
                assert(recent@[k as int] == e@);
                if e.source == candidates[i].source && is_duplicate(
                    toks[i].as_slice(),
                    candidates[i].start_ms,
                    candidates[i].end_ms,
                    e.tokens.as_slice(),
                    e.start_ms,
                    e.end_ms,
                    false,
                ) {
                    in_recent = true;
                }
                k = k + 1;
            }
            let mut in_batch = false;
            let mut m: usize = 0;
            while m < accepted_idx.len()
                invariant
                    n == candidates.len(),
                    cs == candidates@,
                    0 <= i < n,
                    toks.len() == n,
                    forall|j: int|
                        0 <= j < n ==> views(#[trigger] toks@[j]@) == candidate_tokens(cs[j]),
                    forall|q: int| 0 <= q < accepted_idx.len() ==> #[trigger] accepted_idx@[q] < i,
                    accepted_idx@.map_values(|x: usize| x as int) == prev,
                    m <= accepted_idx.len(),
                    in_batch == exists|q: int|
                        0 <= q < m && cs[prev[q]].source@ == cs[i as int].source@
                            && candidates_duplicate(cs[i as int], cs[prev[q]], false),
                decreases accepted_idx.len() - m,
            {
                let j = accepted_idx[m];
                assert(prev[m as int] == j as int);
                if candidates[j].source == candidates[i].source && is_duplicate(
                    toks[i].as_slice(),
                    candidates[i].start_ms,
                    candidates[i].end_ms,
                    toks[j].as_slice(),
                    candidates[j].start_ms,
                    candidates[j].end_ms,
                    false,
                ) {
                    in_batch = true;
                }
                m = m + 1;
            }
            if !in_recent && !in_batch {
                accepted_idx.push(i);
                assert(accepted_idx@.map_values(|x: usize| x as int) =~= prev.push(i as int));
            }
        }
    }
    let mut out: Vec<Candidate> = Vec::new();
    let ghost acc = accepted_indices(recent@, cs);
    for q in 0..accepted_idx.len()
        invariant
            n == candidates.len(),
            cs == candidates@,
            forall|k: int| 0 <= k < accepted_idx.len() ==> #[trigger] accepted_idx@[k] < n,
            accepted_idx@.map_values(|x: usize| x as int) == acc,
            out@ == acc.take(q as int).map_values(|i: int| cs[i]),
    {
        let j = accepted_idx[q];
        out.push(candidates[j].duplicate());
        assert(acc[q as int] == j as int);
        assert(acc.take(q + 1).map_values(|i: int| cs[i]) =~= acc.take(q as int).map_values(
            |i: int| cs[i],
        ).push(cs[j as int]));
    }
    assert(acc.take(accepted_idx.len() as int) == acc);
    out
}

} // verus!
