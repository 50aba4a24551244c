//! Live meeting minutes: the bookkeeping behind the running, append-only
//! bullet log kept while a meeting is recorded.
//!
//! Each finalized transcript window accumulates in `pending`; a pass consumes
//! it, appends at most two new topic groups that do not restate anything
//! already recorded, and remembers the chunk's tail as context for the next
//! pass. A rolling "gist" (a private summary of the meeting so far) is
//! refreshed from a backlog of consumed transcript. The scheduling and the
//! model calls run outside this module; it holds the state transitions.
use vstd::prelude::*;

use crate::errors::AppError;
use crate::services::dedup::{normalize, normalized};
use crate::text::{
    append_chars, append_str, char_is_whitespace, contains_string, extend_strings, is_whitespace, join,
    join_strings, lemma_trim_nonblank, lowercase, opt_view,
    str_chars, str_eq, string_from_chars, to_lowercase, trim, trim_chars, trim_end, trim_end_chars,
    views,
};

verus! {

broadcast use vstd::seq_lib::group_seq_properties;

/// Minimum words of new transcript before a pass is worth an inference run.
pub const MIN_PASS_WORDS: usize = 80;
/// Words of consumed transcript accumulated before the gist is refreshed.
pub const GIST_UPDATE_MIN_WORDS: usize = 250;
/// Consecutive failed passes before the session disables itself.
pub const MAX_FAILURES: u8 = 3;
/// How many trailing recorded bullets the model is shown as context.
pub const CONTEXT_TAIL_BULLETS: usize = 10;
/// Hard backstop on new bullets appended by a single pass.
pub const NEW_BULLETS_PER_PASS_MAX: usize = 2;
/// Words of consumed transcript carried into the next pass as context.
pub const CARRY_OVER_WORDS: usize = 60;
/// Backstop (bytes) on transcript awaiting a gist update; the tail is kept.
pub const GIST_PENDING_MAX_CHARS: usize = 6_000;
/// Backstop (bytes) on a runaway gist; the head is kept.
pub const GIST_MAX_CHARS: usize = 1_500;
/// Consecutive failed gist updates before gist refreshes stop.
pub const GIST_MAX_FAILURES: u8 = 3;
/// Minimum content tokens before fuzzy matching applies.
pub const DEDUP_MIN_TOKENS: usize = 2;

// ---------------------------------------------------------------------------
// Lines
// ---------------------------------------------------------------------------

/// `c` without one trailing carriage return.
pub open spec fn strip_cr(c: Seq<char>) -> Seq<char> {
    if c.len() > 0 && c.last() == '\r' {
        c.drop_last()
    } else {
        c
    }
}

/// The lines of `s` after the line in progress `cur`, as `str::lines`
/// yields them: split at `\n`, a `\r` directly before the `\n` removed, and
/// no empty line after a final `\n`.
pub open spec fn lines_from(s: Seq<char>, cur: Seq<char>) -> Seq<Seq<char>>
    decreases s.len(),
{
    if s.len() == 0 {
        if cur.len() == 0 {
            Seq::empty()
        } else {
            seq![cur]
        }
    } else if s[0] == '\n' {
        seq![strip_cr(cur)] + lines_from(s.drop_first(), Seq::empty())
    } else {
        lines_from(s.drop_first(), cur.push(s[0]))
    }
}

pub open spec fn lines(s: Seq<char>) -> Seq<Seq<char>> {
    lines_from(s, Seq::empty())
}

/// The lines of `s`.
pub fn split_lines(s: &[char]) -> (r: Vec<Vec<char>>)
    ensures
        r@.map_values(|l: Vec<char>| l@) == lines(s@),
{
    let mut out: Vec<Vec<char>> = Vec::new();
    let mut cur: Vec<char> = Vec::new();
    for i in 0..s.len()
        invariant
            out@.map_values(|l: Vec<char>| l@) + lines_from(s@.skip(i as int), cur@) == lines(s@),
    {
        assert(s@.skip(i as int).drop_first() == s@.skip(i + 1));
        if s[i] == '\n' {
            let ghost before = out@.map_values(|l: Vec<char>| l@);
            let ghost cur_v = cur@;
            if cur.len() > 0 && cur[cur.len() - 1] == '\r' {
                cur.pop();
            }
            assert(cur@ == strip_cr(cur_v));
            out.push(cur);
            assert(out@.map_values(|l: Vec<char>| l@) =~= before + seq![strip_cr(cur_v)]);
            cur = Vec::new();
        } else {
            cur.push(s[i]);
        }
    }
    assert(s@.skip(s.len() as int) =~= Seq::<char>::empty());
    if cur.len() > 0 {
        let ghost before = out@.map_values(|l: Vec<char>| l@);
        let ghost cur_v = cur@;
        out.push(cur);
        assert(out@.map_values(|l: Vec<char>| l@) =~= before + seq![cur_v]);
    } else {
        assert(out@.map_values(|l: Vec<char>| l@) + Seq::<Seq<char>>::empty() =~= out@.map_values(
            |l: Vec<char>| l@,
        ));
    }
    out
}

/// The first line of `s`, or empty when `s` has none.
pub open spec fn first_line(s: Seq<char>) -> Seq<char> {
    if lines(s).len() == 0 {
        Seq::empty()
    } else {
        lines(s)[0]
    }
}

fn first_line_of(s: &[char]) -> (r: Vec<char>)
    ensures
        r@ == first_line(s@),
{
    let mut ls = split_lines(s);
    assert(ls@.map_values(|l: Vec<char>| l@).len() == ls.len());
    if ls.len() == 0 {
        Vec::new()
    } else {
        assert(ls@.map_values(|l: Vec<char>| l@)[0] == ls@[0]@);
        ls.swap_remove(0)
    }
}

// ---------------------------------------------------------------------------
// Topic groups
// ---------------------------------------------------------------------------

pub open spec fn indented(line: Seq<char>) -> bool {
    line.len() > 0 && char_is_whitespace(line[0])
}

/// Groups lines into topics: an indented line joins the previous group
/// (separated by `\n`); any other line, or an indented line with no group
/// before it, starts a new group.
pub open spec fn group_lines(ls: Seq<Seq<char>>) -> Seq<Seq<char>>
    decreases ls.len(),
{
    if ls.len() == 0 {
        Seq::empty()
    } else {
        let g = group_lines(ls.drop_last());
        let line = ls.last();
        if indented(line) && g.len() > 0 {
            g.update(g.len() - 1, g.last() + seq!['\n'] + line)
        } else {
            g.push(line)
        }
    }
}

/// Splits a bullet document into topic groups: each group is one top-level
/// bullet plus its indented sub-bullet lines, joined with `\n`. A leading
/// indented line (no parent yet) becomes its own group.
pub fn group_topics(body: &str) -> (r: Vec<String>)
    ensures
        views(r@) == group_lines(lines(body@)),
{
    let cs = str_chars(body);
    let ls = split_lines(cs.as_slice());
    let ghost lv = ls@.map_values(|l: Vec<char>| l@);
    let mut groups: Vec<Vec<char>> = Vec::new();
    for i in 0..ls.len()
        invariant
            lv == ls@.map_values(|l: Vec<char>| l@),
            groups@.map_values(|g: Vec<char>| g@) == group_lines(lv.take(i as int)),
    {
        let ghost prev = groups@.map_values(|g: Vec<char>| g@);
        assert(lv.take(i + 1).drop_last() == lv.take(i as int));
        assert(lv.take(i + 1).last() == ls@[i as int]@);
        let line = &ls[i];
        let ind = line.len() > 0 && is_whitespace(line[0]);
        if ind && groups.len() > 0 {
            let last = groups.len() - 1;
            let ghost gs = groups@;
            let mut g = groups.swap_remove(last);
            assert(groups@ =~= gs.drop_last());
            assert(g@ == prev[last as int]);
            g.push('\n');
            let ghost gv = g@;
            for k in 0..line.len()
                invariant
                    g@ == gv + line@.take(k as int),
            {
                g.push(line[k]);
                assert(line@.take(k + 1) == line@.take(k as int).push(line@[k as int]));
            }
            assert(line@.take(line.len() as int) == line@);
            let ghost gf = g@;
            assert(gf =~= prev.last() + seq!['\n'] + line@);
            groups.push(g);
            assert(groups@ =~= gs.update(last as int, g));
            assert(groups@.map_values(|g: Vec<char>| g@)[last as int] == gf);
            assert(groups@.map_values(|g: Vec<char>| g@) =~= prev.update(
                last as int,
                prev.last() + seq!['\n'] + line@,
            ));
        } else {
            let mut copy: Vec<char> = Vec::new();
            for k in 0..line.len()
                invariant
                    copy@ == line@.take(k as int),
            {
                copy.push(line[k]);
                assert(line@.take(k + 1) == line@.take(k as int).push(line@[k as int]));
            }
            assert(line@.take(line.len() as int) == line@);
            groups.push(copy);
            assert(groups@.map_values(|g: Vec<char>| g@) =~= prev.push(line@));
        }
    }
    assert(lv.take(ls.len() as int) == lv);
    let mut out: Vec<String> = Vec::new();
    for i in 0..groups.len()
        invariant
            views(out@) == groups@.map_values(|g: Vec<char>| g@).take(i as int),
    {
        let ghost before = views(out@);
        out.push(string_from_chars(groups[i].as_slice()));
        assert(views(out@) =~= before.push(groups@[i as int]@));
        assert(views(out@) =~= groups@.map_values(|g: Vec<char>| g@).take(i + 1));
    }
    assert(groups@.map_values(|g: Vec<char>| g@).take(groups.len() as int) == groups@.map_values(
        |g: Vec<char>| g@,
    ));
    out
}

/// The last [`CONTEXT_TAIL_BULLETS`] of `bullets`, joined with `\n`.
pub open spec fn recorded_tail(bullets: Seq<Seq<char>>) -> Seq<char> {
    join(
        bullets.skip(
            if bullets.len() > CONTEXT_TAIL_BULLETS {
                bullets.len() - CONTEXT_TAIL_BULLETS
            } else {
                0
            },
        ),
        "\n"@,
    )
}

/// The trailing recorded bullets shown to the model as context: the last
/// [`CONTEXT_TAIL_BULLETS`] groups, joined with `\n`.
pub fn tail_context(bullets: &[String]) -> (r: String)
    ensures
        r@ == recorded_tail(views(bullets@)),
{
    let start = if bullets.len() > CONTEXT_TAIL_BULLETS {
        bullets.len() - CONTEXT_TAIL_BULLETS
    } else {
        0
    };
    let mut tail: Vec<String> = Vec::new();
    for k in start..bullets.len()
        invariant
            start <= bullets.len(),
            views(tail@) == views(bullets@).subrange(start as int, k as int),
    {
        let ghost before = views(tail@);
        tail.push(bullets[k].clone());
        assert(views(tail@) =~= before.push(bullets@[k as int]@));
        assert(views(tail@) =~= views(bullets@).subrange(start as int, k + 1));
    }
    assert(views(bullets@).subrange(start as int, bullets.len() as int) == views(bullets@).skip(
        start as int,
    ));
    join_strings(tail.as_slice(), "\n")
}

// ---------------------------------------------------------------------------
// Word tail and byte caps
// ---------------------------------------------------------------------------

/// The indices at which the whitespace-separated words of `s` begin.
pub open spec fn word_starts(s: Seq<char>) -> Seq<int>
    decreases s.len(),
{
    if s.len() == 0 {
        Seq::empty()
    } else {
        let i = s.len() - 1;
        let prev = word_starts(s.drop_last());
        if !char_is_whitespace(s[i]) && (i == 0 || char_is_whitespace(s[i - 1])) {
            prev.push(i)
        } else {
            prev
        }
    }
}

/// The last `n` whitespace-separated words of `s` with the original spacing
/// and line breaks between them, trailing whitespace removed.
pub open spec fn last_words(s: Seq<char>, n: nat) -> Seq<char> {
    let st = word_starts(s);
    if n == 0 || st.len() == 0 {
        Seq::empty()
    } else {
        let k = if st.len() > n {
            st.len() - n
        } else {
            0
        };
        trim_end(s.skip(st[k as int]))
    }
}

proof fn lemma_word_starts_bounds(s: Seq<char>)
    ensures
        forall|k: int|
            0 <= k < word_starts(s).len() ==> 0 <= #[trigger] word_starts(s)[k] < s.len(),
    decreases s.len(),
{
    if s.len() > 0 {
        let prev = word_starts(s.drop_last());
        lemma_word_starts_bounds(s.drop_last());
        assert forall|k: int| 0 <= k < word_starts(s).len() implies 0 <= #[trigger] word_starts(
            s,
        )[k] < s.len() by {
            if k < prev.len() {
                assert(word_starts(s)[k] == prev[k]);
            }
        }
    }
}

/// The last `n` whitespace-separated words of `s`, with the original spacing
/// and line breaks between them preserved (so speaker labels survive).
pub fn tail_words(s: &str, n: usize) -> (r: String)
    ensures
        r@ == last_words(s@, n as nat),
{
    if n == 0 {
        return String::new();
    }
    let cs = str_chars(s);
    let mut starts: Vec<usize> = Vec::new();
    for i in 0..cs.len()
        invariant
            starts@.map_values(|x: usize| x as int) == word_starts(cs@.take(i as int)),
    {
        assert(cs@.take(i + 1).drop_last() == cs@.take(i as int));
        let ghost prev = starts@.map_values(|x: usize| x as int);
        if !is_whitespace(cs[i]) && (i == 0 || is_whitespace(cs[i - 1])) {
            starts.push(i);
            assert(starts@.map_values(|x: usize| x as int) =~= prev.push(i as int));
        }
    }
    assert(cs@.take(cs.len() as int) == cs@);
    if starts.len() == 0 {
        return String::new();
    }
    let k = if starts.len() > n {
        starts.len() - n
    } else {
        0
    };
    proof {
        lemma_word_starts_bounds(cs@);
    }
    let from = starts[k];
    assert(word_starts(cs@)[k as int] == from as int);
    let mut rest: Vec<char> = Vec::new();
    for j in from..cs.len()
        invariant
            from <= cs.len(),
            rest@ == cs@.subrange(from as int, j as int),
    {
        rest.push(cs[j]);
    }
    assert(rest@ == cs@.skip(from as int));
    let t = trim_end_chars(rest.as_slice());
    string_from_chars(t.as_slice())
}

/// The number of whitespace-separated words of `s`
/// (`str::split_whitespace().count()`).
pub fn count_words(s: &str) -> (r: usize)
    ensures
        r == word_starts(s@).len(),
{
    let cs = str_chars(s);
    let mut n: usize = 0;
    for i in 0..cs.len()
        invariant
            n == word_starts(cs@.take(i as int)).len(),
            n <= i,
    {
        assert(cs@.take(i + 1).drop_last() == cs@.take(i as int));
        if !is_whitespace(cs[i]) && (i == 0 || is_whitespace(cs[i - 1])) {
            n = n + 1;
        }
    }
    assert(cs@.take(cs.len() as int) == cs@);
    n
}

/// The number of bytes of the UTF-8 encoding of `c`.
pub open spec fn utf8_len(c: char) -> nat {
    if (c as u32) < 0x80 {
        1
    } else if (c as u32) < 0x800 {
        2
    } else if (c as u32) < 0x10000 {
        3
    } else {
        4
    }
}

/// The number of bytes of the UTF-8 encoding of `s` (`str::len`).
pub open spec fn byte_len(s: Seq<char>) -> nat
    decreases s.len(),
{
    if s.len() == 0 {
        0
    } else {
        byte_len(s.drop_last()) + utf8_len(s.last())
    }
}

fn utf8_len_exec(c: char) -> (r: u64)
    ensures
        r == utf8_len(c),
{
    let v = c as u32;
    if v < 0x80 {
        1
    } else if v < 0x800 {
        2
    } else if v < 0x10000 {
        3
    } else {
        4
    }
}

fn byte_len_exec(v: &[char]) -> (r: u128)
    ensures
        r == byte_len(v@),
{
    let mut total: u128 = 0;
    for i in 0..v.len()
        invariant
            total == byte_len(v@.take(i as int)),
            total <= 4 * i,
    {
        assert(v@.take(i + 1).drop_last() == v@.take(i as int));
        total = total + utf8_len_exec(v[i]) as u128;
    }
    assert(v@.take(v.len() as int) == v@);
    total
}

/// The longest suffix of `s` of at most `max` bytes.
pub open spec fn keep_tail(s: Seq<char>, max: nat) -> Seq<char>
    decreases s.len(),
{
    if byte_len(s) <= max || s.len() == 0 {
        s
    } else {
        keep_tail(s.drop_first(), max)
    }
}

/// The longest prefix of `s` of at most `max` bytes.
pub open spec fn keep_head(s: Seq<char>, max: nat) -> Seq<char>
    decreases s.len(),
{
    if byte_len(s) <= max || s.len() == 0 {
        s
    } else {
        keep_head(s.drop_last(), max)
    }
}

proof fn lemma_byte_len_first(s: Seq<char>)
    requires
        s.len() > 0,
    ensures
        byte_len(s) == utf8_len(s[0]) + byte_len(s.drop_first()),
    decreases s.len(),
{
    if s.len() > 1 {
        lemma_byte_len_first(s.drop_last());
        assert(s.drop_last().drop_first() == s.drop_first().drop_last());
    } else {
        assert(s.drop_first().len() == 0);
        assert(s.drop_last().len() == 0);
    }
}

/// Truncates `s` to at most `max` bytes keeping the tail (most recent text),
/// cutting on a character boundary.
pub fn cap_keep_tail(s: &mut String, max: usize)
    ensures
        final(s)@ == keep_tail(old(s)@, max as nat),
{
    let cs = str_chars(s.as_str());
    let mut total = byte_len_exec(cs.as_slice());
    if total <= max as u128 {
        return;
    }
    let mut from: usize = 0;
    while from < cs.len() && total > max as u128
        invariant
            from <= cs.len(),
            total == byte_len(cs@.skip(from as int)),
            keep_tail(cs@, max as nat) == keep_tail(cs@.skip(from as int), max as nat),
        decreases cs.len() - from,
    {
        proof {
            lemma_byte_len_first(cs@.skip(from as int));
            assert(cs@.skip(from as int).drop_first() == cs@.skip(from + 1));
        }
        total = total - utf8_len_exec(cs[from]) as u128;
        from = from + 1;
    }
    let mut rest: Vec<char> = Vec::new();
    for j in from..cs.len()
        invariant
            from <= cs.len(),
            rest@ == cs@.subrange(from as int, j as int),
    {
        rest.push(cs[j]);
    }
    assert(rest@ == cs@.skip(from as int));
    *s = string_from_chars(rest.as_slice());
}

/// Truncates `s` to at most `max` bytes keeping the head, cutting on a
/// character boundary.
pub fn cap_keep_head(s: &mut String, max: usize)
    ensures
        final(s)@ == keep_head(old(s)@, max as nat),
{
    let cs = str_chars(s.as_str());
    let mut total = byte_len_exec(cs.as_slice());
    if total <= max as u128 {
        return;
    }
    let mut to: usize = cs.len();
    assert(cs@.take(to as int) == cs@);
    while to > 0 && total > max as u128
        invariant
            to <= cs.len(),
            total == byte_len(cs@.take(to as int)),
            keep_head(cs@, max as nat) == keep_head(cs@.take(to as int), max as nat),
        decreases to,
    {
        assert(cs@.take(to as int).drop_last() == cs@.take(to - 1));
        total = total - utf8_len_exec(cs[to - 1]) as u128;
        to = to - 1;
    }
    let head = crate::text::take_chars(cs.as_slice(), to);
    *s = string_from_chars(head.as_slice());
}

// ---------------------------------------------------------------------------
// Duplicate detection against recorded bullets
// ---------------------------------------------------------------------------

pub open spec fn is_marker(c: char) -> bool {
    c == '-' || c == '*' || c == ' '
}

/// `s` without its leading `-`, `*` and space characters.
pub open spec fn strip_markers(s: Seq<char>) -> Seq<char>
    decreases s.len(),
{
    if s.len() > 0 && is_marker(s[0]) {
        strip_markers(s.drop_first())
    } else {
        s
    }
}

/// A group's head line normalized for exact duplicate detection: the first
/// line, trimmed, its leading markers dropped, trimmed again, lowercased.
pub open spec fn head_key(group: Seq<char>) -> Seq<char> {
    lowercase(trim(strip_markers(trim(first_line(group)))))
}

fn strip_markers_exec(s: &[char]) -> (r: Vec<char>)
    ensures
        r@ == strip_markers(s@),
{
    let mut i: usize = 0;
    while i < s.len() && (s[i] == '-' || s[i] == '*' || s[i] == ' ')
        invariant
            i <= s.len(),
            strip_markers(s@) == strip_markers(s@.skip(i as int)),
        decreases s.len() - i,
    {
        assert(s@.skip(i as int).drop_first() == s@.skip(i + 1));
        i = i + 1;
    }
    assert(s@.skip(0) == s@);
    crate::text::skip_chars(s, i)
}

/// Normalizes a group's head line for cheap duplicate detection: drop the
/// leading marker and indentation and lowercase it, so a trivial
/// re-statement of an already-recorded point collapses to the same key.
pub fn norm_head(group: &str) -> (r: String)
    ensures
        r@ == head_key(group@),
{
    let cs = str_chars(group);
    let first = first_line_of(cs.as_slice());
    let t1 = trim_chars(first.as_slice());
    let t2 = strip_markers_exec(t1.as_slice());
    let t3 = trim_chars(t2.as_slice());
    let s = string_from_chars(t3.as_slice());
    to_lowercase(s.as_str())
}

/// Common words ignored by fuzzy duplicate detection.
pub open spec fn is_stopword(t: Seq<char>) -> bool {
    ||| t == "the"@
    ||| t == "and"@
    ||| t == "for"@
    ||| t == "with"@
    ||| t == "that"@
    ||| t == "this"@
    ||| t == "was"@
    ||| t == "are"@
    ||| t == "will"@
    ||| t == "has"@
    ||| t == "have"@
    ||| t == "not"@
    ||| t == "from"@
    ||| t == "about"@
    ||| t == "into"@
    ||| t == "them"@
    ||| t == "they"@
}

fn stopword(t: &str) -> (r: bool)
    ensures
        r == is_stopword(t@),
{
    str_eq(t, "the") || str_eq(t, "and") || str_eq(t, "for") || str_eq(t, "with") || str_eq(
        t,
        "that",
    ) || str_eq(t, "this") || str_eq(t, "was") || str_eq(t, "are") || str_eq(t, "will")
        || str_eq(t, "has") || str_eq(t, "have") || str_eq(t, "not") || str_eq(t, "from")
        || str_eq(t, "about") || str_eq(t, "into") || str_eq(t, "them") || str_eq(t, "they")
}

/// A token counts as content when it has at least 3 bytes and is not a
/// stopword.
pub open spec fn content_token(t: Seq<char>) -> bool {
    byte_len(t) >= 3 && !is_stopword(t)
}

/// The content tokens of a group's head line.
pub open spec fn head_token_set(group: Seq<char>) -> Set<Seq<char>> {
    normalized(first_line(group)).filter(|t: Seq<char>| content_token(t)).to_set()
}

/// The lowercased alphanumeric content tokens of a group's head line —
/// minus stopwords and tokens under 3 bytes — each once.
pub fn head_tokens(group: &str) -> (r: Vec<String>)
    ensures
        views(r@).no_duplicates(),
        views(r@).to_set() == head_token_set(group@),
{
    let cs = str_chars(group);
    let first = first_line_of(cs.as_slice());
    let line = string_from_chars(first.as_slice());
    let toks = normalize(line.as_str());
    let ghost tv = views(toks@);
    let mut out: Vec<String> = Vec::new();
    for i in 0..toks.len()
        invariant
            tv == views(toks@),
            tv == normalized(first_line(group@)),
            views(out@).no_duplicates(),
            views(out@).to_set() == tv.take(i as int).filter(|t: Seq<char>| content_token(t)).to_set(),
    {
        let t = &toks[i];
        let ghost before = views(out@);
        assert(tv.take(i + 1) == tv.take(i as int).push(t@));
        proof {
            tv.take(i as int).lemma_filter_push(t@, |t: Seq<char>| content_token(t));
        }
        let tc = str_chars(t.as_str());
        let long_enough = byte_len_exec(tc.as_slice()) >= 3;
        if long_enough && !stopword(t.as_str()) {
            assert(content_token(t@));
            let present = contains_string(out.as_slice(), t);
            if !present {
                out.push(t.clone());
                assert(views(out@) == before.push(t@));
                assert(views(out@).to_set() =~= before.to_set().insert(t@));
            } else {
                assert(before.to_set() =~= before.to_set().insert(t@));
            }
            assert(tv.take(i + 1).filter(|t: Seq<char>| content_token(t)) == tv.take(i as int).filter(|t: Seq<char>| content_token(t)).push(t@));
            assert(tv.take(i + 1).filter(|t: Seq<char>| content_token(t)).to_set() =~= tv.take(i as int).filter(|t: Seq<char>| content_token(t)).to_set().insert(t@));
        } else {
            assert(tv.take(i + 1).filter(|t: Seq<char>| content_token(t)) == tv.take(i as int).filter(|t: Seq<char>| content_token(t)));
        }
    }
    assert(tv.take(toks.len() as int) == tv);
    out
}

/// `new` restates `old`: at least [`DEDUP_MIN_TOKENS`] content tokens, of
/// which at least 4/5 already appear in `old`.
pub open spec fn restates(new: Set<Seq<char>>, old: Set<Seq<char>>) -> bool {
    new.len() >= DEDUP_MIN_TOKENS && 5 * new.intersect(old).len() >= 4 * new.len()
}

/// True when `new` restates `old` (both given as lists of distinct tokens):
/// at least [`DEDUP_MIN_TOKENS`] content tokens, of which at least 4/5
/// already appear in `old`. Containment rather than Jaccard, so a genuine
/// update that adds new information to an old point survives.
pub fn is_near_duplicate(new: &[String], old: &[String]) -> (r: bool)
    requires
        views(new@).no_duplicates(),
    ensures
        r == restates(views(new@).to_set(), views(old@).to_set()),
{
    let ghost so = views(old@).to_set();
    let mut overlap: usize = 0;
    let ghost mut shared: Seq<Seq<char>> = Seq::empty();
    for i in 0..new.len()
        invariant
            views(new@).no_duplicates(),
            so == views(old@).to_set(),
            overlap == shared.len(),
            overlap <= i,
            shared.no_duplicates(),
            shared.to_set() == views(new@).take(i as int).to_set().intersect(so),
            forall|k: int| 0 <= k < shared.len() ==> views(new@).take(i as int).contains(
                #[trigger] shared[k],
            ),
    {
        let ghost x = new@[i as int]@;
        assert(views(new@).take(i + 1) == views(new@).take(i as int).push(x));
        assert(!views(new@).take(i as int).contains(x)) by {
            if views(new@).take(i as int).contains(x) {
                let k = choose|k: int|
                    0 <= k < i && #[trigger] views(new@).take(i as int)[k] == x;
                assert(views(new@)[k] == views(new@)[i as int]);
            }
        }
        let found = contains_string(old, &new[i]);
        let ghost before = shared;
        if found {
            overlap = overlap + 1;
            proof {
                shared = shared.push(x);
            }
            assert(shared.to_set() =~= before.to_set().insert(x));
        }
        assert(views(new@).take(i + 1).to_set() =~= views(new@).take(i as int).to_set().insert(x));
        assert(shared.to_set() =~= views(new@).take(i + 1).to_set().intersect(so));
        assert forall|k: int| 0 <= k < shared.len() implies views(new@).take(i + 1).contains(
            #[trigger] shared[k],
        ) by {
            if k < before.len() {
                assert(shared[k] == before[k]);
                let m = choose|m: int|
                    0 <= m < i && #[trigger] views(new@).take(i as int)[m] == before[k];
                assert(views(new@).take(i + 1)[m] == before[k]);
            } else {
                assert(views(new@).take(i + 1)[i as int] == x);
            }
        }
    }
    assert(views(new@).take(new.len() as int) == views(new@));
    proof {
        views(new@).unique_seq_to_set();
        shared.unique_seq_to_set();
    }
    new.len() >= DEDUP_MIN_TOKENS && 5 * (overlap as u128) >= 4 * (new.len() as u128)
}

/// Whether some token set of `seen` is restated by `t`.
pub open spec fn restates_any(t: Set<Seq<char>>, seen: Seq<Set<Seq<char>>>) -> bool {
    exists|k: int| 0 <= k < seen.len() && restates(t, seen[k])
}

/// The groups of `groups` that survive deduplication, given the head keys and
/// head token sets seen so far: a group is dropped when its head key is
/// empty or already seen, or when its token set restates a seen one; a
/// non-empty new key is remembered even when the group is then dropped.
pub open spec fn surviving_groups(
    heads: Set<Seq<char>>,
    seen: Seq<Set<Seq<char>>>,
    groups: Seq<Seq<char>>,
) -> Seq<Seq<char>>
    decreases groups.len(),
{
    if groups.len() == 0 {
        Seq::empty()
    } else {
        let g = groups[0];
        let key = head_key(g);
        let rest = groups.drop_first();
        if key.len() == 0 || heads.contains(key) {
            surviving_groups(heads, seen, rest)
        } else if restates_any(head_token_set(g), seen) {
            surviving_groups(heads.insert(key), seen, rest)
        } else {
            seq![g] + surviving_groups(heads.insert(key), seen.push(head_token_set(g)), rest)
        }
    }
}

/// Drops new groups that merely restate an already recorded bullet or an
/// earlier group of the same batch, plus any group with an empty head.
/// Compares against the whole document, first by exact normalized head, then
/// by token containment.
pub fn dedupe_against_recorded(recorded: &[String], new_groups: &mut Vec<String>)
    ensures
        views(final(new_groups)@) == surviving_groups(
            views(recorded@).map_values(|g: Seq<char>| head_key(g)).to_set(),
            views(recorded@).map_values(|g: Seq<char>| head_token_set(g)),
            views(old(new_groups)@),
        ),
{
    let mut heads: Vec<String> = Vec::new();
    let mut seen: Vec<Vec<String>> = Vec::new();
    for i in 0..recorded.len()
        invariant
            views(heads@) == views(recorded@).take(i as int).map_values(
                |g: Seq<char>| head_key(g),
            ),
            seen@.len() == i,
            forall|k: int|
                0 <= k < i ==> views(#[trigger] seen@[k]@).no_duplicates() && views(
                    seen@[k]@,
                ).to_set() == head_token_set(recorded@[k]@),
    {
        let ghost hb = views(heads@);
        heads.push(norm_head(recorded[i].as_str()));
        assert(views(heads@) =~= hb.push(head_key(recorded@[i as int]@)));
        assert(views(heads@) =~= views(recorded@).take(i + 1).map_values(
            |g: Seq<char>| head_key(g),
        ));
        seen.push(head_tokens(recorded[i].as_str()));
    }
    assert(views(recorded@).take(recorded.len() as int) == views(recorded@));
    assert(views(recorded@).map_values(|g: Seq<char>| head_token_set(g)) =~= seen@.map_values(
        |v: Vec<String>| views(v@).to_set(),
    ));
    let ghost groups = views(new_groups@);
    let mut out: Vec<String> = Vec::new();
    let n = new_groups.len();
    for i in 0..n
        invariant
            n == groups.len(),
            groups == views(old(new_groups)@),
            new_groups@ == old(new_groups)@,
            forall|k: int|
                0 <= k < seen.len() ==> views(#[trigger] seen@[k]@).no_duplicates(),
            views(out@) + surviving_groups(
                views(heads@).to_set(),
                seen@.map_values(|v: Vec<String>| views(v@).to_set()),
                groups.skip(i as int),
            ) == surviving_groups(
                views(recorded@).map_values(|g: Seq<char>| head_key(g)).to_set(),
                views(recorded@).map_values(|g: Seq<char>| head_token_set(g)),
                groups,
            ),
    {
        let g = &new_groups[i];
        let ghost hs = views(heads@).to_set();
        let ghost sv = seen@.map_values(|v: Vec<String>| views(v@).to_set());
        assert(groups.skip(i as int)[0] == g@);
        assert(groups.skip(i as int).drop_first() == groups.skip(i + 1));
        let key = norm_head(g.as_str());
        let known = contains_string(heads.as_slice(), &key);
        if key.as_str().is_empty() || known {
        } else {
            let ghost hb = views(heads@);
            heads.push(key);
            assert(views(heads@).to_set() =~= hs.insert(head_key(g@))) by {
                assert(views(heads@) == hb.push(head_key(g@)));
            }
            let tokens = head_tokens(g.as_str());
            let mut restated = false;
            for k in 0..seen.len()
                invariant
                    forall|q: int|
                        0 <= q < seen.len() ==> views(#[trigger] seen@[q]@).no_duplicates(),
                    views(tokens@).no_duplicates(),
                    views(tokens@).to_set() == head_token_set(g@),
                    restated == exists|m: int|
                        #![trigger seen@[m]]
                        0 <= m < k && restates(head_token_set(g@), views(seen@[m]@).to_set()),
            {
                if is_near_duplicate(tokens.as_slice(), seen[k].as_slice()) {
                    restated = true;
                }
            }
            assert(restated == restates_any(head_token_set(g@), sv)) by {
                if restated {
                    let m = choose|m: int|
                        #![trigger seen@[m]]
                        0 <= m < seen.len() && restates(
                            head_token_set(g@),
                            views(seen@[m]@).to_set(),
                        );
                    assert(sv[m] == views(seen@[m]@).to_set());
                }
                if restates_any(head_token_set(g@), sv) {
                    let m = choose|m: int|
                        0 <= m < sv.len() && restates(head_token_set(g@), #[trigger] sv[m]);
                    assert(sv[m] == views(seen@[m]@).to_set());
                }
            }
            if !restated {
                let ghost ob = views(out@);
                out.push(g.clone());
                assert(views(out@) == ob.push(g@));
                seen.push(tokens);
                assert(seen@.map_values(|v: Vec<String>| views(v@).to_set()) =~= sv.push(
                    head_token_set(g@),
                ));
                assert(ob + surviving_groups(hs, sv, groups.skip(i as int)) == ob + (seq![g@]
                    + surviving_groups(hs.insert(head_key(g@)), sv.push(head_token_set(g@)),
                    groups.skip(i + 1))));
                assert(views(out@) + surviving_groups(
                    hs.insert(head_key(g@)),
                    sv.push(head_token_set(g@)),
                    groups.skip(i + 1),
                ) =~= ob + (seq![g@] + surviving_groups(
                    hs.insert(head_key(g@)),
                    sv.push(head_token_set(g@)),
                    groups.skip(i + 1),
                )));
            }
        }
    }
    assert(groups.skip(n as int) =~= Seq::<Seq<char>>::empty());
    assert(views(out@) + Seq::<Seq<char>>::empty() =~= views(out@));
    *new_groups = out;
}

// ---------------------------------------------------------------------------
// Session bookkeeping
// ---------------------------------------------------------------------------

/// One recording's live-minutes state.
pub struct Session {
    pub meeting_id: String,
    /// Finalized transcript lines accumulated since the last consumed chunk.
    pub pending: String,
    /// Every bullet recorded so far, in order; only ever appended to.
    pub bullets: Vec<String>,
    /// Tail of the transcript the last pass consumed.
    pub carry: String,
    /// Rolling model-facing summary of the meeting.
    pub gist: String,
    /// Transcript consumed by passes but not yet folded into the gist.
    pub gist_pending: String,
    pub gist_failures: u8,
    /// Gist refreshes stopped for this recording.
    pub gist_disabled: bool,
    pub pass_running: bool,
    /// Recording is stopping: no further windows are accepted.
    pub finalizing: bool,
    pub disabled: bool,
    pub failures: u8,
}

/// A session's state as plain values.
#[verifier::ext_equal]
pub struct SessionView {
    pub meeting_id: Seq<char>,
    pub pending: Seq<char>,
    pub bullets: Seq<Seq<char>>,
    pub carry: Seq<char>,
    pub gist: Seq<char>,
    pub gist_pending: Seq<char>,
    pub gist_failures: u8,
    pub gist_disabled: bool,
    pub pass_running: bool,
    pub finalizing: bool,
    pub disabled: bool,
    pub failures: u8,
}

impl View for Session {
    type V = SessionView;

    open spec fn view(&self) -> SessionView {
        SessionView {
            meeting_id: self.meeting_id@,
            pending: self.pending@,
            bullets: views(self.bullets@),
            carry: self.carry@,
            gist: self.gist@,
            gist_pending: self.gist_pending@,
            gist_failures: self.gist_failures,
            gist_disabled: self.gist_disabled,
            pass_running: self.pass_running,
            finalizing: self.finalizing,
            disabled: self.disabled,
            failures: self.failures,
        }
    }
}

impl Session {
    /// A fresh session for `meeting_id`; `disabled` when no model is
    /// available.
    pub fn new(meeting_id: &str, disabled: bool) -> (r: Session)
        ensures
            r@ == (SessionView {
                meeting_id: meeting_id@,
                pending: Seq::empty(),
                bullets: Seq::empty(),
                carry: Seq::empty(),
                gist: Seq::empty(),
                gist_pending: Seq::empty(),
                gist_failures: 0,
                gist_disabled: false,
                pass_running: false,
                finalizing: false,
                disabled,
                failures: 0,
            }),
    {
        let r = Session {
            meeting_id: crate::text::owned(meeting_id),
            pending: String::new(),
            bullets: Vec::new(),
            carry: String::new(),
            gist: String::new(),
            gist_pending: String::new(),
            gist_failures: 0,
            gist_disabled: false,
            pass_running: false,
            finalizing: false,
            disabled,
            failures: 0,
        };
        assert(views(r.bullets@) =~= Seq::<Seq<char>>::empty());
        r
    }
}

/// The groups `r` are fit to record against head keys `heads` and token
/// sets `seen`: each has a non-empty head key that is new and distinct from
/// the others' keys, and no group's tokens restate a seen set or an earlier
/// group of `r`.
pub open spec fn fresh_groups(heads: Set<Seq<char>>, seen: Seq<Set<Seq<char>>>, r: Seq<Seq<char>>) -> bool {
    &&& forall|i: int|
        0 <= i < r.len() ==> {
            &&& head_key(#[trigger] r[i]).len() > 0
            &&& !heads.contains(head_key(r[i]))
            &&& !restates_any(head_token_set(r[i]), seen)
        }
    &&& forall|i: int, j: int|
        0 <= i < j < r.len() ==> head_key(#[trigger] r[i]) != head_key(#[trigger] r[j])
            && !restates(head_token_set(r[j]), head_token_set(r[i]))
}

proof fn lemma_surviving_fresh(
    heads: Set<Seq<char>>,
    seen: Seq<Set<Seq<char>>>,
    groups: Seq<Seq<char>>,
)
    ensures
        fresh_groups(heads, seen, surviving_groups(heads, seen, groups)),
        surviving_groups(heads, seen, groups).len() <= groups.len(),
    decreases groups.len(),
{
    if groups.len() > 0 {
        let g = groups[0];
        let key = head_key(g);
        let rest = groups.drop_first();
        if key.len() == 0 || heads.contains(key) {
            lemma_surviving_fresh(heads, seen, rest);
        } else if restates_any(head_token_set(g), seen) {
            lemma_surviving_fresh(heads.insert(key), seen, rest);
        } else {
            let ts = head_token_set(g);
            let tail = surviving_groups(heads.insert(key), seen.push(ts), rest);
            let r = seq![g] + tail;
            lemma_surviving_fresh(heads.insert(key), seen.push(ts), rest);
            assert forall|i: int| 0 <= i < r.len() implies {
                &&& head_key(#[trigger] r[i]).len() > 0
                &&& !heads.contains(head_key(r[i]))
                &&& !restates_any(head_token_set(r[i]), seen)
            } by {
                if i > 0 {
                    assert(r[i] == tail[i - 1]);
                    if restates_any(head_token_set(r[i]), seen) {
                        let k = choose|k: int|
                            0 <= k < seen.len() && restates(head_token_set(r[i]), seen[k]);
                        assert(seen.push(ts)[k] == seen[k]);
                    }
                }
            }
            assert forall|i: int, j: int| 0 <= i < j < r.len() implies head_key(
                #[trigger] r[i],
            ) != head_key(#[trigger] r[j]) && !restates(
                head_token_set(r[j]),
                head_token_set(r[i]),
            ) by {
                assert(r[j] == tail[j - 1]);
                if i == 0 {
                    assert(seen.push(ts)[seen.len() as int] == ts);
                } else {
                    assert(r[i] == tail[i - 1]);
                }
            }
            assert(surviving_groups(heads, seen, groups) == r);
        }
    }
}

/// What a pass appends is fit to record: every new bullet has a non-empty
/// head that no recorded bullet and no other new bullet shares, and no new
/// bullet restates a recorded bullet or an earlier new one; at most
/// [`NEW_BULLETS_PER_PASS_MAX`] are appended.
pub proof fn law_new_bullets_are_fresh(recorded: Seq<Seq<char>>, body: Seq<char>)
    ensures
        fresh_groups(
            recorded.map_values(|g: Seq<char>| head_key(g)).to_set(),
            recorded.map_values(|g: Seq<char>| head_token_set(g)),
            new_bullets(recorded, body),
        ),
        new_bullets(recorded, body).len() <= NEW_BULLETS_PER_PASS_MAX,
{
    let heads = recorded.map_values(|g: Seq<char>| head_key(g)).to_set();
    let seen = recorded.map_values(|g: Seq<char>| head_token_set(g));
    let s = surviving_groups(heads, seen, group_lines(lines(body)));
    lemma_surviving_fresh(heads, seen, group_lines(lines(body)));
    let r = new_bullets(recorded, body);
    if body.len() > 0 && s.len() > NEW_BULLETS_PER_PASS_MAX {
        assert forall|i: int| 0 <= i < r.len() implies {
            &&& head_key(#[trigger] r[i]).len() > 0
            &&& !heads.contains(head_key(r[i]))
            &&& !restates_any(head_token_set(r[i]), seen)
        } by {
            assert(r[i] == s[i]);
        }
        assert forall|i: int, j: int| 0 <= i < j < r.len() implies head_key(#[trigger] r[i])
            != head_key(#[trigger] r[j]) && !restates(head_token_set(r[j]), head_token_set(r[i])) by {
            assert(r[i] == s[i]);
            assert(r[j] == s[j]);
        }
    }
}

/// The bullet log is append-only: whatever a pass and a gist refresh do, the
/// recorded bullets stay, in order, at the front, followed by at most
/// [`NEW_BULLETS_PER_PASS_MAX`] new ones.
pub proof fn law_bullets_append_only(
    s: SessionView,
    chunk: Seq<char>,
    result: Result<String, AppError>,
    gist_outcome: Option<(String, Result<String, AppError>)>,
)
    ensures
        ({
            let after = gist_applied(pass_applied(s, chunk, result), gist_outcome).bullets;
            &&& s.bullets.len() <= after.len() <= s.bullets.len() + NEW_BULLETS_PER_PASS_MAX
            &&& after.take(s.bullets.len() as int) == s.bullets
        }),
{
    let p = pass_applied(s, chunk, result);
    assert(gist_applied(p, gist_outcome).bullets == p.bullets);
    if let Ok(body) = result {
        law_new_bullets_are_fresh(s.bullets, body@);
        assert((s.bullets + new_bullets(s.bullets, body@)).take(s.bullets.len() as int)
            =~= s.bullets);
    } else {
        assert(s.bullets.take(s.bullets.len() as int) =~= s.bullets);
    }
}

/// `s` after a pass consumed `chunk`: the chunk's tail is the next pass's
/// context and the chunk joins the (tail-capped) gist backlog.
pub open spec fn consumed(s: SessionView, chunk: Seq<char>) -> SessionView {
    SessionView {
        carry: last_words(chunk, CARRY_OVER_WORDS as nat),
        gist_pending: keep_tail(s.gist_pending + chunk, GIST_PENDING_MAX_CHARS as nat),
        ..s
    }
}

/// The pass consumed `chunk`: its tail becomes the carry-over context, and
/// it joins the (tail-capped) gist backlog.
pub fn consume_chunk(session: &mut Session, chunk: &str)
    ensures
        final(session)@ == consumed(old(session)@, chunk@),
{
    session.carry = tail_words(chunk, CARRY_OVER_WORDS);
    append_str(&mut session.gist_pending, chunk);
    cap_keep_tail(&mut session.gist_pending, GIST_PENDING_MAX_CHARS);
}

/// Whether a gist outcome is a failure other than an interruption.
pub open spec fn gist_fails(outcome: Option<(String, Result<String, AppError>)>) -> bool {
    outcome matches Some((_, Err(e))) && !(e is Interrupted)
}

/// `s` after the outcome of a gist refresh (`None`: none was attempted). A
/// new gist replaces the old one (head-capped) and clears the failure count;
/// an interrupted or skipped refresh puts its chunk back in front of the
/// backlog; a failure drops the chunk and counts towards freezing the gist.
pub open spec fn gist_applied(
    s: SessionView,
    outcome: Option<(String, Result<String, AppError>)>,
) -> SessionView {
    match outcome {
        None => s,
        Some((chunk, Ok(g))) => SessionView {
            gist: keep_head(g@, GIST_MAX_CHARS as nat),
            gist_failures: 0,
            ..s
        },
        Some((chunk, Err(e))) => if e is Interrupted {
            SessionView {
                gist_pending: keep_tail(chunk@ + s.gist_pending, GIST_PENDING_MAX_CHARS as nat),
                ..s
            }
        } else {
            SessionView {
                gist_failures: (s.gist_failures + 1) as u8,
                gist_disabled: s.gist_disabled || s.gist_failures + 1 >= GIST_MAX_FAILURES,
                ..s
            }
        },
    }
}

/// Bookkeeping for the optional gist refresh of a pass.
pub fn apply_gist_result(
    session: &mut Session,
    gist_outcome: Option<(String, Result<String, AppError>)>,
)
    requires
        gist_fails(gist_outcome) ==> old(session).gist_failures < u8::MAX,
    ensures
        final(session)@ == gist_applied(old(session)@, gist_outcome),
{
    match gist_outcome {
        None => {},
        Some((gist_chunk, gist_result)) => {
            match gist_result {
                Ok(new_gist) => {
                    session.gist = new_gist;
                    cap_keep_head(&mut session.gist, GIST_MAX_CHARS);
                    session.gist_failures = 0;
                },
                Err(e) => {
                    if e.is_interrupted() {
                        let mut backlog = gist_chunk;
                        append_str(&mut backlog, session.gist_pending.as_str());
                        cap_keep_tail(&mut backlog, GIST_PENDING_MAX_CHARS);
                        session.gist_pending = backlog;
                    } else {
                        session.gist_failures = session.gist_failures + 1;
                        if session.gist_failures >= GIST_MAX_FAILURES {
                            session.gist_disabled = true;
                        }
                    }
                },
            }
        },
    }
}

/// The topic groups of a pass's output that get appended: deduplicated
/// against the recorded bullets, at most [`NEW_BULLETS_PER_PASS_MAX`]; none
/// for an empty output.
pub open spec fn new_bullets(recorded: Seq<Seq<char>>, body: Seq<char>) -> Seq<Seq<char>> {
    let s = surviving_groups(
        recorded.map_values(|g: Seq<char>| head_key(g)).to_set(),
        recorded.map_values(|g: Seq<char>| head_token_set(g)),
        group_lines(lines(body)),
    );
    if body.len() == 0 {
        Seq::empty()
    } else if s.len() > NEW_BULLETS_PER_PASS_MAX {
        s.take(NEW_BULLETS_PER_PASS_MAX as int)
    } else {
        s
    }
}

/// `s` after the outcome of a minutes pass over `chunk`. Success clears the
/// failure count, consumes the chunk and appends the new bullets; an
/// interruption puts the chunk back in front of `pending`; a failure counts
/// towards disabling the session and still consumes the chunk.
pub open spec fn pass_applied(
    s: SessionView,
    chunk: Seq<char>,
    result: Result<String, AppError>,
) -> SessionView {
    match result {
        Ok(body) => SessionView {
            failures: 0,
            bullets: s.bullets + new_bullets(s.bullets, body@),
            ..consumed(s, chunk)
        },
        Err(e) => if e is Interrupted {
            SessionView { pending: chunk + s.pending, ..s }
        } else {
            SessionView {
                failures: (s.failures + 1) as u8,
                disabled: s.disabled || s.failures + 1 >= MAX_FAILURES,
                ..consumed(s, chunk)
            }
        },
    }
}

/// The document to persist after a pass: all bullets joined by `\n`, when
/// the pass added any.
pub open spec fn pass_document(s: SessionView, result: Result<String, AppError>) -> Option<
    Seq<char>,
> {
    match result {
        Ok(body) => {
            let added = new_bullets(s.bullets, body@);
            if added.len() > 0 {
                Some(join(s.bullets + added, "\n"@))
            } else {
                None
            }
        },
        Err(_) => None,
    }
}

/// Whether a follow-up pass is due: the pass succeeded, more transcript is
/// pending and the recording is not stopping.
pub open spec fn pass_rerun(s: SessionView, result: Result<String, AppError>) -> bool {
    result is Ok && trim(s.pending).len() > 0 && !s.finalizing
}

/// Bookkeeping for one completed pass, applied under the session lock: the
/// pass outcome, then the gist outcome. Returns the document to persist and
/// whether a follow-up pass is due.
pub fn apply_pass_result(
    session: &mut Session,
    chunk: &str,
    result: Result<String, AppError>,
    gist_outcome: Option<(String, Result<String, AppError>)>,
) -> (r: (Option<String>, bool))
    requires
        (result matches Err(e) && !(e is Interrupted)) ==> old(session).failures < u8::MAX,
        gist_fails(gist_outcome) ==> old(session).gist_failures < u8::MAX,
    ensures
        final(session)@ == gist_applied(
            pass_applied(old(session)@, chunk@, result),
            gist_outcome,
        ),
        opt_view(r.0) == pass_document(old(session)@, result),
        r.1 == pass_rerun(old(session)@, result),
{
    let ghost s0 = session@;
    let mut rerun = false;
    let mut persist: Option<String> = None;
    match result {
        Ok(body) => {
            session.failures = 0;
            consume_chunk(session, chunk);
            if !body.as_str().is_empty() {
                let mut new_groups = group_topics(body.as_str());
                dedupe_against_recorded(session.bullets.as_slice(), &mut new_groups);
                if new_groups.len() > NEW_BULLETS_PER_PASS_MAX {
                    new_groups.truncate(NEW_BULLETS_PER_PASS_MAX);
                }
                assert(views(new_groups@) == new_bullets(s0.bullets, body@));
                if new_groups.len() > 0 {
                    extend_strings(&mut session.bullets, new_groups.as_slice());
                    persist = Some(join_strings(session.bullets.as_slice(), "\n"));
                }
            } else {
                assert(s0.bullets + new_bullets(s0.bullets, body@) =~= s0.bullets);
            }
            assert(session@ == pass_applied(s0, chunk@, result));
            let pv = str_chars(session.pending.as_str());
            let pt = trim_chars(pv.as_slice());
            rerun = pt.len() > 0 && !session.finalizing;
        },
        Err(e) => {
            if e.is_interrupted() {
                let mut p = crate::text::owned(chunk);
                append_str(&mut p, session.pending.as_str());
                session.pending = p;
            } else {
                session.failures = session.failures + 1;
                if session.failures >= MAX_FAILURES {
                    session.disabled = true;
                }
                consume_chunk(session, chunk);
            }
            assert(session@ == pass_applied(s0, chunk@, result));
        },
    }
    apply_gist_result(session, gist_outcome);
    (persist, rerun)
}

// ---------------------------------------------------------------------------
// Scheduling decisions
// ---------------------------------------------------------------------------

/// How a transcript line's source is labelled for the model.
pub open spec fn speaker_label(source: Seq<char>) -> Seq<char> {
    if source == "system"@ {
        "Speaker"@
    } else {
        "You"@
    }
}

/// The `(source, text)` lines of a finalized window as transcript text: one
/// `label: text` line each.
pub open spec fn window_text(lines: Seq<(String, String)>) -> Seq<char>
    decreases lines.len(),
{
    if lines.len() == 0 {
        Seq::empty()
    } else {
        window_text(lines.drop_last()) + speaker_label(lines.last().0@) + ": "@ + lines.last().1@
            + "\n"@
    }
}

/// Whether a session takes windows of `meeting_id`.
pub open spec fn accepts_window(s: SessionView, meeting_id: Seq<char>) -> bool {
    s.meeting_id == meeting_id && !s.disabled && !s.finalizing
}

/// Feeds one finalized window into the session: its lines are appended to
/// `pending` when the session belongs to `meeting_id` and is neither
/// disabled nor stopping. Returns whether the window was taken.
pub fn accept_window(session: &mut Session, meeting_id: &str, lines: &[(String, String)]) -> (r:
    bool)
    ensures
        r == accepts_window(old(session)@, meeting_id@),
        final(session)@ == (if r {
            SessionView { pending: old(session)@.pending + window_text(lines@), ..old(session)@ }
        } else {
            old(session)@
        }),
{
    if !str_eq(session.meeting_id.as_str(), meeting_id) || session.disabled || session.finalizing {
        return false;
    }
    let mut p = session.pending.clone();
    let ghost p0 = p@;
    for k in 0..lines.len()
        invariant
            p@ == p0 + window_text(lines@.take(k as int)),
    {
        assert(lines@.take(k + 1).drop_last() == lines@.take(k as int));
        let (source, text) = &lines[k];
        if str_eq(source.as_str(), "system") {
            append_str(&mut p, "Speaker");
        } else {
            append_str(&mut p, "You");
        }
        append_str(&mut p, ": ");
        append_str(&mut p, text.as_str());
        append_str(&mut p, "\n");
    }
    assert(lines@.take(lines.len() as int) == lines@);
    session.pending = p;
    true
}

/// What a pass works on, taken from the session when it starts.
pub struct PassJob {
    pub meeting_id: String,
    /// The trailing recorded bullets, for the model to avoid repeats.
    pub recorded_tail: String,
    /// The new transcript this pass consumes.
    pub chunk: String,
    pub gist: String,
    pub carry: String,
    /// The gist backlog to fold in after the pass, when one is due.
    pub gist_chunk: Option<String>,
}

/// Whether a pass starts now. `force` (the stop flow) only asks for some
/// non-blank pending transcript; otherwise at least [`MIN_PASS_WORDS`] words
/// must be pending and the model must not be serving user work
/// (`model_busy`).
pub open spec fn pass_due(s: SessionView, force: bool, model_busy: bool) -> bool {
    &&& !s.disabled
    &&& !s.pass_running
    &&& if force {
        trim(s.pending).len() > 0
    } else {
        word_starts(s.pending).len() >= MIN_PASS_WORDS && !model_busy
    }
}

/// On the stop flow every last word counts: a forced pass starts whenever
/// the session is enabled, no pass is running and the pending transcript
/// holds any character that is not whitespace, whatever its length and
/// however busy the model is; with nothing but whitespace pending it does
/// not start.
pub proof fn law_forced_pass_takes_any_words(s: SessionView, model_busy: bool)
    ensures
        pass_due(s, true, model_busy) <==> (!s.disabled && !s.pass_running && exists|j: int|
            0 <= j < s.pending.len() && !char_is_whitespace(#[trigger] s.pending[j])),
{
    lemma_trim_nonblank(s.pending);
}

/// Whether a starting pass also takes the gist backlog: never on the stop
/// flow, never once gist refreshes are frozen, and only when at least
/// [`GIST_UPDATE_MIN_WORDS`] words are waiting.
pub open spec fn takes_gist(s: SessionView, force: bool) -> bool {
    !force && !s.gist_disabled && word_starts(s.gist_pending).len() >= GIST_UPDATE_MIN_WORDS
}

/// Starts a pass when one is due: marks it running and takes the pending
/// transcript (and the gist backlog, when due) out of the session.
pub fn begin_pass(session: &mut Session, force: bool, model_busy: bool) -> (r: Option<PassJob>)
    ensures
        r is Some == pass_due(old(session)@, force, model_busy),
        r is None ==> final(session)@ == old(session)@,
        r matches Some(job) ==> {
            &&& job.meeting_id@ == old(session)@.meeting_id
            &&& job.recorded_tail@ == recorded_tail(old(session)@.bullets)
            &&& job.chunk@ == old(session)@.pending
            &&& job.gist@ == old(session)@.gist
            &&& job.carry@ == old(session)@.carry
            &&& opt_view(job.gist_chunk) == (if takes_gist(old(session)@, force) {
                Some(old(session)@.gist_pending)
            } else {
                None
            })
            &&& final(session)@ == SessionView {
                pass_running: true,
                pending: Seq::empty(),
                gist_pending: if takes_gist(old(session)@, force) {
                    Seq::empty()
                } else {
                    old(session)@.gist_pending
                },
                ..old(session)@
            }
        },
{
    if session.disabled || session.pass_running {
        return None;
    }
    if !force {
        if count_words(session.pending.as_str()) < MIN_PASS_WORDS || model_busy {
            return None;
        }
    } else {
        let pv = str_chars(session.pending.as_str());
        let pt = trim_chars(pv.as_slice());
        if pt.len() == 0 {
            return None;
        }
    }
    session.pass_running = true;
    let recorded = tail_context(session.bullets.as_slice());
    let mut chunk = String::new();
    std::mem::swap(&mut chunk, &mut session.pending);
    let gist_chunk = if !force && !session.gist_disabled && count_words(
        session.gist_pending.as_str(),
    ) >= GIST_UPDATE_MIN_WORDS {
        let mut g = String::new();
        std::mem::swap(&mut g, &mut session.gist_pending);
        Some(g)
    } else {
        None
    };
    Some(
        PassJob {
            meeting_id: session.meeting_id.clone(),
            recorded_tail: recorded,
            chunk,
            gist: session.gist.clone(),
            carry: session.carry.clone(),
            gist_chunk,
        },
    )
}

/// The gist outcome of a refresh that did not run (the pass failed, the
/// model was taken, or the recording is stopping): its backlog goes back as
/// an interruption, so [`apply_gist_result`] requeues it.
pub fn skipped_gist(gist_chunk: Option<String>) -> (r: Option<(String, Result<String, AppError>)>)
    ensures
        match gist_chunk {
            Some(c) => r == Some((c, Err::<String, AppError>(AppError::Interrupted))),
            None => r is None,
        },
{
    match gist_chunk {
        Some(c) => Some((c, Err(AppError::Interrupted))),
        None => None,
    }
}

/// Records a finished pass of `meeting_id`: a straggler from another
/// recording's session leaves the session alone (`None`); otherwise the pass
/// is no longer running and its outcome is applied as by
/// [`apply_pass_result`], whose answer is returned.
pub fn finish_pass(
    session: &mut Session,
    meeting_id: &str,
    chunk: &str,
    result: Result<String, AppError>,
    gist_outcome: Option<(String, Result<String, AppError>)>,
) -> (r: Option<(Option<String>, bool)>)
    requires
        (result matches Err(e) && !(e is Interrupted)) ==> old(session).failures < u8::MAX,
        gist_fails(gist_outcome) ==> old(session).gist_failures < u8::MAX,
    ensures
        r is Some == (old(session)@.meeting_id == meeting_id@),
        r is None ==> final(session)@ == old(session)@,
        r matches Some(out) ==> {
            let s = SessionView { pass_running: false, ..old(session)@ };
            &&& final(session)@ == gist_applied(pass_applied(s, chunk@, result), gist_outcome)
            &&& opt_view(out.0) == pass_document(s, result)
            &&& out.1 == pass_rerun(s, result)
        },
{
    if !str_eq(session.meeting_id.as_str(), meeting_id) {
        return None;
    }
    session.pass_running = false;
    Some(apply_pass_result(session, chunk, result, gist_outcome))
}

/// The stop flow begins for `meeting_id`: the session stops taking windows.
/// Returns whether the session belongs to that meeting.
pub fn begin_finalize(session: &mut Session, meeting_id: &str) -> (r: bool)
    ensures
        r == (old(session)@.meeting_id == meeting_id@),
        final(session)@ == (if r {
            SessionView { finalizing: true, ..old(session)@ }
        } else {
            old(session)@
        }),
{
    if !str_eq(session.meeting_id.as_str(), meeting_id) {
        return false;
    }
    session.finalizing = true;
    true
}

} // verus!
