//! How the streaming filters behave when their input arrives in pieces: the
//! content they release does not depend on where the model's output was cut.
use vstd::prelude::*;

use crate::services::summarization::{
    text_piece, think_drain, drain_spec, earliest_marker, lemma_earliest_marker, lemma_marker_lengths, open_markers, piece,
    FilterState, GEMMA_RESPONSE_OPEN, GEMMA_TOOL_OPEN, LFM2_TOOL_OPEN, THINK_CLOSE, THINK_OPEN,
    TOOL_OPEN,
};
use crate::text::{
    find, find_from, lemma_find_from, lemma_find_from_at, lemma_rfind_char, occurs_at, rfind_char,
};

use vstd::seq_lib::lemma_flatten_concat;

verus! {

broadcast use vstd::seq_lib::group_seq_properties;

/// The characters released by a list of content pieces, each tagged with
/// whether it is thinking.
pub open spec fn tagged(ps: Seq<(Seq<char>, bool)>) -> Seq<(char, bool)>
    decreases ps.len(),
{
    if ps.len() == 0 {
        Seq::empty()
    } else {
        tagged(ps.drop_last()) + tag(ps.last().0, ps.last().1)
    }
}

/// The characters of `t`, each tagged with `th`.
pub open spec fn tag(t: Seq<char>, th: bool) -> Seq<(char, bool)> {
    t.map_values(|c: char| (c, th))
}

proof fn lemma_tagged_append(x: Seq<(Seq<char>, bool)>, y: Seq<(Seq<char>, bool)>)
    ensures
        tagged(x + y) == tagged(x) + tagged(y),
    decreases y.len(),
{
    if y.len() == 0 {
        assert(x + y =~= x);
        assert(tagged(y) =~= Seq::<(char, bool)>::empty());
    } else {
        assert((x + y).drop_last() =~= x + y.drop_last());
        assert((x + y).last() == y.last());
        lemma_tagged_append(x, y.drop_last());
    }
}

proof fn lemma_tagged_single(t: Seq<char>, th: bool)
    ensures
        tagged(piece(t, th)) == tag(t, th),
{
    if t.len() > 0 {
        let x = piece(t, th);
        assert(x.len() == 1);
        assert(x.last() == (t, th));
        assert(x.drop_last() =~= Seq::<(Seq<char>, bool)>::empty());
        assert(tagged(x.drop_last()) =~= Seq::<(char, bool)>::empty());
        assert(tagged(x) == tagged(x.drop_last()) + tag(t, th));
        assert(tagged(x) =~= tag(t, th));
    } else {
        assert(tag(t, th) =~= Seq::<(char, bool)>::empty());
    }
}

proof fn lemma_tagged_piece(t: Seq<char>, u: Seq<char>, th: bool)
    ensures
        tagged(piece(t, th) + piece(u, th)) == tagged(piece(t + u, th)),
{
    lemma_tagged_append(piece(t, th), piece(u, th));
    lemma_tagged_single(t, th);
    lemma_tagged_single(u, th);
    lemma_tagged_single(t + u, th);
    assert(tag(t + u, th) =~= tag(t, th) + tag(u, th));
}

/// The first occurrence of `m` in `a` is its first occurrence in `a + b`.
pub(crate) proof fn lemma_find_extend(a: Seq<char>, b: Seq<char>, m: Seq<char>)
    requires
        find(a, m) is Some,
    ensures
        find(a + b, m) == find(a, m),
{
    let s = a + b;
    lemma_find_from(a, m, 0);
    let i = find(a, m)->0;
    assert(s.subrange(i, i + m.len()) =~= a.subrange(i, i + m.len()));
    assert forall|j: int| 0 <= j < i implies !occurs_at(s, m, j) by {
        if occurs_at(s, m, j) {
            assert(j + m.len() <= a.len());
            assert(s.subrange(j, j + m.len()) =~= a.subrange(j, j + m.len()));
            assert(occurs_at(a, m, j));
        }
    }
    lemma_find_from_at(s, m, 0, i);
}

/// With no occurrence before `k`, the first occurrence in `s` is the first
/// one in `s.skip(k)`, moved by `k`.
proof fn lemma_find_skip(s: Seq<char>, m: Seq<char>, k: int)
    requires
        0 <= k <= s.len(),
        forall|j: int| 0 <= j < k ==> !occurs_at(s, m, j),
    ensures
        find(s, m) == match find(s.skip(k), m) {
            Some(i) => Some(i + k),
            None => None::<int>,
        },
{
    let t = s.skip(k);
    lemma_find_from(s, m, 0);
    lemma_find_from(t, m, 0);
    assert forall|j: int| k <= j implies occurs_at(s, m, j) == occurs_at(t, m, j - k) by {
        if j + m.len() <= s.len() {
            assert(s.subrange(j, j + m.len()) =~= t.subrange(j - k, j - k + m.len()));
        }
    }
    match find(t, m) {
        Some(i) => {
            assert(occurs_at(s, m, i + k));
            assert forall|j: int| 0 <= j < i + k implies !occurs_at(s, m, j) by {
                if j >= k {
                    assert(!occurs_at(t, m, j - k));
                }
            }
            lemma_find_from_at(s, m, 0, i + k);
        },
        None => {
            if find(s, m) is Some {
                let j = find(s, m)->0;
                assert(occurs_at(t, m, j - k));
            }
        },
    }
}

/// A marker whose only `<` is its first character.
pub open spec fn lt_led(m: Seq<char>) -> bool {
    &&& m.len() > 0
    &&& m[0] == '<'
    &&& forall|j: int| 1 <= j < m.len() ==> m[j] != '<'
}

/// `lt` is where the kept tail of `a` starts: its last `<`, or its end when
/// it has none.
pub open spec fn tail_start(a: Seq<char>, lt: int) -> bool {
    ||| (0 <= lt < a.len() && rfind_char(a, '<') == Some(lt))
    ||| (lt == a.len() && rfind_char(a, '<') is None)
}

/// A `<`-led marker that does not occur in `a` first occurs in `a + b` at
/// or after `a`'s kept tail.
proof fn lemma_find_after_tail(a: Seq<char>, b: Seq<char>, m: Seq<char>, lt: int)
    requires
        lt_led(m),
        find(a, m) is None,
        tail_start(a, lt),
    ensures
        find(a + b, m) == match find(a.skip(lt) + b, m) {
            Some(i) => Some(i + lt),
            None => None::<int>,
        },
{
    let s = a + b;
    lemma_find_from(a, m, 0);
    lemma_rfind_char(a, '<');
    assert forall|j: int| 0 <= j < lt implies !occurs_at(s, m, j) by {
        if occurs_at(s, m, j) {
            if j + m.len() <= a.len() {
                assert(s.subrange(j, j + m.len()) =~= a.subrange(j, j + m.len()));
                assert(occurs_at(a, m, j));
            } else if lt < a.len() {
                assert(s.subrange(j, j + m.len())[lt - j] == s[lt]);
                assert(m[lt - j] == '<');
            } else {
                assert(s.subrange(j, j + m.len())[0] == s[j]);
                assert(a[j] == '<');
            }
        }
    }
    lemma_find_skip(s, m, lt);
    assert(s.skip(lt) =~= a.skip(lt) + b);
}

proof fn lemma_rfind_at(s: Seq<char>, c: char, i: int)
    requires
        0 <= i < s.len(),
        s[i] == c,
        forall|j: int| i < j < s.len() ==> s[j] != c,
    ensures
        rfind_char(s, c) == Some(i),
    decreases s.len(),
{
    if i < s.len() - 1 {
        assert forall|j: int| i < j < s.len() - 1 implies s.drop_last()[j] != c by {
            assert(s.drop_last()[j] == s[j]);
        }
        lemma_rfind_at(s.drop_last(), c, i);
    }
}

proof fn lemma_rfind_none(s: Seq<char>, c: char)
    requires
        forall|j: int| 0 <= j < s.len() ==> s[j] != c,
    ensures
        rfind_char(s, c) is None,
{
    lemma_rfind_char(s, c);
}

/// The last `<` of `a + b`, seen from `a`'s kept tail.
proof fn lemma_rfind_after_tail(a: Seq<char>, b: Seq<char>, lt: int)
    requires
        tail_start(a, lt),
    ensures
        rfind_char(a + b, '<') == match rfind_char(a.skip(lt) + b, '<') {
            Some(r) => Some(r + lt),
            None => None::<int>,
        },
{
    let s = a + b;
    let t = a.skip(lt) + b;
    assert(s.skip(lt) =~= t);
    lemma_rfind_char(a, '<');
    lemma_rfind_char(t, '<');
    match rfind_char(t, '<') {
        Some(r) => {
            assert(s[r + lt] == t[r]);
            assert forall|j: int| r + lt < j < s.len() implies s[j] != '<' by {
                assert(s[j] == t[j - lt]);
            }
            lemma_rfind_at(s, '<', r + lt);
        },
        None => {
            if lt < a.len() {
                assert(t[0] == a[lt]);
            }
            assert forall|j: int| 0 <= j < s.len() implies s[j] != '<' by {
                if j >= lt {
                    assert(s[j] == t[j - lt]);
                } else {
                    assert(s[j] == a[j]);
                }
            }
            lemma_rfind_none(s, '<');
        },
    }
}

// ---------------------------------------------------------------------------
// The earliest marker
// ---------------------------------------------------------------------------

/// Two markers that differ somewhere both are defined, so they never start
/// at the same place.
pub open spec fn apart(m1: Seq<char>, m2: Seq<char>) -> bool {
    exists|t: int| 0 <= t < m1.len() && t < m2.len() && m1[t] != m2[t]
}

/// Every marker is `<`-led and no two start at the same place.
pub open spec fn markers_ok(ms: Seq<(Seq<char>, FilterState)>) -> bool {
    &&& forall|k: int| 0 <= k < ms.len() ==> lt_led(#[trigger] ms[k].0)
    &&& forall|k1: int, k2: int|
        0 <= k1 < ms.len() && 0 <= k2 < ms.len() && k1 != k2 ==> apart(
            #[trigger] ms[k1].0,
            #[trigger] ms[k2].0,
        )
}

/// `ms[k]` first occurs in `buf` at `i`, no marker occurs earlier, and no
/// marker listed before it occurs at `i`.
pub open spec fn earliest_at(buf: Seq<char>, ms: Seq<(Seq<char>, FilterState)>, i: int, k: int) -> bool {
    &&& 0 <= k < ms.len()
    &&& find(buf, ms[k].0) == Some(i)
    &&& forall|k2: int|
        0 <= k2 < ms.len() && #[trigger] find(buf, ms[k2].0) is Some ==> find(buf, ms[k2].0)->0
            >= i
    &&& forall|k2: int|
        0 <= k2 < k && #[trigger] find(buf, ms[k2].0) is Some ==> find(buf, ms[k2].0)->0 > i
}

proof fn lemma_earliest_char(buf: Seq<char>, ms: Seq<(Seq<char>, FilterState)>)
    ensures
        match earliest_marker(buf, ms) {
            Some(e) => exists|k: int|
                earliest_at(buf, ms, e.0, k) && #[trigger] ms[k].0 == e.1 && ms[k].1 == e.2,
            None => forall|k: int| 0 <= k < ms.len() ==> find(buf, #[trigger] ms[k].0) is None,
        },
    decreases ms.len(),
{
    if ms.len() > 0 {
        let p = ms.drop_last();
        lemma_earliest_char(buf, p);
        assert forall|k: int| 0 <= k < p.len() implies p[k] == ms[k] by {}
        let (open, st) = ms.last();
        let last = ms.len() - 1;
        assert(ms[last] == (open, st));
        match find(buf, open) {
            Some(idx) => match earliest_marker(buf, p) {
                Some(e) => {
                    let k = choose|k: int|
                        earliest_at(buf, p, e.0, k) && #[trigger] p[k].0 == e.1 && p[k].1 == e.2;
                    if idx < e.0 {
                        assert(earliest_at(buf, ms, idx, last)) by {
                            assert forall|k2: int|
                                0 <= k2 < ms.len() && #[trigger] find(buf, ms[k2].0) is Some implies find(
                                buf,
                                ms[k2].0,
                            )->0 >= idx by {
                                if k2 < last {
                                    assert(find(buf, p[k2].0) is Some);
                                }
                            }
                            assert forall|k2: int|
                                0 <= k2 < last && #[trigger] find(buf, ms[k2].0) is Some implies find(
                                buf,
                                ms[k2].0,
                            )->0 > idx by {
                                assert(find(buf, p[k2].0) is Some);
                            }
                        }
                    } else {
                        assert(earliest_at(buf, ms, e.0, k)) by {
                            assert forall|k2: int|
                                0 <= k2 < ms.len() && #[trigger] find(buf, ms[k2].0) is Some implies find(
                                buf,
                                ms[k2].0,
                            )->0 >= e.0 by {
                                if k2 < last {
                                    assert(find(buf, p[k2].0) is Some);
                                }
                            }
                            assert forall|k2: int|
                                0 <= k2 < k && #[trigger] find(buf, ms[k2].0) is Some implies find(
                                buf,
                                ms[k2].0,
                            )->0 > e.0 by {
                                assert(find(buf, p[k2].0) is Some);
                            }
                        }
                        assert(ms[k].0 == e.1 && ms[k].1 == e.2);
                    }
                },
                None => {
                    assert(earliest_at(buf, ms, idx, last)) by {
                        assert forall|k2: int|
                            0 <= k2 < ms.len() && #[trigger] find(buf, ms[k2].0) is Some implies find(
                            buf,
                            ms[k2].0,
                        )->0 >= idx by {
                            if k2 < last {
                                assert(find(buf, p[k2].0) is None);
                            }
                        }
                        assert forall|k2: int|
                            0 <= k2 < last && #[trigger] find(buf, ms[k2].0) is Some implies find(
                            buf,
                            ms[k2].0,
                        )->0 > idx by {
                            assert(find(buf, p[k2].0) is None);
                        }
                    }
                },
            },
            None => match earliest_marker(buf, p) {
                Some(e) => {
                    let k = choose|k: int|
                        earliest_at(buf, p, e.0, k) && #[trigger] p[k].0 == e.1 && p[k].1 == e.2;
                    assert(earliest_at(buf, ms, e.0, k)) by {
                        assert forall|k2: int|
                            0 <= k2 < ms.len() && #[trigger] find(buf, ms[k2].0) is Some implies find(
                            buf,
                            ms[k2].0,
                        )->0 >= e.0 by {
                            if k2 < last {
                                assert(find(buf, p[k2].0) is Some);
                            }
                        }
                        assert forall|k2: int|
                            0 <= k2 < k && #[trigger] find(buf, ms[k2].0) is Some implies find(
                            buf,
                            ms[k2].0,
                        )->0 > e.0 by {
                            assert(find(buf, p[k2].0) is Some);
                        }
                    }
                    assert(ms[k].0 == e.1 && ms[k].1 == e.2);
                },
                None => {
                    assert forall|k: int| 0 <= k < ms.len() implies find(
                        buf,
                        #[trigger] ms[k].0,
                    ) is None by {
                        if k < last {
                            assert(p[k] == ms[k]);
                        }
                    }
                },
            },
        }
    }
}

proof fn lemma_earliest_unique(buf: Seq<char>, ms: Seq<(Seq<char>, FilterState)>, i: int, k: int)
    requires
        earliest_at(buf, ms, i, k),
    ensures
        earliest_marker(buf, ms) == Some((i, ms[k].0, ms[k].1)),
{
    lemma_earliest_char(buf, ms);
    match earliest_marker(buf, ms) {
        Some(e) => {
            let k2 = choose|k2: int|
                earliest_at(buf, ms, e.0, k2) && #[trigger] ms[k2].0 == e.1 && ms[k2].1 == e.2;
            assert(find(buf, ms[k].0) is Some);
            assert(find(buf, ms[k2].0) is Some);
            assert(e.0 <= i);
            assert(i <= e.0);
            if k2 < k {
                assert(find(buf, ms[k2].0)->0 > i);
            }
            if k < k2 {
                assert(find(buf, ms[k].0)->0 > e.0);
            }
        },
        None => {
            assert(find(buf, ms[k].0) is None);
        },
    }
}

/// The earliest marker of `a` is the earliest of `a + b`.
proof fn lemma_earliest_extend(a: Seq<char>, b: Seq<char>, ms: Seq<(Seq<char>, FilterState)>)
    requires
        markers_ok(ms),
        earliest_marker(a, ms) is Some,
    ensures
        earliest_marker(a + b, ms) == earliest_marker(a, ms),
{
    let s = a + b;
    lemma_earliest_char(a, ms);
    let e = earliest_marker(a, ms)->0;
    let k = choose|k: int| earliest_at(a, ms, e.0, k) && #[trigger] ms[k].0 == e.1 && ms[k].1 == e.2;
    let i = e.0;
    let mk = ms[k].0;
    lemma_find_extend(a, b, mk);
    lemma_find_from(a, mk, 0);
    assert(a.subrange(i, i + mk.len())[0] == mk[0]);
    assert forall|k2: int|
        0 <= k2 < ms.len() && #[trigger] find(s, ms[k2].0) is Some implies find(s, ms[k2].0)->0
        >= i && (k2 < k ==> find(s, ms[k2].0)->0 > i) by {
        let m2 = ms[k2].0;
        if find(a, m2) is Some {
            lemma_find_extend(a, b, m2);
            assert(find(a, ms[k2].0) is Some);
        } else {
            lemma_find_from(a, m2, 0);
            lemma_find_from(s, m2, 0);
            let j = find(s, m2)->0;
            assert(lt_led(m2));
            if j + m2.len() <= a.len() {
                assert(s.subrange(j, j + m2.len()) =~= a.subrange(j, j + m2.len()));
                assert(occurs_at(a, m2, j));
            }
            if j < i {
                assert(s.subrange(j, j + m2.len())[i - j] == s[i]);
                assert(s[i] == a[i]);
            }
            if j == i {
                assert(apart(mk, m2));
                let t = choose|t: int| 0 <= t < mk.len() && t < m2.len() && mk[t] != m2[t];
                assert(s.subrange(i, i + m2.len())[t] == s[i + t]);
                assert(a.subrange(i, i + mk.len())[t] == a[i + t]);
                assert(s[i + t] == a[i + t]);
            }
        }
    }
    assert(earliest_at(s, ms, i, k));
    lemma_earliest_unique(s, ms, i, k);
}

/// When every marker's first occurrence in `x` is its first in `y` moved by
/// `d`, so is the earliest marker.
proof fn lemma_earliest_shift(x: Seq<char>, y: Seq<char>, ms: Seq<(Seq<char>, FilterState)>, d: int)
    requires
        forall|k: int|
            0 <= k < ms.len() ==> find(x, #[trigger] ms[k].0) == match find(y, ms[k].0) {
                Some(i) => Some(i + d),
                None => None::<int>,
            },
    ensures
        earliest_marker(x, ms) == match earliest_marker(y, ms) {
            Some(e) => Some((e.0 + d, e.1, e.2)),
            None => None::<(int, Seq<char>, FilterState)>,
        },
    decreases ms.len(),
{
    if ms.len() > 0 {
        let p = ms.drop_last();
        assert forall|k: int| 0 <= k < p.len() implies find(x, #[trigger] p[k].0) == match find(
            y,
            p[k].0,
        ) {
            Some(i) => Some(i + d),
            None => None::<int>,
        } by {
            assert(p[k] == ms[k]);
        }
        lemma_earliest_shift(x, y, p, d);
        assert(ms[ms.len() - 1] == ms.last());
    }
}

// ---------------------------------------------------------------------------
// The markers
// ---------------------------------------------------------------------------

proof fn lemma_think_open_led()
    ensures
        lt_led(THINK_OPEN@),
{
    reveal_strlit("<think>");
    let m = THINK_OPEN@;
    assert(m.len() == 7);
    assert forall|j: int| 1 <= j < m.len() implies m[j] != '<' by {
        assert(j == 1 || j == 2 || j == 3 || j == 4 || j == 5 || j == 6);
    }
}

proof fn lemma_tool_open_led()
    ensures
        lt_led(TOOL_OPEN@),
{
    reveal_strlit("<tool_call>");
    let m = TOOL_OPEN@;
    assert(m.len() == 11);
    assert forall|j: int| 1 <= j < m.len() implies m[j] != '<' by {
        assert(j == 1 || j == 2 || j == 3 || j == 4 || j == 5 || j == 6 || j == 7 || j == 8 || j == 9 || j == 10);
    }
}

proof fn lemma_gemma_tool_open_led()
    ensures
        lt_led(GEMMA_TOOL_OPEN@),
{
    reveal_strlit("<|tool_call>");
    let m = GEMMA_TOOL_OPEN@;
    assert(m.len() == 12);
    assert forall|j: int| 1 <= j < m.len() implies m[j] != '<' by {
        assert(j == 1 || j == 2 || j == 3 || j == 4 || j == 5 || j == 6 || j == 7 || j == 8 || j == 9 || j == 10 || j == 11);
    }
}

proof fn lemma_gemma_response_open_led()
    ensures
        lt_led(GEMMA_RESPONSE_OPEN@),
{
    reveal_strlit("<|tool_response>");
    let m = GEMMA_RESPONSE_OPEN@;
    assert(m.len() == 16);
    assert forall|j: int| 1 <= j < m.len() implies m[j] != '<' by {
        assert(j == 1 || j == 2 || j == 3 || j == 4 || j == 5 || j == 6 || j == 7 || j == 8 || j == 9 || j == 10 || j == 11 || j == 12 || j == 13 || j == 14 || j == 15);
    }
}

proof fn lemma_lfm2_tool_open_led()
    ensures
        lt_led(LFM2_TOOL_OPEN@),
{
    reveal_strlit("<|tool_call_start|>");
    let m = LFM2_TOOL_OPEN@;
    assert(m.len() == 19);
    assert forall|j: int| 1 <= j < m.len() implies m[j] != '<' by {
        assert(j == 1 || j == 2 || j == 3 || j == 4 || j == 5 || j == 6 || j == 7 || j == 8 || j == 9 || j == 10 || j == 11 || j == 12 || j == 13 || j == 14 || j == 15 || j == 16 || j == 17 || j == 18);
    }
}

proof fn lemma_think_close_led()
    ensures
        lt_led(THINK_CLOSE@),
{
    reveal_strlit("</think>");
    let m = THINK_CLOSE@;
    assert(m.len() == 8);
    assert forall|j: int| 1 <= j < m.len() implies m[j] != '<' by {
        assert(j == 1 || j == 2 || j == 3 || j == 4 || j == 5 || j == 6 || j == 7);
    }
}

/// The filter's opening markers are `<`-led and no two start at the same
/// place.
proof fn lemma_open_markers_ok()
    ensures
        markers_ok(open_markers()),
{
    reveal_strlit("<think>");
    reveal_strlit("<tool_call>");
    reveal_strlit("<|tool_call>");
    reveal_strlit("<|tool_response>");
    reveal_strlit("<|tool_call_start|>");
    lemma_think_open_led();
    lemma_tool_open_led();
    lemma_gemma_tool_open_led();
    lemma_gemma_response_open_led();
    lemma_lfm2_tool_open_led();
    let ms = open_markers();
    assert forall|k: int| 0 <= k < ms.len() implies lt_led(#[trigger] ms[k].0) by {
        assert(k == 0 || k == 1 || k == 2 || k == 3 || k == 4);
    }
    assert forall|k1: int, k2: int|
        0 <= k1 < ms.len() && 0 <= k2 < ms.len() && k1 != k2 implies apart(
        #[trigger] ms[k1].0,
        #[trigger] ms[k2].0,
    ) by {
        assert(k1 == 0 || k1 == 1 || k1 == 2 || k1 == 3 || k1 == 4);
        assert(k2 == 0 || k2 == 1 || k2 == 2 || k2 == 3 || k2 == 4);
        if k1 == 0 && k2 == 1 {
            assert(ms[k1].0[2] != ms[k2].0[2]);
        }
        if k1 == 0 && k2 == 2 {
            assert(ms[k1].0[1] != ms[k2].0[1]);
        }
        if k1 == 0 && k2 == 3 {
            assert(ms[k1].0[1] != ms[k2].0[1]);
        }
        if k1 == 0 && k2 == 4 {
            assert(ms[k1].0[1] != ms[k2].0[1]);
        }
        if k1 == 1 && k2 == 0 {
            assert(ms[k1].0[2] != ms[k2].0[2]);
        }
        if k1 == 1 && k2 == 2 {
            assert(ms[k1].0[1] != ms[k2].0[1]);
        }
        if k1 == 1 && k2 == 3 {
            assert(ms[k1].0[1] != ms[k2].0[1]);
        }
        if k1 == 1 && k2 == 4 {
            assert(ms[k1].0[1] != ms[k2].0[1]);
        }
        if k1 == 2 && k2 == 0 {
            assert(ms[k1].0[1] != ms[k2].0[1]);
        }
        if k1 == 2 && k2 == 1 {
            assert(ms[k1].0[1] != ms[k2].0[1]);
        }
        if k1 == 2 && k2 == 3 {
            assert(ms[k1].0[7] != ms[k2].0[7]);
        }
        if k1 == 2 && k2 == 4 {
            assert(ms[k1].0[11] != ms[k2].0[11]);
        }
        if k1 == 3 && k2 == 0 {
            assert(ms[k1].0[1] != ms[k2].0[1]);
        }
        if k1 == 3 && k2 == 1 {
            assert(ms[k1].0[1] != ms[k2].0[1]);
        }
        if k1 == 3 && k2 == 2 {
            assert(ms[k1].0[7] != ms[k2].0[7]);
        }
        if k1 == 3 && k2 == 4 {
            assert(ms[k1].0[7] != ms[k2].0[7]);
        }
        if k1 == 4 && k2 == 0 {
            assert(ms[k1].0[1] != ms[k2].0[1]);
        }
        if k1 == 4 && k2 == 1 {
            assert(ms[k1].0[1] != ms[k2].0[1]);
        }
        if k1 == 4 && k2 == 2 {
            assert(ms[k1].0[11] != ms[k2].0[11]);
        }
        if k1 == 4 && k2 == 3 {
            assert(ms[k1].0[7] != ms[k2].0[7]);
        }
    }
}

// ---------------------------------------------------------------------------
// Splitting the input
// ---------------------------------------------------------------------------

/// Draining `a` and then, from where that left the filter, its kept text
/// followed by `b`, gives what draining `a + b` at once gives: the same
/// characters with the same thinking flags, the same state and the same
/// kept text.
pub open spec fn split_agrees(state: FilterState, a: Seq<char>, b: Seq<char>, is_final: bool) -> bool {
    let d1 = drain_spec(state, a, false);
    let d2 = drain_spec(d1.1, d1.2 + b, is_final);
    let d = drain_spec(state, a + b, is_final);
    &&& tagged(d1.0 + d2.0) == tagged(d.0)
    &&& d2.1 == d.1
    &&& d2.2 == d.2
}

/// Two pieces of the same kind in a row release what their joined text does.
proof fn lemma_join(u: Seq<char>, v: Seq<char>, th: bool, r: Seq<(Seq<char>, bool)>)
    ensures
        tagged(piece(u, th) + (piece(v, th) + r)) == tagged(piece(u + v, th) + r),
{
    let x = piece(u, th);
    let y = piece(v, th);
    assert(x + (y + r) =~= (x + y) + r);
    lemma_tagged_append(x + y, r);
    lemma_tagged_piece(u, v, th);
    lemma_tagged_append(piece(u + v, th), r);
}

/// One piece in front of two runs of output that release the same
/// characters.
proof fn lemma_front(x: Seq<(Seq<char>, bool)>, r1: Seq<(Seq<char>, bool)>, r2: Seq<(Seq<char>, bool)>, r: Seq<(Seq<char>, bool)>)
    requires
        tagged(r1 + r2) == tagged(r),
    ensures
        tagged((x + r1) + r2) == tagged(x + r),
{
    assert((x + r1) + r2 =~= x + (r1 + r2));
    lemma_tagged_append(x, r1 + r2);
    lemma_tagged_append(x, r);
}

/// Plain text `u` in front of `t` changes nothing but a longer first piece,
/// when every search in `u + t` finds what it finds in `t`, moved by `u`.
proof fn lemma_plain_shift(u: Seq<char>, t: Seq<char>, is_final: bool)
    requires
        earliest_marker(u + t, open_markers()) == match earliest_marker(t, open_markers()) {
            Some(e) => Some((e.0 + u.len(), e.1, e.2)),
            None => None::<(int, Seq<char>, FilterState)>,
        },
        rfind_char(u + t, '<') == match rfind_char(t, '<') {
            Some(r) => Some(r + u.len()),
            None => None::<int>,
        },
    ensures
        ({
            let d2 = drain_spec(FilterState::Plain, t, is_final);
            let d = drain_spec(FilterState::Plain, u + t, is_final);
            &&& tagged(piece(u, false) + d2.0) == tagged(d.0)
            &&& d2.1 == d.1
            &&& d2.2 == d.2
        }),
{
    let ms = open_markers();
    let s = u + t;
    let n = u.len() as int;
    lemma_marker_lengths();
    lemma_earliest_marker(t, ms);
    lemma_rfind_char(t, '<');
    match earliest_marker(t, ms) {
        Some(e) => {
            let (i, open, next) = e;
            assert(open.len() > 0);
            let rest = drain_spec(next, t.skip(i + open.len()), is_final);
            assert(s.skip(i + n + open.len()) =~= t.skip(i + open.len()));
            assert(u + t.take(i) =~= s.take(i + n));
            lemma_join(u, t.take(i), false, rest.0);
        },
        None => match rfind_char(t, '<') {
            Some(r) => {
                assert(s.skip(r + n) =~= t.skip(r));
                assert(u + t.take(r) =~= s.take(r + n));
                let kept = t.skip(r);
                if is_final && kept.len() > 0 {
                    lemma_join(u, t.take(r), false, seq![(kept, false)]);
                } else {
                    lemma_join(u, t.take(r), false, Seq::empty());
                    assert(piece(t.take(r), false) + Seq::empty() =~= piece(t.take(r), false));
                    assert(piece(s.take(r + n), false) + Seq::empty() =~= piece(s.take(r + n), false));
                }
            },
            None => {
                lemma_join(u, t, false, Seq::empty());
                assert(piece(t, false) + Seq::empty() =~= piece(t, false));
                assert(piece(s, false) + Seq::empty() =~= piece(s, false));
            },
        },
    }
}

/// In plain text with no opening marker in `a`, the filter keeps `a` from
/// its last `<`, and what follows `b` is read from there.
proof fn lemma_plain_tail(a: Seq<char>, b: Seq<char>, is_final: bool)
    requires
        earliest_marker(a, open_markers()) is None,
    ensures
        split_agrees(FilterState::Plain, a, b, is_final),
{
    let ms = open_markers();
    let s = a + b;
    lemma_open_markers_ok();
    lemma_earliest_char(a, ms);
    lemma_rfind_char(a, '<');
    let lt = match rfind_char(a, '<') {
        Some(l) => l,
        None => a.len() as int,
    };
    assert(tail_start(a, lt));
    let t = a.skip(lt) + b;
    let u = a.take(lt);
    assert forall|k: int| 0 <= k < ms.len() implies find(s, #[trigger] ms[k].0) == match find(
        t,
        ms[k].0,
    ) {
        Some(i) => Some(i + lt),
        None => None::<int>,
    } by {
        lemma_find_after_tail(a, b, ms[k].0, lt);
    }
    lemma_earliest_shift(s, t, ms, lt);
    lemma_rfind_after_tail(a, b, lt);
    assert(u + t =~= s);
    lemma_plain_shift(u, t, is_final);
    let d1 = drain_spec(FilterState::Plain, a, false);
    assert(d1.0 == piece(u, false));
    assert(d1.2 + b =~= t);
}

/// Thinking text `u` in front of `t` changes nothing but a longer first
/// piece, when every search in `u + t` finds what it finds in `t`, moved by
/// `u`.
proof fn lemma_think_shift(u: Seq<char>, t: Seq<char>, is_final: bool)
    requires
        find(u + t, THINK_CLOSE@) == match find(t, THINK_CLOSE@) {
            Some(i) => Some(i + u.len()),
            None => None::<int>,
        },
        rfind_char(u + t, '<') == match rfind_char(t, '<') {
            Some(r) => Some(r + u.len()),
            None => None::<int>,
        },
    ensures
        ({
            let d2 = drain_spec(FilterState::InThink, t, is_final);
            let d = drain_spec(FilterState::InThink, u + t, is_final);
            &&& tagged(piece(u, true) + d2.0) == tagged(d.0)
            &&& d2.1 == d.1
            &&& d2.2 == d.2
        }),
{
    let s = u + t;
    let n = u.len() as int;
    let m = THINK_CLOSE@;
    lemma_marker_lengths();
    lemma_find_from(t, m, 0);
    lemma_rfind_char(t, '<');
    match find(t, m) {
        Some(i) => {
            let rest = drain_spec(FilterState::Plain, t.skip(i + m.len()), is_final);
            assert(s.skip(i + n + m.len()) =~= t.skip(i + m.len()));
            assert(u + t.take(i) =~= s.take(i + n));
            lemma_join(u, t.take(i), true, rest.0);
        },
        None => match rfind_char(t, '<') {
            Some(r) => {
                assert(s.skip(r + n) =~= t.skip(r));
                assert(u + t.take(r) =~= s.take(r + n));
                lemma_join(u, t.take(r), true, Seq::empty());
                assert(piece(t.take(r), true) + Seq::empty() =~= piece(t.take(r), true));
                assert(piece(s.take(r + n), true) + Seq::empty() =~= piece(s.take(r + n), true));
            },
            None => {
                lemma_join(u, t, true, Seq::empty());
                assert(piece(t, true) + Seq::empty() =~= piece(t, true));
                assert(piece(s, true) + Seq::empty() =~= piece(s, true));
            },
        },
    }
}

/// Inside `<think>` with no close in `a`, the filter keeps `a` from its last
/// `<`, and what follows `b` is read from there.
proof fn lemma_think_tail(a: Seq<char>, b: Seq<char>, is_final: bool)
    requires
        find(a, THINK_CLOSE@) is None,
    ensures
        split_agrees(FilterState::InThink, a, b, is_final),
{
    let s = a + b;
    lemma_think_close_led();
    lemma_rfind_char(a, '<');
    let lt = match rfind_char(a, '<') {
        Some(l) => l,
        None => a.len() as int,
    };
    assert(tail_start(a, lt));
    let t = a.skip(lt) + b;
    let u = a.take(lt);
    lemma_find_after_tail(a, b, THINK_CLOSE@, lt);
    lemma_rfind_after_tail(a, b, lt);
    assert(u + t =~= s);
    lemma_think_shift(u, t, is_final);
    let d1 = drain_spec(FilterState::InThink, a, false);
    assert(d1.0 == piece(u, true));
    assert(d1.2 + b =~= t);
}

/// Feeding the filter `a` and then `b` releases the same characters, each
/// with the same thinking flag, and leaves it in the same state with the
/// same kept text, as feeding it `a + b` in one piece: where the model's
/// output is cut, a marker included, does not change what is shown.
#[verifier::rlimit(40)]
pub proof fn law_filter_split(state: FilterState, a: Seq<char>, b: Seq<char>, is_final: bool)
    ensures
        split_agrees(state, a, b, is_final),
    decreases a.len(),
{
    let s = a + b;
    lemma_marker_lengths();
    match state {
        FilterState::Plain => {
            let ms = open_markers();
            if earliest_marker(a, ms) is Some {
                lemma_open_markers_ok();
                lemma_earliest_extend(a, b, ms);
                lemma_earliest_marker(a, ms);
                let (idx, open, next) = earliest_marker(a, ms)->0;
                assert(open.len() > 0);
                let a2 = a.skip(idx + open.len());
                law_filter_split(next, a2, b, is_final);
                assert(s.skip(idx + open.len()) =~= a2 + b);
                assert(s.take(idx) =~= a.take(idx));
                let r1 = drain_spec(next, a2, false);
                let d2 = drain_spec(r1.1, r1.2 + b, is_final);
                let r = drain_spec(next, a2 + b, is_final);
                lemma_front(piece(a.take(idx), false), r1.0, d2.0, r.0);
            } else {
                lemma_plain_tail(a, b, is_final);
            }
        },
        FilterState::InThink => {
            let m = THINK_CLOSE@;
            if find(a, m) is Some {
                lemma_find_extend(a, b, m);
                lemma_find_from(a, m, 0);
                let end = find(a, m)->0;
                let a2 = a.skip(end + m.len());
                law_filter_split(FilterState::Plain, a2, b, is_final);
                assert(s.skip(end + m.len()) =~= a2 + b);
                assert(s.take(end) =~= a.take(end));
                let r1 = drain_spec(FilterState::Plain, a2, false);
                let d2 = drain_spec(r1.1, r1.2 + b, is_final);
                let r = drain_spec(FilterState::Plain, a2 + b, is_final);
                lemma_front(piece(a.take(end), true), r1.0, d2.0, r.0);
            } else {
                lemma_think_tail(a, b, is_final);
            }
        },
        FilterState::Suppressed { close } => {
            let m = close@;
            if find(a, m) is Some {
                lemma_find_extend(a, b, m);
                lemma_find_from(a, m, 0);
                if m.len() > 0 {
                    let end = find(a, m)->0;
                    let a2 = a.skip(end + m.len());
                    law_filter_split(FilterState::Plain, a2, b, is_final);
                    assert(s.skip(end + m.len()) =~= a2 + b);
                } else {
                    let d2 = drain_spec(state, s, is_final);
                    assert(Seq::<(Seq<char>, bool)>::empty() + d2.0 =~= d2.0);
                }
            } else {
                let d2 = drain_spec(state, s, is_final);
                assert(Seq::<(Seq<char>, bool)>::empty() + d2.0 =~= d2.0);
            }
        },
    }
}

// ---------------------------------------------------------------------------
// The plain-generation filter
// ---------------------------------------------------------------------------

/// Draining `a` and then the kept text followed by `b` releases the text
/// that draining `a + b` at once releases, and ends in the same place.
pub open spec fn think_split_agrees(inside: bool, a: Seq<char>, b: Seq<char>) -> bool {
    let d1 = think_drain(inside, a);
    let d2 = think_drain(d1.1, d1.2 + b);
    let d = think_drain(inside, a + b);
    &&& (d1.0 + d2.0).flatten() == d.0.flatten()
    &&& d2.1 == d.1
    &&& d2.2 == d.2
}

proof fn lemma_text_piece_flat(t: Seq<char>)
    ensures
        text_piece(t).flatten() == t,
{
    if t.len() > 0 {
        text_piece(t).lemma_flatten_one_element();
    }
}

/// Two released pieces in a row release their joined text.
proof fn lemma_text_join(u: Seq<char>, v: Seq<char>, r: Seq<Seq<char>>)
    ensures
        (text_piece(u) + (text_piece(v) + r)).flatten() == (text_piece(u + v) + r).flatten(),
{
    lemma_flatten_concat(text_piece(u), text_piece(v) + r);
    lemma_flatten_concat(text_piece(v), r);
    lemma_flatten_concat(text_piece(u + v), r);
    lemma_text_piece_flat(u);
    lemma_text_piece_flat(v);
    lemma_text_piece_flat(u + v);
    assert((u + v) + r.flatten() =~= u + (v + r.flatten()));
}

/// Inside a `<think>` block, text `u` in front of `t` changes nothing when
/// every search in `u + t` finds what it finds in `t`, moved by `u`.
proof fn lemma_think_inside_shift(u: Seq<char>, t: Seq<char>)
    requires
        find(u + t, THINK_CLOSE@) == match find(t, THINK_CLOSE@) {
            Some(i) => Some(i + u.len()),
            None => None::<int>,
        },
        rfind_char(u + t, '<') == match rfind_char(t, '<') {
            Some(r) => Some(r + u.len()),
            None => None::<int>,
        },
    ensures
        think_drain(true, t) == think_drain(true, u + t),
{
    let s = u + t;
    let n = u.len() as int;
    let m = THINK_CLOSE@;
    reveal_strlit("</think>");
    lemma_find_from(t, m, 0);
    lemma_rfind_char(t, '<');
    match find(t, m) {
        Some(i) => {
            assert(s.skip(i + n + m.len()) =~= t.skip(i + m.len()));
        },
        None => match rfind_char(t, '<') {
            Some(r) => {
                assert(s.skip(r + n) =~= t.skip(r));
            },
            None => {},
        },
    }
}

/// Answer text `u` in front of `t` changes nothing but a longer first
/// piece, when every search in `u + t` finds what it finds in `t`, moved by
/// `u`.
proof fn lemma_think_outside_shift(u: Seq<char>, t: Seq<char>)
    requires
        find(u + t, THINK_OPEN@) == match find(t, THINK_OPEN@) {
            Some(i) => Some(i + u.len()),
            None => None::<int>,
        },
        rfind_char(u + t, '<') == match rfind_char(t, '<') {
            Some(r) => Some(r + u.len()),
            None => None::<int>,
        },
    ensures
        ({
            let d2 = think_drain(false, t);
            let d = think_drain(false, u + t);
            &&& d2.1 == d.1
            &&& d2.2 == d.2
            &&& (text_piece(u) + d2.0).flatten() == d.0.flatten()
        }),
{
    let s = u + t;
    let n = u.len() as int;
    let m = THINK_OPEN@;
    reveal_strlit("<think>");
    lemma_find_from(t, m, 0);
    lemma_rfind_char(t, '<');
    match find(t, m) {
        Some(i) => {
            assert(s.skip(i + n + m.len()) =~= t.skip(i + m.len()));
            let rest = think_drain(true, t.skip(i + m.len()));
            assert(u + t.take(i) =~= s.take(i + n));
            lemma_text_join(u, t.take(i), rest.0);
        },
        None => match rfind_char(t, '<') {
            Some(r) => {
                assert(s.skip(r + n) =~= t.skip(r));
                assert(u + t.take(r) =~= s.take(r + n));
                lemma_text_join(u, t.take(r), Seq::empty());
                assert(text_piece(t.take(r)) + Seq::<Seq<char>>::empty() =~= text_piece(t.take(r)));
                assert(text_piece(s.take(r + n)) + Seq::<Seq<char>>::empty() =~= text_piece(
                    s.take(r + n),
                ));
            },
            None => {
                lemma_text_join(u, t, Seq::empty());
                assert(text_piece(t) + Seq::<Seq<char>>::empty() =~= text_piece(t));
                assert(text_piece(s) + Seq::<Seq<char>>::empty() =~= text_piece(s));
            },
        },
    }
}

/// Feeding the plain-generation filter `a` and then `b` releases the same
/// answer text, and leaves it in the same state with the same kept text, as
/// feeding it `a + b` in one piece.
pub proof fn law_think_filter_split(inside: bool, a: Seq<char>, b: Seq<char>)
    ensures
        think_split_agrees(inside, a, b),
    decreases a.len(),
{
    let s = a + b;
    let m = if inside { THINK_CLOSE@ } else { THINK_OPEN@ };
    reveal_strlit("</think>");
    reveal_strlit("<think>");
    if find(a, m) is Some {
        lemma_find_extend(a, b, m);
        lemma_find_from(a, m, 0);
        let i = find(a, m)->0;
        let a2 = a.skip(i + m.len());
        law_think_filter_split(!inside, a2, b);
        assert(s.skip(i + m.len()) =~= a2 + b);
        let r1 = think_drain(!inside, a2);
        let d2 = think_drain(r1.1, r1.2 + b);
        let r = think_drain(!inside, a2 + b);
        if !inside {
            assert(s.take(i) =~= a.take(i));
            let x = text_piece(a.take(i));
            assert((x + r1.0) + d2.0 =~= x + (r1.0 + d2.0));
            lemma_flatten_concat(x, r1.0 + d2.0);
            lemma_flatten_concat(x, r.0);
        }
    } else {
        if inside {
            lemma_think_close_led();
        } else {
            lemma_think_open_led();
        }
        lemma_rfind_char(a, '<');
        let lt = match rfind_char(a, '<') {
            Some(l) => l,
            None => a.len() as int,
        };
        assert(tail_start(a, lt));
        let t = a.skip(lt) + b;
        let u = a.take(lt);
        lemma_find_after_tail(a, b, m, lt);
        lemma_rfind_after_tail(a, b, lt);
        assert(u + t =~= s);
        let d1 = think_drain(inside, a);
        assert(d1.2 + b =~= t);
        let d2 = think_drain(d1.1, d1.2 + b);
        if inside {
            lemma_think_inside_shift(u, t);
            assert(d1.0 =~= Seq::<Seq<char>>::empty());
            assert(d1.0 + d2.0 =~= d2.0);
        } else {
            lemma_think_outside_shift(u, t);
            assert(d1.0 == text_piece(u));
        }
    }
}

// ---------------------------------------------------------------------------
// Any number of pieces
// ---------------------------------------------------------------------------

/// What the filter releases when, from `state` with `kept` held back, it is
/// fed each of `pieces` in turn (as [`StreamFilter::push`] does) and then
/// drained with `is_final` (as [`StreamFilter::flush`] does when it is set):
/// the content pieces, the state and the text it ends with.
pub open spec fn stream_run(
    state: FilterState,
    kept: Seq<char>,
    pieces: Seq<Seq<char>>,
    is_final: bool,
) -> (Seq<(Seq<char>, bool)>, FilterState, Seq<char>)
    decreases pieces.len(),
{
    if pieces.len() == 0 {
        drain_spec(state, kept, is_final)
    } else {
        let d = drain_spec(state, kept + pieces[0], false);
        let r = stream_run(d.1, d.2, pieces.drop_first(), is_final);
        (d.0 + r.0, r.1, r.2)
    }
}

/// Feeding the filter a list of pieces releases what feeding it their
/// concatenation in one piece releases, character for character with the
/// same thinking flags, and ends in the same state with the same kept text.
pub proof fn law_stream_run(state: FilterState, kept: Seq<char>, pieces: Seq<Seq<char>>, is_final: bool)
    ensures
        ({
            let r = stream_run(state, kept, pieces, is_final);
            let d = drain_spec(state, kept + pieces.flatten(), is_final);
            &&& tagged(r.0) == tagged(d.0)
            &&& r.1 == d.1
            &&& r.2 == d.2
        }),
    decreases pieces.len(),
{
    if pieces.len() == 0 {
        assert(kept + pieces.flatten() =~= kept);
    } else {
        let p = pieces[0];
        let rest = pieces.drop_first();
        let d1 = drain_spec(state, kept + p, false);
        law_stream_run(d1.1, d1.2, rest, is_final);
        law_filter_split(state, kept + p, rest.flatten(), is_final);
        let r = stream_run(d1.1, d1.2, rest, is_final);
        let d2 = drain_spec(d1.1, d1.2 + rest.flatten(), is_final);
        assert(pieces.flatten() == p + rest.flatten());
        assert(kept + p + rest.flatten() =~= kept + pieces.flatten());
        lemma_tagged_append(d1.0, r.0);
        lemma_tagged_append(d1.0, d2.0);
    }
}

/// However a model's output is cut into pieces, a fresh filter fed the
/// pieces and then flushed releases the same characters with the same
/// thinking flags: a marker split across pieces is recognised exactly as
/// when it arrives whole.
pub proof fn law_filter_any_cuts(ps: Seq<Seq<char>>, qs: Seq<Seq<char>>)
    requires
        ps.flatten() == qs.flatten(),
    ensures
        tagged(stream_run(FilterState::Plain, Seq::empty(), ps, true).0) == tagged(
            stream_run(FilterState::Plain, Seq::empty(), qs, true).0,
        ),
{
    law_stream_run(FilterState::Plain, Seq::empty(), ps, true);
    law_stream_run(FilterState::Plain, Seq::empty(), qs, true);
}

/// What the plain-generation filter releases when, from `inside` with
/// `kept` held back, it is fed each of `pieces` in turn (as
/// [`ThinkFilter::push`] does): the answer pieces, whether it ends inside a
/// `<think>` block, and the text it ends with.
pub open spec fn think_run(inside: bool, kept: Seq<char>, pieces: Seq<Seq<char>>) -> (
    Seq<Seq<char>>,
    bool,
    Seq<char>,
)
    decreases pieces.len(),
{
    if pieces.len() == 0 {
        (Seq::empty(), inside, kept)
    } else {
        let d = think_drain(inside, kept + pieces[0]);
        let r = think_run(d.1, d.2, pieces.drop_first());
        (d.0 + r.0, r.1, r.2)
    }
}

/// Everything a fresh plain-generation filter releases for `pieces`: what
/// each piece releases, then what [`ThinkFilter::finish`] hands back.
pub open spec fn think_total(pieces: Seq<Seq<char>>) -> Seq<char> {
    let r = think_run(false, Seq::empty(), pieces);
    r.0.flatten() + if !r.1 { r.2 } else { Seq::empty() }
}

proof fn lemma_think_run(inside: bool, kept: Seq<char>, pieces: Seq<Seq<char>>)
    requires
        pieces.len() > 0,
    ensures
        ({
            let r = think_run(inside, kept, pieces);
            let d = think_drain(inside, kept + pieces.flatten());
            &&& r.0.flatten() == d.0.flatten()
            &&& r.1 == d.1
            &&& r.2 == d.2
        }),
    decreases pieces.len(),
{
    let p = pieces[0];
    let rest = pieces.drop_first();
    let d1 = think_drain(inside, kept + p);
    let r = think_run(d1.1, d1.2, rest);
    assert(pieces.flatten() == p + rest.flatten());
    if rest.len() == 0 {
        assert(rest.flatten() =~= Seq::<char>::empty());
        assert(kept + pieces.flatten() =~= kept + p);
        assert(d1.0 + r.0 =~= d1.0);
    } else {
        lemma_think_run(d1.1, d1.2, rest);
        law_think_filter_split(inside, kept + p, rest.flatten());
        let d2 = think_drain(d1.1, d1.2 + rest.flatten());
        assert(kept + p + rest.flatten() =~= kept + pieces.flatten());
        lemma_flatten_concat(d1.0, r.0);
        lemma_flatten_concat(d1.0, d2.0);
    }
}

/// A fresh plain-generation filter fed `pieces` ends as it would fed their
/// concatenation in one piece.
proof fn lemma_think_total(pieces: Seq<Seq<char>>)
    ensures
        ({
            let r = think_run(false, Seq::empty(), pieces);
            let d = think_drain(false, pieces.flatten());
            &&& r.0.flatten() == d.0.flatten()
            &&& r.1 == d.1
            &&& r.2 == d.2
        }),
{
    if pieces.len() == 0 {
        let e = Seq::<char>::empty();
        assert(pieces.flatten() =~= e);
        reveal_strlit("<think>");
        assert(find(e, THINK_OPEN@) is None);
        assert(rfind_char(e, '<') is None);
        assert(text_piece(e) =~= Seq::<Seq<char>>::empty());
        assert(think_drain(false, e) == (Seq::<Seq<char>>::empty(), false, e));
    } else {
        lemma_think_run(false, Seq::empty(), pieces);
        assert(Seq::<char>::empty() + pieces.flatten() =~= pieces.flatten());
    }
}

/// However a model's output is cut into pieces, a fresh plain-generation
/// filter fed the pieces and then finished releases the same answer text.
pub proof fn law_think_any_cuts(ps: Seq<Seq<char>>, qs: Seq<Seq<char>>)
    requires
        ps.flatten() == qs.flatten(),
    ensures
        think_total(ps) == think_total(qs),
{
    lemma_think_total(ps);
    lemma_think_total(qs);
}

} // verus!
