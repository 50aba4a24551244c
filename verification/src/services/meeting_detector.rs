//! Meeting detection: matching window titles against per-app patterns, and
//! the state machine that turns the per-scan signal into meeting start and
//! end transitions. Listing windows, the timer, and the overlay windows are
//! handled at the application's edge.
use vstd::prelude::*;

use crate::models::meeting_detection::{
    confidence_rank, rank, DetectionPhase, MeetingAppProfile, MeetingAppProfileView,
    MeetingConfidence, MeetingDetectedEvent, MeetingPattern, MeetingPatternView,
};
use crate::text::{
    append_str, ascii_lower, ascii_lower_exec, chars_eq, contains, find_chars, lowercase,
    opt_view, owned, str_chars, to_lowercase,
};

verus! {

/// Interval between window scans, in milliseconds.
pub const SCAN_INTERVAL_MS: u64 = 2_000;
/// Time the meeting must stay undetected after entering `Ending` before it
/// is declared ended, in milliseconds.
pub const ENDING_TIMEOUT_MS: u64 = 4_000;
/// Consecutive missed scans before `Active` turns into `Ending`.
pub const REQUIRED_MISSES_BEFORE_ENDING: u32 = 2;

// ---------------------------------------------------------------------------
// Per-app profiles
// ---------------------------------------------------------------------------

/// A high-confidence pattern as plain values.
pub open spec fn high_pattern(keyword: Seq<char>, case_sensitive: bool, excludes: Seq<Seq<char>>) -> MeetingPatternView {
    MeetingPatternView {
        keyword,
        confidence: MeetingConfidence::High,
        case_sensitive,
        exclude_patterns: excludes,
    }
}

pub open spec fn zoom_patterns_view() -> Seq<MeetingPatternView> {
    seq![
        high_pattern("zoom meeting"@, false, seq![]),
        high_pattern("zoom webinar"@, false, seq![]),
    ]
}

pub open spec fn teams_patterns_view() -> Seq<MeetingPatternView> {
    seq![
        high_pattern("microsoft teams meeting"@, false, seq![]),
        high_pattern("teams meeting"@, false, seq![]),
        high_pattern("meeting in \""@, false, seq![]),
        high_pattern("call with"@, false, seq![]),
        high_pattern("| Microsoft Teams"@, true, seq!["chat"@, "activity"@]),
    ]
}

pub open spec fn meet_patterns_view() -> Seq<MeetingPatternView> {
    seq![
        high_pattern("meet - "@, false, seq!["google meet"@]),
        high_pattern("meet \u{2013} "@, false, seq!["google meet"@]),
        high_pattern("meet \u{2014} "@, false, seq!["google meet"@]),
    ]
}

pub open spec fn slack_patterns_view() -> Seq<MeetingPatternView> {
    seq![high_pattern("huddle"@, false, seq![]), high_pattern("slack call"@, false, seq![])]
}

pub open spec fn default_profiles_view() -> Seq<MeetingAppProfileView> {
    seq![
        MeetingAppProfileView {
            app_name: "Zoom"@,
            bundle_ids: seq!["us.zoom.xos"@],
            patterns: zoom_patterns_view(),
        },
        MeetingAppProfileView {
            app_name: "Microsoft Teams"@,
            bundle_ids: seq!["com.microsoft.teams2"@, "com.microsoft.teams"@],
            patterns: teams_patterns_view(),
        },
        MeetingAppProfileView {
            app_name: "Google Meet"@,
            bundle_ids: seq![],
            patterns: meet_patterns_view(),
        },
        MeetingAppProfileView {
            app_name: "Slack"@,
            bundle_ids: seq!["com.tinyspeck.slackmacgap"@],
            patterns: slack_patterns_view(),
        },
    ]
}

/// The views of a list of static strings.
pub open spec fn str_views(v: Seq<&'static str>) -> Seq<Seq<char>> {
    v.map_values(|s: &'static str| s@)
}

/// The views of a list of patterns.
pub open spec fn pattern_views(v: Seq<MeetingPattern>) -> Seq<MeetingPatternView> {
    v.map_values(|p: MeetingPattern| p@)
}

/// The views of a list of profiles.
pub open spec fn profile_views(v: Seq<MeetingAppProfile>) -> Seq<MeetingAppProfileView> {
    v.map_values(|p: MeetingAppProfile| p@)
}

fn high(keyword: &'static str, case_sensitive: bool, excludes: Vec<&'static str>) -> (r: MeetingPattern)
    ensures
        r@ == high_pattern(keyword@, case_sensitive, str_views(excludes@)),
{
    MeetingPattern {
        keyword,
        confidence: MeetingConfidence::High,
        case_sensitive,
        exclude_patterns: excludes,
    }
}

/// Zoom's meeting and webinar windows.
pub fn zoom_patterns() -> (r: Vec<MeetingPattern>)
    ensures
        pattern_views(r@) == zoom_patterns_view(),
{
    let e1: Vec<&'static str> = vec![];
    let e2: Vec<&'static str> = vec![];
    assert(str_views(e1@) =~= Seq::<Seq<char>>::empty());
    assert(str_views(e2@) =~= Seq::<Seq<char>>::empty());
    let r = vec![high("zoom meeting", false, e1), high("zoom webinar", false, e2)];
    assert(pattern_views(r@) =~= zoom_patterns_view());
    r
}

/// Teams meeting windows; the `| Microsoft Teams` suffix is also carried
/// by chat and activity windows, which are excluded.
pub fn teams_patterns() -> (r: Vec<MeetingPattern>)
    ensures
        pattern_views(r@) == teams_patterns_view(),
{
    let ex = vec!["chat", "activity"];
    assert(str_views(ex@) =~= seq!["chat"@, "activity"@]);
    let e1: Vec<&'static str> = vec![];
    let e2: Vec<&'static str> = vec![];
    let e3: Vec<&'static str> = vec![];
    let e4: Vec<&'static str> = vec![];
    assert(str_views(e1@) =~= Seq::<Seq<char>>::empty());
    assert(str_views(e2@) =~= Seq::<Seq<char>>::empty());
    assert(str_views(e3@) =~= Seq::<Seq<char>>::empty());
    assert(str_views(e4@) =~= Seq::<Seq<char>>::empty());
    let r = vec![
        high("microsoft teams meeting", false, e1),
        high("teams meeting", false, e2),
        high("meeting in \"", false, e3),
        high("call with", false, e4),
        high("| Microsoft Teams", true, ex),
    ];
    assert(pattern_views(r@) =~= teams_patterns_view());
    r
}

/// Meet's in-call tab title `Meet - <code>` (dash variants by locale); the
/// lobby pages titled "Google Meet" are excluded.
pub fn meet_patterns() -> (r: Vec<MeetingPattern>)
    ensures
        pattern_views(r@) == meet_patterns_view(),
{
    let e1 = vec!["google meet"];
    let e2 = vec!["google meet"];
    let e3 = vec!["google meet"];
    assert(str_views(e1@) =~= seq!["google meet"@]);
    assert(str_views(e2@) =~= seq!["google meet"@]);
    assert(str_views(e3@) =~= seq!["google meet"@]);
    let r = vec![
        high("meet - ", false, e1),
        high("meet \u{2013} ", false, e2),
        high("meet \u{2014} ", false, e3),
    ];
    assert(pattern_views(r@) =~= meet_patterns_view());
    r
}

/// Slack huddles and calls.
pub fn slack_patterns() -> (r: Vec<MeetingPattern>)
    ensures
        pattern_views(r@) == slack_patterns_view(),
{
    let e1: Vec<&'static str> = vec![];
    let e2: Vec<&'static str> = vec![];
    assert(str_views(e1@) =~= Seq::<Seq<char>>::empty());
    assert(str_views(e2@) =~= Seq::<Seq<char>>::empty());
    let r = vec![high("huddle", false, e1), high("slack call", false, e2)];
    assert(pattern_views(r@) =~= slack_patterns_view());
    r
}

/// The meeting apps recognised, in the order they are tried.
pub fn default_profiles() -> (r: Vec<MeetingAppProfile>)
    ensures
        profile_views(r@) == default_profiles_view(),
{
    let zoom_ids = vec!["us.zoom.xos"];
    let teams_ids = vec!["com.microsoft.teams2", "com.microsoft.teams"];
    let meet_ids: Vec<&'static str> = vec![];
    let slack_ids = vec!["com.tinyspeck.slackmacgap"];
    assert(str_views(zoom_ids@) =~= seq!["us.zoom.xos"@]);
    assert(str_views(teams_ids@) =~= seq!["com.microsoft.teams2"@, "com.microsoft.teams"@]);
    assert(str_views(meet_ids@) =~= Seq::<Seq<char>>::empty());
    assert(str_views(slack_ids@) =~= seq!["com.tinyspeck.slackmacgap"@]);
    let r = vec![
        MeetingAppProfile { app_name: "Zoom", bundle_ids: zoom_ids, patterns: zoom_patterns() },
        MeetingAppProfile {
            app_name: "Microsoft Teams",
            bundle_ids: teams_ids,
            patterns: teams_patterns(),
        },
        MeetingAppProfile { app_name: "Google Meet", bundle_ids: meet_ids, patterns: meet_patterns() },
        MeetingAppProfile { app_name: "Slack", bundle_ids: slack_ids, patterns: slack_patterns() },
    ];
    assert(profile_views(r@) =~= default_profiles_view());
    r
}

// ---------------------------------------------------------------------------
// Pattern matching
// ---------------------------------------------------------------------------

/// Whether `title` matches pattern `p`: it holds the keyword (compared
/// lowercased unless the pattern is case-sensitive) and none of the
/// pattern's exclusions (compared lowercased).
pub open spec fn pattern_matches(title: Seq<char>, p: MeetingPatternView) -> bool {
    let lower = lowercase(title);
    let hay = if p.case_sensitive {
        title
    } else {
        lower
    };
    let needle = if p.case_sensitive {
        p.keyword
    } else {
        lowercase(p.keyword)
    };
    &&& contains(hay, needle)
    &&& !exists|k: int|
        0 <= k < p.exclude_patterns.len() && contains(
            lower,
            lowercase(#[trigger] p.exclude_patterns[k]),
        )
}

/// The highest confidence among the patterns `ps` that `title` matches.
pub open spec fn best_match(title: Seq<char>, ps: Seq<MeetingPatternView>) -> Option<
    MeetingConfidence,
>
    decreases ps.len(),
{
    if ps.len() == 0 {
        None
    } else {
        let prev = best_match(title, ps.drop_last());
        let p = ps.last();
        if pattern_matches(title, p) {
            match prev {
                Some(b) => if confidence_rank(b) >= confidence_rank(p.confidence) {
                    prev
                } else {
                    Some(p.confidence)
                },
                None => Some(p.confidence),
            }
        } else {
            prev
        }
    }
}

proof fn lemma_best_high_stays(title: Seq<char>, ps: Seq<MeetingPatternView>, i: int)
    requires
        0 <= i <= ps.len(),
        best_match(title, ps.take(i)) == Some(MeetingConfidence::High),
    ensures
        best_match(title, ps) == Some(MeetingConfidence::High),
    decreases ps.len() - i,
{
    if i < ps.len() {
        assert(ps.take(i + 1).drop_last() == ps.take(i));
        lemma_best_high_stays(title, ps, i + 1);
    } else {
        assert(ps.take(i) == ps);
    }
}

fn excluded(lower: &[char], p: &MeetingPattern) -> (r: bool)
    ensures
        r == exists|k: int|
            0 <= k < p@.exclude_patterns.len() && contains(
                lower@,
                lowercase(#[trigger] p@.exclude_patterns[k]),
            ),
{
    let ghost ex = p@.exclude_patterns;
    for k in 0..p.exclude_patterns.len()
        invariant
            ex == p@.exclude_patterns,
            forall|j: int| 0 <= j < k ==> !contains(lower@, lowercase(#[trigger] ex[j])),
    {
        let e = to_lowercase(p.exclude_patterns[k]);
        let ec = str_chars(e.as_str());
        assert(ex[k as int] == p.exclude_patterns@[k as int]@);
        if find_chars(lower, ec.as_slice(), 0).is_some() {
            assert(contains(lower@, lowercase(ex[k as int])));
            return true;
        }
    }
    false
}

/// Whether `title` matches pattern `p`.
fn pattern_matches_exec(title: &str, lower: &[char], p: &MeetingPattern) -> (r: bool)
    requires
        lower@ == lowercase(title@),
    ensures
        r == pattern_matches(title@, p@),
{
    let hay = if p.case_sensitive {
        str_chars(title)
    } else {
        crate::text::skip_chars(lower, 0)
    };
    let needle = if p.case_sensitive {
        str_chars(p.keyword)
    } else {
        let k = to_lowercase(p.keyword);
        str_chars(k.as_str())
    };
    assert(lower@.skip(0) == lower@);
    assert(hay@ == (if p.case_sensitive {
        title@
    } else {
        lowercase(title@)
    }));
    assert(needle@ == (if p.case_sensitive {
        p@.keyword
    } else {
        lowercase(p@.keyword)
    }));
    if find_chars(hay.as_slice(), needle.as_slice(), 0).is_none() {
        return false;
    }
    !excluded(lower, p)
}

/// The highest-confidence match for `title` among `patterns`, or `None`.
pub fn find_best_match(title: &str, patterns: &[MeetingPattern]) -> (r: Option<MeetingConfidence>)
    ensures
        r == best_match(title@, pattern_views(patterns@)),
{
    let lower_s = to_lowercase(title);
    let lower = str_chars(lower_s.as_str());
    let ghost pv = pattern_views(patterns@);
    let mut best: Option<MeetingConfidence> = None;
    for i in 0..patterns.len()
        invariant
            pv == pattern_views(patterns@),
            lower@ == lowercase(title@),
            best == best_match(title@, pv.take(i as int)),
    {
        assert(pv.take(i + 1).drop_last() == pv.take(i as int));
        assert(pv.take(i + 1).last() == patterns@[i as int]@);
        let p = &patterns[i];
        if pattern_matches_exec(title, lower.as_slice(), p) {
            best = match best {
                Some(b) => if rank(b) >= rank(p.confidence) {
                    Some(b)
                } else {
                    Some(p.confidence)
                },
                None => Some(p.confidence),
            };
            if rank(p.confidence) == 2 && best == Some(MeetingConfidence::High) {
                proof {
                    lemma_best_high_stays(title@, pv, i + 1);
                }
                return best;
            }
        }
    }
    assert(pv.take(patterns.len() as int) == pv);
    best
}

// ---------------------------------------------------------------------------
// Window scanning
// ---------------------------------------------------------------------------

/// What the detector sees of an on-screen window.
pub struct WindowInfo {
    pub on_screen: bool,
    pub title: Option<String>,
    /// Bundle id of the owning application, when known.
    pub bundle_id: Option<String>,
}

pub struct WindowView {
    pub on_screen: bool,
    pub title: Option<Seq<char>>,
    pub bundle_id: Option<Seq<char>>,
}

impl View for WindowInfo {
    type V = WindowView;

    open spec fn view(&self) -> WindowView {
        WindowView {
            on_screen: self.on_screen,
            title: opt_view(self.title),
            bundle_id: opt_view(self.bundle_id),
        }
    }
}

/// Whether a window owned by `bundle` may belong to `profile`: the profile
/// lists no bundle ids, or one of them equals `bundle` ignoring ASCII case.
pub open spec fn bundle_allowed(profile: MeetingAppProfileView, bundle: Option<Seq<char>>) -> bool {
    profile.bundle_ids.len() == 0 || (bundle matches Some(b) && exists|k: int|
        0 <= k < profile.bundle_ids.len() && ascii_lower(#[trigger] profile.bundle_ids[k])
            == ascii_lower(b))
}

/// The first profile, from position `i`, whose apps may own the window and
/// whose patterns match `title`.
pub open spec fn first_profile(
    title: Seq<char>,
    bundle: Option<Seq<char>>,
    profiles: Seq<MeetingAppProfileView>,
    i: int,
) -> Option<Seq<char>>
    decreases profiles.len() - i,
{
    if i < 0 || i >= profiles.len() {
        None
    } else if bundle_allowed(profiles[i], bundle) && best_match(title, profiles[i].patterns) is Some {
        Some(profiles[i].app_name)
    } else {
        first_profile(title, bundle, profiles, i + 1)
    }
}

/// The meeting app a window shows: on screen, with a non-empty title that
/// some profile matches.
pub open spec fn window_meeting(w: WindowView, profiles: Seq<MeetingAppProfileView>) -> Option<
    Seq<char>,
> {
    if !w.on_screen {
        None
    } else {
        match w.title {
            Some(t) => if t.len() == 0 {
                None
            } else {
                first_profile(t, w.bundle_id, profiles, 0)
            },
            None => None,
        }
    }
}

/// The meeting app of the first window, from position `i`, that shows one.
pub open spec fn scan_meeting(
    windows: Seq<WindowView>,
    profiles: Seq<MeetingAppProfileView>,
    i: int,
) -> Option<Seq<char>>
    decreases windows.len() - i,
{
    if i < 0 || i >= windows.len() {
        None
    } else {
        match window_meeting(windows[i], profiles) {
            Some(a) => Some(a),
            None => scan_meeting(windows, profiles, i + 1),
        }
    }
}

fn bundle_allowed_exec(profile: &MeetingAppProfile, bundle: &Option<String>) -> (r: bool)
    ensures
        r == bundle_allowed(profile@, opt_view(*bundle)),
{
    if profile.bundle_ids.len() == 0 {
        return true;
    }
    match bundle {
        None => false,
        Some(b) => {
            assert(opt_view(*bundle) == Some(b@));
            let bc = str_chars(b.as_str());
            let bl = ascii_lower_exec(bc.as_slice());
            let ghost ids = profile@.bundle_ids;
            for k in 0..profile.bundle_ids.len()
                invariant
                    ids == profile@.bundle_ids,
                    bl@ == ascii_lower(b@),
                    opt_view(*bundle) == Some(b@),
                    forall|j: int| 0 <= j < k ==> ascii_lower(#[trigger] ids[j]) != ascii_lower(b@),
            {
                let ic = str_chars(profile.bundle_ids[k]);
                let il = ascii_lower_exec(ic.as_slice());
                assert(ids[k as int] == profile.bundle_ids@[k as int]@);
                if chars_eq(il.as_slice(), bl.as_slice()) {
                    assert(ascii_lower(ids[k as int]) == ascii_lower(b@));
                    assert(opt_view(*bundle) == Some(b@));
                    assert(0 <= k < profile@.bundle_ids.len() && ascii_lower(
                        profile@.bundle_ids[k as int],
                    ) == ascii_lower(b@));
                    return true;
                }
            }
            false
        },
    }
}

/// The meeting app shown by a window titled `title`.
fn first_profile_exec(
    title: &str,
    bundle: &Option<String>,
    profiles: &[MeetingAppProfile],
) -> (r: Option<&'static str>)
    ensures
        match r {
            Some(a) => first_profile(title@, opt_view(*bundle), profile_views(profiles@), 0)
                == Some(a@),
            None => first_profile(title@, opt_view(*bundle), profile_views(profiles@), 0) is None,
        },
{
    let ghost pv = profile_views(profiles@);
    for i in 0..profiles.len()
        invariant
            pv == profile_views(profiles@),
            first_profile(title@, opt_view(*bundle), pv, 0) == first_profile(
                title@,
                opt_view(*bundle),
                pv,
                i as int,
            ),
    {
        let p = &profiles[i];
        assert(pv[i as int] == p@);
        if bundle_allowed_exec(p, bundle) && find_best_match(title, p.patterns.as_slice()).is_some() {
            return Some(p.app_name);
        }
    }
    None
}

/// The meeting app shown on screen, from the windows listed by a scan: the
/// first on-screen window with a non-empty title that a profile matches.
pub fn match_windows(windows: &[WindowInfo], profiles: &[MeetingAppProfile]) -> (r: Option<String>)
    ensures
        opt_view(r) == scan_meeting(
            windows@.map_values(|w: WindowInfo| w@),
            profile_views(profiles@),
            0,
        ),
{
    let ghost wv = windows@.map_values(|w: WindowInfo| w@);
    for i in 0..windows.len()
        invariant
            wv == windows@.map_values(|w: WindowInfo| w@),
            scan_meeting(wv, profile_views(profiles@), 0) == scan_meeting(
                wv,
                profile_views(profiles@),
                i as int,
            ),
    {
        let w = &windows[i];
        assert(wv[i as int] == w@);
        if w.on_screen {
            match &w.title {
                Some(t) => {
                    if !t.as_str().is_empty() {
                        match first_profile_exec(t.as_str(), &w.bundle_id, profiles) {
                            Some(a) => {
                                return Some(owned(a));
                            },
                            None => {},
                        }
                    }
                },
                None => {},
            }
        }
    }
    None
}

/// One diagnostic line per on-screen window with a non-empty title:
/// `bundle: title` (the bundle empty when unknown).
pub open spec fn window_lines(windows: Seq<WindowView>) -> Seq<Seq<char>>
    decreases windows.len(),
{
    if windows.len() == 0 {
        Seq::empty()
    } else {
        let prev = window_lines(windows.drop_last());
        let w = windows.last();
        match w.title {
            Some(t) => if w.on_screen && t.len() > 0 {
                let bundle = match w.bundle_id {
                    Some(b) => b,
                    None => Seq::empty(),
                };
                prev.push(bundle + ": "@ + t)
            } else {
                prev
            },
            None => prev,
        }
    }
}

/// Describes the windows a scan lists, for diagnostics.
pub fn describe_windows(windows: &[WindowInfo]) -> (r: Vec<String>)
    ensures
        crate::text::views(r@) == window_lines(windows@.map_values(|w: WindowInfo| w@)),
{
    let ghost wv = windows@.map_values(|w: WindowInfo| w@);
    let mut out: Vec<String> = Vec::new();
    for i in 0..windows.len()
        invariant
            wv == windows@.map_values(|w: WindowInfo| w@),
            crate::text::views(out@) == window_lines(wv.take(i as int)),
    {
        assert(wv.take(i + 1).drop_last() == wv.take(i as int));
        assert(wv.take(i + 1).last() == windows@[i as int]@);
        let w = &windows[i];
        let ghost before = crate::text::views(out@);
        match &w.title {
            Some(t) => {
                if w.on_screen && !t.as_str().is_empty() {
                    let mut line = match &w.bundle_id {
                        Some(b) => owned(b.as_str()),
                        None => String::new(),
                    };
                    append_str(&mut line, ": ");
                    append_str(&mut line, t.as_str());
                    out.push(line);
                    assert(crate::text::views(out@) =~= before.push(
                        (match w@.bundle_id {
                            Some(b) => b,
                            None => Seq::empty(),
                        }) + ": "@ + t@,
                    ));
                }
            },
            None => {},
        }
    }
    assert(wv.take(windows.len() as int) == wv);
    out
}

/// `s` with spaces, `&` and `=` percent-encoded.
pub open spec fn url_encoded(s: Seq<char>) -> Seq<char>
    decreases s.len(),
{
    if s.len() == 0 {
        Seq::empty()
    } else {
        let c = s.last();
        url_encoded(s.drop_last()) + if c == ' ' {
            "%20"@
        } else if c == '&' {
            "%26"@
        } else if c == '=' {
            "%3D"@
        } else {
            seq![c]
        }
    }
}

/// Percent-encodes spaces, `&` and `=` for an overlay URL parameter.
pub fn urlencoding(s: &str) -> (r: String)
    ensures
        r@ == url_encoded(s@),
{
    let cs = str_chars(s);
    let mut out = String::new();
    for i in 0..cs.len()
        invariant
            out@ == url_encoded(cs@.take(i as int)),
            cs@ == s@,
    {
        assert(cs@.take(i + 1).drop_last() == cs@.take(i as int));
        let c = cs[i];
        if c == ' ' {
            append_str(&mut out, "%20");
        } else if c == '&' {
            append_str(&mut out, "%26");
        } else if c == '=' {
            append_str(&mut out, "%3D");
        } else {
            crate::text::push_char(&mut out, c);
        }
    }
    assert(cs@.take(cs.len() as int) == cs@);
    out
}

/// The page of the "record this meeting?" overlay for `app_name`.
pub fn overlay_url(app_name: &str) -> (r: String)
    ensures
        r@ == "overlay.html?app="@ + url_encoded(app_name@),
{
    let mut u = owned("overlay.html?app=");
    let e = urlencoding(app_name);
    append_str(&mut u, e.as_str());
    u
}

/// The page of the auto-stop overlay, naming the app when known.
pub fn auto_stop_overlay_url(app_name: Option<&str>) -> (r: String)
    ensures
        r@ == "overlay.html?mode=autostop&app="@ + match app_name {
            Some(a) => url_encoded(a@),
            None => Seq::empty(),
        },
{
    let mut u = owned("overlay.html?mode=autostop&app=");
    match app_name {
        Some(a) => {
            let e = urlencoding(a);
            append_str(&mut u, e.as_str());
        },
        None => {
            assert(u@ + Seq::<char>::empty() =~= u@);
        },
    }
    u
}

// ---------------------------------------------------------------------------
// State machine
// ---------------------------------------------------------------------------

/// The detector's state across scans.
pub struct DetectorStateMachine {
    pub phase: DetectionPhase,
    /// When `Ending` began (milliseconds of a monotonic clock).
    pub ending_since: Option<u64>,
    pub detected_app: Option<String>,
    pub consecutive_misses: u32,
}

pub struct DetectorView {
    pub phase: DetectionPhase,
    pub ending_since: Option<u64>,
    pub detected_app: Option<Seq<char>>,
    pub consecutive_misses: u32,
}

impl View for DetectorStateMachine {
    type V = DetectorView;

    open spec fn view(&self) -> DetectorView {
        DetectorView {
            phase: self.phase,
            ending_since: self.ending_since,
            detected_app: opt_view(self.detected_app),
            consecutive_misses: self.consecutive_misses,
        }
    }
}

/// The characters of an optional string slice.
pub open spec fn opt_str(o: Option<&str>) -> Option<Seq<char>> {
    match o {
        Some(s) => Some(s@),
        None => None,
    }
}

/// The state after a scan at time `now` and the phase it enters, if any:
/// a signal in `Idle` starts a meeting (`Active`, reported); in `Active` a
/// signal clears the miss count and the second consecutive miss enters
/// `Ending`; in `Ending` a signal returns to `Active` and a miss at least
/// [`ENDING_TIMEOUT_MS`] after `Ending` began ends the meeting (`Idle`,
/// reported).
pub open spec fn tick_spec(s: DetectorView, signal: bool, app: Option<Seq<char>>, now: u64) -> (
    DetectorView,
    Option<DetectionPhase>,
) {
    match s.phase {
        DetectionPhase::Idle => if signal {
            (
                DetectorView {
                    phase: DetectionPhase::Active,
                    detected_app: app,
                    consecutive_misses: 0,
                    ..s
                },
                Some(DetectionPhase::Active),
            )
        } else {
            (s, None)
        },
        DetectionPhase::Active => if signal {
            (DetectorView { consecutive_misses: 0, ..s }, None)
        } else {
            let misses = (s.consecutive_misses + 1) as u32;
            if misses >= REQUIRED_MISSES_BEFORE_ENDING {
                (
                    DetectorView {
                        phase: DetectionPhase::Ending,
                        ending_since: Some(now),
                        consecutive_misses: misses,
                        ..s
                    },
                    None,
                )
            } else {
                (DetectorView { consecutive_misses: misses, ..s }, None)
            }
        },
        DetectionPhase::Ending => if signal {
            (
                DetectorView {
                    phase: DetectionPhase::Active,
                    ending_since: None,
                    consecutive_misses: 0,
                    ..s
                },
                None,
            )
        } else if s.ending_since matches Some(t) && now >= t && now - t >= ENDING_TIMEOUT_MS {
            (
                DetectorView {
                    phase: DetectionPhase::Idle,
                    ending_since: None,
                    consecutive_misses: 0,
                    ..s
                },
                Some(DetectionPhase::Idle),
            )
        } else {
            (s, None)
        },
    }
}

impl DetectorStateMachine {
    pub fn new() -> (r: DetectorStateMachine)
        ensures
            r@ == (DetectorView {
                phase: DetectionPhase::Idle,
                ending_since: None,
                detected_app: None,
                consecutive_misses: 0,
            }),
    {
        DetectorStateMachine {
            phase: DetectionPhase::Idle,
            ending_since: None,
            detected_app: None,
            consecutive_misses: 0,
        }
    }

    /// Advances the state machine by one scan: `signal_found` tells whether
    /// a meeting window was seen (`app_name` names its app) at time
    /// `now_ms`. Returns the phase entered when it is to be reported.
    pub fn tick(&mut self, signal_found: bool, app_name: Option<&str>, now_ms: u64) -> (r: Option<
        DetectionPhase,
    >)
        requires
            old(self).phase == DetectionPhase::Active && !signal_found
                ==> old(self).consecutive_misses < u32::MAX,
        ensures
            (final(self)@, r) == tick_spec(old(self)@, signal_found, opt_str(app_name), now_ms),
    {
        match self.phase {
            DetectionPhase::Idle => {
                if signal_found {
                    self.phase = DetectionPhase::Active;
                    self.detected_app = match app_name {
                        Some(a) => Some(owned(a)),
                        None => None,
                    };
                    self.consecutive_misses = 0;
                    Some(DetectionPhase::Active)
                } else {
                    None
                }
            },
            DetectionPhase::Active => {
                if signal_found {
                    self.consecutive_misses = 0;
                } else {
                    self.consecutive_misses = self.consecutive_misses + 1;
                    if self.consecutive_misses >= REQUIRED_MISSES_BEFORE_ENDING {
                        self.phase = DetectionPhase::Ending;
                        self.ending_since = Some(now_ms);
                    }
                }
                None
            },
            DetectionPhase::Ending => {
                if signal_found {
                    self.phase = DetectionPhase::Active;
                    self.ending_since = None;
                    self.consecutive_misses = 0;
                    None
                } else {
                    let timed_out = match self.ending_since {
                        Some(t) => now_ms >= t && now_ms - t >= ENDING_TIMEOUT_MS,
                        None => false,
                    };
                    if timed_out {
                        self.phase = DetectionPhase::Idle;
                        self.ending_since = None;
                        self.consecutive_misses = 0;
                        Some(DetectionPhase::Idle)
                    } else {
                        None
                    }
                }
            },
        }
    }
}

/// The states the detector can be in: `Active` with fewer than
/// [`REQUIRED_MISSES_BEFORE_ENDING`] misses, `Ending` since a known time,
/// `Idle` with no pending end and no misses.
pub open spec fn detector_ok(s: DetectorView) -> bool {
    match s.phase {
        DetectionPhase::Idle => s.ending_since is None && s.consecutive_misses == 0,
        DetectionPhase::Active => s.ending_since is None && s.consecutive_misses
            < REQUIRED_MISSES_BEFORE_ENDING,
        DetectionPhase::Ending => s.ending_since is Some,
    }
}

/// Every scan keeps the detector in a reachable state; a meeting is only
/// reported ended after `Ending` lasted [`ENDING_TIMEOUT_MS`] without a
/// signal, and only reported started on a signal.
pub proof fn law_tick_keeps_state_ok(s: DetectorView, signal: bool, app: Option<Seq<char>>, now: u64)
    requires
        detector_ok(s),
    ensures
        detector_ok(tick_spec(s, signal, app, now).0),
        tick_spec(s, signal, app, now).1 == Some(DetectionPhase::Idle) ==> !signal
            && s.phase == DetectionPhase::Ending && now - s.ending_since.unwrap()
            >= ENDING_TIMEOUT_MS,
        tick_spec(s, signal, app, now).1 == Some(DetectionPhase::Active) ==> signal && s.phase
            == DetectionPhase::Idle,
{
}

/// While a meeting is ending, a scan without a meeting window never moves
/// the start of the ending period: the detector either stays in `Ending`
/// exactly as it was, or the meeting ends. Once [`ENDING_TIMEOUT_MS`] have
/// passed since the ending began, such a scan reports the meeting ended and
/// returns the detector to `Idle`.
pub proof fn law_ending_times_out(s: DetectorView, app: Option<Seq<char>>, now: u64)
    requires
        s.phase == DetectionPhase::Ending,
    ensures
        tick_spec(s, false, app, now).0.phase == DetectionPhase::Ending ==> tick_spec(
            s,
            false,
            app,
            now,
        ).0 == s && tick_spec(s, false, app, now).1 is None,
        tick_spec(s, false, app, now).0.phase != DetectionPhase::Ending ==> tick_spec(
            s,
            false,
            app,
            now,
        ).1 == Some(DetectionPhase::Idle) && tick_spec(s, false, app, now).0.phase
            == DetectionPhase::Idle,
        (s.ending_since matches Some(t) && now >= t + ENDING_TIMEOUT_MS) ==> tick_spec(
            s,
            false,
            app,
            now,
        ).1 == Some(DetectionPhase::Idle) && tick_spec(s, false, app, now).0.phase
            == DetectionPhase::Idle,
{
}

/// What the application does after a scan.
pub struct DetectorActions {
    /// The event to send (`meeting-detected` or `meeting-ended`).
    pub event_name: &'static str,
    pub event: MeetingDetectedEvent,
    /// The app to record as the current meeting's (`None`: no meeting).
    pub current_app: Option<String>,
    /// Show the "record this meeting?" overlay for this app.
    pub show_overlay_for: Option<String>,
    pub hide_overlay: bool,
}

/// Runs one scan's outcome through the state machine. On a meeting start
/// the detected app becomes current, `meeting-detected` is sent, and the
/// overlay is shown unless a recording is running; on a meeting end the
/// current app is cleared, `meeting-ended` is sent (naming the app that
/// ended), the overlay is hidden, and the detected app is forgotten.
pub fn on_scan(
    sm: &mut DetectorStateMachine,
    signal_found: bool,
    app_name: Option<&str>,
    now_ms: u64,
    recording_active: bool,
) -> (r: Option<DetectorActions>)
    requires
        old(sm).phase == DetectionPhase::Active && !signal_found ==> old(sm).consecutive_misses
            < u32::MAX,
    ensures
        ({
            let (s1, phase) = tick_spec(old(sm)@, signal_found, opt_str(app_name), now_ms);
            match phase {
                None => r is None && final(sm)@ == s1,
                Some(DetectionPhase::Active) => r matches Some(a) && {
                    &&& final(sm)@ == s1
                    &&& a.event_name@ == "meeting-detected"@
                    &&& a.event.phase == DetectionPhase::Active
                    &&& opt_view(a.event.app_name) == s1.detected_app
                    &&& opt_view(a.current_app) == s1.detected_app
                    &&& opt_view(a.show_overlay_for) == (if recording_active {
                        None
                    } else {
                        s1.detected_app
                    })
                    &&& !a.hide_overlay
                },
                Some(DetectionPhase::Idle) => r matches Some(a) && {
                    &&& final(sm)@ == DetectorView { detected_app: None, ..s1 }
                    &&& a.event_name@ == "meeting-ended"@
                    &&& a.event.phase == DetectionPhase::Idle
                    &&& opt_view(a.event.app_name) == s1.detected_app
                    &&& a.current_app is None
                    &&& a.show_overlay_for is None
                    &&& a.hide_overlay
                },
                Some(DetectionPhase::Ending) => false,
            }
        }),
{
    let phase = sm.tick(signal_found, app_name, now_ms);
    match phase {
        None => None,
        Some(DetectionPhase::Active) => {
            let app = match &sm.detected_app {
                Some(a) => Some(owned(a.as_str())),
                None => None,
            };
            let current = match &sm.detected_app {
                Some(a) => Some(owned(a.as_str())),
                None => None,
            };
            let show = if recording_active {
                None
            } else {
                match &sm.detected_app {
                    Some(a) => Some(owned(a.as_str())),
                    None => None,
                }
            };
            Some(
                DetectorActions {
                    event_name: "meeting-detected",
                    event: MeetingDetectedEvent { phase: DetectionPhase::Active, app_name: app },
                    current_app: current,
                    show_overlay_for: show,
                    hide_overlay: false,
                },
            )
        },
        Some(DetectionPhase::Idle) => {
            let mut app = None;
            std::mem::swap(&mut app, &mut sm.detected_app);
            Some(
                DetectorActions {
                    event_name: "meeting-ended",
                    event: MeetingDetectedEvent { phase: DetectionPhase::Idle, app_name: app },
                    current_app: None,
                    show_overlay_for: None,
                    hide_overlay: true,
                },
            )
        },
        Some(DetectionPhase::Ending) => None,
    }
}

} // verus!
