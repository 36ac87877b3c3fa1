//! Is a meeting running?
//!
//! The accessibility trees of all visible Teams windows are polled for the
//! button that leaves a call. A meeting starts when one is seen, and is over
//! when none is seen in two polls in a row: while Teams redraws the bar that the
//! button stands on, a single poll can miss it.

use vstd::prelude::*;

use crate::report::{
    dump_tree, element_line, element_lines, handle_text, lemma_hit_has_its_line, lemma_line_stays,
    push_element_lines, push_handle, push_line, push_quoted_option, quoted_option, tree_lines,
    LineKind,
};
use crate::text::{
    contains, copy_option_text, decimal, lowercase, option_text, push_decimal, same_text,
    text_contains, texts, to_lower,
};
use crate::uia::{
    all_found, all_lowercase, document, find_all, find_where, found, go_on,
    law_search_is_complete, name_contains, named_like, slices, visited, walk, ElementTest,
    NameTest, UiElement, BUTTON, SPLIT_BUTTON,
};

pub mod presenter;

verus! {

/// A window handle.
#[derive(Debug, Clone, Copy, PartialEq, Eq, Structural)]
pub struct HwndHandle(pub isize);

/// What the detector reports.
#[derive(Debug)]
pub enum MeetingEvent {
    Started { teams_hwnd: HwndHandle, teams_pid: u32, title: Option<String> },
    Stopped,
}

/// A top-level window of Teams.
#[derive(Debug)]
pub struct TeamsWindow {
    pub hwnd: isize,
    pub pid: u32,
    pub title: Option<String>,
}

impl TeamsWindow {
    /// A copy of the window's description.
    pub fn copy(&self) -> (r: Self)
        ensures
            r == *self,
    {
        TeamsWindow { hwnd: self.hwnd, pid: self.pid, title: copy_option_text(&self.title) }
    }
}

/// A window and its accessibility tree, or why the tree could not be had.
pub struct WindowTree {
    pub window: TeamsWindow,
    pub tree: Result<UiElement, String>,
}

// ---------------------------------------------------------------------------
// Which windows are looked at
// ---------------------------------------------------------------------------

/// A lowercase file name is that of a program file of Teams.
pub open spec fn teams_words(lower: Seq<char>) -> bool {
    contains(lower, "ms-teams"@) || contains(lower, "teams.exe"@)
}

/// A program file of Teams.
pub open spec fn teams_program(exe: Seq<char>) -> bool {
    teams_words(lowercase(exe))
}

/// Is a file with this name in lower case a program file of Teams?
pub fn has_teams_words(lower: &str) -> (r: bool)
    ensures
        r == teams_words(lower@),
{
    text_contains(lower, "ms-teams") || text_contains(lower, "teams.exe")
}

/// Is `exe` a program file of Teams?
pub fn is_teams_program(exe: &str) -> (r: bool)
    ensures
        r == teams_program(exe@),
{
    let lower = to_lower(exe);
    has_teams_words(lower.as_str())
}

/// Is a window one of Teams? It counts if it is visible and belongs to a
/// process that runs Teams; `exe` is the program file. Where that is not known
/// the window does not count.
pub fn counts_as_teams_window(visible: bool, pid: u32, exe: &Option<String>) -> (r: bool)
    ensures
        r == (visible && pid != 0 && match *exe {
            Some(name) => teams_program(name@),
            None => false,
        }),
{
    if !visible || pid == 0 {
        return false;
    }
    match exe {
        Some(name) => is_teams_program(name.as_str()),
        None => false,
    }
}

/// A title, given as it is and in lower case, is that of a window that Teams
/// opens for a while beside the meeting.
pub open spec fn popup_words(raw: Seq<char>, lower: Seq<char>) -> bool {
    ||| contains(raw, "간단히 보기"@)
    ||| contains(raw, "컨트롤 막대"@)
    ||| contains(lower, "compact view"@)
    ||| contains(lower, "mini view"@)
    ||| contains(lower, "control bar"@)
    ||| contains(lower, "sharing toolbar"@)
}

/// A window that Teams opens for a while beside the meeting: the small view of
/// the meeting, or the bar that controls a shared screen.
pub open spec fn popup_title(title: Option<Seq<char>>) -> bool {
    match title {
        None => false,
        Some(t) => popup_words(t, lowercase(t)),
    }
}

/// Does a window with this title, given as it is and in lower case, only stand
/// beside the meeting?
pub fn has_popup_words(raw: &str, lower: &str) -> (r: bool)
    ensures
        r == popup_words(raw@, lower@),
{
    text_contains(raw, "간단히 보기") || text_contains(raw, "컨트롤 막대") || text_contains(
        lower,
        "compact view",
    ) || text_contains(lower, "mini view") || text_contains(lower, "control bar")
        || text_contains(lower, "sharing toolbar")
}

/// Does a window that has this title only stand beside the meeting?
pub fn is_popup_title(title: &Option<String>) -> (r: bool)
    ensures
        r == popup_title(option_text(*title)),
{
    match title {
        None => false,
        Some(t) => {
            let lower = to_lower(t.as_str());
            has_popup_words(t.as_str(), lower.as_str())
        },
    }
}

// ---------------------------------------------------------------------------
// The mark of a meeting
// ---------------------------------------------------------------------------

/// What the button that leaves a call goes by.
pub open spec fn leave_names() -> Seq<Seq<char>> {
    seq![
        "leave"@,
        "hang up"@,
        "hang-up"@,
        "end call"@,
        "나가기"@,
        "끊기"@,
        "통화 종료"@,
    ]
}

/// An element of this kind, with this id in lower case, can be the button that
/// leaves a call.
pub open spec fn leave_kind(control_type: i32, lower_id: Seq<char>) -> bool {
    control_type == BUTTON || control_type == SPLIT_BUTTON || lower_id == "hangup-button"@
}

/// The button that leaves a call: by its name, and by its kind or its id.
pub open spec fn leaves_call(e: UiElement) -> bool {
    &&& name_contains(e, leave_names())
    &&& leave_kind(e.control_type, lowercase(e.automation_id@))
}

/// Can an element of this kind, with this id in lower case, be the button that
/// leaves a call?
pub fn is_leave_kind(control_type: i32, lower_id: &str) -> (r: bool)
    ensures
        r == leave_kind(control_type, lower_id@),
{
    control_type == BUTTON || control_type == SPLIT_BUTTON || same_text(lower_id, "hangup-button")
}

/// The property of being the button that leaves a call.
pub open spec fn leave_button() -> spec_fn(UiElement) -> bool {
    |e: UiElement| leaves_call(e)
}

/// How deep in a window the button may stand.
pub const MARKER_DEPTH: u32 = 20;

/// A window in which a meeting runs.
pub open spec fn in_meeting(root: UiElement) -> bool {
    found(leave_button(), root, MARKER_DEPTH as int) is Some
}

fn named_leave(e: &UiElement) -> (r: bool)
    ensures
        r == name_contains(*e, leave_names()),
{
    let names: [&str; 7] = [
        "leave",
        "hang up",
        "hang-up",
        "end call",
        "나가기",
        "끊기",
        "통화 종료",
    ];
    assert(slices(names@) =~= leave_names());
    let test = NameTest { needles: &names };
    test.test(e)
}

struct LeaveTest;

impl ElementTest for LeaveTest {
    closed spec fn wanted(&self) -> spec_fn(UiElement) -> bool {
        leave_button()
    }

    fn test(&self, e: &UiElement) -> (r: bool) {
        if !named_leave(e) {
            return false;
        }
        let id = to_lower(e.automation_id.as_str());
        is_leave_kind(e.control_type, id.as_str())
    }
}

struct LeaveNameTest;

impl ElementTest for LeaveNameTest {
    closed spec fn wanted(&self) -> spec_fn(UiElement) -> bool {
        named_like(leave_names())
    }

    fn test(&self, e: &UiElement) -> (r: bool) {
        named_leave(e)
    }
}

/// Does a meeting run in the window?
pub fn window_has_meeting_marker(root: &UiElement) -> (r: bool)
    ensures
        r == in_meeting(*root),
{
    find_where(root, MARKER_DEPTH, &LeaveTest).is_some()
}

/// All elements that are named like the button that leaves a call, each with
/// its depth: what a user is shown who asks why a meeting is not seen.
pub fn marker_candidates<'a>(root: &'a UiElement, max_depth: u32) -> (r: Vec<(&'a UiElement, u32)>)
    ensures
        visited(r@) == all_found(named_like(leave_names()), *root, max_depth as int),
{
    find_all(root, max_depth, &LeaveNameTest)
}

// ---------------------------------------------------------------------------
// The window of a meeting
// ---------------------------------------------------------------------------

/// A window whose tree shows a meeting.
pub open spec fn candidate(w: WindowTree) -> bool {
    w.tree is Ok && in_meeting(w.tree->Ok_0)
}

/// The window that a meeting is tied to: the first one with a meeting that
/// does not only stand beside it, or else the first one with a meeting. A
/// window that only stands beside the meeting may close at any time.
pub open spec fn meeting_window(s: Seq<WindowTree>) -> Option<TeamsWindow> {
    match first_main(s) {
        Some(w) => Some(w),
        None => first_candidate(s),
    }
}

/// The first window with a meeting that does not only stand beside it.
pub open spec fn first_main(s: Seq<WindowTree>) -> Option<TeamsWindow>
    decreases s.len(),
{
    if s.len() == 0 {
        None
    } else if candidate(s.first()) && !popup_title(option_text(s.first().window.title)) {
        Some(s.first().window)
    } else {
        first_main(s.drop_first())
    }
}

/// The first window with a meeting.
pub open spec fn first_candidate(s: Seq<WindowTree>) -> Option<TeamsWindow>
    decreases s.len(),
{
    if s.len() == 0 {
        None
    } else if candidate(s.first()) {
        Some(s.first().window)
    } else {
        first_candidate(s.drop_first())
    }
}

/// The window that a meeting is tied to, if a meeting runs.
pub fn find_meeting(windows: &Vec<WindowTree>) -> (r: Option<TeamsWindow>)
    ensures
        r == meeting_window(windows@),
{
    let mut fallback: Option<TeamsWindow> = None;
    let mut i: usize = 0;
    assert(windows@.skip(0) =~= windows@);
    while i < windows.len()
        invariant
            i <= windows@.len(),
            first_main(windows@) == first_main(windows@.skip(i as int)),
            first_candidate(windows@) == match fallback {
                Some(w) => Some(w),
                None => first_candidate(windows@.skip(i as int)),
            },
        decreases windows@.len() - i,
    {
        let w = &windows[i];
        assert(windows@.skip(i as int).drop_first() =~= windows@.skip(i + 1));
        let marked = match &w.tree {
            Ok(tree) => window_has_meeting_marker(tree),
            Err(_) => false,
        };
        if marked {
            if !is_popup_title(&w.window.title) {
                return Some(w.window.copy());
            }
            if fallback.is_none() {
                fallback = Some(w.window.copy());
            }
        }
        i += 1;
    }
    fallback
}

// ---------------------------------------------------------------------------
// The detector
// ---------------------------------------------------------------------------

/// After how many polls in a row without a meeting the meeting is over.
pub const MISSES_BEFORE_STOP: u32 = 2;

/// The shortest time between two polls, in milliseconds.
pub const MIN_POLL_MS: u64 = 500;

/// The time between two polls that a configured interval gives.
pub fn poll_interval(configured_ms: u64) -> (r: u64)
    ensures
        r == if configured_ms < 500 {
            500
        } else {
            configured_ms
        },
{
    if configured_ms < MIN_POLL_MS {
        MIN_POLL_MS
    } else {
        configured_ms
    }
}

/// What the detector knows from one poll to the next.
pub struct MeetingDetector {
    /// The window of the meeting that runs.
    pub meeting: Option<TeamsWindow>,
    /// Polls in a row that showed no meeting.
    pub misses: u32,
}

/// Where a detector stands: no meeting, or a meeting and the polls in a row
/// that did not show it.
pub enum Phase {
    Idle,
    Running(nat),
}

/// What a detector reports, without the window.
pub enum Report {
    Started,
    Stopped,
}

/// One poll: where the detector stands afterwards, and what it reports.
pub open spec fn polled(phase: Phase, seen: bool) -> (Phase, Option<Report>) {
    match phase {
        Phase::Idle => if seen {
            (Phase::Running(0), Some(Report::Started))
        } else {
            (Phase::Idle, None)
        },
        Phase::Running(misses) => if seen {
            (Phase::Running(0), None)
        } else if misses + 1 >= MISSES_BEFORE_STOP {
            (Phase::Idle, Some(Report::Stopped))
        } else {
            (Phase::Running(misses + 1), None)
        },
    }
}

impl MeetingDetector {
    /// Where the detector stands.
    pub open spec fn phase(&self) -> Phase {
        match self.meeting {
            Some(_) => Phase::Running(self.misses as nat),
            None => Phase::Idle,
        }
    }

    /// Misses are counted while a meeting runs, up to the number that ends it.
    pub open spec fn wf(&self) -> bool {
        &&& self.misses < MISSES_BEFORE_STOP
        &&& self.meeting is None ==> self.misses == 0
    }

    /// A detector that knows of no meeting.
    pub fn new() -> (r: Self)
        ensures
            r.wf(),
            r.meeting is None,
            r.phase() == Phase::Idle,
    {
        MeetingDetector { meeting: None, misses: 0 }
    }

    /// One poll, which showed a meeting in the window `found_window`, or none.
    pub fn poll(&mut self, found_window: Option<TeamsWindow>) -> (r: Option<MeetingEvent>)
        requires
            old(self).wf(),
        ensures
            final(self).wf(),
            final(self).phase() == polled(old(self).phase(), found_window is Some).0,
            match polled(old(self).phase(), found_window is Some).1 {
                Some(Report::Started) => r == Some(
                    MeetingEvent::Started {
                        teams_hwnd: HwndHandle(found_window->0.hwnd),
                        teams_pid: found_window->0.pid,
                        title: found_window->0.title,
                    },
                ) && final(self).meeting == found_window,
                Some(Report::Stopped) => r == Some(MeetingEvent::Stopped),
                None => r is None && final(self).meeting == old(self).meeting,
            },
            old(self).meeting is None && found_window is Some ==> final(self).meeting
                == found_window && r is Some && r->0 is Started,
            old(self).meeting is None && found_window is None ==> final(self).meeting is None
                && r is None,
            old(self).meeting is Some && (found_window is Some || old(self).misses == 0)
                ==> final(self).meeting == old(self).meeting && r is None,
            old(self).meeting is Some && found_window is None && old(self).misses > 0
                ==> final(self).meeting is None && r is Some && r->0 is Stopped,
            final(self).misses == if final(self).meeting is Some && found_window is None {
                1u32
            } else {
                0u32
            },
    {
        match (&self.meeting, found_window) {
            (None, Some(w)) => {
                let event = MeetingEvent::Started {
                    teams_hwnd: HwndHandle(w.hwnd),
                    teams_pid: w.pid,
                    title: copy_option_text(&w.title),
                };
                self.meeting = Some(w);
                self.misses = 0;
                Some(event)
            },
            (Some(_), None) => {
                self.misses = self.misses + 1;
                if self.misses >= MISSES_BEFORE_STOP {
                    self.meeting = None;
                    self.misses = 0;
                    Some(MeetingEvent::Stopped)
                } else {
                    None
                }
            },
            _ => {
                self.misses = 0;
                None
            },
        }
    }
}

/// Where a new detector stands after a number of polls, and what it has
/// reported by then.
pub open spec fn run(polls: Seq<bool>) -> (Phase, Seq<Report>)
    decreases polls.len(),
{
    if polls.len() == 0 {
        (Phase::Idle, Seq::empty())
    } else {
        let (phase, reports) = run(polls.drop_last());
        let (next, report) = polled(phase, polls.last());
        match report {
            Some(r) => (next, reports.push(r)),
            None => (next, reports),
        }
    }
}

/// A meeting that is not seen in as many polls in a row as end it is over: its
/// end is reported with the last of them, and not before.
pub proof fn law_long_gap_ends_the_meeting(polls: Seq<bool>)
    requires
        run(polls).0 == Phase::Running(0),
    ensures
        run(polls + Seq::new(MISSES_BEFORE_STOP as nat, |i: int| false)).0 is Idle,
        run(polls + Seq::new(MISSES_BEFORE_STOP as nat, |i: int| false)).1 == run(polls).1.push(
            Report::Stopped,
        ),
{
    let short = polls + Seq::new((MISSES_BEFORE_STOP - 1) as nat, |i: int| false);
    let long = polls + Seq::new(MISSES_BEFORE_STOP as nat, |i: int| false);
    law_short_gap_is_ignored(polls, (MISSES_BEFORE_STOP - 1) as nat);
    assert(long.drop_last() =~= short);
    assert(long.last() == false);
}

/// Whatever the polls show, the reports are a start, a stop, a start and so on,
/// and a meeting runs exactly where the last of them is a start.
pub proof fn law_reports_alternate(polls: Seq<bool>)
    ensures
        forall|i: int|
            0 <= i < run(polls).1.len() ==> (#[trigger] run(polls).1[i] is Started <==> i % 2 == 0),
        run(polls).0 is Running <==> run(polls).1.len() % 2 == 1,
        run(polls).0 is Running ==> run(polls).0->0 < MISSES_BEFORE_STOP,
    decreases polls.len(),
{
    if polls.len() > 0 {
        law_reports_alternate(polls.drop_last());
        let before = run(polls.drop_last()).1;
        let now = run(polls).1;
        assert forall|i: int| 0 <= i < now.len() implies (#[trigger] now[i] is Started <==> i % 2
            == 0) by {
            if i < before.len() {
                assert(now[i] == before[i]);
            }
        }
    }
}

/// A meeting runs exactly where one of the last two polls showed it; each poll
/// reports at most one thing, which comes after all that was reported before, and
/// a poll after which a meeting runs just as before reports nothing.
pub proof fn law_one_of_the_last_two_polls_counts(polls: Seq<bool>)
    ensures
        run(polls).0 is Running <==> (polls.len() >= 1 && polls[polls.len() - 1]) || (polls.len()
            >= 2 && polls[polls.len() - 2]),
        polls.len() > 0 ==> {
            let before = run(polls.drop_last());
            let now = run(polls);
            &&& before.0 is Idle && now.0 is Running ==> now.1 == before.1.push(Report::Started)
            &&& before.0 is Running && now.0 is Idle ==> now.1 == before.1.push(Report::Stopped)
            &&& before.0 is Running && now.0 is Running ==> now.1 == before.1
            &&& before.0 is Idle && now.0 is Idle ==> now.1 == before.1
        },
{
    lemma_last_two_polls(polls);
}

proof fn lemma_last_two_polls(polls: Seq<bool>)
    ensures
        match run(polls).0 {
            Phase::Idle => !(polls.len() >= 1 && polls[polls.len() - 1]) && !(polls.len() >= 2
                && polls[polls.len() - 2]),
            Phase::Running(misses) => {
                ||| misses == 0 && polls.len() >= 1 && polls[polls.len() - 1]
                ||| misses == 1 && polls.len() >= 2 && !polls[polls.len() - 1]
                    && polls[polls.len() - 2]
            },
        },
    decreases polls.len(),
{
    if polls.len() > 0 {
        let rest = polls.drop_last();
        lemma_last_two_polls(rest);
        if rest.len() > 0 {
            assert(rest[rest.len() - 1] == polls[polls.len() - 2]);
        }
    }
}

/// A meeting is seen wherever in the window, down to twenty levels, the button
/// that leaves it stands: an element with one of the button's names, whatever the
/// case, that is a button of either kind or has the button's id.
pub proof fn law_meeting_is_not_missed(root: UiElement)
    ensures
        ({
            let names = seq![
                "leave"@,
                "hang up"@,
                "hang-up"@,
                "end call"@,
                "나가기"@,
                "끊기"@,
                "통화 종료"@,
            ];
            in_meeting(root) <==> exists|i: int|
                0 <= i < document(root, 0, 20).len() && {
                    let e = #[trigger] document(root, 0, 20)[i];
                    &&& exists|j: int|
                        0 <= j < names.len() && contains(
                            lowercase(e.name@),
                            lowercase(#[trigger] names[j]),
                        )
                    &&& e.control_type == 50000 || e.control_type == 50019 || lowercase(
                        e.automation_id@,
                    ) == "hangup-button"@
                }
        }),
{
    let names = seq![
        "leave"@,
        "hang up"@,
        "hang-up"@,
        "end call"@,
        "나가기"@,
        "끊기"@,
        "통화 종료"@,
    ];
    let d = document(root, 0, 20);
    let low = all_lowercase(names);
    let named = |e: UiElement|
        exists|j: int|
            0 <= j < names.len() && contains(lowercase(e.name@), lowercase(#[trigger] names[j]));
    assert(leave_names() =~= names);
    assert forall|e: UiElement| #[trigger] name_contains(e, names) == named(e) by {
        if named(e) {
            let j = choose|j: int|
                0 <= j < names.len() && contains(
                    lowercase(e.name@),
                    lowercase(#[trigger] names[j]),
                );
            assert(contains(lowercase(e.name@), low[j]));
        }
        if name_contains(e, names) {
            let j = choose|j: int|
                0 <= j < low.len() && contains(lowercase(e.name@), #[trigger] low[j]);
            assert(low[j] == lowercase(names[j]));
        }
    }
    law_search_is_complete(leave_button(), root, 20);
    match found(leave_button(), root, 20) {
        Some(e) => {
            let i = choose|i: int| 0 <= i < d.len() && d[i] == e;
            assert(leaves_call(d[i]));
            assert(name_contains(d[i], names) == named(d[i]));
        },
        None => {
            assert forall|i: int| 0 <= i < d.len() implies !leaves_call(#[trigger] d[i]) by {
                assert(!leave_button()(d[i]));
            }
            assert forall|i: int| 0 <= i < d.len() implies !(named(#[trigger] d[i]) && (
            d[i].control_type == 50000 || d[i].control_type == 50019 || lowercase(
                d[i].automation_id@,
            ) == "hangup-button"@)) by {
                assert(name_contains(d[i], names) == named(d[i]));
            }
        },
    }
}

/// A meeting is tied to the first window that shows it and does not only stand
/// beside it; where there is none, to the first window that shows it at all; and
/// to none only where no window shows a meeting.
pub proof fn law_meeting_is_tied_to_its_window(s: Seq<WindowTree>)
    ensures
        ({
            let shows = |w: WindowTree| w.tree is Ok && in_meeting(w.tree->Ok_0);
            let main = |w: WindowTree|
                w.tree is Ok && in_meeting(w.tree->Ok_0) && !popup_title(
                    option_text(w.window.title),
                );
            match meeting_window(s) {
                None => forall|n: int| 0 <= n < s.len() ==> !shows(#[trigger] s[n]),
                Some(w) => {
                    ||| exists|n: int|
                        0 <= n < s.len() && main(#[trigger] s[n]) && s[n].window == w && forall|
                            m: int,
                        |
                            0 <= m < n ==> !main(#[trigger] s[m])
                    ||| (forall|n: int| 0 <= n < s.len() ==> !main(#[trigger] s[n])) && exists|
                        n: int,
                    |
                        0 <= n < s.len() && shows(#[trigger] s[n]) && s[n].window == w && forall|
                            m: int,
                        |
                            0 <= m < n ==> !shows(#[trigger] s[m])
                },
            }
        }),
{
    lemma_first_windows(s);
}

proof fn lemma_first_windows(s: Seq<WindowTree>)
    ensures
        ({
            let shows = |w: WindowTree| w.tree is Ok && in_meeting(w.tree->Ok_0);
            let main = |w: WindowTree|
                w.tree is Ok && in_meeting(w.tree->Ok_0) && !popup_title(
                    option_text(w.window.title),
                );
            &&& match first_main(s) {
                None => forall|n: int| 0 <= n < s.len() ==> !main(#[trigger] s[n]),
                Some(w) => exists|n: int|
                    0 <= n < s.len() && main(#[trigger] s[n]) && s[n].window == w && forall|m: int|
                        0 <= m < n ==> !main(#[trigger] s[m]),
            }
            &&& match first_candidate(s) {
                None => forall|n: int| 0 <= n < s.len() ==> !shows(#[trigger] s[n]),
                Some(w) => exists|n: int|
                    0 <= n < s.len() && shows(#[trigger] s[n]) && s[n].window == w && forall|m: int|
                        0 <= m < n ==> !shows(#[trigger] s[m]),
            }
        }),
    decreases s.len(),
{
    let shows = |w: WindowTree| w.tree is Ok && in_meeting(w.tree->Ok_0);
    let main = |w: WindowTree|
        w.tree is Ok && in_meeting(w.tree->Ok_0) && !popup_title(option_text(w.window.title));
    if s.len() > 0 {
        let rest = s.drop_first();
        lemma_first_windows(rest);
        assert(s[0] == s.first());
        assert(forall|n: int| 0 < n < s.len() ==> #[trigger] s[n] == rest[n - 1]);
        if !main(s[0]) {
            match first_main(rest) {
                None => {},
                Some(w) => {
                    let n = choose|n: int|
                        0 <= n < rest.len() && main(#[trigger] rest[n]) && rest[n].window == w
                            && forall|m: int| 0 <= m < n ==> !main(#[trigger] rest[m]);
                    assert(s[n + 1] == rest[n]);
                    assert forall|m: int| 0 <= m < n + 1 implies !main(#[trigger] s[m]) by {
                        if m > 0 {
                            assert(rest[m - 1] == s[m]);
                        }
                    }
                },
            }
        } else {
            assert(main(s[0]) && s[0].window == first_main(s)->0);
        }
        if !shows(s[0]) {
            match first_candidate(rest) {
                None => {},
                Some(w) => {
                    let n = choose|n: int|
                        0 <= n < rest.len() && shows(#[trigger] rest[n]) && rest[n].window == w
                            && forall|m: int| 0 <= m < n ==> !shows(#[trigger] rest[m]);
                    assert(s[n + 1] == rest[n]);
                    assert forall|m: int| 0 <= m < n + 1 implies !shows(#[trigger] s[m]) by {
                        if m > 0 {
                            assert(rest[m - 1] == s[m]);
                        }
                    }
                },
            }
        } else {
            assert(shows(s[0]) && s[0].window == first_candidate(s)->0);
        }
    }
}

/// A program file is one of Teams, and a title is that of a window that only
/// stands beside a meeting, exactly where it holds one of these words.
pub proof fn law_words_of_teams(exe: Seq<char>, title: Seq<char>)
    ensures
        teams_program(exe) <==> contains(lowercase(exe), "ms-teams"@) || contains(
            lowercase(exe),
            "teams.exe"@,
        ),
        popup_title(Some(title)) <==> contains(title, "간단히 보기"@) || contains(
            title,
            "컨트롤 막대"@,
        ) || contains(lowercase(title), "compact view"@) || contains(lowercase(title), "mini view"@)
            || contains(lowercase(title), "control bar"@) || contains(
            lowercase(title),
            "sharing toolbar"@,
        ),
        !popup_title(None),
{
}

/// A meeting that is not seen for a while goes on: no gap shorter than the
/// grace period ends it, and nothing is reported meanwhile.
pub proof fn law_short_gap_is_ignored(polls: Seq<bool>, gap: nat)
    requires
        run(polls).0 is Running,
        run(polls).0->0 + gap < MISSES_BEFORE_STOP,
    ensures
        run(polls + Seq::new(gap, |i: int| false)).0 == Phase::Running(run(polls).0->0 + gap),
        run(polls + Seq::new(gap, |i: int| false)).1 == run(polls).1,
    decreases gap,
{
    let longer = polls + Seq::new(gap, |i: int| false);
    if gap == 0 {
        assert(longer =~= polls);
    } else {
        law_short_gap_is_ignored(polls, (gap - 1) as nat);
        assert(longer.drop_last() =~= polls + Seq::new((gap - 1) as nat, |i: int| false));
        assert(longer.last() == false);
    }
}

// ---------------------------------------------------------------------------
// Why a meeting is not seen
// ---------------------------------------------------------------------------

/// The line about a window.
pub open spec fn window_line(i: int, w: TeamsWindow, gap: Seq<char>) -> Seq<char> {
    "  #"@ + decimal(i as nat) + gap + "pid="@ + decimal(w.pid as nat) + " hwnd="@ + handle_text(
        w.hwnd,
    ) + " title="@ + quoted_option(option_text(w.title))
}

/// The line about a window.
pub fn line_about_window(i: usize, w: &TeamsWindow, gap: &str) -> (r: String)
    ensures
        r@ == window_line(i as int, *w, gap@),
{
    let mut r = "  #".to_owned();
    push_decimal(&mut r, i as u128);
    r.append(gap);
    r.append("pid=");
    push_decimal(&mut r, w.pid as u128);
    r.append(" hwnd=");
    push_handle(&mut r, w.hwnd);
    r.append(" title=");
    push_quoted_option(&mut r, &w.title);
    assert(r@ =~= window_line(i as int, *w, gap@));
    r
}

/// The lines about windows.
pub open spec fn window_lines(s: Seq<WindowTree>, gap: Seq<char>) -> Seq<Seq<char>> {
    Seq::new(s.len(), |i: int| window_line(i, s[i].window, gap))
}

/// Appends the lines about windows.
pub fn push_window_lines(out: &mut Vec<String>, windows: &Vec<WindowTree>, gap: &str)
    ensures
        texts(final(out)@) == texts(old(out)@) + window_lines(windows@, gap@),
{
    let ghost before = texts(out@);
    let ghost all = window_lines(windows@, gap@);
    let mut i: usize = 0;
    assert(before + all.take(0) =~= before);
    while i < windows.len()
        invariant
            i <= windows@.len(),
            all == window_lines(windows@, gap@),
            texts(out@) == before + all.take(i as int),
        decreases windows@.len() - i,
    {
        push_line(out, line_about_window(i, &windows[i].window, gap));
        i += 1;
        assert(texts(out@) =~= before + all.take(i as int));
    }
    assert(all.take(i as int) =~= all);
}

/// The heading of the part about a window.
pub open spec fn marker_heading(i: int, hwnd: isize) -> Seq<char> {
    "\n=== Window #"@ + decimal(i as nat) + " (hwnd="@ + handle_text(hwnd)
        + ") — meeting-marker candidates ==="@
}

/// What is told of the elements of a window that are named like the button that
/// leaves a call.
pub open spec fn marker_lines(root: UiElement, max_depth: int) -> Seq<Seq<char>> {
    let hits = all_found(named_like(leave_names()), root, max_depth);
    if hits.len() == 0 {
        seq![
            "  (no element with name matching [\"leave\", \"hang up\", \"hang-up\", \"end call\", \"나가기\", \"끊기\", \"통화 종료\"])"@,
            "  → Either no meeting in this window, or our needle list misses the actual button label."@,
            "  Consider raising --diagnose-depth (current "@ + decimal(max_depth as nat)
                + ") or check inspect.exe."@,
        ]
    } else {
        element_lines(LineKind::Marker, hits).push(
            "  ("@ + decimal(hits.len())
                + " hit(s) total. Detector requires control type 50000=Button or 50019=SplitButton.)"@,
        )
    }
}

/// The part about a window.
pub open spec fn marker_part(i: int, w: WindowTree, max_depth: int) -> Seq<Seq<char>> {
    seq![marker_heading(i, w.window.hwnd)] + match w.tree {
        Ok(tree) => marker_lines(tree, max_depth),
        Err(e) => seq!["  ElementFromHandle failed: "@ + e@],
    }
}

/// The parts about the first `n` windows.
pub open spec fn marker_parts(s: Seq<WindowTree>, n: int, max_depth: int) -> Seq<Seq<char>>
    decreases n,
{
    if n <= 0 {
        Seq::empty()
    } else {
        marker_parts(s, n - 1, max_depth) + marker_part(n - 1, s[n - 1], max_depth)
    }
}

/// What a user is shown who asks why a meeting is not seen.
pub open spec fn diagnosis(s: Seq<WindowTree>, max_depth: int) -> Seq<Seq<char>> {
    let heading = "\n=== Teams windows enumerated ("@ + decimal(s.len()) + ") ==="@;
    if s.len() == 0 {
        seq![
            heading,
            "(none — process_image_basename couldn't match 'ms-teams' / 'teams.exe')"@,
            "Verify with: powershell \"Get-Process ms-teams\""@,
        ]
    } else {
        seq![heading] + window_lines(s, "  "@) + marker_parts(s, s.len() as int, max_depth) + seq![
            "\n=== UIA tree dump (first window, depth "@ + decimal(max_depth as nat) + ") ==="@,
        ] + match s[0].tree {
            Ok(tree) => tree_lines(tree, max_depth),
            Err(_) => Seq::empty(),
        }
    }
}

fn push_marker_lines(out: &mut Vec<String>, root: &UiElement, max_depth: u32)
    ensures
        texts(final(out)@) == texts(old(out)@) + marker_lines(*root, max_depth as int),
{
    let ghost before = texts(out@);
    let hits = marker_candidates(root, max_depth);
    if hits.len() == 0 {
        push_line(
            out,
            "  (no element with name matching [\"leave\", \"hang up\", \"hang-up\", \"end call\", \"나가기\", \"끊기\", \"통화 종료\"])".to_owned(),
        );
        push_line(
            out,
            "  → Either no meeting in this window, or our needle list misses the actual button label.".to_owned(),
        );
        let mut advice = "  Consider raising --diagnose-depth (current ".to_owned();
        push_decimal(&mut advice, max_depth as u128);
        advice.append(") or check inspect.exe.");
        push_line(out, advice);
    } else {
        push_element_lines(out, LineKind::Marker, &hits);
        let mut summary = "  (".to_owned();
        push_decimal(&mut summary, hits.len() as u128);
        summary.append(
            " hit(s) total. Detector requires control type 50000=Button or 50019=SplitButton.)",
        );
        push_line(out, summary);
    }
    assert(texts(out@) =~= before + marker_lines(*root, max_depth as int));
}

/// What a user is shown who asks why a meeting is not seen: the windows of
/// Teams, the elements that could be the button that leaves a call, and the
/// tree of the first window.
pub fn diagnose(windows: &Vec<WindowTree>, max_depth: u32) -> (r: Vec<String>)
    ensures
        texts(r@) == diagnosis(windows@, max_depth as int),
{
    let mut out: Vec<String> = Vec::new();
    assert(texts(out@) =~= Seq::empty());
    let mut heading = "\n=== Teams windows enumerated (".to_owned();
    push_decimal(&mut heading, windows.len() as u128);
    heading.append(") ===");
    let ghost head = heading@;
    push_line(&mut out, heading);
    if windows.len() == 0 {
        push_line(
            &mut out,
            "(none — process_image_basename couldn't match 'ms-teams' / 'teams.exe')".to_owned(),
        );
        push_line(&mut out, "Verify with: powershell \"Get-Process ms-teams\"".to_owned());
        assert(texts(out@) =~= diagnosis(windows@, max_depth as int));
        return out;
    }
    push_window_lines(&mut out, windows, "  ");
    let ghost sofar = seq![head] + window_lines(windows@, "  "@);
    assert(texts(out@) =~= sofar);
    let mut i: usize = 0;
    assert(sofar + marker_parts(windows@, 0, max_depth as int) =~= sofar);
    while i < windows.len()
        invariant
            i <= windows@.len(),
            texts(out@) == sofar + marker_parts(windows@, i as int, max_depth as int),
        decreases windows@.len() - i,
    {
        let w = &windows[i];
        let ghost before = texts(out@);
        let mut title = "\n=== Window #".to_owned();
        push_decimal(&mut title, i as u128);
        title.append(" (hwnd=");
        push_handle(&mut title, w.window.hwnd);
        title.append(") — meeting-marker candidates ===");
        assert(title@ =~= marker_heading(i as int, w.window.hwnd));
        push_line(&mut out, title);
        match &w.tree {
            Ok(tree) => {
                push_marker_lines(&mut out, tree, max_depth);
            },
            Err(e) => {
                let mut failure = "  ElementFromHandle failed: ".to_owned();
                failure.append(e.as_str());
                push_line(&mut out, failure);
            },
        }
        assert(texts(out@) =~= before + marker_part(
            i as int,
            windows@[i as int],
            max_depth as int,
        ));
        i += 1;
        assert(texts(out@) =~= sofar + marker_parts(windows@, i as int, max_depth as int));
    }
    let mut dump = "\n=== UIA tree dump (first window, depth ".to_owned();
    push_decimal(&mut dump, max_depth as u128);
    dump.append(") ===");
    push_line(&mut out, dump);
    if let Ok(tree) = &windows[0].tree {
        dump_tree(&mut out, tree, max_depth);
    }
    assert(texts(out@) =~= diagnosis(windows@, max_depth as int));
    out
}

proof fn lemma_marker_part_stays(s: Seq<WindowTree>, n: int, k: int, max_depth: int, line: Seq<char>)
    requires
        0 <= k < n <= s.len(),
        marker_part(k, s[k], max_depth).contains(line),
    ensures
        marker_parts(s, n, max_depth).contains(line),
    decreases n,
{
    let before = marker_parts(s, n - 1, max_depth);
    let last = marker_part(n - 1, s[n - 1], max_depth);
    if k < n - 1 {
        lemma_marker_part_stays(s, n - 1, k, max_depth, line);
    }
    lemma_line_stays(before, last, line);
}

/// A user who asks why a meeting is not seen is shown every window of Teams, and in
/// each of them every element that is named like the button that leaves a call.
pub proof fn law_every_candidate_is_shown(s: Seq<WindowTree>, n: int, max_depth: int, k: int)
    requires
        0 <= n < s.len(),
    ensures
        diagnosis(s, max_depth).contains(window_line(n, s[n].window, "  "@)),
        ({
            let visits = walk(go_on(), s[n].tree->Ok_0, max_depth, false).0;
            s[n].tree is Ok && 0 <= k < visits.len() && name_contains(visits[k].0, leave_names())
                ==> diagnosis(s, max_depth).contains(
                element_line(LineKind::Marker, visits[k].0, visits[k].1),
            )
        }),
{
    let heading = seq!["\n=== Teams windows enumerated ("@ + decimal(s.len()) + ") ==="@];
    let windows = window_lines(s, "  "@);
    let parts = marker_parts(s, s.len() as int, max_depth);
    let dump = seq![
        "\n=== UIA tree dump (first window, depth "@ + decimal(max_depth as nat) + ") ==="@,
    ];
    let tree = match s[0].tree {
        Ok(tree) => tree_lines(tree, max_depth),
        Err(_) => Seq::empty(),
    };
    assert(windows[n] == window_line(n, s[n].window, "  "@));
    let line = window_line(n, s[n].window, "  "@);
    lemma_line_stays(heading, windows, line);
    lemma_line_stays(heading + windows, parts, line);
    lemma_line_stays(heading + windows + parts, dump, line);
    lemma_line_stays(heading + windows + parts + dump, tree, line);
    let visits = walk(go_on(), s[n].tree->Ok_0, max_depth, false).0;
    if s[n].tree is Ok && 0 <= k < visits.len() && name_contains(visits[k].0, leave_names()) {
        let hit = element_line(LineKind::Marker, visits[k].0, visits[k].1);
        lemma_hit_has_its_line(LineKind::Marker, visits, named_like(leave_names()), k);
        let hits = all_found(named_like(leave_names()), s[n].tree->Ok_0, max_depth);
        let lines = element_lines(LineKind::Marker, hits);
        let i = choose|i: int| 0 <= i < lines.len() && lines[i] == hit;
        assert(marker_lines(s[n].tree->Ok_0, max_depth)[i] == hit);
        lemma_line_stays(
            seq![marker_heading(n, s[n].window.hwnd)],
            marker_lines(s[n].tree->Ok_0, max_depth),
            hit,
        );
        lemma_marker_part_stays(s, s.len() as int, n, max_depth, hit);
        lemma_line_stays(heading + windows, parts, hit);
        lemma_line_stays(heading + windows + parts, dump, hit);
        lemma_line_stays(heading + windows + parts + dump, tree, hit);
    }
}

} // verus!
