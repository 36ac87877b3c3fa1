//! What does the user share right now?
//!
//! Teams does not tell, so it is inferred from what lies in the foreground
//! when the user starts to share: a window that is not one of Teams is most
//! likely the shared one, and otherwise the screen that it lies on is taken.

use vstd::prelude::*;

use crate::report::{
    element_line, element_lines, handle_text, lemma_hit_has_its_line, lemma_line_stays,
    push_element_lines, push_handle, push_line, push_quoted, quoted, LineKind,
};
use crate::state::{push_window_lines, window_lines, WindowTree};
use crate::text::{
    blank, char_whitespace, contains, decimal, is_blank, lowercase, option_text, push_decimal,
    push_signed, same_text, signed_decimal, text_contains, texts, to_lower,
};
use crate::uia::{
    all_found, all_lowercase, document, find_all, find_where, found, go_on, holds_any,
    law_search_is_complete, lower_texts, slices, text_holds_any, visited, walk, ElementTest,
    UiElement,
};

verus! {

/// What is recorded while the user shares.
#[derive(Debug, Clone, Copy, PartialEq, Eq, Structural)]
pub enum ShareTarget {
    Window(isize),
    Monitor(isize),
}

/// How the user shares.
#[derive(Debug, Clone, Copy, PartialEq, Eq, Structural)]
pub enum ShareMode {
    Window,
    Screen,
}

// ---------------------------------------------------------------------------
// What Teams tells of it
// ---------------------------------------------------------------------------

/// What a name tells of how the user shares.
pub open spec fn mode_told(n: Seq<char>) -> Option<ShareMode> {
    if contains(n, "창을 공유"@) {
        Some(ShareMode::Window)
    } else if contains(n, "화면을 공유"@) {
        Some(ShareMode::Screen)
    } else if contains(n, "sharing a window"@) || contains(n, "sharing this window"@) {
        Some(ShareMode::Window)
    } else if contains(n, "sharing your screen"@) || contains(n, "sharing screen"@) {
        Some(ShareMode::Screen)
    } else {
        None
    }
}

/// The property of having a name that tells how the user shares.
pub open spec fn tells_mode() -> spec_fn(UiElement) -> bool {
    |e: UiElement| mode_told(lowercase(e.name@)) is Some
}

/// How deep in a window such an element may stand.
pub const MODE_DEPTH: u32 = 25;

/// How the user shares, as the first window tells it that does.
pub open spec fn share_mode(s: Seq<WindowTree>) -> Option<ShareMode>
    decreases s.len(),
{
    if s.len() == 0 {
        None
    } else {
        let told = match s.first().tree {
            Ok(tree) => match found(tells_mode(), tree, MODE_DEPTH as int) {
                Some(e) => mode_told(lowercase(e.name@)),
                None => None,
            },
            Err(_) => None,
        };
        match told {
            Some(mode) => Some(mode),
            None => share_mode(s.drop_first()),
        }
    }
}

/// What a name in lower case tells of how the user shares.
pub fn mode_in(n: &str) -> (r: Option<ShareMode>)
    ensures
        r == mode_told(n@),
{
    if text_contains(n, "창을 공유") {
        Some(ShareMode::Window)
    } else if text_contains(n, "화면을 공유") {
        Some(ShareMode::Screen)
    } else if text_contains(n, "sharing a window") || text_contains(n, "sharing this window") {
        Some(ShareMode::Window)
    } else if text_contains(n, "sharing your screen") || text_contains(n, "sharing screen") {
        Some(ShareMode::Screen)
    } else {
        None
    }
}

fn read_mode(e: &UiElement) -> (r: Option<ShareMode>)
    ensures
        r == mode_told(lowercase(e.name@)),
{
    let lower = to_lower(e.name.as_str());
    mode_in(lower.as_str())
}

struct ModeTest;

impl ElementTest for ModeTest {
    closed spec fn wanted(&self) -> spec_fn(UiElement) -> bool {
        tells_mode()
    }

    fn test(&self, e: &UiElement) -> (r: bool) {
        read_mode(e).is_some()
    }
}

/// How the user shares, as the windows of Teams tell it.
pub fn detect_share_mode(windows: &Vec<WindowTree>) -> (r: Option<ShareMode>)
    ensures
        r == share_mode(windows@),
{
    let mut i: usize = 0;
    assert(windows@.skip(0) =~= windows@);
    while i < windows.len()
        invariant
            i <= windows@.len(),
            share_mode(windows@) == share_mode(windows@.skip(i as int)),
        decreases windows@.len() - i,
    {
        assert(windows@.skip(i as int).drop_first() =~= windows@.skip(i + 1));
        assert(windows@.skip(i as int).first() == windows@[i as int]);
        if let Ok(tree) = &windows[i].tree {
            if let Some(e) = find_where(tree, MODE_DEPTH, &ModeTest) {
                let told = read_mode(e);
                if told.is_some() {
                    return told;
                }
            }
        }
        i += 1;
    }
    None
}

// ---------------------------------------------------------------------------
// What is recorded
// ---------------------------------------------------------------------------

/// A visible window with a title.
#[derive(Debug)]
pub struct VisibleWindow {
    pub hwnd: isize,
    pub pid: u32,
    pub title: String,
}

/// The window in the foreground and the process that it belongs to.
#[derive(Debug, Clone, Copy, PartialEq, Eq, Structural)]
pub struct Foreground {
    pub hwnd: isize,
    pub pid: u32,
}

/// The screens that come into question.
#[derive(Debug, Clone, Copy, PartialEq, Eq, Structural)]
pub struct Screens {
    /// The one that the window in the foreground lies on.
    pub of_foreground: Option<isize>,
    /// The one that the mouse is on.
    pub of_cursor: Option<isize>,
    pub primary: isize,
}

/// The processes that are not the user's work: Teams and this agent.
#[derive(Debug)]
pub struct KnownProcesses {
    /// The process of the meeting.
    pub meeting: u32,
    /// All processes with a window of Teams.
    pub teams: Vec<u32>,
    pub own: u32,
}

impl KnownProcesses {
    /// The process is one of Teams or this agent.
    pub open spec fn holds(&self, pid: u32) -> bool {
        pid == self.meeting || self.teams@.contains(pid) || pid == self.own
    }

    /// Is the process one of Teams or this agent?
    pub fn contains_pid(&self, pid: u32) -> (r: bool)
        ensures
            r == self.holds(pid),
    {
        if pid == self.meeting || pid == self.own {
            return true;
        }
        let mut i: usize = 0;
        while i < self.teams.len()
            invariant
                i <= self.teams@.len(),
                forall|j: int| 0 <= j < i ==> self.teams@[j] != pid,
            decreases self.teams@.len() - i,
        {
            if self.teams[i] == pid {
                assert(self.teams@.contains(pid));
                return true;
            }
            i += 1;
        }
        false
    }
}

/// The screen to record: that of the window in the foreground, or else that of
/// the mouse, or else the primary one.
pub open spec fn screen_of(screens: Screens) -> ShareTarget {
    match screens.of_foreground {
        Some(m) => ShareTarget::Monitor(m),
        None => match screens.of_cursor {
            Some(m) => ShareTarget::Monitor(m),
            None => ShareTarget::Monitor(screens.primary),
        },
    }
}

/// The screen to record.
pub fn monitor_fallback(screens: &Screens) -> (r: ShareTarget)
    ensures
        r == screen_of(*screens),
{
    match screens.of_foreground {
        Some(m) => ShareTarget::Monitor(m),
        None => match screens.of_cursor {
            Some(m) => ShareTarget::Monitor(m),
            None => ShareTarget::Monitor(screens.primary),
        },
    }
}

/// The first window, from the top, that has a title and is the user's work.
pub open spec fn topmost(s: Seq<VisibleWindow>, known: KnownProcesses) -> Option<isize>
    decreases s.len(),
{
    if s.len() == 0 {
        None
    } else if !known.holds(s.first().pid) && !blank(s.first().title@) {
        Some(s.first().hwnd)
    } else {
        topmost(s.drop_first(), known)
    }
}

/// The window that the user worked in last: the first of the visible windows,
/// which are given from the top, that has a title and is the user's work.
pub fn most_recent_non_teams_window(
    visible: &Vec<VisibleWindow>,
    known: &KnownProcesses,
) -> (r: Option<isize>)
    ensures
        r == topmost(visible@, *known),
{
    let mut i: usize = 0;
    assert(visible@.skip(0) =~= visible@);
    while i < visible.len()
        invariant
            i <= visible@.len(),
            topmost(visible@, *known) == topmost(visible@.skip(i as int), *known),
        decreases visible@.len() - i,
    {
        assert(visible@.skip(i as int).drop_first() =~= visible@.skip(i + 1));
        assert(visible@.skip(i as int).first() == visible@[i as int]);
        let w = &visible[i];
        if !known.contains_pid(w.pid) && !is_blank(w.title.as_str()) {
            return Some(w.hwnd);
        }
        i += 1;
    }
    None
}

/// What is recorded while the user shares.
pub open spec fn picked_target(
    mode: Option<ShareMode>,
    foreground: Option<Foreground>,
    known: KnownProcesses,
    visible: Seq<VisibleWindow>,
    screens: Screens,
) -> ShareTarget {
    let users = match foreground {
        Some(f) => if known.holds(f.pid) {
            None
        } else {
            Some(f.hwnd)
        },
        None => None,
    };
    match mode {
        Some(ShareMode::Screen) => screen_of(screens),
        Some(ShareMode::Window) => match users {
            Some(hwnd) => ShareTarget::Window(hwnd),
            None => match topmost(visible, known) {
                Some(hwnd) => ShareTarget::Window(hwnd),
                None => screen_of(screens),
            },
        },
        None => match users {
            Some(hwnd) => ShareTarget::Window(hwnd),
            None => screen_of(screens),
        },
    }
}

/// What is recorded while the user shares. A shared window is the one in the
/// foreground if it is the user's work, or else the one that the user worked
/// in last; a shared screen is the one that lies under the foreground. If it
/// is not known how the user shares, a window in the foreground is taken if it
/// is the user's work, and the screen otherwise.
pub fn pick(
    mode: Option<ShareMode>,
    foreground: Option<Foreground>,
    known: &KnownProcesses,
    visible: &Vec<VisibleWindow>,
    screens: &Screens,
) -> (r: ShareTarget)
    ensures
        r == picked_target(mode, foreground, *known, visible@, *screens),
{
    let users = match foreground {
        Some(f) => if known.contains_pid(f.pid) {
            None
        } else {
            Some(f.hwnd)
        },
        None => None,
    };
    match mode {
        Some(ShareMode::Screen) => monitor_fallback(screens),
        Some(ShareMode::Window) => match users {
            Some(hwnd) => ShareTarget::Window(hwnd),
            None => match most_recent_non_teams_window(visible, known) {
                Some(hwnd) => ShareTarget::Window(hwnd),
                None => monitor_fallback(screens),
            },
        },
        None => match users {
            Some(hwnd) => ShareTarget::Window(hwnd),
            None => monitor_fallback(screens),
        },
    }
}

/// A window is recorded only if it is the user's work, and a shared screen is
/// never recorded as a window: nothing of Teams or of the agent is taken for
/// what the user shares.
pub proof fn law_only_the_users_windows(
    mode: Option<ShareMode>,
    foreground: Option<Foreground>,
    known: KnownProcesses,
    visible: Seq<VisibleWindow>,
    screens: Screens,
)
    ensures
        match picked_target(mode, foreground, known, visible, screens) {
            ShareTarget::Window(hwnd) => {
                &&& mode != Some(ShareMode::Screen)
                &&& {
                    ||| foreground is Some && foreground->0.hwnd == hwnd && !known.holds(
                        foreground->0.pid,
                    )
                    ||| exists|i: int|
                        0 <= i < visible.len() && (#[trigger] visible[i]).hwnd == hwnd
                            && !known.holds(visible[i].pid) && !blank(visible[i].title@)
                }
            },
            ShareTarget::Monitor(m) => {
                ||| screens.of_foreground == Some(m)
                ||| screens.of_cursor == Some(m)
                ||| screens.primary == m
            },
        },
{
    lemma_topmost(visible, known);
}

proof fn lemma_topmost(s: Seq<VisibleWindow>, known: KnownProcesses)
    ensures
        topmost(s, known) matches Some(hwnd) ==> exists|i: int|
            0 <= i < s.len() && (#[trigger] s[i]).hwnd == hwnd && !known.holds(s[i].pid) && !blank(
                s[i].title@,
            ),
    decreases s.len(),
{
    if s.len() > 0 {
        if !known.holds(s.first().pid) && !blank(s.first().title@) {
            assert(s[0].hwnd == s.first().hwnd);
        } else {
            lemma_topmost(s.drop_first(), known);
            if topmost(s, known) is Some {
                let t = s.drop_first();
                let hwnd = topmost(s, known)->0;
                let i = choose|i: int|
                    0 <= i < t.len() && (#[trigger] t[i]).hwnd == hwnd && !known.holds(t[i].pid)
                        && !blank(t[i].title@);
                assert(s[i + 1] == t[i]);
            }
        }
    }
}

/// A screen is recorded only as follows, however the user shares and whoever owns
/// the window in the foreground: the one that this window lies on, if there is
/// one, or else the one that the mouse is on, if there is one, or else the
/// primary one.
pub proof fn law_screen_is_that_of_the_foreground(
    mode: Option<ShareMode>,
    foreground: Option<Foreground>,
    known: KnownProcesses,
    visible: Seq<VisibleWindow>,
    screens: Screens,
)
    ensures
        picked_target(mode, foreground, known, visible, screens) matches ShareTarget::Monitor(m)
            ==> {
            &&& screens.of_foreground is Some ==> m == screens.of_foreground->0
            &&& screens.of_foreground is None && screens.of_cursor is Some ==> m
                == screens.of_cursor->0
            &&& screens.of_foreground is None && screens.of_cursor is None ==> m == screens.primary
        },
        screen_of(screens) is Monitor,
        screen_of(screens)->Monitor_0 == if screens.of_foreground is Some {
            screens.of_foreground->0
        } else if screens.of_cursor is Some {
            screens.of_cursor->0
        } else {
            screens.primary
        },
{
}

/// What is recorded, case by case. A shared screen is recorded as a screen. Else
/// a window in the foreground that is the user's work is recorded. Where there is
/// none and a window is known to be shared, it is the first of the visible
/// windows that has a title and is the user's work, or a screen if there is no
/// such window; and where it is not known how the user shares, it is a screen.
pub proof fn law_what_is_recorded(
    mode: Option<ShareMode>,
    foreground: Option<Foreground>,
    known: KnownProcesses,
    visible: Seq<VisibleWindow>,
    screens: Screens,
)
    ensures
        ({
            let teams_or_own = |pid: u32|
                pid == known.meeting || pid == known.own || exists|i: int|
                    0 <= i < known.teams@.len() && #[trigger] known.teams@[i] == pid;
            let users = foreground is Some && !teams_or_own(foreground->0.pid);
            let fit = |w: VisibleWindow|
                !teams_or_own(w.pid) && exists|k: int|
                    0 <= k < w.title@.len() && !char_whitespace(#[trigger] w.title@[k]);
            let target = picked_target(mode, foreground, known, visible, screens);
            &&& mode == Some(ShareMode::Screen) ==> target is Monitor
            &&& mode != Some(ShareMode::Screen) && users ==> target == ShareTarget::Window(
                foreground->0.hwnd,
            )
            &&& mode is None && !users ==> target is Monitor
            &&& mode == Some(ShareMode::Window) && !users ==> {
                ||| target is Monitor && forall|i: int|
                    0 <= i < visible.len() ==> !fit(#[trigger] visible[i])
                ||| exists|i: int|
                    0 <= i < visible.len() && fit(#[trigger] visible[i]) && target
                        == ShareTarget::Window(visible[i].hwnd) && forall|j: int|
                        0 <= j < i ==> !fit(#[trigger] visible[j])
            }
        }),
{
    let teams_or_own = |pid: u32|
        pid == known.meeting || pid == known.own || exists|i: int|
            0 <= i < known.teams@.len() && #[trigger] known.teams@[i] == pid;
    let fit = |w: VisibleWindow|
        !teams_or_own(w.pid) && exists|k: int|
            0 <= k < w.title@.len() && !char_whitespace(#[trigger] w.title@[k]);
    lemma_first_fit(visible, known);
    assert forall|pid: u32| #[trigger] known.holds(pid) == teams_or_own(pid) by {
        if known.teams@.contains(pid) {
            let i = choose|i: int| 0 <= i < known.teams@.len() && known.teams@[i] == pid;
            assert(known.teams@[i] == pid);
        }
    }
    assert forall|w: VisibleWindow| fit(w) == (!known.holds(w.pid) && !#[trigger] blank(w.title@)) by {
        assert(known.holds(w.pid) == teams_or_own(w.pid));
    }
    if topmost(visible, known) is Some {
        let i = choose|i: int|
            0 <= i < visible.len() && topmost(visible, known) == Some((#[trigger] visible[i]).hwnd)
                && !known.holds(visible[i].pid) && !blank(visible[i].title@) && forall|j: int|
                0 <= j < i ==> known.holds((#[trigger] visible[j]).pid) || blank(visible[j].title@);
        assert(fit(visible[i]));
        assert forall|j: int| 0 <= j < i implies !fit(#[trigger] visible[j]) by {
            assert(fit(visible[j]) == (!known.holds(visible[j].pid) && !blank(visible[j].title@)));
        }
    } else {
        assert forall|i: int| 0 <= i < visible.len() implies !fit(#[trigger] visible[i]) by {
            assert(fit(visible[i]) == (!known.holds(visible[i].pid) && !blank(visible[i].title@)));
        }
    }
}

proof fn lemma_first_fit(s: Seq<VisibleWindow>, known: KnownProcesses)
    ensures
        match topmost(s, known) {
            Some(hwnd) => exists|i: int|
                0 <= i < s.len() && Some((#[trigger] s[i]).hwnd) == Some(hwnd) && !known.holds(
                    s[i].pid,
                ) && !blank(s[i].title@) && forall|j: int|
                    0 <= j < i ==> known.holds((#[trigger] s[j]).pid) || blank(s[j].title@),
            None => forall|i: int|
                0 <= i < s.len() ==> known.holds((#[trigger] s[i]).pid) || blank(s[i].title@),
        },
    decreases s.len(),
{
    if s.len() > 0 {
        if !known.holds(s.first().pid) && !blank(s.first().title@) {
            assert(s[0] == s.first());
        } else {
            let t = s.drop_first();
            lemma_first_fit(t, known);
            match topmost(t, known) {
                Some(hwnd) => {
                    let i = choose|i: int|
                        0 <= i < t.len() && Some((#[trigger] t[i]).hwnd) == Some(hwnd)
                            && !known.holds(t[i].pid) && !blank(t[i].title@) && forall|j: int|
                            0 <= j < i ==> known.holds((#[trigger] t[j]).pid) || blank(t[j].title@);
                    assert(s[i + 1] == t[i]);
                    assert forall|j: int| 0 <= j < i + 1 implies known.holds((#[trigger] s[j]).pid)
                        || blank(s[j].title@) by {
                        if j > 0 {
                            assert(t[j - 1] == s[j]);
                        }
                    }
                },
                None => {
                    assert forall|i: int| 0 <= i < s.len() implies known.holds((#[trigger] s[i]).pid)
                        || blank(s[i].title@) by {
                        if i > 0 {
                            assert(t[i - 1] == s[i]);
                        }
                    }
                },
            }
        }
    }
}

/// How the user shares is told by the first window that has, down to twenty-five
/// levels, an element whose name tells it, and by the first such element that a
/// walk of that window comes to; it is not known only where there is no such
/// element.
pub proof fn law_mode_is_not_missed(s: Seq<WindowTree>)
    ensures
        ({
            let tells = |e: UiElement| mode_told(lowercase(e.name@)) is Some;
            let silent = |w: WindowTree|
                w.tree is Err || forall|i: int|
                    0 <= i < document(w.tree->Ok_0, 0, 25).len() ==> !tells(
                        #[trigger] document(w.tree->Ok_0, 0, 25)[i],
                    );
            match share_mode(s) {
                None => forall|n: int| 0 <= n < s.len() ==> silent(#[trigger] s[n]),
                Some(mode) => exists|n: int|
                    {
                        &&& 0 <= n < s.len()
                        &&& (#[trigger] s[n]).tree is Ok
                        &&& forall|m: int| 0 <= m < n ==> silent(#[trigger] s[m])
                        &&& exists|k: int|
                            0 <= k < walk(go_on(), s[n].tree->Ok_0, 25, false).0.len() && mode_told(
                                lowercase(
                                    (#[trigger] walk(
                                        go_on(),
                                        s[n].tree->Ok_0,
                                        25,
                                        false,
                                    ).0[k]).0.name@,
                                ),
                            ) == Some(mode) && forall|i: int|
                                0 <= i < k ==> !tells(
                                    (#[trigger] walk(
                                        go_on(),
                                        s[n].tree->Ok_0,
                                        25,
                                        false,
                                    ).0[i]).0,
                                )
                    },
            }
        }),
    decreases s.len(),
{
    let tells = |e: UiElement| mode_told(lowercase(e.name@)) is Some;
    let silent = |w: WindowTree|
        w.tree is Err || forall|i: int|
            0 <= i < document(w.tree->Ok_0, 0, 25).len() ==> !tells(
                #[trigger] document(w.tree->Ok_0, 0, 25)[i],
            );
    if s.len() > 0 {
        assert(tells_mode() =~= tells);
        let w = s[0];
        assert(w == s.first());
        if w.tree is Ok {
            law_search_is_complete(tells, w.tree->Ok_0, 25);
        }
        let rest = s.drop_first();
        if w.tree is Err || found(tells, w.tree->Ok_0, 25) is None {
            law_mode_is_not_missed(rest);
            assert(silent(s[0]));
            match share_mode(rest) {
                None => {
                    assert forall|n: int| 0 <= n < s.len() implies silent(#[trigger] s[n]) by {
                        if n > 0 {
                            assert(rest[n - 1] == s[n]);
                        }
                    }
                },
                Some(mode) => {
                    let n = choose|n: int|
                        {
                            &&& 0 <= n < rest.len()
                            &&& (#[trigger] rest[n]).tree is Ok
                            &&& forall|m: int| 0 <= m < n ==> silent(#[trigger] rest[m])
                            &&& exists|k: int|
                                0 <= k < walk(go_on(), rest[n].tree->Ok_0, 25, false).0.len()
                                    && mode_told(
                                    lowercase(
                                        (#[trigger] walk(
                                            go_on(),
                                            rest[n].tree->Ok_0,
                                            25,
                                            false,
                                        ).0[k]).0.name@,
                                    ),
                                ) == Some(mode) && forall|i: int|
                                    0 <= i < k ==> !tells(
                                        (#[trigger] walk(
                                            go_on(),
                                            rest[n].tree->Ok_0,
                                            25,
                                            false,
                                        ).0[i]).0,
                                    )
                        };
                    assert(s[n + 1] == rest[n]);
                    assert forall|m: int| 0 <= m < n + 1 implies silent(#[trigger] s[m]) by {
                        if m > 0 {
                            assert(rest[m - 1] == s[m]);
                        }
                    }
                },
            }
        } else {
            assert(s[0].tree is Ok);
        }
    }
}

/// What a name tells, phrase by phrase. The Korean phrases count before the
/// English ones, and of either a window counts before a screen.
pub proof fn law_phrases_tell_the_mode(n: Seq<char>)
    ensures
        contains(n, "창을 공유"@) ==> mode_told(n) == Some(ShareMode::Window),
        !contains(n, "창을 공유"@) && contains(n, "화면을 공유"@) ==> mode_told(n) == Some(
            ShareMode::Screen,
        ),
        !contains(n, "창을 공유"@) && !contains(n, "화면을 공유"@) && (contains(
            n,
            "sharing a window"@,
        ) || contains(n, "sharing this window"@)) ==> mode_told(n) == Some(ShareMode::Window),
        !contains(n, "창을 공유"@) && !contains(n, "화면을 공유"@) && !contains(
            n,
            "sharing a window"@,
        ) && !contains(n, "sharing this window"@) && (contains(n, "sharing your screen"@)
            || contains(n, "sharing screen"@)) ==> mode_told(n) == Some(ShareMode::Screen),
        mode_told(n) is Some ==> contains(n, "창을 공유"@) || contains(n, "화면을 공유"@) || contains(
            n,
            "sharing a window"@,
        ) || contains(n, "sharing this window"@) || contains(n, "sharing your screen"@) || contains(
            n,
            "sharing screen"@,
        ),
{
}

// ---------------------------------------------------------------------------
// What a user is shown who asks what Teams tells of a share
// ---------------------------------------------------------------------------

/// Words that stand on elements about a share.
pub open spec fn share_words() -> Seq<Seq<char>> {
    seq![
        "sharing"@,
        "you're sharing"@,
        "you are sharing"@,
        "presenting"@,
        "stop sharing"@,
        "stop presenting"@,
        "공유"@,
        "발표"@,
        "내 화면"@,
        "중지"@,
    ]
}

/// The name or the help text of an element holds one of the words, whatever
/// the case.
pub open spec fn speaks_of_share(e: UiElement) -> bool {
    holds_any(lowercase(e.name@), all_lowercase(share_words())) || holds_any(
        lowercase(e.help_text@),
        all_lowercase(share_words()),
    )
}

/// The property of speaking of a share.
pub open spec fn about_share() -> spec_fn(UiElement) -> bool {
    |e: UiElement| speaks_of_share(e)
}

struct ShareWordTest;

impl ElementTest for ShareWordTest {
    closed spec fn wanted(&self) -> spec_fn(UiElement) -> bool {
        about_share()
    }

    fn test(&self, e: &UiElement) -> (r: bool) {
        let words: [&str; 10] = [
            "sharing",
            "you're sharing",
            "you are sharing",
            "presenting",
            "stop sharing",
            "stop presenting",
            "공유",
            "발표",
            "내 화면",
            "중지",
        ];
        assert(slices(words@) =~= share_words());
        let needles = lower_texts(&words);
        let name = to_lower(e.name.as_str());
        let help = to_lower(e.help_text.as_str());
        text_holds_any(name.as_str(), &needles) || text_holds_any(help.as_str(), &needles)
    }
}

/// All elements of a window that speak of a share, each with its depth.
pub fn share_hits<'a>(root: &'a UiElement, max_depth: u32) -> (r: Vec<(&'a UiElement, u32)>)
    ensures
        visited(r@) == all_found(about_share(), *root, max_depth as int),
{
    find_all(root, max_depth, &ShareWordTest)
}

/// An element that tells anything: it has a name, a help text or an id, or a
/// class other than that of a group.
pub open spec fn tells_anything(e: UiElement) -> bool {
    ||| e.name@.len() > 0
    ||| e.help_text@.len() > 0
    ||| e.automation_id@.len() > 0
    ||| e.class_name@.len() > 0 && e.class_name@ != "Group"@
}

/// The property of telling anything.
pub open spec fn telling() -> spec_fn(UiElement) -> bool {
    |e: UiElement| tells_anything(e)
}

struct TellingTest;

impl ElementTest for TellingTest {
    closed spec fn wanted(&self) -> spec_fn(UiElement) -> bool {
        telling()
    }

    fn test(&self, e: &UiElement) -> (r: bool) {
        !e.name.as_str().is_empty() || !e.help_text.as_str().is_empty()
            || !e.automation_id.as_str().is_empty() || (!e.class_name.as_str().is_empty()
            && !same_text(e.class_name.as_str(), "Group"))
    }
}

/// All elements of a window that tell anything, each with its depth.
pub fn telling_elements<'a>(root: &'a UiElement, max_depth: u32) -> (r: Vec<(&'a UiElement, u32)>)
    ensures
        visited(r@) == all_found(telling(), *root, max_depth as int),
{
    find_all(root, max_depth, &TellingTest)
}

/// A title in lower case is that of a window that controls a share.
pub open spec fn share_title_words(lower: Seq<char>) -> bool {
    contains(lower, "공유"@) || contains(lower, "share"@)
}

/// Is a title in lower case that of a window that controls a share?
pub fn has_share_title_words(lower: &str) -> (r: bool)
    ensures
        r == share_title_words(lower@),
{
    text_contains(lower, "공유") || text_contains(lower, "share")
}

/// Is a window with this title the one that controls a share? One without a
/// title is not.
pub fn controls_share(title: &Option<String>) -> (r: bool)
    ensures
        r == share_title(option_text(*title)),
{
    match title {
        Some(t) => {
            let lower = to_lower(t.as_str());
            has_share_title_words(lower.as_str())
        },
        None => false,
    }
}

/// A screen and where it lies.
#[derive(Debug, Clone, Copy, PartialEq, Eq, Structural)]
pub struct MonitorInfo {
    pub hmon: isize,
    pub left: i32,
    pub top: i32,
    pub right: i32,
    pub bottom: i32,
}

/// The beginning of the heading of the part about a window.
pub open spec fn part_heading(i: int, hwnd: isize) -> Seq<char> {
    "\n=== Window #"@ + decimal(i as nat) + " (hwnd="@ + handle_text(hwnd) + ") — "@
}

/// What is told of the elements of a window that speak of a share.
pub open spec fn share_lines(root: UiElement, max_depth: int) -> Seq<Seq<char>> {
    let hits = all_found(about_share(), root, max_depth);
    if hits.len() == 0 {
        seq!["  (no element with share-related name/helptext in this window)"@]
    } else {
        element_lines(LineKind::Share, hits)
    }
}

/// What is told of all elements of a window that controls a share.
pub open spec fn full_lines(i: int, hwnd: isize, root: UiElement, max_depth: int) -> Seq<Seq<char>> {
    seq![
        "\n=== FULL DESCENDANT DUMP of share-control window #"@ + decimal(i as nat) + " (hwnd="@
            + handle_text(hwnd) + ") ==="@,
    ] + element_lines(LineKind::Full, all_found(telling(), root, max_depth))
}

/// A window with this title controls a share.
pub open spec fn share_title(title: Option<Seq<char>>) -> bool {
    match title {
        Some(t) => share_title_words(lowercase(t)),
        None => false,
    }
}

/// The part about a window.
pub open spec fn share_part(i: int, w: WindowTree, max_depth: int) -> Seq<Seq<char>> {
    match w.tree {
        Err(e) => seq![
            part_heading(i, w.window.hwnd) + "ElementFromHandle failed: "@ + e@ + " ==="@,
        ],
        Ok(tree) => {
            seq![
                part_heading(i, w.window.hwnd) + "share-marker hits (Name + HelpText) ==="@,
            ] + share_lines(tree, max_depth) + if share_title(option_text(w.window.title)) {
                full_lines(i, w.window.hwnd, tree, max_depth)
            } else {
                Seq::empty()
            }
        },
    }
}

/// The parts about the first `n` windows.
pub open spec fn share_parts(s: Seq<WindowTree>, n: int, max_depth: int) -> Seq<Seq<char>>
    decreases n,
{
    if n <= 0 {
        Seq::empty()
    } else {
        share_parts(s, n - 1, max_depth) + share_part(n - 1, s[n - 1], max_depth)
    }
}

/// The line about a visible window.
pub open spec fn visible_line(w: VisibleWindow) -> Seq<char> {
    "  hwnd="@ + handle_text(w.hwnd) + " pid="@ + decimal(w.pid as nat) + " title="@ + quoted(
        w.title@,
    )
}

/// The line about a screen.
pub open spec fn monitor_line(i: int, m: MonitorInfo) -> Seq<char> {
    "  display#"@ + decimal((i + 1) as nat) + " hmon="@ + handle_text(m.hmon) + " rect=("@
        + signed_decimal(m.left as int) + ", "@ + signed_decimal(m.top as int) + ", "@
        + signed_decimal(m.right as int) + ", "@ + signed_decimal(m.bottom as int) + ")"@
}

/// What a user is shown who asks what Teams tells of a share.
pub open spec fn diagnosis(
    s: Seq<WindowTree>,
    visible: Seq<VisibleWindow>,
    monitors: Seq<MonitorInfo>,
    max_depth: int,
) -> Seq<Seq<char>> {
    seq!["\n=== Teams windows ("@ + decimal(s.len()) + ") ==="@] + window_lines(s, " "@)
        + share_parts(s, s.len() as int, max_depth) + seq![
        "\n=== Top-level visible windows (for window-title matching reference) ==="@,
    ] + Seq::new(visible.len(), |i: int| visible_line(visible[i])) + seq![
        "\n=== Monitors (for screen-index matching reference) ==="@,
    ] + Seq::new(monitors.len(), |i: int| monitor_line(i, monitors[i]))
}

fn push_heading(out: &mut String, i: usize, hwnd: isize)
    ensures
        final(out)@ == old(out)@ + part_heading(i as int, hwnd),
{
    let ghost before = out@;
    out.append("\n=== Window #");
    push_decimal(out, i as u128);
    out.append(" (hwnd=");
    push_handle(out, hwnd);
    out.append(") — ");
    assert(out@ =~= before + part_heading(i as int, hwnd));
}

fn push_share_part(out: &mut Vec<String>, i: usize, w: &WindowTree, max_depth: u32)
    ensures
        texts(final(out)@) == texts(old(out)@) + share_part(i as int, *w, max_depth as int),
{
    let ghost before = texts(out@);
    let mut heading = String::new();
    push_heading(&mut heading, i, w.window.hwnd);
    assert(heading@ =~= part_heading(i as int, w.window.hwnd));
    match &w.tree {
        Err(e) => {
            heading.append("ElementFromHandle failed: ");
            heading.append(e.as_str());
            heading.append(" ===");
            push_line(out, heading);
            assert(texts(out@) =~= before + share_part(i as int, *w, max_depth as int));
        },
        Ok(tree) => {
            heading.append("share-marker hits (Name + HelpText) ===");
            let ghost title = heading@;
            push_line(out, heading);
            let hits = share_hits(tree, max_depth);
            if hits.len() == 0 {
                push_line(
                    out,
                    "  (no element with share-related name/helptext in this window)".to_owned(),
                );
            } else {
                push_element_lines(out, LineKind::Share, &hits);
            }
            let ghost sofar = texts(out@);
            assert(sofar =~= before + seq![title] + share_lines(*tree, max_depth as int));
            if controls_share(&w.window.title) {
                let mut full = "\n=== FULL DESCENDANT DUMP of share-control window #".to_owned();
                push_decimal(&mut full, i as u128);
                full.append(" (hwnd=");
                push_handle(&mut full, w.window.hwnd);
                full.append(") ===");
                push_line(out, full);
                let all = telling_elements(tree, max_depth);
                push_element_lines(out, LineKind::Full, &all);
                assert(texts(out@) =~= sofar + full_lines(
                    i as int,
                    w.window.hwnd,
                    *tree,
                    max_depth as int,
                ));
            }
            assert(texts(out@) =~= before + share_part(i as int, *w, max_depth as int));
        },
    }
}

fn push_visible_lines(out: &mut Vec<String>, visible: &Vec<VisibleWindow>)
    ensures
        texts(final(out)@) == texts(old(out)@) + Seq::new(
            visible@.len(),
            |i: int| visible_line(visible@[i]),
        ),
{
    let ghost before = texts(out@);
    let ghost all = Seq::new(visible@.len(), |i: int| visible_line(visible@[i]));
    let mut i: usize = 0;
    assert(before + all.take(0) =~= before);
    while i < visible.len()
        invariant
            i <= visible@.len(),
            all == Seq::new(visible@.len(), |i: int| visible_line(visible@[i])),
            texts(out@) == before + all.take(i as int),
        decreases visible@.len() - i,
    {
        let w = &visible[i];
        let mut line = "  hwnd=".to_owned();
        push_handle(&mut line, w.hwnd);
        line.append(" pid=");
        push_decimal(&mut line, w.pid as u128);
        line.append(" title=");
        push_quoted(&mut line, w.title.as_str());
        assert(line@ =~= visible_line(visible@[i as int]));
        push_line(out, line);
        i += 1;
        assert(texts(out@) =~= before + all.take(i as int));
    }
    assert(all.take(i as int) =~= all);
}

fn push_monitor_lines(out: &mut Vec<String>, monitors: &Vec<MonitorInfo>)
    ensures
        texts(final(out)@) == texts(old(out)@) + Seq::new(
            monitors@.len(),
            |i: int| monitor_line(i, monitors@[i]),
        ),
{
    let ghost before = texts(out@);
    let ghost all = Seq::new(monitors@.len(), |i: int| monitor_line(i, monitors@[i]));
    let mut i: usize = 0;
    assert(before + all.take(0) =~= before);
    while i < monitors.len()
        invariant
            i <= monitors@.len(),
            all == Seq::new(monitors@.len(), |i: int| monitor_line(i, monitors@[i])),
            texts(out@) == before + all.take(i as int),
        decreases monitors@.len() - i,
    {
        let m = &monitors[i];
        let mut line = "  display#".to_owned();
        push_decimal(&mut line, (i as u128) + 1);
        line.append(" hmon=");
        push_handle(&mut line, m.hmon);
        line.append(" rect=(");
        push_signed(&mut line, m.left as i64);
        line.append(", ");
        push_signed(&mut line, m.top as i64);
        line.append(", ");
        push_signed(&mut line, m.right as i64);
        line.append(", ");
        push_signed(&mut line, m.bottom as i64);
        line.append(")");
        assert(line@ =~= monitor_line(i as int, monitors@[i as int]));
        push_line(out, line);
        i += 1;
        assert(texts(out@) =~= before + all.take(i as int));
    }
    assert(all.take(i as int) =~= all);
}

/// What a user is shown who asks what Teams tells of a share: the windows of
/// Teams and the elements that speak of a share, all that the window tells that
/// controls a share, and the visible windows and the screens to compare with.
pub fn diagnose(
    windows: &Vec<WindowTree>,
    visible: &Vec<VisibleWindow>,
    monitors: &Vec<MonitorInfo>,
    max_depth: u32,
) -> (r: Vec<String>)
    ensures
        texts(r@) == diagnosis(windows@, visible@, monitors@, max_depth as int),
{
    let mut out: Vec<String> = Vec::new();
    assert(texts(out@) =~= Seq::empty());
    let mut heading = "\n=== Teams windows (".to_owned();
    push_decimal(&mut heading, windows.len() as u128);
    heading.append(") ===");
    let ghost head = heading@;
    push_line(&mut out, heading);
    push_window_lines(&mut out, windows, " ");
    let ghost sofar = seq![head] + window_lines(windows@, " "@);
    assert(texts(out@) =~= sofar);
    let mut i: usize = 0;
    assert(sofar + share_parts(windows@, 0, max_depth as int) =~= sofar);
    while i < windows.len()
        invariant
            i <= windows@.len(),
            texts(out@) == sofar + share_parts(windows@, i as int, max_depth as int),
        decreases windows@.len() - i,
    {
        push_share_part(&mut out, i, &windows[i], max_depth);
        i += 1;
        assert(texts(out@) =~= sofar + share_parts(windows@, i as int, max_depth as int));
    }
    push_line(
        &mut out,
        "\n=== Top-level visible windows (for window-title matching reference) ===".to_owned(),
    );
    push_visible_lines(&mut out, visible);
    push_line(
        &mut out,
        "\n=== Monitors (for screen-index matching reference) ===".to_owned(),
    );
    push_monitor_lines(&mut out, monitors);
    assert(texts(out@) =~= diagnosis(windows@, visible@, monitors@, max_depth as int));
    out
}

proof fn lemma_share_part_stays(s: Seq<WindowTree>, n: int, k: int, max_depth: int, line: Seq<char>)
    requires
        0 <= k < n <= s.len(),
        share_part(k, s[k], max_depth).contains(line),
    ensures
        share_parts(s, n, max_depth).contains(line),
    decreases n,
{
    let before = share_parts(s, n - 1, max_depth);
    let last = share_part(n - 1, s[n - 1], max_depth);
    if k < n - 1 {
        lemma_share_part_stays(s, n - 1, k, max_depth, line);
    }
    lemma_line_stays(before, last, line);
}

/// A user who asks what Teams tells of a share is shown every element of every
/// window of Teams that speaks of one, every visible window, and every screen.
pub proof fn law_all_about_a_share_is_shown(
    s: Seq<WindowTree>,
    visible: Seq<VisibleWindow>,
    monitors: Seq<MonitorInfo>,
    max_depth: int,
    n: int,
    k: int,
)
    ensures
        0 <= n < visible.len() ==> diagnosis(s, visible, monitors, max_depth).contains(
            visible_line(visible[n]),
        ),
        0 <= n < monitors.len() ==> diagnosis(s, visible, monitors, max_depth).contains(
            monitor_line(n, monitors[n]),
        ),
        ({
            let visits = walk(go_on(), s[n].tree->Ok_0, max_depth, false).0;
            0 <= n < s.len() && s[n].tree is Ok && 0 <= k < visits.len() && speaks_of_share(
                visits[k].0,
            ) ==> diagnosis(s, visible, monitors, max_depth).contains(
                element_line(LineKind::Share, visits[k].0, visits[k].1),
            )
        }),
{
    let a = seq!["\n=== Teams windows ("@ + decimal(s.len()) + ") ==="@] + window_lines(s, " "@);
    let b = share_parts(s, s.len() as int, max_depth);
    let c = seq!["\n=== Top-level visible windows (for window-title matching reference) ==="@];
    let d = Seq::new(visible.len(), |i: int| visible_line(visible[i]));
    let e = seq!["\n=== Monitors (for screen-index matching reference) ==="@];
    let f = Seq::new(monitors.len(), |i: int| monitor_line(i, monitors[i]));
    assert(diagnosis(s, visible, monitors, max_depth) == a + b + c + d + e + f);
    if 0 <= n < visible.len() {
        let line = visible_line(visible[n]);
        assert(d[n] == line);
        lemma_line_stays(a + b + c, d, line);
        lemma_line_stays(a + b + c + d, e, line);
        lemma_line_stays(a + b + c + d + e, f, line);
    }
    if 0 <= n < monitors.len() {
        let line = monitor_line(n, monitors[n]);
        assert(f[n] == line);
        lemma_line_stays(a + b + c + d + e, f, line);
    }
    let visits = walk(go_on(), s[n].tree->Ok_0, max_depth, false).0;
    if 0 <= n < s.len() && s[n].tree is Ok && 0 <= k < visits.len() && speaks_of_share(
        visits[k].0,
    ) {
        let tree = s[n].tree->Ok_0;
        let hit = element_line(LineKind::Share, visits[k].0, visits[k].1);
        lemma_hit_has_its_line(LineKind::Share, visits, about_share(), k);
        assert(share_lines(tree, max_depth).contains(hit));
        let head = seq![
            part_heading(n, s[n].window.hwnd) + "share-marker hits (Name + HelpText) ==="@,
        ];
        let full = if share_title(option_text(s[n].window.title)) {
            full_lines(n, s[n].window.hwnd, tree, max_depth)
        } else {
            Seq::empty()
        };
        lemma_line_stays(head, share_lines(tree, max_depth), hit);
        lemma_line_stays(head + share_lines(tree, max_depth), full, hit);
        lemma_share_part_stays(s, s.len() as int, n, max_depth, hit);
        lemma_line_stays(a, b, hit);
        lemma_line_stays(a + b, c, hit);
        lemma_line_stays(a + b + c, d, hit);
        lemma_line_stays(a + b + c + d, e, hit);
        lemma_line_stays(a + b + c + d + e, f, hit);
    }
}

/// An element speaks of a share exactly where its name or its help text holds one of
/// these words, whatever the case.
pub proof fn law_words_about_a_share(e: UiElement)
    ensures
        ({
            let words = seq![
                "sharing"@,
                "you're sharing"@,
                "you are sharing"@,
                "presenting"@,
                "stop sharing"@,
                "stop presenting"@,
                "공유"@,
                "발표"@,
                "내 화면"@,
                "중지"@,
            ];
            speaks_of_share(e) <==> exists|j: int|
                0 <= j < words.len() && (contains(
                    lowercase(e.name@),
                    lowercase(#[trigger] words[j]),
                ) || contains(lowercase(e.help_text@), lowercase(words[j])))
        }),
{
    let words = share_words();
    let low = all_lowercase(words);
    assert(forall|j: int| 0 <= j < words.len() ==> low[j] == lowercase(#[trigger] words[j]));
    if speaks_of_share(e) {
        if holds_any(lowercase(e.name@), low) {
            let j = choose|j: int|
                0 <= j < low.len() && contains(lowercase(e.name@), #[trigger] low[j]);
            assert(low[j] == lowercase(words[j]));
        } else {
            let j = choose|j: int|
                0 <= j < low.len() && contains(lowercase(e.help_text@), #[trigger] low[j]);
            assert(low[j] == lowercase(words[j]));
        }
    }
    if exists|j: int|
        0 <= j < words.len() && (contains(lowercase(e.name@), lowercase(#[trigger] words[j]))
            || contains(lowercase(e.help_text@), lowercase(words[j]))) {
        let j = choose|j: int|
            0 <= j < words.len() && (contains(lowercase(e.name@), lowercase(#[trigger] words[j]))
                || contains(lowercase(e.help_text@), lowercase(words[j])));
        assert(contains(lowercase(e.name@), low[j]) || contains(lowercase(e.help_text@), low[j]));
    }
}

} // verus!
