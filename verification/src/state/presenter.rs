//! Is a screen being shared, and by whom?
//!
//! Teams names an element of the meeting after the one who presents, such as
//! `"<name> is presenting"`, and renames the user's own share button while the
//! user presents.

use vstd::prelude::*;

use crate::state::WindowTree;
use crate::text::{
    blank, byte_count, byte_len, char_whitespace, chars_of, contains, cut, cut_point, cuts_at,
    find_chars, first_match, law_trim_takes_white_space_only, lemma_blank_trim, lemma_cut_unique,
    lowercase, matches_at, option_text, position, same_text, string_of, strip_end,
    strip_end_chars, text_contains, to_lower, trim, trim_chars,
};
use crate::uia::{
    document, find_where, found, go_on, law_search_is_complete, slices, walk, ElementTest,
    UiElement,
};

verus! {

/// A screen that is being shared, and the one who shares it, where known.
#[derive(Debug)]
pub struct ShareState {
    pub presenter: Option<String>,
}

/// Why it cannot be told whether a screen is shared.
#[derive(Debug, Clone, Copy, PartialEq, Eq, Structural)]
pub enum ShareError {
    /// The window has no tree.
    NoSuchWindow,
    /// The presenter's name cannot be cut out of the text, which takes another
    /// number of bytes in lower case.
    UnreadableName,
}

/// What is said of the user's own share.
pub open spec fn own_share(n: Seq<char>) -> bool {
    ||| contains(n, "you are presenting"@)
    ||| contains(n, "you are sharing"@)
    ||| contains(n, "내가 발표 중"@)
    ||| contains(n, "내가 화면을 공유"@)
}

/// What follows the name of one who presents.
pub open spec fn share_phrases() -> Seq<Seq<char>> {
    seq![
        " is presenting"@,
        " is sharing screen"@,
        " is sharing their screen"@,
        "님이 발표 중"@,
        "님이 화면을 공유"@,
    ]
}

/// The first of the phrases, from the one at `from` on, that a text contains.
pub open spec fn phrase_in(n: Seq<char>, from: int) -> Option<Seq<char>>
    decreases share_phrases().len() - from,
{
    if from < 0 || from >= share_phrases().len() {
        None
    } else if contains(n, share_phrases()[from]) {
        Some(share_phrases()[from])
    } else {
        phrase_in(n, from + 1)
    }
}

/// An element with this name and id, both in lower case, is the share button
/// while the user shares.
pub open spec fn stop_button(n: Seq<char>, id: Seq<char>) -> bool {
    &&& id == "share-button"@
    &&& contains(n, "중지"@) || contains(n, "stop sharing"@) || contains(n, "stop presenting"@)
}

/// A presenter's name without the blanks and commas around it.
pub open spec fn name_of(s: Seq<char>) -> Option<Seq<char>> {
    let name = trim(strip_end(trim(s), ','));
    if name.len() == 0 {
        None
    } else {
        Some(name)
    }
}

/// What an element tells of a share.
pub enum Mark {
    Nothing,
    Shared(Option<Seq<char>>),
    Unreadable,
}

/// What an element tells of a share, by its name, its name in lower case and its
/// id in lower case. The presenter's name is what stands before the phrase, cut
/// from the name of the element at as many bytes as come before the phrase in
/// lower case.
pub open spec fn mark_of(raw: Seq<char>, n: Seq<char>, id: Seq<char>) -> Mark {
    if own_share(n) {
        Mark::Shared(Some("(me)"@))
    } else {
        match phrase_in(n, 0) {
            Some(p) => match cut(raw, byte_len(n.take(position(n, p)))) {
                Some(count) => Mark::Shared(name_of(raw.take(count))),
                None => Mark::Unreadable,
            },
            None => if stop_button(n, id) {
                Mark::Shared(Some("(me)"@))
            } else {
                Mark::Nothing
            },
        }
    }
}

/// What an element tells of a share.
pub open spec fn share_mark(e: UiElement) -> Mark {
    mark_of(e.name@, lowercase(e.name@), lowercase(e.automation_id@))
}

/// The property of telling something of a share.
pub open spec fn marked() -> spec_fn(UiElement) -> bool {
    |e: UiElement| !(share_mark(e) is Nothing)
}

/// How deep in a window such an element may stand.
pub const SHARE_DEPTH: u32 = 20;

/// What a window tells of a share: what its first element tells that tells
/// anything.
pub open spec fn window_mark(root: UiElement) -> Mark {
    match found(marked(), root, SHARE_DEPTH as int) {
        Some(e) => share_mark(e),
        None => Mark::Nothing,
    }
}

/// An answer about a share says what a mark says.
pub open spec fn answers(r: Result<Option<ShareState>, ShareError>, m: Mark) -> bool {
    match m {
        Mark::Nothing => r == Ok::<Option<ShareState>, ShareError>(None),
        Mark::Shared(p) => r is Ok && r->Ok_0 is Some && option_text(r->Ok_0->0.presenter) == p,
        Mark::Unreadable => r == Err::<Option<ShareState>, ShareError>(ShareError::UnreadableName),
    }
}

proof fn lemma_position(s: Seq<char>, needle: Seq<char>, i: int)
    requires
        first_match(s, needle, i),
    ensures
        position(s, needle) == i,
        contains(s, needle),
{
    let j = position(s, needle);
    assert(first_match(s, needle, j));
}

fn me() -> (r: ShareState)
    ensures
        option_text(r.presenter) == Some("(me)"@),
{
    ShareState { presenter: Some("(me)".to_owned()) }
}

fn is_own_share(n: &str) -> (r: bool)
    ensures
        r == own_share(n@),
{
    text_contains(n, "you are presenting") || text_contains(n, "you are sharing")
        || text_contains(n, "내가 발표 중") || text_contains(n, "내가 화면을 공유")
}

fn is_stop_button(n: &str, id: &str) -> (r: bool)
    ensures
        r == stop_button(n@, id@),
{
    same_text(id, "share-button") && (text_contains(n, "중지") || text_contains(
        n,
        "stop sharing",
    ) || text_contains(n, "stop presenting"))
}

/// Reads the presenter's name out of `raw`, whose lower case is `lower`. The
/// name ends before the first of the phrases that `lower` contains, counted
/// in bytes. `None` where it contains none of them.
pub fn presenter_in(raw: &str, lower: &str) -> (r: Option<Result<Option<String>, ShareError>>)
    ensures
        match phrase_in(lower@, 0) {
            None => r is None,
            Some(p) => match cut(raw@, byte_len(lower@.take(position(lower@, p)))) {
                Some(count) => r is Some && r->0 is Ok && option_text(r->0->Ok_0) == name_of(
                    raw@.take(count),
                ),
                None => r == Some(Err::<Option<String>, ShareError>(ShareError::UnreadableName)),
            },
        },
{
    let phrases: [&str; 5] = [
        " is presenting",
        " is sharing screen",
        " is sharing their screen",
        "님이 발표 중",
        "님이 화면을 공유",
    ];
    assert(slices(phrases@) =~= share_phrases());
    let low = chars_of(lower);
    let mut i: usize = 0;
    while i < 5
        invariant
            i <= 5,
            slices(phrases@) == share_phrases(),
            low@ == lower@,
            phrase_in(lower@, 0) == phrase_in(lower@, i as int),
        decreases 5 - i,
    {
        assert(phrases@[i as int]@ == slices(phrases@)[i as int]);
        let phrase = chars_of(phrases[i]);
        if let Some(at) = find_chars(&low, &phrase) {
            proof {
                lemma_position(low@, phrase@, at as int);
            }
            let bytes: u128 = byte_count(&low, at);
            let chars = chars_of(raw);
            return match cut_point(&chars, bytes) {
                Some(count) => {
                    let before = chars_of(string_of(&chars, 0, count).as_str());
                    assert(before@ =~= raw@.take(count as int));
                    let kept = trim_chars(&strip_end_chars(trim_chars(&before), ','));
                    if kept.len() == 0 {
                        Some(Ok(None))
                    } else {
                        let name = string_of(&kept, 0, kept.len());
                        assert(name@ =~= kept@);
                        Some(Ok(Some(name)))
                    }
                },
                None => Some(Err(ShareError::UnreadableName)),
            };
        }
        i += 1;
    }
    None
}

/// Is a screen shared, and by whom, as an element tells it that has this name,
/// given as it is and in lower case, and this id in lower case?
pub fn share_told(raw: &str, lower: &str, lower_id: &str) -> (r: Result<
    Option<ShareState>,
    ShareError,
>)
    ensures
        answers(r, mark_of(raw@, lower@, lower_id@)),
{
    if is_own_share(lower) {
        return Ok(Some(me()));
    }
    match presenter_in(raw, lower) {
        Some(Ok(presenter)) => Ok(Some(ShareState { presenter })),
        Some(Err(error)) => Err(error),
        None => if is_stop_button(lower, lower_id) {
            Ok(Some(me()))
        } else {
            Ok(None)
        },
    }
}

fn read_mark(e: &UiElement) -> (r: Result<Option<ShareState>, ShareError>)
    ensures
        answers(r, share_mark(*e)),
{
    let lower = to_lower(e.name.as_str());
    let lower_id = to_lower(e.automation_id.as_str());
    share_told(e.name.as_str(), lower.as_str(), lower_id.as_str())
}

struct MarkTest;

impl ElementTest for MarkTest {
    closed spec fn wanted(&self) -> spec_fn(UiElement) -> bool {
        marked()
    }

    fn test(&self, e: &UiElement) -> (r: bool) {
        match read_mark(e) {
            Ok(None) => false,
            _ => true,
        }
    }
}

/// Is a screen shared in the window, and by whom? Elements that are off screen
/// count, for the banner comes and goes.
pub fn detect_active_share(teams_root: &UiElement) -> (r: Result<Option<ShareState>, ShareError>)
    ensures
        answers(r, window_mark(*teams_root)),
        r == Ok::<Option<ShareState>, ShareError>(None) <==> forall|i: int|
            0 <= i < document(*teams_root, 0, 20).len() ==> share_mark(
                #[trigger] document(*teams_root, 0, 20)[i],
            ) is Nothing,
{
    proof {
        law_share_is_not_missed(*teams_root);
    }
    match find_where(teams_root, SHARE_DEPTH, &MarkTest) {
        Some(e) => read_mark(e),
        None => Ok(None),
    }
}

/// What windows tell of a share: what the first of them tells that tells
/// anything. Windows without a tree tell nothing.
pub open spec fn global_mark(s: Seq<WindowTree>) -> Mark
    decreases s.len(),
{
    if s.len() == 0 {
        Mark::Nothing
    } else if s.first().tree is Ok && !(window_mark(s.first().tree->Ok_0) is Nothing) {
        window_mark(s.first().tree->Ok_0)
    } else {
        global_mark(s.drop_first())
    }
}

/// Is a screen shared in any window, and by whom? All windows are asked, for
/// the button that stops a share stands in a small window of its own.
pub fn detect_active_share_global(windows: &Vec<WindowTree>) -> (r: Result<
    Option<ShareState>,
    ShareError,
>)
    ensures
        answers(r, global_mark(windows@)),
{
    let mut i: usize = 0;
    assert(windows@.skip(0) =~= windows@);
    while i < windows.len()
        invariant
            i <= windows@.len(),
            global_mark(windows@) == global_mark(windows@.skip(i as int)),
        decreases windows@.len() - i,
    {
        assert(windows@.skip(i as int).drop_first() =~= windows@.skip(i + 1));
        assert(windows@.skip(i as int).first() == windows@[i as int]);
        match &windows[i].tree {
            Ok(tree) => match detect_active_share(tree) {
                Ok(None) => {},
                told => {
                    return told;
                },
            },
            Err(_) => {},
        }
        i += 1;
    }
    Ok(None)
}

/// The tree of a window, if it is among those given and has one.
pub open spec fn tree_of(s: Seq<WindowTree>, hwnd: isize) -> Option<UiElement>
    decreases s.len(),
{
    if s.len() == 0 {
        None
    } else if s.first().window.hwnd == hwnd {
        match s.first().tree {
            Ok(tree) => Some(tree),
            Err(_) => None,
        }
    } else {
        tree_of(s.drop_first(), hwnd)
    }
}

/// Is a screen shared in the window `hwnd`, and by whom?
pub fn detect_share_for_hwnd(hwnd: isize, windows: &Vec<WindowTree>) -> (r: Result<
    Option<ShareState>,
    ShareError,
>)
    ensures
        match tree_of(windows@, hwnd) {
            Some(tree) => answers(r, window_mark(tree)),
            None => r == Err::<Option<ShareState>, ShareError>(ShareError::NoSuchWindow),
        },
{
    let mut i: usize = 0;
    assert(windows@.skip(0) =~= windows@);
    while i < windows.len()
        invariant
            i <= windows@.len(),
            tree_of(windows@, hwnd) == tree_of(windows@.skip(i as int), hwnd),
        decreases windows@.len() - i,
    {
        assert(windows@.skip(i as int).drop_first() =~= windows@.skip(i + 1));
        assert(windows@.skip(i as int).first() == windows@[i as int]);
        if windows[i].window.hwnd == hwnd {
            return match &windows[i].tree {
                Ok(tree) => detect_active_share(tree),
                Err(_) => Err(ShareError::NoSuchWindow),
            };
        }
        i += 1;
    }
    Err(ShareError::NoSuchWindow)
}

// ---------------------------------------------------------------------------
// What holds of every window
// ---------------------------------------------------------------------------

/// The answer is that no screen is shared exactly where nothing was told of a
/// share; a name that cannot be read is an error; and else the answer names the
/// presenter that was told, or none if none was.
pub proof fn law_answer_says_what_was_told(r: Result<Option<ShareState>, ShareError>, m: Mark)
    requires
        answers(r, m),
    ensures
        r == Ok::<Option<ShareState>, ShareError>(None) <==> m is Nothing,
        r is Err <==> m is Unreadable,
        r is Err ==> r->Err_0 == ShareError::UnreadableName,
        m is Shared ==> r is Ok && r->Ok_0 is Some,
        m is Shared && m->Shared_0 is None ==> r->Ok_0->0.presenter is None,
        m is Shared && m->Shared_0 is Some ==> r->Ok_0->0.presenter is Some
            && r->Ok_0->0.presenter->0@ == m->Shared_0->0,
{
}

/// A share is seen wherever in the window it is told of, down to twenty levels:
/// nothing is told only where no element tells anything, and else it is what the
/// first element tells, as a walk of the window comes to them, that tells
/// anything.
pub proof fn law_share_is_not_missed(root: UiElement)
    ensures
        window_mark(root) is Nothing <==> forall|i: int|
            0 <= i < document(root, 0, 20).len() ==> share_mark(
                #[trigger] document(root, 0, 20)[i],
            ) is Nothing,
        !(window_mark(root) is Nothing) ==> exists|k: int|
            #![trigger walk(go_on(), root, 20, false).0[k]]
            0 <= k < walk(go_on(), root, 20, false).0.len() && window_mark(root) == share_mark(
                walk(go_on(), root, 20, false).0[k].0,
            ) && forall|i: int|
                0 <= i < k ==> share_mark(
                    (#[trigger] walk(go_on(), root, 20, false).0[i]).0,
                ) is Nothing,
{
    law_search_is_complete(marked(), root, 20);
    let d = document(root, 0, 20);
    match found(marked(), root, 20) {
        Some(e) => {
            let i = choose|i: int| 0 <= i < d.len() && d[i] == e;
            assert(!(share_mark(d[i]) is Nothing));
        },
        None => {
            assert forall|i: int| 0 <= i < d.len() implies share_mark(#[trigger] d[i]) is Nothing by {
                assert(!marked()(d[i]));
            }
        },
    }
}

/// What an element tells, phrase by phrase: the user's own share counts first,
/// then what is said of another presenter, then the button that stops a share;
/// without any of these nothing is told.
pub proof fn law_phrases_tell_of_a_share(e: UiElement)
    ensures
        ({
            let n = lowercase(e.name@);
            let own = contains(n, "you are presenting"@) || contains(n, "you are sharing"@)
                || contains(n, "내가 발표 중"@) || contains(n, "내가 화면을 공유"@);
            let other = contains(n, " is presenting"@) || contains(n, " is sharing screen"@)
                || contains(n, " is sharing their screen"@) || contains(n, "님이 발표 중"@)
                || contains(n, "님이 화면을 공유"@);
            let stop = lowercase(e.automation_id@) == "share-button"@ && (contains(n, "중지"@)
                || contains(n, "stop sharing"@) || contains(n, "stop presenting"@));
            &&& own ==> share_mark(e) == Mark::Shared(Some("(me)"@))
            &&& !own && other ==> !(share_mark(e) is Nothing)
            &&& !own && !other && stop ==> share_mark(e) == Mark::Shared(Some("(me)"@))
            &&& !own && !other && !stop ==> share_mark(e) is Nothing
        }),
{
    reveal_with_fuel(phrase_in, 6);
    assert(share_phrases().len() == 5);
}

/// The presenter is the one named before the phrase. The text is `who` and the
/// rest; in lower case it is as many bytes as `who` takes, then the phrase, where
/// it stands for the first time, and what follows.
pub proof fn law_presenter_stands_before_the_phrase(
    who: Seq<char>,
    rest: Seq<char>,
    lower_who: Seq<char>,
    phrase: int,
    lower_rest: Seq<char>,
    id: Seq<char>,
)
    requires
        0 <= phrase < 5,
        byte_len(lower_who) == byte_len(who),
        ({
            let phrases = seq![
                " is presenting"@,
                " is sharing screen"@,
                " is sharing their screen"@,
                "님이 발표 중"@,
                "님이 화면을 공유"@,
            ];
            let n = lower_who + phrases[phrase] + lower_rest;
            &&& !contains(n, "you are presenting"@)
            &&& !contains(n, "you are sharing"@)
            &&& !contains(n, "내가 발표 중"@)
            &&& !contains(n, "내가 화면을 공유"@)
            &&& forall|j: int| 0 <= j < phrase ==> !contains(n, #[trigger] phrases[j])
            &&& forall|j: int|
                0 <= j < lower_who.len() ==> #[trigger] n.skip(j).take(
                    phrases[phrase].len() as int,
                ) != phrases[phrase]
        }),
    ensures
        mark_of(
            who + rest,
            lower_who + seq![
                " is presenting"@,
                " is sharing screen"@,
                " is sharing their screen"@,
                "님이 발표 중"@,
                "님이 화면을 공유"@,
            ][phrase] + lower_rest,
            id,
        ) == Mark::Shared(name_of(who)),
{
    let phrases = seq![
        " is presenting"@,
        " is sharing screen"@,
        " is sharing their screen"@,
        "님이 발표 중"@,
        "님이 화면을 공유"@,
    ];
    let p = phrases[phrase];
    let n = lower_who + p + lower_rest;
    let raw = who + rest;
    let at = lower_who.len() as int;
    assert(phrases =~= share_phrases());
    assert(n.subrange(at, at + p.len()) =~= p);
    assert(matches_at(n, p, at));
    assert forall|j: int| 0 <= j < at implies !matches_at(n, p, j) by {
        if matches_at(n, p, j) {
            assert(n.skip(j).take(p.len() as int) =~= n.subrange(j, j + p.len()));
        }
    }
    assert(first_match(n, p, at));
    lemma_position(n, p, at);
    lemma_phrase_at(n, phrase, 0);
    assert(n.take(at) =~= lower_who);
    assert(raw.take(who.len() as int) =~= who);
    let bytes = byte_len(lower_who);
    assert(cuts_at(raw, bytes, who.len() as int));
    lemma_cut_unique(raw, bytes, who.len() as int, cut(raw, bytes)->0);
}

proof fn lemma_phrase_at(n: Seq<char>, phrase: int, from: int)
    requires
        0 <= from <= phrase < share_phrases().len(),
        contains(n, share_phrases()[phrase]),
        forall|j: int| 0 <= j < phrase ==> !contains(n, #[trigger] share_phrases()[j]),
    ensures
        phrase_in(n, from) == Some(share_phrases()[phrase]),
    decreases phrase - from,
{
    if from < phrase {
        assert(!contains(n, share_phrases()[from]));
        lemma_phrase_at(n, phrase, from + 1);
    }
}

proof fn lemma_strip(s: Seq<char>, k: nat)
    requires
        s.len() > 0 ==> s.last() != ',',
    ensures
        strip_end(s + Seq::new(k, |i: int| ','), ',') == s,
    decreases k,
{
    let c = Seq::new(k, |i: int| ',');
    if k > 0 {
        let d = Seq::new((k - 1) as nat, |i: int| ',');
        assert((s + c).drop_last() =~= s + d);
        lemma_strip(s, (k - 1) as nat);
    } else {
        assert(s + c =~= s);
    }
}

/// A presenter's name is kept as it is: only the white space around it, and
/// commas behind it, are taken away. Of white space alone no name is left.
pub proof fn law_name_is_kept(
    before: Seq<char>,
    name: Seq<char>,
    between: Seq<char>,
    commas: nat,
    after: Seq<char>,
)
    requires
        blank(before),
        blank(between),
        blank(after),
        name.len() > 0,
        !char_whitespace(name.first()),
        !char_whitespace(name.last()),
        name.last() != ',',
    ensures
        name_of(before + name + between + Seq::new(commas, |i: int| ',') + after) == Some(name),
        name_of(before) is None,
{
    let c = Seq::new(commas, |i: int| ',');
    let empty = Seq::<char>::empty();
    let s = before + name + between + c + after;
    assert(empty + name + between =~= name + between);
    law_trim_takes_white_space_only(empty, name, between);
    if commas > 0 {
        let m = name + between + c;
        assert(m.first() == name.first());
        assert(m.last() == ',');
        law_trim_takes_white_space_only(before, m, after);
        assert(before + m + after =~= s);
        let nb = name + between;
        assert(nb.last() != ',') by {
            if between.len() > 0 {
                assert(char_whitespace(between[between.len() - 1]));
                assert(nb.last() == between[between.len() - 1]);
            } else {
                assert(nb.last() == name.last());
            }
        }
        lemma_strip(nb, commas);
        assert(nb + c =~= m);
    } else {
        let blanks = between + after;
        assert forall|i: int| 0 <= i < blanks.len() implies char_whitespace(#[trigger] blanks[i]) by {
            if i < between.len() {
                assert(blanks[i] == between[i]);
            } else {
                assert(blanks[i] == after[i - between.len()]);
            }
        }
        law_trim_takes_white_space_only(before, name, blanks);
        assert(before + name + blanks =~= s);
        lemma_strip(name, 0);
        assert(name + Seq::new(0, |i: int| ',') =~= name);
        law_trim_takes_white_space_only(empty, name, empty);
        assert(empty + name + empty =~= name);
    }
    lemma_blank_trim(before);
    assert(trim(before) =~= empty);
    assert(strip_end(empty, ',') =~= empty);
    lemma_blank_trim(empty);
}

/// Of several windows the first that tells anything of a share counts, and
/// nothing is told only where no window with a tree tells anything.
pub proof fn law_first_telling_window_counts(s: Seq<WindowTree>)
    ensures
        global_mark(s) is Nothing <==> forall|n: int|
            0 <= n < s.len() && (#[trigger] s[n]).tree is Ok ==> window_mark(
                s[n].tree->Ok_0,
            ) is Nothing,
        !(global_mark(s) is Nothing) ==> exists|n: int|
            0 <= n < s.len() && (#[trigger] s[n]).tree is Ok && global_mark(s) == window_mark(
                s[n].tree->Ok_0,
            ) && forall|m: int|
                0 <= m < n && (#[trigger] s[m]).tree is Ok ==> window_mark(
                    s[m].tree->Ok_0,
                ) is Nothing,
    decreases s.len(),
{
    if s.len() > 0 {
        let rest = s.drop_first();
        assert(s[0] == s.first());
        if !(s[0].tree is Ok && !(window_mark(s[0].tree->Ok_0) is Nothing)) {
            law_first_telling_window_counts(rest);
            if global_mark(rest) is Nothing {
                assert forall|n: int| 0 <= n < s.len() && (#[trigger] s[n]).tree is Ok implies
                    window_mark(s[n].tree->Ok_0) is Nothing by {
                    if n > 0 {
                        assert(rest[n - 1] == s[n]);
                    }
                }
            } else {
                let n = choose|n: int|
                    0 <= n < rest.len() && (#[trigger] rest[n]).tree is Ok && global_mark(rest)
                        == window_mark(rest[n].tree->Ok_0) && forall|m: int|
                        0 <= m < n && (#[trigger] rest[m]).tree is Ok ==> window_mark(
                            rest[m].tree->Ok_0,
                        ) is Nothing;
                assert(s[n + 1] == rest[n]);
                assert forall|m: int| 0 <= m < n + 1 && (#[trigger] s[m]).tree is Ok implies
                    window_mark(s[m].tree->Ok_0) is Nothing by {
                    if m > 0 {
                        assert(rest[m - 1] == s[m]);
                    }
                }
            }
        }
    }
}

/// The tree of a window is that of the first window with its handle; there is
/// none only where no window has the handle, or where this one has no tree.
pub proof fn law_window_is_found_by_its_handle(s: Seq<WindowTree>, hwnd: isize)
    ensures
        match tree_of(s, hwnd) {
            Some(tree) => exists|n: int|
                0 <= n < s.len() && (#[trigger] s[n]).window.hwnd == hwnd && s[n].tree is Ok
                    && s[n].tree->Ok_0 == tree && forall|m: int|
                    0 <= m < n ==> (#[trigger] s[m]).window.hwnd != hwnd,
            None => forall|n: int|
                0 <= n < s.len() && (#[trigger] s[n]).window.hwnd == hwnd && (forall|m: int|
                    0 <= m < n ==> (#[trigger] s[m]).window.hwnd != hwnd) ==> s[n].tree is Err,
        },
    decreases s.len(),
{
    if s.len() > 0 {
        let rest = s.drop_first();
        assert(s[0] == s.first());
        if s[0].window.hwnd != hwnd {
            law_window_is_found_by_its_handle(rest, hwnd);
            match tree_of(rest, hwnd) {
                Some(tree) => {
                    let n = choose|n: int|
                        0 <= n < rest.len() && (#[trigger] rest[n]).window.hwnd == hwnd
                            && rest[n].tree is Ok && rest[n].tree->Ok_0 == tree && forall|m: int|
                            0 <= m < n ==> (#[trigger] rest[m]).window.hwnd != hwnd;
                    assert(s[n + 1] == rest[n]);
                    assert forall|m: int| 0 <= m < n + 1 implies (#[trigger] s[m]).window.hwnd
                        != hwnd by {
                        if m > 0 {
                            assert(rest[m - 1] == s[m]);
                        }
                    }
                },
                None => {
                    assert forall|n: int|
                        0 <= n < s.len() && (#[trigger] s[n]).window.hwnd == hwnd && (forall|m: int|
                            0 <= m < n ==> (#[trigger] s[m]).window.hwnd != hwnd) implies
                        s[n].tree is Err by {
                        assert(rest[n - 1] == s[n]);
                        assert forall|m: int| 0 <= m < n - 1 implies (
                        #[trigger] rest[m]).window.hwnd != hwnd by {
                            assert(rest[m] == s[m + 1]);
                        }
                    }
                },
            }
        } else if s[0].tree is Err {
            assert forall|n: int|
                0 <= n < s.len() && (#[trigger] s[n]).window.hwnd == hwnd && (forall|m: int|
                    0 <= m < n ==> (#[trigger] s[m]).window.hwnd != hwnd) implies s[n].tree is Err by {
                if n > 0 {
                    assert(s[0].window.hwnd != hwnd);
                }
            }
        }
    }
}

/// An element tells what its name and its id tell: the presenter's name is read out
/// of the name as it is, and phrases are looked for in lower case.
pub proof fn law_name_is_read_as_it_is(e: UiElement)
    ensures
        share_mark(e) == mark_of(e.name@, lowercase(e.name@), lowercase(e.automation_id@)),
{
}

/// Where no beginning of the text takes as many bytes as what stands before the
/// phrase in lower case, the name cannot be read.
pub proof fn law_name_that_cannot_be_cut_is_unreadable(
    raw: Seq<char>,
    lower_who: Seq<char>,
    phrase: int,
    lower_rest: Seq<char>,
    id: Seq<char>,
)
    requires
        0 <= phrase < 5,
        forall|k: int|
            0 <= k <= raw.len() ==> byte_len(#[trigger] raw.take(k)) != byte_len(lower_who),
        ({
            let phrases = seq![
                " is presenting"@,
                " is sharing screen"@,
                " is sharing their screen"@,
                "님이 발표 중"@,
                "님이 화면을 공유"@,
            ];
            let n = lower_who + phrases[phrase] + lower_rest;
            &&& !contains(n, "you are presenting"@)
            &&& !contains(n, "you are sharing"@)
            &&& !contains(n, "내가 발표 중"@)
            &&& !contains(n, "내가 화면을 공유"@)
            &&& forall|j: int| 0 <= j < phrase ==> !contains(n, #[trigger] phrases[j])
            &&& forall|j: int|
                0 <= j < lower_who.len() ==> #[trigger] n.skip(j).take(
                    phrases[phrase].len() as int,
                ) != phrases[phrase]
        }),
    ensures
        mark_of(
            raw,
            lower_who + seq![
                " is presenting"@,
                " is sharing screen"@,
                " is sharing their screen"@,
                "님이 발표 중"@,
                "님이 화면을 공유"@,
            ][phrase] + lower_rest,
            id,
        ) is Unreadable,
{
    let phrases = seq![
        " is presenting"@,
        " is sharing screen"@,
        " is sharing their screen"@,
        "님이 발표 중"@,
        "님이 화면을 공유"@,
    ];
    let p = phrases[phrase];
    let n = lower_who + p + lower_rest;
    let at = lower_who.len() as int;
    assert(phrases =~= share_phrases());
    assert(n.subrange(at, at + p.len()) =~= p);
    assert(matches_at(n, p, at));
    assert forall|j: int| 0 <= j < at implies !matches_at(n, p, j) by {
        if matches_at(n, p, j) {
            assert(n.skip(j).take(p.len() as int) =~= n.subrange(j, j + p.len()));
        }
    }
    assert(first_match(n, p, at));
    lemma_position(n, p, at);
    lemma_phrase_at(n, phrase, 0);
    assert(n.take(at) =~= lower_who);
    assert forall|k: int| !cuts_at(raw, byte_len(lower_who), k) by {
        if 0 <= k <= raw.len() {
            assert(byte_len(raw.take(k)) != byte_len(lower_who));
        }
    }
}

} // verus!
