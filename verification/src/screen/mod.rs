//! The picture of a meeting: what is recorded, and how a frame is made to fit
//! the video.
//!
//! The window of Teams is recorded, but while the user shares, what they share
//! is recorded instead.

use vstd::prelude::*;

use crate::screen::share_target::ShareTarget;
use crate::screen::wgc::CapturedFrame;
use crate::state::presenter::ShareState;
use crate::text::{
    char_alphanumeric, chars_of, copy_option_text, option_text, push_signed, same_text,
    signed_decimal,
};
use crate::timeline::event::TimelineEvent;

pub mod phash;
pub mod share_target;
pub mod wgc;

verus! {

// ---------------------------------------------------------------------------
// What is recorded
// ---------------------------------------------------------------------------

/// What is recorded: the window of Teams, or what the user shares.
#[derive(Debug, Clone, Copy, PartialEq, Eq, Structural)]
pub enum Source {
    Teams,
    Shared(ShareTarget),
}

/// A source as it is named in the timeline.
pub open spec fn source_text(s: Source) -> Seq<char> {
    match s {
        Source::Teams => "Teams"@,
        Source::Shared(ShareTarget::Window(h)) => "Shared(Window("@ + signed_decimal(h as int)
            + "))"@,
        Source::Shared(ShareTarget::Monitor(m)) => "Shared(Monitor("@ + signed_decimal(m as int)
            + "))"@,
    }
}

/// What the timeline is told of a new source.
pub fn describe_source(s: Source) -> (r: String)
    ensures
        r@ == "video source: "@ + source_text(s),
{
    let mut r = "video source: ".to_owned();
    match s {
        Source::Teams => {
            r.append("Teams");
        },
        Source::Shared(ShareTarget::Window(h)) => {
            r.append("Shared(Window(");
            push_signed(&mut r, h as i64);
            r.append("))");
        },
        Source::Shared(ShareTarget::Monitor(m)) => {
            r.append("Shared(Monitor(");
            push_signed(&mut r, m as i64);
            r.append("))");
        },
    }
    assert(r@ =~= "video source: "@ + source_text(s));
    r
}

/// The handle that a source is opened by.
#[derive(Debug, Clone, Copy, PartialEq, Eq, Structural)]
pub enum Handle {
    Window(isize),
    Monitor(isize),
}

/// The handle that a source is opened by.
pub fn open_handle(source: Source, teams_hwnd: isize) -> (r: Handle)
    ensures
        r == match source {
            Source::Teams => Handle::Window(teams_hwnd),
            Source::Shared(ShareTarget::Window(h)) => Handle::Window(h),
            Source::Shared(ShareTarget::Monitor(m)) => Handle::Monitor(m),
        },
{
    match source {
        Source::Teams => Handle::Window(teams_hwnd),
        Source::Shared(ShareTarget::Window(h)) => Handle::Window(h),
        Source::Shared(ShareTarget::Monitor(m)) => Handle::Monitor(m),
    }
}

/// The milliseconds between two looks at the screen.
pub const FRAME_POLL_MS: u64 = 66;

/// At every so-many-th look it is asked whether a screen is shared.
pub const SHARE_POLL_EVERY_TICKS: u32 = 15;

/// The milliseconds after which it is looked what the user shares, once they
/// have started.
pub const SETTLE_MS: u64 = 300;

/// A share that has started or ended since the last look.
#[derive(Debug)]
pub enum ShareChange {
    Started { presenter: Option<String> },
    Stopped { presenter: Option<String> },
}

/// What has changed between two looks. A share that started is reported with
/// the one who shares now, one that ended with the one who shared then.
pub open spec fn change_between(
    last: Option<ShareState>,
    now: Option<ShareState>,
) -> Option<ShareChange> {
    match (last, now) {
        (None, Some(n)) => Some(ShareChange::Started { presenter: n.presenter }),
        (Some(l), None) => Some(ShareChange::Stopped { presenter: l.presenter }),
        _ => None,
    }
}

impl ShareChange {
    /// The event that tells of the change.
    pub fn event(self, t_ms: u64, wall: String) -> (r: TimelineEvent)
        ensures
            r == match self {
                ShareChange::Started { presenter } => TimelineEvent::ShareStart {
                    t_ms,
                    wall,
                    presenter,
                },
                ShareChange::Stopped { presenter } => TimelineEvent::ShareStop {
                    t_ms,
                    wall,
                    presenter,
                },
            },
    {
        match self {
            ShareChange::Started { presenter } => TimelineEvent::ShareStart {
                t_ms,
                wall,
                presenter,
            },
            ShareChange::Stopped { presenter } => TimelineEvent::ShareStop {
                t_ms,
                wall,
                presenter,
            },
        }
    }
}

/// What is to be done about the source.
#[derive(Debug, Clone, Copy, PartialEq, Eq, Structural)]
pub enum Want {
    /// It stays.
    Stay,
    /// Go back to the window of Teams.
    Teams,
    /// The user has started to share: find out what, and go there.
    PickTarget,
}

/// What the screen worker knows from one look to the next.
pub struct ScreenWorker {
    pub source: Source,
    /// The share at the last look.
    pub last_share: Option<ShareState>,
    /// The share now, as far as it is known.
    pub now_share: Option<ShareState>,
    pub tick: u32,
}

/// The user themself shares.
pub open spec fn by_user(s: Option<ShareState>) -> bool {
    s is Some && option_text(s->0.presenter) == Some("(me)"@)
}

/// What is to be done about the source. While the user shares, what was found
/// out at the start is kept.
pub open spec fn wanted(source: Source, share: Option<ShareState>) -> Want {
    match source {
        Source::Teams => if by_user(share) {
            Want::PickTarget
        } else {
            Want::Stay
        },
        Source::Shared(_) => if by_user(share) {
            Want::Stay
        } else {
            Want::Teams
        },
    }
}

fn copy_share(s: &Option<ShareState>) -> (r: Option<ShareState>)
    ensures
        r == *s,
{
    match s {
        Some(state) => Some(ShareState { presenter: copy_option_text(&state.presenter) }),
        None => None,
    }
}

impl ScreenWorker {
    /// At first the window of Teams is recorded; `share` is what is shared then.
    pub fn new(share: Option<ShareState>) -> (r: Self)
        ensures
            r == (ScreenWorker {
                source: Source::Teams,
                last_share: None,
                now_share: share,
                tick: 0,
            }),
    {
        ScreenWorker { source: Source::Teams, last_share: None, now_share: share, tick: 0 }
    }

    /// One more look. Is it to be asked whether a screen is shared?
    pub fn next_tick(&mut self) -> (r: bool)
        ensures
            final(self).tick == (old(self).tick + 1) % 0x1_0000_0000,
            r == (final(self).tick % 15 == 0),
            final(self).source == old(self).source,
            final(self).last_share == old(self).last_share,
            final(self).now_share == old(self).now_share,
    {
        self.tick = if self.tick == u32::MAX {
            0
        } else {
            self.tick + 1
        };
        self.tick % SHARE_POLL_EVERY_TICKS == 0
    }

    /// It was asked whether a screen is shared.
    pub fn on_share_polled(&mut self, share: Option<ShareState>)
        ensures
            *final(self) == (ScreenWorker { now_share: share, ..*old(self) }),
    {
        self.now_share = share;
    }

    /// Has a share started or ended since the last look?
    pub fn share_change(&mut self) -> (r: Option<ShareChange>)
        ensures
            *final(self) == (ScreenWorker { last_share: old(self).now_share, ..*old(self) }),
            r == change_between(old(self).last_share, old(self).now_share),
    {
        let change = match (&self.last_share, &self.now_share) {
            (None, Some(now)) => Some(
                ShareChange::Started { presenter: copy_option_text(&now.presenter) },
            ),
            (Some(last), None) => Some(
                ShareChange::Stopped { presenter: copy_option_text(&last.presenter) },
            ),
            _ => None,
        };
        self.last_share = copy_share(&self.now_share);
        change
    }

    /// What is to be done about the source.
    pub fn want(&self) -> (r: Want)
        ensures
            r == wanted(self.source, self.now_share),
    {
        let mine = match &self.now_share {
            Some(s) => match &s.presenter {
                Some(p) => same_text(p.as_str(), "(me)"),
                None => false,
            },
            None => false,
        };
        match self.source {
            Source::Teams => if mine {
                Want::PickTarget
            } else {
                Want::Stay
            },
            Source::Shared(_) => if mine {
                Want::Stay
            } else {
                Want::Teams
            },
        }
    }

    /// Another source was to be opened. If that went well it is the source from
    /// now on; if not, the old one stays and is to be opened again.
    pub fn on_switched(&mut self, to: Source, opened: bool) -> (r: bool)
        ensures
            *final(self) == (ScreenWorker {
                source: switched(old(self).source, to, opened),
                ..*old(self)
            }),
            r == !opened,
    {
        if opened {
            self.source = to;
        }
        !opened
    }
}

/// The source once another one was to be opened, which went well or did not.
pub open spec fn switched(source: Source, to: Source, opened: bool) -> Source {
    if opened {
        to
    } else {
        source
    }
}

/// A look at the screen: what is shared, what the user would be found to share,
/// and whether another source could be opened.
pub struct Look {
    pub share: Option<ShareState>,
    pub target: ShareTarget,
    pub opened: bool,
}

/// The source after a number of looks.
pub open spec fn followed(source: Source, looks: Seq<Look>) -> Source
    decreases looks.len(),
{
    if looks.len() == 0 {
        source
    } else {
        let before = followed(source, looks.drop_last());
        let look = looks.last();
        match wanted(before, look.share) {
            Want::Stay => before,
            Want::Teams => switched(before, Source::Teams, look.opened),
            Want::PickTarget => switched(before, Source::Shared(look.target), look.opened),
        }
    }
}

/// What was found out when the user started to share is recorded until they
/// stop, whatever comes to the foreground meanwhile.
pub proof fn law_share_target_is_kept(target: ShareTarget, looks: Seq<Look>)
    requires
        forall|i: int| 0 <= i < looks.len() ==> by_user((#[trigger] looks[i]).share),
    ensures
        followed(Source::Shared(target), looks) == Source::Shared(target),
    decreases looks.len(),
{
    if looks.len() > 0 {
        let rest = looks.drop_last();
        assert forall|i: int| 0 <= i < rest.len() implies by_user((#[trigger] rest[i]).share) by {
            assert(rest[i] == looks[i]);
        }
        law_share_target_is_kept(target, rest);
        assert(by_user(looks[looks.len() - 1].share));
    }
}

/// Unless the user shares, the window of Teams is recorded, and is gone back to
/// as soon as it can be opened.
pub proof fn law_teams_is_recorded_otherwise(source: Source, look: Look)
    requires
        !by_user(look.share),
        look.opened,
    ensures
        followed(source, seq![look]) == Source::Teams,
{
    assert(seq![look].drop_last() =~= Seq::empty());
    reveal_with_fuel(followed, 2);
}

/// When the user starts to share, what they share is recorded as soon as it can be
/// opened; whoever else shares, and while nobody does, nothing but Teams is
/// recorded; and a source that cannot be opened takes the place of none.
pub proof fn law_users_share_is_recorded(source: Source, look: Look)
    ensures
        ({
            let mine = look.share is Some && look.share->0.presenter is Some
                && look.share->0.presenter->0@ == "(me)"@;
            &&& source == Source::Teams && mine && look.opened ==> followed(source, seq![look])
                == Source::Shared(look.target)
            &&& source == Source::Teams && !mine ==> followed(source, seq![look]) == Source::Teams
            &&& source is Shared && mine ==> followed(source, seq![look]) == source
            &&& source is Shared && !mine && look.opened ==> followed(source, seq![look])
                == Source::Teams
            &&& !look.opened ==> followed(source, seq![look]) == source
        }),
{
    assert(seq![look].drop_last() =~= Seq::empty());
    reveal_with_fuel(followed, 2);
}

/// A share that begins is reported with the one who shares, and one that ends with
/// the one who shared; nothing is reported of a share that goes on or of none.
pub proof fn law_share_changes_are_reported(last: Option<ShareState>, now: Option<ShareState>)
    ensures
        last is None && now is Some ==> change_between(last, now) == Some(
            ShareChange::Started { presenter: now->0.presenter },
        ),
        last is Some && now is None ==> change_between(last, now) == Some(
            ShareChange::Stopped { presenter: last->0.presenter },
        ),
        last is Some == now is Some ==> change_between(last, now) is None,
{
}

/// What is reported of a number of looks, the first of which follows on none.
pub open spec fn reported(looks: Seq<Option<ShareState>>) -> Seq<ShareChange>
    decreases looks.len(),
{
    if looks.len() == 0 {
        Seq::empty()
    } else {
        let last = if looks.len() >= 2 {
            looks[looks.len() - 2]
        } else {
            None
        };
        match change_between(last, looks.last()) {
            Some(change) => reported(looks.drop_last()).push(change),
            None => reported(looks.drop_last()),
        }
    }
}

/// Starts and ends of shares take turns, beginning with a start, and a share
/// runs exactly where the last report is a start.
pub proof fn law_share_reports_alternate(looks: Seq<Option<ShareState>>)
    ensures
        forall|i: int|
            0 <= i < reported(looks).len() ==> (#[trigger] reported(looks)[i] is Started <==> i % 2
                == 0),
        (looks.len() > 0 && looks.last() is Some) == (reported(looks).len() % 2 == 1),
    decreases looks.len(),
{
    if looks.len() > 0 {
        let rest = looks.drop_last();
        law_share_reports_alternate(rest);
        if looks.len() >= 2 {
            assert(rest.last() == looks[looks.len() - 2]);
        }
        let before = reported(rest);
        let now = reported(looks);
        assert forall|i: int| 0 <= i < now.len() implies (#[trigger] now[i] is Started <==> i % 2
            == 0) by {
            if i < before.len() {
                assert(now[i] == before[i]);
            }
        }
    }
}

// ---------------------------------------------------------------------------
// Frames
// ---------------------------------------------------------------------------

/// The pixel of a side of `from` pixels that is shown at `k` on a side of `to`
/// pixels.
pub open spec fn nearest(k: int, from: int, to: int) -> int {
    let at = k * from / to;
    if at < from - 1 {
        at
    } else {
        from - 1
    }
}

/// Where the pixel that is shown at `x` and `y` stands among the bytes of the
/// old picture.
pub open spec fn old_index(x: int, y: int, from: (int, int), to: (int, int)) -> int {
    (nearest(y, from.1, to.1) * from.0 + nearest(x, from.0, to.0)) * 4
}

/// A byte of the picture in another size. A picture without pixels becomes
/// black.
pub open spec fn scaled_byte(src: Seq<u8>, from: (int, int), to: (int, int), i: int) -> u8 {
    if from.0 == 0 || from.1 == 0 {
        0
    } else {
        let p = i / 4;
        src[old_index(p % to.0, p / to.0, from, to) + i % 4]
    }
}

/// A picture in another size.
pub open spec fn scaled(src: Seq<u8>, from: (int, int), to: (int, int)) -> Seq<u8> {
    Seq::new((to.0 * to.1 * 4) as nat, |i: int| scaled_byte(src, from, to, i))
}

/// A picture has every pixel that its new size shows.
pub open spec fn scalable(src: Seq<u8>, from: (int, int), to: (int, int)) -> bool {
    &&& to.0 * to.1 * 4 <= usize::MAX
    &&& from.0 > 0 && from.1 > 0 ==> forall|x: int, y: int|
        0 <= x < to.0 && 0 <= y < to.1 ==> #[trigger] old_index(x, y, from, to) + 4 <= src.len()
}

fn nearest_pixel(k: u32, from: u32, to: u32) -> (r: u32)
    requires
        k < to,
        from > 0,
    ensures
        r == nearest(k as int, from as int, to as int),
        r < from,
{
    assert(0 <= k * from <= 0xffff_ffff * 0xffff_ffff) by (nonlinear_arith)
        requires
            0 <= k <= 0xffff_ffff,
            0 <= from <= 0xffff_ffff,
    ;
    let at: u64 = (k as u64) * (from as u64) / (to as u64);
    let last: u64 = from as u64 - 1;
    if at < last {
        at as u32
    } else {
        last as u32
    }
}

/// A picture in another size: each pixel is the nearest one of the old picture,
/// so that edges stay sharp.
pub fn scale_bgra_nearest(src: &[u8], src_w: u32, src_h: u32, dst_w: u32, dst_h: u32) -> (r: Vec<
    u8,
>)
    requires
        scalable(src@, (src_w as int, src_h as int), (dst_w as int, dst_h as int)),
    ensures
        r@ == scaled(src@, (src_w as int, src_h as int), (dst_w as int, dst_h as int)),
{
    let ghost from = (src_w as int, src_h as int);
    let ghost to = (dst_w as int, dst_h as int);
    let ghost goal = scaled(src@, from, to);
    assert(0 <= dst_w * dst_h <= 0xffff_ffff * 0xffff_ffff) by (nonlinear_arith)
        requires
            0 <= dst_w <= 0xffff_ffff,
            0 <= dst_h <= 0xffff_ffff,
    ;
    let pixels: u64 = (dst_w as u64) * (dst_h as u64);
    let size: usize = src.len();
    let mut out: Vec<u8> = Vec::new();
    let mut p: u64 = 0;
    while p < pixels
        invariant
            p <= pixels,
            pixels == dst_w * dst_h,
            size == src@.len(),
            from == (src_w as int, src_h as int),
            to == (dst_w as int, dst_h as int),
            goal == scaled(src@, from, to),
            scalable(src@, from, to),
            out@.len() == 4 * p,
            forall|i: int| 0 <= i < 4 * p ==> #[trigger] out@[i] == goal[i],
        decreases pixels - p,
    {
        assert(dst_w > 0 && p / (dst_w as u64) < dst_h) by (nonlinear_arith)
            requires
                p < dst_w * dst_h,
                0 <= p,
                0 <= dst_w,
        ;
        assert(4 * p + 3 < dst_w * dst_h * 4);
        if src_w == 0 || src_h == 0 {
            out.push(0);
            out.push(0);
            out.push(0);
            out.push(0);
        } else {
            let x: u32 = (p % (dst_w as u64)) as u32;
            let y: u32 = (p / (dst_w as u64)) as u32;
            let sx: u32 = nearest_pixel(x, src_w, dst_w);
            let sy: u32 = nearest_pixel(y, src_h, dst_h);
            assert(old_index(x as int, y as int, from, to) + 4 <= src@.len());
            assert(0 <= sy * src_w) by (nonlinear_arith)
                requires
                    0 <= sy,
                    0 <= src_w,
            ;
            let i: usize = ((sy as usize) * (src_w as usize) + (sx as usize)) * 4;
            assert(i == old_index(x as int, y as int, from, to));
            out.push(src[i]);
            out.push(src[i + 1]);
            out.push(src[i + 2]);
            out.push(src[i + 3]);
        }
        assert forall|j: int| 0 <= j < 4 * (p + 1) implies #[trigger] out@[j] == goal[j] by {
            if j >= 4 * p {
                assert(j / 4 == p);
            }
        }
        p += 1;
    }
    assert(out@ =~= goal);
    out
}

/// Each pixel of a picture in another size is a pixel of the old one, byte by byte:
/// the one that lies at the same part of the width and of the height, rounded
/// down.
pub proof fn law_pixel_keeps_its_place(
    src: Seq<u8>,
    from: (int, int),
    to: (int, int),
    x: int,
    y: int,
    sx: int,
    sy: int,
    c: int,
)
    requires
        0 < from.0,
        0 < from.1,
        0 <= x < to.0,
        0 <= y < to.1,
        sx * to.0 <= x * from.0 < (sx + 1) * to.0,
        sy * to.1 <= y * from.1 < (sy + 1) * to.1,
        0 <= c < 4,
    ensures
        scaled(src, from, to).len() == to.0 * to.1 * 4,
        scaled(src, from, to)[(y * to.0 + x) * 4 + c] == src[(sy * from.0 + sx) * 4 + c],
{
    lemma_rounded_down(x, from.0, to.0, sx);
    lemma_rounded_down(y, from.1, to.1, sy);
    lemma_place_of_pixel(to, x, y, c);
    let i = (y * to.0 + x) * 4 + c;
    assert(old_index(x, y, from, to) == (sy * from.0 + sx) * 4);
    assert(scaled(src, from, to)[i] == scaled_byte(src, from, to, i));
}

proof fn lemma_rounded_down(k: int, from: int, to: int, s: int)
    requires
        0 < from,
        0 <= k < to,
        s * to <= k * from < (s + 1) * to,
    ensures
        nearest(k, from, to) == s,
{
    assert(k * from / to == s && s <= from - 1) by (nonlinear_arith)
        requires
            0 < from,
            0 <= k < to,
            s * to <= k * from < (s + 1) * to,
    ;
}

proof fn lemma_place_of_pixel(to: (int, int), x: int, y: int, c: int)
    requires
        0 <= x < to.0,
        0 <= y < to.1,
        0 <= c < 4,
    ensures
        0 <= (y * to.0 + x) * 4 + c < to.0 * to.1 * 4,
        ((y * to.0 + x) * 4 + c) / 4 == y * to.0 + x,
        ((y * to.0 + x) * 4 + c) % 4 == c,
        (y * to.0 + x) % to.0 == x,
        (y * to.0 + x) / to.0 == y,
{
    assert(0 <= y * to.0 + x < to.0 * to.1 && (y * to.0 + x) % to.0 == x && (y * to.0 + x) / to.0
        == y) by (nonlinear_arith)
        requires
            0 <= x < to.0,
            0 <= y < to.1,
    ;
}

/// A picture without pixels becomes black.
pub proof fn law_nothing_becomes_black(src: Seq<u8>, from: (int, int), to: (int, int), i: int)
    requires
        from.0 == 0 || from.1 == 0,
        0 <= i < to.0 * to.1 * 4,
    ensures
        scaled(src, from, to).len() == to.0 * to.1 * 4,
        scaled(src, from, to)[i] == 0,
{
}

/// A picture that is brought to the size that it has stays as it is.
pub proof fn law_same_size_is_unchanged(src: Seq<u8>, w: int, h: int)
    requires
        0 < w,
        0 < h,
        src.len() == w * h * 4,
    ensures
        scaled(src, (w, h), (w, h)) == src,
{
    let s = scaled(src, (w, h), (w, h));
    assert forall|i: int| 0 <= i < src.len() implies s[i] == src[i] by {
        let p = i / 4;
        let x = p % w;
        let y = p / w;
        assert(0 <= y < h && p == y * w + x) by (nonlinear_arith)
            requires
                0 <= p < w * h,
                0 < w,
                x == p % w,
                y == p / w,
        ;
        assert(x * w / w == x) by (nonlinear_arith)
            requires
                0 < w,
        ;
        assert(y * h / h == y) by (nonlinear_arith)
            requires
                0 < h,
        ;
        assert(old_index(x, y, (w, h), (w, h)) == p * 4);
    }
    assert(s =~= src);
}

/// A picture that has all its bytes can be brought to any size that fits into
/// memory.
pub proof fn law_complete_picture_is_scalable(src: Seq<u8>, from: (int, int), to: (int, int))
    requires
        0 <= from.0,
        0 <= from.1,
        src.len() >= from.0 * from.1 * 4,
        to.0 * to.1 * 4 <= usize::MAX,
    ensures
        scalable(src, from, to),
{
    if from.0 > 0 && from.1 > 0 {
        assert forall|x: int, y: int| 0 <= x < to.0 && 0 <= y < to.1 implies #[trigger] old_index(
            x,
            y,
            from,
            to,
        ) + 4 <= src.len() by {
            let row = nearest(y, from.1, to.1);
            let col = nearest(x, from.0, to.0);
            assert((row * from.0 + col) * 4 + 4 <= from.0 * from.1 * 4) by (nonlinear_arith)
                requires
                    row <= from.1 - 1,
                    col <= from.0 - 1,
                    from.0 > 0,
            ;
        }
    }
}

/// The other side of a picture that keeps its shape: its size where a side of
/// `from` pixels becomes one of `to`. A picture has at least one pixel.
pub open spec fn in_proportion(side: int, from: int, to: int) -> int {
    let size = side * to / from;
    if size < 1 {
        1
    } else {
        size
    }
}

/// The largest size of a picture that keeps its shape and fits into `to`. A
/// picture without pixels fills all.
pub open spec fn fitted(from: (int, int), to: (int, int)) -> (int, int) {
    if from.0 == 0 || from.1 == 0 {
        to
    } else if from.0 * to.1 >= from.1 * to.0 {
        (to.0, in_proportion(from.1, from.0, to.0))
    } else {
        (in_proportion(from.0, from.1, to.1), to.1)
    }
}

/// Where a side of `size` pixels begins in the middle of one of `to`.
pub open spec fn margin(size: int, to: int) -> int {
    (to - size) / 2
}

/// A byte of a picture in the middle of a larger one: that of the picture where
/// it lies, and black around it.
pub open spec fn boxed_byte(inner: Seq<u8>, size: (int, int), to: (int, int), i: int) -> u8 {
    let x = i / 4 % to.0 - margin(size.0, to.0);
    let y = i / 4 / to.0 - margin(size.1, to.1);
    if 0 <= x < size.0 && 0 <= y < size.1 {
        inner[(y * size.0 + x) * 4 + i % 4]
    } else {
        0
    }
}

/// A picture brought to another size without a change of its shape: it is made
/// as large as fits, stands in the middle, and has black bars beside it.
pub open spec fn letterboxed(src: Seq<u8>, from: (int, int), to: (int, int)) -> Seq<u8> {
    let size = fitted(from, to);
    Seq::new(
        (to.0 * to.1 * 4) as nat,
        |i: int| boxed_byte(scaled(src, from, size), size, to, i),
    )
}

proof fn lemma_in_proportion(side: int, from: int, to: int, other: int)
    requires
        0 < side,
        0 < from,
        0 < to,
        0 < other,
        side * to <= other * from,
    ensures
        1 <= in_proportion(side, from, to) <= other,
        side * to / from >= 1 ==> in_proportion(side, from, to) * from <= side * to,
        side * to < (in_proportion(side, from, to) + 1) * from,
{
    let size = side * to / from;
    assert(0 <= size <= other && size * from <= side * to && side * to < (size + 1) * from)
        by (nonlinear_arith)
        requires
            size == side * to / from,
            0 < side,
            0 < to,
            0 < from,
            side * to <= other * from,
    ;
    if size < 1 {
        assert(side * to < 2 * from) by (nonlinear_arith)
            requires
                side * to < (size + 1) * from,
                size < 1,
                0 < from,
        ;
    }
}

/// A picture in its bars fits, reaches across one side, and keeps its shape: its
/// other side is the largest number of pixels that is not too long for the shape,
/// or a single one.
pub proof fn law_letterbox_keeps_the_shape(from: (int, int), to: (int, int))
    requires
        0 < from.0,
        0 < from.1,
        0 < to.0,
        0 < to.1,
    ensures
        1 <= fitted(from, to).0 <= to.0,
        1 <= fitted(from, to).1 <= to.1,
        ({
            let size = fitted(from, to);
            ||| size.0 == to.0 && (size.1 == 1 || size.1 * from.0 <= from.1 * to.0) && from.1 * to.0
                < (size.1 + 1) * from.0
            ||| size.1 == to.1 && (size.0 == 1 || size.0 * from.1 <= from.0 * to.1) && from.0 * to.1
                < (size.0 + 1) * from.1
        }),
        from.0 * to.1 == from.1 * to.0 ==> fitted(from, to) == to,
{
    assert(to.1 * from.0 == from.0 * to.1 && to.0 * from.1 == from.1 * to.0) by (nonlinear_arith);
    if from.0 * to.1 >= from.1 * to.0 {
        lemma_in_proportion(from.1, from.0, to.0, to.1);
        if from.0 * to.1 == from.1 * to.0 {
            assert(from.1 * to.0 / from.0 == to.1) by (nonlinear_arith)
                requires
                    from.1 * to.0 == to.1 * from.0,
                    0 < from.0,
            ;
        }
    } else {
        lemma_in_proportion(from.0, from.1, to.1, to.0);
    }
}

fn other_side(side: u32, from: u32, to: u32, other: u32) -> (r: u32)
    requires
        0 < side,
        0 < from,
        0 < to,
        0 < other,
        side * to <= other * from,
    ensures
        r == in_proportion(side as int, from as int, to as int),
{
    proof {
        lemma_in_proportion(side as int, from as int, to as int, other as int);
    }
    assert(0 <= side * to <= 0xffff_ffff * 0xffff_ffff) by (nonlinear_arith)
        requires
            0 <= side <= 0xffff_ffff,
            0 <= to <= 0xffff_ffff,
    ;
    let size: u64 = (side as u64) * (to as u64) / (from as u64);
    if size < 1 {
        1
    } else {
        size as u32
    }
}

/// The largest size of a picture that keeps its shape and fits into the video.
pub fn fitted_size(width: u32, height: u32, video_w: u32, video_h: u32) -> (r: (u32, u32))
    requires
        0 < video_w,
        0 < video_h,
    ensures
        (r.0 as int, r.1 as int) == fitted(
            (width as int, height as int),
            (video_w as int, video_h as int),
        ),
{
    if width == 0 || height == 0 {
        return (video_w, video_h);
    }
    assert(0 <= width * video_h <= 0xffff_ffff * 0xffff_ffff && 0 <= height * video_w <= 0xffff_ffff
        * 0xffff_ffff) by (nonlinear_arith)
        requires
            0 <= width <= 0xffff_ffff,
            0 <= height <= 0xffff_ffff,
            0 <= video_w <= 0xffff_ffff,
            0 <= video_h <= 0xffff_ffff,
    ;
    assert(video_h * width == width * video_h && video_w * height == height * video_w)
        by (nonlinear_arith);
    if (width as u64) * (video_h as u64) >= (height as u64) * (video_w as u64) {
        (video_w, other_side(height, width, video_w, video_h))
    } else {
        (other_side(width, height, video_h, video_w), video_h)
    }
}

/// Puts a picture into the middle of a larger one that is black.
fn put_in_box(inner: &Vec<u8>, w: u32, h: u32, video_w: u32, video_h: u32) -> (r: Vec<u8>)
    requires
        w <= video_w,
        h <= video_h,
        inner@.len() == w * h * 4,
        video_w * video_h * 4 <= usize::MAX,
    ensures
        r@.len() == video_w * video_h * 4,
        forall|i: int|
            0 <= i < r@.len() ==> #[trigger] r@[i] == boxed_byte(
                inner@,
                (w as int, h as int),
                (video_w as int, video_h as int),
                i,
            ),
{
    let ghost size = (w as int, h as int);
    let ghost to = (video_w as int, video_h as int);
    assert(0 <= video_w * video_h <= 0xffff_ffff * 0xffff_ffff) by (nonlinear_arith)
        requires
            0 <= video_w <= 0xffff_ffff,
            0 <= video_h <= 0xffff_ffff,
    ;
    let left: u32 = (video_w - w) / 2;
    let top: u32 = (video_h - h) / 2;
    let pixels: u64 = (video_w as u64) * (video_h as u64);
    let bytes: usize = inner.len();
    let mut out: Vec<u8> = Vec::new();
    let mut p: u64 = 0;
    while p < pixels
        invariant
            p <= pixels,
            pixels == video_w * video_h,
            bytes == inner@.len(),
            w <= video_w,
            h <= video_h,
            left == margin(size.0, to.0),
            top == margin(size.1, to.1),
            inner@.len() == w * h * 4,
            size == (w as int, h as int),
            to == (video_w as int, video_h as int),
            out@.len() == 4 * p,
            forall|i: int|
                0 <= i < 4 * p ==> #[trigger] out@[i] == boxed_byte(inner@, size, to, i),
        decreases pixels - p,
    {
        assert(video_w > 0 && p / (video_w as u64) < video_h) by (nonlinear_arith)
            requires
                p < video_w * video_h,
                0 <= p,
                0 <= video_w,
        ;
        let x: u32 = (p % (video_w as u64)) as u32;
        let y: u32 = (p / (video_w as u64)) as u32;
        let ghost before = out@;
        if left <= x && x - left < w && top <= y && y - top < h {
            let row: u32 = y - top;
            let col: u32 = x - left;
            assert(0 <= row * w && (row * w + col) * 4 + 4 <= w * h * 4) by (nonlinear_arith)
                requires
                    0 <= row <= h - 1,
                    0 <= col <= w - 1,
                    0 <= w,
            ;
            let i: usize = ((row as usize) * (w as usize) + (col as usize)) * 4;
            out.push(inner[i]);
            out.push(inner[i + 1]);
            out.push(inner[i + 2]);
            out.push(inner[i + 3]);
        } else {
            out.push(0);
            out.push(0);
            out.push(0);
            out.push(0);
        }
        assert forall|j: int| 0 <= j < 4 * (p + 1) implies #[trigger] out@[j] == boxed_byte(
            inner@,
            size,
            to,
            j,
        ) by {
            if j < 4 * p {
                assert(out@[j] == before[j]);
            } else {
                assert(j / 4 == p);
            }
        }
        p += 1;
    }
    out
}

/// A picture is no larger than a video, neither in width nor in height.
pub open spec fn no_larger(from: (int, int), to: (int, int)) -> bool {
    from.0 <= to.0 && from.1 <= to.1
}

/// The size in which a picture is shown in a video: one that is no larger keeps
/// its shape, and a larger one fills all.
pub open spec fn shown_size(from: (int, int), to: (int, int)) -> (int, int) {
    if no_larger(from, to) {
        fitted(from, to)
    } else {
        to
    }
}

/// A frame can be brought to the size of a video: the video fits into memory,
/// and the frame has every pixel that is shown.
pub open spec fn recordable(frame: CapturedFrame, to: (int, int)) -> bool {
    let from = (frame.width as int, frame.height as int);
    &&& to.0 * to.1 * 4 <= usize::MAX
    &&& scalable(frame.bgra@, from, shown_size(from, to))
}

/// A frame that has all its bytes can be recorded in any size that fits into
/// memory.
pub proof fn law_complete_frame_is_recordable(frame: CapturedFrame, to: (int, int))
    requires
        0 <= to.0,
        0 <= to.1,
        to.0 * to.1 * 4 <= usize::MAX,
        frame.bgra@.len() >= frame.width * frame.height * 4,
    ensures
        recordable(frame, to),
{
    let from = (frame.width as int, frame.height as int);
    let size = shown_size(from, to);
    if frame.width > 0 && frame.height > 0 && no_larger(from, to) {
        law_letterbox_keeps_the_shape(from, to);
    }
    assert(size.0 * size.1 <= to.0 * to.1) by (nonlinear_arith)
        requires
            0 <= size.0 <= to.0,
            0 <= size.1 <= to.1,
    ;
    law_complete_picture_is_scalable(frame.bgra@, from, size);
}

/// The bytes that are recorded of a frame: the frame itself if it has the size
/// of the video. A smaller one is made as large as fits, with bars beside it,
/// and a larger one is brought to the size of the video.
pub open spec fn recorded(src: Seq<u8>, from: (int, int), to: (int, int)) -> Seq<u8> {
    if from == to {
        src
    } else if no_larger(from, to) {
        letterboxed(src, from, to)
    } else {
        scaled(src, from, to)
    }
}

/// A smaller picture stands in the middle of the video: to its left and right, and
/// above and below it, there are as many black pixels on either side, or one more
/// on the far side, and where it stands it is the picture in the size that fits.
pub proof fn law_picture_stands_in_the_middle(
    src: Seq<u8>,
    from: (int, int),
    to: (int, int),
    left: int,
    top: int,
    x: int,
    y: int,
    c: int,
)
    requires
        from != to,
        from.0 <= to.0,
        from.1 <= to.1,
        0 <= x < to.0,
        0 <= y < to.1,
        0 <= c < 4,
        0 <= to.0 - fitted(from, to).0 - 2 * left <= 1,
        0 <= to.1 - fitted(from, to).1 - 2 * top <= 1,
    ensures
        recorded(src, from, to).len() == to.0 * to.1 * 4,
        ({
            let size = fitted(from, to);
            let inside = left <= x < left + size.0 && top <= y < top + size.1;
            recorded(src, from, to)[(y * to.0 + x) * 4 + c] == if inside {
                scaled(src, from, size)[((y - top) * size.0 + (x - left)) * 4 + c]
            } else {
                0
            }
        }),
{
    lemma_place_of_pixel(to, x, y, c);
    let size = fitted(from, to);
    let i = (y * to.0 + x) * 4 + c;
    assert(margin(size.0, to.0) == left);
    assert(margin(size.1, to.1) == top);
    assert(letterboxed(src, from, to)[i] == boxed_byte(scaled(src, from, size), size, to, i));
}

/// A frame of the size of the video is recorded as it is, and one that is larger in
/// width or height is brought to the size of the video.
pub proof fn law_frame_fills_the_video(
    src: Seq<u8>,
    size: (int, int),
    from: (int, int),
    to: (int, int),
)
    requires
        from.0 > to.0 || from.1 > to.1,
    ensures
        recorded(src, size, size) == src,
        recorded(src, from, to) == scaled(src, from, to),
{
}

/// The bytes that are recorded of a frame.
pub fn fit_frame(frame: CapturedFrame, video_w: u32, video_h: u32) -> (r: Vec<u8>)
    requires
        (frame.width == video_w && frame.height == video_h) || recordable(
            frame,
            (video_w as int, video_h as int),
        ),
    ensures
        r@ == recorded(
            frame.bgra@,
            (frame.width as int, frame.height as int),
            (video_w as int, video_h as int),
        ),
{
    if frame.width == video_w && frame.height == video_h {
        return frame.bgra;
    }
    if frame.width > video_w || frame.height > video_h {
        return scale_bgra_nearest(
            frame.bgra.as_slice(),
            frame.width,
            frame.height,
            video_w,
            video_h,
        );
    }
    let ghost from = (frame.width as int, frame.height as int);
    let ghost to = (video_w as int, video_h as int);
    if video_w == 0 || video_h == 0 {
        let out: Vec<u8> = Vec::new();
        assert(video_w * video_h == 0) by (nonlinear_arith)
            requires
                video_w == 0 || video_h == 0,
        ;
        assert(out@ =~= letterboxed(frame.bgra@, from, to));
        return out;
    }
    let (w, h) = fitted_size(frame.width, frame.height, video_w, video_h);
    proof {
        if frame.width > 0 && frame.height > 0 {
            law_letterbox_keeps_the_shape(from, to);
        }
        assert(0 <= w * h * 4) by (nonlinear_arith)
            requires
                0 <= w,
                0 <= h,
        ;
    }
    let inner = scale_bgra_nearest(frame.bgra.as_slice(), frame.width, frame.height, w, h);
    let out = put_in_box(&inner, w, h, video_w, video_h);
    assert(out@ =~= letterboxed(frame.bgra@, from, to));
    out
}

// ---------------------------------------------------------------------------
// File names
// ---------------------------------------------------------------------------

/// The longest name that is made of a text.
pub const NAME_LIMIT: usize = 40;

/// A text that can be part of a file name: what is no letter or digit becomes
/// an underscore, and only the beginning is kept.
pub open spec fn file_name(s: Seq<char>) -> Seq<char> {
    s.take(
        if s.len() < NAME_LIMIT {
            s.len() as int
        } else {
            NAME_LIMIT as int
        },
    ).map_values(
        |c: char|
            if char_alphanumeric(c) {
                c
            } else {
                '_'
            },
    )
}

/// Of a text the first forty characters are kept, or all if it has fewer; each
/// stands where it stood, and is itself if it is a letter or digit and an
/// underscore otherwise.
pub proof fn law_file_name_keeps_letters(s: Seq<char>)
    ensures
        file_name(s).len() == if s.len() < 40 {
            s.len()
        } else {
            40
        },
        forall|i: int|
            0 <= i < file_name(s).len() ==> #[trigger] file_name(s)[i] == if char_alphanumeric(
                s[i],
            ) {
                s[i]
            } else {
                '_'
            },
{
}

/// A text that can be part of a file name.
pub fn sanitize_filename(s: &str) -> (r: String)
    ensures
        r@ == file_name(s@),
{
    let chars = chars_of(s);
    let count: usize = if chars.len() < NAME_LIMIT { chars.len() } else { NAME_LIMIT };
    let mut out = String::new();
    let mut i: usize = 0;
    while i < count
        invariant
            i <= count <= chars@.len(),
            chars@ == s@,
            count == file_name(s@).len(),
            out@ == file_name(s@).take(i as int),
        decreases count - i,
    {
        let ghost before = out@;
        let c = chars[i];
        if c.is_alphanumeric() {
            out.push(c);
        } else {
            out.push('_');
        }
        i += 1;
        assert(out@ =~= file_name(s@).take(i as int));
    }
    assert(file_name(s@).take(count as int) =~= file_name(s@));
    out
}

} // verus!
