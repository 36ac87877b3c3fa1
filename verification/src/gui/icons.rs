//! The picture of the tray icon: the mascot, with a coloured badge in the lower
//! right corner that shows the state.

use vstd::prelude::*;

use crate::picture::{decoded, load_resized};

verus! {

/// The width and the height of the tray icon.
pub const SIZE: u32 = 32;

/// A picture as red, green, blue and opacity, row by row.
#[derive(Debug)]
pub struct Icon {
    pub rgba: Vec<u8>,
    pub width: u32,
    pub height: u32,
}

/// A sample of which `alpha` parts of 255 are painted over.
pub open spec fn mixed(dst: u8, src: u8, alpha: int) -> u8 {
    ((src * alpha + dst * (255 - alpha)) / 255) as u8
}

/// A sample of which `alpha` parts of 255 are painted over.
pub fn blend(dst: u8, src: u8, alpha: u32) -> (r: u8)
    requires
        alpha <= 255,
    ensures
        r == mixed(dst, src, alpha as int),
{
    let a: u32 = src as u32;
    let b: u32 = dst as u32;
    let rest: u32 = 255 - alpha;
    assert(a * alpha <= 255 * alpha) by (nonlinear_arith)
        requires
            a <= 255,
    ;
    assert(b * rest <= 255 * rest) by (nonlinear_arith)
        requires
            b <= 255,
    ;
    ((a * alpha + b * rest) / 255) as u8
}

/// Four times the square of the distance of a pixel from the middle of the
/// badge, which lies six and a half pixels from the right and from the lower
/// edge.
pub open spec fn distance(x: int, y: int, w: int, h: int) -> int {
    (2 * x - 2 * w + 13) * (2 * x - 2 * w + 13) + (2 * y - 2 * h + 13) * (2 * y - 2 * h + 13)
}

/// The greatest number up to `k` of parts of 255 that the rim of the badge
/// covers at a distance: from four and a half to six and a half pixels the
/// badge fades out.
pub open spec fn fade(n: int, k: int) -> int
    decreases k,
{
    if k <= 0 || (3315 - 4 * k) * (3315 - 4 * k) >= 65025 * n {
        k
    } else {
        fade(n, k - 1)
    }
}

/// How many parts of 255 of a pixel the badge covers, if it covers any of it.
pub open spec fn shade(p: int, w: int, h: int) -> Option<int> {
    let n = distance(p % w, p / w, w, h);
    if n > 169 {
        None
    } else if n <= 81 {
        Some(255)
    } else {
        Some(fade(n, 255))
    }
}

/// A sample of a picture under the badge.
pub open spec fn badged(s: Seq<u8>, w: int, h: int, colour: (u8, u8, u8), i: int) -> u8 {
    let p = i / 4;
    if p >= w * h {
        s[i]
    } else {
        match shade(p, w, h) {
            None => s[i],
            Some(a) => if i % 4 == 0 {
                mixed(s[i], colour.0, a)
            } else if i % 4 == 1 {
                mixed(s[i], colour.1, a)
            } else if i % 4 == 2 {
                mixed(s[i], colour.2, a)
            } else if s[i] >= a {
                s[i]
            } else {
                a as u8
            },
        }
    }
}

proof fn lemma_fade(n: int, k: int)
    requires
        0 <= k <= 255,
    ensures
        0 <= fade(n, k) <= k,
    decreases k,
{
    if !(k <= 0 || (3315 - 4 * k) * (3315 - 4 * k) >= 65025 * n) {
        lemma_fade(n, k - 1);
    }
}

fn covered(p: u64, w: u32, h: u32) -> (r: Option<u32>)
    requires
        0 < w <= 0x80_0000,
        h <= 0x80_0000,
        p < w * h,
    ensures
        match r {
            Some(a) => shade(p as int, w as int, h as int) == Some(a as int) && a <= 255,
            None => shade(p as int, w as int, h as int) is None,
        },
{
    let width: u64 = w as u64;
    assert(p / width < h) by (nonlinear_arith)
        requires
            p < width * h,
            0 < width,
    ;
    let x: i64 = (p % width) as i64;
    let y: i64 = (p / width) as i64;
    let dx: i64 = 2 * x - 2 * (w as i64) + 13;
    let dy: i64 = 2 * y - 2 * (h as i64) + 13;
    assert(0 <= dx * dx <= 0x200_0000 * 0x200_0000) by (nonlinear_arith)
        requires
            -0x200_0000 <= dx <= 0x200_0000,
    ;
    assert(0 <= dy * dy <= 0x200_0000 * 0x200_0000) by (nonlinear_arith)
        requires
            -0x200_0000 <= dy <= 0x200_0000,
    ;
    let n: i64 = dx * dx + dy * dy;
    assert(n == distance(p as int % w as int, p as int / w as int, w as int, h as int));
    if n > 169 {
        return None;
    }
    if n <= 81 {
        return Some(255);
    }
    let mut k: i64 = 255;
    loop
        invariant
            0 <= k <= 255,
            81 < n <= 169,
            fade(n as int, 255) == fade(n as int, k as int),
        ensures
            0 <= k <= 255,
            fade(n as int, 255) == k,
        decreases k,
    {
        let side: i64 = 3315 - 4 * k;
        assert(0 <= side * side <= 3315 * 3315) by (nonlinear_arith)
            requires
                0 <= side <= 3315,
        ;
        if k <= 0 || side * side >= 65025 * n {
            break ;
        }
        k -= 1;
    }
    Some(k as u32)
}

/// Paints a badge of the colour given into a picture. Pixels that the badge
/// does not cover stay as they are.
pub fn badge(rgba: &mut Vec<u8>, w: u32, h: u32, r: u8, g: u8, b: u8)
    requires
        w <= 0x80_0000,
        h <= 0x80_0000,
        forall|p: int|
            0 <= p < w * h && #[trigger] shade(p, w as int, h as int) is Some ==> 4 * p + 3 < old(
                rgba,
            )@.len() && 4 * p <= u32::MAX,
    ensures
        final(rgba)@.len() == old(rgba)@.len(),
        forall|i: int|
            0 <= i < old(rgba)@.len() ==> #[trigger] final(rgba)@[i] == badged(
                old(rgba)@,
                w as int,
                h as int,
                (r, g, b),
                i,
            ),
{
    let ghost s = rgba@;
    let ghost colour = (r, g, b);
    assert(0 <= w * h <= 0x80_0000 * 0x80_0000) by (nonlinear_arith)
        requires
            0 <= w <= 0x80_0000,
            0 <= h <= 0x80_0000,
    ;
    let total: u64 = (w as u64) * (h as u64);
    let mut p: u64 = 0;
    while p < total
        invariant
            p <= total,
            total == w * h,
            w <= 0x80_0000,
            h <= 0x80_0000,
            colour == (r, g, b),
            s == old(rgba)@,
            rgba@.len() == s.len(),
            forall|q: int|
                0 <= q < w * h && #[trigger] shade(q, w as int, h as int) is Some ==> 4 * q + 3
                    < s.len() && 4 * q <= u32::MAX,
            forall|i: int|
                0 <= i < s.len() && i < 4 * p ==> #[trigger] rgba@[i] == badged(
                    s,
                    w as int,
                    h as int,
                    colour,
                    i,
                ),
            forall|i: int| 4 * p <= i < s.len() ==> #[trigger] rgba@[i] == s[i],
        decreases total - p,
    {
        assert(w > 0) by (nonlinear_arith)
            requires
                p < total,
                total == w * h,
                0 <= p,
                0 <= w,
        ;
        let ghost before = rgba@;
        match covered(p, w, h) {
            Some(a) => {
                assert(shade(p as int, w as int, h as int) is Some);
                let i: usize = (p as usize) * 4;
                rgba.set(i, blend(rgba[i], r, a));
                rgba.set(i + 1, blend(rgba[i + 1], g, a));
                rgba.set(i + 2, blend(rgba[i + 2], b, a));
                if rgba[i + 3] < a as u8 {
                    rgba.set(i + 3, a as u8);
                }
                assert forall|j: int| 0 <= j < s.len() && j < 4 * (p + 1) implies #[trigger] rgba@[j]
                    == badged(s, w as int, h as int, colour, j) by {
                    if j < 4 * p {
                        assert(rgba@[j] == before[j]);
                    } else {
                        assert(j / 4 == p);
                        assert(before[j] == s[j]);
                    }
                }
            },
            None => {
                assert forall|j: int| 0 <= j < s.len() && j < 4 * (p + 1) implies #[trigger] rgba@[j]
                    == badged(s, w as int, h as int, colour, j) by {
                    if j >= 4 * p {
                        assert(j / 4 == p);
                    }
                }
            },
        }
        p += 1;
    }
    assert forall|i: int| 0 <= i < s.len() implies #[trigger] rgba@[i] == badged(
        s,
        w as int,
        h as int,
        colour,
        i,
    ) by {
        if i >= 4 * p {
            assert(i / 4 >= p);
        }
    }
}

/// A picture of the size of the tray icon that shows what a file holds: where
/// the file's own picture has that size, it is that picture.
pub open spec fn shows(icon: Icon, file: Seq<u8>) -> bool {
    &&& icon.width == SIZE && icon.height == SIZE
    &&& icon.rgba@.len() == 4 * SIZE * SIZE
    &&& match decoded(file) {
        Some((rgba, w, h)) => w == SIZE && h == SIZE ==> icon.rgba@ == rgba,
        None => false,
    }
}

/// The icon without a badge: no meeting. None if the file holds no picture.
pub fn idle_icon(mascot_png: &[u8]) -> (r: Option<Icon>)
    ensures
        match r {
            Some(icon) => shows(icon, mascot_png@),
            None => decoded(mascot_png@) is None,
        },
{
    match load_resized(mascot_png, SIZE, SIZE) {
        Some(rgba) => Some(Icon { rgba, width: SIZE, height: SIZE }),
        None => None,
    }
}

/// The icon with a badge of the colour given.
pub open spec fn with_badge(base: Icon, colour: (u8, u8, u8)) -> Seq<u8> {
    Seq::new(
        base.rgba@.len(),
        |i: int| badged(base.rgba@, base.width as int, base.height as int, colour, i),
    )
}

/// Puts a badge on an icon.
pub fn put_badge(base: Icon, r: u8, g: u8, b: u8) -> (icon: Icon)
    requires
        base.width == SIZE,
        base.height == SIZE,
        base.rgba@.len() == 4 * SIZE * SIZE,
    ensures
        icon.width == base.width,
        icon.height == base.height,
        icon.rgba@ == with_badge(base, (r, g, b)),
{
    let width: u32 = base.width;
    let height: u32 = base.height;
    let mut rgba = base.rgba;
    badge(&mut rgba, width, height, r, g, b);
    assert(rgba@ =~= with_badge(base, (r, g, b)));
    Icon { rgba, width, height }
}

/// The icon with an amber badge: a meeting is there, and is not recorded.
pub fn detected_icon(mascot_png: &[u8]) -> (r: Option<Icon>)
    ensures
        match r {
            Some(icon) => exists|base: Icon| #[trigger]
                shows(base, mascot_png@) && icon.rgba@ == with_badge(base, (0xE0, 0xA8, 0x00))
                    && icon.width == SIZE && icon.height == SIZE,
            None => decoded(mascot_png@) is None,
        },
{
    match idle_icon(mascot_png) {
        Some(base) => {
            let icon = put_badge(base, 0xE0, 0xA8, 0x00);
            assert(shows(base, mascot_png@));
            Some(icon)
        },
        None => None,
    }
}

/// The icon with a red badge: a recording runs.
pub fn recording_icon(mascot_png: &[u8]) -> (r: Option<Icon>)
    ensures
        match r {
            Some(icon) => exists|base: Icon| #[trigger]
                shows(base, mascot_png@) && icon.rgba@ == with_badge(base, (0xCC, 0x20, 0x20))
                    && icon.width == SIZE && icon.height == SIZE,
            None => decoded(mascot_png@) is None,
        },
{
    match idle_icon(mascot_png) {
        Some(base) => {
            let icon = put_badge(base, 0xCC, 0x20, 0x20);
            assert(shows(base, mascot_png@));
            Some(icon)
        },
        None => None,
    }
}

/// The badge is a disc in the lower right corner. A pixel whose middle lies within
/// four and a half pixels of the middle of the badge has the colour of the badge; one
/// that lies more than six and a half pixels away stays as it is.
pub proof fn law_badge_is_a_disc(base: Icon, colour: (u8, u8, u8), x: int, y: int, c: int)
    requires
        0 <= x < base.width,
        0 <= y < base.height,
        0 <= c < 4,
        base.rgba@.len() == 4 * base.width * base.height,
    ensures
        ({
            let right = 2 * (base.width - x) - 13;
            let low = 2 * (base.height - y) - 13;
            let far = right * right + low * low;
            let i = (y * base.width + x) * 4 + c;
            &&& with_badge(base, colour).len() == base.rgba@.len()
            &&& far > 169 ==> with_badge(base, colour)[i] == base.rgba@[i]
            &&& far <= 81 && c == 0 ==> with_badge(base, colour)[i] == colour.0
            &&& far <= 81 && c == 1 ==> with_badge(base, colour)[i] == colour.1
            &&& far <= 81 && c == 2 ==> with_badge(base, colour)[i] == colour.2
            &&& far <= 81 && c == 3 ==> with_badge(base, colour)[i] == 255
        }),
{
    let w = base.width as int;
    let h = base.height as int;
    let p = y * w + x;
    let i = p * 4 + c;
    assert(0 <= p < w * h && p % w == x && p / w == y) by (nonlinear_arith)
        requires
            p == y * w + x,
            0 <= x < w,
            0 <= y < h,
    ;
    assert(4 * base.width * base.height == 4 * (w * h)) by (nonlinear_arith)
        requires
            w == base.width,
            h == base.height,
    ;
    assert(i / 4 == p && i % 4 == c);
    let right = 2 * (w - x) - 13;
    let low = 2 * (h - y) - 13;
    assert(distance(x, y, w, h) == right * right + low * low) by (nonlinear_arith)
        requires
            right == 2 * (w - x) - 13,
            low == 2 * (h - y) - 13,
            distance(x, y, w, h) == (2 * x - 2 * w + 13) * (2 * x - 2 * w + 13) + (2 * y - 2 * h
                + 13) * (2 * y - 2 * h + 13),
    ;
    assert(with_badge(base, colour)[i] == badged(base.rgba@, w, h, colour, i));
    law_paint_covers(base.rgba@[i], colour.0, 255);
    law_paint_covers(base.rgba@[i], colour.1, 255);
    law_paint_covers(base.rgba@[i], colour.2, 255);
}

proof fn lemma_greatest_fade(n: int, k: int, j: int)
    requires
        0 <= k <= 255,
    ensures
        0 <= fade(n, k) <= k,
        fade(n, k) > 0 ==> (3315 - 4 * fade(n, k)) * (3315 - 4 * fade(n, k)) >= 65025 * n,
        fade(n, k) < j <= k ==> (3315 - 4 * j) * (3315 - 4 * j) < 65025 * n,
    decreases k,
{
    if !(k <= 0 || (3315 - 4 * k) * (3315 - 4 * k) >= 65025 * n) {
        lemma_greatest_fade(n, k - 1, j);
    }
}

/// At the rim the badge fades out: of a pixel in between it covers as many parts of
/// 255 as the distance to the outer edge, of two pixels, leaves, rounded down.
pub proof fn law_badge_fades_out(p: int, w: int, h: int, j: int)
    requires
        81 < distance(p % w, p / w, w, h) <= 169,
    ensures
        shade(p, w, h) is Some,
        ({
            let a = shade(p, w, h)->0;
            let n = distance(p % w, p / w, w, h);
            &&& 0 <= a <= 255
            &&& a > 0 ==> (3315 - 4 * a) * (3315 - 4 * a) >= 65025 * n
            &&& a < j <= 255 ==> (3315 - 4 * j) * (3315 - 4 * j) < 65025 * n
        }),
{
    lemma_greatest_fade(distance(p % w, p / w, w, h), 255, j);
}

/// A sample that is painted over lies between the old one and the colour, and is
/// the colour where all of it is painted over and the old one where nothing is.
pub proof fn law_paint_covers(dst: u8, src: u8, alpha: int)
    requires
        0 <= alpha <= 255,
    ensures
        mixed(dst, src, 255) == src,
        mixed(dst, src, 0) == dst,
        mixed(dst, src, alpha) * 255 <= src * alpha + dst * (255 - alpha) < (mixed(dst, src, alpha)
            + 1) * 255,
{
    let total = src * alpha + dst * (255 - alpha);
    assert(0 <= total <= 255 * 255) by (nonlinear_arith)
        requires
            total == src * alpha + dst * (255 - alpha),
            0 <= src <= 255,
            0 <= dst <= 255,
            0 <= alpha <= 255,
    ;
}

/// A tray icon has thirty-two pixels each way and four samples for each pixel, and is
/// the picture of the file where that has this size.
pub proof fn law_icon_has_its_size(icon: Icon, file: Seq<u8>)
    requires
        shows(icon, file),
    ensures
        icon.width == 32,
        icon.height == 32,
        icon.rgba@.len() == 4096,
        decoded(file) is Some,
        match decoded(file) {
            Some((rgba, w, h)) => w == 32 && h == 32 ==> icon.rgba@ == rgba,
            None => true,
        },
{
}

} // verus!
