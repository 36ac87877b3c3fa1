//! A fingerprint of a picture, by which pictures are told apart.
//!
//! The picture is sampled at eight by eight points; a point that is brighter
//! than the mean of all points sets a bit. How many bits differ tells how much
//! two pictures differ: a few while people talk, more when a slide changes.

use vstd::arithmetic::power2::{lemma2_to64, lemma_pow2_unfold, pow2};
use vstd::prelude::*;

use crate::picture::{held_rgba, held_size, image_of};

verus! {

// ---------------------------------------------------------------------------
// The hash
// ---------------------------------------------------------------------------

/// How far apart numbers of twenty-four binary digits lie about `n`.
pub open spec fn spacing(n: int) -> int
    decreases n,
{
    if n < 0x100_0000 {
        1
    } else {
        2 * spacing(n / 2)
    }
}

/// The number of twenty-four binary digits that is nearest to `n`; of two that
/// are equally near, the even one. Sample points are computed with so many
/// digits.
pub open spec fn rounded(n: int) -> int {
    let s = spacing(n);
    let q = n / s;
    let r = n % s;
    if 2 * r < s || (2 * r == s && q % 2 == 0) {
        q * s
    } else {
        (q + 1) * s
    }
}

/// The position of sample point `k` of eight along a side: the middle of the
/// eighth, but within the side.
pub open spec fn sample_at(k: int, side: int) -> int {
    let middle = rounded((2 * k + 1) * rounded(side)) / 16;
    if middle < side - 1 {
        middle
    } else {
        side - 1
    }
}

/// Where the sample point `k` of sixty-four stands among the bytes.
pub open spec fn sample_index(k: int, width: int, height: int) -> int {
    (sample_at(k / 8, height) * width + sample_at(k % 8, width)) * 4
}

/// The brightness of a colour.
pub open spec fn luma(b: int, g: int, r: int) -> int {
    (2126 * r + 7152 * g + 722 * b) / 10000
}

/// The brightness at a sample point.
pub open spec fn brightness(bgra: Seq<u8>, width: int, height: int, k: int) -> int {
    let i = sample_index(k, width, height);
    luma(bgra[i] as int, bgra[i + 1] as int, bgra[i + 2] as int)
}

/// The brightness at all sample points.
pub open spec fn brightnesses(bgra: Seq<u8>, width: int, height: int) -> Seq<int> {
    Seq::new(64, |k: int| brightness(bgra, width, height, k))
}

/// The sum of numbers.
pub open spec fn total(s: Seq<int>) -> int
    decreases s.len(),
{
    if s.len() == 0 {
        0
    } else {
        total(s.drop_last()) + s.last()
    }
}

/// The number whose binary digits are given, the lowest first.
pub open spec fn binary(s: Seq<bool>) -> int
    decreases s.len(),
{
    if s.len() == 0 {
        0
    } else {
        2 * binary(s.drop_first()) + if s.first() {
            1int
        } else {
            0int
        }
    }
}

/// Which sample points are brighter than the mean of all.
pub open spec fn bright(s: Seq<int>) -> Seq<bool> {
    Seq::new(s.len(), |k: int| s[k] > total(s) / 64)
}

/// A picture that is not empty and has all its bytes.
pub open spec fn complete(bgra: Seq<u8>, width: int, height: int) -> bool {
    width > 0 && height > 0 && bgra.len() >= width * height * 4
}

/// The hash of a picture; zero for one that is empty or not complete.
pub open spec fn hash_of(bgra: Seq<u8>, width: int, height: int) -> int {
    if complete(bgra, width, height) {
        binary(bright(brightnesses(bgra, width, height)))
    } else {
        0
    }
}

proof fn lemma_spacing(n: int)
    requires
        0 <= n,
    ensures
        1 <= spacing(n),
        n >= 1 ==> spacing(n) <= n,
    decreases n,
{
    if n >= 0x100_0000 {
        lemma_spacing(n / 2);
    }
}

proof fn lemma_binary_bound(s: Seq<bool>)
    ensures
        0 <= binary(s) < pow2(s.len()),
    decreases s.len(),
{
    if s.len() == 0 {
        lemma2_to64();
    } else {
        lemma_binary_bound(s.drop_first());
        lemma_pow2_unfold(s.len());
    }
}

fn round24(n: u64) -> (r: u64)
    requires
        n < 0x100_0000_0000,
    ensures
        r == rounded(n as int),
        r <= 2 * n + 1,
{
    let mut s: u64 = 1;
    let mut m: u64 = n;
    while m >= 0x100_0000
        invariant
            spacing(n as int) == s * spacing(m as int),
            1 <= s,
            s * m <= n,
            n < 0x100_0000_0000,
        decreases m,
    {
        assert(s <= n) by (nonlinear_arith)
            requires
                s * m <= n,
                m >= 1,
                s >= 1,
        ;
        assert((2 * s) * (m / 2) <= s * m && s * (2 * spacing(m as int / 2)) == (2 * s) * spacing(
            m as int / 2,
        )) by (nonlinear_arith)
            requires
                s >= 1,
        ;
        s = 2 * s;
        m = m / 2;
    }
    assert(spacing(n as int) == s) by {
        assert(s * 1 == s);
    }
    proof {
        lemma_spacing(n as int);
    }
    let q: u64 = n / s;
    let rest: u64 = n % s;
    proof {
        vstd::arithmetic::div_mod::lemma_fundamental_div_mod(n as int, s as int);
        assert(q * s <= n && (q + 1) * s == q * s + s) by (nonlinear_arith)
            requires
                n == s * q + rest,
                0 <= rest,
        ;
    }
    if 2 * rest < s || (2 * rest == s && q % 2 == 0) {
        q * s
    } else {
        (q + 1) * s
    }
}

fn sample_point(k: u64, side: u32) -> (r: u32)
    requires
        k < 8,
        side > 0,
    ensures
        r == sample_at(k as int, side as int),
        r < side,
{
    let near: u64 = round24(side as u64);
    assert((2 * k + 1) * near <= 15 * near) by (nonlinear_arith)
        requires
            k < 8,
            near >= 0,
    ;
    let scaled: u64 = (2 * k + 1) * near;
    let middle: u64 = round24(scaled) / 16;
    let last: u64 = side as u64 - 1;
    if middle < last {
        middle as u32
    } else {
        last as u32
    }
}

fn brightness_at(bgra: &[u8], width: u32, height: u32, k: u64) -> (r: u32)
    requires
        k < 64,
        complete(bgra@, width as int, height as int),
        sample_index(k as int, width as int, height as int) <= u32::MAX,
    ensures
        r == brightness(bgra@, width as int, height as int, k as int),
        r <= 255,
{
    let row: u32 = sample_point(k / 8, height);
    let col: u32 = sample_point(k % 8, width);
    assert(0 <= row * width + col && (row * width + col) * 4 + 3 < width * height * 4)
        by (nonlinear_arith)
        requires
            0 <= row < height,
            0 <= col < width,
    ;
    assert(0 <= row * width <= u32::MAX) by (nonlinear_arith)
        requires
            0 <= row,
            0 <= width,
            (row * width + col) * 4 <= u32::MAX,
            0 <= col,
    ;
    let i: usize = ((row * width + col) * 4) as usize;
    let b: u32 = bgra[i] as u32;
    let g: u32 = bgra[i + 1] as u32;
    let r: u32 = bgra[i + 2] as u32;
    (2126 * r + 7152 * g + 722 * b) / 10000
}

/// The hash of a picture. Where its sample points stand must be told in
/// thirty-two bits.
pub fn ahash64(bgra: &[u8], width: u32, height: u32) -> (r: u64)
    requires
        complete(bgra@, width as int, height as int) ==> forall|k: int|
            0 <= k < 64 ==> #[trigger] sample_index(k, width as int, height as int) <= u32::MAX,
    ensures
        r == hash_of(bgra@, width as int, height as int),
{
    if width == 0 || height == 0 {
        return 0;
    }
    assert(0 <= width * height <= 0xffff_ffff * 0xffff_ffff) by (nonlinear_arith)
        requires
            0 <= width <= 0xffff_ffff,
            0 <= height <= 0xffff_ffff,
    ;
    if (bgra.len() as u128) < (width as u128) * (height as u128) * 4 {
        return 0;
    }
    let ghost all = brightnesses(bgra@, width as int, height as int);
    let mut samples: Vec<u32> = Vec::new();
    let mut sum: u32 = 0;
    let mut k: usize = 0;
    assert(all.take(0) =~= Seq::empty());
    while k < 64
        invariant
            k <= 64,
            complete(bgra@, width as int, height as int),
            forall|j: int|
                0 <= j < 64 ==> #[trigger] sample_index(j, width as int, height as int)
                    <= u32::MAX,
            all == brightnesses(bgra@, width as int, height as int),
            samples@.len() == k,
            forall|j: int| 0 <= j < k ==> #[trigger] samples@[j] == all[j],
            sum == total(all.take(k as int)),
            sum <= 255 * k,
        decreases 64 - k,
    {
        assert(sample_index(k as int, width as int, height as int) <= u32::MAX);
        let y: u32 = brightness_at(bgra, width, height, k as u64);
        assert(all.take(k + 1).drop_last() =~= all.take(k as int));
        assert(all.take(k + 1).last() == y);
        sum = sum + y;
        samples.push(y);
        k += 1;
    }
    assert(all.take(64) =~= all);
    let mean: u32 = sum / 64;
    let ghost flags = bright(all);
    let mut h: u64 = 0;
    let mut j: usize = 64;
    assert(flags.skip(64) =~= Seq::empty());
    while j > 0
        invariant
            j <= 64,
            samples@.len() == 64,
            all.len() == 64,
            flags == bright(all),
            mean == total(all) / 64,
            forall|i: int| 0 <= i < 64 ==> #[trigger] samples@[i] == all[i],
            h == binary(flags.skip(j as int)),
        decreases j,
    {
        proof {
            let rest = flags.skip(j as int);
            lemma_binary_bound(flags.skip(j - 1));
            lemma_binary_bound(rest);
            lemma2_to64();
            assert(flags.skip(j - 1).drop_first() =~= rest);
            assert(flags.skip(j - 1).first() == flags[j - 1]);
            lemma_pow2_grows(flags.skip(j - 1).len(), 64);
        }
        let bit: u64 = if samples[j - 1] > mean { 1 } else { 0 };
        h = 2 * h + bit;
        j -= 1;
    }
    assert(flags.skip(0) =~= flags);
    h
}

proof fn lemma_pow2_grows(a: nat, b: nat)
    requires
        a <= b,
    ensures
        pow2(a) <= pow2(b),
    decreases b - a,
{
    if a < b {
        lemma_pow2_grows(a, (b - 1) as nat);
        lemma_pow2_unfold(b);
    }
}

proof fn lemma_binary_digit(s: Seq<bool>, k: nat)
    requires
        k < s.len(),
    ensures
        (binary(s) / pow2(k) as int) % 2 == if s[k as int] {
            1int
        } else {
            0int
        },
    decreases k,
{
    let rest = binary(s.drop_first());
    lemma_binary_bound(s.drop_first());
    if k == 0 {
        lemma2_to64();
        assert(s.first() == s[0]);
    } else {
        let d = s.drop_first();
        lemma_binary_digit(d, (k - 1) as nat);
        assert(d[k - 1] == s[k as int]);
        lemma_pow2_unfold(k);
        let p = pow2((k - 1) as nat) as int;
        vstd::arithmetic::power2::lemma_pow2_pos((k - 1) as nat);
        let b: int = if s.first() { 1 } else { 0 };
        assert((2 * rest + b) / (2 * p) == rest / p) by {
            vstd::arithmetic::div_mod::lemma_div_denominator(2 * rest + b, 2, p);
            assert((2 * rest + b) / 2 == rest);
        }
    }
}

proof fn lemma_total_is_sum(s: Seq<int>)
    ensures
        total(s) == s.fold_left(0, |sum: int, y: int| sum + y),
    decreases s.len(),
{
    reveal(Seq::fold_left);
    if s.len() > 0 {
        lemma_total_is_sum(s.drop_last());
    }
}

proof fn lemma_plain_sample(k: int, side: int)
    requires
        0 <= k < 8,
        0 < side < 0x10_0000,
    ensures
        sample_at(k, side) == (2 * k + 1) * side / 16,
        0 <= sample_at(k, side) < side,
{
    let n = (2 * k + 1) * side;
    assert(0 < n <= 15 * side) by (nonlinear_arith)
        requires
            n == (2 * k + 1) * side,
            0 <= k < 8,
            0 < side,
    ;
    assert(spacing(side) == 1 && spacing(n) == 1);
    assert(rounded(side) == side && rounded(n) == n) by (nonlinear_arith)
        requires
            spacing(side) == 1,
            spacing(n) == 1,
            rounded(side) == (if 2 * (side % 1) < 1 || (2 * (side % 1) == 1 && side / 1 % 2 == 0) {
                side / 1 * 1
            } else {
                (side / 1 + 1) * 1
            }),
            rounded(n) == (if 2 * (n % 1) < 1 || (2 * (n % 1) == 1 && n / 1 % 2 == 0) {
                n / 1 * 1
            } else {
                (n / 1 + 1) * 1
            }),
    ;
}

/// Each of the sixty-four bits tells whether its sample point is brighter than the
/// mean of all. The points stand in the middle of eight by eight parts of the
/// picture, row by row; the brightness of a point weighs red, green and blue. A
/// picture that is empty or not complete has no bit set.
pub proof fn law_each_bit_tells_of_its_point(bgra: Seq<u8>, width: int, height: int, k: nat)
    requires
        width < 0x10_0000,
        height < 0x10_0000,
        k < 64,
    ensures
        width <= 0 || height <= 0 || bgra.len() < width * height * 4 ==> hash_of(
            bgra,
            width,
            height,
        ) == 0,
        width > 0 && height > 0 && bgra.len() >= width * height * 4 ==> {
            let light = |j: int|
                {
                    let x = (2 * (j % 8) + 1) * width / 16;
                    let y = (2 * (j / 8) + 1) * height / 16;
                    let i = (y * width + x) * 4;
                    (2126 * bgra[i + 2] + 7152 * bgra[i + 1] + 722 * bgra[i]) / 10000
                };
            let mean = Seq::new(64, light).fold_left(0, |sum: int, y: int| sum + y) / 64;
            (hash_of(bgra, width, height) / pow2(k) as int) % 2 == if light(k as int) > mean {
                1int
            } else {
                0int
            }
        },
{
    if width > 0 && height > 0 && bgra.len() >= width * height * 4 {
        let light = |j: int|
            {
                let x = (2 * (j % 8) + 1) * width / 16;
                let y = (2 * (j / 8) + 1) * height / 16;
                let i = (y * width + x) * 4;
                (2126 * bgra[i + 2] + 7152 * bgra[i + 1] + 722 * bgra[i]) / 10000
            };
        let all = brightnesses(bgra, width, height);
        assert forall|j: int| 0 <= j < 64 implies #[trigger] all[j] == light(j) by {
            lemma_plain_sample(j / 8, height);
            lemma_plain_sample(j % 8, width);
        }
        assert(all =~= Seq::new(64, light));
        lemma_total_is_sum(all);
        lemma_binary_digit(bright(all), k);
        assert(bright(all)[k as int] == (all[k as int] > total(all) / 64));
    }
}

// ---------------------------------------------------------------------------
// How much two hashes differ
// ---------------------------------------------------------------------------

/// In how many binary digits two numbers differ.
pub open spec fn differing(a: nat, b: nat) -> nat
    decreases a + b,
{
    if a == 0 && b == 0 {
        0
    } else {
        differing(a / 2, b / 2) + if a % 2 == b % 2 {
            0nat
        } else {
            1nat
        }
    }
}

/// In how many bits two hashes differ.
pub fn hamming(a: u64, b: u64) -> (r: u32)
    ensures
        r == differing(a as nat, b as nat),
        r <= 64,
{
    let mut x: u64 = a;
    let mut y: u64 = b;
    let mut count: u32 = 0;
    let mut steps: u32 = 0;
    proof {
        lemma2_to64();
    }
    while x != 0 || y != 0
        invariant
            count <= steps <= 64,
            x < pow2((64 - steps) as nat),
            y < pow2((64 - steps) as nat),
            count + differing(x as nat, y as nat) == differing(a as nat, b as nat),
        decreases x + y,
    {
        proof {
            lemma2_to64();
            if steps < 64 {
                lemma_pow2_unfold((64 - steps) as nat);
            }
        }
        if x % 2 != y % 2 {
            count += 1;
        }
        x = x / 2;
        y = y / 2;
        steps += 1;
    }
    count
}

/// The number of differing bits is a distance: it is zero exactly between
/// equal hashes, is the same both ways, and is not shortened by a detour.
pub proof fn law_hamming_is_a_distance(a: nat, b: nat, c: nat)
    ensures
        differing(a, b) == 0 <==> a == b,
        differing(a, b) == differing(b, a),
        differing(a, c) <= differing(a, b) + differing(b, c),
    decreases a + b + c,
{
    if a > 0 || b > 0 || c > 0 {
        law_hamming_is_a_distance(a / 2, b / 2, c / 2);
    }
}

/// The bits in which two numbers differ are counted one by one: a further bit at
/// the end of both adds one exactly where it is not the same.
pub proof fn law_every_bit_counts(a: nat, b: nat, x: nat, y: nat)
    requires
        x < 2,
        y < 2,
    ensures
        differing(0, 0) == 0,
        differing(2 * a + x, 2 * b + y) == differing(a, b) + if x == y {
            0nat
        } else {
            1nat
        },
{
    let m = 2 * a + x;
    let n = 2 * b + y;
    assert(m / 2 == a && n / 2 == b && m % 2 == x && n % 2 == y);
}

// ---------------------------------------------------------------------------
// Pictures to keep
// ---------------------------------------------------------------------------

/// The samples of a picture with red and blue exchanged.
pub open spec fn swapped(s: Seq<u8>) -> Seq<u8> {
    Seq::new(
        s.len(),
        |i: int|
            if i % 4 == 0 {
                s[i + 2]
            } else if i % 4 == 2 {
                s[i - 2]
            } else {
                s[i]
            },
    )
}

/// Exchanging red and blue twice changes nothing.
pub proof fn law_swap_undoes_itself(s: Seq<u8>)
    requires
        s.len() % 4 == 0,
    ensures
        swapped(swapped(s)) == s,
{
    assert(swapped(swapped(s)) =~= s);
}

/// The samples of a picture with red and blue exchanged.
pub fn swap_red_and_blue(bgra: &[u8]) -> (r: Vec<u8>)
    requires
        bgra@.len() % 4 == 0,
    ensures
        r@ == swapped(bgra@),
{
    let size: usize = bgra.len();
    let mut out: Vec<u8> = Vec::new();
    let mut i: usize = 0;
    while i < size
        invariant
            i <= size,
            size == bgra@.len(),
            size % 4 == 0,
            i % 4 == 0,
            out@.len() == i,
            forall|j: int| 0 <= j < i ==> #[trigger] out@[j] == swapped(bgra@)[j],
        decreases size - i,
    {
        out.push(bgra[i + 2]);
        out.push(bgra[i + 1]);
        out.push(bgra[i]);
        out.push(bgra[i + 3]);
        i += 4;
    }
    assert(out@ =~= swapped(bgra@));
    out
}

/// The picture that is kept of a frame; none if the frame has too few bytes.
pub fn to_image(bgra: &[u8], width: u32, height: u32) -> (r: Option<image::DynamicImage>)
    requires
        bgra@.len() % 4 == 0,
    ensures
        r is Some <==> 4 * width * height <= bgra@.len(),
        r is Some ==> held_rgba(r->0) == swapped(bgra@) && held_size(r->0) == (width, height),
{
    image_of(width, height, swap_red_and_blue(bgra))
}

/// Of each pixel the first and the third sample change places, and the others stay.
pub proof fn law_red_and_blue_change_places(s: Seq<u8>, p: int)
    requires
        0 <= p,
        4 * p + 3 < s.len(),
    ensures
        swapped(s).len() == s.len(),
        swapped(s)[4 * p] == s[4 * p + 2],
        swapped(s)[4 * p + 1] == s[4 * p + 1],
        swapped(s)[4 * p + 2] == s[4 * p],
        swapped(s)[4 * p + 3] == s[4 * p + 3],
{
}

} // verus!
