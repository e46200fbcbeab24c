//! Perceptual comparison of two screenshots: per-channel absolute
//! differences summed per pixel, their maximum, and the number of pixels
//! whose difference exceeds a threshold.

use vstd::prelude::*;
use crate::driver::Screenshot;
use crate::text::{nat_decimal, push_decimal_u64};

verus! {

/// Bytes per pixel (RGBA).
pub const CHANNELS: usize = 4;

/// The integer statistics of a screenshot comparison. The mean delta is
/// `sum_delta / (4 * pixels_compared)` and the share of changed pixels is
/// `changed_pixels / pixels_compared`.
#[derive(Debug, Clone, Copy, PartialEq, Eq)]
pub struct PixelDiff {
    /// Sum over compared pixels of the per-channel absolute differences.
    pub sum_delta: u64,
    /// Largest per-channel absolute difference.
    pub max_delta: u8,
    /// Number of pixels whose summed difference exceeds `4 * threshold`.
    pub changed_pixels: u64,
    /// Number of whole pixels compared.
    pub pixels_compared: u64,
    pub width: u32,
    pub height: u32,
}

/// `|x - y|`.
pub open spec fn abs_diff(x: u8, y: u8) -> int {
    if x >= y { x - y } else { y - x }
}

/// Summed absolute difference of the four channels of pixel `p`.
pub open spec fn pixel_delta(a: Seq<u8>, b: Seq<u8>, p: int) -> int {
    abs_diff(a[4 * p], b[4 * p]) + abs_diff(a[4 * p + 1], b[4 * p + 1]) + abs_diff(
        a[4 * p + 2],
        b[4 * p + 2],
    ) + abs_diff(a[4 * p + 3], b[4 * p + 3])
}

/// Sum of the pixel deltas of the first `m` pixels.
pub open spec fn delta_sum(a: Seq<u8>, b: Seq<u8>, m: int) -> int
    decreases m,
{
    if m <= 0 { 0 } else { delta_sum(a, b, m - 1) + pixel_delta(a, b, m - 1) }
}

/// Number of the first `m` pixels whose delta exceeds `4 * threshold`.
pub open spec fn changed_count(a: Seq<u8>, b: Seq<u8>, m: int, threshold: u8) -> int
    decreases m,
{
    if m <= 0 {
        0
    } else {
        changed_count(a, b, m - 1, threshold) + if pixel_delta(a, b, m - 1) > 4 * threshold {
            1int
        } else {
            0int
        }
    }
}

/// Largest absolute difference among the first `k` bytes (0 when `k == 0`).
pub open spec fn max_channel_delta(a: Seq<u8>, b: Seq<u8>, k: int) -> int
    decreases k,
{
    if k <= 0 {
        0
    } else {
        let m = max_channel_delta(a, b, k - 1);
        let d = abs_diff(a[k - 1], b[k - 1]);
        if d > m { d } else { m }
    }
}

/// The error text for screenshots of different dimensions.
pub open spec fn dimension_message(a: Screenshot, b: Screenshot) -> Seq<char> {
    "dimension mismatch: "@ + nat_decimal(a.width as nat) + "x"@ + nat_decimal(a.height as nat)
        + " vs "@ + nat_decimal(b.width as nat) + "x"@ + nat_decimal(b.height as nat)
}

/// The error text for pixel buffers of different lengths.
pub open spec fn length_message(a: Screenshot, b: Screenshot) -> Seq<char> {
    "rgba length mismatch: "@ + nat_decimal(a.rgba@.len()) + " vs "@ + nat_decimal(b.rgba@.len())
}

/// What `diff` computes of two screenshots of equal size.
pub open spec fn diff_of(a: Screenshot, b: Screenshot, threshold: u8, r: PixelDiff) -> bool {
    let pixels = a.rgba@.len() / 4;
    &&& r.pixels_compared == pixels
    &&& r.sum_delta == delta_sum(a.rgba@, b.rgba@, pixels as int)
    &&& r.max_delta == max_channel_delta(a.rgba@, b.rgba@, 4 * pixels as int)
    &&& r.changed_pixels == changed_count(a.rgba@, b.rgba@, pixels as int, threshold)
    &&& r.width == a.width
    &&& r.height == a.height
}

proof fn lemma_identical_sums(a: Seq<u8>, m: int, k: int, threshold: u8)
    ensures
        delta_sum(a, a, m) == 0,
        changed_count(a, a, m, threshold) == 0,
        max_channel_delta(a, a, k) == 0,
    decreases (if m > 0 { m } else { 0 }) + (if k > 0 { k } else { 0 }),
{
    if m > 0 {
        lemma_identical_sums(a, m - 1, 0, threshold);
    }
    if k > 0 {
        lemma_identical_sums(a, 0, k - 1, threshold);
    }
}

proof fn lemma_symmetric_sums(a: Seq<u8>, b: Seq<u8>, m: int, k: int, threshold: u8)
    ensures
        delta_sum(a, b, m) == delta_sum(b, a, m),
        changed_count(a, b, m, threshold) == changed_count(b, a, m, threshold),
        max_channel_delta(a, b, k) == max_channel_delta(b, a, k),
    decreases (if m > 0 { m } else { 0 }) + (if k > 0 { k } else { 0 }),
{
    if m > 0 {
        lemma_symmetric_sums(a, b, m - 1, 0, threshold);
    }
    if k > 0 {
        lemma_symmetric_sums(a, b, 0, k - 1, threshold);
    }
}

proof fn lemma_changed_bounded(a: Seq<u8>, b: Seq<u8>, m: int, threshold: u8)
    requires
        m >= 0,
    ensures
        0 <= changed_count(a, b, m, threshold) <= m,
    decreases m,
{
    if m > 0 {
        lemma_changed_bounded(a, b, m - 1, threshold);
    }
}

/// A screenshot compared with itself shows no difference at all.
pub proof fn lemma_self_diff_is_zero(a: Screenshot, threshold: u8, r: PixelDiff)
    requires
        diff_of(a, a, threshold, r),
    ensures
        r.sum_delta == 0,
        r.max_delta == 0,
        r.changed_pixels == 0,
{
    let pixels = a.rgba@.len() / 4;
    lemma_identical_sums(a.rgba@, pixels as int, 4 * pixels as int, threshold);
}

/// Comparing `a` with `b` gives the same statistics as comparing `b`
/// with `a`.
pub proof fn lemma_diff_symmetric(
    a: Screenshot,
    b: Screenshot,
    threshold: u8,
    r1: PixelDiff,
    r2: PixelDiff,
)
    requires
        a.rgba@.len() == b.rgba@.len(),
        diff_of(a, b, threshold, r1),
        diff_of(b, a, threshold, r2),
    ensures
        r1.sum_delta == r2.sum_delta,
        r1.max_delta == r2.max_delta,
        r1.changed_pixels == r2.changed_pixels,
        r1.pixels_compared == r2.pixels_compared,
{
    let pixels = a.rgba@.len() / 4;
    lemma_symmetric_sums(a.rgba@, b.rgba@, pixels as int, 4 * pixels as int, threshold);
}

/// At most every compared pixel counts as changed.
pub proof fn lemma_changed_at_most_compared(a: Screenshot, b: Screenshot, threshold: u8, r: PixelDiff)
    requires
        diff_of(a, b, threshold, r),
    ensures
        r.changed_pixels <= r.pixels_compared,
{
    lemma_changed_bounded(a.rgba@, b.rgba@, (a.rgba@.len() / 4) as int, threshold);
}

/// What `diff` returns for `a`, `b` and `threshold`: an error naming the
/// mismatch when the dimensions or the buffer lengths differ, the
/// statistics otherwise.
pub open spec fn diff_outcome(a: Screenshot, b: Screenshot, threshold: u8, r: Result<PixelDiff, String>) -> bool {
    if a.width != b.width || a.height != b.height {
        r matches Err(m) && m@ == dimension_message(a, b)
    } else if a.rgba@.len() != b.rgba@.len() {
        r matches Err(m) && m@ == length_message(a, b)
    } else {
        r matches Ok(d) && diff_of(a, b, threshold, d)
    }
}

/// `diff` succeeds on `a` and `b` exactly when it succeeds on `b` and `a`,
/// and then both comparisons give the same result.
pub proof fn lemma_diff_outcome_symmetric(
    a: Screenshot,
    b: Screenshot,
    threshold: u8,
    r1: Result<PixelDiff, String>,
    r2: Result<PixelDiff, String>,
)
    requires
        diff_outcome(a, b, threshold, r1),
        diff_outcome(b, a, threshold, r2),
    ensures
        r1.is_ok() == r2.is_ok(),
        r1 is Ok ==> r1 == r2,
{
    if r1 is Ok {
        lemma_diff_symmetric(a, b, threshold, r1->Ok_0, r2->Ok_0);
    }
}

/// `diff` of a screenshot with itself succeeds with no difference at all:
/// zero summed delta, zero largest delta, no changed pixel.
pub proof fn lemma_diff_outcome_self(a: Screenshot, threshold: u8, r: Result<PixelDiff, String>)
    requires
        diff_outcome(a, a, threshold, r),
    ensures
        r matches Ok(d) && d.sum_delta == 0 && d.max_delta == 0 && d.changed_pixels == 0,
{
    lemma_self_diff_is_zero(a, threshold, r->Ok_0);
}

/// How the statistics grow pixel by pixel. Over no pixels everything is
/// zero; taking in pixel `m` adds the sum of its four absolute channel
/// differences to the summed delta, and adds one to the changed count
/// exactly when that sum exceeds four times the threshold; taking in byte
/// `k` raises the largest delta to that byte's absolute difference when it
/// is larger.
pub proof fn lemma_pixel_rules(a: Seq<u8>, b: Seq<u8>, m: int, k: int, threshold: u8)
    requires
        m >= 0,
        k >= 0,
    ensures
        delta_sum(a, b, 0) == 0,
        changed_count(a, b, 0, threshold) == 0,
        max_channel_delta(a, b, 0) == 0,
        ({
            let p = 4 * m;
            let d0 = if a[p] >= b[p] { a[p] - b[p] } else { b[p] - a[p] };
            let d1 = if a[p + 1] >= b[p + 1] { a[p + 1] - b[p + 1] } else { b[p + 1] - a[p + 1] };
            let d2 = if a[p + 2] >= b[p + 2] { a[p + 2] - b[p + 2] } else { b[p + 2] - a[p + 2] };
            let d3 = if a[p + 3] >= b[p + 3] { a[p + 3] - b[p + 3] } else { b[p + 3] - a[p + 3] };
            &&& pixel_delta(a, b, m) == d0 + d1 + d2 + d3
            &&& delta_sum(a, b, m + 1) == delta_sum(a, b, m) + d0 + d1 + d2 + d3
            &&& changed_count(a, b, m + 1, threshold) == changed_count(a, b, m, threshold) + if d0
                + d1 + d2 + d3 > 4 * threshold {
                1int
            } else {
                0int
            }
        }),
        ({
            let d = if a[k] >= b[k] { a[k] - b[k] } else { b[k] - a[k] };
            max_channel_delta(a, b, k + 1) == if d > max_channel_delta(a, b, k) {
                d
            } else {
                max_channel_delta(a, b, k)
            }
        }),
{
}

/// Comparing two one-pixel screenshots: the summed delta is the sum of the
/// four absolute channel differences, the largest delta is the largest of
/// them, and the pixel counts as changed exactly when their sum exceeds
/// four times the threshold.
pub proof fn lemma_one_pixel_diff(a: Screenshot, b: Screenshot, threshold: u8, r: PixelDiff)
    requires
        a.rgba@.len() == 4,
        diff_of(a, b, threshold, r),
    ensures
        ({
            let x = a.rgba@;
            let y = b.rgba@;
            let d0 = if x[0] >= y[0] { x[0] - y[0] } else { y[0] - x[0] };
            let d1 = if x[1] >= y[1] { x[1] - y[1] } else { y[1] - x[1] };
            let d2 = if x[2] >= y[2] { x[2] - y[2] } else { y[2] - x[2] };
            let d3 = if x[3] >= y[3] { x[3] - y[3] } else { y[3] - x[3] };
            &&& r.pixels_compared == 1
            &&& r.sum_delta == d0 + d1 + d2 + d3
            &&& r.changed_pixels == if d0 + d1 + d2 + d3 > 4 * threshold { 1int } else { 0int }
            &&& r.max_delta >= d0 && r.max_delta >= d1 && r.max_delta >= d2 && r.max_delta >= d3
            &&& (r.max_delta == d0 || r.max_delta == d1 || r.max_delta == d2 || r.max_delta == d3)
        }),
{
    reveal_with_fuel(delta_sum, 2);
    reveal_with_fuel(changed_count, 2);
    reveal_with_fuel(max_channel_delta, 5);
}

/// No pixel whose delta (the sum of its four absolute channel
/// differences, see `lemma_pixel_rules`) is at most four times the
/// threshold counts as changed: when every compared pixel is such, the
/// changed count is zero; when every compared pixel exceeds it, every
/// pixel counts.
pub proof fn lemma_changed_all_or_none(a: Screenshot, b: Screenshot, threshold: u8, r: PixelDiff)
    requires
        diff_of(a, b, threshold, r),
        a.rgba@.len() == b.rgba@.len(),
    ensures
        (forall|p: int|
            0 <= p < r.pixels_compared ==> #[trigger] pixel_delta(a.rgba@, b.rgba@, p) <= 4 * threshold)
            ==> r.changed_pixels == 0,
        (forall|p: int|
            0 <= p < r.pixels_compared ==> #[trigger] pixel_delta(a.rgba@, b.rgba@, p) > 4 * threshold)
            ==> r.changed_pixels == r.pixels_compared,
{
    let pixels = r.pixels_compared as int;
    lemma_changed_extremes(a.rgba@, b.rgba@, pixels, threshold);
}

proof fn lemma_changed_extremes(a: Seq<u8>, b: Seq<u8>, m: int, threshold: u8)
    requires
        m >= 0,
    ensures
        (forall|p: int| 0 <= p < m ==> #[trigger] pixel_delta(a, b, p) <= 4 * threshold)
            ==> changed_count(a, b, m, threshold) == 0,
        (forall|p: int| 0 <= p < m ==> #[trigger] pixel_delta(a, b, p) > 4 * threshold)
            ==> changed_count(a, b, m, threshold) == m,
    decreases m,
{
    if m > 0 {
        lemma_changed_extremes(a, b, m - 1, threshold);
        assert((forall|p: int| 0 <= p < m ==> #[trigger] pixel_delta(a, b, p) <= 4 * threshold)
            ==> pixel_delta(a, b, m - 1) <= 4 * threshold);
        assert((forall|p: int| 0 <= p < m ==> #[trigger] pixel_delta(a, b, p) > 4 * threshold)
            ==> pixel_delta(a, b, m - 1) > 4 * threshold);
    }
}

fn channel_delta(x: u8, y: u8) -> (d: u8)
    ensures
        d == abs_diff(x, y),
{
    if x >= y { x - y } else { y - x }
}

/// Compare `a` and `b` with a per-channel threshold. Returns `Err` if the
/// dimensions or the pixel buffer lengths differ. Bytes past the last whole
/// pixel are not compared.
pub fn diff(a: &Screenshot, b: &Screenshot, threshold: u8) -> (r: Result<PixelDiff, String>)
    requires
        a.rgba@.len() <= 0xffff_ffff_ffff_ffffnat / 255,
    ensures
        diff_outcome(*a, *b, threshold, r),
{
    if a.width != b.width || a.height != b.height {
        let mut m = String::from_str("dimension mismatch: ");
        push_decimal_u64(&mut m, a.width as u64);
        m.append("x");
        push_decimal_u64(&mut m, a.height as u64);
        m.append(" vs ");
        push_decimal_u64(&mut m, b.width as u64);
        m.append("x");
        push_decimal_u64(&mut m, b.height as u64);
        return Err(m);
    }
    if a.rgba.len() != b.rgba.len() {
        let mut m = String::from_str("rgba length mismatch: ");
        push_decimal_u64(&mut m, a.rgba.len() as u64);
        m.append(" vs ");
        push_decimal_u64(&mut m, b.rgba.len() as u64);
        return Err(m);
    }
    let ghost sa = a.rgba@;
    let ghost sb = b.rgba@;
    let n = a.rgba.len();
    let mut sum_delta: u64 = 0;
    let mut max_delta: u8 = 0;
    let mut changed_pixels: u64 = 0;
    let mut pixels_compared: u64 = 0;
    let mut i: usize = 0;
    // Compare pixel by pixel; each pixel is 4 bytes (RGBA).
    while n - i >= CHANNELS
        invariant
            n == sa.len(),
            n == sb.len(),
            sa == a.rgba@,
            sb == b.rgba@,
            n <= 0xffff_ffff_ffff_ffffnat / 255,
            i == 4 * pixels_compared,
            i <= n,
            sum_delta == delta_sum(sa, sb, pixels_compared as int),
            sum_delta <= 1020 * pixels_compared,
            changed_pixels == changed_count(sa, sb, pixels_compared as int, threshold),
            changed_pixels <= pixels_compared,
            max_delta == max_channel_delta(sa, sb, i as int),
        decreases n - i,
    {
        let d0 = channel_delta(a.rgba[i], b.rgba[i]);
        let d1 = channel_delta(a.rgba[i + 1], b.rgba[i + 1]);
        let d2 = channel_delta(a.rgba[i + 2], b.rgba[i + 2]);
        let d3 = channel_delta(a.rgba[i + 3], b.rgba[i + 3]);
        if d0 > max_delta {
            max_delta = d0;
        }
        assert(max_delta == max_channel_delta(sa, sb, i + 1));
        if d1 > max_delta {
            max_delta = d1;
        }
        assert(max_delta == max_channel_delta(sa, sb, i + 2));
        if d2 > max_delta {
            max_delta = d2;
        }
        assert(max_delta == max_channel_delta(sa, sb, i + 3));
        if d3 > max_delta {
            max_delta = d3;
        }
        assert(max_delta == max_channel_delta(sa, sb, i + 4));
        let pd: u32 = d0 as u32 + d1 as u32 + d2 as u32 + d3 as u32;
        assert(pd == pixel_delta(sa, sb, pixels_compared as int));
        assert(4 * (pixels_compared + 1) <= n);
        assert(1020 * (pixels_compared + 1) <= 0xffff_ffff_ffff_ffff);
        sum_delta = sum_delta + pd as u64;
        if pd > threshold as u32 * 4 {
            changed_pixels = changed_pixels + 1;
        }
        pixels_compared = pixels_compared + 1;
        i = i + CHANNELS;
    }
    Ok(PixelDiff {
        sum_delta,
        max_delta,
        changed_pixels,
        pixels_compared,
        width: a.width,
        height: a.height,
    })
}

} // verus!
