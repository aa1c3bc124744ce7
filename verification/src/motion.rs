use vstd::arithmetic::div_mod::{lemma_mod_division_less_than_divisor, lemma_div_pos_is_pos};
use vstd::prelude::*;

verus! {

/// Absolute difference of two channel bytes.
pub open spec fn abs_diff(a: u8, b: u8) -> int {
    if a >= b {
        a - b
    } else {
        b - a
    }
}

/// Unnormalized color difference of pixel `i` between two frames: the sum of
/// absolute channel differences over R, G and B (alpha is ignored). The
/// normalized per-pixel diff is this value over 765 (= 3 * 255).
pub open spec fn pixel_diff(cur: Seq<u8>, prev: Seq<u8>, i: int) -> int {
    abs_diff(cur[4 * i], prev[4 * i]) + abs_diff(cur[4 * i + 1], prev[4 * i + 1]) + abs_diff(
        cur[4 * i + 2],
        prev[4 * i + 2],
    )
}

/// Whether pixel `i` is active: its normalized diff strictly exceeds the
/// motion threshold `mt`, given in thousandths (diff/765 > mt/1000).
pub open spec fn is_active(cur: Seq<u8>, prev: Seq<u8>, i: int, mt: int) -> bool {
    pixel_diff(cur, prev, i) * 1000 > mt * 765
}

/// Sum of unnormalized diffs over the active pixels among the first `n`.
pub open spec fn diff_total(cur: Seq<u8>, prev: Seq<u8>, mt: int, n: int) -> int
    decreases n,
{
    if n <= 0 {
        0
    } else {
        diff_total(cur, prev, mt, n - 1) + if is_active(cur, prev, n - 1, mt) {
            pixel_diff(cur, prev, n - 1)
        } else {
            0
        }
    }
}

/// Number of active pixels among the first `n`.
pub open spec fn active_count(cur: Seq<u8>, prev: Seq<u8>, mt: int, n: int) -> int
    decreases n,
{
    if n <= 0 {
        0
    } else {
        active_count(cur, prev, mt, n - 1) + if is_active(cur, prev, n - 1, mt) {
            1int
        } else {
            0int
        }
    }
}

/// Diff-weighted sum of x coordinates (pixel `i` sits at column `i % w`)
/// over the active pixels among the first `n`.
pub open spec fn weighted_x(cur: Seq<u8>, prev: Seq<u8>, mt: int, w: int, n: int) -> int
    decreases n,
{
    if n <= 0 {
        0
    } else {
        weighted_x(cur, prev, mt, w, n - 1) + if is_active(cur, prev, n - 1, mt) {
            ((n - 1) % w) * pixel_diff(cur, prev, n - 1)
        } else {
            0
        }
    }
}

/// Diff-weighted sum of y coordinates (pixel `i` sits at row `i / w`)
/// over the active pixels among the first `n`.
pub open spec fn weighted_y(cur: Seq<u8>, prev: Seq<u8>, mt: int, w: int, n: int) -> int
    decreases n,
{
    if n <= 0 {
        0
    } else {
        weighted_y(cur, prev, mt, w, n - 1) + if is_active(cur, prev, n - 1, mt) {
            ((n - 1) / w) * pixel_diff(cur, prev, n - 1)
        } else {
            0
        }
    }
}

/// The aggregate motion gate over a whole `w` by `h` frame pair: some pixel
/// is active and the mean diff among active pixels strictly exceeds the
/// motion threshold: (diff_total/765)/count > mt/1000.
pub open spec fn spec_motion_detected(cur: Seq<u8>, prev: Seq<u8>, w: int, h: int, mt: int) -> bool {
    let n = w * h;
    active_count(cur, prev, mt, n) > 0 && diff_total(cur, prev, mt, n) * 1000 > mt * 765
        * active_count(cur, prev, mt, n)
}

/// Bounds on the motion sums: each pixel contributes at most 765, an active
/// pixel contributes at least 1 (its diff strictly exceeds a nonnegative
/// threshold), and at most every pixel is active.
pub proof fn lemma_motion_sums_bounds(cur: Seq<u8>, prev: Seq<u8>, mt: int, n: int)
    requires
        mt >= 0,
        n >= 0,
    ensures
        0 <= active_count(cur, prev, mt, n) <= n,
        active_count(cur, prev, mt, n) <= diff_total(cur, prev, mt, n) <= 765 * n,
    decreases n,
{
    if n > 0 {
        lemma_motion_sums_bounds(cur, prev, mt, n - 1);
    }
}

/// Bound on the diff-weighted x sum: each active pixel contributes at most
/// (w - 1) * 765.
pub proof fn lemma_weighted_x_bound(cur: Seq<u8>, prev: Seq<u8>, mt: int, w: int, n: int)
    requires
        mt >= 0,
        n >= 0,
        w >= 1,
    ensures
        0 <= weighted_x(cur, prev, mt, w, n) <= 765 * n * (w - 1),
    decreases n,
{
    if n > 0 {
        lemma_weighted_x_bound(cur, prev, mt, w, n - 1);
        let i = n - 1;
        let x = i % w;
        lemma_mod_division_less_than_divisor(i, w);
        let pd = pixel_diff(cur, prev, i);
        assert(x * pd <= 765 * (w - 1)) by (nonlinear_arith)
            requires
                0 <= x <= w - 1,
                0 <= pd <= 765,
        ;
        assert(765 * (n - 1) * (w - 1) + 765 * (w - 1) == 765 * n * (w - 1)) by (nonlinear_arith);
    }
}

/// Bound on the diff-weighted y sum over a frame of `h` rows: each active
/// pixel's row is below `h`, so it contributes at most (h - 1) * 765.
pub proof fn lemma_weighted_y_bound(cur: Seq<u8>, prev: Seq<u8>, mt: int, w: int, h: int, n: int)
    requires
        mt >= 0,
        w >= 1,
        h >= 1,
        0 <= n <= w * h,
    ensures
        0 <= weighted_y(cur, prev, mt, w, n) <= 765 * n * (h - 1),
    decreases n,
{
    if n > 0 {
        lemma_weighted_y_bound(cur, prev, mt, w, h, n - 1);
        let i = n - 1;
        let y = i / w;
        lemma_div_pos_is_pos(i, w);
        assert(y <= h - 1) by (nonlinear_arith)
            requires
                0 <= i,
                i < w * h,
                w >= 1,
                y == i / w,
        ;
        let pd = pixel_diff(cur, prev, i);
        assert(y * pd <= 765 * (h - 1)) by (nonlinear_arith)
            requires
                0 <= y <= h - 1,
                0 <= pd <= 765,
        ;
        assert(765 * (n - 1) * (h - 1) + 765 * (h - 1) == 765 * n * (h - 1)) by (nonlinear_arith);
    }
}

/// Two identical frames have zero diff at every pixel, so no pixel is active.
pub proof fn lemma_identical_frames_inactive(f: Seq<u8>, mt: int, n: int)
    requires
        mt >= 0,
        n >= 0,
    ensures
        active_count(f, f, mt, n) == 0,
        diff_total(f, f, mt, n) == 0,
    decreases n,
{
    if n > 0 {
        lemma_identical_frames_inactive(f, mt, n - 1);
    }
}

/// Feeding the same frame as both current and previous yields zero diff
/// everywhere, hence no motion whatever the geometry.
pub proof fn lemma_identical_frame_no_motion(f: Seq<u8>, w: int, h: int, mt: int)
    requires
        mt >= 0,
    ensures
        !spec_motion_detected(f, f, w, h, mt),
{
    if w * h >= 0 {
        lemma_identical_frames_inactive(f, mt, w * h);
    }
}

/// When no pixel among the first `n` is active, every motion sum is zero.
pub proof fn lemma_no_active_sums(cur: Seq<u8>, prev: Seq<u8>, mt: int, w: int, n: int)
    requires
        forall|j: int| 0 <= j < n ==> !is_active(cur, prev, j, mt),
    ensures
        active_count(cur, prev, mt, n) == 0,
        diff_total(cur, prev, mt, n) == 0,
        weighted_x(cur, prev, mt, w, n) == 0,
        weighted_y(cur, prev, mt, w, n) == 0,
    decreases n,
{
    if n > 0 {
        lemma_no_active_sums(cur, prev, mt, w, n - 1);
    }
}

/// When pixel `i` is the only active pixel among the first `n`, the motion
/// sums reduce to that single pixel's contribution.
pub proof fn lemma_single_active_sums(
    cur: Seq<u8>,
    prev: Seq<u8>,
    mt: int,
    w: int,
    i: int,
    n: int,
)
    requires
        0 <= i < n,
        is_active(cur, prev, i, mt),
        forall|j: int| 0 <= j < n && j != i ==> !is_active(cur, prev, j, mt),
    ensures
        active_count(cur, prev, mt, n) == 1,
        diff_total(cur, prev, mt, n) == pixel_diff(cur, prev, i),
        weighted_x(cur, prev, mt, w, n) == (i % w) * pixel_diff(cur, prev, i),
        weighted_y(cur, prev, mt, w, n) == (i / w) * pixel_diff(cur, prev, i),
    decreases n,
{
    if n - 1 == i {
        lemma_no_active_sums(cur, prev, mt, w, n - 1);
    } else {
        lemma_single_active_sums(cur, prev, mt, w, i, n - 1);
    }
}

/// When exactly one pixel of the frame pair is active, the diff-weighted
/// centroid is that pixel's own normalized coordinate: as exact rationals,
/// weighted_x / (diff_total * w) equals (i % w) / w, and likewise for y.
/// The equalities are stated cross-multiplied.
pub proof fn lemma_single_active_centroid(
    cur: Seq<u8>,
    prev: Seq<u8>,
    mt: int,
    w: int,
    h: int,
    i: int,
)
    requires
        w >= 1,
        h >= 1,
        0 <= i < w * h,
        is_active(cur, prev, i, mt),
        forall|j: int| 0 <= j < w * h && j != i ==> !is_active(cur, prev, j, mt),
    ensures
        active_count(cur, prev, mt, w * h) == 1,
        weighted_x(cur, prev, mt, w, w * h) * w == (i % w) * (diff_total(cur, prev, mt, w * h) * w),
        weighted_y(cur, prev, mt, w, w * h) * h == (i / w) * (diff_total(cur, prev, mt, w * h) * h),
{
    lemma_single_active_sums(cur, prev, mt, w, i, w * h);
    let pd = pixel_diff(cur, prev, i);
    let x = i % w;
    let y = i / w;
    assert((x * pd) * w == x * (pd * w)) by (nonlinear_arith);
    assert((y * pd) * h == y * (pd * h)) by (nonlinear_arith);
}

} // verus!
