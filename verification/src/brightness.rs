use vstd::prelude::*;

verus! {

/// Half the side of the square analysis window, in pixels (the window is
/// 32 by 32 before clipping).
pub const WINDOW_HALF: usize = 16;

/// Unnormalized perceptual brightness of the pixel at column `x`, row `y` of
/// a `w`-wide frame: 299 R + 587 G + 114 B. The normalized brightness is
/// this value over 255000 (= 1000 * 255).
pub open spec fn lum(frame: Seq<u8>, w: int, x: int, y: int) -> int {
    299 * frame[4 * (y * w + x)] + 587 * frame[4 * (y * w + x) + 1] + 114 * frame[4 * (y * w + x)
        + 2]
}

/// Column of the `k`-th pixel of a row-major scan of a window `ww` columns
/// wide whose top-left corner is (sx, sy).
pub open spec fn win_x(sx: int, ww: int, k: int) -> int {
    sx + k % ww
}

/// Row of the `k`-th pixel of that scan.
pub open spec fn win_y(sy: int, ww: int, k: int) -> int {
    sy + k / ww
}

/// Maximum unnormalized brightness over the first `k` pixels of the scan
/// (0 when the scan is empty).
pub open spec fn peak_lum(frame: Seq<u8>, w: int, sx: int, sy: int, ww: int, k: int) -> int
    decreases k,
{
    if k <= 0 {
        0
    } else {
        let before = peak_lum(frame, w, sx, sy, ww, k - 1);
        let here = lum(frame, w, win_x(sx, ww, k - 1), win_y(sy, ww, k - 1));
        if here > before {
            here
        } else {
            before
        }
    }
}

/// Position (column, row) of the running maximum after the first `k` pixels
/// of the scan. It starts at (0, 0) and moves only on a strict improvement,
/// so ties keep the first pixel encountered, and a window of all-zero
/// brightness reports (0, 0).
pub open spec fn peak_pos(frame: Seq<u8>, w: int, sx: int, sy: int, ww: int, k: int) -> (int, int)
    decreases k,
{
    if k <= 0 {
        (0, 0)
    } else {
        let before = peak_lum(frame, w, sx, sy, ww, k - 1);
        let here = lum(frame, w, win_x(sx, ww, k - 1), win_y(sy, ww, k - 1));
        if here > before {
            (win_x(sx, ww, k - 1), win_y(sy, ww, k - 1))
        } else {
            peak_pos(frame, w, sx, sy, ww, k - 1)
        }
    }
}

/// Start of the clipped window on one axis, given the window center.
pub open spec fn spec_win_start(c: int) -> int {
    if c >= WINDOW_HALF {
        c - WINDOW_HALF
    } else {
        0
    }
}

/// End (exclusive) of the clipped window on one axis of length `dim`.
pub open spec fn spec_win_end(c: int, dim: int) -> int {
    if c + WINDOW_HALF <= dim {
        c + WINDOW_HALF
    } else {
        dim
    }
}

/// Number of pixels the clipped window holds.
pub open spec fn spec_win_total(cx: int, cy: int, w: int, h: int) -> int {
    let ww = spec_win_end(cx, w) - spec_win_start(cx);
    let wh = spec_win_end(cy, h) - spec_win_start(cy);
    if ww > 0 && wh > 0 {
        ww * wh
    } else {
        0
    }
}

/// Maximum unnormalized brightness over the whole clipped window centered at
/// pixel (cx, cy) of a `w` by `h` frame.
pub open spec fn spec_window_peak(frame: Seq<u8>, w: int, h: int, cx: int, cy: int) -> int {
    peak_lum(
        frame,
        w,
        spec_win_start(cx),
        spec_win_start(cy),
        spec_win_end(cx, w) - spec_win_start(cx),
        spec_win_total(cx, cy, w, h),
    )
}

/// Position of that maximum, with the tie-breaking of `peak_pos`.
pub open spec fn spec_window_peak_pos(frame: Seq<u8>, w: int, h: int, cx: int, cy: int) -> (
    int,
    int,
) {
    peak_pos(
        frame,
        w,
        spec_win_start(cx),
        spec_win_start(cy),
        spec_win_end(cx, w) - spec_win_start(cx),
        spec_win_total(cx, cy, w, h),
    )
}

/// Two frames whose brightness agrees at every scanned pixel have the same
/// peak and the same peak position.
pub proof fn lemma_peak_congruent(
    f1: Seq<u8>,
    f2: Seq<u8>,
    w: int,
    sx: int,
    sy: int,
    ww: int,
    k: int,
)
    requires
        forall|j: int|
            0 <= j < k ==> lum(f2, w, win_x(sx, ww, j), win_y(sy, ww, j)) == lum(
                f1,
                w,
                win_x(sx, ww, j),
                win_y(sy, ww, j),
            ),
    ensures
        peak_lum(f2, w, sx, sy, ww, k) == peak_lum(f1, w, sx, sy, ww, k),
        peak_pos(f2, w, sx, sy, ww, k) == peak_pos(f1, w, sx, sy, ww, k),
    decreases k,
{
    if k > 0 {
        lemma_peak_congruent(f1, f2, w, sx, sy, ww, k - 1);
    }
}

/// Raising the brightness of a single scanned pixel (and touching no other
/// scanned pixel) never decreases the reported peak brightness of the window.
pub proof fn lemma_peak_monotone(
    f1: Seq<u8>,
    f2: Seq<u8>,
    w: int,
    sx: int,
    sy: int,
    ww: int,
    k: int,
    p: int,
)
    requires
        0 <= p < k,
        forall|j: int|
            0 <= j < k && j != p ==> lum(f2, w, win_x(sx, ww, j), win_y(sy, ww, j)) == lum(
                f1,
                w,
                win_x(sx, ww, j),
                win_y(sy, ww, j),
            ),
        lum(f2, w, win_x(sx, ww, p), win_y(sy, ww, p)) >= lum(
            f1,
            w,
            win_x(sx, ww, p),
            win_y(sy, ww, p),
        ),
    ensures
        peak_lum(f2, w, sx, sy, ww, k) >= peak_lum(f1, w, sx, sy, ww, k),
    decreases k,
{
    if p == k - 1 {
        lemma_peak_congruent(f1, f2, w, sx, sy, ww, k - 1);
    } else {
        lemma_peak_monotone(f1, f2, w, sx, sy, ww, k - 1, p);
    }
}

} // verus!
