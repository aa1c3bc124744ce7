use crate::brightness::{
    lum, peak_lum, peak_pos, spec_win_end, spec_win_start, spec_win_total, spec_window_peak,
    spec_window_peak_pos, win_x, win_y, WINDOW_HALF,
};
use crate::motion::{
    active_count, diff_total, lemma_identical_frame_no_motion, lemma_motion_sums_bounds,
    lemma_weighted_x_bound, lemma_weighted_y_bound, pixel_diff, spec_motion_detected, weighted_x,
    weighted_y,
};
use crate::pool::BufferPool;
use crate::ratio::Ratio;
use vstd::arithmetic::div_mod::{
    lemma_div_nonincreasing, lemma_div_pos_is_pos, lemma_mod_division_less_than_divisor,
};
use vstd::prelude::*;

verus! {

/// The ways the processor can refuse its input.
#[derive(Clone, Copy, Debug, PartialEq, Eq, Structural)]
pub enum FrameError {
    /// Width or height of zero at construction.
    InvalidConfig,
    /// A frame whose byte length is not width * height * 4.
    InvalidFrameSize,
}

/// A reported detection: a position normalized to [0,1] per axis and a
/// confidence score. A value of this type is only ever built for an actual
/// detection; "no detection" is the absence of one.
#[derive(Clone, Copy, Debug, PartialEq, Eq, Structural)]
pub struct DetectionResult {
    pub detected: bool,
    pub x: Ratio,
    pub y: Ratio,
    pub confidence: Ratio,
}

/// What the motion estimator reports: whether the aggregate gate fired, the
/// diff-weighted centroid (normalized per axis), and the motion magnitude
/// (mean normalized diff among active pixels).
#[derive(Clone, Copy, Debug, PartialEq, Eq, Structural)]
pub struct MotionResult {
    pub detected: bool,
    pub center_x: Ratio,
    pub center_y: Ratio,
    pub magnitude: Ratio,
}

/// What the brightness localizer reports: the position of the brightest
/// pixel of the window (normalized per axis) and its brightness.
#[derive(Clone, Copy, Debug, PartialEq, Eq, Structural)]
pub struct BrightnessResult {
    pub x: Ratio,
    pub y: Ratio,
    pub level: Ratio,
}

/// Window center pixel on one axis: a normalized coordinate num/den scaled
/// by the axis length and truncated.
pub open spec fn spec_center_px(num: int, den: int, dim: int) -> int {
    (num * dim) / den
}

/// Column of the window center used after motion at the diff-weighted
/// centroid: the centroid x (weighted_x / (diff_total * w)) scaled by w.
pub open spec fn spec_center_px_x(cur: Seq<u8>, prev: Seq<u8>, w: int, h: int, mt: int) -> int {
    spec_center_px(
        weighted_x(cur, prev, mt, w, w * h),
        diff_total(cur, prev, mt, w * h) * w,
        w,
    )
}

/// Row of that window center.
pub open spec fn spec_center_px_y(cur: Seq<u8>, prev: Seq<u8>, w: int, h: int, mt: int) -> int {
    spec_center_px(
        weighted_y(cur, prev, mt, w, w * h),
        diff_total(cur, prev, mt, w * h) * h,
        h,
    )
}

/// Whether a frame pair yields a detection: the motion gate fires, and the
/// peak brightness of the window at the motion centroid strictly exceeds the
/// brightness threshold `bt` (in thousandths): peak/255000 > bt/1000.
pub open spec fn spec_detects(
    cur: Seq<u8>,
    prev: Seq<u8>,
    w: int,
    h: int,
    mt: int,
    bt: int,
) -> bool {
    &&& spec_motion_detected(cur, prev, w, h, mt)
    &&& spec_window_peak(
        cur,
        w,
        h,
        spec_center_px_x(cur, prev, w, h, mt),
        spec_center_px_y(cur, prev, w, h, mt),
    ) > bt * 255
}

/// Numerator of the confidence (peak brightness + motion magnitude) / 2 as
/// an exact rational over `spec_confidence_den`.
pub open spec fn spec_confidence_num(cur: Seq<u8>, prev: Seq<u8>, w: int, h: int, mt: int) -> int {
    spec_window_peak(
        cur,
        w,
        h,
        spec_center_px_x(cur, prev, w, h, mt),
        spec_center_px_y(cur, prev, w, h, mt),
    ) * (765 * active_count(cur, prev, mt, w * h)) + diff_total(cur, prev, mt, w * h) * 255000
}

/// Denominator of the confidence.
pub open spec fn spec_confidence_den(cur: Seq<u8>, prev: Seq<u8>, w: int, h: int, mt: int) -> int {
    2 * 255000 * (765 * active_count(cur, prev, mt, w * h))
}

/// Feeding a frame twice in a row yields zero diff everywhere, hence no
/// motion and no detection, whatever the geometry and thresholds.
pub proof fn lemma_identical_frame_no_detection(f: Seq<u8>, w: int, h: int, mt: int, bt: int)
    requires
        mt >= 0,
    ensures
        !spec_detects(f, f, w, h, mt, bt),
{
    lemma_identical_frame_no_motion(f, w, h, mt);
}

/// The per-stream analysis pipeline: fixed geometry and thresholds, the one
/// previous frame, and the buffer pool that keeps the hot path free of
/// allocation in steady state.
pub struct FrameProcessor {
    width: u32,
    height: u32,
    threshold_milli: u32,
    motion_threshold_milli: u32,
    frame_size: usize,
    previous_frame: Option<Vec<u8>>,
    pool: BufferPool,
}

impl FrameProcessor {
    /// Configured frame width in pixels.
    pub closed spec fn spec_width(&self) -> int {
        self.width as int
    }

    /// Configured frame height in pixels.
    pub closed spec fn spec_height(&self) -> int {
        self.height as int
    }

    /// Expected byte length of a frame: width * height * 4.
    pub closed spec fn spec_frame_size(&self) -> int {
        self.frame_size as int
    }

    /// Brightness threshold in thousandths.
    pub closed spec fn spec_brightness_threshold(&self) -> int {
        self.threshold_milli as int
    }

    /// Motion threshold in thousandths.
    pub closed spec fn spec_motion_threshold(&self) -> int {
        self.motion_threshold_milli as int
    }

    /// The previous frame's bytes, if one is held.
    pub closed spec fn prev_frame(&self) -> Option<Seq<u8>> {
        match self.previous_frame {
            Some(f) => Some(f@),
            None => None,
        }
    }

    /// The buffers the pool holds.
    pub closed spec fn pool_view(&self) -> Seq<Seq<u8>> {
        self.pool@
    }

    /// Configuration is unchanged between two processor values.
    pub open spec fn same_config(&self, other: &FrameProcessor) -> bool {
        &&& self.spec_width() == other.spec_width()
        &&& self.spec_height() == other.spec_height()
        &&& self.spec_frame_size() == other.spec_frame_size()
        &&& self.spec_brightness_threshold() == other.spec_brightness_threshold()
        &&& self.spec_motion_threshold() == other.spec_motion_threshold()
    }

    /// Internal invariant: positive geometry whose frame size fits in u32,
    /// thresholds in [0,1] (thousandths), a bounded pool, and a previous
    /// frame (when held) of exactly the frame size.
    pub closed spec fn wf(&self) -> bool {
        &&& self.width >= 1
        &&& self.height >= 1
        &&& self.width as int * self.height as int * 4 <= u32::MAX as int
        &&& self.frame_size as int == self.width as int * self.height as int * 4
        &&& self.threshold_milli <= 1000
        &&& self.motion_threshold_milli <= 1000
        &&& self.pool.wf()
        &&& match self.previous_frame {
            Some(f) => f@.len() == self.frame_size as int,
            None => true,
        }
    }

    /// Construct a processor with explicit thresholds, each in thousandths.
    /// Zero width or height is a configuration error; on success the pool is
    /// pre-warmed to capacity with zero-filled frame-sized buffers.
    pub fn with_thresholds(
        width: u32,
        height: u32,
        brightness_milli: u32,
        motion_milli: u32,
    ) -> (r: Result<FrameProcessor, FrameError>)
        requires
            width as int * height as int * 4 <= u32::MAX as int,
            brightness_milli <= 1000,
            motion_milli <= 1000,
        ensures
            (width >= 1 && height >= 1) <==> r is Ok,
            r is Err ==> r == Err::<FrameProcessor, FrameError>(FrameError::InvalidConfig),
            r is Ok ==> ({
                let p = r.unwrap();
                &&& p.wf()
                &&& p.spec_width() == width as int
                &&& p.spec_height() == height as int
                &&& p.spec_frame_size() == width as int * height as int * 4
                &&& p.spec_brightness_threshold() == brightness_milli as int
                &&& p.spec_motion_threshold() == motion_milli as int
                &&& p.prev_frame() is None
                &&& p.pool_view().len() == 3
            }),
    {
        if width == 0 || height == 0 {
            return Err(FrameError::InvalidConfig);
        }
        let frame_size = (width * height * 4) as usize;
        let mut pool = BufferPool::new();
        pool.prewarm(frame_size);
        Ok(
            FrameProcessor {
                width,
                height,
                threshold_milli: brightness_milli,
                motion_threshold_milli: motion_milli,
                frame_size,
                previous_frame: None,
                pool,
            },
        )
    }

    /// Construct a processor with the default thresholds: brightness 0.15
    /// and motion 0.10.
    pub fn new(width: u32, height: u32) -> (r: Result<FrameProcessor, FrameError>)
        requires
            width as int * height as int * 4 <= u32::MAX as int,
        ensures
            (width >= 1 && height >= 1) <==> r is Ok,
            r is Err ==> r == Err::<FrameProcessor, FrameError>(FrameError::InvalidConfig),
            r is Ok ==> ({
                let p = r.unwrap();
                &&& p.wf()
                &&& p.spec_width() == width as int
                &&& p.spec_height() == height as int
                &&& p.spec_frame_size() == width as int * height as int * 4
                &&& p.spec_brightness_threshold() == 150
                &&& p.spec_motion_threshold() == 100
                &&& p.prev_frame() is None
                &&& p.pool_view().len() == 3
            }),
    {
        FrameProcessor::with_thresholds(width, height, 150, 100)
    }

    /// Motion estimation between the current and previous frame: per-pixel
    /// normalized color diffs, a per-pixel activation gate at the motion
    /// threshold, and the aggregate magnitude and diff-weighted centroid of
    /// the active pixels. Every pixel of the frame is scanned.
    pub fn detect_motion(&self, current: &Vec<u8>, previous: &Vec<u8>) -> (r: MotionResult)
        requires
            self.wf(),
            current@.len() == self.spec_frame_size(),
            previous@.len() == self.spec_frame_size(),
        ensures
            ({
                let w = self.spec_width();
                let h = self.spec_height();
                let mt = self.spec_motion_threshold();
                let n = w * h;
                let c = active_count(current@, previous@, mt, n);
                let s = diff_total(current@, previous@, mt, n);
                &&& r.detected == spec_motion_detected(current@, previous@, w, h, mt)
                &&& r.magnitude.valid()
                &&& r.center_x.valid()
                &&& r.center_y.valid()
                &&& (c == 0 ==> r.magnitude.num == 0 && r.magnitude.den == 1 && r.center_x.num
                    == 0 && r.center_x.den == 1 && r.center_y.num == 0 && r.center_y.den == 1)
                &&& (c > 0 ==> r.magnitude.num as int == s && r.magnitude.den as int == 765 * c
                    && r.center_x.num as int == weighted_x(current@, previous@, mt, w, n)
                    && r.center_x.den as int == s * w && r.center_y.num as int == weighted_y(
                    current@,
                    previous@,
                    mt,
                    w,
                    n,
                ) && r.center_y.den as int == s * h)
            }),
    {
        let w = self.width as usize;
        let h = self.height as usize;
        let n = w * h;
        let mt = self.motion_threshold_milli as u64;
        let ghost cur = current@;
        let ghost prv = previous@;
        let ghost mti = self.spec_motion_threshold();
        proof {
            assert(w * h <= 0x3fffffff);
            assert((w as int) <= (w as int) * (h as int)) by (nonlinear_arith)
                requires
                    1 <= (h as int),
                    0 <= (w as int),
            ;
            assert((h as int) <= (w as int) * (h as int)) by (nonlinear_arith)
                requires
                    1 <= (w as int),
                    0 <= (h as int),
            ;
        }
        let mut sum: u64 = 0;
        let mut cnt: u64 = 0;
        let mut wx: u128 = 0;
        let mut wy: u128 = 0;
        let mut i: usize = 0;
        while i < n
            invariant
                i <= n,
                n == w * h,
                w == self.spec_width(),
                h == self.spec_height(),
                1 <= w,
                1 <= h,
                n <= 0x3fffffff,
                w <= 0x3fffffff,
                h <= 0x3fffffff,
                mt == mti,
                mti <= 1000,
                cur.len() == 4 * n,
                prv.len() == 4 * n,
                cur == current@,
                prv == previous@,
                sum as int == diff_total(cur, prv, mti, i as int),
                cnt as int == active_count(cur, prv, mti, i as int),
                wx as int == weighted_x(cur, prv, mti, w as int, i as int),
                wy as int == weighted_y(cur, prv, mti, w as int, i as int),
            decreases n - i,
        {
            proof {
                lemma_motion_sums_bounds(cur, prv, mti, i as int);
                lemma_weighted_x_bound(cur, prv, mti, w as int, i as int);
                lemma_weighted_y_bound(cur, prv, mti, w as int, h as int, i as int);
                assert(765 * (i as int) * ((w as int) - 1) <= 0x10000000000000000000) by (nonlinear_arith)
                    requires
                        0 <= (i as int) <= 0x3fffffff,
                        1 <= (w as int) <= 0x3fffffff,
                ;
                assert(765 * (i as int) * ((h as int) - 1) <= 0x10000000000000000000) by (nonlinear_arith)
                    requires
                        0 <= (i as int) <= 0x3fffffff,
                        1 <= (h as int) <= 0x3fffffff,
                ;
                assert(4 * (i as int) + 3 < 4 * (n as int));
            }
            let idx = 4 * i;
            let cr = current[idx];
            let pr = previous[idx];
            let cg = current[idx + 1];
            let pg = previous[idx + 1];
            let cb = current[idx + 2];
            let pb = previous[idx + 2];
            let dr = if cr >= pr {
                cr - pr
            } else {
                pr - cr
            };
            let dg = if cg >= pg {
                cg - pg
            } else {
                pg - cg
            };
            let db = if cb >= pb {
                cb - pb
            } else {
                pb - cb
            };
            let d: u32 = dr as u32 + dg as u32 + db as u32;
            proof {
                assert(d as int == pixel_diff(cur, prv, i as int));
            }
            if (d as u64) * 1000 > mt * 765 {
                sum = sum + d as u64;
                cnt = cnt + 1;
                let x = i % w;
                let y = i / w;
                proof {
                    assert((x as int) * (d as int) <= 0x3fffffff * 765) by (nonlinear_arith)
                        requires
                            0 <= (x as int) < 0x40000000,
                            0 <= (d as int) <= 765,
                    ;
                    assert((y as int) * (d as int) <= 0x3fffffff * 765) by (nonlinear_arith)
                        requires
                            0 <= (y as int) < 0x40000000,
                            0 <= (d as int) <= 765,
                    ;
                    assert((y as int) < 0x40000000) by (nonlinear_arith)
                        requires
                            y as int == (i as int) / (w as int),
                            0 <= (i as int) <= 0x3fffffff,
                            1 <= w as int,
                    ;
                }
                wx = wx + (x as u128) * (d as u128);
                wy = wy + (y as u128) * (d as u128);
            }
            i = i + 1;
        }
        proof {
            lemma_motion_sums_bounds(cur, prv, mti, n as int);
        }
        if cnt > 0 {
            let lhs = sum * 1000;
            let rhs_base = mt * 765;
            proof {
                assert(rhs_base * cnt <= 765000 * 0x3fffffff) by (nonlinear_arith)
                    requires
                        0 <= (rhs_base as int) <= 765000,
                        0 <= (cnt as int) <= 0x3fffffff,
                ;
                assert((sum as int) * (w as int) <= 765 * 0x3fffffff * 0x3fffffff) by (nonlinear_arith)
                    requires
                        0 <= (sum as int) <= 765 * 0x3fffffff,
                        1 <= (w as int) <= 0x3fffffff,
                ;
                assert((sum as int) * (h as int) <= 765 * 0x3fffffff * 0x3fffffff) by (nonlinear_arith)
                    requires
                        0 <= (sum as int) <= 765 * 0x3fffffff,
                        1 <= (h as int) <= 0x3fffffff,
                ;
                assert(765 * (cnt as int) <= 765 * 0x3fffffff) by (nonlinear_arith)
                    requires
                        0 <= (cnt as int) <= 0x3fffffff,
                ;
                assert((sum as int) * (w as int) >= 1) by (nonlinear_arith)
                    requires
                        1 <= (sum as int),
                        1 <= (w as int),
                ;
                assert((sum as int) * (h as int) >= 1) by (nonlinear_arith)
                    requires
                        1 <= (sum as int),
                        1 <= (h as int),
                ;
            }
            let detected = lhs > rhs_base * cnt;
            let magnitude = Ratio { num: sum as u128, den: 765u128 * (cnt as u128) };
            let center_x = Ratio { num: wx, den: (sum as u128) * (w as u128) };
            let center_y = Ratio { num: wy, den: (sum as u128) * (h as u128) };
            MotionResult { detected, center_x, center_y, magnitude }
        } else {
            MotionResult {
                detected: false,
                center_x: Ratio::zero(),
                center_y: Ratio::zero(),
                magnitude: Ratio::zero(),
            }
        }
    }

    /// Brightness localization: scan the clipped 32 by 32 window centered at
    /// a normalized centroid for the pixel of maximum perceptual brightness.
    /// Ties keep the first pixel in row-major order; an empty clipped window
    /// reports brightness 0 at position (0, 0).
    pub fn analyze_brightness(&self, frame: &Vec<u8>, center_x: Ratio, center_y: Ratio) -> (r:
        BrightnessResult)
        requires
            self.wf(),
            frame@.len() == self.spec_frame_size(),
            center_x.valid(),
            center_y.valid(),
            center_x.num as int * self.spec_width() + WINDOW_HALF <= u128::MAX as int,
            center_y.num as int * self.spec_height() + WINDOW_HALF <= u128::MAX as int,
        ensures
            ({
                let w = self.spec_width();
                let h = self.spec_height();
                let cx = spec_center_px(center_x.num as int, center_x.den as int, w);
                let cy = spec_center_px(center_y.num as int, center_y.den as int, h);
                &&& r.level.num as int == spec_window_peak(frame@, w, h, cx, cy)
                &&& r.level.den == 255000
                &&& r.level.num <= 255000
                &&& r.x.num as int == spec_window_peak_pos(frame@, w, h, cx, cy).0
                &&& r.x.den as int == w
                &&& r.y.num as int == spec_window_peak_pos(frame@, w, h, cx, cy).1
                &&& r.y.den as int == h
            }),
    {
        let w = self.width as usize;
        let h = self.height as usize;
        let ghost fsq = frame@;
        let ghost wi = w as int;
        let ghost hi = h as int;
        let ghost cxi = spec_center_px(center_x.num as int, center_x.den as int, wi);
        let ghost cyi = spec_center_px(center_y.num as int, center_y.den as int, hi);
        proof {
            lemma_div_nonincreasing(center_x.num as int * wi, center_x.den as int);
            lemma_div_nonincreasing(center_y.num as int * hi, center_y.den as int);
            lemma_div_pos_is_pos(center_x.num as int * wi, center_x.den as int);
            lemma_div_pos_is_pos(center_y.num as int * hi, center_y.den as int);
            assert(w * h <= 0x3fffffff);
        }
        let cpx = (center_x.num * (w as u128)) / center_x.den;
        let cpy = (center_y.num * (h as u128)) / center_y.den;
        let sx128 = if cpx >= 16 {
            cpx - 16
        } else {
            0
        };
        let ex128 = if cpx + 16 <= w as u128 {
            cpx + 16
        } else {
            w as u128
        };
        let sy128 = if cpy >= 16 {
            cpy - 16
        } else {
            0
        };
        let ey128 = if cpy + 16 <= h as u128 {
            cpy + 16
        } else {
            h as u128
        };
        if sx128 >= ex128 || sy128 >= ey128 {
            return BrightnessResult {
                x: Ratio { num: 0, den: w as u128 },
                y: Ratio { num: 0, den: h as u128 },
                level: Ratio { num: 0, den: 255000 },
            };
        }
        let sx = sx128 as usize;
        let ex = ex128 as usize;
        let sy = sy128 as usize;
        let ey = ey128 as usize;
        let ww = ex - sx;
        let wh = ey - sy;
        proof {
            assert(ex128 <= cpx + 16);
            assert(sx128 + 32 >= cpx + 16);
            assert(ey128 <= cpy + 16);
            assert(sy128 + 32 >= cpy + 16);
            assert(ww <= 32);
            assert(wh <= 32);
            assert((ww as int) * (wh as int) <= 1024) by (nonlinear_arith)
                requires
                    0 <= (ww as int) <= 32,
                    0 <= (wh as int) <= 32,
            ;
        }
        let total = ww * wh;
        let ghost sxi = sx as int;
        let ghost syi = sy as int;
        let ghost wwi = ww as int;
        proof {
            assert(sxi == spec_win_start(cxi));
            assert(syi == spec_win_start(cyi));
            assert(ex as int == spec_win_end(cxi, wi));
            assert(ey as int == spec_win_end(cyi, hi));
            assert(total as int == spec_win_total(cxi, cyi, wi, hi));
        }
        let mut best: u32 = 0;
        let mut best_x: usize = 0;
        let mut best_y: usize = 0;
        let mut k: usize = 0;
        while k < total
            invariant
                k <= total,
                1 <= ww <= 32,
                1 <= wh <= 32,
                total == ww * wh,
                total <= 1024,
                sx + ww == ex,
                sy + wh == ey,
                ex <= w,
                ey <= h,
                1 <= w,
                1 <= h,
                w * h <= 0x3fffffff,
                w == wi,
                h == hi,
                sx == sxi,
                sy == syi,
                ww == wwi,
                fsq == frame@,
                fsq.len() == 4 * (w * h),
                best as int == peak_lum(fsq, wi, sxi, syi, wwi, k as int),
                best_x as int == peak_pos(fsq, wi, sxi, syi, wwi, k as int).0,
                best_y as int == peak_pos(fsq, wi, sxi, syi, wwi, k as int).1,
                best <= 255000,
            decreases total - k,
        {
            proof {
                lemma_mod_division_less_than_divisor(k as int, wwi);
                assert((k as int) / (ww as int) < (wh as int)) by (nonlinear_arith)
                    requires
                        0 <= (k as int),
                        (k as int) < (ww as int) * (wh as int),
                        1 <= (ww as int),
                ;
                lemma_div_pos_is_pos(k as int, wwi);
            }
            let x = sx + k % ww;
            let y = sy + k / ww;
            proof {
                assert((y as int) * (w as int) + (x as int) < (w as int) * (h as int))
                    by (nonlinear_arith)
                    requires
                        0 <= (x as int) < (w as int),
                        0 <= (y as int) < (h as int),
                ;
            }
            let idx = (y * w + x) * 4;
            let l: u32 = 299 * (frame[idx] as u32) + 587 * (frame[idx + 1] as u32) + 114 * (
            frame[idx + 2] as u32);
            proof {
                assert(l as int == lum(fsq, wi, x as int, y as int));
                assert(x as int == win_x(sxi, wwi, k as int));
                assert(y as int == win_y(syi, wwi, k as int));
            }
            if l > best {
                best = l;
                best_x = x;
                best_y = y;
            }
            k = k + 1;
        }
        BrightnessResult {
            x: Ratio { num: best_x as u128, den: w as u128 },
            y: Ratio { num: best_y as u128, den: h as u128 },
            level: Ratio { num: best as u128, den: 255000 },
        }
    }

    /// Analyze one frame. The frame must be exactly width * height * 4
    /// bytes; otherwise nothing is analyzed and `InvalidFrameSize` comes back
    /// with the processor unchanged. On success the frame becomes the new
    /// previous frame (the old one returns to the pool) and a detection is
    /// reported exactly when a previous frame existed, the motion gate fired,
    /// and the window's peak brightness cleared the brightness threshold.
    /// The confidence is the exact mean of peak brightness and motion
    /// magnitude, not clamped.
    pub fn process_frame(&mut self, frame_data: &[u8]) -> (r: Result<
        Option<DetectionResult>,
        FrameError,
    >)
        requires
            old(self).wf(),
        ensures
            final(self).wf(),
            final(self).same_config(old(self)),
            final(self).pool_view().len() <= 3,
            (frame_data@.len() != old(self).spec_frame_size()) <==> r is Err,
            r is Err ==> r == Err::<Option<DetectionResult>, FrameError>(
                FrameError::InvalidFrameSize,
            ) && *final(self) == *old(self),
            r is Ok ==> final(self).prev_frame() == Some(frame_data@),
            old(self).prev_frame() is None && r is Ok ==> r == Ok::<
                Option<DetectionResult>,
                FrameError,
            >(None),
            r is Ok ==> ({
                let w = old(self).spec_width();
                let h = old(self).spec_height();
                let mt = old(self).spec_motion_threshold();
                let bt = old(self).spec_brightness_threshold();
                let det = r.unwrap();
                &&& (det is Some <==> (old(self).prev_frame() is Some && spec_detects(
                    frame_data@,
                    old(self).prev_frame().unwrap(),
                    w,
                    h,
                    mt,
                    bt,
                )))
                &&& (det is Some ==> ({
                    let d = det.unwrap();
                    let prev = old(self).prev_frame().unwrap();
                    let cx = spec_center_px_x(frame_data@, prev, w, h, mt);
                    let cy = spec_center_px_y(frame_data@, prev, w, h, mt);
                    &&& d.detected == true
                    &&& d.x.num as int == spec_window_peak_pos(frame_data@, w, h, cx, cy).0
                    &&& d.x.den as int == w
                    &&& d.y.num as int == spec_window_peak_pos(frame_data@, w, h, cx, cy).1
                    &&& d.y.den as int == h
                    &&& d.confidence.num as int == spec_confidence_num(frame_data@, prev, w, h, mt)
                    &&& d.confidence.den as int == spec_confidence_den(frame_data@, prev, w, h, mt)
                    &&& d.confidence.valid()
                }))
            }),
    {
        if frame_data.len() != self.frame_size {
            return Err(FrameError::InvalidFrameSize);
        }
        let mut current = self.pool.acquire(self.frame_size);
        current.clear();
        current.extend_from_slice(frame_data);
        proof {
            assert forall|i: int| 0 <= i < current@.len() implies current@[i] == frame_data@[i] by {
                assert(cloned::<u8>(frame_data@[i], current@[i]));
            }
            assert(current@ =~= frame_data@);
        }
        let ghost cur_seq = frame_data@;
        let ghost wi = old(self).spec_width();
        let ghost hi = old(self).spec_height();
        let ghost mti = old(self).spec_motion_threshold();
        let mut detection: Option<DetectionResult> = None;
        match &self.previous_frame {
            Some(prev) => {
                let m = self.detect_motion(&current, prev);
                if m.detected {
                    proof {
                        let n = wi * hi;
                        assert(wi <= wi * hi) by (nonlinear_arith)
                            requires
                                1 <= hi,
                                0 <= wi,
                        ;
                        assert(hi <= wi * hi) by (nonlinear_arith)
                            requires
                                1 <= wi,
                                0 <= hi,
                        ;
                        lemma_motion_sums_bounds(cur_seq, prev@, mti, n);
                        lemma_weighted_x_bound(cur_seq, prev@, mti, wi, n);
                        lemma_weighted_y_bound(cur_seq, prev@, mti, wi, hi, n);
                        assert(765 * n * (wi - 1) <= 765 * 0x3fffffff * 0x3fffffff)
                            by (nonlinear_arith)
                            requires
                                0 <= n <= 0x3fffffff,
                                1 <= wi <= 0x3fffffff,
                        ;
                        assert(765 * n * (hi - 1) <= 765 * 0x3fffffff * 0x3fffffff)
                            by (nonlinear_arith)
                            requires
                                0 <= n <= 0x3fffffff,
                                1 <= hi <= 0x3fffffff,
                        ;
                        assert((m.center_x.num as int) * wi + WINDOW_HALF
                            <= 0xffffffffffffffffffffffffffffffff) by (nonlinear_arith)
                            requires
                                0 <= (m.center_x.num as int) <= 765 * 0x3fffffff * 0x3fffffff,
                                1 <= wi <= 0x3fffffff,
                        ;
                        assert((m.center_y.num as int) * hi + WINDOW_HALF
                            <= 0xffffffffffffffffffffffffffffffff) by (nonlinear_arith)
                            requires
                                0 <= (m.center_y.num as int) <= 765 * 0x3fffffff * 0x3fffffff,
                                1 <= hi <= 0x3fffffff,
                        ;
                    }
                    let b = self.analyze_brightness(&current, m.center_x, m.center_y);
                    if b.level.num > (self.threshold_milli as u128) * 255 {
                        proof {
                            let n = wi * hi;
                            let c = active_count(cur_seq, prev@, mti, n);
                            assert(m.magnitude.den as int == 765 * c);
                            assert((b.level.num as int) * (m.magnitude.den as int) <= 255000 * (765
                                * 0x3fffffff)) by (nonlinear_arith)
                                requires
                                    0 <= (b.level.num as int) <= 255000,
                                    0 <= (m.magnitude.den as int) <= 765 * 0x3fffffff,
                            ;
                        }
                        proof {
                            assert((m.magnitude.den as int) <= 765 * 0x3fffffff);
                            assert((m.magnitude.num as int) <= 765 * 0x3fffffff);
                            assert(2 * 255000 * (m.magnitude.den as int)
                                < 0x100000000000000000000000000000000) by (nonlinear_arith)
                                requires
                                    0 <= (m.magnitude.den as int) <= 765 * 0x3fffffff,
                            ;
                            assert(2 * 255000 * (m.magnitude.den as int) >= 2 * 255000)
                                by (nonlinear_arith)
                                requires
                                    1 <= (m.magnitude.den as int),
                            ;
                        }
                        let conf_num = b.level.num * m.magnitude.den + m.magnitude.num * 255000;
                        let conf_den = 2 * 255000 * m.magnitude.den;
                        detection = Some(
                            DetectionResult {
                                detected: true,
                                x: b.x,
                                y: b.y,
                                confidence: Ratio { num: conf_num, den: conf_den },
                            },
                        );
                    }
                }
            },
            None => {},
        }
        let old_prev = self.previous_frame.take();
        self.previous_frame = Some(current);
        match old_prev {
            Some(old_frame) => self.pool.release(old_frame),
            None => {},
        }
        Ok(detection)
    }

    /// Tear the processor down: the held previous frame, if any, goes back
    /// to the pool, and the pool is then emptied. The processor remains
    /// callable, but without its pre-warm benefit until the pool refills.
    pub fn cleanup(&mut self)
        requires
            old(self).wf(),
        ensures
            final(self).wf(),
            final(self).same_config(old(self)),
            final(self).prev_frame() is None,
            final(self).pool_view().len() == 0,
    {
        let old_prev = self.previous_frame.take();
        match old_prev {
            Some(frame) => self.pool.release(frame),
            None => {},
        }
        self.pool.clear();
    }

    /// How many buffers the pool currently holds.
    pub fn pool_len(&self) -> (n: usize)
        ensures
            n == self.pool_view().len(),
    {
        self.pool.len()
    }

    /// Whether a previous frame is currently held.
    pub fn has_previous_frame(&self) -> (b: bool)
        ensures
            b == self.prev_frame() is Some,
    {
        self.previous_frame.is_some()
    }
}

} // verus!
