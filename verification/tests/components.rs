use frame_processor::pool::BufferPool;
use frame_processor::processor::FrameProcessor;
use frame_processor::ratio::Ratio;

fn rgba_frame(width: usize, height: usize) -> Vec<u8> {
    vec![0u8; width * height * 4]
}

fn set_rgb(frame: &mut Vec<u8>, width: usize, x: usize, y: usize, r: u8, g: u8, b: u8) {
    let idx = (y * width + x) * 4;
    frame[idx] = r;
    frame[idx + 1] = g;
    frame[idx + 2] = b;
}

#[test]
fn motion_single_active_pixel_centroid() {
    let p = FrameProcessor::new(4, 4).unwrap();
    let prev = rgba_frame(4, 4);
    let mut cur = rgba_frame(4, 4);
    set_rgb(&mut cur, 4, 2, 1, 255, 255, 255);
    let m = p.detect_motion(&cur, &prev);
    assert!(m.detected);
    // the centroid is exactly that pixel's normalized coordinate (2/4, 1/4)
    assert_eq!(m.center_x.num * 4, 2 * m.center_x.den);
    assert_eq!(m.center_y.num * 4, 1 * m.center_y.den);
    // single active pixel of full diff: magnitude is exactly 1
    assert_eq!(m.magnitude.num, m.magnitude.den);
}

#[test]
fn motion_identical_frames_is_none() {
    let p = FrameProcessor::new(4, 4).unwrap();
    let mut frame = rgba_frame(4, 4);
    set_rgb(&mut frame, 4, 0, 0, 90, 10, 200);
    let m = p.detect_motion(&frame, &frame);
    assert!(!m.detected);
    assert_eq!(m.magnitude.num, 0);
    assert_eq!(m.magnitude.den, 1);
    assert_eq!(m.center_x.num, 0);
    assert_eq!(m.center_y.num, 0);
}

#[test]
fn motion_magnitude_is_mean_of_active_diffs() {
    // motion threshold 0.01: diffs of 90/765 and 30/765 are both active;
    // magnitude is their mean, (90 + 30) / (765 * 2).
    let p = FrameProcessor::with_thresholds(2, 2, 150, 10).unwrap();
    let prev = rgba_frame(2, 2);
    let mut cur = rgba_frame(2, 2);
    set_rgb(&mut cur, 2, 0, 0, 90, 0, 0);
    set_rgb(&mut cur, 2, 1, 1, 30, 0, 0);
    let m = p.detect_motion(&cur, &prev);
    assert!(m.detected);
    assert_eq!(m.magnitude.num, 120);
    assert_eq!(m.magnitude.den, 765 * 2);
}

#[test]
fn motion_below_gate_pixels_are_ignored() {
    // only the 90/765 = 0.1176 diff clears the 0.1 gate; 60/765 = 0.0784
    // does not, so the centroid is pinned to the active pixel alone.
    let p = FrameProcessor::new(4, 1).unwrap();
    let prev = rgba_frame(4, 1);
    let mut cur = rgba_frame(4, 1);
    set_rgb(&mut cur, 4, 3, 0, 90, 0, 0);
    set_rgb(&mut cur, 4, 1, 0, 60, 0, 0);
    let m = p.detect_motion(&cur, &prev);
    assert!(m.detected);
    assert_eq!(m.center_x.num * 4, 3 * m.center_x.den);
}

#[test]
fn brightness_finds_single_peak() {
    let p = FrameProcessor::new(4, 4).unwrap();
    let mut frame = rgba_frame(4, 4);
    set_rgb(&mut frame, 4, 2, 3, 100, 100, 100);
    let half = Ratio { num: 1, den: 2 };
    let b = p.analyze_brightness(&frame, half, half);
    // lum(100,100,100) = (299 + 587 + 114) * 100 = 100000 over 255000
    assert_eq!(b.level.num, 100000);
    assert_eq!(b.level.den, 255000);
    assert_eq!(b.x.num * 4, 2 * b.x.den);
    assert_eq!(b.y.num * 4, 3 * b.y.den);
}

#[test]
fn brightness_tie_keeps_first_in_row_major_order() {
    let p = FrameProcessor::new(4, 4).unwrap();
    let mut frame = rgba_frame(4, 4);
    set_rgb(&mut frame, 4, 3, 1, 80, 80, 80);
    set_rgb(&mut frame, 4, 0, 1, 80, 80, 80);
    set_rgb(&mut frame, 4, 2, 2, 80, 80, 80);
    let half = Ratio { num: 1, den: 2 };
    let b = p.analyze_brightness(&frame, half, half);
    // (0,1) comes before (3,1) and (2,2) in the scan
    assert_eq!(b.x.num, 0);
    assert_eq!(b.y.num * 4, 1 * b.y.den);
}

#[test]
fn brightness_all_dark_reports_origin() {
    let p = FrameProcessor::new(4, 4).unwrap();
    let frame = rgba_frame(4, 4);
    let half = Ratio { num: 1, den: 2 };
    let b = p.analyze_brightness(&frame, half, half);
    assert_eq!(b.level.num, 0);
    assert_eq!(b.x.num, 0);
    assert_eq!(b.y.num, 0);
}

#[test]
fn brightness_empty_window_reports_zero() {
    // a centroid far outside the frame clips to an empty window
    let p = FrameProcessor::new(4, 4).unwrap();
    let mut frame = rgba_frame(4, 4);
    set_rgb(&mut frame, 4, 0, 0, 255, 255, 255);
    let far = Ratio { num: 50, den: 1 };
    let origin = Ratio { num: 0, den: 1 };
    let b = p.analyze_brightness(&frame, far, origin);
    assert_eq!(b.level.num, 0);
    assert_eq!(b.x.num, 0);
    assert_eq!(b.y.num, 0);
}

#[test]
fn brightness_raising_a_pixel_never_lowers_peak() {
    let p = FrameProcessor::new(4, 4).unwrap();
    let mut frame1 = rgba_frame(4, 4);
    set_rgb(&mut frame1, 4, 1, 1, 40, 40, 40);
    set_rgb(&mut frame1, 4, 3, 3, 70, 70, 70);
    let mut frame2 = frame1.clone();
    set_rgb(&mut frame2, 4, 1, 1, 90, 90, 90);
    let half = Ratio { num: 1, den: 2 };
    let b1 = p.analyze_brightness(&frame1, half, half);
    let b2 = p.analyze_brightness(&frame2, half, half);
    assert!(b2.level.num >= b1.level.num);
    assert_eq!(b1.level.num, 70000);
    assert_eq!(b2.level.num, 90000);
}

#[test]
fn pool_prewarm_fills_to_capacity() {
    let mut bp = BufferPool::new();
    assert_eq!(bp.len(), 0);
    bp.prewarm(64);
    assert_eq!(bp.len(), 3);
    bp.prewarm(64);
    assert_eq!(bp.len(), 3);
}

#[test]
fn pool_acquire_pops_and_allocates() {
    let mut bp = BufferPool::new();
    bp.prewarm(64);
    let b1 = bp.acquire(64);
    assert_eq!(b1.len(), 64);
    assert_eq!(bp.len(), 2);
    bp.clear();
    let b2 = bp.acquire(16);
    assert_eq!(b2.len(), 16);
    assert!(b2.iter().all(|&v| v == 0));
    assert_eq!(bp.len(), 0);
}

#[test]
fn pool_release_discards_small_buffers() {
    let mut bp = BufferPool::new();
    bp.release(vec![0u8; 64]);
    assert_eq!(bp.len(), 0);
}

#[test]
fn pool_release_retains_large_buffers_up_to_cap() {
    let mut bp = BufferPool::new();
    let big = 1024 * 1024;
    bp.release(vec![0u8; big]);
    bp.release(vec![0u8; big]);
    bp.release(vec![0u8; big]);
    assert_eq!(bp.len(), 3);
    bp.release(vec![0u8; big]);
    assert_eq!(bp.len(), 3);
    // a retained buffer comes back logically cleared
    let b = bp.acquire(big);
    assert_eq!(b.len(), 0);
    assert_eq!(bp.len(), 2);
}

#[test]
fn pool_clear_empties() {
    let mut bp = BufferPool::new();
    bp.prewarm(32);
    bp.clear();
    assert_eq!(bp.len(), 0);
}
