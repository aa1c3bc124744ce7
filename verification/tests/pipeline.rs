use frame_processor::processor::{FrameError, FrameProcessor};

fn rgba_frame(width: usize, height: usize) -> Vec<u8> {
    vec![0u8; width * height * 4]
}

fn set_pixel(frame: &mut Vec<u8>, width: usize, x: usize, y: usize, r: u8, g: u8, b: u8, a: u8) {
    let idx = (y * width + x) * 4;
    frame[idx] = r;
    frame[idx + 1] = g;
    frame[idx + 2] = b;
    frame[idx + 3] = a;
}

#[test]
fn construction_rejects_zero_width() {
    let r = FrameProcessor::new(0, 4);
    assert_eq!(r.err(), Some(FrameError::InvalidConfig));
}

#[test]
fn construction_rejects_zero_height() {
    let r = FrameProcessor::new(4, 0);
    assert_eq!(r.err(), Some(FrameError::InvalidConfig));
}

#[test]
fn construction_prewarms_pool() {
    let p = FrameProcessor::new(2, 2).unwrap();
    assert_eq!(p.pool_len(), 3);
    assert!(!p.has_previous_frame());
}

#[test]
fn first_call_never_detects() {
    let mut p = FrameProcessor::new(4, 4).unwrap();
    let mut bright = rgba_frame(4, 4);
    for y in 0..4 {
        for x in 0..4 {
            set_pixel(&mut bright, 4, x, y, 255, 255, 255, 255);
        }
    }
    let r = p.process_frame(&bright).unwrap();
    assert!(r.is_none());
    assert!(p.has_previous_frame());
}

#[test]
fn identical_frames_never_detect() {
    let mut p = FrameProcessor::new(3, 3).unwrap();
    let mut frame = rgba_frame(3, 3);
    set_pixel(&mut frame, 3, 1, 1, 200, 30, 90, 255);
    set_pixel(&mut frame, 3, 2, 0, 10, 250, 60, 255);
    assert!(p.process_frame(&frame).unwrap().is_none());
    assert!(p.process_frame(&frame).unwrap().is_none());
    assert!(p.process_frame(&frame).unwrap().is_none());
}

#[test]
fn end_to_end_single_bright_pixel() {
    let mut p = FrameProcessor::with_thresholds(2, 2, 100, 100).unwrap();
    let frame_a = rgba_frame(2, 2);
    assert!(p.process_frame(&frame_a).unwrap().is_none());
    let mut frame_b = rgba_frame(2, 2);
    set_pixel(&mut frame_b, 2, 1, 0, 255, 255, 255, 255);
    let d = p.process_frame(&frame_b).unwrap().expect("a detection was owed");
    assert!(d.detected);
    // position is exactly (1/2, 0)
    assert_eq!(d.x.num * 2, d.x.den);
    assert_eq!(d.y.num, 0);
    // confidence is exactly (1.0 + 1.0) / 2 = 1.0
    assert_eq!(d.confidence.num, d.confidence.den);
    let xf = d.x.num as f64 / d.x.den as f64;
    let yf = d.y.num as f64 / d.y.den as f64;
    let cf = d.confidence.num as f64 / d.confidence.den as f64;
    assert!((xf - 0.5).abs() < 1e-12);
    assert!(yf.abs() < 1e-12);
    assert!((cf - 1.0).abs() < 1e-12);
}

#[test]
fn end_to_end_default_thresholds() {
    let mut p = FrameProcessor::new(2, 2).unwrap();
    let frame_a = rgba_frame(2, 2);
    assert!(p.process_frame(&frame_a).unwrap().is_none());
    let mut frame_b = rgba_frame(2, 2);
    set_pixel(&mut frame_b, 2, 1, 0, 255, 255, 255, 255);
    let d = p.process_frame(&frame_b).unwrap().expect("a detection was owed");
    assert_eq!(d.x.num * 2, d.x.den);
    assert_eq!(d.y.num, 0);
    assert_eq!(d.confidence.num, d.confidence.den);
}

#[test]
fn wrong_length_fails_short() {
    let mut p = FrameProcessor::new(2, 2).unwrap();
    let short = vec![0u8; 15];
    assert_eq!(p.process_frame(&short).err(), Some(FrameError::InvalidFrameSize));
    // the failed call changed nothing
    assert!(!p.has_previous_frame());
    assert_eq!(p.pool_len(), 3);
}

#[test]
fn wrong_length_fails_long() {
    let mut p = FrameProcessor::new(2, 2).unwrap();
    let long = vec![0u8; 17];
    assert_eq!(p.process_frame(&long).err(), Some(FrameError::InvalidFrameSize));
    assert!(!p.has_previous_frame());
}

#[test]
fn pool_never_exceeds_three() {
    let mut p = FrameProcessor::new(2, 2).unwrap();
    for i in 0..10u8 {
        let mut frame = rgba_frame(2, 2);
        set_pixel(&mut frame, 2, 0, 0, i.wrapping_mul(40), 0, 0, 255);
        let _ = p.process_frame(&frame).unwrap();
        assert!(p.pool_len() <= 3);
    }
}

#[test]
fn pool_capped_with_large_frames() {
    // 512 * 512 * 4 bytes = 1 MiB, so released buffers clear the size gate
    // and are retained; the cap must still hold.
    let mut p = FrameProcessor::new(512, 512).unwrap();
    for i in 0..5u8 {
        let mut frame = rgba_frame(512, 512);
        frame[0] = i.wrapping_mul(60);
        let _ = p.process_frame(&frame).unwrap();
        assert!(p.pool_len() <= 3);
    }
}

#[test]
fn cleanup_empties_pool_and_state() {
    let mut p = FrameProcessor::new(2, 2).unwrap();
    let frame = rgba_frame(2, 2);
    let _ = p.process_frame(&frame).unwrap();
    assert!(p.has_previous_frame());
    p.cleanup();
    assert_eq!(p.pool_len(), 0);
    assert!(!p.has_previous_frame());
}

#[test]
fn cleanup_on_fresh_processor() {
    let mut p = FrameProcessor::new(2, 2).unwrap();
    p.cleanup();
    assert_eq!(p.pool_len(), 0);
    assert!(!p.has_previous_frame());
}

#[test]
fn processor_still_works_after_cleanup() {
    let mut p = FrameProcessor::with_thresholds(2, 2, 100, 100).unwrap();
    p.cleanup();
    let frame_a = rgba_frame(2, 2);
    assert!(p.process_frame(&frame_a).unwrap().is_none());
    let mut frame_b = rgba_frame(2, 2);
    set_pixel(&mut frame_b, 2, 1, 0, 255, 255, 255, 255);
    assert!(p.process_frame(&frame_b).unwrap().is_some());
}

#[test]
fn high_brightness_threshold_blocks_detection() {
    // brightness can never strictly exceed 1.0, so nothing is detected
    let mut p = FrameProcessor::with_thresholds(2, 2, 1000, 100).unwrap();
    let frame_a = rgba_frame(2, 2);
    assert!(p.process_frame(&frame_a).unwrap().is_none());
    let mut frame_b = rgba_frame(2, 2);
    set_pixel(&mut frame_b, 2, 1, 0, 255, 255, 255, 255);
    assert!(p.process_frame(&frame_b).unwrap().is_none());
}

#[test]
fn diff_at_threshold_is_not_active() {
    // motion threshold 0.2: a diff of exactly 153/765 = 0.2 must not
    // activate the pixel (the comparison is strict), so no motion is seen.
    let mut p = FrameProcessor::with_thresholds(2, 2, 140, 200).unwrap();
    let frame_a = rgba_frame(2, 2);
    assert!(p.process_frame(&frame_a).unwrap().is_none());
    let mut frame_b = rgba_frame(2, 2);
    set_pixel(&mut frame_b, 2, 0, 0, 153, 0, 0, 255);
    assert!(p.process_frame(&frame_b).unwrap().is_none());
    // one more unit of diff crosses the threshold
    let mut p2 = FrameProcessor::with_thresholds(2, 2, 140, 200).unwrap();
    assert!(p2.process_frame(&frame_a).unwrap().is_none());
    let mut frame_c = rgba_frame(2, 2);
    set_pixel(&mut frame_c, 2, 0, 0, 154, 0, 0, 255);
    // motion fires; brightness of (154,0,0) is 0.299*154/255 = 46046/255000
    // = 0.1806 > 0.15, so this also detects
    let d = p2.process_frame(&frame_c).unwrap().expect("a detection was owed");
    assert_eq!(d.x.num, 0);
    assert_eq!(d.y.num, 0);
}
