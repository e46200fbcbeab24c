use bg_driver::driver::Screenshot;
use bg_driver::screenshot_diff::{diff, PixelDiff};

fn shot(rgba: Vec<u8>, w: u32, h: u32) -> Screenshot {
    Screenshot { width: w, height: h, rgba }
}

fn mean_delta(r: &PixelDiff) -> f64 {
    if r.pixels_compared == 0 {
        0.0
    } else {
        r.sum_delta as f64 / (r.pixels_compared * 4) as f64
    }
}

fn changed_pct(r: &PixelDiff) -> f64 {
    if r.pixels_compared == 0 {
        0.0
    } else {
        (r.changed_pixels as f64 / r.pixels_compared as f64) * 100.0
    }
}

#[test]
fn identical_screenshots_zero_diff() {
    let a = shot(vec![10, 20, 30, 255, 40, 50, 60, 255], 2, 1);
    let b = shot(vec![10, 20, 30, 255, 40, 50, 60, 255], 2, 1);
    let r = diff(&a, &b, 10).unwrap();
    assert_eq!(mean_delta(&r), 0.0);
    assert_eq!(r.max_delta, 0);
    assert_eq!(changed_pct(&r), 0.0);
}

#[test]
fn different_pixels_counted() {
    let a = shot(vec![10, 20, 30, 255, 40, 50, 60, 255], 2, 1);
    let b = shot(vec![10, 20, 30, 255, 80, 90, 100, 255], 2, 1);
    let r = diff(&a, &b, 10).unwrap();
    assert!(mean_delta(&r) > 0.0);
    assert!(r.max_delta >= 40);
    assert_eq!(changed_pct(&r), 50.0); // 1 of 2 pixels changed
}

#[test]
fn dimension_mismatch_errors() {
    let a = shot(vec![0, 0, 0, 0], 1, 1);
    let b = shot(vec![0, 0, 0, 0, 0, 0, 0, 0], 2, 1);
    assert!(diff(&a, &b, 10).is_err());
}

#[test]
fn threshold_below_change_flags_pixel() {
    let a = shot(vec![10, 20, 30, 255], 1, 1);
    let b = shot(vec![15, 25, 35, 255], 1, 1);
    // threshold=3 means a delta of 5 per channel should flag.
    let r = diff(&a, &b, 3).unwrap();
    assert_eq!(changed_pct(&r), 100.0);
}

#[test]
fn empty_rgba_returns_zero_diff() {
    let a = shot(vec![], 0, 0);
    let b = shot(vec![], 0, 0);
    let r = diff(&a, &b, 10).unwrap();
    assert_eq!(mean_delta(&r), 0.0);
}

// ---- further cases ---------------------------------------------------------

#[test]
fn exact_statistics() {
    let a = shot(vec![10, 20, 30, 255, 40, 50, 60, 255], 2, 1);
    let b = shot(vec![10, 20, 30, 255, 80, 90, 100, 255], 2, 1);
    let r = diff(&a, &b, 10).unwrap();
    assert_eq!(
        r,
        PixelDiff { sum_delta: 120, max_delta: 40, changed_pixels: 1, pixels_compared: 2, width: 2, height: 1 }
    );
    let back = diff(&b, &a, 10).unwrap();
    assert_eq!(back, r);
}

#[test]
fn error_messages() {
    let a = shot(vec![0, 0, 0, 0], 1, 1);
    let b = shot(vec![0, 0, 0, 0, 0, 0, 0, 0], 2, 1);
    assert_eq!(diff(&a, &b, 10), Err("dimension mismatch: 1x1 vs 2x1".to_string()));
    let c = shot(vec![0, 0, 0, 0, 0], 1, 1);
    assert_eq!(diff(&a, &c, 10), Err("rgba length mismatch: 4 vs 5".to_string()));
}

#[test]
fn trailing_bytes_are_ignored() {
    let a = shot(vec![0, 0, 0, 0, 9, 9], 1, 1);
    let b = shot(vec![0, 0, 0, 0, 200, 1], 1, 1);
    let r = diff(&a, &b, 0).unwrap();
    assert_eq!((r.pixels_compared, r.sum_delta, r.max_delta, r.changed_pixels), (1, 0, 0, 0));
}

#[test]
fn delta_equal_to_threshold_is_not_a_change() {
    let a = shot(vec![0, 0, 0, 0], 1, 1);
    let b = shot(vec![3, 3, 3, 3], 1, 1);
    assert_eq!(diff(&a, &b, 3).unwrap().changed_pixels, 0);
    assert_eq!(diff(&a, &b, 2).unwrap().changed_pixels, 1);
}
