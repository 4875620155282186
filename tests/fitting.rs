use gifterm::fit::{fit_target, TargetSize};

#[test]
fn square_source_shrinks_to_terminal() {
    let t = fit_target(100, 100, 40, 40, false);
    assert_eq!(t, TargetSize { width: 40, height: 40 });
}

#[test]
fn no_resize_keeps_source_size() {
    let t = fit_target(10, 10, 5, 5, true);
    assert_eq!(t, TargetSize { width: 10, height: 10 });
}

#[test]
fn fitting_source_is_unchanged() {
    let t = fit_target(30, 12, 80, 48, false);
    assert_eq!(t, TargetSize { width: 30, height: 12 });
}

#[test]
fn odd_height_is_rounded_down_to_even() {
    let t = fit_target(30, 13, 80, 48, false);
    assert_eq!(t, TargetSize { width: 30, height: 12 });
}

#[test]
fn one_row_source_gets_one_row_pair() {
    let t = fit_target(7, 1, 80, 48, false);
    assert_eq!(t, TargetSize { width: 7, height: 2 });
}

#[test]
fn wide_source_is_limited_by_width() {
    // scale = min(80 / 200, 48 / 50) = 0.4
    let t = fit_target(200, 50, 80, 48, false);
    assert_eq!(t, TargetSize { width: 80, height: 20 });
}

#[test]
fn tall_source_is_limited_by_height() {
    // scale = min(80 / 100, 48 / 300) = 0.16
    let t = fit_target(100, 300, 80, 48, false);
    assert_eq!(t, TargetSize { width: 16, height: 48 });
}

#[test]
fn truncated_dimensions_are_clamped() {
    let flat = fit_target(1000, 1, 10, 10, false);
    assert_eq!(flat, TargetSize { width: 10, height: 2 });
    let thin = fit_target(1, 1000, 10, 10, false);
    assert_eq!(thin, TargetSize { width: 1, height: 10 });
}

#[test]
fn fitted_sizes_stay_within_capacity_and_aspect() {
    let sources = [(1u32, 1u32), (3, 7), (640, 480), (1920, 1080), (17, 333), (999, 2), (50, 50)];
    let terminals = [(1u32, 2u32), (80, 48), (200, 100), (13, 9), (40, 40)];
    for &(gx, gy) in sources.iter() {
        for &(tx, ty) in terminals.iter() {
            let t = fit_target(gx, gy, tx, ty, false);
            assert!(t.width >= 1 && t.width <= tx, "{gx}x{gy} in {tx}x{ty}");
            assert!(t.height >= 2 && t.height <= ty, "{gx}x{gy} in {tx}x{ty}");
            assert_eq!(t.height % 2, 0);
            let skew = (t.width as i64) * (gy as i64) - (t.height as i64) * (gx as i64);
            assert!(skew.abs() <= (gy as i64) + 2 * (gx as i64), "{gx}x{gy} in {tx}x{ty}");
        }
    }
}
