//! Behavior of the exponential smoothing filter.

use ampli_fe::smoothed::SmoothedRange;

#[test]
fn new_reports_initial_value() {
    let mut r = SmoothedRange::new(500_000);
    assert_eq!(r.get_new_value(), Some(500_000));
}

#[test]
fn settled_filter_reports_no_change() {
    let mut r = SmoothedRange::new(500_000);
    r.process();
    assert_eq!(r.get_new_value(), None);
}

#[test]
fn first_step_is_exact() {
    // One step from 0.5 toward 0.75 moves 1/200 of the distance: 1250 units.
    let mut r = SmoothedRange::new(500_000);
    r.set(750_000);
    r.process();
    assert_eq!(r.get_new_value(), Some(501_250));
}

#[test]
fn converges_exactly_to_target() {
    let mut r = SmoothedRange::new(500_000);
    r.set(750_000);
    let mut last: Option<i64> = None;
    let mut settle_step: Option<usize> = None;
    for step in 0..10_000usize {
        r.process();
        if let Some(v) = r.get_new_value() {
            last = Some(v);
            settle_step = Some(step);
        }
    }
    assert_eq!(last, Some(750_000));
    // Convergence happened long before the loop ended and the filter then
    // held its value: every later step reported no change.
    assert!(settle_step.unwrap() < 2_000);
}

#[test]
fn latest_target_wins() {
    // set(a) then set(b) then one process moves toward b only: the value
    // rises toward 750_000 instead of falling toward 0.
    let mut r = SmoothedRange::new(500_000);
    r.set(0);
    r.set(750_000);
    r.process();
    assert_eq!(r.get_new_value(), Some(501_250));
}

#[test]
fn snaps_within_epsilon() {
    // From 0.5 toward 0.5009: one step lands 896 units away, inside the
    // snap threshold, so the value snaps to the target exactly.
    let mut r = SmoothedRange::new(500_000);
    r.set(500_900);
    r.process();
    assert_eq!(r.get_new_value(), Some(500_900));
    r.process();
    assert_eq!(r.get_new_value(), None);
}

#[test]
fn setting_same_target_still_counts_as_change() {
    let mut r = SmoothedRange::new(500_000);
    r.process();
    assert_eq!(r.get_new_value(), None);
    r.set(500_000);
    r.process();
    assert_eq!(r.get_new_value(), Some(500_000));
}
