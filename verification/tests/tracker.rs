use prpr::tracker::VelocityTracker;
use prpr::units::{Point, Vector};

fn at(x: i32, y: i32) -> Point {
    Point { x, y }
}

/// Ten samples of a touch that starts at `from` at time `start` and moves by `step`
/// every ten milliseconds: enough to fill the window.
fn glide(tracker: &mut VelocityTracker, start: i32, from: Point, step: (i32, i32)) -> (i32, Point) {
    let mut time = start;
    let mut place = from;
    for _ in 0..10 {
        time += 10;
        place = at(place.x + step.0, place.y + step.1);
        tracker.push(time, place);
    }
    (time, place)
}

#[test]
fn empty_tracker_is_at_rest() {
    let tracker = VelocityTracker::empty();
    assert_eq!(tracker.speed(), Vector { x: 0, y: 0 });
}

#[test]
fn one_or_two_samples_show_no_velocity() {
    let mut tracker = VelocityTracker::new(0, at(0, 0));
    assert_eq!(tracker.speed(), Vector { x: 0, y: 0 });
    tracker.push(10, at(500, 500));
    assert_eq!(tracker.speed(), Vector { x: 0, y: 0 });
}

#[test]
fn samples_at_one_time_show_no_velocity() {
    let mut tracker = VelocityTracker::new(5, at(0, 0));
    tracker.push(5, at(100, 0));
    tracker.push(5, at(200, 0));
    assert_eq!(tracker.speed(), Vector { x: 0, y: 0 });
}

#[test]
fn uniform_motion_is_measured_exactly() {
    let mut tracker = VelocityTracker::new(0, at(0, 0));
    tracker.push(10, at(100, -50));
    tracker.push(20, at(200, -100));
    // 10 units a millisecond to the right, 5 upward.
    assert_eq!(tracker.speed(), Vector { x: 10_000, y: -5_000 });
}

#[test]
fn slope_is_that_of_the_parabola_at_the_newest_sample() {
    // x = t * t + 3 * t, with t counted from the newest sample.
    let mut tracker = VelocityTracker::new(980, at(340, 0));
    tracker.push(990, at(70, 0));
    tracker.push(1_000, at(0, 0));
    assert_eq!(tracker.speed(), Vector { x: 3_000, y: 0 });
}

#[test]
fn speed_rounds_toward_zero() {
    // The fit has the slope 21 696 / 44 640 units a millisecond: 486.02 a second.
    let mut tracker = VelocityTracker::new(-7, at(0, 0));
    tracker.push(-3, at(0, 0));
    tracker.push(-1, at(0, 0));
    tracker.push(0, at(1, -1));
    assert_eq!(tracker.speed(), Vector { x: 486, y: -486 });
}

#[test]
fn speed_saturates() {
    let mut tracker = VelocityTracker::new(0, at(i32::MIN, i32::MAX));
    tracker.push(1, at(0, 0));
    tracker.push(2, at(i32::MAX, i32::MIN));
    assert_eq!(tracker.speed(), Vector { x: 1_000_000_000, y: -1_000_000_000 });
}

#[test]
fn samples_more_than_ten_seconds_old_are_left_out() {
    // After a long rest the samples of the rest do not count: the touch is
    // measured by what it does now.
    let mut tracker = VelocityTracker::new(0, at(5_000, 5_000));
    tracker.push(3, at(5_000, 5_000));
    tracker.push(20_000, at(0, 0));
    tracker.push(20_010, at(200, 0));
    tracker.push(20_020, at(400, 0));
    assert_eq!(tracker.speed(), Vector { x: 20_000, y: 0 });
    assert!(tracker.has_flick(275));
}

#[test]
fn sample_ten_seconds_old_still_counts() {
    let mut tracker = VelocityTracker::new(2, at(0, 0));
    tracker.push(9_992, at(100, 0));
    tracker.push(10_002, at(200, 0));
    assert_ne!(tracker.speed(), Vector { x: 0, y: 0 });
    // One millisecond older, and two samples are left: too few for a fit.
    let mut tracker = VelocityTracker::new(1, at(0, 0));
    tracker.push(9_992, at(100, 0));
    tracker.push(10_002, at(200, 0));
    assert_eq!(tracker.speed(), Vector { x: 0, y: 0 });
}

#[test]
fn window_keeps_the_last_ten_samples() {
    let mut tracker = VelocityTracker::new(0, at(99_999, 99_999));
    let mut time = 0;
    for i in 0..9 {
        time += 10;
        tracker.push(time, at(100 * i, 0));
    }
    // The stray first sample is still in the window.
    assert_ne!(tracker.speed(), Vector { x: 10_000, y: 0 });
    tracker.push(time + 10, at(900, 0));
    assert_eq!(tracker.speed(), Vector { x: 10_000, y: 0 });
}

#[test]
fn reset_forgets_the_samples() {
    let mut tracker = VelocityTracker::new(0, at(0, 0));
    tracker.push(10, at(100, 0));
    tracker.push(20, at(200, 0));
    tracker.reset();
    assert_eq!(tracker.speed(), Vector { x: 0, y: 0 });
    tracker.push(30, at(0, 0));
    tracker.push(40, at(0, 0));
    assert_eq!(tracker.speed(), Vector { x: 0, y: 0 });
}

#[test]
fn touch_below_the_threshold_never_flicks() {
    let mut tracker = VelocityTracker::new(0, at(0, 0));
    // 17 900 units a second; the threshold at 275 dots per inch is 18 000.
    glide(&mut tracker, 0, at(0, 0), (179, 0));
    assert_eq!(tracker.speed(), Vector { x: 17_900, y: 0 });
    for _ in 0..5 {
        assert!(!tracker.has_flick(275));
    }
}

#[test]
fn touch_at_the_threshold_does_not_flick() {
    let mut tracker = VelocityTracker::new(0, at(0, 0));
    // Exactly 18 000 units a second does not exceed the threshold.
    glide(&mut tracker, 0, at(0, 0), (180, 0));
    assert_eq!(tracker.speed(), Vector { x: 18_000, y: 0 });
    assert!(!tracker.has_flick(275));
    // On a screen less dense the threshold is lower, and the same motion exceeds it.
    assert!(tracker.has_flick(274));
}

#[test]
fn touch_above_the_threshold_flicks() {
    let mut tracker = VelocityTracker::new(0, at(0, 0));
    glide(&mut tracker, 0, at(0, 0), (181, 0));
    assert_eq!(tracker.speed(), Vector { x: 18_100, y: 0 });
    assert!(tracker.has_flick(275));
}

#[test]
fn threshold_grows_with_the_pixel_density() {
    let mut tracker = VelocityTracker::new(0, at(0, 0));
    glide(&mut tracker, 0, at(0, 0), (0, -360));
    assert!(tracker.has_flick(549));
    assert!(!tracker.has_flick(550));
}

#[test]
fn fast_touch_flicks_until_the_flick_is_consumed() {
    let mut tracker = VelocityTracker::new(0, at(0, 0));
    // Two viewport units a second on the reference screen.
    let (time, place) = glide(&mut tracker, 0, at(0, 0), (200, 0));
    assert!(tracker.has_flick(275));
    assert!(tracker.has_flick(275));
    tracker.consume_flick();
    assert!(!tracker.has_flick(275));
    // Going on as fast in the same direction does not flick again.
    glide(&mut tracker, time, place, (200, 0));
    assert!(!tracker.has_flick(275));
}

#[test]
fn slowing_down_releases_a_consumed_flick() {
    let mut tracker = VelocityTracker::new(0, at(0, 0));
    let (time, place) = glide(&mut tracker, 0, at(0, 0), (200, 0));
    tracker.consume_flick();
    // 12 100 units a second is above the release threshold of 12 000.
    let (time, place) = glide(&mut tracker, time, place, (121, 0));
    assert!(!tracker.has_flick(275));
    let (time, place) = glide(&mut tracker, time, place, (200, 0));
    assert!(!tracker.has_flick(275));
    // At 12 000 the flick is released, and the touch flicks once it is fast again.
    let (time, place) = glide(&mut tracker, time, place, (120, 0));
    assert!(!tracker.has_flick(275));
    glide(&mut tracker, time, place, (200, 0));
    assert!(tracker.has_flick(275));
}

#[test]
fn turning_releases_a_consumed_flick() {
    let mut tracker = VelocityTracker::new(0, at(0, 0));
    let (time, place) = glide(&mut tracker, 0, at(0, 0), (200, 0));
    tracker.consume_flick();
    // A cosine of exactly three fifths is no turn yet.
    let (time, place) = glide(&mut tracker, time, place, (120, 160));
    assert_eq!(tracker.speed(), Vector { x: 12_000, y: 16_000 });
    assert!(!tracker.has_flick(275));
    // A cosine under three fifths is.
    glide(&mut tracker, time, place, (119, 160));
    assert!(tracker.has_flick(275));
}

#[test]
fn turning_back_releases_a_consumed_flick() {
    let mut tracker = VelocityTracker::new(0, at(0, 0));
    let (time, place) = glide(&mut tracker, 0, at(0, 0), (200, 0));
    tracker.consume_flick();
    glide(&mut tracker, time, place, (-200, 0));
    assert!(tracker.has_flick(275));
}

#[test]
fn flick_consumed_at_rest_is_released_by_slowness_only() {
    let mut tracker = VelocityTracker::new(0, at(0, 0));
    tracker.consume_flick();
    let (time, place) = glide(&mut tracker, 0, at(0, 0), (200, 0));
    assert!(!tracker.has_flick(275));
    let (time, place) = glide(&mut tracker, time, place, (0, 0));
    assert!(!tracker.has_flick(275));
    glide(&mut tracker, time, place, (0, 200));
    assert!(tracker.has_flick(275));
}
