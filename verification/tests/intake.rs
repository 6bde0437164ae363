use prpr::chart::Chart;
use prpr::frame::{mouse_touch, InputEvent, Motion, Touch, TouchPhase, MOUSE_TOUCH_ID};
use prpr::judge::Judge;
use prpr::units::{Point, Vector};

fn at(x: i32, y: i32) -> Point {
    Point { x, y }
}

fn touch(id: u64, motion: Motion, position: Point) -> InputEvent {
    InputEvent::Touch { id, motion, position }
}

fn judge() -> Judge {
    Judge::new(&Chart { lines: Vec::new() })
}

#[test]
fn events_are_spread_evenly_over_the_frame() {
    let mut judge = judge();
    judge.last_time = 1_000;
    // Three touch events in 40 milliseconds come at 1 010, 1 020 and 1 030:
    // the touch moves by 100 units a millisecond.
    let events = vec![
        touch(3, Motion::Started, at(0, 0)),
        InputEvent::KeyDown { repeat: false },
        touch(3, Motion::Moved, at(1_000, 0)),
        InputEvent::KeyUp,
        touch(3, Motion::Moved, at(2_000, 0)),
    ];
    judge.collect(1_040, Vec::new(), &events);
    assert_eq!(judge.trackers.len(), 1);
    assert_eq!(judge.trackers[&3].speed(), Vector { x: 100_000, y: 0 });
    // Taking in input does not end the frame.
    assert_eq!(judge.last_time, 1_000);
}

#[test]
fn event_times_are_rounded_to_whole_milliseconds() {
    let mut judge = judge();
    // Three events in 10 milliseconds come at 2.5, 5 and 7.5, taken as 2, 5
    // and 7: the parabola through them has the slope 56.67 at the last.
    let events = vec![
        touch(3, Motion::Started, at(0, 0)),
        touch(3, Motion::Moved, at(100, 0)),
        touch(3, Motion::Moved, at(200, 0)),
    ];
    judge.collect(10, Vec::new(), &events);
    assert_eq!(judge.trackers[&3].speed(), Vector { x: 56_666, y: 0 });
}

#[test]
fn many_events_in_a_short_frame_are_still_spread() {
    let mut judge = judge();
    // Twenty events in 21 milliseconds come one millisecond apart.
    let mut events = vec![touch(3, Motion::Started, at(0, 0))];
    for k in 1..20 {
        events.push(touch(3, Motion::Moved, at(100 * k, 0)));
    }
    judge.collect(21, Vec::new(), &events);
    assert_eq!(judge.trackers[&3].speed(), Vector { x: 100_000, y: 0 });
    // Twenty events in 16 milliseconds do not all come at once either.
    let mut judge = self::judge();
    judge.collect(16, Vec::new(), &events);
    assert_ne!(judge.trackers[&3].speed(), Vector { x: 0, y: 0 });
}

#[test]
fn events_of_a_frame_of_two_milliseconds_share_their_times() {
    let mut judge = judge();
    judge.last_time = 500;
    // The events come at 500, 501 and 501: two times are too few for a fit.
    let events = vec![
        touch(3, Motion::Started, at(0, 0)),
        touch(3, Motion::Moved, at(100, 0)),
        touch(3, Motion::Moved, at(200, 0)),
    ];
    judge.collect(502, Vec::new(), &events);
    assert_eq!(judge.trackers[&3].speed(), Vector { x: 0, y: 0 });
}

#[test]
fn time_that_runs_backward_is_spread_as_well() {
    let mut judge = judge();
    judge.last_time = 1_040;
    // The events come at 1 030, 1 020 and 1 010.
    let events = vec![
        touch(3, Motion::Started, at(0, 0)),
        touch(3, Motion::Moved, at(1_000, 0)),
        touch(3, Motion::Moved, at(2_000, 0)),
    ];
    judge.collect(1_000, Vec::new(), &events);
    assert_eq!(judge.trackers[&3].speed(), Vector { x: -100_000, y: 0 });
}

#[test]
fn started_touch_is_marked_or_added() {
    let mut judge = judge();
    let touches = vec![
        Touch { id: 1, phase: TouchPhase::Moved, position: at(10, 10) },
        Touch { id: 2, phase: TouchPhase::Stationary, position: at(20, 20) },
    ];
    let events = vec![touch(2, Motion::Started, at(21, 21)), touch(9, Motion::Started, at(90, 90))];
    let intake = judge.collect(16, touches, &events);
    assert_eq!(intake.touches.len(), 3);
    assert_eq!(intake.touches[0].id, 1);
    assert_eq!(intake.touches[0].phase, TouchPhase::Moved);
    assert_eq!(intake.touches[1].id, 2);
    assert_eq!(intake.touches[1].phase, TouchPhase::Started);
    assert_eq!(intake.touches[1].position, at(20, 20));
    assert_eq!(intake.touches[2].id, 9);
    assert_eq!(intake.touches[2].phase, TouchPhase::Started);
    assert_eq!(intake.touches[2].position, at(90, 90));
    assert_eq!(intake.keys_down, 0);
    assert_eq!(judge.trackers.len(), 2);
}

#[test]
fn ended_touch_loses_its_tracker() {
    let mut judge = judge();
    let events = vec![
        touch(1, Motion::Started, at(0, 0)),
        touch(2, Motion::Started, at(0, 0)),
        touch(3, Motion::Started, at(0, 0)),
        touch(1, Motion::Ended, at(0, 0)),
        touch(2, Motion::Cancelled, at(0, 0)),
        touch(4, Motion::Ended, at(0, 0)),
    ];
    let intake = judge.collect(16, Vec::new(), &events);
    assert_eq!(judge.trackers.len(), 1);
    assert!(judge.trackers.contains_key(&3));
    // The touches that ended stay among the touches of the frame.
    assert_eq!(intake.touches.len(), 3);
}

#[test]
fn move_of_an_unknown_touch_is_ignored() {
    let mut judge = judge();
    let events = vec![touch(5, Motion::Moved, at(0, 0))];
    let intake = judge.collect(16, Vec::new(), &events);
    assert!(judge.trackers.is_empty());
    assert!(intake.touches.is_empty());
}

#[test]
fn restarted_touch_gets_a_new_tracker() {
    let mut judge = judge();
    let events = vec![
        touch(3, Motion::Started, at(0, 0)),
        touch(3, Motion::Moved, at(1_000, 0)),
        touch(3, Motion::Moved, at(2_000, 0)),
    ];
    judge.collect(40, Vec::new(), &events);
    judge.last_time = 40;
    judge.collect(50, Vec::new(), &vec![touch(3, Motion::Started, at(0, 0))]);
    assert_eq!(judge.trackers[&3].speed(), Vector { x: 0, y: 0 });
}

#[test]
fn keys_are_counted_without_their_repeats() {
    let mut judge = judge();
    let events = vec![
        InputEvent::KeyDown { repeat: false },
        InputEvent::KeyDown { repeat: true },
        InputEvent::KeyDown { repeat: false },
        InputEvent::KeyUp,
        InputEvent::KeyDown { repeat: true },
    ];
    let intake = judge.collect(16, Vec::new(), &events);
    assert_eq!(intake.keys_down, 2);
    assert_eq!(judge.key_down_count, 1);
    let intake = judge.collect(32, Vec::new(), &vec![InputEvent::KeyUp]);
    assert_eq!(intake.keys_down, 0);
    assert_eq!(judge.key_down_count, 0);
}

#[test]
fn key_counts_stay_in_range() {
    let mut judge = judge();
    let intake = judge.collect(16, Vec::new(), &vec![InputEvent::KeyUp, InputEvent::KeyUp]);
    assert_eq!(judge.key_down_count, 0);
    assert_eq!(intake.keys_down, 0);
    judge.key_down_count = u32::MAX;
    let intake = judge.collect(32, Vec::new(), &vec![InputEvent::KeyDown { repeat: false }]);
    assert_eq!(judge.key_down_count, u32::MAX);
    assert_eq!(intake.keys_down, 1);
}

#[test]
fn frame_without_events_changes_nothing() {
    let mut judge = judge();
    let touches = vec![Touch { id: 1, phase: TouchPhase::Ended, position: at(1, 2) }];
    let intake = judge.collect(16, touches, &Vec::new());
    assert_eq!(intake.touches.len(), 1);
    assert_eq!(intake.touches[0].phase, TouchPhase::Ended);
    assert_eq!(intake.keys_down, 0);
    assert!(judge.trackers.is_empty());
}

#[test]
fn mouse_button_stands_for_a_touch() {
    let started = mouse_touch(true, true, false, at(3, 4)).unwrap();
    assert_eq!(started.id, MOUSE_TOUCH_ID);
    assert_eq!(started.id, u64::MAX);
    assert_eq!(started.phase, TouchPhase::Started);
    assert_eq!(started.position, at(3, 4));
    let moved = mouse_touch(false, true, false, at(5, 6)).unwrap();
    assert_eq!(moved.phase, TouchPhase::Moved);
    assert_eq!(moved.position, at(5, 6));
    let ended = mouse_touch(false, false, true, at(7, 8)).unwrap();
    assert_eq!(ended.phase, TouchPhase::Ended);
    assert_eq!(ended.id, MOUSE_TOUCH_ID);
    // A button that went down and up within one frame counts as down.
    assert_eq!(mouse_touch(true, false, true, at(0, 0)).unwrap().phase, TouchPhase::Started);
    assert!(mouse_touch(false, false, false, at(0, 0)).is_none());
}

#[test]
fn touches_of_one_name_count_once() {
    let mut judge = judge();
    let touches = vec![
        Touch { id: 1, phase: TouchPhase::Moved, position: at(10, 10) },
        Touch { id: 2, phase: TouchPhase::Stationary, position: at(20, 20) },
        Touch { id: 1, phase: TouchPhase::Ended, position: at(11, 11) },
        Touch { id: 3, phase: TouchPhase::Moved, position: at(30, 30) },
        Touch { id: 2, phase: TouchPhase::Moved, position: at(21, 21) },
    ];
    let intake = judge.collect(16, touches, &vec![touch(3, Motion::Started, at(31, 31))]);
    // Of the touches of one name the last counts, at the place of the first.
    assert_eq!(intake.touches.len(), 3);
    assert_eq!(intake.touches[0].id, 1);
    assert_eq!(intake.touches[0].phase, TouchPhase::Ended);
    assert_eq!(intake.touches[0].position, at(11, 11));
    assert_eq!(intake.touches[1].id, 2);
    assert_eq!(intake.touches[1].phase, TouchPhase::Moved);
    assert_eq!(intake.touches[1].position, at(21, 21));
    assert_eq!(intake.touches[2].id, 3);
    assert_eq!(intake.touches[2].phase, TouchPhase::Started);
    assert_eq!(intake.touches[2].position, at(30, 30));
}
