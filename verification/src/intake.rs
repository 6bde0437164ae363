//! Taking in the input of a frame: the events since the last frame are spread
//! evenly over the time that has passed, the trackers follow the touches, and
//! the keys are counted.

use vstd::prelude::*;
use crate::frame::{InputEvent, Intake, Motion, Touch, TouchPhase};
use crate::judge::Judge;
use crate::strike::views;
use crate::tracker::{TrackerView, VelocityTracker};
use crate::units::{magnitude, quotient, Point};

verus! {

/// Number of events that are events of a touch.
pub open spec fn count_touch_events(events: Seq<InputEvent>) -> nat
    decreases events.len(),
{
    if events.len() == 0 {
        0
    } else {
        count_touch_events(events.drop_last()) + if events.last() is Touch { 1nat } else { 0nat }
    }
}

/// The time of the `k`-th of `n` touch events that are spread evenly over the
/// time from `last` to `now`: `k` of `n + 1` equal parts of that time after
/// `last`, rounded toward `last` to a whole millisecond, so that the last event
/// comes before `now`.
pub open spec fn event_time(last: int, now: int, n: nat, k: int) -> int {
    last + quotient(k * (now - last), (n + 1) as int)
}

/// A count one higher, unless it is the highest that there is.
pub open spec fn one_more(count: u32) -> u32 {
    if count == u32::MAX { count } else { (count + 1) as u32 }
}

/// A count one lower, unless it is zero.
pub open spec fn one_less(count: u32) -> u32 {
    if count == 0 { count } else { (count - 1) as u32 }
}

/// A touch, marked as started if it is the touch `id`.
pub open spec fn restarted(touch: Touch, id: u64) -> Touch {
    if touch.id == id { Touch { phase: TouchPhase::Started, ..touch } } else { touch }
}

/// The touches after the touch `id` started at `position`: the touches of that
/// name are marked as started, and if there is none, one is added.
pub open spec fn started(touches: Seq<Touch>, id: u64, position: Point) -> Seq<Touch> {
    if exists|k: int| 0 <= k < touches.len() && (#[trigger] touches[k]).id == id {
        Seq::new(touches.len(), |k: int| restarted(touches[k], id))
    } else {
        touches.push(Touch { id, phase: TouchPhase::Started, position })
    }
}

/// Whether no two touches bear one name.
pub open spec fn distinct_ids(touches: Seq<Touch>) -> bool {
    forall|i: int, j: int|
        0 <= i < j < touches.len() ==> (#[trigger] touches[i]).id != (#[trigger] touches[j]).id
}

/// The touches after a touch was put among them: it takes the place of the
/// touches of its name, and if there is none, it is added.
pub open spec fn put(touches: Seq<Touch>, touch: Touch) -> Seq<Touch> {
    if exists|k: int| 0 <= k < touches.len() && (#[trigger] touches[k]).id == touch.id {
        Seq::new(touches.len(), |k: int| if touches[k].id == touch.id { touch } else { touches[k] })
    } else {
        touches.push(touch)
    }
}

/// The touches `acc` after the touches from place `i` on were put among them,
/// in turn.
pub open spec fn put_from(acc: Seq<Touch>, touches: Seq<Touch>, i: int) -> Seq<Touch>
    decreases touches.len() - i,
{
    if i < 0 || i >= touches.len() {
        acc
    } else {
        put_from(put(acc, touches[i]), touches, i + 1)
    }
}

/// The touches that the screen reports, one for each name: of several touches
/// of one name the last counts, at the place of the first.
pub open spec fn one_per_id(touches: Seq<Touch>) -> Seq<Touch> {
    put_from(Seq::empty(), touches, 0)
}

/// Putting a touch among touches of distinct names keeps the names distinct.
pub proof fn lemma_put_distinct(touches: Seq<Touch>, touch: Touch)
    requires
        distinct_ids(touches),
    ensures
        distinct_ids(put(touches, touch)),
{
    let after = put(touches, touch);
    if exists|k: int| 0 <= k < touches.len() && (#[trigger] touches[k]).id == touch.id {
        assert forall|i: int, j: int| 0 <= i < j < after.len() implies (#[trigger] after[i]).id != (
        #[trigger] after[j]).id by {
            assert(after[i].id == touches[i].id);
            assert(after[j].id == touches[j].id);
        }
    } else {
        assert forall|i: int, j: int| 0 <= i < j < after.len() implies (#[trigger] after[i]).id != (
        #[trigger] after[j]).id by {
            if j < touches.len() {
                assert(after[i] == touches[i] && after[j] == touches[j]);
            } else {
                assert(after[i] == touches[i]);
            }
        }
    }
}

/// The start of a touch among touches of distinct names keeps the names distinct.
pub proof fn lemma_started_distinct(touches: Seq<Touch>, id: u64, position: Point)
    requires
        distinct_ids(touches),
    ensures
        distinct_ids(started(touches, id, position)),
{
    let after = started(touches, id, position);
    if exists|k: int| 0 <= k < touches.len() && (#[trigger] touches[k]).id == id {
        assert forall|i: int, j: int| 0 <= i < j < after.len() implies (#[trigger] after[i]).id != (
        #[trigger] after[j]).id by {
            assert(after[i].id == touches[i].id);
            assert(after[j].id == touches[j].id);
        }
    } else {
        assert forall|i: int, j: int| 0 <= i < j < after.len() implies (#[trigger] after[i]).id != (
        #[trigger] after[j]).id by {
            if j < touches.len() {
                assert(after[i] == touches[i] && after[j] == touches[j]);
            } else {
                assert(after[i] == touches[i]);
            }
        }
    }
}

/// What the intake of a frame has gathered.
pub struct Gathered {
    pub trackers: Map<u64, TrackerView>,
    pub touches: Seq<Touch>,
    /// Number of keys held down.
    pub key_down_count: u32,
    /// Number of keys that went down in this frame.
    pub keys_down: u32,
}

/// What is gathered after one event, which for an event of a touch happened at `time`.
///
/// A touch that starts gets a new tracker with its first sample and is marked
/// as started; a touch that moves adds a sample to its tracker, if it has one;
/// a touch that ends loses its tracker. A key that goes down is counted, but
/// for its repeats; a key that goes up is counted off.
pub open spec fn event_step(g: Gathered, event: InputEvent, time: i32) -> Gathered {
    match event {
        InputEvent::Touch { id, motion, position } => match motion {
            Motion::Started => Gathered {
                trackers: g.trackers.insert(id, TrackerView::fresh((time, position))),
                touches: started(g.touches, id, position),
                ..g
            },
            Motion::Moved => Gathered {
                trackers: if g.trackers.contains_key(id) {
                    g.trackers.insert(id, g.trackers[id].push((time, position)))
                } else {
                    g.trackers
                },
                ..g
            },
            Motion::Ended => Gathered { trackers: g.trackers.remove(id), ..g },
            Motion::Cancelled => Gathered { trackers: g.trackers.remove(id), ..g },
        },
        InputEvent::KeyDown { repeat } => if repeat {
            g
        } else {
            Gathered {
                key_down_count: one_more(g.key_down_count),
                keys_down: one_more(g.keys_down),
                ..g
            }
        },
        InputEvent::KeyUp => Gathered { key_down_count: one_less(g.key_down_count), ..g },
    }
}

/// What is gathered after the events from place `i` on, of which the touch
/// events follow `seen` earlier ones of `n` in all, spread over the time from
/// `last` to `now`.
pub open spec fn gathered_from(
    g: Gathered,
    events: Seq<InputEvent>,
    i: int,
    seen: int,
    last: int,
    now: int,
    n: nat,
) -> Gathered
    decreases events.len() - i,
{
    if i < 0 || i >= events.len() {
        g
    } else if events[i] is Touch {
        gathered_from(
            event_step(g, events[i], event_time(last, now, n, seen + 1) as i32),
            events,
            i + 1,
            seen + 1,
            last,
            now,
            n,
        )
    } else {
        gathered_from(event_step(g, events[i], 0), events, i + 1, seen, last, now, n)
    }
}

/// What the intake of a frame at `now` gathers from the touches that the screen
/// reports, taken one for each name, and the events since the frame at `last`.
pub open spec fn gathered(
    trackers: Map<u64, TrackerView>,
    key_down_count: u32,
    last: i32,
    now: i32,
    touches: Seq<Touch>,
    events: Seq<InputEvent>,
) -> Gathered {
    gathered_from(
        Gathered { trackers, touches: one_per_id(touches), key_down_count, keys_down: 0 },
        events,
        0,
        0,
        last as int,
        now as int,
        count_touch_events(events),
    )
}

/// The first events hold no more touch events than all of them.
proof fn lemma_count_touch_events_prefix(events: Seq<InputEvent>, i: int)
    requires
        0 <= i <= events.len(),
    ensures
        count_touch_events(events.take(i)) <= count_touch_events(events),
    decreases events.len(),
{
    if i < events.len() {
        assert(events.drop_last().take(i) =~= events.take(i));
        lemma_count_touch_events_prefix(events.drop_last(), i);
    } else {
        assert(events.take(i) =~= events);
    }
}

/// The time of an event lies between the frames.
proof fn lemma_event_time_within(last: int, now: int, n: nat, k: int)
    requires
        0 <= k <= n + 1,
    ensures
        now >= last ==> last <= event_time(last, now, n, k) <= now,
        now <= last ==> now <= event_time(last, now, n, k) <= last,
{
    let span = magnitude(now - last);
    let d = (n + 1) as int;
    assert(magnitude(k * (now - last)) == k * span) by (nonlinear_arith)
        requires
            0 <= k,
            span == magnitude(now - last),
    ;
    assert(0 <= (k * span) / d <= span) by (nonlinear_arith)
        requires
            0 <= k <= d,
            span >= 0,
            d > 0,
    ;
    assert(k * (now - last) >= 0 <==> now >= last || k == 0) by (nonlinear_arith)
        requires
            0 <= k,
    ;
}

/// Puts a touch among the touches: in the place of the touches of its name, or
/// at the end if there is none.
fn put_touch(touches: &mut Vec<Touch>, touch: Touch)
    ensures
        final(touches)@ == put(old(touches)@, touch),
{
    let mut found = false;
    let mut k: usize = 0;
    while k < touches.len()
        invariant
            k <= touches@.len(),
            touches@.len() == old(touches)@.len(),
            forall|i: int|
                0 <= i < k ==> (#[trigger] touches@[i]) == if old(touches)@[i].id == touch.id {
                    touch
                } else {
                    old(touches)@[i]
                },
            forall|i: int| k <= i < touches@.len() ==> (#[trigger] touches@[i]) == old(touches)@[i],
            found <==> exists|i: int| 0 <= i < k && (#[trigger] old(touches)@[i]).id == touch.id,
        decreases touches.len() - k,
    {
        if touches[k].id == touch.id {
            touches[k] = touch;
            found = true;
        }
        k = k + 1;
    }
    if !found {
        touches.push(touch);
        assert forall|i: int| 0 <= i < old(touches)@.len() implies touches@[i] == old(touches)@[i] by {
            assert(old(touches)@[i].id != touch.id);
        }
        assert(touches@ =~= old(touches)@.push(touch));
    } else {
        assert(touches@ =~= Seq::new(
            old(touches)@.len(),
            |k: int| if old(touches)@[k].id == touch.id { touch } else { old(touches)@[k] },
        ));
    }
}

/// Marks the touches named `id` as started, or adds the touch if there is none.
fn start_touch(touches: &mut Vec<Touch>, id: u64, position: Point)
    ensures
        final(touches)@ == started(old(touches)@, id, position),
{
    let mut found = false;
    let mut k: usize = 0;
    while k < touches.len()
        invariant
            k <= touches@.len(),
            touches@.len() == old(touches)@.len(),
            forall|i: int| 0 <= i < k ==> (#[trigger] touches@[i]) == restarted(old(touches)@[i], id),
            forall|i: int| k <= i < touches@.len() ==> (#[trigger] touches@[i]) == old(touches)@[i],
            found <==> exists|i: int| 0 <= i < k && (#[trigger] old(touches)@[i]).id == id,
        decreases touches.len() - k,
    {
        if touches[k].id == id {
            touches[k].phase = TouchPhase::Started;
            found = true;
        }
        k = k + 1;
    }
    if !found {
        touches.push(Touch { id, phase: TouchPhase::Started, position });
        assert forall|i: int| 0 <= i < old(touches)@.len() implies touches@[i] == old(touches)@[i] by {
            assert(touches@[i] == restarted(old(touches)@[i], id));
        }
        assert(touches@ =~= old(touches)@.push(Touch { id, phase: TouchPhase::Started, position }));
    } else {
        assert(touches@ =~= Seq::new(old(touches)@.len(), |k: int| restarted(old(touches)@[k], id)));
    }
}

/// The time of the `k`-th of `n` touch events of a frame that began `span`
/// milliseconds after the frame at `last`.
fn time_of(last: i64, span: i64, n: usize, k: usize) -> (time: i32)
    requires
        i32::MIN <= last <= i32::MAX,
        i32::MIN <= last + span <= i32::MAX,
        0 < k <= n,
    ensures
        time == event_time(last as int, last + span, n as nat, k as int),
{
    proof {
        lemma_event_time_within(last as int, last + span, n as nat, k as int);
        assert(magnitude(k * span) == k * magnitude(span as int)) by (nonlinear_arith)
            requires
                0 <= k,
        ;
        assert(k * magnitude(span as int) <= 0x1_0000_0000_0000_0000 * 0x1_0000_0000)
            by (nonlinear_arith)
            requires
                0 <= k <= 0x1_0000_0000_0000_0000,
                0 <= magnitude(span as int) <= 0x1_0000_0000,
        ;
        assert(k * span >= 0 <==> span >= 0) by (nonlinear_arith)
            requires
                0 < k,
        ;
    }
    let size: u128 = if span >= 0 { span as u128 } else { (-span) as u128 };
    let part: i64 = ((k as u128 * size) / (n as u128 + 1)) as i64;
    let offset: i64 = if span >= 0 { part } else { -part };
    (last + offset) as i32
}

impl Judge {
    /// Takes in the input of the frame at `now`: the touches that the screen
    /// reports and the events since the last frame, in the order in which they came.
    ///
    /// Of the touches that the screen reports under one name the last counts, so
    /// that the touches of the frame bear distinct names. The touch events are
    /// spread evenly over the time since the last frame, and the trackers follow
    /// them; a touch that started is marked as such among the touches, or added
    /// to them. The keys that went down, but for repeats, are
    /// counted for this frame and as held, and the keys that went up are counted
    /// off. The counts stay within their range: the highest count is not raised,
    /// and zero is not lowered.
    pub fn collect(&mut self, now: i32, touches: Vec<Touch>, events: &Vec<InputEvent>) -> (intake:
        Intake)
        requires
            old(self).wf(),
        ensures
            final(self).wf(),
            ({
                let g = gathered(
                    old(self).tracker_views(),
                    old(self).key_down_count,
                    old(self).last_time,
                    now,
                    touches@,
                    events@,
                );
                &&& final(self).tracker_views() == g.trackers
                &&& final(self).key_down_count == g.key_down_count
                &&& intake.touches@ == g.touches
                &&& intake.keys_down == g.keys_down
            }),
            distinct_ids(intake.touches@),
            final(self).notes == old(self).notes,
            final(self).tally() == old(self).tally(),
            final(self).num_of_notes == old(self).num_of_notes,
            final(self).last_time == old(self).last_time,
    {
        broadcast use vstd::std_specs::hash::group_hash_axioms;

        let mut n: usize = 0;
        let mut i: usize = 0;
        while i < events.len()
            invariant
                i <= events@.len(),
                n == count_touch_events(events@.take(i as int)),
                n <= i,
            decreases events.len() - i,
        {
            assert(events@.take(i + 1).drop_last() =~= events@.take(i as int));
            match events[i] {
                InputEvent::Touch { .. } => {
                    n = n + 1;
                },
                _ => {},
            }
            i = i + 1;
        }
        assert(events@.take(i as int) =~= events@);
        let last: i64 = self.last_time as i64;
        let span: i64 = now as i64 - last;
        let ghost goal = gathered(
            self.tracker_views(),
            self.key_down_count,
            self.last_time,
            now,
            touches@,
            events@,
        );
        let reported = touches;
        let mut touches: Vec<Touch> = Vec::new();
        let mut k: usize = 0;
        while k < reported.len()
            invariant
                k <= reported@.len(),
                distinct_ids(touches@),
                one_per_id(reported@) == put_from(touches@, reported@, k as int),
            decreases reported.len() - k,
        {
            proof {
                lemma_put_distinct(touches@, reported@[k as int]);
            }
            put_touch(&mut touches, reported[k]);
            k = k + 1;
        }
        let mut keys_down: u32 = 0;
        let mut seen: usize = 0;
        let mut i: usize = 0;
        while i < events.len()
            invariant
                i <= events@.len(),
                self.wf(),
                self.notes == old(self).notes,
                self.tally() == old(self).tally(),
                self.num_of_notes == old(self).num_of_notes,
                self.last_time == old(self).last_time,
                last == self.last_time,
                n == count_touch_events(events@),
                span == now - last,
                distinct_ids(touches@),
                seen == count_touch_events(events@.take(i as int)),
                seen <= n,
                goal == gathered_from(
                    (Gathered {
                        trackers: self.tracker_views(),
                        touches: touches@,
                        key_down_count: self.key_down_count,
                        keys_down,
                    }),
                    events@,
                    i as int,
                    seen as int,
                    last as int,
                    now as int,
                    n as nat,
                ),
            decreases events.len() - i,
        {
            proof {
                assert(events@.take(i + 1).drop_last() =~= events@.take(i as int));
                lemma_count_touch_events_prefix(events@, i + 1);
            }
            match events[i] {
                InputEvent::Touch { id, motion, position } => {
                    seen = seen + 1;
                    let at: i32 = time_of(last, span, n, seen);
                    let ghost before = self.trackers@;
                    match motion {
                        Motion::Started => {
                            self.trackers.insert(id, VelocityTracker::new(at, position));
                            proof {
                                lemma_started_distinct(touches@, id, position);
                            }
                            start_touch(&mut touches, id, position);
                            assert(views(self.trackers@) =~= views(before).insert(
                                id,
                                TrackerView::fresh((at, position)),
                            ));
                        },
                        Motion::Moved => {
                            match self.trackers.remove(&id) {
                                Some(mut tracker) => {
                                    tracker.push(at, position);
                                    self.trackers.insert(id, tracker);
                                    assert(views(self.trackers@) =~= views(before).insert(
                                        id,
                                        views(before)[id].push((at, position)),
                                    ));
                                },
                                None => {
                                    assert(self.trackers@ =~= before);
                                },
                            }
                        },
                        Motion::Ended => {
                            self.trackers.remove(&id);
                            assert(views(self.trackers@) =~= views(before).remove(id));
                        },
                        Motion::Cancelled => {
                            self.trackers.remove(&id);
                            assert(views(self.trackers@) =~= views(before).remove(id));
                        },
                    }
                },
                InputEvent::KeyDown { repeat } => {
                    if !repeat {
                        if self.key_down_count < u32::MAX {
                            self.key_down_count = self.key_down_count + 1;
                        }
                        if keys_down < u32::MAX {
                            keys_down = keys_down + 1;
                        }
                    }
                },
                InputEvent::KeyUp => {
                    if self.key_down_count > 0 {
                        self.key_down_count = self.key_down_count - 1;
                    }
                },
            }
            i = i + 1;
        }
        Intake { touches, keys_down }
    }
}

} // verus!
