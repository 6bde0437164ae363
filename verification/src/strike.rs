//! Judging the notes that the input hits: taps and flicks of touches, and keys.

use vstd::prelude::*;
use std::collections::HashMap;
use crate::chart::{
    Chart, Note, NoteKind, chart_succeeds, lemma_count_resolved_update, lemma_total_update,
    line_succeeds, total_resolved,
};
use crate::frame::{Touch, TouchPhase};
use crate::judge::{JudgeStatus, Judgement};
use crate::matching::{find_target, target_of};
use crate::sweep::{
    cursors_fit, lemma_chart_succeeds_transitive, lemma_cursors_fit_later, lemma_line_replaced,
    logged, pending_in_chart, Log, Resolution, Visit,
};
use crate::tracker::{TrackerView, VelocityTracker};
use crate::units::{distance, span, LIMIT_BAD, LIMIT_GOOD, LIMIT_PERFECT};

verus! {

/// What a tap or a flick does with the note it hits.
///
/// A flick catches its note. A tap leaves a flick alone, begins a hold -- perfect
/// if within the perfect window -- and judges any other note by its distance in
/// time: perfect, good, or bad.
pub open spec fn struck(note: Note, time: int, click: bool) -> Visit {
    let dt = distance(note.time as int, time);
    if !click {
        Visit::moved(JudgeStatus::PreJudge)
    } else if note.kind is Flick {
        Visit::keep(note)
    } else if note.kind is Hold {
        Visit {
            judge: JudgeStatus::Hold(dt <= LIMIT_PERFECT, time as i32, (time - note.time) as i64, false),
            tap: true,
            outcome: None,
            stop: false,
        }
    } else if dt <= LIMIT_PERFECT {
        Visit::judged(Judgement::Perfect, None)
    } else if dt <= LIMIT_GOOD {
        Visit::judged(Judgement::Good, None)
    } else {
        Visit::judged(Judgement::Bad, None)
    }
}

/// What a key does with the note it hits.
///
/// Within the bad window a click is judged by its distance in time; within the
/// good window a hold begins. Outside its window the note is left alone.
pub open spec fn pressed(note: Note, time: int) -> Visit {
    let dt = distance(time, note.time as int);
    if note.kind is Click && dt <= LIMIT_BAD {
        if dt <= LIMIT_PERFECT {
            Visit::judged(Judgement::Perfect, None)
        } else if dt <= LIMIT_GOOD {
            Visit::judged(Judgement::Good, None)
        } else {
            Visit::judged(Judgement::Bad, None)
        }
    } else if note.kind is Hold && dt <= LIMIT_GOOD {
        Visit {
            judge: JudgeStatus::Hold(dt <= LIMIT_PERFECT, time as i32, (time - note.time) as i64, false),
            tap: true,
            outcome: None,
            stop: false,
        }
    } else {
        Visit::keep(note)
    }
}

/// The chart after the note at place `id` of line `l` got the status of a visit.
pub open spec fn applied(chart: Seq<Seq<Note>>, l: int, id: int, v: Visit) -> Seq<Seq<Note>> {
    chart.update(l, chart[l].update(id, Note { judge: v.judge, ..chart[l][id] }))
}

/// What a tap or a flick does with the note it hits.
fn strike_note(note: &Note, time: i32, click: bool) -> (v: Visit)
    ensures
        v == struck(*note, time as int, click),
{
    if !click {
        return Visit { judge: JudgeStatus::PreJudge, tap: false, outcome: None, stop: false };
    }
    let dt = span(note.time, time);
    match note.kind {
        NoteKind::Flick => Visit { judge: note.judge, tap: false, outcome: None, stop: false },
        NoteKind::Hold { .. } => Visit {
            judge: JudgeStatus::Hold(dt <= LIMIT_PERFECT, time, time as i64 - note.time as i64, false),
            tap: true,
            outcome: None,
            stop: false,
        },
        _ => {
            let judgement = if dt <= LIMIT_PERFECT {
                Judgement::Perfect
            } else if dt <= LIMIT_GOOD {
                Judgement::Good
            } else {
                Judgement::Bad
            };
            Visit { judge: JudgeStatus::Judged, tap: false, outcome: Some((judgement, None)), stop: false }
        },
    }
}

/// What a key does with the note it hits.
fn press_note(note: &Note, time: i32) -> (v: Visit)
    ensures
        v == pressed(*note, time as int),
{
    let dt = span(time, note.time);
    let keep = Visit { judge: note.judge, tap: false, outcome: None, stop: false };
    match note.kind {
        NoteKind::Click => {
            if dt <= LIMIT_BAD {
                let judgement = if dt <= LIMIT_PERFECT {
                    Judgement::Perfect
                } else if dt <= LIMIT_GOOD {
                    Judgement::Good
                } else {
                    Judgement::Bad
                };
                Visit { judge: JudgeStatus::Judged, tap: false, outcome: Some((judgement, None)), stop: false }
            } else {
                keep
            }
        },
        NoteKind::Hold { .. } => {
            if dt <= LIMIT_GOOD {
                Visit {
                    judge: JudgeStatus::Hold(dt <= LIMIT_PERFECT, time, time as i64 - note.time as i64, false),
                    tap: true,
                    outcome: None,
                    stop: false,
                }
            } else {
                keep
            }
        },
        _ => keep,
    }
}

/// Gives a note the status of a visit and appends to `taps` and `pending` what
/// the visit decided.
fn apply_visit(
    chart: &mut Chart,
    l: usize,
    id: u32,
    v: Visit,
    taps: &mut Vec<(usize, u32)>,
    pending: &mut Vec<Resolution>,
)
    requires
        l < old(chart)@.len(),
        id < old(chart)@[l as int].len(),
        !old(chart)@[l as int][id as int].fake,
        v.judge.follows(old(chart)@[l as int][id as int].judge),
        v.outcome is Some <==> v.judge is Judged && !(old(chart)@[l as int][id as int].judge is Judged),
    ensures
        final(chart)@ == applied(old(chart)@, l as int, id as int, v),
        (Log { taps: final(taps)@, pending: final(pending)@ }) == logged(
            (Log { taps: old(taps)@, pending: old(pending)@ }),
            v,
            l,
            id,
        ),
        chart_succeeds(final(chart)@, old(chart)@),
        total_resolved(final(chart)@) == total_resolved(old(chart)@) + final(pending)@.len() - old(pending)@.len(),
{
    let ghost before = chart@;
    let ghost note = before[l as int][id as int];
    chart.lines[l].notes[id as usize].judge = v.judge;
    proof {
        let notes = before[l as int].update(id as int, Note { judge: v.judge, ..note });
        assert(chart.lines[l as int].notes@ == notes);
        assert(chart@ =~= before.update(l as int, notes));
        lemma_count_resolved_update(before[l as int], id as int, Note { judge: v.judge, ..note });
        lemma_total_update(before, l as int, notes);
        assert(line_succeeds(notes, before[l as int])) by {
            assert forall|i: int| 0 <= i < notes.len() implies (#[trigger] notes[i]).succeeds(
                before[l as int][i],
            ) by {}
        }
        lemma_line_replaced(before, l as int, notes);
    }
    if v.tap {
        taps.push((l, id));
    }
    if let Some((judgement, diff)) = v.outcome {
        pending.push(Resolution { judgement, line: l, note: id, diff });
    }
}

/// What each tracker of a map holds.
pub open spec fn views(trackers: Map<u64, VelocityTracker>) -> Map<u64, TrackerView> {
    trackers.map_values(|t: VelocityTracker| t@)
}

/// Whether every tracker of a map is well formed.
pub open spec fn trackers_wf(trackers: Map<u64, VelocityTracker>) -> bool {
    forall|id: u64| #[trigger] trackers.contains_key(id) ==> trackers[id].wf()
}

/// The trackers after the tracker of touch `id`, if there is one, was asked for a flick.
pub open spec fn settled(trackers: Map<u64, TrackerView>, id: u64, dpi: u32) -> Map<u64, TrackerView> {
    if trackers.contains_key(id) {
        trackers.insert(id, trackers[id].settle(dpi))
    } else {
        trackers
    }
}

/// The trackers after the flick of touch `id` was taken, if the touch has a tracker.
pub open spec fn consumed(trackers: Map<u64, TrackerView>, id: u64) -> Map<u64, TrackerView> {
    if trackers.contains_key(id) {
        trackers.insert(id, trackers[id].consume())
    } else {
        trackers
    }
}

/// Asks the tracker of a touch whether the touch is flicking; a touch without a
/// tracker is not.
fn flick_of(trackers: &mut HashMap<u64, VelocityTracker>, id: u64, dpi: u32) -> (flick: bool)
    requires
        trackers_wf(old(trackers)@),
    ensures
        trackers_wf(final(trackers)@),
        views(final(trackers)@) == settled(views(old(trackers)@), id, dpi),
        flick == (old(trackers)@.contains_key(id) && old(trackers)@[id]@.flicks(dpi)),
{
    broadcast use vstd::std_specs::hash::group_hash_axioms;

    match trackers.remove(&id) {
        Some(mut tracker) => {
            let flick = tracker.has_flick(dpi);
            trackers.insert(id, tracker);
            assert(views(trackers@) =~= settled(views(old(trackers)@), id, dpi));
            flick
        },
        None => {
            assert(trackers@ =~= old(trackers)@);
            false
        },
    }
}

/// Takes the flick of a touch, if the touch has a tracker.
fn consume_of(trackers: &mut HashMap<u64, VelocityTracker>, id: u64)
    requires
        trackers_wf(old(trackers)@),
    ensures
        trackers_wf(final(trackers)@),
        views(final(trackers)@) == consumed(views(old(trackers)@), id),
{
    broadcast use vstd::std_specs::hash::group_hash_axioms;

    match trackers.remove(&id) {
        Some(mut tracker) => {
            tracker.consume_flick();
            trackers.insert(id, tracker);
            assert(views(trackers@) =~= consumed(views(old(trackers)@), id));
        },
        None => {
            assert(trackers@ =~= old(trackers)@);
        },
    }
}

/// The state that the judgement of the input works on.
pub struct Stage {
    pub chart: Seq<Seq<Note>>,
    pub trackers: Map<u64, TrackerView>,
    pub log: Log,
}

/// The state after one touch was judged.
///
/// A touch that started is a tap. A touch that moves or rests is asked for a
/// flick, which settles its tracker. A tap or a flick is matched to a note, the
/// note is struck, and a flick that struck is consumed.
pub open spec fn touch_step(
    stage: Stage,
    cursors: Seq<(Vec<u32>, usize)>,
    touch: Touch,
    k: int,
    local: Seq<Vec<Option<i32>>>,
    time: int,
    note_width: int,
    dpi: u32,
) -> Stage {
    let click = touch.phase is Started;
    let moving = touch.phase is Moved || touch.phase is Stationary;
    let trackers = if moving { settled(stage.trackers, touch.id, dpi) } else { stage.trackers };
    let flick = moving && stage.trackers.contains_key(touch.id) && stage.trackers[touch.id].flicks(dpi);
    if !(click || flick) {
        Stage { trackers, ..stage }
    } else {
        match target_of(stage.chart, cursors, local, k, time, note_width, click) {
            None => Stage { trackers, ..stage },
            Some((l, id)) => {
                let v = struck(stage.chart[l as int][id as int], time, click);
                Stage {
                    chart: applied(stage.chart, l as int, id as int, v),
                    trackers: if click { trackers } else { consumed(trackers, touch.id) },
                    log: logged(stage.log, v, l, id),
                }
            },
        }
    }
}

/// The state after the touches from place `k` on were judged, in turn.
pub open spec fn touches_from(
    stage: Stage,
    cursors: Seq<(Vec<u32>, usize)>,
    touches: Seq<Touch>,
    k: int,
    local: Seq<Vec<Option<i32>>>,
    time: int,
    note_width: int,
    dpi: u32,
) -> Stage
    decreases touches.len() - k,
{
    if k < 0 || k >= touches.len() {
        stage
    } else {
        touches_from(
            touch_step(stage, cursors, touches[k], k, local, time, note_width, dpi),
            cursors,
            touches,
            k + 1,
            local,
            time,
            note_width,
            dpi,
        )
    }
}

/// Judges the taps and flicks of the touches of a frame, in turn, and appends
/// to `taps` and `pending` what was decided.
pub fn strike_touches(
    chart: &mut Chart,
    cursors: &Vec<(Vec<u32>, usize)>,
    trackers: &mut HashMap<u64, VelocityTracker>,
    touches: &Vec<Touch>,
    local: &Vec<Vec<Option<i32>>>,
    time: i32,
    note_width: i32,
    dpi: u32,
    taps: &mut Vec<(usize, u32)>,
    pending: &mut Vec<Resolution>,
)
    requires
        cursors_fit(cursors@, old(chart)@),
        trackers_wf(old(trackers)@),
    ensures
        (Stage {
            chart: final(chart)@,
            trackers: views(final(trackers)@),
            log: Log { taps: final(taps)@, pending: final(pending)@ },
        }) == touches_from(
            (Stage {
                chart: old(chart)@,
                trackers: views(old(trackers)@),
                log: Log { taps: old(taps)@, pending: old(pending)@ },
            }),
            cursors@,
            touches@,
            0,
            local@,
            time as int,
            note_width as int,
            dpi,
        ),
        chart_succeeds(final(chart)@, old(chart)@),
        cursors_fit(cursors@, final(chart)@),
        trackers_wf(final(trackers)@),
        old(pending)@.is_prefix_of(final(pending)@),
        total_resolved(final(chart)@) == total_resolved(old(chart)@) + final(pending)@.len() - old(pending)@.len(),
        pending_in_chart(final(pending)@, old(pending)@.len() as int, final(chart)@),
{
    let ghost goal = touches_from(
        Stage {
            chart: chart@,
            trackers: views(trackers@),
            log: Log { taps: taps@, pending: pending@ },
        },
        cursors@,
        touches@,
        0,
        local@,
        time as int,
        note_width as int,
        dpi,
    );
    proof {
        lemma_chart_succeeds_reflexive(chart@);
    }
    let mut k: usize = 0;
    while k < touches.len()
        invariant
            k <= touches.len(),
            cursors_fit(cursors@, chart@),
            trackers_wf(trackers@),
            chart_succeeds(chart@, old(chart)@),
            old(pending)@.is_prefix_of(pending@),
            total_resolved(chart@) == total_resolved(old(chart)@) + pending@.len() - old(pending)@.len(),
            pending_in_chart(pending@, old(pending)@.len() as int, chart@),
            goal == touches_from(
                (Stage {
                    chart: chart@,
                    trackers: views(trackers@),
                    log: Log { taps: taps@, pending: pending@ },
                }),
                cursors@,
                touches@,
                k as int,
                local@,
                time as int,
                note_width as int,
                dpi,
            ),
        decreases touches.len() - k,
    {
        let touch = touches[k];
        let ghost before = chart@;
        let ghost pending_before = pending@;
        let ghost stage = Stage {
            chart: chart@,
            trackers: views(trackers@),
            log: Log { taps: taps@, pending: pending@ },
        };
        let ghost next = touch_step(
            stage,
            cursors@,
            touch,
            k as int,
            local@,
            time as int,
            note_width as int,
            dpi,
        );
        let click = match touch.phase {
            TouchPhase::Started => true,
            _ => false,
        };
        let moving = match touch.phase {
            TouchPhase::Moved => true,
            TouchPhase::Stationary => true,
            _ => false,
        };
        let flick = moving && flick_of(trackers, touch.id, dpi);
        if click || flick {
            if let Some((l, id)) = find_target(chart, cursors, local, k, time, note_width, click) {
                let note = chart.lines[l].notes[id as usize];
                let v = strike_note(&note, time, click);
                apply_visit(chart, l, id, v, taps, pending);
                if !click {
                    consume_of(trackers, touch.id);
                }
                proof {
                    lemma_chart_succeeds_transitive(old(chart)@, before, chart@);
                    lemma_cursors_fit_later(cursors@, before, chart@);
                    lemma_pending_later(pending_before, pending@, old(pending)@.len() as int, before, chart@);
                }
            }
        }
        assert(Stage {
            chart: chart@,
            trackers: views(trackers@),
            log: Log { taps: taps@, pending: pending@ },
        } == next);
        k = k + 1;
    }
}

/// Every chart succeeds itself.
pub proof fn lemma_chart_succeeds_reflexive(chart: Seq<Seq<Note>>)
    ensures
        chart_succeeds(chart, chart),
{
    assert forall|l: int| 0 <= l < chart.len() implies line_succeeds(#[trigger] chart[l], chart[l]) by {
        assert forall|i: int| 0 <= i < chart[l].len() implies (#[trigger] chart[l][i]).succeeds(
            chart[l][i],
        ) by {}
    }
}

/// Judgements that name notes of a chart name notes of any later chart, and so
/// does at most one more that names a note of the later chart.
proof fn lemma_pending_later(
    before: Seq<Resolution>,
    after: Seq<Resolution>,
    from: int,
    earlier: Seq<Seq<Note>>,
    later: Seq<Seq<Note>>,
)
    requires
        0 <= from <= before.len(),
        pending_in_chart(before, from, earlier),
        chart_succeeds(later, earlier),
        after == before || (after == before.push(after.last()) && after.last().line < later.len()
            && after.last().note < later[after.last().line as int].len()),
    ensures
        pending_in_chart(after, from, later),
{
    assert forall|k: int| from <= k < after.len() implies (#[trigger] after[k]).line < later.len()
        && after[k].note < later[after[k].line as int].len() by {
        if k < before.len() {
            assert(after[k] == before[k]);
            assert(line_succeeds(later[after[k].line as int], earlier[after[k].line as int]));
        }
    }
}

/// The first note of a line, from place `j` of its order on, that a key can
/// hit: a click or a hold that is not judged.
pub open spec fn key_note_from(notes: Seq<Note>, order: Seq<u32>, j: int) -> Option<u32>
    decreases order.len() - j,
{
    if j < 0 || j >= order.len() {
        None
    } else if order[j] < notes.len() && notes[order[j] as int].judge is NotJudged && (notes[order[j] as int].kind is Click
        || notes[order[j] as int].kind is Hold) {
        Some(order[j])
    } else {
        key_note_from(notes, order, j + 1)
    }
}

/// Whether `best` names a note that is due no later than `time`.
pub open spec fn holds_earlier(chart: Seq<Seq<Note>>, best: Option<(usize, u32)>, time: int) -> bool {
    match best {
        Some((l, id)) => chart[l as int][id as int].time <= time,
        None => false,
    }
}

/// The note that a key hits, among `best` and the first notes that a key can hit
/// of the lines from `l` on: the earliest, and of several at one time the first.
pub open spec fn key_target_from(
    chart: Seq<Seq<Note>>,
    cursors: Seq<(Vec<u32>, usize)>,
    l: int,
    best: Option<(usize, u32)>,
) -> Option<(usize, u32)>
    decreases chart.len() - l,
{
    if l < 0 || l >= chart.len() || l >= cursors.len() {
        best
    } else {
        let next = match key_note_from(chart[l], cursors[l].0@, cursors[l].1 as int) {
            Some(id) => if holds_earlier(chart, best, chart[l][id as int].time as int) {
                best
            } else {
                Some((l as usize, id))
            },
            None => best,
        };
        key_target_from(chart, cursors, l + 1, next)
    }
}

/// The note that a key hits: the earliest click or hold that is not judged,
/// wherever it stands.
pub open spec fn key_target(chart: Seq<Seq<Note>>, cursors: Seq<(Vec<u32>, usize)>) -> Option<
    (usize, u32),
> {
    key_target_from(chart, cursors, 0, None)
}

/// Whether the note that `target` names, if any, can be hit by a key: it is a
/// note of the chart that counts, not judged, a click or a hold.
pub open spec fn key_aims(target: Option<(usize, u32)>, chart: Seq<Seq<Note>>) -> bool {
    target matches Some((l, id)) ==> {
        &&& l < chart.len()
        &&& id < chart[l as int].len()
        &&& !chart[l as int][id as int].fake
        &&& chart[l as int][id as int].judge is NotJudged
        &&& (chart[l as int][id as int].kind is Click || chart[l as int][id as int].kind is Hold)
    }
}

/// The chart and the log after `n` keys went down, or fewer if no note was left
/// for a key to hit.
pub open spec fn keys_from(
    chart: Seq<Seq<Note>>,
    cursors: Seq<(Vec<u32>, usize)>,
    n: int,
    time: int,
    log: Log,
) -> (Seq<Seq<Note>>, Log)
    decreases n,
{
    if n <= 0 {
        (chart, log)
    } else {
        match key_target(chart, cursors) {
            None => (chart, log),
            Some((l, id)) => {
                let v = pressed(chart[l as int][id as int], time);
                keys_from(
                    applied(chart, l as int, id as int, v),
                    cursors,
                    n - 1,
                    time,
                    logged(log, v, l, id),
                )
            },
        }
    }
}

/// Finds the first note of a line that a key can hit.
fn find_key_note(notes: &Vec<Note>, order: &Vec<u32>, from: usize) -> (found: Option<u32>)
    requires
        forall|j: int| 0 <= j < order@.len() ==> (#[trigger] order@[j]) < notes@.len(),
    ensures
        found == key_note_from(notes@, order@, from as int),
        found matches Some(id) ==> id < notes@.len() && notes@[id as int].judge is NotJudged && (
        notes@[id as int].kind is Click || notes@[id as int].kind is Hold) && exists|j: int|
            0 <= j < order@.len() && order@[j] == id,
{
    let mut j: usize = from;
    while j < order.len()
        invariant
            forall|j: int| 0 <= j < order@.len() ==> (#[trigger] order@[j]) < notes@.len(),
            key_note_from(notes@, order@, from as int) == key_note_from(notes@, order@, j as int),
        decreases order.len() - j,
    {
        let id = order[j];
        let note = notes[id as usize];
        let open = match note.judge {
            JudgeStatus::NotJudged => true,
            _ => false,
        };
        let keyed = match note.kind {
            NoteKind::Click => true,
            NoteKind::Hold { .. } => true,
            _ => false,
        };
        if open && keyed {
            return Some(id);
        }
        j = j + 1;
    }
    None
}

/// Finds the note that a key hits.
pub fn find_key_target(chart: &Chart, cursors: &Vec<(Vec<u32>, usize)>) -> (target: Option<
    (usize, u32),
>)
    requires
        cursors_fit(cursors@, chart@),
    ensures
        target == key_target(chart@, cursors@),
        key_aims(target, chart@),
{
    let mut best: Option<(usize, u32)> = None;
    let mut l: usize = 0;
    while l < chart.lines.len()
        invariant
            l <= chart.lines.len(),
            cursors_fit(cursors@, chart@),
            key_aims(best, chart@),
            key_target(chart@, cursors@) == key_target_from(chart@, cursors@, l as int, best),
        decreases chart.lines.len() - l,
    {
        assert(chart@[l as int] == chart.lines[l as int].notes@);
        if let Some(id) = find_key_note(&chart.lines[l].notes, &cursors[l].0, cursors[l].1) {
            let earlier = match best {
                Some((bl, bid)) => chart.lines[bl].notes[bid as usize].time
                    <= chart.lines[l].notes[id as usize].time,
                None => false,
            };
            if !earlier {
                best = Some((l, id));
            }
        }
        l = l + 1;
    }
    best
}

/// Judges the keys that went down in a frame: each hits the earliest click or
/// hold that is not judged, and the keys end where no such note is left.
pub fn press_keys(
    chart: &mut Chart,
    cursors: &Vec<(Vec<u32>, usize)>,
    keys_down: u32,
    time: i32,
    taps: &mut Vec<(usize, u32)>,
    pending: &mut Vec<Resolution>,
)
    requires
        cursors_fit(cursors@, old(chart)@),
    ensures
        (final(chart)@, Log { taps: final(taps)@, pending: final(pending)@ }) == keys_from(
            old(chart)@,
            cursors@,
            keys_down as int,
            time as int,
            (Log { taps: old(taps)@, pending: old(pending)@ }),
        ),
        chart_succeeds(final(chart)@, old(chart)@),
        cursors_fit(cursors@, final(chart)@),
        old(pending)@.is_prefix_of(final(pending)@),
        total_resolved(final(chart)@) == total_resolved(old(chart)@) + final(pending)@.len() - old(pending)@.len(),
        pending_in_chart(final(pending)@, old(pending)@.len() as int, final(chart)@),
{
    let ghost goal = keys_from(
        chart@,
        cursors@,
        keys_down as int,
        time as int,
        Log { taps: taps@, pending: pending@ },
    );
    proof {
        lemma_chart_succeeds_reflexive(chart@);
    }
    let mut n: u32 = keys_down;
    while n > 0
        invariant_except_break
            goal == keys_from(
                chart@,
                cursors@,
                n as int,
                time as int,
                (Log { taps: taps@, pending: pending@ }),
            ),
        invariant
            cursors_fit(cursors@, chart@),
            chart_succeeds(chart@, old(chart)@),
            old(pending)@.is_prefix_of(pending@),
            total_resolved(chart@) == total_resolved(old(chart)@) + pending@.len() - old(pending)@.len(),
            pending_in_chart(pending@, old(pending)@.len() as int, chart@),
        ensures
            goal == (chart@, Log { taps: taps@, pending: pending@ }),
        decreases n,
    {
        let ghost before = chart@;
        let ghost pending_before = pending@;
        match find_key_target(chart, cursors) {
            Some((l, id)) => {
                let note = chart.lines[l].notes[id as usize];
                let v = press_note(&note, time);
                apply_visit(chart, l, id, v, taps, pending);
                proof {
                    lemma_chart_succeeds_transitive(old(chart)@, before, chart@);
                    lemma_cursors_fit_later(cursors@, before, chart@);
                    lemma_pending_later(
                        pending_before,
                        pending@,
                        old(pending)@.len() as int,
                        before,
                        chart@,
                    );
                }
            },
            None => {
                break ;
            },
        }
        n = n - 1;
    }
}

} // verus!
