//! Matching a tap or a flick to the note it hits.
//!
//! The lines are walked in turn, each in time order from its watermark on, and
//! the best note so far is kept with two bounds that tighten as better notes are
//! found: how near another note must be to replace it, and how far ahead of now
//! a note may lie before the walk of a line ends.

use vstd::prelude::*;
use crate::chart::{Chart, Note, NoteKind};
use crate::judge::JudgeStatus;
use crate::frame::{place, place_of};
use crate::sweep::{cursors_fit, order_in_line, tolerance, within_tolerance};
use crate::units::{span, distance, LIMIT_BAD, UNIT};

verus! {

/// Milliseconds past the best note up to which a line is still walked.
pub const MARGIN_SLACK: i64 = 10;

/// The best note found so far for an input, and the bounds for a better one.
#[derive(Clone, Copy, Debug)]
pub struct Closest {
    /// Line and place of the note.
    pub target: Option<(usize, u32)>,
    /// Ten times the distance under which another note is nearer.
    pub reach: i64,
    /// A note this many milliseconds ahead of now, or more, ends the walk of a line.
    pub margin: i64,
}

impl Closest {
    /// No note yet: any note within reach of its width and within the bad window
    /// will do.
    pub open spec fn none(note_width: int) -> Closest {
        Closest { target: None, reach: (19 * note_width) as i64, margin: LIMIT_BAD }
    }
}

/// Whether the note that `closest` names, if any, can be hit by the input: it is
/// a note of the chart that counts, not judged, no drag, and a flick if the
/// input is a flick.
pub open spec fn aims(closest: Closest, chart: Seq<Seq<Note>>, click: bool) -> bool {
    closest.target matches Some((l, id)) ==> {
        &&& l < chart.len()
        &&& id < chart[l as int].len()
        &&& !chart[l as int][id as int].fake
        &&& chart[l as int][id as int].judge is NotJudged
        &&& !(chart[l as int][id as int].kind is Drag)
        &&& !click ==> chart[l as int][id as int].kind is Flick
    }
}

/// Whether the note that `closest` names, if any, lies where the touch in column
/// `touch` of the table of places can hit it: the touch has a place on the line
/// of the note, the note is within reach of it and within the tolerance of its
/// distance, and a flick that a tap has hit is past its time.
pub open spec fn within_hit(
    closest: Closest,
    chart: Seq<Seq<Note>>,
    local: Seq<Vec<Option<i32>>>,
    touch: int,
    time: int,
    note_width: int,
    click: bool,
) -> bool {
    &&& closest.reach <= 19 * note_width
    &&& closest.target matches Some((l, id)) ==> {
        let note = chart[l as int][id as int];
        let x = place(local, l as int, touch);
        &&& x is Some
        &&& closest.reach == 10 * distance(note.lateral as int, x->0 as int)
        &&& closest.reach < 19 * note_width
        &&& distance(note.time as int, time) * UNIT <= tolerance(
            distance(note.lateral as int, x->0 as int),
        )
        &&& click && note.kind is Flick ==> note.time < time
    }
}

/// Whether the touch in column `touch` of the table of places can hit the note
/// that `target` names, if any, with a tap or a flick at `time`.
pub open spec fn hits(
    target: Option<(usize, u32)>,
    chart: Seq<Seq<Note>>,
    local: Seq<Vec<Option<i32>>>,
    touch: int,
    time: int,
    note_width: int,
    click: bool,
) -> bool {
    target matches Some((l, id)) ==> {
        let note = chart[l as int][id as int];
        let x = place(local, l as int, touch);
        &&& l < chart.len()
        &&& id < chart[l as int].len()
        &&& !note.fake
        &&& note.judge is NotJudged
        &&& !(note.kind is Drag)
        &&& !click ==> note.kind is Flick
        &&& click && note.kind is Flick ==> note.time < time
        &&& x is Some
        &&& 10 * distance(note.lateral as int, x->0 as int) < 19 * note_width
        &&& distance(note.time as int, time) * UNIT <= tolerance(
            distance(note.lateral as int, x->0 as int),
        )
    }
}

/// A note that a touch hits is no further than the bad window from the time of
/// the hit.
pub proof fn lemma_hit_within_bad_window(
    l: usize,
    id: u32,
    chart: Seq<Seq<Note>>,
    local: Seq<Vec<Option<i32>>>,
    touch: int,
    time: int,
    note_width: int,
    click: bool,
)
    requires
        hits(Some((l, id)), chart, local, touch, time, note_width, click),
    ensures
        distance(chart[l as int][id as int].time as int, time) <= LIMIT_BAD,
{
}

/// What a note does to the best so far, and whether the walk of its line ends.
///
/// A note already under judgement, a drag, and for a flick any note but a flick
/// are passed over. A note as far ahead as the margin ends the walk. A note out
/// of the tolerance of its distance is passed over. Of the others, one that lies
/// within the note width or nearer than the best so far becomes the best,
/// unless the input is a tap and the note a flick that is not yet due; and one within
/// the note width ends the walk.
pub open spec fn consider(
    closest: Closest,
    note: Note,
    line: usize,
    id: u32,
    x: int,
    time: int,
    note_width: int,
    click: bool,
) -> (Closest, bool) {
    let dist = distance(note.lateral as int, x);
    if !(note.judge is NotJudged) {
        (closest, false)
    } else if note.kind is Drag || (!click && (note.kind is Click || note.kind is Hold)) {
        (closest, false)
    } else if note.time - time >= closest.margin {
        (closest, true)
    } else if distance(note.time as int, time) * UNIT > tolerance(dist) {
        (closest, false)
    } else if (dist < note_width || 10 * dist < closest.reach) && (!click || !(note.kind is Flick)
        || note.time < time) {
        (
            Closest {
                target: Some((line, id)),
                reach: (10 * dist) as i64,
                margin: (note.time - time + MARGIN_SLACK) as i64,
            },
            dist < note_width,
        )
    } else {
        (closest, false)
    }
}

/// The best note after the walk of one line from place `j` of its order on.
pub open spec fn scan_from(
    notes: Seq<Note>,
    order: Seq<u32>,
    j: int,
    closest: Closest,
    line: usize,
    x: int,
    time: int,
    note_width: int,
    click: bool,
) -> Closest
    decreases order.len() - j,
{
    if j < 0 || j >= order.len() || order[j] >= notes.len() {
        closest
    } else {
        let next = consider(closest, notes[order[j] as int], line, order[j], x, time, note_width, click);
        if next.1 {
            next.0
        } else {
            scan_from(notes, order, j + 1, next.0, line, x, time, note_width, click)
        }
    }
}

/// The best note after the walk of the lines from line `l` on, for the touch
/// in column `touch` of the table of places. A line on which the touch has no
/// place is passed over.
pub open spec fn find_from(
    chart: Seq<Seq<Note>>,
    cursors: Seq<(Vec<u32>, usize)>,
    l: int,
    closest: Closest,
    local: Seq<Vec<Option<i32>>>,
    touch: int,
    time: int,
    note_width: int,
    click: bool,
) -> Closest
    decreases chart.len() - l,
{
    if l < 0 || l >= chart.len() || l >= cursors.len() {
        closest
    } else {
        let next = match place(local, l, touch) {
            Some(x) => scan_from(
                chart[l],
                cursors[l].0@,
                cursors[l].1 as int,
                closest,
                l as usize,
                x as int,
                time,
                note_width,
                click,
            ),
            None => closest,
        };
        find_from(chart, cursors, l + 1, next, local, touch, time, note_width, click)
    }
}

/// The note that a tap or a flick hits, if any.
pub open spec fn target_of(
    chart: Seq<Seq<Note>>,
    cursors: Seq<(Vec<u32>, usize)>,
    local: Seq<Vec<Option<i32>>>,
    touch: int,
    time: int,
    note_width: int,
    click: bool,
) -> Option<(usize, u32)> {
    find_from(chart, cursors, 0, Closest::none(note_width), local, touch, time, note_width, click).target
}

/// Walks one line for the best note.
fn scan_line(
    chart: &Chart,
    line: usize,
    order: &Vec<u32>,
    from: usize,
    closest: Closest,
    x: i32,
    time: i32,
    note_width: i32,
    click: bool,
    Ghost(local): Ghost<Seq<Vec<Option<i32>>>>,
    Ghost(touch): Ghost<int>,
) -> (best: Closest)
    requires
        line < chart.lines.len(),
        order_in_line(order@, chart@[line as int]),
        aims(closest, chart@, click),
        place(local, line as int, touch) == Some(x),
        within_hit(closest, chart@, local, touch, time as int, note_width as int, click),
    ensures
        best == scan_from(
            chart@[line as int],
            order@,
            from as int,
            closest,
            line,
            x as int,
            time as int,
            note_width as int,
            click,
        ),
        aims(best, chart@, click),
        within_hit(best, chart@, local, touch, time as int, note_width as int, click),
{
    let ghost notes = chart@[line as int];
    let ghost goal = scan_from(
        notes,
        order@,
        from as int,
        closest,
        line,
        x as int,
        time as int,
        note_width as int,
        click,
    );
    let mut best = closest;
    let mut j: usize = from;
    while j < order.len()
        invariant_except_break
            goal == scan_from(
                notes,
                order@,
                j as int,
                best,
                line,
                x as int,
                time as int,
                note_width as int,
                click,
            ),
        invariant
            line < chart.lines.len(),
            notes == chart@[line as int],
            notes == chart.lines[line as int].notes@,
            order_in_line(order@, notes),
            aims(best, chart@, click),
            place(local, line as int, touch) == Some(x),
            within_hit(best, chart@, local, touch, time as int, note_width as int, click),
        ensures
            goal == best,
            aims(best, chart@, click),
            within_hit(best, chart@, local, touch, time as int, note_width as int, click),
        decreases order.len() - j,
    {
        let id = order[j];
        let note = chart.lines[line].notes[id as usize];
        let ghost next = consider(
            best,
            note,
            line,
            id,
            x as int,
            time as int,
            note_width as int,
            click,
        );
        j = j + 1;
        match note.judge {
            JudgeStatus::NotJudged => {},
            _ => {
                continue ;
            },
        }
        let passed = match note.kind {
            NoteKind::Drag => true,
            NoteKind::Click => !click,
            NoteKind::Hold { .. } => !click,
            NoteKind::Flick => false,
        };
        if passed {
            continue ;
        }
        if note.time as i64 - time as i64 >= best.margin {
            break ;
        }
        let dist = span(note.lateral, x);
        let dt = span(note.time, time);
        if !within_tolerance(dt, dist) {
            continue ;
        }
        let flick_note = match note.kind {
            NoteKind::Flick => true,
            _ => false,
        };
        if (dist < note_width as i64 || 10 * dist < best.reach) && (!click || !flick_note
            || note.time < time) {
            best =
            Closest {
                target: Some((line, id)),
                reach: 10 * dist,
                margin: note.time as i64 - time as i64 + MARGIN_SLACK,
            };
            assert(best == next.0);
            if dist < note_width as i64 {
                break ;
            }
        }
    }
    best
}

/// Finds the note that the touch in column `touch` of the table of places hits:
/// with a tap if `click`, with a flick if not.
pub fn find_target(
    chart: &Chart,
    cursors: &Vec<(Vec<u32>, usize)>,
    local: &Vec<Vec<Option<i32>>>,
    touch: usize,
    time: i32,
    note_width: i32,
    click: bool,
) -> (target: Option<(usize, u32)>)
    requires
        cursors_fit(cursors@, chart@),
    ensures
        target == target_of(
            chart@,
            cursors@,
            local@,
            touch as int,
            time as int,
            note_width as int,
            click,
        ),
        hits(target, chart@, local@, touch as int, time as int, note_width as int, click),
{
    let mut best = Closest { target: None, reach: 19 * (note_width as i64), margin: LIMIT_BAD };
    let ghost goal = find_from(
        chart@,
        cursors@,
        0,
        best,
        local@,
        touch as int,
        time as int,
        note_width as int,
        click,
    );
    let mut l: usize = 0;
    while l < chart.lines.len()
        invariant
            l <= chart.lines.len(),
            cursors_fit(cursors@, chart@),
            aims(best, chart@, click),
            within_hit(best, chart@, local@, touch as int, time as int, note_width as int, click),
            goal == find_from(
                chart@,
                cursors@,
                l as int,
                best,
                local@,
                touch as int,
                time as int,
                note_width as int,
                click,
            ),
        decreases chart.lines.len() - l,
    {
        if let Some(x) = place_of(local, l, touch) {
            best =
            scan_line(
                chart,
                l,
                &cursors[l].0,
                cursors[l].1,
                best,
                x,
                time,
                note_width,
                click,
                Ghost(local@),
                Ghost(touch as int),
            );
        }
        l = l + 1;
    }
    best.target
}

} // verus!
