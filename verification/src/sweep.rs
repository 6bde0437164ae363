//! The passes over one line that need no matching of touches to notes: the
//! passive sweep, the pass that finishes what was caught, and autoplay.
//!
//! Each pass walks the notes of a line in time order from the watermark on,
//! gives every note it reaches a new status, and may stop early at a note that
//! lies too far ahead: the notes behind it are later still.

use vstd::prelude::*;
use crate::chart::{
    Chart, Note, NoteKind, chart_succeeds, count_resolved, lemma_count_resolved_update,
    lemma_total_update, line_succeeds, total_resolved,
};
use crate::judge::{JudgeStatus, Judgement};
use crate::units::{span, distance, LIMIT_BAD, LIMIT_PERFECT, UNIT};

verus! {

/// A judgement that a pass has decided and that is yet to be committed.
#[derive(Clone, Copy, Debug)]
pub struct Resolution {
    pub judgement: Judgement,
    /// The line of the note.
    pub line: usize,
    /// The place of the note in its line.
    pub note: u32,
    /// The time difference that was kept when a hold began, if the note is one.
    pub diff: Option<i64>,
}

/// What the passes of a frame have decided so far.
pub struct Log {
    /// The holds that began, as line and place: each sounds a tap.
    pub taps: Seq<(usize, u32)>,
    /// The judgements to commit, in the order in which they were decided.
    pub pending: Seq<Resolution>,
}

/// Largest time distance, times `UNIT`, at which a touch `dx` position units
/// from a note still reaches it: the bad window, narrowed for a touch more than
/// nine tenths of a viewport unit away.
pub open spec fn tolerance(dx: int) -> int {
    LIMIT_BAD * UNIT - LIMIT_PERFECT * (if dx > 9 * UNIT / 10 { dx - 9 * UNIT / 10 } else { 0 })
}

/// Whether a distance is within the widest reach of a note `note_width` wide,
/// nineteen tenths of its width.
pub open spec fn in_reach(dx: int, note_width: int) -> bool {
    10 * dx <= 19 * note_width
}

/// Whether some touch of a line stands within reach of the place `lateral`.
pub open spec fn touch_near(row: Seq<Option<i32>>, lateral: int, note_width: int) -> bool {
    exists|k: int|
        0 <= k < row.len() && (#[trigger] row[k]) is Some && in_reach(
            distance(row[k]->0 as int, lateral),
            note_width,
        )
}

/// Whether some touch of a line stands within reach of the place `lateral` and
/// near enough for a note `dt` milliseconds away.
pub open spec fn touch_catches(row: Seq<Option<i32>>, lateral: int, note_width: int, dt: int) -> bool {
    exists|k: int|
        0 <= k < row.len() && (#[trigger] row[k]) is Some && in_reach(
            distance(row[k]->0 as int, lateral),
            note_width,
        ) && dt * UNIT <= tolerance(distance(row[k]->0 as int, lateral))
}

/// What a frame gives to a pass over one line.
pub struct Scan<'a> {
    /// The time of the frame, in milliseconds.
    pub time: i32,
    /// Width of a note, in position units.
    pub note_width: i32,
    /// Whether any key is held down.
    pub keys_held: bool,
    /// Where each touch stands along the line; `None` for a touch that has no
    /// place on it.
    pub row: &'a Vec<Option<i32>>,
}

/// The three passes.
#[derive(Clone, Copy, Debug, PartialEq, Eq, Structural)]
pub enum Pass {
    /// Misses, holds let go, and notes caught by a resting touch.
    Sweep,
    /// Commits holds that have ended and notes that were caught.
    Finalize,
    /// Plays every note perfectly at its time.
    Autoplay,
}

/// What a pass does with one note.
#[derive(Clone, Copy, Debug)]
pub struct Visit {
    /// The status that the note gets.
    pub judge: JudgeStatus,
    /// Whether a hold began.
    pub tap: bool,
    /// The judgement decided, with the time difference kept for it, if any.
    pub outcome: Option<(Judgement, Option<i64>)>,
    /// Whether the pass ends before this note.
    pub stop: bool,
}

impl Visit {
    /// The note keeps its status and the pass goes on.
    pub open spec fn keep(note: Note) -> Visit {
        Visit { judge: note.judge, tap: false, outcome: None, stop: false }
    }

    /// The note keeps its status and the pass ends.
    pub open spec fn halt(note: Note) -> Visit {
        Visit { judge: note.judge, tap: false, outcome: None, stop: true }
    }

    /// The note is judged.
    pub open spec fn judged(judgement: Judgement, diff: Option<i64>) -> Visit {
        Visit { judge: JudgeStatus::Judged, tap: false, outcome: Some((judgement, diff)), stop: false }
    }

    /// The note gets a status that is not final.
    pub open spec fn moved(judge: JudgeStatus) -> Visit {
        Visit { judge, tap: false, outcome: None, stop: false }
    }
}

/// What the passive sweep does with a note.
///
/// A hold in progress is marked for release once its end is within the bad
/// window, and missed if nothing holds it: no key is down and no touch is within
/// reach. A note not yet judged is missed once it is later than the bad window,
/// and ends the pass while it is earlier than the window. Inside the window a
/// drag, or a flick while a key is down, is caught if a key is down or a touch
/// is near enough.
pub open spec fn sweep_visit(note: Note, time: int, note_width: int, keys_held: bool, row: Seq<Option<i32>>) -> Visit {
    if note.kind is Hold && note.judge is Hold {
        if time + LIMIT_BAD >= note.kind->end_time {
            Visit::moved(JudgeStatus::Hold(note.judge->Hold_0, note.judge->Hold_1, note.judge->Hold_2, true))
        } else if !keys_held && !touch_near(row, note.lateral as int, note_width) {
            Visit::judged(Judgement::Miss, None)
        } else {
            Visit::keep(note)
        }
    } else if !(note.judge is NotJudged) {
        Visit::keep(note)
    } else if note.time < time - LIMIT_BAD {
        Visit::judged(Judgement::Miss, None)
    } else if note.time > time + LIMIT_BAD {
        Visit::halt(note)
    } else if !(note.kind is Drag) && (!keys_held || !(note.kind is Flick)) {
        Visit::keep(note)
    } else if keys_held || touch_catches(row, note.lateral as int, note_width, distance(time, note.time as int)) {
        Visit::moved(JudgeStatus::PreJudge)
    } else {
        Visit::keep(note)
    }
}

/// What the finishing pass does with a note.
///
/// A hold marked for release is judged once its end has come, perfect or good as
/// it began, with the time difference of its beginning. A note whose time has not
/// come ends the pass. A caught note whose time has come is judged perfect.
pub open spec fn finalize_visit(note: Note, time: int) -> Visit {
    if note.judge is Hold && note.judge->Hold_3 && note.kind is Hold && note.kind->end_time <= time {
        Visit::judged(
            if note.judge->Hold_0 { Judgement::Perfect } else { Judgement::Good },
            Some(note.judge->Hold_2),
        )
    } else if time < note.time {
        Visit::halt(note)
    } else if note.judge is PreJudge {
        Visit::judged(Judgement::Perfect, None)
    } else {
        Visit::keep(note)
    }
}

/// What autoplay does with a note.
///
/// A hold in progress is judged once its end has come. A note not yet judged
/// ends the pass while its time has not come; at its time a hold begins,
/// perfect, and any other note is judged.
pub open spec fn autoplay_visit(note: Note, time: int) -> Visit {
    if note.judge is Hold && note.kind is Hold && time >= note.kind->end_time {
        Visit::judged(Judgement::Perfect, None)
    } else if !(note.judge is NotJudged) {
        Visit::keep(note)
    } else if note.time > time {
        Visit::halt(note)
    } else if note.kind is Hold {
        Visit {
            judge: JudgeStatus::Hold(true, time as i32, (time - note.time) as i64, false),
            tap: true,
            outcome: None,
            stop: false,
        }
    } else {
        Visit::judged(Judgement::Perfect, None)
    }
}

/// What a pass does with a note.
pub open spec fn visit_of(pass: Pass, note: Note, time: int, note_width: int, keys_held: bool, row: Seq<Option<i32>>) -> Visit {
    match pass {
        Pass::Sweep => sweep_visit(note, time, note_width, keys_held, row),
        Pass::Finalize => finalize_visit(note, time),
        Pass::Autoplay => autoplay_visit(note, time),
    }
}

/// A visit judges a note exactly when it decides a judgement, never touches a
/// judged note, and gives a status that the old one leads to.
pub proof fn lemma_visit_sound(pass: Pass, note: Note, time: int, note_width: int, keys_held: bool, row: Seq<Option<i32>>)
    ensures
        ({
            let v = visit_of(pass, note, time, note_width, keys_held, row);
            &&& v.judge.follows(note.judge)
            &&& v.outcome is Some <==> v.judge is Judged && !(note.judge is Judged)
            &&& v.stop ==> v.judge == note.judge && !v.tap
            &&& pass is Autoplay ==> (v.outcome matches Some(o) ==> o.0 is Perfect)
        }),
{
}

/// Whether a pass that has reached a note owes it something: the sweep a miss
/// to a note that is not judged and later than the bad window, the finishing
/// pass a judgement to a caught note whose time has come, and autoplay a hit to
/// a note that is not judged and due.
pub open spec fn overdue(pass: Pass, note: Note, time: int) -> bool {
    match pass {
        Pass::Sweep => note.judge is NotJudged && note.time < time - LIMIT_BAD,
        Pass::Finalize => note.judge is PreJudge && note.time <= time,
        Pass::Autoplay => note.judge is NotJudged && note.time <= time,
    }
}

/// Whether an order lists its notes by time, earliest first.
pub open spec fn sorted_by_time(order: Seq<u32>, notes: Seq<Note>) -> bool {
    forall|i: int, j: int|
        0 <= i < j < order.len() ==> notes[(#[trigger] order[i]) as int].time <= notes[(
        #[trigger] order[j]) as int].time
}

/// A pass leaves nothing owed to a note that it visits, and ends only at a note
/// that is too far ahead for anything to be owed to it or to a later note.
pub proof fn lemma_visit_clears(pass: Pass, note: Note, time: int, note_width: int, keys_held: bool, row: Seq<Option<i32>>)
    ensures
        ({
            let v = visit_of(pass, note, time, note_width, keys_held, row);
            &&& !v.stop ==> !overdue(pass, Note { judge: v.judge, ..note }, time)
            &&& v.stop ==> note.time > time
            &&& v.stop && pass is Sweep ==> note.time > time + LIMIT_BAD
        }),
{
}

/// The log after a visit to the note at place `id` of line `line`.
pub open spec fn logged(log: Log, v: Visit, line: usize, id: u32) -> Log {
    Log {
        taps: if v.tap { log.taps.push((line, id)) } else { log.taps },
        pending: match v.outcome {
            Some((judgement, diff)) => log.pending.push(Resolution { judgement, line, note: id, diff }),
            None => log.pending,
        },
    }
}

/// The notes of a line and the log after a pass has walked the line from place
/// `j` of its order on.
pub open spec fn pass_from(
    pass: Pass,
    notes: Seq<Note>,
    order: Seq<u32>,
    j: int,
    line: usize,
    time: int,
    note_width: int,
    keys_held: bool,
    row: Seq<Option<i32>>,
    log: Log,
) -> (Seq<Note>, Log)
    decreases order.len() - j,
{
    if j < 0 || j >= order.len() || order[j] >= notes.len() {
        (notes, log)
    } else {
        let id = order[j];
        let v = visit_of(pass, notes[id as int], time, note_width, keys_held, row);
        if v.stop {
            (notes, log)
        } else {
            pass_from(
                pass,
                notes.update(id as int, Note { judge: v.judge, ..notes[id as int] }),
                order,
                j + 1,
                line,
                time,
                note_width,
                keys_held,
                row,
                logged(log, v, line, id),
            )
        }
    }
}

/// Whether some touch of a line stands within reach of the place `lateral`.
fn any_touch_near(row: &Vec<Option<i32>>, lateral: i32, note_width: i32) -> (r: bool)
    ensures
        r == touch_near(row@, lateral as int, note_width as int),
{
    let mut k: usize = 0;
    while k < row.len()
        invariant
            k <= row.len(),
            forall|i: int|
                0 <= i < k ==> !((#[trigger] row@[i]) is Some && in_reach(
                    distance(row@[i]->0 as int, lateral as int),
                    note_width as int,
                )),
        decreases row.len() - k,
    {
        if let Some(x) = row[k] {
            let dx = span(x, lateral);
            if 10 * dx <= 19 * (note_width as i64) {
                return true;
            }
        }
        k = k + 1;
    }
    false
}

/// Whether some touch of a line stands within reach of the place `lateral` and
/// near enough for a note `dt` milliseconds away.
fn any_touch_catches(row: &Vec<Option<i32>>, lateral: i32, note_width: i32, dt: i64) -> (r: bool)
    requires
        0 <= dt <= u32::MAX,
    ensures
        r == touch_catches(row@, lateral as int, note_width as int, dt as int),
{
    let mut k: usize = 0;
    while k < row.len()
        invariant
            k <= row.len(),
            0 <= dt <= u32::MAX,
            forall|i: int|
                0 <= i < k ==> !((#[trigger] row@[i]) is Some && in_reach(
                    distance(row@[i]->0 as int, lateral as int),
                    note_width as int,
                ) && dt * UNIT <= tolerance(distance(row@[i]->0 as int, lateral as int))),
        decreases row.len() - k,
    {
        if let Some(x) = row[k] {
            let dx = span(x, lateral);
            if 10 * dx <= 19 * (note_width as i64) && within_tolerance(dt, dx) {
                return true;
            }
        }
        k = k + 1;
    }
    false
}

/// Whether a touch `dx` position units from a note reaches it at a time distance
/// of `dt` milliseconds.
pub fn within_tolerance(dt: i64, dx: i64) -> (r: bool)
    requires
        0 <= dt <= u32::MAX,
        0 <= dx <= u32::MAX,
    ensures
        r == (dt * UNIT <= tolerance(dx as int)),
{
    let excess: i64 = if dx > 9_000 { dx - 9_000 } else { 0 };
    dt * 10_000 <= 2_200_000 - 80 * excess
}

/// What the passive sweep does with a note.
fn sweep_note(note: &Note, scan: &Scan) -> (v: Visit)
    ensures
        v == sweep_visit(*note, scan.time as int, scan.note_width as int, scan.keys_held, scan.row@),
{
    let t: i64 = scan.time as i64;
    if let NoteKind::Hold { end_time } = note.kind {
        if let JudgeStatus::Hold(perfect, at, diff, _) = note.judge {
            if t + LIMIT_BAD >= end_time as i64 {
                return Visit { judge: JudgeStatus::Hold(perfect, at, diff, true), tap: false, outcome: None, stop: false };
            }
            if !scan.keys_held && !any_touch_near(scan.row, note.lateral, scan.note_width) {
                return Visit { judge: JudgeStatus::Judged, tap: false, outcome: Some((Judgement::Miss, None)), stop: false };
            }
            return Visit { judge: note.judge, tap: false, outcome: None, stop: false };
        }
    }
    let keep = Visit { judge: note.judge, tap: false, outcome: None, stop: false };
    match note.judge {
        JudgeStatus::NotJudged => {},
        _ => {
            return keep;
        },
    }
    if (note.time as i64) < t - LIMIT_BAD {
        return Visit { judge: JudgeStatus::Judged, tap: false, outcome: Some((Judgement::Miss, None)), stop: false };
    }
    if note.time as i64 > t + LIMIT_BAD {
        return Visit { judge: note.judge, tap: false, outcome: None, stop: true };
    }
    let drag = match note.kind {
        NoteKind::Drag => true,
        _ => false,
    };
    let flick = match note.kind {
        NoteKind::Flick => true,
        _ => false,
    };
    if !drag && (!scan.keys_held || !flick) {
        return keep;
    }
    let dt = span(scan.time, note.time);
    if scan.keys_held || any_touch_catches(scan.row, note.lateral, scan.note_width, dt) {
        Visit { judge: JudgeStatus::PreJudge, tap: false, outcome: None, stop: false }
    } else {
        keep
    }
}

/// What the finishing pass does with a note.
fn finalize_note(note: &Note, time: i32) -> (v: Visit)
    ensures
        v == finalize_visit(*note, time as int),
{
    if let JudgeStatus::Hold(perfect, _, diff, true) = note.judge {
        if let NoteKind::Hold { end_time } = note.kind {
            if end_time <= time {
                let judgement = if perfect { Judgement::Perfect } else { Judgement::Good };
                return Visit { judge: JudgeStatus::Judged, tap: false, outcome: Some((judgement, Some(diff))), stop: false };
            }
        }
    }
    if time < note.time {
        return Visit { judge: note.judge, tap: false, outcome: None, stop: true };
    }
    match note.judge {
        JudgeStatus::PreJudge => Visit { judge: JudgeStatus::Judged, tap: false, outcome: Some((Judgement::Perfect, None)), stop: false },
        _ => Visit { judge: note.judge, tap: false, outcome: None, stop: false },
    }
}

/// What autoplay does with a note.
fn autoplay_note(note: &Note, time: i32) -> (v: Visit)
    ensures
        v == autoplay_visit(*note, time as int),
{
    if let JudgeStatus::Hold(..) = note.judge {
        if let NoteKind::Hold { end_time } = note.kind {
            if time >= end_time {
                return Visit { judge: JudgeStatus::Judged, tap: false, outcome: Some((Judgement::Perfect, None)), stop: false };
            }
        }
    }
    match note.judge {
        JudgeStatus::NotJudged => {},
        _ => {
            return Visit { judge: note.judge, tap: false, outcome: None, stop: false };
        },
    }
    if note.time > time {
        return Visit { judge: note.judge, tap: false, outcome: None, stop: true };
    }
    match note.kind {
        NoteKind::Hold { .. } => Visit {
            judge: JudgeStatus::Hold(true, time, time as i64 - note.time as i64, false),
            tap: true,
            outcome: None,
            stop: false,
        },
        _ => Visit { judge: JudgeStatus::Judged, tap: false, outcome: Some((Judgement::Perfect, None)), stop: false },
    }
}

/// Whether every place in an order is a note of the line that counts.
pub open spec fn order_in_line(order: Seq<u32>, notes: Seq<Note>) -> bool {
    forall|j: int| 0 <= j < order.len() ==> (#[trigger] order[j]) < notes.len() && !notes[order[j] as int].fake
}

/// Walks one line from place `from` of its order on, and appends to `taps` and
/// `pending` what the pass decides.
pub fn run_pass(
    pass: Pass,
    notes: &mut Vec<Note>,
    order: &Vec<u32>,
    from: usize,
    line: usize,
    scan: &Scan,
    taps: &mut Vec<(usize, u32)>,
    pending: &mut Vec<Resolution>,
)
    requires
        order_in_line(order@, old(notes)@),
    ensures
        (final(notes)@, Log { taps: final(taps)@, pending: final(pending)@ }) == pass_from(
            pass,
            old(notes)@,
            order@,
            from as int,
            line,
            scan.time as int,
            scan.note_width as int,
            scan.keys_held,
            scan.row@,
            Log { taps: old(taps)@, pending: old(pending)@ },
        ),
        line_succeeds(final(notes)@, old(notes)@),
        old(taps)@.is_prefix_of(final(taps)@),
        old(pending)@.is_prefix_of(final(pending)@),
        count_resolved(final(notes)@) == count_resolved(old(notes)@) + final(pending)@.len() - old(pending)@.len(),
        forall|k: int|
            old(pending)@.len() <= k < final(pending)@.len() ==> {
                &&& (#[trigger] final(pending)@[k]).line == line
                &&& final(pending)@[k].note < final(notes)@.len()
                &&& pass is Autoplay ==> final(pending)@[k].judgement is Perfect
            },
        sorted_by_time(order@, old(notes)@) ==> forall|j: int|
            from <= j < order@.len() ==> !overdue(
                pass,
                final(notes)@[(#[trigger] order@[j]) as int],
                scan.time as int,
            ),
{
    let ghost time = scan.time as int;
    let ghost width = scan.note_width as int;
    let ghost row = scan.row@;
    let ghost goal = pass_from(
        pass,
        notes@,
        order@,
        from as int,
        line,
        time,
        width,
        scan.keys_held,
        row,
        Log { taps: taps@, pending: pending@ },
    );
    let mut j: usize = from;
    while j < order.len()
        invariant_except_break
            goal == pass_from(
                pass,
                notes@,
                order@,
                j as int,
                line,
                time,
                width,
                scan.keys_held,
                row,
                Log { taps: taps@, pending: pending@ },
            ),
        invariant
            from <= j,
            time == scan.time,
            width == scan.note_width,
            row == scan.row@,
            order_in_line(order@, notes@),
            notes@.len() == old(notes)@.len(),
            line_succeeds(notes@, old(notes)@),
            old(taps)@.is_prefix_of(taps@),
            old(pending)@.is_prefix_of(pending@),
            count_resolved(notes@) == count_resolved(old(notes)@) + pending@.len() - old(pending)@.len(),
            forall|k: int|
                old(pending)@.len() <= k < pending@.len() ==> {
                    &&& (#[trigger] pending@[k]).line == line
                    &&& pending@[k].note < notes@.len()
                    &&& pass is Autoplay ==> pending@[k].judgement is Perfect
                },
            sorted_by_time(order@, old(notes)@) ==> forall|k: int|
                from <= k < j ==> !overdue(pass, notes@[(#[trigger] order@[k]) as int], time),
        ensures
            goal == (notes@, Log { taps: taps@, pending: pending@ }),
            sorted_by_time(order@, old(notes)@) ==> forall|k: int|
                from <= k < order@.len() ==> !overdue(
                    pass,
                    notes@[(#[trigger] order@[k]) as int],
                    time,
                ),
        decreases order.len() - j,
    {
        let id = order[j];
        let note = notes[id as usize];
        let v = match pass {
            Pass::Sweep => sweep_note(&note, scan),
            Pass::Finalize => finalize_note(&note, scan.time),
            Pass::Autoplay => autoplay_note(&note, scan.time),
        };
        proof {
            lemma_visit_clears(pass, note, time, width, scan.keys_held, row);
        }
        if v.stop {
            proof {
                if sorted_by_time(order@, old(notes)@) {
                    assert forall|k: int| j <= k < order@.len() implies !overdue(
                        pass,
                        notes@[(#[trigger] order@[k]) as int],
                        time,
                    ) by {
                        assert(notes@[order@[k] as int].succeeds(old(notes)@[order@[k] as int]));
                        assert(notes@[id as int].succeeds(old(notes)@[id as int]));
                        if k > j {
                            assert(old(notes)@[order@[j as int] as int].time <= old(
                                notes,
                            )@[order@[k] as int].time);
                        }
                    }
                }
            }
            break;
        }
        proof {
            lemma_visit_sound(pass, note, time, width, scan.keys_held, row);
            lemma_count_resolved_update(notes@, id as int, Note { judge: v.judge, ..note });
        }
        let ghost before = notes@;
        notes[id as usize].judge = v.judge;
        assert(notes@ == before.update(id as int, Note { judge: v.judge, ..note }));
        proof {
            if sorted_by_time(order@, old(notes)@) {
                assert forall|k: int| from <= k < j + 1 implies !overdue(
                    pass,
                    notes@[(#[trigger] order@[k]) as int],
                    time,
                ) by {
                    if order@[k] != id {
                        assert(notes@[order@[k] as int] == before[order@[k] as int]);
                    }
                }
            }
        }
        if v.tap {
            taps.push((line, id));
        }
        if let Some((judgement, diff)) = v.outcome {
            pending.push(Resolution { judgement, line, note: id, diff });
        }
        j = j + 1;
    }
}

/// Whether the cursors of a judge fit a chart: one cursor for each line, whose
/// order names notes of that line that count, and whose watermark lies within it.
pub open spec fn cursors_fit(cursors: Seq<(Vec<u32>, usize)>, chart: Seq<Seq<Note>>) -> bool {
    &&& cursors.len() == chart.len()
    &&& forall|l: int|
        0 <= l < cursors.len() ==> order_in_line((#[trigger] cursors[l]).0@, chart[l])
            && cursors[l].1 <= cursors[l].0@.len()
}

/// Cursors that fit a chart fit it at any later moment.
pub proof fn lemma_cursors_fit_later(
    cursors: Seq<(Vec<u32>, usize)>,
    earlier: Seq<Seq<Note>>,
    later: Seq<Seq<Note>>,
)
    requires
        cursors_fit(cursors, earlier),
        chart_succeeds(later, earlier),
    ensures
        cursors_fit(cursors, later),
{
    assert forall|l: int| 0 <= l < cursors.len() implies order_in_line(
        (#[trigger] cursors[l]).0@,
        later[l],
    ) by {
        assert(line_succeeds(later[l], earlier[l]));
        assert forall|j: int| 0 <= j < cursors[l].0@.len() implies (#[trigger] cursors[l].0@[j])
            < later[l].len() && !later[l][cursors[l].0@[j] as int].fake by {
            assert(later[l][cursors[l].0@[j] as int].succeeds(earlier[l][cursors[l].0@[j] as int]));
        }
    }
}

/// Succession of charts is transitive.
pub proof fn lemma_chart_succeeds_transitive(
    a: Seq<Seq<Note>>,
    b: Seq<Seq<Note>>,
    c: Seq<Seq<Note>>,
)
    requires
        chart_succeeds(b, a),
        chart_succeeds(c, b),
    ensures
        chart_succeeds(c, a),
{
    assert forall|l: int| 0 <= l < c.len() implies line_succeeds(#[trigger] c[l], a[l]) by {
        assert(line_succeeds(c[l], b[l]));
        assert(line_succeeds(b[l], a[l]));
        assert forall|i: int| 0 <= i < c[l].len() implies (#[trigger] c[l][i]).succeeds(a[l][i]) by {
            assert(c[l][i].succeeds(b[l][i]));
            assert(b[l][i].succeeds(a[l][i]));
        }
    }
}

/// A chart in which one line was replaced by a later state of it succeeds the chart.
pub proof fn lemma_line_replaced(chart: Seq<Seq<Note>>, l: int, notes: Seq<Note>)
    requires
        0 <= l < chart.len(),
        line_succeeds(notes, chart[l]),
    ensures
        chart_succeeds(chart.update(l, notes), chart),
{
    let later = chart.update(l, notes);
    assert forall|k: int| 0 <= k < later.len() implies line_succeeds(#[trigger] later[k], chart[k]) by {
        if k != l {
            assert forall|i: int| 0 <= i < later[k].len() implies (#[trigger] later[k][i]).succeeds(
                chart[k][i],
            ) by {}
        }
    }
}

/// Where the touches stand along a line; no touch has a place on a line that
/// the table lacks.
pub open spec fn row_of(local: Seq<Vec<Option<i32>>>, line: int) -> Seq<Option<i32>> {
    if 0 <= line < local.len() {
        local[line]@
    } else {
        Seq::empty()
    }
}

/// The chart and the log after a pass has walked the lines from line `l` on,
/// each from its watermark.
pub open spec fn passes_from(
    pass: Pass,
    chart: Seq<Seq<Note>>,
    cursors: Seq<(Vec<u32>, usize)>,
    l: int,
    time: int,
    note_width: int,
    keys_held: bool,
    local: Seq<Vec<Option<i32>>>,
    log: Log,
) -> (Seq<Seq<Note>>, Log)
    decreases chart.len() - l,
{
    if l < 0 || l >= chart.len() || l >= cursors.len() {
        (chart, log)
    } else {
        let done = pass_from(
            pass,
            chart[l],
            cursors[l].0@,
            cursors[l].1 as int,
            l as usize,
            time,
            note_width,
            keys_held,
            row_of(local, l),
            log,
        );
        passes_from(
            pass,
            chart.update(l, done.0),
            cursors,
            l + 1,
            time,
            note_width,
            keys_held,
            local,
            done.1,
        )
    }
}

/// Whether the order of each line lists its notes by time.
pub open spec fn all_sorted(cursors: Seq<(Vec<u32>, usize)>, chart: Seq<Seq<Note>>) -> bool {
    forall|l: int|
        0 <= l < cursors.len() && l < chart.len() ==> sorted_by_time(
            (#[trigger] cursors[l]).0@,
            chart[l],
        )
}

/// Whether a pass owes nothing to any note from the watermark on, on the first
/// `lines` lines.
pub open spec fn cleared(
    pass: Pass,
    chart: Seq<Seq<Note>>,
    cursors: Seq<(Vec<u32>, usize)>,
    lines: int,
    time: int,
) -> bool {
    forall|l: int, j: int|
        0 <= l < lines && cursors[l].1 <= j < cursors[l].0@.len() ==> !overdue(
            pass,
            chart[l][(#[trigger] cursors[l].0@[j]) as int],
            time,
        )
}

/// Whether each judgement in `pending` from place `from` on names a note of the chart.
pub open spec fn pending_in_chart(pending: Seq<Resolution>, from: int, chart: Seq<Seq<Note>>) -> bool {
    forall|k: int|
        from <= k < pending.len() ==> (#[trigger] pending[k]).line < chart.len() && pending[k].note
            < chart[pending[k].line as int].len()
}

/// Walks every line of a chart from its watermark, and appends to `taps` and
/// `pending` what the pass decides.
pub fn run_passes(
    pass: Pass,
    chart: &mut Chart,
    cursors: &Vec<(Vec<u32>, usize)>,
    time: i32,
    note_width: i32,
    keys_held: bool,
    local: &Vec<Vec<Option<i32>>>,
    taps: &mut Vec<(usize, u32)>,
    pending: &mut Vec<Resolution>,
)
    requires
        cursors_fit(cursors@, old(chart)@),
    ensures
        (final(chart)@, Log { taps: final(taps)@, pending: final(pending)@ }) == passes_from(
            pass,
            old(chart)@,
            cursors@,
            0,
            time as int,
            note_width as int,
            keys_held,
            local@,
            Log { taps: old(taps)@, pending: old(pending)@ },
        ),
        chart_succeeds(final(chart)@, old(chart)@),
        cursors_fit(cursors@, final(chart)@),
        old(taps)@.is_prefix_of(final(taps)@),
        old(pending)@.is_prefix_of(final(pending)@),
        total_resolved(final(chart)@) == total_resolved(old(chart)@) + final(pending)@.len() - old(pending)@.len(),
        pending_in_chart(final(pending)@, old(pending)@.len() as int, final(chart)@),
        pass is Autoplay ==> forall|k: int|
            old(pending)@.len() <= k < final(pending)@.len() ==> (#[trigger] final(pending)@[k]).judgement is Perfect,
        all_sorted(cursors@, old(chart)@) ==> cleared(
            pass,
            final(chart)@,
            cursors@,
            cursors@.len() as int,
            time as int,
        ),
{
    let ghost goal = passes_from(
        pass,
        chart@,
        cursors@,
        0,
        time as int,
        note_width as int,
        keys_held,
        local@,
        Log { taps: taps@, pending: pending@ },
    );
    let empty: Vec<Option<i32>> = Vec::new();
    let mut l: usize = 0;
    proof {
        assert forall|k: int| 0 <= k < chart@.len() implies line_succeeds(
            #[trigger] chart@[k],
            chart@[k],
        ) by {
            assert forall|i: int| 0 <= i < chart@[k].len() implies (#[trigger] chart@[k][i]).succeeds(
                chart@[k][i],
            ) by {}
        }
    }
    while l < chart.lines.len()
        invariant
            l <= chart.lines.len(),
            chart@.len() == old(chart)@.len(),
            empty@ == Seq::<Option<i32>>::empty(),
            cursors_fit(cursors@, chart@),
            chart_succeeds(chart@, old(chart)@),
            old(taps)@.is_prefix_of(taps@),
            old(pending)@.is_prefix_of(pending@),
            total_resolved(chart@) == total_resolved(old(chart)@) + pending@.len() - old(pending)@.len(),
            pending_in_chart(pending@, old(pending)@.len() as int, chart@),
            pass is Autoplay ==> forall|k: int|
                old(pending)@.len() <= k < pending@.len() ==> (#[trigger] pending@[k]).judgement is Perfect,
            all_sorted(cursors@, old(chart)@) ==> cleared(pass, chart@, cursors@, l as int, time as int),
            goal == passes_from(
                pass,
                chart@,
                cursors@,
                l as int,
                time as int,
                note_width as int,
                keys_held,
                local@,
                Log { taps: taps@, pending: pending@ },
            ),
        decreases chart.lines.len() - l,
    {
        let ghost before = chart@;
        let ghost pending_before = pending@;
        let row: &Vec<Option<i32>> = if l < local.len() { &local[l] } else { &empty };
        let scan = Scan { time, note_width, keys_held, row };
        assert(scan.row@ == row_of(local@, l as int));
        run_pass(pass, &mut chart.lines[l].notes, &cursors[l].0, cursors[l].1, l, &scan, taps, pending);
        proof {
            let notes = chart.lines[l as int].notes@;
            assert(chart@ =~= before.update(l as int, notes));
            lemma_total_update(before, l as int, notes);
            lemma_line_replaced(before, l as int, notes);
            lemma_chart_succeeds_transitive(old(chart)@, before, chart@);
            lemma_cursors_fit_later(cursors@, before, chart@);
            if all_sorted(cursors@, old(chart)@) {
                assert(sorted_by_time(cursors@[l as int].0@, before[l as int])) by {
                    assert(sorted_by_time(cursors@[l as int].0@, old(chart)@[l as int]));
                    assert(line_succeeds(before[l as int], old(chart)@[l as int]));
                    assert forall|a: int, b: int| 0 <= a < b < cursors@[l as int].0@.len() implies before[l as int][(
                    #[trigger] cursors@[l as int].0@[a]) as int].time <= before[l as int][(
                    #[trigger] cursors@[l as int].0@[b]) as int].time by {
                        let x = cursors@[l as int].0@[a] as int;
                        let y = cursors@[l as int].0@[b] as int;
                        assert(before[l as int][x].succeeds(old(chart)@[l as int][x]));
                        assert(before[l as int][y].succeeds(old(chart)@[l as int][y]));
                    }
                }
                assert forall|k: int, j: int|
                    0 <= k < l + 1 && cursors@[k].1 <= j < cursors@[k].0@.len() implies !overdue(
                    pass,
                    chart@[k][(#[trigger] cursors@[k].0@[j]) as int],
                    time as int,
                ) by {
                    if k < l {
                        assert(chart@[k] == before[k]);
                    }
                }
            }
            if pass is Autoplay {
                assert forall|k: int| old(pending)@.len() <= k < pending@.len() implies (
                #[trigger] pending@[k]).judgement is Perfect by {
                    if k < pending_before.len() {
                        assert(pending@[k] == pending_before[k]);
                    }
                }
            }
            assert forall|k: int| old(pending)@.len() <= k < pending@.len() implies (
            #[trigger] pending@[k]).line < chart@.len() && pending@[k].note < chart@[pending@[k].line as int].len() by {
                if k < pending_before.len() {
                    assert(pending@[k] == pending_before[k]);
                    assert(line_succeeds(chart@[pending@[k].line as int], before[pending@[k].line as int]));
                }
            }
        }
        l = l + 1;
    }
}

/// Where a watermark at place `w` comes to rest: at the first note from there
/// on that is not judged, or at the end of the order.
pub open spec fn advanced(notes: Seq<Note>, order: Seq<u32>, w: int) -> int
    decreases order.len() - w,
{
    if 0 <= w < order.len() && order[w] < notes.len() && notes[order[w] as int].judge is Judged {
        advanced(notes, order, w + 1)
    } else {
        w
    }
}

/// A watermark never goes back, never leaves its order, passes judged notes
/// only, and rests on a note that is not judged unless it is at the end.
pub proof fn lemma_advanced(notes: Seq<Note>, order: Seq<u32>, w: int)
    requires
        0 <= w <= order.len(),
        order_in_line(order, notes),
    ensures
        w <= advanced(notes, order, w) <= order.len(),
        forall|j: int|
            w <= j < advanced(notes, order, w) ==> notes[(#[trigger] order[j]) as int].judge is Judged,
        advanced(notes, order, w) < order.len() ==> !(notes[order[advanced(
            notes,
            order,
            w,
        )] as int].judge is Judged),
    decreases order.len() - w,
{
    if w < order.len() && notes[order[w] as int].judge is Judged {
        lemma_advanced(notes, order, w + 1);
    }
}

/// Moves the watermark of each line past the judged notes at its front.
pub fn advance(cursors: &mut Vec<(Vec<u32>, usize)>, chart: &Chart)
    requires
        cursors_fit(old(cursors)@, chart@),
    ensures
        cursors_fit(final(cursors)@, chart@),
        final(cursors)@.len() == old(cursors)@.len(),
        forall|l: int|
            0 <= l < old(cursors)@.len() ==> {
                &&& (#[trigger] final(cursors)@[l]).0 == old(cursors)@[l].0
                &&& final(cursors)@[l].1 == advanced(
                    chart@[l],
                    old(cursors)@[l].0@,
                    old(cursors)@[l].1 as int,
                )
                &&& old(cursors)@[l].1 <= final(cursors)@[l].1 <= old(cursors)@[l].0@.len()
            },
{
    let mut l: usize = 0;
    while l < cursors.len()
        invariant
            l <= cursors@.len(),
            cursors@.len() == old(cursors)@.len(),
            cursors_fit(old(cursors)@, chart@),
            forall|k: int| 0 <= k < cursors@.len() ==> (#[trigger] cursors@[k]).0 == old(cursors)@[k].0,
            forall|k: int| l <= k < cursors@.len() ==> (#[trigger] cursors@[k]).1 == old(cursors)@[k].1,
            forall|k: int|
                0 <= k < l ==> {
                    &&& (#[trigger] cursors@[k]).1 == advanced(
                        chart@[k],
                        old(cursors)@[k].0@,
                        old(cursors)@[k].1 as int,
                    )
                    &&& old(cursors)@[k].1 <= cursors@[k].1 <= old(cursors)@[k].0@.len()
                },
        decreases cursors.len() - l,
    {
        let ghost notes = chart@[l as int];
        let ghost order = cursors@[l as int].0@;
        let ghost start = cursors@[l as int].1 as int;
        assert(notes == chart.lines[l as int].notes@);
        assert(order == old(cursors)@[l as int].0@);
        let mut w: usize = cursors[l].1;
        while w < cursors[l].0.len()
            invariant_except_break
                advanced(notes, order, start) == advanced(notes, order, w as int),
            invariant
                l < cursors@.len() == chart.lines@.len(),
                order == cursors@[l as int].0@,
                notes == chart.lines[l as int].notes@,
                order_in_line(order, notes),
                start <= w <= order.len(),
            ensures
                advanced(notes, order, start) == w,
            decreases cursors[l as int].0@.len() - w,
        {
            let id = cursors[l].0[w];
            match chart.lines[l].notes[id as usize].judge {
                JudgeStatus::Judged => {},
                _ => {
                    break ;
                },
            }
            w = w + 1;
        }
        cursors[l].1 = w;
        l = l + 1;
    }
}

} // verus!
