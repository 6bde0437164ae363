//! What holds of a play as a whole, proved from the contracts of the judge.

use vstd::prelude::*;
use crate::chart::{
    Note, chart_succeeds, fully_resolved, lemma_total_resolved_bound, line_succeeds,
    total_resolved,
};
use crate::frame::{place, Frame, Touch};
use crate::judge::{
    caught_up, committed_from, empty_log, manual_play, recorded_diff, Judge, JudgeStatus,
    Judgement, Tally,
};
use crate::matching::{consider, find_from, scan_from, target_of, Closest};
use crate::strike::{applied, keys_from, struck, touch_step, touches_from, Stage};
use crate::sweep::{
    finalize_visit, logged, pass_from, passes_from, row_of, sweep_visit, Pass, Resolution,
};
use crate::tracker::TrackerView;
use crate::units::{distance, LIMIT_GOOD, LIMIT_PERFECT};
use crate::units::LIMIT_BAD;
use crate::score::{accuracy_of, lemma_full_score_iff_all_perfect, score_of, FULL_SCORE};

verus! {

/// A status that follows another has come at least as far, and a judged note
/// stays judged.
pub proof fn lemma_status_never_goes_back(earlier: JudgeStatus, later: JudgeStatus)
    requires
        later.follows(earlier),
    ensures
        later.rank() >= earlier.rank(),
        earlier is Judged ==> later is Judged,
{
}

/// What follows a status that follows another, follows the other.
pub proof fn lemma_follows_transitive(a: JudgeStatus, b: JudgeStatus, c: JudgeStatus)
    requires
        b.follows(a),
        c.follows(b),
    ensures
        c.follows(a),
{
}

/// Between two moments of a chart of which the later succeeds the earlier, as
/// the chart after a frame succeeds the chart before it, no note has gone back
/// in status, and none has changed in anything else.
pub proof fn lemma_notes_never_go_back(earlier: Seq<Seq<Note>>, later: Seq<Seq<Note>>, l: int, i: int)
    requires
        chart_succeeds(later, earlier),
        0 <= l < earlier.len(),
        0 <= i < earlier[l].len(),
    ensures
        later[l][i].judge.rank() >= earlier[l][i].judge.rank(),
        earlier[l][i].judge is Judged ==> later[l][i].judge is Judged,
        later[l][i].time == earlier[l][i].time,
        later[l][i].kind == earlier[l][i].kind,
        later[l][i].fake == earlier[l][i].fake,
{
    assert(line_succeeds(later[l], earlier[l]));
    assert(later[l][i].succeeds(earlier[l][i]));
}

/// A judge in step with a chart has committed exactly one judgement for each
/// note of the chart that counts and is judged.
pub proof fn lemma_one_commit_per_judged_note(judge: &Judge, chart: Seq<Seq<Note>>)
    requires
        judge.tracks(chart),
    ensures
        judge.counts[0] + judge.counts[1] + judge.counts[2] + judge.counts[3] == total_resolved(
            chart,
        ),
{
}

/// Once every note of the chart that counts is judged, the four counts add up
/// to the number of notes.
pub proof fn lemma_resolved_chart_is_counted(judge: &Judge, chart: Seq<Seq<Note>>)
    requires
        judge.tracks(chart),
        fully_resolved(chart),
    ensures
        judge.counts[0] + judge.counts[1] + judge.counts[2] + judge.counts[3]
            == judge.num_of_notes,
{
    lemma_total_resolved_bound(chart);
}

/// The accuracy of a judge lies between nothing and one.
pub proof fn lemma_accuracy_within_one(judge: &Judge)
    requires
        judge.wf(),
    ensures
        ({
            let a = accuracy_of(
                judge.counts[0] as int,
                judge.counts[1] as int,
                judge.num_of_notes as int,
            );
            0 < a.den && a.num <= a.den
        }),
{
}

/// In a play of fewer than 630 000 notes, the score is the full score exactly
/// when every note is perfect.
pub proof fn lemma_full_score_means_all_perfect(judge: &Judge)
    requires
        judge.wf(),
        judge.num_of_notes < 630_000,
    ensures
        score_of(
            judge.counts[0] as int,
            judge.counts[1] as int,
            judge.max_combo as int,
            judge.num_of_notes as int,
        ) == FULL_SCORE <==> judge.counts[0] == judge.num_of_notes,
{
    lemma_full_score_iff_all_perfect(
        judge.counts[0] as int,
        judge.counts[1] as int,
        judge.max_combo as int,
        judge.num_of_notes as int,
    );
}

/// A play begins flawless.
pub proof fn lemma_fresh_tally_is_flawless()
    ensures
        Tally::zero().flawless(),
        Tally::zero().wf(),
{
}

/// A play that stayed flawless, as a play of a chart that plays itself does
/// frame after frame, ends with every note perfect and in one combo.
pub proof fn lemma_flawless_play(judge: &Judge, chart: Seq<Seq<Note>>)
    requires
        judge.tracks(chart),
        judge.tally().flawless(),
        fully_resolved(chart),
    ensures
        judge.counts[0] == judge.num_of_notes,
        judge.counts[1] == 0,
        judge.counts[2] == 0,
        judge.counts[3] == 0,
        judge.max_combo == judge.num_of_notes,
{
    lemma_total_resolved_bound(chart);
}

/// A frame of play from input leaves no note that counts without a judgement
/// once the note is later than the bad window, and leaves no note caught once
/// its time has come: what cannot be hit any more is missed, and what was
/// caught is counted at its time.
pub proof fn lemma_nothing_is_left_behind(chart: Seq<Seq<Note>>, time: int, l: int, i: int)
    requires
        caught_up(chart, time, false),
        0 <= l < chart.len(),
        0 <= i < chart[l].len(),
        !chart[l][i].fake,
    ensures
        chart[l][i].time < time - LIMIT_BAD ==> !(chart[l][i].judge is NotJudged),
        chart[l][i].time <= time ==> !(chart[l][i].judge is PreJudge),
{
}

/// A frame of autoplay leaves no note that counts and is due without a hit.
pub proof fn lemma_autoplay_hits_what_is_due(chart: Seq<Seq<Note>>, time: int, l: int, i: int)
    requires
        caught_up(chart, time, true),
        0 <= l < chart.len(),
        0 <= i < chart[l].len(),
        !chart[l][i].fake,
        chart[l][i].time <= time,
    ensures
        !(chart[l][i].judge is NotJudged),
{
}

/// The judgement of a tap on a click, by its distance in time.
pub open spec fn tap_judgement(dt: int) -> Judgement {
    if dt <= LIMIT_PERFECT {
        Judgement::Perfect
    } else if dt <= LIMIT_GOOD {
        Judgement::Good
    } else {
        Judgement::Bad
    }
}

/// A tap on a click, at the place of the note and within the good window of its
/// time, judges the note: perfect within the perfect window, else good. On a fresh
/// judge the frame leaves one judgement counted, a combo of one, and for a good
/// tap the distance of the tap from the time of the note, early or late by its
/// sign.
pub proof fn lemma_tap_on_a_click(
    note: Note,
    cursors: Seq<(Vec<u32>, usize)>,
    trackers: Map<u64, TrackerView>,
    keys_held: bool,
    frame: Frame,
    touch: Touch,
    local: Seq<Vec<Option<i32>>>,
)
    requires
        note.kind is Click,
        !note.fake,
        note.judge is NotJudged,
        cursors.len() == 1,
        cursors[0].0@ == seq![0u32],
        cursors[0].1 == 0,
        touch.phase is Started,
        place(local, 0, 0) == Some(note.lateral),
        frame.note_width > 0,
        distance(note.time as int, frame.time as int) <= LIMIT_GOOD,
    ensures
        ({
            let played = manual_play(
                seq![seq![note]],
                cursors,
                trackers,
                keys_held,
                frame,
                seq![touch],
                0,
                local,
            );
            let dt = distance(note.time as int, frame.time as int);
            let tally = committed_from(
                Tally::zero(),
                played.log.pending,
                0,
                played.chart,
                frame.time as int,
            );
            &&& played.chart == seq![seq![Note { judge: JudgeStatus::Judged, ..note }]]
            &&& played.trackers == trackers
            &&& played.log.taps == Seq::<(usize, u32)>::empty()
            &&& played.log.pending == seq![
                Resolution { judgement: tap_judgement(dt), line: 0, note: 0, diff: None },
            ]
            &&& tally.counts == if dt <= LIMIT_PERFECT {
                seq![1int, 0int, 0int, 0int]
            } else {
                seq![0int, 1int, 0int, 0int]
            }
            &&& tally.combo == 1
            &&& tally.max_combo == 1
            &&& tally.diffs == if dt <= LIMIT_PERFECT {
                Seq::<i64>::empty()
            } else {
                seq![(frame.time - note.time) as i64]
            }
        }),
{
    let t = frame.time as int;
    let nw = frame.note_width as int;
    let dt = distance(note.time as int, t);
    let chart0 = seq![seq![note]];
    let order = cursors[0].0@;
    // The search: the note lies under the tap and ends the walk of its line.
    let c0 = Closest::none(nw);
    let x = note.lateral as int;
    let cons = consider(c0, note, 0, 0, x, t, nw, true);
    assert(cons.1);
    assert(cons.0.target == Some((0usize, 0u32)));
    assert(chart0[0] == seq![note]);
    assert(scan_from(chart0[0], order, 0, c0, 0, x, t, nw, true) == cons.0);
    assert(find_from(chart0, cursors, 1, cons.0, local, 0, t, nw, true) == cons.0);
    assert(find_from(chart0, cursors, 0, c0, local, 0, t, nw, true) == cons.0);
    assert(target_of(chart0, cursors, local, 0, t, nw, true) == Some((0usize, 0u32)));
    // The tap.
    let v = struck(note, t, true);
    let judged = Note { judge: JudgeStatus::Judged, ..note };
    let chart1 = applied(chart0, 0, 0, v);
    assert(chart1 =~= seq![seq![judged]]) by {
        assert(chart1[0] =~= seq![judged]);
    }
    let r = Resolution { judgement: tap_judgement(dt), line: 0, note: 0, diff: None };
    let log1 = logged(empty_log(), v, 0, 0);
    assert(log1.pending =~= seq![r]);
    assert(log1.taps =~= Seq::<(usize, u32)>::empty());
    let stage0 = Stage { chart: chart0, trackers, log: empty_log() };
    let stage1 = touch_step(stage0, cursors, touch, 0, local, t, nw, frame.dpi);
    assert(stage1 == Stage { chart: chart1, trackers, log: log1 });
    let touches = seq![touch];
    assert(touches_from(stage1, cursors, touches, 1, local, t, nw, frame.dpi) == stage1);
    assert(touches_from(stage0, cursors, touches, 0, local, t, nw, frame.dpi) == stage1);
    // No key went down.
    assert(keys_from(chart1, cursors, 0, t, log1) == (chart1, log1));
    // The passes leave a judged note as it is.
    let row = row_of(local, 0);
    assert(sweep_visit(judged, t, nw, keys_held, row).judge == judged.judge);
    assert(chart1[0].update(0, judged) =~= chart1[0]);
    assert(pass_from(Pass::Sweep, chart1[0], order, 1, 0, t, nw, keys_held, row, log1) == (
        chart1[0],
        log1,
    ));
    assert(pass_from(Pass::Sweep, chart1[0], order, 0, 0, t, nw, keys_held, row, log1) == (
        chart1[0],
        log1,
    ));
    assert(chart1.update(0, chart1[0]) =~= chart1);
    assert(passes_from(Pass::Sweep, chart1, cursors, 1, t, nw, keys_held, local, log1) == (
        chart1,
        log1,
    ));
    assert(passes_from(Pass::Sweep, chart1, cursors, 0, t, nw, keys_held, local, log1) == (
        chart1,
        log1,
    ));
    assert(finalize_visit(judged, t).judge == judged.judge);
    assert(pass_from(Pass::Finalize, chart1[0], order, 1, 0, t, nw, keys_held, row, log1) == (
        chart1[0],
        log1,
    ));
    assert(pass_from(Pass::Finalize, chart1[0], order, 0, 0, t, nw, keys_held, row, log1) == (
        chart1[0],
        log1,
    ));
    assert(passes_from(Pass::Finalize, chart1, cursors, 1, t, nw, keys_held, local, log1) == (
        chart1,
        log1,
    ));
    assert(passes_from(Pass::Finalize, chart1, cursors, 0, t, nw, keys_held, local, log1) == (
        chart1,
        log1,
    ));
    // The commit.
    let diff = recorded_diff(r, note.time as int, t);
    let tally1 = Tally::zero().commit(r.judgement, diff);
    assert(committed_from(tally1, log1.pending, 1, chart1, t) == tally1);
    assert(committed_from(Tally::zero(), log1.pending, 0, chart1, t) == tally1);
    assert(tally1.counts =~= if dt <= LIMIT_PERFECT {
        seq![1int, 0int, 0int, 0int]
    } else {
        seq![0int, 1int, 0int, 0int]
    });
    assert(tally1.diffs =~= if dt <= LIMIT_PERFECT {
        Seq::<i64>::empty()
    } else {
        seq![(frame.time - note.time) as i64]
    });
}

} // verus!
