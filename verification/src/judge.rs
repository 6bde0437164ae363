//! The judge: the tallies of a play session and the per-frame judgement of a chart.

use vstd::prelude::*;
use std::collections::HashMap;
use crate::chart::{
    Chart, Note, chart_succeeds, count_playable, lemma_total_playable_later,
    lemma_total_resolved_bound, line_succeeds, total_playable, total_resolved,
};
use crate::effects::{
    bad_notes_from, cues_from, push_cues, push_tap_sounds, tap_sounds, BadNote, Effect,
};
use crate::frame::{Frame, Intake};
use crate::order::{
    lemma_time_ordered_in_line, lemma_time_ordered_later, lists, precedes, time_order,
    time_ordered,
};
use crate::score::{
    accuracy_of, count_early, lemma_score_bounds, score_of, Ratio, FULL_SCORE,
};
use crate::strike::{
    keys_from, press_keys, strike_touches, touches_from, trackers_wf, views, Stage,
};
use crate::sweep::{
    advance, advanced, all_sorted, cleared, cursors_fit, lemma_advanced,
    lemma_chart_succeeds_transitive, lemma_cursors_fit_later, order_in_line, overdue,
    passes_from, pending_in_chart, run_passes, sorted_by_time, Log, Pass, Resolution,
};
use crate::tracker::{TrackerView, VelocityTracker};

verus! {

/// How far the judgement of a note has come.
#[derive(Clone, Copy, Debug, PartialEq, Eq, Structural)]
pub enum JudgeStatus {
    NotJudged,
    /// Caught, to be counted as perfect once its time has come.
    PreJudge,
    Judged,
    /// A hold in progress: whether it began perfect, when it began, how far from
    /// its time, and whether its end is near enough to let go.
    Hold(bool, i32, i64, bool),
}

impl JudgeStatus {
    /// Whether a note whose status was `earlier` can have this status later on.
    /// A status never goes back, and a judged note stays judged.
    pub open spec fn follows(self, earlier: JudgeStatus) -> bool {
        ||| self == earlier
        ||| earlier is NotJudged
        ||| self is Judged && !(earlier is Judged)
        ||| (earlier matches JudgeStatus::Hold(p0, a0, d0, r0) && self matches JudgeStatus::Hold(
            p1,
            a1,
            d1,
            r1,
        ) && p0 == p1 && a0 == a1 && d0 == d1 && r1)
    }

    /// How far a status has come: not judged, under way, or judged.
    pub open spec fn rank(self) -> int {
        match self {
            JudgeStatus::NotJudged => 0,
            JudgeStatus::PreJudge => 1,
            JudgeStatus::Hold(..) => 1,
            JudgeStatus::Judged => 2,
        }
    }
}

/// The outcome of a note.
#[derive(Clone, Copy, Debug, PartialEq, Eq, Structural)]
pub enum Judgement {
    Perfect,
    Good,
    Bad,
    Miss,
}

impl Judgement {
    /// Place of the judgement in `Judge::counts`.
    pub open spec fn index(self) -> int {
        match self {
            Judgement::Perfect => 0,
            Judgement::Good => 1,
            Judgement::Bad => 2,
            Judgement::Miss => 3,
        }
    }

    /// Whether the judgement keeps a combo going.
    pub open spec fn keeps_combo(self) -> bool {
        self is Perfect || self is Good
    }
}

/// The running totals of a session, as plain integers.
pub struct Tally {
    /// Length of the run of perfect and good judgements that is under way.
    pub combo: int,
    /// Longest such run so far.
    pub max_combo: int,
    /// How often each judgement was given: perfect, good, bad, miss.
    pub counts: Seq<int>,
    /// The time differences committed with judgements, in milliseconds.
    pub diffs: Seq<i64>,
}

impl Tally {
    /// The totals at the start of a session.
    pub open spec fn zero() -> Tally {
        Tally { combo: 0, max_combo: 0, counts: seq![0, 0, 0, 0], diffs: Seq::empty() }
    }

    /// Number of judgements given.
    pub open spec fn resolved(self) -> int {
        self.counts[0] + self.counts[1] + self.counts[2] + self.counts[3]
    }

    /// What holds of the totals at any time: four counts; the combo is a run of
    /// judgements that keep it going, so it is at most the longest run, which is
    /// at most the number of perfect and good judgements; and at most one time
    /// difference was recorded with each judgement.
    pub open spec fn wf(self) -> bool {
        &&& self.counts.len() == 4
        &&& forall|i: int| 0 <= i < 4 ==> 0 <= #[trigger] self.counts[i]
        &&& 0 <= self.combo <= self.max_combo <= self.counts[0] + self.counts[1]
        &&& self.diffs.len() <= self.resolved()
    }

    /// The totals after one more judgement.
    pub open spec fn commit(self, what: Judgement, diff: Option<i64>) -> Tally {
        let combo = if what.keeps_combo() { self.combo + 1 } else { 0 };
        Tally {
            combo,
            max_combo: if combo > self.max_combo { combo } else { self.max_combo },
            counts: self.counts.update(what.index(), self.counts[what.index()] + 1),
            diffs: match diff {
                Some(d) => self.diffs.push(d),
                None => self.diffs,
            },
        }
    }

    /// Whether every judgement so far was perfect.
    pub open spec fn flawless(self) -> bool {
        &&& self.counts[1] == 0
        &&& self.counts[2] == 0
        &&& self.counts[3] == 0
        &&& self.combo == self.counts[0]
        &&& self.max_combo == self.counts[0]
    }
}

/// Judges one play of a chart.
pub struct Judge {
    /// For each line, its notes that count, ordered by time, and the watermark:
    /// the place in that order before which every note is judged.
    pub notes: Vec<(Vec<u32>, usize)>,
    /// The velocity tracker of each touch that is down.
    pub trackers: HashMap<u64, VelocityTracker>,
    /// Time of the last frame judged from input.
    pub last_time: i32,
    /// Number of keys held down.
    pub key_down_count: u32,
    /// The time differences committed with judgements.
    pub diffs: Vec<i64>,
    pub combo: u32,
    pub max_combo: u32,
    pub counts: [u32; 4],
    pub num_of_notes: u32,
}

impl Judge {
    /// The running totals.
    pub open spec fn tally(&self) -> Tally {
        Tally {
            combo: self.combo as int,
            max_combo: self.max_combo as int,
            counts: seq![
                self.counts[0] as int,
                self.counts[1] as int,
                self.counts[2] as int,
                self.counts[3] as int,
            ],
            diffs: self.diffs@,
        }
    }

    /// What each tracker holds.
    pub open spec fn tracker_views(&self) -> Map<u64, TrackerView> {
        views(self.trackers@)
    }

    /// The invariant of a judge by itself: sound totals that leave room for no
    /// more judgements than there are notes, and sound trackers.
    pub open spec fn wf(&self) -> bool {
        &&& self.tally().wf()
        &&& self.tally().resolved() <= self.num_of_notes
        &&& trackers_wf(self.trackers@)
    }

    /// Whether the cursors of the judge are those of a chart: there is one for
    /// each line, whose order lists the notes of the line that count by time and
    /// whose watermark has only judged notes before it; and the judge expects as
    /// many notes as the chart has that count.
    pub open spec fn aligned(&self, chart: Seq<Seq<Note>>) -> bool {
        &&& cursors_fit(self.notes@, chart)
        &&& forall|l: int|
            0 <= l < chart.len() ==> time_ordered((#[trigger] self.notes@[l]).0@, chart[l])
        &&& forall|l: int, j: int|
            0 <= l < chart.len() && 0 <= j < self.notes@[l].1 ==> chart[l][(
            #[trigger] self.notes@[l].0@[j]) as int].judge is Judged
        &&& self.num_of_notes == total_playable(chart)
    }

    /// Whether the judge is in step with a chart: its cursors are those of the
    /// chart, and it has committed one judgement for each note of the chart that
    /// is judged.
    pub open spec fn tracks(&self, chart: Seq<Seq<Note>>) -> bool {
        &&& self.aligned(chart)
        &&& self.tally().resolved() == total_resolved(chart)
    }

    /// A judge whose cursors are those of a chart keeps them while the notes of
    /// the chart go through their statuses.
    pub proof fn lemma_aligned_later(&self, earlier: Seq<Seq<Note>>, later: Seq<Seq<Note>>)
        requires
            self.aligned(earlier),
            chart_succeeds(later, earlier),
        ensures
            self.aligned(later),
    {
        lemma_cursors_fit_later(self.notes@, earlier, later);
        lemma_total_playable_later(later, earlier);
        assert forall|l: int| 0 <= l < later.len() implies time_ordered(
            (#[trigger] self.notes@[l]).0@,
            later[l],
        ) by {
            assert(line_succeeds(later[l], earlier[l]));
            lemma_time_ordered_later(self.notes@[l].0@, earlier[l], later[l]);
        }
        assert forall|l: int, j: int| 0 <= l < later.len() && 0 <= j < self.notes@[l].1 implies later[l][(
        #[trigger] self.notes@[l].0@[j]) as int].judge is Judged by {
            assert(line_succeeds(later[l], earlier[l]));
            let id = self.notes@[l].0@[j] as int;
            assert(order_in_line(self.notes@[l].0@, earlier[l]));
            assert(later[l][id].succeeds(earlier[l][id]));
        }
    }

    /// The orders of a judge whose cursors are those of a chart list the notes by time.
    pub proof fn lemma_aligned_sorted(&self, chart: Seq<Seq<Note>>)
        requires
            self.aligned(chart),
        ensures
            all_sorted(self.notes@, chart),
    {
        assert forall|l: int| 0 <= l < self.notes@.len() && l < chart.len() implies sorted_by_time(
            (#[trigger] self.notes@[l]).0@,
            chart[l],
        ) by {
            let order = self.notes@[l].0@;
            assert(time_ordered(order, chart[l]));
            assert forall|i: int, j: int| 0 <= i < j < order.len() implies chart[l][(
            #[trigger] order[i]) as int].time <= chart[l][(#[trigger] order[j]) as int].time by {
                assert(precedes(chart[l], order[i], order[j]));
            }
        }
    }

    /// A pass that owes nothing to the notes from the watermarks on owes nothing
    /// to any note that counts: the notes before a watermark are judged, and
    /// every note that counts is in the order of its line.
    pub proof fn lemma_cleared_everywhere(
        &self,
        earlier: Seq<Seq<Note>>,
        later: Seq<Seq<Note>>,
        pass: Pass,
        time: int,
    )
        requires
            self.aligned(earlier),
            chart_succeeds(later, earlier),
            cleared(pass, later, self.notes@, later.len() as int, time),
        ensures
            forall|l: int, i: int|
                0 <= l < later.len() && 0 <= i < later[l].len() && !(#[trigger] later[l][i]).fake
                    ==> !overdue(pass, later[l][i], time),
    {
        assert forall|l: int, i: int|
            0 <= l < later.len() && 0 <= i < later[l].len() && !(#[trigger] later[l][i]).fake implies !overdue(
            pass,
            later[l][i],
            time,
        ) by {
            let order = self.notes@[l].0@;
            assert(line_succeeds(later[l], earlier[l]));
            assert(later[l][i].succeeds(earlier[l][i]));
            assert(time_ordered(order, earlier[l]));
            assert(lists(order, i));
            let j = choose|j: int| 0 <= j < order.len() && #[trigger] order[j] == i;
            if j < self.notes@[l].1 {
                assert(earlier[l][order[j] as int].judge is Judged);
            } else {
                assert(!overdue(pass, later[l][order[j] as int], time));
            }
        }
    }

    /// Records one judgement, with the time difference to keep for the early and
    /// late statistics, if any.
    pub fn commit(&mut self, what: Judgement, diff: Option<i64>)
        requires
            old(self).wf(),
            old(self).tally().resolved() < old(self).num_of_notes,
        ensures
            final(self).wf(),
            final(self).tally() == old(self).tally().commit(what, diff),
            final(self).num_of_notes == old(self).num_of_notes,
            final(self).notes == old(self).notes,
            final(self).trackers == old(self).trackers,
            final(self).last_time == old(self).last_time,
            final(self).key_down_count == old(self).key_down_count,
    {
        if let Some(diff) = diff {
            self.diffs.push(diff);
        }
        let i: usize = match what {
            Judgement::Perfect => 0,
            Judgement::Good => 1,
            Judgement::Bad => 2,
            Judgement::Miss => 3,
        };
        self.counts[i] = self.counts[i] + 1;
        match what {
            Judgement::Perfect | Judgement::Good => {
                self.combo = self.combo + 1;
                if self.combo > self.max_combo {
                    self.max_combo = self.combo;
                }
            },
            _ => {
                self.combo = 0;
            },
        }
        assert(self.tally().counts =~= old(self).tally().commit(what, diff).counts);
    }
}

/// The summary of a play.
#[derive(Clone, Copy, Debug)]
pub struct PlayResult {
    pub score: u32,
    pub accuracy: Ratio,
    pub max_combo: u32,
    pub num_of_notes: u32,
    pub counts: [u32; 4],
    /// Number of recorded time differences below zero.
    pub early: u32,
    /// Number of recorded time differences of zero or more.
    pub late: u32,
}

impl Default for PlayResult {
    /// The summary of a play in which nothing happened.
    fn default() -> (r: PlayResult)
        ensures
            r.score == 0,
            r.accuracy == (Ratio { num: 0, den: 1 }),
            r.max_combo == 0,
            r.num_of_notes == 0,
            r.counts@ == seq![0u32, 0u32, 0u32, 0u32],
            r.early == 0,
            r.late == 0,
    {
        PlayResult {
            score: 0,
            accuracy: Ratio { num: 0, den: 1 },
            max_combo: 0,
            num_of_notes: 0,
            counts: [0, 0, 0, 0],
            early: 0,
            late: 0,
        }
    }
}

/// The notes of a chart that count are fewer than `2^32`, line by line and in all.
pub open spec fn countable(chart: Seq<Seq<Note>>) -> bool {
    &&& forall|l: int| 0 <= l < chart.len() ==> (#[trigger] chart[l]).len() <= u32::MAX
    &&& total_playable(chart) <= u32::MAX
}

/// The first lines of a chart hold no more notes that count than the chart.
proof fn lemma_total_playable_prefix(chart: Seq<Seq<Note>>, l: int)
    requires
        0 <= l <= chart.len(),
    ensures
        total_playable(chart.take(l)) <= total_playable(chart),
    decreases chart.len(),
{
    if l < chart.len() {
        assert(chart.drop_last().take(l) =~= chart.take(l));
        lemma_total_playable_prefix(chart.drop_last(), l);
    } else {
        assert(chart.take(l) =~= chart);
    }
}

impl Judge {
    /// A judge for a play of a chart: nothing is judged, no touch is down, and
    /// each line has its notes that count in the order of their times.
    pub fn new(chart: &Chart) -> (judge: Self)
        requires
            countable(chart@),
        ensures
            judge.wf(),
            judge.tally() == Tally::zero(),
            judge.num_of_notes == total_playable(chart@),
            judge.trackers@ == Map::<u64, VelocityTracker>::empty(),
            judge.last_time == 0,
            judge.key_down_count == 0,
            judge.notes@.len() == chart@.len(),
            forall|l: int|
                0 <= l < chart@.len() ==> time_ordered((#[trigger] judge.notes@[l]).0@, chart@[l])
                    && judge.notes@[l].0@.len() == count_playable(chart@[l]) && judge.notes@[l].1
                    == 0,
            total_resolved(chart@) == 0 ==> judge.tracks(chart@),
    {
        let mut notes: Vec<(Vec<u32>, usize)> = Vec::new();
        let mut num_of_notes: u32 = 0;
        let mut l: usize = 0;
        while l < chart.lines.len()
            invariant
                l <= chart.lines.len(),
                countable(chart@),
                notes@.len() == l,
                num_of_notes == total_playable(chart@.take(l as int)),
                forall|k: int|
                    0 <= k < l ==> time_ordered((#[trigger] notes@[k]).0@, chart@[k])
                        && notes@[k].0@.len() == count_playable(chart@[k]) && notes@[k].1 == 0,
            decreases chart.lines.len() - l,
        {
            assert(chart@[l as int] == chart.lines[l as int].notes@);
            let order = time_order(&chart.lines[l].notes);
            proof {
                assert(chart@.take(l + 1).drop_last() =~= chart@.take(l as int));
                assert(chart@.take(l + 1).last() == chart@[l as int]);
                lemma_total_playable_prefix(chart@, l + 1);
            }
            num_of_notes = num_of_notes + order.len() as u32;
            notes.push((order, 0));
            l = l + 1;
        }
        assert(chart@.take(l as int) =~= chart@);
        let judge = Self {
            notes,
            trackers: HashMap::new(),
            last_time: 0,
            key_down_count: 0,
            diffs: Vec::new(),
            combo: 0,
            max_combo: 0,
            counts: [0, 0, 0, 0],
            num_of_notes,
        };
        proof {
            assert(judge.tally().counts =~= Tally::zero().counts);
            assert forall|k: int| 0 <= k < chart@.len() implies crate::sweep::order_in_line(
                (#[trigger] judge.notes@[k]).0@,
                chart@[k],
            ) by {
                lemma_time_ordered_in_line(judge.notes@[k].0@, chart@[k]);
            }
        }
        judge
    }

    /// Starts the play over: the totals are cleared, the watermarks go back to
    /// the first notes, and the trackers are dropped. The chart is reset by its owner.
    pub fn reset(&mut self)
        ensures
            final(self).wf(),
            final(self).tally() == Tally::zero(),
            final(self).trackers@ == Map::<u64, VelocityTracker>::empty(),
            final(self).num_of_notes == old(self).num_of_notes,
            final(self).last_time == old(self).last_time,
            final(self).key_down_count == old(self).key_down_count,
            final(self).notes@.len() == old(self).notes@.len(),
            forall|l: int|
                0 <= l < old(self).notes@.len() ==> (#[trigger] final(self).notes@[l]).0 == old(
                    self,
                ).notes@[l].0 && final(self).notes@[l].1 == 0,
            forall|chart: Seq<Seq<Note>>|
                #![trigger old(self).aligned(chart)]
                old(self).aligned(chart) && total_resolved(chart) == 0 ==> final(self).tracks(chart),
    {
        let mut l: usize = 0;
        while l < self.notes.len()
            invariant
                l <= self.notes@.len(),
                self.notes@.len() == old(self).notes@.len(),
                forall|k: int|
                    0 <= k < self.notes@.len() ==> (#[trigger] self.notes@[k]).0 == old(
                        self,
                    ).notes@[k].0,
                forall|k: int| 0 <= k < l ==> (#[trigger] self.notes@[k]).1 == 0,
                self.num_of_notes == old(self).num_of_notes,
                self.last_time == old(self).last_time,
                self.key_down_count == old(self).key_down_count,
            decreases self.notes.len() - l,
        {
            self.notes[l].1 = 0;
            l = l + 1;
        }
        self.trackers.clear();
        self.combo = 0;
        self.max_combo = 0;
        self.counts = [0, 0, 0, 0];
        self.diffs.clear();
        assert(self.tally().counts =~= Tally::zero().counts);
        assert forall|chart: Seq<Seq<Note>>|
            #![trigger old(self).aligned(chart)]
            old(self).aligned(chart) && total_resolved(chart) == 0 implies self.tracks(chart) by {
            assert forall|l: int| 0 <= l < chart.len() implies time_ordered(
                (#[trigger] self.notes@[l]).0@,
                chart[l],
            ) by {
                assert(self.notes@[l].0 == old(self).notes@[l].0);
                assert(time_ordered(old(self).notes@[l].0@, chart[l]));
            }
            assert forall|l: int| 0 <= l < self.notes@.len() implies order_in_line(
                (#[trigger] self.notes@[l]).0@,
                chart[l],
            ) && self.notes@[l].1 <= self.notes@[l].0@.len() by {
                assert(self.notes@[l].0 == old(self).notes@[l].0);
                assert(order_in_line(old(self).notes@[l].0@, chart[l]));
            }
        }
    }

    /// The share of the notes that were hit, a good hit counting for less than a
    /// perfect one.
    pub fn accuracy(&self) -> (r: Ratio)
        ensures
            r == accuracy_of(
                self.counts[0] as int,
                self.counts[1] as int,
                self.num_of_notes as int,
            ),
            r.den > 0,
            self.wf() ==> r.num <= r.den,
    {
        if self.num_of_notes == 0 {
            Ratio { num: 1, den: 1 }
        } else {
            Ratio {
                num: 20 * (self.counts[0] as u64) + 13 * (self.counts[1] as u64),
                den: 20 * (self.num_of_notes as u64),
            }
        }
    }

    /// The score of the play so far, out of a million.
    pub fn score(&self) -> (score: u32)
        requires
            self.wf(),
        ensures
            score == score_of(
                self.counts[0] as int,
                self.counts[1] as int,
                self.max_combo as int,
                self.num_of_notes as int,
            ),
            score <= FULL_SCORE,
    {
        proof {
            lemma_score_bounds(
                self.counts[0] as int,
                self.counts[1] as int,
                self.max_combo as int,
                self.num_of_notes as int,
            );
        }
        if self.counts[0] == self.num_of_notes {
            FULL_SCORE
        } else {
            let weighted: u64 = 900_000 * (self.counts[0] as u64) + 585_000 * (
            self.counts[1] as u64) + 100_000 * (self.max_combo as u64);
            let total: u64 = self.num_of_notes as u64;
            ((2 * weighted + total) / (2 * total)) as u32
        }
    }

    /// The summary of the play so far.
    pub fn result(&self) -> (r: PlayResult)
        requires
            self.wf(),
        ensures
            r.score == score_of(
                self.counts[0] as int,
                self.counts[1] as int,
                self.max_combo as int,
                self.num_of_notes as int,
            ),
            r.accuracy == accuracy_of(
                self.counts[0] as int,
                self.counts[1] as int,
                self.num_of_notes as int,
            ),
            r.max_combo == self.max_combo,
            r.num_of_notes == self.num_of_notes,
            r.counts == self.counts,
            r.early == count_early(self.diffs@),
            r.early + r.late == self.diffs@.len(),
    {
        let mut early: u32 = 0;
        let mut i: usize = 0;
        while i < self.diffs.len()
            invariant
                i <= self.diffs@.len() <= u32::MAX,
                early == count_early(self.diffs@.take(i as int)),
                early <= i,
            decreases self.diffs.len() - i,
        {
            assert(self.diffs@.take(i + 1).drop_last() =~= self.diffs@.take(i as int));
            if self.diffs[i] < 0 {
                early = early + 1;
            }
            i = i + 1;
        }
        assert(self.diffs@.take(i as int) =~= self.diffs@);
        PlayResult {
            score: self.score(),
            accuracy: self.accuracy(),
            max_combo: self.max_combo,
            num_of_notes: self.num_of_notes,
            counts: self.counts,
            early,
            late: self.diffs.len() as u32 - early,
        }
    }
}

/// The time difference that is recorded with a judgement: none but for a good or
/// a bad one, for which it is the difference kept when a hold began or else the
/// distance of the frame from the time of the note.
pub open spec fn recorded_diff(r: Resolution, note_time: int, time: int) -> Option<i64> {
    if r.judgement is Good || r.judgement is Bad {
        Some(
            match r.diff {
                Some(d) => d,
                None => (time - note_time) as i64,
            },
        )
    } else {
        None
    }
}

/// The totals after the judgements from place `k` on were committed, in turn.
pub open spec fn committed_from(
    tally: Tally,
    pending: Seq<Resolution>,
    k: int,
    chart: Seq<Seq<Note>>,
    time: int,
) -> Tally
    decreases pending.len() - k,
{
    if k < 0 || k >= pending.len() {
        tally
    } else {
        let r = pending[k];
        committed_from(
            tally.commit(
                r.judgement,
                recorded_diff(r, chart[r.line as int][r.note as int].time as int, time),
            ),
            pending,
            k + 1,
            chart,
            time,
        )
    }
}

/// Whether every judgement is perfect.
pub open spec fn all_perfect(pending: Seq<Resolution>) -> bool {
    forall|k: int| 0 <= k < pending.len() ==> (#[trigger] pending[k]).judgement is Perfect
}

/// No hold began and nothing was decided.
pub open spec fn empty_log() -> Log {
    Log { taps: Seq::empty(), pending: Seq::empty() }
}

/// Whether a frame at `time` has left nothing owed to any note of the chart that
/// counts. After a frame of play from input, no note that is not judged is later
/// than the bad window, and no note that was caught is due. After a frame of
/// autoplay, no note that is not judged is due.
pub open spec fn caught_up(chart: Seq<Seq<Note>>, time: int, autoplay: bool) -> bool {
    forall|l: int, i: int|
        0 <= l < chart.len() && 0 <= i < chart[l].len() && !(#[trigger] chart[l][i]).fake ==> if autoplay {
            !overdue(Pass::Autoplay, chart[l][i], time)
        } else {
            !overdue(Pass::Sweep, chart[l][i], time) && !overdue(Pass::Finalize, chart[l][i], time)
        }
}

/// What a frame of play from input decides, before anything is committed: the
/// touches are judged, then the keys, then every line is swept, then what was
/// caught is finished.
pub open spec fn manual_play(
    chart: Seq<Seq<Note>>,
    cursors: Seq<(Vec<u32>, usize)>,
    trackers: Map<u64, TrackerView>,
    keys_held: bool,
    frame: Frame,
    touches: Seq<crate::frame::Touch>,
    keys_down: u32,
    local: Seq<Vec<Option<i32>>>,
) -> Stage {
    let struck = touches_from(
        Stage { chart, trackers, log: empty_log() },
        cursors,
        touches,
        0,
        local,
        frame.time as int,
        frame.note_width as int,
        frame.dpi,
    );
    let keyed = keys_from(struck.chart, cursors, keys_down as int, frame.time as int, struck.log);
    let swept = passes_from(
        Pass::Sweep,
        keyed.0,
        cursors,
        0,
        frame.time as int,
        frame.note_width as int,
        keys_held,
        local,
        keyed.1,
    );
    let finished = passes_from(
        Pass::Finalize,
        swept.0,
        cursors,
        0,
        frame.time as int,
        frame.note_width as int,
        keys_held,
        local,
        swept.1,
    );
    Stage { chart: finished.0, trackers: struck.trackers, log: finished.1 }
}

/// What a frame of autoplay decides, before anything is committed.
pub open spec fn autoplay_play(
    chart: Seq<Seq<Note>>,
    cursors: Seq<(Vec<u32>, usize)>,
    trackers: Map<u64, TrackerView>,
    time: int,
) -> Stage {
    let played = passes_from(
        Pass::Autoplay,
        chart,
        cursors,
        0,
        time,
        0,
        false,
        Seq::empty(),
        empty_log(),
    );
    Stage { chart: played.0, trackers, log: played.1 }
}

impl Judge {
    /// Whether `later` is this judge after a frame that decided `played`, at
    /// `time`, from the judge `self`: the judgements are committed in turn, and
    /// each watermark has moved past the judged notes at its front.
    pub open spec fn settled_as(&self, later: &Judge, played: Stage, time: int) -> bool {
        &&& later.tally() == committed_from(self.tally(), played.log.pending, 0, played.chart, time)
        &&& later.tracker_views() == played.trackers
        &&& later.num_of_notes == self.num_of_notes
        &&& later.key_down_count == self.key_down_count
        &&& later.notes@.len() == self.notes@.len()
        &&& forall|l: int|
            0 <= l < self.notes@.len() ==> {
                &&& (#[trigger] later.notes@[l]).0 == self.notes@[l].0
                &&& later.notes@[l].1 == advanced(
                    played.chart[l],
                    self.notes@[l].0@,
                    self.notes@[l].1 as int,
                )
                &&& self.notes@[l].1 <= later.notes@[l].1 <= self.notes@[l].0@.len()
            }
    }

    /// Commits the judgements of a frame in turn, and appends what each shows and
    /// plays to `effects` and the bad notes it leaves to `bad_notes`.
    pub fn commit_all(
        &mut self,
        chart: &Chart,
        time: i32,
        pending: &Vec<Resolution>,
        effects: &mut Vec<Effect>,
        bad_notes: &mut Vec<BadNote>,
    )
        requires
            old(self).wf(),
            old(self).tally().resolved() + pending@.len() <= old(self).num_of_notes,
            pending_in_chart(pending@, 0, chart@),
        ensures
            final(self).wf(),
            final(self).tally() == committed_from(
                old(self).tally(),
                pending@,
                0,
                chart@,
                time as int,
            ),
            final(self).tally().resolved() == old(self).tally().resolved() + pending@.len(),
            final(effects)@ == cues_from(pending@, 0, chart@, old(effects)@),
            final(bad_notes)@ == bad_notes_from(pending@, 0, chart@, time, old(bad_notes)@),
            all_perfect(pending@) ==> final(bad_notes)@ == old(bad_notes)@,
            all_perfect(pending@) && old(self).tally().flawless() ==> final(self).tally().flawless(),
            final(self).num_of_notes == old(self).num_of_notes,
            final(self).notes == old(self).notes,
            final(self).trackers == old(self).trackers,
            final(self).last_time == old(self).last_time,
            final(self).key_down_count == old(self).key_down_count,
    {
        let mut k: usize = 0;
        while k < pending.len()
            invariant
                k <= pending@.len(),
                self.wf(),
                self.tally().resolved() == old(self).tally().resolved() + k,
                old(self).tally().resolved() + pending@.len() <= old(self).num_of_notes,
                pending_in_chart(pending@, 0, chart@),
                self.num_of_notes == old(self).num_of_notes,
                self.notes == old(self).notes,
                self.trackers == old(self).trackers,
                self.last_time == old(self).last_time,
                self.key_down_count == old(self).key_down_count,
                committed_from(self.tally(), pending@, k as int, chart@, time as int)
                    == committed_from(old(self).tally(), pending@, 0, chart@, time as int),
                cues_from(pending@, k as int, chart@, effects@) == cues_from(
                    pending@,
                    0,
                    chart@,
                    old(effects)@,
                ),
                bad_notes_from(pending@, k as int, chart@, time, bad_notes@) == bad_notes_from(
                    pending@,
                    0,
                    chart@,
                    time,
                    old(bad_notes)@,
                ),
                all_perfect(pending@) ==> bad_notes@ == old(bad_notes)@,
                all_perfect(pending@) && old(self).tally().flawless() ==> self.tally().flawless(),
            decreases pending.len() - k,
        {
            let r = pending[k];
            assert(chart@[r.line as int] == chart.lines[r.line as int].notes@);
            let note = chart.lines[r.line].notes[r.note as usize];
            let late = match r.diff {
                Some(d) => d,
                None => time as i64 - note.time as i64,
            };
            let diff = match r.judgement {
                Judgement::Good => Some(late),
                Judgement::Bad => Some(late),
                _ => None,
            };
            let ghost before = self.tally();
            self.commit(r.judgement, diff);
            assert(self.tally().resolved() == before.resolved() + 1);
            push_cues(effects, &r, note.kind);
            let hold = match note.kind {
                crate::chart::NoteKind::Hold { .. } => true,
                _ => false,
            };
            let bad = match r.judgement {
                Judgement::Bad => true,
                _ => false,
            };
            if bad && !hold {
                bad_notes.push(BadNote { time, kind: note.kind, line: r.line, note: r.note });
            }
            k = k + 1;
        }
    }

    /// Ends a frame: sounds the taps of the holds that began, commits the
    /// judgements, and moves the watermarks.
    fn finish(
        &mut self,
        chart: &Chart,
        time: i32,
        taps: &Vec<(usize, u32)>,
        pending: &Vec<Resolution>,
        bad_notes: &mut Vec<BadNote>,
    ) -> (effects: Vec<Effect>)
        requires
            old(self).wf(),
            old(self).aligned(chart@),
            old(self).tally().resolved() + pending@.len() == total_resolved(chart@),
            pending_in_chart(pending@, 0, chart@),
        ensures
            final(self).wf(),
            final(self).tracks(chart@),
            old(self).settled_as(
                final(self),
                (Stage {
                    chart: chart@,
                    trackers: old(self).tracker_views(),
                    log: Log { taps: taps@, pending: pending@ },
                }),
                time as int,
            ),
            final(self).last_time == old(self).last_time,
            effects@ == cues_from(pending@, 0, chart@, tap_sounds(taps@)),
            final(bad_notes)@ == bad_notes_from(pending@, 0, chart@, time, old(bad_notes)@),
            all_perfect(pending@) ==> final(bad_notes)@ == old(bad_notes)@,
            all_perfect(pending@) && old(self).tally().flawless() ==> final(self).tally().flawless(),
    {
        proof {
            lemma_total_resolved_bound(chart@);
        }
        let mut effects: Vec<Effect> = Vec::new();
        push_tap_sounds(&mut effects, taps);
        assert(effects@ =~= tap_sounds(taps@));
        self.commit_all(chart, time, pending, &mut effects, bad_notes);
        let ghost cursors = self.notes@;
        advance(&mut self.notes, chart);
        proof {
            assert forall|l: int| 0 <= l < chart@.len() implies time_ordered(
                (#[trigger] self.notes@[l]).0@,
                chart@[l],
            ) by {
                assert(self.notes@[l].0 == cursors[l].0);
                assert(time_ordered(cursors[l].0@, chart@[l]));
            }
            assert forall|l: int, j: int| 0 <= l < chart@.len() && 0 <= j < self.notes@[l].1 implies chart@[l][(
            #[trigger] self.notes@[l].0@[j]) as int].judge is Judged by {
                assert(self.notes@[l].0 == cursors[l].0);
                assert(order_in_line(cursors[l].0@, chart@[l]));
                lemma_advanced(chart@[l], cursors[l].0@, cursors[l].1 as int);
                if j < cursors[l].1 {
                    assert(chart@[l][cursors[l].0@[j] as int].judge is Judged);
                }
            }
        }
        effects
    }

    /// Judges a frame of a chart that plays itself: every note that is due is
    /// hit perfectly, and every hold is kept to its end.
    pub fn auto_play_update(&mut self, time: i32, chart: &mut Chart) -> (effects: Vec<Effect>)
        requires
            old(self).wf(),
            old(self).tracks(old(chart)@),
        ensures
            final(self).wf(),
            final(self).tracks(final(chart)@),
            chart_succeeds(final(chart)@, old(chart)@),
            ({
                let played = autoplay_play(
                    old(chart)@,
                    old(self).notes@,
                    old(self).tracker_views(),
                    time as int,
                );
                &&& final(chart)@ == played.chart
                &&& old(self).settled_as(final(self), played, time as int)
                &&& effects@ == cues_from(
                    played.log.pending,
                    0,
                    played.chart,
                    tap_sounds(played.log.taps),
                )
                &&& all_perfect(played.log.pending)
            }),
            final(self).last_time == old(self).last_time,
            old(self).tally().flawless() ==> final(self).tally().flawless(),
            caught_up(final(chart)@, time as int, true),
    {
        let mut taps: Vec<(usize, u32)> = Vec::new();
        let mut pending: Vec<Resolution> = Vec::new();
        let local: Vec<Vec<Option<i32>>> = Vec::new();
        proof {
            self.lemma_aligned_sorted(chart@);
        }
        run_passes(Pass::Autoplay, chart, &self.notes, time, 0, false, &local, &mut taps, &mut pending);
        proof {
            assert(local@ =~= Seq::<Vec<Option<i32>>>::empty());
            self.lemma_aligned_later(old(chart)@, chart@);
            self.lemma_cleared_everywhere(old(chart)@, chart@, Pass::Autoplay, time as int);
        }
        let mut bad_notes: Vec<BadNote> = Vec::new();
        self.finish(chart, time, &taps, &pending, &mut bad_notes)
    }

    /// Judges a frame of a chart.
    ///
    /// A chart that plays itself is judged by `auto_play_update`. Otherwise the
    /// touches are judged, then the keys, then every line is swept for misses,
    /// holds let go and notes caught by a resting touch, then what was caught is
    /// finished. The judgements are then committed, in the order in which they
    /// were decided, and the watermarks move on.
    ///
    /// `local` tells where each touch stands along each line, and `bad_notes`
    /// receives the notes that were hit badly. The result lists what to show and
    /// to play: first a tap for each hold that began, then the particles and the
    /// sound of each judgement.
    pub fn update(
        &mut self,
        frame: &Frame,
        chart: &mut Chart,
        intake: &Intake,
        local: &Vec<Vec<Option<i32>>>,
        bad_notes: &mut Vec<BadNote>,
    ) -> (effects: Vec<Effect>)
        requires
            old(self).wf(),
            old(self).tracks(old(chart)@),
        ensures
            final(self).wf(),
            final(self).tracks(final(chart)@),
            chart_succeeds(final(chart)@, old(chart)@),
            ({
                let played = if frame.autoplay {
                    autoplay_play(
                        old(chart)@,
                        old(self).notes@,
                        old(self).tracker_views(),
                        frame.time as int,
                    )
                } else {
                    manual_play(
                        old(chart)@,
                        old(self).notes@,
                        old(self).tracker_views(),
                        old(self).key_down_count != 0,
                        *frame,
                        intake.touches@,
                        intake.keys_down,
                        local@,
                    )
                };
                &&& final(chart)@ == played.chart
                &&& old(self).settled_as(final(self), played, frame.time as int)
                &&& effects@ == cues_from(
                    played.log.pending,
                    0,
                    played.chart,
                    tap_sounds(played.log.taps),
                )
                &&& final(bad_notes)@ == bad_notes_from(
                    played.log.pending,
                    0,
                    played.chart,
                    frame.time,
                    old(bad_notes)@,
                )
            }),
            final(self).last_time == if frame.autoplay { old(self).last_time } else { frame.time },
            frame.autoplay ==> final(bad_notes)@ == old(bad_notes)@ && all_perfect(
                autoplay_play(
                    old(chart)@,
                    old(self).notes@,
                    old(self).tracker_views(),
                    frame.time as int,
                ).log.pending,
            ),
            frame.autoplay && old(self).tally().flawless() ==> final(self).tally().flawless(),
            caught_up(final(chart)@, frame.time as int, frame.autoplay),
    {
        if frame.autoplay {
            let effects = self.auto_play_update(frame.time, chart);
            proof {
                let played = autoplay_play(
                    old(chart)@,
                    old(self).notes@,
                    old(self).tracker_views(),
                    frame.time as int,
                );
                lemma_perfect_leaves_no_bad_notes(
                    played.log.pending,
                    0,
                    played.chart,
                    frame.time,
                    bad_notes@,
                );
            }
            return effects;
        }
        let mut taps: Vec<(usize, u32)> = Vec::new();
        let mut pending: Vec<Resolution> = Vec::new();
        let keys_held = self.key_down_count != 0;
        strike_touches(
            chart,
            &self.notes,
            &mut self.trackers,
            &intake.touches,
            local,
            frame.time,
            frame.note_width,
            frame.dpi,
            &mut taps,
            &mut pending,
        );
        let ghost struck = chart@;
        let ghost struck_pending = pending@;
        press_keys(chart, &self.notes, intake.keys_down, frame.time, &mut taps, &mut pending);
        let ghost keyed = chart@;
        let ghost keyed_pending = pending@;
        proof {
            lemma_pending_extend(struck_pending, keyed_pending, struck, keyed);
            lemma_chart_succeeds_transitive(old(chart)@, struck, keyed);
            self.lemma_aligned_later(old(chart)@, keyed);
            self.lemma_aligned_sorted(keyed);
        }
        run_passes(
            Pass::Sweep,
            chart,
            &self.notes,
            frame.time,
            frame.note_width,
            keys_held,
            local,
            &mut taps,
            &mut pending,
        );
        let ghost swept = chart@;
        let ghost swept_pending = pending@;
        proof {
            lemma_pending_extend(keyed_pending, swept_pending, keyed, swept);
            lemma_chart_succeeds_transitive(old(chart)@, keyed, swept);
            self.lemma_aligned_later(old(chart)@, swept);
            self.lemma_aligned_sorted(swept);
            self.lemma_cleared_everywhere(old(chart)@, swept, Pass::Sweep, frame.time as int);
        }
        run_passes(
            Pass::Finalize,
            chart,
            &self.notes,
            frame.time,
            frame.note_width,
            keys_held,
            local,
            &mut taps,
            &mut pending,
        );
        proof {
            lemma_chart_succeeds_transitive(old(chart)@, swept, chart@);
            self.lemma_aligned_later(old(chart)@, chart@);
            lemma_pending_extend(swept_pending, pending@, swept, chart@);
            self.lemma_cleared_everywhere(old(chart)@, chart@, Pass::Finalize, frame.time as int);
            assert forall|l: int, i: int|
                0 <= l < chart@.len() && 0 <= i < chart@[l].len() && !(#[trigger] chart@[l][i]).fake implies !overdue(
                Pass::Sweep,
                chart@[l][i],
                frame.time as int,
            ) by {
                assert(line_succeeds(chart@[l], swept[l]));
                assert(chart@[l][i].succeeds(swept[l][i]));
            }
        }
        let effects = self.finish(chart, frame.time, &taps, &pending, bad_notes);
        self.last_time = frame.time;
        effects
    }
}

/// Judgements that name notes of a chart, followed by judgements that name
/// notes of the chart at a later moment, all name notes of the later chart.
proof fn lemma_pending_extend(
    before: Seq<Resolution>,
    after: Seq<Resolution>,
    earlier: Seq<Seq<Note>>,
    later: Seq<Seq<Note>>,
)
    requires
        before.is_prefix_of(after),
        pending_in_chart(before, 0, earlier),
        chart_succeeds(later, earlier),
        pending_in_chart(after, before.len() as int, later),
    ensures
        pending_in_chart(after, 0, later),
{
    assert forall|k: int| 0 <= k < after.len() implies (#[trigger] after[k]).line < later.len()
        && after[k].note < later[after[k].line as int].len() by {
        if k < before.len() {
            assert(after[k] == before[k]);
            assert(line_succeeds(later[after[k].line as int], earlier[after[k].line as int]));
        }
    }
}

/// Perfect judgements leave no bad notes.
proof fn lemma_perfect_leaves_no_bad_notes(
    pending: Seq<Resolution>,
    k: int,
    chart: Seq<Seq<Note>>,
    time: i32,
    acc: Seq<BadNote>,
)
    requires
        all_perfect(pending),
        0 <= k,
    ensures
        bad_notes_from(pending, k, chart, time, acc) == acc,
    decreases pending.len() - k,
{
    if k < pending.len() {
        assert(pending[k].judgement is Perfect);
        lemma_perfect_leaves_no_bad_notes(pending, k + 1, chart, time, acc);
    }
}

} // verus!
