//! The part of a chart that judgement reads and writes: the notes of each line,
//! with their times, kinds and judgement status.

use vstd::prelude::*;
use crate::judge::JudgeStatus;

verus! {

/// What a note asks of the player.
#[derive(Clone, Copy, Debug, PartialEq, Eq, Structural)]
pub enum NoteKind {
    /// A tap.
    Click,
    /// A touch kept down until `end_time`, in milliseconds.
    Hold { end_time: i32 },
    /// A fast move.
    Flick,
    /// A touch resting on the note; it need not start there.
    Drag,
}

/// One note of a line.
#[derive(Clone, Copy, Debug)]
pub struct Note {
    /// When the note is due, in milliseconds.
    pub time: i32,
    pub kind: NoteKind,
    /// A decoration: never judged and never counted.
    pub fake: bool,
    pub judge: JudgeStatus,
    /// Where the note stands along its line at the current frame, in position
    /// units. The owner of the chart refreshes it before each frame is judged.
    pub lateral: i32,
}

impl Note {
    /// Whether the note counts and has its final judgement.
    pub open spec fn resolved(self) -> bool {
        !self.fake && self.judge is Judged
    }

    /// Whether `self` is the note `earlier` at a later moment: the same note, with
    /// a status that `earlier`'s status can lead to.
    pub open spec fn succeeds(self, earlier: Note) -> bool {
        &&& self.time == earlier.time
        &&& self.kind == earlier.kind
        &&& self.fake == earlier.fake
        &&& self.lateral == earlier.lateral
        &&& self.judge.follows(earlier.judge)
    }
}

/// One line of a chart.
pub struct Line {
    pub notes: Vec<Note>,
}

impl View for Line {
    type V = Seq<Note>;

    /// The notes of the line, in the order of the chart.
    open spec fn view(&self) -> Seq<Note> {
        self.notes@
    }
}

/// The lines of a chart.
pub struct Chart {
    pub lines: Vec<Line>,
}

impl View for Chart {
    type V = Seq<Seq<Note>>;

    /// The notes of each line.
    open spec fn view(&self) -> Seq<Seq<Note>> {
        self.lines@.map_values(|line: Line| line@)
    }
}

/// Number of notes of a line that count.
pub open spec fn count_playable(notes: Seq<Note>) -> nat
    decreases notes.len(),
{
    if notes.len() == 0 {
        0
    } else {
        count_playable(notes.drop_last()) + if notes.last().fake { 0nat } else { 1nat }
    }
}

/// Number of notes of a line that count and have their final judgement.
pub open spec fn count_resolved(notes: Seq<Note>) -> nat
    decreases notes.len(),
{
    if notes.len() == 0 {
        0
    } else {
        count_resolved(notes.drop_last()) + if notes.last().resolved() { 1nat } else { 0nat }
    }
}

/// Number of notes of a chart that count.
pub open spec fn total_playable(lines: Seq<Seq<Note>>) -> nat
    decreases lines.len(),
{
    if lines.len() == 0 {
        0
    } else {
        total_playable(lines.drop_last()) + count_playable(lines.last())
    }
}

/// Number of notes of a chart that count and have their final judgement.
pub open spec fn total_resolved(lines: Seq<Seq<Note>>) -> nat
    decreases lines.len(),
{
    if lines.len() == 0 {
        0
    } else {
        total_resolved(lines.drop_last()) + count_resolved(lines.last())
    }
}

/// Whether each note of `later` is the note of `earlier` at the same place, at a
/// later moment.
pub open spec fn line_succeeds(later: Seq<Note>, earlier: Seq<Note>) -> bool {
    &&& later.len() == earlier.len()
    &&& forall|i: int| 0 <= i < later.len() ==> (#[trigger] later[i]).succeeds(earlier[i])
}

/// Whether each line of `later` is the line of `earlier` at a later moment.
pub open spec fn chart_succeeds(later: Seq<Seq<Note>>, earlier: Seq<Seq<Note>>) -> bool {
    &&& later.len() == earlier.len()
    &&& forall|l: int| 0 <= l < later.len() ==> line_succeeds(#[trigger] later[l], earlier[l])
}

/// Whether every note of a chart that counts has its final judgement.
pub open spec fn fully_resolved(lines: Seq<Seq<Note>>) -> bool {
    forall|l: int, i: int|
        0 <= l < lines.len() && 0 <= i < lines[l].len() && !(#[trigger] lines[l][i]).fake
            ==> lines[l][i].judge is Judged
}

/// Replacing one note changes the resolved count by what the two notes differ in.
pub proof fn lemma_count_resolved_update(notes: Seq<Note>, i: int, note: Note)
    requires
        0 <= i < notes.len(),
    ensures
        count_resolved(notes.update(i, note)) + (if notes[i].resolved() { 1nat } else { 0nat })
            == count_resolved(notes) + (if note.resolved() { 1nat } else { 0nat }),
    decreases notes.len(),
{
    let updated = notes.update(i, note);
    if i == notes.len() - 1 {
        assert(updated.drop_last() =~= notes.drop_last());
    } else {
        assert(updated.drop_last() =~= notes.drop_last().update(i, note));
        lemma_count_resolved_update(notes.drop_last(), i, note);
    }
}

/// Replacing one line changes the totals by what the two lines differ in.
pub proof fn lemma_total_update(lines: Seq<Seq<Note>>, l: int, notes: Seq<Note>)
    requires
        0 <= l < lines.len(),
    ensures
        total_resolved(lines.update(l, notes)) + count_resolved(lines[l]) == total_resolved(lines)
            + count_resolved(notes),
        total_playable(lines.update(l, notes)) + count_playable(lines[l]) == total_playable(lines)
            + count_playable(notes),
    decreases lines.len(),
{
    let updated = lines.update(l, notes);
    if l == lines.len() - 1 {
        assert(updated.drop_last() =~= lines.drop_last());
    } else {
        assert(updated.drop_last() =~= lines.drop_last().update(l, notes));
        lemma_total_update(lines.drop_last(), l, notes);
    }
}

/// A line never has more resolved notes than notes that count, and has as many
/// exactly when each note that counts is judged.
pub proof fn lemma_count_resolved_bound(notes: Seq<Note>)
    ensures
        count_resolved(notes) <= count_playable(notes),
        count_resolved(notes) == count_playable(notes) <==> (forall|i: int|
            0 <= i < notes.len() && !(#[trigger] notes[i]).fake ==> notes[i].judge is Judged),
    decreases notes.len(),
{
    if notes.len() > 0 {
        let front = notes.drop_last();
        lemma_count_resolved_bound(front);
        assert forall|i: int| 0 <= i < front.len() implies front[i] == notes[i] by {}
        if count_resolved(notes) == count_playable(notes) {
            assert forall|i: int| 0 <= i < notes.len() && !(#[trigger] notes[i]).fake implies notes[i].judge is Judged by {
                if i < front.len() {
                    assert(front[i] == notes[i]);
                }
            }
        }
        if forall|i: int| 0 <= i < notes.len() && !(#[trigger] notes[i]).fake ==> notes[i].judge is Judged {
            assert forall|i: int| 0 <= i < front.len() && !(#[trigger] front[i]).fake implies front[i].judge is Judged by {
                assert(front[i] == notes[i]);
            }
        }
    }
}

/// A chart never has more resolved notes than notes that count, and has as many
/// exactly when it is fully resolved.
pub proof fn lemma_total_resolved_bound(lines: Seq<Seq<Note>>)
    ensures
        total_resolved(lines) <= total_playable(lines),
        total_resolved(lines) == total_playable(lines) <==> fully_resolved(lines),
    decreases lines.len(),
{
    if lines.len() > 0 {
        let front = lines.drop_last();
        lemma_total_resolved_bound(front);
        lemma_count_resolved_bound(lines.last());
        assert forall|l: int| 0 <= l < front.len() implies front[l] == lines[l] by {}
        if total_resolved(lines) == total_playable(lines) {
            assert forall|l: int, i: int|
                0 <= l < lines.len() && 0 <= i < lines[l].len() && !(#[trigger] lines[l][i]).fake implies lines[l][i].judge is Judged by {
                if l < front.len() {
                    assert(front[l] == lines[l]);
                }
            }
        }
        if fully_resolved(lines) {
            assert forall|l: int, i: int|
                0 <= l < front.len() && 0 <= i < front[l].len() && !(#[trigger] front[l][i]).fake implies front[l][i].judge is Judged by {
                assert(front[l] == lines[l]);
            }
            assert forall|i: int| 0 <= i < lines.last().len() && !(#[trigger] lines.last()[i]).fake implies lines.last()[i].judge is Judged by {
                assert(lines[lines.len() - 1][i] == lines.last()[i]);
            }
        }
    }
}

/// A line at a later moment has as many notes that count.
pub proof fn lemma_count_playable_later(later: Seq<Note>, earlier: Seq<Note>)
    requires
        line_succeeds(later, earlier),
    ensures
        count_playable(later) == count_playable(earlier),
    decreases later.len(),
{
    if later.len() > 0 {
        assert(later.last().succeeds(earlier.last()));
        assert(line_succeeds(later.drop_last(), earlier.drop_last())) by {
            assert forall|i: int| 0 <= i < later.drop_last().len() implies (
            #[trigger] later.drop_last()[i]).succeeds(earlier.drop_last()[i]) by {
                assert(later[i].succeeds(earlier[i]));
            }
        }
        lemma_count_playable_later(later.drop_last(), earlier.drop_last());
    }
}

/// A chart at a later moment has as many notes that count.
pub proof fn lemma_total_playable_later(later: Seq<Seq<Note>>, earlier: Seq<Seq<Note>>)
    requires
        chart_succeeds(later, earlier),
    ensures
        total_playable(later) == total_playable(earlier),
    decreases later.len(),
{
    if later.len() > 0 {
        assert(line_succeeds(later.last(), earlier.last())) by {
            assert(line_succeeds(later[later.len() - 1], earlier[later.len() - 1]));
        }
        lemma_count_playable_later(later.last(), earlier.last());
        assert(chart_succeeds(later.drop_last(), earlier.drop_last())) by {
            assert forall|l: int| 0 <= l < later.drop_last().len() implies line_succeeds(
                #[trigger] later.drop_last()[l],
                earlier.drop_last()[l],
            ) by {
                assert(line_succeeds(later[l], earlier[l]));
            }
        }
        lemma_total_playable_later(later.drop_last(), earlier.drop_last());
    }
}

} // verus!
