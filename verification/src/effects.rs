//! What the judge asks of the screen and the speakers.

use vstd::prelude::*;
use crate::chart::{Note, NoteKind};
use crate::judge::Judgement;
use crate::sweep::Resolution;

verus! {

/// The hit sounds.
#[derive(Clone, Copy, Debug, PartialEq, Eq, Structural)]
pub enum Sound {
    Click,
    Drag,
    Flick,
}

/// Something to show or to play.
#[derive(Clone, Copy, Debug, PartialEq, Eq, Structural)]
pub enum Effect {
    /// Play a hit sound.
    Play(Sound),
    /// Emit particles at a note, in the colour of a perfect or of a good hit.
    Emit { line: usize, note: u32, perfect: bool },
}

/// A note that was hit badly, to be shown for a moment where it was hit.
#[derive(Clone, Copy, Debug)]
pub struct BadNote {
    /// When the note was hit, in milliseconds.
    pub time: i32,
    pub kind: NoteKind,
    /// The line of the note.
    pub line: usize,
    /// The place of the note in its line.
    pub note: u32,
}

/// The sound of a hit on a note of a kind; a hold has none.
pub open spec fn sound_of(kind: NoteKind) -> Option<Sound> {
    match kind {
        NoteKind::Click => Some(Sound::Click),
        NoteKind::Drag => Some(Sound::Drag),
        NoteKind::Flick => Some(Sound::Flick),
        NoteKind::Hold { .. } => None,
    }
}

/// What the judgement of a note shows and plays: particles and the sound of the
/// note for a perfect or a good hit, nothing else, and nothing at all for a hold.
pub open spec fn cues(r: Resolution, kind: NoteKind) -> Seq<Effect> {
    if kind is Hold || !r.judgement.keeps_combo() {
        Seq::empty()
    } else {
        let emit = Effect::Emit { line: r.line, note: r.note, perfect: r.judgement is Perfect };
        match sound_of(kind) {
            Some(sound) => seq![emit, Effect::Play(sound)],
            None => seq![emit],
        }
    }
}

/// Whether a judgement leaves a bad note to show: a bad hit on a note that is no hold.
pub open spec fn leaves_bad_note(r: Resolution, kind: NoteKind) -> bool {
    r.judgement is Bad && !(kind is Hold)
}

/// The kind of the note that a judgement names.
pub open spec fn kind_at(chart: Seq<Seq<Note>>, r: Resolution) -> NoteKind {
    chart[r.line as int][r.note as int].kind
}

/// The effects `acc` followed by the cues of the judgements from place `k` on.
pub open spec fn cues_from(pending: Seq<Resolution>, k: int, chart: Seq<Seq<Note>>, acc: Seq<Effect>) -> Seq<Effect>
    decreases pending.len() - k,
{
    if k < 0 || k >= pending.len() {
        acc
    } else {
        cues_from(pending, k + 1, chart, acc + cues(pending[k], kind_at(chart, pending[k])))
    }
}

/// The bad notes `acc` followed by those that the judgements from place `k` on leave.
pub open spec fn bad_notes_from(
    pending: Seq<Resolution>,
    k: int,
    chart: Seq<Seq<Note>>,
    time: i32,
    acc: Seq<BadNote>,
) -> Seq<BadNote>
    decreases pending.len() - k,
{
    if k < 0 || k >= pending.len() {
        acc
    } else {
        let r = pending[k];
        bad_notes_from(
            pending,
            k + 1,
            chart,
            time,
            if leaves_bad_note(r, kind_at(chart, r)) {
                acc.push(BadNote { time, kind: kind_at(chart, r), line: r.line, note: r.note })
            } else {
                acc
            },
        )
    }
}

/// A tap sound for each hold that began.
pub open spec fn tap_sounds(taps: Seq<(usize, u32)>) -> Seq<Effect> {
    Seq::new(taps.len(), |i: int| Effect::Play(Sound::Click))
}

/// Appends the cues of one judgement.
pub fn push_cues(effects: &mut Vec<Effect>, r: &Resolution, kind: NoteKind)
    ensures
        final(effects)@ == old(effects)@ + cues(*r, kind),
{
    let perfect = match r.judgement {
        Judgement::Perfect => true,
        Judgement::Good => false,
        _ => {
            assert(effects@ =~= old(effects)@ + cues(*r, kind));
            return ;
        },
    };
    let sound = match kind {
        NoteKind::Click => Sound::Click,
        NoteKind::Drag => Sound::Drag,
        NoteKind::Flick => Sound::Flick,
        NoteKind::Hold { .. } => {
            assert(effects@ =~= old(effects)@ + cues(*r, kind));
            return ;
        },
    };
    effects.push(Effect::Emit { line: r.line, note: r.note, perfect });
    effects.push(Effect::Play(sound));
    assert(effects@ =~= old(effects)@ + cues(*r, kind));
}

/// Appends a tap sound for each hold that began.
pub fn push_tap_sounds(effects: &mut Vec<Effect>, taps: &Vec<(usize, u32)>)
    ensures
        final(effects)@ == old(effects)@ + tap_sounds(taps@),
{
    let mut i: usize = 0;
    while i < taps.len()
        invariant
            i <= taps.len(),
            effects@ == old(effects)@ + tap_sounds(taps@.take(i as int)),
        decreases taps.len() - i,
    {
        effects.push(Effect::Play(Sound::Click));
        i = i + 1;
        assert(effects@ =~= old(effects)@ + tap_sounds(taps@.take(i as int)));
    }
    assert(taps@.take(taps.len() as int) =~= taps@);
}

} // verus!
