use prpr::chart::{Chart, Line, Note, NoteKind};
use prpr::effects::{BadNote, Effect, Sound};
use prpr::frame::{Frame, Intake};
use prpr::judge::{Judge, JudgeStatus};

fn note(time: i32, kind: NoteKind) -> Note {
    Note { time, kind, fake: false, judge: JudgeStatus::NotJudged, lateral: 0 }
}

fn chart() -> Chart {
    Chart {
        lines: vec![
            Line {
                notes: vec![
                    note(1_000, NoteKind::Click),
                    note(1_500, NoteKind::Hold { end_time: 2_500 }),
                    Note {
                        time: 1_200,
                        kind: NoteKind::Click,
                        fake: true,
                        judge: JudgeStatus::NotJudged,
                        lateral: 0,
                    },
                    note(3_000, NoteKind::Drag),
                ],
            },
            Line { notes: vec![note(1_000, NoteKind::Flick), note(2_000, NoteKind::Click)] },
        ],
    }
}

#[test]
fn autoplay_hits_each_note_at_its_time() {
    let mut chart = chart();
    let mut judge = Judge::new(&chart);
    assert!(judge.auto_play_update(999, &mut chart).is_empty());
    assert_eq!(judge.counts, [0, 0, 0, 0]);
    let effects = judge.auto_play_update(1_000, &mut chart);
    assert_eq!(
        effects,
        vec![
            Effect::Emit { line: 0, note: 0, perfect: true },
            Effect::Play(Sound::Click),
            Effect::Emit { line: 1, note: 0, perfect: true },
            Effect::Play(Sound::Flick),
        ]
    );
    assert_eq!(judge.counts, [2, 0, 0, 0]);
    assert_eq!(judge.notes[0].1, 1);
    assert_eq!(judge.notes[1].1, 1);
    assert_eq!(judge.last_time, 0);
}

#[test]
fn autoplay_keeps_a_hold_to_its_end() {
    let mut chart = chart();
    let mut judge = Judge::new(&chart);
    judge.auto_play_update(1_400, &mut chart);
    let effects = judge.auto_play_update(1_510, &mut chart);
    // The hold begins with a tap.
    assert_eq!(effects, vec![Effect::Play(Sound::Click)]);
    assert_eq!(chart.lines[0].notes[1].judge, JudgeStatus::Hold(true, 1_510, 10, false));
    assert_eq!(judge.counts, [2, 0, 0, 0]);
    assert_eq!(judge.notes[0].1, 1);
    assert!(judge.auto_play_update(2_499, &mut chart).len() == 2);
    assert_eq!(judge.counts, [3, 0, 0, 0]);
    assert_eq!(chart.lines[0].notes[1].judge, JudgeStatus::Hold(true, 1_510, 10, false));
    // Its end is counted without a sound of its own.
    let effects = judge.auto_play_update(2_500, &mut chart);
    assert!(effects.is_empty());
    assert_eq!(chart.lines[0].notes[1].judge, JudgeStatus::Judged);
    assert_eq!(judge.counts, [4, 0, 0, 0]);
    assert_eq!(judge.notes[0].1, 2);
}

#[test]
fn autoplay_is_perfect_throughout() {
    let mut chart = chart();
    let mut judge = Judge::new(&chart);
    assert_eq!(judge.num_of_notes, 5);
    let mut time = 0;
    let mut marks = vec![0usize, 0usize];
    while time <= 3_100 {
        let frame = Frame { time, dpi: 275, autoplay: true, note_width: 1_000 };
        let intake = Intake { touches: Vec::new(), keys_down: 0 };
        let mut bad_notes: Vec<BadNote> = Vec::new();
        judge.update(&frame, &mut chart, &intake, &Vec::new(), &mut bad_notes);
        assert!(bad_notes.is_empty());
        assert_eq!(judge.counts[1], 0);
        assert_eq!(judge.counts[2], 0);
        assert_eq!(judge.counts[3], 0);
        assert_eq!(judge.combo, judge.counts[0]);
        assert_eq!(judge.max_combo, judge.counts[0]);
        for l in 0..2 {
            assert!(marks[l] <= judge.notes[l].1);
            assert!(judge.notes[l].1 <= judge.notes[l].0.len());
            marks[l] = judge.notes[l].1;
        }
        time += 7;
    }
    assert_eq!(judge.counts, [5, 0, 0, 0]);
    assert_eq!(judge.max_combo, 5);
    assert_eq!(judge.score(), 1_000_000);
    assert_eq!(judge.notes[0].1, 3);
    assert_eq!(judge.notes[1].1, 2);
    assert_eq!(chart.lines[0].notes[2].judge, JudgeStatus::NotJudged);
    assert!(judge.diffs.is_empty());
    assert_eq!(judge.last_time, 0);
}

#[test]
fn autoplay_catches_up_with_notes_that_are_past() {
    let mut chart = chart();
    let mut judge = Judge::new(&chart);
    let effects = judge.auto_play_update(5_000, &mut chart);
    // Everything but the hold is judged at once; the hold begins.
    assert_eq!(judge.counts, [4, 0, 0, 0]);
    assert_eq!(chart.lines[0].notes[1].judge, JudgeStatus::Hold(true, 5_000, 3_500, false));
    assert_eq!(effects[0], Effect::Play(Sound::Click));
    assert_eq!(effects.len(), 9);
    judge.auto_play_update(5_001, &mut chart);
    assert_eq!(judge.counts, [5, 0, 0, 0]);
    assert_eq!(judge.max_combo, 5);
}
