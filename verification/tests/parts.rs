use prpr::chart::{Chart, Line, Note, NoteKind};
use prpr::effects::{push_cues, push_tap_sounds, BadNote, Effect, Sound};
use prpr::frame::place_of;
use prpr::judge::{Judge, JudgeStatus, Judgement};
use prpr::matching::find_target;
use prpr::strike::{find_key_target, press_keys};
use prpr::sweep::{advance, run_pass, run_passes, within_tolerance, Pass, Resolution, Scan};
use prpr::units::span;

fn note(time: i32, kind: NoteKind, lateral: i32) -> Note {
    Note { time, kind, fake: false, judge: JudgeStatus::NotJudged, lateral }
}

fn judged(time: i32) -> Note {
    Note { time, kind: NoteKind::Click, fake: false, judge: JudgeStatus::Judged, lateral: 0 }
}

#[test]
fn span_is_the_distance() {
    assert_eq!(span(3, -4), 7);
    assert_eq!(span(-4, 3), 7);
    assert_eq!(span(i32::MIN, i32::MAX), 4_294_967_295);
    assert_eq!(span(5, 5), 0);
}

#[test]
fn tolerance_is_the_bad_window_up_to_nine_tenths() {
    assert!(within_tolerance(220, 0));
    assert!(within_tolerance(220, 9_000));
    assert!(!within_tolerance(221, 9_000));
    assert!(!within_tolerance(221, 0));
}

#[test]
fn tolerance_narrows_beyond_nine_tenths() {
    // One unit further away takes eighty milliseconds off.
    assert!(within_tolerance(140, 19_000));
    assert!(!within_tolerance(141, 19_000));
    assert!(within_tolerance(219, 9_125));
    assert!(!within_tolerance(219, 9_126));
    // From 3.65 units on nothing is near enough.
    assert!(within_tolerance(0, 36_500));
    assert!(!within_tolerance(0, 36_501));
}

#[test]
fn place_outside_the_table_is_none() {
    let local = vec![vec![Some(1), None], vec![Some(2)]];
    assert_eq!(place_of(&local, 0, 0), Some(1));
    assert_eq!(place_of(&local, 0, 1), None);
    assert_eq!(place_of(&local, 1, 0), Some(2));
    assert_eq!(place_of(&local, 1, 1), None);
    assert_eq!(place_of(&local, 2, 0), None);
}

#[test]
fn target_is_searched_from_the_watermark() {
    let chart = Chart {
        lines: vec![Line {
            notes: vec![note(1_000, NoteKind::Click, 0), note(1_001, NoteKind::Click, 0)],
        }],
    };
    let local = vec![vec![Some(0)]];
    let cursors = vec![(vec![0, 1], 0)];
    assert_eq!(find_target(&chart, &cursors, &local, 0, 1_000, 1_000, true), Some((0, 0)));
    let cursors = vec![(vec![0, 1], 1)];
    assert_eq!(find_target(&chart, &cursors, &local, 0, 1_000, 1_000, true), Some((0, 1)));
    let cursors = vec![(vec![0, 1], 2)];
    assert_eq!(find_target(&chart, &cursors, &local, 0, 1_000, 1_000, true), None);
    // A flick finds no click.
    let cursors = vec![(vec![0, 1], 0)];
    assert_eq!(find_target(&chart, &cursors, &local, 0, 1_000, 1_000, false), None);
    // Another touch has no place on the line.
    assert_eq!(find_target(&chart, &cursors, &local, 1, 1_000, 1_000, true), None);
}

#[test]
fn flick_finds_flick_notes_only() {
    let chart = Chart {
        lines: vec![Line {
            notes: vec![
                note(1_000, NoteKind::Click, 0),
                note(1_000, NoteKind::Hold { end_time: 2_000 }, 0),
                note(1_000, NoteKind::Drag, 0),
                note(1_050, NoteKind::Flick, 0),
            ],
        }],
    };
    let local = vec![vec![Some(0)]];
    let cursors = vec![(vec![0, 1, 2, 3], 0)];
    assert_eq!(find_target(&chart, &cursors, &local, 0, 1_000, 1_000, false), Some((0, 3)));
}

#[test]
fn key_target_is_the_earliest_click_or_hold() {
    let chart = Chart {
        lines: vec![
            Line { notes: vec![note(900, NoteKind::Drag, 0), note(1_100, NoteKind::Click, 0)] },
            Line { notes: vec![judged(500), note(1_050, NoteKind::Hold { end_time: 2_000 }, 0)] },
            Line { notes: vec![note(950, NoteKind::Flick, 0)] },
        ],
    };
    let cursors = vec![(vec![0, 1], 0), (vec![0, 1], 0), (vec![0], 0)];
    assert_eq!(find_key_target(&chart, &cursors), Some((1, 1)));
    let none = Chart { lines: vec![Line { notes: vec![note(900, NoteKind::Drag, 0)] }] };
    assert_eq!(find_key_target(&none, &vec![(vec![0], 0)]), None);
}

#[test]
fn keys_are_judged_without_a_judge() {
    let mut chart = Chart { lines: vec![Line { notes: vec![note(1_000, NoteKind::Click, 0)] }] };
    let cursors = vec![(vec![0], 0)];
    let mut taps = Vec::new();
    let mut pending: Vec<Resolution> = Vec::new();
    press_keys(&mut chart, &cursors, 3, 1_181, &mut taps, &mut pending);
    assert!(taps.is_empty());
    assert_eq!(pending.len(), 1);
    assert_eq!(pending[0].judgement, Judgement::Bad);
    assert_eq!(pending[0].line, 0);
    assert_eq!(pending[0].note, 0);
    assert_eq!(pending[0].diff, None);
    assert_eq!(chart.lines[0].notes[0].judge, JudgeStatus::Judged);
}

#[test]
fn pass_walks_one_line_from_a_place() {
    let mut notes = vec![
        note(100, NoteKind::Click, 0),
        note(200, NoteKind::Click, 0),
        note(5_000, NoteKind::Click, 0),
        note(300, NoteKind::Click, 0),
    ];
    let order = vec![0, 1, 3, 2];
    let row = Vec::new();
    let scan = Scan { time: 1_000, note_width: 1_000, keys_held: false, row: &row };
    let mut taps = Vec::new();
    let mut pending = Vec::new();
    run_pass(Pass::Sweep, &mut notes, &order, 1, 7, &scan, &mut taps, &mut pending);
    // The walk begins at the second note and ends at the note that is far ahead.
    assert_eq!(notes[0].judge, JudgeStatus::NotJudged);
    assert_eq!(notes[1].judge, JudgeStatus::Judged);
    assert_eq!(notes[3].judge, JudgeStatus::Judged);
    assert_eq!(notes[2].judge, JudgeStatus::NotJudged);
    assert_eq!(pending.len(), 2);
    assert_eq!(pending[0].note, 1);
    assert_eq!(pending[1].note, 3);
    assert_eq!(pending[0].line, 7);
    assert_eq!(pending[0].judgement, Judgement::Miss);
}

#[test]
fn passes_walk_every_line() {
    let mut chart = Chart {
        lines: vec![
            Line { notes: vec![note(100, NoteKind::Click, 0)] },
            Line { notes: vec![note(200, NoteKind::Drag, 0), note(300, NoteKind::Flick, 0)] },
        ],
    };
    let cursors = vec![(vec![0], 0), (vec![0, 1], 1)];
    let mut taps = Vec::new();
    let mut pending = Vec::new();
    run_passes(Pass::Autoplay, &mut chart, &cursors, 250, 0, false, &Vec::new(), &mut taps, &mut pending);
    assert_eq!(chart.lines[0].notes[0].judge, JudgeStatus::Judged);
    // The second line is walked from its watermark.
    assert_eq!(chart.lines[1].notes[0].judge, JudgeStatus::NotJudged);
    assert_eq!(chart.lines[1].notes[1].judge, JudgeStatus::NotJudged);
    assert_eq!(pending.len(), 1);
}

#[test]
fn watermark_passes_judged_notes_only() {
    let chart = Chart {
        lines: vec![
            Line { notes: vec![judged(1), judged(2), note(3, NoteKind::Click, 0), judged(4)] },
            Line { notes: vec![judged(1), judged(2)] },
            Line { notes: vec![note(1, NoteKind::Click, 0)] },
            Line { notes: Vec::new() },
        ],
    };
    let mut cursors =
        vec![(vec![0, 1, 2, 3], 0), (vec![0, 1], 1), (vec![0], 0), (Vec::new(), 0)];
    advance(&mut cursors, &chart);
    assert_eq!(cursors[0].1, 2);
    assert_eq!(cursors[1].1, 2);
    assert_eq!(cursors[2].1, 0);
    assert_eq!(cursors[3].1, 0);
    assert_eq!(cursors[0].0, vec![0, 1, 2, 3]);
}

#[test]
fn cues_follow_the_judgement_and_the_kind() {
    let r = |judgement| Resolution { judgement, line: 2, note: 5, diff: None };
    let mut effects = vec![Effect::Play(Sound::Drag)];
    push_cues(&mut effects, &r(Judgement::Perfect), NoteKind::Flick);
    push_cues(&mut effects, &r(Judgement::Good), NoteKind::Drag);
    push_cues(&mut effects, &r(Judgement::Bad), NoteKind::Click);
    push_cues(&mut effects, &r(Judgement::Miss), NoteKind::Click);
    push_cues(&mut effects, &r(Judgement::Perfect), NoteKind::Hold { end_time: 9 });
    push_cues(&mut effects, &r(Judgement::Good), NoteKind::Click);
    assert_eq!(
        effects,
        vec![
            Effect::Play(Sound::Drag),
            Effect::Emit { line: 2, note: 5, perfect: true },
            Effect::Play(Sound::Flick),
            Effect::Emit { line: 2, note: 5, perfect: false },
            Effect::Play(Sound::Drag),
            Effect::Emit { line: 2, note: 5, perfect: false },
            Effect::Play(Sound::Click),
        ]
    );
}

#[test]
fn each_hold_that_began_sounds_a_tap() {
    let mut effects = Vec::new();
    push_tap_sounds(&mut effects, &vec![(0, 1), (3, 4)]);
    assert_eq!(effects, vec![Effect::Play(Sound::Click), Effect::Play(Sound::Click)]);
    push_tap_sounds(&mut effects, &Vec::new());
    assert_eq!(effects.len(), 2);
}

#[test]
fn judgements_are_committed_in_turn() {
    let chart = Chart {
        lines: vec![Line {
            notes: vec![
                judged(1_000),
                Note {
                    time: 1_100,
                    kind: NoteKind::Hold { end_time: 1_500 },
                    fake: false,
                    judge: JudgeStatus::Judged,
                    lateral: 0,
                },
                judged(1_200),
                judged(1_300),
            ],
        }],
    };
    let pristine = Chart {
        lines: vec![Line {
            notes: vec![
                note(1_000, NoteKind::Click, 0),
                note(1_100, NoteKind::Hold { end_time: 1_500 }, 0),
                note(1_200, NoteKind::Click, 0),
                note(1_300, NoteKind::Click, 0),
            ],
        }],
    };
    let mut judge = Judge::new(&pristine);
    let pending = vec![
        Resolution { judgement: Judgement::Good, line: 0, note: 0, diff: None },
        Resolution { judgement: Judgement::Good, line: 0, note: 1, diff: Some(-33) },
        Resolution { judgement: Judgement::Bad, line: 0, note: 2, diff: None },
        Resolution { judgement: Judgement::Perfect, line: 0, note: 3, diff: Some(5) },
    ];
    let mut effects = Vec::new();
    let mut bad_notes: Vec<BadNote> = Vec::new();
    judge.commit_all(&chart, 1_150, &pending, &mut effects, &mut bad_notes);
    assert_eq!(judge.counts, [1, 2, 1, 0]);
    assert_eq!(judge.combo, 1);
    assert_eq!(judge.max_combo, 2);
    // The click is 150 late, the hold keeps its own difference, the bad click
    // is 50 early, and a perfect judgement records none.
    assert_eq!(judge.diffs, vec![150, -33, -50]);
    assert_eq!(
        effects,
        vec![
            Effect::Emit { line: 0, note: 0, perfect: false },
            Effect::Play(Sound::Click),
            Effect::Emit { line: 0, note: 3, perfect: true },
            Effect::Play(Sound::Click),
        ]
    );
    assert_eq!(bad_notes.len(), 1);
    assert_eq!(bad_notes[0].note, 2);
    assert_eq!(bad_notes[0].time, 1_150);
}
