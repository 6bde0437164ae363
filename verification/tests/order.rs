use prpr::chart::{Chart, Line, Note, NoteKind};
use prpr::judge::{Judge, JudgeStatus};
use prpr::order::time_order;

fn note(time: i32, fake: bool) -> Note {
    Note { time, kind: NoteKind::Click, fake, judge: JudgeStatus::NotJudged, lateral: 0 }
}

#[test]
fn notes_are_ordered_by_time() {
    let notes = vec![note(30, false), note(10, false), note(20, false)];
    assert_eq!(time_order(&notes), vec![1, 2, 0]);
}

#[test]
fn notes_of_one_time_keep_the_order_of_the_chart() {
    let notes = vec![
        note(30, false),
        note(10, false),
        note(20, false),
        note(10, false),
        note(30, false),
        note(10, false),
    ];
    assert_eq!(time_order(&notes), vec![1, 3, 5, 2, 0, 4]);
}

#[test]
fn decorations_are_left_out() {
    let notes = vec![note(30, false), note(10, true), note(20, false), note(5, true), note(10, false)];
    assert_eq!(time_order(&notes), vec![4, 2, 0]);
}

#[test]
fn empty_line_has_an_empty_order() {
    assert_eq!(time_order(&Vec::new()), Vec::<u32>::new());
}

#[test]
fn negative_times_come_first() {
    let notes = vec![note(0, false), note(-5, false), note(i32::MAX, false), note(i32::MIN, false)];
    assert_eq!(time_order(&notes), vec![3, 1, 0, 2]);
}

#[test]
fn judge_orders_each_line_and_counts_the_notes() {
    let chart = Chart {
        lines: vec![
            Line { notes: vec![note(30, false), note(10, false), note(20, true)] },
            Line { notes: Vec::new() },
            Line { notes: vec![note(7, false), note(7, false), note(3, false)] },
        ],
    };
    let judge = Judge::new(&chart);
    assert_eq!(judge.notes.len(), 3);
    assert_eq!(judge.notes[0], (vec![1, 0], 0));
    assert_eq!(judge.notes[1], (Vec::new(), 0));
    assert_eq!(judge.notes[2], (vec![2, 0, 1], 0));
    assert_eq!(judge.num_of_notes, 5);
}
