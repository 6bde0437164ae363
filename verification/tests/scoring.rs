use prpr::chart::{Chart, Line, Note, NoteKind};
use prpr::judge::{Judge, JudgeStatus, Judgement, PlayResult};
use prpr::score::Ratio;

fn judge_of(notes: usize) -> Judge {
    let line = Line {
        notes: (0..notes)
            .map(|i| Note {
                time: 1_000 * i as i32,
                kind: NoteKind::Click,
                fake: false,
                judge: JudgeStatus::NotJudged,
                lateral: 0,
            })
            .collect(),
    };
    Judge::new(&Chart { lines: vec![line] })
}

#[test]
fn empty_chart_has_full_score() {
    let chart = Chart { lines: Vec::new() };
    let judge = Judge::new(&chart);
    assert_eq!(judge.num_of_notes, 0);
    assert_eq!(judge.score(), 1_000_000);
    assert_eq!(judge.accuracy(), Ratio { num: 1, den: 1 });
    let result = judge.result();
    assert_eq!(result.score, 1_000_000);
    assert_eq!(result.accuracy, Ratio { num: 1, den: 1 });
    assert_eq!(result.num_of_notes, 0);
    assert_eq!(result.counts, [0, 0, 0, 0]);
    assert_eq!(result.max_combo, 0);
    assert_eq!(result.early, 0);
    assert_eq!(result.late, 0);
}

#[test]
fn chart_of_decorations_has_no_notes() {
    let line = Line {
        notes: vec![Note {
            time: 0,
            kind: NoteKind::Click,
            fake: true,
            judge: JudgeStatus::NotJudged,
            lateral: 0,
        }],
    };
    let judge = Judge::new(&Chart { lines: vec![line] });
    assert_eq!(judge.num_of_notes, 0);
    assert!(judge.notes[0].0.is_empty());
    assert_eq!(judge.score(), 1_000_000);
}

#[test]
fn fresh_judge_has_nothing() {
    let judge = judge_of(3);
    assert_eq!(judge.num_of_notes, 3);
    assert_eq!(judge.counts, [0, 0, 0, 0]);
    assert_eq!(judge.combo, 0);
    assert_eq!(judge.max_combo, 0);
    assert_eq!(judge.last_time, 0);
    assert_eq!(judge.key_down_count, 0);
    assert!(judge.trackers.is_empty());
    assert_eq!(judge.score(), 0);
    assert_eq!(judge.accuracy(), Ratio { num: 0, den: 60 });
}

#[test]
fn commit_counts_and_keeps_the_combo() {
    let mut judge = judge_of(6);
    judge.commit(Judgement::Perfect, None);
    judge.commit(Judgement::Good, Some(-100));
    assert_eq!(judge.combo, 2);
    assert_eq!(judge.max_combo, 2);
    judge.commit(Judgement::Bad, Some(200));
    assert_eq!(judge.combo, 0);
    assert_eq!(judge.max_combo, 2);
    judge.commit(Judgement::Perfect, None);
    assert_eq!(judge.combo, 1);
    judge.commit(Judgement::Miss, None);
    assert_eq!(judge.combo, 0);
    judge.commit(Judgement::Good, Some(0));
    assert_eq!(judge.counts, [2, 2, 1, 1]);
    assert_eq!(judge.max_combo, 2);
    assert_eq!(judge.diffs, vec![-100, 200, 0]);
    let result = judge.result();
    assert_eq!(result.early, 1);
    assert_eq!(result.late, 2);
    assert_eq!(result.counts, [2, 2, 1, 1]);
    assert_eq!(result.max_combo, 2);
    assert_eq!(result.num_of_notes, 6);
}

#[test]
fn score_weighs_accuracy_and_combo() {
    let mut judge = judge_of(4);
    judge.commit(Judgement::Perfect, None);
    judge.commit(Judgement::Good, Some(90));
    judge.commit(Judgement::Bad, Some(200));
    judge.commit(Judgement::Miss, None);
    // (900 000 + 585 000 + 2 * 100 000) / 4
    assert_eq!(judge.score(), 421_250);
    assert_eq!(judge.accuracy(), Ratio { num: 33, den: 80 });
    assert_eq!(judge.result().score, 421_250);
    assert_eq!(judge.result().accuracy, Ratio { num: 33, den: 80 });
}

#[test]
fn score_rounds_to_the_nearest() {
    let mut judge = judge_of(3);
    judge.commit(Judgement::Perfect, None);
    // 1 000 000 / 3
    assert_eq!(judge.score(), 333_333);
    judge.commit(Judgement::Perfect, None);
    // 2 000 000 / 3
    assert_eq!(judge.score(), 666_667);
    judge.commit(Judgement::Perfect, None);
    assert_eq!(judge.score(), 1_000_000);
}

#[test]
fn score_rounds_half_a_point_upward() {
    let mut judge = judge_of(16);
    judge.commit(Judgement::Good, Some(90));
    // 685 000 / 16 = 42 812.5
    assert_eq!(judge.score(), 42_813);
}

#[test]
fn all_good_is_not_the_full_score() {
    let mut judge = judge_of(2);
    judge.commit(Judgement::Good, Some(90));
    judge.commit(Judgement::Good, Some(90));
    // 0.9 * 0.65 + 0.1
    assert_eq!(judge.score(), 685_000);
    assert_eq!(judge.accuracy(), Ratio { num: 26, den: 40 });
}

#[test]
fn one_good_in_a_very_long_chart_rounds_to_the_full_score() {
    let mut judge = judge_of(1);
    judge.num_of_notes = 630_000;
    judge.counts = [629_999, 1, 0, 0];
    judge.combo = 630_000;
    judge.max_combo = 630_000;
    assert_eq!(judge.score(), 1_000_000);
    judge.num_of_notes = 629_999;
    judge.counts = [629_998, 1, 0, 0];
    judge.combo = 629_999;
    judge.max_combo = 629_999;
    assert_eq!(judge.score(), 999_999);
}

#[test]
fn reset_clears_the_totals_and_the_watermarks() {
    let mut judge = judge_of(3);
    judge.commit(Judgement::Perfect, None);
    judge.commit(Judgement::Bad, Some(-200));
    judge.notes[0].1 = 2;
    judge.key_down_count = 1;
    judge.last_time = 500;
    judge.reset();
    assert_eq!(judge.counts, [0, 0, 0, 0]);
    assert_eq!(judge.combo, 0);
    assert_eq!(judge.max_combo, 0);
    assert!(judge.diffs.is_empty());
    assert!(judge.trackers.is_empty());
    assert_eq!(judge.notes[0].1, 0);
    assert_eq!(judge.notes[0].0, vec![0, 1, 2]);
    assert_eq!(judge.num_of_notes, 3);
    assert_eq!(judge.key_down_count, 1);
    assert_eq!(judge.last_time, 500);
}

#[test]
fn default_result_is_empty() {
    let result = PlayResult::default();
    assert_eq!(result.score, 0);
    assert_eq!(result.accuracy, Ratio { num: 0, den: 1 });
    assert_eq!(result.max_combo, 0);
    assert_eq!(result.num_of_notes, 0);
    assert_eq!(result.counts, [0, 0, 0, 0]);
    assert_eq!(result.early, 0);
    assert_eq!(result.late, 0);
}
