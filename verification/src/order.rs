//! The order in which the notes of a line are judged: the notes that count, by
//! time, and notes of one time in the order of the chart.

use vstd::prelude::*;
use crate::chart::{Note, count_playable, line_succeeds};
use crate::sweep::order_in_line;

verus! {

/// Whether note `a` of a line is judged before note `b`: it is due earlier, or
/// at the same time and stands earlier in the line.
pub open spec fn precedes(notes: Seq<Note>, a: u32, b: u32) -> bool {
    notes[a as int].time < notes[b as int].time || (notes[a as int].time == notes[b as int].time
        && a < b)
}

/// Whether an order names the note at place `k` of its line.
pub open spec fn lists(order: Seq<u32>, k: int) -> bool {
    exists|j: int| 0 <= j < order.len() && #[trigger] order[j] == k
}

/// Whether `order` lists the first `n` notes of a line that count, each once,
/// in the order in which they are judged.
pub open spec fn orders_prefix(order: Seq<u32>, notes: Seq<Note>, n: int) -> bool {
    &&& forall|j: int| 0 <= j < order.len() ==> (#[trigger] order[j]) < n && !notes[order[j] as int].fake
    &&& forall|i: int, j: int|
        0 <= i < j < order.len() ==> precedes(notes, #[trigger] order[i], #[trigger] order[j])
    &&& forall|k: int| 0 <= k < n && !(#[trigger] notes[k]).fake ==> lists(order, k)
}

/// Whether `order` lists the notes of a line that count, each once, in the order
/// in which they are judged.
pub open spec fn time_ordered(order: Seq<u32>, notes: Seq<Note>) -> bool {
    orders_prefix(order, notes, notes.len() as int)
}

/// An order of a line names notes of the line that count.
pub proof fn lemma_time_ordered_in_line(order: Seq<u32>, notes: Seq<Note>)
    requires
        time_ordered(order, notes),
    ensures
        order_in_line(order, notes),
{
}

/// An order of a line is an order of the line at any later moment.
pub proof fn lemma_time_ordered_later(order: Seq<u32>, earlier: Seq<Note>, later: Seq<Note>)
    requires
        time_ordered(order, earlier),
        line_succeeds(later, earlier),
    ensures
        time_ordered(order, later),
{
    assert forall|j: int| 0 <= j < order.len() implies (#[trigger] order[j]) < later.len()
        && !later[order[j] as int].fake by {
        assert(later[order[j] as int].succeeds(earlier[order[j] as int]));
    }
    assert forall|i: int, j: int| 0 <= i < j < order.len() implies precedes(
        later,
        #[trigger] order[i],
        #[trigger] order[j],
    ) by {
        assert(precedes(earlier, order[i], order[j]));
        assert(later[order[i] as int].succeeds(earlier[order[i] as int]));
        assert(later[order[j] as int].succeeds(earlier[order[j] as int]));
    }
    assert forall|k: int| 0 <= k < later.len() && !(#[trigger] later[k]).fake implies lists(
        order,
        k,
    ) by {
        assert(later[k].succeeds(earlier[k]));
    }
}

/// Lists the notes of a line that count in the order in which they are judged.
pub fn time_order(notes: &Vec<Note>) -> (order: Vec<u32>)
    requires
        notes@.len() <= u32::MAX,
    ensures
        time_ordered(order@, notes@),
        order@.len() == count_playable(notes@),
{
    let mut order: Vec<u32> = Vec::new();
    let mut k: usize = 0;
    while k < notes.len()
        invariant
            k <= notes@.len() <= u32::MAX,
            orders_prefix(order@, notes@, k as int),
            order@.len() == count_playable(notes@.take(k as int)),
            order@.len() <= k,
        decreases notes.len() - k,
    {
        assert(notes@.take(k + 1).drop_last() =~= notes@.take(k as int));
        if !notes[k].fake {
            let time = notes[k].time;
            let mut p: usize = order.len();
            while p > 0 && notes[order[p - 1] as usize].time > time
                invariant
                    p <= order@.len(),
                    k < notes@.len(),
                    time == notes@[k as int].time,
                    orders_prefix(order@, notes@, k as int),
                    forall|j: int| p <= j < order@.len() ==> notes@[(#[trigger] order@[j]) as int].time > time,
                decreases p,
            {
                p = p - 1;
            }
            let ghost before = order@;
            order.insert(p, k as u32);
            proof {
                let after = order@;
                assert forall|i: int, j: int| 0 <= i < j < after.len() implies precedes(
                    notes@,
                    #[trigger] after[i],
                    #[trigger] after[j],
                ) by {
                    if j < p {
                        assert(after[i] == before[i] && after[j] == before[j]);
                    } else if j == p {
                        assert(after[i] == before[i]);
                        if p > 0 {
                            if i < p - 1 {
                                assert(precedes(notes@, before[i], before[p - 1]));
                            }
                        }
                    } else if i < p {
                        assert(after[i] == before[i] && after[j] == before[j - 1]);
                    } else if i == p {
                        assert(after[j] == before[j - 1]);
                    } else {
                        assert(after[i] == before[i - 1] && after[j] == before[j - 1]);
                    }
                }
                assert forall|c: int| 0 <= c < k + 1 && !(#[trigger] notes@[c]).fake implies lists(
                    after,
                    c,
                ) by {
                    if c == k {
                        assert(after[p as int] == k);
                    } else {
                        assert(lists(before, c));
                        let j = choose|j: int| 0 <= j < before.len() && #[trigger] before[j] == c;
                        if j < p {
                            assert(after[j] == c);
                        } else {
                            assert(after[j + 1] == c);
                        }
                    }
                }
                assert forall|j: int| 0 <= j < after.len() implies (#[trigger] after[j]) < k + 1
                    && !notes@[after[j] as int].fake by {
                    if j < p {
                        assert(after[j] == before[j]);
                    } else if j > p {
                        assert(after[j] == before[j - 1]);
                    }
                }
            }
        }
        k = k + 1;
    }
    assert(notes@.take(k as int) =~= notes@);
    order
}

} // verus!
