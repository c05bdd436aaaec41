//! Sorted lists of disjoint byte ranges.

use vstd::prelude::*;

verus! {

/// The ranges are non-empty, sorted, and neither overlap nor touch.
pub open spec fn ranges_wf(ranges: Seq<(usize, usize)>) -> bool {
    &&& forall|i: int| 0 <= i < ranges.len() ==> (#[trigger] ranges[i]).0 < ranges[i].1
    &&& forall|i: int, j: int|
        0 <= i < j < ranges.len() ==> (#[trigger] ranges[i]).1 < (#[trigger] ranges[j]).0
}

/// Range `i` of the list holds position `x`.
pub open spec fn range_holds(ranges: Seq<(usize, usize)>, i: int, x: int) -> bool {
    0 <= i < ranges.len() && ranges[i].0 <= x < ranges[i].1
}

/// The positions that the ranges hold.
pub open spec fn covered(ranges: Seq<(usize, usize)>) -> Set<int> {
    Set::new(|x: int| exists|i: int| range_holds(ranges, i, x))
}

/// The positions from `start` up to `end`.
pub open spec fn block(start: int, end: int) -> Set<int> {
    Set::new(|x: int| start <= x < end)
}

/// What is left to merge: the list is in order but for ranges right of `write`, which
/// the range at `write` may reach.
spec fn merging(ranges: Seq<(usize, usize)>, write: int) -> bool {
    &&& 0 <= write < ranges.len()
    &&& forall|i: int| 0 <= i < ranges.len() ==> (#[trigger] ranges[i]).0 < ranges[i].1
    &&& forall|i: int, j: int|
        0 <= i < j < ranges.len() && i != write ==> (#[trigger] ranges[i]).1 < (
        #[trigger] ranges[j]).0
    &&& forall|j: int| write < j < ranges.len() ==> ranges[write].0 <= (#[trigger] ranges[j]).0
}

/// The list with ranges `at` and `at + 1` replaced by one that spans both.
spec fn joined(ranges: Seq<(usize, usize)>, at: int) -> Seq<(usize, usize)> {
    let end = if ranges[at].1 >= ranges[at + 1].1 {
        ranges[at].1
    } else {
        ranges[at + 1].1
    };
    ranges.update(at, (ranges[at].0, end)).remove(at + 1)
}

proof fn lemma_joined_covers(ranges: Seq<(usize, usize)>, at: int)
    requires
        0 <= at,
        at + 1 < ranges.len(),
        ranges[at].0 <= ranges[at + 1].0 <= ranges[at].1,
    ensures
        covered(joined(ranges, at)) == covered(ranges),
{
    let after = joined(ranges, at);
    assert forall|x: int| covered(after).contains(x) implies covered(ranges).contains(x) by {
        let i = choose|i: int| range_holds(after, i, x);
        if i < at || (i == at && x < ranges[at].1) {
            assert(range_holds(ranges, i, x));
        } else {
            assert(range_holds(ranges, i + 1, x));
        }
    }
    assert forall|x: int| covered(ranges).contains(x) implies covered(after).contains(x) by {
        let i = choose|i: int| range_holds(ranges, i, x);
        if i <= at {
            assert(range_holds(after, i, x));
        } else {
            assert(range_holds(after, i - 1, x));
        }
    }
    assert(covered(after) =~= covered(ranges));
}

proof fn lemma_inserted_covers(ranges: Seq<(usize, usize)>, at: int, start: usize, end: usize)
    requires
        0 <= at <= ranges.len(),
    ensures
        covered(ranges.insert(at, (start, end))) == covered(ranges).union(
            block(start as int, end as int),
        ),
{
    let after = ranges.insert(at, (start, end));
    let goal = covered(ranges).union(block(start as int, end as int));
    assert forall|x: int| covered(after).contains(x) implies goal.contains(x) by {
        let i = choose|i: int| range_holds(after, i, x);
        if i < at {
            assert(range_holds(ranges, i, x));
        } else if i > at {
            assert(range_holds(ranges, i - 1, x));
        }
    }
    assert forall|x: int| goal.contains(x) implies covered(after).contains(x) by {
        if start <= x < end {
            assert(range_holds(after, at, x));
        } else {
            let i = choose|i: int| range_holds(ranges, i, x);
            if i < at {
                assert(range_holds(after, i, x));
            } else {
                assert(range_holds(after, i + 1, x));
            }
        }
    }
    assert(covered(after) =~= goal);
}

/// Replaces ranges `at` and `at + 1` by one that spans both.
fn join_at(ranges: &mut Vec<(usize, usize)>, at: usize)
    requires
        at + 1 < old(ranges).len(),
    ensures
        final(ranges)@ == joined(old(ranges)@, at as int),
{
    let here = ranges[at];
    let next = ranges[at + 1];
    let end = if here.1 >= next.1 { here.1 } else { next.1 };
    ranges.set(at, (here.0, end));
    ranges.remove(at + 1);
}

/// Where a range that starts at `start` belongs: behind the ranges that start at or
/// before it.
fn insertion_point(ranges: &Vec<(usize, usize)>, start: usize) -> (at: usize)
    requires
        ranges_wf(ranges@),
    ensures
        at <= ranges@.len(),
        forall|i: int| 0 <= i < at ==> (#[trigger] ranges@[i]).0 <= start,
        forall|i: int| at <= i < ranges@.len() ==> start < (#[trigger] ranges@[i]).0,
{
    let mut at: usize = 0;
    while at < ranges.len() && ranges[at].0 <= start
        invariant
            at <= ranges.len(),
            forall|i: int| 0 <= i < at ==> (#[trigger] ranges@[i]).0 <= start,
        decreases ranges.len() - at,
    {
        at += 1;
    }
    assert forall|i: int| at <= i < ranges@.len() implies start < (#[trigger] ranges@[i]).0 by {
        assert(ranges@[at as int].0 > start);
        assert(ranges@[at as int].0 < ranges@[at as int].1);
    }
    at
}

/// Adds the positions from `start` up to `end` to a list of ranges.
pub fn insert_range(ranges: &mut Vec<(usize, usize)>, start: usize, end: usize)
    requires
        ranges_wf(old(ranges)@),
    ensures
        ranges_wf(final(ranges)@),
        covered(final(ranges)@) == covered(old(ranges)@).union(block(start as int, end as int)),
{
    let ghost goal = covered(ranges@).union(block(start as int, end as int));
    if start >= end {
        assert(covered(ranges@) =~= goal);
        return;
    }
    let mut write = insertion_point(ranges, start);
    proof {
        lemma_inserted_covers(ranges@, write as int, start, end);
    }
    ranges.insert(write, (start, end));
    if write > 0 && ranges[write - 1].1 >= ranges[write].0 {
        write -= 1;
        proof {
            lemma_joined_covers(ranges@, write as int);
        }
        join_at(ranges, write);
    }
    assert(merging(ranges@, write as int));
    while write + 1 < ranges.len() && ranges[write].1 >= ranges[write + 1].0
        invariant
            write < ranges.len(),
            merging(ranges@, write as int),
            covered(ranges@) == goal,
        decreases ranges.len(),
    {
        proof {
            lemma_joined_covers(ranges@, write as int);
        }
        join_at(ranges, write);
    }
    assert(ranges_wf(ranges@)) by {
        let now = ranges@;
        assert forall|i: int, j: int| 0 <= i < j < now.len() implies (#[trigger] now[i]).1 < (
        #[trigger] now[j]).0 by {
            if i == write && write + 1 < j {
                assert(now[write + 1].1 < now[j].0);
                assert(now[write + 1].0 < now[write + 1].1);
            }
        }
    }
}

/// A list of disjoint ranges holds exactly one block from zero on if and only if it
/// consists of that one range.
pub proof fn lemma_single_block(ranges: Seq<(usize, usize)>, end: int)
    requires
        ranges_wf(ranges),
        0 < end,
    ensures
        covered(ranges) == block(0, end) <==> ranges.len() == 1 && ranges[0].0 == 0
            && ranges[0].1 == end,
{
    let whole = covered(ranges);
    if whole == block(0, end) {
        assert(whole.contains(0));
        let first = choose|i: int| range_holds(ranges, i, 0);
        assert(range_holds(ranges, first, 0));
        assert(first == 0) by {
            if first > 0 {
                assert(ranges[0].0 < ranges[0].1);
                assert(ranges[0].1 < ranges[first].0);
            }
        }
        let stop = ranges[0].1 as int;
        assert(range_holds(ranges, 0, stop - 1));
        assert(whole.contains(stop - 1));
        assert(stop <= end);
        if stop < end {
            assert(whole.contains(stop));
            let other = choose|i: int| range_holds(ranges, i, stop);
            assert(range_holds(ranges, other, stop));
            assert(ranges[0].1 < ranges[other].0);
            assert(false);
        }
        if ranges.len() > 1 {
            assert(ranges[0].1 < ranges[1].0);
            assert(ranges[1].0 < ranges[1].1);
            assert(range_holds(ranges, 1, ranges[1].0 as int));
            assert(whole.contains(ranges[1].0 as int));
            assert(false);
        }
    }
    if ranges.len() == 1 && ranges[0].0 == 0 && ranges[0].1 == end {
        assert forall|x: int| block(0, end).contains(x) implies whole.contains(x) by {
            assert(range_holds(ranges, 0, x));
        }
        assert(whole =~= block(0, end));
    }
}

} // verus!
