//! Sums and extremes of lists of numbers.

use vstd::prelude::*;

verus! {

/// The sum of a list.
pub open spec fn sum(list: Seq<u64>) -> nat
    decreases list.len(),
{
    if list.len() == 0 {
        0
    } else {
        sum(list.drop_last()) + list.last() as nat
    }
}

/// The least number of a list.
pub open spec fn least(list: Seq<u64>) -> u64
    decreases list.len(),
{
    if list.len() == 0 {
        u64::MAX
    } else if list.last() < least(list.drop_last()) {
        list.last()
    } else {
        least(list.drop_last())
    }
}

/// The greatest number of a list.
pub open spec fn greatest(list: Seq<u64>) -> u64
    decreases list.len(),
{
    if list.len() == 0 {
        0
    } else if list.last() > greatest(list.drop_last()) {
        list.last()
    } else {
        greatest(list.drop_last())
    }
}

/// What a list of numbers amounts to.
#[derive(Clone, Copy, Debug, Eq, PartialEq)]
pub struct Summary {
    pub count: usize,
    pub sum: u128,
    pub least: u64,
    pub greatest: u64,
}

/// What a list of numbers amounts to.
pub open spec fn summary(list: Seq<u64>) -> Summary {
    Summary {
        count: list.len() as usize,
        sum: sum(list) as u128,
        least: least(list),
        greatest: greatest(list),
    }
}

/// Sums up a list of numbers.
pub fn summarize(list: &Vec<u64>) -> (r: Summary)
    ensures
        r == summary(list@),
        r.sum == sum(list@),
        r.count == list@.len(),
{
    let mut total: u128 = 0;
    let mut low: u64 = u64::MAX;
    let mut high: u64 = 0;
    let mut i: usize = 0;
    while i < list.len()
        invariant
            i <= list.len(),
            total == sum(list@.take(i as int)),
            total <= i * u64::MAX,
            low == least(list@.take(i as int)),
            high == greatest(list@.take(i as int)),
        decreases list.len() - i,
    {
        assert(list@.take(i + 1).drop_last() =~= list@.take(i as int));
        let value: u64 = list[i];
        total = total + value as u128;
        if value < low {
            low = value;
        }
        if value > high {
            high = value;
        }
        i += 1;
    }
    assert(list@.take(i as int) =~= list@);
    Summary { count: list.len(), sum: total, least: low, greatest: high }
}

/// The extremes of a list that is not empty are its members, and bound all of them.
pub proof fn law_extremes(list: Seq<u64>)
    requires
        list.len() > 0,
    ensures
        list.contains(least(list)),
        list.contains(greatest(list)),
        forall|i: int| 0 <= i < list.len() ==> least(list) <= #[trigger] list[i] <= greatest(list),
    decreases list.len(),
{
    let last = list.len() - 1;
    assert(list[last] == list.last());
    if list.len() > 1 {
        let before = list.drop_last();
        law_extremes(before);
        let low = choose|i: int| 0 <= i < before.len() && before[i] == least(before);
        let high = choose|i: int| 0 <= i < before.len() && before[i] == greatest(before);
        assert(list[low] == least(before));
        assert(list[high] == greatest(before));
        assert forall|i: int| 0 <= i < list.len() implies least(list) <= #[trigger] list[i]
            <= greatest(list) by {
            if i < last {
                assert(before[i] == list[i]);
            }
        }
    } else {
        assert(least(list.drop_last()) == u64::MAX);
        assert(greatest(list.drop_last()) == 0);
    }
}

} // verus!
