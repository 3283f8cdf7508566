//! Sums of integer sequences.

use vstd::prelude::*;

verus! {

/// The sum of `values`, taken from the left, starting at 0.
pub open spec fn sum(values: Seq<int>) -> int
    decreases values.len(),
{
    if values.len() == 0 {
        0
    } else {
        sum(values.drop_last()) + values.last()
    }
}

/// The sum of the first `n + 1` values is the sum of the first `n` and the
/// value after them.
pub proof fn lemma_sum_step(values: Seq<int>, n: int)
    requires
        0 <= n < values.len(),
    ensures
        sum(values.take(n + 1)) == sum(values.take(n)) + values[n],
{
    assert(values.take(n + 1).drop_last() =~= values.take(n));
}

/// Every value of a sequence taken: the sequence.
pub proof fn lemma_sum_all(values: Seq<int>)
    ensures
        sum(values.take(values.len() as int)) == sum(values),
{
    assert(values.take(values.len() as int) =~= values);
}

} // verus!
