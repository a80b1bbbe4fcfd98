//! End-of-round validation: the counters must sum to exactly one burst's
//! worth of increments per recorded iteration.
use crate::slots::Fault;
use crate::slots::SlotArray;
use crate::BURST_SIZE;
use std::sync::atomic::AtomicUsize;
use std::sync::atomic::Ordering;
use vstd::prelude::*;

verus! {

/// Sum of the counter values in `s`.
pub open spec fn sum_of(s: Seq<u32>) -> int
    decreases s.len(),
{
    if s.len() == 0 {
        0
    } else {
        sum_of(s.drop_last()) + s.last() as int
    }
}

/// The total that `iterations` recorded bursts must have produced.
pub open spec fn expected_total(iterations: int) -> int {
    iterations * BURST_SIZE as int
}

/// The verdict on a round whose counters summed to `total` while
/// `iterations` bursts were recorded.
pub open spec fn verdict(total: int, iterations: usize) -> Result<usize, Fault> {
    if total == expected_total(iterations as int) {
        Ok(iterations)
    } else {
        Err(Fault::AggregateMismatch { total: total as u128, iterations })
    }
}

proof fn lemma_sum_bounded(s: Seq<u32>)
    ensures
        0 <= sum_of(s) <= s.len() * u32::MAX as int,
    decreases s.len(),
{
    if s.len() > 0 {
        lemma_sum_bounded(s.drop_last());
    }
}

/// Adds one counter value `v` to the running `total` of the values in `seen`.
pub fn add_counter(total: u128, v: u32, seen: Ghost<Seq<u32>>) -> (r: u128)
    requires
        total as int == sum_of(seen@),
        seen@.len() < u64::MAX as int,
    ensures
        r as int == sum_of(seen@.push(v)),
{
    proof {
        lemma_sum_bounded(seen@);
        assert(seen@.len() * u32::MAX as int <= (u64::MAX as int) * (u32::MAX as int)) by (nonlinear_arith)
            requires
                seen@.len() < u64::MAX as int,
        ;
        assert(seen@.push(v).drop_last() =~= seen@);
    }
    total + v as u128
}

/// Compares a round's counter total with the recorded burst count; on a match
/// answers the iteration count reached.
pub fn check_aggregate(total: u128, iterations: usize) -> (r: Result<usize, Fault>)
    ensures
        r == verdict(total as int, iterations),
{
    assert(iterations as int * BURST_SIZE as int <= u128::MAX as int) by (nonlinear_arith)
        requires
            iterations as int <= u64::MAX as int,
            BURST_SIZE as int == 1048576,
    ;
    let expected: u128 = iterations as u128 * BURST_SIZE as u128;
    if total == expected {
        Ok(iterations)
    } else {
        Err(Fault::AggregateMismatch { total, iterations })
    }
}

impl SlotArray {
    /// Reads every counter once and sums the values read, one `add_counter`
    /// per value.
    pub fn counter_total(&self) -> (r: u128)
        ensures
            exists|s: Seq<u32>| s.len() == self.identities().len() && r as int == sum_of(s),
    {
        let n = self.len();
        let mut total: u128 = 0;
        let mut i: usize = 0;
        let ghost mut seen: Seq<u32> = Seq::empty();
        while i < n
            invariant
                i <= n,
                n == self.identities().len(),
                seen.len() == i,
                total as int == sum_of(seen),
            decreases n - i,
        {
            let v = self.counter(i);
            total = add_counter(total, v, Ghost(seen));
            proof {
                seen = seen.push(v);
            }
            i = i + 1;
        }
        total
    }

    /// Ends a round: sums the counters, reads the iteration counter, and
    /// checks that the sum is exactly `BURST_SIZE` times the iteration count.
    /// Call it only once every worker of the round has been joined.
    pub fn finish_round(&self, iterations: &AtomicUsize) -> (r: Result<usize, Fault>)
        ensures
            exists|s: Seq<u32>, k: usize|
                s.len() == self.identities().len() && r == verdict(sum_of(s), k),
    {
        let total = self.counter_total();
        let n = iterations.load(Ordering::Acquire);
        check_aggregate(total, n)
    }
}

} // verus!
