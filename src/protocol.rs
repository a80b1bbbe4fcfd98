//! A model of the counting protocol, on unbounded counters: a burst records
//! one iteration and then `BURST_SIZE` increments of in-range slots. Because
//! increments commute, what any interleaving of complete bursts leaves behind
//! is described by applying the bursts one after another.
use crate::BURST_SIZE;
use vstd::prelude::*;

verus! {

/// Sum of the counters in `c`.
pub open spec fn total(c: Seq<nat>) -> int
    decreases c.len(),
{
    if c.len() == 0 {
        0
    } else {
        total(c.drop_last()) + c.last()
    }
}

/// The counters after incrementing slot `i`, if it is in range.
pub open spec fn bump(c: Seq<nat>, i: int) -> Seq<nat> {
    if 0 <= i < c.len() {
        c.update(i, c[i] + 1)
    } else {
        c
    }
}

/// The counters after incrementing each slot listed in `picks`, in order.
pub open spec fn hit_all(c: Seq<nat>, picks: Seq<int>) -> Seq<nat>
    decreases picks.len(),
{
    if picks.len() == 0 {
        c
    } else {
        bump(hit_all(c, picks.drop_last()), picks.last())
    }
}

/// `picks` is a complete burst against `n` slots.
pub open spec fn is_burst(picks: Seq<int>, n: int) -> bool {
    picks.len() == BURST_SIZE && forall|k: int| 0 <= k < picks.len() ==> 0 <= #[trigger] picks[k] < n
}

/// The counters after the given bursts, applied in order.
pub open spec fn after_bursts(c: Seq<nat>, bursts: Seq<Seq<int>>) -> Seq<nat>
    decreases bursts.len(),
{
    if bursts.len() == 0 {
        c
    } else {
        hit_all(after_bursts(c, bursts.drop_last()), bursts.last())
    }
}

/// The counters after the given rounds, each a list of bursts.
pub open spec fn after_rounds(c: Seq<nat>, rounds: Seq<Seq<Seq<int>>>) -> Seq<nat>
    decreases rounds.len(),
{
    if rounds.len() == 0 {
        c
    } else {
        after_bursts(after_rounds(c, rounds.drop_last()), rounds.last())
    }
}

/// Iterations recorded over the given rounds: one per burst.
pub open spec fn bursts_in(rounds: Seq<Seq<Seq<int>>>) -> nat
    decreases rounds.len(),
{
    if rounds.len() == 0 {
        0
    } else {
        bursts_in(rounds.drop_last()) + rounds.last().len()
    }
}

/// Every burst of every round is complete against `n` slots.
pub open spec fn all_bursts(rounds: Seq<Seq<Seq<int>>>, n: int) -> bool {
    forall|r: int, b: int|
        0 <= r < rounds.len() && 0 <= b < rounds[r].len() ==> is_burst(#[trigger] rounds[r][b], n)
}

/// `n` slots whose counters are all zero, as at process start.
pub open spec fn fresh(n: nat) -> Seq<nat> {
    Seq::new(n, |i: int| 0nat)
}

/// The aggregate law: the counters sum to one burst per recorded iteration.
pub open spec fn balanced(c: Seq<nat>, iterations: int) -> bool {
    total(c) == iterations * BURST_SIZE as int
}

/// `b` holds, slot for slot, at least what `a` holds.
pub open spec fn no_smaller(a: Seq<nat>, b: Seq<nat>) -> bool {
    a.len() == b.len() && forall|i: int| 0 <= i < a.len() ==> #[trigger] a[i] <= b[i]
}

proof fn lemma_total_update(c: Seq<nat>, i: int, v: nat)
    requires
        0 <= i < c.len(),
    ensures
        total(c.update(i, v)) == total(c) - c[i] + v,
    decreases c.len(),
{
    let d = c.update(i, v);
    if i == c.len() - 1 {
        assert(d.drop_last() =~= c.drop_last());
    } else {
        assert(d.drop_last() =~= c.drop_last().update(i, v));
        lemma_total_update(c.drop_last(), i, v);
    }
}

/// Incrementing in-range slots raises the total by the number of increments,
/// keeps the number of slots, and lowers no counter.
pub proof fn lemma_hits_add_up(c: Seq<nat>, picks: Seq<int>)
    requires
        forall|k: int| 0 <= k < picks.len() ==> 0 <= #[trigger] picks[k] < c.len(),
    ensures
        total(hit_all(c, picks)) == total(c) + picks.len(),
        no_smaller(c, hit_all(c, picks)),
    decreases picks.len(),
{
    if picks.len() > 0 {
        let p = picks.drop_last();
        assert forall|k: int| 0 <= k < p.len() implies 0 <= #[trigger] p[k] < c.len() by {
            assert(p[k] == picks[k]);
        }
        lemma_hits_add_up(c, p);
        let d = hit_all(c, p);
        let i = picks.last();
        assert(0 <= i < c.len()) by {
            assert(picks[picks.len() - 1] == i);
        }
        lemma_total_update(d, i, d[i] + 1);
    }
}

/// Complete bursts against `c`'s slots raise the total by `BURST_SIZE` each,
/// keep the number of slots, and lower no counter.
pub proof fn lemma_bursts_add_up(c: Seq<nat>, bursts: Seq<Seq<int>>)
    requires
        forall|b: int| 0 <= b < bursts.len() ==> is_burst(#[trigger] bursts[b], c.len() as int),
    ensures
        total(after_bursts(c, bursts)) == total(c) + bursts.len() * BURST_SIZE as int,
        no_smaller(c, after_bursts(c, bursts)),
    decreases bursts.len(),
{
    if bursts.len() > 0 {
        let front = bursts.drop_last();
        assert forall|b: int| 0 <= b < front.len() implies is_burst(#[trigger] front[b], c.len() as int) by {
            assert(front[b] == bursts[b]);
        }
        lemma_bursts_add_up(c, front);
        let d = after_bursts(c, front);
        let last = bursts.last();
        assert(is_burst(bursts[bursts.len() - 1], c.len() as int));
        lemma_hits_add_up(d, last);
        assert(total(after_bursts(c, bursts)) == total(c) + front.len() * BURST_SIZE as int + BURST_SIZE as int);
        assert(front.len() * BURST_SIZE as int + BURST_SIZE as int == bursts.len() * BURST_SIZE as int) by (nonlinear_arith)
            requires
                front.len() + 1 == bursts.len(),
        ;
    }
}

/// A round of complete bursts, started from balanced counters, ends balanced:
/// the counters then sum to exactly `BURST_SIZE` times the iteration count,
/// grown by the number of bursts, and no counter has gone down.
pub proof fn lemma_round_keeps_balance(c: Seq<nat>, iterations: nat, bursts: Seq<Seq<int>>)
    requires
        balanced(c, iterations as int),
        forall|b: int| 0 <= b < bursts.len() ==> is_burst(#[trigger] bursts[b], c.len() as int),
    ensures
        balanced(after_bursts(c, bursts), (iterations + bursts.len()) as int),
        no_smaller(c, after_bursts(c, bursts)),
{
    lemma_bursts_add_up(c, bursts);
    assert(iterations * BURST_SIZE as int + bursts.len() * BURST_SIZE as int == (iterations + bursts.len())
        * BURST_SIZE as int) by (nonlinear_arith);
}

/// Rounds run one after another from fresh counters: after every round, not
/// only the last, the counters are balanced against the iteration count,
/// which is never reset and never goes down, and no counter goes down.
pub proof fn lemma_rounds_keep_balance(n: nat, rounds: Seq<Seq<Seq<int>>>)
    requires
        all_bursts(rounds, n as int),
    ensures
        forall|j: int| 0 <= j <= rounds.len() ==> balanced(
            #[trigger] after_rounds(fresh(n), rounds.take(j)),
            bursts_in(rounds.take(j)) as int,
        ),
        forall|j: int, k: int| 0 <= j <= k <= rounds.len() ==> bursts_in(#[trigger] rounds.take(j))
            <= bursts_in(#[trigger] rounds.take(k)),
        forall|j: int, k: int| 0 <= j <= k <= rounds.len() ==> no_smaller(
            #[trigger] after_rounds(fresh(n), rounds.take(j)),
            #[trigger] after_rounds(fresh(n), rounds.take(k)),
        ),
    decreases rounds.len(),
{
    let zero = fresh(n);
    lemma_zero_total(n);
    if rounds.len() == 0 {
        assert(rounds.take(0) =~= rounds);
    } else {
        let front = rounds.drop_last();
        assert(all_bursts(front, n as int)) by {
            assert forall|r: int, b: int| 0 <= r < front.len() && 0 <= b < front[r].len() implies is_burst(
                #[trigger] front[r][b],
                n as int,
            ) by {
                assert(front[r] == rounds[r]);
            }
        }
        lemma_rounds_keep_balance(n, front);
        let m = rounds.len() as int;
        assert forall|j: int| 0 <= j < m implies #[trigger] rounds.take(j) == front.take(j) by {
            assert(rounds.take(j) =~= front.take(j));
        }
        assert(rounds.take(m) =~= rounds);
        assert(rounds.drop_last() =~= front);
        assert(front.take(m - 1) =~= front);
        let before = after_rounds(zero, front);
        lemma_prefix_state(n, front);
        assert(forall|b: int| 0 <= b < rounds.last().len() ==> is_burst(#[trigger] rounds.last()[b], before.len() as int)) by {
            assert forall|b: int| 0 <= b < rounds.last().len() implies is_burst(#[trigger] rounds.last()[b], before.len() as int) by {
                assert(is_burst(rounds[m - 1][b], n as int));
            }
        }
        lemma_round_keeps_balance(before, bursts_in(front), rounds.last());
        assert(after_rounds(zero, rounds) == after_bursts(before, rounds.last()));
        assert(bursts_in(rounds) == bursts_in(front) + rounds.last().len());
        assert forall|j: int, k: int| 0 <= j <= k <= rounds.len() implies no_smaller(
            #[trigger] after_rounds(zero, rounds.take(j)),
            #[trigger] after_rounds(zero, rounds.take(k)),
        ) by {
            if k == m {
                if j < m {
                    let a = after_rounds(zero, front.take(j));
                    assert(no_smaller(a, before));
                    assert(no_smaller(before, after_rounds(zero, rounds)));
                }
            }
        }
    }
}

proof fn lemma_zero_total(n: nat)
    ensures
        total(fresh(n)) == 0,
    decreases n,
{
    if n > 0 {
        assert(fresh(n).drop_last() =~= fresh((n - 1) as nat));
        lemma_zero_total((n - 1) as nat);
    }
}

proof fn lemma_prefix_state(n: nat, rounds: Seq<Seq<Seq<int>>>)
    requires
        all_bursts(rounds, n as int),
    ensures
        after_rounds(fresh(n), rounds).len() == n,
    decreases rounds.len(),
{
    if rounds.len() > 0 {
        let front = rounds.drop_last();
        assert(all_bursts(front, n as int)) by {
            assert forall|r: int, b: int| 0 <= r < front.len() && 0 <= b < front[r].len() implies is_burst(
                #[trigger] front[r][b],
                n as int,
            ) by {
                assert(front[r] == rounds[r]);
            }
        }
        lemma_prefix_state(n, front);
        let before = after_rounds(fresh(n), front);
        assert forall|b: int| 0 <= b < rounds.last().len() implies is_burst(#[trigger] rounds.last()[b], before.len() as int) by {
            assert(is_burst(rounds[rounds.len() - 1][b], n as int));
        }
        lemma_bursts_add_up(before, rounds.last());
    }
}

} // verus!
