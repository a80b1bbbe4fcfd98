//! What one worker does: bursts of randomly addressed increments, each
//! checked against the slot's identity, between deadline checks.
use crate::protocol::is_burst;
use crate::slots::identity_of;
use crate::slots::Fault;
use crate::slots::SlotArray;
use crate::BURST_SIZE;
use rand::rngs::ThreadRng;
use rand::Rng;
use std::sync::atomic::AtomicUsize;
use std::sync::atomic::Ordering;
use std::time::Instant;
use vstd::prelude::*;

verus! {

#[verifier::external_type_specification]
#[verifier::external_body]
pub struct ExThreadRng(rand::rngs::ThreadRng);

#[verifier::external_type_specification]
#[verifier::external_body]
pub struct ExInstant(std::time::Instant);

/// Relies on rand's `Rng::gen_range` over `0..bound`: a value below `bound`,
/// drawn from the worker's own generator (it panics on an empty range).
#[verifier::external_body]
fn random_index(rng: &mut ThreadRng, bound: usize) -> (r: usize)
    requires
        bound > 0,
    ensures
        r < bound,
{
    rng.gen_range(0..bound)
}

/// Relies on std's `Instant::now`: the current instant.
#[verifier::external_body]
fn now() -> Instant {
    Instant::now()
}

/// Relies on std's ordering of instants: whether `a` comes before `b`.
#[verifier::external_body]
fn is_before(a: &Instant, b: &Instant) -> bool {
    a < b
}

/// Whether an error of a worker is a real identity mismatch: the slot reached
/// through `index` exists and carries an identity other than that of `index`.
pub open spec fn reports_corruption(slots: SlotArray, r: Result<(), Fault>) -> bool {
    r matches Err(f) ==> f matches Fault::IdentityCorruption { index, found }
        && index < slots.identities().len()
        && found == slots.identities()[index as int]
        && found != identity_of(index)
}

/// No slot carries the identity of its own position.
pub open spec fn no_slot_matches(slots: SlotArray) -> bool {
    forall|i: int|
        0 <= i < slots.identities().len() ==> #[trigger] slots.identities()[i] != identity_of(
            i as usize,
        )
}

/// Records one burst in `iterations`, then increments `BURST_SIZE` randomly
/// chosen slots, checking each one's identity right after its increment.
/// Stops at the first mismatch. Also hands back the positions it incremented,
/// which on success form a complete burst.
pub fn run_burst(slots: &SlotArray, iterations: &AtomicUsize, rng: &mut ThreadRng) -> (r: (
    Result<(), Fault>,
    Ghost<Seq<int>>,
))
    requires
        slots.identities().len() > 0,
    ensures
        slots.wf() ==> r.0 is Ok,
        no_slot_matches(*slots) ==> r.0 is Err,
        reports_corruption(*slots, r.0),
        r.0 is Ok ==> is_burst(r.1@, slots.identities().len() as int),
{
    iterations.fetch_add(1, Ordering::Relaxed);
    let n = slots.len();
    let mut k: usize = 0;
    let ghost mut picks: Seq<int> = Seq::empty();
    while k < BURST_SIZE
        invariant
            n == slots.identities().len(),
            n > 0,
            k <= BURST_SIZE,
            k > 0 ==> !no_slot_matches(*slots),
            picks.len() == k,
            forall|j: int| 0 <= j < picks.len() ==> 0 <= #[trigger] picks[j] < n,
        decreases BURST_SIZE - k,
    {
        let index = random_index(rng, n);
        let r = slots.hit(index);
        proof {
            picks = picks.push(index as int);
        }
        if r.is_err() {
            return (r, Ghost(picks));
        }
        assert(slots.identities()[index as int] == identity_of(index));
        k = k + 1;
    }
    (Ok(()), Ghost(picks))
}

/// One step of a worker, given whether the clock is still before the
/// deadline: if it is, run one burst and answer `Ok(true)`, or the identity
/// mismatch that stopped it; if not, do nothing and answer `Ok(false)`.
pub fn step_at(slots: &SlotArray, iterations: &AtomicUsize, before: bool, rng: &mut ThreadRng) -> (r: Result<bool, Fault>)
    requires
        slots.identities().len() > 0,
    ensures
        !before ==> r == Ok::<bool, Fault>(false),
        before ==> r != Ok::<bool, Fault>(false),
        before && slots.wf() ==> r == Ok::<bool, Fault>(true),
        before && no_slot_matches(*slots) ==> r is Err,
        r matches Err(f) ==> reports_corruption(*slots, Err(f)),
{
    if before {
        let (r, _) = run_burst(slots, iterations, rng);
        match r {
            Ok(()) => Ok(true),
            Err(f) => Err(f),
        }
    } else {
        Ok(false)
    }
}

/// One step of a worker: reads the clock and runs one burst while it is
/// before `finish` (see `step_at`). The deadline is only looked at between
/// bursts.
pub fn worker_step(slots: &SlotArray, iterations: &AtomicUsize, finish: &Instant, rng: &mut ThreadRng) -> (r: Result<bool, Fault>)
    requires
        slots.identities().len() > 0,
    ensures
        slots.wf() ==> r is Ok,
        r matches Err(f) ==> reports_corruption(*slots, Err(f)),
{
    let t = now();
    let before = is_before(&t, finish);
    step_at(slots, iterations, before, rng)
}

} // verus!
