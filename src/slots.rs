//! The shared slot array: counters that workers increment atomically, each
//! tagged with the position it was built at.
use std::sync::atomic::AtomicU32;
use std::sync::atomic::Ordering;
use vstd::prelude::*;

verus! {

/// A fatal condition detected by the validator.
#[derive(Debug, Clone, Copy, PartialEq, Eq, Structural)]
pub enum Fault {
    /// The slot reached through `index` carries the identity `found`.
    IdentityCorruption { index: usize, found: u32 },
    /// After a round, the counters summed to `total` while `iterations`
    /// bursts were recorded.
    AggregateMismatch { total: u128, iterations: usize },
}

/// One counter of the shared array, tagged with its own position (kept in 32
/// bits, so positions are told apart modulo 2^32).
pub struct Slot {
    counter: AtomicU32,
    me: u32,
}

/// The fixed-length array of slots that all workers share.
pub struct SlotArray {
    slots: Vec<Slot>,
}

/// The identity a slot at position `index` carries: the position truncated
/// to 32 bits.
pub open spec fn identity_of(index: usize) -> u32 {
    index as u32
}

/// Whether every identity in `ids` equals its position's identity.
pub open spec fn identities_match(ids: Seq<u32>) -> bool {
    forall|i: int| 0 <= i < ids.len() ==> #[trigger] ids[i] == identity_of(i as usize)
}

impl SlotArray {
    /// The identity stored in each slot, in order.
    pub closed spec fn identities(&self) -> Seq<u32> {
        self.slots@.map_values(|s: Slot| s.me)
    }

    /// Every slot's identity is that of its position.
    pub open spec fn wf(&self) -> bool {
        identities_match(self.identities())
    }

    /// Builds `count` slots with zeroed counters, slot `i` carrying the
    /// identity of position `i`.
    pub fn new(count: usize) -> (r: SlotArray)
        ensures
            r.identities().len() == count,
            r.wf(),
    {
        let mut slots: Vec<Slot> = Vec::with_capacity(count);
        let mut i: usize = 0;
        while i < count
            invariant
                i <= count,
                slots@.len() == i,
                forall|j: int| 0 <= j < i ==> #[trigger] slots@[j].me == identity_of(j as usize),
            decreases count - i,
        {
            slots.push(Slot { counter: AtomicU32::new(0), me: i as u32 });
            i = i + 1;
        }
        let r = SlotArray { slots };
        assert(forall|j: int| 0 <= j < count ==> #[trigger] r.identities()[j] == r.slots@[j].me);
        r
    }

    /// Lays out a block of `bytes` bytes as a slot array.
    pub fn from_block_bytes(bytes: usize) -> (r: Result<SlotArray, crate::layout::LayoutError>)
        ensures
            match crate::layout::layout_of_bytes(bytes as int) {
                Ok(n) => r matches Ok(a) && a.identities().len() == n && n > 0 && a.wf(),
                Err(e) => r matches Err(f) && f == e,
            },
    {
        match crate::layout::slots_for_bytes(bytes) {
            Ok(count) => Ok(SlotArray::new(count)),
            Err(e) => Err(e),
        }
    }

    /// Number of slots.
    pub fn len(&self) -> (r: usize)
        ensures
            r == self.identities().len(),
    {
        self.slots.len()
    }

    /// The identity stored in slot `index`.
    pub fn identity(&self, index: usize) -> (r: u32)
        requires
            index < self.identities().len(),
        ensures
            r == self.identities()[index as int],
    {
        self.slots[index].me
    }

    /// The current value of slot `index`'s counter.
    pub fn counter(&self, index: usize) -> (r: u32)
        requires
            index < self.identities().len(),
    {
        self.slots[index].counter.load(Ordering::Acquire)
    }

    /// Overwrites the identity of slot `index`, to check that corruption is
    /// detected.
    pub fn corrupt_identity(&mut self, index: usize, value: u32)
        requires
            index < old(self).identities().len(),
        ensures
            final(self).identities() == old(self).identities().update(index as int, value),
    {
        let ghost before = self.identities();
        let c = self.slots[index].counter.load(Ordering::Acquire);
        self.slots.set(index, Slot { counter: AtomicU32::new(c), me: value });
        assert(self.identities() =~= before.update(index as int, value));
    }

    /// Checks that slot `index` carries the identity of its position.
    pub fn check_identity(&self, index: usize) -> (r: Result<(), Fault>)
        requires
            index < self.identities().len(),
        ensures
            self.identities()[index as int] == identity_of(index) ==> r == Ok::<(), Fault>(()),
            self.identities()[index as int] != identity_of(index) ==> r == Err::<(), Fault>(
                Fault::IdentityCorruption { index, found: self.identities()[index as int] },
            ),
    {
        let found = self.slots[index].me;
        if found == index as u32 {
            Ok(())
        } else {
            Err(Fault::IdentityCorruption { index, found })
        }
    }

    /// Increments slot `index`'s counter, then checks its identity.
    pub fn hit(&self, index: usize) -> (r: Result<(), Fault>)
        requires
            index < self.identities().len(),
        ensures
            self.identities()[index as int] == identity_of(index) ==> r == Ok::<(), Fault>(()),
            self.identities()[index as int] != identity_of(index) ==> r == Err::<(), Fault>(
                Fault::IdentityCorruption { index, found: self.identities()[index as int] },
            ),
    {
        self.slots[index].counter.fetch_add(1, Ordering::Relaxed);
        self.check_identity(index)
    }

    /// Scans every slot and reports the first whose identity differs from
    /// that of its position.
    pub fn verify_identities(&self) -> (r: Result<(), Fault>)
        ensures
            self.wf() <==> r is Ok,
            r matches Err(f) ==> f matches Fault::IdentityCorruption { index, found }
                && index < self.identities().len()
                && found == self.identities()[index as int]
                && found != identity_of(index)
                && identities_match(self.identities().take(index as int)),
    {
        let n = self.slots.len();
        let mut i: usize = 0;
        while i < n
            invariant
                i <= n,
                n == self.identities().len(),
                identities_match(self.identities().take(i as int)),
            decreases n - i,
        {
            let r = self.check_identity(i);
            if r.is_err() {
                return r;
            }
            assert(self.identities().take(i as int + 1) =~= self.identities().take(i as int).push(
                self.identities()[i as int],
            ));
            i = i + 1;
        }
        assert(self.identities().take(n as int) =~= self.identities());
        Ok(())
    }
}

} // verus!
