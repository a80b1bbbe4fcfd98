//! A concurrent memory-stress validator: workers hammer a block of
//! self-identifying counters with random atomic increments, and each round
//! ends by checking that no increment was lost or misdirected.
use vstd::prelude::*;

pub mod layout;
pub mod protocol;
pub mod round;
pub mod slots;
pub mod worker;

verus! {

/// Number of slot increments a worker performs between two deadline checks.
pub const BURST_SIZE: usize = 1048576;

} // verus!
