//! How a memory block of a given size is cut into slots.
use vstd::prelude::*;

verus! {

/// Bytes that one slot occupies: a 32-bit counter and a 32-bit identity.
pub const SLOT_BYTES: usize = 8;

/// Bytes in one gigabyte-equivalent unit of the configured block size.
pub const GIB_BYTES: usize = 1073741824;

/// Why a configured block cannot be laid out as a slot array.
#[derive(Debug, Clone, Copy, PartialEq, Eq, Structural)]
pub enum LayoutError {
    /// The block size in bytes does not fit in a machine word.
    BlockTooLarge,
    /// The block is smaller than one slot, so the array would be empty.
    NoSlots,
}

/// Bytes in a block of `gib` units, as a mathematical integer.
pub open spec fn block_bytes_spec(gib: int) -> int {
    gib * GIB_BYTES as int
}

/// Slots that fit in a block of `bytes` bytes.
pub open spec fn slots_in(bytes: int) -> int {
    bytes / SLOT_BYTES as int
}

/// The outcome of laying out a block of `bytes` bytes.
pub open spec fn layout_of_bytes(bytes: int) -> Result<usize, LayoutError> {
    if slots_in(bytes) == 0 {
        Err(LayoutError::NoSlots)
    } else {
        Ok(slots_in(bytes) as usize)
    }
}

/// The outcome of laying out a block of `gib` gigabyte-equivalent units.
pub open spec fn layout_of_gib(gib: int) -> Result<usize, LayoutError> {
    if block_bytes_spec(gib) > usize::MAX as int {
        Err(LayoutError::BlockTooLarge)
    } else {
        layout_of_bytes(block_bytes_spec(gib))
    }
}

/// Size in bytes of a block of `gib` units, or `BlockTooLarge` when it
/// exceeds a machine word.
pub fn block_bytes_for_gib(gib: usize) -> (r: Result<usize, LayoutError>)
    ensures
        block_bytes_spec(gib as int) <= usize::MAX as int ==> r == Ok::<usize, LayoutError>(
            block_bytes_spec(gib as int) as usize,
        ),
        block_bytes_spec(gib as int) > usize::MAX as int ==> r == Err::<usize, LayoutError>(
            LayoutError::BlockTooLarge,
        ),
{
    let limit: usize = usize::MAX / GIB_BYTES;
    if gib > limit {
        assert(gib as int * GIB_BYTES as int > usize::MAX as int) by (nonlinear_arith)
            requires
                gib as int > limit as int,
                limit as int == usize::MAX as int / GIB_BYTES as int,
                GIB_BYTES as int > 0,
        ;
        Err(LayoutError::BlockTooLarge)
    } else {
        assert(gib as int * GIB_BYTES as int <= usize::MAX as int) by (nonlinear_arith)
            requires
                gib as int <= limit as int,
                limit as int == usize::MAX as int / GIB_BYTES as int,
                GIB_BYTES as int > 0,
        ;
        Ok(gib * GIB_BYTES)
    }
}

/// Number of slots a block of `bytes` bytes holds; a block smaller than one
/// slot is refused.
pub fn slots_for_bytes(bytes: usize) -> (r: Result<usize, LayoutError>)
    ensures
        r == layout_of_bytes(bytes as int),
{
    let count: usize = bytes / SLOT_BYTES;
    if count == 0 {
        Err(LayoutError::NoSlots)
    } else {
        Ok(count)
    }
}

/// Number of slots for a configured block of `gib` gigabyte-equivalent units.
pub fn slot_count_for_gib(gib: usize) -> (r: Result<usize, LayoutError>)
    ensures
        r == layout_of_gib(gib as int),
{
    match block_bytes_for_gib(gib) {
        Ok(bytes) => slots_for_bytes(bytes),
        Err(e) => Err(e),
    }
}

/// A block that lays out as `count` slots holds them all: the slots'
/// footprint never exceeds the block, and at least one slot fits.
pub proof fn lemma_layout_fits_block(bytes: int, count: usize)
    requires
        0 <= bytes <= usize::MAX as int,
        layout_of_bytes(bytes) == Ok::<usize, LayoutError>(count),
    ensures
        count as int * SLOT_BYTES as int <= bytes,
        1 <= count,
{
    assert((bytes / 8) * 8 <= bytes) by (nonlinear_arith)
        requires
            0 <= bytes,
    ;
}

/// A configuration of `gib` units that lays out as `count` slots has a block
/// no smaller than the slots' footprint, and at least one slot.
pub proof fn lemma_config_fits_block(gib: usize, count: usize)
    requires
        layout_of_gib(gib as int) == Ok::<usize, LayoutError>(count),
    ensures
        count as int * SLOT_BYTES as int <= block_bytes_spec(gib as int),
        1 <= count,
{
    assert(0 <= gib as int * GIB_BYTES as int) by (nonlinear_arith);
    lemma_layout_fits_block(block_bytes_spec(gib as int), count);
}

/// Laying out the same configuration twice gives the same slot count.
pub proof fn lemma_layout_deterministic(gib: usize, r1: Result<usize, LayoutError>, r2: Result<usize, LayoutError>)
    requires
        r1 == layout_of_gib(gib as int),
        r2 == layout_of_gib(gib as int),
    ensures
        r1 == r2,
{
}

} // verus!
