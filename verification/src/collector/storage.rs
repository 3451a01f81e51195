use vstd::prelude::*;

use crate::collector::memory::{sat_mul, saturating_mul};

verus! {

/// Capacity and use of the filesystem holding a path.
#[derive(Debug, Clone, PartialEq, Eq)]
pub struct StorageSnapshot {
    pub target: String,
    pub total_bytes: u64,
    pub free_bytes: u64,
    pub available_bytes: u64,
}

impl StorageSnapshot {
    /// Bytes in use: the total minus the free bytes, never below zero.
    pub fn used_bytes(&self) -> (r: u64)
        ensures
            r == if self.total_bytes >= self.free_bytes {
                (self.total_bytes - self.free_bytes) as u64
            } else {
                0u64
            },
    {
        self.total_bytes.saturating_sub(self.free_bytes)
    }
}

/// The byte count of a number of filesystem blocks, at most `u64::MAX`: the
/// fragment size when the filesystem gives one, else the block size.
pub fn block_bytes(blocks: u64, fragment_size: u64, block_size: u64) -> (r: u64)
    ensures
        r == sat_mul(blocks, if fragment_size == 0 { block_size } else { fragment_size }),
{
    let size = if fragment_size == 0 { block_size } else { fragment_size };
    saturating_mul(blocks, size)
}

} // verus!
