//! GPU sampling needs a vendor library; without one nothing is sampled.
//! What the library decides of a sample (how per-device process lists fold
//! into one record per process) is in `merge`.

use vstd::prelude::*;

pub mod laws;
pub mod merge;

verus! {

/// The GPU source used when no vendor library is available: it never
/// yields a sample.
#[derive(Debug, Default)]
pub struct NoGpuProvider;

} // verus!
