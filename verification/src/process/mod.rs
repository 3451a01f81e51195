use vstd::prelude::*;

pub mod model;
pub mod resolver;
pub mod tree;
pub mod tree_laws;

pub use model::{LimitedEnvironment, MemorySnapshot, ProcessGpuUsage, ProcessIdentity, ProcessSnapshot};

verus! {

} // verus!
