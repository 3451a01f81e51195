use vstd::prelude::*;

pub mod app;
pub mod classifier;
pub mod collector;
pub mod decimal;
pub mod enrich;
pub mod gpu;
pub mod inspect;
pub mod inspect_laws;
pub mod listing;
pub mod listing_laws;
pub mod order;
pub mod owner_laws;
pub mod path;
pub mod process;
pub mod provenance;
pub mod ros2_probe;
pub mod runtime;
pub mod task;
pub mod ui;
pub mod units;
pub mod split;
pub mod text;
pub mod time;

verus! {

} // verus!
