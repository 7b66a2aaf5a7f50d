//! A log-structured key-value store engine: the index of live keys, replay of the
//! command logs, dead-byte accounting and compaction planning, verified with Verus.
use vstd::prelude::*;

pub mod command;
pub mod index;
pub mod replay;
pub mod engine;
pub mod gens;
pub mod laws;

verus! {

} // verus!
