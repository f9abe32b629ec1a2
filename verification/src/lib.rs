//! A small actor system: cells with a packed scheduling/lifecycle state,
//! supervision trees, a run queue and one-shot futures.
use vstd::prelude::*;

pub mod actor;
pub mod arc;
pub mod asynchronous;
pub mod cell;
pub mod future;
pub mod laws;
pub mod queue;
pub mod runtime;
pub mod state;
pub mod system;

verus! {

} // verus!
