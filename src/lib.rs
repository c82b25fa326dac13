//! A discrete-event simulation engine.
//!
//! Processes are cooperative state machines that the engine resumes one at a
//! time, in the order of their scheduled events. Each resume hands back a
//! state carrying an [`Effect`], which tells the engine what to schedule next
//! or which shared resource or store to use. Simulation time is a count of
//! integer ticks whose unit the model chooses.
use vstd::prelude::*;

pub mod event;
pub mod queue;
pub mod resources;
pub mod store;
pub mod simulation;
pub mod prelude;

pub use event::{Effect, EndCondition, Event, ProcessId, ResourceId, SimContext, SimState, StoreId, Time};
pub use simulation::{Process, Resumed, SimError, Simulation};
