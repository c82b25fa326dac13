//! The items that almost every simulation uses, for a single `use`.
pub use crate::event::{Effect, EndCondition, Event, ProcessId, ResourceId, SimContext, SimState, StoreId, Time};
pub use crate::resources::{Resource, ResourceError, SimpleResource};
pub use crate::simulation::{Process, Resumed, SimError, Simulation};
pub use crate::store::Store;
