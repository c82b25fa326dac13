//! Events, effects and the state carried through the simulation.
use vstd::prelude::*;

verus! {

/// Simulation time, in integer ticks.
pub type Time = u64;

/// Identifies a process. Assigned in order of creation, never reused.
pub type ProcessId = usize;

/// Identifies a resource. Assigned in order of creation, never reused.
pub type ResourceId = usize;

/// Identifies a store. Assigned in order of creation, never reused.
pub type StoreId = usize;

/// The instruction a process hands to the engine each time it yields.
#[derive(Debug, Clone, Copy, PartialEq, Eq, Structural)]
pub enum Effect {
    /// Resume the yielding process after the given delay.
    TimeOut(Time),
    /// Resume `process` after the delay `time`.
    Event { time: Time, process: ProcessId },
    /// Acquire one unit of a resource.
    Request(ResourceId),
    /// Give back one unit of a resource.
    Release(ResourceId),
    /// Stay suspended until another event addressed to this process arrives.
    Wait,
    /// Resume the yielding process at once; used to record a state.
    Trace,
    /// Deposit the yielded state into a store.
    Push(StoreId),
    /// Take the oldest state out of a store.
    Pop(StoreId),
}

/// The value a process yields: it carries an [`Effect`] and says whether the
/// yield is recorded in the trace. Applications attach their own data to it.
pub trait SimState {
    /// The effect the state carries.
    spec fn effect_of(&self) -> Effect;

    /// Whether a yield of the state is recorded in the trace.
    spec fn logs(&self) -> bool;

    fn get_effect(&self) -> (effect: Effect)
        ensures
            effect == self.effect_of(),
    ;

    fn set_effect(&mut self, effect: Effect)
        ensures
            final(self).effect_of() == effect,
    ;

    fn should_log(&self) -> (log: bool)
        ensures
            log == self.logs(),
    ;
}

impl SimState for Effect {
    open spec fn effect_of(&self) -> Effect {
        *self
    }

    open spec fn logs(&self) -> bool {
        true
    }

    fn get_effect(&self) -> (effect: Effect) {
        *self
    }

    fn set_effect(&mut self, effect: Effect) {
        *self = effect;
    }

    fn should_log(&self) -> (log: bool) {
        true
    }
}

/// An atom of the timeline: at `time`, resume `process` with `state`.
#[derive(Debug, Clone, Copy)]
pub struct Event<T> {
    pub time: Time,
    pub process: ProcessId,
    pub state: T,
}

impl<T> Event<T> {
    pub fn new(time: Time, process: ProcessId, state: T) -> (e: Event<T>)
        ensures
            e == (Event { time, process, state }),
    {
        Event { time, process, state }
    }

    pub fn time(&self) -> (t: Time)
        ensures
            t == self.time,
    {
        self.time
    }

    pub fn set_time(&mut self, time: Time)
        ensures
            *final(self) == (Event { time, ..*old(self) }),
    {
        self.time = time;
    }

    pub fn process(&self) -> (p: ProcessId)
        ensures
            p == self.process,
    {
        self.process
    }

    pub fn set_process(&mut self, process: ProcessId)
        ensures
            *final(self) == (Event { process, ..*old(self) }),
    {
        self.process = process;
    }

    pub fn state(&self) -> (s: &T)
        ensures
            *s == self.state,
    {
        &self.state
    }

    pub fn state_mut(&mut self) -> (s: &mut T)
        ensures
            *s == old(self).state,
            *final(self) == (Event { state: *final(s), ..*old(self) }),
    {
        &mut self.state
    }

    pub fn set_state(&mut self, state: T)
        ensures
            *final(self) == (Event { state, ..*old(self) }),
    {
        self.state = state;
    }
}

impl<T: SimState> Event<T> {
    /// The effect that the event's state carries.
    pub fn effect(&self) -> (e: Effect)
        ensures
            e == self.state.effect_of(),
    {
        self.state.get_effect()
    }

    /// Sets the effect that the event's state carries.
    pub fn set_effect(&mut self, effect: Effect)
        ensures
            final(self).time == old(self).time,
            final(self).process == old(self).process,
            final(self).state.effect_of() == effect,
    {
        self.state.set_effect(effect)
    }
}

/// What a process is resumed with: the current time and the state of the
/// event that woke it.
#[derive(Debug, Clone)]
pub struct SimContext<T> {
    pub time: Time,
    pub state: T,
}

impl<T> SimContext<T> {
    pub fn time(&self) -> (t: Time)
        ensures
            t == self.time,
    {
        self.time
    }

    pub fn state(&self) -> (s: &T)
        ensures
            *s == self.state,
    {
        &self.state
    }
}

/// When [`crate::Simulation::run`] stops.
#[derive(Debug, Clone, Copy, PartialEq, Eq, Structural)]
pub enum EndCondition {
    /// Stop once simulation time has reached the given time.
    Time(Time),
    /// Stop once no event is scheduled.
    NoEvents,
    /// Stop once this many steps have been taken since construction.
    NSteps(usize),
}

} // verus!
