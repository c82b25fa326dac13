//! The engine: simulated time, the registry of processes, the resources,
//! and the stepping loop.
use vstd::prelude::*;
use vstd::pervasive::cloned;
use crate::event::{Effect, EndCondition, Event, ProcessId, ResourceId, SimContext, SimState, StoreId, Time};
use crate::queue::{EventQueue, scheduled_into, none_before, time_ordered};
use crate::resources::{Resource, ResourceError};
use crate::store::{Store, StoreState};

verus! {

/// What a process hands back when it is resumed.
#[derive(Debug, Clone)]
pub enum Resumed<T> {
    /// The process suspended itself with this state.
    Yielded(T),
    /// The process finished; it can never be resumed again.
    Completed,
}

/// A cooperative process: a state machine that the engine resumes with a
/// context and that answers with the state it suspends on.
pub trait Process<T>: Sized {
    /// Resumed with `ctx`, `self` may become `next` and answer `out`. Left
    /// as it is, an implementation promises nothing.
    open spec fn resumes(self, ctx: SimContext<T>, next: Self, out: Resumed<T>) -> bool {
        true
    }

    fn resume(&mut self, ctx: SimContext<T>) -> (out: Resumed<T>)
        ensures
            old(self).resumes(ctx, *final(self), out),
    ;
}

/// A fatal error of the simulation. Once one has occurred the simulation
/// does not move any more; what it recorded so far stays readable.
#[derive(Debug, Clone, Copy, PartialEq, Eq, Structural)]
pub enum SimError {
    /// An event named a process that was never created.
    UnknownProcess(ProcessId),
    /// An event named a process that has already completed.
    CompletedProcess(ProcessId),
    /// An effect named a resource that was never created.
    UnknownResource(ResourceId),
    /// An effect named a store that was never created.
    UnknownStore(StoreId),
    /// A resource was released more often than it was acquired.
    OverRelease(ResourceId),
    /// An event was scheduled in the past.
    PastTime(Time),
    /// A delay reached beyond the largest representable time.
    TimeOverflow,
    /// The step counter reached its largest value.
    StepOverflow,
}

/// The abstract state of a simulation.
pub struct SimulationState<T, P, R> {
    pub now: Time,
    pub steps: nat,
    /// Future events, in the order they will be delivered.
    pub pending: Seq<Event<T>>,
    /// Recorded yields: the event that resumed the process and the state it
    /// yielded.
    pub trace: Seq<(Event<T>, T)>,
    /// One slot per process; `None` once it has completed.
    pub processes: Seq<Option<P>>,
    pub resources: Seq<R>,
    pub stores: Seq<StoreState<T>>,
    pub failure: Option<SimError>,
}

/// `after` is `before` with `e`, if there is one, scheduled into it.
pub open spec fn scheduled_opt<T>(before: Seq<Event<T>>, after: Seq<Event<T>>, e: Option<Event<T>>) -> bool {
    match e {
        Some(e) => scheduled_into(before, after, e),
        None => after == before,
    }
}

/// `e`, if there is one, is resumed at `t`.
pub open spec fn resumes_at<T>(e: Option<Event<T>>, t: Time) -> bool {
    e matches Some(x) ==> x.time == t
}

/// `e`, if there is one, moved to time `t`.
pub open spec fn moved_to<T>(e: Option<Event<T>>, t: Time) -> Option<Event<T>> {
    match e {
        Some(x) => Some(Event { time: t, ..x }),
        None => None,
    }
}

/// The effect of a delay of `dt` that resumes `target` with `y`.
pub open spec fn delayed<T, P, R>(
    s: SimulationState<T, P, R>,
    t: SimulationState<T, P, R>,
    dt: Time,
    target: ProcessId,
    y: T,
    r: Result<(), SimError>,
) -> bool {
    &&& t.resources == s.resources
    &&& t.stores == s.stores
    &&& if s.now + dt <= Time::MAX {
        &&& r is Ok
        &&& scheduled_into(s.pending, t.pending, Event { time: (s.now + dt) as Time, process: target, state: y })
    } else {
        &&& r == Err::<(), SimError>(SimError::TimeOverflow)
        &&& t.pending == s.pending
    }
}

/// How the engine's state changes when process `p` yields `y` carrying
/// `effect`, with the result `r`.
pub open spec fn applied<T: Clone, P, R: Resource<T>>(
    s: SimulationState<T, P, R>,
    t: SimulationState<T, P, R>,
    p: ProcessId,
    y: T,
    effect: Effect,
    r: Result<(), SimError>,
) -> bool {
    let here = Event { time: s.now, process: p, state: y };
    &&& t.now == s.now
    &&& t.steps == s.steps
    &&& t.trace == s.trace
    &&& t.processes == s.processes
    &&& t.resources.len() == s.resources.len()
    &&& t.stores.len() == s.stores.len()
    &&& match r {
        Ok(_) => t.failure == s.failure,
        Err(e) => t.failure == Some(e),
    }
    &&& match effect {
        Effect::TimeOut(dt) => delayed(s, t, dt, p, y, r),
        Effect::Event { time, process } => delayed(s, t, time, process, y, r),
        Effect::Request(id) => {
            &&& t.stores == s.stores
            &&& if id < s.resources.len() {
                &&& r is Ok
                &&& forall|i: int| 0 <= i < s.resources.len() && i != id ==> t.resources[i] == s.resources[i]
                &&& exists|g: Option<Event<T>>|
                    {
                        &&& s.resources[id as int].allocates(here, t.resources[id as int], g)
                        &&& scheduled_opt(s.pending, t.pending, moved_to(g, s.now))
                    }
            } else {
                &&& r == Err::<(), SimError>(SimError::UnknownResource(id))
                &&& t.resources == s.resources
                &&& t.pending == s.pending
            }
        },
        Effect::Release(id) => {
            &&& t.stores == s.stores
            &&& if id < s.resources.len() {
                &&& forall|i: int| 0 <= i < s.resources.len() && i != id ==> t.resources[i] == s.resources[i]
                &&& exists|yc: T, handed: Result<Option<Event<T>>, ResourceError>|
                    {
                        &&& cloned(y, yc)
                        &&& s.resources[id as int].releases(here, t.resources[id as int], handed)
                        &&& match handed {
                            Ok(g) => {
                                &&& r is Ok
                                &&& exists|mid: Seq<Event<T>>|
                                    scheduled_opt(s.pending, mid, moved_to(g, s.now))
                                        && scheduled_into(mid, t.pending, Event { time: s.now, process: p, state: yc })
                            },
                            Err(_) => {
                                &&& r == Err::<(), SimError>(SimError::OverRelease(id))
                                &&& t.pending == s.pending
                            },
                        }
                    }
            } else {
                &&& r == Err::<(), SimError>(SimError::UnknownResource(id))
                &&& t.resources == s.resources
                &&& t.pending == s.pending
            }
        },
        Effect::Wait => {
            &&& r is Ok
            &&& t.resources == s.resources
            &&& t.stores == s.stores
            &&& t.pending == s.pending
        },
        Effect::Trace => {
            &&& r is Ok
            &&& t.resources == s.resources
            &&& t.stores == s.stores
            &&& scheduled_into(s.pending, t.pending, here)
        },
        Effect::Push(id) => {
            &&& t.resources == s.resources
            &&& if id < s.stores.len() {
                &&& r is Ok
                &&& forall|i: int| 0 <= i < s.stores.len() && i != id ==> t.stores[i] == s.stores[i]
                &&& exists|yc: T, c: Option<Event<T>>, pr: Option<Event<T>>, mid: Seq<Event<T>>|
                    {
                        &&& cloned(y, yc)
                        &&& (t.stores[id as int], (c, pr)) == s.stores[id as int].push(y, Event { time: s.now, process: p, state: yc })
                        &&& scheduled_opt(s.pending, mid, c)
                        &&& scheduled_opt(mid, t.pending, pr)
                    }
            } else {
                &&& r == Err::<(), SimError>(SimError::UnknownStore(id))
                &&& t.stores == s.stores
                &&& t.pending == s.pending
            }
        },
        Effect::Pop(id) => {
            &&& t.resources == s.resources
            &&& if id < s.stores.len() {
                &&& r is Ok
                &&& forall|i: int| 0 <= i < s.stores.len() && i != id ==> t.stores[i] == s.stores[i]
                &&& exists|c: Option<Event<T>>, pr: Option<Event<T>>, mid: Seq<Event<T>>|
                    {
                        &&& (t.stores[id as int], (c, pr)) == s.stores[id as int].pop(here)
                        &&& scheduled_opt(s.pending, mid, c)
                        &&& scheduled_opt(mid, t.pending, pr)
                    }
            } else {
                &&& r == Err::<(), SimError>(SimError::UnknownStore(id))
                &&& t.stores == s.stores
                &&& t.pending == s.pending
            }
        },
    }
}

/// Whether `until` holds in state `s`.
pub open spec fn ending_reached<T, P, R>(s: SimulationState<T, P, R>, until: EndCondition) -> bool {
    match until {
        EndCondition::Time(t) => s.now >= t,
        EndCondition::NoEvents => s.pending.len() == 0,
        EndCondition::NSteps(n) => s.steps >= n,
    }
}

/// One step from `a` to `b` with the result `r`: the next event is
/// delivered, and its process either completes or yields a state whose
/// effect is applied. Nothing moves once a failure is latched, and nothing
/// moves while no event is pending.
pub open spec fn stepped<T: SimState + Clone, P: Process<T>, R: Resource<T>>(
    a: SimulationState<T, P, R>,
    b: SimulationState<T, P, R>,
    r: Result<(), SimError>,
) -> bool {
    &&& b.now >= a.now
    &&& b.processes.len() == a.processes.len()
    &&& b.resources.len() == a.resources.len()
    &&& b.stores.len() == a.stores.len()
    &&& forall|i: int| 0 <= i < a.processes.len() && a.processes[i] is None ==> b.processes[i] is None
    &&& r matches Ok(_) ==> b.failure == a.failure
    &&& r matches Err(e) ==> b.failure == Some(e)
    &&& a.failure matches Some(f) ==> r == Err::<(), SimError>(f) && b == a
    &&& a.failure is None && a.pending.len() == 0 ==> r is Ok && b == a
    &&& a.failure is None && a.pending.len() > 0 && a.steps == usize::MAX ==> {
        &&& r == Err::<(), SimError>(SimError::StepOverflow)
        &&& b == (SimulationState { failure: Some(SimError::StepOverflow), ..a })
    }
    &&& a.failure is None && a.pending.len() > 0 && a.steps < usize::MAX ==> {
        let e = a.pending[0];
        let popped = SimulationState { now: e.time, steps: a.steps + 1, pending: a.pending.drop_first(), ..a };
        &&& b.now == e.time
        &&& b.steps == a.steps + 1
        &&& forall|i: int| 0 <= i < a.processes.len() && i != e.process ==> b.processes[i] == a.processes[i]
        &&& e.process >= a.processes.len() ==> {
            &&& r == Err::<(), SimError>(SimError::UnknownProcess(e.process))
            &&& b == (SimulationState { failure: Some(SimError::UnknownProcess(e.process)), ..popped })
        }
        &&& e.process < a.processes.len() && a.processes[e.process as int] is None ==> {
            &&& r == Err::<(), SimError>(SimError::CompletedProcess(e.process))
            &&& b == (SimulationState { failure: Some(SimError::CompletedProcess(e.process)), ..popped })
        }
        &&& e.process < a.processes.len() && a.processes[e.process as int] is Some ==> {
            // the process is resumed once, with the event's time and a copy
            // of its state, and what it answers decides the rest
            exists|ctx: SimContext<T>, next: P, out: Resumed<T>|
                {
                    &&& ctx.time == e.time
                    &&& cloned(e.state, ctx.state)
                    &&& a.processes[e.process as int]->Some_0.resumes(ctx, next, out)
                    // it completed: its slot becomes a tombstone
                    &&& out is Completed ==> {
                        &&& r is Ok
                        &&& b == (SimulationState { processes: a.processes.update(e.process as int, None), ..popped })
                    }
                    // it yielded `y`: the yield is recorded if `y` asks for
                    // it, then the effect `y` carries is applied
                    &&& out matches Resumed::Yielded(y) ==> {
                        &&& b.processes == a.processes.update(e.process as int, Some(next))
                        &&& y.logs() ==> {
                            &&& b.trace.len() == a.trace.len() + 1
                            &&& b.trace.drop_last() == a.trace
                            &&& b.trace.last().0 == e
                            &&& cloned(y, b.trace.last().1)
                        }
                        &&& !y.logs() ==> b.trace == a.trace
                        &&& applied(
                            SimulationState { trace: b.trace, processes: b.processes, ..popped },
                            b,
                            e.process,
                            y,
                            y.effect_of(),
                            r,
                        )
                    }
                }
        }
    }
}

/// `b` follows `a` by one step.
pub open spec fn step_of<T: SimState + Clone, P: Process<T>, R: Resource<T>>(
    a: SimulationState<T, P, R>,
    b: SimulationState<T, P, R>,
) -> bool {
    exists|r: Result<(), SimError>| stepped(a, b, r)
}

/// `trail` is a run under `until`: each state but the last is followed by
/// one step, taken because `until` did not hold, no failure was latched and
/// an event was pending there.
pub open spec fn ran<T: SimState + Clone, P: Process<T>, R: Resource<T>>(
    trail: Seq<SimulationState<T, P, R>>,
    until: EndCondition,
) -> bool {
    &&& trail.len() >= 1
    &&& forall|i: int|
        0 <= i < trail.len() - 1 ==> {
            &&& !ending_reached(#[trigger] trail[i], until)
            &&& trail[i].failure is None
            &&& trail[i].pending.len() > 0
            &&& step_of(trail[i], trail[i + 1])
        }
}

/// A discrete-event simulation whose processes yield states of type `T`,
/// whose processes are of type `P` and whose resources are of type `R`.
pub struct Simulation<T, P, R> {
    time: Time,
    steps: usize,
    processes: Vec<Option<P>>,
    future_events: EventQueue<T>,
    processed_events: Vec<(Event<T>, T)>,
    resources: Vec<R>,
    stores: Vec<Store<T>>,
    failure: Option<SimError>,
}

impl<T, P, R> View for Simulation<T, P, R> {
    type V = SimulationState<T, P, R>;

    closed spec fn view(&self) -> SimulationState<T, P, R> {
        SimulationState {
            now: self.time,
            steps: self.steps as nat,
            pending: self.future_events@,
            trace: self.processed_events@,
            processes: self.processes@,
            resources: self.resources@,
            stores: self.stores@.map_values(|s: Store<T>| s@),
            failure: self.failure,
        }
    }
}

} // verus!

verus! {

impl<T, P, R> Simulation<T, P, R> {
    pub closed spec fn wf(&self) -> bool {
        &&& self.future_events.wf()
        &&& none_before(self.future_events@, self.time)
        &&& forall|i: int| 0 <= i < self.stores@.len() ==> (#[trigger] self.stores@[i])@.wf()
    }

    /// Every store of a simulation holds no more states than its capacity,
    /// and has waiting producers only when full and waiting consumers only
    /// when empty.
    pub proof fn lemma_stores_within_capacity(&self)
        requires
            self.wf(),
        ensures
            forall|i: int| 0 <= i < self@.stores.len() ==> (#[trigger] self@.stores[i]).wf(),
            forall|i: int| 0 <= i < self@.stores.len() ==> (#[trigger] self@.stores[i]).items.len() <= self@.stores[i].capacity,
    {
    }

    /// Delivery never goes back in time. Pending events lie at or after the
    /// current time, in the order of their times; `step` delivers the first
    /// of them and moves the clock to its time, so each delivered event is
    /// no earlier than the one delivered before it.
    pub proof fn lemma_deliveries_in_time_order(&self)
        requires
            self.wf(),
        ensures
            none_before(self@.pending, self@.now),
            time_ordered(self@.pending),
            self@.pending.len() > 0 ==> self@.now <= self@.pending[0].time,
    {
        self.future_events.lemma_ordered();
    }

    /// An empty simulation at time 0.
    pub fn new() -> (s: Self)
        ensures
            s.wf(),
            s@.now == 0,
            s@.steps == 0,
            s@.pending.len() == 0,
            s@.trace.len() == 0,
            s@.processes.len() == 0,
            s@.resources.len() == 0,
            s@.stores.len() == 0,
            s@.failure.is_none(),
    {
        Simulation {
            time: 0,
            steps: 0,
            processes: Vec::new(),
            future_events: EventQueue::new(),
            processed_events: Vec::new(),
            resources: Vec::new(),
            stores: Vec::new(),
            failure: None,
        }
    }

    /// The current simulation time.
    pub fn time(&self) -> (t: Time)
        ensures
            t == self@.now,
    {
        self.time
    }

    /// The number of events delivered since construction.
    pub fn steps(&self) -> (n: usize)
        ensures
            n == self@.steps,
    {
        self.steps
    }

    /// The number of events waiting to be delivered.
    pub fn pending_events(&self) -> (n: usize)
        ensures
            n == self@.pending.len(),
    {
        self.future_events.len()
    }

    /// The fatal error that stopped the simulation, if any.
    pub fn failure(&self) -> (f: Option<SimError>)
        ensures
            f == self@.failure,
    {
        self.failure
    }

    /// The recorded yields, oldest first.
    pub fn processed_events(&self) -> (log: &[(Event<T>, T)])
        ensures
            log@ == self@.trace,
    {
        self.processed_events.as_slice()
    }

    /// Registers a process; it runs once an event names it.
    pub fn create_process(&mut self, process: P) -> (id: ProcessId)
        requires
            old(self).wf(),
        ensures
            final(self).wf(),
            id == old(self)@.processes.len(),
            final(self)@ == (SimulationState { processes: old(self)@.processes.push(Some(process)), ..old(self)@ }),
    {
        let id = self.processes.len();
        self.processes.push(Some(process));
        id
    }

    /// Registers a resource.
    pub fn create_resource(&mut self, resource: R) -> (id: ResourceId)
        requires
            old(self).wf(),
        ensures
            final(self).wf(),
            id == old(self)@.resources.len(),
            final(self)@ == (SimulationState { resources: old(self)@.resources.push(resource), ..old(self)@ }),
    {
        let id = self.resources.len();
        self.resources.push(resource);
        id
    }

    /// Registers an empty store that buffers at most `capacity` states.
    pub fn create_store(&mut self, capacity: usize) -> (id: StoreId)
        requires
            old(self).wf(),
        ensures
            final(self).wf(),
            id == old(self)@.stores.len(),
            final(self)@.stores.len() == old(self)@.stores.len() + 1,
            final(self)@.stores.last() == (StoreState::<T> {
                capacity: capacity as nat,
                items: Seq::empty(),
                consumers: Seq::empty(),
                producers: Seq::empty(),
            }),
            final(self)@ == (SimulationState { stores: final(self)@.stores, ..old(self)@ }),
            final(self)@.stores.drop_last() == old(self)@.stores,
    {
        let id = self.stores.len();
        let store = Store::new(capacity);
        self.stores.push(store);
        proof {
            assert(self.stores@.map_values(|s: Store<T>| s@).drop_last()
                =~= old(self).stores@.map_values(|s: Store<T>| s@));
            assert(store@.items =~= Seq::empty());
            assert(store@.consumers =~= Seq::empty());
            assert(store@.producers =~= Seq::empty());
        }
        id
    }

    /// The resource `id`.
    pub fn resource(&self, id: ResourceId) -> (r: &R)
        requires
            id < self@.resources.len(),
        ensures
            *r == self@.resources[id as int],
    {
        &self.resources[id]
    }

    /// The store `id`.
    pub fn store(&self, id: StoreId) -> (s: &Store<T>)
        requires
            id < self@.stores.len(),
        ensures
            s@ == self@.stores[id as int],
    {
        &self.stores[id]
    }

    /// Schedules `process` to be resumed with `state` at the absolute time
    /// `time`, which must not lie before the current time.
    pub fn schedule_event(&mut self, time: Time, process: ProcessId, state: T) -> (r: Result<(), SimError>)
        requires
            old(self).wf(),
        ensures
            final(self).wf(),
            time < old(self)@.now ==> r == Err::<(), SimError>(SimError::PastTime(time)) && final(self)@ == old(self)@,
            time >= old(self)@.now ==> r is Ok && final(self)@ == (SimulationState { pending: final(self)@.pending, ..old(self)@ })
                && scheduled_into(old(self)@.pending, final(self)@.pending, Event { time, process, state }),
    {
        if time < self.time {
            return Err(SimError::PastTime(time));
        }
        self.enqueue(Event { time, process, state });
        Ok(())
    }

    fn enqueue(&mut self, e: Event<T>)
        requires
            old(self).wf(),
            old(self)@.now <= e.time,
        ensures
            final(self).wf(),
            final(self)@ == (SimulationState { pending: final(self)@.pending, ..old(self)@ }),
            scheduled_into(old(self)@.pending, final(self)@.pending, e),
    {
        self.future_events.push(e);
        proof {
            crate::queue::lemma_schedule_keeps_bound(old(self).future_events@, self.future_events@, e, self.time);
        }
    }

    fn enqueue_opt(&mut self, e: Option<Event<T>>)
        requires
            old(self).wf(),
            resumes_at(e, old(self)@.now),
        ensures
            final(self).wf(),
            final(self)@ == (SimulationState { pending: final(self)@.pending, ..old(self)@ }),
            scheduled_opt(old(self)@.pending, final(self)@.pending, e),
    {
        match e {
            Some(e) => self.enqueue(e),
            None => {},
        }
    }

    /// Schedules `e`, if there is one, at the current time.
    fn enqueue_now(&mut self, e: Option<Event<T>>)
        requires
            old(self).wf(),
        ensures
            final(self).wf(),
            final(self)@ == (SimulationState { pending: final(self)@.pending, ..old(self)@ }),
            scheduled_opt(old(self)@.pending, final(self)@.pending, moved_to(e, old(self)@.now)),
    {
        match e {
            Some(mut e) => {
                e.time = self.time;
                self.enqueue(e);
            },
            None => {},
        }
    }

    /// Resumes `target` with `y` after the delay `dt`.
    fn enqueue_after(&mut self, dt: Time, target: ProcessId, y: T) -> (r: Result<(), SimError>)
        requires
            old(self).wf(),
        ensures
            final(self).wf(),
            final(self)@ == (SimulationState { pending: final(self)@.pending, ..old(self)@ }),
            delayed(old(self)@, final(self)@, dt, target, y, r),
    {
        if dt <= Time::MAX - self.time {
            self.enqueue(Event { time: self.time + dt, process: target, state: y });
            Ok(())
        } else {
            Err(SimError::TimeOverflow)
        }
    }
}

} // verus!

verus! {

impl<T: Clone, P, R: Resource<T>> Simulation<T, P, R> {
    /// Handles what a process yielded when `event` resumed it: `yielded` is
    /// the state, `effect` the effect it carries and `log` whether it is
    /// recorded. The record is made first, then the effect is applied at the
    /// current time.
    pub fn handle_yield(&mut self, event: Event<T>, yielded: T, effect: Effect, log: bool) -> (r: Result<(), SimError>)
        requires
            old(self).wf(),
        ensures
            final(self).wf(),
            none_before(final(self)@.pending, final(self)@.now),
            old(self)@.failure matches Some(f) ==> r == Err::<(), SimError>(f) && final(self)@ == old(self)@,
            old(self)@.failure is None ==> {
                &&& log ==> {
                    &&& final(self)@.trace.len() == old(self)@.trace.len() + 1
                    &&& final(self)@.trace.drop_last() == old(self)@.trace
                    &&& final(self)@.trace.last().0 == event
                    &&& cloned(yielded, final(self)@.trace.last().1)
                }
                &&& !log ==> final(self)@.trace == old(self)@.trace
                &&& applied(
                    SimulationState { trace: final(self)@.trace, ..old(self)@ },
                    final(self)@,
                    event.process,
                    yielded,
                    effect,
                    r,
                )
            },
    {
        if let Some(f) = self.failure {
            return Err(f);
        }
        let p = event.process;
        if log {
            let kept = yielded.clone();
            self.processed_events.push((event, kept));
        }
        let ghost s = self@;
        let now = self.time;
        let r = match effect {
            Effect::TimeOut(dt) => self.enqueue_after(dt, p, yielded),
            Effect::Event { time, process } => self.enqueue_after(time, process, yielded),
            Effect::Request(id) => {
                if id < self.resources.len() {
                    let ghost here = Event { time: now, process: p, state: yielded };
                    let granted = self.resources[id].allocate_or_enqueue(Event { time: now, process: p, state: yielded });
                    self.enqueue_now(granted);
                    proof {
                        assert(s.resources[id as int].allocates(here, self@.resources[id as int], granted));
                        assert(forall|i: int| 0 <= i < s.resources.len() && i != id ==> self@.resources[i] == s.resources[i]);
                        assert(exists|g: Option<Event<T>>|
                            {
                                &&& s.resources[id as int].allocates(here, self@.resources[id as int], g)
                                &&& scheduled_opt(s.pending, self@.pending, moved_to(g, s.now))
                            });
                    }
                    Ok(())
                } else {
                    Err(SimError::UnknownResource(id))
                }
            },
            Effect::Release(id) => {
                if id < self.resources.len() {
                    let ghost here = Event { time: now, process: p, state: yielded };
                    let copy = yielded.clone();
                    let handed = self.resources[id].release_and_schedule_next(Event { time: now, process: p, state: yielded });
                    proof {
                        assert(cloned(here.state, copy));
                        assert(s.resources[id as int].releases(here, self@.resources[id as int], handed));
                        assert(forall|i: int| 0 <= i < s.resources.len() && i != id ==> self@.resources[i] == s.resources[i]);
                    }
                    match handed {
                        Ok(next) => {
                            self.enqueue_now(next);
                            let ghost mid = self@.pending;
                            self.enqueue(Event { time: now, process: p, state: copy });
                            proof {
                                let t = self@;
                                assert(scheduled_opt(s.pending, mid, moved_to(next, s.now)));
                                assert(exists|m: Seq<Event<T>>|
                                    scheduled_opt(s.pending, m, moved_to(next, s.now))
                                        && scheduled_into(m, t.pending, Event { time: s.now, process: p, state: copy }));
                                assert(s.resources[id as int].releases(here, t.resources[id as int], handed));
                            }
                            Ok(())
                        },
                        Err(_) => {
                            proof {
                                assert(s.resources[id as int].releases(here, self@.resources[id as int], handed));
                            }
                            Err(SimError::OverRelease(id))
                        },
                    }
                } else {
                    Err(SimError::UnknownResource(id))
                }
            },
            Effect::Wait => Ok(()),
            Effect::Trace => {
                self.enqueue(Event { time: now, process: p, state: yielded });
                Ok(())
            },
            Effect::Push(id) => {
                if id < self.stores.len() {
                    let copy = yielded.clone();
                    let ghost y = yielded;
                    let (c, pr) = self.stores[id].push(yielded, Event { time: now, process: p, state: copy });
                    proof {
                        assert(self@.stores =~= s.stores.update(id as int, self.stores@[id as int]@));
                    }
                    self.enqueue_opt(c);
                    let ghost mid = self@.pending;
                    self.enqueue_opt(pr);
                    proof {
                        assert(cloned(y, copy));
                        assert((self@.stores[id as int], (c, pr)) == s.stores[id as int].push(y, Event { time: s.now, process: p, state: copy }));
                        assert(scheduled_opt(s.pending, mid, c) && scheduled_opt(mid, self@.pending, pr));
                        assert(exists|yc: T, c2: Option<Event<T>>, pr2: Option<Event<T>>, m: Seq<Event<T>>|
                            {
                                &&& cloned(y, yc)
                                &&& (self@.stores[id as int], (c2, pr2)) == s.stores[id as int].push(y, Event { time: s.now, process: p, state: yc })
                                &&& scheduled_opt(s.pending, m, c2)
                                &&& scheduled_opt(m, self@.pending, pr2)
                            });
                    }
                    Ok(())
                } else {
                    Err(SimError::UnknownStore(id))
                }
            },
            Effect::Pop(id) => {
                if id < self.stores.len() {
                    let ghost here = Event { time: now, process: p, state: yielded };
                    let (c, pr) = self.stores[id].pop(Event { time: now, process: p, state: yielded });
                    proof {
                        assert(self@.stores =~= s.stores.update(id as int, self.stores@[id as int]@));
                    }
                    self.enqueue_opt(c);
                    let ghost mid = self@.pending;
                    self.enqueue_opt(pr);
                    proof {
                        assert(scheduled_opt(s.pending, mid, c) && scheduled_opt(mid, self@.pending, pr));
                        assert(exists|c2: Option<Event<T>>, pr2: Option<Event<T>>, m: Seq<Event<T>>|
                            {
                                &&& (self@.stores[id as int], (c2, pr2)) == s.stores[id as int].pop(here)
                                &&& scheduled_opt(s.pending, m, c2)
                                &&& scheduled_opt(m, self@.pending, pr2)
                            });
                    }
                    Ok(())
                } else {
                    Err(SimError::UnknownStore(id))
                }
            },
        };
        if let Err(e) = r {
            self.failure = Some(e);
        }
        r
    }
}

} // verus!

verus! {

impl<T: SimState + Clone, P: Process<T>, R: Resource<T>> Simulation<T, P, R> {
    /// Delivers the next event: the clock moves to its time and its process
    /// is resumed with the current time and the event's state. Does nothing
    /// when no event is pending.
    pub fn step(&mut self) -> (r: Result<(), SimError>)
        requires
            old(self).wf(),
        ensures
            final(self).wf(),
            none_before(final(self)@.pending, final(self)@.now),
            stepped(old(self)@, final(self)@, r),
    {
        let ghost start = self@;
        let (event, ctx) = match self.deliver() {
            Err(e) => {
                return Err(e);
            },
            Ok(None) => {
                return Ok(());
            },
            Ok(Some(delivered)) => delivered,
        };
        let p = event.process;
        let outcome = match &mut self.processes[p] {
            Some(process) => process.resume(ctx),
            None => Resumed::Completed,
        };
        match outcome {
            Resumed::Completed => {
                self.processes[p] = None;
                proof {
                    assert(self@.processes =~= start.processes.update(p as int, None));
                }
                Ok(())
            },
            Resumed::Yielded(y) => {
                let effect = y.get_effect();
                let log = y.should_log();
                let ghost before = self@;
                let ghost target = event.process;
                let r = self.handle_yield(event, y, effect, log);
                proof {
                    let e = start.pending[0];
                    let popped = SimulationState { now: e.time, steps: start.steps + 1, pending: start.pending.drop_first(), ..start };
                    let b = self@;
                    assert(before == SimulationState { processes: before.processes, ..popped });
                    assert(SimulationState { trace: b.trace, ..before } == SimulationState { trace: b.trace, processes: b.processes, ..popped });
                    assert(b.processes[e.process as int] is Some);
                    assert(y.logs() ==> {
                        &&& b.trace.len() == start.trace.len() + 1
                        &&& b.trace.drop_last() == start.trace
                        &&& b.trace.last().0 == e
                        &&& cloned(y, b.trace.last().1)
                    });
                    assert(applied(SimulationState { trace: b.trace, processes: b.processes, ..popped }, b, e.process, y, y.effect_of(), r));
                }
                r
            },
        }
    }

    /// Takes the next event off the queue, moves the clock to its time and
    /// returns it with the context its process is resumed with: the new
    /// time and a copy of the event's state. Returns `None` when no event
    /// is pending.
    pub fn deliver(&mut self) -> (r: Result<Option<(Event<T>, SimContext<T>)>, SimError>)
        requires
            old(self).wf(),
        ensures
            final(self).wf(),
            none_before(final(self)@.pending, final(self)@.now),
            r matches Err(e) ==> final(self)@.failure == Some(e),
            old(self)@.failure matches Some(f) ==> r == Err::<Option<(Event<T>, SimContext<T>)>, SimError>(f)
                && final(self)@ == old(self)@,
            old(self)@.failure is None && old(self)@.pending.len() == 0 ==> r == Ok::<Option<(Event<T>, SimContext<T>)>, SimError>(None)
                && final(self)@ == old(self)@,
            old(self)@.failure is None && old(self)@.pending.len() > 0 && old(self)@.steps == usize::MAX ==> {
                &&& r == Err::<Option<(Event<T>, SimContext<T>)>, SimError>(SimError::StepOverflow)
                &&& final(self)@ == (SimulationState { failure: Some(SimError::StepOverflow), ..old(self)@ })
            },
            old(self)@.failure is None && old(self)@.pending.len() > 0 && old(self)@.steps < usize::MAX ==> {
                let e = old(self)@.pending[0];
                let popped = SimulationState {
                    now: e.time,
                    steps: old(self)@.steps + 1,
                    pending: old(self)@.pending.drop_first(),
                    ..old(self)@
                };
                &&& e.process >= old(self)@.processes.len() ==> {
                    &&& r == Err::<Option<(Event<T>, SimContext<T>)>, SimError>(SimError::UnknownProcess(e.process))
                    &&& final(self)@ == (SimulationState { failure: Some(SimError::UnknownProcess(e.process)), ..popped })
                }
                &&& e.process < old(self)@.processes.len() && old(self)@.processes[e.process as int] is None ==> {
                    &&& r == Err::<Option<(Event<T>, SimContext<T>)>, SimError>(SimError::CompletedProcess(e.process))
                    &&& final(self)@ == (SimulationState { failure: Some(SimError::CompletedProcess(e.process)), ..popped })
                }
                &&& e.process < old(self)@.processes.len() && old(self)@.processes[e.process as int] is Some ==> {
                    &&& final(self)@ == popped
                    &&& r matches Ok(Some((d, ctx))) && d == e && ctx.time == e.time && cloned(e.state, ctx.state)
                }
            },
    {
        if let Some(f) = self.failure {
            return Err(f);
        }
        if self.future_events.is_empty() {
            return Ok(None);
        }
        if self.steps == usize::MAX {
            self.failure = Some(SimError::StepOverflow);
            return Err(SimError::StepOverflow);
        }
        let event = match self.future_events.pop() {
            Some(e) => e,
            None => {
                return Ok(None);
            },
        };
        self.time = event.time;
        self.steps = self.steps + 1;
        let p = event.process;
        if p >= self.processes.len() {
            self.failure = Some(SimError::UnknownProcess(p));
            return Err(SimError::UnknownProcess(p));
        }
        if self.processes[p].is_none() {
            self.failure = Some(SimError::CompletedProcess(p));
            return Err(SimError::CompletedProcess(p));
        }
        let ctx = SimContext { time: self.time, state: event.state.clone() };
        Ok(Some((event, ctx)))
    }

    /// Whether `until` holds now.
    pub fn check_ending_condition(&self, until: &EndCondition) -> (b: bool)
        ensures
            b == ending_reached(self@, *until),
    {
        match until {
            EndCondition::Time(t) => self.time >= *t,
            EndCondition::NoEvents => self.future_events.is_empty(),
            EndCondition::NSteps(n) => self.steps >= *n,
        }
    }

    /// Steps until `until` holds, a fatal error occurs, or no event is left
    /// to deliver.
    pub fn run(self, until: EndCondition) -> (s: Self)
        requires
            self.wf(),
        ensures
            s.wf(),
            none_before(s@.pending, s@.now),
            exists|trail: Seq<SimulationState<T, P, R>>|
                #[trigger] ran(trail, until) && trail[0] == self@ && trail.last() == s@,
            ending_reached(s@, until) || s@.failure.is_some() || s@.pending.len() == 0,
            s@.now >= self@.now,
            s@.steps >= self@.steps,
            s@.trace.len() >= self@.trace.len(),
            s@.trace.subrange(0, self@.trace.len() as int) == self@.trace,
            ending_reached(self@, until) || self@.failure.is_some() || self@.pending.len() == 0 ==> s@ == self@,
            until matches EndCondition::NSteps(n) ==> (self@.steps <= n ==> s@.steps <= n),
    {
        let mut sim = self;
        let ghost mut trail = seq![self@];
        while !sim.check_ending_condition(&until) && sim.failure.is_none() && !sim.future_events.is_empty()
            invariant
                sim.wf(),
                ran(trail, until),
                trail[0] == self@,
                trail.last() == sim@,
                sim@.now >= self@.now,
                sim@.steps >= self@.steps,
                sim@.trace.len() >= self@.trace.len(),
                sim@.trace.subrange(0, self@.trace.len() as int) == self@.trace,
                ending_reached(self@, until) || self@.failure.is_some() || self@.pending.len() == 0 ==> sim@ == self@,
                until matches EndCondition::NSteps(n) ==> (self@.steps <= n ==> sim@.steps <= n),
            decreases usize::MAX - sim@.steps, if sim@.failure.is_none() { 1int } else { 0int },
        {
            let ghost before = sim@;
            let r = sim.step();
            proof {
                if sim@.trace.len() > before.trace.len() {
                    assert(sim@.trace.subrange(0, self@.trace.len() as int)
                        =~= before.trace.subrange(0, self@.trace.len() as int));
                }
                assert(step_of(before, sim@));
                let next = trail.push(sim@);
                assert forall|i: int| 0 <= i < next.len() - 1 implies {
                    &&& !ending_reached(#[trigger] next[i], until)
                    &&& next[i].failure is None
                    &&& next[i].pending.len() > 0
                    &&& step_of(next[i], next[i + 1])
                } by {
                    if i < trail.len() - 1 {
                        assert(next[i] == trail[i] && next[i + 1] == trail[i + 1]);
                    } else {
                        assert(next[i] == before && next[i + 1] == sim@);
                    }
                }
                trail = next;
            }
        }
        sim
    }
}

impl<T, P, R> Default for Simulation<T, P, R> {
    fn default() -> (s: Self)
        ensures
            s.wf(),
            s@.now == 0,
            s@.steps == 0,
            s@.pending.len() == 0,
            s@.trace.len() == 0,
            s@.processes.len() == 0,
            s@.resources.len() == 0,
            s@.stores.len() == 0,
            s@.failure.is_none(),
    {
        Simulation::new()
    }
}

} // verus!
