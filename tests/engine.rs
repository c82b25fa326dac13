use desim::resources::SimpleResource;
use desim::{Effect, EndCondition, SimContext, Process, Resumed, Simulation};

/// Yields `TimeOut(1)`, `TimeOut(2)`, `TimeOut(3)`, ... for ever.
struct Accumulating {
    a: u64,
}

impl Process<Effect> for Accumulating {
    fn resume(&mut self, _ctx: SimContext<Effect>) -> Resumed<Effect> {
        self.a += 1;
        Resumed::Yielded(Effect::TimeOut(self.a))
    }
}

/// Yields `TimeOut(tick)` for ever.
struct Ticker {
    tick: u64,
}

impl Process<Effect> for Ticker {
    fn resume(&mut self, _ctx: SimContext<Effect>) -> Resumed<Effect> {
        Resumed::Yielded(Effect::TimeOut(self.tick))
    }
}

/// Yields the effects of a fixed script, then completes.
struct Script {
    effects: Vec<Effect>,
    next: usize,
}

impl Script {
    fn new(effects: Vec<Effect>) -> Script {
        Script { effects, next: 0 }
    }
}

impl Process<Effect> for Script {
    fn resume(&mut self, _ctx: SimContext<Effect>) -> Resumed<Effect> {
        if self.next < self.effects.len() {
            self.next += 1;
            Resumed::Yielded(self.effects[self.next - 1])
        } else {
            Resumed::Completed
        }
    }
}

#[test]
fn it_works() {
    let mut s: Simulation<Effect, Accumulating, SimpleResource<Effect>> = Simulation::new();
    let p = s.create_process(Accumulating { a: 0 });
    s.schedule_event(0, p, Effect::TimeOut(0)).unwrap();
    s.step().unwrap();
    s.step().unwrap();
    assert_eq!(s.time(), 1);
    s.step().unwrap();
    assert_eq!(s.time(), 3);
    s.step().unwrap();
    assert_eq!(s.time(), 6);
}

#[test]
fn run() {
    // time in tenths: a tick of 0.7 is 7, the end at 10.0 is 100
    let mut s: Simulation<Effect, Ticker, SimpleResource<Effect>> = Simulation::new();
    let p = s.create_process(Ticker { tick: 7 });
    s.schedule_event(0, p, Effect::TimeOut(0)).unwrap();
    let s = s.run(EndCondition::Time(100));
    println!("{}", s.time());
    assert!(s.time() >= 100);
}

#[test]
fn resource() {
    let mut s: Simulation<Effect, Script, SimpleResource<Effect>> = Simulation::new();
    let r = s.create_resource(SimpleResource::new(1));

    // holds the resource for 7 time units
    let first = s.create_process(Script::new(vec![Effect::Request(r), Effect::TimeOut(7), Effect::Release(r)]));
    // holds the resource for 3 time units
    let second = s.create_process(Script::new(vec![Effect::Request(r), Effect::TimeOut(3), Effect::Release(r)]));

    // first starts at once, second after 2 time units, when r is taken
    s.schedule_event(0, first, Effect::TimeOut(0)).unwrap();
    s.schedule_event(2, second, Effect::TimeOut(2)).unwrap();
    // second waits for r until 7, then holds it for 3: the simulation ends at 10

    let s = s.run(EndCondition::NoEvents);
    println!("{:?}", s.processed_events());
    assert_eq!(s.time(), 10);
}

use desim::{Event, SimState};
use std::cell::RefCell;
use std::rc::Rc;

#[test]
fn periodic_tick_reaches_end_time() {
    let mut s: Simulation<Effect, Ticker, SimpleResource<Effect>> = Simulation::new();
    let p = s.create_process(Ticker { tick: 7 });
    s.schedule_event(0, p, Effect::TimeOut(0)).unwrap();
    let s = s.run(EndCondition::Time(100));
    assert!(s.time() >= 100);
    let log = s.processed_events();
    assert!(log.len() >= 15);
    for (i, (e, _)) in log.iter().enumerate() {
        assert_eq!(e.time(), 7 * i as u64);
    }
    for w in log.windows(2) {
        assert!(w[0].0.time() < w[1].0.time());
    }
}

#[test]
fn contention_hands_resource_over_at_release() {
    let mut s: Simulation<Effect, Script, SimpleResource<Effect>> = Simulation::new();
    let r = s.create_resource(SimpleResource::new(1));
    let a = s.create_process(Script::new(vec![Effect::Request(r), Effect::TimeOut(7), Effect::Release(r)]));
    let b = s.create_process(Script::new(vec![Effect::Request(r), Effect::TimeOut(3), Effect::Release(r)]));
    s.schedule_event(0, a, Effect::TimeOut(0)).unwrap();
    s.schedule_event(2, b, Effect::TimeOut(2)).unwrap();
    let s = s.run(EndCondition::NoEvents);
    assert_eq!(s.time(), 10);
    assert_eq!(s.failure(), None);
    let log: Vec<(u64, usize, Effect)> = s.processed_events().iter().map(|(e, y)| (e.time(), e.process(), *y)).collect();
    assert_eq!(
        log,
        vec![
            (0, a, Effect::Request(r)),
            (0, a, Effect::TimeOut(7)),
            (2, b, Effect::Request(r)),
            (7, a, Effect::Release(r)),
            (7, b, Effect::TimeOut(3)),
            (10, b, Effect::Release(r)),
        ]
    );
}

/// Records the state of every context it is resumed with, then waits.
struct Recorder {
    seen: Rc<RefCell<Vec<(u64, usize, Effect)>>>,
    me: usize,
}

impl Process<Effect> for Recorder {
    fn resume(&mut self, ctx: SimContext<Effect>) -> Resumed<Effect> {
        self.seen.borrow_mut().push((ctx.time(), self.me, *ctx.state()));
        Resumed::Yielded(Effect::Wait)
    }
}

#[test]
fn equal_times_resume_in_scheduling_order() {
    let seen = Rc::new(RefCell::new(Vec::new()));
    let mut s: Simulation<Effect, Recorder, SimpleResource<Effect>> = Simulation::new();
    let first = s.create_process(Recorder { seen: seen.clone(), me: 0 });
    let second = s.create_process(Recorder { seen: seen.clone(), me: 1 });
    s.schedule_event(5, first, Effect::Trace).unwrap();
    s.schedule_event(5, second, Effect::Trace).unwrap();
    s.schedule_event(5, first, Effect::Wait).unwrap();
    let _ = s.run(EndCondition::NoEvents);
    assert_eq!(*seen.borrow(), vec![(5, first, Effect::Trace), (5, second, Effect::Trace), (5, first, Effect::Wait)]);
}

#[test]
fn contexts_follow_event_order() {
    let seen = Rc::new(RefCell::new(Vec::new()));
    let mut s: Simulation<Effect, Recorder, SimpleResource<Effect>> = Simulation::new();
    let p = s.create_process(Recorder { seen: seen.clone(), me: 0 });
    s.schedule_event(9, p, Effect::TimeOut(3)).unwrap();
    s.schedule_event(1, p, Effect::TimeOut(1)).unwrap();
    s.schedule_event(4, p, Effect::TimeOut(2)).unwrap();
    let s = s.run(EndCondition::NoEvents);
    assert_eq!(s.steps(), 3);
    assert_eq!(
        *seen.borrow(),
        vec![(1, p, Effect::TimeOut(1)), (4, p, Effect::TimeOut(2)), (9, p, Effect::TimeOut(3))]
    );
}

#[test]
fn n_steps_counts_delivered_events() {
    let mut s: Simulation<Effect, Ticker, SimpleResource<Effect>> = Simulation::new();
    let p = s.create_process(Ticker { tick: 2 });
    s.schedule_event(0, p, Effect::TimeOut(0)).unwrap();
    s.step().unwrap();
    let s = s.run(EndCondition::NSteps(5));
    assert_eq!(s.steps(), 5);
    assert_eq!(s.time(), 8);
    // a limit already passed stops at once
    let s = s.run(EndCondition::NSteps(3));
    assert_eq!(s.steps(), 5);
}

#[test]
fn empty_queue_step_is_a_no_op() {
    let mut s: Simulation<Effect, Ticker, SimpleResource<Effect>> = Simulation::new();
    s.step().unwrap();
    assert_eq!(s.steps(), 0);
    assert_eq!(s.time(), 0);
    let s = s.run(EndCondition::NoEvents);
    assert_eq!(s.steps(), 0);
    assert_eq!(s.pending_events(), 0);
}

#[test]
fn run_stops_when_nothing_is_left() {
    let mut s: Simulation<Effect, Script, SimpleResource<Effect>> = Simulation::new();
    let p = s.create_process(Script::new(vec![Effect::TimeOut(4)]));
    s.schedule_event(1, p, Effect::TimeOut(0)).unwrap();
    let s = s.run(EndCondition::Time(1000));
    assert_eq!(s.time(), 5);
    assert_eq!(s.pending_events(), 0);
    assert_eq!(s.failure(), None);
}

#[test]
fn event_effect_schedules_another_process() {
    let seen = Rc::new(RefCell::new(Vec::new()));
    let mut s: Simulation<Effect, Recorder, SimpleResource<Effect>> = Simulation::new();
    let p = s.create_process(Recorder { seen: seen.clone(), me: 0 });
    let q = s.create_process(Recorder { seen: seen.clone(), me: 1 });
    s.schedule_event(3, p, Effect::Wait).unwrap();
    s.step().unwrap();
    s.handle_yield(Event::new(3, p, Effect::Wait), Effect::Event { time: 4, process: q }, Effect::Event { time: 4, process: q }, true)
        .unwrap();
    s.step().unwrap();
    assert_eq!(s.time(), 7);
    assert_eq!(*seen.borrow(), vec![(3, p, Effect::Wait), (7, q, Effect::Event { time: 4, process: q })]);
}

/// A state with a log flag of its own.
#[derive(Clone, Copy, Debug, PartialEq)]
struct Quiet {
    effect: Effect,
    log: bool,
}

impl SimState for Quiet {
    fn effect_of(&self) -> Effect {
        self.effect
    }
    fn logs(&self) -> bool {
        self.log
    }
    fn get_effect(&self) -> Effect {
        self.effect
    }
    fn set_effect(&mut self, effect: Effect) {
        self.effect = effect;
    }
    fn should_log(&self) -> bool {
        self.log
    }
}

struct QuietScript {
    states: Vec<Quiet>,
    next: usize,
}

impl Process<Quiet> for QuietScript {
    fn resume(&mut self, _ctx: SimContext<Quiet>) -> Resumed<Quiet> {
        if self.next < self.states.len() {
            self.next += 1;
            Resumed::Yielded(self.states[self.next - 1])
        } else {
            Resumed::Completed
        }
    }
}

#[test]
fn trace_holds_exactly_the_logged_yields() {
    let states = vec![
        Quiet { effect: Effect::TimeOut(1), log: true },
        Quiet { effect: Effect::TimeOut(1), log: false },
        Quiet { effect: Effect::Trace, log: true },
        Quiet { effect: Effect::TimeOut(2), log: false },
        Quiet { effect: Effect::TimeOut(2), log: true },
    ];
    let mut s: Simulation<Quiet, QuietScript, SimpleResource<Quiet>> = Simulation::new();
    let p = s.create_process(QuietScript { states: states.clone(), next: 0 });
    let start = Quiet { effect: Effect::Wait, log: false };
    s.schedule_event(0, p, start).unwrap();
    let s = s.run(EndCondition::NoEvents);
    assert_eq!(s.time(), 6);
    let log = s.processed_events();
    assert_eq!(log.len(), 3);
    assert_eq!((log[0].0.time(), log[0].0.state().clone(), log[0].1), (0, start, states[0]));
    assert_eq!((log[1].0.time(), log[1].0.state().clone(), log[1].1), (2, states[1], states[2]));
    assert_eq!((log[2].0.time(), log[2].0.state().clone(), log[2].1), (4, states[3], states[4]));
}

#[test]
fn completed_process_leaves_a_tombstone() {
    let mut s: Simulation<Effect, Script, SimpleResource<Effect>> = Simulation::new();
    let p = s.create_process(Script::new(vec![Effect::Wait]));
    s.schedule_event(0, p, Effect::Trace).unwrap();
    s.schedule_event(1, p, Effect::Trace).unwrap();
    s.schedule_event(2, p, Effect::Trace).unwrap();
    s.step().unwrap();
    s.step().unwrap();
    let second = s.create_process(Script::new(vec![]));
    assert_eq!(second, p + 1);
    assert_eq!(s.step(), Err(desim::SimError::CompletedProcess(p)));
    assert_eq!(s.time(), 2);
    assert_eq!(s.processed_events().len(), 1);
}

#[test]
fn deliver_hands_out_the_earliest_event_with_its_context() {
    let mut s: Simulation<Effect, Script, SimpleResource<Effect>> = Simulation::new();
    let p = s.create_process(Script::new(vec![]));
    s.schedule_event(8, p, Effect::TimeOut(8)).unwrap();
    s.schedule_event(3, p, Effect::Request(1)).unwrap();
    let (e, ctx) = s.deliver().unwrap().unwrap();
    assert_eq!((e.time(), e.process(), *e.state()), (3, p, Effect::Request(1)));
    assert_eq!((ctx.time(), *ctx.state()), (3, Effect::Request(1)));
    assert_eq!(s.time(), 3);
    assert_eq!(s.steps(), 1);
    assert_eq!(s.pending_events(), 1);
    let (e, _) = s.deliver().unwrap().unwrap();
    assert_eq!(e.time(), 8);
    assert!(s.deliver().unwrap().is_none());
    assert_eq!(s.steps(), 2);
}

#[test]
fn event_accessors_read_and_write_fields() {
    let mut e = Event::new(4, 2, Effect::Wait);
    assert_eq!((e.time(), e.process(), *e.state(), e.effect()), (4, 2, Effect::Wait, Effect::Wait));
    e.set_time(9);
    e.set_process(5);
    e.set_state(Effect::Trace);
    assert_eq!((e.time(), e.process(), *e.state()), (9, 5, Effect::Trace));
    *e.state_mut() = Effect::Pop(1);
    assert_eq!(e.effect(), Effect::Pop(1));
    e.set_effect(Effect::Push(3));
    assert_eq!((e.time(), e.process(), *e.state()), (9, 5, Effect::Push(3)));
    let mut state = Effect::Wait;
    state.set_effect(Effect::TimeOut(2));
    assert_eq!(state.get_effect(), Effect::TimeOut(2));
    assert!(state.should_log());
}

#[test]
fn check_ending_condition_reads_each_variant() {
    let mut s: Simulation<Effect, Ticker, SimpleResource<Effect>> = Simulation::new();
    assert!(s.check_ending_condition(&EndCondition::NoEvents));
    assert!(s.check_ending_condition(&EndCondition::Time(0)));
    assert!(!s.check_ending_condition(&EndCondition::Time(1)));
    assert!(s.check_ending_condition(&EndCondition::NSteps(0)));
    let p = s.create_process(Ticker { tick: 1 });
    s.schedule_event(0, p, Effect::TimeOut(0)).unwrap();
    assert!(!s.check_ending_condition(&EndCondition::NoEvents));
    assert!(!s.check_ending_condition(&EndCondition::NSteps(1)));
    s.step().unwrap();
    assert!(s.check_ending_condition(&EndCondition::NSteps(1)));
}
