//! A bounded store: producers deposit states, consumers take them out in
//! the order they were deposited.
use vstd::prelude::*;
use std::collections::VecDeque;
use crate::event::Event;

verus! {

/// The abstract state of a store.
pub struct StoreState<T> {
    pub capacity: nat,
    /// Deposited states, oldest first.
    pub items: Seq<T>,
    /// Consumers waiting for a state, oldest first.
    pub consumers: Seq<Event<T>>,
    /// Producers waiting for room: the state each deposits and the event
    /// that resumes it.
    pub producers: Seq<(T, Event<T>)>,
}

/// What one store operation hands back: the consumer to resume, if any, and
/// the producer to resume, if any.
pub type Wakeups<T> = (Option<Event<T>>, Option<Event<T>>);

impl<T> StoreState<T> {
    pub open spec fn wf(self) -> bool {
        &&& self.items.len() <= self.capacity
        &&& self.consumers.len() > 0 ==> self.items.len() == 0 && self.producers.len() == 0
        &&& self.producers.len() > 0 ==> self.items.len() == self.capacity
    }

    /// A deposit of `v` by the producer that `p` resumes: the oldest waiting
    /// consumer receives it at once; otherwise it is buffered while there is
    /// room, and the producer waits while there is none.
    pub open spec fn push(self, v: T, p: Event<T>) -> (Self, Wakeups<T>) {
        if self.consumers.len() > 0 {
            let c = self.consumers[0];
            (
                StoreState { consumers: self.consumers.drop_first(), ..self },
                (Some(Event { time: p.time, process: c.process, state: v }), Some(p)),
            )
        } else if self.items.len() < self.capacity {
            (StoreState { items: self.items.push(v), ..self }, (None, Some(p)))
        } else {
            (StoreState { producers: self.producers.push((v, p)), ..self }, (None, None))
        }
    }

    /// A withdrawal by consumer `c`: it receives the oldest state, and the
    /// oldest waiting producer, if any, moves its state in and is resumed at
    /// the time of `c`; with nothing to take the consumer waits.
    pub open spec fn pop(self, c: Event<T>) -> (Self, Wakeups<T>) {
        if self.items.len() > 0 {
            let delivered = Event { state: self.items[0], ..c };
            if self.producers.len() > 0 {
                let (pv, pe) = self.producers[0];
                (
                    StoreState {
                        items: self.items.drop_first().push(pv),
                        producers: self.producers.drop_first(),
                        ..self
                    },
                    (Some(delivered), Some(Event { time: c.time, ..pe })),
                )
            } else {
                (StoreState { items: self.items.drop_first(), ..self }, (Some(delivered), None))
            }
        } else if self.producers.len() > 0 {
            let (pv, pe) = self.producers[0];
            (
                StoreState { producers: self.producers.drop_first(), ..self },
                (Some(Event { state: pv, ..c }), Some(Event { time: c.time, ..pe })),
            )
        } else {
            (StoreState { consumers: self.consumers.push(c), ..self }, (None, None))
        }
    }
}

/// The state after producer `p` deposits the states `vs`, one after another.
pub open spec fn after_pushes<T>(s: StoreState<T>, vs: Seq<T>, p: Event<T>) -> StoreState<T>
    decreases vs.len(),
{
    if vs.len() == 0 {
        s
    } else {
        after_pushes(s.push(vs[0], p).0, vs.drop_first(), p)
    }
}

/// The states that the consumers `cs` receive at once, withdrawing one after
/// another, in the order they receive them.
pub open spec fn delivered_by_pops<T>(s: StoreState<T>, cs: Seq<Event<T>>) -> Seq<T>
    decreases cs.len(),
{
    if cs.len() == 0 {
        Seq::empty()
    } else {
        let (next, (c, _)) = s.pop(cs[0]);
        match c {
            Some(e) => seq![e.state] + delivered_by_pops(next, cs.drop_first()),
            None => delivered_by_pops(next, cs.drop_first()),
        }
    }
}

/// Every deposit and withdrawal keeps a store within its capacity.
pub proof fn lemma_store_within_capacity<T>(s: StoreState<T>, v: T, p: Event<T>, c: Event<T>)
    requires
        s.wf(),
    ensures
        s.push(v, p).0.wf(),
        s.pop(c).0.wf(),
        s.push(v, p).0.items.len() <= s.capacity,
        s.pop(c).0.items.len() <= s.capacity,
{
}

/// With nobody waiting and room for them, deposits are appended to the
/// buffer in order.
pub proof fn lemma_pushes_append<T>(s: StoreState<T>, vs: Seq<T>, p: Event<T>)
    requires
        s.consumers.len() == 0,
        s.producers.len() == 0,
        s.items.len() + vs.len() <= s.capacity,
    ensures
        after_pushes(s, vs, p) == (StoreState { items: s.items + vs, ..s }),
    decreases vs.len(),
{
    if vs.len() == 0 {
        assert(s.items + vs =~= s.items);
    } else {
        let next = s.push(vs[0], p).0;
        lemma_pushes_append(next, vs.drop_first(), p);
        assert(next.items + vs.drop_first() =~= s.items + vs);
    }
}

/// With no producer waiting, withdrawals take the buffered states from the
/// front, in order.
pub proof fn lemma_pops_take_from_front<T>(s: StoreState<T>, cs: Seq<Event<T>>)
    requires
        s.producers.len() == 0,
        cs.len() <= s.items.len(),
    ensures
        delivered_by_pops(s, cs) == s.items.take(cs.len() as int),
    decreases cs.len(),
{
    if cs.len() == 0 {
        assert(s.items.take(0) =~= Seq::<T>::empty());
    } else {
        let next = s.pop(cs[0]).0;
        lemma_pops_take_from_front(next, cs.drop_first());
        assert(seq![s.items[0]] + next.items.take(cs.len() - 1) =~= s.items.take(cs.len() as int));
    }
}

/// Round trip: deposits `vs` into an empty store with room for them all,
/// followed by as many withdrawals, hand the states back in the order they
/// were deposited.
pub proof fn lemma_store_round_trip<T>(s: StoreState<T>, vs: Seq<T>, p: Event<T>, cs: Seq<Event<T>>)
    requires
        s.items.len() == 0,
        s.consumers.len() == 0,
        s.producers.len() == 0,
        vs.len() <= s.capacity,
        cs.len() == vs.len(),
    ensures
        delivered_by_pops(after_pushes(s, vs, p), cs) == vs,
{
    lemma_pushes_append(s, vs, p);
    assert(s.items + vs =~= vs);
    lemma_pops_take_from_front(after_pushes(s, vs, p), cs);
    assert(vs.take(cs.len() as int) =~= vs);
}

/// What a store will hand out, in order: the buffered states, then those of
/// the waiting producers, oldest first.
pub open spec fn queued_values<T>(s: StoreState<T>) -> Seq<T> {
    s.items + s.producers.map_values(|w: (T, Event<T>)| w.0)
}

/// First in, first out under any interleaving of deposits and withdrawals:
/// with no consumer waiting, a deposit joins the end of what the store will
/// hand out; a withdrawal from a store with something to hand out receives
/// the front of it.
pub proof fn lemma_store_first_in_first_out<T>(s: StoreState<T>, v: T, p: Event<T>, c: Event<T>)
    requires
        s.wf(),
    ensures
        s.consumers.len() == 0 ==> {
            &&& queued_values(s.push(v, p).0) == queued_values(s).push(v)
            &&& s.push(v, p).0.consumers.len() == 0
        },
        queued_values(s).len() > 0 ==> {
            &&& (s.pop(c).1).0 == Some(Event { state: queued_values(s)[0], ..c })
            &&& queued_values(s.pop(c).0) == queued_values(s).drop_first()
            &&& s.pop(c).0.consumers == s.consumers
        },
{
    let f = |w: (T, Event<T>)| w.0;
    if s.consumers.len() == 0 {
        let t = s.push(v, p).0;
        if s.items.len() < s.capacity {
            assert(queued_values(t) =~= queued_values(s).push(v));
        } else {
            assert(t.producers.map_values(f) =~= s.producers.map_values(f).push(v));
            assert(queued_values(t) =~= queued_values(s).push(v));
        }
    }
    if queued_values(s).len() > 0 {
        let t = s.pop(c).0;
        if s.items.len() > 0 {
            assert(queued_values(s)[0] == s.items[0]);
            if s.producers.len() > 0 {
                assert(s.producers.map_values(f) =~= seq![s.producers[0].0] + s.producers.drop_first().map_values(f));
                assert(queued_values(t) =~= queued_values(s).drop_first());
            } else {
                assert(queued_values(t) =~= queued_values(s).drop_first());
            }
        } else {
            assert(s.items =~= Seq::<T>::empty());
            assert(s.producers.len() > 0);
            assert(queued_values(s)[0] == s.producers[0].0);
            assert(s.producers.map_values(f) =~= seq![s.producers[0].0] + s.producers.drop_first().map_values(f));
            assert(queued_values(t) =~= queued_values(s).drop_first());
        }
    }
}

/// A deposit into a full store waits: its producer is not resumed and its
/// state stays out of the buffer until a withdrawal frees a place. That
/// withdrawal receives the oldest buffered state, the waiting state joins
/// the end of the buffer, and the producer is resumed at the withdrawal's
/// time.
pub proof fn lemma_full_store_holds_producer<T>(s: StoreState<T>, v: T, p: Event<T>, c: Event<T>)
    requires
        s.wf(),
        s.consumers.len() == 0,
        s.producers.len() == 0,
        s.items.len() == s.capacity,
        s.capacity > 0,
    ensures
        s.push(v, p).1 == (None::<Event<T>>, None::<Event<T>>),
        s.push(v, p).0.items == s.items,
        s.push(v, p).0.producers == seq![(v, p)],
        s.push(v, p).0.pop(c).1 == (Some(Event { state: s.items[0], ..c }), Some(Event { time: c.time, ..p })),
        s.push(v, p).0.pop(c).0.items == s.items.drop_first().push(v),
        s.push(v, p).0.pop(c).0.producers.len() == 0,
{
    assert(s.producers.push((v, p)) =~= seq![(v, p)]);
}

/// A first-in first-out buffer of at most `capacity` states.
pub struct Store<T> {
    capacity: usize,
    items: VecDeque<T>,
    consumers: VecDeque<Event<T>>,
    producers: VecDeque<(T, Event<T>)>,
}

impl<T> View for Store<T> {
    type V = StoreState<T>;

    closed spec fn view(&self) -> StoreState<T> {
        StoreState {
            capacity: self.capacity as nat,
            items: self.items@,
            consumers: self.consumers@,
            producers: self.producers@,
        }
    }
}

impl<T> Store<T> {
    pub fn new(capacity: usize) -> (s: Store<T>)
        ensures
            s@.capacity == capacity,
            s@.items == Seq::<T>::empty(),
            s@.consumers == Seq::<Event<T>>::empty(),
            s@.producers == Seq::<(T, Event<T>)>::empty(),
    {
        Store {
            capacity,
            items: VecDeque::new(),
            consumers: VecDeque::new(),
            producers: VecDeque::new(),
        }
    }

    /// Number of buffered states.
    pub fn len(&self) -> (n: usize)
        ensures
            n == self@.items.len(),
    {
        self.items.len()
    }

    /// Deposits `value`; `producer` is the event that resumes the producer.
    pub fn push(&mut self, value: T, producer: Event<T>) -> (r: Wakeups<T>)
        ensures
            (final(self)@, r) == old(self)@.push(value, producer),
            old(self)@.wf() ==> final(self)@.wf(),
    {
        match self.consumers.pop_front() {
            Some(c) => {
                (Some(Event { time: producer.time, process: c.process, state: value }), Some(producer))
            },
            None => {
                if self.items.len() < self.capacity {
                    self.items.push_back(value);
                    (None, Some(producer))
                } else {
                    self.producers.push_back((value, producer));
                    (None, None)
                }
            },
        }
    }

    /// Withdraws the oldest state on behalf of `consumer`.
    pub fn pop(&mut self, consumer: Event<T>) -> (r: Wakeups<T>)
        ensures
            (final(self)@, r) == old(self)@.pop(consumer),
            old(self)@.wf() ==> final(self)@.wf(),
    {
        match self.items.pop_front() {
            Some(v) => {
                let delivered = Event { time: consumer.time, process: consumer.process, state: v };
                match self.producers.pop_front() {
                    Some(waiting) => {
                        let (pv, pe) = waiting;
                        self.items.push_back(pv);
                        (Some(delivered), Some(Event { time: consumer.time, process: pe.process, state: pe.state }))
                    },
                    None => (Some(delivered), None),
                }
            },
            None => {
                match self.producers.pop_front() {
                    Some(waiting) => {
                        let (pv, pe) = waiting;
                        (
                            Some(Event { time: consumer.time, process: consumer.process, state: pv }),
                            Some(Event { time: consumer.time, process: pe.process, state: pe.state }),
                        )
                    },
                    None => {
                        self.consumers.push_back(consumer);
                        (None, None)
                    },
                }
            },
        }
    }
}

} // verus!
