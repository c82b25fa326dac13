//! The queue of future events, ordered by time, first in first out among
//! events of equal time.
use vstd::prelude::*;
use crate::event::{Event, Time};

verus! {

/// Events in non-decreasing order of time. (That events of equal time keep
/// the order they were scheduled in comes from [`scheduled_into`].)
pub open spec fn time_ordered<T>(s: Seq<Event<T>>) -> bool {
    forall|i: int, j: int| 0 <= i < j < s.len() ==> s[i].time <= s[j].time
}

/// `after` is `before` with `e` placed behind every event whose time is not
/// later than `e`'s, and before every event that is later.
pub open spec fn scheduled_into<T>(before: Seq<Event<T>>, after: Seq<Event<T>>, e: Event<T>) -> bool {
    exists|k: int|
        {
            &&& 0 <= k <= before.len()
            &&& after == before.insert(k, e)
            &&& forall|i: int| 0 <= i < k ==> before[i].time <= e.time
            &&& forall|i: int| k <= i < before.len() ==> e.time < before[i].time
        }
}

/// Every event of `s` is at `t` or later.
pub open spec fn none_before<T>(s: Seq<Event<T>>, t: Time) -> bool {
    forall|i: int| 0 <= i < s.len() ==> t <= s[i].time
}

/// Scheduling an event no earlier than `t` into a queue with no event before
/// `t` leaves no event before `t`.
pub proof fn lemma_schedule_keeps_bound<T>(before: Seq<Event<T>>, after: Seq<Event<T>>, e: Event<T>, t: Time)
    requires
        scheduled_into(before, after, e),
        none_before(before, t),
        t <= e.time,
    ensures
        none_before(after, t),
{
    let k = choose|k: int|
        {
            &&& 0 <= k <= before.len()
            &&& after == before.insert(k, e)
            &&& forall|i: int| 0 <= i < k ==> before[i].time <= e.time
            &&& forall|i: int| k <= i < before.len() ==> e.time < before[i].time
        };
    assert forall|i: int| 0 <= i < after.len() implies t <= after[i].time by {
        if i < k {
            assert(after[i] == before[i]);
        } else if i > k {
            assert(after[i] == before[i - 1]);
        }
    }
}

/// Events scheduled one after the other, the later not earlier in time than
/// the first, are delivered in the order they were scheduled. In particular
/// events of equal time are delivered first in, first out.
pub proof fn lemma_schedule_order_kept<T>(
    q0: Seq<Event<T>>,
    q1: Seq<Event<T>>,
    q2: Seq<Event<T>>,
    e1: Event<T>,
    e2: Event<T>,
)
    requires
        scheduled_into(q0, q1, e1),
        scheduled_into(q1, q2, e2),
        e1.time <= e2.time,
    ensures
        exists|i: int, j: int| 0 <= i < j < q2.len() && q2[i] == e1 && q2[j] == e2,
{
    let k1 = choose|k: int|
        {
            &&& 0 <= k <= q0.len()
            &&& q1 == q0.insert(k, e1)
            &&& forall|i: int| 0 <= i < k ==> q0[i].time <= e1.time
            &&& forall|i: int| k <= i < q0.len() ==> e1.time < q0[i].time
        };
    let k2 = choose|k: int|
        {
            &&& 0 <= k <= q1.len()
            &&& q2 == q1.insert(k, e2)
            &&& forall|i: int| 0 <= i < k ==> q1[i].time <= e2.time
            &&& forall|i: int| k <= i < q1.len() ==> e2.time < q1[i].time
        };
    assert(q1[k1] == e1);
    if k2 <= k1 {
        assert(e2.time < q1[k1].time);
    }
    assert(q2[k1] == e1);
    assert(q2[k2] == e2);
}

/// The future events of a simulation.
pub struct EventQueue<T> {
    events: Vec<Event<T>>,
}

impl<T> View for EventQueue<T> {
    type V = Seq<Event<T>>;

    closed spec fn view(&self) -> Seq<Event<T>> {
        self.events@
    }
}

impl<T> EventQueue<T> {
    pub closed spec fn wf(&self) -> bool {
        time_ordered(self.events@)
    }

    /// A well-formed queue holds its events in time order.
    pub proof fn lemma_ordered(&self)
        requires
            self.wf(),
        ensures
            time_ordered(self@),
    {
    }

    pub fn new() -> (q: EventQueue<T>)
        ensures
            q.wf(),
            q@ == Seq::<Event<T>>::empty(),
    {
        EventQueue { events: Vec::new() }
    }

    pub fn len(&self) -> (n: usize)
        ensures
            n == self@.len(),
    {
        self.events.len()
    }

    pub fn is_empty(&self) -> (b: bool)
        ensures
            b == (self@.len() == 0),
    {
        self.events.len() == 0
    }

    /// Adds `e` behind every queued event whose time is not later than its own.
    pub fn push(&mut self, e: Event<T>)
        requires
            old(self).wf(),
        ensures
            final(self).wf(),
            scheduled_into(old(self)@, final(self)@, e),
    {
        let mut k: usize = self.events.len();
        while k > 0 && self.events[k - 1].time > e.time
            invariant
                k <= self.events@.len(),
                time_ordered(self.events@),
                forall|i: int| k <= i < self.events@.len() ==> e.time < self.events@[i].time,
            decreases k,
        {
            k = k - 1;
        }
        let ghost before = self.events@;
        proof {
            assert forall|i: int| 0 <= i < k implies before[i].time <= e.time by {
                if k > 0 {
                    assert(before[i].time <= before[k - 1].time);
                }
            }
        }
        self.events.insert(k, e);
        proof {
            assert(scheduled_into(before, self.events@, e)) by {
                assert(self.events@ == before.insert(k as int, e));
            }
        }
    }

    /// Removes and returns the event that is delivered next.
    pub fn pop(&mut self) -> (r: Option<Event<T>>)
        requires
            old(self).wf(),
        ensures
            final(self).wf(),
            old(self)@.len() == 0 ==> r.is_none() && final(self)@ == old(self)@,
            old(self)@.len() > 0 ==> r == Some(old(self)@[0]) && final(self)@ == old(self)@.drop_first(),
            old(self)@.len() > 0 ==> none_before(final(self)@, old(self)@[0].time),
    {
        if self.events.len() == 0 {
            None
        } else {
            Some(self.events.remove(0))
        }
    }
}

} // verus!
