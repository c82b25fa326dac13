//! Shared finite resources: the interface the engine calls on them, and a
//! counting semaphore.
use vstd::prelude::*;
use std::collections::VecDeque;
use crate::event::{Event, Time};

verus! {

/// Why a resource refused a release.
#[derive(Debug, Clone, Copy, PartialEq, Eq, Structural)]
pub enum ResourceError {
    /// More units were released than had been acquired.
    OverRelease,
}

/// A shared resource that processes request and release.
///
/// Whatever event a resource hands back is resumed at the instant of the
/// call: the engine gives it the current time. The two spec functions say
/// what an implementation promises of its methods; left as they are, it
/// promises nothing.
pub trait Resource<T>: Sized {
    /// A request by `e`, made of `self`, may leave `next` and return `r`.
    open spec fn allocates(self, e: Event<T>, next: Self, r: Option<Event<T>>) -> bool {
        true
    }

    /// A release by `e`, made of `self`, may leave `next` and return `r`.
    open spec fn releases(self, e: Event<T>, next: Self, r: Result<Option<Event<T>>, ResourceError>) -> bool {
        true
    }

    /// Called when a process requests the resource. Returns the event to
    /// resume now, if any; `None` leaves the requester suspended.
    fn allocate_or_enqueue(&mut self, event: Event<T>) -> (r: Option<Event<T>>)
        ensures
            old(self).allocates(event, *final(self), r),
    ;

    /// Called when a process releases the resource. Returns the waiter to
    /// resume now, if any; an error when the release is not allowed.
    fn release_and_schedule_next(&mut self, event: Event<T>) -> (r: Result<Option<Event<T>>, ResourceError>)
        ensures
            old(self).releases(event, *final(self), r),
    ;
}

/// The abstract state of a counting resource.
pub struct SemaphoreState<T> {
    pub capacity: nat,
    pub available: nat,
    /// Blocked requests, oldest first.
    pub waiting: Seq<Event<T>>,
}

impl<T> SemaphoreState<T> {
    /// Units that are currently held.
    pub open spec fn in_use(self) -> int {
        self.capacity - self.available
    }

    pub open spec fn wf(self) -> bool {
        &&& self.available <= self.capacity
        &&& self.waiting.len() > 0 ==> self.available == 0
    }

    /// A request: granted at once while a unit is free, queued otherwise.
    pub open spec fn allocate(self, e: Event<T>) -> (Self, Option<Event<T>>) {
        if self.available > 0 {
            (SemaphoreState { available: (self.available - 1) as nat, ..self }, Some(e))
        } else {
            (SemaphoreState { waiting: self.waiting.push(e), ..self }, None)
        }
    }

    /// A release at time `t`: the oldest waiter takes the unit over and is
    /// resumed at `t`; with nobody waiting the unit becomes free.
    pub open spec fn release(self, t: Time) -> (Self, Result<Option<Event<T>>, ResourceError>) {
        if self.waiting.len() > 0 {
            (
                SemaphoreState { waiting: self.waiting.drop_first(), ..self },
                Ok(Some(Event { time: t, ..self.waiting[0] })),
            )
        } else if self.available < self.capacity {
            (SemaphoreState { available: self.available + 1, ..self }, Ok(None))
        } else {
            (self, Err(ResourceError::OverRelease))
        }
    }
}

/// The state after the requests `rs`, made one after another.
pub open spec fn after_requests<T>(s: SemaphoreState<T>, rs: Seq<Event<T>>) -> SemaphoreState<T>
    decreases rs.len(),
{
    if rs.len() == 0 {
        s
    } else {
        after_requests(s.allocate(rs[0]).0, rs.drop_first())
    }
}

/// The waiters resumed by releases at the times `ts`, one after another,
/// in the order they were resumed.
pub open spec fn granted_by_releases<T>(s: SemaphoreState<T>, ts: Seq<Time>) -> Seq<Event<T>>
    decreases ts.len(),
{
    if ts.len() == 0 {
        Seq::empty()
    } else {
        let (next, r) = s.release(ts[0]);
        match r {
            Ok(Some(e)) => seq![e] + granted_by_releases(next, ts.drop_first()),
            _ => granted_by_releases(next, ts.drop_first()),
        }
    }
}

/// No more units are ever held than the resource has: a request is granted
/// exactly when a unit is free, and takes one; a release frees one or hands
/// it over.
pub proof fn lemma_holders_within_capacity<T>(s: SemaphoreState<T>, e: Event<T>, t: Time)
    requires
        s.wf(),
    ensures
        0 <= s.in_use() <= s.capacity,
        s.allocate(e).0.wf(),
        s.release(t).0.wf(),
        s.allocate(e).1 is Some <==> s.in_use() < s.capacity,
        s.allocate(e).1 is Some ==> s.allocate(e).0.in_use() == s.in_use() + 1,
        s.allocate(e).1 is None ==> s.allocate(e).0.in_use() == s.in_use(),
        s.release(t).1 matches Ok(Some(_)) ==> s.release(t).0.in_use() == s.in_use(),
        s.release(t).1 matches Ok(None) ==> s.release(t).0.in_use() == s.in_use() - 1,
{
}

/// Requests that find every unit held join the end of the waiting line.
pub proof fn lemma_blocked_requests_queue_up<T>(s: SemaphoreState<T>, rs: Seq<Event<T>>)
    requires
        s.wf(),
        s.available == 0,
    ensures
        after_requests(s, rs) == (SemaphoreState { waiting: s.waiting + rs, ..s }),
    decreases rs.len(),
{
    if rs.len() == 0 {
        assert(s.waiting + rs =~= s.waiting);
    } else {
        let next = s.allocate(rs[0]).0;
        lemma_blocked_requests_queue_up(next, rs.drop_first());
        assert(next.waiting + rs.drop_first() =~= s.waiting + rs);
    }
}

/// Releases resume the waiters from the front of the line, one each.
pub proof fn lemma_releases_grant_in_line<T>(s: SemaphoreState<T>, ts: Seq<Time>)
    requires
        ts.len() <= s.waiting.len(),
    ensures
        granted_by_releases(s, ts) == Seq::new(ts.len(), |i: int| Event { time: ts[i], ..s.waiting[i] }),
    decreases ts.len(),
{
    if ts.len() > 0 {
        let next = s.release(ts[0]).0;
        lemma_releases_grant_in_line(next, ts.drop_first());
        assert(granted_by_releases(s, ts) =~= Seq::new(ts.len(), |i: int| Event { time: ts[i], ..s.waiting[i] }));
    } else {
        assert(granted_by_releases(s, ts) =~= Seq::new(ts.len(), |i: int| Event { time: ts[i], ..s.waiting[i] }));
    }
}

/// Blocked requesters are granted in the order they requested: once every
/// unit is held, the requests `rs` and then releases at the times `ts`
/// resume the earlier waiters and then the requesters of `rs`, in order,
/// each at the time of the release that freed its unit.
pub proof fn lemma_grants_first_come_first_served<T>(s: SemaphoreState<T>, rs: Seq<Event<T>>, ts: Seq<Time>)
    requires
        s.wf(),
        s.available == 0,
        ts.len() <= s.waiting.len() + rs.len(),
    ensures
        granted_by_releases(after_requests(s, rs), ts)
            == Seq::new(ts.len(), |i: int| Event { time: ts[i], ..(s.waiting + rs)[i] }),
{
    lemma_blocked_requests_queue_up(s, rs);
    lemma_releases_grant_in_line(after_requests(s, rs), ts);
}

/// A counting semaphore: `quantity` units, handed out first come, first
/// served.
pub struct SimpleResource<T> {
    quantity: usize,
    available: usize,
    queue: VecDeque<Event<T>>,
}

impl<T> View for SimpleResource<T> {
    type V = SemaphoreState<T>;

    closed spec fn view(&self) -> SemaphoreState<T> {
        SemaphoreState {
            capacity: self.quantity as nat,
            available: self.available as nat,
            waiting: self.queue@,
        }
    }
}

impl<T> SimpleResource<T> {
    pub fn new(quantity: usize) -> (r: SimpleResource<T>)
        ensures
            r@.wf(),
            r@.capacity == quantity,
            r@.available == quantity,
            r@.waiting == Seq::<Event<T>>::empty(),
    {
        SimpleResource { quantity, available: quantity, queue: VecDeque::new() }
    }

    /// Units not held by anyone.
    pub fn available(&self) -> (n: usize)
        ensures
            n == self@.available,
    {
        self.available
    }

    /// Requests waiting for a unit.
    pub fn waiting(&self) -> (n: usize)
        ensures
            n == self@.waiting.len(),
    {
        self.queue.len()
    }
}

impl<T> Resource<T> for SimpleResource<T> {
    open spec fn allocates(self, e: Event<T>, next: Self, r: Option<Event<T>>) -> bool {
        (next@, r) == self@.allocate(e)
    }

    open spec fn releases(self, e: Event<T>, next: Self, r: Result<Option<Event<T>>, ResourceError>) -> bool {
        (next@, r) == self@.release(e.time)
    }

    fn allocate_or_enqueue(&mut self, event: Event<T>) -> (r: Option<Event<T>>)
        ensures
            (final(self)@, r) == old(self)@.allocate(event),
            old(self)@.wf() ==> final(self)@.wf(),
    {
        if self.available > 0 {
            self.available = self.available - 1;
            Some(event)
        } else {
            self.queue.push_back(event);
            None
        }
    }

    fn release_and_schedule_next(&mut self, event: Event<T>) -> (r: Result<Option<Event<T>>, ResourceError>)
        ensures
            (final(self)@, r) == old(self)@.release(event.time),
            old(self)@.wf() ==> final(self)@.wf(),
    {
        match self.queue.pop_front() {
            Some(mut request_event) => {
                request_event.time = event.time;
                Ok(Some(request_event))
            },
            None => {
                if self.available < self.quantity {
                    self.available = self.available + 1;
                    Ok(None)
                } else {
                    Err(ResourceError::OverRelease)
                }
            },
        }
    }
}

} // verus!
