//! Dispatchers: one interrupt line shared by the tasks of one priority.
//!
//! A dispatcher keeps the requests to run its tasks in a bounded queue, in
//! the order in which they were accepted, and serves them from the head.

use crate::controller::InterruptController;
use crate::error::CapacityError;
use crate::export::{pend, unpend};
use crate::interrupt::Interrupt;
use std::collections::VecDeque;
use vstd::prelude::*;

verus! {

/// What names a task.
pub type TaskId = usize;

/// The queue `queue` of a dispatcher with room for `capacity` requests,
/// once `task` has been asked for: the request joins the end if there is
/// room, and the queue stays as it is if there is none.
pub open spec fn spawned<A>(queue: Seq<A>, capacity: nat, task: A) -> Seq<A> {
    if queue.len() < capacity {
        queue.push(task)
    } else {
        queue
    }
}

/// The queue `queue` once its head, if it has one, has been taken.
pub open spec fn advanced<A>(queue: Seq<A>) -> Seq<A> {
    if queue.len() > 0 {
        queue.drop_first()
    } else {
        queue
    }
}

/// One thing that happens to a dispatcher: a request for a task, or the
/// dispatcher taking the request at the head of its queue.
pub enum Event {
    Spawn(TaskId),
    Dispatch,
}

/// The task that a request asks for.
pub open spec fn task_of(event: Event) -> TaskId {
    match event {
        Event::Spawn(task) => task,
        Event::Dispatch => 0,
    }
}

/// The queue of a dispatcher with room for `capacity` requests after
/// `events`, from an empty queue.
pub open spec fn queue_after(events: Seq<Event>, capacity: nat) -> Seq<TaskId>
    decreases events.len(),
{
    if events.len() == 0 {
        Seq::empty()
    } else {
        let before = queue_after(events.drop_last(), capacity);
        match events.last() {
            Event::Spawn(task) => spawned(before, capacity, task),
            Event::Dispatch => advanced(before),
        }
    }
}

/// The same history with every request named by its place in `events`:
/// first the requests that wait after `events`, then the requests that
/// were taken, in the order in which they were taken.
pub open spec fn replay(events: Seq<Event>, capacity: nat) -> (Seq<int>, Seq<int>)
    decreases events.len(),
{
    if events.len() == 0 {
        (Seq::empty(), Seq::empty())
    } else {
        let (waiting, taken) = replay(events.drop_last(), capacity);
        match events.last() {
            Event::Spawn(_) => (spawned(waiting, capacity, events.len() - 1), taken),
            Event::Dispatch => (
                advanced(waiting),
                if waiting.len() > 0 {
                    taken.push(waiting[0])
                } else {
                    taken
                },
            ),
        }
    }
}

/// First in, first out: whatever the history of a dispatcher, the requests
/// are taken in the order in which they were accepted, and every request
/// that still waits was accepted after all that were taken. The waiting
/// requests are those of the queue, one for one.
pub proof fn lemma_dispatch_order_is_spawn_order(events: Seq<Event>, capacity: nat)
    ensures
        ({
            let (waiting, taken) = replay(events, capacity);
            &&& forall|i: int|
                0 <= i < taken.len() ==> 0 <= #[trigger] taken[i] < events.len()
                    && events[taken[i]] is Spawn
            &&& forall|i: int|
                0 <= i < waiting.len() ==> 0 <= #[trigger] waiting[i] < events.len()
                    && events[waiting[i]] is Spawn
            &&& forall|i: int, j: int|
                0 <= i < j < taken.len() ==> #[trigger] taken[i] < #[trigger] taken[j]
            &&& forall|i: int, j: int|
                0 <= i < j < waiting.len() ==> #[trigger] waiting[i] < #[trigger] waiting[j]
            &&& forall|i: int, j: int|
                0 <= i < taken.len() && 0 <= j < waiting.len() ==> #[trigger] taken[i]
                    < #[trigger] waiting[j]
            &&& waiting.len() == queue_after(events, capacity).len()
            &&& forall|i: int|
                0 <= i < waiting.len() ==> #[trigger] queue_after(events, capacity)[i] == task_of(
                    events[waiting[i]],
                )
        }),
    decreases events.len(),
{
    if events.len() > 0 {
        let earlier = events.drop_last();
        lemma_dispatch_order_is_spawn_order(earlier, capacity);
        let (waiting, taken) = replay(earlier, capacity);
        assert forall|i: int| 0 <= i < earlier.len() implies earlier[i] == events[i] by {}
    }
}

/// The software-raised interrupt line of one priority level, with the
/// requests that wait for it.
pub struct Dispatcher {
    source: Interrupt,
    capacity: usize,
    ready: VecDeque<TaskId>,
}

impl View for Dispatcher {
    type V = Seq<TaskId>;

    /// The waiting requests, the next to run first.
    closed spec fn view(&self) -> Seq<TaskId> {
        self.ready@
    }
}

impl Dispatcher {
    /// Whether no more requests wait than there is room for, and the
    /// dispatcher's source is one that software can raise.
    pub closed spec fn wf(self) -> bool {
        &&& self.ready@.len() <= self.capacity
        &&& self.source.software() is Some
    }

    /// How many requests may wait at once.
    pub closed spec fn room(self) -> nat {
        self.capacity as nat
    }

    /// The index of the dispatcher's line among the software-raised sources.
    pub closed spec fn line(self) -> u8 {
        self.source.software().unwrap()
    }

    /// A dispatcher on the software-raised source `source`, with room for
    /// `capacity` requests and none waiting. There is none on a source that
    /// software cannot raise.
    pub fn new(source: Interrupt, capacity: usize) -> (d: Option<Dispatcher>)
        ensures
            d is Some <==> source.software() is Some,
            d matches Some(d) ==> {
                &&& d.wf()
                &&& d@ == Seq::<TaskId>::empty()
                &&& d.room() == capacity
                &&& source.software() == Some(d.line())
            },
    {
        match source.software_index() {
            Some(_) => Some(Dispatcher { source, capacity, ready: VecDeque::with_capacity(capacity) }),
            None => None,
        }
    }

    /// How many requests may wait at once.
    pub fn capacity(&self) -> (n: usize)
        ensures
            n == self.room(),
    {
        self.capacity
    }

    /// How many requests wait.
    pub fn len(&self) -> (n: usize)
        requires
            self.wf(),
        ensures
            n == self@.len(),
            n <= self.room(),
    {
        self.ready.len()
    }

    /// The waiting requests, the next to run first.
    pub fn tasks(&self) -> (tasks: Vec<TaskId>)
        ensures
            tasks@ == self@,
    {
        let mut tasks: Vec<TaskId> = Vec::new();
        let mut i: usize = 0;
        while i < self.ready.len()
            invariant
                i <= self.ready@.len(),
                tasks@ == self.ready@.take(i as int),
            decreases self.ready@.len() - i,
        {
            tasks.push(self.ready[i]);
            proof {
                assert(self.ready@.take(i + 1) =~= self.ready@.take(i as int).push(self.ready@[i as int]));
            }
            i = i + 1;
        }
        proof {
            assert(self.ready@.take(self.ready@.len() as int) =~= self.ready@);
        }
        tasks
    }

    /// The interrupt source that this dispatcher is served by.
    pub fn source(&self) -> (source: Interrupt)
        requires
            self.wf(),
        ensures
            source.software() == Some(self.line()),
    {
        self.source
    }

    /// Asks for `task` to run: the request joins the end of the queue and
    /// the dispatcher's line is raised. With the queue full the request is
    /// refused, and neither the queue nor the controller changes.
    pub fn spawn(&mut self, ctl: &mut InterruptController, task: TaskId) -> (accepted: Result<
        (),
        CapacityError,
    >)
        requires
            old(self).wf(),
        ensures
            final(self).wf(),
            accepted is Ok <==> old(self)@.len() < old(self).room(),
            final(self)@ == spawned(old(self)@, old(self).room(), task),
            final(self).room() == old(self).room(),
            final(self).line() == old(self).line(),
            *final(ctl) == if accepted is Ok {
                old(ctl).with_pending(old(self).line() as int, true)
            } else {
                *old(ctl)
            },
    {
        if self.ready.len() >= self.capacity {
            return Err(CapacityError);
        }
        self.ready.push_back(task);
        pend(ctl, self.source);
        Ok(())
    }

    /// Takes the request at the head of the queue, for its task to run
    /// next. With the queue empty the dispatcher's line is lowered: the
    /// dispatcher is idle until the next request.
    pub fn next(&mut self, ctl: &mut InterruptController) -> (task: Option<TaskId>)
        requires
            old(self).wf(),
        ensures
            final(self).wf(),
            task == if old(self)@.len() > 0 {
                Some(old(self)@[0])
            } else {
                None
            },
            final(self)@ == advanced(old(self)@),
            final(self).room() == old(self).room(),
            final(self).line() == old(self).line(),
            *final(ctl) == if task is Some {
                *old(ctl)
            } else {
                old(ctl).with_pending(old(self).line() as int, false)
            },
    {
        let head: Option<TaskId> = self.ready.pop_front();
        match head {
            Some(task) => Some(task),
            None => {
                unpend(ctl, self.source);
                None
            },
        }
    }
}

} // verus!
