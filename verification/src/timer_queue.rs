//! The timer queue: the tasks that wait for an instant of the monotonic
//! timer.
//!
//! A suspended task leaves one entry, its wake instant and its name. The
//! entries stand in the order in which they fall due, those of one instant
//! in the order in which they were suspended, so the head of the queue is
//! always the instant that the timer's compare register has to hold.

use crate::dispatcher::TaskId;
use crate::error::{CapacityError, DelayError, TimerOverrun};
use std::collections::VecDeque;
use vstd::prelude::*;

verus! {

/// A task that waits, and the instant at which it is to resume.
#[derive(Clone, Copy, Debug, PartialEq, Eq, Structural)]
pub struct TimerEntry {
    pub wake_instant: u64,
    pub task: TaskId,
}

/// A task that resumes: the instant it asked for, and by how many ticks
/// the timer service came after it. A task with `late_by` above zero has
/// been woken late: the wake is a timer overrun.
#[derive(Clone, Copy, Debug, PartialEq, Eq, Structural)]
pub struct Wake {
    pub task: TaskId,
    pub wake_instant: u64,
    pub late_by: u64,
}

impl Wake {
    /// Whether the task resumes later than it asked to.
    pub open spec fn late(self) -> bool {
        self.late_by > 0
    }

    /// The overrun that this wake stands for, if the task resumes later
    /// than it asked to.
    pub fn overrun(&self) -> (overrun: Option<TimerOverrun>)
        ensures
            overrun is Some <==> self.late(),
    {
        if self.late_by > 0 {
            Some(TimerOverrun)
        } else {
            None
        }
    }
}

/// What has to happen to the timer's compare register.
#[derive(Clone, Copy, Debug, PartialEq, Eq, Structural)]
pub enum TimerAction {
    /// The head of the queue is as it was: the register stays.
    Keep,
    /// The register is set to this instant, that of the head of the queue.
    Arm(u64),
    /// Nothing waits: the timer is switched off.
    Disarm,
}

/// Whether the entries stand in the order in which they fall due.
pub open spec fn ordered(queue: Seq<TimerEntry>) -> bool {
    forall|i: int, j: int|
        0 <= i < j < queue.len() ==> #[trigger] queue[i].wake_instant
            <= #[trigger] queue[j].wake_instant
}

/// How many entries at the head of `queue` fall due no later than
/// `instant`.
pub open spec fn due(queue: Seq<TimerEntry>, instant: u64) -> nat
    decreases queue.len(),
{
    if queue.len() > 0 && queue[0].wake_instant <= instant {
        1 + due(queue.drop_first(), instant)
    } else {
        0
    }
}

/// How many entries at the head of `queue` are for other tasks than `task`:
/// where the first entry for `task` stands, or the length of the queue if
/// there is none.
pub open spec fn first_for(queue: Seq<TimerEntry>, task: TaskId) -> nat
    decreases queue.len(),
{
    if queue.len() > 0 && queue[0].task != task {
        1 + first_for(queue.drop_first(), task)
    } else {
        0
    }
}

/// `queue` with `entry` in its place: behind every entry that falls due no
/// later than it, ahead of the others.
pub open spec fn inserted(queue: Seq<TimerEntry>, entry: TimerEntry) -> Seq<TimerEntry> {
    queue.insert(due(queue, entry.wake_instant) as int, entry)
}

/// What the compare register has to hold for `queue`.
pub open spec fn armed_for(queue: Seq<TimerEntry>) -> TimerAction {
    if queue.len() > 0 {
        TimerAction::Arm(queue[0].wake_instant)
    } else {
        TimerAction::Disarm
    }
}

/// The entry `entry` as it resumes at `now`.
pub open spec fn woken(entry: TimerEntry, now: u64) -> Wake {
    Wake {
        task: entry.task,
        wake_instant: entry.wake_instant,
        late_by: (now - entry.wake_instant) as u64,
    }
}

/// `due` counts exactly the entries ahead of the first that falls due
/// after `instant`.
pub proof fn lemma_due(queue: Seq<TimerEntry>, instant: u64, n: int)
    requires
        0 <= n <= queue.len(),
        forall|i: int| 0 <= i < n ==> (#[trigger] queue[i]).wake_instant <= instant,
        n < queue.len() ==> queue[n].wake_instant > instant,
    ensures
        due(queue, instant) == n,
    decreases n,
{
    if n > 0 {
        let rest = queue.drop_first();
        assert forall|i: int| 0 <= i < n - 1 implies (#[trigger] rest[i]).wake_instant
            <= instant by {
            assert(rest[i] == queue[i + 1]);
        }
        lemma_due(rest, instant, n - 1);
    }
}

/// What `due` says of an ordered queue: it is at most the length, the
/// entries ahead of it fall due no later than `instant`, and all others
/// later.
pub proof fn lemma_due_splits(queue: Seq<TimerEntry>, instant: u64)
    requires
        ordered(queue),
    ensures
        due(queue, instant) <= queue.len(),
        forall|i: int|
            0 <= i < due(queue, instant) ==> (#[trigger] queue[i]).wake_instant <= instant,
        forall|i: int|
            due(queue, instant) <= i < queue.len() ==> (#[trigger] queue[i]).wake_instant
                > instant,
    decreases queue.len(),
{
    if queue.len() > 0 && queue[0].wake_instant <= instant {
        let rest = queue.drop_first();
        assert forall|i: int, j: int| 0 <= i < j < rest.len() implies #[trigger] rest[i].wake_instant
            <= #[trigger] rest[j].wake_instant by {
            assert(rest[i] == queue[i + 1]);
            assert(rest[j] == queue[j + 1]);
        }
        lemma_due_splits(rest, instant);
        assert forall|i: int| 0 <= i < due(queue, instant) implies (#[trigger] queue[i]).wake_instant
            <= instant by {
            if i > 0 {
                assert(queue[i] == rest[i - 1]);
            }
        }
        assert forall|i: int| due(queue, instant) <= i < queue.len() implies (
        #[trigger] queue[i]).wake_instant > instant by {
            assert(queue[i] == rest[i - 1]);
        }
    } else if queue.len() > 0 {
        assert forall|i: int| 0 <= i < queue.len() implies (#[trigger] queue[i]).wake_instant
            > instant by {
            if i > 0 {
                assert(queue[0].wake_instant <= queue[i].wake_instant);
            }
        }
    }
}

/// Putting an entry in its place keeps the queue ordered.
pub proof fn lemma_inserted_ordered(queue: Seq<TimerEntry>, entry: TimerEntry)
    requires
        ordered(queue),
    ensures
        ordered(inserted(queue, entry)),
        inserted(queue, entry).len() == queue.len() + 1,
{
    lemma_due_splits(queue, entry.wake_instant);
    let slot = due(queue, entry.wake_instant) as int;
    let after = inserted(queue, entry);
    assert forall|i: int, j: int| 0 <= i < j < after.len() implies #[trigger] after[i].wake_instant
        <= #[trigger] after[j].wake_instant by {
        let a = if i < slot { i } else { i - 1 };
        let b = if j < slot { j } else { j - 1 };
        if i != slot {
            assert(after[i] == queue[a]);
        }
        if j != slot {
            assert(after[j] == queue[b]);
        }
    }
}

/// The queue that holds `requests` once each has been put in its place,
/// in the order in which the tasks were suspended.
pub open spec fn suspended(requests: Seq<TimerEntry>) -> Seq<TimerEntry>
    decreases requests.len(),
{
    if requests.len() == 0 {
        Seq::empty()
    } else {
        inserted(suspended(requests.drop_last()), requests.last())
    }
}

/// Where in `suspended(requests)` the request `requests[i]` stands.
pub open spec fn place(requests: Seq<TimerEntry>, i: int) -> int
    decreases requests.len(),
{
    if requests.len() == 0 {
        0
    } else {
        let earlier = requests.drop_last();
        let slot = due(suspended(earlier), requests.last().wake_instant) as int;
        if i == requests.len() - 1 {
            slot
        } else if place(earlier, i) < slot {
            place(earlier, i)
        } else {
            place(earlier, i) + 1
        }
    }
}

/// Timer ordering: the queue holds every request once, in the order of
/// the wake instants, and requests for one instant in the order in which
/// they were made. The timer service takes the entries from the head, so
/// this is the order in which the tasks resume.
pub proof fn lemma_resumption_order(requests: Seq<TimerEntry>)
    ensures
        suspended(requests).len() == requests.len(),
        ordered(suspended(requests)),
        forall|i: int|
            0 <= i < requests.len() ==> 0 <= #[trigger] place(requests, i) < requests.len()
                && suspended(requests)[place(requests, i)] == requests[i],
        forall|i: int, j: int|
            0 <= i < requests.len() && 0 <= j < requests.len() ==> (#[trigger] place(requests, i)
                < #[trigger] place(requests, j) <==> requests[i].wake_instant
                < requests[j].wake_instant || (requests[i].wake_instant
                == requests[j].wake_instant && i < j)),
    decreases requests.len(),
{
    if requests.len() > 0 {
        let earlier = requests.drop_last();
        let last = requests.last();
        let queue = suspended(earlier);
        let slot = due(queue, last.wake_instant) as int;
        lemma_resumption_order(earlier);
        lemma_due_splits(queue, last.wake_instant);
        lemma_inserted_ordered(queue, last);
        assert forall|i: int| 0 <= i < earlier.len() implies earlier[i] == requests[i] by {}
        assert forall|i: int| 0 <= i < requests.len() implies 0 <= #[trigger] place(requests, i)
            < requests.len() && suspended(requests)[place(requests, i)] == requests[i] by {
            if i < requests.len() - 1 {
                assert(queue[place(earlier, i)] == earlier[i]);
            }
        }
        assert forall|i: int, j: int|
            0 <= i < requests.len() && 0 <= j < requests.len() implies (#[trigger] place(
            requests,
            i,
        ) < #[trigger] place(requests, j) <==> requests[i].wake_instant < requests[j].wake_instant
            || (requests[i].wake_instant == requests[j].wake_instant && i < j)) by {
            let n = requests.len() - 1;
            if i < n {
                assert(queue[place(earlier, i)] == earlier[i]);
            }
            if j < n {
                assert(queue[place(earlier, j)] == earlier[j]);
            }
        }
    }
}

/// `first_for` counts exactly the entries ahead of the first one for
/// `task`.
pub proof fn lemma_first_for(queue: Seq<TimerEntry>, task: TaskId, n: int)
    requires
        0 <= n <= queue.len(),
        forall|i: int| 0 <= i < n ==> (#[trigger] queue[i]).task != task,
        n < queue.len() ==> queue[n].task == task,
    ensures
        first_for(queue, task) == n,
    decreases n,
{
    if n > 0 {
        let rest = queue.drop_first();
        assert forall|i: int| 0 <= i < n - 1 implies (#[trigger] rest[i]).task != task by {
            assert(rest[i] == queue[i + 1]);
        }
        lemma_first_for(rest, task, n - 1);
    }
}

/// The tasks that wait for the monotonic timer, with room for a fixed
/// number of them.
pub struct TimerQueue {
    capacity: usize,
    entries: VecDeque<TimerEntry>,
}

impl View for TimerQueue {
    type V = Seq<TimerEntry>;

    /// The entries, the next to fall due first.
    closed spec fn view(&self) -> Seq<TimerEntry> {
        self.entries@
    }
}

impl TimerQueue {
    /// How many tasks may wait at once.
    pub closed spec fn room(self) -> nat {
        self.capacity as nat
    }

    /// Whether the entries stand in the order in which they fall due, and
    /// no more of them than there is room for.
    pub open spec fn wf(self) -> bool {
        &&& ordered(self@)
        &&& self@.len() <= self.room()
    }

    /// An empty queue with room for `capacity` tasks.
    pub fn new(capacity: usize) -> (queue: TimerQueue)
        ensures
            queue.wf(),
            queue@ == Seq::<TimerEntry>::empty(),
            queue.room() == capacity,
    {
        TimerQueue { capacity, entries: VecDeque::with_capacity(capacity) }
    }

    /// How many tasks may wait at once.
    pub fn capacity(&self) -> (n: usize)
        ensures
            n == self.room(),
    {
        self.capacity
    }

    /// How many tasks wait.
    pub fn len(&self) -> (n: usize)
        ensures
            n == self@.len(),
    {
        self.entries.len()
    }

    /// The entries, the next to fall due first.
    pub fn entries(&self) -> (entries: Vec<TimerEntry>)
        ensures
            entries@ == self@,
    {
        let mut entries: Vec<TimerEntry> = Vec::new();
        let mut i: usize = 0;
        while i < self.entries.len()
            invariant
                i <= self.entries@.len(),
                entries@ == self.entries@.take(i as int),
            decreases self.entries@.len() - i,
        {
            entries.push(self.entries[i]);
            proof {
                assert(self.entries@.take(i + 1) =~= self.entries@.take(i as int).push(
                    self.entries@[i as int],
                ));
            }
            i = i + 1;
        }
        proof {
            assert(self.entries@.take(self.entries@.len() as int) =~= self.entries@);
        }
        entries
    }

    /// The instant that the compare register has to hold: that of the head
    /// of the queue.
    pub fn next_wake(&self) -> (instant: Option<u64>)
        ensures
            instant == if self@.len() > 0 {
                Some(self@[0].wake_instant)
            } else {
                None
            },
    {
        if self.entries.len() > 0 {
            Some(self.entries[0].wake_instant)
        } else {
            None
        }
    }

    /// Suspends `task` at `now` for `duration` ticks: its entry takes its
    /// place in the queue, behind the entries that fall due no later.
    ///
    /// The result says what to do with the compare register: to arm it for
    /// the new entry where that is the new head, and to keep it otherwise.
    /// A wake instant beyond what the timer can count is refused as an
    /// overrun, and a request to a full queue as a capacity error; the
    /// queue is then as it was.
    pub fn delay(&mut self, now: u64, duration: u64, task: TaskId) -> (outcome: Result<
        TimerAction,
        DelayError,
    >)
        requires
            old(self).wf(),
        ensures
            final(self).wf(),
            final(self).room() == old(self).room(),
            match outcome {
                Ok(action) => {
                    let entry = TimerEntry { wake_instant: (now + duration) as u64, task };
                    &&& now + duration <= u64::MAX
                    &&& old(self)@.len() < old(self).room()
                    &&& final(self)@ == inserted(old(self)@, entry)
                    &&& action == if due(old(self)@, entry.wake_instant) == 0 {
                        TimerAction::Arm(entry.wake_instant)
                    } else {
                        TimerAction::Keep
                    }
                },
                Err(DelayError::Overrun(_)) => {
                    &&& now + duration > u64::MAX
                    &&& final(self)@ == old(self)@
                },
                Err(DelayError::Capacity(_)) => {
                    &&& now + duration <= u64::MAX
                    &&& old(self)@.len() >= old(self).room()
                    &&& final(self)@ == old(self)@
                },
            },
    {
        let wake_instant: u64 = match now.checked_add(duration) {
            Some(instant) => instant,
            None => {
                return Err(DelayError::Overrun(TimerOverrun));
            },
        };
        if self.entries.len() >= self.capacity {
            return Err(DelayError::Capacity(CapacityError));
        }
        let mut slot: usize = 0;
        while slot < self.entries.len() && self.entries[slot].wake_instant <= wake_instant
            invariant
                slot <= self.entries@.len(),
                forall|i: int| 0 <= i < slot ==> (#[trigger] self.entries@[i]).wake_instant
                    <= wake_instant,
            decreases self.entries@.len() - slot,
        {
            slot = slot + 1;
        }
        proof {
            lemma_due(self.entries@, wake_instant, slot as int);
            lemma_inserted_ordered(self.entries@, TimerEntry { wake_instant, task });
        }
        self.entries.insert(slot, TimerEntry { wake_instant, task });
        if slot == 0 {
            Ok(TimerAction::Arm(wake_instant))
        } else {
            Ok(TimerAction::Keep)
        }
    }

    /// Takes the head of the queue if it has fallen due at `now`, for its
    /// task to resume. The queue is as it was if nothing has fallen due.
    pub fn pop_due(&mut self, now: u64) -> (wake: Option<Wake>)
        requires
            old(self).wf(),
        ensures
            final(self).wf(),
            final(self).room() == old(self).room(),
            match wake {
                Some(w) => {
                    &&& old(self)@.len() > 0
                    &&& old(self)@[0].wake_instant <= now
                    &&& w == woken(old(self)@[0], now)
                    &&& final(self)@ == old(self)@.drop_first()
                },
                None => {
                    &&& old(self)@.len() > 0 ==> old(self)@[0].wake_instant > now
                    &&& final(self)@ == old(self)@
                },
            },
    {
        if self.entries.len() == 0 || self.entries[0].wake_instant > now {
            return None;
        }
        match self.entries.pop_front() {
            Some(entry) => {
                proof {
                    let rest = old(self)@.drop_first();
                    assert(self.entries@ =~= rest);
                    assert forall|i: int, j: int| 0 <= i < j < rest.len() implies #[trigger] rest[i].wake_instant
                        <= #[trigger] rest[j].wake_instant by {
                        assert(rest[i] == old(self)@[i + 1]);
                        assert(rest[j] == old(self)@[j + 1]);
                    }
                }
                Some(
                    Wake {
                        task: entry.task,
                        wake_instant: entry.wake_instant,
                        late_by: now - entry.wake_instant,
                    },
                )
            },
            None => None,
        }
    }

    /// Serves the timer at `now`: takes every entry that has fallen due,
    /// in the order of the queue, and says what the compare register has to
    /// hold for the entries that remain.
    pub fn service(&mut self, now: u64) -> (served: (Vec<Wake>, TimerAction))
        requires
            old(self).wf(),
        ensures
            final(self).wf(),
            final(self).room() == old(self).room(),
            served.0@.len() == due(old(self)@, now),
            forall|i: int|
                0 <= i < served.0@.len() ==> #[trigger] served.0@[i] == woken(old(self)@[i], now),
            final(self)@ == old(self)@.skip(due(old(self)@, now) as int),
            served.1 == armed_for(final(self)@),
    {
        let mut wakes: Vec<Wake> = Vec::new();
        loop
            invariant
                self.wf(),
                self.room() == old(self).room(),
                wakes@.len() <= old(self)@.len(),
                forall|i: int|
                    0 <= i < wakes@.len() ==> (#[trigger] old(self)@[i]).wake_instant <= now,
                forall|i: int|
                    0 <= i < wakes@.len() ==> #[trigger] wakes@[i] == woken(old(self)@[i], now),
                self@ == old(self)@.skip(wakes@.len() as int),
            ensures
                self.wf(),
                self.room() == old(self).room(),
                wakes@.len() == due(old(self)@, now),
                forall|i: int|
                    0 <= i < wakes@.len() ==> #[trigger] wakes@[i] == woken(old(self)@[i], now),
                self@ == old(self)@.skip(wakes@.len() as int),
            decreases self@.len(),
        {
            let ghost before = self@;
            let ghost n = wakes@.len() as int;
            match self.pop_due(now) {
                Some(wake) => {
                    proof {
                        assert(before[0] == old(self)@[n]);
                        assert(self@ =~= old(self)@.skip(n + 1));
                    }
                    wakes.push(wake);
                },
                None => {
                    proof {
                        if before.len() > 0 {
                            assert(before[0] == old(self)@[n]);
                        }
                        lemma_due(old(self)@, now, n);
                    }
                    break ;
                },
            }
        }
        let action: TimerAction = match self.next_wake() {
            Some(instant) => TimerAction::Arm(instant),
            None => TimerAction::Disarm,
        };
        (wakes, action)
    }

    /// Withdraws the suspension of `task`: its entry, the earliest if it
    /// has several, leaves the queue.
    ///
    /// The result is `None` if no entry was for `task`. Otherwise it says
    /// what to do with the compare register: where the head left, to arm it
    /// for the new head or to switch the timer off, and to keep it
    /// otherwise.
    pub fn cancel(&mut self, task: TaskId) -> (withdrawn: Option<TimerAction>)
        requires
            old(self).wf(),
        ensures
            final(self).wf(),
            final(self).room() == old(self).room(),
            ({
                let at = first_for(old(self)@, task) as int;
                if at < old(self)@.len() {
                    &&& final(self)@ == old(self)@.remove(at)
                    &&& withdrawn == Some(
                        if at == 0 {
                            armed_for(final(self)@)
                        } else {
                            TimerAction::Keep
                        },
                    )
                } else {
                    &&& final(self)@ == old(self)@
                    &&& withdrawn is None
                }
            }),
    {
        let mut at: usize = 0;
        while at < self.entries.len() && self.entries[at].task != task
            invariant
                at <= self.entries@.len(),
                forall|i: int| 0 <= i < at ==> (#[trigger] self.entries@[i]).task != task,
            decreases self.entries@.len() - at,
        {
            at = at + 1;
        }
        proof {
            lemma_first_for(self.entries@, task, at as int);
        }
        if at == self.entries.len() {
            return None;
        }
        let _ = self.entries.remove(at);
        proof {
            let rest = old(self)@.remove(at as int);
            assert(self.entries@ =~= rest);
            assert forall|i: int, j: int| 0 <= i < j < rest.len() implies #[trigger] rest[i].wake_instant
                <= #[trigger] rest[j].wake_instant by {
                let a = if i < at { i } else { i + 1 };
                let b = if j < at { j } else { j + 1 };
                assert(rest[i] == old(self)@[a]);
                assert(rest[j] == old(self)@[b]);
            }
        }
        if at == 0 {
            match self.next_wake() {
                Some(instant) => Some(TimerAction::Arm(instant)),
                None => Some(TimerAction::Disarm),
            }
        } else {
            Some(TimerAction::Keep)
        }
    }
}

} // verus!
