//! The executor: the tasks of a system, the dispatchers that they are bound
//! to, and the timer queue that they sleep in.
//!
//! Tasks and dispatchers are registered before the system starts. From then
//! on a task is asked for with [`Executor::spawn`], taken for running with
//! [`Executor::next`], suspended with [`Executor::delay`], and resumed by
//! the timer service, [`Executor::wake`], which hands every task that has
//! fallen due back to its dispatcher.

use crate::controller::InterruptController;
use crate::dispatcher::{advanced, spawned, Dispatcher, TaskId};
use crate::error::{CapacityError, DelayError};
use crate::interrupt::{Interrupt, SOFTWARE_INTERRUPTS};
use crate::timer_queue::{
    armed_for, due, first_for, inserted, woken, TimerAction, TimerEntry, TimerQueue, Wake,
};
use vstd::prelude::*;

verus! {

/// What an executor holds.
pub struct ExecutorView {
    /// For each dispatcher, the requests that wait, the next to run first.
    pub ready: Seq<Seq<TaskId>>,
    /// For each dispatcher, how many requests may wait at once.
    pub rooms: Seq<nat>,
    /// For each dispatcher, the index of its line among the software-raised
    /// sources.
    pub lines: Seq<u8>,
    /// For each task, the dispatcher that it is bound to.
    pub homes: Seq<int>,
    /// The suspended tasks, the next to fall due first.
    pub waiting: Seq<TimerEntry>,
    /// How many tasks may be suspended at once.
    pub timer_room: nat,
}

/// A task that the timer service has taken from the timer queue, and
/// whether its dispatcher took the request for it to resume. A request that
/// was not accepted met a full queue.
#[derive(Clone, Copy, Debug, PartialEq, Eq, Structural)]
pub struct Resumption {
    pub wake: Wake,
    pub accepted: bool,
}

/// The ready queues and the controller once the tasks of `fallen` have
/// been handed to their dispatchers, one after the other: each joins the
/// end of its dispatcher's queue and raises its line, unless the queue is
/// full.
pub open spec fn resumed(
    view: ExecutorView,
    ctl: InterruptController,
    fallen: Seq<TimerEntry>,
) -> (Seq<Seq<TaskId>>, InterruptController)
    decreases fallen.len(),
{
    if fallen.len() == 0 {
        (view.ready, ctl)
    } else {
        let (ready, before) = resumed(view, ctl, fallen.drop_last());
        let task = fallen.last().task;
        let home = view.homes[task as int];
        if ready[home].len() < view.rooms[home] {
            (
                ready.update(home, ready[home].push(task)),
                before.with_pending(view.lines[home] as int, true),
            )
        } else {
            (ready, before)
        }
    }
}

/// Whether the dispatcher of the last task of `fallen` has room for it
/// once the tasks ahead of it have been handed over.
pub open spec fn accepts_last(
    view: ExecutorView,
    ctl: InterruptController,
    fallen: Seq<TimerEntry>,
) -> bool {
    let home = view.homes[fallen.last().task as int];
    resumed(view, ctl, fallen.drop_last()).0[home].len() < view.rooms[home]
}

/// The tasks of a system with the dispatchers that serve them and the
/// timer queue.
pub struct Executor {
    dispatchers: Vec<Dispatcher>,
    homes: Vec<usize>,
    timer: TimerQueue,
}

impl View for Executor {
    type V = ExecutorView;

    closed spec fn view(&self) -> ExecutorView {
        ExecutorView {
            ready: Seq::new(self.dispatchers@.len(), |d: int| self.dispatchers@[d]@),
            rooms: Seq::new(self.dispatchers@.len(), |d: int| self.dispatchers@[d].room()),
            lines: Seq::new(self.dispatchers@.len(), |d: int| self.dispatchers@[d].line()),
            homes: Seq::new(self.homes@.len(), |t: int| self.homes@[t] as int),
            waiting: self.timer@,
            timer_room: self.timer.room(),
        }
    }
}

impl ExecutorView {
    /// Whether the parts fit together: each dispatcher has a line of its
    /// own and no more requests than it has room for, each task is bound to
    /// a dispatcher, the timer queue is in order and within its room, and
    /// only registered tasks stand in the queues.
    pub open spec fn wf(self) -> bool {
        &&& self.rooms.len() == self.ready.len()
        &&& self.lines.len() == self.ready.len()
        &&& forall|d: int| 0 <= d < self.ready.len() ==> (#[trigger] self.ready[d]).len() <= self.rooms[d]
        &&& forall|d: int| 0 <= d < self.lines.len() ==> #[trigger] self.lines[d] < SOFTWARE_INTERRUPTS
        &&& forall|d: int, e: int|
            0 <= d < e < self.lines.len() ==> #[trigger] self.lines[d] != #[trigger] self.lines[e]
        &&& forall|d: int, i: int|
            0 <= d < self.ready.len() && 0 <= i < self.ready[d].len() ==> #[trigger] self.ready[d][i]
                < self.homes.len()
        &&& forall|t: int| 0 <= t < self.homes.len() ==> 0 <= #[trigger] self.homes[t] < self.ready.len()
        &&& crate::timer_queue::ordered(self.waiting)
        &&& self.waiting.len() <= self.timer_room
        &&& forall|i: int| 0 <= i < self.waiting.len() ==> (#[trigger] self.waiting[i]).task < self.homes.len()
    }
}

impl Executor {
    /// Whether the executor's parts are well-formed and fit together.
    pub closed spec fn wf(self) -> bool {
        &&& self@.wf()
        &&& forall|d: int| 0 <= d < self.dispatchers@.len() ==> (#[trigger] self.dispatchers@[d]).wf()
        &&& self.timer.wf()
    }

    /// A well-formed executor has a well-formed view.
    pub proof fn lemma_wf(self)
        requires
            self.wf(),
        ensures
            self@.wf(),
    {
    }

    /// An executor without tasks or dispatchers, with room for
    /// `timer_capacity` suspended tasks.
    pub fn new(timer_capacity: usize) -> (executor: Executor)
        ensures
            executor.wf(),
            executor@ == (ExecutorView {
                ready: Seq::empty(),
                rooms: Seq::empty(),
                lines: Seq::empty(),
                homes: Seq::empty(),
                waiting: Seq::empty(),
                timer_room: timer_capacity as nat,
            }),
    {
        let executor = Executor {
            dispatchers: Vec::new(),
            homes: Vec::new(),
            timer: TimerQueue::new(timer_capacity),
        };
        proof {
            assert(executor@.ready =~= Seq::empty());
            assert(executor@.rooms =~= Seq::empty());
            assert(executor@.lines =~= Seq::empty());
            assert(executor@.homes =~= Seq::empty());
        }
        executor
    }

    /// Registers a dispatcher on the software-raised source `source`, with
    /// room for `capacity` requests, and gives its index. There is none on
    /// a source that software cannot raise, nor on one that a dispatcher
    /// has already.
    pub fn add_dispatcher(&mut self, source: Interrupt, capacity: usize) -> (level: Option<usize>)
        requires
            old(self).wf(),
        ensures
            final(self).wf(),
            match level {
                Some(level) => {
                    &&& source.software() matches Some(line)
                    &&& !old(self)@.lines.contains(line)
                    &&& level == old(self)@.ready.len()
                    &&& final(self)@ == (ExecutorView {
                        ready: old(self)@.ready.push(Seq::empty()),
                        rooms: old(self)@.rooms.push(capacity as nat),
                        lines: old(self)@.lines.push(line),
                        ..old(self)@
                    })
                },
                None => {
                    &&& source.software() matches Some(line) ==> old(self)@.lines.contains(line)
                    &&& final(self)@ == old(self)@
                },
            },
    {
        let line: u8 = match source.software_index() {
            Some(line) => line,
            None => {
                return None;
            },
        };
        let mut d: usize = 0;
        while d < self.dispatchers.len()
            invariant
                self.wf(),
                *self == *old(self),
                d <= self.dispatchers@.len(),
                source.software() == Some(line),
                forall|e: int| 0 <= e < d ==> #[trigger] self@.lines[e] != line,
            decreases self.dispatchers@.len() - d,
        {
            let taken: Interrupt = self.dispatchers[d].source();
            if taken.software_index() == Some(line) {
                proof {
                    assert(self@.lines[d as int] == line);
                }
                return None;
            }
            d = d + 1;
        }
        match Dispatcher::new(source, capacity) {
            Some(dispatcher) => {
                let level: usize = self.dispatchers.len();
                self.dispatchers.push(dispatcher);
                proof {
                    assert(self@.ready =~= old(self)@.ready.push(Seq::empty()));
                    assert(self@.rooms =~= old(self)@.rooms.push(capacity as nat));
                    assert(self@.lines =~= old(self)@.lines.push(line));
                    assert(self@.homes =~= old(self)@.homes);
                }
                Some(level)
            },
            None => None,
        }
    }

    /// Registers a task on dispatcher `level` and gives its name. There is
    /// none on a dispatcher that is not registered.
    pub fn add_task(&mut self, level: usize) -> (task: Option<TaskId>)
        requires
            old(self).wf(),
        ensures
            final(self).wf(),
            match task {
                Some(task) => {
                    &&& level < old(self)@.ready.len()
                    &&& task == old(self)@.homes.len()
                    &&& final(self)@ == (ExecutorView {
                        homes: old(self)@.homes.push(level as int),
                        ..old(self)@
                    })
                },
                None => {
                    &&& level >= old(self)@.ready.len()
                    &&& final(self)@ == old(self)@
                },
            },
    {
        if level >= self.dispatchers.len() {
            return None;
        }
        let task: TaskId = self.homes.len();
        self.homes.push(level);
        proof {
            assert(self@.ready =~= old(self)@.ready);
            assert(self@.rooms =~= old(self)@.rooms);
            assert(self@.lines =~= old(self)@.lines);
            assert(self@.homes =~= old(self)@.homes.push(level as int));
        }
        Some(task)
    }

    /// How many dispatchers are registered.
    pub fn levels(&self) -> (n: usize)
        ensures
            n == self@.ready.len(),
    {
        self.dispatchers.len()
    }

    /// How many tasks are registered.
    pub fn tasks(&self) -> (n: usize)
        ensures
            n == self@.homes.len(),
    {
        self.homes.len()
    }

    /// The dispatcher that is served by `source`, if there is one.
    pub fn level_of(&self, source: Interrupt) -> (level: Option<usize>)
        requires
            self.wf(),
        ensures
            match level {
                Some(level) => level < self@.lines.len() && source.software() == Some(
                    self@.lines[level as int],
                ),
                None => source.software() matches Some(line) ==> !self@.lines.contains(line),
            },
    {
        let line: u8 = match source.software_index() {
            Some(line) => line,
            None => {
                return None;
            },
        };
        let mut d: usize = 0;
        while d < self.dispatchers.len()
            invariant
                self.wf(),
                d <= self.dispatchers@.len(),
                source.software() == Some(line),
                forall|e: int| 0 <= e < d ==> #[trigger] self@.lines[e] != line,
            decreases self.dispatchers@.len() - d,
        {
            let taken: Interrupt = self.dispatchers[d].source();
            if taken.software_index() == Some(line) {
                proof {
                    assert(self@.lines[d as int] == line);
                }
                return Some(d);
            }
            d = d + 1;
        }
        None
    }

    /// The requests that wait on dispatcher `level`, the next to run first.
    pub fn ready(&self, level: usize) -> (tasks: Vec<TaskId>)
        requires
            level < self@.ready.len(),
        ensures
            tasks@ == self@.ready[level as int],
    {
        self.dispatchers[level].tasks()
    }

    /// The suspended tasks, the next to fall due first.
    pub fn waiting(&self) -> (entries: Vec<TimerEntry>)
        ensures
            entries@ == self@.waiting,
    {
        self.timer.entries()
    }

    /// The instant that the timer's compare register has to hold.
    pub fn next_wake(&self) -> (instant: Option<u64>)
        ensures
            instant == if self@.waiting.len() > 0 {
                Some(self@.waiting[0].wake_instant)
            } else {
                None
            },
    {
        self.timer.next_wake()
    }

    /// Asks for `task` to run: the request joins the end of the queue of
    /// the task's dispatcher and the dispatcher's line is raised. With that
    /// queue full the request is refused and nothing changes.
    pub fn spawn(&mut self, ctl: &mut InterruptController, task: TaskId) -> (accepted: Result<
        (),
        CapacityError,
    >)
        requires
            old(self).wf(),
            task < old(self)@.homes.len(),
        ensures
            final(self).wf(),
            ({
                let home = old(self)@.homes[task as int];
                &&& accepted is Ok <==> old(self)@.ready[home].len() < old(self)@.rooms[home]
                &&& final(self)@ == (ExecutorView {
                    ready: old(self)@.ready.update(
                        home,
                        spawned(old(self)@.ready[home], old(self)@.rooms[home], task),
                    ),
                    ..old(self)@
                })
                &&& *final(ctl) == if accepted is Ok {
                    old(ctl).with_pending(old(self)@.lines[home] as int, true)
                } else {
                    *old(ctl)
                }
            }),
    {
        let home: usize = self.homes[task];
        proof {
            assert(old(self)@.homes[task as int] == home);
        }
        let accepted = self.dispatchers[home].spawn(ctl, task);
        proof {
            assert(self@.ready =~= old(self)@.ready.update(
                home as int,
                spawned(old(self)@.ready[home as int], old(self)@.rooms[home as int], task),
            ));
            assert(self@.rooms =~= old(self)@.rooms);
            assert(self@.lines =~= old(self)@.lines);
            assert(self@.homes =~= old(self)@.homes);
        }
        accepted
    }

    /// Takes the request at the head of the queue of dispatcher `level`,
    /// for its task to run next. With the queue empty the dispatcher's line
    /// is lowered.
    pub fn next(&mut self, ctl: &mut InterruptController, level: usize) -> (task: Option<TaskId>)
        requires
            old(self).wf(),
            level < old(self)@.ready.len(),
        ensures
            final(self).wf(),
            task == if old(self)@.ready[level as int].len() > 0 {
                Some(old(self)@.ready[level as int][0])
            } else {
                None
            },
            final(self)@ == (ExecutorView {
                ready: old(self)@.ready.update(level as int, advanced(old(self)@.ready[level as int])),
                ..old(self)@
            }),
            *final(ctl) == if task is Some {
                *old(ctl)
            } else {
                old(ctl).with_pending(old(self)@.lines[level as int] as int, false)
            },
    {
        let task = self.dispatchers[level].next(ctl);
        proof {
            assert(self@.ready =~= old(self)@.ready.update(
                level as int,
                advanced(old(self)@.ready[level as int]),
            ));
            assert(self@.rooms =~= old(self)@.rooms);
            assert(self@.lines =~= old(self)@.lines);
            assert(self@.homes =~= old(self)@.homes);
        }
        task
    }

    /// Suspends `task` at `now` for `duration` ticks; see
    /// [`TimerQueue::delay`].
    pub fn delay(&mut self, now: u64, duration: u64, task: TaskId) -> (outcome: Result<
        TimerAction,
        DelayError,
    >)
        requires
            old(self).wf(),
            task < old(self)@.homes.len(),
        ensures
            final(self).wf(),
            match outcome {
                Ok(action) => {
                    let entry = TimerEntry { wake_instant: (now + duration) as u64, task };
                    &&& now + duration <= u64::MAX
                    &&& old(self)@.waiting.len() < old(self)@.timer_room
                    &&& final(self)@ == (ExecutorView {
                        waiting: inserted(old(self)@.waiting, entry),
                        ..old(self)@
                    })
                    &&& action == if due(old(self)@.waiting, entry.wake_instant) == 0 {
                        TimerAction::Arm(entry.wake_instant)
                    } else {
                        TimerAction::Keep
                    }
                },
                Err(DelayError::Overrun(_)) => {
                    &&& now + duration > u64::MAX
                    &&& final(self)@ == old(self)@
                },
                Err(DelayError::Capacity(_)) => {
                    &&& now + duration <= u64::MAX
                    &&& old(self)@.waiting.len() >= old(self)@.timer_room
                    &&& final(self)@ == old(self)@
                },
            },
    {
        let outcome = self.timer.delay(now, duration, task);
        proof {
            if outcome is Ok {
                crate::timer_queue::lemma_due_splits(old(self)@.waiting, (now + duration) as u64);
            }
        }
        outcome
    }

    /// Withdraws the suspension of `task`; see [`TimerQueue::cancel`].
    pub fn cancel(&mut self, task: TaskId) -> (withdrawn: Option<TimerAction>)
        requires
            old(self).wf(),
        ensures
            final(self).wf(),
            ({
                let at = first_for(old(self)@.waiting, task) as int;
                if at < old(self)@.waiting.len() {
                    &&& final(self)@ == (ExecutorView {
                        waiting: old(self)@.waiting.remove(at),
                        ..old(self)@
                    })
                    &&& withdrawn == Some(
                        if at == 0 {
                            armed_for(final(self)@.waiting)
                        } else {
                            TimerAction::Keep
                        },
                    )
                } else {
                    &&& final(self)@ == old(self)@
                    &&& withdrawn is None
                }
            }),
    {
        self.timer.cancel(task)
    }

    /// Serves the timer at `now`: every task that has fallen due leaves the
    /// timer queue, in the order of the queue, and is asked for on its
    /// dispatcher, as by [`Executor::spawn`].
    ///
    /// The result lists the tasks taken, each with the lateness of its
    /// wake and with whether its dispatcher accepted it, and says what the
    /// compare register has to hold for the tasks that still wait.
    pub fn wake(&mut self, ctl: &mut InterruptController, now: u64) -> (served: (
        Vec<Resumption>,
        TimerAction,
    ))
        requires
            old(self).wf(),
        ensures
            final(self).wf(),
            ({
                let n = due(old(self)@.waiting, now) as int;
                let fallen = old(self)@.waiting.take(n);
                &&& served.0@.len() == n
                &&& forall|i: int|
                    0 <= i < n ==> #[trigger] served.0@[i] == (Resumption {
                        wake: woken(old(self)@.waiting[i], now),
                        accepted: accepts_last(
                            old(self)@,
                            *old(ctl),
                            old(self)@.waiting.take(i + 1),
                        ),
                    })
                &&& final(self)@ == (ExecutorView {
                    ready: resumed(old(self)@, *old(ctl), fallen).0,
                    waiting: old(self)@.waiting.skip(n),
                    ..old(self)@
                })
                &&& *final(ctl) == resumed(old(self)@, *old(ctl), fallen).1
                &&& served.1 == armed_for(final(self)@.waiting)
            }),
    {
        let mut outcomes: Vec<Resumption> = Vec::new();
        proof {
            assert(old(self)@.waiting.skip(0) =~= old(self)@.waiting);
        }
        loop
            invariant
                self.wf(),
                old(self)@.wf(),
                outcomes@.len() <= old(self)@.waiting.len(),
                forall|i: int|
                    0 <= i < outcomes@.len() ==> (#[trigger] old(self)@.waiting[i]).wake_instant
                        <= now,
                forall|i: int|
                    0 <= i < outcomes@.len() ==> #[trigger] outcomes@[i] == (Resumption {
                        wake: woken(old(self)@.waiting[i], now),
                        accepted: accepts_last(
                            old(self)@,
                            *old(ctl),
                            old(self)@.waiting.take(i + 1),
                        ),
                    }),
                self@ == (ExecutorView {
                    ready: resumed(
                        old(self)@,
                        *old(ctl),
                        old(self)@.waiting.take(outcomes@.len() as int),
                    ).0,
                    waiting: old(self)@.waiting.skip(outcomes@.len() as int),
                    ..old(self)@
                }),
                *ctl == resumed(
                    old(self)@,
                    *old(ctl),
                    old(self)@.waiting.take(outcomes@.len() as int),
                ).1,
            ensures
                self.wf(),
                outcomes@.len() == due(old(self)@.waiting, now),
                forall|i: int|
                    0 <= i < outcomes@.len() ==> #[trigger] outcomes@[i] == (Resumption {
                        wake: woken(old(self)@.waiting[i], now),
                        accepted: accepts_last(
                            old(self)@,
                            *old(ctl),
                            old(self)@.waiting.take(i + 1),
                        ),
                    }),
                self@ == (ExecutorView {
                    ready: resumed(
                        old(self)@,
                        *old(ctl),
                        old(self)@.waiting.take(outcomes@.len() as int),
                    ).0,
                    waiting: old(self)@.waiting.skip(outcomes@.len() as int),
                    ..old(self)@
                }),
                *ctl == resumed(
                    old(self)@,
                    *old(ctl),
                    old(self)@.waiting.take(outcomes@.len() as int),
                ).1,
            decreases self@.waiting.len(),
        {
            let ghost k = outcomes@.len() as int;
            let ghost before = self@;
            match self.timer.pop_due(now) {
                Some(wake) => {
                    proof {
                        assert(before.waiting[0] == old(self)@.waiting[k]);
                        assert(self@.waiting =~= old(self)@.waiting.skip(k + 1));
                        assert(self@.ready =~= before.ready);
                        assert(self@.rooms =~= before.rooms);
                        assert(self@.lines =~= before.lines);
                        assert(self@.homes =~= before.homes);
                        assert forall|i: int| 0 <= i < self@.waiting.len() implies (
                        #[trigger] self@.waiting[i]).task < self@.homes.len() by {
                            assert(self@.waiting[i] == old(self)@.waiting[k + 1 + i]);
                        }
                        let fallen = old(self)@.waiting.take(k + 1);
                        assert(fallen.drop_last() =~= old(self)@.waiting.take(k));
                        assert(fallen.last() == old(self)@.waiting[k]);
                    }
                    let ghost popped = self@;
                    let ghost raised = *ctl;
                    let accepted: bool = self.spawn(ctl, wake.task).is_ok();
                    outcomes.push(Resumption { wake, accepted });
                    proof {
                        let fallen = old(self)@.waiting.take(k + 1);
                        let home = old(self)@.homes[wake.task as int];
                        assert(resumed(old(self)@, *old(ctl), fallen.drop_last()) == (
                            popped.ready,
                            raised,
                        ));
                        assert(self@.ready =~= resumed(old(self)@, *old(ctl), fallen).0);
                        assert(*ctl == resumed(old(self)@, *old(ctl), fallen).1);
                        assert(accepted == accepts_last(old(self)@, *old(ctl), fallen));
                    }
                },
                None => {
                    proof {
                        if before.waiting.len() > 0 {
                            assert(before.waiting[0] == old(self)@.waiting[k]);
                        }
                        crate::timer_queue::lemma_due(old(self)@.waiting, now, k);
                        assert(self@ == before);
                    }
                    break ;
                },
            }
        }
        let action: TimerAction = match self.timer.next_wake() {
            Some(instant) => TimerAction::Arm(instant),
            None => TimerAction::Disarm,
        };
        (outcomes, action)
    }
}

} // verus!
