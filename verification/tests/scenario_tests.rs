use rtic::controller::InterruptController;
use rtic::dispatcher::Dispatcher;
use rtic::executor::Executor;
use rtic::export::{enable, lock, run};
use rtic::interrupt::Interrupt;
use rtic::timer_queue::TimerAction;

/// Three software lines at priorities 1, 2 and 3.
fn three_levels() -> InterruptController {
    let mut ctl = InterruptController::new();
    for k in 0u8..3 {
        enable(&mut ctl, Interrupt::from_cpu(k).unwrap(), k + 1, k + 1);
    }
    ctl
}

fn dispatcher(priority: u8, capacity: usize) -> Dispatcher {
    Dispatcher::new(Interrupt::from_cpu(priority - 1).unwrap(), capacity).unwrap()
}

/// Lets the processor take the line of `dispatcher`, which has to be the
/// next to be taken, and runs its handler: the handler drains the queue.
fn serve(ctl: &mut InterruptController, dispatcher: &mut Dispatcher, priority: u8, log: &mut Vec<String>) {
    let (source, interrupted) = ctl.take().unwrap();
    assert_eq!(source, dispatcher.source());
    assert_eq!(ctl.threshold, priority + 1);
    run(ctl, priority, |c: &mut InterruptController| {
        while let Some(task) = dispatcher.next(c) {
            log.push(format!("task {} runs", task));
        }
    });
    ctl.leave(interrupted);
}

#[test]
fn request_at_the_ceiling_waits_for_the_lock_and_one_above_it_preempts() {
    let mut ctl = three_levels();
    let mut second = dispatcher(2, 4);
    let mut third = dispatcher(3, 4);
    let mut resource = 0u32;
    let mut log: Vec<String> = Vec::new();
    // The task of priority 1 has been entered.
    ctl.threshold = 2;
    run(&mut ctl, 1, |c: &mut InterruptController| {
        lock(c, &mut resource, 2, |c: &mut InterruptController, r: &mut u32| {
            log.push(String::from("locked"));
            *r += 1;
            // Priority 2 contends for the resource: accepted, not started.
            assert_eq!(second.spawn(c, 20), Ok(()));
            assert_eq!(second.tasks(), vec![20]);
            assert_eq!(c.next_interrupt(), None);
            // Priority 3 does not: it starts at once.
            assert_eq!(third.spawn(c, 30), Ok(()));
            assert_eq!(c.next_interrupt(), Some(third.source()));
            serve(c, &mut third, 3, &mut log);
            assert_eq!(c.threshold, 3);
            assert_eq!(c.next_interrupt(), None);
            assert_eq!(second.tasks(), vec![20]);
            *r += 1;
            log.push(String::from("unlocking"));
        });
        // The lock is released: the request of priority 2 is served now.
        assert_eq!(c.threshold, 2);
        assert_eq!(c.next_interrupt(), Some(second.source()));
        serve(c, &mut second, 2, &mut log);
        assert_eq!(c.next_interrupt(), None);
        log.push(String::from("task 1 goes on"));
    });
    assert_eq!(log, vec!["locked", "task 30 runs", "unlocking", "task 20 runs", "task 1 goes on"]);
    assert_eq!(resource, 2);
    assert_eq!(ctl.threshold, 1);
    assert_eq!(ctl.software_pending, [false; 4]);
}

/// A hosted machine: three tasks, each alone on the dispatcher of its
/// priority. Task 0 has priority 1, task 1 priority 2 and task 2 priority 3.
/// A task says hello, sleeps, and says bye.
struct Machine {
    ctl: InterruptController,
    executor: Executor,
    compare: Option<u64>,
    now: u64,
    delays: [u64; 3],
    greeted: [bool; 3],
    log: Vec<String>,
}

fn machine(delays: [u64; 3]) -> Machine {
    let mut executor = Executor::new(3);
    for k in 0u8..3 {
        let level = executor.add_dispatcher(Interrupt::from_cpu(k).unwrap(), 2).unwrap();
        assert_eq!(executor.add_task(level), Some(k as usize));
    }
    Machine {
        ctl: three_levels(),
        executor,
        compare: None,
        now: 0,
        delays,
        greeted: [false; 3],
        log: Vec::new(),
    }
}

fn apply(compare: &mut Option<u64>, action: TimerAction) {
    match action {
        TimerAction::Keep => {},
        TimerAction::Arm(instant) => *compare = Some(instant),
        TimerAction::Disarm => *compare = None,
    }
}

/// Takes interrupts until none is deliverable.
fn settle(m: &mut Machine) {
    while let Some((source, interrupted)) = m.ctl.take() {
        let line = m.ctl.route[source.index() as usize];
        let priority = m.ctl.priority[line as usize];
        let Machine { ctl, executor, compare, now, delays, greeted, log } = &mut *m;
        let level = executor.level_of(source).unwrap();
        run(ctl, priority, |c: &mut InterruptController| {
            while let Some(task) = executor.next(c, level) {
                if greeted[task] {
                    log.push(format!("bye from priority {} at {}", priority, now));
                } else {
                    greeted[task] = true;
                    log.push(format!("hello from priority {} at {}", priority, now));
                    let action = executor.delay(*now, delays[task], task).unwrap();
                    apply(compare, action);
                }
            }
        });
        m.ctl.leave(interrupted);
    }
}

/// Lets the timer fire until nothing waits for it.
fn run_to_the_end(m: &mut Machine) {
    settle(m);
    while let Some(instant) = m.compare {
        assert_eq!(m.executor.next_wake(), Some(instant));
        m.now = instant;
        let (resumptions, action) = m.executor.wake(&mut m.ctl, m.now);
        assert!(!resumptions.is_empty());
        apply(&mut m.compare, action);
        for resumption in resumptions {
            assert!(resumption.accepted);
            assert_eq!(resumption.wake.late_by, 0);
            assert_eq!(resumption.wake.overrun(), None);
        }
        settle(m);
    }
}

#[test]
fn three_delayed_tasks_finish_in_the_order_of_their_delays() {
    let mut m = machine([300, 200, 100]);
    for task in 0usize..3 {
        assert_eq!(m.executor.spawn(&mut m.ctl, task), Ok(()));
    }
    run_to_the_end(&mut m);
    assert_eq!(
        m.log,
        vec![
            "hello from priority 3 at 0",
            "hello from priority 2 at 0",
            "hello from priority 1 at 0",
            "bye from priority 3 at 100",
            "bye from priority 2 at 200",
            "bye from priority 1 at 300",
        ]
    );
    assert_eq!(m.executor.waiting(), vec![]);
    assert_eq!(m.compare, None);
    assert_eq!(m.ctl.threshold, 1);
    assert_eq!(m.ctl.next_interrupt(), None);
}

#[test]
fn tasks_that_fall_due_together_resume_by_priority() {
    let mut m = machine([100, 100, 100]);
    // Spawned one by one, the lowest priority first: each is served before
    // the next is asked for, so they are suspended in this order.
    for task in 0usize..3 {
        assert_eq!(m.executor.spawn(&mut m.ctl, task), Ok(()));
        settle(&mut m);
    }
    let suspended: Vec<usize> = m.executor.waiting().iter().map(|e| e.task).collect();
    assert_eq!(suspended, vec![0, 1, 2]);
    run_to_the_end(&mut m);
    assert_eq!(
        m.log,
        vec![
            "hello from priority 1 at 0",
            "hello from priority 2 at 0",
            "hello from priority 3 at 0",
            "bye from priority 3 at 100",
            "bye from priority 2 at 100",
            "bye from priority 1 at 100",
        ]
    );
}

#[test]
fn task_held_back_by_a_section_runs_as_soon_as_it_ends() {
    // A task of priority 1 holds a resource with ceiling 2. Requests of
    // priority 2 and of priority 1 arrive meanwhile. When the section ends,
    // priority 2 is served before the task goes on, and before the other
    // request of priority 1, however long that one has waited.
    let mut ctl = three_levels();
    let mut first = dispatcher(1, 4);
    let mut second = dispatcher(2, 4);
    let mut resource = 0u32;
    let mut log: Vec<String> = Vec::new();
    ctl.threshold = 2;
    run(&mut ctl, 1, |c: &mut InterruptController| {
        lock(c, &mut resource, 2, |c: &mut InterruptController, r: &mut u32| {
            assert_eq!(first.spawn(c, 10), Ok(()));
            assert_eq!(first.spawn(c, 11), Ok(()));
            assert_eq!(second.spawn(c, 20), Ok(()));
            assert_eq!(c.next_interrupt(), None);
            *r += 1;
        });
        assert_eq!(c.next_interrupt(), Some(second.source()));
        serve(c, &mut second, 2, &mut log);
        assert_eq!(c.next_interrupt(), None);
        log.push(String::from("task 1 goes on"));
    });
    // The task has returned: the requests of its own priority are served.
    assert_eq!(ctl.threshold, 1);
    assert_eq!(ctl.next_interrupt(), Some(first.source()));
    serve(&mut ctl, &mut first, 1, &mut log);
    assert_eq!(log, vec!["task 20 runs", "task 1 goes on", "task 10 runs", "task 11 runs"]);
    assert_eq!(ctl.next_interrupt(), None);
}
