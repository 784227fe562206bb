use rtic::error::{CapacityError, DelayError, TimerOverrun};
use rtic::timer_queue::{TimerAction, TimerEntry, TimerQueue, Wake};

fn entry(wake_instant: u64, task: usize) -> TimerEntry {
    TimerEntry { wake_instant, task }
}

#[test]
fn new_timer_queue_is_empty() {
    let q = TimerQueue::new(3);
    assert_eq!(q.capacity(), 3);
    assert_eq!(q.len(), 0);
    assert_eq!(q.next_wake(), None);
    assert_eq!(q.entries(), vec![]);
}

#[test]
fn wake_instant_is_now_plus_duration() {
    let mut q = TimerQueue::new(2);
    assert_eq!(q.delay(1_000, 250, 4), Ok(TimerAction::Arm(1_250)));
    assert_eq!(q.entries(), vec![entry(1_250, 4)]);
    assert_eq!(q.next_wake(), Some(1_250));
    assert_eq!(q.delay(u64::MAX - 5, 5, 1), Ok(TimerAction::Keep));
    assert_eq!(q.entries(), vec![entry(1_250, 4), entry(u64::MAX, 1)]);
}

#[test]
fn entries_stand_in_the_order_of_their_wake_instants() {
    let mut q = TimerQueue::new(8);
    assert_eq!(q.delay(0, 300, 1), Ok(TimerAction::Arm(300)));
    assert_eq!(q.delay(0, 100, 2), Ok(TimerAction::Arm(100)));
    assert_eq!(q.delay(0, 200, 3), Ok(TimerAction::Keep));
    assert_eq!(q.delay(50, 0, 4), Ok(TimerAction::Arm(50)));
    assert_eq!(q.delay(50, 400, 5), Ok(TimerAction::Keep));
    assert_eq!(
        q.entries(),
        vec![entry(50, 4), entry(100, 2), entry(200, 3), entry(300, 1), entry(450, 5)]
    );
    assert_eq!(q.next_wake(), Some(50));
}

#[test]
fn equal_wake_instants_keep_the_order_of_suspension() {
    let mut q = TimerQueue::new(8);
    assert_eq!(q.delay(0, 100, 1), Ok(TimerAction::Arm(100)));
    assert_eq!(q.delay(10, 90, 2), Ok(TimerAction::Keep));
    assert_eq!(q.delay(0, 50, 3), Ok(TimerAction::Arm(50)));
    assert_eq!(q.delay(20, 80, 4), Ok(TimerAction::Keep));
    assert_eq!(q.delay(0, 50, 5), Ok(TimerAction::Keep));
    assert_eq!(
        q.entries(),
        vec![entry(50, 3), entry(50, 5), entry(100, 1), entry(100, 2), entry(100, 4)]
    );
    let (wakes, action) = q.service(100);
    let order: Vec<usize> = wakes.iter().map(|w| w.task).collect();
    assert_eq!(order, vec![3, 5, 1, 2, 4]);
    assert_eq!(action, TimerAction::Disarm);
}

#[test]
fn full_timer_queue_refuses_and_stays_as_it_was() {
    let mut q = TimerQueue::new(2);
    assert_eq!(q.delay(0, 10, 1), Ok(TimerAction::Arm(10)));
    assert_eq!(q.delay(0, 20, 2), Ok(TimerAction::Keep));
    assert_eq!(q.delay(0, 5, 3), Err(DelayError::Capacity(CapacityError)));
    assert_eq!(q.entries(), vec![entry(10, 1), entry(20, 2)]);
    assert_eq!(q.len(), 2);
    let mut none = TimerQueue::new(0);
    assert_eq!(none.delay(0, 0, 1), Err(DelayError::Capacity(CapacityError)));
}

#[test]
fn wake_instant_past_the_end_of_the_timer_is_an_overrun() {
    let mut q = TimerQueue::new(2);
    assert_eq!(q.delay(u64::MAX, 1, 1), Err(DelayError::Overrun(TimerOverrun)));
    assert_eq!(q.delay(u64::MAX - 5, 6, 1), Err(DelayError::Overrun(TimerOverrun)));
    assert_eq!(q.delay(1, u64::MAX, 1), Err(DelayError::Overrun(TimerOverrun)));
    assert_eq!(q.len(), 0);
    assert_eq!(q.delay(0, u64::MAX, 1), Ok(TimerAction::Arm(u64::MAX)));
    // The overrun is reported even where the queue is full as well.
    let mut full = TimerQueue::new(0);
    assert_eq!(full.delay(u64::MAX, 1, 1), Err(DelayError::Overrun(TimerOverrun)));
}

#[test]
fn nothing_resumes_before_its_wake_instant() {
    let mut q = TimerQueue::new(4);
    assert_eq!(q.delay(0, 100, 1), Ok(TimerAction::Arm(100)));
    assert_eq!(q.pop_due(0), None);
    assert_eq!(q.pop_due(99), None);
    assert_eq!(q.service(99), (vec![], TimerAction::Arm(100)));
    assert_eq!(q.entries(), vec![entry(100, 1)]);
    assert_eq!(q.pop_due(100), Some(Wake { task: 1, wake_instant: 100, late_by: 0 }));
    assert_eq!(q.pop_due(100), None);
    assert_eq!(q.len(), 0);
}

#[test]
fn service_takes_all_that_is_due_and_rearms_for_the_rest() {
    let mut q = TimerQueue::new(8);
    for (duration, task) in [(10u64, 1usize), (20, 2), (30, 3), (40, 4)] {
        assert!(q.delay(0, duration, task).is_ok());
    }
    let (wakes, action) = q.service(25);
    assert_eq!(
        wakes,
        vec![
            Wake { task: 1, wake_instant: 10, late_by: 15 },
            Wake { task: 2, wake_instant: 20, late_by: 5 },
        ]
    );
    assert_eq!(action, TimerAction::Arm(30));
    assert_eq!(q.entries(), vec![entry(30, 3), entry(40, 4)]);
    let (wakes, action) = q.service(40);
    assert_eq!(
        wakes,
        vec![
            Wake { task: 3, wake_instant: 30, late_by: 10 },
            Wake { task: 4, wake_instant: 40, late_by: 0 },
        ]
    );
    assert_eq!(action, TimerAction::Disarm);
    assert_eq!(q.service(1_000), (vec![], TimerAction::Disarm));
}

#[test]
fn late_wakes_say_by_how_much() {
    let mut q = TimerQueue::new(2);
    assert!(q.delay(100, 50, 9).is_ok());
    assert_eq!(q.pop_due(u64::MAX), Some(Wake { task: 9, wake_instant: 150, late_by: u64::MAX - 150 }));
}

#[test]
fn cancel_withdraws_the_entry_and_rearms_if_it_was_the_head() {
    let mut q = TimerQueue::new(8);
    for (duration, task) in [(10u64, 1usize), (20, 2), (30, 3)] {
        assert!(q.delay(0, duration, task).is_ok());
    }
    assert_eq!(q.cancel(2), Some(TimerAction::Keep));
    assert_eq!(q.entries(), vec![entry(10, 1), entry(30, 3)]);
    assert_eq!(q.cancel(2), None);
    assert_eq!(q.entries(), vec![entry(10, 1), entry(30, 3)]);
    assert_eq!(q.cancel(1), Some(TimerAction::Arm(30)));
    assert_eq!(q.entries(), vec![entry(30, 3)]);
    assert_eq!(q.cancel(3), Some(TimerAction::Disarm));
    assert_eq!(q.entries(), vec![]);
    assert_eq!(q.cancel(3), None);
}

#[test]
fn cancel_takes_the_earliest_entry_of_a_task() {
    let mut q = TimerQueue::new(8);
    for (duration, task) in [(10u64, 1usize), (20, 2), (30, 1), (40, 2)] {
        assert!(q.delay(0, duration, task).is_ok());
    }
    assert_eq!(q.cancel(2), Some(TimerAction::Keep));
    assert_eq!(q.entries(), vec![entry(10, 1), entry(30, 1), entry(40, 2)]);
    assert_eq!(q.cancel(1), Some(TimerAction::Arm(30)));
    assert_eq!(q.entries(), vec![entry(30, 1), entry(40, 2)]);
}

#[test]
fn cancelled_room_can_be_used_again() {
    let mut q = TimerQueue::new(1);
    assert_eq!(q.delay(0, 10, 1), Ok(TimerAction::Arm(10)));
    assert_eq!(q.delay(0, 5, 2), Err(DelayError::Capacity(CapacityError)));
    assert_eq!(q.cancel(1), Some(TimerAction::Disarm));
    assert_eq!(q.delay(0, 5, 2), Ok(TimerAction::Arm(5)));
}
