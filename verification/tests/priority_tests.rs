use rtic::priority::{exit_threshold, protection, Protection, BASE_THRESHOLD, MAX_PRIORITY};

#[test]
fn section_raises_threshold_to_just_above_ceiling() {
    assert_eq!(protection(1, 2), Protection::Raise(3));
    assert_eq!(protection(0, 0), Protection::Raise(1));
    assert_eq!(protection(1, 1), Protection::Raise(2));
    assert_eq!(protection(14, 14), Protection::Raise(15));
}

#[test]
fn section_under_higher_threshold_changes_nothing() {
    assert_eq!(protection(3, 2), Protection::Held);
    assert_eq!(protection(5, 1), Protection::Held);
    assert_eq!(protection(16, 15), Protection::Held);
    assert_eq!(protection(255, 254), Protection::Held);
}

#[test]
fn section_at_equal_threshold_still_raises() {
    // A threshold of 2 admits priority 2, so a ceiling of 2 is not yet held.
    assert_eq!(protection(2, 2), Protection::Raise(3));
}

#[test]
fn highest_ceiling_switches_interrupts_off() {
    assert_eq!(MAX_PRIORITY, 15);
    assert_eq!(protection(1, 15), Protection::MaskAll);
    assert_eq!(protection(15, 15), Protection::MaskAll);
    assert_eq!(protection(0, 200), Protection::MaskAll);
    assert_eq!(protection(1, 255), Protection::MaskAll);
}

#[test]
fn lowest_priority_task_leaves_base_threshold() {
    assert_eq!(BASE_THRESHOLD, 1);
    assert_eq!(exit_threshold(1, 7), 1);
    assert_eq!(exit_threshold(1, 0), 1);
}

#[test]
fn other_tasks_leave_the_threshold_they_found() {
    assert_eq!(exit_threshold(2, 3), 3);
    assert_eq!(exit_threshold(0, 9), 9);
    assert_eq!(exit_threshold(15, 16), 16);
}
