use rtic::controller::InterruptController;
use rtic::export::{lock, run};

#[test]
fn lock_raises_threshold_for_the_body_and_restores_it() {
    let mut ctl = InterruptController::new();
    let mut shared = 10u32;
    let seen = lock(&mut ctl, &mut shared, 2, |c: &mut InterruptController, v: &mut u32| {
        *v += 1;
        (c.threshold, c.masked)
    });
    assert_eq!(seen, (3, false));
    assert_eq!(shared, 11);
    assert_eq!(ctl.threshold, 1);
    assert!(!ctl.masked);
}

#[test]
fn lock_under_higher_threshold_runs_body_as_is() {
    let mut ctl = InterruptController::new();
    ctl.threshold = 5;
    let mut shared = 0u32;
    let seen = lock(&mut ctl, &mut shared, 2, |c: &mut InterruptController, v: &mut u32| {
        *v = 7;
        c.threshold
    });
    assert_eq!(seen, 5);
    assert_eq!(shared, 7);
    assert_eq!(ctl.threshold, 5);
}

#[test]
fn lock_at_highest_ceiling_switches_interrupts_off() {
    let mut ctl = InterruptController::new();
    let mut shared = String::from("a");
    let seen = lock(&mut ctl, &mut shared, 15, |c: &mut InterruptController, v: &mut String| {
        v.push('b');
        (c.threshold, c.masked, v.len())
    });
    assert_eq!(seen, (1, true, 2));
    assert_eq!(shared, "ab");
    assert_eq!(ctl.threshold, 1);
    assert!(!ctl.masked);
}

#[test]
fn lock_returns_what_the_body_returns() {
    let mut ctl = InterruptController::new();
    let mut shared = 20u64;
    let r = lock(&mut ctl, &mut shared, 15, |_c: &mut InterruptController, v: &mut u64| *v * 2 + 1);
    assert_eq!(r, 41);
    let r = lock(&mut ctl, &mut shared, 3, |_c: &mut InterruptController, v: &mut u64| *v + 1);
    assert_eq!(r, 21);
}

#[test]
fn nested_locks_never_lower_the_threshold() {
    let mut ctl = InterruptController::new();
    let mut outer_resource = 0u32;
    let mut inner_resource = 0u32;
    let mut seen: Vec<u8> = Vec::new();
    lock(&mut ctl, &mut outer_resource, 4, |c: &mut InterruptController, a: &mut u32| {
        seen.push(c.threshold);
        *a += 1;
        // A resource with a lower ceiling, taken inside: the threshold stays.
        lock(c, &mut inner_resource, 2, |c2: &mut InterruptController, b: &mut u32| {
            seen.push(c2.threshold);
            *b += 10;
        });
        seen.push(c.threshold);
        // One with a higher ceiling: the threshold goes up and comes back.
        lock(c, &mut inner_resource, 6, |c2: &mut InterruptController, b: &mut u32| {
            seen.push(c2.threshold);
            *b += 100;
        });
        seen.push(c.threshold);
    });
    assert_eq!(seen, vec![5, 5, 5, 7, 5]);
    assert_eq!(ctl.threshold, 1);
    assert_eq!(outer_resource, 1);
    assert_eq!(inner_resource, 110);
}

#[test]
fn nested_locks_of_every_ceiling_restore_the_controller() {
    for first in 0u8..=16 {
        for second in 0u8..=16 {
            for start in 0u8..=16 {
                let mut ctl = InterruptController::new();
                ctl.threshold = start;
                let before = ctl.clone();
                let mut resource = 0u32;
                let mut other = 0u32;
                lock(&mut ctl, &mut resource, first, |c: &mut InterruptController, v: &mut u32| {
                    assert!(c.masked || c.threshold > first);
                    *v += 1;
                    lock(c, &mut other, second, |c2: &mut InterruptController, w: &mut u32| {
                        assert!(c2.masked || c2.threshold > first);
                        assert!(c2.masked || c2.threshold > second);
                        *w += 1;
                    });
                });
                assert_eq!(ctl, before);
                assert_eq!((resource, other), (1, 1));
            }
        }
    }
}

#[test]
fn critical_sections_nest_at_the_highest_ceiling() {
    let mut ctl = InterruptController::new();
    let mut a = 0u8;
    let mut b = 0u8;
    let inner = lock(&mut ctl, &mut a, 15, |c: &mut InterruptController, x: &mut u8| {
        *x = 1;
        let was = lock(c, &mut b, 15, |c2: &mut InterruptController, y: &mut u8| {
            *y = 2;
            c2.masked
        });
        (was, c.masked)
    });
    assert_eq!(inner, (true, true));
    assert!(!ctl.masked);
    assert_eq!((a, b), (1, 2));
}

#[test]
fn run_of_lowest_priority_leaves_base_threshold() {
    let mut ctl = InterruptController::new();
    ctl.threshold = 2;
    let mut ran = 0u32;
    run(&mut ctl, 1, |c: &mut InterruptController| {
        ran += 1;
        assert_eq!(c.threshold, 2);
    });
    assert_eq!(ran, 1);
    assert_eq!(ctl.threshold, 1);
}

#[test]
fn run_restores_the_threshold_found_on_entry() {
    let mut ctl = InterruptController::new();
    ctl.threshold = 4;
    let mut ran = 0u32;
    run(&mut ctl, 3, |c: &mut InterruptController| {
        ran += 1;
        // A body that leaves the threshold changed is put right by `run`.
        c.threshold = 9;
    });
    assert_eq!(ran, 1);
    assert_eq!(ctl.threshold, 4);
}

#[test]
fn run_keeps_what_the_body_did_to_the_rest() {
    let mut ctl = InterruptController::new();
    ctl.threshold = 3;
    run(&mut ctl, 2, |c: &mut InterruptController| {
        c.software_pending[2] = true;
    });
    assert_eq!(ctl.threshold, 3);
    assert_eq!(ctl.software_pending, [false, false, true, false]);
}
