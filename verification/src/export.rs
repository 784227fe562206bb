//! Task entry, the priority ceiling lock, and pending and enabling lines.
//!
//! Each function works on the image of the interrupt controller; its
//! contract is what has to happen to the registers of the device.

use crate::controller::{set_bit, InterruptController, CPU_INTERRUPTS};
use crate::interrupt::Interrupt;
use crate::priority::{exit_threshold, protection, Protection};
use vstd::prelude::*;

verus! {

/// Runs the body `f` of a critical section on `ctl` and `resource`: `f` is
/// called once, on the two as they are, and leaves them as they are found
/// afterwards.
fn enter<T, R, F: FnOnce(&mut InterruptController, &mut T) -> R>(
    ctl: &mut InterruptController,
    resource: &mut T,
    f: F,
) -> (r: R)
    requires
        forall|c: &mut InterruptController, t: &mut T|
            *c == *old(ctl) && *t == *old(resource) ==> #[trigger] f.requires((c, t)),
    ensures
        exists|c: &mut InterruptController, t: &mut T|
            {
                &&& *c == *old(ctl)
                &&& *t == *old(resource)
                &&& #[trigger] f.ensures((c, t), r)
                &&& *final(ctl) == *final(c)
                &&& *final(resource) == *final(t)
            },
{
    f(ctl, resource)
}

/// Runs the body `f` of a critical section on `ctl` and `resource` with
/// all interrupts switched off.
///
/// The body calls `critical_section::with`, which acquires the critical
/// section, calls the closure it is given once, releases the critical
/// section and returns what the closure returned. The closure given to it
/// here is one call of `enter`. The contract is taken on trust, not proved:
/// it is that of `enter`, which is to say that the outside function adds
/// nothing to what `f` does and returns.
#[verifier::external_body]
fn with_interrupts_off<T, R, F: FnOnce(&mut InterruptController, &mut T) -> R>(
    ctl: &mut InterruptController,
    resource: &mut T,
    f: F,
) -> (r: R)
    requires
        forall|c: &mut InterruptController, t: &mut T|
            *c == *old(ctl) && *t == *old(resource) ==> #[trigger] f.requires((c, t)),
    ensures
        exists|c: &mut InterruptController, t: &mut T|
            {
                &&& *c == *old(ctl)
                &&& *t == *old(resource)
                &&& #[trigger] f.ensures((c, t), r)
                &&& *final(ctl) == *final(c)
                &&& *final(resource) == *final(t)
            },
{
    critical_section::with(|_| enter(ctl, resource, f))
}

/// Runs `f` on `resource` as a critical section with ceiling `ceiling`.
///
/// While `f` runs no task of priority `ceiling` or less can start, and
/// tasks above the ceiling preempt as before. If the threshold already
/// exceeds the ceiling, `f` runs as it is. Otherwise the threshold is
/// raised to just above the ceiling for the length of `f` and then set back
/// to the value found; at the highest ceiling, or above it, all interrupts
/// are switched off for the length of `f` instead.
///
/// The section puts back what it changed and nothing else. A body that
/// leaves the threshold and the interrupt mask as it finds them, as every
/// body made of sections does, therefore leaves a section that does so
/// too.
pub fn lock<T, R, F: FnOnce(&mut InterruptController, &mut T) -> R>(
    ctl: &mut InterruptController,
    resource: &mut T,
    ceiling: u8,
    f: F,
) -> (r: R)
    requires
        forall|c: &mut InterruptController, t: &mut T|
            *c == old(ctl).inside(ceiling) && *t == *old(resource) ==> #[trigger] f.requires(
                (c, t),
            ),
    ensures
        exists|c: &mut InterruptController, t: &mut T|
            {
                &&& *c == old(ctl).inside(ceiling)
                &&& *t == *old(resource)
                &&& #[trigger] f.ensures((c, t), r)
                &&& *final(resource) == *final(t)
                &&& *final(ctl) == final(c).outside(*old(ctl), ceiling)
            },
        (forall|c: &mut InterruptController, t: &mut T, r: R| #[trigger]
            f.ensures((c, t), r) ==> final(c).threshold == c.threshold && final(c).masked
                == c.masked) ==> final(ctl).threshold == old(ctl).threshold && final(ctl).masked
            == old(ctl).masked,
{
    let current: u8 = ctl.threshold;
    match protection(current, ceiling) {
        Protection::Held => enter(ctl, resource, f),
        Protection::Raise(level) => {
            ctl.threshold = level;
            let r = enter(ctl, resource, f);
            ctl.threshold = current;
            r
        },
        Protection::MaskAll => {
            let was_masked: bool = ctl.masked;
            ctl.masked = true;
            let r = with_interrupts_off(ctl, resource, f);
            ctl.masked = was_masked;
            r
        },
    }
}

/// Runs the body `f` of a task of priority `priority`, and then resets the
/// threshold: to the base threshold after a task of priority 1, and to the
/// value found on entry after any other.
pub fn run<F: FnOnce(&mut InterruptController)>(ctl: &mut InterruptController, priority: u8, f: F)
    requires
        forall|c: &mut InterruptController| *c == *old(ctl) ==> #[trigger] f.requires((c,)),
    ensures
        exists|c: &mut InterruptController|
            {
                &&& *c == *old(ctl)
                &&& #[trigger] f.ensures((c,), ())
                &&& *final(ctl) == final(c).after_run(*old(ctl), priority)
            },
{
    let initial: u8 = ctl.threshold;
    f(ctl);
    ctl.threshold = exit_threshold(priority, initial);
}

/// Raises the software interrupt `source`.
pub fn pend(ctl: &mut InterruptController, source: Interrupt)
    requires
        source.software() is Some,
    ensures
        *final(ctl) == old(ctl).with_pending(source.software().unwrap() as int, true),
{
    match source.software_index() {
        Some(k) => {
            ctl.software_pending[k as usize] = true;
            assert(ctl.software_pending =~= vstd::array::spec_array_update(
                old(ctl).software_pending,
                k as int,
                true,
            ));
        },
        None => {},
    }
}

/// Lowers the software interrupt `source`.
pub fn unpend(ctl: &mut InterruptController, source: Interrupt)
    requires
        source.software() is Some,
    ensures
        *final(ctl) == old(ctl).with_pending(source.software().unwrap() as int, false),
{
    match source.software_index() {
        Some(k) => {
            ctl.software_pending[k as usize] = false;
            assert(ctl.software_pending =~= vstd::array::spec_array_update(
                old(ctl).software_pending,
                k as int,
                false,
            ));
        },
        None => {},
    }
}

/// Routes `source` to line `cpu_int_id` of the processor, enables that
/// line, gives it priority `prio` and makes it edge-triggered.
pub fn enable(ctl: &mut InterruptController, source: Interrupt, prio: u8, cpu_int_id: u8)
    requires
        cpu_int_id < CPU_INTERRUPTS,
    ensures
        *final(ctl) == old(ctl).with_enabled(source.number() as int, prio, cpu_int_id),
{
    let n: u8 = source.index();
    ctl.route[n as usize] = cpu_int_id;
    ctl.enabled = set_bit(ctl.enabled, cpu_int_id);
    ctl.priority[cpu_int_id as usize] = prio;
    ctl.edge = set_bit(ctl.edge, cpu_int_id);
    assert(ctl.route =~= vstd::array::spec_array_update(old(ctl).route, n as int, cpu_int_id));
    assert(ctl.priority =~= vstd::array::spec_array_update(
        old(ctl).priority,
        cpu_int_id as int,
        prio,
    ));
}

} // verus!
