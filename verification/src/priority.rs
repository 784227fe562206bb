//! Priority levels and the priority threshold.
//!
//! The threshold is one register of the interrupt controller. A line whose
//! priority is at least the threshold may interrupt the processor; a line
//! below it waits. A critical section with ceiling `c` keeps every task of
//! priority `c` or less from starting by holding the threshold above `c`.

use vstd::prelude::*;

verus! {

/// The highest priority. A ceiling at this level is enforced by switching
/// all maskable interrupts off, not by the threshold.
pub const MAX_PRIORITY: u8 = 15;

/// The threshold that admits every priority a task can have: what the
/// register holds while no task runs.
pub const BASE_THRESHOLD: u8 = 1;

/// What entering a critical section does to the interrupt hardware.
#[derive(Clone, Copy, Debug, PartialEq, Eq, Structural)]
pub enum Protection {
    /// The threshold already keeps every contender out: nothing changes.
    Held,
    /// The threshold is raised to this value for the length of the section.
    Raise(u8),
    /// All maskable interrupts are switched off for the length of the
    /// section.
    MaskAll,
}

/// Whether a line of priority `priority` may interrupt the processor.
pub open spec fn admits(threshold: u8, masked: bool, priority: u8) -> bool {
    !masked && priority >= threshold
}

/// The protection that a section with ceiling `ceiling` needs when it is
/// entered under threshold `threshold`.
pub open spec fn protection_for(threshold: u8, ceiling: u8) -> Protection {
    if threshold > ceiling {
        Protection::Held
    } else if ceiling >= MAX_PRIORITY {
        Protection::MaskAll
    } else {
        Protection::Raise((ceiling + 1) as u8)
    }
}

/// The threshold in force inside a section, given the one observed on entry.
pub open spec fn threshold_inside(threshold: u8, ceiling: u8) -> u8 {
    match protection_for(threshold, ceiling) {
        Protection::Raise(level) => level,
        _ => threshold,
    }
}

/// Whether interrupts are switched off inside a section, given the state
/// observed on entry.
pub open spec fn masked_inside(threshold: u8, masked: bool, ceiling: u8) -> bool {
    masked || protection_for(threshold, ceiling) == Protection::MaskAll
}

/// The threshold that task entry leaves behind for a task of priority
/// `priority` that was entered under threshold `initial`.
pub open spec fn threshold_after_run(priority: u8, initial: u8) -> u8 {
    if priority == 1 {
        BASE_THRESHOLD
    } else {
        initial
    }
}

/// Decides how a section with ceiling `ceiling` protects itself when the
/// threshold register reads `threshold`.
///
/// The threshold is only ever raised: under a threshold that already
/// exceeds the ceiling the section runs as it is.
pub fn protection(threshold: u8, ceiling: u8) -> (p: Protection)
    ensures
        p == protection_for(threshold, ceiling),
{
    if threshold > ceiling {
        Protection::Held
    } else if ceiling >= MAX_PRIORITY {
        Protection::MaskAll
    } else {
        Protection::Raise(ceiling + 1)
    }
}

/// The value that task entry writes to the threshold register once the body
/// of a task of priority `priority` has returned; `initial` is what the
/// register read before the body ran.
pub fn exit_threshold(priority: u8, initial: u8) -> (t: u8)
    ensures
        t == threshold_after_run(priority, initial),
{
    if priority == 1 {
        BASE_THRESHOLD
    } else {
        initial
    }
}

/// Inside a section no task at or below the ceiling can start, and every
/// priority above the ceiling is admitted exactly as it was before.
pub proof fn lemma_section_keeps_contenders_out(
    threshold: u8,
    masked: bool,
    ceiling: u8,
    priority: u8,
)
    ensures
        priority <= ceiling ==> !admits(
            threshold_inside(threshold, ceiling),
            masked_inside(threshold, masked, ceiling),
            priority,
        ),
        ceiling < priority <= MAX_PRIORITY ==> admits(
            threshold_inside(threshold, ceiling),
            masked_inside(threshold, masked, ceiling),
            priority,
        ) == admits(threshold, masked, priority),
{
}

/// Entering a section never lowers the threshold and never switches
/// interrupts back on.
pub proof fn lemma_section_never_lowers(threshold: u8, masked: bool, ceiling: u8)
    ensures
        threshold_inside(threshold, ceiling) >= threshold,
        masked ==> masked_inside(threshold, masked, ceiling),
{
}

} // verus!
