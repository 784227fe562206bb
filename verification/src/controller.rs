//! An image of the interrupt controller.
//!
//! [`InterruptController`] holds, as plain values, the registers that the
//! runtime reads and writes, and [`InterruptController::next_interrupt`]
//! says which pending line the processor takes next.

use crate::interrupt::{Interrupt, FIRST_SOFTWARE_INTERRUPT, INTERRUPT_SOURCES, SOFTWARE_INTERRUPTS};
use crate::priority::{
    admits, masked_inside, protection_for, threshold_after_run, threshold_inside, Protection,
    BASE_THRESHOLD, MAX_PRIORITY,
};
use vstd::array::spec_array_update;
use vstd::prelude::*;

verus! {

/// How many interrupt lines the processor has.
pub const CPU_INTERRUPTS: usize = 32;

/// Whether bit `index` of `word` is set.
pub open spec fn bit_is_set(word: u32, index: u8) -> bool {
    (word >> (index as u32)) & 1 == 1
}

/// `word` with bit `index` set.
pub open spec fn with_bit_set(word: u32, index: u8) -> u32 {
    word | (1u32 << (index as u32))
}

/// Setting a bit sets that bit and leaves every other bit as it was.
pub proof fn lemma_with_bit_set(word: u32, index: u8, other: u8)
    requires
        index < 32,
        other < 32,
    ensures
        bit_is_set(with_bit_set(word, index), other) == (other == index || bit_is_set(word, other)),
{
    let i: u32 = index as u32;
    let j: u32 = other as u32;
    assert(((word | (1u32 << i)) >> j) & 1 == 1 <==> (j == i || (word >> j) & 1 == 1))
        by (bit_vector)
        requires
            i < 32,
            j < 32,
    ;
}

/// `word` with bit `index` set.
pub fn set_bit(word: u32, index: u8) -> (w: u32)
    requires
        index < CPU_INTERRUPTS,
    ensures
        w == with_bit_set(word, index),
{
    word | (1u32 << (index as u32))
}

/// Whether bit `index` of `word` is set.
pub fn test_bit(word: u32, index: u8) -> (b: bool)
    requires
        index < CPU_INTERRUPTS,
    ensures
        b == bit_is_set(word, index),
{
    (word >> (index as u32)) & 1 == 1
}

/// The lowest threshold that holds back priority `priority` and all below
/// it.
pub open spec fn threshold_above(priority: u8) -> u8 {
    if priority < u8::MAX {
        (priority + 1) as u8
    } else {
        u8::MAX
    }
}

/// The registers of the interrupt controller that the runtime touches.
#[derive(Clone, Copy, Debug, PartialEq, Eq)]
pub struct InterruptController {
    /// The priority threshold: a line interrupts the processor only if its
    /// priority is at least this.
    pub threshold: u8,
    /// Whether all maskable interrupts are switched off.
    pub masked: bool,
    /// For each software-raised source, whether it is raised.
    pub software_pending: [bool; 4],
    /// One enable bit for each line of the processor.
    pub enabled: u32,
    /// One bit for each line of the processor: set if the line is
    /// edge-triggered.
    pub edge: u32,
    /// The priority of each line of the processor.
    pub priority: [u8; 32],
    /// For each interrupt source, the line of the processor that it is
    /// routed to.
    pub route: [u8; 77],
}

impl InterruptController {
    /// The line of the processor that software-raised source `k` is routed
    /// to.
    pub open spec fn line_of(self, k: int) -> u8 {
        self.route[FIRST_SOFTWARE_INTERRUPT + k]
    }

    /// The priority at which software-raised source `k` interrupts.
    pub open spec fn priority_of(self, k: int) -> u8 {
        self.priority[self.line_of(k) as int]
    }

    /// Whether software-raised source `k` would interrupt the processor
    /// now: it is raised, its line is enabled, and its priority passes the
    /// threshold.
    pub open spec fn deliverable(self, k: int) -> bool {
        &&& 0 <= k < SOFTWARE_INTERRUPTS
        &&& self.software_pending[k]
        &&& self.line_of(k) < CPU_INTERRUPTS
        &&& bit_is_set(self.enabled, self.line_of(k))
        &&& admits(self.threshold, self.masked, self.priority_of(k))
    }

    /// Whether software-raised source `k` is the one that the processor
    /// takes next: it is deliverable, no deliverable source has a higher
    /// priority, and among those of its priority it has the lowest index.
    pub open spec fn takes(self, k: int) -> bool {
        &&& self.deliverable(k)
        &&& forall|j: int| #[trigger]
            self.deliverable(j) ==> self.priority_of(j) < self.priority_of(k) || (
            self.priority_of(j) == self.priority_of(k) && k <= j)
    }

    /// Whether no software-raised source would interrupt the processor now.
    pub open spec fn quiet(self) -> bool {
        forall|k: int| !#[trigger] self.deliverable(k)
    }

    /// This controller once the processor has taken software-raised source
    /// `k`: for as long as the handler runs, the threshold is held just
    /// above the priority of the source.
    pub open spec fn entered(self, k: int) -> InterruptController {
        InterruptController { threshold: threshold_above(self.priority_of(k)), ..self }
    }

    /// This controller as a critical section with ceiling `ceiling` sees it
    /// on entry.
    pub open spec fn inside(self, ceiling: u8) -> InterruptController {
        InterruptController {
            threshold: threshold_inside(self.threshold, ceiling),
            masked: masked_inside(self.threshold, self.masked, ceiling),
            ..self
        }
    }

    /// This controller, as the body of a critical section left it, once the
    /// section has put back what it changed on entry; `entry` is the
    /// controller that the section found.
    pub open spec fn outside(self, entry: InterruptController, ceiling: u8) -> InterruptController {
        match protection_for(entry.threshold, ceiling) {
            Protection::Held => self,
            Protection::Raise(_) => InterruptController { threshold: entry.threshold, ..self },
            Protection::MaskAll => InterruptController { masked: entry.masked, ..self },
        }
    }

    /// This controller, as the body of a task of priority `priority` left
    /// it, once task entry has reset the threshold; `entry` is the
    /// controller that the task was entered under.
    pub open spec fn after_run(self, entry: InterruptController, priority: u8) -> InterruptController {
        InterruptController {
            threshold: threshold_after_run(priority, entry.threshold),
            ..self
        }
    }

    /// This controller with software-raised source `k` raised or lowered.
    pub open spec fn with_pending(self, k: int, raised: bool) -> InterruptController {
        InterruptController {
            software_pending: spec_array_update(self.software_pending, k, raised),
            ..self
        }
    }

    /// This controller with source `source` routed to line `line`, and that
    /// line enabled and edge-triggered at priority `priority`.
    pub open spec fn with_enabled(self, source: int, priority: u8, line: u8) -> InterruptController {
        InterruptController {
            route: spec_array_update(self.route, source, line),
            enabled: with_bit_set(self.enabled, line),
            priority: spec_array_update(self.priority, line as int, priority),
            edge: with_bit_set(self.edge, line),
            ..self
        }
    }

    /// A controller with nothing raised, nothing enabled and every source
    /// routed to line 0, under the threshold at which the lowest-priority
    /// task runs.
    pub fn new() -> (ctl: InterruptController)
        ensures
            ctl.threshold == BASE_THRESHOLD,
            !ctl.masked,
            ctl.enabled == 0,
            ctl.edge == 0,
            forall|k: int| 0 <= k < SOFTWARE_INTERRUPTS ==> !ctl.software_pending[k],
            forall|l: int| 0 <= l < CPU_INTERRUPTS ==> ctl.priority[l] == 0,
            forall|s: int| 0 <= s < INTERRUPT_SOURCES ==> ctl.route[s] == 0,
            ctl.quiet(),
    {
        InterruptController {
            threshold: BASE_THRESHOLD,
            masked: false,
            software_pending: [false; 4],
            enabled: 0,
            edge: 0,
            priority: [0u8; 32],
            route: [0u8; 77],
        }
    }

    /// Whether software-raised source `k` would interrupt the processor
    /// now.
    pub fn is_deliverable(&self, k: u8) -> (b: bool)
        ensures
            b == self.deliverable(k as int),
    {
        if k >= 4 {
            return false;
        }
        let line: u8 = self.route[(FIRST_SOFTWARE_INTERRUPT + k) as usize];
        self.software_pending[k as usize] && line < 32 && test_bit(self.enabled, line)
            && !self.masked && self.priority[line as usize] >= self.threshold
    }

    /// The software-raised source that the processor takes next, if any
    /// would interrupt it now.
    pub fn next_interrupt(&self) -> (next: Option<Interrupt>)
        ensures
            match next {
                Some(source) => source.software() matches Some(k) && self.takes(k as int),
                None => self.quiet(),
            },
    {
        let mut best: Option<u8> = None;
        let mut k: u8 = 0;
        while k < 4
            invariant
                k <= 4,
                match best {
                    Some(b) => {
                        &&& b < k
                        &&& self.deliverable(b as int)
                        &&& forall|j: int| 0 <= j < k && #[trigger] self.deliverable(j)
                            ==> self.priority_of(j) < self.priority_of(b as int) || (
                            self.priority_of(j) == self.priority_of(b as int) && b <= j)
                    },
                    None => forall|j: int| 0 <= j < k ==> !#[trigger] self.deliverable(j),
                },
            decreases 4 - k,
        {
            if self.is_deliverable(k) {
                let line: u8 = self.route[(FIRST_SOFTWARE_INTERRUPT + k) as usize];
                let replace: bool = match best {
                    Some(b) => {
                        let held: u8 = self.route[(FIRST_SOFTWARE_INTERRUPT + b) as usize];
                        self.priority[line as usize] > self.priority[held as usize]
                    },
                    None => true,
                };
                if replace {
                    best = Some(k);
                }
            }
            k = k + 1;
        }
        match best {
            Some(b) => Interrupt::from_cpu(b),
            None => None,
        }
    }

    /// What the processor does when it is free to take an interrupt: it
    /// takes the source that `next_interrupt` gives and holds the threshold
    /// just above that source's priority. The result is the source, for its
    /// handler to run, and the threshold that was in force, for `leave` to
    /// put back when the handler has returned. With no source deliverable
    /// nothing changes, and the interrupted code goes on.
    pub fn take(&mut self) -> (taken: Option<(Interrupt, u8)>)
        ensures
            match taken {
                Some((source, interrupted)) => {
                    &&& source.software() matches Some(k) && old(self).takes(k as int)
                        && *final(self) == old(self).entered(k as int)
                    &&& interrupted == old(self).threshold
                },
                None => old(self).quiet() && *final(self) == *old(self),
            },
    {
        match self.next_interrupt() {
            Some(source) => {
                let interrupted: u8 = self.threshold;
                let line: u8 = self.route[source.index() as usize];
                let priority: u8 = self.priority[line as usize];
                self.threshold = if priority < u8::MAX {
                    priority + 1
                } else {
                    u8::MAX
                };
                Some((source, interrupted))
            },
            None => None,
        }
    }

    /// What the processor does when a handler returns: the threshold that
    /// `take` found is in force again.
    pub fn leave(&mut self, interrupted: u8)
        ensures
            *final(self) == (InterruptController { threshold: interrupted, ..*old(self) }),
    {
        self.threshold = interrupted;
    }
}

/// What enabling and raising come to: once software-raised source `k` has
/// been routed to line `line` at priority `priority` and raised, it
/// interrupts the processor exactly if the threshold and the interrupt mask
/// admit that priority.
pub proof fn lemma_enabled_and_raised_is_deliverable(
    ctl: InterruptController,
    k: u8,
    priority: u8,
    line: u8,
)
    requires
        k < SOFTWARE_INTERRUPTS,
        line < CPU_INTERRUPTS,
    ensures
        ctl.with_enabled(FIRST_SOFTWARE_INTERRUPT + k, priority, line).with_pending(
            k as int,
            true,
        ).deliverable(k as int) == admits(ctl.threshold, ctl.masked, priority),
{
    lemma_with_bit_set(ctl.enabled, line, line);
}

/// Critical sections as a task enters and leaves them: none at all, or one
/// section with those entered inside it, followed by those entered after
/// it has been left.
pub enum Sections {
    Done,
    Section { ceiling: u8, inside: Box<Sections>, after: Box<Sections> },
}

/// The controller once all of `sections` have been entered and left, by a
/// task that does nothing else to the threshold or the interrupt mask.
pub open spec fn completed(ctl: InterruptController, sections: Sections) -> InterruptController
    decreases sections,
{
    match sections {
        Sections::Done => ctl,
        Sections::Section { ceiling, inside, after } => completed(
            completed(ctl.inside(ceiling), *inside).outside(ctl, ceiling),
            *after,
        ),
    }
}

/// Ceiling correctness: however critical sections follow one another and
/// are nested in one another, and whatever their ceilings, the controller
/// after the last has been left is the one before the first was entered,
/// threshold and interrupt mask included.
pub proof fn lemma_sections_restore(ctl: InterruptController, sections: Sections)
    ensures
        completed(ctl, sections) == ctl,
    decreases sections,
{
    match sections {
        Sections::Done => {},
        Sections::Section { ceiling, inside, after } => {
            lemma_sections_restore(ctl.inside(ceiling), *inside);
            lemma_sections_restore(ctl, *after);
        },
    }
}

/// No missed preemption: while a task of priority `low` runs outside any
/// critical section, a raised and enabled source of higher priority does
/// not wait. It is deliverable, so the controller is not quiet and the
/// task does not go on, and whatever the processor takes has at least that
/// source's priority.
pub proof fn lemma_no_missed_preemption(ctl: InterruptController, high: int, low: u8)
    requires
        0 <= high < SOFTWARE_INTERRUPTS,
        ctl.software_pending[high],
        ctl.line_of(high) < CPU_INTERRUPTS,
        bit_is_set(ctl.enabled, ctl.line_of(high)),
        ctl.priority_of(high) > low,
        !ctl.masked,
        ctl.threshold <= low + 1,
    ensures
        ctl.deliverable(high),
        !ctl.quiet(),
        forall|k: int| ctl.takes(k) ==> ctl.priority_of(k) >= ctl.priority_of(high),
{
}

/// Run to completion: while the handler of a taken source runs outside any
/// critical section, only sources of strictly higher priority are
/// deliverable. The code that the handler interrupted does not go on, and
/// no task of the handler's own priority starts, before the handler has
/// returned.
pub proof fn lemma_only_higher_priorities_preempt(ctl: InterruptController, k: int, j: int)
    requires
        ctl.priority_of(k) < u8::MAX,
    ensures
        ctl.entered(k).deliverable(j) ==> ctl.entered(k).priority_of(j) > ctl.priority_of(k),
        !ctl.entered(k).deliverable(k),
{
}

/// Bounded inversion, as far as the controller shows it. A source that is
/// raised and enabled, and that the threshold found by a critical section
/// admits, is held back by that section only if its priority is at most the
/// ceiling. Once the section has put back what it changed, the source is
/// deliverable, and whatever the processor takes has at least its priority:
/// no source of lower priority comes first, however many are raised.
///
/// `entry` is the controller that the section found and `body_end` the one
/// that its body left, with the threshold and the interrupt mask as the
/// body found them.
pub proof fn lemma_blocked_by_one_section(
    entry: InterruptController,
    body_end: InterruptController,
    ceiling: u8,
    k: int,
)
    requires
        body_end.threshold == entry.inside(ceiling).threshold,
        body_end.masked == entry.inside(ceiling).masked,
        0 <= k < SOFTWARE_INTERRUPTS,
        body_end.software_pending[k],
        body_end.line_of(k) < CPU_INTERRUPTS,
        bit_is_set(body_end.enabled, body_end.line_of(k)),
        admits(entry.threshold, entry.masked, body_end.priority_of(k)),
    ensures
        body_end.deliverable(k) ==> body_end.priority_of(k) > ceiling,
        ceiling < body_end.priority_of(k) <= MAX_PRIORITY ==> body_end.deliverable(k),
        body_end.outside(entry, ceiling).deliverable(k),
        forall|j: int|
            body_end.outside(entry, ceiling).takes(j) ==> body_end.outside(
                entry,
                ceiling,
            ).priority_of(j) >= body_end.priority_of(k),
{
}

} // verus!
