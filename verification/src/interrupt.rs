//! Interrupt sources of the ESP32-C6.
//!
//! The interrupt matrix of the chip numbers its sources. Four of them are
//! raised by software, one register each; all others are raised by
//! peripherals.

use vstd::prelude::*;

verus! {

/// How many interrupt sources the interrupt matrix routes.
pub const INTERRUPT_SOURCES: usize = 77;

/// How many sources software can raise.
pub const SOFTWARE_INTERRUPTS: usize = 4;

/// The number of the first software-raised source; the others follow it.
pub const FIRST_SOFTWARE_INTERRUPT: u8 = 22;

/// An interrupt source, by its number in the interrupt matrix.
#[derive(Clone, Copy, Debug, PartialEq, Eq, Structural)]
pub struct Interrupt {
    number: u8,
}

impl Interrupt {
    #[verifier::type_invariant]
    spec fn in_range(self) -> bool {
        self.number < INTERRUPT_SOURCES
    }

    /// The source's number.
    pub closed spec fn number(self) -> u8 {
        self.number
    }

    /// The index among the software-raised sources, for a source that
    /// software can raise.
    pub open spec fn software(self) -> Option<u8> {
        if FIRST_SOFTWARE_INTERRUPT <= self.number() < FIRST_SOFTWARE_INTERRUPT
            + SOFTWARE_INTERRUPTS {
            Some((self.number() - FIRST_SOFTWARE_INTERRUPT) as u8)
        } else {
            None
        }
    }

    /// The source with this number, if there is one.
    pub fn new(number: u8) -> (source: Option<Interrupt>)
        ensures
            source is Some <==> number < INTERRUPT_SOURCES,
            source matches Some(i) ==> i.number() == number,
    {
        if (number as usize) < INTERRUPT_SOURCES {
            Some(Interrupt { number })
        } else {
            None
        }
    }

    /// The software-raised source with this index, if there is one.
    pub fn from_cpu(index: u8) -> (source: Option<Interrupt>)
        ensures
            source is Some <==> index < SOFTWARE_INTERRUPTS,
            source matches Some(i) ==> i.software() == Some(index),
    {
        if (index as usize) < SOFTWARE_INTERRUPTS {
            Some(Interrupt { number: FIRST_SOFTWARE_INTERRUPT + index })
        } else {
            None
        }
    }

    /// The source's number.
    pub fn index(&self) -> (n: u8)
        ensures
            n == self.number(),
            n < INTERRUPT_SOURCES,
    {
        proof {
            use_type_invariant(self);
        }
        self.number
    }

    /// The index among the software-raised sources, if software can raise
    /// this source.
    pub fn software_index(&self) -> (k: Option<u8>)
        ensures
            k == self.software(),
            k matches Some(i) ==> i < SOFTWARE_INTERRUPTS,
    {
        if FIRST_SOFTWARE_INTERRUPT <= self.number && self.number - FIRST_SOFTWARE_INTERRUPT < 4 {
            Some(self.number - FIRST_SOFTWARE_INTERRUPT)
        } else {
            None
        }
    }
}

} // verus!
