//! A hardware-interrupt-driven concurrency runtime for single-core
//! microcontrollers.
//!
//! Tasks are bound to interrupt priority levels and the interrupt controller
//! is the preemptive scheduler. This crate holds the decisions of that
//! runtime, each with a proved contract, over an image of the hardware that
//! is made of plain values. Whoever drives a device reads its registers
//! into those values and writes back what the functions here decide.
//!
//! * [`priority`]: priority levels, and what a critical section does to the
//!   priority threshold;
//! * [`interrupt`]: interrupt sources and the software-raised ones among
//!   them;
//! * [`controller`]: the image of the interrupt controller, and the
//!   arbitration among raised sources;
//! * [`export`]: task entry (`run`), the priority ceiling lock (`lock`), and
//!   `pend`, `unpend` and `enable`;
//! * [`dispatcher`]: the bounded first-in, first-out queue behind an
//!   interrupt line that several tasks of one priority share;
//! * [`timer_queue`]: the tasks that wait for an instant of the monotonic
//!   timer, in the order in which they resume;
//! * [`executor`]: tasks, their dispatchers and the timer queue in one, with
//!   the timer service that hands woken tasks back to their dispatchers;
//! * [`analysis`]: ceilings, as they are computed and checked before the
//!   system starts;
//! * [`error`]: what the runtime reports to its callers.

pub mod analysis;
pub mod controller;
pub mod dispatcher;
pub mod error;
pub mod executor;
pub mod export;
pub mod interrupt;
pub mod priority;
pub mod timer_queue;

pub use analysis::PriorityMisassignment;
pub use controller::InterruptController;
pub use dispatcher::{Dispatcher, TaskId};
pub use error::{CapacityError, DelayError, TimerOverrun};
pub use executor::{Executor, Resumption};
pub use export::{enable, lock, pend, run, unpend};
pub use interrupt::Interrupt;
pub use priority::{Protection, MAX_PRIORITY};
pub use timer_queue::{TimerAction, TimerEntry, TimerQueue, Wake};
