//! A minimal, single-threaded, cooperative scheduler for poll-based
//! computations, meant for constrained environments where heap allocation
//! must be avoidable.
//!
//! The scheduler drives *pollable units*: state machines that report
//! `Pending` a number of times and then resolve to a value (the
//! [`pollable::Pollable`] capability).  An [`executor::Executor`] keeps a
//! fixed-capacity slot table of such units and sweeps it round-robin,
//! ascending slot order, until every unit has completed.  Results reach the
//! caller out of band through [`task::Handle`] slots, and a task may insert a
//! single scheduling boundary with the [`helpers::Yield`] suspension
//! primitive.
//!
//! Progress is strictly by busy-polling: the notification stub handed to
//! every poll ([`pollable::StubWaker`]) is inert, so a unit advances only
//! because the executor polls it again on the next sweep.

pub mod executor;
pub mod helpers;
pub mod pollable;
pub mod sbox;
pub mod task;
