//! The pollable-unit capability and the inert notification stub.
//!
//! A pollable unit is a state machine that, when polled, either resolves to
//! its output or reports that it is still pending.  The scheduler never
//! delivers real wakeups: every poll receives a [`StubWaker`], whose
//! operations are all no-ops, and a pending unit makes progress only because
//! it is polled again on a later sweep.

use vstd::prelude::*;

verus! {

/// The two outcomes a poll operation may report; no other states exist.
pub enum Poll<T> {
    /// The unit has resolved to its output.
    Ready(T),
    /// The unit is not ready yet and must be polled again.
    Pending,
}

/// The inert notification stub handed to every poll.
///
/// It satisfies the interface a poll operation requires for registering a
/// wakeup, but every operation on it is a no-op: it never re-triggers
/// anything.  Consequently a pending unit advances only because the executor
/// re-polls it every sweep; liveness rests on voluntary yielding, not on
/// notification.
#[derive(Clone, Copy)]
pub struct StubWaker {}

impl StubWaker {
    /// Builds a stub; there is nothing to configure.
    pub fn new() -> StubWaker {
        StubWaker {}
    }

    /// Inert: requesting a wakeup has no effect.
    pub fn wake(&self) {
    }

    /// Inert: requesting a wakeup by reference has no effect.
    pub fn wake_by_ref(&self) {
    }
}

/// The capability a unit must offer to be driven by the scheduler: it can be
/// polled, and its behaviour is captured by two specification members.
///
/// `steps` is the number of polls the unit will still answer with
/// [`Poll::Pending`] before it resolves, and `output` is the value it
/// resolves to.  A poll on a unit with `steps() == 0` reports
/// `Ready(output())`; a poll on any other unit reports `Pending`, consumes
/// exactly one step and leaves the eventual output unchanged.
pub trait Pollable: Sized {
    /// The type of the value the unit resolves to.
    type Output;

    /// How many polls will still report not-ready before the unit resolves.
    ///
    /// The default leaves the count unspecified; a unit meant to be driven
    /// by verified code gives its own definition.
    open spec fn steps(&self) -> nat {
        arbitrary()
    }

    /// The value the unit will resolve to once its pending polls are spent.
    ///
    /// The default leaves the value unspecified; a unit meant to be driven
    /// by verified code gives its own definition.
    open spec fn output(&self) -> Self::Output {
        arbitrary()
    }

    /// Advances the unit by one poll.
    ///
    /// The `waker` is the scheduler's inert notification stub; a unit may
    /// invoke it, but nothing comes of that.
    fn poll(&mut self, waker: &StubWaker) -> (r: Poll<Self::Output>)
        ensures
            old(self).steps() == 0 ==> r == Poll::Ready(old(self).output()),
            old(self).steps() > 0 ==> (r is Pending && final(self).steps() == old(self).steps()
                - 1 && final(self).output() == old(self).output()),
    ;
}

} // verus!
