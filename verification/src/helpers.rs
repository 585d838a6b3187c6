//! The suspension primitive: a pollable unit that yields exactly once.

use vstd::prelude::*;

use crate::pollable::{Poll, Pollable, StubWaker};

verus! {

/// A single-flag pollable unit that reports not-ready exactly once, then
/// ready.
///
/// Its first poll sets the flag, invokes the stub's wake-by-ref (which is
/// inert) and reports not-ready; its second poll, necessarily on a later
/// sweep, reports ready immediately.  The net effect is exactly one
/// scheduling boundary: the task resumes on the following sweep, after every
/// other occupied slot has had its turn.
pub struct Yield {
    /// Whether the unit has already yielded once.
    flag: bool,
}

impl Pollable for Yield {
    type Output = ();

    /// One pending poll is left while the flag is still unset.
    closed spec fn steps(&self) -> nat {
        if self.flag {
            0
        } else {
            1
        }
    }

    closed spec fn output(&self) -> () {
        ()
    }

    fn poll(&mut self, waker: &StubWaker) -> (r: Poll<()>) {
        if self.flag {
            Poll::Ready(())
        } else {
            self.flag = true;
            waker.wake_by_ref();
            Poll::Pending
        }
    }
}

/// Builds a fresh suspension unit: one that will suspend the calling task
/// for exactly one sweep before resolving.
pub fn yield_me() -> (y: Yield)
    ensures
        y.steps() == 1,
{
    Yield { flag: false }
}

} // verus!
