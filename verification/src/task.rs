//! Tasks and their result handles.
//!
//! A [`Task`] is a named pollable unit wrapping a caller-supplied future.
//! A [`Handle`] is the out-of-band slot through which a completed task's
//! real result reaches its spawner: the slot table itself only tracks
//! completion, so the scheduling machinery writes the resolved value into
//! the handle linked to the task the moment the task completes.

use vstd::prelude::*;

use crate::pollable::{Poll, Pollable, StubWaker};

verus! {

/// A single-field result slot, created empty and written exactly once by
/// the scheduling machinery when the linked task's future resolves.
pub struct Handle<T> {
    /// The resolved value, or `None` while the task has not completed.
    pub value: Option<T>,
}

impl<T> Default for Handle<T> {
    /// A fresh, empty handle.
    fn default() -> (h: Self)
        ensures
            h.value is None,
    {
        Handle { value: None }
    }
}

/// A named pollable unit wrapping a caller-supplied future.
pub struct Task<F: Pollable> {
    /// The optional name of the task; an absent name is reported to the
    /// pending observer as the empty string.
    pub name: Option<String>,
    /// The future representing the operation associated with the task.
    pub future: F,
}

impl<F: Pollable> Task<F> {
    /// The name as the observer will see it: the registered string, or the
    /// empty string for a nameless task.
    pub open spec fn name_spec(&self) -> Seq<char> {
        match self.name {
            Some(s) => s@,
            None => Seq::<char>::empty(),
        }
    }

    fn new_impl(name: Option<String>, future: F) -> (t: Self)
        ensures
            t.name == name,
            t.future == future,
    {
        Task { name, future }
    }

    /// Builds a task with the given name around `future`.
    pub fn new(name: &str, future: F) -> (t: Self)
        ensures
            t.name matches Some(n) && n@ == name@,
            t.future == future,
    {
        Self::new_impl(Some(name.to_owned()), future)
    }

    /// Builds a task without a name around `future`.
    pub fn new_nameless(future: F) -> (t: Self)
        ensures
            t.name is None,
            t.future == future,
    {
        Self::new_impl(None, future)
    }

    /// A new `Handle`, holding nothing yet.  Pass it to `spawn` beside the
    /// task; read it back with `take_handle` after the run loop finishes.
    pub fn create_handle(&self) -> (h: Handle<F::Output>)
        ensures
            h.value is None,
    {
        Handle::default()
    }
}

impl<F: Pollable> Pollable for Task<F> {
    type Output = F::Output;

    /// A task is as far from completion as its wrapped future.
    open spec fn steps(&self) -> nat {
        self.future.steps()
    }

    open spec fn output(&self) -> F::Output {
        self.future.output()
    }

    fn poll(&mut self, waker: &StubWaker) -> (r: Poll<F::Output>) {
        self.future.poll(waker)
    }
}

} // verus!
