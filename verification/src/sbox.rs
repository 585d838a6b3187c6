//! A write-once container with a stable place for its value.
//!
//! `StackBox` reproduces, in a language with move semantics only, the
//! guarantee the scheduler needs from its slot table: once a value has been
//! placed in a box, no operation of the box ever replaces it with a
//! different value or hands it out by move.  The only access after
//! initialization is through a borrow, so the value stays in its slot for as
//! long as the box exists.

use vstd::prelude::*;

verus! {

/// A container holding at most one value, written at most once.
///
/// A box starts empty or full; once full, `init` has no further effect
/// (first write wins) and no method moves the value out.
pub struct StackBox<T> {
    /// The write-once cell; `None` while the box is uninitialized.
    value: Option<T>,
}

impl<T> StackBox<T> {
    /// The value currently held, if any.
    pub closed spec fn inner(&self) -> Option<T> {
        self.value
    }

    /// Builds a box already holding `value`.
    pub fn new(value: T) -> (b: StackBox<T>)
        ensures
            b.inner() == Some(value),
    {
        StackBox { value: Some(value) }
    }

    /// Builds an empty box.
    pub fn empty() -> (b: StackBox<T>)
        ensures
            b.inner() is None,
    {
        StackBox { value: None }
    }

    /// Whether the box has been initialized.
    pub fn is_init(&self) -> (r: bool)
        ensures
            r == (self.inner() is Some),
    {
        self.value.is_some()
    }

    /// Writes `value` into the box unless it already holds one: the first
    /// write wins and a second initialization has no effect.
    pub fn init(&mut self, value: T)
        ensures
            old(self).inner() is None ==> final(self).inner() == Some(value),
            old(self).inner() is Some ==> final(self).inner() == old(self).inner(),
    {
        if self.value.is_none() {
            self.value = Some(value);
        }
    }

    /// Borrows the held value for polling; nothing is moved or replaced.
    pub fn get_mut(&mut self) -> (r: &mut T)
        requires
            old(self).inner() is Some,
        ensures
            *r == old(self).inner().unwrap(),
            final(self).inner() == Some(*final(r)),
    {
        self.value.as_mut().unwrap()
    }

    /// Borrows the held value immutably.
    pub fn get(&self) -> (r: &T)
        requires
            self.inner() is Some,
        ensures
            *r == self.inner().unwrap(),
    {
        self.value.as_ref().unwrap()
    }
}

impl<T> Default for StackBox<T> {
    /// An empty box, to be filled by `init`.
    fn default() -> (b: Self)
        ensures
            b.inner() is None,
    {
        StackBox { value: None }
    }
}

} // verus!
