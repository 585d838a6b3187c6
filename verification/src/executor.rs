//! The executor: a fixed-capacity slot table of pollable units and the
//! round-robin run loop that drives them to completion.
//!
//! The table's capacity is fixed once at construction.  A monotonically
//! increasing append cursor tracks the next unused slot and never decreases,
//! even when a slot empties after completion: at most `capacity` tasks are
//! ever accepted over the executor's whole lifetime.  This is a deliberate
//! configure-fully-then-run lifecycle, not a pool that recycles capacity.

use vstd::prelude::*;

use crate::pollable::{Poll, Pollable, StubWaker};
use crate::sbox::StackBox;
use crate::task::{Handle, Task};

verus! {

/// The errors the executor can report.
#[derive(Debug, PartialEq, Eq, Structural)]
pub enum Error {
    /// The append cursor has reached the table's capacity: no slot is left,
    /// regardless of how many earlier tasks have already completed.
    NoFreeSlots,
}

/// The specification-level summary of one occupied slot: how many polls the
/// unit will still answer with not-ready, the value it resolves to, and the
/// name under which the pending observer hears of it.
pub ghost struct TaskModel<T> {
    /// Pending polls left before the unit resolves.
    pub steps: nat,
    /// The value the unit resolves to.
    pub output: T,
    /// The observed name; the empty sequence for a nameless task.
    pub name: Seq<char>,
}

/// The entry of one slot after `s` further sweeps have polled it: the unit
/// keeps its output and name and loses one pending poll per sweep, and the
/// slot is empty once its pending polls are spent.
pub open spec fn stepped<T>(e: Option<TaskModel<T>>, s: nat) -> Option<TaskModel<T>> {
    match e {
        Some(tm) => if tm.steps >= s {
            Some(TaskModel { steps: (tm.steps - s) as nat, output: tm.output, name: tm.name })
        } else {
            None
        },
        None => None,
    }
}

/// The whole slot table after `s` sweeps.
pub open spec fn model_after<T>(m: Seq<Option<TaskModel<T>>>, s: nat) -> Seq<
    Option<TaskModel<T>>,
> {
    Seq::new(m.len(), |i: int| stepped(m[i], s))
}

/// Whether every slot of the table is empty.
pub open spec fn all_empty<T>(m: Seq<Option<TaskModel<T>>>) -> bool {
    forall|i: int| 0 <= i < m.len() ==> m[i] is None
}

/// Whether some slot of the table is occupied.
pub open spec fn has_occupied<T>(m: Seq<Option<TaskModel<T>>>) -> bool {
    exists|i: int| 0 <= i < m.len() && m[i] is Some
}

/// The largest number of pending polls any occupied slot still has.
pub open spec fn max_steps<T>(m: Seq<Option<TaskModel<T>>>) -> nat
    decreases m.len(),
{
    if m.len() == 0 {
        0
    } else {
        let rest = max_steps(m.drop_last());
        match m.last() {
            Some(tm) => if tm.steps > rest {
                tm.steps
            } else {
                rest
            },
            None => rest,
        }
    }
}

/// How many sweeps the run loop performs on a table in this state: the unit
/// farthest from completion is polled not-ready on each of its `steps`
/// sweeps and ready on the next one; an already empty table still gets the
/// one sweep that discovers it is empty.
pub open spec fn sweeps_needed<T>(m: Seq<Option<TaskModel<T>>>) -> nat {
    if has_occupied(m) {
        max_steps(m) + 1
    } else {
        1
    }
}

/// The names reported to the pending observer during one sweep of a table
/// in this state: one name per occupied slot whose poll reports not-ready
/// this sweep, in ascending slot order.  A slot that becomes ready this
/// sweep (no pending polls left) is not reported.
pub open spec fn pending_names<T>(m: Seq<Option<TaskModel<T>>>) -> Seq<Seq<char>>
    decreases m.len(),
{
    if m.len() == 0 {
        Seq::empty()
    } else {
        let rest = pending_names(m.drop_last());
        match m.last() {
            Some(tm) => if tm.steps >= 1 {
                rest.push(tm.name)
            } else {
                rest
            },
            None => rest,
        }
    }
}

/// All names reported to the pending observer over the first `s` sweeps,
/// in order of delivery.
pub open spec fn notified_names<T>(m: Seq<Option<TaskModel<T>>>, s: nat) -> Seq<Seq<char>>
    decreases s,
{
    if s == 0 {
        Seq::empty()
    } else {
        notified_names(m, (s - 1) as nat) + pending_names(model_after(m, (s - 1) as nat))
    }
}

/// No occupied slot has more pending polls than `max_steps` reports.
pub proof fn lemma_max_steps_ge<T>(m: Seq<Option<TaskModel<T>>>, i: int)
    requires
        0 <= i < m.len(),
        m[i] is Some,
    ensures
        max_steps(m) >= m[i]->Some_0.steps,
    decreases m.len(),
{
    if i == m.len() - 1 {
    } else {
        lemma_max_steps_ge(m.drop_last(), i);
    }
}

/// `max_steps` never exceeds a bound that every occupied slot respects.
pub proof fn lemma_max_steps_le<T>(m: Seq<Option<TaskModel<T>>>, k: nat)
    requires
        forall|i: int| 0 <= i < m.len() && m[i] is Some ==> #[trigger] (m[i]->Some_0.steps) <= k,
    ensures
        max_steps(m) <= k,
    decreases m.len(),
{
    if m.len() > 0 {
        lemma_max_steps_le(m.drop_last(), k);
    }
}

/// Zero further sweeps leave the table as it is.
pub proof fn lemma_model_after_zero<T>(m: Seq<Option<TaskModel<T>>>)
    ensures
        model_after(m, 0) == m,
{
    assert(model_after(m, 0) =~= m);
}

/// One sweep on the table after `s` sweeps gives the table after `s + 1`.
pub proof fn lemma_model_after_step<T>(m: Seq<Option<TaskModel<T>>>, s: nat)
    ensures
        model_after(model_after(m, s), 1) == model_after(m, s + 1),
{
    assert(model_after(model_after(m, s), 1) =~= model_after(m, s + 1));
}

/// A unit occupying slot `i` is reported pending in sweep `s` exactly when
/// `s` lies before its completion sweep: it is reported once per sweep for
/// the first `steps` sweeps, and not in the sweep that removes it.
pub proof fn lemma_pending_exactly_before_completion<T>(
    m: Seq<Option<TaskModel<T>>>,
    i: int,
    s: nat,
)
    requires
        0 <= i < m.len(),
    ensures
        (stepped(m[i], s) matches Some(tm) && tm.steps >= 1) <==> (m[i] matches Some(tm0)
            && s < tm0.steps),
{
}

/// A table that still has an occupied slot after `s` sweeps bounds `s` by
/// the table's largest pending-poll count.
pub proof fn lemma_not_empty_bounds_sweeps<T>(m: Seq<Option<TaskModel<T>>>, s: nat)
    requires
        !all_empty(model_after(m, s)),
    ensures
        has_occupied(m),
        s <= max_steps(m),
{
    let ms = model_after(m, s);
    let i = choose|i: int| 0 <= i < ms.len() && ms[i] is Some;
    assert(m[i] is Some);
    lemma_max_steps_ge(m, i);
}

/// The capability of a pending observer: it is invoked with a task's name
/// whenever that task's poll reports not-ready during a sweep, and its
/// specification exposes the sequence of names it has been invoked with.
pub trait PendingObserver: Sized {
    /// Every name this observer has been invoked with, oldest first.
    ///
    /// The default leaves the record unspecified; an observer meant to be
    /// reasoned about in verified code gives its own definition.
    open spec fn observed(&self) -> Seq<Seq<char>> {
        arbitrary()
    }

    /// Receives the name of a task whose poll just reported not-ready.
    fn notify(&mut self, name: &str)
        ensures
            final(self).observed() == old(self).observed().push(name@),
    ;
}

/// How a pending observer changes over part of a run: an absent observer
/// stays absent, and a present one is invoked with exactly `names`, in
/// order, after everything it had already observed.
pub open spec fn observer_extended<O: PendingObserver>(
    before: Option<O>,
    after: Option<O>,
    names: Seq<Seq<char>>,
) -> bool {
    match before {
        None => after is None,
        Some(o) => after matches Some(o2) && o2.observed() == o.observed() + names,
    }
}

/// What one sweep leaves in a handle slot: a unit whose poll reports ready
/// writes its output into the linked handle at that very moment (if the
/// handle is still in place), and every other slot keeps its handle as it
/// was.
pub open spec fn handle_after_slot<T>(
    mslot: Option<TaskModel<T>>,
    hslot: Option<Option<T>>,
) -> Option<Option<T>> {
    match mslot {
        Some(tm) => if tm.steps == 0 {
            match hslot {
                Some(_) => Some(Some(tm.output)),
                None => None,
            }
        } else {
            hslot
        },
        None => hslot,
    }
}

/// A handle slot after `s` sweeps: resolved with its task's output once the
/// task has completed (which happens during sweep number `steps`, counting
/// from zero), untouched otherwise.
pub open spec fn handle_after<T>(
    mslot: Option<TaskModel<T>>,
    hslot: Option<Option<T>>,
    s: nat,
) -> Option<Option<T>> {
    match mslot {
        Some(tm) => if tm.steps < s {
            match hslot {
                Some(_) => Some(Some(tm.output)),
                None => None,
            }
        } else {
            hslot
        },
        None => hslot,
    }
}

/// A pending observer that records the names it is invoked with.
pub struct RecordingObserver {
    /// The recorded names, oldest first.
    names: Vec<String>,
}

impl RecordingObserver {
    /// A fresh observer with an empty record.
    pub fn new() -> (o: RecordingObserver)
        ensures
            o.observed() == Seq::<Seq<char>>::empty(),
    {
        RecordingObserver { names: Vec::new() }
    }

    /// The recorded names, oldest first.
    pub fn names(&self) -> (r: &Vec<String>)
        ensures
            r@.map_values(|s: String| s@) == self.observed(),
    {
        &self.names
    }
}

impl PendingObserver for RecordingObserver {
    /// The names recorded so far, as sequences of characters.
    closed spec fn observed(&self) -> Seq<Seq<char>> {
        self.names@.map_values(|s: String| s@)
    }

    fn notify(&mut self, name: &str) {
        self.names.push(name.to_owned());
        proof {
            assert(self.observed() =~= old(self).observed().push(name@));
        }
    }
}

/// The `Executor` manages a fixed table of pollable units and runs them.
pub struct Executor<F: Pollable, O: PendingObserver> {
    /// The slot table: each entry holds at most one pinned task unit.
    tasks: Vec<Option<StackBox<Task<F>>>>,
    /// The handle slots, parallel to the task table: the handle linked at
    /// spawn time stays here, and receives the task's output the moment the
    /// task completes.
    handles: Vec<Option<Handle<F::Output>>>,
    /// The append cursor: the next unused slot.  It never decreases.
    index: usize,
    /// The observer invoked with a task's name when that task's poll
    /// reports not-ready; at most one at a time.
    pending_callback: Option<O>,
}

impl<F: Pollable, O: PendingObserver> Executor<F, O> {
    /// The fixed number of slots.
    pub closed spec fn capacity(&self) -> nat {
        self.tasks@.len()
    }

    /// The append cursor: how many tasks have been accepted so far.
    pub closed spec fn cursor(&self) -> nat {
        self.index as nat
    }

    /// The slot table as a sequence of occupied-or-empty entries.
    pub closed spec fn slots(&self) -> Seq<Option<TaskModel<F::Output>>> {
        Seq::new(
            self.tasks@.len(),
            |i: int|
                match self.tasks@[i] {
                    Some(b) => match b.inner() {
                        Some(t) => Some(
                            TaskModel {
                                steps: t.future.steps(),
                                output: t.future.output(),
                                name: t.name_spec(),
                            },
                        ),
                        None => None,
                    },
                    None => None,
                },
        )
    }

    /// The handle slots: `None` where no task was ever spawned, otherwise
    /// the linked handle's current contents.
    pub closed spec fn handle_slots(&self) -> Seq<Option<Option<F::Output>>> {
        Seq::new(
            self.handles@.len(),
            |i: int|
                match self.handles@[i] {
                    Some(h) => Some(h.value),
                    None => None,
                },
        )
    }

    /// The registered pending observer, if any.
    pub closed spec fn observer(&self) -> Option<O> {
        self.pending_callback
    }

    /// The hidden part of the invariant: the two arrays run in parallel,
    /// the cursor stays within capacity, every slot at or past the cursor is
    /// still untouched, and every occupied slot holds a properly
    /// initialized box.
    pub closed spec fn wf_inner(&self) -> bool {
        &&& self.handles@.len() == self.tasks@.len()
        &&& self.index <= self.tasks@.len()
        &&& forall|i: int|
            self.index <= i < self.tasks@.len() ==> self.tasks@[i] is None && self.handles@[i]
                is None
        &&& forall|i: int|
            0 <= i < self.tasks@.len() ==> (#[trigger] self.tasks@[i] matches Some(b) ==> b.inner()
                is Some)
    }

    /// The executor's invariant.  The visible part says that the slot table
    /// and the handle table both have exactly `capacity` entries and that
    /// the cursor never passes capacity; the rest is internal.
    pub open spec fn wf(&self) -> bool {
        &&& self.slots().len() == self.capacity()
        &&& self.handle_slots().len() == self.capacity()
        &&& self.cursor() <= self.capacity()
        &&& self.wf_inner()
    }

    /// Creates an executor with `capacity` empty slots, the cursor at the
    /// first slot and no pending observer.
    pub fn new(capacity: usize) -> (e: Self)
        ensures
            e.wf(),
            e.capacity() == capacity,
            e.cursor() == 0,
            forall|i: int| 0 <= i < capacity ==> e.slots()[i] is None,
            forall|i: int| 0 <= i < capacity ==> e.handle_slots()[i] is None,
            e.observer() is None,
    {
        let mut tasks: Vec<Option<StackBox<Task<F>>>> = Vec::new();
        let mut handles: Vec<Option<Handle<F::Output>>> = Vec::new();
        let mut n: usize = 0;
        while n < capacity
            invariant
                n <= capacity,
                tasks@.len() == n,
                handles@.len() == n,
                forall|i: int| 0 <= i < n ==> tasks@[i] is None,
                forall|i: int| 0 <= i < n ==> handles@[i] is None,
            decreases capacity - n,
        {
            tasks.push(None);
            handles.push(None);
            n = n + 1;
        }
        Executor { tasks, handles, index: 0, pending_callback: None }
    }

    /// Registers `cb` as the pending observer, replacing any previous one.
    pub fn set_pending_callback(&mut self, cb: O)
        requires
            old(self).wf(),
        ensures
            final(self).wf(),
            final(self).observer() == Some(cb),
            final(self).slots() == old(self).slots(),
            final(self).handle_slots() == old(self).handle_slots(),
            final(self).cursor() == old(self).cursor(),
            final(self).capacity() == old(self).capacity(),
    {
        self.pending_callback = Some(cb);
    }

    /// Stores `task` at the cursor's slot, links `handle` to it and
    /// advances the cursor; fails with [`Error::NoFreeSlots`], mutating
    /// nothing, exactly when the cursor has already reached capacity.
    ///
    /// Because the cursor never decreases, the first `capacity` spawns on a
    /// fresh executor succeed and every later one fails, regardless of how
    /// many of the accepted tasks have completed and left the table.
    pub fn spawn(&mut self, task: Task<F>, handle: Handle<F::Output>) -> (r: Result<(), Error>)
        requires
            old(self).wf(),
        ensures
            final(self).wf(),
            final(self).capacity() == old(self).capacity(),
            final(self).observer() == old(self).observer(),
            old(self).cursor() == old(self).capacity() ==> r == Err::<(), Error>(Error::NoFreeSlots)
                && *final(self) == *old(self),
            old(self).cursor() < old(self).capacity() ==> {
                &&& r == Ok::<(), Error>(())
                &&& final(self).cursor() == old(self).cursor() + 1
                &&& final(self).slots() == old(self).slots().update(
                    old(self).cursor() as int,
                    Some(
                        TaskModel {
                            steps: task.future.steps(),
                            output: task.future.output(),
                            name: task.name_spec(),
                        },
                    ),
                )
                &&& final(self).handle_slots() == old(self).handle_slots().update(
                    old(self).cursor() as int,
                    Some(handle.value),
                )
            },
    {
        if self.index >= self.tasks.len() {
            return Err(Error::NoFreeSlots);
        }
        let index = self.index;
        self.index = index + 1;
        self.tasks[index] = Some(StackBox::new(task));
        self.link_handle(index, handle);
        proof {
            assert(self.slots() =~= old(self).slots().update(
                old(self).cursor() as int,
                Some(
                    TaskModel {
                        steps: task.future.steps(),
                        output: task.future.output(),
                        name: task.name_spec(),
                    },
                ),
            ));
            assert(self.handle_slots() =~= old(self).handle_slots().update(
                old(self).cursor() as int,
                Some(handle.value),
            ));
        }
        Ok(())
    }

    /// Takes the handle linked at slot `i` out of the executor, leaving the
    /// handle slot empty.  After the run loop has returned, the handle of a
    /// spawned task holds the value its future resolved to.
    pub fn take_handle(&mut self, i: usize) -> (r: Option<Handle<F::Output>>)
        requires
            old(self).wf(),
        ensures
            final(self).wf(),
            final(self).capacity() == old(self).capacity(),
            final(self).cursor() == old(self).cursor(),
            final(self).observer() == old(self).observer(),
            final(self).slots() == old(self).slots(),
            i < old(self).capacity() ==> {
                &&& (r matches Some(h) ==> old(self).handle_slots()[i as int] == Some(h.value))
                &&& (r is None ==> old(self).handle_slots()[i as int] is None)
                &&& final(self).handle_slots() == old(self).handle_slots().update(i as int, None)
            },
            i >= old(self).capacity() ==> r is None && final(self).handle_slots() == old(
                self,
            ).handle_slots(),
    {
        if i >= self.handles.len() {
            return None;
        }
        let r = self.handles[i].take();
        proof {
            assert(self.slots() =~= old(self).slots());
            assert(self.handle_slots() =~= old(self).handle_slots().update(i as int, None));
        }
        r
    }

    /// Executes sweeps until every slot is empty, then returns.
    ///
    /// Each sweep polls every occupied slot in ascending index order with a
    /// freshly built notification stub, removes the units that report ready
    /// the moment they do — writing their outputs into their linked handles
    /// — and reports the name of every unit that is still not ready to the
    /// pending observer, if one is registered.  The call returns only once
    /// every spawned unit has reported ready on some poll: it performs
    /// exactly `sweeps_needed` sweeps, busy-polling with no pause between
    /// them, and never returns while a slot remains occupied.
    ///
    /// The append cursor is untouched: slots freed here are never reused.
    pub fn run(&mut self)
        requires
            old(self).wf(),
        ensures
            final(self).wf(),
            final(self).capacity() == old(self).capacity(),
            final(self).cursor() == old(self).cursor(),
            all_empty(final(self).slots()),
            forall|j: int|
                0 <= j < old(self).capacity() ==> final(self).handle_slots()[j] == handle_after(
                    old(self).slots()[j],
                    old(self).handle_slots()[j],
                    sweeps_needed(old(self).slots()),
                ),
            observer_extended(
                old(self).observer(),
                final(self).observer(),
                notified_names(old(self).slots(), sweeps_needed(old(self).slots())),
            ),
    {
        let ghost m0 = self.slots();
        let ghost h0 = self.handle_slots();
        let ghost ob0 = self.observer();
        let ghost c0 = self.cursor();
        let ghost mut s: nat = 0;
        proof {
            lemma_model_after_zero(m0);
            lemma_observer_unchanged(ob0);
        }
        loop
            invariant_except_break
                self.wf(),
                self.capacity() == m0.len(),
                self.cursor() == c0,
                h0.len() == m0.len(),
                self.slots() == model_after(m0, s),
                forall|j: int|
                    0 <= j < m0.len() ==> self.handle_slots()[j] == handle_after(m0[j], h0[j], s),
                observer_extended(ob0, self.observer(), notified_names(m0, s)),
                s == 0 || !all_empty(model_after(m0, s)),
                s <= sweeps_needed(m0),
            ensures
                self.wf(),
                self.capacity() == m0.len(),
                self.cursor() == c0,
                all_empty(self.slots()),
                forall|j: int|
                    0 <= j < m0.len() ==> self.handle_slots()[j] == handle_after(
                        m0[j],
                        h0[j],
                        sweeps_needed(m0),
                    ),
                observer_extended(ob0, self.observer(), notified_names(m0, sweeps_needed(m0))),
            decreases sweeps_needed(m0) - s,
        {
            let ghost obs_before = self.observer();
            self.sweep();
            proof {
                lemma_model_after_step(m0, s);
                lemma_observer_trans(
                    ob0,
                    obs_before,
                    self.observer(),
                    notified_names(m0, s),
                    pending_names(model_after(m0, s)),
                );
                s = s + 1;
            }
            if self.all_slots_empty() {
                proof {
                    assert forall|j: int|
                        0 <= j < m0.len() && m0[j] is Some implies #[trigger] (m0[j]->Some_0.steps)
                        <= (s - 1) as nat by {
                        assert(self.slots()[j] is None);
                    }
                    lemma_max_steps_le(m0, (s - 1) as nat);
                    if s > 1 {
                        lemma_not_empty_bounds_sweeps(m0, (s - 1) as nat);
                    }
                    assert(s == sweeps_needed(m0));
                }
                break;
            } else {
                proof {
                    lemma_not_empty_bounds_sweeps(m0, s);
                }
            }
        }
    }

    /// Drives `future` to completion on its own, independently of the slot
    /// table, and returns the value it resolves to.
    ///
    /// The future is polled with a freshly built notification stub; if it
    /// reports not-ready it is polled again immediately, with no observer
    /// callback and no table interaction.  The executor itself — its slots,
    /// cursor and observer — is left exactly as it was, and none of its
    /// capacity is consumed: the same output results from polling `future`
    /// to completion in isolation.
    pub fn block_on<G: Pollable>(&mut self, future: G) -> (r: G::Output)
        ensures
            r == future.output(),
            *final(self) == *old(self),
    {
        let waker = create_waker();
        let mut fut = future;
        loop
            invariant
                fut.output() == future.output(),
            decreases fut.steps(),
        {
            match fut.poll(&waker) {
                Poll::Ready(v) => {
                    return v;
                },
                Poll::Pending => {},
            }
        }
    }

    /// The registered pending observer, readable back after a run.
    pub fn pending_observer(&self) -> (r: &Option<O>)
        ensures
            *r == self.observer(),
    {
        &self.pending_callback
    }

    /// Polls the unit in slot `i`, if any, with a freshly built notification
    /// stub.  A unit that reports ready leaves the table for good, its
    /// output written into the linked handle at that very moment; a unit
    /// that reports not-ready stays, one poll closer to completion, and the
    /// pending observer, if one is registered, hears its name.
    fn poll_task(&mut self, i: usize) -> (removed: bool)
        requires
            old(self).wf(),
            i < old(self).capacity(),
        ensures
            final(self).wf(),
            final(self).capacity() == old(self).capacity(),
            final(self).cursor() == old(self).cursor(),
            forall|j: int|
                0 <= j < old(self).capacity() && j != i ==> final(self).slots()[j] == old(
                    self,
                ).slots()[j],
            forall|j: int|
                0 <= j < old(self).capacity() && j != i ==> final(self).handle_slots()[j] == old(
                    self,
                ).handle_slots()[j],
            final(self).slots()[i as int] == stepped(old(self).slots()[i as int], 1),
            final(self).handle_slots()[i as int] == handle_after_slot(
                old(self).slots()[i as int],
                old(self).handle_slots()[i as int],
            ),
            observer_extended(
                old(self).observer(),
                final(self).observer(),
                match old(self).slots()[i as int] {
                    Some(tm) => if tm.steps >= 1 {
                        seq![tm.name]
                    } else {
                        Seq::empty()
                    },
                    None => Seq::empty(),
                },
            ),
            removed == (old(self).slots()[i as int] matches Some(tm) && tm.steps == 0),
    {
        if self.tasks[i].is_none() {
            proof {
                lemma_observer_unchanged(self.observer());
            }
            return false;
        }
        let ghost tm = old(self).slots()[i as int]->Some_0;
        let waker = create_waker();
        let slot = &mut self.tasks[i];
        let sbox = slot.as_mut().unwrap();
        let task_ref = sbox.get_mut();
        let r = task_ref.future.poll(&waker);
        match r {
            Poll::Ready(v) => {
                self.tasks[i] = None;
                match self.handles[i].as_mut() {
                    Some(h) => {
                        h.value = Some(v);
                    },
                    None => {},
                }
                proof {
                    lemma_observer_unchanged(self.observer());
                }
                true
            },
            Poll::Pending => {
                if self.pending_callback.is_some() {
                    let name_ref: &str = match &task_ref.name {
                        Some(s) => s.as_str(),
                        None => "",
                    };
                    proof {
                        reveal_strlit("");
                        assert(name_ref@ =~= tm.name);
                    }
                    self.pending_callback.as_mut().unwrap().notify(name_ref);
                    proof {
                        lemma_observer_push(old(self).observer(), self.observer(), tm.name);
                    }
                } else {
                    proof {
                        lemma_observer_unchanged(self.observer());
                    }
                }
                false
            },
        }
    }

    /// Parks `handle` in the handle table, parallel to the slot being
    /// spawned, where completion will find it.
    fn link_handle(&mut self, index: usize, handle: Handle<F::Output>)
        requires
            old(self).wf(),
            index < old(self).cursor(),
        ensures
            final(self).wf(),
            final(self).capacity() == old(self).capacity(),
            final(self).cursor() == old(self).cursor(),
            final(self).observer() == old(self).observer(),
            final(self).slots() == old(self).slots(),
            final(self).handle_slots() == old(self).handle_slots().update(
                index as int,
                Some(handle.value),
            ),
    {
        self.handles[index] = Some(handle);
        proof {
            assert(self.slots() =~= old(self).slots());
            assert(self.handle_slots() =~= old(self).handle_slots().update(
                index as int,
                Some(handle.value),
            ));
        }
    }

    /// One sweep: visits every slot once, in strictly ascending index (that
    /// is, spawn) order, polling each occupied unit with a fresh stub.
    fn sweep(&mut self)
        requires
            old(self).wf(),
        ensures
            final(self).wf(),
            final(self).capacity() == old(self).capacity(),
            final(self).cursor() == old(self).cursor(),
            final(self).slots() == model_after(old(self).slots(), 1),
            forall|j: int|
                0 <= j < old(self).capacity() ==> final(self).handle_slots()[j]
                    == handle_after_slot(old(self).slots()[j], old(self).handle_slots()[j]),
            observer_extended(
                old(self).observer(),
                final(self).observer(),
                pending_names(old(self).slots()),
            ),
    {
        let ghost m0 = self.slots();
        let ghost h0 = self.handle_slots();
        let ghost ob0 = self.observer();
        let ghost c0 = self.cursor();
        proof {
            lemma_observer_unchanged(ob0);
            assert(m0.take(0) =~= Seq::<Option<TaskModel<F::Output>>>::empty());
        }
        let n = self.tasks.len();
        let mut i: usize = 0;
        while i < n
            invariant
                self.wf(),
                i <= n,
                n == m0.len(),
                h0.len() == m0.len(),
                self.capacity() == m0.len(),
                self.cursor() == c0,
                forall|j: int| i <= j < m0.len() ==> self.slots()[j] == m0[j],
                forall|j: int| 0 <= j < i ==> self.slots()[j] == stepped(m0[j], 1),
                forall|j: int| i <= j < m0.len() ==> self.handle_slots()[j] == h0[j],
                forall|j: int|
                    0 <= j < i ==> self.handle_slots()[j] == handle_after_slot(m0[j], h0[j]),
                observer_extended(ob0, self.observer(), pending_names(m0.take(i as int))),
            decreases n - i,
        {
            let ghost obs_before = self.observer();
            self.poll_task(i);
            proof {
                lemma_pending_names_take_step(m0, i as int);
                lemma_observer_trans(
                    ob0,
                    obs_before,
                    self.observer(),
                    pending_names(m0.take(i as int)),
                    match m0[i as int] {
                        Some(tm) => if tm.steps >= 1 {
                            seq![tm.name]
                        } else {
                            Seq::<Seq<char>>::empty()
                        },
                        None => Seq::<Seq<char>>::empty(),
                    },
                );
            }
            i = i + 1;
        }
        proof {
            assert(m0.take(m0.len() as int) =~= m0);
            assert(self.slots() =~= model_after(m0, 1));
        }
    }

    /// Whether every slot of the table is currently empty.
    fn all_slots_empty(&self) -> (r: bool)
        requires
            self.wf(),
        ensures
            r == all_empty(self.slots()),
    {
        let n = self.tasks.len();
        let mut i: usize = 0;
        while i < n
            invariant
                self.wf(),
                i <= n,
                n == self.capacity(),
                forall|j: int| 0 <= j < i ==> self.slots()[j] is None,
            decreases n - i,
        {
            if self.tasks[i].is_some() {
                proof {
                    assert(self.slots()[i as int] is Some);
                }
                return false;
            }
            i = i + 1;
        }
        true
    }
}

impl<F: Pollable, O: PendingObserver> Default for Executor<F, O> {
    /// An executor with a single slot, for embeddings that configure
    /// nothing.
    fn default() -> (e: Self)
        ensures
            e.wf(),
            e.capacity() == 1,
            e.cursor() == 0,
            e.slots()[0] is None,
            e.handle_slots()[0] is None,
            e.observer() is None,
    {
        Self::new(1)
    }
}

/// A unit that still has `steps` pending polls when the run loop starts
/// completes only on the loop's `steps + 1`-th sweep, so the loop performs
/// at least `steps + 1` sweeps.  In particular a task that suspends itself
/// `k` times through the yield primitive — each suspension adds one pending
/// poll — completes only after `k + 1` sweeps.
pub proof fn lemma_completion_needs_extra_sweeps<T>(m: Seq<Option<TaskModel<T>>>, i: int)
    requires
        0 <= i < m.len(),
        m[i] is Some,
    ensures
        sweeps_needed(m) >= m[i]->Some_0.steps + 1,
        stepped(m[i], m[i]->Some_0.steps) is Some,
        forall|s: nat| s > m[i]->Some_0.steps ==> stepped(m[i], s) is None,
{
    lemma_max_steps_ge(m, i);
}

/// After the run loop's full complement of sweeps, the handle slot of every
/// occupied task holds exactly the value that task's unit resolves to; a
/// handle slot taken out beforehand stays empty, and the handle of a slot
/// that was already empty is untouched.
pub proof fn lemma_handles_resolved_after_run<T>(
    m: Seq<Option<TaskModel<T>>>,
    h: Seq<Option<Option<T>>>,
    j: int,
)
    requires
        0 <= j < m.len(),
        j < h.len(),
    ensures
        m[j] is Some && h[j] is Some ==> handle_after(m[j], h[j], sweeps_needed(m)) == Some(
            Some(m[j]->Some_0.output),
        ),
        m[j] is Some && h[j] is None ==> handle_after(m[j], h[j], sweeps_needed(m)) is None,
        m[j] is None ==> handle_after(m[j], h[j], sweeps_needed(m)) == h[j],
{
    if m[j] is Some {
        lemma_max_steps_ge(m, j);
    }
}

/// Builds the inert notification stub handed to a single poll; the run
/// loop constructs a fresh one for every poll it performs.
fn create_waker() -> (w: StubWaker) {
    StubWaker::new()
}

/// An untouched observer has been extended by no names at all.
proof fn lemma_observer_unchanged<O: PendingObserver>(o: Option<O>)
    ensures
        observer_extended(o, o, Seq::<Seq<char>>::empty()),
{
    match o {
        Some(oo) => {
            assert(oo.observed() + Seq::<Seq<char>>::empty() =~= oo.observed());
        },
        None => {},
    }
}

/// An observer that has just been invoked once has been extended by that
/// one name.
proof fn lemma_observer_push<O: PendingObserver>(before: Option<O>, after: Option<O>, n: Seq<char>)
    requires
        before is Some,
        after is Some,
        after->Some_0.observed() == before->Some_0.observed().push(n),
    ensures
        observer_extended(before, after, seq![n]),
{
    assert(before->Some_0.observed().push(n) =~= before->Some_0.observed() + seq![n]);
}

/// Two extensions of an observer in a row amount to one extension by the
/// concatenated names.
proof fn lemma_observer_trans<O: PendingObserver>(
    o0: Option<O>,
    o1: Option<O>,
    o2: Option<O>,
    a: Seq<Seq<char>>,
    b: Seq<Seq<char>>,
)
    requires
        observer_extended(o0, o1, a),
        observer_extended(o1, o2, b),
    ensures
        observer_extended(o0, o2, a + b),
{
    match o0 {
        Some(x) => {
            assert(x.observed() + a + b =~= x.observed() + (a + b));
        },
        None => {},
    }
}

/// Extending the sweep by slot `i` appends that slot's pending name, if it
/// has one, to the names reported so far.
proof fn lemma_pending_names_take_step<T>(m: Seq<Option<TaskModel<T>>>, i: int)
    requires
        0 <= i < m.len(),
    ensures
        pending_names(m.take(i + 1)) == pending_names(m.take(i)) + (match m[i] {
            Some(tm) => if tm.steps >= 1 {
                seq![tm.name]
            } else {
                Seq::<Seq<char>>::empty()
            },
            None => Seq::<Seq<char>>::empty(),
        }),
{
    let t1 = m.take(i + 1);
    assert(t1.drop_last() =~= m.take(i));
    assert(t1.last() == m[i]);
    match m[i] {
        Some(tm) => {
            if tm.steps >= 1 {
                assert(pending_names(t1) == pending_names(m.take(i)).push(tm.name));
                assert(pending_names(m.take(i)).push(tm.name) =~= pending_names(m.take(i))
                    + seq![tm.name]);
            } else {
                assert(pending_names(m.take(i)) + Seq::<Seq<char>>::empty() =~= pending_names(
                    m.take(i),
                ));
            }
        },
        None => {
            assert(pending_names(m.take(i)) + Seq::<Seq<char>>::empty() =~= pending_names(
                m.take(i),
            ));
        },
    }
}

} // verus!
