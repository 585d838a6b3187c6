use miniloop::executor::{Error, Executor, RecordingObserver};
use miniloop::helpers::{yield_me, Yield};
use miniloop::pollable::{Poll, Pollable, StubWaker};
use miniloop::sbox::StackBox;
use miniloop::task::Task;

/// A unit that reports not-ready `left` times and then resolves to `val`.
struct CountDown {
    left: u32,
    val: u32,
}

impl Pollable for CountDown {
    type Output = u32;

    fn poll(&mut self, _waker: &StubWaker) -> Poll<u32> {
        if self.left == 0 {
            Poll::Ready(self.val)
        } else {
            self.left -= 1;
            Poll::Pending
        }
    }
}

/// A unit that suspends itself twice through the yield primitive and then
/// resolves to "done".
struct TwoYieldsThenDone {
    first: Yield,
    second: Yield,
}

impl TwoYieldsThenDone {
    fn new() -> Self {
        Self {
            first: yield_me(),
            second: yield_me(),
        }
    }
}

impl Pollable for TwoYieldsThenDone {
    type Output = String;

    fn poll(&mut self, waker: &StubWaker) -> Poll<String> {
        if let Poll::Pending = self.first.poll(waker) {
            return Poll::Pending;
        }
        if let Poll::Pending = self.second.poll(waker) {
            return Poll::Pending;
        }
        Poll::Ready("done".to_string())
    }
}

#[test]
fn spawn_fails_after_capacity_even_when_slots_freed() {
    let mut executor = Executor::<CountDown, RecordingObserver>::new(2);
    for _ in 0..2 {
        let task = Task::new_nameless(CountDown { left: 0, val: 1 });
        let handle = task.create_handle();
        assert!(executor.spawn(task, handle).is_ok());
    }
    // Both tasks complete immediately, so both slots are empty again...
    executor.run();
    // ...and yet the cursor never recycles them.
    let task = Task::new_nameless(CountDown { left: 0, val: 1 });
    let handle = task.create_handle();
    assert_eq!(executor.spawn(task, handle), Err(Error::NoFreeSlots));
}

#[test]
fn spawn_on_zero_capacity_fails() {
    let mut executor = Executor::<CountDown, RecordingObserver>::new(0);
    let task = Task::new_nameless(CountDown { left: 3, val: 9 });
    let handle = task.create_handle();
    assert_eq!(executor.spawn(task, handle), Err(Error::NoFreeSlots));
}

#[test]
fn handles_hold_each_tasks_own_output() {
    let mut executor = Executor::<CountDown, RecordingObserver>::new(3);
    for (left, val) in [(2u32, 10u32), (0, 20), (5, 30)] {
        let task = Task::new_nameless(CountDown { left, val });
        let handle = task.create_handle();
        assert!(executor.spawn(task, handle).is_ok());
    }
    executor.run();
    assert_eq!(executor.take_handle(0).expect("linked").value, Some(10));
    assert_eq!(executor.take_handle(1).expect("linked").value, Some(20));
    assert_eq!(executor.take_handle(2).expect("linked").value, Some(30));
}

#[test]
fn round_robin_determinism() {
    let mut executor = Executor::<CountDown, RecordingObserver>::new(2);
    executor.set_pending_callback(RecordingObserver::new());

    // "x" is spawned first and stays not-ready until its 3rd poll, then
    // resolves to 7; "y" is spawned second and resolves immediately to 3.
    let task_x = Task::new("x", CountDown { left: 2, val: 7 });
    let handle_x = task_x.create_handle();
    let task_y = Task::new("y", CountDown { left: 0, val: 3 });
    let handle_y = task_y.create_handle();
    assert!(executor.spawn(task_x, handle_x).is_ok());
    assert!(executor.spawn(task_y, handle_y).is_ok());

    executor.run();

    let handle_x = executor.take_handle(0).expect("linked");
    let handle_y = executor.take_handle(1).expect("linked");
    assert_eq!(handle_x.value, Some(7));
    assert_eq!(handle_y.value, Some(3));

    let observer = executor.pending_observer().as_ref().expect("registered");
    let names = observer.names();
    assert_eq!(names.len(), 2);
    assert_eq!(names[0].as_str(), "x");
    assert_eq!(names[1].as_str(), "x");
}

#[test]
fn capacity_one_scenario_with_two_yields() {
    let mut executor = Executor::<TwoYieldsThenDone, RecordingObserver>::new(1);
    executor.set_pending_callback(RecordingObserver::new());

    let task = Task::new("only", TwoYieldsThenDone::new());
    let handle = task.create_handle();
    assert!(executor.spawn(task, handle).is_ok());

    executor.run();

    let handle = executor.take_handle(0).expect("linked");
    assert_eq!(handle.value, Some("done".to_string()));

    // Three sweeps in all: the observer fires on the first two, when the
    // task's poll reports not-ready, and not on the sweep that completes it.
    let observer = executor.pending_observer().as_ref().expect("registered");
    let names = observer.names();
    assert_eq!(names.len(), 2);
    assert_eq!(names[0].as_str(), "only");
    assert_eq!(names[1].as_str(), "only");
}

#[test]
fn observer_hears_empty_string_for_nameless_task() {
    let mut executor = Executor::<CountDown, RecordingObserver>::new(1);
    executor.set_pending_callback(RecordingObserver::new());
    let task = Task::new_nameless(CountDown { left: 1, val: 4 });
    let handle = task.create_handle();
    assert!(executor.spawn(task, handle).is_ok());
    executor.run();
    let observer = executor.pending_observer().as_ref().expect("registered");
    assert_eq!(observer.names().len(), 1);
    assert_eq!(observer.names()[0].as_str(), "");
}

#[test]
fn block_on_needs_no_table() {
    let mut executor = Executor::<CountDown, RecordingObserver>::new(0);
    let result = executor.block_on(CountDown { left: 5, val: 99 });
    assert_eq!(result, 99);
}

#[test]
fn block_on_matches_polling_in_isolation() {
    let mut unit = CountDown { left: 3, val: 11 };
    let waker = StubWaker::new();
    let isolated = loop {
        if let Poll::Ready(v) = unit.poll(&waker) {
            break v;
        }
    };
    let mut executor = Executor::<CountDown, RecordingObserver>::new(1);
    let driven = executor.block_on(CountDown { left: 3, val: 11 });
    assert_eq!(driven, isolated);
}

#[test]
fn take_handle_is_terminal_and_bounded() {
    let mut executor = Executor::<CountDown, RecordingObserver>::new(1);
    let task = Task::new_nameless(CountDown { left: 0, val: 8 });
    let handle = task.create_handle();
    assert!(executor.spawn(task, handle).is_ok());
    executor.run();
    assert!(executor.take_handle(5).is_none());
    assert!(executor.take_handle(0).is_some());
    assert!(executor.take_handle(0).is_none());
}

#[test]
fn yield_reports_pending_exactly_once() {
    let mut unit = yield_me();
    let waker = StubWaker::new();
    assert!(matches!(unit.poll(&waker), Poll::Pending));
    assert!(matches!(unit.poll(&waker), Poll::Ready(())));
    assert!(matches!(unit.poll(&waker), Poll::Ready(())));
}

#[test]
fn stub_waker_operations_are_inert() {
    let waker = StubWaker::new();
    waker.wake_by_ref();
    let copy = waker;
    copy.wake();
}

#[test]
fn stack_box_first_write_wins() {
    let mut cell: StackBox<u32> = StackBox::default();
    assert!(!cell.is_init());
    cell.init(4);
    assert!(cell.is_init());
    cell.init(9);
    assert_eq!(*cell.get(), 4);
    *cell.get_mut() = 6;
    assert_eq!(*cell.get(), 6);

    let full = StackBox::new(3u8);
    assert!(full.is_init());
    assert_eq!(*full.get(), 3);
}

#[test]
fn create_handle_starts_empty() {
    let task = Task::new("named", CountDown { left: 0, val: 0 });
    assert_eq!(task.name.as_deref(), Some("named"));
    let handle = task.create_handle();
    assert!(handle.value.is_none());
}

#[test]
fn observer_order_is_ascending_slot_order_each_sweep() {
    let mut executor = Executor::<CountDown, RecordingObserver>::new(2);
    executor.set_pending_callback(RecordingObserver::new());
    let task_a = Task::new("a", CountDown { left: 1, val: 0 });
    let handle_a = task_a.create_handle();
    let task_b = Task::new("b", CountDown { left: 2, val: 0 });
    let handle_b = task_b.create_handle();
    assert!(executor.spawn(task_a, handle_a).is_ok());
    assert!(executor.spawn(task_b, handle_b).is_ok());
    executor.run();
    let names = executor
        .pending_observer()
        .as_ref()
        .expect("registered")
        .names()
        .iter()
        .map(|s| s.as_str())
        .collect::<Vec<_>>();
    // Sweep one reports both pending tasks in slot order; sweep two reports
    // only "b", which still has a pending poll left; sweep three reports
    // nobody and finds the table empty.
    assert_eq!(names, vec!["a", "b", "b"]);
}

#[test]
fn five_suspensions_need_five_pending_reports() {
    let mut executor = Executor::<CountDown, RecordingObserver>::new(1);
    executor.set_pending_callback(RecordingObserver::new());
    let task = Task::new("t", CountDown { left: 5, val: 1 });
    let handle = task.create_handle();
    assert!(executor.spawn(task, handle).is_ok());
    executor.run();
    assert_eq!(executor.take_handle(0).expect("linked").value, Some(1));
    let observer = executor.pending_observer().as_ref().expect("registered");
    assert_eq!(observer.names().len(), 5);
    assert!(observer.names().iter().all(|n| n.as_str() == "t"));
}

#[test]
fn setting_an_observer_replaces_the_previous_one() {
    let mut executor = Executor::<CountDown, RecordingObserver>::new(1);
    executor.set_pending_callback(RecordingObserver::new());
    executor.set_pending_callback(RecordingObserver::new());
    let task = Task::new("t", CountDown { left: 1, val: 0 });
    let handle = task.create_handle();
    assert!(executor.spawn(task, handle).is_ok());
    executor.run();
    // Only the observer registered last hears anything.
    let observer = executor.pending_observer().as_ref().expect("registered");
    assert_eq!(observer.names().len(), 1);
}

#[test]
fn default_executor_has_one_slot() {
    let mut executor = Executor::<CountDown, RecordingObserver>::default();
    let task = Task::new_nameless(CountDown { left: 0, val: 5 });
    let handle = task.create_handle();
    assert!(executor.spawn(task, handle).is_ok());
    let task = Task::new_nameless(CountDown { left: 0, val: 6 });
    let handle = task.create_handle();
    assert_eq!(executor.spawn(task, handle), Err(Error::NoFreeSlots));
    executor.run();
    assert_eq!(executor.take_handle(0).expect("linked").value, Some(5));
}

#[test]
fn run_on_empty_table_returns_at_once() {
    let mut executor = Executor::<CountDown, RecordingObserver>::new(4);
    executor.set_pending_callback(RecordingObserver::new());
    executor.run();
    let observer = executor.pending_observer().as_ref().expect("registered");
    assert!(observer.names().is_empty());
}
