use aruntime::executor::{Decision, Scheduler, MAIN};
use aruntime::reactor::Reactor;
use aruntime::slots::Completion;
use std::future::Future;
use std::sync::atomic::{AtomicUsize, Ordering};
use std::sync::Arc;
use std::task::{Context, Poll, Wake, Waker};

struct Calls {
    made: AtomicUsize,
}

impl Wake for Calls {
    fn wake(self: Arc<Self>) {
        self.made.fetch_add(1, Ordering::SeqCst);
    }
}

#[test]
fn hello_world_scenario() {
    let reactor = Reactor::new();
    let mut scheduler = Scheduler::new();
    let mut main = Box::pin(async { 42 });
    let calls = Arc::new(Calls { made: AtomicUsize::new(0) });
    let waker = Waker::from(calls.clone());
    let mut cx = Context::from_waker(&waker);

    assert_eq!(scheduler.begin_tick(), vec![MAIN]);
    assert_eq!(main.as_mut().poll(&mut cx), Poll::Ready(42));
    assert_eq!(calls.made.load(Ordering::SeqCst), 0);
    assert_eq!(reactor.tokens_issued(), 0);
    assert!(reactor.is_idle());
}

#[test]
fn root_is_task_zero() {
    assert_eq!(MAIN, 0);
}

#[test]
fn spawned_tasks_are_polled_in_arrival_order_after_the_root() {
    let mut scheduler = Scheduler::new();
    let a = scheduler.spawn();
    let b = scheduler.spawn();
    let c = scheduler.spawn();
    assert_eq!((a, b, c), (1, 2, 3));
    assert_eq!(scheduler.begin_tick(), vec![MAIN, a, b, c]);
    assert_eq!(scheduler.begin_tick(), Vec::<u64>::new());
}

#[test]
fn only_woken_tasks_are_polled() {
    let mut scheduler = Scheduler::new();
    let a = scheduler.spawn();
    let b = scheduler.spawn();
    let c = scheduler.spawn();
    scheduler.begin_tick();
    scheduler.wake(c);
    scheduler.wake(a);
    assert_eq!(scheduler.begin_tick(), vec![a, c]);
    scheduler.wake(b);
    scheduler.wake(MAIN);
    assert_eq!(scheduler.begin_tick(), vec![MAIN, b]);
}

#[test]
fn duplicate_wakes_collapse_to_one_poll() {
    let mut scheduler = Scheduler::new();
    let a = scheduler.spawn();
    scheduler.begin_tick();
    scheduler.wake(a);
    scheduler.wake(a);
    scheduler.wake(MAIN);
    scheduler.wake(a);
    scheduler.wake(MAIN);
    assert_eq!(scheduler.begin_tick(), vec![MAIN, a]);
    assert_eq!(scheduler.begin_tick(), Vec::<u64>::new());
}

#[test]
fn finished_task_leaves_the_queue_and_the_rest_keep_their_order() {
    let mut scheduler = Scheduler::new();
    let a = scheduler.spawn();
    let b = scheduler.spawn();
    let c = scheduler.spawn();
    scheduler.finished(b);
    assert_eq!(scheduler.begin_tick(), vec![MAIN, a, c]);
    scheduler.wake(b);
    assert_eq!(scheduler.begin_tick(), Vec::<u64>::new());
    let d = scheduler.spawn();
    assert_eq!(d, 4);
    scheduler.wake(a);
    assert_eq!(scheduler.begin_tick(), vec![a, d]);
}

#[test]
fn wake_of_an_unknown_task_marks_nothing() {
    let mut scheduler = Scheduler::new();
    scheduler.begin_tick();
    scheduler.wake(17);
    assert_eq!(scheduler.decide(false), Decision::Pump);
    assert_eq!(scheduler.begin_tick(), Vec::<u64>::new());
}

#[test]
fn decision_after_a_tick() {
    let mut scheduler = Scheduler::new();
    assert_eq!(scheduler.decide(true), Decision::Tick);
    assert_eq!(scheduler.decide(false), Decision::Tick);
    scheduler.begin_tick();
    assert_eq!(scheduler.decide(false), Decision::Pump);
    assert_eq!(scheduler.decide(true), Decision::Stalled);
    let a = scheduler.spawn();
    assert_eq!(scheduler.decide(true), Decision::Tick);
    scheduler.begin_tick();
    assert_eq!(scheduler.decide(true), Decision::Stalled);
    scheduler.wake(a);
    assert_eq!(scheduler.decide(true), Decision::Tick);
    assert_eq!(scheduler.decide(false), Decision::Tick);
}

#[test]
fn wake_during_a_tick_counts_for_the_next_tick() {
    let mut scheduler = Scheduler::new();
    let a = scheduler.spawn();
    let plan = scheduler.begin_tick();
    assert_eq!(plan, vec![MAIN, a]);
    scheduler.wake(a);
    assert_eq!(scheduler.decide(false), Decision::Tick);
    assert_eq!(scheduler.begin_tick(), vec![a]);
    assert_eq!(scheduler.decide(false), Decision::Pump);
}

#[test]
fn identifiers_do_not_run_out_soon() {
    let mut scheduler = Scheduler::new();
    assert!(scheduler.can_spawn());
    for expected in 1..=100u64 {
        assert!(scheduler.can_spawn());
        assert_eq!(scheduler.spawn(), expected);
    }
}

#[test]
fn executor_pumps_only_while_a_computation_waits() {
    let mut reactor = Reactor::new();
    let mut scheduler = Scheduler::new();
    assert_eq!(scheduler.after_tick(&reactor), Decision::Tick);
    scheduler.begin_tick();
    assert_eq!(scheduler.after_tick(&reactor), Decision::Stalled);
    let calls = Arc::new(Calls { made: AtomicUsize::new(0) });
    let entry = reactor.read(3, Waker::from(calls.clone()), 8);
    assert_eq!(scheduler.after_tick(&reactor), Decision::Pump);
    let wakers = reactor.wait(&[Completion { token: entry.token, result: 8 }]);
    assert_eq!(scheduler.after_tick(&reactor), Decision::Stalled);
    for waker in wakers {
        waker.wake();
    }
    assert_eq!(calls.made.load(Ordering::SeqCst), 1);
    scheduler.wake(MAIN);
    assert_eq!(scheduler.after_tick(&reactor), Decision::Tick);
    assert_eq!(scheduler.begin_tick(), vec![MAIN]);
    assert_eq!(reactor.take_token_result(entry.token), Some(8));
}

#[test]
fn closed_descriptor_leaves_nothing_to_pump_for() {
    let mut reactor = Reactor::new();
    let mut scheduler = Scheduler::new();
    scheduler.begin_tick();
    let calls = Arc::new(Calls { made: AtomicUsize::new(0) });
    reactor.read(3, Waker::from(calls), 8);
    assert_eq!(scheduler.after_tick(&reactor), Decision::Pump);
    reactor.unregister_fd(3);
    assert_eq!(scheduler.after_tick(&reactor), Decision::Stalled);
}
