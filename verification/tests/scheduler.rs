//! Scheduler behavior: round-robin dispatch, mutual exclusion of execution,
//! join/exit ordering, sleep and wake, and the single-core lifecycle of ten
//! threads from spawn to completion.

use sos::context::RawContext;
use sos::processor::Processor;
use sos::rr::RRScheduler;
use sos::std_thread::{JoinHandle, Thread, current, dur_to_ticks, park, sleep, spawn, yield_now};
use sos::thread_pool::{Status, ThreadPool};

fn fresh_pool() -> ThreadPool {
    ThreadPool::new(RRScheduler::new(20), 8)
}

fn spawn_n(pool: &mut ThreadPool, n: usize) -> Vec<JoinHandle> {
    let mut handles = Vec::new();
    for i in 0..n {
        handles.push(spawn(pool, 0x1000 + i as u64));
    }
    handles
}

#[test]
fn round_robin_returns_fifo_order() {
    // Round-robin fairness: N threads added and never blocking come back
    // from N dispatches exactly once each, in insertion order.
    let mut pool = fresh_pool();
    let handles = spawn_n(&mut pool, 5);
    let expected: Vec<usize> = handles.iter().map(|h| h.thread.tid).collect();
    assert_eq!(expected, vec![0, 1, 2, 3, 4]);
    let mut seen = Vec::new();
    for _ in 0..5 {
        let (tid, ctx) = pool.run(0).expect("a thread should be ready");
        seen.push(tid);
        // the thread only yielded: hand its context back
        pool.stop(tid, ctx);
    }
    assert_eq!(seen, expected);
}

#[test]
fn run_on_empty_pool_is_none() {
    let mut pool = fresh_pool();
    assert!(pool.run(0).is_none());
}

#[test]
fn run_never_returns_a_running_thread() {
    // Mutual exclusion of execution: while a context is checked out to one
    // simulated core, no other core's dispatch can obtain the same thread.
    let mut pool = fresh_pool();
    spawn_n(&mut pool, 2);
    let (t0, c0) = pool.run(0).expect("first core gets a thread");
    let (t1, c1) = pool.run(1).expect("second core gets a thread");
    assert_ne!(t0, t1);
    assert!(pool.run(2).is_none(), "no third thread exists");
    // first core's thread yields: it goes back to the ready queue
    pool.stop(t0, c0);
    let (t0_again, c0b) = pool.run(0).expect("the yielded thread is ready again");
    assert_eq!(t0_again, t0);
    assert_ne!(t0_again, t1, "the thread still running on core 1 is not handed out");
    pool.stop(t0_again, c0b);
    pool.stop(t1, c1);
}

#[test]
fn join_orders_after_exit() {
    // Join/exit ordering: try_remove answers nothing strictly before exit,
    // the payload at-or-after exit, and nothing again once collected.
    let mut pool = fresh_pool();
    let handles = spawn_n(&mut pool, 1);
    let tid = handles[0].thread.tid;
    assert_eq!(pool.try_remove(tid), None, "before exit there is nothing to collect");
    let (t, ctx) = pool.run(0).unwrap();
    assert_eq!(t, tid);
    assert_eq!(pool.try_remove(tid), None, "still running, still nothing");
    pool.exit(tid, 77);
    pool.stop(tid, ctx);
    assert_eq!(pool.try_remove(tid), Some(77), "the first collection takes the payload");
    assert_eq!(pool.try_remove(tid), None, "the record is gone afterwards");
}

#[test]
fn join_api_round() {
    // The blocking join loop: a round before exit registers interest and
    // yields; a round after exit collects the payload.
    let mut cpu = RawContext::zeroed();
    let mut pool = fresh_pool();
    let mut proc0 = Processor::new();
    proc0.init(0, sos::context::create_loop_context_for_thread_pool(0x9000));
    let joiner = spawn(&mut pool, 0x2000);
    let target = spawn(&mut pool, 0x2001);
    let target_tid = target.thread.tid;
    // the joiner gets the core and attempts the join
    proc0.run_next(0, &mut pool, &mut cpu);
    assert_eq!(proc0.tid(), joiner.thread.tid);
    let round_one = target.join(&mut pool, &mut proc0, &mut cpu);
    assert!(round_one.is_err(), "the target has not exited yet");
    // the joiner yields; the target runs and exits
    proc0.stop_running(&mut pool);
    let (t, ctx) = pool.run(0).unwrap();
    assert_eq!(t, target_tid);
    pool.exit(target_tid, 5);
    pool.stop(target_tid, ctx);
    // the joiner re-runs its round and succeeds
    let round_two = JoinHandle { thread: Thread { tid: target_tid } };
    proc0.run_next(0, &mut pool, &mut cpu);
    let done = round_two.join(&mut pool, &mut proc0, &mut cpu);
    assert_eq!(done, Ok(5));
}

#[test]
fn sleep_keeps_thread_off_the_ready_set_until_ticks() {
    // Sleep/wake: a thread sleeping five ticks is not dispatched on any
    // core until five pool-observed ticks have elapsed.
    let mut pool = fresh_pool();
    let handles = spawn_n(&mut pool, 1);
    let tid = handles[0].thread.tid;
    pool.sleep(tid, 5);
    for tick in 1..5 {
        pool.tick();
        assert!(pool.run(0).is_none(), "tick {} is too early", tick);
        assert!(pool.run(1).is_none(), "no other core gets it either");
    }
    pool.tick();
    let (t, ctx) = pool.run(0).expect("awake after five ticks");
    assert_eq!(t, tid);
    pool.stop(t, ctx);
}

#[test]
fn wakeup_cuts_a_timed_sleep_short() {
    let mut pool = fresh_pool();
    let handles = spawn_n(&mut pool, 1);
    let tid = handles[0].thread.tid;
    pool.sleep(tid, 5);
    pool.tick();
    assert!(pool.run(0).is_none());
    pool.wakeup(tid);
    let (t, ctx) = pool.run(0).expect("explicit wakeup makes it ready at once");
    assert_eq!(t, tid);
    pool.stop(t, ctx);
    // the cancelled wake condition does not fire later
    for _ in 0..10 {
        pool.tick();
    }
    let (t2, ctx2) = pool.run(0).expect("the thread yielded, so it is ready");
    assert_eq!(t2, tid);
    pool.stop(t2, ctx2);
}

#[test]
fn ten_threads_run_to_completion_single_core() {
    // Scenario: ten threads each do their work once and exit; a single-core
    // dispatch loop reports each id exactly once and then finds nothing,
    // forever.
    let mut cpu = RawContext::zeroed();
    let mut pool = fresh_pool();
    let mut proc0 = Processor::new();
    proc0.init(0, sos::context::create_loop_context_for_thread_pool(0x9000));
    let handles = spawn_n(&mut pool, 10);
    let mut reported = Vec::new();
    while !pool.scheduler.ready.is_empty() {
        proc0.run_next(0, &mut pool, &mut cpu);
        let tid = proc0.tid();
        reported.push(tid);
        // the thread body prints its id once, records its exit, and yields
        pool.exit(tid, tid);
        proc0.stop_running(&mut pool);
    }
    let expected: Vec<usize> = handles.iter().map(|h| h.thread.tid).collect();
    assert_eq!(reported, expected);
    for _ in 0..3 {
        assert!(pool.run(0).is_none(), "nothing is ever ready again");
    }
}

#[test]
fn park_and_unpark() {
    let mut cpu = RawContext::zeroed();
    let mut pool = fresh_pool();
    let mut proc0 = Processor::new();
    proc0.init(0, sos::context::create_loop_context_for_thread_pool(0x9000));
    let handle = spawn(&mut pool, 0x3000);
    let tid = handle.thread.tid;
    proc0.run_next(0, &mut pool, &mut cpu);
    assert_eq!(current(&proc0).id(), tid);
    park(&mut pool, &mut proc0, &mut cpu);
    proc0.stop_running(&mut pool);
    assert!(pool.run(0).is_none(), "parked: not ready, and no timer will wake it");
    for _ in 0..20 {
        pool.tick();
    }
    assert!(pool.run(0).is_none());
    handle.thread.unpark(&mut pool);
    let (t, ctx) = pool.run(0).expect("unparked");
    assert_eq!(t, tid);
    pool.stop(t, ctx);
}

#[test]
fn sleep_api_files_a_wake_condition() {
    let mut cpu = RawContext::zeroed();
    let mut pool = fresh_pool();
    let mut proc0 = Processor::new();
    proc0.init(0, sos::context::create_loop_context_for_thread_pool(0x9000));
    let handle = spawn(&mut pool, 0x4000);
    proc0.run_next(0, &mut pool, &mut cpu);
    // 30 milliseconds: three ticks at a hundredth of a second each
    sleep(&mut pool, &mut proc0, &mut cpu, 0, 30_000_000);
    proc0.stop_running(&mut pool);
    assert!(pool.run(0).is_none());
    pool.tick();
    pool.tick();
    assert!(pool.run(0).is_none());
    pool.tick();
    let (t, ctx) = pool.run(0).expect("three ticks later");
    assert_eq!(t, handle.thread.tid);
    pool.stop(t, ctx);
}

#[test]
fn dur_to_ticks_formula() {
    assert_eq!(dur_to_ticks(0, 0), 0);
    assert_eq!(dur_to_ticks(2, 30_000_000), 203);
    assert_eq!(dur_to_ticks(1, 9_999_999), 100);
}

#[test]
fn yield_restores_running_thread() {
    let mut cpu = RawContext::zeroed();
    let mut pool = fresh_pool();
    let mut proc0 = Processor::new();
    proc0.init(0, sos::context::create_loop_context_for_thread_pool(0x9000));
    let handle = spawn(&mut pool, 0x5000);
    proc0.run_next(0, &mut pool, &mut cpu);
    yield_now(&mut proc0, &mut cpu);
    assert_eq!(proc0.tid(), handle.thread.tid, "the thread stays recorded as running");
}

#[test]
fn detach_cleans_up_an_exited_thread() {
    let mut pool = fresh_pool();
    let handles = spawn_n(&mut pool, 1);
    let tid = handles[0].thread.tid;
    let (t, ctx) = pool.run(0).unwrap();
    pool.exit(t, 9);
    pool.stop(t, ctx);
    pool.detach(tid);
    assert_eq!(pool.try_remove(tid), None, "detaching an exited thread removes its record");
}

#[test]
fn detach_before_exit_discards_payload_at_stop() {
    let mut pool = fresh_pool();
    let handles = spawn_n(&mut pool, 1);
    let tid = handles[0].thread.tid;
    pool.detach(tid);
    let (t, ctx) = pool.run(0).unwrap();
    pool.exit(t, 9);
    pool.stop(t, ctx);
    assert_eq!(pool.try_remove(tid), None, "a detached thread's record is gone after stop");
}

#[test]
fn exit_wakes_a_sleeping_waiter() {
    let mut pool = fresh_pool();
    let handles = spawn_n(&mut pool, 2);
    let waiter = handles[0].thread.tid;
    let target = handles[1].thread.tid;
    // the waiter parks itself after registering interest
    pool.wait(waiter, target);
    pool.sleep(waiter, 0);
    assert!(matches!(pool.slots[waiter].as_ref().unwrap().status, Status::Sleeping));
    // the target runs and exits: the waiter becomes ready again
    let (t, ctx) = pool.run(0).unwrap();
    assert_eq!(t, target);
    pool.exit(target, 1);
    pool.stop(target, ctx);
    let (t2, ctx2) = pool.run(0).expect("the woken waiter");
    assert_eq!(t2, waiter);
    pool.stop(t2, ctx2);
}

#[test]
fn timer_orders_events_and_fires_exactly() {
    let mut timer = sos::timer::Timer::new();
    timer.start(3, 30);
    timer.start(1, 10);
    timer.start(3, 31);
    assert_eq!(timer.pop(), None, "nothing is due at tick zero");
    timer.tick();
    assert_eq!(timer.pop(), Some(10));
    assert_eq!(timer.pop(), None);
    timer.tick();
    assert_eq!(timer.pop(), None);
    timer.tick();
    // among events due at the same instant the later-filed one went first
    assert_eq!(timer.pop(), Some(31));
    assert_eq!(timer.pop(), Some(30));
    assert_eq!(timer.pop(), None);
}

#[test]
fn timer_stop_cancels_first_matching_event() {
    let mut timer = sos::timer::Timer::new();
    timer.start(1, 7);
    timer.start(2, 7);
    timer.stop(7);
    timer.tick();
    assert_eq!(timer.pop(), None, "the tick-one event was cancelled");
    timer.tick();
    assert_eq!(timer.pop(), Some(7), "the tick-two event still fires");
}

#[test]
fn park_action_runs_before_yield() {
    let mut cpu = RawContext::zeroed();
    let mut pool = fresh_pool();
    let mut proc0 = Processor::new();
    proc0.init(0, sos::context::create_loop_context_for_thread_pool(0x9000));
    spawn(&mut pool, 0x7000);
    proc0.run_next(0, &mut pool, &mut cpu);
    let mut ran = false;
    sos::std_thread::park_action(&mut pool, &mut proc0, &mut cpu, || {
        ran = true;
    });
    assert!(ran, "the action ran in the parking window");
    proc0.stop_running(&mut pool);
    assert!(pool.run(0).is_none(), "the thread is parked");
}

#[test]
fn resleeping_replaces_the_wake_condition() {
    let mut pool = fresh_pool();
    let handles = spawn_n(&mut pool, 1);
    let tid = handles[0].thread.tid;
    pool.sleep(tid, 2);
    // re-filing with a later deadline cancels the earlier one
    pool.sleep(tid, 5);
    pool.tick();
    pool.tick();
    assert!(pool.run(0).is_none(), "the two-tick condition was cancelled");
    pool.tick();
    pool.tick();
    pool.tick();
    let (t, ctx) = pool.run(0).expect("awake at the replaced deadline");
    assert_eq!(t, tid);
    pool.stop(t, ctx);
}
