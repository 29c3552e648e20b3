use uv_reactor::buffer::BufferPool;
use uv_reactor::error::ErrorKind;
use uv_reactor::flags::RunMode;
use uv_reactor::handle::HandleState;
use uv_reactor::idle::{Counter, ROUNDS};
use uv_reactor::reactor::{Handler, Loop};
use uv_reactor::request::{Fired, Incoming};

/// Counts the idle callbacks and stops the handle at the fifth.
struct FiveTimes {
    calls: u32,
}

impl Handler for FiveTimes {
    fn handle(&mut self, lp: &mut Loop, _pool: &mut BufferPool, fired: Fired) {
        match fired {
            Fired::Idle { handle } => {
                self.calls += 1;
                if self.calls >= 5 {
                    lp.idle_stop(handle).unwrap();
                }
            }
            other => panic!("unexpected {:?}", other),
        }
    }
}

/// Records what a run inside a run gives.
struct Nested {
    inner: Option<Result<bool, ErrorKind>>,
    blocking: Option<Result<(), ErrorKind>>,
    stop: bool,
}

impl Handler for Nested {
    fn handle(&mut self, lp: &mut Loop, pool: &mut BufferPool, fired: Fired) {
        let mut other = FiveTimes { calls: 0 };
        self.inner = Some(lp.run(RunMode::NoWait, &mut other, pool));
        self.blocking = Some(lp.may_block());
        assert!(lp.is_running());
        if self.stop {
            if let Fired::Idle { handle } = fired {
                lp.idle_stop(handle).unwrap();
            }
        }
    }
}

/// Counts every callback.
struct Tally {
    reads: u32,
    others: u32,
}

impl Handler for Tally {
    fn handle(&mut self, _lp: &mut Loop, _pool: &mut BufferPool, fired: Fired) {
        match fired {
            Fired::Read { .. } => self.reads += 1,
            _ => self.others += 1,
        }
    }
}

#[test]
fn an_idle_handle_that_stops_at_five_lets_the_loop_drain() {
    let mut lp = Loop::new();
    let mut pool = BufferPool::new(0);
    let idle = lp.idle();
    lp.idle_start(idle).unwrap();
    let mut handler = FiveTimes { calls: 0 };
    assert_eq!(lp.run(RunMode::Default, &mut handler, &mut pool), Ok(false));
    assert_eq!(handler.calls, 5);
    assert_eq!(lp.dispatched(), 5);
    assert_eq!(lp.iteration(), 5);
    assert_eq!(lp.state(idle), Some(HandleState::Stopped));
    assert!(!lp.alive());
    // never a sixth time
    assert_eq!(lp.run(RunMode::Default, &mut handler, &mut pool), Ok(false));
    assert_eq!(lp.run(RunMode::Once, &mut handler, &mut pool), Ok(false));
    assert_eq!(lp.run(RunMode::NoWait, &mut handler, &mut pool), Ok(false));
    assert_eq!(handler.calls, 5);
    assert_eq!(lp.dispatched(), 5);
}

#[test]
fn the_counter_of_the_library_stops_its_handle_at_its_limit() {
    let mut lp = Loop::new();
    let mut pool = BufferPool::new(0);
    let idle = lp.idle();
    lp.idle_start(idle).unwrap();
    let mut counter = Counter::new(ROUNDS);
    assert_eq!(ROUNDS, 5);
    assert_eq!(lp.run(RunMode::Default, &mut counter, &mut pool), Ok(false));
    assert_eq!(counter.count, 5);
    assert_eq!(counter.limit, 5);
    assert_eq!(lp.dispatched(), 5);
    assert_eq!(lp.state(idle), Some(HandleState::Stopped));
}

#[test]
fn on_idle_counts_and_says_whether_the_handle_goes_on() {
    let mut lp = Loop::new();
    let idle = lp.idle();
    lp.idle_start(idle).unwrap();
    let mut counter = Counter::new(3);
    assert_eq!(counter.on_idle(&mut lp, idle), Ok(true));
    assert_eq!(counter.on_idle(&mut lp, idle), Ok(true));
    assert_eq!(lp.state(idle), Some(HandleState::Active));
    assert_eq!(counter.on_idle(&mut lp, idle), Ok(false));
    assert_eq!(counter.count, 3);
    assert_eq!(lp.state(idle), Some(HandleState::Stopped));
    // the handle is stopped already
    assert_eq!(counter.on_idle(&mut lp, idle), Err(ErrorKind::InvalidState));
    assert_eq!(counter.count, 4);
    assert_eq!(counter.on_idle(&mut lp, 9), Err(ErrorKind::Unknown));
}

#[test]
fn the_counter_does_not_run_over() {
    let mut lp = Loop::new();
    let idle = lp.idle();
    lp.idle_start(idle).unwrap();
    let mut counter = Counter { count: i64::MAX - 1, limit: i64::MAX };
    assert_eq!(counter.on_idle(&mut lp, idle), Ok(false));
    assert_eq!(counter.count, i64::MAX);
    lp.idle_start(idle).unwrap();
    assert_eq!(counter.on_idle(&mut lp, idle), Ok(false));
    assert_eq!(counter.count, i64::MAX);
}

#[test]
fn an_idle_callback_fires_once_in_every_iteration() {
    let mut lp = Loop::new();
    let a = lp.idle();
    let b = lp.idle();
    lp.idle_start(a).unwrap();
    lp.idle_start(b).unwrap();
    for round in 0..3u64 {
        assert_eq!(lp.iteration(), round);
        assert!(matches!(lp.next(), Some(Fired::Idle { handle }) if handle == a));
        assert!(matches!(lp.next(), Some(Fired::Idle { handle }) if handle == b));
        assert!(lp.next().is_none());
    }
    lp.idle_stop(a).unwrap();
    assert!(matches!(lp.next(), Some(Fired::Idle { handle }) if handle == b));
    assert!(lp.next().is_none());
}

#[test]
fn once_and_no_wait_go_through_one_iteration() {
    let mut lp = Loop::new();
    let mut pool = BufferPool::new(0);
    let idle = lp.idle();
    lp.idle_start(idle).unwrap();
    let mut handler = FiveTimes { calls: 0 };
    assert_eq!(lp.run(RunMode::Once, &mut handler, &mut pool), Ok(true));
    assert_eq!(handler.calls, 1);
    assert_eq!(lp.iteration(), 1);
    assert_eq!(lp.run(RunMode::NoWait, &mut handler, &mut pool), Ok(true));
    assert_eq!(handler.calls, 2);
    assert_eq!(lp.iteration(), 2);
    assert!(!lp.is_running());
}

#[test]
fn a_run_returns_when_it_would_have_to_wait() {
    let mut lp = Loop::new();
    let mut pool = BufferPool::new(0);
    let h = lp.pipe();
    lp.read_start(h).unwrap();
    let mut tally = Tally { reads: 0, others: 0 };
    // the handle is active, and nothing has arrived
    assert_eq!(lp.run(RunMode::Default, &mut tally, &mut pool), Ok(true));
    assert_eq!(tally.reads, 0);
    lp.post(h, Incoming::Data(vec![1])).unwrap();
    lp.post(h, Incoming::Data(vec![2])).unwrap();
    assert_eq!(lp.run(RunMode::Default, &mut tally, &mut pool), Ok(true));
    assert_eq!(tally.reads, 2);
    assert_eq!(tally.others, 0);
    lp.read_stop(h).unwrap();
    assert_eq!(lp.run(RunMode::Default, &mut tally, &mut pool), Ok(false));
}

#[test]
fn a_run_inside_a_run_is_refused() {
    let mut lp = Loop::new();
    let mut pool = BufferPool::new(0);
    let idle = lp.idle();
    lp.idle_start(idle).unwrap();
    assert_eq!(lp.may_block(), Ok(()));
    let mut nested = Nested { inner: None, blocking: None, stop: true };
    assert_eq!(lp.run(RunMode::Default, &mut nested, &mut pool), Ok(false));
    assert_eq!(nested.inner, Some(Err(ErrorKind::Busy)));
    assert_eq!(nested.blocking, Some(Err(ErrorKind::Busy)));
    assert_eq!(lp.may_block(), Ok(()));
    assert!(!lp.is_running());
}

#[test]
fn a_run_on_an_empty_loop_returns_at_once() {
    let mut lp = Loop::new();
    let mut pool = BufferPool::new(0);
    let mut tally = Tally { reads: 0, others: 0 };
    assert_eq!(lp.run(RunMode::Default, &mut tally, &mut pool), Ok(false));
    assert_eq!(lp.run(RunMode::Once, &mut tally, &mut pool), Ok(false));
    assert_eq!(tally.reads + tally.others, 0);
}

#[test]
fn the_idle_callback_runs_as_often_as_its_limit_says() {
    assert_eq!(uv_reactor::idle::count_to(5), 5);
    assert_eq!(uv_reactor::idle::count_to(1), 1);
    assert_eq!(uv_reactor::idle::count_to(0), 1);
    assert_eq!(uv_reactor::idle::count_to(-3), 1);
    assert_eq!(uv_reactor::idle::count_to(1000), 1000);
}
