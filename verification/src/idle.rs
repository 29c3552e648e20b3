//! The idle counter: a callback that runs once in every iteration and
//! stops its handle when it has counted far enough.

use crate::buffer::{BufferPool, PoolView};
use crate::error::ErrorKind;
use crate::flags::RunMode;
use crate::handle::{HandleKind, HandleState};
use crate::reactor::{steady, Handler, Loop, LoopView};
use crate::request::{Fired, Operation};
use vstd::prelude::*;

verus! {

/// How many times the idle callback runs before it stops its handle.
pub const ROUNDS: i64 = 5;

/// The count that the idle callback keeps.
#[derive(Clone, Copy, Debug, PartialEq, Eq, Structural)]
pub struct Counter {
    /// How many times the callback ran.
    pub count: i64,
    /// The count at which the callback stops its handle.
    pub limit: i64,
}

impl Counter {
    /// A counter at zero.
    pub fn new(limit: i64) -> (r: Counter)
        ensures
            r == (Counter { count: 0, limit }),
    {
        Counter { count: 0, limit }
    }

    /// The count after one more call.
    pub open spec fn next_count(self) -> i64 {
        if self.count < i64::MAX {
            (self.count + 1) as i64
        } else {
            self.count
        }
    }

    /// What `on_idle` does: it counts the call, and once the count has
    /// reached the limit it stops the handle.
    pub open spec fn idled(
        self,
        after: Counter,
        lp0: LoopView,
        lp1: LoopView,
        handle: usize,
        r: Result<bool, ErrorKind>,
    ) -> bool {
        &&& after.limit == self.limit
        &&& after.count == self.next_count()
        &&& if self.next_count() < self.limit {
            &&& r == Ok::<bool, ErrorKind>(true)
            &&& lp1 == lp0
        } else if lp0.can_idle_stop(handle) {
            &&& r == Ok::<bool, ErrorKind>(false)
            &&& lp1 == lp0.with_state(handle, HandleState::Stopped)
        } else {
            &&& r == Err::<bool, ErrorKind>(lp0.denial(handle))
            &&& lp1 == lp0
        }
    }

    /// The idle callback: counts the call, and stops the handle once the
    /// count has reached the limit. Returns whether the handle goes on.
    pub fn on_idle(&mut self, lp: &mut Loop, handle: usize) -> (r: Result<bool, ErrorKind>)
        ensures
            old(self).idled(*final(self), old(lp)@, final(lp)@, handle, r),
    {
        if self.count < i64::MAX {
            self.count = self.count + 1;
        }
        if self.count >= self.limit {
            match lp.idle_stop(handle) {
                Ok(()) => Ok(false),
                Err(e) => Err(e),
            }
        } else {
            Ok(true)
        }
    }

    /// What the counter does with a callback: an idle callback is
    /// answered by `on_idle`; a buffer that comes with another callback
    /// goes back to the pool.
    pub open spec fn reacts(
        self,
        after: Counter,
        lp0: LoopView,
        lp1: LoopView,
        pool0: PoolView,
        pool1: PoolView,
        fired: Fired,
    ) -> bool {
        match fired {
            Fired::Idle { handle } => {
                &&& pool1 == pool0
                &&& exists|r: Result<bool, ErrorKind>| #[trigger]
                    self.idled(after, lp0, lp1, handle, r)
            },
            Fired::Completed { operation, .. } => {
                &&& after == self
                &&& lp1 == lp0
                &&& pool1 == match operation {
                    Operation::Read { buffer, .. } => pool0.released(
                        buffer.spec_id(),
                        buffer.spec_capacity(),
                    ),
                    Operation::Write { buffer, .. } => pool0.released(
                        buffer.spec_id(),
                        buffer.spec_capacity(),
                    ),
                    Operation::Send { buffer, .. } => pool0.released(
                        buffer.spec_id(),
                        buffer.spec_capacity(),
                    ),
                    _ => pool0,
                }
            },
            _ => after == self && lp1 == lp0 && pool1 == pool0,
        }
    }
}

impl Handler for Counter {
    /// Counts the callbacks of idle handles as `on_idle` does. A buffer
    /// that comes with another callback goes back to the pool.
    fn handle(&mut self, lp: &mut Loop, pool: &mut BufferPool, fired: Fired)
        ensures
            old(self).reacts(*final(self), old(lp)@, final(lp)@, old(pool)@, final(pool)@, fired),
    {
        match fired {
            Fired::Idle { handle } => {
                let r = self.on_idle(lp, handle);
            },
            Fired::Completed { operation, .. } => match operation {
                Operation::Read { buffer, .. } => pool.discard(buffer),
                Operation::Write { buffer, .. } => pool.discard(buffer),
                Operation::Send { buffer, .. } => pool.discard(buffer),
                _ => {},
            },
            _ => {},
        }
    }
}

/// The count that a counter reaches before it stops its handle.
pub open spec fn goal(limit: i64) -> int {
    if limit < 1 {
        1
    } else {
        limit as int
    }
}

/// A counter on a loop that has nothing but the counter's idle handle.
struct Alone {
    counter: Counter,
}

impl Alone {
    /// Whether the counter has yet to reach its limit.
    spec fn short(&self) -> bool {
        self.counter.count == 0 || self.counter.count < self.counter.limit
    }

    /// Whether the loop has nothing but one idle handle, in this state.
    spec fn lone(lp: LoopView, state: HandleState) -> bool {
        &&& lp.handles.len() == 1
        &&& lp.handles[0].kind == HandleKind::Idle
        &&& lp.handles[0].state == state
        &&& lp.requests.len() == 0
        &&& lp.arrivals.len() == 0
    }
}

impl Handler for Alone {
    /// While the handle is active the counter is short of its limit and
    /// has counted every callback that the loop handed out, one in each
    /// iteration; once the handle is stopped the counter is at its goal.
    closed spec fn holds(&self, lp: LoopView, pool: PoolView) -> bool {
        &&& 0 <= self.counter.count
        &&& if Self::lone(lp, HandleState::Active) {
            &&& self.short()
            &&& lp.dispatched == self.counter.count
            &&& lp.cursor <= 1
            &&& lp.iteration + lp.cursor == self.counter.count
        } else {
            &&& Self::lone(lp, HandleState::Stopped)
            &&& self.counter.count == goal(self.counter.limit)
        }
    }

    /// The callback is that of the one handle, in an iteration in which the
    /// counter has not counted yet.
    closed spec fn accepts(&self, lp: LoopView, pool: PoolView, fired: Fired) -> bool {
        &&& fired == Fired::Idle { handle: 0 }
        &&& Self::lone(lp, HandleState::Active)
        &&& 0 <= self.counter.count
        &&& self.short()
        &&& lp.dispatched == self.counter.count + 1
        &&& lp.cursor == 1
        &&& lp.iteration == self.counter.count
    }

    /// The limit of the counter stays.
    closed spec fn keeps(&self, origin: &Self) -> bool {
        self.counter.limit == origin.counter.limit
    }

    fn handle(&mut self, lp: &mut Loop, pool: &mut BufferPool, fired: Fired) {
        match fired {
            Fired::Idle { handle } => {
                let _ = self.counter.on_idle(lp, handle);
            },
            Fired::Completed { operation, .. } => match operation {
                Operation::Read { buffer, .. } => pool.discard(buffer),
                Operation::Write { buffer, .. } => pool.discard(buffer),
                Operation::Send { buffer, .. } => pool.discard(buffer),
                _ => {},
            },
            _ => {},
        }
    }
}

/// The steps of a loop with one idle handle leave standing what the lone
/// counter keeps: while the handle is active, the one callback that a step
/// can hand out is its own, once in an iteration.
proof fn lemma_alone_is_steady()
    ensures
        steady::<Alone>(),
{
    assert forall|
        handler: Alone,
        before: LoopView,
        after: LoopView,
        pool: PoolView,
        fired: Option<Fired>,
    |
        #![trigger handler.holds(before, pool), before.stepped(after, fired)]
        handler.holds(before, pool) && before.wf() && !before.running && before.stepped(
            after,
            fired,
        ) implies match fired {
        Some(callback) => handler.accepts(after, pool, callback),
        None => handler.holds(after, pool),
    } by {
        if Alone::lone(before, HandleState::Active) && before.cursor == 0 {
            assert(before.due(0));
        }
    }
}

/// Runs a loop with one idle handle whose callback counts to `limit` and
/// then stops the handle, until nothing keeps the loop alive. Returns how
/// many times the callback ran: once in every iteration until the count
/// reached the limit, and never again after it stopped the handle. A
/// limit below one is reached with the first call.
pub fn count_to(limit: i64) -> (calls: i64)
    ensures
        calls == goal(limit),
{
    let mut lp = Loop::new();
    let handle = lp.idle();
    let _ = lp.idle_start(handle);
    let mut alone = Alone { counter: Counter::new(limit) };
    let mut pool = BufferPool::new(0);
    proof {
        lemma_alone_is_steady();
    }
    let ghost origin = alone;
    assert(alone.holds(lp@, pool@) && alone.keeps(&origin));
    let _ = lp.run(RunMode::Default, &mut alone, &mut pool);
    proof {
        assert(alone.keeps(&origin));
        if Alone::lone(lp@, HandleState::Active) {
            // an active handle keeps the loop alive and is due in the next
            // iteration, so the run would have gone on
            assert(lp@.handles[0].state.keeps_alive());
            assert(lp@.next_iteration().due(0));
            assert(lp@.alive() && lp@.ready());
        }
    }
    alone.counter.count
}

} // verus!
