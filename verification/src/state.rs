//! The state of a loop as contracts see it, and what each operation
//! makes of it.

use crate::error::ErrorKind;
use crate::handle::{Handle, HandleKind, HandleState};
use crate::request::{Arrival, Fired, Incoming, Operation, Request};
use vstd::prelude::*;

verus! {

/// The capacity that the loop asks of the allocator for one read.
pub const SUGGESTED_CAPACITY: usize = 65536;

/// The state of a loop, as contracts see it.
pub struct LoopView {
    /// The registry: every handle ever made on the loop, by its number.
    pub handles: Seq<Handle>,
    /// The requests whose callbacks have not fired yet, in submission order.
    pub requests: Seq<Request>,
    /// What arrived on streams and waits for its read callback, in order of arrival.
    pub arrivals: Seq<Arrival>,
    /// How many requests were ever submitted; the next request gets this id.
    pub issued: nat,
    /// Where in the registry the current iteration goes on.
    pub cursor: nat,
    /// How many iterations have ended.
    pub iteration: nat,
    /// How many callbacks were handed out.
    pub dispatched: nat,
    /// Whether a run is under way.
    pub running: bool,
}

impl LoopView {
    /// A loop with nothing in it.
    pub open spec fn empty() -> LoopView {
        LoopView {
            handles: Seq::empty(),
            requests: Seq::empty(),
            arrivals: Seq::empty(),
            issued: 0,
            cursor: 0,
            iteration: 0,
            dispatched: 0,
            running: false,
        }
    }

    /// Whether the requests at places `j` and `i` are of one kind and were
    /// submitted on one handle.
    pub open spec fn akin(self, j: int, i: int) -> bool {
        &&& self.requests[i].operation.spec_handle() is Some
        &&& self.requests[j].operation.spec_handle() == self.requests[i].operation.spec_handle()
        &&& self.requests[j].operation.spec_kind() == self.requests[i].operation.spec_kind()
    }

    /// Among the requests of one kind on one handle, none has its outcome
    /// before an earlier one has.
    pub open spec fn ordered(self) -> bool {
        forall|j: int, i: int|
            0 <= j < i < self.requests.len() && self.akin(j, i) && (
            #[trigger] self.requests[i]).outcome is Some ==> (
            #[trigger] self.requests[j]).outcome is Some
    }

    /// What holds of every loop: request ids rise with the order of
    /// submission and lie below `issued`, handles have numbers that a
    /// machine word holds, and outcomes on one handle came in the order of
    /// submission for requests of one kind.
    pub open spec fn wf(self) -> bool {
        &&& forall|i: int| 0 <= i < self.requests.len() ==> (#[trigger] self.requests[i]).id
            < self.issued
        &&& forall|i: int, j: int|
            0 <= i < j < self.requests.len() ==> (#[trigger] self.requests[i]).id < (
            #[trigger] self.requests[j]).id
        &&& self.issued <= u64::MAX
        &&& self.handles.len() <= usize::MAX
        &&& self.ordered()
    }

    /// Whether the loop has a handle of this number.
    pub open spec fn has(self, handle: usize) -> bool {
        handle < self.handles.len()
    }

    /// The error for an operation that the handle does not admit.
    pub open spec fn denial(self, handle: usize) -> ErrorKind {
        if self.has(handle) {
            ErrorKind::InvalidState
        } else {
            ErrorKind::Unknown
        }
    }

    /// The loop with one handle replaced.
    pub open spec fn with_handle(self, handle: usize, record: Handle) -> LoopView {
        LoopView { handles: self.handles.update(handle as int, record), ..self }
    }

    /// The loop with one handle moved to another state.
    pub open spec fn with_state(self, handle: usize, state: HandleState) -> LoopView {
        self.with_handle(handle, self.handles[handle as int].at(state))
    }

    /// The loop with one more handle.
    pub open spec fn with_new(self, kind: HandleKind) -> LoopView {
        LoopView { handles: self.handles.push(Handle::fresh(kind)), ..self }
    }

    /// The loop with one more request in flight.
    pub open spec fn submitted(self, operation: Operation) -> LoopView {
        LoopView {
            requests: self.requests.push(
                Request { id: self.issued as u64, operation, outcome: None },
            ),
            issued: self.issued + 1,
            ..self
        }
    }

    /// Whether a callback of a request on this handle has yet to fire.
    pub open spec fn busy(self, handle: usize) -> bool {
        exists|i: int|
            0 <= i < self.requests.len() && (#[trigger] self.requests[i]).operation.spec_handle()
                == Some(handle)
    }

    /// Whether anything keeps the loop alive: a request whose callback has
    /// not fired, or a handle that is active or closing.
    pub open spec fn alive(self) -> bool {
        self.requests.len() > 0 || exists|h: int|
            0 <= h < self.handles.len() && (#[trigger] self.handles[h]).state.keeps_alive()
    }

    /// Whether reading can be started on the handle.
    pub open spec fn can_read_start(self, handle: usize) -> bool {
        &&& self.has(handle)
        &&& self.handles[handle as int].carries_bytes()
        &&& self.handles[handle as int].state.can_start()
    }

    /// Whether reading can be stopped on the handle.
    pub open spec fn can_read_stop(self, handle: usize) -> bool {
        &&& self.has(handle)
        &&& self.handles[handle as int].carries_bytes()
        &&& self.handles[handle as int].state.can_stop()
    }

    /// Whether the idle handle can be started.
    pub open spec fn can_idle_start(self, handle: usize) -> bool {
        &&& self.has(handle)
        &&& self.handles[handle as int].kind == HandleKind::Idle
        &&& self.handles[handle as int].state.can_start()
    }

    /// Whether the idle handle can be stopped.
    pub open spec fn can_idle_stop(self, handle: usize) -> bool {
        &&& self.has(handle)
        &&& self.handles[handle as int].kind == HandleKind::Idle
        &&& self.handles[handle as int].state.can_stop()
    }

    /// Whether a write can be submitted on the handle.
    pub open spec fn can_write(self, handle: usize) -> bool {
        &&& self.has(handle)
        &&& self.handles[handle as int].carries_bytes()
        &&& self.handles[handle as int].state.can_write()
    }

    /// Whether close can be requested of the handle.
    pub open spec fn can_close(self, handle: usize) -> bool {
        &&& self.has(handle)
        &&& self.handles[handle as int].state.can_close()
    }

    /// Whether the handle is a TCP handle that nothing was started on.
    pub open spec fn is_new_tcp(self, handle: usize) -> bool {
        &&& self.has(handle)
        &&& self.handles[handle as int].kind == HandleKind::Tcp
        &&& self.handles[handle as int].state == HandleState::Created
        &&& !self.handles[handle as int].listening
        &&& !self.handles[handle as int].connecting
    }

    /// Whether the handle is a pipe that nothing was started on.
    pub open spec fn is_new_pipe(self, handle: usize) -> bool {
        &&& self.has(handle)
        &&& self.handles[handle as int].kind == HandleKind::Pipe
        &&& self.handles[handle as int].state == HandleState::Created
    }

    /// Whether the handle listens and is active.
    pub open spec fn is_listening(self, handle: usize) -> bool {
        &&& self.has(handle)
        &&& self.handles[handle as int].listening
        &&& self.handles[handle as int].state == HandleState::Active
    }

    /// Whether the ids of requests are used up.
    pub open spec fn full(self) -> bool {
        self.issued >= u64::MAX
    }

    /// The requests after those that wait on the handle were canceled.
    pub open spec fn canceled(self, handle: usize) -> Seq<Request> {
        Seq::new(
            self.requests.len(),
            |i: int|
                if self.requests[i].pending_on(handle) {
                    Request { outcome: Some(Err(ErrorKind::Canceled)), ..self.requests[i] }
                } else {
                    self.requests[i]
                },
        )
    }

    /// The loop after close was requested of the handle: the handle is
    /// closing, and the requests that waited on it are canceled. Nothing
    /// changes where the handle was closing already.
    pub open spec fn closing(self, handle: usize) -> LoopView {
        if self.handles[handle as int].state == HandleState::Closing {
            self
        } else {
            LoopView {
                handles: self.handles.update(
                    handle as int,
                    Handle {
                        state: HandleState::Closing,
                        closed_in: self.iteration as u64,
                        ..self.handles[handle as int]
                    },
                ),
                requests: self.canceled(handle),
                ..self
            }
        }
    }

    /// The loop after close was requested of the handle, if that can be
    /// done and no callback of a request on the handle has yet to fire.
    /// Else nothing changes: a close now would cancel what is in flight.
    pub open spec fn closing_if_free(self, handle: usize) -> LoopView {
        if self.can_close(handle) && !self.busy(handle) {
            self.closing(handle)
        } else {
            self
        }
    }

    /// The loop after a stream came to its end. With nothing in flight on
    /// the handle it is closed. Else only the reading is stopped, so that
    /// what is in flight can finish; the close is then for the callback
    /// of the last request.
    pub open spec fn ending(self, handle: usize) -> LoopView {
        if !self.busy(handle) {
            self.closing_if_free(handle)
        } else if self.can_read_stop(handle) {
            self.with_state(handle, HandleState::Stopped)
        } else {
            self
        }
    }

    /// Whether the handle is a stream whose reading was stopped.
    pub open spec fn stopped(self, handle: usize) -> bool {
        &&& self.has(handle)
        &&& self.handles[handle as int].carries_bytes()
        &&& self.handles[handle as int].state == HandleState::Stopped
    }

    /// Whether the handle is closing or closed.
    pub open spec fn shut(self, handle: usize) -> bool {
        &&& self.has(handle)
        &&& (self.handles[handle as int].state == HandleState::Closing
            || self.handles[handle as int].state == HandleState::Closed)
    }

    /// Whether the request at place `i` has this id.
    pub open spec fn position(self, id: u64, i: int) -> bool {
        0 <= i < self.requests.len() && self.requests[i].id == id
    }

    /// Whether a request of this id is in flight.
    pub open spec fn knows(self, id: u64) -> bool {
        exists|i: int| self.position(id, i)
    }

    /// Whether an outcome for the request at place `i` would come before
    /// that of an earlier request of the same kind on the same handle.
    pub open spec fn overtakes(self, i: int) -> bool {
        exists|j: int|
            0 <= j < i && self.requests[i].operation.spec_handle() is Some && (
            #[trigger] self.requests[j]).pending_on(
                self.requests[i].operation.spec_handle().unwrap(),
            ) && self.requests[j].operation.spec_kind() == self.requests[i].operation.spec_kind()
    }

    /// Whether the request at place `i` can take this outcome now.
    pub open spec fn admits(self, i: int, outcome: Result<usize, ErrorKind>) -> bool {
        &&& self.requests[i].outcome is None
        &&& !self.overtakes(i)
        &&& !(self.requests[i].operation is Read && outcome is Ok)
    }

    /// The loop after the request at place `i` got its outcome.
    pub open spec fn with_outcome(self, i: int, outcome: Result<usize, ErrorKind>) -> LoopView {
        LoopView {
            requests: self.requests.update(
                i,
                Request { outcome: Some(outcome), ..self.requests[i] },
            ),
            ..self
        }
    }

    /// Whether what arrived can be queued for the handle.
    pub open spec fn takes(self, handle: usize, incoming: Incoming) -> bool {
        &&& self.has(handle)
        &&& self.handles[handle as int].reading()
        &&& incoming matches Incoming::Data(d) ==> d@.len() <= SUGGESTED_CAPACITY
    }

    /// Whether the listener has room for one more waiting connection.
    pub open spec fn has_room(self, handle: usize) -> bool {
        self.is_listening(handle) && self.handles[handle as int].waiting
            < self.handles[handle as int].backlog
    }

    /// Whether `client` can take a connection that waits on `listener`.
    pub open spec fn can_accept(self, listener: usize, client: usize) -> bool {
        &&& self.is_listening(listener)
        &&& self.handles[listener as int].waiting > 0
        &&& self.is_new_tcp(client)
    }

    /// The loop after `client` took a connection that waited on `listener`.
    pub open spec fn accepted(self, listener: usize, client: usize) -> LoopView {
        let l = self.handles[listener as int];
        let c = self.handles[client as int];
        LoopView {
            handles: self.handles.update(
                listener as int,
                Handle { waiting: (l.waiting - 1) as usize, ..l },
            ).update(client as int, c.at(HandleState::Stopped)),
            ..self
        }
    }

    /// Whether every handle is closed and no request is in flight.
    pub open spec fn finished(self) -> bool {
        &&& self.requests.len() == 0
        &&& forall|h: int|
            0 <= h < self.handles.len() ==> (#[trigger] self.handles[h]).state
                == HandleState::Closed
    }

    /// The error of an accept that cannot be done.
    pub open spec fn accept_error(self, listener: usize, client: usize) -> ErrorKind {
        if !self.is_listening(listener) {
            self.denial(listener)
        } else if !self.is_new_tcp(client) {
            self.denial(client)
        } else {
            ErrorKind::WouldBlock
        }
    }

    /// The loop after an accept failed: the new handle is closing, the
    /// listener is as it was.
    pub open spec fn accept_failed(self, listener: usize, client: usize) -> LoopView {
        if client != listener && self.can_close(client) {
            self.closing(client)
        } else {
            self
        }
    }

    /// Whether the request at place `i` has its outcome, and none before it has.
    pub open spec fn completed_first(self, i: int) -> bool {
        &&& 0 <= i < self.requests.len()
        &&& self.requests[i].outcome is Some
        &&& forall|j: int| 0 <= j < i ==> (#[trigger] self.requests[j]).outcome is None
    }

    /// Whether any request has its outcome.
    pub open spec fn any_completed(self) -> bool {
        exists|i: int| 0 <= i < self.requests.len() && (#[trigger] self.requests[i]).outcome is Some
    }

    /// A handle after the callback of a connect request on it fired: with
    /// success a new handle is open, with nothing started on it.
    pub open spec fn connected(record: Handle, result: Result<usize, ErrorKind>) -> Handle {
        Handle {
            connecting: false,
            state: if result is Ok && record.state == HandleState::Created {
                HandleState::Stopped
            } else {
                record.state
            },
            ..record
        }
    }

    /// The loop after the callback of the request at place `i` fired.
    pub open spec fn after_completion(self, i: int) -> LoopView {
        let request = self.requests[i];
        LoopView {
            handles: match request.operation {
                Operation::Connect { handle, .. } => if self.has(handle) {
                    self.handles.update(
                        handle as int,
                        Self::connected(self.handles[handle as int], request.outcome.unwrap()),
                    )
                } else {
                    self.handles
                },
                _ => self.handles,
            },
            requests: self.requests.remove(i),
            ..self
        }
    }

    /// Whether the read callback can fire for the arrival at place `i`.
    pub open spec fn deliverable(self, i: int) -> bool {
        &&& 0 <= i < self.arrivals.len()
        &&& self.has(self.arrivals[i].handle)
        &&& self.handles[self.arrivals[i].handle as int].reading()
    }

    /// Whether the arrival at place `i` is the first whose read callback can fire.
    pub open spec fn delivered_first(self, i: int) -> bool {
        &&& self.deliverable(i)
        &&& forall|j: int| 0 <= j < i ==> !self.deliverable(j)
    }

    /// Whether the read callback can fire for any arrival.
    pub open spec fn any_deliverable(self) -> bool {
        exists|i: int| self.deliverable(i)
    }

    /// Whether the handle has a callback of its own that is due: a
    /// connection waits on an active listener, an idle handle is active, or
    /// close was requested in an earlier iteration and no callback of a
    /// request on the handle is left to fire.
    pub open spec fn due(self, h: int) -> bool {
        let record = self.handles[h];
        ||| record.state == HandleState::Active && record.listening && record.waiting > 0
        ||| record.state == HandleState::Active && record.kind == HandleKind::Idle
        ||| record.state == HandleState::Closing && record.closed_in < self.iteration
            && !self.busy(h as usize)
    }

    /// Whether handle `h` is the first from the cursor on with a callback due.
    pub open spec fn due_first(self, h: int) -> bool {
        &&& self.cursor <= h < self.handles.len()
        &&& self.due(h)
        &&& forall|j: int| self.cursor <= j < h ==> !self.due(j)
    }

    /// Whether any handle from the cursor on has a callback due.
    pub open spec fn any_due(self) -> bool {
        exists|h: int| self.cursor <= h < self.handles.len() && self.due(h)
    }

    /// The callback that is due on handle `h`.
    pub open spec fn callback(self, h: int) -> Fired {
        let record = self.handles[h];
        if record.state == HandleState::Closing {
            Fired::Closed { handle: h as usize }
        } else if record.kind == HandleKind::Idle {
            Fired::Idle { handle: h as usize }
        } else {
            Fired::Connection { handle: h as usize }
        }
    }

    /// The loop after the callback of handle `h` fired: a closing handle is
    /// closed, and the iteration goes on behind the handle.
    pub open spec fn after_callback(self, h: int) -> LoopView {
        LoopView {
            handles: if self.handles[h].state == HandleState::Closing {
                self.handles.update(h, self.handles[h].at(HandleState::Closed))
            } else {
                self.handles
            },
            cursor: (h + 1) as nat,
            ..self
        }
    }

    /// The loop at the start of the next iteration.
    pub open spec fn next_iteration(self) -> LoopView {
        LoopView {
            cursor: 0,
            iteration: if self.iteration < u64::MAX {
                self.iteration + 1
            } else {
                self.iteration
            },
            ..self
        }
    }

    /// The loop after one more callback was handed out. The count stops
    /// at the largest number it can hold.
    pub open spec fn counted(self) -> LoopView {
        LoopView {
            dispatched: if self.dispatched < u64::MAX {
                self.dispatched + 1
            } else {
                self.dispatched
            },
            ..self
        }
    }

    /// Whether one of the loop's counts has reached the largest number it
    /// can hold. A run ends there.
    pub open spec fn exhausted(self) -> bool {
        self.dispatched >= u64::MAX || self.iteration >= u64::MAX
    }

    /// Whether a callback could fire without anything new from the
    /// operating system, in this iteration or the next.
    pub open spec fn ready(self) -> bool {
        ||| self.any_completed()
        ||| self.any_deliverable()
        ||| exists|h: int| 0 <= h < self.handles.len() && self.next_iteration().due(h)
    }

    /// The loop while no run is under way, all else being equal.
    pub open spec fn at_rest(self) -> LoopView {
        LoopView { running: false, ..self }
    }

    /// What one step of the loop does: it hands out the callback `fired`
    /// and leaves the loop as `after`, or it hands out nothing and ends
    /// the iteration. Callbacks of requests that have their outcome come
    /// first, in the order of submission; then read callbacks, in the
    /// order of arrival, for handles that are being read; then, once for
    /// each handle in an iteration, the callback that is due on it.
    pub open spec fn stepped(self, after: LoopView, fired: Option<Fired>) -> bool {
        match fired {
            Some(Fired::Completed { id, operation, result }) => exists|i: int|
                {
                    &&& self.completed_first(i)
                    &&& self.requests[i] == (Request { id, operation, outcome: Some(result) })
                    &&& after == self.after_completion(i).counted()
                },
            Some(Fired::Read { handle, incoming }) => {
                &&& !self.any_completed()
                &&& exists|i: int|
                    {
                        &&& self.delivered_first(i)
                        &&& self.arrivals[i] == (Arrival { handle, incoming })
                        &&& after == (LoopView {
                            arrivals: self.arrivals.remove(i),
                            ..self
                        }).counted()
                    }
            },
            Some(callback) => {
                &&& !self.any_completed()
                &&& !self.any_deliverable()
                &&& exists|h: int|
                    {
                        &&& self.due_first(h)
                        &&& callback == self.callback(h)
                        &&& after == self.after_callback(h).counted()
                    }
            },
            None => {
                &&& !self.any_completed()
                &&& !self.any_deliverable()
                &&& !self.any_due()
                &&& after == self.next_iteration()
            },
        }
    }
}

/// Whether two loops have the same operations in flight, at the same places.
pub open spec fn same_operations(a: LoopView, b: LoopView) -> bool {
    &&& a.requests.len() == b.requests.len()
    &&& forall|i: int|
        0 <= i < a.requests.len() ==> (#[trigger] a.requests[i]).operation == b.requests[i].operation
}

/// Loops with the same operations in flight have the same handles busy.
pub proof fn lemma_same_operations_same_busy(a: LoopView, b: LoopView, h: usize)
    requires
        same_operations(a, b),
    ensures
        a.busy(h) == b.busy(h),
{
    if a.busy(h) {
        let i = choose|i: int|
            0 <= i < a.requests.len() && (#[trigger] a.requests[i]).operation.spec_handle() == Some(h);
        assert(b.requests[i].operation.spec_handle() == Some(h));
    }
    if b.busy(h) {
        let i = choose|i: int|
            0 <= i < b.requests.len() && (#[trigger] b.requests[i]).operation.spec_handle() == Some(h);
        assert(a.requests[i].operation.spec_handle() == Some(h));
    }
}

} // verus!
