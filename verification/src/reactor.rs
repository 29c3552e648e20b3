//! The loop: the registry of handles, the requests in flight, and the
//! callbacks that are due.

use crate::buffer::{filled, Buffer, BufferPool, PoolView};
use crate::error::ErrorKind;
use crate::flags::{BindFlags, ModeFlags, OpenFlags, RunMode};
use crate::handle::{Binding, Endpoint, Handle, HandleKind, HandleState};
use crate::request::{Arrival, Fired, Incoming, Operation, Request};
pub use crate::state::{LoopView, SUGGESTED_CAPACITY};
use vstd::prelude::*;

verus! {

/// What a loop is made of.
#[derive(Debug)]
struct Core {
    handles: Vec<Handle>,
    requests: Vec<Request>,
    arrivals: Vec<Arrival>,
    issued: u64,
    cursor: usize,
    iteration: u64,
    dispatched: u64,
    running: bool,
}

impl Core {
    spec fn view(&self) -> LoopView {
        LoopView {
            handles: self.handles@,
            requests: self.requests@,
            arrivals: self.arrivals@,
            issued: self.issued as nat,
            cursor: self.cursor as nat,
            iteration: self.iteration as nat,
            dispatched: self.dispatched as nat,
            running: self.running,
        }
    }

    /// The place of the request with this id.
    fn locate(&self, id: u64) -> (r: Option<usize>)
        ensures
            match r {
                Some(i) => self.view().position(id, i as int),
                None => !self.view().knows(id),
            },
    {
        let mut i: usize = 0;
        while i < self.requests.len()
            invariant
                i <= self.requests@.len(),
                forall|j: int| 0 <= j < i ==> !self.view().position(id, j),
            decreases self.requests@.len() - i,
        {
            if self.requests[i].id == id {
                return Some(i);
            }
            i += 1;
        }
        None
    }

    /// Whether an outcome for the request at place `i` would overtake an
    /// earlier one.
    fn overtakes(&self, i: usize) -> (r: bool)
        requires
            i < self.requests@.len(),
        ensures
            r == self.view().overtakes(i as int),
    {
        match self.requests[i].operation.handle() {
            None => false,
            Some(h) => {
                let kind = self.requests[i].operation.kind();
                let mut j: usize = 0;
                while j < i
                    invariant
                        j <= i < self.requests@.len(),
                        self.requests@[i as int].operation.spec_handle() == Some(h),
                        kind == self.requests@[i as int].operation.spec_kind(),
                        forall|k: int|
                            0 <= k < j ==> !((#[trigger] self.requests@[k]).pending_on(h)
                                && self.requests@[k].operation.spec_kind() == kind),
                    decreases i - j,
                {
                    let same = match self.requests[j].operation.handle() {
                        Some(g) => g == h,
                        None => false,
                    };
                    if same && self.requests[j].outcome.is_none() && self.requests[j].operation.kind()
                        == kind {
                        return true;
                    }
                    j += 1;
                }
                false
            },
        }
    }

    /// The place of the first request that has its outcome.
    fn first_completed(&self) -> (r: Option<usize>)
        ensures
            match r {
                Some(i) => self.view().completed_first(i as int),
                None => !self.view().any_completed(),
            },
    {
        let mut i: usize = 0;
        while i < self.requests.len()
            invariant
                i <= self.requests@.len(),
                forall|j: int| 0 <= j < i ==> (#[trigger] self.requests@[j]).outcome is None,
            decreases self.requests@.len() - i,
        {
            if self.requests[i].outcome.is_some() {
                return Some(i);
            }
            i += 1;
        }
        None
    }

    /// The place of the first arrival whose read callback can fire.
    fn first_deliverable(&self) -> (r: Option<usize>)
        ensures
            match r {
                Some(i) => self.view().delivered_first(i as int),
                None => !self.view().any_deliverable(),
            },
    {
        let mut i: usize = 0;
        while i < self.arrivals.len()
            invariant
                i <= self.arrivals@.len(),
                forall|j: int| 0 <= j < i ==> !self.view().deliverable(j),
            decreases self.arrivals@.len() - i,
        {
            let handle = self.arrivals[i].handle;
            if handle < self.handles.len() {
                let record = self.handles[handle];
                if record.kind.is_stream() && !record.listening && record.state.can_stop() {
                    return Some(i);
                }
            }
            i += 1;
        }
        None
    }

    /// Whether a callback of a request on the handle has yet to fire.
    fn busy(&self, handle: usize) -> (r: bool)
        ensures
            r == self.view().busy(handle),
    {
        let mut i: usize = 0;
        while i < self.requests.len()
            invariant
                i <= self.requests@.len(),
                forall|j: int|
                    0 <= j < i ==> (#[trigger] self.requests@[j]).operation.spec_handle() != Some(
                        handle,
                    ),
            decreases self.requests@.len() - i,
        {
            let on_handle = match self.requests[i].operation.handle() {
                Some(g) => g == handle,
                None => false,
            };
            if on_handle {
                return true;
            }
            i += 1;
        }
        false
    }

    /// Whether the handle has a callback of its own that is due, as seen
    /// from the given iteration.
    spec fn due_in(&self, h: int, iteration: u64) -> bool {
        (LoopView { iteration: iteration as nat, ..self.view() }).due(h)
    }

    /// Whether the handle has a callback of its own that is due, as seen
    /// from the given iteration.
    fn due(&self, h: usize, iteration: u64) -> (r: bool)
        requires
            h < self.handles@.len(),
        ensures
            r == self.due_in(h as int, iteration),
    {
        let record = self.handles[h];
        match record.state {
            HandleState::Active => {
                let idle = match record.kind {
                    HandleKind::Idle => true,
                    _ => false,
                };
                idle || (record.listening && record.waiting > 0)
            },
            HandleState::Closing => record.closed_in < iteration && !self.busy(h),
            _ => false,
        }
    }

    /// The first handle from `from` on that has a callback due.
    fn first_due(&self, from: usize, iteration: u64) -> (r: Option<usize>)
        ensures
            match r {
                Some(h) => {
                    &&& from <= h < self.handles@.len()
                    &&& self.due_in(h as int, iteration)
                    &&& forall|j: int| from <= j < h ==> !#[trigger] self.due_in(j, iteration)
                },
                None => forall|j: int|
                    from <= j < self.handles@.len() ==> !#[trigger] self.due_in(j, iteration),
            },
    {
        let mut h: usize = from;
        while h < self.handles.len()
            invariant
                from <= h,
                forall|j: int|
                    from <= j < h && j < self.handles@.len() ==> !#[trigger] self.due_in(
                        j,
                        iteration,
                    ),
            decreases self.handles@.len() - h,
        {
            if self.due(h, iteration) {
                return Some(h);
            }
            h += 1;
        }
        None
    }

    fn empty() -> (r: Core)
        ensures
            r.view() == LoopView::empty(),
    {
        Core {
            handles: Vec::new(),
            requests: Vec::new(),
            arrivals: Vec::new(),
            issued: 0,
            cursor: 0,
            iteration: 0,
            dispatched: 0,
            running: false,
        }
    }
}

/// The reactor: a registry of handles and of requests in flight, which
/// hands out, one at a time and on the caller's thread, the callbacks
/// that are due. It does no input or output itself: what the operating
/// system reports is posted to it, and what it hands out is run by the
/// caller.
#[derive(Debug)]
pub struct Loop {
    core: Core,
}

impl View for Loop {
    type V = LoopView;

    closed spec fn view(&self) -> LoopView {
        self.core.view()
    }
}

impl Loop {
    #[verifier::type_invariant]
    spec fn inv(&self) -> bool {
        self.core.view().wf()
    }

    /// A loop with an empty registry.
    pub fn new() -> (r: Loop)
        ensures
            r@ == LoopView::empty(),
            r@.wf(),
    {
        Loop { core: Core::empty() }
    }

    /// Takes the state out, leaving that of an empty loop in its place.
    fn take(&mut self) -> (r: Core)
        ensures
            r == old(self).core,
            r.view().wf(),
    {
        proof {
            use_type_invariant(&*self);
        }
        let mut core = Core::empty();
        core::mem::swap(&mut self.core, &mut core);
        core
    }

    /// Adds a handle of the given kind to the registry.
    fn register(&mut self, kind: HandleKind) -> (r: usize)
        ensures
            r == old(self)@.handles.len(),
            final(self)@ == old(self)@.with_new(kind),
            final(self)@.wf(),
    {
        let mut core = self.take();
        let id = core.handles.len();
        core.handles.push(
            Handle {
                kind,
                state: HandleState::Created,
                bound: None,
                descriptor: None,
                connecting: false,
                listening: false,
                backlog: 0,
                waiting: 0,
                closed_in: 0,
            },
        );
        assert(core.handles@.len() == core.handles.len());
        self.core = core;
        id
    }

    /// Replaces the record of a handle.
    fn put(&mut self, handle: usize, record: Handle)
        requires
            old(self)@.has(handle),
        ensures
            final(self)@ == old(self)@.with_handle(handle, record),
            final(self)@.wf(),
    {
        let mut core = self.take();
        core.handles[handle] = record;
        self.core = core;
    }

    /// Makes a TCP handle and returns its number.
    pub fn tcp(&mut self) -> (r: usize)
        ensures
            r == old(self)@.handles.len(),
            final(self)@ == old(self)@.with_new(HandleKind::Tcp),
            final(self)@.wf(),
    {
        self.register(HandleKind::Tcp)
    }

    /// Makes a pipe handle and returns its number.
    pub fn pipe(&mut self) -> (r: usize)
        ensures
            r == old(self)@.handles.len(),
            final(self)@ == old(self)@.with_new(HandleKind::Pipe),
            final(self)@.wf(),
    {
        self.register(HandleKind::Pipe)
    }

    /// Makes an idle handle and returns its number.
    pub fn idle(&mut self) -> (r: usize)
        ensures
            r == old(self)@.handles.len(),
            final(self)@ == old(self)@.with_new(HandleKind::Idle),
            final(self)@.wf(),
    {
        self.register(HandleKind::Idle)
    }

    /// What the loop records of a handle.
    pub fn handle(&self, handle: usize) -> (r: Option<Handle>)
        ensures
            self@.wf(),
            r == if self@.has(handle) {
                Some(self@.handles[handle as int])
            } else {
                None
            },
    {
        proof {
            use_type_invariant(self);
        }
        if handle < self.core.handles.len() {
            Some(self.core.handles[handle])
        } else {
            None
        }
    }

    /// The state of a handle.
    pub fn state(&self, handle: usize) -> (r: Option<HandleState>)
        ensures
            r == if self@.has(handle) {
                Some(self@.handles[handle as int].state)
            } else {
                None
            },
    {
        if handle < self.core.handles.len() {
            Some(self.core.handles[handle].state)
        } else {
            None
        }
    }

    /// How many iterations have ended.
    pub fn iteration(&self) -> (r: u64)
        ensures
            r == self@.iteration,
    {
        self.core.iteration
    }

    /// Binds a new TCP handle to a local address. The loop keeps the
    /// address and the options for whoever does the binding.
    pub fn bind(&mut self, handle: usize, local: Endpoint, flags: BindFlags) -> (r: Result<
        (),
        ErrorKind,
    >)
        ensures
            final(self)@.wf(),
            match r {
                Ok(()) => {
                    &&& old(self)@.is_new_tcp(handle)
                    &&& old(self)@.handles[handle as int].bound is None
                    &&& final(self)@ == old(self)@.with_handle(
                        handle,
                        Handle {
                            bound: Some(Binding { local, flags }),
                            ..old(self)@.handles[handle as int]
                        },
                    )
                },
                Err(e) => {
                    &&& !(old(self)@.is_new_tcp(handle) && old(self)@.handles[handle as int].bound
                        is None)
                    &&& e == old(self)@.denial(handle)
                    &&& final(self)@ == old(self)@
                },
            },
    {
        match self.handle(handle) {
            None => Err(ErrorKind::Unknown),
            Some(h) => {
                let new_tcp = match (h.kind, h.state) {
                    (HandleKind::Tcp, HandleState::Created) => !h.listening && !h.connecting,
                    _ => false,
                };
                if new_tcp && h.bound.is_none() {
                    self.put(handle, Handle { bound: Some(Binding { local, flags }), ..h });
                    Ok(())
                } else {
                    Err(ErrorKind::InvalidState)
                }
            },
        }
    }

    /// Starts listening on a new TCP handle: the handle becomes active, and
    /// at most `backlog` connections may wait on it.
    pub fn listen(&mut self, handle: usize, backlog: usize) -> (r: Result<(), ErrorKind>)
        ensures
            final(self)@.wf(),
            match r {
                Ok(()) => {
                    &&& old(self)@.is_new_tcp(handle)
                    &&& final(self)@ == old(self)@.with_handle(
                        handle,
                        Handle {
                            state: HandleState::Active,
                            listening: true,
                            backlog,
                            ..old(self)@.handles[handle as int]
                        },
                    )
                },
                Err(e) => {
                    &&& !old(self)@.is_new_tcp(handle)
                    &&& e == old(self)@.denial(handle)
                    &&& final(self)@ == old(self)@
                },
            },
    {
        match self.handle(handle) {
            None => Err(ErrorKind::Unknown),
            Some(h) => {
                let new_tcp = match (h.kind, h.state) {
                    (HandleKind::Tcp, HandleState::Created) => !h.listening && !h.connecting,
                    _ => false,
                };
                if new_tcp {
                    self.put(
                        handle,
                        Handle { state: HandleState::Active, listening: true, backlog, ..h },
                    );
                    Ok(())
                } else {
                    Err(ErrorKind::InvalidState)
                }
            },
        }
    }

    /// Opens a new pipe handle over a descriptor: the handle is open, with
    /// nothing started on it.
    pub fn open(&mut self, handle: usize, descriptor: i32) -> (r: Result<(), ErrorKind>)
        ensures
            final(self)@.wf(),
            match r {
                Ok(()) => {
                    &&& old(self)@.is_new_pipe(handle)
                    &&& descriptor >= 0
                    &&& final(self)@ == old(self)@.with_handle(
                        handle,
                        Handle {
                            state: HandleState::Stopped,
                            descriptor: Some(descriptor),
                            ..old(self)@.handles[handle as int]
                        },
                    )
                },
                Err(e) => {
                    &&& !(old(self)@.is_new_pipe(handle) && descriptor >= 0)
                    &&& e == old(self)@.denial(handle)
                    &&& final(self)@ == old(self)@
                },
            },
    {
        match self.handle(handle) {
            None => Err(ErrorKind::Unknown),
            Some(h) => {
                let new_pipe = match (h.kind, h.state) {
                    (HandleKind::Pipe, HandleState::Created) => true,
                    _ => false,
                };
                if new_pipe && descriptor >= 0 {
                    self.put(
                        handle,
                        Handle { state: HandleState::Stopped, descriptor: Some(descriptor), ..h },
                    );
                    Ok(())
                } else {
                    Err(ErrorKind::InvalidState)
                }
            },
        }
    }

    /// Starts reading on a stream handle that is new or stopped.
    pub fn read_start(&mut self, handle: usize) -> (r: Result<(), ErrorKind>)
        ensures
            final(self)@.wf(),
            match r {
                Ok(()) => {
                    &&& old(self)@.can_read_start(handle)
                    &&& final(self)@ == old(self)@.with_state(handle, HandleState::Active)
                },
                Err(e) => {
                    &&& !old(self)@.can_read_start(handle)
                    &&& e == old(self)@.denial(handle)
                    &&& final(self)@ == old(self)@
                },
            },
    {
        match self.handle(handle) {
            None => Err(ErrorKind::Unknown),
            Some(h) => {
                if h.kind.is_stream() && !h.listening && h.state.can_start() {
                    self.put(handle, Handle { state: HandleState::Active, ..h });
                    Ok(())
                } else {
                    Err(ErrorKind::InvalidState)
                }
            },
        }
    }

    /// Stops reading on an active stream handle. No read callback fires
    /// for the handle until reading is started again; requests that were
    /// submitted on it stay in flight.
    pub fn read_stop(&mut self, handle: usize) -> (r: Result<(), ErrorKind>)
        ensures
            final(self)@.wf(),
            match r {
                Ok(()) => {
                    &&& old(self)@.can_read_stop(handle)
                    &&& final(self)@ == old(self)@.with_state(handle, HandleState::Stopped)
                },
                Err(e) => {
                    &&& !old(self)@.can_read_stop(handle)
                    &&& e == old(self)@.denial(handle)
                    &&& final(self)@ == old(self)@
                },
            },
    {
        match self.handle(handle) {
            None => Err(ErrorKind::Unknown),
            Some(h) => {
                if h.kind.is_stream() && !h.listening && h.state.can_stop() {
                    self.put(handle, Handle { state: HandleState::Stopped, ..h });
                    Ok(())
                } else {
                    Err(ErrorKind::InvalidState)
                }
            },
        }
    }

    /// Starts an idle handle that is new or stopped.
    pub fn idle_start(&mut self, handle: usize) -> (r: Result<(), ErrorKind>)
        ensures
            final(self)@.wf(),
            match r {
                Ok(()) => {
                    &&& old(self)@.can_idle_start(handle)
                    &&& final(self)@ == old(self)@.with_state(handle, HandleState::Active)
                },
                Err(e) => {
                    &&& !old(self)@.can_idle_start(handle)
                    &&& e == old(self)@.denial(handle)
                    &&& final(self)@ == old(self)@
                },
            },
    {
        match self.handle(handle) {
            None => Err(ErrorKind::Unknown),
            Some(h) => {
                if !h.kind.is_stream() && h.state.can_start() {
                    self.put(handle, Handle { state: HandleState::Active, ..h });
                    Ok(())
                } else {
                    Err(ErrorKind::InvalidState)
                }
            },
        }
    }

    /// Stops an active idle handle: its callback fires no more.
    pub fn idle_stop(&mut self, handle: usize) -> (r: Result<(), ErrorKind>)
        ensures
            final(self)@.wf(),
            match r {
                Ok(()) => {
                    &&& old(self)@.can_idle_stop(handle)
                    &&& final(self)@ == old(self)@.with_state(handle, HandleState::Stopped)
                },
                Err(e) => {
                    &&& !old(self)@.can_idle_stop(handle)
                    &&& e == old(self)@.denial(handle)
                    &&& final(self)@ == old(self)@
                },
            },
    {
        match self.handle(handle) {
            None => Err(ErrorKind::Unknown),
            Some(h) => {
                if !h.kind.is_stream() && h.state.can_stop() {
                    self.put(handle, Handle { state: HandleState::Stopped, ..h });
                    Ok(())
                } else {
                    Err(ErrorKind::InvalidState)
                }
            },
        }
    }
}

impl Loop {
    /// Whether the ids of requests are used up, so that nothing more can
    /// be submitted.
    pub fn is_full(&self) -> (r: bool)
        ensures
            r == self@.full(),
            self@.wf(),
    {
        proof {
            use_type_invariant(self);
        }
        self.core.issued == u64::MAX
    }

    /// Puts one more request in flight.
    fn submit(&mut self, operation: Operation) -> (id: u64)
        requires
            !old(self)@.full(),
        ensures
            final(self)@.wf(),
            id == old(self)@.issued,
            !old(self)@.knows(id),
            final(self)@ == old(self)@.submitted(operation),
    {
        let mut core = self.take();
        let id = core.issued;
        core.requests.push(Request { id, operation, outcome: None });
        core.issued = core.issued + 1;
        self.core = core;
        id
    }

    /// Asks for the file at `path` to be opened. The callback gets the
    /// descriptor.
    pub fn fs_open(&mut self, path: String, flags: OpenFlags, mode: ModeFlags) -> (r: Result<
        u64,
        ErrorKind,
    >)
        ensures
            final(self)@.wf(),
            match r {
                Ok(id) => {
                    &&& !old(self)@.full()
                    &&& id == old(self)@.issued
                    &&& !old(self)@.knows(id)
                    &&& final(self)@ == old(self)@.submitted(Operation::Open { path, flags, mode })
                },
                Err(e) => {
                    &&& old(self)@.full()
                    &&& e == ErrorKind::NoMemory
                    &&& final(self)@ == old(self)@
                },
            },
    {
        if self.is_full() {
            return Err(ErrorKind::NoMemory);
        }
        Ok(self.submit(Operation::Open { path, flags, mode }))
    }

    /// Asks for a read from a file into `buffer`, as far as its capacity
    /// goes. The request owns the buffer until its callback fires; where
    /// the request cannot be submitted, the buffer comes back with the error.
    pub fn fs_read(&mut self, file: i32, buffer: Buffer, offset: i64) -> (r: Result<
        u64,
        (ErrorKind, Buffer),
    >)
        ensures
            final(self)@.wf(),
            match r {
                Ok(id) => {
                    &&& !old(self)@.full()
                    &&& id == old(self)@.issued
                    &&& !old(self)@.knows(id)
                    &&& final(self)@ == old(self)@.submitted(
                        Operation::Read { file, buffer, offset },
                    )
                },
                Err((e, b)) => {
                    &&& old(self)@.full()
                    &&& e == ErrorKind::NoMemory
                    &&& b == buffer
                    &&& final(self)@ == old(self)@
                },
            },
    {
        if self.is_full() {
            return Err((ErrorKind::NoMemory, buffer));
        }
        Ok(self.submit(Operation::Read { file, buffer, offset }))
    }

    /// Asks for the content of `buffer` to be written to a file. The
    /// request owns the buffer until its callback fires; where the request
    /// cannot be submitted, the buffer comes back with the error.
    pub fn fs_write(&mut self, file: i32, buffer: Buffer, offset: i64) -> (r: Result<
        u64,
        (ErrorKind, Buffer),
    >)
        ensures
            final(self)@.wf(),
            match r {
                Ok(id) => {
                    &&& !old(self)@.full()
                    &&& id == old(self)@.issued
                    &&& !old(self)@.knows(id)
                    &&& final(self)@ == old(self)@.submitted(
                        Operation::Write { file, buffer, offset },
                    )
                },
                Err((e, b)) => {
                    &&& old(self)@.full()
                    &&& e == ErrorKind::NoMemory
                    &&& b == buffer
                    &&& final(self)@ == old(self)@
                },
            },
    {
        if self.is_full() {
            return Err((ErrorKind::NoMemory, buffer));
        }
        Ok(self.submit(Operation::Write { file, buffer, offset }))
    }

    /// Asks for a file to be closed.
    pub fn fs_close(&mut self, file: i32) -> (r: Result<u64, ErrorKind>)
        ensures
            final(self)@.wf(),
            match r {
                Ok(id) => {
                    &&& !old(self)@.full()
                    &&& id == old(self)@.issued
                    &&& !old(self)@.knows(id)
                    &&& final(self)@ == old(self)@.submitted(Operation::Close { file })
                },
                Err(e) => {
                    &&& old(self)@.full()
                    &&& e == ErrorKind::NoMemory
                    &&& final(self)@ == old(self)@
                },
            },
    {
        if self.is_full() {
            return Err(ErrorKind::NoMemory);
        }
        Ok(self.submit(Operation::Close { file }))
    }

    /// Asks for the content of `buffer` to be written to a stream handle
    /// that is active or stopped. The request owns the buffer until its
    /// callback fires, so the buffer cannot be released before; where the
    /// request cannot be submitted, the buffer comes back with the error.
    pub fn write(&mut self, handle: usize, buffer: Buffer) -> (r: Result<
        u64,
        (ErrorKind, Buffer),
    >)
        ensures
            final(self)@.wf(),
            match r {
                Ok(id) => {
                    &&& old(self)@.can_write(handle)
                    &&& !old(self)@.full()
                    &&& id == old(self)@.issued
                    &&& !old(self)@.knows(id)
                    &&& final(self)@ == old(self)@.submitted(Operation::Send { handle, buffer })
                },
                Err((e, b)) => {
                    &&& b == buffer
                    &&& final(self)@ == old(self)@
                    &&& if old(self)@.can_write(handle) {
                        old(self)@.full() && e == ErrorKind::NoMemory
                    } else {
                        e == old(self)@.denial(handle)
                    }
                },
            },
    {
        match self.handle(handle) {
            None => Err((ErrorKind::Unknown, buffer)),
            Some(h) => {
                if !(h.kind.is_stream() && !h.listening && h.state.can_write()) {
                    Err((ErrorKind::InvalidState, buffer))
                } else if self.is_full() {
                    Err((ErrorKind::NoMemory, buffer))
                } else {
                    Ok(self.submit(Operation::Send { handle, buffer }))
                }
            },
        }
    }

    /// Asks for a new TCP handle to be connected to `peer`. When the
    /// callback fires with success the handle is open, with nothing
    /// started on it.
    pub fn connect(&mut self, handle: usize, peer: Endpoint) -> (r: Result<u64, ErrorKind>)
        ensures
            final(self)@.wf(),
            match r {
                Ok(id) => {
                    &&& old(self)@.is_new_tcp(handle)
                    &&& !old(self)@.full()
                    &&& id == old(self)@.issued
                    &&& !old(self)@.knows(id)
                    &&& final(self)@ == old(self)@.with_handle(
                        handle,
                        Handle { connecting: true, ..old(self)@.handles[handle as int] },
                    ).submitted(Operation::Connect { handle, peer })
                },
                Err(e) => {
                    &&& final(self)@ == old(self)@
                    &&& if old(self)@.is_new_tcp(handle) {
                        old(self)@.full() && e == ErrorKind::NoMemory
                    } else {
                        e == old(self)@.denial(handle)
                    }
                },
            },
    {
        match self.handle(handle) {
            None => Err(ErrorKind::Unknown),
            Some(h) => {
                let new_tcp = match (h.kind, h.state) {
                    (HandleKind::Tcp, HandleState::Created) => !h.listening && !h.connecting,
                    _ => false,
                };
                if !new_tcp {
                    Err(ErrorKind::InvalidState)
                } else if self.is_full() {
                    Err(ErrorKind::NoMemory)
                } else {
                    self.put(handle, Handle { connecting: true, ..h });
                    Ok(self.submit(Operation::Connect { handle, peer }))
                }
            },
        }
    }

    /// Requests that a handle be closed. The handle is closing from now
    /// on, and nothing more can be started on it. Requests that wait on it
    /// are canceled: their callbacks fire with that status. The close
    /// callback fires in a later iteration, once no callback of a request
    /// on the handle is left to fire. Of a handle that is closing already
    /// nothing changes.
    pub fn close(&mut self, handle: usize) -> (r: Result<(), ErrorKind>)
        ensures
            final(self)@.wf(),
            match r {
                Ok(()) => {
                    &&& old(self)@.can_close(handle)
                    &&& final(self)@ == old(self)@.closing(handle)
                },
                Err(e) => {
                    &&& !old(self)@.can_close(handle)
                    &&& e == old(self)@.denial(handle)
                    &&& final(self)@ == old(self)@
                },
            },
    {
        match self.handle(handle) {
            None => Err(ErrorKind::Unknown),
            Some(h) => {
                match h.state {
                    HandleState::Closed => Err(ErrorKind::InvalidState),
                    HandleState::Closing => Ok(()),
                    _ => {
                        let mut core = self.take();
                        let ghost before = core.view();
                        core.handles[handle] = Handle {
                            state: HandleState::Closing,
                            closed_in: core.iteration,
                            ..h
                        };
                        let mut i: usize = 0;
                        while i < core.requests.len()
                            invariant
                                i <= core.requests@.len(),
                                core.requests@.len() == before.requests.len(),
                                core.view() == (LoopView {
                                    requests: core.requests@,
                                    ..before.closing(handle)
                                }),
                                forall|j: int|
                                    0 <= j < i ==> core.requests@[j] == before.canceled(handle)[j],
                                forall|j: int|
                                    i <= j < core.requests@.len() ==> core.requests@[j]
                                        == before.requests[j],
                                before.has(handle),
                                before.handles[handle as int].state != HandleState::Closing,
                            decreases core.requests@.len() - i,
                        {
                            let on_handle = match core.requests[i].operation.handle() {
                                Some(g) => g == handle,
                                None => false,
                            };
                            if on_handle && core.requests[i].outcome.is_none() {
                                let request = core.requests.remove(i);
                                core.requests.insert(
                                    i,
                                    Request {
                                        id: request.id,
                                        operation: request.operation,
                                        outcome: Some(Err(ErrorKind::Canceled)),
                                    },
                                );
                            }
                            i += 1;
                        }
                        assert(core.requests@ == before.canceled(handle));
                        self.core = core;
                        Ok(())
                    },
                }
            },
        }
    }
}

impl Loop {
    /// Reports the outcome of a request, as the operating system gave it.
    /// A request takes one outcome only, outcomes on one handle come in
    /// the order of submission for requests of one kind, and a read that
    /// succeeded is reported with its bytes, by `complete_read`.
    pub fn complete(&mut self, id: u64, outcome: Result<usize, ErrorKind>) -> (r: Result<
        (),
        ErrorKind,
    >)
        ensures
            final(self)@.wf(),
            match r {
                Ok(()) => exists|i: int|
                    old(self)@.position(id, i) && old(self)@.admits(i, outcome) && final(self)@
                        == old(self)@.with_outcome(i, outcome),
                Err(e) => {
                    &&& final(self)@ == old(self)@
                    &&& if old(self)@.knows(id) {
                        &&& e == ErrorKind::InvalidState
                        &&& forall|i: int|
                            old(self)@.position(id, i) ==> !old(self)@.admits(i, outcome)
                    } else {
                        e == ErrorKind::Unknown
                    }
                },
            },
    {
        let mut core = self.take();
        match core.locate(id) {
            None => {
                self.core = core;
                Err(ErrorKind::Unknown)
            },
            Some(i) => {
                let read_done = match (&core.requests[i].operation, &outcome) {
                    (Operation::Read { .. }, Ok(_)) => true,
                    _ => false,
                };
                if core.requests[i].outcome.is_some() || read_done || core.overtakes(i) {
                    self.core = core;
                    Err(ErrorKind::InvalidState)
                } else {
                    let ghost before = core.view();
                    let request = core.requests.remove(i);
                    core.requests.insert(
                        i,
                        Request {
                            id: request.id,
                            operation: request.operation,
                            outcome: Some(outcome),
                        },
                    );
                    assert(core.requests@ =~= before.with_outcome(i as int, outcome).requests);
                    self.core = core;
                    Ok(())
                }
            },
        }
    }

    /// Reports that a read from a file succeeded with the bytes `data`,
    /// which go to the start of the request's buffer. Fails, and changes
    /// nothing, where no read of this id waits for its outcome, or where
    /// the buffer cannot hold the bytes.
    pub fn complete_read(&mut self, id: u64, data: &[u8]) -> (r: Result<(), ErrorKind>)
        ensures
            final(self)@.wf(),
            match r {
                Ok(()) => exists|i: int|
                    {
                        &&& old(self)@.position(id, i)
                        &&& old(self)@.requests[i].outcome is None
                        &&& old(self)@.requests[i].operation matches Operation::Read {
                            file,
                            buffer,
                            offset,
                        }
                        &&& data@.len() <= buffer.spec_capacity()
                        &&& final(self)@ == (LoopView {
                            requests: final(self)@.requests,
                            ..old(self)@
                        })
                        &&& final(self)@.requests.len() == old(self)@.requests.len()
                        &&& forall|j: int|
                            0 <= j < old(self)@.requests.len() && j != i ==> final(self)@.requests[j]
                                == old(self)@.requests[j]
                        &&& final(self)@.requests[i].id == id
                        &&& final(self)@.requests[i].outcome == Some(
                            Ok::<usize, ErrorKind>(data@.len() as usize),
                        )
                        &&& final(self)@.requests[i].operation matches Operation::Read {
                            file: file2,
                            buffer: buffer2,
                            offset: offset2,
                        }
                        &&& file2 == file
                        &&& offset2 == offset
                        &&& filled(buffer, buffer2, data@)
                    },
                Err(e) => {
                    &&& final(self)@ == old(self)@
                    &&& if !old(self)@.knows(id) {
                        e == ErrorKind::Unknown
                    } else {
                        forall|i: int|
                            old(self)@.position(id, i) ==> if old(self)@.requests[i].outcome
                                is None && old(self)@.requests[i].operation is Read {
                                &&& e == ErrorKind::NoBuffers
                                &&& old(self)@.requests[i].operation.room() matches Some(room)
                                &&& data@.len() > room
                            } else {
                                e == ErrorKind::InvalidState
                            }
                    }
                },
            },
    {
        let mut core = self.take();
        match core.locate(id) {
            None => {
                self.core = core;
                Err(ErrorKind::Unknown)
            },
            Some(i) => {
                if core.requests[i].outcome.is_some() {
                    self.core = core;
                    return Err(ErrorKind::InvalidState);
                }
                let fits = match &core.requests[i].operation {
                    Operation::Read { buffer, .. } => Some(data.len() <= buffer.capacity()),
                    _ => None,
                };
                match fits {
                    None => {
                        self.core = core;
                        Err(ErrorKind::InvalidState)
                    },
                    Some(false) => {
                        self.core = core;
                        Err(ErrorKind::NoBuffers)
                    },
                    Some(true) => {
                        let request = core.requests.remove(i);
                        match request.operation {
                            Operation::Read { file, buffer, offset } => {
                                let mut buffer = buffer;
                                let n = buffer.fill(data);
                                assert(data@.take(n as int) == data@);
                                core.requests.insert(
                                    i,
                                    Request {
                                        id: request.id,
                                        operation: Operation::Read { file, buffer, offset },
                                        outcome: Some(Ok(n)),
                                    },
                                );
                            },
                            other => {
                                core.requests.insert(
                                    i,
                                    Request {
                                        id: request.id,
                                        operation: other,
                                        outcome: request.outcome,
                                    },
                                );
                            },
                        }
                        self.core = core;
                        Ok(())
                    },
                }
            },
        }
    }

    /// Reports what arrived on a stream handle that is being read: bytes,
    /// at most as many as the loop suggests for one read, or the end of
    /// reading. It waits in the loop until its read callback fires.
    pub fn post(&mut self, handle: usize, incoming: Incoming) -> (r: Result<(), ErrorKind>)
        ensures
            final(self)@.wf(),
            match r {
                Ok(()) => {
                    &&& old(self)@.takes(handle, incoming)
                    &&& final(self)@ == (LoopView {
                        arrivals: old(self)@.arrivals.push(Arrival { handle, incoming }),
                        ..old(self)@
                    })
                },
                Err(e) => {
                    &&& !old(self)@.takes(handle, incoming)
                    &&& final(self)@ == old(self)@
                    &&& e == if !old(self)@.has(handle) {
                        ErrorKind::Unknown
                    } else if !old(self)@.handles[handle as int].reading() {
                        ErrorKind::InvalidState
                    } else {
                        ErrorKind::NoBuffers
                    }
                },
            },
    {
        match self.handle(handle) {
            None => Err(ErrorKind::Unknown),
            Some(h) => {
                let reading = h.kind.is_stream() && !h.listening && h.state.can_stop();
                if !reading {
                    return Err(ErrorKind::InvalidState);
                }
                let fits = match &incoming {
                    Incoming::Data(d) => d.len() <= SUGGESTED_CAPACITY,
                    Incoming::End(_) => true,
                };
                if !fits {
                    return Err(ErrorKind::NoBuffers);
                }
                let mut core = self.take();
                core.arrivals.push(Arrival { handle, incoming });
                self.core = core;
                Ok(())
            },
        }
    }

    /// Reports that a connection waits on a listening handle. Fails where
    /// as many wait already as the backlog allows.
    pub fn post_connection(&mut self, handle: usize) -> (r: Result<(), ErrorKind>)
        ensures
            final(self)@.wf(),
            match r {
                Ok(()) => {
                    &&& old(self)@.has_room(handle)
                    &&& final(self)@ == old(self)@.with_handle(
                        handle,
                        Handle {
                            waiting: (old(self)@.handles[handle as int].waiting + 1) as usize,
                            ..old(self)@.handles[handle as int]
                        },
                    )
                },
                Err(e) => {
                    &&& !old(self)@.has_room(handle)
                    &&& final(self)@ == old(self)@
                    &&& e == if old(self)@.is_listening(handle) {
                        ErrorKind::Refused
                    } else {
                        old(self)@.denial(handle)
                    }
                },
            },
    {
        match self.handle(handle) {
            None => Err(ErrorKind::Unknown),
            Some(h) => {
                if !(h.listening && h.state.can_stop()) {
                    Err(ErrorKind::InvalidState)
                } else if h.waiting >= h.backlog {
                    Err(ErrorKind::Refused)
                } else {
                    self.put(handle, Handle { waiting: h.waiting + 1, ..h });
                    Ok(())
                }
            },
        }
    }

    /// Hands one connection that waits on `listener` to the new TCP handle
    /// `client`, which is then open with nothing started on it. Where that
    /// cannot be done the new handle is closed and the error returned; the
    /// listener stays as it was.
    pub fn accept(&mut self, listener: usize, client: usize) -> (r: Result<(), ErrorKind>)
        ensures
            final(self)@.wf(),
            match r {
                Ok(()) => {
                    &&& old(self)@.can_accept(listener, client)
                    &&& final(self)@ == old(self)@.accepted(listener, client)
                },
                Err(e) => {
                    &&& !old(self)@.can_accept(listener, client)
                    &&& e == old(self)@.accept_error(listener, client)
                    &&& final(self)@ == old(self)@.accept_failed(listener, client)
                },
            },
    {
        let error = match self.handle(listener) {
            None => Some(ErrorKind::Unknown),
            Some(l) => {
                if !(l.listening && l.state.can_stop()) {
                    Some(ErrorKind::InvalidState)
                } else {
                    match self.handle(client) {
                        None => Some(ErrorKind::Unknown),
                        Some(c) => {
                            let new_tcp = match (c.kind, c.state) {
                                (HandleKind::Tcp, HandleState::Created) => !c.listening
                                    && !c.connecting,
                                _ => false,
                            };
                            if !new_tcp {
                                Some(ErrorKind::InvalidState)
                            } else if l.waiting == 0 {
                                Some(ErrorKind::WouldBlock)
                            } else {
                                self.put(listener, Handle { waiting: l.waiting - 1, ..l });
                                self.put(client, Handle { state: HandleState::Stopped, ..c });
                                None
                            }
                        },
                    }
                }
            },
        };
        match error {
            None => Ok(()),
            Some(e) => {
                if client != listener {
                    let _ = self.close(client);
                }
                Err(e)
            },
        }
    }

    /// Whether anything keeps the loop alive: a request whose callback has
    /// not fired, or a handle that is active or closing.
    pub fn alive(&self) -> (r: bool)
        ensures
            r == self@.alive(),
    {
        if self.core.requests.len() > 0 {
            return true;
        }
        let mut h: usize = 0;
        while h < self.core.handles.len()
            invariant
                h <= self.core.handles@.len(),
                forall|k: int| 0 <= k < h ==> !(#[trigger] self.core.handles@[k]).state.keeps_alive(),
            decreases self.core.handles@.len() - h,
        {
            if self.core.handles[h].state.keeps_alive() {
                return true;
            }
            h += 1;
        }
        false
    }

    /// Ends the loop. That is possible only once every handle is closed
    /// and no request is in flight; else the loop comes back with the
    /// error.
    pub fn destroy(self) -> (r: Result<(), (ErrorKind, Loop)>)
        ensures
            match r {
                Ok(()) => self@.finished(),
                Err((e, lp)) => !self@.finished() && e == ErrorKind::Busy && lp == self,
            },
    {
        if self.core.requests.len() > 0 {
            return Err((ErrorKind::Busy, self));
        }
        let mut h: usize = 0;
        while h < self.core.handles.len()
            invariant
                h <= self.core.handles@.len(),
                forall|k: int|
                    0 <= k < h ==> (#[trigger] self.core.handles@[k]).state
                        == HandleState::Closed,
            decreases self.core.handles@.len() - h,
        {
            match self.core.handles[h].state {
                HandleState::Closed => {},
                _ => {
                    return Err((ErrorKind::Busy, self));
                },
            }
            h += 1;
        }
        Ok(())
    }
}

impl Loop {
    /// Hands out the next callback that is due, or nothing where the
    /// iteration is over. Callbacks of requests that have their outcome
    /// come first, in the order of submission; then read callbacks, in the
    /// order of arrival, for handles that are being read; then, once for
    /// each handle in an iteration, the callback of a listener on which a
    /// connection waits, of an active idle handle, and of a handle whose
    /// close has become due. With nothing left the iteration ends: the
    /// next call starts the next one.
    pub fn next(&mut self) -> (r: Option<Fired>)
        ensures
            final(self)@.wf(),
            old(self)@.wf(),
            old(self)@.stepped(final(self)@, r),
    {
        let mut core = self.take();
        let ghost before = core.view();
        if let Some(i) = core.first_completed() {
            let request = core.requests.remove(i);
            let result = request.outcome.unwrap();
            match &request.operation {
                Operation::Connect { handle, .. } => {
                    let h = *handle;
                    if h < core.handles.len() {
                        let record = core.handles[h];
                        let state = match (record.state, &result) {
                            (HandleState::Created, Ok(_)) => HandleState::Stopped,
                            (s, _) => s,
                        };
                        core.handles[h] = Handle { connecting: false, state, ..record };
                    }
                },
                _ => {},
            }
            if core.dispatched < u64::MAX {
                core.dispatched = core.dispatched + 1;
            }
            self.core = core;
            return Some(
                Fired::Completed { id: request.id, operation: request.operation, result },
            );
        }
        if let Some(i) = core.first_deliverable() {
            let arrival = core.arrivals.remove(i);
            if core.dispatched < u64::MAX {
                core.dispatched = core.dispatched + 1;
            }
            self.core = core;
            return Some(Fired::Read { handle: arrival.handle, incoming: arrival.incoming });
        }
        let found = core.first_due(core.cursor, core.iteration);
        assert(forall|j: int| core.due_in(j, core.iteration) == before.due(j));
        match found {
            Some(h) => {
                assert(before.due_first(h as int));
                let record = core.handles[h];
                let fired = match record.state {
                    HandleState::Closing => {
                        core.handles[h] = Handle { state: HandleState::Closed, ..record };
                        Fired::Closed { handle: h }
                    },
                    _ => match record.kind {
                        HandleKind::Idle => Fired::Idle { handle: h },
                        _ => Fired::Connection { handle: h },
                    },
                };
                assert(h < core.handles.len());
                core.cursor = h + 1;
                if core.dispatched < u64::MAX {
                    core.dispatched = core.dispatched + 1;
                }
                self.core = core;
                Some(fired)
            },
            None => {
                core.cursor = 0;
                if core.iteration < u64::MAX {
                    core.iteration = core.iteration + 1;
                }
                self.core = core;
                None
            },
        }
    }
}

impl Loop {
    /// A copy of the bytes that the request of this id is to write; nothing
    /// where no request of this id is in flight or where it does not write.
    pub fn payload(&self, id: u64) -> (r: Option<Vec<u8>>)
        ensures
            match r {
                Some(bytes) => exists|i: int|
                    self@.position(id, i) && self@.requests[i].operation.payload() == Some(bytes@),
                None => forall|i: int|
                    self@.position(id, i) ==> self@.requests[i].operation.payload() is None,
            },
    {
        proof {
            use_type_invariant(self);
        }
        match self.core.locate(id) {
            None => None,
            Some(i) => match &self.core.requests[i].operation {
                Operation::Write { buffer, .. } => Some(buffer.to_vec()),
                Operation::Send { buffer, .. } => Some(buffer.to_vec()),
                _ => None,
            },
        }
    }

    /// Whether a callback of a request on the handle has yet to fire.
    pub fn busy(&self, handle: usize) -> (r: bool)
        ensures
            r == self@.busy(handle),
    {
        self.core.busy(handle)
    }

    /// How many requests were ever submitted; the next request gets this id.
    pub fn issued(&self) -> (r: u64)
        ensures
            r == self@.issued,
            self@.wf(),
    {
        proof {
            use_type_invariant(self);
        }
        self.core.issued
    }

    /// The handle that the request of this id was submitted on; nothing
    /// where no request of this id is in flight or where it was submitted
    /// on no handle.
    pub fn handle_of(&self, id: u64) -> (r: Option<usize>)
        ensures
            match r {
                Some(handle) => exists|i: int|
                    self@.position(id, i) && self@.requests[i].operation.spec_handle() == Some(
                        handle,
                    ),
                None => forall|i: int|
                    self@.position(id, i) ==> self@.requests[i].operation.spec_handle() is None,
            },
    {
        proof {
            use_type_invariant(self);
        }
        match self.core.locate(id) {
            None => None,
            Some(i) => self.core.requests[i].operation.handle(),
        }
    }

    /// How many bytes the request of this id can read at most; nothing
    /// where no request of this id is in flight or where it does not read.
    pub fn room(&self, id: u64) -> (r: Option<usize>)
        ensures
            match r {
                Some(n) => exists|i: int|
                    self@.position(id, i) && self@.requests[i].operation.room() == Some(n as nat),
                None => forall|i: int|
                    self@.position(id, i) ==> self@.requests[i].operation.room() is None,
            },
    {
        proof {
            use_type_invariant(self);
        }
        match self.core.locate(id) {
            None => None,
            Some(i) => match &self.core.requests[i].operation {
                Operation::Read { buffer, .. } => Some(buffer.capacity()),
                _ => None,
            },
        }
    }
}

/// Whether a run is under way has no part in what keeps a loop alive and
/// in what is ready.
proof fn lemma_running_apart(a: LoopView, b: LoopView)
    requires
        b == (LoopView { running: b.running, ..a }),
    ensures
        a.alive() == b.alive(),
        a.ready() == b.ready(),
{
    if a.any_deliverable() {
        let i = choose|i: int| a.deliverable(i);
        assert(b.deliverable(i));
    }
    if b.any_deliverable() {
        let i = choose|i: int| b.deliverable(i);
        assert(a.deliverable(i));
    }
    if exists|h: int| 0 <= h < a.handles.len() && a.next_iteration().due(h) {
        let h = choose|h: int| 0 <= h < a.handles.len() && a.next_iteration().due(h);
        assert(b.next_iteration().due(h));
    }
    if exists|h: int| 0 <= h < b.handles.len() && b.next_iteration().due(h) {
        let h = choose|h: int| 0 <= h < b.handles.len() && b.next_iteration().due(h);
        assert(a.next_iteration().due(h));
    }
}

/// The loop at rest takes the same steps as the loop in a run.
proof fn lemma_rest_steps(before: LoopView, after: LoopView, fired: Option<Fired>)
    requires
        before.stepped(after, fired),
    ensures
        before.at_rest().stepped(after.at_rest(), fired),
{
    let a = before.at_rest();
    let b = after.at_rest();
    assert(a.any_completed() == before.any_completed());
    assert(forall|i: int| a.deliverable(i) == before.deliverable(i));
    assert(forall|h: int| a.due(h) == before.due(h));
    if before.any_deliverable() {
        let i = choose|i: int| before.deliverable(i);
        assert(a.deliverable(i));
    }
    if a.any_deliverable() {
        let i = choose|i: int| a.deliverable(i);
        assert(before.deliverable(i));
    }
    if before.any_due() {
        let h = choose|h: int| before.cursor <= h < before.handles.len() && before.due(h);
        assert(a.due(h));
    }
    if a.any_due() {
        let h = choose|h: int| a.cursor <= h < a.handles.len() && a.due(h);
        assert(before.due(h));
    }
    match fired {
        Some(Fired::Completed { id, operation, result }) => {
            let i = choose|i: int|
                {
                    &&& before.completed_first(i)
                    &&& before.requests[i] == (Request { id, operation, outcome: Some(result) })
                    &&& after == before.after_completion(i).counted()
                };
            assert(a.completed_first(i));
            assert(b == a.after_completion(i).counted());
        },
        Some(Fired::Read { handle, incoming }) => {
            let i = choose|i: int|
                {
                    &&& before.delivered_first(i)
                    &&& before.arrivals[i] == (Arrival { handle, incoming })
                    &&& after == (LoopView {
                        arrivals: before.arrivals.remove(i),
                        ..before
                    }).counted()
                };
            assert(a.delivered_first(i));
        },
        Some(callback) => {
            let h = choose|h: int|
                {
                    &&& before.due_first(h)
                    &&& callback == before.callback(h)
                    &&& after == before.after_callback(h).counted()
                };
            assert(a.due_first(h));
            assert(b == a.after_callback(h).counted());
        },
        None => {},
    }
}

/// The code that answers the callbacks of a run. A handler may keep
/// something true between callbacks, of itself, of the loop and of the
/// pool. Where the steps of the loop leave that standing, a run keeps it
/// too.
pub trait Handler: Sized {
    /// What the handler keeps true between callbacks, of itself, of the
    /// loop at rest and of the pool. Nothing, unless the handler says so.
    open spec fn holds(&self, lp: LoopView, pool: PoolView) -> bool {
        true
    }

    /// What the handler counts on when it is given a callback. Nothing,
    /// unless the handler says so.
    open spec fn accepts(&self, lp: LoopView, pool: PoolView, fired: Fired) -> bool {
        true
    }

    /// What the handler has kept of itself as it was in `origin`: the
    /// part of itself that it never changes. Nothing, unless the handler
    /// says so.
    open spec fn keeps(&self, origin: &Self) -> bool {
        true
    }

    /// Answers one callback that the loop handed out. It may submit
    /// operations and change handles; it can neither begin nor end a run,
    /// and the loop's counts do not fall. Where it could count on what
    /// it needs, it leaves true what it keeps.
    fn handle(&mut self, lp: &mut Loop, pool: &mut BufferPool, fired: Fired)
        ensures
            old(self).accepts(old(lp)@.at_rest(), old(pool)@, fired) ==> final(self).holds(
                final(lp)@.at_rest(),
                final(pool)@,
            ),
            forall|origin: Self| #[trigger] old(self).keeps(&origin) ==> final(self).keeps(&origin),
            final(lp)@.running == old(lp)@.running,
            final(lp)@.iteration >= old(lp)@.iteration,
            final(lp)@.dispatched >= old(lp)@.dispatched,
    ;
}

/// Whether the steps of the loop leave standing what handlers of this
/// type keep: a handler can count on what it needs for the callback that
/// a step hands out, and a step that hands out none changes nothing of
/// what it keeps.
pub open spec fn steady<H: Handler>() -> bool {
    forall|handler: H, before: LoopView, after: LoopView, pool: PoolView, fired: Option<Fired>|
        #![trigger handler.holds(before, pool), before.stepped(after, fired)]
        handler.holds(before, pool) && before.wf() && !before.running && before.stepped(
            after,
            fired,
        ) ==> match fired {
            Some(callback) => handler.accepts(after, pool, callback),
            None => handler.holds(after, pool),
        }
}

impl Loop {
    /// Whether a run is under way.
    pub fn is_running(&self) -> (r: bool)
        ensures
            r == self@.running,
    {
        self.core.running
    }

    /// How many callbacks were handed out.
    pub fn dispatched(&self) -> (r: u64)
        ensures
            r == self@.dispatched,
    {
        self.core.dispatched
    }

    /// Whether a callback could fire without anything new from the
    /// operating system, in this iteration or the next.
    pub fn ready(&self) -> (r: bool)
        ensures
            r == self@.ready(),
    {
        if self.core.first_completed().is_some() {
            return true;
        }
        if self.core.first_deliverable().is_some() {
            return true;
        }
        let following: u64 = if self.core.iteration < u64::MAX {
            self.core.iteration + 1
        } else {
            self.core.iteration
        };
        let found = self.core.first_due(0, following);
        assert(forall|j: int| self.core.due_in(j, following) == self@.next_iteration().due(j));
        found.is_some()
    }

    /// Whether a synchronous file operation may be made now: it blocks the
    /// thread, so it has no place in a callback of a run.
    pub fn may_block(&self) -> (r: Result<(), ErrorKind>)
        ensures
            r == if self@.running {
                Err::<(), ErrorKind>(ErrorKind::Busy)
            } else {
                Ok::<(), ErrorKind>(())
            },
    {
        if self.core.running {
            Err(ErrorKind::Busy)
        } else {
            Ok(())
        }
    }

    /// Sets whether a run is under way.
    fn set_running(&mut self, running: bool)
        ensures
            final(self)@ == (LoopView { running, ..old(self)@ }),
    {
        let mut core = self.take();
        core.running = running;
        self.core = core;
    }

    /// Runs the loop: hands the callbacks that are due to `handler`, one
    /// after the other, on the caller's thread. The loop cannot wait for
    /// the operating system, so `Once` and `NoWait` both go through one
    /// iteration and return, and `Default` goes through iterations until
    /// nothing keeps the loop alive, or until no callback can fire before
    /// something new is posted. Returns whether anything keeps the loop
    /// alive. What the handler keeps true between callbacks is true after
    /// the run, if it was true before. A run inside a run is refused.
    pub fn run<H: Handler>(&mut self, mode: RunMode, handler: &mut H, pool: &mut BufferPool) -> (r:
        Result<bool, ErrorKind>)
        ensures
            match r {
                Err(e) => {
                    &&& e == ErrorKind::Busy
                    &&& old(self)@.running
                    &&& final(self)@ == old(self)@
                    &&& *final(handler) == *old(handler)
                    &&& final(pool)@ == old(pool)@
                },
                Ok(alive) => {
                    &&& !old(self)@.running
                    &&& !final(self)@.running
                    &&& alive == final(self)@.alive()
                    &&& final(self)@.iteration >= old(self)@.iteration
                    &&& final(self)@.dispatched >= old(self)@.dispatched
                    &&& final(self)@.exhausted() || if mode == RunMode::Default {
                        !final(self)@.alive() || !final(self)@.ready()
                    } else {
                        final(self)@.iteration > old(self)@.iteration
                    }
                    &&& forall|origin: H| #[trigger]
                        old(handler).keeps(&origin) ==> final(handler).keeps(&origin)
                    &&& steady::<H>() && old(handler).holds(old(self)@, old(pool)@)
                        ==> final(handler).holds(final(self)@, final(pool)@)
                },
            },
    {
        if self.is_running() {
            return Err(ErrorKind::Busy);
        }
        let ghost held = steady::<H>() && handler.holds(self@, pool@);
        self.set_running(true);
        assert(self@.at_rest() == old(self)@);
        loop
            invariant_except_break
                self@.running,
            invariant
                self@.iteration >= old(self)@.iteration,
                self@.dispatched >= old(self)@.dispatched,
                forall|origin: H| #[trigger] old(handler).keeps(&origin) ==> handler.keeps(&origin),
                held ==> steady::<H>() && handler.holds(self@.at_rest(), pool@),
            ensures
                self@.running,
                self@.exhausted() || if mode == RunMode::Default {
                    !self@.alive() || !self@.ready()
                } else {
                    self@.iteration > old(self)@.iteration
                },
            decreases (u64::MAX - self@.dispatched) + (u64::MAX - self@.iteration),
        {
            if self.dispatched() == u64::MAX || self.iteration() == u64::MAX {
                break ;
            }
            let ghost before = self@;
            let fired = self.next();
            proof {
                lemma_rest_steps(before, self@, fired);
                if held {
                    assert(before.at_rest().wf());
                    assert(before.at_rest().stepped(self@.at_rest(), fired));
                }
            }
            match fired {
                Some(callback) => {
                    handler.handle(self, pool, callback);
                },
                None => {
                    let go_on = match mode {
                        RunMode::Default => self.alive() && self.ready(),
                        _ => false,
                    };
                    if !go_on {
                        break ;
                    }
                },
            }
        }
        let ghost last = self@;
        self.set_running(false);
        proof {
            lemma_running_apart(last, self@);
            assert(self@ == last.at_rest());
        }
        Ok(self.alive())
    }
}


} // verus!
