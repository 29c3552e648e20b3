//! The program that copies a file to standard output, one buffer at a
//! time: read, write, read again, until a read gives nothing.

use crate::buffer::{lemma_lease_give_back, Buffer, BufferPool, PoolView};
use crate::error::ErrorKind;
use crate::flags::{ModeFlags, OpenFlags, RunMode};
use crate::reactor::{steady, Handler, Loop, LoopView};
use crate::request::{Fired, Operation, Request, CURRENT_POSITION, STDOUT};
use vstd::prelude::*;
use vstd::slice::slice_subrange;

verus! {

/// The capacity of the one buffer that the program reads and writes with.
pub const CHUNK: usize = 1024;

/// Where in the program a failure came up.
#[derive(Clone, Copy, Debug, PartialEq, Eq, Structural)]
pub enum Stage {
    /// The file could not be opened.
    Open,
    /// The buffer could not be allocated.
    Allocate,
    /// The first read could not be submitted.
    StartRead,
    /// A read failed.
    Read,
    /// The buffer could not be set to the length that was read.
    Resize,
    /// The write could not be submitted.
    StartWrite,
    /// A write failed.
    Write,
    /// The next read could not be submitted.
    ContinueRead,
    /// The file could not be closed.
    CloseFile,
}

/// What a callback of the program did.
#[derive(Clone, Copy, Debug, PartialEq, Eq, Structural)]
pub enum Step {
    /// A read is in flight, under this request id.
    Reading(u64),
    /// A write to standard output is in flight, under this request id.
    Writing(u64),
    /// The close of the file is in flight, under this request id.
    Closing(u64),
    /// The file is copied and closed.
    Done,
    /// The program gave up. Its buffer is released; the caller reports the failure.
    Failed(Stage, ErrorKind),
    /// The callback was not one of the program's.
    Ignored,
}

/// Whether `operation` writes the content `bytes`, held by a buffer of the
/// given id and capacity, to standard output.
pub open spec fn writes_out(operation: Operation, id: u64, capacity: nat, bytes: Seq<u8>) -> bool {
    &&& operation matches Operation::Write { file, buffer, offset }
    &&& file == STDOUT
    &&& offset == CURRENT_POSITION
    &&& buffer.spec_id() == id
    &&& buffer.spec_capacity() == capacity
    &&& buffer@ == bytes
}

/// What `on_open` does: with an error, nothing at all; with the
/// descriptor, it allocates the buffer and submits the first read.
pub open spec fn opened(
    lp0: LoopView,
    lp1: LoopView,
    pool0: PoolView,
    pool1: PoolView,
    result: Result<usize, ErrorKind>,
    step: Step,
) -> bool {
    match result {
        Err(e) => {
            &&& step == Step::Failed(Stage::Open, e)
            &&& lp1 == lp0
            &&& pool1 == pool0
        },
        Ok(descriptor) => if descriptor > i32::MAX {
            &&& step == Step::Failed(Stage::Open, ErrorKind::InvalidState)
            &&& lp1 == lp0
            &&& pool1 == pool0
        } else if !pool0.has_room(CHUNK as nat) {
            &&& step == Step::Failed(Stage::Allocate, ErrorKind::NoMemory)
            &&& lp1 == lp0
            &&& pool1 == pool0
        } else if lp0.full() {
            &&& step == Step::Failed(Stage::StartRead, ErrorKind::NoMemory)
            &&& lp1 == lp0
            &&& pool1 == pool0.lease(pool0.allocations as u64, CHUNK as nat).give_back(
                pool0.allocations as u64,
            )
        } else {
            &&& step == Step::Reading(lp0.issued as u64)
            &&& lp1 == lp0.submitted(lp1.requests.last().operation)
            &&& lp1.requests.last().operation matches Operation::Read { file, buffer, offset }
            &&& file == descriptor
            &&& offset == CURRENT_POSITION
            &&& buffer.spec_id() == pool0.allocations
            &&& buffer.spec_capacity() == CHUNK
            &&& !pool0.live.dom().contains(buffer.spec_id())
            &&& pool1 == pool0.lease(buffer.spec_id(), CHUNK as nat)
        },
    }
}

/// What `on_read` does: bytes that were read go to standard output, from
/// the same buffer, cut to their number; at the end of the file the
/// buffer is released and the file closed; after a failure the buffer is
/// released and nothing is submitted.
pub open spec fn was_read(
    lp0: LoopView,
    lp1: LoopView,
    pool0: PoolView,
    pool1: PoolView,
    file: i32,
    result: Result<usize, ErrorKind>,
    buffer: Buffer,
    step: Step,
) -> bool {
    match result {
        Err(e) => {
            &&& step == Step::Failed(Stage::Read, e)
            &&& lp1 == lp0
            &&& pool1 == pool0.released(buffer.spec_id(), buffer.spec_capacity())
        },
        Ok(count) => if count == 0 {
            &&& pool1 == pool0.released(buffer.spec_id(), buffer.spec_capacity())
            &&& if lp0.full() {
                &&& step == Step::Failed(Stage::CloseFile, ErrorKind::NoMemory)
                &&& lp1 == lp0
            } else {
                &&& step == Step::Closing(lp0.issued as u64)
                &&& lp1 == lp0.submitted(Operation::Close { file })
            }
        } else if count > buffer.spec_capacity() {
            &&& step == Step::Failed(Stage::Resize, ErrorKind::NoMemory)
            &&& lp1 == lp0
            &&& pool1 == pool0.released(buffer.spec_id(), buffer.spec_capacity())
        } else if lp0.full() {
            &&& step == Step::Failed(Stage::StartWrite, ErrorKind::NoMemory)
            &&& lp1 == lp0
            &&& pool1 == pool0.released(buffer.spec_id(), buffer.spec_capacity())
        } else {
            &&& step == Step::Writing(lp0.issued as u64)
            &&& lp1 == lp0.submitted(lp1.requests.last().operation)
            &&& writes_out(
                lp1.requests.last().operation,
                buffer.spec_id(),
                buffer.spec_capacity(),
                buffer.storage().take(count as int),
            )
            &&& pool1 == pool0
        },
    }
}

/// What `on_write` does: after a success the next read is submitted with
/// the same buffer; after a failure the buffer is released and nothing is
/// submitted.
pub open spec fn written(
    lp0: LoopView,
    lp1: LoopView,
    pool0: PoolView,
    pool1: PoolView,
    result: Result<usize, ErrorKind>,
    file: i32,
    buffer: Buffer,
    step: Step,
) -> bool {
    match result {
        Err(e) => {
            &&& step == Step::Failed(Stage::Write, e)
            &&& lp1 == lp0
            &&& pool1 == pool0.released(buffer.spec_id(), buffer.spec_capacity())
        },
        Ok(_) => if lp0.full() {
            &&& step == Step::Failed(Stage::ContinueRead, ErrorKind::NoMemory)
            &&& lp1 == lp0
            &&& pool1 == pool0.released(buffer.spec_id(), buffer.spec_capacity())
        } else {
            &&& step == Step::Reading(lp0.issued as u64)
            &&& lp1 == lp0.submitted(Operation::Read { file, buffer, offset: CURRENT_POSITION })
            &&& pool1 == pool0
        },
    }
}

/// What `on_close` gives.
pub open spec fn closed(result: Result<usize, ErrorKind>) -> Step {
    match result {
        Ok(_) => Step::Done,
        Err(e) => Step::Failed(Stage::CloseFile, e),
    }
}

/// The file was opened, or not. With the descriptor the program
/// allocates its buffer and submits the first read; with an error it
/// does nothing at all.
pub fn on_open(lp: &mut Loop, pool: &mut BufferPool, result: Result<usize, ErrorKind>) -> (step:
    Step)
    ensures
        opened(old(lp)@, final(lp)@, old(pool)@, final(pool)@, result, step),
{
    match result {
        Err(e) => {
            Step::Failed(Stage::Open, e)
        },
        Ok(descriptor) => {
            if descriptor > i32::MAX as usize {
                    return Step::Failed(Stage::Open, ErrorKind::InvalidState);
            }
            let file: i32 = descriptor as i32;
            let buffer = match pool.allocate(CHUNK) {
                Ok(buffer) => buffer,
                Err(e) => {
                            return Step::Failed(Stage::Allocate, e);
                },
            };
            match lp.fs_read(file, buffer, CURRENT_POSITION) {
                Ok(id) => Step::Reading(id),
                Err((e, buffer)) => {
                    pool.discard(buffer);
                    Step::Failed(Stage::StartRead, e)
                },
            }
        },
    }
}

/// A read from the file completed. Bytes that were read go to standard
/// output, from the same buffer, cut to their number. A count of zero
/// is the end of the file: the buffer is released and the file closed.
/// After a failure the buffer is released and nothing is submitted.
pub fn on_read(
    lp: &mut Loop,
    pool: &mut BufferPool,
    file: i32,
    result: Result<usize, ErrorKind>,
    buffer: Buffer,
) -> (step: Step)
    ensures
        was_read(old(lp)@, final(lp)@, old(pool)@, final(pool)@, file, result, buffer, step),
{
    match result {
        Err(e) => {
            pool.discard(buffer);
            Step::Failed(Stage::Read, e)
        },
        Ok(count) => {
            if count == 0 {
                pool.discard(buffer);
                match lp.fs_close(file) {
                    Ok(id) => Step::Closing(id),
                    Err(e) => Step::Failed(Stage::CloseFile, e),
                }
            } else {
                let mut buffer = buffer;
                match buffer.resize(count) {
                    Err(e) => {
                                    pool.discard(buffer);
                        Step::Failed(Stage::Resize, e)
                    },
                    Ok(()) => match lp.fs_write(STDOUT, buffer, CURRENT_POSITION) {
                        Ok(id) => Step::Writing(id),
                        Err((e, buffer)) => {
                            pool.discard(buffer);
                            Step::Failed(Stage::StartWrite, e)
                        },
                    },
                }
            }
        },
    }
}

/// A write to standard output completed. After a success the next read
/// is submitted with the same buffer; after a failure the buffer is
/// released and nothing is submitted.
pub fn on_write(
    lp: &mut Loop,
    pool: &mut BufferPool,
    result: Result<usize, ErrorKind>,
    file: i32,
    buffer: Buffer,
) -> (step: Step)
    ensures
        written(old(lp)@, final(lp)@, old(pool)@, final(pool)@, result, file, buffer, step),
{
    match result {
        Err(e) => {
            pool.discard(buffer);
            Step::Failed(Stage::Write, e)
        },
        Ok(_) => match lp.fs_read(file, buffer, CURRENT_POSITION) {
            Ok(id) => Step::Reading(id),
            Err((e, buffer)) => {
                pool.discard(buffer);
                Step::Failed(Stage::ContinueRead, e)
            },
        },
    }
}

/// The close of the file completed.
pub fn on_close(result: Result<usize, ErrorKind>) -> (step: Step)
    ensures
        step == closed(result),
{
    match result {
        Ok(_) => Step::Done,
        Err(e) => Step::Failed(Stage::CloseFile, e),
    }
}

/// What the program keeps between its callbacks.
#[derive(Clone, Copy, Debug, PartialEq, Eq, Structural)]
pub struct Cat {
    /// The descriptor of the file that is copied, once it is open.
    pub source: Option<i32>,
}

impl Cat {
    /// The program before its file is open.
    pub fn new() -> (r: Cat)
        ensures
            r.source is None,
    {
        Cat { source: None }
    }

    /// The descriptor that the program keeps after an open with this result.
    pub open spec fn source_after(self, result: Result<usize, ErrorKind>) -> Option<i32> {
        match result {
            Ok(descriptor) => if descriptor <= i32::MAX {
                Some(descriptor as i32)
            } else {
                self.source
            },
            Err(_) => self.source,
        }
    }

    /// What `dispatch` does with a callback: which of the program's
    /// functions answers it, and with what.
    pub open spec fn reacts(
        self,
        after: Cat,
        lp0: LoopView,
        lp1: LoopView,
        pool0: PoolView,
        pool1: PoolView,
        fired: Fired,
        step: Step,
    ) -> bool {
        match fired {
            Fired::Completed { operation: Operation::Open { .. }, result, .. } => {
                &&& after.source == self.source_after(result)
                &&& opened(lp0, lp1, pool0, pool1, result, step)
            },
            Fired::Completed { operation: Operation::Read { file, buffer, .. }, result, .. } => {
                &&& after.source == self.source
                &&& was_read(lp0, lp1, pool0, pool1, file, result, buffer, step)
            },
            Fired::Completed { operation: Operation::Write { buffer, .. }, result, .. } => {
                &&& after.source == self.source
                &&& match self.source {
                    Some(file) => written(lp0, lp1, pool0, pool1, result, file, buffer, step),
                    None => {
                        &&& step == Step::Ignored
                        &&& lp1 == lp0
                        &&& pool1 == pool0.released(buffer.spec_id(), buffer.spec_capacity())
                    },
                }
            },
            Fired::Completed { operation: Operation::Close { .. }, result, .. } => {
                &&& after.source == self.source
                &&& step == closed(result)
                &&& lp1 == lp0
                &&& pool1 == pool0
            },
            Fired::Completed { operation: Operation::Send { buffer, .. }, .. } => {
                &&& after.source == self.source
                &&& step == Step::Ignored
                &&& lp1 == lp0
                &&& pool1 == pool0.released(buffer.spec_id(), buffer.spec_capacity())
            },
            _ => {
                &&& after.source == self.source
                &&& step == Step::Ignored
                &&& lp1 == lp0
                &&& pool1 == pool0
            },
        }
    }

    /// Answers a callback that the loop handed out with the function of
    /// the program that belongs to it. A buffer that comes with a callback
    /// which is none of the program's goes back to the pool.
    pub fn dispatch(&mut self, lp: &mut Loop, pool: &mut BufferPool, fired: Fired) -> (step: Step)
        ensures
            old(self).reacts(
                *final(self),
                old(lp)@,
                final(lp)@,
                old(pool)@,
                final(pool)@,
                fired,
                step,
            ),
    {
        match fired {
            Fired::Completed { id, operation, result } => match operation {
                Operation::Open { .. } => {
                    match result {
                        Ok(descriptor) => {
                            if descriptor <= i32::MAX as usize {
                                self.source = Some(descriptor as i32);
                            }
                        },
                        Err(_) => {},
                    }
                    on_open(lp, pool, result)
                },
                Operation::Read { file, buffer, .. } => on_read(lp, pool, file, result, buffer),
                Operation::Write { buffer, .. } => match self.source {
                    Some(file) => on_write(lp, pool, result, file, buffer),
                    None => {
                        pool.discard(buffer);
                        Step::Ignored
                    },
                },
                Operation::Close { .. } => on_close(result),
                Operation::Send { buffer, .. } => {
                    pool.discard(buffer);
                    Step::Ignored
                },
                Operation::Connect { .. } => Step::Ignored,
            },
            _ => Step::Ignored,
        }
    }
}

/// The program's state together with what its last callback did.
#[derive(Clone, Copy, Debug, PartialEq, Eq, Structural)]
pub struct Session {
    pub program: Cat,
    pub last: Step,
}

impl Session {
    /// A session of a program that has not begun.
    pub fn new() -> (r: Session)
        ensures
            r.program.source is None,
            r.last == Step::Ignored,
    {
        Session { program: Cat::new(), last: Step::Ignored }
    }
}

impl Session {
    /// Whether the loop has nothing but one request, of this id.
    pub open spec fn alone(lp: LoopView, id: u64) -> bool {
        lp.requests.len() == 1 && lp.requests[0].id == id
    }
}

impl Handler for Session {
    /// What the session keeps true between callbacks: the loop holds
    /// nothing but what the program has in flight, which is one request
    /// at most, the one that the last step submitted; and the buffer that
    /// this request works on is live in the pool, so it was not released
    /// while in flight. After the last step nothing is in flight.
    open spec fn holds(&self, lp: LoopView, pool: PoolView) -> bool {
        &&& lp.handles.len() == 0
        &&& lp.arrivals.len() == 0
        &&& match self.last {
            Step::Reading(id) => {
                &&& Self::alone(lp, id)
                &&& lp.requests[0].operation matches Operation::Read { file, buffer, .. }
                &&& self.program.source == Some(file)
                &&& pool.holds(buffer.spec_id(), buffer.spec_capacity())
            },
            Step::Writing(id) => {
                &&& Self::alone(lp, id)
                &&& lp.requests[0].operation matches Operation::Write { buffer, .. }
                &&& self.program.source is Some
                &&& pool.holds(buffer.spec_id(), buffer.spec_capacity())
            },
            Step::Closing(id) => Self::alone(lp, id) && lp.requests[0].operation is Close,
            Step::Done => lp.requests.len() == 0,
            Step::Failed(_, _) => lp.requests.len() == 0,
            Step::Ignored => {
                &&& self.program.source is None
                &&& lp.requests.len() <= 1
                &&& lp.requests.len() == 1 ==> lp.requests[0].operation is Open
            },
        }
    }

    /// What the session counts on when it is given a callback: it is the
    /// callback of the one request that the last step left in flight, and
    /// the buffer that comes back with it is live in the pool.
    open spec fn accepts(&self, lp: LoopView, pool: PoolView, fired: Fired) -> bool {
        &&& lp.handles.len() == 0
        &&& lp.arrivals.len() == 0
        &&& lp.requests.len() == 0
        &&& match self.last {
            Step::Reading(_) => {
                &&& fired matches Fired::Completed {
                    operation: Operation::Read { file, buffer, .. },
                    ..
                }
                &&& self.program.source == Some(file)
                &&& pool.holds(buffer.spec_id(), buffer.spec_capacity())
            },
            Step::Writing(_) => {
                &&& fired matches Fired::Completed { operation: Operation::Write { buffer, .. }, .. }
                &&& self.program.source is Some
                &&& pool.holds(buffer.spec_id(), buffer.spec_capacity())
            },
            Step::Closing(_) => fired matches Fired::Completed {
                operation: Operation::Close { .. },
                ..
            },
            Step::Ignored => {
                &&& fired matches Fired::Completed { operation: Operation::Open { .. }, .. }
                &&& self.program.source is None
            },
            _ => false,
        }
    }

    /// Answers the callback as `Cat::dispatch` does, and keeps the step.
    fn handle(&mut self, lp: &mut Loop, pool: &mut BufferPool, fired: Fired)
        ensures
            old(self).program.reacts(
                final(self).program,
                old(lp)@,
                final(lp)@,
                old(pool)@,
                final(pool)@,
                fired,
                final(self).last,
            ),
    {
        self.last = self.program.dispatch(lp, pool, fired);
    }
}

/// The steps of the loop leave standing what a session keeps: the one
/// callback that a step can hand out is that of the request which the
/// program has in flight. So a run that begins with a session in order
/// ends with it in order: no buffer of the program is released while a
/// request works on it.
pub proof fn lemma_session_is_steady()
    ensures
        steady::<Session>(),
{
    assert forall|
        handler: Session,
        before: LoopView,
        after: LoopView,
        pool: PoolView,
        fired: Option<Fired>,
    |
        #![trigger handler.holds(before, pool), before.stepped(after, fired)]
        handler.holds(before, pool) && before.wf() && !before.running && before.stepped(
            after,
            fired,
        ) implies match fired {
        Some(callback) => handler.accepts(after, pool, callback),
        None => handler.holds(after, pool),
    } by {
        if before.requests.len() == 1 {
            assert(before.requests.remove(0).len() == 0);
        }
    }
}

impl Session {
    /// Runs the loop with the session as its handler. A session that was
    /// in order before the run is in order after it: what the program has
    /// in flight is one request at most, and the buffer of that request
    /// is live in the pool.
    pub fn run(&mut self, lp: &mut Loop, pool: &mut BufferPool, mode: RunMode) -> (r: Result<
        bool,
        ErrorKind,
    >)
        ensures
            match r {
                Err(e) => {
                    &&& e == ErrorKind::Busy
                    &&& old(lp)@.running
                    &&& final(lp)@ == old(lp)@
                    &&& *final(self) == *old(self)
                    &&& final(pool)@ == old(pool)@
                },
                Ok(alive) => {
                    &&& !old(lp)@.running
                    &&& !final(lp)@.running
                    &&& alive == final(lp)@.alive()
                    &&& final(lp)@.iteration >= old(lp)@.iteration
                    &&& final(lp)@.dispatched >= old(lp)@.dispatched
                    &&& final(lp)@.exhausted() || if mode == RunMode::Default {
                        !final(lp)@.alive() || !final(lp)@.ready()
                    } else {
                        final(lp)@.iteration > old(lp)@.iteration
                    }
                    &&& old(self).holds(old(lp)@, old(pool)@) ==> final(self).holds(
                        final(lp)@,
                        final(pool)@,
                    )
                },
            },
    {
        proof {
            lemma_session_is_steady();
        }
        lp.run(mode, self, pool)
    }
}

/// Whether `after` is `before` with outcomes reported: the same handles
/// and arrivals, and the same requests but for their outcomes and for
/// the bytes that a read brought into its buffer.
pub open spec fn reported(before: LoopView, after: LoopView) -> bool {
    &&& after.handles == before.handles
    &&& after.arrivals == before.arrivals
    &&& after.requests.len() == before.requests.len()
    &&& forall|i: int|
        0 <= i < before.requests.len() ==> {
            let then = (#[trigger] before.requests[i]);
            let now = after.requests[i];
            &&& now.id == then.id
            &&& now.operation == then.operation || (now.operation matches Operation::Read {
                file,
                buffer,
                offset,
            } && then.operation matches Operation::Read {
                file: file0,
                buffer: buffer0,
                offset: offset0,
            } && file == file0 && offset == offset0 && buffer.spec_id() == buffer0.spec_id()
                && buffer.spec_capacity() == buffer0.spec_capacity())
        }
}

/// What a session keeps stands when outcomes are reported to the loop
/// between runs.
pub proof fn lemma_session_stands_outcomes(
    session: Session,
    before: LoopView,
    after: LoopView,
    pool: PoolView,
)
    requires
        session.holds(before, pool),
        reported(before, after),
    ensures
        session.holds(after, pool),
{
    if before.requests.len() > 0 {
        assert(after.requests[0].id == before.requests[0].id);
    }
}

/// The descriptor under which a run in memory knows its file.
pub const MEMORY_FILE: usize = 3;

/// A bound on the requests that a run in memory has submitted: two for
/// every full buffer that was written, and `ahead` more, with two to spare
/// once the end of the file is reached. So the ids never run out.
spec fn spent(issued: nat, written: int, len: nat, ahead: int) -> bool {
    CHUNK * issued <= 2 * written + CHUNK * if written == len {
        ahead + 2
    } else {
        ahead
    }
}

/// Whether a step leaves a request in flight.
spec fn under_way(step: Step) -> bool {
    step is Reading || step is Writing || step is Closing || step is Ignored
}

/// What holds between the callbacks of a run in memory, when the request
/// of the last step has been answered from the file: the one request in
/// flight has its outcome, the program's one buffer is in it or released,
/// and what was written so far is the part of the file that was read.
spec fn served(
    step: Step,
    lp: LoopView,
    pool: PoolView,
    start: PoolView,
    out: Seq<u8>,
    source: Seq<u8>,
    position: int,
) -> bool {
    let held = start.allocations as u64;
    match step {
        Step::Reading(id) => {
            &&& Session::alone(lp, id)
            &&& out.len() <= position <= source.len()
            &&& position - out.len() <= CHUNK
            &&& position < source.len() ==> position - out.len() == CHUNK
            &&& lp.requests[0].outcome == Some(
                Ok::<usize, ErrorKind>((position - out.len()) as usize),
            )
            &&& lp.requests[0].operation matches Operation::Read { file, buffer, offset }
            &&& file == MEMORY_FILE
            &&& buffer.spec_id() == held
            &&& buffer.spec_capacity() == CHUNK
            &&& buffer.storage().take(position - out.len()) == source.subrange(
                out.len() as int,
                position,
            )
            &&& start.has_room(CHUNK as nat)
            &&& !start.live.dom().contains(held)
            &&& pool == start.lease(held, CHUNK as nat)
            &&& out == source.take(out.len() as int)
            &&& spent(lp.issued, out.len() as int, source.len(), 4)
        },
        Step::Writing(id) => {
            &&& Session::alone(lp, id)
            &&& lp.requests[0].outcome matches Some(Ok(_))
            &&& lp.requests[0].operation matches Operation::Write { file, buffer, offset }
            &&& buffer.spec_id() == held
            &&& buffer.spec_capacity() == CHUNK
            &&& start.has_room(CHUNK as nat)
            &&& !start.live.dom().contains(held)
            &&& pool == start.lease(held, CHUNK as nat)
            &&& position == out.len()
            &&& position <= source.len()
            &&& out == source.take(position)
            &&& spent(lp.issued, position, source.len(), 3)
        },
        Step::Closing(id) => {
            &&& Session::alone(lp, id)
            &&& lp.requests[0].outcome matches Some(Ok(_))
            &&& lp.requests[0].operation is Close
            &&& start.has_room(CHUNK as nat)
            &&& pool == start.cycled(1)
            &&& out == source
        },
        Step::Done => {
            &&& lp.requests.len() == 0
            &&& start.has_room(CHUNK as nat)
            &&& pool == start.cycled(1)
            &&& out == source
        },
        Step::Failed(stage, e) => {
            &&& lp.requests.len() == 0
            &&& stage == Stage::Allocate
            &&& e == ErrorKind::NoMemory
            &&& !start.has_room(CHUNK as nat)
            &&& pool == start
        },
        Step::Ignored => {
            &&& Session::alone(lp, 0)
            &&& lp.issued == 1
            &&& lp.requests[0].outcome == Some(Ok::<usize, ErrorKind>(MEMORY_FILE))
            &&& lp.requests[0].operation is Open
            &&& out.len() == 0
            &&& position == 0
            &&& pool == start
        },
    }
}

/// A session together with the file that it copies, held in memory. It
/// answers the callbacks as the program does, and then answers, as the
/// operating system would, the request that the program submitted: a
/// read from the file, a buffer's capacity at a time, and a write by
/// taking its bytes.
struct Memory<'a> {
    session: Session,
    source: &'a Vec<u8>,
    out: Vec<u8>,
    position: usize,
    start: Ghost<PoolView>,
}

impl<'a> Memory<'a> {
    /// The loop with the request put back whose callback was handed out.
    spec fn before(lp: LoopView, fired: Fired) -> LoopView {
        match fired {
            Fired::Completed { id, operation, result } => LoopView {
                requests: seq![Request { id, operation, outcome: Some(result) }],
                dispatched: (lp.dispatched - 1) as nat,
                ..lp
            },
            _ => lp,
        }
    }
}

impl<'a> Handler for Memory<'a> {
    closed spec fn holds(&self, lp: LoopView, pool: PoolView) -> bool {
        &&& lp.handles.len() == 0
        &&& lp.arrivals.len() == 0
        &&& served(
            self.session.last,
            lp,
            pool,
            self.start@,
            self.out@,
            self.source@,
            self.position as int,
        )
        &&& under_way(self.session.last) ==> lp.iteration == 0 && lp.dispatched + 1 == lp.issued
            && lp.issued <= u64::MAX
        &&& self.session.last is Ignored ==> self.session.program.source is None
        &&& self.session.last is Reading || self.session.last is Writing
            || self.session.last is Closing ==> self.session.program.source == Some(
            MEMORY_FILE as i32,
        )
    }

    /// The callback is that of the one request that was in flight.
    closed spec fn accepts(&self, lp: LoopView, pool: PoolView, fired: Fired) -> bool {
        &&& fired is Completed
        &&& lp.requests.len() == 0
        &&& lp.dispatched >= 1
        &&& under_way(self.session.last)
        &&& self.holds(Self::before(lp, fired), pool)
    }

    /// The file and the pool as the run found it stay.
    closed spec fn keeps(&self, origin: &Self) -> bool {
        self.source@ == origin.source@ && self.start@ == origin.start@
    }

    fn handle(&mut self, lp: &mut Loop, pool: &mut BufferPool, fired: Fired) {
        let ghost reached = self.position as int;
        let ghost written = self.out@;
        let ghost start = self.start@;
        let step = self.session.program.dispatch(lp, pool, fired);
        self.session.last = step;
        let ghost between = lp@;
        match step {
            Step::Reading(id) => {
                let len = self.source.len();
                let from = if self.position <= len {
                    self.position
                } else {
                    len
                };
                let end: usize = if len - from > CHUNK {
                    from + CHUNK
                } else {
                    len
                };
                let chunk = slice_subrange(self.source.as_slice(), from, end);
                let ghost asked = lp@;
                let taken = lp.complete_read(id, chunk);
                proof {
                    if old(self).accepts(old(lp)@.at_rest(), old(pool)@, fired) {
                        assert(asked.position(id, 0));
                        assert(taken is Ok);
                    }
                }
                self.position = end;
            },
            Step::Writing(id) => {
                match lp.payload(id) {
                    Some(bytes) => {
                        let mut bytes = bytes;
                        let count = bytes.len();
                        self.out.append(&mut bytes);
                        let ghost asked = lp@;
                        let taken = lp.complete(id, Ok(count));
                        proof {
                            if old(self).accepts(old(lp)@.at_rest(), old(pool)@, fired) {
                                assert(asked.position(id, 0));
                                assert(taken is Ok);
                            }
                        }
                    },
                    None => {},
                }
            },
            Step::Closing(id) => {
                let ghost asked = lp@;
                let taken = lp.complete(id, Ok(0));
                proof {
                    if old(self).accepts(old(lp)@.at_rest(), old(pool)@, fired) {
                        assert(asked.position(id, 0));
                        assert(taken is Ok);
                    }
                }
            },
            _ => {},
        }
        proof {
            if old(self).accepts(old(lp)@.at_rest(), old(pool)@, fired) {
                let held = start.allocations as u64;
                let last = old(self).session.last;
                let given = Self::before(old(lp)@.at_rest(), fired);
                assert(served(last, given, old(pool)@, start, written, self.source@, reached));
                assert(self.source@.take(self.source@.len() as int) =~= self.source@);
                assert(self.source@.take(0) =~= Seq::<u8>::empty());
                if between.requests.len() == 1 {
                    assert(between.position(between.requests[0].id, 0));
                }
                if step is Reading {
                    // the next read is answered: clause by clause
                    let id = step->Reading_0;
                    let n = self.position as int - self.out@.len();
                    assert(Session::alone(lp@, id));
                    assert(self.out@.len() <= self.position <= self.source@.len());
                    assert(n <= CHUNK);
                    assert(self.position < self.source@.len() ==> n == CHUNK);
                    assert(lp@.requests[0].outcome == Some(Ok::<usize, ErrorKind>(n as usize)));
                    assert(lp@.requests[0].operation matches Operation::Read {
                        file,
                        buffer,
                        offset,
                    } && file == MEMORY_FILE && buffer.spec_id() == held && buffer.spec_capacity()
                        == CHUNK && buffer.storage().take(n) =~= self.source@.subrange(
                        self.out@.len() as int,
                        self.position as int,
                    ));
                    assert(pool@ == start.lease(held, CHUNK as nat));
                    assert(self.out@ == self.source@.take(self.out@.len() as int));
                    assert(spent(lp@.issued, self.out@.len() as int, self.source@.len(), 4));
                }
                // what holds now, by the step that was answered
                match last {
                    Step::Ignored => {
                        assert(served(
                            step,
                            lp@,
                            pool@,
                            start,
                            self.out@,
                            self.source@,
                            self.position as int,
                        ));
                    },
                    Step::Reading(_) => {
                        let chunk = self.source@.subrange(written.len() as int, reached);
                        assert(written + chunk =~= self.source@.take(reached));
                        if chunk.len() == 0 {
                            lemma_lease_give_back(start, held, CHUNK as nat);
                        }
                        assert(served(
                            step,
                            lp@,
                            pool@,
                            start,
                            self.out@,
                            self.source@,
                            self.position as int,
                        ));
                    },
                    Step::Writing(_) => {
                        assert(served(
                            step,
                            lp@,
                            pool@,
                            start,
                            self.out@,
                            self.source@,
                            self.position as int,
                        ));
                    },
                    Step::Closing(_) => {
                        assert(served(
                            step,
                            lp@,
                            pool@,
                            start,
                            self.out@,
                            self.source@,
                            self.position as int,
                        ));
                    },
                    _ => {},
                }
                assert(served(
                    step,
                    lp@.at_rest(),
                    pool@,
                    start,
                    self.out@,
                    self.source@,
                    self.position as int,
                ));
                assert(self.holds(lp@.at_rest(), pool@));
            }
        }
    }
}

/// The steps of the loop leave standing what a run in memory keeps:
/// while the program is under way, the one callback that a step can hand
/// out is that of the request in flight, which has its outcome.
proof fn lemma_memory_is_steady<'a>()
    ensures
        steady::<Memory<'a>>(),
{
    assert forall|
        handler: Memory<'a>,
        before: LoopView,
        after: LoopView,
        pool: PoolView,
        fired: Option<Fired>,
    |
        #![trigger handler.holds(before, pool), before.stepped(after, fired)]
        handler.holds(before, pool) && before.wf() && !before.running && before.stepped(
            after,
            fired,
        ) implies match fired {
        Some(callback) => handler.accepts(after, pool, callback),
        None => handler.holds(after, pool),
    } by {
        if under_way(handler.session.last) {
            assert(before.requests[0].outcome is Some);
            assert(before.any_completed());
            assert(before.requests.remove(0).len() == 0);
            match fired {
                Some(Fired::Completed { id, operation, result }) => {
                    assert(before.requests =~= seq![
                        Request { id, operation, outcome: Some(result) },
                    ]);
                    assert(Memory::before(after, fired->0) == before);
                },
                _ => {},
            }
        }
    }
}

/// Runs the program on a file that is held in memory, and returns what it
/// wrote to standard output: the bytes of the file, whatever their
/// number. The loop runs with the program as its handler until nothing
/// keeps it alive; the reads are answered from `source`, a buffer's
/// capacity at a time, and the writes are gathered. The run needs room
/// in the pool for the program's one buffer, and leaves the pool as it
/// found it.
pub fn transfer(path: String, source: &Vec<u8>, pool: &mut BufferPool) -> (r: Result<
    Vec<u8>,
    (Stage, ErrorKind),
>)
    ensures
        match r {
            Ok(out) => {
                &&& old(pool)@.has_room(CHUNK as nat)
                &&& out@ == source@
                &&& final(pool)@ == old(pool)@.cycled(1)
            },
            Err(failure) => {
                &&& !old(pool)@.has_room(CHUNK as nat)
                &&& failure == (Stage::Allocate, ErrorKind::NoMemory)
                &&& final(pool)@ == old(pool)@
            },
        },
{
    let mut lp = Loop::new();
    match lp.fs_open(path, OpenFlags::readonly(), ModeFlags::empty()) {
        Ok(id) => {
            assert(lp@.position(id, 0));
            let taken = lp.complete(id, Ok(MEMORY_FILE));
            assert(taken is Ok);
        },
        Err(_) => {},
    }
    let mut memory = Memory {
        session: Session::new(),
        source,
        out: Vec::new(),
        position: 0,
        start: Ghost(pool@),
    };
    let ghost origin = memory;
    proof {
        lemma_memory_is_steady();
    }
    assert(memory.holds(lp@, pool@) && memory.keeps(&origin));
    let _ = lp.run(RunMode::Default, &mut memory, pool);
    proof {
        assert(memory.keeps(&origin));
        if under_way(memory.session.last) {
            // a request with its outcome keeps the loop alive and ready,
            // so the run would have gone on
            assert(lp@.requests[0].outcome is Some);
            assert(lp@.alive() && lp@.any_completed());
            assert(lp@.ready());
            assert(!lp@.exhausted());
            assert(false);
        }
    }
    match memory.session.last {
        Step::Done => Ok(memory.out),
        Step::Failed(stage, e) => Err((stage, e)),
        _ => Err((Stage::Open, ErrorKind::Unknown)),
    }
}

} // verus!
