//! The program that copies standard input to standard output and to a
//! file: every chunk that is read goes to both, each from a copy of its
//! own.

use crate::buffer::{copy_content, lemma_lease_give_back, Buffer, BufferPool, PoolView, ReadView};
use crate::error::ErrorKind;
use crate::flags::RunMode;
use crate::handle::{Handle, HandleKind, HandleState};
use crate::reactor::{steady, Handler, Loop, LoopView, SUGGESTED_CAPACITY};
use crate::request::{Arrival, Fired, Incoming, Operation, Request, STDIN, STDOUT};
use crate::stream::{
    close_if_free, deliver, delivered, failure, is_shut, release_view, view_released,
};
use vstd::prelude::*;
use vstd::slice::{slice_subrange, slice_to_vec};

verus! {

/// What `write_data` does: it copies the first `len` bytes of `content`
/// into a buffer of its own and submits a write of it on `stream`. Where
/// the write cannot be submitted the copy is released again.
pub open spec fn data_written(
    lp0: LoopView,
    lp1: LoopView,
    pool0: PoolView,
    pool1: PoolView,
    stream: usize,
    len: usize,
    content: Seq<u8>,
    r: Result<u64, ErrorKind>,
) -> bool {
    if !pool0.has_room(len as nat) {
        &&& r == Err::<u64, ErrorKind>(ErrorKind::NoMemory)
        &&& lp1 == lp0
        &&& pool1 == pool0
    } else if !lp0.can_write(stream) {
        &&& r == Err::<u64, ErrorKind>(lp0.denial(stream))
        &&& lp1 == lp0
        &&& pool1 == pool0.cycled(1)
    } else if lp0.full() {
        &&& r == Err::<u64, ErrorKind>(ErrorKind::NoMemory)
        &&& lp1 == lp0
        &&& pool1 == pool0.cycled(1)
    } else {
        &&& r == Ok::<u64, ErrorKind>(lp0.issued as u64)
        &&& lp1 == lp0.submitted(lp1.requests.last().operation)
        &&& lp1.requests.last().operation matches Operation::Send { handle, buffer }
        &&& handle == stream
        &&& buffer@ == copy_content(content, Some(len))
        &&& buffer.spec_id() == pool0.allocations
        &&& buffer.spec_capacity() == len
        &&& !pool0.live.dom().contains(buffer.spec_id())
        &&& pool1 == pool0.lease(buffer.spec_id(), len as nat)
    }
}

/// Sends the first `len` bytes of a view to `stream`, from a copy of
/// their own, so that the view can be released while the write is in
/// flight. Returns the id of the write request.
pub fn write_data(
    lp: &mut Loop,
    pool: &mut BufferPool,
    stream: usize,
    len: usize,
    view: &ReadView,
) -> (r: Result<u64, ErrorKind>)
    ensures
        data_written(old(lp)@, final(lp)@, old(pool)@, final(pool)@, stream, len, view@, r),
{
    let copy = match pool.duplicate(view, Some(len)) {
        Ok(copy) => copy,
        Err(e) => {
            return Err(e);
        },
    };
    proof {
        lemma_lease_give_back(old(pool)@, copy.spec_id(), len as nat);
    }
    match lp.write(stream, copy) {
        Ok(id) => Ok(id),
        Err((e, copy)) => {
            pool.discard(copy);
            Err(e)
        },
    }
}

/// A write that `write_data` submitted completed: its buffer is released.
/// Returns the failure to report, if the write failed.
pub fn wrote(pool: &mut BufferPool, result: Result<usize, ErrorKind>, buffer: Buffer) -> (r:
    Option<ErrorKind>)
    ensures
        r == match result {
            Ok(_) => None,
            Err(e) => Some(e),
        },
        final(pool)@ == old(pool)@.released(buffer.spec_id(), buffer.spec_capacity()),
{
    pool.discard(buffer);
    match result {
        Ok(_) => None,
        Err(e) => Some(e),
    }
}

/// The failures that one read on standard input left to report.
#[derive(Clone, Copy, Debug, PartialEq, Eq, Structural)]
pub struct Report {
    /// Reading failed. The end of the stream is no failure.
    pub read: Option<ErrorKind>,
    /// Reading could not be stopped.
    pub stop: Option<ErrorKind>,
    /// The write to standard output could not be prepared.
    pub stdout: Option<ErrorKind>,
    /// The write to the file could not be prepared.
    pub file: Option<ErrorKind>,
}

/// The error of a result, if it is one.
pub open spec fn error_of(r: Result<u64, ErrorKind>) -> Option<ErrorKind> {
    match r {
        Ok(_) => None,
        Err(e) => Some(e),
    }
}

/// What `read_stdin` does. When reading ended, at the end of the stream
/// or with a failure, reading is stopped and nothing is closed: the writes
/// that are in flight stay in flight. A count of zero changes nothing.
/// Bytes that were read go to both destinations, each from a copy of its
/// own. In every case the view is released.
pub open spec fn stdin_read(
    lp0: LoopView,
    lp1: LoopView,
    pool0: PoolView,
    pool1: PoolView,
    stdin: usize,
    stdout: usize,
    file: usize,
    nread: Result<usize, ErrorKind>,
    view: Option<ReadView>,
    report: Report,
) -> bool {
    match nread {
        Err(e) => {
            &&& report.read == failure(nread)
            &&& report.stdout is None
            &&& report.file is None
            &&& pool1 == view_released(pool0, view)
            &&& if lp0.can_read_stop(stdin) {
                &&& lp1 == lp0.with_state(stdin, HandleState::Stopped)
                &&& report.stop is None
            } else {
                &&& lp1 == lp0
                &&& report.stop == Some(lp0.denial(stdin))
            }
        },
        Ok(len) => if len == 0 || view is None {
            &&& report == (Report { read: None, stop: None, stdout: None, file: None })
            &&& lp1 == lp0
            &&& pool1 == view_released(pool0, view)
        } else {
            exists|
                lp_mid: LoopView,
                pool_mid: PoolView,
                pool_end: PoolView,
                first: Result<u64, ErrorKind>,
                second: Result<u64, ErrorKind>,
            |
                #![trigger
                    data_written(lp0, lp_mid, pool0, pool_mid, stdout, len, view->0@, first),
                    data_written(lp_mid, lp1, pool_mid, pool_end, file, len, view->0@, second)
                ]
                {
                    &&& data_written(lp0, lp_mid, pool0, pool_mid, stdout, len, view->0@, first)
                    &&& data_written(lp_mid, lp1, pool_mid, pool_end, file, len, view->0@, second)
                    &&& pool1 == view_released(pool_end, view)
                    &&& report == (Report {
                        read: None,
                        stop: None,
                        stdout: error_of(first),
                        file: error_of(second),
                    })
                }
        },
    }
}

/// A read on standard input came back.
pub fn read_stdin(
    lp: &mut Loop,
    pool: &mut BufferPool,
    stdin: usize,
    stdout: usize,
    file: usize,
    nread: Result<usize, ErrorKind>,
    view: Option<ReadView>,
) -> (report: Report)
    ensures
        stdin_read(
            old(lp)@,
            final(lp)@,
            old(pool)@,
            final(pool)@,
            stdin,
            stdout,
            file,
            nread,
            view,
            report,
        ),
{
    let mut report = Report { read: failure(nread), stop: None, stdout: None, file: None };
    match nread {
        Err(_) => {
            // The writes are asynchronous: a close here could come before
            // their callbacks and cancel writes that succeeded. Reading is
            // stopped instead, and the pipes are closed once the loop has
            // let the writes finish.
            if let Err(e) = lp.read_stop(stdin) {
                report.stop = Some(e);
            }
        },
        Ok(len) => {
            if len > 0 {
                if let Some(v) = &view {
                    let first = write_data(lp, pool, stdout, len, v);
                    if let Err(e) = first {
                        report.stdout = Some(e);
                    }
                    let second = write_data(lp, pool, file, len, v);
                    if let Err(e) = second {
                        report.file = Some(e);
                    }
                }
            }
        },
    }
    release_view(pool, view);
    report
}

/// What a callback of the program did.
#[derive(Clone, Copy, Debug, PartialEq, Eq, Structural)]
pub enum Event {
    /// A read on standard input was answered; the failures it left.
    Read(Report),
    /// A write completed and its buffer is released; the failure, if it failed.
    Wrote(Option<ErrorKind>),
    /// The callback was not one of the program's.
    Ignored,
}

/// A pipe that was opened over a descriptor, in the given state.
pub open spec fn pipe_over(descriptor: i32, state: HandleState) -> Handle {
    Handle { state, descriptor: Some(descriptor), ..Handle::fresh(HandleKind::Pipe) }
}

/// The three pipes of the program.
#[derive(Clone, Copy, Debug, PartialEq, Eq, Structural)]
pub struct Tee {
    /// The pipe that is read: standard input.
    pub stdin: usize,
    /// The first destination: standard output.
    pub stdout: usize,
    /// The second destination: the file.
    pub file: usize,
}

impl Tee {
    /// What `start` leaves of the loop: three more handles, all pipes, the
    /// first of them being read, the other two open.
    pub open spec fn started(lp0: LoopView, lp1: LoopView, tee: Tee, file: i32) -> bool {
        &&& tee.stdin == lp0.handles.len()
        &&& tee.stdout == lp0.handles.len() + 1
        &&& tee.file == lp0.handles.len() + 2
        &&& lp1 == (LoopView {
            handles: lp0.handles.push(pipe_over(STDIN, HandleState::Active)).push(
                pipe_over(STDOUT, HandleState::Stopped),
            ).push(pipe_over(file, HandleState::Stopped)),
            ..lp0
        })
    }

    /// Makes the three pipes, over standard input, standard output and the
    /// descriptor of the file, and starts reading standard input. Fails
    /// where the descriptor of the file is none.
    pub fn start(lp: &mut Loop, file: i32) -> (r: Result<Tee, ErrorKind>)
        ensures
            match r {
                Ok(tee) => file >= 0 && Self::started(old(lp)@, final(lp)@, tee, file),
                Err(e) => file < 0 && e == ErrorKind::InvalidState && final(lp)@ == old(lp)@,
            },
    {
        if file < 0 {
            return Err(ErrorKind::InvalidState);
        }
        let stdin = lp.pipe();
        let stdout = lp.pipe();
        let target = lp.pipe();
        let _ = lp.open(stdin, STDIN);
        let _ = lp.read_start(stdin);
        let _ = lp.open(stdout, STDOUT);
        let _ = lp.open(target, file);
        let tee = Tee { stdin, stdout, file: target };
        assert(lp@.handles =~= old(lp)@.handles.push(pipe_over(STDIN, HandleState::Active)).push(
            pipe_over(STDOUT, HandleState::Stopped),
        ).push(pipe_over(file, HandleState::Stopped)));
        Ok(tee)
    }

    /// Requests the close of each of the three pipes on which nothing is
    /// in flight; a pipe with a write in flight is left as it is, so that
    /// no write is canceled. Succeeds when all three pipes are closing or
    /// closed; else the loop has to let the writes finish, and the call is
    /// to be made again. The close callbacks fire in the next run.
    pub fn finish(&self, lp: &mut Loop) -> (r: Result<(), ErrorKind>)
        ensures
            final(lp)@ == Self::closing_all(old(lp)@, *self),
            match r {
                Ok(()) => Self::all_shut(final(lp)@, *self),
                Err(e) => e == ErrorKind::Busy && !Self::all_shut(final(lp)@, *self),
            },
    {
        let _ = close_if_free(lp, self.stdin);
        let _ = close_if_free(lp, self.stdout);
        let _ = close_if_free(lp, self.file);
        if is_shut(lp, self.stdin) && is_shut(lp, self.stdout) && is_shut(lp, self.file) {
            Ok(())
        } else {
            Err(ErrorKind::Busy)
        }
    }

    /// The loop after close was requested of the three pipes, of each
    /// unless something is in flight on it.
    pub open spec fn closing_all(lp: LoopView, tee: Tee) -> LoopView {
        lp.closing_if_free(tee.stdin).closing_if_free(tee.stdout).closing_if_free(tee.file)
    }

    /// Whether the three pipes are closing or closed.
    pub open spec fn all_shut(lp: LoopView, tee: Tee) -> bool {
        lp.shut(tee.stdin) && lp.shut(tee.stdout) && lp.shut(tee.file)
    }

    /// What `dispatch` does with a callback.
    pub open spec fn reacts(
        self,
        lp0: LoopView,
        lp1: LoopView,
        pool0: PoolView,
        pool1: PoolView,
        fired: Fired,
        event: Event,
    ) -> bool {
        match fired {
            Fired::Read { handle, incoming } => if handle == self.stdin {
                exists|pool_mid: PoolView, nread: Result<usize, ErrorKind>, view: Option<ReadView>|
                    #![trigger delivered(pool0, pool_mid, incoming, SUGGESTED_CAPACITY, nread, view)]
                    {
                        &&& delivered(pool0, pool_mid, incoming, SUGGESTED_CAPACITY, nread, view)
                        &&& event matches Event::Read(report)
                        &&& stdin_read(
                            lp0,
                            lp1,
                            pool_mid,
                            pool1,
                            self.stdin,
                            self.stdout,
                            self.file,
                            nread,
                            view,
                            report,
                        )
                    }
            } else {
                event == Event::Ignored && lp1 == lp0 && pool1 == pool0
            },
            Fired::Completed { operation: Operation::Send { buffer, .. }, result, .. } => {
                &&& event == Event::Wrote(
                    match result {
                        Ok(_) => None,
                        Err(e) => Some(e),
                    },
                )
                &&& lp1 == lp0
                &&& pool1 == pool0.released(buffer.spec_id(), buffer.spec_capacity())
            },
            Fired::Completed { operation: Operation::Read { buffer, .. }, .. } => {
                &&& event == Event::Ignored
                &&& lp1 == lp0
                &&& pool1 == pool0.released(buffer.spec_id(), buffer.spec_capacity())
            },
            Fired::Completed { operation: Operation::Write { buffer, .. }, .. } => {
                &&& event == Event::Ignored
                &&& lp1 == lp0
                &&& pool1 == pool0.released(buffer.spec_id(), buffer.spec_capacity())
            },
            _ => event == Event::Ignored && lp1 == lp0 && pool1 == pool0,
        }
    }

    /// Answers a callback that the loop handed out with the function of
    /// the program that belongs to it. A buffer that comes with a callback
    /// which is none of the program's goes back to the pool.
    pub fn dispatch(&self, lp: &mut Loop, pool: &mut BufferPool, fired: Fired) -> (event: Event)
        ensures
            self.reacts(old(lp)@, final(lp)@, old(pool)@, final(pool)@, fired, event),
    {
        match fired {
            Fired::Read { handle, incoming } => {
                if handle == self.stdin {
                    let (nread, view) = deliver(handle, incoming, SUGGESTED_CAPACITY, pool);
                    let report = read_stdin(
                        lp,
                        pool,
                        self.stdin,
                        self.stdout,
                        self.file,
                        nread,
                        view,
                    );
                    Event::Read(report)
                } else {
                    Event::Ignored
                }
            },
            Fired::Completed { id, operation, result } => match operation {
                Operation::Send { buffer, .. } => Event::Wrote(wrote(pool, result, buffer)),
                Operation::Read { buffer, .. } => {
                    pool.discard(buffer);
                    Event::Ignored
                },
                Operation::Write { buffer, .. } => {
                    pool.discard(buffer);
                    Event::Ignored
                },
                _ => Event::Ignored,
            },
            _ => Event::Ignored,
        }
    }
}

impl Tee {
    /// Whether the request is a write of the program, on one of its two
    /// destinations, from a buffer that is live in the pool.
    pub open spec fn lent(self, pool: PoolView, operation: Operation) -> bool {
        &&& operation matches Operation::Send { handle, buffer }
        &&& handle == self.stdout || handle == self.file
        &&& pool.holds(buffer.spec_id(), buffer.spec_capacity())
    }

    /// Whether the requests in flight are writes of the program, each
    /// from a live buffer of its own.
    pub open spec fn apart(self, lp: LoopView, pool: PoolView) -> bool {
        &&& forall|i: int|
            0 <= i < lp.requests.len() ==> self.lent(pool, (#[trigger] lp.requests[i]).operation)
        &&& forall|i: int, j: int|
            0 <= i < j < lp.requests.len() ==> (
            #[trigger] lp.requests[i]).operation->Send_buffer.spec_id()
                != (#[trigger] lp.requests[j]).operation->Send_buffer.spec_id()
    }

    /// What the program keeps of a loop and a pool that it has to
    /// itself: the requests in flight are its writes, each from a live
    /// buffer of its own, and the buffers that were allocated and not
    /// released are as many as the writes in flight. So no buffer is
    /// released while a write works on it, none is released twice, and
    /// with no write in flight every buffer has been released.
    pub open spec fn owning(self, lp: LoopView, pool: PoolView) -> bool {
        &&& self.apart(lp, pool)
        &&& pool.allocations == pool.releases + lp.requests.len()
    }

    /// The same, with one more live buffer that belongs to no request in
    /// flight: the view of a read, or the buffer of a write whose
    /// callback is being answered.
    pub open spec fn owning_but(
        self,
        lp: LoopView,
        pool: PoolView,
        spare: u64,
        capacity: nat,
    ) -> bool {
        &&& self.apart(lp, pool)
        &&& pool.allocations == pool.releases + lp.requests.len() + 1
        &&& pool.holds(spare, capacity)
        &&& forall|i: int|
            0 <= i < lp.requests.len() ==> (
            #[trigger] lp.requests[i]).operation->Send_buffer.spec_id() != spare
    }
}

/// The release of the spare buffer leaves every write its own.
pub proof fn lemma_release_keeps_owning(
    tee: Tee,
    lp: LoopView,
    pool: PoolView,
    spare: u64,
    capacity: nat,
)
    requires
        tee.owning_but(lp, pool, spare, capacity),
    ensures
        tee.owning(lp, pool.released(spare, capacity)),
{
    let after = pool.released(spare, capacity);
    assert forall|i: int| 0 <= i < lp.requests.len() implies tee.lent(
        after,
        (#[trigger] lp.requests[i]).operation,
    ) by {
        assert(tee.lent(pool, lp.requests[i].operation));
    }
}

/// A write of a copy, submitted or not, leaves every write its own, and
/// the spare buffer spare.
pub proof fn lemma_copy_keeps_owning(
    tee: Tee,
    lp0: LoopView,
    lp1: LoopView,
    pool0: PoolView,
    pool1: PoolView,
    stream: usize,
    len: usize,
    content: Seq<u8>,
    r: Result<u64, ErrorKind>,
    spare: u64,
    capacity: nat,
)
    requires
        tee.owning_but(lp0, pool0, spare, capacity),
        stream == tee.stdout || stream == tee.file,
        data_written(lp0, lp1, pool0, pool1, stream, len, content, r),
    ensures
        tee.owning_but(lp1, pool1, spare, capacity),
{
    let last = lp0.requests.len() as int;
    assert forall|i: int| 0 <= i < lp1.requests.len() implies tee.lent(
        pool1,
        (#[trigger] lp1.requests[i]).operation,
    ) && lp1.requests[i].operation->Send_buffer.spec_id() != spare by {
        if i < last {
            assert(tee.lent(pool0, lp0.requests[i].operation));
            assert(lp0.requests[i].operation->Send_buffer.spec_id() != spare);
        }
    }
    assert forall|i: int, j: int| 0 <= i < j < lp1.requests.len() implies (
    #[trigger] lp1.requests[i]).operation->Send_buffer.spec_id() != (
    #[trigger] lp1.requests[j]).operation->Send_buffer.spec_id() by {
        assert(tee.lent(pool0, lp0.requests[i].operation));
        if j < last {
            assert(lp0.requests[i].operation->Send_buffer.spec_id()
                != lp0.requests[j].operation->Send_buffer.spec_id());
        }
    }
}

/// A read callback of the program leaves every write its own.
pub proof fn lemma_read_keeps_owning(
    tee: Tee,
    lp0: LoopView,
    lp1: LoopView,
    pool0: PoolView,
    pool_mid: PoolView,
    pool1: PoolView,
    incoming: Incoming,
    nread: Result<usize, ErrorKind>,
    view: Option<ReadView>,
    report: Report,
)
    requires
        tee.owning(lp0, pool0),
        delivered(pool0, pool_mid, incoming, SUGGESTED_CAPACITY, nread, view),
        stdin_read(lp0, lp1, pool_mid, pool1, tee.stdin, tee.stdout, tee.file, nread, view, report),
    ensures
        tee.owning(lp1, pool1),
{
    match view {
        None => {
            assert(pool_mid == pool0);
            assert(nread is Ok ==> lp1 == lp0);
            assert(lp1.requests == lp0.requests);
        },
        Some(v) => {
            let spare = v.buffer().spec_id();
            let capacity = v.buffer().spec_capacity();
            assert forall|i: int| 0 <= i < lp0.requests.len() implies tee.lent(
                pool_mid,
                (#[trigger] lp0.requests[i]).operation,
            ) && lp0.requests[i].operation->Send_buffer.spec_id() != spare by {
                assert(tee.lent(pool0, lp0.requests[i].operation));
            }
            assert(tee.owning_but(lp0, pool_mid, spare, capacity));
            if nread is Ok && nread->Ok_0 != 0 {
                let len = nread->Ok_0;
                let (lp_mid, pool_a, pool_b, first, second) = choose|
                    lp_mid: LoopView,
                    pool_a: PoolView,
                    pool_b: PoolView,
                    first: Result<u64, ErrorKind>,
                    second: Result<u64, ErrorKind>,
                |
                    #![trigger
                        data_written(lp0, lp_mid, pool_mid, pool_a, tee.stdout, len, v@, first),
                        data_written(lp_mid, lp1, pool_a, pool_b, tee.file, len, v@, second)
                    ]
                    {
                        &&& data_written(lp0, lp_mid, pool_mid, pool_a, tee.stdout, len, v@, first)
                        &&& data_written(lp_mid, lp1, pool_a, pool_b, tee.file, len, v@, second)
                        &&& pool1 == view_released(pool_b, view)
                        &&& report == (Report {
                            read: None,
                            stop: None,
                            stdout: error_of(first),
                            file: error_of(second),
                        })
                    };
                lemma_copy_keeps_owning(
                    tee,
                    lp0,
                    lp_mid,
                    pool_mid,
                    pool_a,
                    tee.stdout,
                    len,
                    v@,
                    first,
                    spare,
                    capacity,
                );
                lemma_copy_keeps_owning(
                    tee,
                    lp_mid,
                    lp1,
                    pool_a,
                    pool_b,
                    tee.file,
                    len,
                    v@,
                    second,
                    spare,
                    capacity,
                );
                lemma_release_keeps_owning(tee, lp1, pool_b, spare, capacity);
            } else {
                assert(lp1.requests == lp0.requests);
                assert(tee.owning_but(lp1, pool_mid, spare, capacity));
                lemma_release_keeps_owning(tee, lp1, pool_mid, spare, capacity);
            }
        },
    }
}

impl Handler for Tee {
    /// Every write in flight has a live buffer of its own.
    open spec fn holds(&self, lp: LoopView, pool: PoolView) -> bool {
        self.owning(lp, pool)
    }

    /// The callback of a request is that of a write of the program, whose
    /// buffer is live and belongs to no other write.
    open spec fn accepts(&self, lp: LoopView, pool: PoolView, fired: Fired) -> bool {
        match fired {
            Fired::Completed { operation, .. } => {
                &&& operation matches Operation::Send { buffer, .. }
                &&& self.owning_but(lp, pool, buffer.spec_id(), buffer.spec_capacity())
            },
            _ => self.owning(lp, pool),
        }
    }

    /// The program stays the one it was.
    open spec fn keeps(&self, origin: &Self) -> bool {
        *self == *origin
    }

    /// Answers the callback as `dispatch` does.
    fn handle(&mut self, lp: &mut Loop, pool: &mut BufferPool, fired: Fired)
        ensures
            *final(self) == *old(self),
            exists|event: Event|
                old(self).reacts(old(lp)@, final(lp)@, old(pool)@, final(pool)@, fired, event),
    {
        let ghost given = fired;
        let event = self.dispatch(lp, pool, fired);
        proof {
            let lp0 = old(lp)@;
            let pool0 = old(pool)@;
            if self.accepts(lp0.at_rest(), pool0, given) {
                assert(lp0.at_rest().requests == lp0.requests);
                match given {
                    Fired::Completed { operation, .. } => {
                        let buffer = operation->Send_buffer;
                        assert(self.owning_but(lp0, pool0, buffer.spec_id(), buffer.spec_capacity()));
                        lemma_release_keeps_owning(
                            *self,
                            lp0,
                            pool0,
                            buffer.spec_id(),
                            buffer.spec_capacity(),
                        );
                    },
                    Fired::Read { handle, incoming } => {
                        assert(self.owning(lp0, pool0));
                        if handle == self.stdin {
                            let (pool_mid, nread, view) = choose|
                                pool_mid: PoolView,
                                nread: Result<usize, ErrorKind>,
                                view: Option<ReadView>,
                            |
                                #![trigger
                                    delivered(pool0, pool_mid, incoming, SUGGESTED_CAPACITY, nread, view)
                                ]
                                {
                                    &&& delivered(
                                        pool0,
                                        pool_mid,
                                        incoming,
                                        SUGGESTED_CAPACITY,
                                        nread,
                                        view,
                                    )
                                    &&& event matches Event::Read(report)
                                    &&& stdin_read(
                                        lp0,
                                        lp@,
                                        pool_mid,
                                        pool@,
                                        self.stdin,
                                        self.stdout,
                                        self.file,
                                        nread,
                                        view,
                                        report,
                                    )
                                };
                            lemma_read_keeps_owning(
                                *self,
                                lp0,
                                lp@,
                                pool0,
                                pool_mid,
                                pool@,
                                incoming,
                                nread,
                                view,
                                event->Read_0,
                            );
                        }
                    },
                    _ => {
                        assert(self.owning(lp0, pool0));
                    },
                }
                assert(self.owning(lp@, pool@));
                assert(lp@.at_rest().requests == lp@.requests);
            }
        }
    }
}

/// The steps of the loop leave standing what the program keeps: the
/// callback of a write comes with the buffer of that write, which is
/// live and belongs to no write that is still in flight. So a run that
/// begins with every write on a live buffer of its own ends so.
pub proof fn lemma_tee_is_steady()
    ensures
        steady::<Tee>(),
{
    assert forall|
        handler: Tee,
        before: LoopView,
        after: LoopView,
        pool: PoolView,
        fired: Option<Fired>,
    |
        #![trigger handler.holds(before, pool), before.stepped(after, fired)]
        handler.holds(before, pool) && before.wf() && !before.running && before.stepped(
            after,
            fired,
        ) implies match fired {
        Some(callback) => handler.accepts(after, pool, callback),
        None => handler.holds(after, pool),
    } by {
        match fired {
            Some(Fired::Completed { id, operation, result }) => {
                let i = choose|i: int|
                    {
                        &&& before.completed_first(i)
                        &&& before.requests[i] == (Request { id, operation, outcome: Some(result) })
                        &&& after == before.after_completion(i).counted()
                    };
                assert(handler.lent(pool, before.requests[i].operation));
                let spare = operation->Send_buffer.spec_id();
                assert forall|j: int| 0 <= j < after.requests.len() implies handler.lent(
                    pool,
                    (#[trigger] after.requests[j]).operation,
                ) && after.requests[j].operation->Send_buffer.spec_id() != spare by {
                    let k = if j < i { j } else { j + 1 };
                    assert(handler.lent(pool, before.requests[k].operation));
                    if k < i {
                        assert(before.requests[k].operation->Send_buffer.spec_id()
                            != before.requests[i].operation->Send_buffer.spec_id());
                    } else {
                        assert(before.requests[i].operation->Send_buffer.spec_id()
                            != before.requests[k].operation->Send_buffer.spec_id());
                    }
                }
                assert forall|j: int, k: int| 0 <= j < k < after.requests.len() implies (
                #[trigger] after.requests[j]).operation->Send_buffer.spec_id() != (
                #[trigger] after.requests[k]).operation->Send_buffer.spec_id() by {
                    let x = if j < i { j } else { j + 1 };
                    let y = if k < i { k } else { k + 1 };
                    assert(before.requests[x].operation->Send_buffer.spec_id()
                        != before.requests[y].operation->Send_buffer.spec_id());
                }
            },
            Some(Fired::Read { handle, incoming }) => {
                let i = choose|i: int|
                    {
                        &&& before.delivered_first(i)
                        &&& before.arrivals[i] == (Arrival { handle, incoming })
                        &&& after == (LoopView {
                            arrivals: before.arrivals.remove(i),
                            ..before
                        }).counted()
                    };
                assert(after.requests == before.requests);
            },
            _ => {
                assert(after.requests == before.requests);
            },
        }
    }
}

impl Tee {
    /// Runs the loop with the program as its handler. Where every write
    /// in flight had a live buffer of its own before the run, it is so
    /// after the run.
    pub fn run(&mut self, lp: &mut Loop, pool: &mut BufferPool, mode: RunMode) -> (r: Result<
        bool,
        ErrorKind,
    >)
        ensures
            match r {
                Err(e) => {
                    &&& e == ErrorKind::Busy
                    &&& old(lp)@.running
                    &&& final(lp)@ == old(lp)@
                    &&& *final(self) == *old(self)
                    &&& final(pool)@ == old(pool)@
                },
                Ok(alive) => {
                    &&& !old(lp)@.running
                    &&& !final(lp)@.running
                    &&& alive == final(lp)@.alive()
                    &&& final(lp)@.iteration >= old(lp)@.iteration
                    &&& final(lp)@.dispatched >= old(lp)@.dispatched
                    &&& final(lp)@.exhausted() || if mode == RunMode::Default {
                        !final(lp)@.alive() || !final(lp)@.ready()
                    } else {
                        final(lp)@.iteration > old(lp)@.iteration
                    }
                    &&& *final(self) == *old(self)
                    &&& old(self).owning(old(lp)@, old(pool)@) ==> final(self).owning(
                        final(lp)@,
                        final(pool)@,
                    )
                },
            },
    {
        let ghost origin = *self;
        proof {
            lemma_tee_is_steady();
        }
        assert(self.keeps(&origin));
        lp.run(mode, self, pool)
    }
}

/// The descriptor under which a run in memory knows its file.
pub const MEMORY_FILE: i32 = 3;

/// What a run in memory returns: what reached each destination, and how
/// many reads brought bytes.
#[derive(Debug, PartialEq, Eq)]
pub struct Copies {
    pub stdout: Vec<u8>,
    pub file: Vec<u8>,
    pub reads: usize,
}

/// A report without a failure.
pub open spec fn quiet() -> Report {
    Report { read: None, stop: None, stdout: None, file: None }
}

/// The three pipes as `start` leaves them on a new loop, with standard
/// input in the given state.
pub open spec fn piped(lp: LoopView, tee: Tee, stdin: HandleState) -> bool {
    &&& tee == (Tee { stdin: 0, stdout: 1, file: 2 })
    &&& lp.handles.len() == 3
    &&& lp.handles[0] == pipe_over(STDIN, stdin)
    &&& lp.handles[1] == pipe_over(STDOUT, HandleState::Stopped)
    &&& lp.handles[2] == pipe_over(MEMORY_FILE, HandleState::Stopped)
}

/// Whether the pool has room for a run in memory on an input of `len`
/// bytes. An empty input needs none. Else the run needs, at once, the
/// buffer of one read and two copies of what the longest read brings,
/// and an id for each of the three buffers of every read.
pub open spec fn fits(pool: PoolView, len: nat) -> bool {
    len == 0 || {
        &&& pool.outstanding + SUGGESTED_CAPACITY + 2 * longest_read(len) <= pool.budget
        &&& pool.allocations + 3 * reads_of(len) <= u64::MAX
    }
}

/// How many reads bring an input of `len` bytes: each brings as many
/// bytes as the loop suggests for one read, the last one what is left.
pub open spec fn reads_of(len: nat) -> nat {
    if len == 0 {
        0
    } else {
        ((len - 1) / (SUGGESTED_CAPACITY as int) + 1) as nat
    }
}

/// The most bytes that one read brings of an input of `len` bytes.
pub open spec fn longest_read(len: nat) -> nat {
    if len < SUGGESTED_CAPACITY {
        len
    } else {
        SUGGESTED_CAPACITY as nat
    }
}

/// Where the pool has room and the pipes are open, a read that brought
/// bytes leaves two writes in flight, one on each destination, each with
/// the bytes of the read in a buffer of its own, and nothing else changed.
proof fn lemma_chunk_fans_out(
    tee: Tee,
    lp0: LoopView,
    lp1: LoopView,
    pool0: PoolView,
    pool1: PoolView,
    data: Vec<u8>,
    event: Event,
)
    requires
        tee.reacts(
            lp0,
            lp1,
            pool0,
            pool1,
            Fired::Read { handle: tee.stdin, incoming: Incoming::Data(data) },
            event,
        ),
        0 < data@.len() <= SUGGESTED_CAPACITY,
        piped(lp0, tee, HandleState::Active),
        lp0.requests.len() == 0,
        lp0.issued + 2 < u64::MAX,
        pool0.outstanding + SUGGESTED_CAPACITY + 2 * data@.len() <= pool0.budget,
        pool0.allocations + 3 <= u64::MAX,
    ensures
        event == Event::Read(quiet()),
        lp1 == (LoopView { requests: lp1.requests, issued: lp0.issued + 2, ..lp0 }),
        lp1.requests.len() == 2,
        lp1.requests[0].id == lp0.issued,
        lp1.requests[1].id == lp0.issued + 1,
        lp1.requests[0].outcome is None,
        lp1.requests[1].outcome is None,
        lp1.requests[0].operation matches Operation::Send { handle, buffer } && handle
            == tee.stdout && buffer@ == data@ && buffer.spec_id() == pool0.allocations + 1
            && buffer.spec_capacity() == data@.len(),
        lp1.requests[1].operation matches Operation::Send { handle, buffer } && handle == tee.file
            && buffer@ == data@ && buffer.spec_id() == pool0.allocations + 2
            && buffer.spec_capacity() == data@.len(),
        pool1.released((pool0.allocations + 1) as u64, data@.len()).released(
            (pool0.allocations + 2) as u64,
            data@.len(),
        ) == pool0.cycled(3),
{
    let incoming = Incoming::Data(data);
    let (pool_mid, nread, view) = choose|
        pool_mid: PoolView,
        nread: Result<usize, ErrorKind>,
        view: Option<ReadView>,
    |
        #![trigger delivered(pool0, pool_mid, incoming, SUGGESTED_CAPACITY, nread, view)]
        {
            &&& delivered(pool0, pool_mid, incoming, SUGGESTED_CAPACITY, nread, view)
            &&& event matches Event::Read(report)
            &&& stdin_read(
                lp0,
                lp1,
                pool_mid,
                pool1,
                tee.stdin,
                tee.stdout,
                tee.file,
                nread,
                view,
                report,
            )
        };
    let len = data@.len() as usize;
    let v = view->0;
    let report = event->Read_0;
    let (lp_mid, pool_a, pool_b, first, second) = choose|
        lp_mid: LoopView,
        pool_a: PoolView,
        pool_b: PoolView,
        first: Result<u64, ErrorKind>,
        second: Result<u64, ErrorKind>,
    |
        #![trigger
            data_written(lp0, lp_mid, pool_mid, pool_a, tee.stdout, len, v@, first),
            data_written(lp_mid, lp1, pool_a, pool_b, tee.file, len, v@, second)
        ]
        {
            &&& data_written(lp0, lp_mid, pool_mid, pool_a, tee.stdout, len, v@, first)
            &&& data_written(lp_mid, lp1, pool_a, pool_b, tee.file, len, v@, second)
            &&& pool1 == view_released(pool_b, view)
            &&& report == (Report {
                read: None,
                stop: None,
                stdout: error_of(first),
                file: error_of(second),
            })
        };
    // the view and the two copies are gone again: the pool holds what it held
    let b = (pool0.allocations + 1) as u64;
    let c = (pool0.allocations + 2) as u64;
    assert(pool1.released(b, data@.len()).released(c, data@.len()).live =~= pool0.live);
}

/// Where a run in memory stands between two callbacks.
#[derive(Clone, Copy, Debug, PartialEq, Eq, Structural)]
enum Phase {
    /// Bytes of the input are posted and wait for their read callback.
    Fed,
    /// The two writes of a read have their outcomes; their callbacks are due.
    Written,
    /// The callback of the first write has fired; that of the second is due.
    Half,
    /// The end of the input is posted and waits for its read callback.
    Last,
    /// Close is requested of the three pipes.
    Closing,
    /// The three pipes are closed.
    Done,
}

/// The program together with its input and with what reached its two
/// destinations, all held in memory. It answers the callbacks as the
/// program does, and then does what the operating system and the main
/// program would: it takes the bytes of the two writes of a read, the
/// second before the first, posts the next bytes of the input when both
/// callbacks have fired, and at the end of the input closes the pipes.
struct Feed<'a> {
    tee: Tee,
    source: &'a Vec<u8>,
    stdout: Vec<u8>,
    file: Vec<u8>,
    position: usize,
    reads: usize,
    phase: Phase,
    start: Ghost<PoolView>,
}

impl<'a> Feed<'a> {
    /// The loop as it was before the step that handed out `fired`.
    spec fn undone(lp: LoopView, fired: Fired) -> LoopView {
        match fired {
            Fired::Completed { id, operation, result } => LoopView {
                requests: seq![Request { id, operation, outcome: Some(result) }] + lp.requests,
                dispatched: (lp.dispatched - 1) as nat,
                ..lp
            },
            Fired::Read { handle, incoming } => LoopView {
                arrivals: seq![Arrival { handle, incoming }] + lp.arrivals,
                dispatched: (lp.dispatched - 1) as nat,
                ..lp
            },
            Fired::Closed { handle } => LoopView {
                handles: lp.handles.update(
                    handle as int,
                    lp.handles[handle as int].at(HandleState::Closing),
                ),
                cursor: handle as nat,
                dispatched: (lp.dispatched - 1) as nat,
                ..lp
            },
            _ => lp,
        }
    }

    /// Whether the request at place `i` is a write on `handle` that has
    /// its outcome, from a buffer of this id and capacity.
    spec fn answered(
        lp: LoopView,
        i: int,
        id: int,
        handle: usize,
        buffer: int,
        capacity: int,
    ) -> bool {
        &&& lp.requests[i].id == id
        &&& lp.requests[i].outcome is Some
        &&& lp.requests[i].operation matches Operation::Send { handle: to, buffer: b }
        &&& to == handle
        &&& b.spec_id() == buffer
        &&& b.spec_capacity() == capacity
    }

    /// What holds between the callbacks of a run in memory.
    spec fn fed(&self, lp: LoopView, pool: PoolView) -> bool {
        let start = self.start@;
        let source = self.source@;
        let written = self.stdout@.len() as int;
        let done = 3 * self.reads as nat;
        let first = (start.allocations + done + 1) as int;
        let size = SUGGESTED_CAPACITY as int;
        let was = self.reads * size;
        &&& self.tee == (Tee { stdin: 0, stdout: 1, file: 2 })
        &&& lp.handles.len() == 3
        &&& self.stdout@ == self.file@
        &&& self.stdout@ == source.take(written)
        &&& written <= self.position <= source.len()
        &&& fits(start, source.len())
        &&& self.phase != Phase::Closing && self.phase != Phase::Done ==> {
            &&& piped(lp, self.tee, HandleState::Active)
            &&& lp.iteration == 0
            &&& lp.cursor == 0
            &&& self.reads <= reads_of(source.len())
        }
        &&& match self.phase {
            Phase::Fed => {
                &&& lp.requests.len() == 0
                &&& lp.arrivals.len() == 1
                &&& lp.arrivals[0].handle == 0
                &&& lp.arrivals[0].incoming matches Incoming::Data(d)
                &&& d@ == source.subrange(written, self.position as int)
                &&& written == was
                &&& written < self.position
                &&& self.position - written <= size
                &&& self.position < source.len() ==> self.position - written == size
                &&& pool == start.cycled(done)
                &&& lp.issued == 2 * self.reads
                &&& lp.dispatched == done
            },
            Phase::Written => {
                &&& lp.arrivals.len() == 0
                &&& lp.requests.len() == 2
                &&& Self::answered(lp, 0, 2 * self.reads, 1, first, written - was)
                &&& Self::answered(lp, 1, 2 * self.reads + 1, 2, first + 1, written - was)
                &&& pool.released(first as u64, (written - was) as nat).released(
                    (first + 1) as u64,
                    (written - was) as nat,
                ) == start.cycled(done + 3)
                &&& written == self.position
                &&& was < written
                &&& written - was <= size
                &&& written < source.len() ==> written - was == size
                &&& lp.issued == 2 * self.reads + 2
                &&& lp.dispatched == done + 1
            },
            Phase::Half => {
                &&& lp.arrivals.len() == 0
                &&& lp.requests.len() == 1
                &&& Self::answered(lp, 0, 2 * self.reads + 1, 2, first + 1, written - was)
                &&& pool.released((first + 1) as u64, (written - was) as nat) == start.cycled(
                    done + 3,
                )
                &&& written == self.position
                &&& was < written
                &&& written - was <= size
                &&& written < source.len() ==> written - was == size
                &&& lp.issued == 2 * self.reads + 2
                &&& lp.dispatched == done + 2
            },
            Phase::Last => {
                &&& lp.requests.len() == 0
                &&& lp.arrivals.len() == 1
                &&& lp.arrivals[0].handle == 0
                &&& lp.arrivals[0].incoming is End
                &&& written == source.len()
                &&& self.reads == reads_of(source.len())
                &&& pool == start.cycled(done)
                &&& lp.issued == 2 * self.reads
                &&& lp.dispatched == done
            },
            Phase::Closing => {
                &&& lp.requests.len() == 0
                &&& lp.arrivals.len() == 0
                &&& written == source.len()
                &&& self.reads == reads_of(source.len())
                &&& pool == start.cycled(done)
                &&& lp.iteration <= 1
                &&& lp.cursor < 3
                &&& lp.iteration == 0 ==> lp.cursor == 0
                &&& lp.dispatched == done + 1 + lp.cursor
                &&& forall|h: int|
                    0 <= h < 3 ==> (#[trigger] lp.handles[h]).closed_in == 0
                        && !lp.handles[h].listening && lp.handles[h].kind == HandleKind::Pipe
                        && lp.handles[h].state == if h < lp.cursor {
                        HandleState::Closed
                    } else {
                        HandleState::Closing
                    }
            },
            Phase::Done => {
                &&& lp.requests.len() == 0
                &&& written == source.len()
                &&& self.reads == reads_of(source.len())
                &&& pool == start.cycled(done)
                &&& forall|h: int|
                    0 <= h < 3 ==> (#[trigger] lp.handles[h]).state == HandleState::Closed
            },
        }
    }
}

impl<'a> Handler for Feed<'a> {
    closed spec fn holds(&self, lp: LoopView, pool: PoolView) -> bool {
        self.fed(lp, pool)
    }

    /// The callback is the one that the phase waits for.
    closed spec fn accepts(&self, lp: LoopView, pool: PoolView, fired: Fired) -> bool {
        &&& lp.dispatched >= 1
        &&& self.fed(Self::undone(lp, fired), pool)
        &&& match self.phase {
            Phase::Fed => fired is Read,
            Phase::Last => fired is Read,
            Phase::Written => fired is Completed,
            Phase::Half => fired is Completed,
            Phase::Closing => {
                &&& fired matches Fired::Closed { handle }
                &&& handle < 3
                &&& lp.handles.len() == 3
                &&& lp.cursor == handle + 1
                &&& lp.iteration == 1
                &&& lp.handles[handle as int].state == HandleState::Closed
            },
            Phase::Done => false,
        }
    }

    /// The input and the pool as the run found it stay.
    closed spec fn keeps(&self, origin: &Self) -> bool {
        self.source@ == origin.source@ && self.start@ == origin.start@
    }

    fn handle(&mut self, lp: &mut Loop, pool: &mut BufferPool, fired: Fired) {
        match self.phase {
            Phase::Fed => self.after_read(lp, pool, fired),
            Phase::Written => self.after_first_write(lp, pool, fired),
            Phase::Half => self.after_second_write(lp, pool, fired),
            Phase::Last => self.after_end(lp, pool, fired),
            Phase::Closing => self.after_close(lp, pool, fired),
            Phase::Done => {
                let _ = self.tee.dispatch(lp, pool, fired);
            },
        }
    }
}

impl<'a> Feed<'a> {
    /// The program's answer to a read of data, and then the two
    /// destinations taking their bytes, the second before the first.
    fn after_read(&mut self, lp: &mut Loop, pool: &mut BufferPool, fired: Fired)
        requires
            old(self).phase == Phase::Fed,
        ensures
            old(self).accepts(old(lp)@.at_rest(), old(pool)@, fired) ==> final(self).holds(
                final(lp)@.at_rest(),
                final(pool)@,
            ),
            final(self).source@ == old(self).source@,
            final(self).start@ == old(self).start@,
            final(lp)@.running == old(lp)@.running,
            final(lp)@.iteration >= old(lp)@.iteration,
            final(lp)@.dispatched >= old(lp)@.dispatched,
    {
        let ghost before = *self;
        let ghost lp0 = lp@.at_rest();
        let ghost pool0 = pool@;
        let ghost given = fired;
        let event = self.tee.dispatch(lp, pool, fired);
        let ghost mid = lp@;
        proof {
            if before.accepts(lp0, pool0, given) {
                let was = Self::undone(lp0, given);
                assert(was.arrivals[0] == (Arrival {
                    handle: given->Read_handle,
                    incoming: given->Read_incoming,
                }));
                lemma_chunk_fans_out(
                    self.tee,
                    old(lp)@,
                    mid,
                    pool0,
                    pool@,
                    given->Read_incoming->Data_0,
                    event,
                );
                assert(mid.position((2 * self.reads) as u64, 0));
                assert(mid.position((2 * self.reads + 1) as u64, 1));
                assert(!mid.overtakes(1));
            }
        }
        let issued = lp.issued();
        if issued >= 2 {
            let first = issued - 2;
            let second = issued - 1;
            match lp.payload(second) {
                Some(bytes) => {
                    let mut bytes = bytes;
                    let count = bytes.len();
                    self.file.append(&mut bytes);
                    let taken = lp.complete(second, Ok(count));
                    assert(before.accepts(lp0, pool0, given) ==> taken is Ok);
                },
                None => {},
            }
            proof {
                if before.accepts(lp0, pool0, given) {
                    assert(lp@.position(first, 0));
                }
            }
            match lp.payload(first) {
                Some(bytes) => {
                    let mut bytes = bytes;
                    let count = bytes.len();
                    self.stdout.append(&mut bytes);
                    let taken = lp.complete(first, Ok(count));
                    assert(before.accepts(lp0, pool0, given) ==> taken is Ok);
                },
                None => {},
            }
        }
        self.phase = Phase::Written;
        proof {
            if before.accepts(lp0, pool0, given) {
                let d = given->Read_incoming->Data_0;
                assert(self.source@.take(self.source@.len() as int) =~= self.source@);
                assert(before.stdout@ + d@ =~= self.source@.take(self.position as int));
                assert(self.fed(lp@.at_rest(), pool@));
            }
        }
    }

    /// The program's answer to the callback of the first write.
    fn after_first_write(&mut self, lp: &mut Loop, pool: &mut BufferPool, fired: Fired)
        requires
            old(self).phase == Phase::Written,
        ensures
            old(self).accepts(old(lp)@.at_rest(), old(pool)@, fired) ==> final(self).holds(
                final(lp)@.at_rest(),
                final(pool)@,
            ),
            final(self).source@ == old(self).source@,
            final(self).start@ == old(self).start@,
            final(lp)@.running == old(lp)@.running,
            final(lp)@.iteration >= old(lp)@.iteration,
            final(lp)@.dispatched >= old(lp)@.dispatched,
    {
        let ghost before = *self;
        let ghost lp0 = lp@.at_rest();
        let ghost pool0 = pool@;
        let ghost given = fired;
        let _ = self.tee.dispatch(lp, pool, fired);
        self.phase = Phase::Half;
        proof {
            if before.accepts(lp0, pool0, given) {
                let was = Self::undone(lp0, given);
                assert(was.requests[0] == (Request {
                    id: given->Completed_id,
                    operation: given->Completed_operation,
                    outcome: Some(given->Completed_result),
                }));
                assert(was.requests[1] == lp0.requests[0]);
                assert(self.fed(lp@.at_rest(), pool@));
            }
        }
    }

    /// The program's answer to the callback of the second write, and then
    /// the next bytes of the input, or its end.
    fn after_second_write(&mut self, lp: &mut Loop, pool: &mut BufferPool, fired: Fired)
        requires
            old(self).phase == Phase::Half,
        ensures
            old(self).accepts(old(lp)@.at_rest(), old(pool)@, fired) ==> final(self).holds(
                final(lp)@.at_rest(),
                final(pool)@,
            ),
            final(self).source@ == old(self).source@,
            final(self).start@ == old(self).start@,
            final(lp)@.running == old(lp)@.running,
            final(lp)@.iteration >= old(lp)@.iteration,
            final(lp)@.dispatched >= old(lp)@.dispatched,
    {
        let ghost before = *self;
        let ghost lp0 = lp@.at_rest();
        let ghost pool0 = pool@;
        let ghost given = fired;
        let _ = self.tee.dispatch(lp, pool, fired);
        if self.reads < usize::MAX {
            self.reads = self.reads + 1;
        }
        let len = self.source.len();
        if self.position < len {
            let end: usize = if len - self.position > SUGGESTED_CAPACITY {
                self.position + SUGGESTED_CAPACITY
            } else {
                len
            };
            let chunk = slice_to_vec(slice_subrange(self.source.as_slice(), self.position, end));
            let _ = lp.post(self.tee.stdin, Incoming::Data(chunk));
            self.position = end;
            self.phase = Phase::Fed;
        } else {
            let _ = lp.post(self.tee.stdin, Incoming::End(ErrorKind::Eof));
            self.phase = Phase::Last;
        }
        proof {
            if before.accepts(lp0, pool0, given) {
                let was = Self::undone(lp0, given);
                assert(was.requests[0] == (Request {
                    id: given->Completed_id,
                    operation: given->Completed_operation,
                    outcome: Some(given->Completed_result),
                }));
                lemma_reads_of_a_prefix(self.source@.len(), before.reads as nat);
                assert(self.fed(lp@.at_rest(), pool@));
            }
        }
    }

    /// The program's answer to the end of the input, and then the close
    /// of the three pipes: no write is in flight.
    fn after_end(&mut self, lp: &mut Loop, pool: &mut BufferPool, fired: Fired)
        requires
            old(self).phase == Phase::Last,
        ensures
            old(self).accepts(old(lp)@.at_rest(), old(pool)@, fired) ==> final(self).holds(
                final(lp)@.at_rest(),
                final(pool)@,
            ),
            final(self).source@ == old(self).source@,
            final(self).start@ == old(self).start@,
            final(lp)@.running == old(lp)@.running,
            final(lp)@.iteration >= old(lp)@.iteration,
            final(lp)@.dispatched >= old(lp)@.dispatched,
    {
        let ghost before = *self;
        let ghost lp0 = lp@.at_rest();
        let ghost pool0 = pool@;
        let ghost given = fired;
        let _ = self.tee.dispatch(lp, pool, fired);
        let _ = self.tee.finish(lp);
        self.phase = Phase::Closing;
        proof {
            if before.accepts(lp0, pool0, given) {
                let was = Self::undone(lp0, given);
                assert(was.arrivals[0] == (Arrival {
                    handle: given->Read_handle,
                    incoming: given->Read_incoming,
                }));
                assert(self.fed(lp@.at_rest(), pool@));
            }
        }
    }

    /// The program's answer to the close callback of a pipe; that of the
    /// output file is the last.
    fn after_close(&mut self, lp: &mut Loop, pool: &mut BufferPool, fired: Fired)
        requires
            old(self).phase == Phase::Closing,
        ensures
            old(self).accepts(old(lp)@.at_rest(), old(pool)@, fired) ==> final(self).holds(
                final(lp)@.at_rest(),
                final(pool)@,
            ),
            final(self).source@ == old(self).source@,
            final(self).start@ == old(self).start@,
            final(lp)@.running == old(lp)@.running,
            final(lp)@.iteration >= old(lp)@.iteration,
            final(lp)@.dispatched >= old(lp)@.dispatched,
    {
        let ghost before = *self;
        let ghost lp0 = lp@.at_rest();
        let ghost pool0 = pool@;
        let ghost given = fired;
        let closed: Option<usize> = match &fired {
            Fired::Closed { handle } => Some(*handle),
            _ => None,
        };
        let _ = self.tee.dispatch(lp, pool, fired);
        if closed == Some(self.tee.file) {
            self.phase = Phase::Done;
        }
        proof {
            if before.accepts(lp0, pool0, given) {
                let was = Self::undone(lp0, given);
                let now = lp@.at_rest();
                assert forall|h: int| 0 <= h < 3 implies (#[trigger] now.handles[h]).closed_in == 0
                    && !now.handles[h].listening && now.handles[h].kind == HandleKind::Pipe
                    && now.handles[h].state == if h < now.cursor {
                    HandleState::Closed
                } else {
                    HandleState::Closing
                } by {
                    assert(was.handles[h].closed_in == 0);
                }
                assert(self.fed(lp@.at_rest(), pool@));
            }
        }
    }
}

/// The reads that a prefix of whole reads has taken: while `done` reads of
/// full size leave bytes of the input, one more read is within the count
/// of the whole; when they leave none, they are all of them.
proof fn lemma_reads_of_a_prefix(len: nat, done: nat)
    requires
        done * SUGGESTED_CAPACITY <= len,
    ensures
        done * SUGGESTED_CAPACITY < len ==> done + 1 <= reads_of(len),
        done * SUGGESTED_CAPACITY == len ==> done == reads_of(len),
        done * SUGGESTED_CAPACITY < len && len <= (done + 1) * SUGGESTED_CAPACITY ==> done + 1
            == reads_of(len),
{
    let size = SUGGESTED_CAPACITY as int;
    let d = done as int;
    let n = len as int;
    if n > 0 {
        let q = (n - 1) / size;
        vstd::arithmetic::div_mod::lemma_fundamental_div_mod(n - 1, size);
        vstd::arithmetic::div_mod::lemma_mod_bound(n - 1, size);
        assert(d * size < n ==> d <= q) by (nonlinear_arith)
            requires
                size * q <= n - 1 < size * q + size,
                size > 0,
        ;
        assert(d * size == n ==> d == q + 1) by (nonlinear_arith)
            requires
                size * q <= n - 1 < size * q + size,
                size > 0,
        ;
        assert(n <= (d + 1) * size ==> q <= d) by (nonlinear_arith)
            requires
                size * q <= n - 1 < size * q + size,
                size > 0,
        ;
    } else {
        assert(d * size == 0 ==> d == 0) by (nonlinear_arith)
            requires
                size > 0,
        ;
    }
}

/// The steps of the loop leave standing what a run in memory keeps: in
/// every phase but the last, the one callback that a step can hand out is
/// the one that the phase waits for.
proof fn lemma_feed_is_steady<'a>()
    ensures
        steady::<Feed<'a>>(),
{
    assert forall|
        handler: Feed<'a>,
        before: LoopView,
        after: LoopView,
        pool: PoolView,
        fired: Option<Fired>,
    |
        #![trigger handler.holds(before, pool), before.stepped(after, fired)]
        handler.holds(before, pool) && before.wf() && !before.running && before.stepped(
            after,
            fired,
        ) implies match fired {
        Some(callback) => handler.accepts(after, pool, callback),
        None => handler.holds(after, pool),
    } by {
        match handler.phase {
            Phase::Fed => {
                assert(before.deliverable(0));
                if fired is Some {
                    assert(Feed::undone(after, fired->0).arrivals =~= before.arrivals);
                    assert(Feed::undone(after, fired->0) == before);
                }
            },
            Phase::Last => {
                assert(before.deliverable(0));
                if fired is Some {
                    assert(Feed::undone(after, fired->0).arrivals =~= before.arrivals);
                    assert(Feed::undone(after, fired->0) == before);
                }
            },
            Phase::Written => {
                assert(before.requests[0].outcome is Some);
                if fired is Some {
                    assert(Feed::undone(after, fired->0).requests =~= before.requests);
                    assert(Feed::undone(after, fired->0) == before);
                }
            },
            Phase::Half => {
                assert(before.requests[0].outcome is Some);
                if fired is Some {
                    assert(Feed::undone(after, fired->0).requests =~= before.requests);
                    assert(Feed::undone(after, fired->0) == before);
                }
            },
            Phase::Closing => {
                if before.iteration == 1 {
                    assert(before.due(before.cursor as int));
                }
                if fired is Some {
                    assert(Feed::undone(after, fired->0).handles =~= before.handles);
                    assert(Feed::undone(after, fired->0) == before);
                }
            },
            Phase::Done => {},
        }
    }
}

/// Runs the program on an input that is held in memory, and returns what
/// reached each destination: the bytes of the input, the same for both.
/// The loop runs with the program as its handler until nothing keeps it
/// alive. The input arrives a read at a time; the two writes of a read are
/// completed last first; at the end of the input the reading is stopped,
/// and then the three pipes are closed, each once. The run needs room
/// in the pool for one read and its two copies, and leaves the pool as
/// it found it.
pub fn fan_out(source: &Vec<u8>, pool: &mut BufferPool) -> (r: Result<Copies, ErrorKind>)
    ensures
        match r {
            Ok(copies) => {
                &&& fits(old(pool)@, source@.len())
                &&& copies.stdout@ == source@
                &&& copies.file@ == source@
                &&& copies.reads == reads_of(source@.len())
                &&& final(pool)@ == old(pool)@.cycled(3 * copies.reads as nat)
            },
            Err(e) => {
                &&& !fits(old(pool)@, source@.len())
                &&& e == ErrorKind::NoMemory
                &&& final(pool)@ == old(pool)@
            },
        },
{
    let len = source.len();
    if len > 0 {
        let rounds: usize = (len - 1) / SUGGESTED_CAPACITY + 1;
        let longest: usize = if len < SUGGESTED_CAPACITY {
            len
        } else {
            SUGGESTED_CAPACITY
        };
        let room: usize = pool.budget() - pool.outstanding();
        if room < SUGGESTED_CAPACITY || room - SUGGESTED_CAPACITY < 2 * longest
            || pool.allocations() > u64::MAX - 3 * (rounds as u64) {
            return Err(ErrorKind::NoMemory);
        }
    }
    let mut lp = Loop::new();
    let tee = match Tee::start(&mut lp, MEMORY_FILE) {
        Ok(tee) => tee,
        Err(e) => {
            return Err(e);
        },
    };
    let mut feed = Feed {
        tee,
        source,
        stdout: Vec::new(),
        file: Vec::new(),
        position: 0,
        reads: 0,
        phase: Phase::Last,
        start: Ghost(pool@),
    };
    if len > 0 {
        let end: usize = if len > SUGGESTED_CAPACITY {
            SUGGESTED_CAPACITY
        } else {
            len
        };
        let chunk = slice_to_vec(slice_subrange(source.as_slice(), 0, end));
        let _ = lp.post(tee.stdin, Incoming::Data(chunk));
        feed.position = end;
        feed.phase = Phase::Fed;
    } else {
        let _ = lp.post(tee.stdin, Incoming::End(ErrorKind::Eof));
    }
    let ghost origin = feed;
    proof {
        lemma_feed_is_steady();
        assert(source@.take(0) =~= Seq::<u8>::empty());
        assert(old(pool)@.cycled(0) == old(pool)@);
    }
    assert(feed.holds(lp@, pool@) && feed.keeps(&origin));
    let _ = lp.run(RunMode::Default, &mut feed, pool);
    proof {
        assert(feed.keeps(&origin));
        if feed.phase != Phase::Done {
            // something is due: the run would have gone on
            match feed.phase {
                Phase::Fed => {
                    assert(lp@.handles[0].state.keeps_alive());
                    assert(lp@.deliverable(0));
                },
                Phase::Last => {
                    assert(lp@.handles[0].state.keeps_alive());
                    assert(lp@.deliverable(0));
                },
                Phase::Written => {
                    assert(lp@.requests[0].outcome is Some);
                },
                Phase::Half => {
                    assert(lp@.requests[0].outcome is Some);
                },
                _ => {
                    assert(lp@.handles[lp@.cursor as int].state.keeps_alive());
                    assert(lp@.next_iteration().due(lp@.cursor as int));
                },
            }
            assert(lp@.alive() && lp@.ready());
            assert(!lp@.exhausted());
            assert(false);
        }
    }
    match lp.destroy() {
        Ok(()) => Ok(Copies { stdout: feed.stdout, file: feed.file, reads: feed.reads }),
        Err(_) => Err(ErrorKind::Busy),
    }
}

} // verus!
