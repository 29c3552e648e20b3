//! Reading from streams: what a result means, the allocator, and what a
//! read callback gets.

use crate::buffer::{filled, Buffer, BufferPool, PoolView, ReadView};
use crate::error::ErrorKind;
use crate::handle::HandleState;
use crate::reactor::Loop;
use crate::request::Incoming;
use vstd::prelude::*;

verus! {

/// How an end of reading is to be taken.
#[derive(Clone, Copy, Debug, PartialEq, Eq, Structural)]
pub enum ReadOutcome {
    /// Bytes were read: as many as given, and more than none.
    Data(usize),
    /// Nothing was there yet. The stream is not at its end: read again.
    Again,
    /// The stream is at its end. That is no failure.
    End,
    /// Reading failed.
    Failed(ErrorKind),
}

/// What the result of a read means. A count of zero is never the end of
/// the stream: only the error that says so is.
pub open spec fn spec_classify(nread: Result<usize, ErrorKind>) -> ReadOutcome {
    match nread {
        Ok(count) => if count == 0 {
            ReadOutcome::Again
        } else {
            ReadOutcome::Data(count)
        },
        Err(e) => if e == ErrorKind::Eof {
            ReadOutcome::End
        } else {
            ReadOutcome::Failed(e)
        },
    }
}

/// What the result of a read means.
#[verifier::when_used_as_spec(spec_classify)]
pub fn classify(nread: Result<usize, ErrorKind>) -> (r: ReadOutcome)
    ensures
        r == spec_classify(nread),
{
    match nread {
        Ok(count) => if count == 0 {
            ReadOutcome::Again
        } else {
            ReadOutcome::Data(count)
        },
        Err(e) => match e {
            ErrorKind::Eof => ReadOutcome::End,
            _ => ReadOutcome::Failed(e),
        },
    }
}

/// The failure that a read callback has to report, if any: the end of the
/// stream is none.
pub open spec fn spec_failure(nread: Result<usize, ErrorKind>) -> Option<ErrorKind> {
    match nread {
        Err(e) => if e.is_failure() {
            Some(e)
        } else {
            None
        },
        Ok(_) => None,
    }
}

/// The failure that a read callback has to report, if any.
#[verifier::when_used_as_spec(spec_failure)]
pub fn failure(nread: Result<usize, ErrorKind>) -> (r: Option<ErrorKind>)
    ensures
        r == spec_failure(nread),
{
    match nread {
        Err(e) => if e.is_failure() {
            Some(e)
        } else {
            None
        },
        Ok(_) => None,
    }
}

/// The allocator of the programs: a buffer of the size that the loop
/// suggests, or none where the pool has no room for it.
pub fn alloc_buffer(_handle: usize, suggested_size: usize, pool: &mut BufferPool) -> (r: Option<
    Buffer,
>)
    ensures
        match r {
            Some(b) => {
                &&& old(pool)@.has_room(suggested_size as nat)
                &&& b.spec_id() == old(pool)@.allocations
                &&& !old(pool)@.live.dom().contains(b.spec_id())
                &&& b.spec_capacity() == suggested_size
                &&& b.spec_len() == suggested_size
                &&& final(pool)@ == old(pool)@.lease(b.spec_id(), suggested_size as nat)
            },
            None => {
                &&& !old(pool)@.has_room(suggested_size as nat)
                &&& final(pool)@ == old(pool)@
            },
        },
{
    match pool.allocate(suggested_size) {
        Ok(b) => Some(b),
        Err(_) => None,
    }
}

/// What a read callback gets for bytes that arrived, given the buffer
/// that the allocator handed out: the count and the view that holds the
/// bytes at its start. Without a buffer, or with one that cannot hold
/// the bytes, the read is abandoned, and the callback gets the error and
/// whatever buffer there was.
pub open spec fn received(
    data: Seq<u8>,
    buffer: Option<Buffer>,
    nread: Result<usize, ErrorKind>,
    view: Option<ReadView>,
) -> bool {
    match buffer {
        None => nread == Err::<usize, ErrorKind>(ErrorKind::NoBuffers) && view is None,
        Some(b) => {
            &&& view matches Some(v)
            &&& if data.len() <= b.spec_capacity() {
                &&& nread == Ok::<usize, ErrorKind>(data.len() as usize)
                &&& filled(b, v.buffer(), data)
            } else {
                &&& nread == Err::<usize, ErrorKind>(ErrorKind::NoBuffers)
                &&& v.buffer() == b
            }
        },
    }
}

/// Copies bytes that arrived into the buffer that the allocator handed
/// out, and gives what the read callback gets.
pub fn receive(data: Vec<u8>, buffer: Option<Buffer>) -> (r: (
    Result<usize, ErrorKind>,
    Option<ReadView>,
))
    ensures
        received(data@, buffer, r.0, r.1),
{
    match buffer {
        None => (Err(ErrorKind::NoBuffers), None),
        Some(b) => {
            if data.len() <= b.capacity() {
                let mut b = b;
                let count = b.fill(data.as_slice());
                assert(data@.take(count as int) == data@);
                (Ok(count), Some(b.freeze()))
            } else {
                (Err(ErrorKind::NoBuffers), Some(b.freeze()))
            }
        },
    }
}

/// The pool after the view of a read, where there was one, was released.
pub open spec fn view_released(pool: PoolView, view: Option<ReadView>) -> PoolView {
    match view {
        Some(v) => pool.released(v.buffer().spec_id(), v.buffer().spec_capacity()),
        None => pool,
    }
}

/// Gives the view of a read back to the pool, where there is one.
pub fn release_view(pool: &mut BufferPool, view: Option<ReadView>)
    ensures
        final(pool)@ == view_released(old(pool)@, view),
{
    match view {
        Some(v) => {
            pool.discard(v.into_buffer());
        },
        None => {},
    }
}

/// What `deliver` does. For bytes, the allocator is asked for a buffer of
/// `suggested_size` and the bytes are copied into it; for the end of
/// reading, the callback gets the error and no buffer.
pub open spec fn delivered(
    pool0: PoolView,
    pool1: PoolView,
    incoming: Incoming,
    suggested_size: usize,
    nread: Result<usize, ErrorKind>,
    view: Option<ReadView>,
) -> bool {
    match incoming {
        Incoming::End(e) => {
            &&& nread == Err::<usize, ErrorKind>(e)
            &&& view is None
            &&& pool1 == pool0
        },
        Incoming::Data(data) => if !pool0.has_room(suggested_size as nat) {
            &&& nread == Err::<usize, ErrorKind>(ErrorKind::NoBuffers)
            &&& view is None
            &&& pool1 == pool0
        } else {
            &&& view matches Some(v)
            &&& v.buffer().spec_id() == pool0.allocations
            &&& !pool0.live.dom().contains(v.buffer().spec_id())
            &&& v.buffer().spec_capacity() == suggested_size
            &&& v.buffer().spec_len() == suggested_size
            &&& pool1 == pool0.lease(v.buffer().spec_id(), suggested_size as nat)
            &&& if data@.len() <= suggested_size {
                &&& nread == Ok::<usize, ErrorKind>(data@.len() as usize)
                &&& v@.take(data@.len() as int) == data@
            } else {
                nread == Err::<usize, ErrorKind>(ErrorKind::NoBuffers)
            }
        },
    }
}

/// Gives what the read callback gets for something that arrived on
/// `handle`.
pub fn deliver(handle: usize, incoming: Incoming, suggested_size: usize, pool: &mut BufferPool) -> (r:
    (Result<usize, ErrorKind>, Option<ReadView>))
    ensures
        delivered(old(pool)@, final(pool)@, incoming, suggested_size, r.0, r.1),
{
    match incoming {
        Incoming::End(e) => (Err(e), None),
        Incoming::Data(data) => {
            let buffer = alloc_buffer(handle, suggested_size, pool);
            let r = receive(data, buffer);
            proof {
                if r.1 is Some && data@.len() <= suggested_size {
                    assert(r.1->0@.take(data@.len() as int) =~= data@);
                }
            }
            r
        },
    }
}

/// Requests the close of a handle unless something is in flight on it:
/// a close cancels the requests that wait, also those that the operating
/// system has carried out already. Returns whether close was requested.
pub fn close_if_free(lp: &mut Loop, handle: usize) -> (r: bool)
    ensures
        r == (old(lp)@.can_close(handle) && !old(lp)@.busy(handle)),
        final(lp)@ == old(lp)@.closing_if_free(handle),
{
    if lp.busy(handle) {
        false
    } else {
        match lp.close(handle) {
            Ok(()) => true,
            Err(_) => false,
        }
    }
}

/// Winds up a stream that came to its end: stop reading, let the writes
/// finish, then close. With nothing in flight on the handle the close is
/// requested at once. Else only the reading is stopped, and the close is
/// for the callback of the last write. Returns whether close was
/// requested.
pub fn end_reading(lp: &mut Loop, handle: usize) -> (r: bool)
    ensures
        r == (old(lp)@.can_close(handle) && !old(lp)@.busy(handle)),
        final(lp)@ == old(lp)@.ending(handle),
{
    if lp.busy(handle) {
        let _ = lp.read_stop(handle);
        false
    } else {
        close_if_free(lp, handle)
    }
}

/// Whether the handle is closing or closed.
pub fn is_shut(lp: &Loop, handle: usize) -> (r: bool)
    ensures
        r == lp@.shut(handle),
{
    match lp.state(handle) {
        Some(HandleState::Closing) => true,
        Some(HandleState::Closed) => true,
        _ => false,
    }
}

/// Whether reading was stopped on the stream.
pub fn is_stopped(lp: &Loop, handle: usize) -> (r: bool)
    ensures
        r == lp@.stopped(handle),
{
    match lp.handle(handle) {
        Some(record) => record.kind.is_stream() && !record.listening && match record.state {
            HandleState::Stopped => true,
            _ => false,
        },
        None => false,
    }
}

} // verus!
