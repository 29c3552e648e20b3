//! The client of the echo server: it connects, sends its greeting, and
//! reads what comes back.

use crate::buffer::{lemma_lease_give_back, Buffer, BufferPool, PoolView, ReadView};
use crate::error::ErrorKind;
use crate::flags::RunMode;
use crate::handle::{Endpoint, Handle, HandleKind, HandleState};
use crate::reactor::{steady, Handler, Loop, LoopView, SUGGESTED_CAPACITY};
use crate::request::{Arrival, Fired, Operation, Request};
use crate::stream::{
    close_if_free, deliver, delivered, end_reading, failure, release_view, view_released,
};
use vstd::prelude::*;

verus! {

/// The port that the client connects to.
pub const DEFAULT_PORT: u16 = 7000;

/// The bytes that the client sends: the text `hello world`.
pub open spec fn greeting() -> Seq<u8> {
    seq![104u8, 101u8, 108u8, 108u8, 111u8, 32u8, 119u8, 111u8, 114u8, 108u8, 100u8]
}

/// What a callback of the client did before reading started.
#[derive(Clone, Copy, Debug, PartialEq, Eq, Structural)]
pub enum Sent {
    /// The connection failed; nothing was done.
    ConnectFailed(ErrorKind),
    /// The buffer for the greeting could not be allocated.
    BufferFailed(ErrorKind),
    /// The greeting could not be sent. Its buffer is released.
    WriteFailed(ErrorKind),
    /// The greeting is on its way, under this request id.
    Writing(u64),
}

/// What the write callback of the client left to report.
#[derive(Clone, Copy, Debug, PartialEq, Eq, Structural)]
pub struct Started {
    /// The write failed.
    pub write: Option<ErrorKind>,
    /// Reading could not be started.
    pub read: Option<ErrorKind>,
}

/// What a read callback of the client did.
#[derive(Debug, PartialEq, Eq)]
pub enum Reply {
    /// Nothing was there yet.
    Nothing,
    /// These bytes came back.
    Data(Vec<u8>),
    /// Reading ended. The connection is closed at once where none of its
    /// writes is in flight, and by the callback of the last of them else.
    /// The failure, if reading failed, is for the caller to report.
    Closed(Option<ErrorKind>),
}

/// What `on_connect` does: once connected, the client sends its greeting.
pub open spec fn connected(
    lp0: LoopView,
    lp1: LoopView,
    pool0: PoolView,
    pool1: PoolView,
    conn: usize,
    status: Result<usize, ErrorKind>,
    sent: Sent,
) -> bool {
    match status {
        Err(e) => sent == Sent::ConnectFailed(e) && lp1 == lp0 && pool1 == pool0,
        Ok(_) => if !pool0.has_room(greeting().len()) {
            &&& sent == Sent::BufferFailed(ErrorKind::NoMemory)
            &&& lp1 == lp0
            &&& pool1 == pool0
        } else if !lp0.can_write(conn) {
            &&& sent == Sent::WriteFailed(lp0.denial(conn))
            &&& lp1 == lp0
            &&& pool1 == pool0.cycled(1)
        } else if lp0.full() {
            &&& sent == Sent::WriteFailed(ErrorKind::NoMemory)
            &&& lp1 == lp0
            &&& pool1 == pool0.cycled(1)
        } else {
            &&& sent == Sent::Writing(lp0.issued as u64)
            &&& lp1 == lp0.submitted(lp1.requests.last().operation)
            &&& lp1.requests.last().operation matches Operation::Send { handle, buffer }
            &&& handle == conn
            &&& buffer@ == greeting()
            &&& buffer.spec_id() == pool0.allocations
            &&& buffer.spec_capacity() == greeting().len()
            &&& !pool0.live.dom().contains(buffer.spec_id())
            &&& pool1 == pool0.lease(buffer.spec_id(), greeting().len())
        },
    }
}

/// The connect request completed.
pub fn on_connect(
    lp: &mut Loop,
    pool: &mut BufferPool,
    conn: usize,
    status: Result<usize, ErrorKind>,
) -> (sent: Sent)
    ensures
        connected(old(lp)@, final(lp)@, old(pool)@, final(pool)@, conn, status, sent),
{
    if let Err(e) = status {
        return Sent::ConnectFailed(e);
    }
    let text: Vec<u8> = vec![
        104u8,
        101u8,
        108u8,
        108u8,
        111u8,
        32u8,
        119u8,
        111u8,
        114u8,
        108u8,
        100u8,
    ];
    let buffer = match pool.from_bytes(text.as_slice()) {
        Ok(buffer) => buffer,
        Err(e) => {
            return Sent::BufferFailed(e);
        },
    };
    proof {
        lemma_lease_give_back(old(pool)@, buffer.spec_id(), greeting().len());
    }
    match lp.write(conn, buffer) {
        Ok(id) => Sent::Writing(id),
        Err((e, buffer)) => {
            pool.discard(buffer);
            Sent::WriteFailed(e)
        },
    }
}

/// What `on_write` does: the buffer of the greeting is released. Then
/// reading starts on the connection, whether the write failed or not;
/// but on a connection that has come to its end nothing is started, and
/// the connection is closed if this was the last of its writes.
pub open spec fn greeted(
    lp0: LoopView,
    lp1: LoopView,
    pool0: PoolView,
    pool1: PoolView,
    conn: usize,
    ended: bool,
    status: Result<usize, ErrorKind>,
    buffer: Buffer,
    started: Started,
) -> bool {
    &&& started.write == match status {
        Ok(_) => None,
        Err(e) => Some(e),
    }
    &&& pool1 == pool0.released(buffer.spec_id(), buffer.spec_capacity())
    &&& if ended {
        &&& started.read is None
        &&& lp1 == lp0.closing_if_free(conn)
    } else if lp0.can_read_start(conn) {
        &&& started.read is None
        &&& lp1 == lp0.with_state(conn, HandleState::Active)
    } else {
        &&& started.read == Some(lp0.denial(conn))
        &&& lp1 == lp0
    }
}

/// The write of the greeting completed. `ended` says whether the
/// connection has come to its end already.
pub fn on_write(
    lp: &mut Loop,
    pool: &mut BufferPool,
    conn: usize,
    ended: bool,
    status: Result<usize, ErrorKind>,
    buffer: Buffer,
) -> (started: Started)
    ensures
        greeted(
            old(lp)@,
            final(lp)@,
            old(pool)@,
            final(pool)@,
            conn,
            ended,
            status,
            buffer,
            started,
        ),
{
    pool.discard(buffer);
    let write = match status {
        Ok(_) => None,
        Err(e) => Some(e),
    };
    let read = if ended {
        let _ = close_if_free(lp, conn);
        None
    } else {
        match lp.read_start(conn) {
            Ok(()) => None,
            Err(e) => Some(e),
        }
    };
    Started { write, read }
}

/// What `echo_read` does. A count of zero changes nothing: the stream is
/// not at its end. Bytes that were read are the reply, exactly those.
/// When reading ended, the connection is closed if none of its writes is
/// in flight; else reading is stopped and no write is canceled. In every
/// case the view is released.
pub open spec fn replied(
    lp0: LoopView,
    lp1: LoopView,
    pool0: PoolView,
    pool1: PoolView,
    conn: usize,
    nread: Result<usize, ErrorKind>,
    view: Option<ReadView>,
    reply: Reply,
) -> bool {
    &&& pool1 == view_released(pool0, view)
    &&& match nread {
        Err(e) => {
            &&& reply == Reply::Closed(failure(nread))
            &&& lp1 == lp0.ending(conn)
        },
        Ok(len) => {
            &&& lp1 == lp0
            &&& if len == 0 || view is None {
                reply == Reply::Nothing
            } else {
                &&& reply matches Reply::Data(bytes)
                &&& bytes@ == view->0@.take(
                    if len <= view->0@.len() {
                        len as int
                    } else {
                        view->0@.len() as int
                    },
                )
            }
        },
    }
}

/// A read on the connection came back.
pub fn echo_read(
    lp: &mut Loop,
    pool: &mut BufferPool,
    conn: usize,
    nread: Result<usize, ErrorKind>,
    view: Option<ReadView>,
) -> (reply: Reply)
    ensures
        replied(old(lp)@, final(lp)@, old(pool)@, final(pool)@, conn, nread, view, reply),
{
    let reply = match nread {
        Ok(len) => {
            if len == 0 {
                Reply::Nothing
            } else {
                match &view {
                    None => Reply::Nothing,
                    Some(v) => {
                        let mut bytes = v.to_vec();
                        bytes.truncate(len);
                        assert(bytes@ =~= v@.take(
                            if len <= v@.len() {
                                len as int
                            } else {
                                v@.len() as int
                            },
                        ));
                        Reply::Data(bytes)
                    },
                }
            }
        },
        Err(_) => {
            let _ = end_reading(lp, conn);
            Reply::Closed(failure(nread))
        },
    };
    release_view(pool, view);
    reply
}

/// What a callback of the client did.
#[derive(Debug, PartialEq, Eq)]
pub enum Event {
    /// The connect callback was answered.
    Connected(Sent),
    /// The write callback was answered.
    Wrote(Started),
    /// A read callback was answered.
    Read(Reply),
    /// The connection is closed for good.
    Gone(usize),
    /// The callback was not one of the client's.
    Ignored,
}

/// The client: its connection.
#[derive(Clone, Copy, Debug, PartialEq, Eq, Structural)]
pub struct Client {
    /// The handle of the connection.
    pub conn: usize,
    /// Whether reading on the connection has come to its end.
    pub ended: bool,
}

impl Client {
    /// Makes the connection handle and asks for it to be connected to the
    /// default port. Returns the client and the id of the connect request.
    pub fn start(lp: &mut Loop) -> (r: Result<(Client, u64), ErrorKind>)
        ensures
            match r {
                Ok((client, id)) => {
                    &&& !old(lp)@.full()
                    &&& !client.ended
                    &&& client.conn == old(lp)@.handles.len()
                    &&& id == old(lp)@.issued
                    &&& final(lp)@ == old(lp)@.with_new(HandleKind::Tcp).with_handle(
                        client.conn,
                        Handle {
                            connecting: true,
                            ..Handle::fresh(HandleKind::Tcp)
                        },
                    ).submitted(
                        Operation::Connect {
                            handle: client.conn,
                            peer: Endpoint { address: 0, port: DEFAULT_PORT },
                        },
                    )
                },
                Err(e) => {
                    &&& old(lp)@.full()
                    &&& e == ErrorKind::NoMemory
                    &&& final(lp)@ == old(lp)@.with_new(HandleKind::Tcp)
                },
            },
    {
        let conn = lp.tcp();
        match lp.connect(conn, Endpoint { address: 0, port: DEFAULT_PORT }) {
            Ok(id) => Ok((Client { conn, ended: false }, id)),
            Err(e) => Err(e),
        }
    }

    /// Whether a callback and its answer tell the client that its
    /// connection has come to its end: a read callback on the connection
    /// that ended the reading.
    pub open spec fn ends(self, fired: Fired, event: Event) -> bool {
        &&& fired matches Fired::Read { handle, .. }
        &&& handle == self.conn
        &&& event matches Event::Read(Reply::Closed(_))
    }

    /// What `dispatch` does with a callback.
    pub open spec fn reacts(
        self,
        after: Client,
        lp0: LoopView,
        lp1: LoopView,
        pool0: PoolView,
        pool1: PoolView,
        fired: Fired,
        event: Event,
    ) -> bool {
        &&& after.conn == self.conn
        &&& after.ended == (self.ended || self.ends(fired, event))
        &&& match fired {
            Fired::Completed { operation: Operation::Connect { handle, .. }, result, .. } => {
                &&& event matches Event::Connected(sent)
                &&& connected(lp0, lp1, pool0, pool1, handle, result, sent)
            },
            Fired::Completed { operation: Operation::Send { handle, buffer }, result, .. } => {
                &&& event matches Event::Wrote(started)
                &&& greeted(
                    lp0,
                    lp1,
                    pool0,
                    pool1,
                    handle,
                    self.ended && handle == self.conn,
                    result,
                    buffer,
                    started,
                )
            },
            Fired::Read { handle, incoming } => exists|
                pool_mid: PoolView,
                nread: Result<usize, ErrorKind>,
                view: Option<ReadView>,
            |
                #![trigger delivered(pool0, pool_mid, incoming, SUGGESTED_CAPACITY, nread, view)]
                {
                    &&& delivered(pool0, pool_mid, incoming, SUGGESTED_CAPACITY, nread, view)
                    &&& event matches Event::Read(reply)
                    &&& replied(lp0, lp1, pool_mid, pool1, handle, nread, view, reply)
                },
            Fired::Completed { operation: Operation::Read { buffer, .. }, .. } => {
                &&& event == Event::Ignored
                &&& lp1 == lp0
                &&& pool1 == pool0.released(buffer.spec_id(), buffer.spec_capacity())
            },
            Fired::Completed { operation: Operation::Write { buffer, .. }, .. } => {
                &&& event == Event::Ignored
                &&& lp1 == lp0
                &&& pool1 == pool0.released(buffer.spec_id(), buffer.spec_capacity())
            },
            Fired::Closed { handle } => event == Event::Gone(handle) && lp1 == lp0 && pool1
                == pool0,
            _ => event == Event::Ignored && lp1 == lp0 && pool1 == pool0,
        }
    }

    /// Answers a callback that the loop handed out with the function of
    /// the client that belongs to it, and keeps in mind whether the
    /// connection has come to its end. A buffer that comes with a callback
    /// which is none of the client's goes back to the pool.
    pub fn dispatch(&mut self, lp: &mut Loop, pool: &mut BufferPool, fired: Fired) -> (event:
        Event)
        ensures
            old(self).reacts(
                *final(self),
                old(lp)@,
                final(lp)@,
                old(pool)@,
                final(pool)@,
                fired,
                event,
            ),
    {
        match fired {
            Fired::Read { handle, incoming } => {
                let (nread, view) = deliver(handle, incoming, SUGGESTED_CAPACITY, pool);
                let reply = echo_read(lp, pool, handle, nread, view);
                match &reply {
                    Reply::Closed(_) => {
                        if handle == self.conn {
                            self.ended = true;
                        }
                    },
                    _ => {},
                }
                Event::Read(reply)
            },
            Fired::Completed { id, operation, result } => match operation {
                Operation::Connect { handle, .. } => Event::Connected(
                    on_connect(lp, pool, handle, result),
                ),
                Operation::Send { handle, buffer } => Event::Wrote(
                    on_write(lp, pool, handle, self.ended && handle == self.conn, result, buffer),
                ),
                Operation::Read { buffer, .. } => {
                    pool.discard(buffer);
                    Event::Ignored
                },
                Operation::Write { buffer, .. } => {
                    pool.discard(buffer);
                    Event::Ignored
                },
                _ => Event::Ignored,
            },
            Fired::Closed { handle } => Event::Gone(handle),
            _ => Event::Ignored,
        }
    }
}

/// The client together with the bytes that came back so far.
#[derive(Debug)]
pub struct Session {
    pub client: Client,
    pub reply: Vec<u8>,
}

impl Client {
    /// Whether the request is one of the client's on its connection: a
    /// write, or the connect request, which is then the only request and
    /// comes before any reading.
    pub open spec fn owns(self, lp: LoopView, operation: Operation) -> bool {
        match operation {
            Operation::Send { handle, .. } => handle == self.conn,
            Operation::Connect { handle, .. } => {
                &&& handle == self.conn
                &&& !self.ended
                &&& !lp.handles[self.conn as int].reading()
                &&& lp.requests.len() == 1
            },
            _ => false,
        }
    }

    /// Whether all that is in flight is writes of the client on its
    /// connection.
    pub open spec fn sending(self, lp: LoopView) -> bool {
        forall|i: int|
            0 <= i < lp.requests.len() ==> {
                &&& (#[trigger] lp.requests[i]).operation matches Operation::Send { handle, .. }
                &&& handle == self.conn
            }
    }

    /// What the client keeps of a loop that it has to itself: the
    /// requests in flight are its own, and once its connection has come
    /// to its end, the connection is closed or has a write in flight,
    /// whose callback closes it.
    pub open spec fn sound(self, lp: LoopView) -> bool {
        &&& lp.has(self.conn)
        &&& forall|i: int|
            0 <= i < lp.requests.len() ==> self.owns(lp, (#[trigger] lp.requests[i]).operation)
        &&& self.ended ==> lp.shut(self.conn) || lp.busy(self.conn)
    }
}

/// A close leaves the operations in flight as they are, and with them
/// the handles that are busy.
proof fn lemma_close_keeps_busy(lp: LoopView, closed: usize, h: usize)
    ensures
        lp.closing(closed).requests.len() == lp.requests.len(),
        forall|i: int|
            0 <= i < lp.requests.len() ==> (#[trigger] lp.closing(closed).requests[i]).operation
                == lp.requests[i].operation,
        lp.closing(closed).busy(h) == lp.busy(h),
{
    let after = lp.closing(closed);
    if lp.busy(h) {
        let i = choose|i: int|
            0 <= i < lp.requests.len() && (#[trigger] lp.requests[i]).operation.spec_handle()
                == Some(h);
        assert(after.requests[i].operation.spec_handle() == Some(h));
    }
    if after.busy(h) {
        let i = choose|i: int|
            0 <= i < after.requests.len() && (#[trigger] after.requests[i]).operation.spec_handle()
                == Some(h);
        assert(lp.requests[i].operation.spec_handle() == Some(h));
    }
}

/// The end of reading on a handle leaves a sound client sound, once the
/// client has taken note of the end of its own connection.
proof fn lemma_end_stays_sound(client: Client, after: Client, lp: LoopView, handle: usize)
    requires
        client.sound(lp),
        after.conn == client.conn,
        after.ended == (client.ended || handle == client.conn),
        handle == client.conn ==> client.sending(lp),
    ensures
        after.sound(lp.ending(handle)),
{
    let then = lp.ending(handle);
    let conn = client.conn;
    lemma_close_keeps_busy(lp, handle, conn);
    if then != lp {
        assert(lp.has(handle));
        assert(then.requests.len() == lp.requests.len());
        assert forall|i: int| 0 <= i < then.requests.len() implies after.owns(
            then,
            (#[trigger] then.requests[i]).operation,
        ) by {
            assert(client.owns(lp, lp.requests[i].operation));
            assert(then.requests[i].operation == lp.requests[i].operation);
        }
        if lp.busy(conn) {
            let i = choose|i: int|
                0 <= i < lp.requests.len() && (#[trigger] lp.requests[i]).operation.spec_handle()
                    == Some(conn);
            assert(then.requests[i].operation.spec_handle() == Some(conn));
        }
    } else {
        assert forall|i: int| 0 <= i < then.requests.len() implies after.owns(
            then,
            (#[trigger] then.requests[i]).operation,
        ) by {
            assert(client.owns(lp, lp.requests[i].operation));
        }
    }
}

impl Handler for Session {
    /// The client is sound.
    open spec fn holds(&self, lp: LoopView, pool: PoolView) -> bool {
        self.client.sound(lp)
    }

    /// The callback of a request is that of the connect request, which
    /// was the only one, or of a write on the connection; a read callback
    /// on the connection comes when the connect request is done.
    open spec fn accepts(&self, lp: LoopView, pool: PoolView, fired: Fired) -> bool {
        let client = self.client;
        match fired {
            Fired::Completed { operation: Operation::Connect { handle, .. }, .. } => {
                &&& handle == client.conn
                &&& !client.ended
                &&& lp.has(client.conn)
                &&& lp.requests.len() == 0
            },
            Fired::Completed { operation: Operation::Send { handle, .. }, .. } => {
                &&& handle == client.conn
                &&& lp.has(client.conn)
                &&& client.sending(lp)
            },
            Fired::Completed { .. } => false,
            Fired::Read { handle, .. } => {
                &&& client.sound(lp)
                &&& handle == client.conn ==> client.sending(lp)
            },
            _ => client.sound(lp),
        }
    }

    /// The connection stays the one it was.
    open spec fn keeps(&self, origin: &Self) -> bool {
        self.client.conn == origin.client.conn
    }

    /// Answers the callback as `Client::dispatch` does, and gathers the
    /// bytes of the replies.
    fn handle(&mut self, lp: &mut Loop, pool: &mut BufferPool, fired: Fired)
        ensures
            exists|event: Event|
                {
                    &&& #[trigger] old(self).client.reacts(
                        final(self).client,
                        old(lp)@,
                        final(lp)@,
                        old(pool)@,
                        final(pool)@,
                        fired,
                        event,
                    )
                    &&& final(self).reply@ == match event {
                        Event::Read(Reply::Data(bytes)) => old(self).reply@ + bytes@,
                        _ => old(self).reply@,
                    }
                },
    {
        let ghost given = fired;
        let event = self.client.dispatch(lp, pool, fired);
        let ghost answer = event;
        match event {
            Event::Read(Reply::Data(bytes)) => {
                let mut bytes = bytes;
                self.reply.append(&mut bytes);
            },
            _ => {},
        }
        assert(old(self).client.reacts(
            self.client,
            old(lp)@,
            lp@,
            old(pool)@,
            pool@,
            fired,
            answer,
        ));

        proof {
            let lp0 = old(lp)@;
            let lp1 = lp@;
            let before = old(self).client;
            let after = self.client;
            if old(self).accepts(lp0.at_rest(), old(pool)@, given) {
                match given {
                    Fired::Completed { operation: Operation::Connect { .. }, .. } => {
                        assert(lp0.requests.len() == 0);
                    },
                    Fired::Completed { operation: Operation::Send { .. }, .. } => {
                        lemma_close_keeps_busy(lp0, before.conn, before.conn);
                        assert(before.sending(lp0));
                        assert forall|i: int| 0 <= i < lp1.requests.len() implies after.owns(
                            lp1,
                            (#[trigger] lp1.requests[i]).operation,
                        ) by {
                            assert(lp0.requests[i].operation is Send);
                        }
                    },
                    Fired::Read { handle, incoming } => {
                        assert(before.sound(lp0));
                        if lp1 != lp0 {
                            lemma_end_stays_sound(before, after, lp0, handle);
                        } else {
                            assert forall|i: int| 0 <= i < lp1.requests.len() implies after.owns(
                                lp1,
                                (#[trigger] lp1.requests[i]).operation,
                            ) by {
                                assert(before.owns(lp0, lp0.requests[i].operation));
                            }
                            if after.ended && !before.ended {
                                lemma_end_stays_sound(before, after, lp0, handle);
                            }
                        }
                    },
                    _ => {
                        assert(before.sound(lp0));
                        assert forall|i: int| 0 <= i < lp1.requests.len() implies after.owns(
                            lp1,
                            (#[trigger] lp1.requests[i]).operation,
                        ) by {
                            assert(before.owns(lp0, lp0.requests[i].operation));
                        }
                    },
                }
                assert(after.sound(lp1));
                assert(after.sound(lp1.at_rest())) by {
                    assert forall|i: int| 0 <= i < lp1.requests.len() implies after.owns(
                        lp1.at_rest(),
                        (#[trigger] lp1.at_rest().requests[i]).operation,
                    ) by {
                        assert(after.owns(lp1, lp1.requests[i].operation));
                    }
                    if lp1.busy(after.conn) {
                        let i = choose|i: int|
                            0 <= i < lp1.requests.len() && (
                            #[trigger] lp1.requests[i]).operation.spec_handle()
                                == Some(after.conn);
                        assert(lp1.at_rest().requests[i].operation.spec_handle() == Some(after.conn));
                    }
                }
            }
        }
    }
}

/// The steps of the loop leave standing what the client keeps. So a run
/// that begins with a sound client ends with a sound client: when its
/// connection has come to its end, the connection is closed, or a write
/// is in flight whose callback closes it.
pub proof fn lemma_client_is_steady()
    ensures
        steady::<Session>(),
{
    assert forall|
        handler: Session,
        before: LoopView,
        after: LoopView,
        pool: PoolView,
        fired: Option<Fired>,
    |
        #![trigger handler.holds(before, pool), before.stepped(after, fired)]
        handler.holds(before, pool) && before.wf() && !before.running && before.stepped(
            after,
            fired,
        ) implies match fired {
        Some(callback) => handler.accepts(after, pool, callback),
        None => handler.holds(after, pool),
    } by {
        let client = handler.client;
        let conn = client.conn;
        match fired {
            Some(Fired::Completed { id, operation, result }) => {
                let i = choose|i: int|
                    {
                        &&& before.completed_first(i)
                        &&& before.requests[i] == (Request { id, operation, outcome: Some(result) })
                        &&& after == before.after_completion(i).counted()
                    };
                assert(client.owns(before, before.requests[i].operation));
                if operation is Send {
                    assert forall|j: int| 0 <= j < after.requests.len() implies {
                        &&& (#[trigger] after.requests[j]).operation matches Operation::Send {
                            handle,
                            ..
                        }
                        &&& handle == conn
                    } by {
                        let k = if j < i { j } else { j + 1 };
                        assert(client.owns(before, before.requests[k].operation));
                    }
                }
            },
            Some(Fired::Read { handle, incoming }) => {
                let i = choose|i: int|
                    {
                        &&& before.delivered_first(i)
                        &&& before.arrivals[i] == (Arrival { handle, incoming })
                        &&& after == (LoopView {
                            arrivals: before.arrivals.remove(i),
                            ..before
                        }).counted()
                    };
                assert forall|j: int| 0 <= j < after.requests.len() implies client.owns(
                    after,
                    (#[trigger] after.requests[j]).operation,
                ) by {
                    assert(client.owns(before, before.requests[j].operation));
                }
                if client.ended && before.busy(conn) {
                    let j = choose|j: int|
                        0 <= j < before.requests.len() && (
                        #[trigger] before.requests[j]).operation.spec_handle()
                            == Some(conn);
                    assert(after.requests[j].operation.spec_handle() == Some(conn));
                }
                if handle == conn {
                    assert forall|j: int| 0 <= j < after.requests.len() implies {
                        &&& (#[trigger] after.requests[j]).operation matches Operation::Send {
                            handle,
                            ..
                        }
                        &&& handle == conn
                    } by {
                        assert(client.owns(before, before.requests[j].operation));
                    }
                }
            },
            _ => {
                assert(after.requests == before.requests);
                assert forall|j: int| 0 <= j < after.requests.len() implies client.owns(
                    after,
                    (#[trigger] after.requests[j]).operation,
                ) by {
                    assert(client.owns(before, before.requests[j].operation));
                }
                if client.ended && before.busy(conn) {
                    let j = choose|j: int|
                        0 <= j < before.requests.len() && (
                        #[trigger] before.requests[j]).operation.spec_handle()
                            == Some(conn);
                    assert(after.requests[j].operation.spec_handle() == Some(conn));
                }
            },
        }
    }
}

impl Session {
    /// Runs the loop with the client as its handler. A client that was
    /// sound before the run is sound after it.
    pub fn run(&mut self, lp: &mut Loop, pool: &mut BufferPool, mode: RunMode) -> (r: Result<
        bool,
        ErrorKind,
    >)
        ensures
            match r {
                Err(e) => {
                    &&& e == ErrorKind::Busy
                    &&& old(lp)@.running
                    &&& final(lp)@ == old(lp)@
                    &&& *final(self) == *old(self)
                    &&& final(pool)@ == old(pool)@
                },
                Ok(alive) => {
                    &&& !old(lp)@.running
                    &&& !final(lp)@.running
                    &&& alive == final(lp)@.alive()
                    &&& final(lp)@.iteration >= old(lp)@.iteration
                    &&& final(lp)@.dispatched >= old(lp)@.dispatched
                    &&& final(lp)@.exhausted() || if mode == RunMode::Default {
                        !final(lp)@.alive() || !final(lp)@.ready()
                    } else {
                        final(lp)@.iteration > old(lp)@.iteration
                    }
                    &&& final(self).client.conn == old(self).client.conn
                    &&& old(self).client.sound(old(lp)@) ==> final(self).client.sound(final(lp)@)
                },
            },
    {
        let ghost origin = *self;
        proof {
            lemma_client_is_steady();
        }
        assert(self.keeps(&origin));
        lp.run(mode, self, pool)
    }
}

} // verus!
