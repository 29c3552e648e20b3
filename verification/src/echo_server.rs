//! The echo server: it accepts connections and sends back on each what
//! it reads from it.

use crate::buffer::{Buffer, BufferPool, PoolView, ReadView};
use crate::error::ErrorKind;
use crate::flags::{BindFlags, RunMode};
use crate::handle::{Binding, Endpoint, Handle, HandleKind, HandleState};
use crate::reactor::{steady, Handler, Loop, LoopView, SUGGESTED_CAPACITY};
use crate::request::{Fired, Operation, Request};
use crate::state::{lemma_same_operations_same_busy, same_operations};
use crate::stream::{
    close_if_free, deliver, delivered, end_reading, failure, is_stopped, release_view, view_released,
};
use vstd::prelude::*;

verus! {

/// The port that the server listens on.
pub const DEFAULT_PORT: u16 = 7000;

/// The most connections that may wait to be accepted.
pub const DEFAULT_BACKLOG: usize = 128;

/// What a read callback of the server did.
#[derive(Clone, Copy, Debug, PartialEq, Eq, Structural)]
pub enum Echo {
    /// Nothing: there was nothing to echo.
    Nothing,
    /// The bytes that were read are on their way back, under this request id.
    Writing(u64),
    /// The bytes could not be sent back. Their buffer is released.
    WriteFailed(ErrorKind),
    /// Reading ended. The connection is closed at once where none of its
    /// writes is in flight, and by the callback of the last of them else.
    /// The failure, if reading failed, is for the caller to report.
    Closed(Option<ErrorKind>),
}

/// What a connection callback of the server did.
#[derive(Clone, Copy, Debug, PartialEq, Eq, Structural)]
pub enum Accepted {
    /// The callback came with an error; nothing was done.
    Refused(ErrorKind),
    /// No handle could be made for the connection; nothing was done, and
    /// the connection waits on.
    Unmade(ErrorKind),
    /// The connection was accepted on this new handle, which is being read.
    Reading(usize),
    /// The connection could not be accepted; the new handle is closed
    /// again, and the listener goes on.
    Failed(usize, ErrorKind),
}

/// The loop after a write of the server on `client` completed. A
/// connection whose reading was stopped is one that came to its end
/// while writes were in flight: it is closed with the callback of the
/// last of them.
pub open spec fn write_done(lp: LoopView, client: usize) -> LoopView {
    if lp.stopped(client) {
        lp.closing_if_free(client)
    } else {
        lp
    }
}

/// A write of the server on `client` completed: the buffer is released,
/// and a connection that had come to its end is closed once this was the
/// last of its writes. Returns the failure to report, if the write failed.
pub fn echo_write(
    lp: &mut Loop,
    pool: &mut BufferPool,
    client: usize,
    buffer: Buffer,
    status: Result<usize, ErrorKind>,
) -> (r: Option<ErrorKind>)
    ensures
        r == match status {
            Ok(_) => None,
            Err(e) => Some(e),
        },
        final(pool)@ == old(pool)@.released(buffer.spec_id(), buffer.spec_capacity()),
        final(lp)@ == write_done(old(lp)@, client),
{
    pool.discard(buffer);
    if is_stopped(lp, client) {
        let _ = close_if_free(lp, client);
    }
    match status {
        Ok(_) => None,
        Err(e) => Some(e),
    }
}

/// What `echo_read` does. A count of zero changes nothing: the stream is
/// not at its end. Bytes that were read are sent back on the same
/// connection, exactly those, from the buffer they were read into. When
/// reading ended, the connection is closed if none of its writes is in
/// flight; else reading is stopped and no write is canceled.
pub open spec fn echoed(
    lp0: LoopView,
    lp1: LoopView,
    pool0: PoolView,
    pool1: PoolView,
    client: usize,
    nread: Result<usize, ErrorKind>,
    view: Option<ReadView>,
    echo: Echo,
) -> bool {
    match nread {
        Err(e) => {
            &&& echo == Echo::Closed(failure(nread))
            &&& pool1 == view_released(pool0, view)
            &&& lp1 == lp0.ending(client)
        },
        Ok(len) => if len == 0 || view is None {
            &&& echo == Echo::Nothing
            &&& lp1 == lp0
            &&& pool1 == view_released(pool0, view)
        } else if len > view->0.buffer().spec_capacity() {
            &&& echo == Echo::WriteFailed(ErrorKind::NoMemory)
            &&& lp1 == lp0
            &&& pool1 == view_released(pool0, view)
        } else if !lp0.can_write(client) {
            &&& echo == Echo::WriteFailed(lp0.denial(client))
            &&& lp1 == lp0
            &&& pool1 == view_released(pool0, view)
        } else if lp0.full() {
            &&& echo == Echo::WriteFailed(ErrorKind::NoMemory)
            &&& lp1 == lp0
            &&& pool1 == view_released(pool0, view)
        } else {
            &&& echo == Echo::Writing(lp0.issued as u64)
            &&& lp1 == lp0.submitted(lp1.requests.last().operation)
            &&& lp1.requests.last().operation matches Operation::Send { handle, buffer }
            &&& handle == client
            &&& buffer@ == view->0.buffer().storage().take(len as int)
            &&& buffer.spec_id() == view->0.buffer().spec_id()
            &&& buffer.spec_capacity() == view->0.buffer().spec_capacity()
            &&& pool1 == pool0
        },
    }
}

/// A read on a connection came back.
pub fn echo_read(
    lp: &mut Loop,
    pool: &mut BufferPool,
    client: usize,
    nread: Result<usize, ErrorKind>,
    view: Option<ReadView>,
) -> (echo: Echo)
    ensures
        echoed(old(lp)@, final(lp)@, old(pool)@, final(pool)@, client, nread, view, echo),
{
    match nread {
        Ok(len) => {
            if len == 0 {
                release_view(pool, view);
                return Echo::Nothing;
            }
            match view {
                None => Echo::Nothing,
                Some(v) => {
                    let mut buffer = v.into_buffer();
                    if let Err(e) = buffer.resize(len) {
                        pool.discard(buffer);
                        return Echo::WriteFailed(e);
                    }
                    match lp.write(client, buffer) {
                        Ok(id) => Echo::Writing(id),
                        Err((e, buffer)) => {
                            pool.discard(buffer);
                            Echo::WriteFailed(e)
                        },
                    }
                },
            }
        },
        Err(_) => {
            release_view(pool, view);
            let _ = end_reading(lp, client);
            Echo::Closed(failure(nread))
        },
    }
}

/// What `on_new_connection` does. After an error nothing is done. Where
/// no handle can be made for the connection nothing is done either:
/// nothing is accepted, started or closed. Else a new handle is made and
/// the waiting connection handed to it; reading starts on it. Where the
/// connection cannot be accepted the new handle is closed and the
/// listener stays as it was.
pub open spec fn connection_taken(
    lp0: LoopView,
    lp1: LoopView,
    server: usize,
    status: Result<(), ErrorKind>,
    made: Result<(), ErrorKind>,
    accepted: Accepted,
) -> bool {
    let client = lp0.handles.len() as usize;
    let with_client = lp0.with_new(HandleKind::Tcp);
    match (status, made) {
        (Err(e), _) => accepted == Accepted::Refused(e) && lp1 == lp0,
        (Ok(()), Err(e)) => accepted == Accepted::Unmade(e) && lp1 == lp0,
        (Ok(()), Ok(())) => if with_client.can_accept(server, client) {
            &&& accepted == Accepted::Reading(client)
            &&& lp1 == with_client.accepted(server, client).with_state(
                client,
                HandleState::Active,
            )
        } else {
            &&& accepted == Accepted::Failed(client, with_client.accept_error(server, client))
            &&& lp1 == with_client.closing(client)
        },
    }
}

/// A connection waits on the listener, or listening failed. `made` says
/// whether the operating system gave a handle for the connection.
pub fn on_new_connection(
    lp: &mut Loop,
    server: usize,
    status: Result<(), ErrorKind>,
    made: Result<(), ErrorKind>,
) -> (accepted: Accepted)
    ensures
        connection_taken(old(lp)@, final(lp)@, server, status, made, accepted),
{
    if let Err(e) = status {
        return Accepted::Refused(e);
    }
    if let Err(e) = made {
        return Accepted::Unmade(e);
    }
    let client = lp.tcp();
    match lp.accept(server, client) {
        Ok(()) => {
            let _ = lp.read_start(client);
            Accepted::Reading(client)
        },
        Err(e) => {
            let _ = lp.close(client);
            Accepted::Failed(client, e)
        },
    }
}

/// The operating system took the connection on the new handle, or it did
/// not. Where it did not, the new handle is closed, with all that was
/// started on it, and the listener stays as it was.
pub fn on_accepted(lp: &mut Loop, client: usize, result: Result<(), ErrorKind>) -> (accepted:
    Accepted)
    ensures
        match result {
            Ok(()) => accepted == Accepted::Reading(client) && final(lp)@ == old(lp)@,
            Err(e) => {
                &&& accepted == Accepted::Failed(client, e)
                &&& final(lp)@ == if old(lp)@.can_close(client) {
                    old(lp)@.closing(client)
                } else {
                    old(lp)@
                }
            },
        },
{
    match result {
        Ok(()) => Accepted::Reading(client),
        Err(e) => {
            let _ = lp.close(client);
            Accepted::Failed(client, e)
        },
    }
}

/// What a callback of the server did.
#[derive(Clone, Copy, Debug, PartialEq, Eq, Structural)]
pub enum Event {
    /// A connection callback was answered.
    Connection(Accepted),
    /// A read callback was answered.
    Read(Echo),
    /// A write completed and its buffer is released; the failure, if it failed.
    Wrote(Option<ErrorKind>),
    /// A connection is closed for good.
    Gone(usize),
    /// The callback was not one of the server's.
    Ignored,
}

/// The server: its listening handle.
#[derive(Clone, Copy, Debug, PartialEq, Eq, Structural)]
pub struct Server {
    pub listener: usize,
}

impl Server {
    /// Makes the listening handle: a TCP handle bound to every local
    /// address on the default port, with the default backlog.
    pub fn start(lp: &mut Loop) -> (server: Server)
        ensures
            server.listener == old(lp)@.handles.len(),
            final(lp)@ == old(lp)@.with_new(HandleKind::Tcp).with_handle(
                server.listener,
                Handle {
                    state: HandleState::Active,
                    bound: Some(
                        Binding {
                            local: Endpoint { address: 0, port: DEFAULT_PORT },
                            flags: BindFlags { bits: 0 },
                        },
                    ),
                    listening: true,
                    backlog: DEFAULT_BACKLOG,
                    ..Handle::fresh(HandleKind::Tcp)
                },
            ),
    {
        let listener = lp.tcp();
        let _ = lp.bind(listener, Endpoint { address: 0, port: DEFAULT_PORT }, BindFlags::empty());
        let _ = lp.listen(listener, DEFAULT_BACKLOG);
        assert(lp@.handles =~= old(lp)@.with_new(HandleKind::Tcp).with_handle(
            listener,
            Handle {
                state: HandleState::Active,
                bound: Some(
                        Binding {
                            local: Endpoint { address: 0, port: DEFAULT_PORT },
                            flags: BindFlags { bits: 0 },
                        },
                    ),
                listening: true,
                backlog: DEFAULT_BACKLOG,
                ..Handle::fresh(HandleKind::Tcp)
            },
        ).handles);
        Server { listener }
    }

    /// What `dispatch` does with a callback.
    pub open spec fn reacts(
        self,
        lp0: LoopView,
        lp1: LoopView,
        pool0: PoolView,
        pool1: PoolView,
        fired: Fired,
        event: Event,
    ) -> bool {
        self.reacts_given(lp0, lp1, pool0, pool1, fired, Ok(()), event)
    }

    /// What `dispatch_given` does with a callback.
    pub open spec fn reacts_given(
        self,
        lp0: LoopView,
        lp1: LoopView,
        pool0: PoolView,
        pool1: PoolView,
        fired: Fired,
        made: Result<(), ErrorKind>,
        event: Event,
    ) -> bool {
        match fired {
            Fired::Connection { handle } => {
                &&& event matches Event::Connection(accepted)
                &&& connection_taken(lp0, lp1, handle, Ok(()), made, accepted)
                &&& pool1 == pool0
            },
            Fired::Read { handle, incoming } => exists|
                pool_mid: PoolView,
                nread: Result<usize, ErrorKind>,
                view: Option<ReadView>,
            |
                #![trigger delivered(pool0, pool_mid, incoming, SUGGESTED_CAPACITY, nread, view)]
                {
                    &&& delivered(pool0, pool_mid, incoming, SUGGESTED_CAPACITY, nread, view)
                    &&& event matches Event::Read(echo)
                    &&& echoed(lp0, lp1, pool_mid, pool1, handle, nread, view, echo)
                },
            Fired::Completed { operation: Operation::Send { handle, buffer }, result, .. } => {
                &&& event == Event::Wrote(
                    match result {
                        Ok(_) => None,
                        Err(e) => Some(e),
                    },
                )
                &&& lp1 == write_done(lp0, handle)
                &&& pool1 == pool0.released(buffer.spec_id(), buffer.spec_capacity())
            },
            Fired::Completed { operation: Operation::Read { buffer, .. }, .. } => {
                &&& event == Event::Ignored
                &&& lp1 == lp0
                &&& pool1 == pool0.released(buffer.spec_id(), buffer.spec_capacity())
            },
            Fired::Completed { operation: Operation::Write { buffer, .. }, .. } => {
                &&& event == Event::Ignored
                &&& lp1 == lp0
                &&& pool1 == pool0.released(buffer.spec_id(), buffer.spec_capacity())
            },
            Fired::Closed { handle } => event == Event::Gone(handle) && lp1 == lp0 && pool1
                == pool0,
            _ => event == Event::Ignored && lp1 == lp0 && pool1 == pool0,
        }
    }

    /// Answers a callback that the loop handed out with the function of
    /// the server that belongs to it, where a handle can be made for
    /// every connection.
    pub fn dispatch(&self, lp: &mut Loop, pool: &mut BufferPool, fired: Fired) -> (event: Event)
        ensures
            self.reacts(old(lp)@, final(lp)@, old(pool)@, final(pool)@, fired, event),
    {
        self.dispatch_given(lp, pool, fired, Ok(()))
    }

    /// Answers a callback that the loop handed out with the function of
    /// the server that belongs to it. `made` says whether the operating
    /// system gave a handle for a connection; it is asked of a
    /// connection callback only. A buffer that comes with a callback
    /// which is none of the server's goes back to the pool.
    pub fn dispatch_given(
        &self,
        lp: &mut Loop,
        pool: &mut BufferPool,
        fired: Fired,
        made: Result<(), ErrorKind>,
    ) -> (event: Event)
        ensures
            self.reacts_given(
                old(lp)@,
                final(lp)@,
                old(pool)@,
                final(pool)@,
                fired,
                made,
                event,
            ),
    {
        match fired {
            Fired::Connection { handle } => Event::Connection(
                on_new_connection(lp, handle, Ok(()), made),
            ),
            Fired::Read { handle, incoming } => {
                let (nread, view) = deliver(handle, incoming, SUGGESTED_CAPACITY, pool);
                let echo = echo_read(lp, pool, handle, nread, view);
                Event::Read(echo)
            },
            Fired::Completed { id, operation, result } => match operation {
                Operation::Send { handle, buffer } => Event::Wrote(
                    echo_write(lp, pool, handle, buffer, result),
                ),
                Operation::Read { buffer, .. } => {
                    pool.discard(buffer);
                    Event::Ignored
                },
                Operation::Write { buffer, .. } => {
                    pool.discard(buffer);
                    Event::Ignored
                },
                _ => Event::Ignored,
            },
            Fired::Closed { handle } => Event::Gone(handle),
            Fired::Idle { .. } => Event::Ignored,
        }
    }
}

impl Server {
    /// What the server keeps of a loop that it has to itself: the
    /// requests in flight are its writes, and a connection whose reading
    /// was stopped has a write in flight. So no connection that came to
    /// its end stays open with nothing left to close it.
    pub open spec fn tidy(lp: LoopView) -> bool {
        &&& forall|i: int| 0 <= i < lp.requests.len() ==> (#[trigger] lp.requests[i]).operation is Send
        &&& forall|h: usize| #[trigger] lp.stopped(h) ==> lp.busy(h)
    }

    /// The same, but that the connection `client` may be left with its
    /// reading stopped and nothing in flight: the state in which the
    /// callback of the last write on `client` finds the loop.
    pub open spec fn tidy_but(lp: LoopView, client: usize) -> bool {
        &&& forall|i: int| 0 <= i < lp.requests.len() ==> (#[trigger] lp.requests[i]).operation is Send
        &&& forall|h: usize| #[trigger] lp.stopped(h) && h != client ==> lp.busy(h)
    }
}

/// Whether a run is under way makes no difference to what the server keeps.
pub proof fn lemma_tidy_at_rest(lp: LoopView, client: usize)
    ensures
        Server::tidy(lp.at_rest()) == Server::tidy(lp),
        Server::tidy_but(lp.at_rest(), client) == Server::tidy_but(lp, client),
{
    let rest = lp.at_rest();
    assert(same_operations(lp, rest));
    assert(rest.requests == lp.requests);
    assert forall|h: usize|
        #![trigger rest.stopped(h)]
        #![trigger lp.stopped(h)]
        rest.stopped(h) == lp.stopped(h) && rest.busy(h) == lp.busy(h) by {
        lemma_same_operations_same_busy(lp, rest, h);
    }
}

/// A close of a handle on which nothing but `client` may be left idle
/// leaves the loop tidy, if `client` is the handle that is closed.
pub proof fn lemma_close_tidies(lp: LoopView, client: usize)
    requires
        Server::tidy_but(lp, client),
        lp.has(client),
    ensures
        Server::tidy(lp.closing(client)),
{
    let after = lp.closing(client);
    assert(same_operations(lp, after));
    assert forall|i: int| 0 <= i < after.requests.len() implies (
    #[trigger] after.requests[i]).operation is Send by {
        assert(lp.requests[i].operation is Send);
    }
    assert forall|h: usize| #[trigger] after.stopped(h) implies after.busy(h) by {
        lemma_same_operations_same_busy(lp, after, h);
        assert(h != client);
        assert(lp.stopped(h));
    }
}

/// The end of a connection leaves a tidy loop tidy: the connection is
/// closed, or it has a write in flight.
pub proof fn lemma_end_stays_tidy(lp: LoopView, client: usize)
    requires
        Server::tidy(lp),
    ensures
        Server::tidy(lp.ending(client)),
{
    let after = lp.ending(client);
    if after != lp {
        if !lp.busy(client) {
            lemma_close_tidies(lp, client);
        } else {
            assert forall|h: usize| #[trigger] after.stopped(h) implies after.busy(h) by {
                if h != client {
                    assert(lp.stopped(h));
                }
            }
        }
    }
}

/// The callback of the last write on a connection that came to its end
/// closes it, and the loop is tidy again.
pub proof fn lemma_write_done_tidies(lp: LoopView, client: usize)
    requires
        Server::tidy_but(lp, client),
    ensures
        Server::tidy(write_done(lp, client)),
{
    if lp.stopped(client) && !lp.busy(client) {
        lemma_close_tidies(lp, client);
    } else {
        assert forall|h: usize| #[trigger] lp.stopped(h) implies lp.busy(h) by {}
    }
}

/// A read callback of the server leaves a tidy loop tidy.
pub proof fn lemma_echo_stays_tidy(
    lp0: LoopView,
    lp1: LoopView,
    pool0: PoolView,
    pool1: PoolView,
    client: usize,
    nread: Result<usize, ErrorKind>,
    view: Option<ReadView>,
    echo: Echo,
)
    requires
        Server::tidy(lp0),
        echoed(lp0, lp1, pool0, pool1, client, nread, view, echo),
    ensures
        Server::tidy(lp1),
{
    if nread is Err {
        lemma_end_stays_tidy(lp0, client);
    } else if lp1 != lp0 {
        let last = lp0.requests.len() as int;
        assert forall|i: int| 0 <= i < lp1.requests.len() implies (
        #[trigger] lp1.requests[i]).operation is Send by {
            if i < last {
                assert(lp0.requests[i].operation is Send);
            }
        }
        assert forall|h: usize| #[trigger] lp1.stopped(h) implies lp1.busy(h) by {
            assert(lp0.stopped(h));
            let i = choose|i: int|
                0 <= i < lp0.requests.len() && (#[trigger] lp0.requests[i]).operation.spec_handle()
                    == Some(h);
            assert(lp1.requests[i].operation.spec_handle() == Some(h));
        }
    }
}

/// A connection callback of the server leaves a tidy loop tidy: the new
/// handle is being read, or it is closed again.
pub proof fn lemma_connection_stays_tidy(
    lp0: LoopView,
    lp1: LoopView,
    server: usize,
    status: Result<(), ErrorKind>,
    made: Result<(), ErrorKind>,
    accepted: Accepted,
)
    requires
        Server::tidy(lp0),
        connection_taken(lp0, lp1, server, status, made, accepted),
    ensures
        Server::tidy(lp1),
{
    if status is Ok && made is Ok {
        let client = lp0.handles.len() as usize;
        let made = lp0.with_new(HandleKind::Tcp);
        assert forall|h: usize| #[trigger] made.stopped(h) implies made.busy(h) by {
            assert(lp0.stopped(h));
            lemma_same_operations_same_busy(lp0, made, h);
        }
        if made.can_accept(server, client) {
            assert forall|h: usize| #[trigger] lp1.stopped(h) implies lp1.busy(h) by {
                assert(made.stopped(h));
                lemma_same_operations_same_busy(made, lp1, h);
            }
        } else {
            lemma_close_tidies(made, client);
        }
    }
}

impl Handler for Server {
    /// The loop is tidy.
    open spec fn holds(&self, lp: LoopView, pool: PoolView) -> bool {
        Server::tidy(lp)
    }

    /// The callback of a request is that of a write of the server; the
    /// connection of that write is the only one that may be left with its
    /// reading stopped and nothing in flight.
    open spec fn accepts(&self, lp: LoopView, pool: PoolView, fired: Fired) -> bool {
        match fired {
            Fired::Completed { operation, .. } => {
                &&& operation matches Operation::Send { handle, .. }
                &&& Server::tidy_but(lp, handle)
            },
            _ => Server::tidy(lp),
        }
    }

    /// The server stays the one it was.
    open spec fn keeps(&self, origin: &Self) -> bool {
        *self == *origin
    }

    /// Answers the callback as `dispatch` does.
    fn handle(&mut self, lp: &mut Loop, pool: &mut BufferPool, fired: Fired)
        ensures
            *final(self) == *old(self),
            exists|event: Event|
                old(self).reacts(old(lp)@, final(lp)@, old(pool)@, final(pool)@, fired, event),
    {
        let ghost given = fired;
        let event = self.dispatch(lp, pool, fired);
        proof {
            if self.accepts(old(lp)@.at_rest(), old(pool)@, given) {
                match given {
                    Fired::Completed { operation, .. } => {
                        lemma_tidy_at_rest(old(lp)@, operation->Send_handle);
                    },
                    _ => {
                        lemma_tidy_at_rest(old(lp)@, 0);
                    },
                }
                lemma_server_keeps_tidy(*self, old(lp)@, lp@, old(pool)@, pool@, given, event);
                lemma_tidy_at_rest(lp@, 0);
            }
        }
    }
}

/// A callback that the server accepts leaves the loop tidy.
pub proof fn lemma_server_keeps_tidy(
    server: Server,
    lp0: LoopView,
    lp1: LoopView,
    pool0: PoolView,
    pool1: PoolView,
    fired: Fired,
    event: Event,
)
    requires
        server.accepts(lp0, pool0, fired),
        server.reacts(lp0, lp1, pool0, pool1, fired, event),
    ensures
        Server::tidy(lp1),
{
    match fired {
        Fired::Connection { handle } => {
            lemma_connection_stays_tidy(lp0, lp1, handle, Ok(()), Ok(()), event->Connection_0);
        },
        Fired::Read { handle, incoming } => {
            let (pool_mid, nread, view) = choose|
                pool_mid: PoolView,
                nread: Result<usize, ErrorKind>,
                view: Option<ReadView>,
            |
                #![trigger delivered(pool0, pool_mid, incoming, SUGGESTED_CAPACITY, nread, view)]
                {
                    &&& delivered(pool0, pool_mid, incoming, SUGGESTED_CAPACITY, nread, view)
                    &&& event matches Event::Read(echo)
                    &&& echoed(lp0, lp1, pool_mid, pool1, handle, nread, view, echo)
                };
            lemma_echo_stays_tidy(lp0, lp1, pool_mid, pool1, handle, nread, view, event->Read_0);
        },
        Fired::Completed { operation, .. } => {
            lemma_write_done_tidies(lp0, operation->Send_handle);
        },
        _ => {},
    }
}

/// The steps of the loop leave standing what the server keeps. The
/// callback of a write may find its connection with the reading stopped
/// and nothing else in flight: that is the one the server then closes. So
/// a run that begins with a tidy loop ends with a tidy loop.
pub proof fn lemma_server_is_steady()
    ensures
        steady::<Server>(),
{
    assert forall|
        handler: Server,
        before: LoopView,
        after: LoopView,
        pool: PoolView,
        fired: Option<Fired>,
    |
        #![trigger handler.holds(before, pool), before.stepped(after, fired)]
        handler.holds(before, pool) && before.wf() && !before.running && before.stepped(
            after,
            fired,
        ) implies match fired {
        Some(callback) => handler.accepts(after, pool, callback),
        None => handler.holds(after, pool),
    } by {
        match fired {
            Some(Fired::Completed { id, operation, result }) => {
                let i = choose|i: int|
                    {
                        &&& before.completed_first(i)
                        &&& before.requests[i] == (Request { id, operation, outcome: Some(result) })
                        &&& after == before.after_completion(i).counted()
                    };
                assert(before.requests[i].operation is Send);
                let client = operation->Send_handle;
                assert forall|j: int| 0 <= j < after.requests.len() implies (
                #[trigger] after.requests[j]).operation is Send by {
                    if j < i {
                        assert(before.requests[j].operation is Send);
                    } else {
                        assert(before.requests[j + 1].operation is Send);
                    }
                }
                assert forall|h: usize| #[trigger]
                    after.stopped(h) && h != client implies after.busy(h) by {
                    assert(before.stopped(h));
                    let j = choose|j: int|
                        0 <= j < before.requests.len() && (
                        #[trigger] before.requests[j]).operation.spec_handle() == Some(h);
                    if j < i {
                        assert(after.requests[j].operation.spec_handle() == Some(h));
                    } else {
                        assert(j > i);
                        assert(after.requests[j - 1].operation.spec_handle() == Some(h));
                    }
                }
            },
            _ => {
                assert(same_operations(before, after));
                assert forall|j: int| 0 <= j < after.requests.len() implies (
                #[trigger] after.requests[j]).operation is Send by {
                    assert(before.requests[j].operation is Send);
                }
                assert forall|h: usize| #[trigger] after.stopped(h) implies after.busy(h) by {
                    lemma_same_operations_same_busy(before, after, h);
                    assert(before.stopped(h));
                }
            },
        }
    }
}

impl Server {
    /// Runs the loop with the server as its handler. A loop that was tidy
    /// before the run is tidy after it: no connection that came to its
    /// end is left open with nothing in flight.
    pub fn run(&mut self, lp: &mut Loop, pool: &mut BufferPool, mode: RunMode) -> (r: Result<
        bool,
        ErrorKind,
    >)
        ensures
            match r {
                Err(e) => {
                    &&& e == ErrorKind::Busy
                    &&& old(lp)@.running
                    &&& final(lp)@ == old(lp)@
                    &&& *final(self) == *old(self)
                    &&& final(pool)@ == old(pool)@
                },
                Ok(alive) => {
                    &&& !old(lp)@.running
                    &&& !final(lp)@.running
                    &&& alive == final(lp)@.alive()
                    &&& final(lp)@.iteration >= old(lp)@.iteration
                    &&& final(lp)@.dispatched >= old(lp)@.dispatched
                    &&& final(lp)@.exhausted() || if mode == RunMode::Default {
                        !final(lp)@.alive() || !final(lp)@.ready()
                    } else {
                        final(lp)@.iteration > old(lp)@.iteration
                    }
                    &&& *final(self) == *old(self)
                    &&& Server::tidy(old(lp)@) ==> Server::tidy(final(lp)@)
                },
            },
    {
        let ghost origin = *self;
        proof {
            lemma_server_is_steady();
        }
        assert(self.keeps(&origin));
        lp.run(mode, self, pool)
    }
}

} // verus!
