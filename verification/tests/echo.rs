use uv_reactor::buffer::BufferPool;
use uv_reactor::echo_client::{self, Client, Reply, Sent, Started};
use uv_reactor::echo_server::{self, on_new_connection, Accepted, Echo, Server, DEFAULT_BACKLOG, DEFAULT_PORT};
use uv_reactor::error::ErrorKind;
use uv_reactor::flags::{BindFlags, RunMode};
use uv_reactor::handle::{Binding, Endpoint, HandleState};
use uv_reactor::reactor::{Loop, SUGGESTED_CAPACITY};
use uv_reactor::request::{Fired, Incoming};

const ROOM: usize = 4 * SUGGESTED_CAPACITY;

/// One side of the connection: a loop with its pool.
struct Side {
    lp: Loop,
    pool: BufferPool,
}

impl Side {
    fn new() -> Side {
        Side { lp: Loop::new(), pool: BufferPool::new(ROOM) }
    }
}

fn serve(side: &mut Side, server: &Server) -> Vec<echo_server::Event> {
    let mut events = Vec::new();
    while let Some(fired) = side.lp.next() {
        events.push(server.dispatch(&mut side.lp, &mut side.pool, fired));
    }
    events
}

fn attend(side: &mut Side, client: &mut Client) -> Vec<echo_client::Event> {
    let mut events = Vec::new();
    while let Some(fired) = side.lp.next() {
        events.push(client.dispatch(&mut side.lp, &mut side.pool, fired));
    }
    events
}

/// Plays the network for one write: takes the bytes of the request on
/// one side, completes it, and lets them arrive on the other side.
fn carry(from: &mut Loop, id: u64, to: &mut Loop, handle: usize) -> Vec<u8> {
    let bytes = from.payload(id).unwrap();
    from.complete(id, Ok(bytes.len())).unwrap();
    to.post(handle, Incoming::Data(bytes.clone())).unwrap();
    bytes
}

#[test]
fn the_client_observes_exactly_the_greeting_it_sent() {
    let mut s = Side::new();
    let mut c = Side::new();
    let server = Server::start(&mut s.lp);
    let (mut client, connect) = Client::start(&mut c.lp).unwrap();
    assert!(!client.ended);
    assert_eq!(DEFAULT_PORT, 7000);
    assert_eq!(echo_client::DEFAULT_PORT, 7000);

    // the connection comes about
    s.lp.post_connection(server.listener).unwrap();
    c.lp.complete(connect, Ok(0)).unwrap();

    // the server accepts and reads
    let events = serve(&mut s, &server);
    assert_eq!(events, vec![echo_server::Event::Connection(Accepted::Reading(1))]);
    let peer = 1;
    assert_eq!(s.lp.state(peer), Some(HandleState::Active));

    // the client writes its greeting
    let events = attend(&mut c, &mut client);
    assert_eq!(events, vec![echo_client::Event::Connected(Sent::Writing(1))]);
    let sent = carry(&mut c.lp, 1, &mut s.lp, peer);
    assert_eq!(sent, b"hello world".to_vec());

    // the client starts to read once its write is done
    let events = attend(&mut c, &mut client);
    assert_eq!(
        events,
        vec![echo_client::Event::Wrote(Started { write: None, read: None })]
    );
    assert_eq!(c.lp.state(client.conn), Some(HandleState::Active));
    assert!(c.pool.is_balanced());

    // the server echoes what it read, and nothing more
    let events = serve(&mut s, &server);
    assert_eq!(events, vec![echo_server::Event::Read(Echo::Writing(0))]);
    let echoed = carry(&mut s.lp, 0, &mut c.lp, client.conn);
    assert_eq!(echoed, b"hello world".to_vec());
    assert_eq!(serve(&mut s, &server), vec![echo_server::Event::Wrote(None)]);
    assert!(s.pool.is_balanced());

    // the client observes exactly what it sent
    let events = attend(&mut c, &mut client);
    assert_eq!(
        events,
        vec![echo_client::Event::Read(Reply::Data(b"hello world".to_vec()))]
    );
    assert!(c.pool.is_balanced());

    // the server ends the connection; the client closes
    c.lp.post(client.conn, Incoming::End(ErrorKind::Eof)).unwrap();
    assert_eq!(
        attend(&mut c, &mut client),
        vec![echo_client::Event::Read(Reply::Closed(None))]
    );
    assert_eq!(c.lp.state(client.conn), Some(HandleState::Closing));
    assert!(client.ended);
    let conn = client.conn;
    assert_eq!(attend(&mut c, &mut client), vec![echo_client::Event::Gone(conn)]);
    assert!(!c.lp.alive());
    assert!(c.lp.destroy().is_ok());
    assert_eq!(c.pool.allocations(), c.pool.releases());
    assert_eq!(s.pool.allocations(), s.pool.releases());
}

#[test]
fn the_greeting_comes_back_in_a_run_of_the_client() {
    let mut s = Side::new();
    let mut c = Side::new();
    let mut server = Server::start(&mut s.lp);
    let (client, connect) = Client::start(&mut c.lp).unwrap();
    let mut session = echo_client::Session { client, reply: Vec::new() };

    s.lp.post_connection(server.listener).unwrap();
    c.lp.complete(connect, Ok(0)).unwrap();
    assert_eq!(s.lp.run(RunMode::Default, &mut server, &mut s.pool), Ok(true));
    assert_eq!(c.lp.run(RunMode::Default, &mut session, &mut c.pool), Ok(true));
    carry(&mut c.lp, 1, &mut s.lp, 1);
    assert_eq!(c.lp.run(RunMode::Default, &mut session, &mut c.pool), Ok(true));
    assert_eq!(s.lp.run(RunMode::Default, &mut server, &mut s.pool), Ok(true));
    carry(&mut s.lp, 0, &mut c.lp, client.conn);
    assert_eq!(s.lp.run(RunMode::Default, &mut server, &mut s.pool), Ok(true));
    assert_eq!(c.lp.run(RunMode::Default, &mut session, &mut c.pool), Ok(true));
    assert_eq!(session.reply, b"hello world".to_vec());

    c.lp.post(client.conn, Incoming::End(ErrorKind::Eof)).unwrap();
    assert_eq!(c.lp.run(RunMode::Default, &mut session, &mut c.pool), Ok(false));
    assert_eq!(c.lp.state(client.conn), Some(HandleState::Closed));
    assert_eq!(session.reply, b"hello world".to_vec());
    assert!(c.pool.is_balanced());
    assert!(s.pool.is_balanced());
}

#[test]
fn the_server_listens_on_a_bound_handle() {
    let mut lp = Loop::new();
    let server = Server::start(&mut lp);
    let record = lp.handle(server.listener).unwrap();
    assert_eq!(record.state, HandleState::Active);
    assert_eq!(
        record.bound,
        Some(Binding { local: Endpoint { address: 0, port: DEFAULT_PORT }, flags: BindFlags::empty() })
    );
    assert!(record.listening);
    assert_eq!(record.backlog, DEFAULT_BACKLOG);
    assert_eq!(DEFAULT_BACKLOG, 128);
}

#[test]
fn the_server_echoes_every_chunk_to_the_connection_it_came_on() {
    let mut s = Side::new();
    let server = Server::start(&mut s.lp);
    s.lp.post_connection(server.listener).unwrap();
    s.lp.post_connection(server.listener).unwrap();
    // one connection is taken in an iteration
    assert_eq!(
        serve(&mut s, &server),
        vec![echo_server::Event::Connection(Accepted::Reading(1))]
    );
    assert_eq!(
        serve(&mut s, &server),
        vec![echo_server::Event::Connection(Accepted::Reading(2))]
    );
    s.lp.post(2, Incoming::Data(b"to two".to_vec())).unwrap();
    s.lp.post(1, Incoming::Data(b"to one".to_vec())).unwrap();
    s.lp.post(1, Incoming::Data(Vec::new())).unwrap();
    assert_eq!(
        serve(&mut s, &server),
        vec![
            echo_server::Event::Read(Echo::Writing(0)),
            echo_server::Event::Read(Echo::Writing(1)),
            echo_server::Event::Read(Echo::Nothing),
        ]
    );
    assert_eq!(s.lp.payload(0), Some(b"to two".to_vec()));
    assert_eq!(s.lp.payload(1), Some(b"to one".to_vec()));
    s.lp.complete(1, Ok(6)).unwrap();
    s.lp.complete(0, Err(ErrorKind::Os(32))).unwrap();
    let mut handles = Vec::new();
    while let Some(fired) = s.lp.next() {
        if let Fired::Completed { operation, .. } = &fired {
            handles.push(operation.handle());
        }
        server.dispatch(&mut s.lp, &mut s.pool, fired);
    }
    assert_eq!(handles, vec![Some(2), Some(1)]);
    assert!(s.pool.is_balanced());
    assert_eq!(s.lp.state(1), Some(HandleState::Active));
    assert_eq!(s.lp.state(2), Some(HandleState::Active));
}

#[test]
fn the_server_closes_a_connection_at_its_end_and_goes_on_listening() {
    let mut s = Side::new();
    let server = Server::start(&mut s.lp);
    s.lp.post_connection(server.listener).unwrap();
    serve(&mut s, &server);
    s.lp.post(1, Incoming::End(ErrorKind::Eof)).unwrap();
    assert_eq!(
        serve(&mut s, &server),
        vec![echo_server::Event::Read(Echo::Closed(None))]
    );
    assert_eq!(s.lp.state(1), Some(HandleState::Closing));
    assert_eq!(serve(&mut s, &server), vec![echo_server::Event::Gone(1)]);
    assert_eq!(s.lp.state(1), Some(HandleState::Closed));
    assert_eq!(s.lp.state(server.listener), Some(HandleState::Active));
    assert!(s.lp.alive());
    assert!(s.pool.is_balanced());
}

#[test]
fn a_failure_of_a_connection_is_reported_and_closes_it() {
    let mut s = Side::new();
    let server = Server::start(&mut s.lp);
    s.lp.post_connection(server.listener).unwrap();
    serve(&mut s, &server);
    s.lp.post(1, Incoming::End(ErrorKind::Os(104))).unwrap();
    assert_eq!(
        serve(&mut s, &server),
        vec![echo_server::Event::Read(Echo::Closed(Some(ErrorKind::Os(104))))]
    );
    assert_eq!(s.lp.state(1), Some(HandleState::Closing));
}

#[test]
fn a_connection_that_cannot_be_accepted_costs_the_new_handle_only() {
    let mut lp = Loop::new();
    let server = Server::start(&mut lp);
    // nothing waits: another callback took the connection
    let accepted = on_new_connection(&mut lp, server.listener, Ok(()), Ok(()));
    assert_eq!(accepted, Accepted::Failed(1, ErrorKind::WouldBlock));
    assert_eq!(lp.state(1), Some(HandleState::Closing));
    assert_eq!(lp.state(server.listener), Some(HandleState::Active));
    lp.post_connection(server.listener).unwrap();
    assert_eq!(on_new_connection(&mut lp, server.listener, Ok(()), Ok(())), Accepted::Reading(2));
}

#[test]
fn a_connection_callback_with_an_error_does_nothing() {
    let mut lp = Loop::new();
    let server = Server::start(&mut lp);
    let accepted = on_new_connection(&mut lp, server.listener, Err(ErrorKind::Os(24)), Ok(()));
    assert_eq!(accepted, Accepted::Refused(ErrorKind::Os(24)));
    assert!(lp.handle(1).is_none());
}

#[test]
fn the_server_sends_back_the_bytes_that_were_read_and_no_more() {
    let mut lp = Loop::new();
    let mut pool = BufferPool::new(64);
    let h = lp.pipe();
    lp.open(h, 1).unwrap();
    let mut b = pool.allocate(16).unwrap();
    b.fill(b"0123456789");
    let echo = echo_server::echo_read(&mut lp, &mut pool, h, Ok(4), Some(b.freeze()));
    assert_eq!(echo, Echo::Writing(0));
    assert_eq!(lp.payload(0), Some(b"0123".to_vec()));
    let b = pool.allocate(16).unwrap();
    let echo = echo_server::echo_read(&mut lp, &mut pool, h, Ok(17), Some(b.freeze()));
    assert_eq!(echo, Echo::WriteFailed(ErrorKind::NoMemory));
    let b = pool.allocate(16).unwrap();
    let echo = echo_server::echo_read(&mut lp, &mut pool, 9, Ok(4), Some(b.freeze()));
    assert_eq!(echo, Echo::WriteFailed(ErrorKind::Unknown));
    assert_eq!(pool.outstanding(), 16);
    let echo = echo_server::echo_read(&mut lp, &mut pool, h, Ok(4), None);
    assert_eq!(echo, Echo::Nothing);
}

#[test]
fn echo_write_releases_the_buffer_whatever_the_status() {
    let mut lp = Loop::new();
    let mut pool = BufferPool::new(64);
    let h = lp.pipe();
    lp.read_start(h).unwrap();
    let b = pool.allocate(4).unwrap();
    assert_eq!(echo_server::echo_write(&mut lp, &mut pool, h, b, Ok(4)), None);
    let b = pool.allocate(4).unwrap();
    assert_eq!(
        echo_server::echo_write(&mut lp, &mut pool, h, b, Err(ErrorKind::Canceled)),
        Some(ErrorKind::Canceled)
    );
    assert!(pool.is_balanced());
    // the connection is being read: the write callback closes nothing
    assert_eq!(lp.state(h), Some(HandleState::Active));
    let b = pool.allocate(4).unwrap();
    assert_eq!(echo_server::echo_write(&mut lp, &mut pool, 9, b, Ok(4)), None);
    assert!(pool.is_balanced());
}

#[test]
fn the_end_of_a_connection_cancels_no_write_that_is_in_flight() {
    let mut s = Side::new();
    let server = Server::start(&mut s.lp);
    s.lp.post_connection(server.listener).unwrap();
    serve(&mut s, &server);
    let peer = 1;
    // two chunks are echoed; then the stream ends before either write is done
    s.lp.post(peer, Incoming::Data(b"ab".to_vec())).unwrap();
    s.lp.post(peer, Incoming::Data(b"cd".to_vec())).unwrap();
    s.lp.post(peer, Incoming::End(ErrorKind::Eof)).unwrap();
    assert_eq!(
        serve(&mut s, &server),
        vec![
            echo_server::Event::Read(Echo::Writing(0)),
            echo_server::Event::Read(Echo::Writing(1)),
            echo_server::Event::Read(Echo::Closed(None)),
        ]
    );
    // reading is stopped; nothing is closed, and nothing canceled
    assert_eq!(s.lp.state(peer), Some(HandleState::Stopped));
    assert!(s.lp.busy(peer));
    assert_eq!(s.lp.payload(0), Some(b"ab".to_vec()));
    assert_eq!(s.lp.payload(1), Some(b"cd".to_vec()));

    // the first write succeeds: the connection stays, for the second
    assert_eq!(s.lp.complete(0, Ok(2)), Ok(()));
    assert_eq!(serve(&mut s, &server), vec![echo_server::Event::Wrote(None)]);
    assert_eq!(s.lp.state(peer), Some(HandleState::Stopped));

    // the last write is done: now close is requested, once
    assert_eq!(s.lp.complete(1, Ok(2)), Ok(()));
    assert_eq!(serve(&mut s, &server), vec![echo_server::Event::Wrote(None)]);
    assert_eq!(s.lp.state(peer), Some(HandleState::Closing));
    assert!(s.pool.is_balanced());

    // the close callback fires in a later iteration, once
    assert_eq!(serve(&mut s, &server), vec![echo_server::Event::Gone(peer)]);
    assert_eq!(s.lp.state(peer), Some(HandleState::Closed));
    for _ in 0..3 {
        assert_eq!(serve(&mut s, &server), Vec::<echo_server::Event>::new());
    }
    assert_eq!(s.lp.state(server.listener), Some(HandleState::Active));
}

#[test]
fn a_failed_write_after_the_end_closes_the_connection_too() {
    let mut s = Side::new();
    let server = Server::start(&mut s.lp);
    s.lp.post_connection(server.listener).unwrap();
    serve(&mut s, &server);
    s.lp.post(1, Incoming::Data(b"ab".to_vec())).unwrap();
    s.lp.post(1, Incoming::End(ErrorKind::Os(104))).unwrap();
    assert_eq!(
        serve(&mut s, &server),
        vec![
            echo_server::Event::Read(Echo::Writing(0)),
            echo_server::Event::Read(Echo::Closed(Some(ErrorKind::Os(104)))),
        ]
    );
    assert_eq!(s.lp.state(1), Some(HandleState::Stopped));
    assert_eq!(s.lp.complete(0, Err(ErrorKind::Os(32))), Ok(()));
    assert_eq!(
        serve(&mut s, &server),
        vec![echo_server::Event::Wrote(Some(ErrorKind::Os(32)))]
    );
    assert_eq!(s.lp.state(1), Some(HandleState::Closing));
    assert!(s.pool.is_balanced());
}

#[test]
fn what_the_operating_system_made_of_an_accept() {
    let mut lp = Loop::new();
    let server = Server::start(&mut lp);
    lp.post_connection(server.listener).unwrap();
    assert_eq!(on_new_connection(&mut lp, server.listener, Ok(()), Ok(())), Accepted::Reading(1));
    assert_eq!(echo_server::on_accepted(&mut lp, 1, Ok(())), Accepted::Reading(1));
    assert_eq!(lp.state(1), Some(HandleState::Active));
    assert_eq!(
        echo_server::on_accepted(&mut lp, 1, Err(ErrorKind::Os(24))),
        Accepted::Failed(1, ErrorKind::Os(24))
    );
    assert_eq!(lp.state(1), Some(HandleState::Closing));
    assert_eq!(lp.state(server.listener), Some(HandleState::Active));
    assert_eq!(
        echo_server::on_accepted(&mut lp, 9, Err(ErrorKind::Os(24))),
        Accepted::Failed(9, ErrorKind::Os(24))
    );
}

#[test]
fn the_client_closes_after_its_write_when_the_end_came_first() {
    let mut lp = Loop::new();
    let mut pool = BufferPool::new(64);
    let h = lp.pipe();
    lp.open(h, 0).unwrap();
    lp.read_start(h).unwrap();
    let id = lp.write(h, pool.from_bytes(b"hello world").unwrap()).unwrap();
    let mut client = Client { conn: h, ended: false };
    lp.post(h, Incoming::End(ErrorKind::Eof)).unwrap();
    let fired = lp.next().unwrap();
    assert_eq!(
        client.dispatch(&mut lp, &mut pool, fired),
        echo_client::Event::Read(Reply::Closed(None))
    );
    assert!(client.ended);
    // the write is in flight: reading is stopped, nothing is canceled
    assert_eq!(lp.state(h), Some(HandleState::Stopped));
    assert_eq!(lp.complete(id, Ok(11)), Ok(()));
    let fired = lp.next().unwrap();
    assert_eq!(
        client.dispatch(&mut lp, &mut pool, fired),
        echo_client::Event::Wrote(Started { write: None, read: None })
    );
    // reading is not started again; the connection is closed
    assert_eq!(lp.state(h), Some(HandleState::Closing));
    assert!(pool.is_balanced());
    assert!(lp.next().is_none());
    assert!(matches!(lp.next(), Some(Fired::Closed { handle }) if handle == h));
}

#[test]
fn a_failed_connect_sends_nothing() {
    let mut c = Side::new();
    let (mut client, connect) = Client::start(&mut c.lp).unwrap();
    c.lp.complete(connect, Err(ErrorKind::Os(111))).unwrap();
    assert_eq!(
        attend(&mut c, &mut client),
        vec![echo_client::Event::Connected(Sent::ConnectFailed(ErrorKind::Os(111)))]
    );
    assert_eq!(c.pool.allocations(), 0);
    assert!(!c.lp.alive());
}

#[test]
fn the_client_reports_what_keeps_it_from_sending() {
    let mut lp = Loop::new();
    let mut pool = BufferPool::new(10);
    let h = lp.tcp();
    assert_eq!(
        echo_client::on_connect(&mut lp, &mut pool, h, Ok(0)),
        Sent::BufferFailed(ErrorKind::NoMemory)
    );
    let mut pool = BufferPool::new(11);
    // the handle was never connected
    assert_eq!(
        echo_client::on_connect(&mut lp, &mut pool, h, Ok(0)),
        Sent::WriteFailed(ErrorKind::InvalidState)
    );
    assert!(pool.is_balanced());
    assert_eq!(pool.allocations(), 1);
}

#[test]
fn the_client_reads_after_its_write_whether_it_failed_or_not() {
    let mut lp = Loop::new();
    let mut pool = BufferPool::new(64);
    let h = lp.pipe();
    lp.open(h, 0).unwrap();
    let b = pool.allocate(4).unwrap();
    let started = echo_client::on_write(&mut lp, &mut pool, h, false, Err(ErrorKind::Os(32)), b);
    assert_eq!(started, Started { write: Some(ErrorKind::Os(32)), read: None });
    assert_eq!(lp.state(h), Some(HandleState::Active));
    assert!(pool.is_balanced());
    let b = pool.allocate(4).unwrap();
    let started = echo_client::on_write(&mut lp, &mut pool, h, false, Ok(4), b);
    assert_eq!(started, Started { write: None, read: Some(ErrorKind::InvalidState) });
    // on a connection at its end nothing is started: it is closed
    let b = pool.allocate(4).unwrap();
    let started = echo_client::on_write(&mut lp, &mut pool, h, true, Ok(4), b);
    assert_eq!(started, Started { write: None, read: None });
    assert_eq!(lp.state(h), Some(HandleState::Closing));
    assert!(pool.is_balanced());
}

#[test]
fn a_reply_is_the_bytes_that_were_read() {
    let mut lp = Loop::new();
    let mut pool = BufferPool::new(64);
    let h = lp.pipe();
    lp.read_start(h).unwrap();
    let mut b = pool.allocate(16).unwrap();
    b.fill(b"hello world");
    let reply = echo_client::echo_read(&mut lp, &mut pool, h, Ok(11), Some(b.freeze()));
    assert_eq!(reply, Reply::Data(b"hello world".to_vec()));
    assert!(pool.is_balanced());
    let b = pool.allocate(16).unwrap();
    let reply = echo_client::echo_read(&mut lp, &mut pool, h, Ok(0), Some(b.freeze()));
    assert_eq!(reply, Reply::Nothing);
    assert_eq!(lp.state(h), Some(HandleState::Active));
    assert!(pool.is_balanced());
    let reply = echo_client::echo_read(&mut lp, &mut pool, h, Err(ErrorKind::Os(104)), None);
    assert_eq!(reply, Reply::Closed(Some(ErrorKind::Os(104))));
    assert_eq!(lp.state(h), Some(HandleState::Closing));
}

/// Whether some connection has its reading stopped and nothing in flight.
fn left_open(lp: &Loop) -> bool {
    (0..8).any(|h| lp.state(h) == Some(HandleState::Stopped) && !lp.busy(h))
}

#[test]
fn a_run_of_the_server_leaves_no_ended_connection_open() {
    let mut s = Side::new();
    let mut server = Server::start(&mut s.lp);
    s.lp.post_connection(server.listener).unwrap();
    assert_eq!(server.run(&mut s.lp, &mut s.pool, RunMode::NoWait), Ok(true));
    let peer = 1;
    assert_eq!(s.lp.state(peer), Some(HandleState::Active));
    assert!(!left_open(&s.lp));

    // the stream ends while the echo is in flight: the write keeps it open
    s.lp.post(peer, Incoming::Data(b"ab".to_vec())).unwrap();
    s.lp.post(peer, Incoming::End(ErrorKind::Eof)).unwrap();
    assert_eq!(server.run(&mut s.lp, &mut s.pool, RunMode::NoWait), Ok(true));
    assert_eq!(s.lp.state(peer), Some(HandleState::Stopped));
    assert!(s.lp.busy(peer));
    assert!(!left_open(&s.lp));

    // the write is done: its callback closes the connection
    assert_eq!(s.lp.complete(0, Ok(2)), Ok(()));
    assert_eq!(server.run(&mut s.lp, &mut s.pool, RunMode::NoWait), Ok(true));
    assert!(!left_open(&s.lp));
    assert_eq!(server.run(&mut s.lp, &mut s.pool, RunMode::NoWait), Ok(true));
    assert_eq!(s.lp.state(peer), Some(HandleState::Closed));
    assert_eq!(s.lp.state(server.listener), Some(HandleState::Active));
    assert!(s.pool.is_balanced());
    assert_eq!(server, Server { listener: 0 });
}

#[test]
fn a_run_of_the_client_ends_with_its_connection_closed() {
    let mut s = Side::new();
    let (client, connect) = Client::start(&mut s.lp).unwrap();
    let mut session = echo_client::Session { client, reply: Vec::new() };
    s.lp.complete(connect, Ok(0)).unwrap();
    assert_eq!(session.run(&mut s.lp, &mut s.pool, RunMode::NoWait), Ok(true));
    // the greeting is on its way; it comes back, and then the stream ends
    let greeting = s.lp.payload(1).unwrap();
    assert_eq!(greeting, b"hello world".to_vec());
    s.lp.complete(1, Ok(greeting.len())).unwrap();
    assert_eq!(session.run(&mut s.lp, &mut s.pool, RunMode::NoWait), Ok(true));
    assert_eq!(s.lp.state(session.client.conn), Some(HandleState::Active));
    s.lp.post(session.client.conn, Incoming::Data(greeting.clone())).unwrap();
    s.lp.post(session.client.conn, Incoming::End(ErrorKind::Eof)).unwrap();
    assert_eq!(session.run(&mut s.lp, &mut s.pool, RunMode::Default), Ok(false));
    assert_eq!(session.reply, greeting);
    assert!(session.client.ended);
    assert_eq!(s.lp.state(session.client.conn), Some(HandleState::Closed));
    assert!(s.pool.is_balanced());
}

#[test]
fn a_connection_for_which_no_handle_can_be_made_changes_nothing() {
    let mut lp = Loop::new();
    let server = Server::start(&mut lp);
    lp.post_connection(server.listener).unwrap();
    let made = Err(ErrorKind::Os(24));
    assert_eq!(
        on_new_connection(&mut lp, server.listener, Ok(()), made),
        Accepted::Unmade(ErrorKind::Os(24))
    );
    // nothing is accepted, started or closed: the connection waits on
    assert_eq!(lp.state(server.listener), Some(HandleState::Active));
    assert_eq!(lp.state(1), None);
    assert_eq!(lp.handle(server.listener).unwrap().waiting, 1);
    assert!(lp.alive());
    // an error of the callback comes first
    assert_eq!(
        on_new_connection(&mut lp, server.listener, Err(ErrorKind::Os(103)), made),
        Accepted::Refused(ErrorKind::Os(103))
    );
    assert_eq!(lp.state(1), None);
    // with a handle the connection that waited is taken
    assert_eq!(on_new_connection(&mut lp, server.listener, Ok(()), Ok(())), Accepted::Reading(1));
    assert_eq!(lp.handle(server.listener).unwrap().waiting, 0);
}

#[test]
fn the_server_answers_a_connection_callback_without_a_handle() {
    let mut s = Side::new();
    let server = Server::start(&mut s.lp);
    s.lp.post_connection(server.listener).unwrap();
    let fired = s.lp.next().unwrap();
    assert_eq!(
        server.dispatch_given(&mut s.lp, &mut s.pool, fired, Err(ErrorKind::NoMemory)),
        echo_server::Event::Connection(Accepted::Unmade(ErrorKind::NoMemory))
    );
    assert_eq!(s.lp.state(1), None);
    // the connection still waits: its callback is due again in the next iteration
    assert!(s.lp.next().is_none());
    let fired = s.lp.next().unwrap();
    assert_eq!(
        server.dispatch_given(&mut s.lp, &mut s.pool, fired, Ok(())),
        echo_server::Event::Connection(Accepted::Reading(1))
    );
    assert_eq!(s.lp.state(1), Some(HandleState::Active));
    // the outcome of making a handle is asked of a connection callback only
    s.lp.post(1, Incoming::Data(b"ab".to_vec())).unwrap();
    let fired = s.lp.next().unwrap();
    assert_eq!(
        server.dispatch_given(&mut s.lp, &mut s.pool, fired, Err(ErrorKind::NoMemory)),
        echo_server::Event::Read(Echo::Writing(0))
    );
}
