//! The echo client and the echo server together, each on a loop of its
//! own, with a network in memory between them that carries the bytes of
//! every write to the other side, in pieces.

use crate::buffer::{lemma_lease_give_back, BufferPool, PoolView};
use crate::echo_client::{self, greeting, Client, Reply};
use crate::echo_server::{self, Echo, Server};
use crate::error::ErrorKind;
use crate::laws::{law_arrival_fires_next, law_completion_fires_first, law_handle_fires_last};
use crate::reactor::{Loop, LoopView, SUGGESTED_CAPACITY};
use crate::request::{Arrival, Incoming, Request};
use vstd::prelude::*;
use vstd::slice::{slice_subrange, slice_to_vec};

verus! {

/// A loop at rest between two pieces: nothing is in flight, nothing
/// waits, and the connection is being read.
pub open spec fn listening_on(lp: LoopView, conn: usize) -> bool {
    &&& lp.requests.len() == 0
    &&& lp.arrivals.len() == 0
    &&& lp.has(conn)
    &&& lp.handles[conn as int].reading()
}

/// Lets a piece arrive at the server on the connection `peer`, lets the
/// server answer, and carries out the write of the echo. Returns the
/// bytes that the server sent back. There is always a result: `None`
/// stands for what the contracts of the loop and the server rule out.
fn echo_piece(server: &Server, lp: &mut Loop, pool: &mut BufferPool, peer: usize, piece: Vec<u8>) -> (r:
    Option<Vec<u8>>)
    requires
        listening_on(old(lp)@, peer),
        !old(lp)@.full(),
        0 < piece@.len() <= SUGGESTED_CAPACITY,
        old(pool)@.has_room(SUGGESTED_CAPACITY as nat),
    ensures
        r matches Some(echo) && echo@ == piece@,
        listening_on(final(lp)@, peer),
        final(lp)@.issued == old(lp)@.issued + 1,
        final(pool)@ == old(pool)@.cycled(1),
{
    let ghost data = piece@;
    let ghost pool0 = pool@;
    let posted = lp.post(peer, Incoming::Data(piece));
    assert(posted is Ok);
    let ghost waiting = lp@;
    assert(waiting.deliverable(0));
    let fired = lp.next();
    proof {
        law_arrival_fires_next(waiting, lp@, fired);
    }
    let ghost read = lp@;
    let Some(fired) = fired else {
        return None;
    };
    let event = server.dispatch(lp, pool, fired);
    let ghost sent = lp@;
    let echo_server::Event::Read(Echo::Writing(id)) = event else {
        assert(false);
        return None;
    };
    assert(sent.position(id, 0));
    let Some(bytes) = lp.payload(id) else {
        assert(false);
        return None;
    };
    let done = lp.complete(id, Ok(bytes.len()));
    assert(done is Ok) by {
        assert(sent.admits(0, Ok::<usize, ErrorKind>(bytes.len())));
    }
    let ghost answered = lp@;
    let fired = lp.next();
    proof {
        law_completion_fires_first(answered, lp@, fired);
    }
    let Some(fired) = fired else {
        return None;
    };
    let _ = server.dispatch(lp, pool, fired);
    proof {
        lemma_lease_give_back(pool0, pool0.allocations as u64, SUGGESTED_CAPACITY as nat);
        assert(lp@.requests =~= Seq::<Request>::empty());
    }
    Some(bytes)
}

/// Lets a piece arrive at the client on its connection and lets the
/// client answer. Returns the bytes that the client took as its reply.
fn take_piece(client: &mut Client, lp: &mut Loop, pool: &mut BufferPool, piece: Vec<u8>) -> (r:
    Option<Vec<u8>>)
    requires
        listening_on(old(lp)@, old(client).conn),
        0 < piece@.len() <= SUGGESTED_CAPACITY,
        old(pool)@.has_room(SUGGESTED_CAPACITY as nat),
    ensures
        r matches Some(reply) && reply@ == piece@,
        *final(client) == *old(client),
        listening_on(final(lp)@, final(client).conn),
        final(lp)@.issued == old(lp)@.issued,
        final(pool)@ == old(pool)@.cycled(1),
{
    let ghost pool0 = pool@;
    let posted = lp.post(client.conn, Incoming::Data(piece));
    assert(posted is Ok);
    let ghost waiting = lp@;
    assert(waiting.deliverable(0));
    let fired = lp.next();
    proof {
        law_arrival_fires_next(waiting, lp@, fired);
    }
    let Some(fired) = fired else {
        return None;
    };
    let event = client.dispatch(lp, pool, fired);
    proof {
        lemma_lease_give_back(pool0, pool0.allocations as u64, SUGGESTED_CAPACITY as nat);
        assert(lp@.arrivals =~= Seq::<Arrival>::empty());
    }
    let echo_client::Event::Read(Reply::Data(bytes)) = event else {
        assert(false);
        return None;
    };
    assert(bytes@ =~= piece@);
    Some(bytes)
}

/// Starts the server on a new loop and lets it accept one connection.
/// Returns the server and the handle of the connection.
fn receive_one(lp: &mut Loop, pool: &mut BufferPool) -> (r: Option<(Server, usize)>)
    requires
        old(lp)@ == LoopView::empty(),
    ensures
        r matches Some((server, peer)) && listening_on(final(lp)@, peer),
        final(lp)@.issued == 0,
        final(pool)@ == old(pool)@,
{
    let server = Server::start(lp);
    let posted = lp.post_connection(server.listener);
    assert(posted is Ok);
    let ghost waiting = lp@;
    assert(waiting.due_first(0));
    let fired = lp.next();
    proof {
        law_handle_fires_last(waiting, lp@, fired, 0);
    }
    let Some(fired) = fired else {
        return None;
    };
    let event = server.dispatch(lp, pool, fired);
    let echo_server::Event::Connection(echo_server::Accepted::Reading(peer)) = event else {
        assert(false);
        return None;
    };
    Some((server, peer))
}

/// Starts the client on a new loop, connects it, and carries out the
/// write of its greeting. Returns the client and the bytes it sent.
fn greet(lp: &mut Loop, pool: &mut BufferPool) -> (r: Option<(Client, Vec<u8>)>)
    requires
        old(lp)@ == LoopView::empty(),
        old(pool)@.has_room(greeting().len()),
    ensures
        r matches Some((client, sent)) && sent@ == greeting() && !client.ended && listening_on(
            final(lp)@,
            client.conn,
        ),
        final(lp)@.issued == 2,
        final(pool)@ == old(pool)@.cycled(1),
{
    let ghost pool0 = pool@;
    let Ok((client, connect)) = Client::start(lp) else {
        assert(false);
        return None;
    };
    let mut client = client;
    let ghost asked = lp@;
    assert(asked.position(connect, 0));
    let done = lp.complete(connect, Ok(0));
    assert(done is Ok) by {
        assert(asked.admits(0, Ok::<usize, ErrorKind>(0)));
    }
    let ghost connected = lp@;
    let fired = lp.next();
    proof {
        law_completion_fires_first(connected, lp@, fired);
    }
    let Some(fired) = fired else {
        return None;
    };
    let event = client.dispatch(lp, pool, fired);
    let echo_client::Event::Connected(echo_client::Sent::Writing(id)) = event else {
        assert(false);
        return None;
    };
    let ghost sending = lp@;
    assert(sending.position(id, 0));
    let Some(bytes) = lp.payload(id) else {
        assert(false);
        return None;
    };
    let done = lp.complete(id, Ok(bytes.len()));
    assert(done is Ok) by {
        assert(sending.admits(0, Ok::<usize, ErrorKind>(bytes.len())));
    }
    let ghost sent = lp@;
    let fired = lp.next();
    proof {
        law_completion_fires_first(sent, lp@, fired);
    }
    let Some(fired) = fired else {
        return None;
    };
    let _ = client.dispatch(lp, pool, fired);
    proof {
        lemma_lease_give_back(pool0, pool0.allocations as u64, greeting().len());
        assert(lp@.requests =~= Seq::<Request>::empty());
    }
    Some((client, bytes))
}

/// The size of the pieces in which the network carries the bytes, for a
/// wanted size: the whole greeting in one piece where no size is wanted,
/// or one that is longer than the greeting.
pub open spec fn piece_size(cut: usize) -> nat {
    if cut == 0 || cut > greeting().len() {
        greeting().len()
    } else {
        cut as nat
    }
}

/// The number of pieces in which the greeting travels.
pub open spec fn pieces(cut: usize) -> nat {
    ((greeting().len() - 1) / (piece_size(cut) as int) + 1) as nat
}

/// Whether the two pools have room for a conversation: each for one read
/// at a time, the client's for the greeting too, and ids for every
/// buffer that the conversation allocates.
pub open spec fn roomy(client: PoolView, server: PoolView, cut: usize) -> bool {
    &&& client.outstanding + SUGGESTED_CAPACITY <= client.budget
    &&& client.allocations + 1 + pieces(cut) <= u64::MAX
    &&& server.outstanding + SUGGESTED_CAPACITY <= server.budget
    &&& server.allocations + pieces(cut) <= u64::MAX
}

/// Pieces of one size that reach the end of the greeting, and did not
/// before the last of them, are as many as `pieces` says.
proof fn lemma_pieces_reach_the_end(size: int, rounds: int)
    requires
        0 < size <= 11,
        rounds >= 1,
        rounds * size >= 11,
        (rounds - 1) * size < 11,
    ensures
        rounds == 10int / size + 1,
{
    let q = 10int / size;
    vstd::arithmetic::div_mod::lemma_fundamental_div_mod(10, size);
    vstd::arithmetic::div_mod::lemma_mod_bound(10, size);
    assert(rounds > q) by (nonlinear_arith)
        requires
            size * q <= 10,
            rounds * size >= 11,
            size > 0,
    ;
    assert(rounds <= q + 1) by (nonlinear_arith)
        requires
            10 < size * q + size,
            (rounds - 1) * size < 11,
            size > 0,
    ;
}

/// A whole conversation in memory. The server listens and accepts the
/// client; the client sends its greeting; the network carries it to the
/// server in pieces of `cut` bytes, the last one shorter where it has to
/// be; the server sends each piece back as it came, and the network
/// carries it to the client. Then the stream ends for both. Returns the
/// reply that the client gathered: the greeting, byte for byte, whatever
/// the size of the pieces. Every buffer is released again.
pub fn converse(cut: usize, client_pool: &mut BufferPool, server_pool: &mut BufferPool) -> (r:
    Result<Vec<u8>, ErrorKind>)
    ensures
        match r {
            Ok(reply) => {
                &&& roomy(old(client_pool)@, old(server_pool)@, cut)
                &&& reply@ == greeting()
                &&& final(client_pool)@ == old(client_pool)@.cycled(1 + pieces(cut))
                &&& final(server_pool)@ == old(server_pool)@.cycled(pieces(cut))
            },
            Err(e) => {
                &&& !roomy(old(client_pool)@, old(server_pool)@, cut)
                &&& e == ErrorKind::NoMemory
                &&& final(client_pool)@ == old(client_pool)@
                &&& final(server_pool)@ == old(server_pool)@
            },
        },
{
    let size: usize = if cut == 0 || cut > 11 {
        11
    } else {
        cut
    };
    let count: usize = 10 / size + 1;
    assert(greeting().len() == 11);
    assert(size == piece_size(cut) && count == pieces(cut));
    assert(count <= 11) by {
        vstd::arithmetic::div_mod::lemma_div_is_ordered_by_denominator(10, 1, size as int);
    }
    if client_pool.budget() - client_pool.outstanding() < SUGGESTED_CAPACITY
        || client_pool.allocations() > u64::MAX - 1 - (count as u64)
        || server_pool.budget() - server_pool.outstanding() < SUGGESTED_CAPACITY
        || server_pool.allocations() > u64::MAX - (count as u64) {
        return Err(ErrorKind::NoMemory);
    }
    let mut client_lp = Loop::new();
    let mut server_lp = Loop::new();
    let Some((server, peer)) = receive_one(&mut server_lp, server_pool) else {
        return Err(ErrorKind::NoMemory);
    };
    let Some((client, sent)) = greet(&mut client_lp, client_pool) else {
        return Err(ErrorKind::NoMemory);
    };
    let mut client = client;
    let mut reply: Vec<u8> = Vec::new();
    let mut position: usize = 0;
    let mut rounds: usize = 0;
    assert(sent@.take(0) =~= reply@);
    assert(old(server_pool)@.cycled(0) == old(server_pool)@);
    while position < sent.len()
        invariant
            0 < size <= 11,
            count == 10int / (size as int) + 1,
            count <= 11,
            sent@ == greeting(),
            sent@.len() == 11,
            position <= 11,
            reply@ == sent@.take(position as int),
            position < 11 ==> position == rounds * size,
            position == 11 ==> rounds * size >= 11,
            rounds >= 1 ==> (rounds - 1) * size < 11,
            rounds <= count,
            position < 11 ==> rounds < count,
            !client.ended,
            listening_on(client_lp@, client.conn),
            listening_on(server_lp@, peer),
            server_lp@.issued == rounds,
            client_pool@ == old(client_pool)@.cycled(1 + rounds as nat),
            server_pool@ == old(server_pool)@.cycled(rounds as nat),
            roomy(old(client_pool)@, old(server_pool)@, cut),
            count == pieces(cut),
        decreases 11 - position,
    {
        let end: usize = if sent.len() - position > size {
            position + size
        } else {
            sent.len()
        };
        let piece = slice_to_vec(slice_subrange(sent.as_slice(), position, end));
        let Some(echo) = echo_piece(&server, &mut server_lp, server_pool, peer, piece) else {
            return Err(ErrorKind::NoMemory);
        };
        let Some(bytes) = take_piece(&mut client, &mut client_lp, client_pool, echo) else {
            return Err(ErrorKind::NoMemory);
        };
        let mut bytes = bytes;
        reply.append(&mut bytes);
        proof {
            assert(reply@ =~= sent@.take(end as int));
            assert((rounds + 1) * size == rounds * size + size) by (nonlinear_arith);
            assert(((rounds + 1) - 1) * size == rounds * size) by (nonlinear_arith);
            if end < 11 {
                assert(rounds + 1 < count) by {
                    let q = 10int / (size as int);
                    vstd::arithmetic::div_mod::lemma_fundamental_div_mod(10, size as int);
                    vstd::arithmetic::div_mod::lemma_mod_bound(10, size as int);
                    assert(rounds + 1 <= q) by (nonlinear_arith)
                        requires
                            (rounds + 1) * size <= 10,
                            10 < size * q + size,
                            size > 0,
                    ;
                }
            } else {
                lemma_pieces_reach_the_end(size as int, rounds + 1);
            }
        }
        position = end;
        rounds = rounds + 1;
    }
    proof {
        lemma_pieces_reach_the_end(size as int, rounds as int);
        assert(sent@.take(11) =~= sent@);
    }
    // the stream ends for both sides
    let _ = client_lp.post(client.conn, Incoming::End(ErrorKind::Eof));
    if let Some(fired) = client_lp.next() {
        let _ = client.dispatch(&mut client_lp, client_pool, fired);
    }
    let _ = server_lp.post(peer, Incoming::End(ErrorKind::Eof));
    if let Some(fired) = server_lp.next() {
        let _ = server.dispatch(&mut server_lp, server_pool, fired);
    }
    Ok(reply)
}

} // verus!
