//! Whole runs of the programs that hand bytes on, with a record of what
//! the reads brought and of what the writes took along: whatever the
//! sizes of the reads, and in whatever order the writes on different
//! streams are done.

use crate::buffer::{BufferPool, PoolView, ReadView};
use crate::cat::{lemma_session_is_steady, lemma_session_stands_outcomes, reported, Session, Step};
use crate::echo_server::{self, echoed, lemma_server_is_steady, Echo, Server};
use crate::error::ErrorKind;
use crate::flags::RunMode;
use crate::reactor::{steady, Handler, Loop, LoopView, SUGGESTED_CAPACITY};
use crate::request::{Fired, Incoming, Operation, Request};
use crate::state::same_operations;
use crate::stream::{delivered, view_released};
use crate::tee::{
    data_written, error_of, lemma_read_keeps_owning, lemma_release_keeps_owning,
    lemma_tee_is_steady, quiet, stdin_read, Event, Report, Tee,
};
use vstd::prelude::*;
use vstd::slice::slice_to_vec;

verus! {

/// Whether the request is a write on the stream `handle`.
pub open spec fn sends_on(request: Request, handle: usize) -> bool {
    &&& request.operation matches Operation::Send { handle: to, .. }
    &&& to == handle
}

/// The bytes of the writes in flight on the stream `handle`, in the order
/// in which they were submitted.
pub open spec fn in_flight(requests: Seq<Request>, handle: usize) -> Seq<u8>
    decreases requests.len(),
{
    if requests.len() == 0 {
        Seq::empty()
    } else if sends_on(requests.last(), handle) {
        in_flight(requests.drop_last(), handle) + requests.last().operation->Send_buffer@
    } else {
        in_flight(requests.drop_last(), handle)
    }
}

/// A request that is submitted comes last: the bytes in flight on its
/// stream grow by its bytes at their end, and those on other streams stay.
pub proof fn lemma_submission_comes_last(requests: Seq<Request>, request: Request, handle: usize)
    ensures
        in_flight(requests.push(request), handle) == if sends_on(request, handle) {
            in_flight(requests, handle) + request.operation->Send_buffer@
        } else {
            in_flight(requests, handle)
        },
{
    assert(requests.push(request).drop_last() =~= requests);
}

/// With no write in flight on a stream, no bytes are in flight on it.
pub proof fn lemma_nothing_in_flight(requests: Seq<Request>, handle: usize)
    requires
        forall|j: int| 0 <= j < requests.len() ==> !sends_on(#[trigger] requests[j], handle),
    ensures
        in_flight(requests, handle) == Seq::<u8>::empty(),
    decreases requests.len(),
{
    if requests.len() > 0 {
        let earlier = requests.drop_last();
        assert forall|j: int| 0 <= j < earlier.len() implies !sends_on(
            #[trigger] earlier[j],
            handle,
        ) by {
            assert(earlier[j] == requests[j]);
        }
        lemma_nothing_in_flight(earlier, handle);
    }
}

/// When the first write on a stream leaves the requests in flight, the
/// bytes in flight on the stream lose its bytes at their start.
pub proof fn lemma_first_write_leaves(requests: Seq<Request>, i: int, handle: usize)
    requires
        0 <= i < requests.len(),
        sends_on(requests[i], handle),
        forall|j: int| 0 <= j < i ==> !sends_on(#[trigger] requests[j], handle),
    ensures
        in_flight(requests, handle) == requests[i].operation->Send_buffer@ + in_flight(
            requests.remove(i),
            handle,
        ),
    decreases requests.len(),
{
    let bytes = requests[i].operation->Send_buffer@;
    let earlier = requests.drop_last();
    if i == requests.len() - 1 {
        assert(requests.remove(i) =~= earlier);
        assert forall|j: int| 0 <= j < earlier.len() implies !sends_on(
            #[trigger] earlier[j],
            handle,
        ) by {
            assert(earlier[j] == requests[j]);
        }
        lemma_nothing_in_flight(earlier, handle);
        assert(Seq::<u8>::empty() + bytes =~= bytes + Seq::<u8>::empty());
    } else {
        assert(earlier[i] == requests[i]);
        assert forall|j: int| 0 <= j < i implies !sends_on(#[trigger] earlier[j], handle) by {
            assert(earlier[j] == requests[j]);
        }
        lemma_first_write_leaves(earlier, i, handle);
        let rest = requests.remove(i);
        assert(rest.drop_last() =~= earlier.remove(i));
        assert(rest.last() == requests.last());
        if sends_on(requests.last(), handle) {
            let last = requests.last().operation->Send_buffer@;
            assert((bytes + in_flight(earlier.remove(i), handle)) + last =~= bytes + (in_flight(
                earlier.remove(i),
                handle,
            ) + last));
        }
    }
}

/// When a request that is no write on a stream leaves the requests in
/// flight, the bytes in flight on the stream stay.
pub proof fn lemma_other_request_leaves(requests: Seq<Request>, i: int, handle: usize)
    requires
        0 <= i < requests.len(),
        !sends_on(requests[i], handle),
    ensures
        in_flight(requests.remove(i), handle) == in_flight(requests, handle),
    decreases requests.len(),
{
    let earlier = requests.drop_last();
    if i == requests.len() - 1 {
        assert(requests.remove(i) =~= earlier);
    } else {
        assert(earlier[i] == requests[i]);
        lemma_other_request_leaves(earlier, i, handle);
        let rest = requests.remove(i);
        assert(rest.drop_last() =~= earlier.remove(i));
        assert(rest.last() == requests.last());
    }
}

/// The bytes in flight depend on the operations alone: an outcome that
/// is reported for a request changes none.
pub proof fn lemma_outcomes_leave_bytes(a: Seq<Request>, b: Seq<Request>, handle: usize)
    requires
        a.len() == b.len(),
        forall|i: int| 0 <= i < a.len() ==> (#[trigger] a[i]).operation == b[i].operation,
    ensures
        in_flight(a, handle) == in_flight(b, handle),
    decreases a.len(),
{
    if a.len() > 0 {
        assert(a.last().operation == b.last().operation);
        assert forall|i: int| 0 <= i < a.drop_last().len() implies (#[trigger] a.drop_last()[i]).operation
            == b.drop_last()[i].operation by {
            assert(a[i].operation == b[i].operation);
        }
        lemma_outcomes_leave_bytes(a.drop_last(), b.drop_last(), handle);
    }
}

/// The program together with a record of its run: the bytes that its
/// reads brought, the bytes of the writes that are done on each
/// destination, and whether anything failed.
#[derive(Debug)]
pub struct Record {
    pub tee: Tee,
    /// The bytes that the reads on standard input brought, in order.
    pub input: Vec<u8>,
    /// The bytes of the writes that are done on standard output, in order.
    pub stdout: Vec<u8>,
    /// The bytes of the writes that are done on the file, in order.
    pub file: Vec<u8>,
    /// Whether a read left a failure to report, or a write failed.
    pub failed: bool,
}

/// What a callback adds to the input: the bytes of a read on standard input.
pub open spec fn brought(tee: Tee, fired: Fired) -> Seq<u8> {
    match fired {
        Fired::Read { handle, incoming: Incoming::Data(data) } => if handle == tee.stdin {
            data@
        } else {
            Seq::empty()
        },
        _ => Seq::empty(),
    }
}

/// What a callback adds to the bytes that are done on the stream
/// `handle`: the bytes of a write on it that succeeded.
pub open spec fn done_on(fired: Fired, handle: usize) -> Seq<u8> {
    match fired {
        Fired::Completed { operation: Operation::Send { handle: to, buffer }, result, .. } => if to
            == handle && result is Ok {
            buffer@
        } else {
            Seq::empty()
        },
        _ => Seq::empty(),
    }
}

/// Whether a callback and its answer are a failure: a read that left
/// something to report, or a write that failed.
pub open spec fn went_wrong(fired: Fired, event: Event) -> bool {
    ||| event matches Event::Read(report) && report != quiet()
    ||| fired matches Fired::Completed { operation: Operation::Send { .. }, result: Err(_), .. }
}

impl Record {
    /// The record of a run that has not begun.
    pub fn new(tee: Tee) -> (r: Record)
        ensures
            r.tee == tee,
            r.input@.len() == 0,
            r.stdout@.len() == 0,
            r.file@.len() == 0,
            !r.failed,
    {
        Record { tee, input: Vec::new(), stdout: Vec::new(), file: Vec::new(), failed: false }
    }

    /// Whether what is done on a destination, then `now`, then what is in
    /// flight on it, is the input, for both destinations.
    pub open spec fn adds_up(
        &self,
        lp: LoopView,
        now_stdout: Seq<u8>,
        now_file: Seq<u8>,
    ) -> bool {
        &&& self.stdout@ + now_stdout + in_flight(lp.requests, self.tee.stdout) == self.input@
        &&& self.file@ + now_file + in_flight(lp.requests, self.tee.file) == self.input@
    }

    /// What the record keeps of a loop and a pool that the program has
    /// to itself: every write in flight has a live buffer of its own, and
    /// while nothing has failed, each destination was handed the input,
    /// byte for byte and in order: what is done on it, followed by what
    /// is in flight on it, is what the reads brought.
    pub open spec fn faithful(&self, lp: LoopView, pool: PoolView) -> bool {
        &&& self.tee.owning(lp, pool)
        &&& self.tee.stdout != self.tee.file
        &&& !self.failed ==> self.adds_up(lp, Seq::empty(), Seq::empty())
    }

    /// What `handle` adds to the record for a callback and its answer.
    pub open spec fn noted(&self, after: &Record, fired: Fired, event: Event) -> bool {
        &&& after.tee == self.tee
        &&& after.input@ == self.input@ + brought(self.tee, fired)
        &&& after.stdout@ == self.stdout@ + done_on(fired, self.tee.stdout)
        &&& after.file@ == self.file@ + done_on(fired, self.tee.file)
        &&& after.failed == (self.failed || went_wrong(fired, event))
    }
}

/// A read on standard input that left nothing to report has handed its
/// bytes to both destinations: they are in flight on each, behind what
/// was in flight before.
pub proof fn lemma_quiet_read_fans_out(
    tee: Tee,
    lp0: LoopView,
    lp1: LoopView,
    pool0: PoolView,
    pool1: PoolView,
    handle: usize,
    incoming: Incoming,
    event: Event,
)
    requires
        tee.stdout != tee.file,
        tee.reacts(lp0, lp1, pool0, pool1, Fired::Read { handle, incoming }, event),
        event matches Event::Read(report) ==> report == quiet(),
    ensures
        in_flight(lp1.requests, tee.stdout) == in_flight(lp0.requests, tee.stdout) + brought(
            tee,
            Fired::Read { handle, incoming },
        ),
        in_flight(lp1.requests, tee.file) == in_flight(lp0.requests, tee.file) + brought(
            tee,
            Fired::Read { handle, incoming },
        ),
{
    let fired = Fired::Read { handle, incoming };
    let data = brought(tee, fired);
    assert(in_flight(lp0.requests, tee.stdout) + Seq::<u8>::empty() =~= in_flight(
        lp0.requests,
        tee.stdout,
    ));
    assert(in_flight(lp0.requests, tee.file) + Seq::<u8>::empty() =~= in_flight(
        lp0.requests,
        tee.file,
    ));
    if handle == tee.stdin {
        let (pool_mid, nread, view) = choose|
            pool_mid: PoolView,
            nread: Result<usize, ErrorKind>,
            view: Option<ReadView>,
        |
            #![trigger delivered(pool0, pool_mid, incoming, SUGGESTED_CAPACITY, nread, view)]
            {
                &&& delivered(pool0, pool_mid, incoming, SUGGESTED_CAPACITY, nread, view)
                &&& event matches Event::Read(report)
                &&& stdin_read(
                    lp0,
                    lp1,
                    pool_mid,
                    pool1,
                    tee.stdin,
                    tee.stdout,
                    tee.file,
                    nread,
                    view,
                    report,
                )
            };
        let report = event->Read_0;
        match nread {
            Err(e) => {
                assert(lp1.requests == lp0.requests);
                assert(incoming is End);
            },
            Ok(len) => {
                if len == 0 || view is None {
                    assert(lp1 == lp0);
                    assert(data =~= Seq::<u8>::empty());
                } else {
                    let v = view->0;
                    let (lp_mid, pool_a, pool_b, first, second) = choose|
                        lp_mid: LoopView,
                        pool_a: PoolView,
                        pool_b: PoolView,
                        first: Result<u64, ErrorKind>,
                        second: Result<u64, ErrorKind>,
                    |
                        #![trigger
                            data_written(lp0, lp_mid, pool_mid, pool_a, tee.stdout, len, v@, first),
                            data_written(lp_mid, lp1, pool_a, pool_b, tee.file, len, v@, second)
                        ]
                        {
                            &&& data_written(
                                lp0,
                                lp_mid,
                                pool_mid,
                                pool_a,
                                tee.stdout,
                                len,
                                v@,
                                first,
                            )
                            &&& data_written(lp_mid, lp1, pool_a, pool_b, tee.file, len, v@, second)
                            &&& pool1 == view_released(pool_b, view)
                            &&& report == (Report {
                                read: None,
                                stop: None,
                                stdout: error_of(first),
                                file: error_of(second),
                            })
                        };
                    assert(first is Ok && second is Ok);
                    let one = lp_mid.requests.last();
                    let two = lp1.requests.last();
                    assert(lp_mid.requests == lp0.requests.push(one));
                    assert(lp1.requests == lp_mid.requests.push(two));
                    assert(one.operation->Send_buffer@ =~= data);
                    assert(two.operation->Send_buffer@ =~= data);
                    lemma_submission_comes_last(lp0.requests, one, tee.stdout);
                    lemma_submission_comes_last(lp0.requests, one, tee.file);
                    lemma_submission_comes_last(lp_mid.requests, two, tee.stdout);
                    lemma_submission_comes_last(lp_mid.requests, two, tee.file);
                }
            },
        }
    } else {
        assert(lp1 == lp0);
    }
}

impl Handler for Record {
    /// The record is faithful.
    open spec fn holds(&self, lp: LoopView, pool: PoolView) -> bool {
        self.faithful(lp, pool)
    }

    /// The callback of a request is that of a write of the program that
    /// was the first in flight on its destination; its bytes stand
    /// between what is done and what is still in flight.
    open spec fn accepts(&self, lp: LoopView, pool: PoolView, fired: Fired) -> bool {
        match fired {
            Fired::Completed { operation, .. } => {
                &&& operation matches Operation::Send { handle, buffer }
                &&& self.tee.owning_but(lp, pool, buffer.spec_id(), buffer.spec_capacity())
                &&& self.tee.stdout != self.tee.file
                &&& !self.failed ==> self.adds_up(
                    lp,
                    if handle == self.tee.stdout {
                        buffer@
                    } else {
                        Seq::empty()
                    },
                    if handle == self.tee.file {
                        buffer@
                    } else {
                        Seq::empty()
                    },
                )
            },
            _ => self.faithful(lp, pool),
        }
    }

    /// The program stays the one it was.
    open spec fn keeps(&self, origin: &Self) -> bool {
        self.tee == origin.tee
    }

    /// Answers the callback as the program does, and notes in the record
    /// what a read brought and what a write took along.
    fn handle(&mut self, lp: &mut Loop, pool: &mut BufferPool, fired: Fired)
        ensures
            exists|event: Event|
                {
                    &&& #[trigger] old(self).tee.reacts(
                        old(lp)@,
                        final(lp)@,
                        old(pool)@,
                        final(pool)@,
                        fired,
                        event,
                    )
                    &&& old(self).noted(final(self), fired, event)
                },
    {
        let ghost given = fired;
        let ghost before = *self;
        let ghost lp0 = lp@;
        let ghost pool0 = pool@;
        let mut read: Vec<u8> = Vec::new();
        let mut done: Vec<u8> = Vec::new();
        let mut on_stdout = false;
        let mut on_file = false;
        let mut wrong = false;
        match &fired {
            Fired::Read { handle, incoming } => {
                match incoming {
                    Incoming::Data(data) => {
                        if *handle == self.tee.stdin {
                            read = slice_to_vec(data.as_slice());
                        }
                    },
                    _ => {},
                }
            },
            Fired::Completed { operation, result, .. } => {
                match operation {
                    Operation::Send { handle, buffer } => {
                        match result {
                            Ok(_) => {
                                done = buffer.to_vec();
                                on_stdout = *handle == self.tee.stdout;
                                on_file = *handle == self.tee.file;
                            },
                            Err(_) => {
                                wrong = true;
                            },
                        }
                    },
                    _ => {},
                }
            },
            _ => {},
        }
        assert(read@ == brought(self.tee, given));
        assert(on_stdout ==> done@ == done_on(given, self.tee.stdout));
        assert(on_file ==> done@ == done_on(given, self.tee.file));
        assert(!on_stdout ==> done_on(given, self.tee.stdout) == Seq::<u8>::empty());
        assert(!on_file ==> done_on(given, self.tee.file) == Seq::<u8>::empty());
        let event = self.tee.dispatch(lp, pool, fired);
        match event {
            Event::Read(report) => {
                if report.read.is_some() || report.stop.is_some() || report.stdout.is_some()
                    || report.file.is_some() {
                    wrong = true;
                }
            },
            _ => {},
        }
        assert(wrong == went_wrong(given, event));
        if on_file {
            let mut copy = slice_to_vec(done.as_slice());
            self.file.append(&mut copy);
        }
        if on_stdout {
            self.stdout.append(&mut done);
        }
        self.input.append(&mut read);
        if wrong {
            self.failed = true;
        }
        proof {
            assert(before.stdout@ + Seq::<u8>::empty() =~= before.stdout@);
            assert(before.file@ + Seq::<u8>::empty() =~= before.file@);
            assert(before.input@ + Seq::<u8>::empty() =~= before.input@);
            assert(before.noted(self, given, event));
            if before.accepts(lp0.at_rest(), pool0, given) {
                assert(lp0.at_rest().requests == lp0.requests);
                assert(lp@.at_rest().requests == lp@.requests);
                lemma_tee_keeps_owning(before.tee, lp0, lp@, pool0, pool@, given, event);
                if !self.failed {
                    match given {
                        Fired::Read { handle, incoming } => {
                            lemma_quiet_read_fans_out(
                                before.tee,
                                lp0,
                                lp@,
                                pool0,
                                pool@,
                                handle,
                                incoming,
                                event,
                            );
                            let data = brought(before.tee, given);
                            let a = in_flight(lp0.requests, before.tee.stdout);
                            let b = in_flight(lp0.requests, before.tee.file);
                            assert(before.stdout@ + Seq::<u8>::empty() + a == before.input@);
                            assert(self.stdout@ + Seq::<u8>::empty() + (a + data) =~= (
                            before.stdout@ + Seq::<u8>::empty() + a) + data);
                            assert(self.file@ + Seq::<u8>::empty() + (b + data) =~= (before.file@
                                + Seq::<u8>::empty() + b) + data);
                        },
                        Fired::Completed { operation, .. } => {
                            assert(lp@ == lp0);
                            assert(self.stdout@ + Seq::<u8>::empty() =~= self.stdout@);
                            assert(self.file@ + Seq::<u8>::empty() =~= self.file@);
                        },
                        _ => {
                            assert(lp@ == lp0);
                        },
                    }
                    assert(self.adds_up(lp@, Seq::empty(), Seq::empty()));
                }
            }
        }
    }
}

/// A callback that the program accepts leaves every write in flight with
/// a live buffer of its own.
pub proof fn lemma_tee_keeps_owning(
    tee: Tee,
    lp0: LoopView,
    lp1: LoopView,
    pool0: PoolView,
    pool1: PoolView,
    fired: Fired,
    event: Event,
)
    requires
        tee.accepts(lp0, pool0, fired),
        tee.reacts(lp0, lp1, pool0, pool1, fired, event),
    ensures
        tee.owning(lp1, pool1),
{
    match fired {
        Fired::Completed { operation, .. } => {
            let buffer = operation->Send_buffer;
            lemma_release_keeps_owning(tee, lp0, pool0, buffer.spec_id(), buffer.spec_capacity());
        },
        Fired::Read { handle, incoming } => {
            if handle == tee.stdin {
                let (pool_mid, nread, view) = choose|
                    pool_mid: PoolView,
                    nread: Result<usize, ErrorKind>,
                    view: Option<ReadView>,
                |
                    #![trigger delivered(pool0, pool_mid, incoming, SUGGESTED_CAPACITY, nread, view)]
                    {
                        &&& delivered(pool0, pool_mid, incoming, SUGGESTED_CAPACITY, nread, view)
                        &&& event matches Event::Read(report)
                        &&& stdin_read(
                            lp0,
                            lp1,
                            pool_mid,
                            pool1,
                            tee.stdin,
                            tee.stdout,
                            tee.file,
                            nread,
                            view,
                            report,
                        )
                    };
                lemma_read_keeps_owning(
                    tee,
                    lp0,
                    lp1,
                    pool0,
                    pool_mid,
                    pool1,
                    incoming,
                    nread,
                    view,
                    event->Read_0,
                );
            }
        },
        _ => {},
    }
}

/// The steps of the loop leave standing what the record keeps: the write
/// whose callback is handed out was the first in flight on its
/// destination, so its bytes follow what is done there. So a run that
/// begins with a faithful record ends with a faithful record, whatever
/// the sizes of the reads and the order in which the writes were done.
pub proof fn lemma_record_is_steady()
    ensures
        steady::<Record>(),
{
    assert forall|
        handler: Record,
        before: LoopView,
        after: LoopView,
        pool: PoolView,
        fired: Option<Fired>,
    |
        #![trigger handler.holds(before, pool), before.stepped(after, fired)]
        handler.holds(before, pool) && before.wf() && !before.running && before.stepped(
            after,
            fired,
        ) implies match fired {
        Some(callback) => handler.accepts(after, pool, callback),
        None => handler.holds(after, pool),
    } by {
        let tee = handler.tee;
        lemma_tee_is_steady();
        assert(tee.holds(before, pool));
        assert(match fired {
            Some(callback) => tee.accepts(after, pool, callback),
            None => tee.holds(after, pool),
        });
        match fired {
            Some(Fired::Completed { id, operation, result }) => {
                let i = choose|i: int|
                    {
                        &&& before.completed_first(i)
                        &&& before.requests[i] == (Request { id, operation, outcome: Some(result) })
                        &&& after == before.after_completion(i).counted()
                    };
                assert(tee.lent(pool, before.requests[i].operation));
                let to = operation->Send_handle;
                let bytes = operation->Send_buffer@;
                assert forall|j: int| 0 <= j < i implies !sends_on(
                    #[trigger] before.requests[j],
                    to,
                ) by {
                    if sends_on(before.requests[j], to) {
                        assert(before.akin(j, i));
                        assert(before.requests[i].outcome is Some);
                        assert(before.requests[j].outcome is Some);
                    }
                }
                lemma_first_write_leaves(before.requests, i, to);
                let other = if to == tee.stdout { tee.file } else { tee.stdout };
                lemma_other_request_leaves(before.requests, i, other);
                if !handler.failed {
                    let a = in_flight(after.requests, tee.stdout);
                    let b = in_flight(after.requests, tee.file);
                    let none = Seq::<u8>::empty();
                    assert(handler.stdout@ + none + (bytes + a) =~= handler.stdout@ + bytes + a);
                    assert(handler.file@ + none + (bytes + b) =~= handler.file@ + bytes + b);
                    if to != tee.stdout && to != tee.file {
                        lemma_other_request_leaves(before.requests, i, tee.stdout);
                        lemma_other_request_leaves(before.requests, i, tee.file);
                    }
                }
            },
            _ => {
                assert(after.requests == before.requests);
            },
        }
    }
}

/// What the record keeps stands while the operating system reports
/// outcomes: it depends on the operations in flight alone.
pub proof fn lemma_record_stands_outcomes(
    record: Record,
    before: LoopView,
    after: LoopView,
    pool: PoolView,
)
    requires
        record.faithful(before, pool),
        same_operations(before, after),
    ensures
        record.faithful(after, pool),
{
    lemma_outcomes_leave_bytes(before.requests, after.requests, record.tee.stdout);
    lemma_outcomes_leave_bytes(before.requests, after.requests, record.tee.file);
    assert forall|i: int| 0 <= i < after.requests.len() implies record.tee.lent(
        pool,
        (#[trigger] after.requests[i]).operation,
    ) by {
        assert(before.requests[i].operation == after.requests[i].operation);
    }
    assert forall|i: int, j: int| 0 <= i < j < after.requests.len() implies (
    #[trigger] after.requests[i]).operation->Send_buffer.spec_id() != (
    #[trigger] after.requests[j]).operation->Send_buffer.spec_id() by {
        assert(before.requests[i].operation == after.requests[i].operation);
        assert(before.requests[j].operation == after.requests[j].operation);
    }
}

/// An empty record is faithful where the run begins: nothing in flight,
/// every buffer released, and two destinations that differ.
pub proof fn lemma_begin_is_faithful(record: Record, lp: LoopView, pool: PoolView)
    requires
        record.input@.len() == 0,
        record.stdout@.len() == 0,
        record.file@.len() == 0,
        record.tee.stdout != record.tee.file,
        lp.requests.len() == 0,
        pool.balanced(),
    ensures
        record.faithful(lp, pool),
{
    assert(record.stdout@ + Seq::<u8>::empty() + Seq::<u8>::empty() =~= record.input@);
    assert(record.file@ + Seq::<u8>::empty() + Seq::<u8>::empty() =~= record.input@);
}

/// The end of a run in which nothing failed: with no write in flight,
/// both destinations have taken the input, byte for byte, and every
/// buffer that was allocated has been released, each once.
pub proof fn lemma_all_is_done(record: Record, lp: LoopView, pool: PoolView)
    requires
        record.faithful(lp, pool),
        lp.requests.len() == 0,
    ensures
        pool.balanced(),
        !record.failed ==> record.stdout@ == record.input@ && record.file@ == record.input@,
{
    assert(record.stdout@ + Seq::<u8>::empty() + Seq::<u8>::empty() =~= record.stdout@);
    assert(record.file@ + Seq::<u8>::empty() + Seq::<u8>::empty() =~= record.file@);
}

impl Record {
    /// Runs the loop with the record as its handler. A record that was
    /// faithful before the run is faithful after it.
    pub fn run(&mut self, lp: &mut Loop, pool: &mut BufferPool, mode: RunMode) -> (r: Result<
        bool,
        ErrorKind,
    >)
        ensures
            match r {
                Err(e) => {
                    &&& e == ErrorKind::Busy
                    &&& old(lp)@.running
                    &&& final(lp)@ == old(lp)@
                    &&& *final(self) == *old(self)
                    &&& final(pool)@ == old(pool)@
                },
                Ok(alive) => {
                    &&& !old(lp)@.running
                    &&& !final(lp)@.running
                    &&& alive == final(lp)@.alive()
                    &&& final(lp)@.iteration >= old(lp)@.iteration
                    &&& final(lp)@.dispatched >= old(lp)@.dispatched
                    &&& final(lp)@.exhausted() || if mode == RunMode::Default {
                        !final(lp)@.alive() || !final(lp)@.ready()
                    } else {
                        final(lp)@.iteration > old(lp)@.iteration
                    }
                    &&& final(self).tee == old(self).tee
                    &&& old(self).faithful(old(lp)@, old(pool)@) ==> final(self).faithful(
                        final(lp)@,
                        final(pool)@,
                    )
                },
            },
    {
        let ghost origin = *self;
        proof {
            lemma_record_is_steady();
        }
        assert(self.keeps(&origin));
        lp.run(mode, self, pool)
    }
}

/// The program that copies a file to standard output, together with a
/// record of its run: the bytes that its reads brought and it handed on,
/// and the bytes of the writes that are done.
#[derive(Debug)]
pub struct Chain {
    pub session: Session,
    /// The bytes that the reads brought, in order.
    pub read: Vec<u8>,
    /// The bytes of the writes that are done, in order.
    pub written: Vec<u8>,
}

/// What a callback adds to the bytes that were read: the bytes that a
/// read brought into the buffer, where the program handed them on.
pub open spec fn handed_on(fired: Fired, step: Step) -> Seq<u8> {
    match fired {
        Fired::Completed { operation: Operation::Read { buffer, .. }, result: Ok(count), .. } => {
            if step is Writing {
                buffer.storage().take(
                    if count <= buffer.spec_capacity() {
                        count as int
                    } else {
                        buffer.spec_capacity() as int
                    },
                )
            } else {
                Seq::empty()
            }
        },
        _ => Seq::empty(),
    }
}

/// What a callback adds to the bytes that are written: the bytes of a
/// write that succeeded.
pub open spec fn taken(fired: Fired) -> Seq<u8> {
    match fired {
        Fired::Completed { operation: Operation::Write { buffer, .. }, result: Ok(_), .. } => {
            buffer@
        },
        _ => Seq::empty(),
    }
}

impl Chain {
    /// The record of a run that has not begun.
    pub fn new() -> (r: Chain)
        ensures
            r.session.program.source is None,
            r.session.last == Step::Ignored,
            r.read@.len() == 0,
            r.written@.len() == 0,
    {
        Chain { session: Session::new(), read: Vec::new(), written: Vec::new() }
    }

    /// The bytes of the write that is in flight, if one is.
    pub open spec fn pending(&self, lp: LoopView) -> Seq<u8> {
        if self.session.last is Writing {
            lp.requests[0].operation->Write_buffer@
        } else {
            Seq::empty()
        }
    }

    /// What the record keeps of a loop that the program has to itself:
    /// the session is in order, and unless the program gave up, what is
    /// written, followed by what the write in flight holds, is what the
    /// reads brought, byte for byte and in order.
    pub open spec fn faithful(&self, lp: LoopView, pool: PoolView) -> bool {
        &&& self.session.holds(lp, pool)
        &&& !(self.session.last is Failed) ==> self.written@ + self.pending(lp) == self.read@
    }

    /// What `handle` adds to the record for a callback.
    pub open spec fn noted(&self, after: &Chain, fired: Fired) -> bool {
        &&& after.read@ == self.read@ + handed_on(fired, after.session.last)
        &&& after.written@ == self.written@ + taken(fired)
    }
}

impl Handler for Chain {
    /// The record is faithful.
    open spec fn holds(&self, lp: LoopView, pool: PoolView) -> bool {
        self.faithful(lp, pool)
    }

    /// The callback is the one that the session waits for; the bytes of
    /// a write whose callback it is follow what is written.
    open spec fn accepts(&self, lp: LoopView, pool: PoolView, fired: Fired) -> bool {
        &&& self.session.accepts(lp, pool, fired)
        &&& !(self.session.last is Failed) ==> self.written@ + (if self.session.last is Writing {
            fired->Completed_operation->Write_buffer@
        } else {
            Seq::empty()
        }) == self.read@
    }

    /// Answers the callback as the program does, and notes in the record
    /// what a read brought and what a write took along.
    fn handle(&mut self, lp: &mut Loop, pool: &mut BufferPool, fired: Fired)
        ensures
            old(self).session.program.reacts(
                final(self).session.program,
                old(lp)@,
                final(lp)@,
                old(pool)@,
                final(pool)@,
                fired,
                final(self).session.last,
            ),
            old(self).noted(final(self), fired),
    {
        let ghost given = fired;
        let ghost before = *self;
        let ghost lp0 = lp@;
        let ghost pool0 = pool@;
        let mut chunk: Vec<u8> = Vec::new();
        let mut done: Vec<u8> = Vec::new();
        match &fired {
            Fired::Completed { operation, result, .. } => {
                match result {
                    Ok(count) => {
                        match operation {
                            Operation::Read { buffer, .. } => {
                                chunk = buffer.first(*count);
                            },
                            Operation::Write { buffer, .. } => {
                                done = buffer.to_vec();
                            },
                            _ => {},
                        }
                    },
                    Err(_) => {},
                }
            },
            _ => {},
        }
        assert(done@ == taken(given));
        self.session.handle(lp, pool, fired);
        match self.session.last {
            Step::Writing(_) => {
                self.read.append(&mut chunk);
            },
            _ => {},
        }
        self.written.append(&mut done);
        proof {
            assert(before.read@ + Seq::<u8>::empty() =~= before.read@);
            assert(before.written@ + Seq::<u8>::empty() =~= before.written@);
            assert(before.noted(self, given));
            if before.accepts(lp0.at_rest(), pool0, given) {
                assert(self.session.holds(lp@.at_rest(), pool@));
                if !(self.session.last is Failed) {
                    assert(self.written@ + self.pending(lp@) =~= self.read@);
                }
            }
        }
    }
}

/// The steps of the loop leave standing what the record keeps. So a run
/// that begins with a faithful record ends with a faithful record,
/// whatever the sizes of the reads.
pub proof fn lemma_chain_is_steady()
    ensures
        steady::<Chain>(),
{
    assert forall|
        handler: Chain,
        before: LoopView,
        after: LoopView,
        pool: PoolView,
        fired: Option<Fired>,
    |
        #![trigger handler.holds(before, pool), before.stepped(after, fired)]
        handler.holds(before, pool) && before.wf() && !before.running && before.stepped(
            after,
            fired,
        ) implies match fired {
        Some(callback) => handler.accepts(after, pool, callback),
        None => handler.holds(after, pool),
    } by {
        let session = handler.session;
        lemma_session_is_steady();
        assert(session.holds(before, pool));
        assert(match fired {
            Some(callback) => session.accepts(after, pool, callback),
            None => session.holds(after, pool),
        });
    }
}

/// What the record keeps stands when outcomes are reported to the loop
/// between runs.
pub proof fn lemma_chain_stands_outcomes(
    chain: Chain,
    before: LoopView,
    after: LoopView,
    pool: PoolView,
)
    requires
        chain.faithful(before, pool),
        reported(before, after),
    ensures
        chain.faithful(after, pool),
{
    lemma_session_stands_outcomes(chain.session, before, after, pool);
    if before.requests.len() > 0 {
        assert(after.requests[0].id == before.requests[0].id);
    }
}

/// The end of a run: when the file is copied and closed, what was
/// written is what the reads brought, byte for byte and in order.
pub proof fn lemma_all_is_written(chain: Chain, lp: LoopView, pool: PoolView)
    requires
        chain.faithful(lp, pool),
        chain.session.last == Step::Done,
    ensures
        chain.written@ == chain.read@,
        lp.requests.len() == 0,
{
    assert(chain.written@ + Seq::<u8>::empty() =~= chain.written@);
}

impl Chain {
    /// Runs the loop with the record as its handler. A record that was
    /// faithful before the run is faithful after it.
    pub fn run(&mut self, lp: &mut Loop, pool: &mut BufferPool, mode: RunMode) -> (r: Result<
        bool,
        ErrorKind,
    >)
        ensures
            match r {
                Err(e) => {
                    &&& e == ErrorKind::Busy
                    &&& old(lp)@.running
                    &&& final(lp)@ == old(lp)@
                    &&& *final(self) == *old(self)
                    &&& final(pool)@ == old(pool)@
                },
                Ok(alive) => {
                    &&& !old(lp)@.running
                    &&& !final(lp)@.running
                    &&& alive == final(lp)@.alive()
                    &&& final(lp)@.iteration >= old(lp)@.iteration
                    &&& final(lp)@.dispatched >= old(lp)@.dispatched
                    &&& final(lp)@.exhausted() || if mode == RunMode::Default {
                        !final(lp)@.alive() || !final(lp)@.ready()
                    } else {
                        final(lp)@.iteration > old(lp)@.iteration
                    }
                    &&& old(self).faithful(old(lp)@, old(pool)@) ==> final(self).faithful(
                        final(lp)@,
                        final(pool)@,
                    )
                },
            },
    {
        proof {
            lemma_chain_is_steady();
        }
        lp.run(mode, self, pool)
    }
}

/// The echo server together with a record of one of its connections:
/// the bytes that the reads on it brought, the bytes of the writes on it
/// that are done, and whether anything failed on it.
#[derive(Debug)]
pub struct Echoes {
    pub server: Server,
    /// The handle of the connection that is recorded.
    pub peer: usize,
    /// The bytes that the reads on the connection brought, in order.
    pub read: Vec<u8>,
    /// The bytes of the writes that are done on the connection, in order.
    pub echoed: Vec<u8>,
    /// Whether bytes that arrived could not be read or sent back, or a
    /// write on the connection failed.
    pub failed: bool,
}

/// What a callback adds to the bytes that were read on `peer`.
pub open spec fn heard(peer: usize, fired: Fired) -> Seq<u8> {
    match fired {
        Fired::Read { handle, incoming: Incoming::Data(data) } => if handle == peer {
            data@
        } else {
            Seq::empty()
        },
        _ => Seq::empty(),
    }
}

/// Whether a callback and its answer are a failure on `peer`: bytes that
/// arrived and were not sent back, or a write that failed.
pub open spec fn amiss(peer: usize, fired: Fired, event: echo_server::Event) -> bool {
    match fired {
        Fired::Read { handle, incoming: Incoming::Data(_) } => {
            &&& handle == peer
            &&& event matches echo_server::Event::Read(echo)
            &&& echo is WriteFailed || echo is Closed
        },
        Fired::Completed { operation: Operation::Send { handle, .. }, result: Err(_), .. } => {
            handle == peer
        },
        _ => false,
    }
}

impl Echoes {
    /// The record of a connection on which nothing has happened yet.
    pub fn new(server: Server, peer: usize) -> (r: Echoes)
        ensures
            r.server == server,
            r.peer == peer,
            r.read@.len() == 0,
            r.echoed@.len() == 0,
            !r.failed,
    {
        Echoes { server, peer, read: Vec::new(), echoed: Vec::new(), failed: false }
    }

    /// Whether what is done, then `now`, then what is in flight on the
    /// connection, is what was read on it.
    pub open spec fn adds_up(&self, lp: LoopView, now: Seq<u8>) -> bool {
        self.echoed@ + now + in_flight(lp.requests, self.peer) == self.read@
    }

    /// What the record keeps of a loop that the server has to itself:
    /// the loop is tidy, and while nothing has failed on the connection,
    /// the server has sent back what it read, byte for byte and in
    /// order: what is done, followed by what is in flight, is what the
    /// reads brought.
    pub open spec fn faithful(&self, lp: LoopView, pool: PoolView) -> bool {
        &&& Server::tidy(lp)
        &&& !self.failed ==> self.adds_up(lp, Seq::empty())
    }

    /// What `handle` adds to the record for a callback and its answer.
    pub open spec fn noted(&self, after: &Echoes, fired: Fired, event: echo_server::Event) -> bool {
        &&& after.server == self.server
        &&& after.peer == self.peer
        &&& after.read@ == self.read@ + heard(self.peer, fired)
        &&& after.echoed@ == self.echoed@ + done_on(fired, self.peer)
        &&& after.failed == (self.failed || amiss(self.peer, fired, event))
    }
}

/// A callback of the server that is no failure on a connection leaves
/// in flight on it what was in flight, followed by the bytes that the
/// callback read on it.
pub proof fn lemma_echo_follows(
    server: Server,
    peer: usize,
    lp0: LoopView,
    lp1: LoopView,
    pool0: PoolView,
    pool1: PoolView,
    fired: Fired,
    event: echo_server::Event,
)
    requires
        server.reacts(lp0, lp1, pool0, pool1, fired, event),
        !amiss(peer, fired, event),
    ensures
        in_flight(lp1.requests, peer) == in_flight(lp0.requests, peer) + heard(peer, fired),
{
    let before = in_flight(lp0.requests, peer);
    assert(before + Seq::<u8>::empty() =~= before);
    match fired {
        Fired::Read { handle, incoming } => {
            let (pool_mid, nread, view) = choose|
                pool_mid: PoolView,
                nread: Result<usize, ErrorKind>,
                view: Option<ReadView>,
            |
                #![trigger delivered(pool0, pool_mid, incoming, SUGGESTED_CAPACITY, nread, view)]
                {
                    &&& delivered(pool0, pool_mid, incoming, SUGGESTED_CAPACITY, nread, view)
                    &&& event matches echo_server::Event::Read(echo)
                    &&& echoed(lp0, lp1, pool_mid, pool1, handle, nread, view, echo)
                };
            let echo = event->Read_0;
            match echo {
                Echo::Writing(_) => {
                    let last = lp1.requests.last();
                    assert(lp1.requests == lp0.requests.push(last));
                    lemma_submission_comes_last(lp0.requests, last, peer);
                    if handle == peer {
                        assert(last.operation->Send_buffer@ =~= heard(peer, fired));
                    }
                },
                Echo::Closed(_) => {
                    lemma_end_leaves_bytes(lp0, handle, peer);
                    assert(incoming is Data ==> handle != peer);
                },
                Echo::Nothing => {
                    assert(heard(peer, fired) =~= Seq::<u8>::empty());
                },
                Echo::WriteFailed(_) => {},
            }
        },
        Fired::Completed { operation, .. } => {
            match operation {
                Operation::Send { handle, .. } => {
                    lemma_close_leaves_bytes(lp0, handle, peer);
                },
                _ => {},
            }
        },
        Fired::Connection { handle } => {
            let with_client = lp0.with_new(crate::handle::HandleKind::Tcp);
            lemma_close_leaves_bytes(with_client, lp0.handles.len() as usize, peer);
        },
        _ => {},
    }
}

/// A close leaves the bytes in flight as they are: it changes outcomes,
/// and no operation.
pub proof fn lemma_close_leaves_bytes(lp: LoopView, closed: usize, peer: usize)
    ensures
        in_flight(lp.closing(closed).requests, peer) == in_flight(lp.requests, peer),
        in_flight(lp.closing_if_free(closed).requests, peer) == in_flight(lp.requests, peer),
{
    let after = lp.closing(closed);
    assert(after.requests.len() == lp.requests.len());
    assert forall|i: int| 0 <= i < lp.requests.len() implies (#[trigger] lp.requests[i]).operation
        == after.requests[i].operation by {}
    lemma_outcomes_leave_bytes(lp.requests, after.requests, peer);
}

/// The end of reading on a handle leaves the bytes in flight as they are.
pub proof fn lemma_end_leaves_bytes(lp: LoopView, ended: usize, peer: usize)
    ensures
        in_flight(lp.ending(ended).requests, peer) == in_flight(lp.requests, peer),
{
    lemma_close_leaves_bytes(lp, ended, peer);
}

impl Handler for Echoes {
    /// The record is faithful.
    open spec fn holds(&self, lp: LoopView, pool: PoolView) -> bool {
        self.faithful(lp, pool)
    }

    /// The callback of a request is that of a write of the server that
    /// was the first in flight on its connection; on the connection that
    /// is recorded, its bytes stand between what is done and what is
    /// still in flight.
    open spec fn accepts(&self, lp: LoopView, pool: PoolView, fired: Fired) -> bool {
        &&& self.server.accepts(lp, pool, fired)
        &&& !self.failed ==> self.adds_up(
            lp,
            match fired {
                Fired::Completed { operation: Operation::Send { handle, buffer }, .. } => if handle
                    == self.peer {
                    buffer@
                } else {
                    Seq::empty()
                },
                _ => Seq::empty(),
            },
        )
    }

    /// The server and the connection stay the ones they were.
    open spec fn keeps(&self, origin: &Self) -> bool {
        self.server == origin.server && self.peer == origin.peer
    }

    /// Answers the callback as the server does, and notes in the record
    /// what a read on the connection brought and what a write on it took
    /// along.
    fn handle(&mut self, lp: &mut Loop, pool: &mut BufferPool, fired: Fired)
        ensures
            exists|event: echo_server::Event|
                {
                    &&& #[trigger] old(self).server.reacts(
                        old(lp)@,
                        final(lp)@,
                        old(pool)@,
                        final(pool)@,
                        fired,
                        event,
                    )
                    &&& old(self).noted(final(self), fired, event)
                },
    {
        let ghost given = fired;
        let ghost before = *self;
        let ghost lp0 = lp@;
        let ghost pool0 = pool@;
        let mut read: Vec<u8> = Vec::new();
        let mut done: Vec<u8> = Vec::new();
        let mut brought = false;
        let mut wrong = false;
        match &fired {
            Fired::Read { handle, incoming } => {
                match incoming {
                    Incoming::Data(data) => {
                        if *handle == self.peer {
                            read = slice_to_vec(data.as_slice());
                            brought = true;
                        }
                    },
                    _ => {},
                }
            },
            Fired::Completed { operation, result, .. } => {
                match operation {
                    Operation::Send { handle, buffer } => {
                        if *handle == self.peer {
                            match result {
                                Ok(_) => {
                                    done = buffer.to_vec();
                                },
                                Err(_) => {
                                    wrong = true;
                                },
                            }
                        }
                    },
                    _ => {},
                }
            },
            _ => {},
        }
        assert(read@ == heard(self.peer, given));
        assert(done@ == done_on(given, self.peer));
        let event = self.server.dispatch(lp, pool, fired);
        if brought {
            match event {
                echo_server::Event::Read(Echo::WriteFailed(_)) => {
                    wrong = true;
                },
                echo_server::Event::Read(Echo::Closed(_)) => {
                    wrong = true;
                },
                _ => {},
            }
        }
        assert(wrong == amiss(self.peer, given, event));
        self.read.append(&mut read);
        self.echoed.append(&mut done);
        if wrong {
            self.failed = true;
        }
        proof {
            assert(before.noted(self, given, event));
            if before.accepts(lp0.at_rest(), pool0, given) {
                assert(lp0.at_rest().requests == lp0.requests);
                assert(lp@.at_rest().requests == lp@.requests);
                match given {
                    Fired::Completed { operation, .. } => {
                        echo_server::lemma_tidy_at_rest(lp0, operation->Send_handle);
                    },
                    _ => {
                        echo_server::lemma_tidy_at_rest(lp0, 0);
                    },
                }
                echo_server::lemma_server_keeps_tidy(
                    before.server,
                    lp0,
                    lp@,
                    pool0,
                    pool@,
                    given,
                    event,
                );
                echo_server::lemma_tidy_at_rest(lp@, 0);
                if !self.failed {
                    lemma_echo_follows(
                        before.server,
                        before.peer,
                        lp0,
                        lp@,
                        pool0,
                        pool@,
                        given,
                        event,
                    );
                    let a = in_flight(lp0.requests, before.peer);
                    let now = done_on(given, before.peer);
                    let more = heard(before.peer, given);
                    let none = Seq::<u8>::empty();
                    assert(now =~= none || more =~= none);
                    assert(self.echoed@ + none + (a + more) =~= (before.echoed@ + now + a) + more);
                    match given {
                        Fired::Completed { operation: Operation::Send { handle, buffer }, .. } => {
                            if handle == before.peer {
                                assert(given->Completed_result is Ok);
                                assert(now == buffer@);
                            } else {
                                assert(now =~= none);
                            }
                        },
                        _ => {
                            assert(now =~= none);
                        },
                    }
                    assert(self.adds_up(lp@, Seq::empty()));
                }
            }
        }
    }
}

/// The steps of the loop leave standing what the record keeps. So a run
/// that begins with a faithful record ends with a faithful record: the
/// server sends back on a connection what it reads on it, whatever the
/// sizes of the reads and the order in which the writes are done.
pub proof fn lemma_echoes_are_steady()
    ensures
        steady::<Echoes>(),
{
    assert forall|
        handler: Echoes,
        before: LoopView,
        after: LoopView,
        pool: PoolView,
        fired: Option<Fired>,
    |
        #![trigger handler.holds(before, pool), before.stepped(after, fired)]
        handler.holds(before, pool) && before.wf() && !before.running && before.stepped(
            after,
            fired,
        ) implies match fired {
        Some(callback) => handler.accepts(after, pool, callback),
        None => handler.holds(after, pool),
    } by {
        let server = handler.server;
        let peer = handler.peer;
        lemma_server_is_steady();
        assert(server.holds(before, pool));
        assert(match fired {
            Some(callback) => server.accepts(after, pool, callback),
            None => server.holds(after, pool),
        });
        match fired {
            Some(Fired::Completed { id, operation, result }) => {
                let i = choose|i: int|
                    {
                        &&& before.completed_first(i)
                        &&& before.requests[i] == (Request { id, operation, outcome: Some(result) })
                        &&& after == before.after_completion(i).counted()
                    };
                assert(before.requests[i].operation is Send);
                let to = operation->Send_handle;
                let bytes = operation->Send_buffer@;
                if !handler.failed {
                    let none = Seq::<u8>::empty();
                    let a = in_flight(after.requests, peer);
                    if to == peer {
                        assert forall|j: int| 0 <= j < i implies !sends_on(
                            #[trigger] before.requests[j],
                            to,
                        ) by {
                            if sends_on(before.requests[j], to) {
                                assert(before.akin(j, i));
                                assert(before.requests[i].outcome is Some);
                                assert(before.requests[j].outcome is Some);
                            }
                        }
                        lemma_first_write_leaves(before.requests, i, peer);
                        assert(handler.echoed@ + none + (bytes + a) =~= handler.echoed@ + bytes + a);
                    } else {
                        lemma_other_request_leaves(before.requests, i, peer);
                    }
                }
            },
            _ => {
                assert(after.requests == before.requests);
            },
        }
    }
}

/// The end of a run in which nothing failed on the connection: with no
/// write in flight, the server has sent back what it read, byte for byte.
pub proof fn lemma_all_is_echoed(record: Echoes, lp: LoopView, pool: PoolView)
    requires
        record.faithful(lp, pool),
        lp.requests.len() == 0,
        !record.failed,
    ensures
        record.echoed@ == record.read@,
{
    assert(record.echoed@ + Seq::<u8>::empty() + Seq::<u8>::empty() =~= record.echoed@);
}

impl Echoes {
    /// Runs the loop with the record as its handler. A record that was
    /// faithful before the run is faithful after it.
    pub fn run(&mut self, lp: &mut Loop, pool: &mut BufferPool, mode: RunMode) -> (r: Result<
        bool,
        ErrorKind,
    >)
        ensures
            match r {
                Err(e) => {
                    &&& e == ErrorKind::Busy
                    &&& old(lp)@.running
                    &&& final(lp)@ == old(lp)@
                    &&& *final(self) == *old(self)
                    &&& final(pool)@ == old(pool)@
                },
                Ok(alive) => {
                    &&& !old(lp)@.running
                    &&& !final(lp)@.running
                    &&& alive == final(lp)@.alive()
                    &&& final(lp)@.iteration >= old(lp)@.iteration
                    &&& final(lp)@.dispatched >= old(lp)@.dispatched
                    &&& final(lp)@.exhausted() || if mode == RunMode::Default {
                        !final(lp)@.alive() || !final(lp)@.ready()
                    } else {
                        final(lp)@.iteration > old(lp)@.iteration
                    }
                    &&& final(self).server == old(self).server
                    &&& final(self).peer == old(self).peer
                    &&& old(self).faithful(old(lp)@, old(pool)@) ==> final(self).faithful(
                        final(lp)@,
                        final(pool)@,
                    )
                },
            },
    {
        let ghost origin = *self;
        proof {
            lemma_echoes_are_steady();
        }
        assert(self.keeps(&origin));
        lp.run(mode, self, pool)
    }
}

} // verus!
