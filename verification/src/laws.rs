//! What holds of the loop, the pool and the programs whatever is done
//! with them, stated over their views and proved.

use crate::buffer::{copy_content, PoolView, ReadView};
use crate::echo_client::{replied, Reply};
use crate::echo_server::{echoed, write_done, Echo};
use crate::idle::Counter;
use crate::error::ErrorKind;
use crate::handle::{HandleKind, HandleState};
use crate::reactor::LoopView;
use crate::stream::{spec_classify, spec_failure, ReadOutcome};
use crate::request::{Arrival, Fired, Incoming, Operation, Request};
use crate::tee::{stdin_read, Report};
use vstd::prelude::*;

verus! {

/// A buffer that was released is no longer held by its pool, so a second
/// release of it is refused.
pub proof fn law_release_is_final(pool: PoolView, id: u64, capacity: nat)
    ensures
        !pool.give_back(id).holds(id, capacity),
        pool.give_back(id).released(id, capacity) == pool.give_back(id),
{
}

/// Buffers that are allocated and all released again leave every count of
/// the pool in balance that was in balance before: as many releases as
/// allocations.
pub proof fn law_cycles_keep_balance(pool: PoolView, count: nat)
    ensures
        pool.cycled(count).balanced() == pool.balanced(),
        pool.cycled(count).live == pool.live,
        pool.cycled(count).outstanding == pool.outstanding,
{
}

/// A read that gives no bytes is never the end of the stream; the end is
/// the one error that says so, and it is no failure to report.
pub proof fn law_zero_is_not_the_end(nread: Result<usize, ErrorKind>)
    ensures
        nread == Ok::<usize, ErrorKind>(0) ==> spec_classify(nread) == ReadOutcome::Again,
        spec_classify(nread) == ReadOutcome::End <==> nread == Err::<usize, ErrorKind>(
            ErrorKind::Eof,
        ),
        spec_classify(nread) == ReadOutcome::End ==> spec_failure(nread) is None,
        nread is Ok ==> spec_failure(nread) is None,
{
}

/// The loop ends no stream by itself: a step that hands out a read
/// callback, whatever arrived, leaves every handle and every request as
/// it was. To stop reading or to close is for the callback to decide.
pub proof fn law_reads_end_nothing(
    lp: LoopView,
    after: LoopView,
    handle: usize,
    incoming: Incoming,
)
    requires
        lp.stepped(after, Some(Fired::Read { handle, incoming })),
    ensures
        after.handles == lp.handles,
        after.requests == lp.requests,
        lp.has(handle) && lp.handles[handle as int].reading(),
        after.arrivals.len() == lp.arrivals.len() - 1,
{
}

/// The read callbacks of the programs take a count of zero for what it
/// is: they change nothing in the loop, so the handle is read on, and
/// they stop or close nothing.
pub proof fn law_zero_reads_on(
    lp0: LoopView,
    lp1: LoopView,
    pool0: PoolView,
    pool1: PoolView,
    stdin: usize,
    stdout: usize,
    file: usize,
    view: Option<ReadView>,
    report: Report,
    echo: Echo,
    reply: Reply,
)
    ensures
        stdin_read(
            lp0,
            lp1,
            pool0,
            pool1,
            stdin,
            stdout,
            file,
            Ok(0),
            view,
            report,
        ) ==> lp1 == lp0 && report.stop is None && report.read is None,
        echoed(lp0, lp1, pool0, pool1, stdin, Ok(0), view, echo) ==> lp1 == lp0 && echo
            == Echo::Nothing,
        replied(lp0, lp1, pool0, pool1, stdin, Ok(0), view, reply) ==> lp1 == lp0 && reply
            == Reply::Nothing,
{
}

/// The close callback of a handle fires only in an iteration after the
/// one in which close was requested, and only once no callback of a
/// request on the handle is left to fire.
pub proof fn law_close_comes_last(lp: LoopView, h: int)
    requires
        0 <= h < lp.handles.len(),
        lp.due(h),
        lp.callback(h) is Closed,
    ensures
        lp.handles[h].state == HandleState::Closing,
        lp.handles[h].closed_in < lp.iteration,
        !lp.busy(h as usize),
        forall|i: int|
            0 <= i < lp.requests.len() ==> (#[trigger] lp.requests[i]).operation.spec_handle()
                != Some(h as usize),
{
}

/// A step that hands out the close callback of a handle finds the handle
/// closing since an earlier iteration, with no callback of a request on it
/// left to fire, and leaves it closed. It changes no other handle and no
/// request.
pub proof fn law_close_step(lp: LoopView, after: LoopView, handle: usize)
    requires
        lp.wf(),
        lp.stepped(after, Some(Fired::Closed { handle })),
    ensures
        lp.has(handle),
        lp.handles[handle as int].state == HandleState::Closing,
        lp.handles[handle as int].closed_in < lp.iteration,
        !lp.busy(handle),
        after.handles == lp.handles.update(
            handle as int,
            lp.handles[handle as int].at(HandleState::Closed),
        ),
        after.requests == lp.requests,
{
}

/// The close callback of a handle fires once: with it the handle is
/// closed, and of a closed handle no callback is due, nothing can be
/// started or submitted on it, and close cannot be requested again.
pub proof fn law_close_fires_once(lp: LoopView, h: usize)
    requires
        lp.has(h),
        lp.handles[h as int].state == HandleState::Closing,
    ensures
        lp.after_callback(h as int).handles[h as int].state == HandleState::Closed,
        forall|other: LoopView|
            other.has(h) && other.handles[h as int].state == HandleState::Closed ==> {
                &&& !#[trigger] other.due(h as int)
                &&& !other.can_close(h)
                &&& !other.can_read_start(h)
                &&& !other.can_read_stop(h)
                &&& !other.can_idle_start(h)
                &&& !other.can_idle_stop(h)
                &&& !other.can_write(h)
                &&& !other.is_new_tcp(h)
                &&& !other.is_new_pipe(h)
                &&& !other.is_listening(h)
            },
{
}

/// What the loop does by itself leaves a closed handle closed: the
/// callback of a request, the callback of another handle, and the start
/// of an iteration.
pub proof fn law_closed_stays_closed(lp: LoopView, h: usize, i: int, other: int)
    requires
        lp.has(h),
        lp.handles[h as int].state == HandleState::Closed,
        0 <= i < lp.requests.len(),
        lp.requests[i].outcome is Some,
        0 <= other < lp.handles.len(),
    ensures
        lp.after_completion(i).handles[h as int].state == HandleState::Closed,
        lp.after_callback(other).handles[h as int].state == HandleState::Closed,
        lp.next_iteration().handles[h as int].state == HandleState::Closed,
        lp.counted().handles[h as int].state == HandleState::Closed,
{
}

/// A close cancels the requests that wait on the handle and leaves all
/// others as they were: a request that has its outcome keeps it, and so
/// does every request on another handle.
pub proof fn law_close_cancels_what_waits(lp: LoopView, h: usize, i: int)
    requires
        lp.can_close(h),
        lp.handles[h as int].state != HandleState::Closing,
        0 <= i < lp.requests.len(),
    ensures
        lp.closing(h).requests.len() == lp.requests.len(),
        lp.closing(h).requests[i].id == lp.requests[i].id,
        lp.closing(h).requests[i].operation == lp.requests[i].operation,
        lp.closing(h).requests[i].outcome == if lp.requests[i].pending_on(h) {
            Some(Err::<usize, ErrorKind>(ErrorKind::Canceled))
        } else {
            lp.requests[i].outcome
        },
        lp.closing(h).handles[h as int].state == HandleState::Closing,
{
}

/// Stopping the reading of a handle leaves every request in flight:
/// writes that were submitted on the handle still complete.
pub proof fn law_stop_keeps_writes(lp: LoopView, h: usize)
    requires
        lp.can_read_stop(h),
    ensures
        lp.with_state(h, HandleState::Stopped).requests == lp.requests,
        !lp.with_state(h, HandleState::Stopped).handles[h as int].reading(),
        forall|i: int|
            #[trigger] lp.with_state(h, HandleState::Stopped).deliverable(i) ==> lp.arrivals[i].handle
                != h,
{
}

/// One chunk that was read goes to both destinations unchanged: where
/// both writes were submitted, they are the last two requests in flight,
/// the first on standard output and the second on the file, and each
/// carries the same bytes, the first `len` of the chunk, in a buffer of
/// its own. When and in which order the two complete changes nothing of
/// this, since a request keeps its operation until its callback fires.
pub proof fn law_fan_out(
    lp0: LoopView,
    lp1: LoopView,
    pool0: PoolView,
    pool1: PoolView,
    stdin: usize,
    stdout: usize,
    file: usize,
    len: usize,
    view: ReadView,
    report: Report,
)
    requires
        len > 0,
        stdin_read(lp0, lp1, pool0, pool1, stdin, stdout, file, Ok(len), Some(view), report),
        report.stdout is None,
        report.file is None,
    ensures
        lp1.requests.len() == lp0.requests.len() + 2,
        lp1.requests.take(lp0.requests.len() as int) == lp0.requests,
        ({
            let first = lp1.requests[lp0.requests.len() as int];
            let second = lp1.requests[lp0.requests.len() as int + 1];
            &&& first.outcome is None
            &&& second.outcome is None
            &&& first.operation.spec_handle() == Some(stdout)
            &&& second.operation.spec_handle() == Some(file)
            &&& first.operation.payload() == Some(copy_content(view@, Some(len)))
            &&& second.operation.payload() == Some(copy_content(view@, Some(len)))
            &&& first.operation->Send_buffer.spec_id() != second.operation->Send_buffer.spec_id()
        }),
{
}

/// An outcome that is reported for one request changes no other request
/// and no operation: every request keeps the buffer it was submitted
/// with, whatever the order in which outcomes come.
pub proof fn law_outcomes_keep_operations(
    lp: LoopView,
    i: int,
    outcome: Result<usize, ErrorKind>,
    j: int,
)
    requires
        0 <= i < lp.requests.len(),
        0 <= j < lp.requests.len(),
    ensures
        lp.with_outcome(i, outcome).requests.len() == lp.requests.len(),
        lp.with_outcome(i, outcome).requests[j].operation == lp.requests[j].operation,
        lp.with_outcome(i, outcome).requests[j].id == lp.requests[j].id,
        j != i ==> lp.with_outcome(i, outcome).requests[j] == lp.requests[j],
{
}

/// A request fires once: with its callback it leaves the requests in
/// flight, and the ids of the others tell them apart from it.
pub proof fn law_request_fires_once(lp: LoopView, i: int)
    requires
        lp.wf(),
        0 <= i < lp.requests.len(),
        lp.requests[i].outcome is Some,
    ensures
        !lp.after_completion(i).knows(lp.requests[i].id),
        lp.after_completion(i).requests.len() == lp.requests.len() - 1,
        lp.after_completion(i).wf(),
{
}

/// A handle is further on in its life than before, or where it was: a
/// closed handle is closed, and a closing handle is closing or closed.
pub open spec fn further(before: HandleState, after: HandleState) -> bool {
    &&& before == HandleState::Closed ==> after == HandleState::Closed
    &&& before == HandleState::Closing ==> after == HandleState::Closing || after
        == HandleState::Closed
}

/// Every handle of `before` is a handle of `after`, of the same kind, and
/// further on in its life or where it was.
pub open spec fn advanced(before: LoopView, after: LoopView) -> bool {
    &&& before.handles.len() <= after.handles.len()
    &&& forall|h: int|
        0 <= h < before.handles.len() ==> (#[trigger] after.handles[h]).kind
            == before.handles[h].kind && further(before.handles[h].state, after.handles[h].state)
}

/// Handles only advance: whatever is done on a loop, where it can be
/// done, no handle leaves the registry or changes its kind, a closing
/// handle does not come back, and a closed handle stays closed.
pub proof fn law_handles_only_advance(
    lp: LoopView,
    h: usize,
    other: usize,
    i: int,
    kind: HandleKind,
    operation: Operation,
    outcome: Result<usize, ErrorKind>,
)
    ensures
        advanced(lp, lp),
        advanced(lp, lp.with_new(kind)),
        advanced(lp, lp.submitted(operation)),
        advanced(lp, lp.next_iteration()),
        advanced(lp, lp.counted()),
        lp.can_read_start(h) ==> advanced(lp, lp.with_state(h, HandleState::Active)),
        lp.can_read_stop(h) ==> advanced(lp, lp.with_state(h, HandleState::Stopped)),
        lp.can_idle_start(h) ==> advanced(lp, lp.with_state(h, HandleState::Active)),
        lp.can_idle_stop(h) ==> advanced(lp, lp.with_state(h, HandleState::Stopped)),
        lp.is_new_pipe(h) ==> advanced(lp, lp.with_state(h, HandleState::Stopped)),
        lp.can_close(h) ==> advanced(lp, lp.closing(h)),
        lp.can_accept(h, other) ==> advanced(lp, lp.accepted(h, other)),
        advanced(lp, lp.accept_failed(h, other)),
        0 <= i < lp.requests.len() ==> advanced(lp, lp.with_outcome(i, outcome)),
        0 <= i < lp.requests.len() && lp.requests[i].outcome is Some ==> advanced(
            lp,
            lp.after_completion(i),
        ),
        lp.has(h) && lp.due(h as int) ==> advanced(lp, lp.after_callback(h as int)),
{
}

/// What advances twice has advanced.
pub proof fn law_advance_adds_up(a: LoopView, b: LoopView, c: LoopView)
    requires
        advanced(a, b),
        advanced(b, c),
    ensures
        advanced(a, c),
{
}

/// An outcome that the loop takes keeps the order of outcomes: among the
/// requests of one kind on one handle, none has its outcome before an
/// earlier one. So does a close, which gives an outcome to every request
/// that waits on the handle.
pub proof fn law_outcomes_come_in_order(
    lp: LoopView,
    i: int,
    outcome: Result<usize, ErrorKind>,
    h: usize,
)
    requires
        lp.wf(),
    ensures
        0 <= i < lp.requests.len() && lp.admits(i, outcome) ==> lp.with_outcome(i, outcome).wf(),
        lp.can_close(h) ==> lp.closing(h).wf(),
{
}

/// Callbacks keep the order of submission: when the callback of a request
/// fires, no earlier request of the same kind on the same handle is in
/// flight.
pub proof fn law_callbacks_keep_order(lp: LoopView, i: int, j: int)
    requires
        lp.wf(),
        lp.completed_first(i),
        0 <= j < i,
    ensures
        !lp.akin(j, i),
{
}

/// The end of a stream cancels nothing: every request stays as it was,
/// with the outcome it had or still waiting for it. Close is requested
/// only where no callback of a request on the handle has yet to fire;
/// else the reading is stopped and the handle stays open for what is in
/// flight.
pub proof fn law_end_cancels_nothing(lp: LoopView, h: usize)
    ensures
        lp.ending(h).requests == lp.requests,
        lp.closing_if_free(h).requests == lp.requests,
        lp.busy(h) ==> lp.ending(h) == if lp.can_read_stop(h) {
            lp.with_state(h, HandleState::Stopped)
        } else {
            lp
        },
        !lp.busy(h) ==> lp.ending(h) == if lp.can_close(h) {
            lp.closing(h)
        } else {
            lp
        },
{
    if !lp.busy(h) && lp.can_close(h) {
        assert(lp.closing(h).requests =~= lp.requests);
    }
}

/// The read callbacks of the echo server and of its client cancel no
/// write when reading ends. Every request is left as it was; the close is
/// requested at once only where no callback of a request on the
/// connection has yet to fire, and else the reading is stopped and the
/// connection stays open.
pub proof fn law_echo_end_cancels_nothing(
    lp0: LoopView,
    lp1: LoopView,
    pool0: PoolView,
    pool1: PoolView,
    conn: usize,
    e: ErrorKind,
    view: Option<ReadView>,
    echo: Echo,
    reply: Reply,
)
    requires
        lp0.stopped(conn) || lp0.has(conn) && lp0.handles[conn as int].reading(),
    ensures
        echoed(lp0, lp1, pool0, pool1, conn, Err(e), view, echo) ==> {
            &&& lp1.requests == lp0.requests
            &&& lp1 == if lp0.busy(conn) {
                lp0.with_state(conn, HandleState::Stopped)
            } else {
                lp0.closing(conn)
            }
        },
        replied(lp0, lp1, pool0, pool1, conn, Err(e), view, reply) ==> {
            &&& lp1.requests == lp0.requests
            &&& lp1 == if lp0.busy(conn) {
                lp0.with_state(conn, HandleState::Stopped)
            } else {
                lp0.closing(conn)
            }
        },
{
    law_end_cancels_nothing(lp0, conn);
    if lp0.stopped(conn) {
        assert(lp0.with_state(conn, HandleState::Stopped).handles =~= lp0.handles);
    }
}

/// The write callback of the echo server requests the close of a
/// connection only when the connection had come to its end and this was
/// the last of its writes: then no request is left that the close could
/// cancel.
pub proof fn law_last_write_closes(lp: LoopView, client: usize)
    ensures
        write_done(lp, client).requests == lp.requests,
        write_done(lp, client) != lp ==> lp.stopped(client) && !lp.busy(client),
        lp.stopped(client) && !lp.busy(client) ==> write_done(lp, client) == lp.closing(client),
{
    law_end_cancels_nothing(lp, client);
}

/// One call of the idle callback raises the count by one, and stops the
/// handle exactly when the new count has reached the limit.
pub proof fn law_idle_counts_and_stops(
    before: Counter,
    after: Counter,
    lp0: LoopView,
    lp1: LoopView,
    handle: usize,
    r: Result<bool, ErrorKind>,
)
    requires
        0 <= before.count < i64::MAX,
        lp0.can_idle_stop(handle),
        before.idled(after, lp0, lp1, handle, r),
    ensures
        after.count == before.count + 1,
        after.limit == before.limit,
        after.count >= before.limit <==> lp1.handles[handle as int].state
            == HandleState::Stopped,
        after.count >= before.limit <==> r == Ok::<bool, ErrorKind>(false),
        after.count < before.limit ==> lp1 == lp0,
{
}

/// Callbacks of requests come first: where the first request in flight
/// has its outcome, the next step hands out its callback and takes it
/// from the requests in flight, whatever else is due.
pub proof fn law_completion_fires_first(before: LoopView, after: LoopView, fired: Option<Fired>)
    requires
        before.stepped(after, fired),
        before.requests.len() > 0,
        before.requests[0].outcome is Some,
    ensures
        fired == Some(
            Fired::Completed {
                id: before.requests[0].id,
                operation: before.requests[0].operation,
                result: before.requests[0].outcome->0,
            },
        ),
        after == before.after_completion(0).counted(),
{
    assert(before.any_completed());
    match fired {
        Some(Fired::Completed { id, operation, result }) => {
            let i = choose|i: int|
                {
                    &&& before.completed_first(i)
                    &&& before.requests[i] == (Request { id, operation, outcome: Some(result) })
                    &&& after == before.after_completion(i).counted()
                };
            if i > 0 {
                assert(before.requests[0].outcome is None);
            }
        },
        _ => {},
    }
}

/// Read callbacks come next: where no request has its outcome and the
/// first arrival is for a handle that is being read, the next step hands
/// out the read callback for it and takes it from what waits.
pub proof fn law_arrival_fires_next(before: LoopView, after: LoopView, fired: Option<Fired>)
    requires
        before.stepped(after, fired),
        forall|i: int| 0 <= i < before.requests.len() ==> (#[trigger] before.requests[i]).outcome is None,
        before.deliverable(0),
    ensures
        fired == Some(
            Fired::Read {
                handle: before.arrivals[0].handle,
                incoming: before.arrivals[0].incoming,
            },
        ),
        after == (LoopView { arrivals: before.arrivals.remove(0), ..before }).counted(),
{
    assert(before.any_deliverable());
    match fired {
        Some(Fired::Read { handle, incoming }) => {
            let i = choose|i: int|
                {
                    &&& before.delivered_first(i)
                    &&& before.arrivals[i] == (Arrival { handle, incoming })
                    &&& after == (LoopView {
                        arrivals: before.arrivals.remove(i),
                        ..before
                    }).counted()
                };
            if i > 0 {
                assert(!before.deliverable(0));
            }
        },
        Some(Fired::Completed { id, operation, result }) => {
            let i = choose|i: int|
                {
                    &&& before.completed_first(i)
                    &&& before.requests[i] == (Request { id, operation, outcome: Some(result) })
                    &&& after == before.after_completion(i).counted()
                };
            assert(before.requests[i].outcome is None);
        },
        _ => {},
    }
}

/// The callbacks of handles come last: where no request has its outcome
/// and nothing waits to be read, the next step hands out the callback of
/// the first handle from the cursor on that has one due.
pub proof fn law_handle_fires_last(
    before: LoopView,
    after: LoopView,
    fired: Option<Fired>,
    h: int,
)
    requires
        before.stepped(after, fired),
        forall|i: int| 0 <= i < before.requests.len() ==> (#[trigger] before.requests[i]).outcome is None,
        before.arrivals.len() == 0,
        before.due_first(h),
    ensures
        fired == Some(before.callback(h)),
        after == before.after_callback(h).counted(),
{
    assert(before.any_due());
    match fired {
        Some(Fired::Completed { id, operation, result }) => {
            let i = choose|i: int|
                {
                    &&& before.completed_first(i)
                    &&& before.requests[i] == (Request { id, operation, outcome: Some(result) })
                    &&& after == before.after_completion(i).counted()
                };
            assert(before.requests[i].outcome is None);
        },
        Some(Fired::Read { handle, incoming }) => {
            let i = choose|i: int|
                {
                    &&& before.delivered_first(i)
                    &&& before.arrivals[i] == (Arrival { handle, incoming })
                    &&& after == (LoopView {
                        arrivals: before.arrivals.remove(i),
                        ..before
                    }).counted()
                };
        },
        Some(callback) => {
            let k = choose|k: int|
                {
                    &&& before.due_first(k)
                    &&& callback == before.callback(k)
                    &&& after == before.after_callback(k).counted()
                };
            if k < h {
                assert(!before.due(k));
            }
            if h < k {
                assert(!before.due(h));
            }
        },
        None => {},
    }
}

} // verus!
