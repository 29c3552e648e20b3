use uv_reactor::buffer::BufferPool;
use uv_reactor::error::ErrorKind;
use uv_reactor::flags::RunMode;
use uv_reactor::handle::{HandleKind, HandleState};
use uv_reactor::reactor::{Loop, SUGGESTED_CAPACITY};
use uv_reactor::request::{Fired, Incoming, Operation};
use uv_reactor::tee::{read_stdin, write_data, wrote, Event, Report, Tee};

const QUIET: Report = Report { read: None, stop: None, stdout: None, file: None };

fn started() -> (Loop, BufferPool, Tee) {
    let mut lp = Loop::new();
    let pool = BufferPool::new(4 * SUGGESTED_CAPACITY);
    let tee = Tee::start(&mut lp, 5).unwrap();
    (lp, pool, tee)
}

/// Answers every callback that is due and returns what the program did.
fn turn(lp: &mut Loop, pool: &mut BufferPool, tee: &Tee) -> Vec<Event> {
    let mut events = Vec::new();
    while let Some(fired) = lp.next() {
        events.push(tee.dispatch(lp, pool, fired));
    }
    events
}

/// Plays the two destinations: completes the writes in flight in the given
/// order of their ids and returns what reached each handle.
fn drain(lp: &mut Loop, ids: &[u64], first: bool) -> Vec<(u64, Vec<u8>)> {
    let mut order: Vec<u64> = ids.to_vec();
    if !first {
        order.reverse();
    }
    let mut written = Vec::new();
    for id in order {
        let bytes = lp.payload(id).unwrap();
        lp.complete(id, Ok(bytes.len())).unwrap();
        written.push((id, bytes));
    }
    written
}

#[test]
fn the_program_starts_with_three_pipes() {
    let (lp, _pool, tee) = started();
    assert_eq!(tee, Tee { stdin: 0, stdout: 1, file: 2 });
    for h in 0..3 {
        assert_eq!(lp.handle(h).unwrap().kind, HandleKind::Pipe);
    }
    assert_eq!(lp.state(tee.stdin), Some(HandleState::Active));
    assert_eq!(lp.state(tee.stdout), Some(HandleState::Stopped));
    assert_eq!(lp.state(tee.file), Some(HandleState::Stopped));
    assert!(lp.alive());
}

#[test]
fn the_program_does_not_start_without_a_file() {
    let mut lp = Loop::new();
    assert_eq!(Tee::start(&mut lp, -1), Err(ErrorKind::InvalidState));
    assert!(lp.handle(0).is_none());
}

#[test]
fn one_chunk_goes_to_both_destinations_unchanged() {
    for stdout_first in [true, false] {
        let (mut lp, mut pool, tee) = started();
        lp.post(tee.stdin, Incoming::Data(b"one chunk".to_vec())).unwrap();
        assert_eq!(turn(&mut lp, &mut pool, &tee), vec![Event::Read(QUIET)]);
        // the view is released already; the two copies are in flight
        assert_eq!(pool.allocations(), 3);
        assert_eq!(pool.releases(), 1);
        assert_eq!(pool.outstanding(), 18);
        assert_eq!(lp.payload(0), Some(b"one chunk".to_vec()));
        assert_eq!(lp.payload(1), Some(b"one chunk".to_vec()));

        // the writes complete on their own, in either order
        let written = drain(&mut lp, &[0, 1], stdout_first);
        assert_eq!(written[0].1, written[1].1);
        assert_eq!(
            turn(&mut lp, &mut pool, &tee),
            vec![Event::Wrote(None), Event::Wrote(None)]
        );
        assert!(pool.is_balanced());
        assert_eq!(pool.allocations(), 3);
        assert_eq!(pool.releases(), 3);
    }
}

#[test]
fn each_write_goes_to_its_own_destination() {
    let (mut lp, mut pool, tee) = started();
    lp.post(tee.stdin, Incoming::Data(b"abc".to_vec())).unwrap();
    turn(&mut lp, &mut pool, &tee);
    lp.complete(0, Ok(3)).unwrap();
    lp.complete(1, Ok(3)).unwrap();
    let mut targets = Vec::new();
    while let Some(fired) = lp.next() {
        if let Fired::Completed { operation: Operation::Send { handle, buffer }, .. } = fired {
            targets.push((handle, buffer.to_vec(), buffer.id()));
            pool.discard(buffer);
        }
    }
    assert_eq!(targets.len(), 2);
    assert_eq!(targets[0].0, tee.stdout);
    assert_eq!(targets[1].0, tee.file);
    assert_eq!(targets[0].1, b"abc".to_vec());
    assert_eq!(targets[1].1, b"abc".to_vec());
    assert_ne!(targets[0].2, targets[1].2);
    assert!(pool.is_balanced());
}

#[test]
fn a_whole_input_reaches_both_destinations() {
    let (mut lp, mut pool, tee) = started();
    let chunks: Vec<Vec<u8>> = vec![b"first ".to_vec(), Vec::new(), b"second ".to_vec(), b"third".to_vec()];
    let mut stdout = Vec::new();
    let mut file = Vec::new();
    let mut next_id = 0u64;
    for (round, chunk) in chunks.iter().enumerate() {
        lp.post(tee.stdin, Incoming::Data(chunk.clone())).unwrap();
        assert_eq!(turn(&mut lp, &mut pool, &tee), vec![Event::Read(QUIET)]);
        if chunk.is_empty() {
            // nothing was there: nothing is written, and reading goes on
            assert_eq!(lp.payload(next_id), None);
            assert_eq!(lp.state(tee.stdin), Some(HandleState::Active));
            continue;
        }
        let written = drain(&mut lp, &[next_id, next_id + 1], round % 2 == 0);
        for (id, bytes) in written {
            if id == next_id {
                stdout.extend(bytes);
            } else {
                file.extend(bytes);
            }
        }
        next_id += 2;
        turn(&mut lp, &mut pool, &tee);
    }
    assert_eq!(stdout, b"first second third".to_vec());
    assert_eq!(file, stdout);
    assert!(pool.is_balanced());
    assert_eq!(pool.allocations(), 4 + 6);
}

#[test]
fn the_end_of_the_input_stops_the_reading_and_closes_nothing() {
    let (mut lp, mut pool, tee) = started();
    lp.post(tee.stdin, Incoming::Data(b"last".to_vec())).unwrap();
    lp.post(tee.stdin, Incoming::End(ErrorKind::Eof)).unwrap();
    // both callbacks fire before either write has completed
    assert_eq!(
        turn(&mut lp, &mut pool, &tee),
        vec![Event::Read(QUIET), Event::Read(QUIET)]
    );
    assert_eq!(lp.state(tee.stdin), Some(HandleState::Stopped));
    assert_eq!(lp.state(tee.stdout), Some(HandleState::Stopped));
    assert_eq!(lp.state(tee.file), Some(HandleState::Stopped));
    // the writes are still owed, and are not canceled
    assert!(lp.alive());
    drain(&mut lp, &[0, 1], false);
    assert_eq!(
        turn(&mut lp, &mut pool, &tee),
        vec![Event::Wrote(None), Event::Wrote(None)]
    );
    assert!(!lp.alive());
    assert!(pool.is_balanced());

    // now the pipes are closed; the callbacks fire in the run after
    assert_eq!(tee.finish(&mut lp), Ok(()));
    for h in 0..3 {
        assert_eq!(lp.state(h), Some(HandleState::Closing));
    }
    assert!(lp.alive());
    assert_eq!(turn(&mut lp, &mut pool, &tee), Vec::<Event>::new());
    assert_eq!(turn(&mut lp, &mut pool, &tee), vec![Event::Ignored; 3]);
    assert!(!lp.alive());
    assert!(lp.destroy().is_ok());
}

#[test]
fn the_whole_program_in_two_runs() {
    let (mut lp, mut pool, mut tee) = started();
    lp.post(tee.stdin, Incoming::Data(b"data".to_vec())).unwrap();
    lp.post(tee.stdin, Incoming::End(ErrorKind::Eof)).unwrap();
    assert_eq!(lp.run(RunMode::Default, &mut tee, &mut pool), Ok(true));
    drain(&mut lp, &[0, 1], true);
    assert_eq!(lp.run(RunMode::Default, &mut tee, &mut pool), Ok(false));
    assert_eq!(tee.finish(&mut lp), Ok(()));
    assert_eq!(lp.run(RunMode::Default, &mut tee, &mut pool), Ok(false));
    assert!(pool.is_balanced());
    assert_eq!(pool.allocations(), pool.releases());
    assert!(lp.destroy().is_ok());
}

#[test]
fn the_pipes_are_not_closed_while_a_write_is_in_flight() {
    let (mut lp, mut pool, tee) = started();
    lp.post(tee.stdin, Incoming::Data(b"last".to_vec())).unwrap();
    turn(&mut lp, &mut pool, &tee);
    // too early: both destinations have a write in flight
    assert_eq!(tee.finish(&mut lp), Err(ErrorKind::Busy));
    assert_eq!(lp.state(tee.stdin), Some(HandleState::Closing));
    assert_eq!(lp.state(tee.stdout), Some(HandleState::Stopped));
    assert_eq!(lp.state(tee.file), Some(HandleState::Stopped));
    // no write was canceled
    assert_eq!(lp.complete(0, Ok(4)), Ok(()));
    assert_eq!(turn(&mut lp, &mut pool, &tee)[0], Event::Wrote(None));
    assert_eq!(tee.finish(&mut lp), Err(ErrorKind::Busy));
    assert_eq!(lp.state(tee.stdout), Some(HandleState::Closing));
    assert_eq!(lp.state(tee.file), Some(HandleState::Stopped));
    assert_eq!(lp.complete(1, Ok(4)), Ok(()));
    turn(&mut lp, &mut pool, &tee);
    assert_eq!(tee.finish(&mut lp), Ok(()));
    assert_eq!(tee.finish(&mut lp), Ok(()));
    for _ in 0..3 {
        turn(&mut lp, &mut pool, &tee);
    }
    assert!(pool.is_balanced());
    assert!(lp.destroy().is_ok());
}

#[test]
fn a_close_at_once_would_cancel_a_write_that_is_owed() {
    let (mut lp, mut pool, tee) = started();
    lp.post(tee.stdin, Incoming::Data(b"last".to_vec())).unwrap();
    turn(&mut lp, &mut pool, &tee);
    // what the program does not do: close while the writes are in flight
    lp.close(tee.stdout).unwrap();
    lp.close(tee.file).unwrap();
    assert_eq!(lp.complete(0, Ok(4)), Err(ErrorKind::InvalidState));
    assert_eq!(
        turn(&mut lp, &mut pool, &tee),
        vec![
            Event::Wrote(Some(ErrorKind::Canceled)),
            Event::Wrote(Some(ErrorKind::Canceled))
        ]
    );
    assert!(pool.is_balanced());
}

#[test]
fn a_failure_of_the_input_is_reported_and_stops_the_reading() {
    let (mut lp, mut pool, tee) = started();
    lp.post(tee.stdin, Incoming::End(ErrorKind::Os(5))).unwrap();
    assert_eq!(
        turn(&mut lp, &mut pool, &tee),
        vec![Event::Read(Report { read: Some(ErrorKind::Os(5)), ..QUIET })]
    );
    assert_eq!(lp.state(tee.stdin), Some(HandleState::Stopped));
    assert!(pool.is_balanced());
}

#[test]
fn a_read_that_cannot_be_stopped_is_reported() {
    let (mut lp, mut pool, tee) = started();
    lp.read_stop(tee.stdin).unwrap();
    let report = read_stdin(
        &mut lp,
        &mut pool,
        tee.stdin,
        tee.stdout,
        tee.file,
        Err(ErrorKind::Eof),
        None,
    );
    assert_eq!(report, Report { stop: Some(ErrorKind::InvalidState), ..QUIET });
}

#[test]
fn a_count_of_zero_writes_nothing_and_stops_nothing() {
    let (mut lp, mut pool, tee) = started();
    let view = pool.allocate(16).unwrap().freeze();
    let report = read_stdin(&mut lp, &mut pool, tee.stdin, tee.stdout, tee.file, Ok(0), Some(view));
    assert_eq!(report, QUIET);
    assert_eq!(lp.state(tee.stdin), Some(HandleState::Active));
    assert_eq!(lp.payload(0), None);
    assert!(pool.is_balanced());
}

#[test]
fn a_destination_that_takes_no_writes_is_reported_and_the_other_served() {
    let (mut lp, mut pool, tee) = started();
    lp.close(tee.stdout).unwrap();
    lp.post(tee.stdin, Incoming::Data(b"abc".to_vec())).unwrap();
    assert_eq!(
        turn(&mut lp, &mut pool, &tee),
        vec![Event::Read(Report { stdout: Some(ErrorKind::InvalidState), ..QUIET })]
    );
    assert_eq!(lp.payload(0), Some(b"abc".to_vec()));
    assert_eq!(lp.payload(1), None);
    // the view and the copy that was not sent are released
    assert_eq!(pool.allocations(), 3);
    assert_eq!(pool.releases(), 2);
}

#[test]
fn write_data_sends_a_copy_of_the_first_bytes() {
    let (mut lp, mut pool, tee) = started();
    let view = pool.from_bytes(b"abcdef").unwrap().freeze();
    assert_eq!(write_data(&mut lp, &mut pool, tee.file, 4, &view), Ok(0));
    assert_eq!(lp.payload(0), Some(b"abcd".to_vec()));
    assert_eq!(write_data(&mut lp, &mut pool, tee.file, 6, &view), Ok(1));
    assert_eq!(lp.payload(1), Some(b"abcdef".to_vec()));
    assert_eq!(write_data(&mut lp, &mut pool, 9, 4, &view), Err(ErrorKind::Unknown));
    assert_eq!(pool.allocations(), 4);
    assert_eq!(pool.releases(), 1);
    pool.release_view(view).unwrap();
    // the copies outlive the view
    assert_eq!(lp.payload(0), Some(b"abcd".to_vec()));
}

#[test]
fn write_data_without_room_submits_nothing() {
    let mut lp = Loop::new();
    let mut pool = BufferPool::new(8);
    let tee = Tee::start(&mut lp, 5).unwrap();
    let view = pool.from_bytes(b"abcdef").unwrap().freeze();
    assert_eq!(write_data(&mut lp, &mut pool, tee.file, 4, &view), Err(ErrorKind::NoMemory));
    assert_eq!(lp.payload(0), None);
    assert_eq!(pool.allocations(), 1);
}

#[test]
fn a_finished_write_releases_its_buffer_whatever_its_result() {
    let mut pool = BufferPool::new(64);
    let b = pool.allocate(4).unwrap();
    assert_eq!(wrote(&mut pool, Ok(4), b), None);
    assert!(pool.is_balanced());
    let b = pool.allocate(4).unwrap();
    assert_eq!(wrote(&mut pool, Err(ErrorKind::Os(32)), b), Some(ErrorKind::Os(32)));
    assert!(pool.is_balanced());
}

#[test]
fn an_arrival_on_another_handle_is_not_the_programs() {
    let (mut lp, mut pool, tee) = started();
    let other = lp.pipe();
    lp.read_start(other).unwrap();
    lp.post(other, Incoming::Data(b"abc".to_vec())).unwrap();
    assert_eq!(turn(&mut lp, &mut pool, &tee), vec![Event::Ignored]);
    assert_eq!(pool.allocations(), 0);
}

fn numbered(len: usize) -> Vec<u8> {
    let mut bytes = Vec::with_capacity(len);
    for i in 0..len {
        bytes.push((i % 251) as u8);
    }
    bytes
}

#[test]
fn a_run_in_memory_gives_both_destinations_the_input() {
    for (len, reads) in [
        (0usize, 0usize),
        (1, 1),
        (SUGGESTED_CAPACITY - 1, 1),
        (SUGGESTED_CAPACITY, 1),
        (SUGGESTED_CAPACITY + 1, 2),
        (3 * SUGGESTED_CAPACITY + 17, 4),
    ] {
        let source = numbered(len);
        let mut pool = BufferPool::new(3 * SUGGESTED_CAPACITY);
        let copies = uv_reactor::tee::fan_out(&source, &mut pool).unwrap();
        assert_eq!(copies.stdout, source);
        assert_eq!(copies.file, source);
        assert_eq!(copies.reads, reads);
        assert!(pool.is_balanced());
        assert_eq!(pool.allocations(), 3 * reads as u64);
        assert_eq!(pool.releases(), 3 * reads as u64);
    }
}

#[test]
fn a_run_in_memory_needs_room_for_a_read_and_its_copies() {
    // three bytes: the buffer of the read and two copies of three bytes
    let mut pool = BufferPool::new(SUGGESTED_CAPACITY + 5);
    assert_eq!(uv_reactor::tee::fan_out(&vec![1, 2, 3], &mut pool), Err(ErrorKind::NoMemory));
    assert_eq!(pool.allocations(), 0);
    let mut pool = BufferPool::new(SUGGESTED_CAPACITY + 6);
    let copies = uv_reactor::tee::fan_out(&vec![1, 2, 3], &mut pool).unwrap();
    assert_eq!(copies.stdout, vec![1u8, 2, 3]);
    assert_eq!(copies.file, vec![1u8, 2, 3]);
    assert_eq!(copies.reads, 1);
    // what is outstanding counts
    let held = pool.allocate(1).unwrap();
    assert_eq!(uv_reactor::tee::fan_out(&vec![1, 2, 3], &mut pool), Err(ErrorKind::NoMemory));
    pool.discard(held);
    assert!(uv_reactor::tee::fan_out(&vec![1, 2, 3], &mut pool).is_ok());
    // a long input needs two copies of a whole read
    let long = vec![7u8; 2 * SUGGESTED_CAPACITY];
    let mut pool = BufferPool::new(3 * SUGGESTED_CAPACITY - 1);
    assert_eq!(uv_reactor::tee::fan_out(&long, &mut pool), Err(ErrorKind::NoMemory));
    let mut pool = BufferPool::new(3 * SUGGESTED_CAPACITY);
    assert_eq!(uv_reactor::tee::fan_out(&long, &mut pool).unwrap().reads, 2);
}

#[test]
fn a_run_in_memory_on_an_empty_input_needs_no_room() {
    let mut pool = BufferPool::new(0);
    let copies = uv_reactor::tee::fan_out(&Vec::new(), &mut pool).unwrap();
    assert_eq!(copies.stdout, Vec::<u8>::new());
    assert_eq!(copies.file, Vec::<u8>::new());
    assert_eq!(copies.reads, 0);
    assert_eq!(pool.allocations(), 0);
}

#[test]
fn a_run_of_the_program_keeps_a_live_buffer_for_each_write_in_flight() {
    let (mut lp, mut pool, mut tee) = started();
    lp.post(tee.stdin, Incoming::Data(b"abc".to_vec())).unwrap();
    lp.post(tee.stdin, Incoming::Data(b"de".to_vec())).unwrap();
    assert_eq!(tee.run(&mut lp, &mut pool, RunMode::NoWait), Ok(true));
    // four writes are in flight, each from a copy of its own; the views are gone
    assert_eq!(pool.allocations(), 6);
    assert_eq!(pool.releases(), 2);
    assert_eq!(pool.outstanding(), 3 + 3 + 2 + 2);

    // each callback releases the buffer of its write and no other
    lp.complete(0, Ok(3)).unwrap();
    assert_eq!(tee.run(&mut lp, &mut pool, RunMode::NoWait), Ok(true));
    assert_eq!(pool.releases(), 3);
    assert_eq!(pool.outstanding(), 3 + 2 + 2);
    assert_eq!(lp.payload(1), Some(b"abc".to_vec()));
    assert_eq!(lp.payload(2), Some(b"de".to_vec()));
    assert_eq!(lp.payload(3), Some(b"de".to_vec()));
    drain(&mut lp, &[1, 2, 3], true);
    assert_eq!(tee.run(&mut lp, &mut pool, RunMode::NoWait), Ok(true));
    assert!(pool.is_balanced());
    assert_eq!(pool.outstanding(), 0);
    assert_eq!(tee, Tee { stdin: 0, stdout: 1, file: 2 });
}
