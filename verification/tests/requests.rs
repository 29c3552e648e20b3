use uv_reactor::buffer::BufferPool;
use uv_reactor::error::{ErrorKind, ENOENT};
use uv_reactor::flags::{ModeFlags, OpenFlags};
use uv_reactor::handle::{Endpoint, HandleState};
use uv_reactor::reactor::Loop;
use uv_reactor::request::{Fired, Operation, RequestKind, CURRENT_POSITION};

#[test]
fn a_callback_never_fires_from_the_submission_call() {
    let mut lp = Loop::new();
    let id = lp
        .fs_open("file".to_string(), OpenFlags::readonly(), ModeFlags::empty())
        .unwrap();
    assert_eq!(id, 0);
    assert!(lp.alive());
    assert!(!lp.ready());
    assert!(lp.next().is_none());
    assert!(lp.next().is_none());
    assert_eq!(lp.dispatched(), 0);
    lp.complete(id, Ok(3)).unwrap();
    assert!(lp.ready());
    match lp.next() {
        Some(Fired::Completed { id: fired, operation: Operation::Open { path, flags, mode }, result }) => {
            assert_eq!(fired, id);
            assert_eq!(path, "file");
            assert_eq!(flags, OpenFlags::readonly());
            assert_eq!(mode, ModeFlags::empty());
            assert_eq!(result, Ok(3));
        }
        other => panic!("unexpected {:?}", other),
    }
    assert!(!lp.alive());
    assert_eq!(lp.dispatched(), 1);
}

#[test]
fn a_request_takes_one_outcome_and_fires_once() {
    let mut lp = Loop::new();
    let id = lp.fs_close(5).unwrap();
    assert_eq!(lp.complete(id, Ok(0)), Ok(()));
    assert_eq!(lp.complete(id, Ok(0)), Err(ErrorKind::InvalidState));
    assert_eq!(lp.complete(id, Err(ErrorKind::Canceled)), Err(ErrorKind::InvalidState));
    assert!(matches!(
        lp.next(),
        Some(Fired::Completed { result: Ok(0), operation: Operation::Close { file: 5 }, .. })
    ));
    assert!(lp.next().is_none());
    assert!(lp.next().is_none());
    assert_eq!(lp.complete(id, Ok(0)), Err(ErrorKind::Unknown));
    assert_eq!(lp.complete(77, Ok(0)), Err(ErrorKind::Unknown));
}

#[test]
fn an_error_is_delivered_to_the_callback_like_a_value() {
    let mut lp = Loop::new();
    let id = lp
        .fs_open("missing".to_string(), OpenFlags::readonly(), ModeFlags::empty())
        .unwrap();
    lp.complete(id, Err(ErrorKind::Os(ENOENT))).unwrap();
    assert!(matches!(
        lp.next(),
        Some(Fired::Completed { result: Err(ErrorKind::Os(2)), .. })
    ));
    assert!(!lp.alive());
}

#[test]
fn a_failure_without_a_code_is_delivered_as_such() {
    let mut lp = Loop::new();
    let id = lp.fs_close(4).unwrap();
    lp.complete(id, Err(ErrorKind::Other)).unwrap();
    assert!(matches!(
        lp.next(),
        Some(Fired::Completed { result: Err(ErrorKind::Other), .. })
    ));
}

#[test]
fn callbacks_fire_in_the_order_of_submission() {
    let mut lp = Loop::new();
    let a = lp.fs_close(1).unwrap();
    let b = lp.fs_close(2).unwrap();
    let c = lp.fs_close(3).unwrap();
    assert_eq!((a, b, c), (0, 1, 2));
    // requests on no handle may complete in any order
    lp.complete(c, Ok(0)).unwrap();
    lp.complete(a, Ok(0)).unwrap();
    assert!(matches!(lp.next(), Some(Fired::Completed { id: 0, .. })));
    assert!(matches!(lp.next(), Some(Fired::Completed { id: 2, .. })));
    assert!(lp.next().is_none());
    lp.complete(b, Ok(0)).unwrap();
    assert!(matches!(lp.next(), Some(Fired::Completed { id: 1, .. })));
    assert!(!lp.alive());
}

#[test]
fn outcomes_on_one_handle_come_in_the_order_of_submission() {
    let mut lp = Loop::new();
    let mut pool = BufferPool::new(64);
    let h = lp.pipe();
    lp.open(h, 1).unwrap();
    let other = lp.pipe();
    lp.open(other, 2).unwrap();
    let first = lp.write(h, pool.from_bytes(b"1").unwrap()).unwrap();
    let second = lp.write(h, pool.from_bytes(b"2").unwrap()).unwrap();
    let third = lp.write(other, pool.from_bytes(b"3").unwrap()).unwrap();
    assert_eq!(lp.complete(second, Ok(1)), Err(ErrorKind::InvalidState));
    // another handle is not held up
    assert_eq!(lp.complete(third, Ok(1)), Ok(()));
    assert_eq!(lp.complete(first, Ok(1)), Ok(()));
    assert_eq!(lp.complete(second, Ok(1)), Ok(()));
    let mut order = Vec::new();
    while let Some(Fired::Completed { id, operation, .. }) = lp.next() {
        order.push(id);
        if let Operation::Send { buffer, .. } = operation {
            pool.discard(buffer);
        }
    }
    assert_eq!(order, vec![first, second, third]);
    assert!(pool.is_balanced());
}

#[test]
fn a_write_owns_its_buffer_until_its_callback_fires() {
    let mut lp = Loop::new();
    let mut pool = BufferPool::new(64);
    let h = lp.pipe();
    lp.open(h, 1).unwrap();
    let buffer = pool.from_bytes(b"payload").unwrap();
    let held = buffer.id();
    let id = lp.write(h, buffer).unwrap();
    assert_eq!(lp.payload(id), Some(b"payload".to_vec()));
    assert_eq!(lp.room(id), None);
    assert!(!pool.is_balanced());
    lp.complete(id, Ok(7)).unwrap();
    match lp.next() {
        Some(Fired::Completed { operation: Operation::Send { handle, buffer }, result, .. }) => {
            assert_eq!(handle, h);
            assert_eq!(result, Ok(7));
            assert_eq!(buffer.id(), held);
            assert_eq!(buffer.to_vec(), b"payload".to_vec());
            assert_eq!(pool.release(buffer), Ok(()));
        }
        other => panic!("unexpected {:?}", other),
    }
    assert!(pool.is_balanced());
    assert_eq!(lp.payload(id), None);
}

#[test]
fn a_read_brings_its_bytes_in_the_buffer_it_was_given() {
    let mut lp = Loop::new();
    let mut pool = BufferPool::new(64);
    let buffer = pool.allocate(4).unwrap();
    let id = lp.fs_read(3, buffer, CURRENT_POSITION).unwrap();
    assert_eq!(lp.room(id), Some(4));
    assert_eq!(lp.payload(id), None);
    assert_eq!(lp.complete_read(id, &[1, 2, 3, 4, 5]), Err(ErrorKind::NoBuffers));
    assert_eq!(lp.complete(id, Ok(2)), Err(ErrorKind::InvalidState));
    assert_eq!(lp.complete_read(id + 1, &[1]), Err(ErrorKind::Unknown));
    assert_eq!(lp.complete_read(id, &[9, 8]), Ok(()));
    assert_eq!(lp.complete_read(id, &[9, 8]), Err(ErrorKind::InvalidState));
    match lp.next() {
        Some(Fired::Completed {
            operation: Operation::Read { file, buffer, offset },
            result,
            ..
        }) => {
            assert_eq!(file, 3);
            assert_eq!(offset, CURRENT_POSITION);
            assert_eq!(result, Ok(2));
            assert_eq!(buffer.to_vec(), vec![9u8, 8, 0, 0]);
            pool.discard(buffer);
        }
        other => panic!("unexpected {:?}", other),
    }
    assert!(pool.is_balanced());
}

#[test]
fn a_failed_read_is_reported_without_bytes() {
    let mut lp = Loop::new();
    let mut pool = BufferPool::new(64);
    let id = lp.fs_read(3, pool.allocate(4).unwrap(), 0).unwrap();
    assert_eq!(lp.complete(id, Err(ErrorKind::Os(5))), Ok(()));
    match lp.next() {
        Some(Fired::Completed { operation: Operation::Read { buffer, .. }, result, .. }) => {
            assert_eq!(result, Err(ErrorKind::Os(5)));
            pool.discard(buffer);
        }
        other => panic!("unexpected {:?}", other),
    }
    let id = lp.fs_close(3).unwrap();
    assert_eq!(lp.complete_read(id, &[]), Err(ErrorKind::InvalidState));
}

#[test]
fn close_cancels_the_writes_that_wait_and_fires_after_them() {
    let mut lp = Loop::new();
    let mut pool = BufferPool::new(64);
    let h = lp.pipe();
    lp.open(h, 1).unwrap();
    let done = lp.write(h, pool.from_bytes(b"1").unwrap()).unwrap();
    let waiting = lp.write(h, pool.from_bytes(b"2").unwrap()).unwrap();
    lp.complete(done, Ok(1)).unwrap();
    lp.close(h).unwrap();
    // the canceled request takes no other outcome
    assert_eq!(lp.complete(waiting, Ok(1)), Err(ErrorKind::InvalidState));

    let mut seen = Vec::new();
    let mut closed = 0;
    for _ in 0..6 {
        while let Some(fired) = lp.next() {
            match fired {
                Fired::Completed { id, operation, result } => {
                    assert_eq!(closed, 0);
                    seen.push((id, result));
                    if let Operation::Send { buffer, .. } = operation {
                        pool.discard(buffer);
                    }
                }
                Fired::Closed { handle } => {
                    assert_eq!(handle, h);
                    assert_eq!(seen.len(), 2);
                    closed += 1;
                }
                other => panic!("unexpected {:?}", other),
            }
        }
    }
    assert_eq!(seen, vec![(done, Ok(1)), (waiting, Err(ErrorKind::Canceled))]);
    assert_eq!(closed, 1);
    assert_eq!(lp.state(h), Some(HandleState::Closed));
    assert!(pool.is_balanced());
    assert!(lp.destroy().is_ok());
}

#[test]
fn the_close_callback_waits_for_a_callback_that_has_not_fired() {
    let mut lp = Loop::new();
    let mut pool = BufferPool::new(64);
    let h = lp.pipe();
    lp.open(h, 1).unwrap();
    let id = lp.write(h, pool.from_bytes(b"1").unwrap()).unwrap();
    lp.complete(id, Ok(1)).unwrap();
    lp.close(h).unwrap();
    // first the write, which keeps its success, then the end of the
    // iteration, then the close
    match lp.next() {
        Some(Fired::Completed { result, operation: Operation::Send { buffer, .. }, .. }) => {
            assert_eq!(result, Ok(1));
            pool.discard(buffer);
        }
        other => panic!("unexpected {:?}", other),
    }
    assert!(lp.next().is_none());
    assert!(matches!(lp.next(), Some(Fired::Closed { .. })));
}

#[test]
fn stopping_the_reading_cancels_no_write() {
    let mut lp = Loop::new();
    let mut pool = BufferPool::new(64);
    let h = lp.pipe();
    lp.open(h, 1).unwrap();
    lp.read_start(h).unwrap();
    let id = lp.write(h, pool.from_bytes(b"1").unwrap()).unwrap();
    lp.read_stop(h).unwrap();
    assert!(lp.alive());
    assert_eq!(lp.complete(id, Ok(1)), Ok(()));
    match lp.next() {
        Some(Fired::Completed { result, operation: Operation::Send { buffer, .. }, .. }) => {
            assert_eq!(result, Ok(1));
            pool.discard(buffer);
        }
        other => panic!("unexpected {:?}", other),
    }
    assert!(!lp.alive());
}

#[test]
fn a_connect_opens_the_handle_when_its_callback_fires() {
    let mut lp = Loop::new();
    let h = lp.tcp();
    let peer = Endpoint { address: 0x7f000001, port: 7000 };
    let id = lp.connect(h, peer).unwrap();
    assert!(lp.handle(h).unwrap().connecting);
    assert_eq!(lp.connect(h, peer), Err(ErrorKind::InvalidState));
    assert_eq!(lp.listen(h, 1), Err(ErrorKind::InvalidState));
    assert_eq!(lp.state(h), Some(HandleState::Created));
    lp.complete(id, Ok(0)).unwrap();
    assert_eq!(lp.state(h), Some(HandleState::Created));
    match lp.next() {
        Some(Fired::Completed { operation: Operation::Connect { handle, peer: to }, result, .. }) => {
            assert_eq!(handle, h);
            assert_eq!(to, peer);
            assert_eq!(result, Ok(0));
        }
        other => panic!("unexpected {:?}", other),
    }
    assert_eq!(lp.state(h), Some(HandleState::Stopped));
    assert!(!lp.handle(h).unwrap().connecting);
}

#[test]
fn a_failed_connect_leaves_the_handle_new() {
    let mut lp = Loop::new();
    let h = lp.tcp();
    let id = lp.connect(h, Endpoint { address: 0, port: 1 }).unwrap();
    lp.complete(id, Err(ErrorKind::Os(111))).unwrap();
    assert!(matches!(
        lp.next(),
        Some(Fired::Completed { result: Err(ErrorKind::Os(111)), .. })
    ));
    assert_eq!(lp.state(h), Some(HandleState::Created));
    assert!(!lp.handle(h).unwrap().connecting);
    assert!(lp.connect(h, Endpoint { address: 0, port: 1 }).is_ok());
}

#[test]
fn the_kind_and_handle_of_an_operation() {
    let mut pool = BufferPool::new(64);
    let send = Operation::Send { handle: 4, buffer: pool.allocate(1).unwrap() };
    assert_eq!(send.kind(), RequestKind::Write);
    assert_eq!(send.handle(), Some(4));
    let read = Operation::Read { file: 1, buffer: pool.allocate(1).unwrap(), offset: 0 };
    assert_eq!(read.kind(), RequestKind::Read);
    assert_eq!(read.handle(), None);
    let write = Operation::Write { file: 1, buffer: pool.allocate(1).unwrap(), offset: 0 };
    assert_eq!(write.kind(), RequestKind::Write);
    assert_eq!(Operation::Close { file: 1 }.kind(), RequestKind::Close);
    let connect = Operation::Connect { handle: 2, peer: Endpoint { address: 0, port: 1 } };
    assert_eq!(connect.kind(), RequestKind::Connect);
    assert_eq!(connect.handle(), Some(2));
    let open = Operation::Open {
        path: "p".to_string(),
        flags: OpenFlags::readonly(),
        mode: ModeFlags::empty(),
    };
    assert_eq!(open.kind(), RequestKind::Open);
    assert_eq!(open.handle(), None);
}
