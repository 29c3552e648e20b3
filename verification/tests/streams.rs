use uv_reactor::buffer::BufferPool;
use uv_reactor::error::ErrorKind;
use uv_reactor::request::Incoming;
use uv_reactor::stream::{alloc_buffer, classify, deliver, failure, receive, release_view, ReadOutcome};

#[test]
fn a_count_of_zero_is_not_the_end_of_the_stream() {
    assert_eq!(classify(Ok(0)), ReadOutcome::Again);
    assert_ne!(classify(Ok(0)), ReadOutcome::End);
    assert_eq!(classify(Ok(7)), ReadOutcome::Data(7));
    assert_eq!(classify(Err(ErrorKind::Eof)), ReadOutcome::End);
    assert_eq!(classify(Err(ErrorKind::Canceled)), ReadOutcome::Failed(ErrorKind::Canceled));
    assert_eq!(classify(Err(ErrorKind::Os(5))), ReadOutcome::Failed(ErrorKind::Os(5)));
}

#[test]
fn the_end_of_the_stream_is_not_reported_as_a_failure() {
    assert_eq!(failure(Err(ErrorKind::Eof)), None);
    assert_eq!(failure(Err(ErrorKind::Os(104))), Some(ErrorKind::Os(104)));
    assert_eq!(failure(Ok(0)), None);
    assert_eq!(failure(Ok(3)), None);
}

#[test]
fn the_allocator_hands_out_the_suggested_size_or_nothing() {
    let mut pool = BufferPool::new(100);
    let b = alloc_buffer(0, 64, &mut pool).unwrap();
    assert_eq!(b.capacity(), 64);
    assert_eq!(b.len(), 64);
    assert!(alloc_buffer(0, 64, &mut pool).is_none());
    assert_eq!(pool.allocations(), 1);
    pool.discard(b);
    assert!(pool.is_balanced());
}

#[test]
fn receive_copies_the_bytes_into_the_buffer() {
    let mut pool = BufferPool::new(100);
    let b = pool.allocate(8).unwrap();
    let (nread, view) = receive(vec![1, 2, 3], Some(b));
    assert_eq!(nread, Ok(3));
    let view = view.unwrap();
    assert_eq!(view.len(), 8);
    assert_eq!(view.to_vec(), vec![1u8, 2, 3, 0, 0, 0, 0, 0]);
    release_view(&mut pool, Some(view));
    assert!(pool.is_balanced());
}

#[test]
fn receive_without_a_buffer_abandons_the_read() {
    let (nread, view) = receive(vec![1, 2, 3], None);
    assert_eq!(nread, Err(ErrorKind::NoBuffers));
    assert!(view.is_none());
}

#[test]
fn receive_into_a_buffer_that_is_too_small_abandons_the_read() {
    let mut pool = BufferPool::new(100);
    let b = pool.allocate(2).unwrap();
    let (nread, view) = receive(vec![1, 2, 3], Some(b));
    assert_eq!(nread, Err(ErrorKind::NoBuffers));
    let view = view.unwrap();
    assert_eq!(view.to_vec(), vec![0u8, 0]);
    release_view(&mut pool, Some(view));
    assert!(pool.is_balanced());
}

#[test]
fn deliver_allocates_for_bytes_and_not_for_the_end() {
    let mut pool = BufferPool::new(100);
    let (nread, view) = deliver(0, Incoming::Data(vec![5, 6]), 16, &mut pool);
    assert_eq!(nread, Ok(2));
    let view = view.unwrap();
    assert_eq!(view.get(0), Some(5));
    assert_eq!(view.get(1), Some(6));
    assert_eq!(view.len(), 16);
    assert_eq!(pool.allocations(), 1);
    release_view(&mut pool, Some(view));

    let (nread, view) = deliver(0, Incoming::End(ErrorKind::Eof), 16, &mut pool);
    assert_eq!(nread, Err(ErrorKind::Eof));
    assert!(view.is_none());
    assert_eq!(pool.allocations(), 1);

    let (nread, view) = deliver(0, Incoming::Data(Vec::new()), 16, &mut pool);
    assert_eq!(nread, Ok(0));
    assert!(view.is_some());
    release_view(&mut pool, view);
    assert!(pool.is_balanced());
    assert_eq!(pool.allocations(), 2);
    assert_eq!(pool.releases(), 2);
}

#[test]
fn deliver_without_room_reports_that_no_buffer_was_there() {
    let mut pool = BufferPool::new(8);
    let (nread, view) = deliver(0, Incoming::Data(vec![5, 6]), 16, &mut pool);
    assert_eq!(nread, Err(ErrorKind::NoBuffers));
    assert!(view.is_none());
    assert_eq!(pool.allocations(), 0);
}
