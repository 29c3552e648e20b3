use uv_reactor::buffer::BufferPool;
use uv_reactor::error::ErrorKind;

#[test]
fn allocate_then_release_balances_the_pool() {
    let mut pool = BufferPool::new(4096);
    let b = pool.allocate(1024).unwrap();
    assert_eq!(b.len(), 1024);
    assert_eq!(b.capacity(), 1024);
    assert_eq!(pool.outstanding(), 1024);
    assert!(!pool.is_balanced());
    assert_eq!(pool.release(b), Ok(()));
    assert!(pool.is_balanced());
    assert_eq!(pool.allocations(), 1);
    assert_eq!(pool.releases(), 1);
    assert_eq!(pool.outstanding(), 0);
}

#[test]
fn allocation_beyond_the_budget_fails() {
    let mut pool = BufferPool::new(10);
    assert!(matches!(pool.allocate(11), Err(ErrorKind::NoMemory)));
    assert_eq!(pool.allocations(), 0);
    let b = pool.allocate(10).unwrap();
    assert!(matches!(pool.allocate(1), Err(ErrorKind::NoMemory)));
    assert_eq!(pool.allocations(), 1);
    pool.release(b).unwrap();
    assert!(pool.allocate(1).is_ok());
}

#[test]
fn a_fresh_buffer_is_zeroed_and_as_long_as_its_capacity() {
    let mut pool = BufferPool::new(64);
    let b = pool.allocate(4).unwrap();
    assert_eq!(b.to_vec(), vec![0u8, 0, 0, 0]);
    assert_eq!(b.get(3), Some(0));
    assert_eq!(b.get(4), None);
    assert_eq!(b.id(), 0);
    let c = pool.allocate(0).unwrap();
    assert_eq!(c.id(), 1);
    assert_eq!(c.len(), 0);
    assert_eq!(c.to_vec(), Vec::<u8>::new());
    pool.discard(b);
    pool.discard(c);
    assert!(pool.is_balanced());
}

#[test]
fn resize_moves_the_length_within_the_capacity() {
    let mut pool = BufferPool::new(64);
    let mut b = pool.from_bytes(&[1, 2, 3, 4, 5]).unwrap();
    assert_eq!(b.resize(2), Ok(()));
    assert_eq!(b.len(), 2);
    assert_eq!(b.capacity(), 5);
    assert_eq!(b.to_vec(), vec![1u8, 2]);
    assert_eq!(b.resize(4), Ok(()));
    assert_eq!(b.to_vec(), vec![1u8, 2, 3, 4]);
    assert_eq!(b.resize(6), Err(ErrorKind::NoMemory));
    assert_eq!(b.len(), 4);
    assert_eq!(b.resize(0), Ok(()));
    assert_eq!(b.to_vec(), Vec::<u8>::new());
    assert_eq!(pool.release(b), Ok(()));
}

#[test]
fn fill_copies_as_far_as_the_buffer_goes() {
    let mut pool = BufferPool::new(64);
    let mut b = pool.allocate(4).unwrap();
    assert_eq!(b.fill(&[9, 8]), 2);
    assert_eq!(b.to_vec(), vec![9u8, 8, 0, 0]);
    assert_eq!(b.fill(&[1, 2, 3, 4, 5, 6]), 4);
    assert_eq!(b.to_vec(), vec![1u8, 2, 3, 4]);
    assert_eq!(b.fill(&[]), 0);
    assert_eq!(b.to_vec(), vec![1u8, 2, 3, 4]);
    assert_eq!(b.len(), 4);
    pool.discard(b);
}

#[test]
fn a_buffer_of_another_pool_is_refused() {
    let mut first = BufferPool::new(64);
    let mut second = BufferPool::new(64);
    let b = first.allocate(8).unwrap();
    assert!(first.owns(&b));
    assert!(!second.owns(&b));
    assert_eq!(second.release(b), Err(ErrorKind::Unknown));
    assert_eq!(second.releases(), 0);
    assert!(second.is_balanced());
    assert!(!first.is_balanced());
}

#[test]
fn a_buffer_with_a_known_id_and_another_capacity_is_refused() {
    let mut first = BufferPool::new(64);
    let mut second = BufferPool::new(64);
    let a = first.allocate(8).unwrap();
    let b = second.allocate(16).unwrap();
    assert_eq!(a.id(), b.id());
    assert_eq!(second.release(a), Err(ErrorKind::Unknown));
    assert_eq!(second.outstanding(), 16);
    assert_eq!(second.release(b), Ok(()));
    assert!(second.is_balanced());
}

#[test]
fn duplicate_copies_the_first_bytes_into_a_buffer_of_its_own() {
    let mut pool = BufferPool::new(64);
    let view = pool.from_bytes(b"abcdef").unwrap().freeze();
    let short = pool.duplicate(&view, Some(3)).unwrap();
    assert_eq!(short.to_vec(), b"abc".to_vec());
    assert_eq!(short.capacity(), 3);
    let whole = pool.duplicate(&view, None).unwrap();
    assert_eq!(whole.to_vec(), b"abcdef".to_vec());
    let long = pool.duplicate(&view, Some(8)).unwrap();
    assert_eq!(long.to_vec(), vec![b'a', b'b', b'c', b'd', b'e', b'f', 0, 0]);
    assert_ne!(short.id(), view.id());
    assert_ne!(short.id(), whole.id());
    assert_eq!(pool.release_view(view), Ok(()));
    assert_eq!(short.to_vec(), b"abc".to_vec());
    assert_eq!(pool.release(short), Ok(()));
    assert_eq!(pool.release(long), Ok(()));
    assert_eq!(pool.release(whole), Ok(()));
    assert!(pool.is_balanced());
    assert_eq!(pool.allocations(), 4);
    assert_eq!(pool.releases(), 4);
}

#[test]
fn duplicate_without_room_changes_nothing() {
    let mut pool = BufferPool::new(8);
    let view = pool.from_bytes(b"abcdef").unwrap().freeze();
    assert!(matches!(pool.duplicate(&view, Some(3)), Err(ErrorKind::NoMemory)));
    assert_eq!(pool.allocations(), 1);
    assert_eq!(pool.outstanding(), 6);
    assert!(pool.duplicate(&view, Some(2)).is_ok());
}

#[test]
fn from_bytes_holds_exactly_the_bytes() {
    let mut pool = BufferPool::new(64);
    let b = pool.from_bytes(b"hello world").unwrap();
    assert_eq!(b.len(), 11);
    assert_eq!(b.capacity(), 11);
    assert_eq!(b.to_vec(), b"hello world".to_vec());
    assert_eq!(pool.outstanding(), 11);
    pool.discard(b);
    assert_eq!(pool.outstanding(), 0);
}

#[test]
fn a_view_reads_what_was_written_and_goes_back_to_a_buffer() {
    let mut pool = BufferPool::new(64);
    let b = pool.from_bytes(&[7, 8, 9]).unwrap();
    let id = b.id();
    let view = b.freeze();
    assert_eq!(view.id(), id);
    assert_eq!(view.len(), 3);
    assert_eq!(view.get(1), Some(8));
    assert_eq!(view.get(3), None);
    assert_eq!(view.to_vec(), vec![7u8, 8, 9]);
    let mut b = view.into_buffer();
    assert_eq!(b.id(), id);
    assert_eq!(b.fill(&[1]), 1);
    assert_eq!(b.to_vec(), vec![1u8, 8, 9]);
    assert_eq!(pool.release(b), Ok(()));
}

#[test]
fn counts_are_equal_once_every_buffer_is_released() {
    let mut pool = BufferPool::new(1000);
    let mut held = Vec::new();
    for size in 0..10usize {
        held.push(pool.allocate(size * 10).unwrap());
        assert_eq!(pool.allocations(), size as u64 + 1);
        assert_eq!(pool.releases(), 0);
    }
    assert_eq!(pool.outstanding(), 450);
    assert_eq!(pool.budget(), 1000);
    let mut released = 0u64;
    while let Some(b) = held.pop() {
        assert!(!pool.is_balanced());
        assert_eq!(pool.release(b), Ok(()));
        released += 1;
        assert_eq!(pool.releases(), released);
    }
    assert!(pool.is_balanced());
    assert_eq!(pool.allocations(), pool.releases());
    assert_eq!(pool.outstanding(), 0);
}

#[test]
fn buffers_are_released_in_any_order() {
    let mut pool = BufferPool::new(100);
    let a = pool.allocate(10).unwrap();
    let b = pool.allocate(20).unwrap();
    let c = pool.allocate(30).unwrap();
    assert_eq!(pool.release(b), Ok(()));
    assert_eq!(pool.outstanding(), 40);
    assert!(pool.owns(&a));
    assert!(pool.owns(&c));
    assert_eq!(pool.release(a), Ok(()));
    assert_eq!(pool.outstanding(), 30);
    assert_eq!(pool.release(c), Ok(()));
    assert!(pool.is_balanced());
}

#[test]
fn the_first_bytes_of_the_storage_are_copied_whatever_the_length() {
    let mut pool = BufferPool::new(64);
    let mut buffer = pool.allocate(8).unwrap();
    assert_eq!(buffer.fill(b"abcdef"), 6);
    buffer.resize(2).unwrap();
    assert_eq!(buffer.to_vec(), b"ab".to_vec());
    assert_eq!(buffer.first(0), Vec::<u8>::new());
    assert_eq!(buffer.first(4), b"abcd".to_vec());
    assert_eq!(buffer.first(6), b"abcdef".to_vec());
    // no further than the storage goes
    assert_eq!(buffer.first(100).len(), 8);
    assert_eq!(&buffer.first(100)[..6], b"abcdef");
    assert_eq!(buffer.len(), 2);
    pool.release(buffer).unwrap();
}
