use uv_reactor::buffer::BufferPool;
use uv_reactor::error::ErrorKind;
use uv_reactor::reactor::SUGGESTED_CAPACITY;
use uv_reactor::wire::converse;

const GREETING: &[u8] = b"hello world";

#[test]
fn the_client_observes_its_greeting_whatever_the_size_of_the_pieces() {
    for cut in 0..=13usize {
        let mut client = BufferPool::new(SUGGESTED_CAPACITY);
        let mut server = BufferPool::new(SUGGESTED_CAPACITY);
        let reply = converse(cut, &mut client, &mut server).unwrap();
        assert_eq!(reply, GREETING.to_vec(), "pieces of {cut}");
        let pieces = if cut == 0 || cut > 11 { 1 } else { (10 / cut + 1) as u64 };
        assert_eq!(client.allocations(), 1 + pieces);
        assert_eq!(server.allocations(), pieces);
        assert!(client.is_balanced() && server.is_balanced());
        assert_eq!(client.outstanding(), 0);
        assert_eq!(server.outstanding(), 0);
    }
}

#[test]
fn pieces_of_one_byte_make_eleven_round_trips() {
    let mut client = BufferPool::new(SUGGESTED_CAPACITY);
    let mut server = BufferPool::new(SUGGESTED_CAPACITY);
    assert_eq!(converse(1, &mut client, &mut server), Ok(GREETING.to_vec()));
    assert_eq!(server.allocations(), 11);
    assert_eq!(client.releases(), 12);
}

#[test]
fn pieces_of_four_bytes_end_with_a_short_one() {
    let mut client = BufferPool::new(SUGGESTED_CAPACITY);
    let mut server = BufferPool::new(SUGGESTED_CAPACITY);
    assert_eq!(converse(4, &mut client, &mut server), Ok(GREETING.to_vec()));
    assert_eq!(server.allocations(), 3);
}

#[test]
fn a_conversation_needs_room_for_a_read_on_both_sides() {
    let mut small = BufferPool::new(SUGGESTED_CAPACITY - 1);
    let mut large = BufferPool::new(SUGGESTED_CAPACITY);
    assert_eq!(converse(0, &mut small, &mut large), Err(ErrorKind::NoMemory));
    assert_eq!(converse(0, &mut large, &mut small), Err(ErrorKind::NoMemory));
    assert_eq!(small.allocations(), 0);
    assert_eq!(large.allocations(), 0);
    // room that is taken counts
    let held = large.allocate(1).unwrap();
    let mut other = BufferPool::new(SUGGESTED_CAPACITY);
    assert_eq!(converse(0, &mut large, &mut other), Err(ErrorKind::NoMemory));
    large.release(held).unwrap();
    assert_eq!(converse(0, &mut large, &mut other), Ok(GREETING.to_vec()));
}
