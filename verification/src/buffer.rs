//! Buffers and their pool. A buffer has one owner at a time and moves
//! with its operation; the pool knows every live buffer and counts what
//! it hands out and takes back.

use crate::error::ErrorKind;
use vstd::prelude::*;

verus! {

/// One live allocation as a pool records it.
#[derive(Debug)]
struct Lease {
    id: u64,
    capacity: usize,
}

/// The leases of a sequence as a map from buffer id to capacity.
spec fn lease_map(s: Seq<Lease>) -> Map<u64, nat>
    decreases s.len(),
{
    if s.len() == 0 {
        Map::empty()
    } else {
        lease_map(s.drop_last()).insert(s.last().id, s.last().capacity as nat)
    }
}

/// The bytes that the leases of a sequence hold together.
spec fn lease_total(s: Seq<Lease>) -> nat
    decreases s.len(),
{
    if s.len() == 0 {
        0
    } else {
        lease_total(s.drop_last()) + s.last().capacity as nat
    }
}

/// No two leases of the sequence carry the same id.
spec fn distinct_ids(s: Seq<Lease>) -> bool {
    forall|i: int, j: int| 0 <= i < j < s.len() ==> s[i].id != s[j].id
}

proof fn lemma_lease_map_dom(s: Seq<Lease>, id: u64)
    ensures
        lease_map(s).dom().contains(id) <==> exists|i: int| 0 <= i < s.len() && s[i].id == id,
    decreases s.len(),
{
    if s.len() > 0 {
        let t = s.drop_last();
        lemma_lease_map_dom(t, id);
        if exists|i: int| 0 <= i < s.len() && s[i].id == id {
            // an id that is not the last one's is an id of the rest
            let i = choose|i: int| 0 <= i < s.len() && s[i].id == id;
            if i < s.len() - 1 {
                assert(t[i].id == id);
            }
        }
    }
}

proof fn lemma_lease_map_at(s: Seq<Lease>, i: int)
    requires
        distinct_ids(s),
        0 <= i < s.len(),
    ensures
        lease_map(s).contains_pair(s[i].id, s[i].capacity as nat),
    decreases s.len(),
{
    if i < s.len() - 1 {
        let t = s.drop_last();
        lemma_lease_map_at(t, i);
    }
}

proof fn lemma_lease_remove(s: Seq<Lease>, i: int)
    requires
        distinct_ids(s),
        0 <= i < s.len(),
    ensures
        lease_map(s.remove(i)) == lease_map(s).remove(s[i].id),
        lease_total(s.remove(i)) + s[i].capacity == lease_total(s),
        distinct_ids(s.remove(i)),
    decreases s.len(),
{
    let t = s.drop_last();
    if i == s.len() - 1 {
        // the last id is none of the rest
        lemma_lease_map_dom(t, s[i].id);
    } else {
        lemma_lease_remove(t, i);
        assert(s.remove(i).drop_last() == t.remove(i));
    }
}

/// What a pool has handed out and taken back, as contracts see it.
pub struct PoolView {
    /// The buffers that are allocated and not yet released: id and capacity.
    pub live: Map<u64, nat>,
    /// The bytes that the live buffers hold together.
    pub outstanding: nat,
    /// The most bytes that may be outstanding at once.
    pub budget: nat,
    /// How many buffers were ever allocated.
    pub allocations: nat,
    /// How many buffers were ever released.
    pub releases: nat,
}

impl PoolView {
    /// The pool after it handed out one more buffer.
    pub open spec fn lease(self, id: u64, capacity: nat) -> PoolView {
        PoolView {
            live: self.live.insert(id, capacity),
            outstanding: self.outstanding + capacity,
            allocations: self.allocations + 1,
            ..self
        }
    }

    /// The pool after it took one buffer back.
    pub open spec fn give_back(self, id: u64) -> PoolView {
        PoolView {
            live: self.live.remove(id),
            outstanding: (self.outstanding - self.live[id]) as nat,
            releases: self.releases + 1,
            ..self
        }
    }

    /// Whether the pool can hand out `capacity` more bytes.
    pub open spec fn has_room(self, capacity: nat) -> bool {
        self.outstanding + capacity <= self.budget && self.allocations < u64::MAX
    }

    /// Whether the pool has a live buffer of this id and capacity.
    pub open spec fn holds(self, id: u64, capacity: nat) -> bool {
        self.live.contains_pair(id, capacity)
    }

    /// The pool after a release of a buffer of this id and capacity was
    /// tried: without the buffer if the pool held it, else as before.
    pub open spec fn released(self, id: u64, capacity: nat) -> PoolView {
        if self.holds(id, capacity) {
            self.give_back(id)
        } else {
            self
        }
    }

    /// The pool after `count` buffers were allocated and all of them
    /// released again.
    pub open spec fn cycled(self, count: nat) -> PoolView {
        PoolView {
            allocations: self.allocations + count,
            releases: self.releases + count,
            ..self
        }
    }

    /// Every buffer that was allocated has been released.
    pub open spec fn balanced(self) -> bool {
        self.allocations == self.releases
    }
}

/// A buffer that is allocated and released again leaves the pool as it
/// was, but for the two counts, which both rise by one.
pub proof fn lemma_lease_give_back(pool: PoolView, id: u64, capacity: nat)
    requires
        !pool.live.dom().contains(id),
    ensures
        pool.lease(id, capacity).holds(id, capacity),
        pool.lease(id, capacity).give_back(id) == pool.cycled(1),
        pool.lease(id, capacity).released(id, capacity) == pool.cycled(1),
{
    assert(pool.live.insert(id, capacity).remove(id) =~= pool.live);
}

/// A byte region with one owner. The owner can write it, hand it to an
/// operation, and must give it back to its pool exactly once.
#[derive(Debug)]
pub struct Buffer {
    id: u64,
    storage: Vec<u8>,
    len: usize,
}

impl View for Buffer {
    type V = Seq<u8>;

    /// The bytes below the logical length.
    open spec fn view(&self) -> Seq<u8> {
        self.storage().take(self.spec_len() as int)
    }
}

impl Buffer {
    #[verifier::type_invariant]
    spec fn inv(&self) -> bool {
        self.len <= self.storage.len()
    }

    /// The number under which the pool knows this buffer.
    pub closed spec fn spec_id(&self) -> u64 {
        self.id
    }

    /// All bytes of the backing storage, as many as the capacity.
    pub closed spec fn storage(&self) -> Seq<u8> {
        self.storage@
    }

    /// The logical length.
    pub closed spec fn spec_len(&self) -> usize {
        self.len
    }

    /// The size of the backing storage.
    pub open spec fn spec_capacity(&self) -> nat {
        self.storage().len()
    }

    /// The number under which the pool knows this buffer.
    #[verifier::when_used_as_spec(spec_id)]
    pub fn id(&self) -> (r: u64)
        ensures
            r == self.spec_id(),
    {
        self.id
    }

    /// The logical length: how many bytes count as content.
    #[verifier::when_used_as_spec(spec_len)]
    pub fn len(&self) -> (r: usize)
        ensures
            r == self.spec_len(),
            r <= self.spec_capacity(),
            r == self@.len(),
    {
        proof {
            use_type_invariant(self);
        }
        self.len
    }

    /// The size of the backing storage.
    pub fn capacity(&self) -> (r: usize)
        ensures
            r == self.spec_capacity(),
    {
        self.storage.len()
    }

    /// The content byte at `index`, if there is one.
    pub fn get(&self, index: usize) -> (r: Option<u8>)
        ensures
            r == if index < self@.len() {
                Some(self@[index as int])
            } else {
                None
            },
    {
        proof {
            use_type_invariant(self);
        }
        if index < self.len {
            Some(self.storage[index])
        } else {
            None
        }
    }

    /// A copy of the content.
    pub fn to_vec(&self) -> (r: Vec<u8>)
        ensures
            r@ == self@,
    {
        proof {
            use_type_invariant(self);
        }
        let mut out: Vec<u8> = Vec::new();
        let mut i: usize = 0;
        while i < self.len
            invariant
                i <= self.len <= self.storage.len(),
                out@ == self.storage@.take(i as int),
            decreases self.len - i,
        {
            out.push(self.storage[i]);
            i += 1;
        }
        out
    }

    /// A copy of the first `count` bytes of the storage, or of all of it
    /// where it has fewer: what a read of `count` bytes brought into the
    /// buffer, whatever its logical length.
    pub fn first(&self, count: usize) -> (r: Vec<u8>)
        ensures
            r@ == self.storage().take(
                if count <= self.spec_capacity() {
                    count as int
                } else {
                    self.spec_capacity() as int
                },
            ),
    {
        let end = if count <= self.storage.len() {
            count
        } else {
            self.storage.len()
        };
        let mut out: Vec<u8> = Vec::new();
        let mut i: usize = 0;
        while i < end
            invariant
                i <= end <= self.storage.len(),
                out@ == self.storage@.take(i as int),
            decreases end - i,
        {
            out.push(self.storage[i]);
            i += 1;
        }
        out
    }

    /// Sets the logical length. The backing storage stays as it is, so the
    /// length can move freely up to the capacity and no further.
    pub fn resize(&mut self, new_length: usize) -> (r: Result<(), ErrorKind>)
        ensures
            final(self).spec_id() == old(self).spec_id(),
            final(self).storage() == old(self).storage(),
            match r {
                Ok(()) => new_length <= old(self).spec_capacity() && final(self).spec_len()
                    == new_length,
                Err(e) => e == ErrorKind::NoMemory && new_length > old(self).spec_capacity()
                    && final(self).spec_len() == old(self).spec_len(),
            },
    {
        if new_length <= self.storage.len() {
            self.len = new_length;
            Ok(())
        } else {
            Err(ErrorKind::NoMemory)
        }
    }

    /// Copies `data` to the start of the backing storage, as far as it fits,
    /// and returns how many bytes were copied. The logical length stays.
    pub fn fill(&mut self, data: &[u8]) -> (n: usize)
        ensures
            final(self).spec_id() == old(self).spec_id(),
            final(self).spec_len() == old(self).spec_len(),
            n == if data@.len() <= old(self).spec_capacity() {
                data@.len()
            } else {
                old(self).spec_capacity()
            },
            final(self).storage() == data@.take(n as int) + old(self).storage().skip(n as int),
    {
        proof {
            use_type_invariant(&*self);
        }
        let n: usize = if data.len() <= self.storage.len() {
            data.len()
        } else {
            self.storage.len()
        };
        let mut i: usize = 0;
        while i < n
            invariant
                i <= n <= data@.len(),
                n <= self.storage.len(),
                self.id == old(self).id,
                self.len == old(self).len,
                self.len <= self.storage.len(),
                self.storage.len() == old(self).storage.len(),
                self.storage@ == data@.take(i as int) + old(self).storage@.skip(i as int),
            decreases n - i,
        {
            self.storage[i] = data[i];
            i += 1;
        }
        n
    }

    /// Ends writing: the buffer becomes a view that can only be read.
    pub fn freeze(self) -> (r: ReadView)
        ensures
            r.buffer() == self,
    {
        ReadView { inner: self }
    }
}

/// The read-only role of a buffer: what a completed read hands to its
/// callback. It owns the storage until it is released.
#[derive(Debug)]
pub struct ReadView {
    inner: Buffer,
}

impl View for ReadView {
    type V = Seq<u8>;

    /// The bytes below the logical length.
    open spec fn view(&self) -> Seq<u8> {
        self.buffer()@
    }
}

impl ReadView {
    /// The buffer that this view was made of.
    pub closed spec fn buffer(&self) -> Buffer {
        self.inner
    }

    /// The number under which the pool knows the storage.
    pub fn id(&self) -> (r: u64)
        ensures
            r == self.buffer().spec_id(),
    {
        self.inner.id()
    }

    /// How many bytes count as content.
    pub fn len(&self) -> (r: usize)
        ensures
            r == self@.len(),
            r == self.buffer().spec_len(),
    {
        self.inner.len()
    }

    /// The content byte at `index`, if there is one.
    pub fn get(&self, index: usize) -> (r: Option<u8>)
        ensures
            r == if index < self@.len() {
                Some(self@[index as int])
            } else {
                None
            },
    {
        self.inner.get(index)
    }

    /// A copy of the content.
    pub fn to_vec(&self) -> (r: Vec<u8>)
        ensures
            r@ == self@,
    {
        self.inner.to_vec()
    }

    /// Ends the view: the storage can be written again.
    pub fn into_buffer(self) -> (r: Buffer)
        ensures
            r == self.buffer(),
    {
        self.inner
    }
}

/// The bookkeeping of a pool.
#[derive(Debug)]
struct Ledger {
    budget: usize,
    outstanding: usize,
    next_id: u64,
    leases: Vec<Lease>,
}

impl Ledger {
    spec fn wf(&self) -> bool {
        &&& distinct_ids(self.leases@)
        &&& forall|i: int| 0 <= i < self.leases@.len() ==> self.leases@[i].id < self.next_id
        &&& self.leases@.len() <= self.next_id
        &&& self.outstanding == lease_total(self.leases@)
        &&& self.outstanding <= self.budget
    }

    spec fn view(&self) -> PoolView {
        PoolView {
            live: lease_map(self.leases@),
            outstanding: self.outstanding as nat,
            budget: self.budget as nat,
            allocations: self.next_id as nat,
            releases: (self.next_id - self.leases@.len()) as nat,
        }
    }

    fn new(budget: usize) -> (r: Ledger)
        ensures
            r.wf(),
            r.budget == budget,
            r.outstanding == 0,
            r.next_id == 0,
            r.leases@.len() == 0,
    {
        Ledger { budget, outstanding: 0, next_id: 0, leases: Vec::new() }
    }

    /// The place of the lease with this id and capacity.
    fn find(&self, id: u64, capacity: usize) -> (r: Option<usize>)
        requires
            self.wf(),
        ensures
            match r {
                Some(i) => i < self.leases@.len() && self.leases@[i as int].id == id
                    && self.leases@[i as int].capacity == capacity,
                None => true,
            },
            r is Some <==> self.view().holds(id, capacity as nat),
    {
        let mut i: usize = 0;
        while i < self.leases.len()
            invariant
                self.wf(),
                i <= self.leases@.len(),
                forall|j: int| 0 <= j < i ==> self.leases@[j].id != id,
            decreases self.leases@.len() - i,
        {
            if self.leases[i].id == id {
                proof {
                    lemma_lease_map_at(self.leases@, i as int);
                }
                if self.leases[i].capacity == capacity {
                    return Some(i);
                } else {
                    return None;
                }
            }
            i += 1;
        }
        proof {
            lemma_lease_map_dom(self.leases@, id);
        }
        None
    }

    /// Records one more lease and gives its id, where the budget allows it.
    fn lease(&mut self, capacity: usize) -> (r: Option<u64>)
        requires
            old(self).wf(),
        ensures
            final(self).wf(),
            match r {
                Some(id) => {
                    &&& old(self).view().has_room(capacity as nat)
                    &&& id == old(self).view().allocations
                    &&& !old(self).view().live.dom().contains(id)
                    &&& final(self).view() == old(self).view().lease(id, capacity as nat)
                },
                None => {
                    &&& !old(self).view().has_room(capacity as nat)
                    &&& final(self).view() == old(self).view()
                },
            },
    {
        if capacity > self.budget - self.outstanding || self.next_id == u64::MAX {
            return None;
        }
        let id: u64 = self.next_id;
        proof {
            lemma_lease_map_dom(self.leases@, id);
            assert(self.leases@.push(Lease { id, capacity }).drop_last() == self.leases@);
        }
        self.leases.push(Lease { id, capacity });
        self.outstanding = self.outstanding + capacity;
        self.next_id = self.next_id + 1;
        Some(id)
    }

    /// Strikes the lease of this id and capacity, where there is one.
    fn give_back(&mut self, id: u64, capacity: usize) -> (r: bool)
        requires
            old(self).wf(),
        ensures
            final(self).wf(),
            r == old(self).view().holds(id, capacity as nat),
            final(self).view() == if r {
                old(self).view().give_back(id)
            } else {
                old(self).view()
            },
    {
        match self.find(id, capacity) {
            Some(i) => {
                proof {
                    lemma_lease_remove(self.leases@, i as int);
                    lemma_lease_map_at(self.leases@, i as int);
                }
                let lease = self.leases.remove(i);
                self.outstanding = self.outstanding - lease.capacity;
                true
            },
            None => false,
        }
    }
}

/// Where buffers come from and go back to. The pool knows every live
/// buffer, so a release of a buffer it does not hold is found out at once.
#[derive(Debug)]
pub struct BufferPool {
    ledger: Ledger,
}

impl View for BufferPool {
    type V = PoolView;

    closed spec fn view(&self) -> PoolView {
        self.ledger.view()
    }
}

impl BufferPool {
    #[verifier::type_invariant]
    spec fn inv(&self) -> bool {
        self.ledger.wf()
    }

    /// A pool that lets at most `budget` bytes be outstanding at once.
    pub fn new(budget: usize) -> (r: BufferPool)
        ensures
            r@ == (PoolView {
                live: Map::empty(),
                outstanding: 0,
                budget: budget as nat,
                allocations: 0,
                releases: 0,
            }),
    {
        BufferPool { ledger: Ledger::new(budget) }
    }

    /// How many buffers were ever allocated.
    pub fn allocations(&self) -> (r: u64)
        ensures
            r == self@.allocations,
    {
        self.ledger.next_id
    }

    /// How many buffers were ever released.
    pub fn releases(&self) -> (r: u64)
        ensures
            r == self@.releases,
            r <= self@.allocations,
    {
        proof {
            use_type_invariant(self);
        }
        self.ledger.next_id - (self.ledger.leases.len() as u64)
    }

    /// How many bytes the live buffers hold together.
    pub fn outstanding(&self) -> (r: usize)
        ensures
            r == self@.outstanding,
            r <= self@.budget,
    {
        proof {
            use_type_invariant(self);
        }
        self.ledger.outstanding
    }

    /// The most bytes that may be outstanding at once.
    pub fn budget(&self) -> (r: usize)
        ensures
            r == self@.budget,
    {
        self.ledger.budget
    }

    /// Whether every buffer that was allocated has been released.
    pub fn is_balanced(&self) -> (r: bool)
        ensures
            r == self@.balanced(),
            r == (self@.live == Map::<u64, nat>::empty()),
            r ==> self@.outstanding == 0,
    {
        proof {
            use_type_invariant(self);
            if self.ledger.leases@.len() > 0 {
                lemma_lease_map_at(self.ledger.leases@, 0);
            }
        }
        self.ledger.leases.len() == 0
    }

    /// Whether the pool holds a live buffer with the id and capacity of `buffer`.
    pub fn owns(&self, buffer: &Buffer) -> (r: bool)
        ensures
            r == self@.holds(buffer.spec_id(), buffer.spec_capacity()),
    {
        proof {
            use_type_invariant(self);
        }
        self.ledger.find(buffer.id, buffer.storage.len()).is_some()
    }

    /// Takes the ledger out, leaving an empty one in its place.
    fn take_ledger(&mut self) -> (r: Ledger)
        ensures
            r == old(self).ledger,
            r.wf(),
    {
        proof {
            use_type_invariant(&*self);
        }
        let mut ledger = Ledger::new(0);
        core::mem::swap(&mut self.ledger, &mut ledger);
        ledger
    }

    /// Allocates a writable buffer of `capacity` zero bytes. Its length is
    /// its capacity. Fails when the budget does not allow it.
    pub fn allocate(&mut self, capacity: usize) -> (r: Result<Buffer, ErrorKind>)
        ensures
            match r {
                Ok(b) => {
                    &&& old(self)@.has_room(capacity as nat)
                    &&& b.spec_id() == old(self)@.allocations
                    &&& !old(self)@.live.dom().contains(b.spec_id())
                    &&& b.storage() == Seq::new(capacity as nat, |i: int| 0u8)
                    &&& b.spec_len() == capacity
                    &&& final(self)@ == old(self)@.lease(b.spec_id(), capacity as nat)
                },
                Err(e) => {
                    &&& e == ErrorKind::NoMemory
                    &&& !old(self)@.has_room(capacity as nat)
                    &&& final(self)@ == old(self)@
                },
            },
    {
        let mut ledger = self.take_ledger();
        let leased = ledger.lease(capacity);
        self.ledger = ledger;
        match leased {
            Some(id) => {
                let storage: Vec<u8> = vec![0u8; capacity];
                Ok(Buffer { id, storage, len: capacity })
            },
            None => Err(ErrorKind::NoMemory),
        }
    }

    /// Allocates a buffer that holds a copy of `bytes` and nothing more.
    pub fn from_bytes(&mut self, bytes: &[u8]) -> (r: Result<Buffer, ErrorKind>)
        ensures
            match r {
                Ok(b) => {
                    &&& old(self)@.has_room(bytes@.len())
                    &&& b.spec_id() == old(self)@.allocations
                    &&& !old(self)@.live.dom().contains(b.spec_id())
                    &&& b.storage() == bytes@
                    &&& b@ == bytes@
                    &&& final(self)@ == old(self)@.lease(b.spec_id(), bytes@.len())
                },
                Err(e) => {
                    &&& e == ErrorKind::NoMemory
                    &&& !old(self)@.has_room(bytes@.len())
                    &&& final(self)@ == old(self)@
                },
            },
    {
        match self.allocate(bytes.len()) {
            Ok(mut b) => {
                let n = b.fill(bytes);
                Ok(b)
            },
            Err(e) => Err(e),
        }
    }

    /// Allocates a writable copy of a view, so that the copy and the view
    /// can be released independently. With `length` the copy has that
    /// capacity and holds the view's content as far as it fits, zero bytes
    /// after it; without, it has the size of the view's content.
    pub fn duplicate(&mut self, source: &ReadView, length: Option<usize>) -> (r: Result<
        Buffer,
        ErrorKind,
    >)
        ensures
            match r {
                Ok(b) => {
                    &&& old(self)@.has_room(copy_capacity(source@, length))
                    &&& b.spec_id() == old(self)@.allocations
                    &&& !old(self)@.live.dom().contains(b.spec_id())
                    &&& b.storage() == copy_content(source@, length)
                    &&& b@ == copy_content(source@, length)
                    &&& final(self)@ == old(self)@.lease(
                        b.spec_id(),
                        copy_capacity(source@, length),
                    )
                },
                Err(e) => {
                    &&& e == ErrorKind::NoMemory
                    &&& !old(self)@.has_room(copy_capacity(source@, length))
                    &&& final(self)@ == old(self)@
                },
            },
    {
        let capacity: usize = match length {
            Some(n) => n,
            None => source.len(),
        };
        match self.allocate(capacity) {
            Ok(mut b) => {
                let content = source.to_vec();
                let n = b.fill(content.as_slice());
                Ok(b)
            },
            Err(e) => Err(e),
        }
    }

    /// Takes a buffer back. Fails, and changes nothing, when the pool holds
    /// no live buffer of that id and capacity.
    pub fn release(&mut self, buffer: Buffer) -> (r: Result<(), ErrorKind>)
        ensures
            match r {
                Ok(()) => {
                    &&& old(self)@.holds(buffer.spec_id(), buffer.spec_capacity())
                    &&& final(self)@ == old(self)@.give_back(buffer.spec_id())
                },
                Err(e) => {
                    &&& e == ErrorKind::Unknown
                    &&& !old(self)@.holds(buffer.spec_id(), buffer.spec_capacity())
                    &&& final(self)@ == old(self)@
                },
            },
    {
        let mut ledger = self.take_ledger();
        let found = ledger.give_back(buffer.id, buffer.storage.len());
        self.ledger = ledger;
        if found {
            Ok(())
        } else {
            Err(ErrorKind::Unknown)
        }
    }

    /// Takes a buffer back where the pool holds it, and drops it where not.
    pub fn discard(&mut self, buffer: Buffer)
        ensures
            final(self)@ == old(self)@.released(buffer.spec_id(), buffer.spec_capacity()),
    {
        let _ = self.release(buffer);
    }

    /// Takes the storage of a view back, as `release` does for a buffer.
    pub fn release_view(&mut self, view: ReadView) -> (r: Result<(), ErrorKind>)
        ensures
            match r {
                Ok(()) => {
                    &&& old(self)@.holds(view.buffer().spec_id(), view.buffer().spec_capacity())
                    &&& final(self)@ == old(self)@.give_back(view.buffer().spec_id())
                },
                Err(e) => {
                    &&& e == ErrorKind::Unknown
                    &&& !old(self)@.holds(view.buffer().spec_id(), view.buffer().spec_capacity())
                    &&& final(self)@ == old(self)@
                },
            },
    {
        self.release(view.into_buffer())
    }
}

/// Whether `after` is `before` with `data` copied to the start of its
/// storage: the same buffer, of the same length and capacity.
pub open spec fn filled(before: Buffer, after: Buffer, data: Seq<u8>) -> bool {
    &&& after.spec_id() == before.spec_id()
    &&& after.spec_len() == before.spec_len()
    &&& after.storage() == data + before.storage().skip(data.len() as int)
}

/// The capacity of a copy of `content` made with the wanted `length`.
pub open spec fn copy_capacity(content: Seq<u8>, length: Option<usize>) -> nat {
    match length {
        Some(n) => n as nat,
        None => content.len(),
    }
}

/// The bytes of a copy of `content` made with the wanted `length`: the
/// content as far as it fits, then zero bytes up to the capacity.
pub open spec fn copy_content(content: Seq<u8>, length: Option<usize>) -> Seq<u8> {
    let capacity = copy_capacity(content, length);
    Seq::new(
        capacity,
        |i: int|
            if i < content.len() {
                content[i]
            } else {
                0u8
            },
    )
}

} // verus!
