//! Single-producer single-consumer ring buffer.
//!
//! The ring lives in a memory region shared between the kernel and one user
//! process; its header holds a producer index, a consumer index and the
//! element size, followed by the slots. The indices are free-running 32-bit
//! counters that wrap around; their difference never exceeds the capacity.
//! This type models the kernel's view of the ring: the pending elements in
//! order, together with the two indices and the user-visible base address.

use vstd::prelude::*;

verus! {

/// Bytes taken by the ring header (producer index, consumer index, element
/// size) before the first slot.
pub const RING_HEADER_SIZE: usize = 16;

/// Free-running counter difference `a - b` modulo 2^32.
pub open spec fn ring_sub(a: u32, b: u32) -> int {
    if a >= b {
        a - b
    } else {
        a - b + 0x1_0000_0000
    }
}

/// An atomic ring buffer of elements of type `T`.
pub struct AtomicRingBuffer<T> {
    base_addr: usize,
    capacity: usize,
    prod_idx: u32,
    cons_idx: u32,
    contents: Vec<T>,
}

impl<T> View for AtomicRingBuffer<T> {
    type V = Seq<T>;

    /// The pending elements, oldest first.
    closed spec fn view(&self) -> Seq<T> {
        self.contents@
    }
}

impl<T> AtomicRingBuffer<T> {
    /// The number of elements the ring can hold.
    pub closed spec fn capacity_spec(&self) -> int {
        self.capacity as int
    }

    /// The free-running producer and consumer indices.
    pub closed spec fn indices(&self) -> (u32, u32) {
        (self.prod_idx, self.cons_idx)
    }

    /// The user-visible base address of the ring structure.
    pub closed spec fn base_addr_spec(&self) -> int {
        self.base_addr as int
    }

    /// The pending elements fit the capacity and are counted exactly by the
    /// wrapping difference of the producer and consumer indices.
    pub closed spec fn wf(&self) -> bool {
        &&& self@.len() == ring_sub(self.prod_idx, self.cons_idx)
        &&& self@.len() <= self.capacity as int
        &&& 0 < self.capacity < 0x1_0000_0000
    }

    /// Constructs a new ring buffer over the memory region at `buf` of
    /// `buf_size` bytes, holding elements of `elem_size` bytes each.
    pub fn new(buf: usize, buf_size: usize, elem_size: usize) -> (r: AtomicRingBuffer<T>)
        requires
            elem_size > 0,
            buf_size >= RING_HEADER_SIZE + elem_size,
            buf_size < 0x1_0000_0000,
        ensures
            r.wf(),
            r@ =~= Seq::<T>::empty(),
            r.base_addr_spec() == buf,
            r.capacity_spec() == ((buf_size - RING_HEADER_SIZE) as int) / (elem_size as int),
    {
        let capacity = (buf_size - RING_HEADER_SIZE) / elem_size;
        proof {
            assert(capacity >= 1 && capacity <= (buf_size - RING_HEADER_SIZE) as int)
                by (nonlinear_arith)
                requires
                    elem_size > 0,
                    buf_size - RING_HEADER_SIZE >= elem_size,
                    capacity == ((buf_size - RING_HEADER_SIZE) as int) / (elem_size as int),
            ;
        }
        AtomicRingBuffer { base_addr: buf, capacity, prod_idx: 0, cons_idx: 0, contents: Vec::new() }
    }

    /// Inserts `elem` at the producer side: the element is written to the
    /// next slot, then the producer index is bumped. Fails (returns `false`)
    /// exactly when the ring is full.
    pub fn emplace(&mut self, elem: T) -> (r: bool)
        requires
            old(self).wf(),
        ensures
            final(self).wf(),
            final(self).capacity_spec() == old(self).capacity_spec(),
            final(self).base_addr_spec() == old(self).base_addr_spec(),
            r == (old(self)@.len() < old(self).capacity_spec()),
            r ==> final(self)@ == old(self)@.push(elem),
            !r ==> final(self)@ == old(self)@,
    {
        if self.contents.len() < self.capacity {
            self.contents.push(elem);
            self.prod_idx = if self.prod_idx == u32::MAX {
                0
            } else {
                self.prod_idx + 1
            };
            true
        } else {
            false
        }
    }

    /// Returns a reference to the oldest pending element, or `None` when
    /// the ring is empty.
    pub fn front(&self) -> (r: Option<&T>)
        requires
            self.wf(),
        ensures
            r is Some <==> self@.len() > 0,
            r matches Some(e) ==> *e == self@[0],
    {
        if self.contents.len() > 0 {
            Some(&self.contents[0])
        } else {
            None
        }
    }

    /// Removes the oldest pending element at the consumer side; does nothing
    /// when the ring is empty.
    pub fn pop(&mut self)
        requires
            old(self).wf(),
        ensures
            final(self).wf(),
            final(self).capacity_spec() == old(self).capacity_spec(),
            final(self).base_addr_spec() == old(self).base_addr_spec(),
            old(self)@.len() > 0 ==> final(self)@ == old(self)@.subrange(1, old(self)@.len() as int),
            old(self)@.len() == 0 ==> final(self)@ == old(self)@,
    {
        if self.contents.len() > 0 {
            self.contents.remove(0);
            self.cons_idx = if self.cons_idx == u32::MAX {
                0
            } else {
                self.cons_idx + 1
            };
            proof {
                assert(self@ =~= old(self)@.subrange(1, old(self)@.len() as int));
            }
        }
    }

    /// The user-visible address of the underlying ring structure.
    pub fn ring_addr(&self) -> (r: usize)
        ensures
            r == self.base_addr_spec(),
    {
        self.base_addr
    }
}

} // verus!
