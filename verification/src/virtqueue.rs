//! Virtqueues: the virtio transport structure shared between driver and
//! device.
//!
//! A virtqueue is a descriptor table, an available ring written by the
//! driver and a used ring written by the device, each of `queue_size`
//! entries. The ring indices are free-running 16-bit counters; an entry's
//! position is the counter value modulo the queue size. The driver hands
//! descriptors out of a free list and reclaims them as used buffers are
//! consumed, so the device never holds more than `queue_size` buffers and
//! the used index never runs more than `queue_size` ahead of what the
//! driver has seen.

use vstd::prelude::*;
use vstd::pervasive::VecAdditionalExecFns;

verus! {

/// Descriptor flag: the descriptor continues in `next`.
pub const VIRTQ_DESC_F_NEXT: u16 = 1;

/// Descriptor flag: the buffer is device-writable (an inbound buffer).
pub const VIRTQ_DESC_F_WRITE: u16 = 2;

/// Descriptor flag: the descriptor points to an indirect table.
pub const VIRTQ_DESC_F_INDIRECT: u16 = 4;

/// Available-ring flag: the driver does not want interrupts.
pub const VIRTQ_AVAIL_F_NO_INTERRUPT: u16 = 1;

/// Used-ring flag: the device does not want notifications.
pub const VIRTQ_USED_F_NO_NOTIFY: u16 = 1;

/// Virtqueue descriptor: a physical buffer address, its length, flags and
/// the chained descriptor index.
#[derive(Clone, Copy, Debug, PartialEq, Eq, Structural)]
pub struct VirtqDesc {
    pub addr: u64,
    pub len: u32,
    pub flags: u16,
    pub next: u16,
}

/// Virtqueue available ring: driver-written.
pub struct VirtqAvail {
    pub flags: u16,
    pub idx: u16,
    pub ring: Vec<u16>,
}

/// One used-ring entry: the head descriptor index of a consumed buffer and
/// the number of bytes the device wrote.
#[derive(Clone, Copy, Debug, PartialEq, Eq, Structural)]
pub struct VirtqUsedElem {
    pub id: u32,
    pub len: u32,
}

/// Virtqueue used ring: device-written.
pub struct VirtqUsed {
    pub flags: u16,
    pub idx: u16,
    pub ring: Vec<VirtqUsedElem>,
}

/// Free-running 16-bit counter difference `a - b` modulo 2^16.
pub open spec fn wrap16_sub(a: u16, b: u16) -> int {
    if a >= b {
        a - b
    } else {
        a - b + 0x10000
    }
}

/// A virtqueue.
pub struct Virtqueue {
    /// Queue index within the device.
    pub queue_idx: u16,
    /// Number of entries in each ring.
    pub queue_size: u16,
    /// Queue notification offset.
    pub notify_off: u16,
    /// Last used-ring index the driver has consumed up to.
    pub last_seen_used: u16,
    /// Descriptor table.
    pub desc: Vec<VirtqDesc>,
    /// Available ring (driver-written).
    pub avail: VirtqAvail,
    /// Used ring (device-written).
    pub used: VirtqUsed,
    /// Descriptor indices not currently handed to the device.
    pub free_desc: Vec<u16>,
}

impl Virtqueue {
    /// Descriptors not currently handed to the device.
    pub open spec fn free_desc_spec(&self) -> Seq<u16> {
        self.free_desc@
    }

    /// How many buffers the driver has posted and not yet consumed.
    pub open spec fn in_flight(&self) -> int {
        wrap16_sub(self.avail.idx, self.last_seen_used)
    }

    /// How many consumed buffers the driver has not yet seen.
    pub open spec fn unseen_used(&self) -> int {
        wrap16_sub(self.used.idx, self.last_seen_used)
    }

    /// The rings match the queue size, the counters never run more than
    /// `queue_size` apart, the device never returns more than the driver
    /// posted, and the free list holds valid, distinct descriptor indices.
    pub open spec fn wf(&self) -> bool {
        &&& 0 < self.queue_size <= 0x8000
        &&& 0x10000int % (self.queue_size as int) == 0
        &&& self.desc@.len() == self.queue_size
        &&& self.avail.ring@.len() == self.queue_size
        &&& self.used.ring@.len() == self.queue_size
        &&& self.in_flight() <= self.queue_size
        &&& self.unseen_used() <= self.in_flight()
        &&& self.free_desc_spec().len() + self.in_flight() <= self.queue_size
        &&& forall|k: int|
            0 <= k < self.free_desc_spec().len() ==> (#[trigger] self.free_desc_spec()[k])
                < self.queue_size
        &&& forall|k1: int, k2: int|
            0 <= k1 < k2 < self.free_desc_spec().len() ==> self.free_desc_spec()[k1]
                != self.free_desc_spec()[k2]
        &&& forall|k: int|
            0 <= k < self.used.ring@.len() ==> (#[trigger] self.used.ring@[k]).id
                < self.queue_size
    }

    /// Creates a virtqueue of `queue_size` entries with zeroed rings and all
    /// descriptors free, handed out lowest-index first.
    pub fn new(queue_idx: u16, queue_size: u16, notify_off: u16) -> (r: Virtqueue)
        requires
            0 < queue_size <= 0x8000,
            0x10000int % (queue_size as int) == 0,
        ensures
            r.wf(),
            r.queue_idx == queue_idx,
            r.queue_size == queue_size,
            r.notify_off == notify_off,
            r.last_seen_used == 0,
            r.avail.idx == 0,
            r.used.idx == 0,
            r.avail.flags == 0,
            r.used.flags == 0,
            forall|k: int|
                0 <= k < queue_size ==> (#[trigger] r.desc@[k]) == (VirtqDesc {
                    addr: 0,
                    len: 0,
                    flags: 0,
                    next: 0,
                }),
            forall|k: int| 0 <= k < queue_size ==> (#[trigger] r.avail.ring@[k]) == 0u16,
            forall|k: int|
                0 <= k < queue_size ==> (#[trigger] r.used.ring@[k]) == (VirtqUsedElem {
                    id: 0,
                    len: 0,
                }),
            r.free_desc_spec().len() == queue_size,
            forall|k: int|
                0 <= k < queue_size ==> (#[trigger] r.free_desc_spec()[k]) == queue_size - 1 - k,
    {
        let n = queue_size as usize;
        let mut desc: Vec<VirtqDesc> = Vec::new();
        let mut avail_ring: Vec<u16> = Vec::new();
        let mut used_ring: Vec<VirtqUsedElem> = Vec::new();
        let mut free_desc: Vec<u16> = Vec::new();
        let mut k: usize = 0;
        while k < n
            invariant
                k <= n,
                n == queue_size,
                desc@.len() == k,
                avail_ring@.len() == k,
                used_ring@.len() == k,
                free_desc@.len() == k,
                forall|i: int|
                    0 <= i < k ==> (#[trigger] desc@[i]) == (VirtqDesc {
                        addr: 0,
                        len: 0,
                        flags: 0,
                        next: 0,
                    }),
                forall|i: int| 0 <= i < k ==> (#[trigger] avail_ring@[i]) == 0u16,
                forall|i: int|
                    0 <= i < k ==> (#[trigger] used_ring@[i]) == (VirtqUsedElem { id: 0, len: 0 }),
                forall|i: int|
                    0 <= i < k ==> (#[trigger] free_desc@[i]) == queue_size - 1 - i,
            decreases n - k,
        {
            desc.push(VirtqDesc { addr: 0, len: 0, flags: 0, next: 0 });
            avail_ring.push(0);
            used_ring.push(VirtqUsedElem { id: 0, len: 0 });
            free_desc.push(queue_size - 1 - (k as u16));
            k += 1;
        }
        let r = Virtqueue {
            queue_idx,
            queue_size,
            notify_off,
            last_seen_used: 0,
            desc,
            avail: VirtqAvail { flags: 0, idx: 0, ring: avail_ring },
            used: VirtqUsed { flags: 0, idx: 0, ring: used_ring },
            free_desc,
        };
        proof {
            assert forall|k1: int, k2: int|
                0 <= k1 < k2 < r.free_desc_spec().len() implies r.free_desc_spec()[k1]
                != r.free_desc_spec()[k2] by {}
        }
        r
    }

    /// How many descriptors are free.
    pub fn num_free_desc(&self) -> (r: usize)
        ensures
            r == self.free_desc_spec().len(),
    {
        self.free_desc.len()
    }

    /// Writes a fresh descriptor for the buffer at physical address `addr`
    /// of `len` bytes with the given flags, and publishes it: the
    /// descriptor's index is written into the available ring at position
    /// `avail.idx` modulo the queue size, then `avail.idx` is bumped.
    /// Returns the descriptor index used, or `None` when no descriptor is
    /// free.
    pub fn add_buf(&mut self, addr: u64, len: u32, flags: u16) -> (r: Option<u16>)
        requires
            old(self).wf(),
        ensures
            final(self).wf(),
            final(self).queue_idx == old(self).queue_idx,
            final(self).queue_size == old(self).queue_size,
            final(self).notify_off == old(self).notify_off,
            final(self).last_seen_used == old(self).last_seen_used,
            final(self).used.idx == old(self).used.idx,
            final(self).used.ring@ == old(self).used.ring@,
            r is Some <==> old(self).free_desc_spec().len() > 0,
            r is None ==> final(self).desc@ == old(self).desc@ && final(self).avail.idx == old(
                self,
            ).avail.idx && final(self).avail.ring@ == old(self).avail.ring@,
            r matches Some(i) ==> {
                &&& i == old(self).free_desc_spec().last()
                &&& i < old(self).queue_size
                &&& final(self).free_desc_spec() == old(self).free_desc_spec().drop_last()
                &&& final(self).desc@ == old(self).desc@.update(
                    i as int,
                    VirtqDesc { addr, len, flags, next: 0 },
                )
                &&& final(self).avail.ring@ == old(self).avail.ring@.update(
                    old(self).avail.idx as int % old(self).queue_size as int,
                    i,
                )
                &&& final(self).avail.idx == wrap16_inc(old(self).avail.idx)
                &&& final(self).in_flight() == old(self).in_flight() + 1
            },
    {
        let i = match self.free_desc.pop() {
            None => {
                return None;
            },
            Some(i) => i,
        };
        self.desc.set(i as usize, VirtqDesc { addr, len, flags, next: 0 });
        let pos = (self.avail.idx % self.queue_size) as usize;
        self.avail.ring.set(pos, i);
        self.avail.idx = if self.avail.idx == 0xffff {
            0
        } else {
            self.avail.idx + 1
        };
        Some(i)
    }

    /// Adds a device-writable buffer that the device fills and we consume.
    pub fn add_inbuf(&mut self, addr: u64, len: u32) -> (r: Option<u16>)
        requires
            old(self).wf(),
        ensures
            final(self).wf(),
            final(self).queue_size == old(self).queue_size,
            final(self).queue_idx == old(self).queue_idx,
            final(self).notify_off == old(self).notify_off,
            final(self).last_seen_used == old(self).last_seen_used,
            final(self).used.idx == old(self).used.idx,
            final(self).used.ring@ == old(self).used.ring@,
            r is Some <==> old(self).free_desc_spec().len() > 0,
            r matches Some(i) ==> {
                &&& i == old(self).free_desc_spec().last()
                &&& final(self).desc@ == old(self).desc@.update(
                    i as int,
                    VirtqDesc { addr, len, flags: VIRTQ_DESC_F_WRITE, next: 0 },
                )
                &&& final(self).avail.ring@ == old(self).avail.ring@.update(
                    old(self).avail.idx as int % old(self).queue_size as int,
                    i,
                )
                &&& final(self).avail.idx == wrap16_inc(old(self).avail.idx)
            },
    {
        self.add_buf(addr, len, VIRTQ_DESC_F_WRITE)
    }

    /// Adds a device-readable buffer that we produced for the device.
    pub fn add_outbuf(&mut self, addr: u64, len: u32) -> (r: Option<u16>)
        requires
            old(self).wf(),
        ensures
            final(self).wf(),
            final(self).queue_size == old(self).queue_size,
            final(self).queue_idx == old(self).queue_idx,
            final(self).notify_off == old(self).notify_off,
            final(self).last_seen_used == old(self).last_seen_used,
            final(self).used.idx == old(self).used.idx,
            final(self).used.ring@ == old(self).used.ring@,
            r is Some <==> old(self).free_desc_spec().len() > 0,
            r matches Some(i) ==> {
                &&& i == old(self).free_desc_spec().last()
                &&& final(self).free_desc_spec() == old(self).free_desc_spec().drop_last()
                &&& final(self).desc@ == old(self).desc@.update(
                    i as int,
                    VirtqDesc { addr, len, flags: 0, next: 0 },
                )
                &&& final(self).avail.ring@ == old(self).avail.ring@.update(
                    old(self).avail.idx as int % old(self).queue_size as int,
                    i,
                )
                &&& final(self).avail.idx == wrap16_inc(old(self).avail.idx)
            },
    {
        self.add_buf(addr, len, 0)
    }

    /// The used-ring index the device has written up to.
    pub fn last_used_idx(&self) -> (r: u16)
        ensures
            r == self.used.idx,
    {
        self.used.idx
    }

    /// The used-ring index the driver has consumed up to.
    pub fn last_seen_used(&self) -> (r: u16)
        ensures
            r == self.last_seen_used,
    {
        self.last_seen_used
    }

    /// Marks one consumed used-ring entry as seen.
    pub fn advance_last_seen_used(&mut self)
        requires
            old(self).wf(),
            old(self).unseen_used() > 0,
        ensures
            final(self).wf(),
            *final(self) == (Virtqueue {
                last_seen_used: wrap16_inc(old(self).last_seen_used),
                ..*old(self)
            }),
            final(self).unseen_used() == old(self).unseen_used() - 1,
            final(self).in_flight() == old(self).in_flight() - 1,
    {
        self.last_seen_used = if self.last_seen_used == 0xffff {
            0
        } else {
            self.last_seen_used + 1
        };
    }

    /// The buffer behind the used-ring entry at ring position `ring_pos`:
    /// the physical address of its descriptor's buffer and the number of
    /// bytes the device wrote.
    pub fn get_used_buf(&self, ring_pos: u16) -> (r: (u64, u32))
        requires
            self.wf(),
            ring_pos < self.queue_size,
        ensures
            r.0 == self.desc@[self.used.ring@[ring_pos as int].id as int].addr,
            r.1 == self.used.ring@[ring_pos as int].len,
    {
        let used_elem = self.used.ring[ring_pos as usize];
        let addr = self.get_buf(used_elem.id as u16);
        (addr, used_elem.len)
    }

    /// The physical buffer address in descriptor `idx`.
    pub fn get_buf(&self, idx: u16) -> (r: u64)
        requires
            self.wf(),
            idx < self.queue_size,
        ensures
            r == self.desc@[idx as int].addr,
    {
        self.desc[idx as usize].addr
    }

    /// Returns descriptor `id` to the free list once its buffer has been
    /// consumed and seen. The descriptor is accepted exactly when it is in
    /// range, not already free, and a slot opened up (the driver advanced
    /// `last_seen_used` first).
    pub fn release_desc(&mut self, id: u16) -> (r: bool)
        requires
            old(self).wf(),
        ensures
            final(self).wf(),
            *final(self) == (Virtqueue { free_desc: final(self).free_desc, ..*old(self) }),
            r == (id < old(self).queue_size && !old(self).free_desc_spec().contains(id) && old(
                self,
            ).free_desc_spec().len() + old(self).in_flight() < old(self).queue_size),
            r ==> final(self).free_desc_spec() == old(self).free_desc_spec().push(id),
            !r ==> final(self).free_desc_spec() == old(self).free_desc_spec(),
    {
        if id >= self.queue_size {
            return false;
        }
        if self.free_desc.len() + (self.avail.idx as usize + 0x10000
            - self.last_seen_used as usize) % 0x10000 >= self.queue_size as usize {
            return false;
        }
        let mut k: usize = 0;
        let n = self.free_desc.len();
        while k < n
            invariant
                k <= n,
                n == self.free_desc_spec().len(),
                *self == *old(self),
                old(self).wf(),
                forall|j: int| 0 <= j < k ==> (#[trigger] self.free_desc_spec()[j]) != id,
            decreases n - k,
        {
            if self.free_desc[k] == id {
                proof {
                    assert(self.free_desc_spec().contains(id));
                }
                return false;
            }
            k += 1;
        }
        proof {
            if self.free_desc_spec().contains(id) {
                let j = choose|j: int|
                    0 <= j < self.free_desc_spec().len() && self.free_desc_spec()[j] == id;
                assert(self.free_desc_spec()[j] != id);
            }
        }
        self.free_desc.push(id);
        true
    }

    /// Device-side model: the device consumes the oldest outstanding buffer
    /// and returns it through the used ring, writing the entry at position
    /// `used.idx` modulo the queue size and then bumping `used.idx`.
    pub fn device_publish_used(&mut self, id: u16, len: u32)
        requires
            old(self).wf(),
            id < old(self).queue_size,
            wrap16_sub(old(self).avail.idx, old(self).used.idx) > 0,
        ensures
            final(self).wf(),
            final(self).queue_size == old(self).queue_size,
            final(self).queue_idx == old(self).queue_idx,
            final(self).notify_off == old(self).notify_off,
            final(self).last_seen_used == old(self).last_seen_used,
            final(self).avail.idx == old(self).avail.idx,
            final(self).avail.ring@ == old(self).avail.ring@,
            final(self).desc@ == old(self).desc@,
            final(self).free_desc_spec() == old(self).free_desc_spec(),
            final(self).used.idx == wrap16_inc(old(self).used.idx),
            final(self).used.ring@ == old(self).used.ring@.update(
                old(self).used.idx as int % old(self).queue_size as int,
                VirtqUsedElem { id: id as u32, len },
            ),
            final(self).unseen_used() == old(self).unseen_used() + 1,
    {
        let pos = (self.used.idx % self.queue_size) as usize;
        self.used.ring.set(pos, VirtqUsedElem { id: id as u32, len });
        self.used.idx = if self.used.idx == 0xffff {
            0
        } else {
            self.used.idx + 1
        };
    }
}

/// Free-running 16-bit counter increment.
pub open spec fn wrap16_inc(a: u16) -> u16 {
    if a == 0xffff {
        0u16
    } else {
        (a + 1) as u16
    }
}

} // verus!
