//! I/O queue subsystem.
//!
//! An I/O queue is a ring buffer through which a user-space process submits
//! I/O commands to the kernel, which performs them asynchronously.

use vstd::prelude::*;
use crate::atomic_ring_buffer::{AtomicRingBuffer, RING_HEADER_SIZE};

verus! {

/// Raw opcode of a transmit request.
pub const RAW_IO_OPCODE_SUBMIT: u32 = 0x01;

/// Raw opcode of a receive-buffer completion.
pub const RAW_IO_OPCODE_COMPLETE: u32 = 0x02;

/// What a user-space process asks the kernel to do with a buffer.
#[derive(Clone, Copy, Debug, PartialEq, Eq, Structural)]
pub enum Opcode {
    /// Transmit the outbound payload at `addr`.
    Submit,
    /// The inbound packet at `addr` was consumed; its buffer may be reposted.
    Complete,
}

/// A decoded I/O command.
#[derive(Clone, Copy, Debug, PartialEq, Eq, Structural)]
pub struct IOCmd {
    pub opcode: Opcode,
    pub addr: usize,
    pub len: usize,
}

/// The memory layout of an I/O command in an I/O queue, as promised to user
/// space: an opcode, an address and a length.
#[derive(Clone, Copy, Debug, PartialEq, Eq, Structural)]
pub struct RawIOCmd {
    pub opcode: u32,
    pub addr: usize,
    pub len: usize,
}

/// How a raw command decodes: unknown opcodes decode to nothing.
pub open spec fn parse_raw_cmd(raw: RawIOCmd) -> Option<IOCmd> {
    if raw.opcode == RAW_IO_OPCODE_SUBMIT {
        Some(IOCmd { opcode: Opcode::Submit, addr: raw.addr, len: raw.len })
    } else if raw.opcode == RAW_IO_OPCODE_COMPLETE {
        Some(IOCmd { opcode: Opcode::Complete, addr: raw.addr, len: raw.len })
    } else {
        None
    }
}

/// An I/O command submission queue.
pub struct IOQueue {
    pub ring_buffer: AtomicRingBuffer<RawIOCmd>,
}

impl IOQueue {
    pub open spec fn wf(&self) -> bool {
        self.ring_buffer.wf()
    }

    /// The pending raw commands, oldest first.
    pub open spec fn view_spec(&self) -> Seq<RawIOCmd> {
        self.ring_buffer@
    }

    /// Constructs an I/O queue over the shared memory region at `buf` of
    /// `size` bytes.
    pub fn new(buf: usize, size: usize) -> (r: IOQueue)
        requires
            size >= RING_HEADER_SIZE + 24,
            size < 0x1_0000_0000,
        ensures
            r.wf(),
            r.view_spec() =~= Seq::<RawIOCmd>::empty(),
            r.ring_buffer.base_addr_spec() == buf,
    {
        IOQueue { ring_buffer: AtomicRingBuffer::new(buf, size, 24) }
    }

    /// Removes and decodes the oldest I/O command; `None` when the queue is
    /// empty or the record's opcode is unknown (the record is consumed
    /// either way).
    pub fn pop(&mut self) -> (r: Option<IOCmd>)
        requires
            old(self).wf(),
        ensures
            final(self).wf(),
            final(self).ring_buffer.capacity_spec() == old(self).ring_buffer.capacity_spec(),
            old(self).view_spec().len() == 0 ==> r is None && final(self).view_spec()
                == old(self).view_spec(),
            old(self).view_spec().len() > 0 ==> {
                &&& r == parse_raw_cmd(old(self).view_spec()[0])
                &&& final(self).view_spec() == old(self).view_spec().subrange(
                    1,
                    old(self).view_spec().len() as int,
                )
            },
    {
        let front = self.ring_buffer.front();
        match front {
            Some(raw) => {
                let raw = *raw;
                self.ring_buffer.pop();
                if raw.opcode == RAW_IO_OPCODE_SUBMIT {
                    Some(IOCmd { opcode: Opcode::Submit, addr: raw.addr, len: raw.len })
                } else if raw.opcode == RAW_IO_OPCODE_COMPLETE {
                    Some(IOCmd { opcode: Opcode::Complete, addr: raw.addr, len: raw.len })
                } else {
                    None
                }
            },
            None => None,
        }
    }

    /// Inserts a raw command at the producer side. On real hardware the user
    /// process is the producer; the kernel-side model offers the same
    /// operation so the submission path can be driven and tested.
    pub fn push_raw(&mut self, raw: RawIOCmd) -> (r: bool)
        requires
            old(self).wf(),
        ensures
            final(self).wf(),
            final(self).ring_buffer.capacity_spec() == old(self).ring_buffer.capacity_spec(),
            r == (old(self).view_spec().len() < old(self).ring_buffer.capacity_spec()),
            r ==> final(self).view_spec() == old(self).view_spec().push(raw),
            !r ==> final(self).view_spec() == old(self).view_spec(),
    {
        self.ring_buffer.emplace(raw)
    }
}

} // verus!
