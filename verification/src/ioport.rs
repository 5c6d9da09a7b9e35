//! I/O port abstraction.
//!
//! An I/O port is a tagged window: either a memory-mapped region at
//! `base_addr` or a programmed-I/O range at `iobase`, each with a size in
//! bytes. Ports are immutable after construction; `remap` derives a new port
//! over a subrange.

use vstd::prelude::*;

verus! {

/// I/O port that is either MMIO or PIO.
#[derive(Clone, Copy, Debug)]
pub enum IOPort {
    Memory { base_addr: usize, size: u32 },
    IO { iobase: u16, size: u32 },
}

impl IOPort {
    /// Size of the window in bytes.
    pub open spec fn size_spec(&self) -> int {
        match *self {
            IOPort::Memory { size, .. } => size as int,
            IOPort::IO { size, .. } => size as int,
        }
    }

    /// First address (or port number) of the window.
    pub open spec fn base_spec(&self) -> int {
        match *self {
            IOPort::Memory { base_addr, .. } => base_addr as int,
            IOPort::IO { iobase, .. } => iobase as int,
        }
    }

    /// The window lies within the addressable range of its kind.
    pub open spec fn wf(&self) -> bool {
        match *self {
            IOPort::Memory { base_addr, size } => base_addr + size <= usize::MAX,
            IOPort::IO { iobase, size } => iobase + size <= 0xffff,
        }
    }

    /// Constructs a memory-mapped port.
    pub fn new_memory(base_addr: usize, size: u32) -> (r: IOPort)
        requires
            base_addr + size <= usize::MAX,
        ensures
            r == (IOPort::Memory { base_addr, size }),
            r.wf(),
    {
        IOPort::Memory { base_addr, size }
    }

    /// Constructs a programmed-I/O port.
    pub fn new_io(iobase: u16, size: u32) -> (r: IOPort)
        requires
            iobase + size <= 0xffff,
        ensures
            r == (IOPort::IO { iobase, size }),
            r.wf(),
    {
        IOPort::IO { iobase, size }
    }

    /// Remaps this I/O port to a subrange: the result has its base shifted
    /// by `offset` and size `new_size`. Returns `None` exactly when
    /// `offset + new_size` exceeds this port's size.
    pub fn remap(&self, offset: usize, new_size: u32) -> (r: Option<IOPort>)
        requires
            self.wf(),
        ensures
            r is Some <==> offset + new_size <= self.size_spec(),
            r matches Some(p) ==> {
                &&& p.wf()
                &&& p.base_spec() == self.base_spec() + offset
                &&& p.size_spec() == new_size
                &&& (p is Memory <==> self is Memory)
            },
    {
        match *self {
            IOPort::Memory { base_addr, size } => {
                if offset <= size as usize && new_size <= size - offset as u32 {
                    Some(IOPort::Memory { base_addr: base_addr + offset, size: new_size })
                } else {
                    None
                }
            },
            IOPort::IO { iobase, size } => {
                if offset <= size as usize && new_size <= size - offset as u32 {
                    Some(IOPort::IO { iobase: iobase + offset as u16, size: new_size })
                } else {
                    None
                }
            },
        }
    }
}

} // verus!
