//! A model microkernel that brokers access to a paravirtualized network
//! device: physical page arenas, per-process virtual address spaces, virtio
//! queues over PCI, an event fabric, and a cooperative round-robin scheduler.
//!
//! Hardware state (PCI configuration space, device registers, physical pages,
//! the MMU map) is modelled as explicit values owned by the kernel structures,
//! so every decision the kernel makes over that state is stated and verified.

pub mod atomic_ring_buffer;
pub mod device;
pub mod elf;
pub mod errno;
pub mod event;
pub mod ioport;
pub mod ioqueue;
pub mod memory;
pub mod net;
pub mod pci;
pub mod print;
pub mod process;
pub mod sched;
pub mod virtqueue;
pub mod vm;

use vstd::prelude::*;

verus! {

/// Size of a small physical page (4 KiB).
pub const PAGE_SIZE_SMALL: u64 = 4096;

/// Size of a large physical page (2 MiB).
pub const PAGE_SIZE_LARGE: u64 = 2097152;

/// Whether `value` is a multiple of `align`.
pub fn is_aligned(value: u64, align: u64) -> (r: bool)
    requires
        align > 0,
    ensures
        r == (value as int % align as int == 0),
{
    value % align == 0
}

/// Round `value` down to the nearest multiple of `align`.
pub fn align_down(value: u64, align: u64) -> (r: u64)
    requires
        align > 0,
    ensures
        r == value as int - value as int % align as int,
{
    proof {
        assert(value as int % align as int <= value as int) by (nonlinear_arith)
            requires align > 0;
    }
    value - value % align
}

/// Round `value` up to the nearest multiple of `align`.
pub fn align_up(value: u64, align: u64) -> (r: u64)
    requires
        align > 0,
        value + align - 1 <= u64::MAX,
    ensures
        r as int % align as int == 0,
        r >= value,
        r <= value + align - 1,
        r == (if value as int % align as int == 0 {
            value as int
        } else {
            value + align - value as int % align as int
        }),
{
    let rem = value % align;
    if rem == 0 {
        value
    } else {
        let r = value + (align - rem);
        proof {
            let v = value as int;
            let a = align as int;
            vstd::arithmetic::div_mod::lemma_fundamental_div_mod(v, a);
            assert(r == a * (v / a) + a);
            assert(a * (v / a) + a == a * (v / a + 1)) by (nonlinear_arith);
            vstd::arithmetic::div_mod::lemma_mod_multiples_basic(v / a + 1, a);
        }
        r
    }
}

} // verus!
