//! PCI subsystem: configuration-space access, BAR decoding, capability
//! walking, MSI-X, device probing and the driver registry.
//!
//! Configuration space itself is hardware; here it is an explicit value, a
//! set of per-function register files with base-address-register sizing
//! behaviour (writing all-ones to a BAR makes it read back as its size
//! mask until the original value is restored). Reads of an absent function
//! return all-ones, as the bus does.

use vstd::prelude::*;
use vstd::pervasive::VecAdditionalExecFns;
use crate::ioport::IOPort;

verus! {

/// The vendor identifier used by virtio devices.
pub const PCI_VENDOR_ID_REDHAT: u16 = 0x1af4;

/// Matches any device identifier.
pub const PCI_DEVICE_ID_ANY: u16 = 0xffff;

/// Configuration-space offset of the vendor identifier.
pub const PCI_CFG_VENDOR_ID: u8 = 0x00;
/// Configuration-space offset of the device identifier.
pub const PCI_CFG_DEVICE_ID: u8 = 0x02;
/// Configuration-space offset of the command register.
pub const PCI_CFG_COMMAND: u8 = 0x04;
/// Configuration-space offset of the status register.
pub const PCI_CFG_STATUS: u8 = 0x06;
/// Configuration-space offset of the revision identifier.
pub const PCI_CFG_REVISION_ID: u8 = 0x08;
/// Configuration-space offset of the programming interface byte.
pub const PCI_CFG_PROG_IF: u8 = 0x09;
/// Configuration-space offset of the subclass byte.
pub const PCI_CFG_SUBCLASS: u8 = 0x0a;
/// Configuration-space offset of the class-code byte.
pub const PCI_CFG_CLASS_CODE: u8 = 0x0b;
/// Configuration-space offset of the header-type byte.
pub const PCI_CFG_HEADER_TYPE: u8 = 0x0e;
/// Configuration-space offset of the first base address register.
pub const PCI_CFG_BARS: u8 = 0x10;
/// Configuration-space offset of a bridge's secondary bus number.
pub const PCI_CFG_SECONDARY_BUS: u8 = 0x19;
/// Configuration-space offset of the capabilities pointer.
pub const PCI_CFG_CAPABILITIES_PTR: u8 = 0x34;

pub const PCI_HEADER_TYPE_MASK: u8 = 0x03;
pub const PCI_HEADER_TYPE_DEVICE: u8 = 0x00;
pub const PCI_HEADER_TYPE_BRIDGE: u8 = 0x01;
pub const PCI_HEADER_TYPE_PCCARD: u8 = 0x02;

/// Command-register bit: the device may master the bus.
pub const PCI_CMD_BUS_MASTER: u16 = 4;
/// Command-register bit: legacy INTx interrupts are disabled.
pub const PCI_CMD_INTX_DISABLE: u16 = 1024;
/// Command-register bit: memory BARs respond.
pub const PCI_CMD_BAR_MEM_ENABLE: u16 = 2;
/// Command-register bit: I/O BARs respond.
pub const PCI_CMD_BAR_IO_ENABLE: u16 = 1;

/// Status-register bit: the function has a capability list.
pub const PCI_STATUS_CAPABILITIES_LIST: u8 = 16;

/// Capability identifier of a vendor-specific capability.
pub const PCI_CAPABILITY_VENDOR: u8 = 0x09;
/// Capability identifier of MSI-X.
pub const PCI_CAPABILITY_MSIX: u8 = 0x11;

/// Offset of the message-control word within the MSI-X capability.
pub const PCI_MSIX_MSG_CTRL: u8 = 0x02;
/// MSI-X message control: enable.
pub const PCI_MSIX_MSG_CTRL_MSIX_ENABLE: u16 = 0x8000;
/// MSI-X message control: mask every function vector.
pub const PCI_MSIX_MSG_CTRL_FUNCTION_MASK: u16 = 0x4000;
/// MSI-X message control: table-size field mask.
pub const PCI_MSIX_MSG_CTRL_TABLE_SIZE: u16 = 0x07ff;

/// Offset of the table-offset/BIR dword within the MSI-X capability.
pub const PCI_MSIX_TABLE_OFFSET: u8 = 0x04;

/// MSI-X table entry vector control: masked.
pub const PCI_MSIX_ENTRY_VECTOR_CTRL_MASK_BIT: u32 = 1;

/// PCI device identification.
#[derive(Debug, Clone, Copy, PartialEq, Eq, Structural)]
pub struct DeviceID {
    pub vendor_id: u16,
    pub device_id: u16,
    pub revision_id: u8,
    pub header_type: u8,
    pub class_code: u8,
    pub subclass: u8,
    pub prog_if: u8,
}

impl DeviceID {
    /// An identification that matches on vendor and device alone.
    pub fn new(vendor_id: u16, device_id: u16) -> (r: DeviceID)
        ensures
            r == (DeviceID {
                vendor_id,
                device_id,
                revision_id: 0,
                header_type: 0,
                class_code: 0,
                subclass: 0,
                prog_if: 0,
            }),
    {
        DeviceID {
            vendor_id,
            device_id,
            revision_id: 0,
            header_type: 0,
            class_code: 0,
            subclass: 0,
            prog_if: 0,
        }
    }
}

/// How a memory BAR is addressed.
#[derive(Debug, Clone, Copy, PartialEq, Eq, Structural)]
pub enum Locatable {
    Bits32,
    Bits64,
}

/// A decoded base address register.
#[derive(Debug, Clone, Copy, PartialEq, Eq, Structural)]
pub enum BAR {
    Memory { base_addr: u64, size: u32, prefetchable: bool, locatable: Locatable },
    IO { iobase: u16, size: u32 },
}

/// The model of one PCI function's configuration space: 256 register
/// bytes, and for each of the six BARs the size mask it reads back while
/// being sized and whether a sizing write is outstanding.
#[verifier::ext_equal]
pub struct PciFuncState {
    pub bus: u16,
    pub slot: u16,
    pub func: u16,
    pub config: Vec<u8>,
    pub bar_masks: Vec<u32>,
    pub sizing: Vec<bool>,
}

impl PciFuncState {
    pub open spec fn wf(&self) -> bool {
        &&& self.config@.len() == 256
        &&& self.bar_masks@.len() == 6
        &&& self.sizing@.len() == 6
        &&& forall|k: int| 0 <= k < 6 ==> (#[trigger] self.bar_masks@[k]) != 0
    }

    /// Whether this function answers to the triple `(bus, slot, func)`.
    pub open spec fn is_at(&self, bus: u16, slot: u16, func: u16) -> bool {
        self.bus == bus && self.slot == slot && self.func == func
    }
}

/// Little-endian 16-bit value at `off` of a register file.
pub open spec fn cfg16(f: PciFuncState, off: int) -> u16 {
    (f.config@[off] + 0x100 * f.config@[off + 1]) as u16
}

/// Little-endian 32-bit value at `off` of a register file, with BAR sizing:
/// an aligned read of a BAR with an outstanding sizing write returns the
/// BAR's size mask.
pub open spec fn cfg32(f: PciFuncState, off: int) -> u32 {
    if 0x10 <= off < 0x28 && (off - 0x10) % 4 == 0 && f.sizing@[(off - 0x10) / 4] {
        f.bar_masks@[(off - 0x10) / 4]
    } else {
        (f.config@[off] + 0x100 * f.config@[off + 1] + 0x10000 * f.config@[off + 2] + 0x1000000
            * f.config@[off + 3]) as u32
    }
}

/// The simulated PCI bus: every present function's configuration space.
#[verifier::ext_equal]
pub struct PciHost {
    pub funcs: Vec<PciFuncState>,
}

impl PciHost {
    /// Each function is well-formed and no two functions share an address.
    pub open spec fn wf(&self) -> bool {
        &&& forall|i: int| 0 <= i < self.funcs@.len() ==> (#[trigger] self.funcs@[i]).wf()
        &&& forall|i: int, j: int|
            0 <= i < j < self.funcs@.len() ==> !(#[trigger] self.funcs@[i]).is_at(
                (#[trigger] self.funcs@[j]).bus,
                self.funcs@[j].slot,
                self.funcs@[j].func,
            )
    }

    /// Whether a function answers at `(bus, slot, func)`.
    pub open spec fn has_func(&self, bus: u16, slot: u16, func: u16) -> bool {
        exists|i: int|
            0 <= i < self.funcs@.len() && (#[trigger] self.funcs@[i]).is_at(bus, slot, func)
    }

    /// The index of the function at `(bus, slot, func)`.
    pub open spec fn func_index(&self, bus: u16, slot: u16, func: u16) -> int {
        choose|i: int|
            0 <= i < self.funcs@.len() && (#[trigger] self.funcs@[i]).is_at(bus, slot, func)
    }

    /// The register file of the function at `(bus, slot, func)`.
    pub open spec fn func_at(&self, bus: u16, slot: u16, func: u16) -> PciFuncState {
        self.funcs@[self.func_index(bus, slot, func)]
    }

    pub fn new() -> (r: PciHost)
        ensures
            r.wf(),
            r.funcs@ =~= Seq::<PciFuncState>::empty(),
    {
        PciHost { funcs: Vec::new() }
    }

    /// Adds a function to the bus; refused when its address is taken or its
    /// register file is malformed.
    pub fn add_func(&mut self, f: PciFuncState) -> (r: bool)
        requires
            old(self).wf(),
        ensures
            final(self).wf(),
            r == (f.wf() && !old(self).has_func(f.bus, f.slot, f.func)),
            r ==> final(self).funcs@ == old(self).funcs@.push(f),
            !r ==> final(self).funcs@ == old(self).funcs@,
    {
        if !(f.config.len() == 256 && f.bar_masks.len() == 6 && f.sizing.len() == 6) {
            return false;
        }
        let mut ok = true;
        let mut k: usize = 0;
        let n = self.funcs.len();
        let mut masks_ok = true;
        while k < 6
            invariant
                k <= 6,
                f.bar_masks@.len() == 6,
                masks_ok == (forall|j: int| 0 <= j < k ==> (#[trigger] f.bar_masks@[j]) != 0),
            decreases 6 - k,
        {
            if f.bar_masks[k] == 0 {
                masks_ok = false;
            }
            k = k + 1;
        }
        if !masks_ok {
            return false;
        }
        let mut i: usize = 0;
        while i < n
            invariant
                i <= n,
                n == self.funcs@.len(),
                self.wf(),
                *self == *old(self),
                forall|j: int|
                    0 <= j < i ==> !(#[trigger] self.funcs@[j]).is_at(f.bus, f.slot, f.func),
            decreases n - i,
        {
            let g = &self.funcs[i];
            if g.bus == f.bus && g.slot == f.slot && g.func == f.func {
                proof {
                    assert(self.has_func(f.bus, f.slot, f.func));
                }
                return false;
            }
            i += 1;
        }
        self.funcs.push(f);
        proof {
            let fs = self.funcs@;
            assert forall|i2: int, j2: int|
                0 <= i2 < j2 < fs.len() implies !(#[trigger] fs[i2]).is_at(
                (#[trigger] fs[j2]).bus,
                fs[j2].slot,
                fs[j2].func,
            ) by {
                if j2 == fs.len() - 1 {
                    assert(fs[i2] == old(self).funcs@[i2]);
                } else {
                    assert(fs[i2] == old(self).funcs@[i2] && fs[j2] == old(self).funcs@[j2]);
                }
            }
        }
        true
    }
}

/// Two register files with the same address and the same register values
/// (they may differ only in unobservable representation).
pub open spec fn func_like(a: PciFuncState, b: PciFuncState) -> bool {
    &&& a.bus == b.bus && a.slot == b.slot && a.func == b.func
    &&& a.config@ == b.config@
    &&& a.bar_masks@ == b.bar_masks@
    &&& a.sizing@ == b.sizing@
}

/// Two hosts whose functions agree register for register.
pub open spec fn host_like(h1: PciHost, h2: PciHost) -> bool {
    &&& h1.funcs@.len() == h2.funcs@.len()
    &&& forall|i: int|
        0 <= i < h1.funcs@.len() ==> func_like(#[trigger] h1.funcs@[i], h2.funcs@[i])
}

/// Register-for-register equal hosts answer lookups the same way.
pub proof fn lemma_host_like(h1: PciHost, h2: PciHost, b: u16, s: u16, f: u16)
    requires
        host_like(h1, h2),
        h2.wf(),
    ensures
        h1.wf(),
        h1.has_func(b, s, f) == h2.has_func(b, s, f),
        h1.has_func(b, s, f) ==> h1.func_index(b, s, f) == h2.func_index(b, s, f) && func_like(
            h1.func_at(b, s, f),
            h2.func_at(b, s, f),
        ),
{
    assert forall|i: int| 0 <= i < h1.funcs@.len() implies (#[trigger] h1.funcs@[i]).wf() by {
        assert(func_like(h1.funcs@[i], h2.funcs@[i]));
        assert(h2.funcs@[i].wf());
    }
    assert forall|i: int, j: int|
        0 <= i < j < h1.funcs@.len() implies !(#[trigger] h1.funcs@[i]).is_at(
        (#[trigger] h1.funcs@[j]).bus,
        h1.funcs@[j].slot,
        h1.funcs@[j].func,
    ) by {
        assert(func_like(h1.funcs@[i], h2.funcs@[i]));
        assert(func_like(h1.funcs@[j], h2.funcs@[j]));
        assert(!h2.funcs@[i].is_at(h2.funcs@[j].bus, h2.funcs@[j].slot, h2.funcs@[j].func));
    }
    if h1.has_func(b, s, f) {
        let i = h1.func_index(b, s, f);
        assert(h1.funcs@[i].is_at(b, s, f));
        assert(func_like(h1.funcs@[i], h2.funcs@[i]));
        lemma_func_index_unique(h2, b, s, f, i);
    }
    if h2.has_func(b, s, f) {
        let i = h2.func_index(b, s, f);
        assert(h2.funcs@[i].is_at(b, s, f));
        assert(func_like(h1.funcs@[i], h2.funcs@[i]));
        assert(h1.funcs@[i].is_at(b, s, f));
        assert(h1.has_func(b, s, f));
    }
}

/// One PCI function address on the bus.
#[derive(Debug, Clone, Copy, PartialEq, Eq, Structural)]
pub struct PCIFunction {
    pub bus_id: u16,
    pub slot_id: u16,
    pub func_id: u16,
}

impl PCIFunction {
    pub fn new(bus_id: u16, slot_id: u16, func_id: u16) -> (r: PCIFunction)
        ensures
            r == (PCIFunction { bus_id, slot_id, func_id }),
    {
        PCIFunction { bus_id, slot_id, func_id }
    }

    /// The register file this function address resolves to.
    pub open spec fn state_of(&self, host: PciHost) -> PciFuncState {
        host.func_at(self.bus_id, self.slot_id, self.func_id)
    }

    /// Whether a function answers at this address.
    pub open spec fn present(&self, host: PciHost) -> bool {
        host.has_func(self.bus_id, self.slot_id, self.func_id)
    }

    /// Index of this function in the host model, if present.
    pub fn find(&self, host: &PciHost) -> (r: Option<usize>)
        requires
            host.wf(),
        ensures
            r is Some <==> self.present(*host),
            r matches Some(i) ==> i < host.funcs@.len() && host.funcs@[i as int] == self.state_of(
                *host,
            ) && i == host.func_index(self.bus_id, self.slot_id, self.func_id),
    {
        let n = host.funcs.len();
        let mut i: usize = 0;
        while i < n
            invariant
                n == host.funcs@.len(),
                i <= n,
                host.wf(),
                forall|j: int|
                    0 <= j < i ==> !(#[trigger] host.funcs@[j]).is_at(
                        self.bus_id,
                        self.slot_id,
                        self.func_id,
                    ),
            decreases n - i,
        {
            let g = &host.funcs[i];
            if g.bus == self.bus_id && g.slot == self.slot_id && g.func == self.func_id {
                proof {
                    assert(self.present(*host));
                    let j = host.func_index(self.bus_id, self.slot_id, self.func_id);
                    if j != i as int {
                        if j < i as int {
                            assert(!host.funcs@[j].is_at(self.bus_id, self.slot_id, self.func_id));
                        } else {
                            assert(!(host.funcs@[i as int]).is_at(
                                host.funcs@[j].bus,
                                host.funcs@[j].slot,
                                host.funcs@[j].func,
                            ));
                        }
                    }
                }
                return Some(i);
            }
            i += 1;
        }
        None
    }

    /// Reads one configuration byte; all-ones when no function answers.
    pub fn read_config_u8(&self, host: &PciHost, offset: u8) -> (r: u8)
        requires
            host.wf(),
        ensures
            !self.present(*host) ==> r == 0xff,
            self.present(*host) ==> r == self.state_of(*host).config@[offset as int],
    {
        match self.find(host) {
            None => 0xff,
            Some(i) => host.funcs[i].config[offset as usize],
        }
    }

    /// Reads one little-endian 16-bit configuration word; all-ones when no
    /// function answers.
    pub fn read_config_u16(&self, host: &PciHost, offset: u8) -> (r: u16)
        requires
            host.wf(),
            offset < 255,
        ensures
            !self.present(*host) ==> r == 0xffff,
            self.present(*host) ==> r == cfg16(self.state_of(*host), offset as int),
    {
        match self.find(host) {
            None => 0xffff,
            Some(i) => {
                let f = &host.funcs[i];
                (f.config[offset as usize] as u16) + 0x100 * (f.config[offset as usize + 1] as u16)
            },
        }
    }

    /// Reads one little-endian 32-bit configuration word, subject to BAR
    /// sizing; all-ones when no function answers.
    pub fn read_config_u32(&self, host: &PciHost, offset: u8) -> (r: u32)
        requires
            host.wf(),
            offset < 253,
        ensures
            !self.present(*host) ==> r == 0xffff_ffff,
            self.present(*host) ==> r == cfg32(self.state_of(*host), offset as int),
    {
        match self.find(host) {
            None => 0xffff_ffff,
            Some(i) => {
                let f = &host.funcs[i];
                if 0x10 <= offset && offset < 0x28 && (offset - 0x10) % 4 == 0 {
                    let bar = ((offset - 0x10) / 4) as usize;
                    if f.sizing[bar] {
                        return f.bar_masks[bar];
                    }
                }
                (f.config[offset as usize] as u32) + 0x100 * (f.config[offset as usize + 1] as u32)
                    + 0x10000 * (f.config[offset as usize + 2] as u32) + 0x1000000 * (f.config[
                    offset as usize + 3] as u32)
            },
        }
    }

    /// Writes one configuration byte; ignored when no function answers.
    pub fn write_config_u8(&self, host: &mut PciHost, offset: u8, value: u8)
        requires
            old(host).wf(),
        ensures
            final(host).wf(),
            !self.present(*old(host)) ==> *final(host) == *old(host),
            self.present(*old(host)) ==> {
                let i = old(host).func_index(self.bus_id, self.slot_id, self.func_id);
                let f = old(host).funcs@[i];
                final(host).funcs@ == old(host).funcs@.update(
                    i,
                    PciFuncState { config: final(host).funcs@[i].config, ..f },
                ) && final(host).funcs@[i].config@ == f.config@.update(offset as int, value)
            },
    {
        let i = match self.find(host) {
            None => {
                return ;
            },
            Some(i) => i,
        };
        let mut f = host.funcs.remove(i);
        f.config.set(offset as usize, value);
        host.funcs.insert(i, f);
        proof {
            assert(final(host).funcs@ =~= old(host).funcs@.update(
                i as int,
                final(host).funcs@[i as int],
            ));
            lemma_host_wf_update(*old(host), *host, i as int);
        }
    }

    /// Writes one little-endian 16-bit configuration word; ignored when no
    /// function answers.
    pub fn write_config_u16(&self, host: &mut PciHost, offset: u8, value: u16)
        requires
            old(host).wf(),
            offset < 255,
        ensures
            final(host).wf(),
            !self.present(*old(host)) ==> *final(host) == *old(host),
            self.present(*old(host)) ==> {
                let i = old(host).func_index(self.bus_id, self.slot_id, self.func_id);
                let f = old(host).funcs@[i];
                final(host).funcs@ == old(host).funcs@.update(
                    i,
                    PciFuncState { config: final(host).funcs@[i].config, ..f },
                ) && final(host).funcs@[i].config@ == f.config@.update(
                    offset as int,
                    (value % 0x100) as u8,
                ).update(offset as int + 1, (value / 0x100) as u8)
            },
    {
        let i = match self.find(host) {
            None => {
                return ;
            },
            Some(i) => i,
        };
        let mut f = host.funcs.remove(i);
        f.config.set(offset as usize, (value % 0x100) as u8);
        f.config.set(offset as usize + 1, (value / 0x100) as u8);
        host.funcs.insert(i, f);
        proof {
            assert(final(host).funcs@ =~= old(host).funcs@.update(
                i as int,
                final(host).funcs@[i as int],
            ));
            lemma_host_wf_update(*old(host), *host, i as int);
        }
    }

    /// Writes one little-endian 32-bit configuration word. A write of
    /// all-ones to an aligned BAR begins sizing it (the value is not
    /// stored); any other BAR write ends sizing and stores the value.
    /// Ignored when no function answers.
    pub fn write_config_u32(&self, host: &mut PciHost, offset: u8, value: u32)
        requires
            old(host).wf(),
            offset < 253,
        ensures
            final(host).wf(),
            !self.present(*old(host)) ==> *final(host) == *old(host),
            self.present(*old(host)) ==> {
                let i = old(host).func_index(self.bus_id, self.slot_id, self.func_id);
                let f = old(host).funcs@[i];
                let nf = final(host).funcs@[i];
                &&& final(host).funcs@ == old(host).funcs@.update(i, nf)
                &&& nf.bus == f.bus && nf.slot == f.slot && nf.func == f.func
                &&& nf.bar_masks@ == f.bar_masks@
                &&& (if 0x10 <= offset < 0x28 && (offset - 0x10) as int % 4 == 0 {
                    let bar = ((offset - 0x10) as int) / 4;
                    if value == 0xffff_ffff {
                        nf.sizing@ == f.sizing@.update(bar, true) && nf.config@ == f.config@
                    } else {
                        nf.sizing@ == f.sizing@.update(bar, false) && nf.config@
                            == write32_bytes(f.config@, offset as int, value)
                    }
                } else {
                    nf.sizing@ == f.sizing@ && nf.config@ == write32_bytes(
                        f.config@,
                        offset as int,
                        value,
                    )
                })
            },
    {
        let i = match self.find(host) {
            None => {
                return ;
            },
            Some(i) => i,
        };
        let mut f = host.funcs.remove(i);
        if 0x10 <= offset && offset < 0x28 && (offset - 0x10) % 4 == 0 {
            let bar = ((offset - 0x10) / 4) as usize;
            if value == 0xffff_ffff {
                f.sizing.set(bar, true);
            } else {
                f.sizing.set(bar, false);
                f.config.set(offset as usize, (value % 0x100) as u8);
                f.config.set(offset as usize + 1, ((value / 0x100) % 0x100) as u8);
                f.config.set(offset as usize + 2, ((value / 0x10000) % 0x100) as u8);
                f.config.set(offset as usize + 3, (value / 0x1000000) as u8);
                proof {
                    assert(f.config@ =~= write32_bytes(
                        old(host).funcs@[i as int].config@,
                        offset as int,
                        value,
                    ));
                }
            }
        } else {
            f.config.set(offset as usize, (value % 0x100) as u8);
            f.config.set(offset as usize + 1, ((value / 0x100) % 0x100) as u8);
            f.config.set(offset as usize + 2, ((value / 0x10000) % 0x100) as u8);
            f.config.set(offset as usize + 3, (value / 0x1000000) as u8);
            proof {
                assert(f.config@ =~= write32_bytes(
                    old(host).funcs@[i as int].config@,
                    offset as int,
                    value,
                ));
            }
        }
        host.funcs.insert(i, f);
        proof {
            assert(final(host).funcs@ =~= old(host).funcs@.update(
                i as int,
                final(host).funcs@[i as int],
            ));
            lemma_host_wf_update(*old(host), *host, i as int);
        }
    }
}

impl PCIFunction {
    /// Walks the capability chain from the capabilities pointer and returns
    /// the configuration offset of the first capability with identifier
    /// `cap_id`; `None` when the function has no capability list or the
    /// chain ends. The walk gives up after `CAP_WALK_FUEL` links, as a
    /// malformed chain could loop.
    pub fn find_capability(&self, host: &PciHost, cap_id: u8) -> (r: Option<u8>)
        requires
            host.wf(),
        ensures
            !self.present(*host) ==> r is None,
            self.present(*host) ==> {
                let f = self.state_of(*host);
                if (f.config@[PCI_CFG_STATUS as int] / 16) % 2 == 0 {
                    r is None
                } else {
                    r == cap_walk(
                        f,
                        cap_id,
                        f.config@[PCI_CFG_CAPABILITIES_PTR as int] as int,
                        CAP_WALK_FUEL as nat,
                    )
                }
            },
    {
        let status = self.read_config_u8(host, PCI_CFG_STATUS);
        if (status / 16) % 2 == 0 {
            return None;
        }
        let start = self.read_config_u8(host, PCI_CFG_CAPABILITIES_PTR);
        self.walk_capabilities(host, cap_id, start)
    }

    /// Like `find_capability`, but starts after the capability at `pos`.
    pub fn find_next_capability(&self, host: &PciHost, cap_id: u8, pos: u8) -> (r: Option<u8>)
        requires
            host.wf(),
            pos < 255,
        ensures
            !self.present(*host) ==> r is None,
            self.present(*host) ==> r == cap_walk(
                self.state_of(*host),
                cap_id,
                self.state_of(*host).config@[pos as int + 1] as int,
                CAP_WALK_FUEL as nat,
            ),
    {
        let start = self.read_config_u8(host, pos + 1);
        self.walk_capabilities(host, cap_id, start)
    }

    fn walk_capabilities(&self, host: &PciHost, cap_id: u8, start: u8) -> (r: Option<u8>)
        requires
            host.wf(),
        ensures
            !self.present(*host) ==> r is None,
            self.present(*host) ==> r == cap_walk(
                self.state_of(*host),
                cap_id,
                start as int,
                CAP_WALK_FUEL as nat,
            ),
    {
        if self.find(host).is_none() {
            return None;
        }
        let mut off = start;
        let mut fuel: u16 = CAP_WALK_FUEL;
        while fuel > 0
            invariant
                host.wf(),
                self.present(*host),
                fuel <= CAP_WALK_FUEL,
                cap_walk(self.state_of(*host), cap_id, start as int, CAP_WALK_FUEL as nat)
                    == cap_walk(self.state_of(*host), cap_id, off as int, fuel as nat),
            decreases fuel,
        {
            if off == 0 || off >= 255 {
                return None;
            }
            let id = self.read_config_u8(host, off);
            if id == cap_id {
                return Some(off);
            }
            let next = self.read_config_u8(host, off + 1);
            off = next;
            fuel = fuel - 1;
        }
        None
    }
}

/// How many capability-chain links are followed before giving up.
pub const CAP_WALK_FUEL: u16 = 64;

/// The first capability with identifier `cap_id` on the chain starting at
/// configuration offset `off`, following at most `fuel` links.
pub open spec fn cap_walk(f: PciFuncState, cap_id: u8, off: int, fuel: nat) -> Option<u8>
    decreases fuel,
{
    if fuel == 0 || off == 0 || off >= 255 {
        None
    } else if f.config@[off] == cap_id {
        Some(off as u8)
    } else {
        cap_walk(f, cap_id, f.config@[off + 1] as int, (fuel - 1) as nat)
    }
}

/// Capability walking depends only on the register bytes.
pub proof fn lemma_cap_walk_like(a: PciFuncState, b: PciFuncState, cap_id: u8, off: int, fuel: nat)
    requires
        a.config@ == b.config@,
    ensures
        cap_walk(a, cap_id, off, fuel) == cap_walk(b, cap_id, off, fuel),
    decreases fuel,
{
    if !(fuel == 0 || off == 0 || off >= 255) {
        if a.config@[off] != cap_id {
            lemma_cap_walk_like(a, b, cap_id, a.config@[off + 1] as int, (fuel - 1) as nat);
        }
    }
}

/// The register bytes after a little-endian 32-bit store at `off`.
pub open spec fn write32_bytes(bytes: Seq<u8>, off: int, value: u32) -> Seq<u8> {
    bytes.update(off, (value % 0x100) as u8).update(off + 1, ((value / 0x100) % 0x100) as u8).update(
        off + 2,
        ((value / 0x10000) % 0x100) as u8,
    ).update(off + 3, (value / 0x1000000) as u8)
}

/// The size a BAR with size mask `mask` decodes to: the two's complement of
/// the mask.
pub open spec fn bar_size_of(mask: u32) -> u32
    recommends
        mask != 0,
{
    (0xffff_ffff - mask + 1) as u32
}

/// What decoding the BAR at index `bar_idx` of register file `f` yields,
/// and the BAR index to continue at (64-bit BARs take two slots). A raw
/// value of zero or all-ones decodes to nothing.
pub open spec fn bar_decode_spec(f: PciFuncState, bar_idx: int) -> (Option<BAR>, int) {
    let raw = cfg32(f, 0x10 + 4 * bar_idx);
    let size = bar_size_of(f.bar_masks@[bar_idx]);
    if raw == 0 || raw == 0xffff_ffff {
        (None, bar_idx + 1)
    } else if raw % 2 == 0 {
        if (raw / 2) % 4 == 0 {
            (
                Some(
                    BAR::Memory {
                        base_addr: (raw - raw % 16) as u64,
                        size,
                        prefetchable: (raw / 8) % 2 == 1,
                        locatable: Locatable::Bits32,
                    },
                ),
                bar_idx + 1,
            )
        } else if (raw / 2) % 4 == 2 {
            (
                Some(
                    BAR::Memory {
                        base_addr: ((raw - raw % 16) + 0x1_0000_0000 * cfg32(
                            f,
                            0x10 + 4 * (bar_idx + 1),
                        )) as u64,
                        size,
                        prefetchable: (raw / 8) % 2 == 1,
                        locatable: Locatable::Bits64,
                    },
                ),
                bar_idx + 2,
            )
        } else {
            (None, bar_idx + 1)
        }
    } else {
        (Some(BAR::IO { iobase: ((raw - raw % 4) % 0x10000) as u16, size }), bar_idx + 1)
    }
}

/// A 32-bit little-endian value decomposes back into its four bytes.
proof fn lemma_le32_decompose(raw: u32, b0: u8, b1: u8, b2: u8, b3: u8)
    requires
        raw == b0 + 0x100 * b1 + 0x10000 * b2 + 0x1000000 * b3,
    ensures
        raw as int % 0x100 == b0,
        (raw as int / 0x100) % 0x100 == b1,
        (raw as int / 0x10000) % 0x100 == b2,
        raw as int / 0x1000000 == b3,
{
    assert(raw as int % 0x100 == b0 && (raw as int / 0x100) % 0x100 == b1 && (raw as int
        / 0x10000) % 0x100 == b2 && raw as int / 0x1000000 == b3) by (nonlinear_arith)
        requires
            raw == b0 + 0x100 * b1 + 0x10000 * b2 + 0x1000000 * b3,
            0 <= b0 < 0x100,
            0 <= b1 < 0x100,
            0 <= b2 < 0x100,
            0 <= b3 < 0x100,
    ;
}

impl BAR {
    /// Decodes the BAR at index `bar_idx` of the function's configuration
    /// space by the write-all-ones/read-back/restore sequence, leaving the
    /// configuration space as it was found. Returns the decoded BAR (or
    /// `None` for an empty or reserved-type slot) and the index to continue
    /// decoding at.
    #[verifier::rlimit(100)]
    #[verifier::spinoff_prover]
    pub fn decode(func: &PCIFunction, host: &mut PciHost, bar_idx: usize) -> (r: (
        Option<BAR>,
        usize,
    ))
        requires
            old(host).wf(),
            func.present(*old(host)),
            bar_idx < 6,
            forall|k: int| 0 <= k < 6 ==> !(#[trigger] func.state_of(*old(host)).sizing@[k]),
        ensures
            final(host).wf(),
            host_like(*final(host), *old(host)),
            ({
                let (bar, next) = bar_decode_spec(func.state_of(*old(host)), bar_idx as int);
                r.0 == bar && r.1 == next
            }),
    {
        let offset = PCI_CFG_BARS + ((bar_idx as u8) * 4);
        let raw_bar = func.read_config_u32(host, offset);
        if raw_bar == 0 || raw_bar == 0xffff_ffff {
            return (None, bar_idx + 1);
        }
        let ghost f0 = func.state_of(*old(host));
        let ghost i0 = old(host).func_index(func.bus_id, func.slot_id, func.func_id);
        if raw_bar % 2 == 0 {
            let bar_type = (raw_bar / 2) % 4;
            if bar_type != 0 && bar_type != 2 {
                return (None, bar_idx + 1);
            }
            // Size the BAR: write all-ones, read the mask back, restore.
            proof {
                lemma_func_index_unique(
                    *old(host),
                    func.bus_id,
                    func.slot_id,
                    func.func_id,
                    i0,
                );
            }
            func.write_config_u32(host, offset, 0xffff_ffff);
            let ghost h1 = *host;
            proof {
                lemma_func_index_unique(h1, func.bus_id, func.slot_id, func.func_id, i0);
            }
            let mask = func.read_config_u32(host, offset);
            let size = (0xffff_ffff - mask) + 1;
            func.write_config_u32(host, offset, raw_bar);
            proof {
                let c = f0.config@;
                lemma_le32_decompose(
                    raw_bar,
                    c[offset as int],
                    c[offset as int + 1],
                    c[offset as int + 2],
                    c[offset as int + 3],
                );
                let nf = host.funcs@[i0];
                assert(nf.config@ =~= f0.config@);
                assert(nf.sizing@ =~= f0.sizing@);
                assert(func_like(nf, f0));
                assert forall|k: int|
                    0 <= k < host.funcs@.len() implies func_like(
                    #[trigger] host.funcs@[k],
                    old(host).funcs@[k],
                ) by {
                    if k != i0 {
                        assert(host.funcs@[k] == old(host).funcs@[k]);
                    }
                }
            }
            let prefetchable = (raw_bar / 8) % 2 == 1;
            if bar_type == 0 {
                let base_addr = (raw_bar - raw_bar % 16) as u64;
                (
                    Some(
                        BAR::Memory {
                            base_addr,
                            size,
                            prefetchable,
                            locatable: Locatable::Bits32,
                        },
                    ),
                    bar_idx + 1,
                )
            } else {
                let next_offset = PCI_CFG_BARS + (((bar_idx + 1) as u8) * 4);
                let next_bar = func.read_config_u32(host, next_offset);
                let base_addr = ((raw_bar - raw_bar % 16) as u64) + 0x1_0000_0000u64 * (
                next_bar as u64);
                (
                    Some(
                        BAR::Memory {
                            base_addr,
                            size,
                            prefetchable,
                            locatable: Locatable::Bits64,
                        },
                    ),
                    bar_idx + 2,
                )
            }
        } else {
            proof {
                lemma_func_index_unique(
                    *old(host),
                    func.bus_id,
                    func.slot_id,
                    func.func_id,
                    i0,
                );
            }
            func.write_config_u32(host, offset, 0xffff_ffff);
            let ghost h1 = *host;
            proof {
                lemma_func_index_unique(h1, func.bus_id, func.slot_id, func.func_id, i0);
            }
            let mask = func.read_config_u32(host, offset);
            let size = (0xffff_ffff - mask) + 1;
            func.write_config_u32(host, offset, raw_bar);
            proof {
                let c = f0.config@;
                lemma_le32_decompose(
                    raw_bar,
                    c[offset as int],
                    c[offset as int + 1],
                    c[offset as int + 2],
                    c[offset as int + 3],
                );
                let nf = host.funcs@[i0];
                assert(nf.config@ =~= f0.config@);
                assert(nf.sizing@ =~= f0.sizing@);
                assert(func_like(nf, f0));
                assert forall|k: int|
                    0 <= k < host.funcs@.len() implies func_like(
                    #[trigger] host.funcs@[k],
                    old(host).funcs@[k],
                ) by {
                    if k != i0 {
                        assert(host.funcs@[k] == old(host).funcs@[k]);
                    }
                }
            }
            let iobase = ((raw_bar - raw_bar % 4) % 0x10000) as u16;
            (Some(BAR::IO { iobase, size }), bar_idx + 1)
        }
    }

    /// Makes the decoded BAR's window available as an I/O port. On hardware
    /// a memory BAR is mapped into the kernel's address space first; the
    /// model keeps the physical address. Fails when the window does not fit
    /// the port's addressable range.
    pub fn remap(&self) -> (r: Option<IOPort>)
        ensures
            match *self {
                BAR::Memory { base_addr, size, .. } => {
                    &&& (r is Some <==> base_addr + size <= usize::MAX)
                    &&& r matches Some(p) ==> p == (IOPort::Memory {
                        base_addr: base_addr as usize,
                        size,
                    }) && p.wf()
                },
                BAR::IO { iobase, size } => {
                    &&& (r is Some <==> iobase + size <= 0xffff)
                    &&& r matches Some(p) ==> p == (IOPort::IO { iobase, size }) && p.wf()
                },
            },
    {
        match *self {
            BAR::Memory { base_addr, size, .. } => {
                if base_addr <= (usize::MAX as u64) && (base_addr as usize)
                    <= usize::MAX - (size as usize) {
                    Some(IOPort::new_memory(base_addr as usize, size))
                } else {
                    None
                }
            },
            BAR::IO { iobase, size } => {
                if size <= 0xffff && iobase <= 0xffff - (size as u16) {
                    Some(IOPort::new_io(iobase, size))
                } else {
                    None
                }
            },
        }
    }
}

/// A 16-bit value with the power-of-two `bit` forced on or off.
pub open spec fn with_bit16(c: u16, bit: u16, on: bool) -> u16 {
    if on {
        if (c / bit) % 2 == 0 {
            (c + bit) as u16
        } else {
            c
        }
    } else {
        if (c / bit) % 2 == 1 {
            (c - bit) as u16
        } else {
            c
        }
    }
}

/// Where `find_capability` lands: nothing without a capability list (status
/// bit 4), else the first matching link of the chain.
pub open spec fn find_cap_spec(f: PciFuncState, cap_id: u8) -> Option<u8> {
    if (f.config@[PCI_CFG_STATUS as int] / 16) % 2 == 0 {
        None
    } else {
        cap_walk(f, cap_id, f.config@[PCI_CFG_CAPABILITIES_PTR as int] as int, CAP_WALK_FUEL as nat)
    }
}

/// The base address of message-signalled interrupts on this architecture.
pub const MSI_ADDR_BASE: u64 = 0xfee0_0000;

/// A composed message-signalled interrupt: the address to write and the
/// data to write there.
#[derive(Debug, Clone, Copy, PartialEq, Eq, Structural)]
pub struct MSIMessage {
    pub msg_addr: u64,
    pub msg_data: u32,
}

impl MSIMessage {
    /// Composes the interrupt message that raises `vector` on the boot
    /// processor, as the interrupt controller defines it.
    pub fn compose(vector: u8) -> (r: MSIMessage)
        ensures
            r == (MSIMessage { msg_addr: MSI_ADDR_BASE, msg_data: vector as u32 }),
    {
        MSIMessage { msg_addr: MSI_ADDR_BASE, msg_data: vector as u32 }
    }
}

/// The MSI-X capability of a function: its configuration offset and where
/// its vector table lives (BAR index and offset within the BAR).
#[derive(Debug, Clone, Copy, PartialEq, Eq, Structural)]
pub struct MSIX {
    pub offset: u8,
    pub table_bar: u8,
    pub table_offset: u64,
}

/// The model of one MSI-X table entry behind the table BAR: message
/// address, message data, vector control (bit zero masks the vector).
#[derive(Debug, Clone, Copy, PartialEq, Eq, Structural)]
pub struct MsixEntry {
    pub addr: u64,
    pub data: u32,
    pub ctrl: u32,
}

/// A discovered PCI device: its function address, identification, decoded
/// BARs remapped as I/O ports, and its MSI-X state.
pub struct PCIDevice {
    pub func: PCIFunction,
    pub dev_id: DeviceID,
    pub bars: Vec<Option<IOPort>>,
    pub msix: Option<MSIX>,
    /// Model of the MSI-X vector table behind the table BAR, filled in when
    /// MSI-X is enabled.
    pub msix_entries: Vec<MsixEntry>,
}

impl PCIDevice {
    pub open spec fn bars_wf(&self) -> bool {
        &&& self.bars@.len() == 6
        &&& forall|k: int|
            0 <= k < 6 ==> ((#[trigger] self.bars@[k]) matches Some(p) ==> p.wf())
    }

    /// Reads the function's identification, decodes and remaps its BARs,
    /// locates its MSI-X capability, and enables its BAR windows in the
    /// command register. Configuration space is left as found, except for
    /// the command register.
    #[verifier::rlimit(100)]
    #[verifier::spinoff_prover]
    pub fn probe(func: PCIFunction, header_type: u8, host: &mut PciHost) -> (r: PCIDevice)
        requires
            old(host).wf(),
            func.present(*old(host)),
            forall|k: int| 0 <= k < 6 ==> !(#[trigger] func.state_of(*old(host)).sizing@[k]),
        ensures
            final(host).wf(),
            func.present(*final(host)),
            ({
                let f = func.state_of(*old(host));
                &&& r.func == func
                &&& r.dev_id.vendor_id == cfg16(f, PCI_CFG_VENDOR_ID as int)
                &&& r.dev_id.device_id == cfg16(f, PCI_CFG_DEVICE_ID as int)
                &&& r.dev_id.revision_id == f.config@[PCI_CFG_REVISION_ID as int]
                &&& r.dev_id.class_code == f.config@[PCI_CFG_CLASS_CODE as int]
                &&& r.dev_id.subclass == f.config@[PCI_CFG_SUBCLASS as int]
                &&& r.dev_id.prog_if == f.config@[PCI_CFG_PROG_IF as int]
                &&& r.dev_id.header_type == header_type
                &&& r.bars_wf()
                &&& r.bars@ == decoded_bars(
                    f,
                    Seq::new(6, |i: int| None::<IOPort>),
                    0,
                    max_bars_spec(header_type),
                )
                &&& r.msix_entries@.len() == 0
                &&& (match find_cap_spec(f, PCI_CAPABILITY_MSIX) {
                    None => r.msix is None,
                    Some(off) => if off <= 0xf8 {
                        let t = cfg32(f, off as int + PCI_MSIX_TABLE_OFFSET as int);
                        r.msix == Some(
                            MSIX {
                                offset: off,
                                table_bar: (t % 8) as u8,
                                table_offset: (t - t % 8) as u64,
                            },
                        )
                    } else {
                        r.msix is None
                    },
                })
            }),
            // Only the command register changed: BAR memory and I/O decoding
            // are now enabled.
            ({
                let i = old(host).func_index(func.bus_id, func.slot_id, func.func_id);
                let f = func.state_of(*old(host));
                let cmd = cfg16(f, PCI_CFG_COMMAND as int);
                let cmd2 = with_bit16(
                    with_bit16(cmd, PCI_CMD_BAR_IO_ENABLE, true),
                    PCI_CMD_BAR_MEM_ENABLE,
                    true,
                );
                &&& final(host).funcs@.len() == old(host).funcs@.len()
                &&& (forall|k: int|
                    0 <= k < final(host).funcs@.len() && k != i ==> func_like(
                        #[trigger] final(host).funcs@[k],
                        old(host).funcs@[k],
                    ))
                &&& func_like(
                    final(host).funcs@[i],
                    PciFuncState {
                        config: final(host).funcs@[i].config,
                        ..f
                    },
                )
                &&& final(host).funcs@[i].config@ == f.config@.update(
                    PCI_CFG_COMMAND as int,
                    (cmd2 % 0x100) as u8,
                ).update(PCI_CFG_COMMAND as int + 1, (cmd2 / 0x100) as u8)
            }),
    {
        let ghost f0 = func.state_of(*old(host));
        let ghost i0 = old(host).func_index(func.bus_id, func.slot_id, func.func_id);
        proof {
            lemma_func_index_unique(*old(host), func.bus_id, func.slot_id, func.func_id, i0);
        }
        let vendor_id = func.read_config_u16(host, PCI_CFG_VENDOR_ID);
        let device_id = func.read_config_u16(host, PCI_CFG_DEVICE_ID);
        let revision_id = func.read_config_u8(host, PCI_CFG_REVISION_ID);
        let class_code = func.read_config_u8(host, PCI_CFG_CLASS_CODE);
        let subclass = func.read_config_u8(host, PCI_CFG_SUBCLASS);
        let prog_if = func.read_config_u8(host, PCI_CFG_PROG_IF);
        let mut bars: Vec<Option<IOPort>> = Vec::new();
        let mut k: usize = 0;
        while k < 6
            invariant
                k <= 6,
                bars@.len() == k,
                forall|j: int| 0 <= j < k ==> (#[trigger] bars@[j]) is None,
            decreases 6 - k,
        {
            bars.push(None);
            k += 1;
        }
        let max_bars: usize = if header_type % 4 == PCI_HEADER_TYPE_DEVICE {
            6
        } else if header_type % 4 == PCI_HEADER_TYPE_PCCARD {
            2
        } else {
            0
        };
        let ghost acc0 = Seq::new(6, |i: int| None::<IOPort>);
        proof {
            assert(bars@ =~= acc0);
        }
        let mut bar_idx: usize = 0;
        while bar_idx < max_bars
            invariant
                max_bars <= 6,
                max_bars as int == max_bars_spec(header_type),
                host.wf(),
                old(host).wf(),
                host_like(*host, *old(host)),
                func.present(*host),
                f0 == func.state_of(*old(host)),
                func.present(*old(host)),
                bars@.len() == 6,
                forall|j: int| 0 <= j < 6 ==> ((#[trigger] bars@[j]) matches Some(p) ==> p.wf()),
                forall|j: int| 0 <= j < 6 ==> !(#[trigger] func.state_of(*host).sizing@[j]),
                decoded_bars(f0, acc0, 0, max_bars as int) == decoded_bars(
                    f0,
                    bars@,
                    bar_idx as int,
                    max_bars as int,
                ),
            decreases 7 - bar_idx,
        {
            let ghost hpre = *host;
            let ghost bars_pre = bars@;
            let (bar, next_idx) = BAR::decode(&func, host, bar_idx);
            proof {
                lemma_host_like(*host, hpre, func.bus_id, func.slot_id, func.func_id);
                lemma_host_like_trans(*host, hpre, *old(host));
                // decoding only reads register values, which are the same as
                // at entry
                lemma_host_like(hpre, *old(host), func.bus_id, func.slot_id, func.func_id);
                lemma_bar_decode_like(func.state_of(hpre), f0, bar_idx as int);
            }
            match bar {
                Some(b) => {
                    let port = b.remap();
                    bars.set(bar_idx, port);
                    proof {
                        assert(bars@ =~= bars_pre.update(
                            bar_idx as int,
                            bar_remap_spec(bar_decode_spec(f0, bar_idx as int).0->Some_0),
                        ));
                    }
                },
                None => {},
            }
            bar_idx = next_idx;
        }
        proof {
            assert(decoded_bars(f0, bars@, bar_idx as int, max_bars as int) == bars@);
        }
        proof {
            lemma_host_like(*host, *old(host), func.bus_id, func.slot_id, func.func_id);
            assert(func_like(func.state_of(*host), f0));
            lemma_cap_walk_like(
                func.state_of(*host),
                f0,
                PCI_CAPABILITY_MSIX,
                func.state_of(*host).config@[PCI_CFG_CAPABILITIES_PTR as int] as int,
                CAP_WALK_FUEL as nat,
            );
            assert(find_cap_spec(func.state_of(*host), PCI_CAPABILITY_MSIX) == find_cap_spec(
                f0,
                PCI_CAPABILITY_MSIX,
            ));
        }
        let msix = match func.find_capability(host, PCI_CAPABILITY_MSIX) {
            None => None,
            Some(off) => {
                if off <= 0xf8 {
                    let msix_table = func.read_config_u32(host, off + PCI_MSIX_TABLE_OFFSET);
                    Some(
                        MSIX {
                            offset: off,
                            table_bar: (msix_table % 8) as u8,
                            table_offset: msix_table as u64 - (msix_table % 8) as u64,
                        },
                    )
                } else {
                    None
                }
            },
        };
        let ghost hmid = *host;
        let cmd = func.read_config_u16(host, PCI_CFG_COMMAND);
        let cmd = if (cmd / PCI_CMD_BAR_IO_ENABLE) % 2 == 0 {
            cmd + PCI_CMD_BAR_IO_ENABLE
        } else {
            cmd
        };
        let cmd = if (cmd / PCI_CMD_BAR_MEM_ENABLE) % 2 == 0 {
            cmd + PCI_CMD_BAR_MEM_ENABLE
        } else {
            cmd
        };
        func.write_config_u16(host, PCI_CFG_COMMAND, cmd);
        proof {
            lemma_func_index_unique(hmid, func.bus_id, func.slot_id, func.func_id, i0);
            assert forall|j: int|
                0 <= j < host.funcs@.len() && j != i0 implies func_like(
                #[trigger] host.funcs@[j],
                old(host).funcs@[j],
            ) by {
                assert(host.funcs@[j] == hmid.funcs@[j]);
                assert(func_like(hmid.funcs@[j], old(host).funcs@[j]));
            }
            assert(func_like(hmid.funcs@[i0], f0));
            assert(host.funcs@[i0].config@ =~= f0.config@.update(
                PCI_CFG_COMMAND as int,
                (cmd % 0x100) as u8,
            ).update(PCI_CFG_COMMAND as int + 1, (cmd / 0x100) as u8));
            assert(func_like(
                host.funcs@[i0],
                PciFuncState { config: host.funcs@[i0].config, ..f0 },
            ));
        }
        PCIDevice {
            func,
            dev_id: DeviceID {
                vendor_id,
                device_id,
                revision_id,
                header_type,
                class_code,
                subclass,
                prog_if,
            },
            bars,
            msix,
            msix_entries: Vec::new(),
        }
    }

    /// Sets or clears bus mastering in the command register.
    pub fn set_bus_master(&self, host: &mut PciHost, master: bool)
        requires
            old(host).wf(),
        ensures
            final(host).wf(),
            !self.func.present(*old(host)) ==> *final(host) == *old(host),
            self.func.present(*old(host)) ==> {
                let i = old(host).func_index(self.func.bus_id, self.func.slot_id, self.func.func_id);
                let f = old(host).funcs@[i];
                let cmd2 = with_bit16(cfg16(f, PCI_CFG_COMMAND as int), PCI_CMD_BUS_MASTER, master);
                &&& final(host).funcs@.len() == old(host).funcs@.len()
                &&& (forall|k: int|
                    0 <= k < final(host).funcs@.len() && k != i ==> func_like(
                        #[trigger] final(host).funcs@[k],
                        old(host).funcs@[k],
                    ))
                &&& func_like(
                    final(host).funcs@[i],
                    PciFuncState { config: final(host).funcs@[i].config, ..f },
                )
                &&& final(host).funcs@[i].config@ == f.config@.update(
                    PCI_CFG_COMMAND as int,
                    (cmd2 % 0x100) as u8,
                ).update(PCI_CFG_COMMAND as int + 1, (cmd2 / 0x100) as u8)
            },
    {
        let cmd = self.func.read_config_u16(host, PCI_CFG_COMMAND);
        let cmd2 = if master {
            if (cmd / PCI_CMD_BUS_MASTER) % 2 == 0 {
                cmd + PCI_CMD_BUS_MASTER
            } else {
                cmd
            }
        } else {
            if (cmd / PCI_CMD_BUS_MASTER) % 2 == 1 {
                cmd - PCI_CMD_BUS_MASTER
            } else {
                cmd
            }
        };
        self.func.write_config_u16(host, PCI_CFG_COMMAND, cmd2);
    }

    /// Disables legacy INTx interrupt delivery in the command register.
    pub fn disable_intx(&self, host: &mut PciHost)
        requires
            old(host).wf(),
        ensures
            final(host).wf(),
            !self.func.present(*old(host)) ==> *final(host) == *old(host),
            self.func.present(*old(host)) ==> {
                let i = old(host).func_index(self.func.bus_id, self.func.slot_id, self.func.func_id);
                let f = old(host).funcs@[i];
                let cmd2 = with_bit16(cfg16(f, PCI_CFG_COMMAND as int), PCI_CMD_INTX_DISABLE, true);
                &&& final(host).funcs@.len() == old(host).funcs@.len()
                &&& (forall|k: int|
                    0 <= k < final(host).funcs@.len() && k != i ==> func_like(
                        #[trigger] final(host).funcs@[k],
                        old(host).funcs@[k],
                    ))
                &&& func_like(
                    final(host).funcs@[i],
                    PciFuncState { config: final(host).funcs@[i].config, ..f },
                )
                &&& final(host).funcs@[i].config@ == f.config@.update(
                    PCI_CFG_COMMAND as int,
                    (cmd2 % 0x100) as u8,
                ).update(PCI_CFG_COMMAND as int + 1, (cmd2 / 0x100) as u8)
            },
    {
        let cmd = self.func.read_config_u16(host, PCI_CFG_COMMAND);
        let cmd2 = if (cmd / PCI_CMD_INTX_DISABLE) % 2 == 0 {
            cmd + PCI_CMD_INTX_DISABLE
        } else {
            cmd
        };
        self.func.write_config_u16(host, PCI_CFG_COMMAND, cmd2);
    }

    /// The I/O port of the BAR holding this device's MSI-X table.
    pub fn get_msix_table(&self) -> (r: Option<IOPort>)
        requires
            self.bars_wf(),
        ensures
            match self.msix {
                Some(m) => if m.table_bar < 6 {
                    r == self.bars@[m.table_bar as int]
                } else {
                    r is None
                },
                None => r is None,
            },
    {
        match self.msix {
            Some(ref m) => {
                if m.table_bar < 6 {
                    self.bars[m.table_bar as usize]
                } else {
                    None
                }
            },
            None => None,
        }
    }

    /// Writes the MSI-X table entry `id`: its message address and data.
    pub fn write_msix_entry(&mut self, id: u16, addr: u64, data: u32)
        requires
            id < old(self).msix_entries@.len(),
        ensures
            *final(self) == (PCIDevice { msix_entries: final(self).msix_entries, ..*old(self) }),
            final(self).msix_entries@ == old(self).msix_entries@.update(
                id as int,
                MsixEntry { addr, data, ctrl: old(self).msix_entries@[id as int].ctrl },
            ),
    {
        let ctrl = self.msix_entries[id as usize].ctrl;
        self.msix_entries.set(id as usize, MsixEntry { addr, data, ctrl });
    }

    /// Masks the MSI-X table entry `id`.
    pub fn mask_msix_entry(&mut self, id: u16)
        requires
            id < old(self).msix_entries@.len(),
        ensures
            *final(self) == (PCIDevice { msix_entries: final(self).msix_entries, ..*old(self) }),
            final(self).msix_entries@ == old(self).msix_entries@.update(
                id as int,
                MsixEntry {
                    ctrl: if old(self).msix_entries@[id as int].ctrl % 2 == 0 {
                        (old(self).msix_entries@[id as int].ctrl + 1) as u32
                    } else {
                        old(self).msix_entries@[id as int].ctrl
                    },
                    ..old(self).msix_entries@[id as int]
                },
            ),
    {
        let e = self.msix_entries[id as usize];
        let ctrl = if e.ctrl % 2 == 0 {
            e.ctrl + 1
        } else {
            e.ctrl
        };
        self.msix_entries.set(id as usize, MsixEntry { ctrl, ..e });
    }

    /// Unmasks the MSI-X table entry `id`.
    pub fn unmask_msix_entry(&mut self, id: u16)
        requires
            id < old(self).msix_entries@.len(),
        ensures
            *final(self) == (PCIDevice { msix_entries: final(self).msix_entries, ..*old(self) }),
            final(self).msix_entries@ == old(self).msix_entries@.update(
                id as int,
                MsixEntry {
                    ctrl: if old(self).msix_entries@[id as int].ctrl % 2 == 1 {
                        (old(self).msix_entries@[id as int].ctrl - 1) as u32
                    } else {
                        old(self).msix_entries@[id as int].ctrl
                    },
                    ..old(self).msix_entries@[id as int]
                },
            ),
    {
        let e = self.msix_entries[id as usize];
        let ctrl = if e.ctrl % 2 == 1 {
            e.ctrl - 1
        } else {
            e.ctrl
        };
        self.msix_entries.set(id as usize, MsixEntry { ctrl, ..e });
    }

    /// Registers `vector` for MSI-X table entry `entry`: composes the
    /// interrupt message and writes it into the entry.
    pub fn register_irq(&mut self, entry: u16, vector: u8) -> (r: u8)
        requires
            entry < old(self).msix_entries@.len(),
        ensures
            r == vector,
            *final(self) == (PCIDevice { msix_entries: final(self).msix_entries, ..*old(self) }),
            final(self).msix_entries@ == old(self).msix_entries@.update(
                entry as int,
                MsixEntry {
                    addr: MSI_ADDR_BASE,
                    data: vector as u32,
                    ctrl: old(self).msix_entries@[entry as int].ctrl,
                },
            ),
    {
        let msg = MSIMessage::compose(vector);
        self.write_msix_entry(entry, msg.msg_addr, msg.msg_data);
        vector
    }

    /// Unmasks the MSI-X table entry serving queue interrupt `entry`.
    pub fn enable_irq(&mut self, entry: u16)
        requires
            entry < old(self).msix_entries@.len(),
        ensures
            *final(self) == (PCIDevice { msix_entries: final(self).msix_entries, ..*old(self) }),
            final(self).msix_entries@ == old(self).msix_entries@.update(
                entry as int,
                MsixEntry {
                    ctrl: if old(self).msix_entries@[entry as int].ctrl % 2 == 1 {
                        (old(self).msix_entries@[entry as int].ctrl - 1) as u32
                    } else {
                        old(self).msix_entries@[entry as int].ctrl
                    },
                    ..old(self).msix_entries@[entry as int]
                },
            ),
    {
        self.unmask_msix_entry(entry);
    }
}

/// Whether the bus walk continues past `bus`: its slot-zero function
/// answers with a vendor other than all-ones.
pub open spec fn bus_answers(h: PciHost, bus: int) -> bool {
    &&& h.has_func(bus as u16, 0, 0)
    &&& cfg16(h.func_at(bus as u16, 0, 0), PCI_CFG_VENDOR_ID as int) != 0xffff
}

/// Whether the walk owes a probe at `(bus, slot)`: its function zero
/// answers, its class word is not all-ones, and it is not a bridge.
pub open spec fn slot_leaf_answers(h: PciHost, bus: u16, slot: u16) -> bool {
    &&& h.has_func(bus, slot, 0)
    &&& cfg32(h.func_at(bus, slot, 0), PCI_CFG_REVISION_ID as int) != 0xffff_ffff
    &&& h.func_at(bus, slot, 0).config@[PCI_CFG_HEADER_TYPE as int] % 4 != PCI_HEADER_TYPE_BRIDGE
}

/// The fields the walk promises of a device appended for function zero of
/// `(bus, slot)`, whose register file read `f`: the identification and the
/// decoded BARs `PCIDevice::probe` yields.
pub open spec fn probed_device_like(d: PCIDevice, f: PciFuncState, bus: u16, slot: u16) -> bool {
    &&& d.func == (PCIFunction { bus_id: bus, slot_id: slot, func_id: 0 })
    &&& d.dev_id.vendor_id == cfg16(f, PCI_CFG_VENDOR_ID as int)
    &&& d.dev_id.device_id == cfg16(f, PCI_CFG_DEVICE_ID as int)
    &&& d.dev_id.class_code == f.config@[PCI_CFG_CLASS_CODE as int]
    &&& d.dev_id.subclass == f.config@[PCI_CFG_SUBCLASS as int]
    &&& d.dev_id.header_type == f.config@[PCI_CFG_HEADER_TYPE as int]
    &&& d.bars@ == decoded_bars(
        f,
        Seq::new(6, |i: int| None::<IOPort>),
        0,
        max_bars_spec(f.config@[PCI_CFG_HEADER_TYPE as int]),
    )
}

/// No function has an outstanding BAR sizing write.
pub open spec fn host_no_sizing(h: PciHost) -> bool {
    forall|i: int, k: int|
        0 <= i < h.funcs@.len() && 0 <= k < 6 ==> !(#[trigger] h.funcs@[i].sizing@[k])
}

impl PCIDevice {
    /// Enables MSI-X for this device: turns the function's MSI-X capability
    /// on with every vector masked (function mask held while the table is
    /// initialised), then releases the function mask. The table model gains
    /// one masked entry per table slot.
    #[verifier::rlimit(100)]
    #[verifier::spinoff_prover]
    pub fn enable_msix(&mut self, host: &mut PciHost)
        requires
            old(host).wf(),
        ensures
            final(host).wf(),
            final(host).funcs@.len() == old(host).funcs@.len(),
            *final(self) == (PCIDevice { msix_entries: final(self).msix_entries, ..*old(self) }),
            old(self).msix is None ==> *final(self) == *old(self) && *final(host) == *old(host),
            host_no_sizing(*old(host)) ==> host_no_sizing(*final(host)),
            old(self).msix matches Some(m) ==> (m.offset <= 0xfb && old(self).func.present(
                *old(host),
            )) ==> {
                let i = old(host).func_index(
                    old(self).func.bus_id,
                    old(self).func.slot_id,
                    old(self).func.func_id,
                );
                let f = old(host).funcs@[i];
                let c = cfg16(f, m.offset as int + PCI_MSIX_MSG_CTRL as int);
                let c2 = with_bit16(
                    with_bit16(c, PCI_MSIX_MSG_CTRL_MSIX_ENABLE, true),
                    PCI_MSIX_MSG_CTRL_FUNCTION_MASK,
                    false,
                );
                &&& *final(self) == (PCIDevice {
                    msix_entries: final(self).msix_entries,
                    ..*old(self)
                })
                &&& final(self).msix_entries@.len() == (c % 0x800) + 1
                &&& (forall|k: int|
                    0 <= k < final(self).msix_entries@.len()
                        ==> (#[trigger] final(self).msix_entries@[k]) == (MsixEntry {
                        addr: 0,
                        data: 0,
                        ctrl: 1,
                    }))
                &&& (forall|k: int|
                    0 <= k < final(host).funcs@.len() && k != i ==> func_like(
                        #[trigger] final(host).funcs@[k],
                        old(host).funcs@[k],
                    ))
                &&& func_like(
                    final(host).funcs@[i],
                    PciFuncState { config: final(host).funcs@[i].config, ..f },
                )
                &&& final(host).funcs@[i].config@ == f.config@.update(
                    m.offset as int + PCI_MSIX_MSG_CTRL as int,
                    (c2 % 0x100) as u8,
                ).update(m.offset as int + PCI_MSIX_MSG_CTRL as int + 1, (c2 / 0x100) as u8)
            },
    {
        let m = match self.msix {
            None => {
                return ;
            },
            Some(m) => m,
        };
        if m.offset > 0xfb {
            return ;
        }
        if self.func.find(host).is_none() {
            return ;
        }
        let ghost i0 = old(host).func_index(
            self.func.bus_id,
            self.func.slot_id,
            self.func.func_id,
        );
        proof {
            lemma_func_index_unique(
                *old(host),
                self.func.bus_id,
                self.func.slot_id,
                self.func.func_id,
                i0,
            );
        }
        let ctrl_off = m.offset + PCI_MSIX_MSG_CTRL;
        let c = self.func.read_config_u16(host, ctrl_off);
        // Enable MSI-X with every function vector masked while the table is
        // set up.
        let c1 = if (c / PCI_MSIX_MSG_CTRL_MSIX_ENABLE) % 2 == 0 {
            c + PCI_MSIX_MSG_CTRL_MSIX_ENABLE
        } else {
            c
        };
        let c1 = if (c1 / PCI_MSIX_MSG_CTRL_FUNCTION_MASK) % 2 == 0 {
            c1 + PCI_MSIX_MSG_CTRL_FUNCTION_MASK
        } else {
            c1
        };
        self.func.write_config_u16(host, ctrl_off, c1);
        let ghost h1 = *host;
        proof {
            lemma_func_index_unique(h1, self.func.bus_id, self.func.slot_id, self.func.func_id, i0);
        }
        let table_size = (c % 0x800) + 1;
        let mut entries: Vec<MsixEntry> = Vec::new();
        let mut k: usize = 0;
        while k < table_size as usize
            invariant
                k <= table_size as usize,
                entries@.len() == k,
                forall|j: int|
                    0 <= j < k ==> (#[trigger] entries@[j]) == (MsixEntry {
                        addr: 0,
                        data: 0,
                        ctrl: 1,
                    }),
            decreases table_size as usize - k,
        {
            entries.push(MsixEntry { addr: 0, data: 0, ctrl: 1 });
            k += 1;
        }
        self.msix_entries = entries;
        // Release the function mask now that every vector is masked.
        let c2 = if (c1 / PCI_MSIX_MSG_CTRL_FUNCTION_MASK) % 2 == 1 {
            c1 - PCI_MSIX_MSG_CTRL_FUNCTION_MASK
        } else {
            c1
        };
        self.func.write_config_u16(host, ctrl_off, c2);
        proof {
            assert forall|k2: int|
                0 <= k2 < host.funcs@.len() && k2 != i0 implies func_like(
                #[trigger] host.funcs@[k2],
                old(host).funcs@[k2],
            ) by {
                assert(host.funcs@[k2] == h1.funcs@[k2]);
                assert(func_like(h1.funcs@[k2], old(host).funcs@[k2]));
            }
            let f = old(host).funcs@[i0];
            assert(host.funcs@[i0].config@ =~= f.config@.update(
                ctrl_off as int,
                (c2 % 0x100) as u8,
            ).update(ctrl_off as int + 1, (c2 / 0x100) as u8));
            assert(func_like(
                host.funcs@[i0],
                PciFuncState { config: host.funcs@[i0].config, ..f },
            ));
            assert forall|i: int, k2: int|
                0 <= i < host.funcs@.len() && 0 <= k2 < 6 && host_no_sizing(
                    *old(host),
                ) implies !(#[trigger] host.funcs@[i].sizing@[k2]) by {
                if i != i0 {
                    assert(func_like(host.funcs@[i], old(host).funcs@[i]));
                } else {
                    assert(host.funcs@[i].sizing@ == f.sizing@);
                }
            }
        }
    }
}

/// A registered PCI driver: the identification it matches on.
#[derive(Debug, Clone, Copy, PartialEq, Eq, Structural)]
pub struct PCIDriver {
    pub dev_id: DeviceID,
}

impl PCIDriver {
    pub fn new(dev_id: DeviceID) -> (r: PCIDriver)
        ensures
            r == (PCIDriver { dev_id }),
    {
        PCIDriver { dev_id }
    }

    /// Whether this driver claims a device with the given identification.
    pub fn matches(&self, dev_id: &DeviceID) -> (r: bool)
        ensures
            r == (self.dev_id.vendor_id == dev_id.vendor_id && self.dev_id.device_id
                == dev_id.device_id),
    {
        self.dev_id.vendor_id == dev_id.vendor_id && self.dev_id.device_id == dev_id.device_id
    }
}

/// Registers a driver; the registry only ever grows.
pub fn pci_register_driver(registry: &mut Vec<PCIDriver>, driver: PCIDriver)
    ensures
        final(registry)@ == old(registry)@.push(driver),
{
    registry.push(driver);
}

/// Walks every bus from zero, stopping at the first bus whose slot-zero
/// vendor reads all-ones, and probes every function of the buses before it.
/// Returns the discovered devices in walk order.
pub fn pci_probe(host: &mut PciHost) -> (r: Vec<PCIDevice>)
    requires
        old(host).wf(),
        host_no_sizing(*old(host)),
    ensures
        final(host).wf(),
        host_no_sizing(*final(host)),
        forall|k: int| 0 <= k < r@.len() ==> (#[trigger] r@[k]).bars_wf(),
        // All-ones at slot zero of bus zero stops the walk before anything
        // is probed.
        !bus_answers(*old(host), 0) ==> r@.len() == 0 && *final(host) == *old(host),
        // an answering non-bridge function zero at bus zero, slot zero is
        // probed and its device leads the result
        (bus_answers(*old(host), 0) && slot_leaf_answers(*old(host), 0, 0)) ==> (r@.len() > 0
            && probed_device_like(r@[0], old(host).func_at(0, 0, 0), 0, 0)),
{
    let mut devices: Vec<PCIDevice> = Vec::new();
    let ghost hyp2 = bus_answers(*old(host), 0) && slot_leaf_answers(*old(host), 0, 0);
    let mut bus: u32 = 0;
    while bus < 256
        invariant
            host.wf(),
            host_no_sizing(*host),
            forall|k: int| 0 <= k < devices@.len() ==> (#[trigger] devices@[k]).bars_wf(),
            !bus_answers(*old(host), 0) ==> (*host == *old(host) && devices@.len() == 0 && bus
                == 0),
            hyp2 == (bus_answers(*old(host), 0) && slot_leaf_answers(*old(host), 0, 0)),
            bus == 0 ==> *host == *old(host) && devices@.len() == 0,
            hyp2 && bus > 0 ==> (devices@.len() > 0 && probed_device_like(
                devices@[0],
                old(host).func_at(0, 0, 0),
                0,
                0,
            )),
        ensures
            hyp2 ==> (devices@.len() > 0 && probed_device_like(
                devices@[0],
                old(host).func_at(0, 0, 0),
                0,
                0,
            )),
            host.wf(),
            host_no_sizing(*host),
            forall|k: int| 0 <= k < devices@.len() ==> (#[trigger] devices@[k]).bars_wf(),
            !bus_answers(*old(host), 0) ==> (*host == *old(host) && devices@.len() == 0),
        decreases 256 - bus,
    {
        // The walk stops at the first bus whose slot-zero vendor is
        // all-ones.
        let slot0 = PCIFunction::new(bus as u16, 0, 0);
        let vendor_id = slot0.read_config_u16(host, PCI_CFG_VENDOR_ID);
        if vendor_id == 0xffff {
            break ;
        }
        let ghost devs_pre = devices@;
        pci_probe_bus(host, bus as u16, &mut devices, 8);
        proof {
            assert forall|k: int|
                0 <= k < devices@.len() implies (#[trigger] devices@[k]).bars_wf() by {
                if k < devs_pre.len() {
                    assert(devices@.subrange(0, devs_pre.len() as int)[k] == devices@[k]);
                    assert(devices@[k] == devs_pre[k]);
                }
            }
            if hyp2 && bus > 0 {
                assert(devices@.subrange(0, devs_pre.len() as int)[0] == devices@[0]);
                assert(devices@[0] == devs_pre[0]);
            }
        }
        bus += 1;
    }
    devices
}

/// Probes the 32 slots of one bus; true when any function answered.
pub fn pci_probe_bus(
    host: &mut PciHost,
    bus: u16,
    devices: &mut Vec<PCIDevice>,
    depth: u8,
) -> (r: bool)
    requires
        old(host).wf(),
        host_no_sizing(*old(host)),
    ensures
        final(host).wf(),
        host_no_sizing(*final(host)),
        final(devices)@.len() >= old(devices)@.len(),
        final(devices)@.subrange(0, old(devices)@.len() as int) == old(devices)@,
        forall|k: int|
            old(devices)@.len() <= k < final(devices)@.len()
                ==> (#[trigger] final(devices)@[k]).bars_wf(),
        // A bus with no function: nothing found, nothing changed.
        (forall|i: int|
            0 <= i < old(host).funcs@.len() ==> (#[trigger] old(host).funcs@[i]).bus != bus)
            ==> (r == false && final(devices)@ == old(devices)@ && *final(host) == *old(host)),
        // an answering non-bridge function zero of slot zero is probed and
        // its device appended
        (bus_answers(*old(host), bus as int) && slot_leaf_answers(*old(host), bus, 0)) ==> (r
            == true && final(devices)@.len() > old(devices)@.len() && probed_device_like(
            final(devices)@[old(devices)@.len() as int],
            old(host).func_at(bus, 0, 0),
            bus,
            0,
        )),
    decreases depth, 1int,
{
    let mut result = false;
    let ghost hyp = forall|i: int|
        0 <= i < old(host).funcs@.len() ==> (#[trigger] old(host).funcs@[i]).bus != bus;
    let ghost hyp1 = bus_answers(*old(host), bus as int) && slot_leaf_answers(*old(host), bus, 0);
    let mut slot: u16 = 0;
    while slot < 32
        invariant
            host.wf(),
            host_no_sizing(*host),
            devices@.len() >= old(devices)@.len(),
            devices@.subrange(0, old(devices)@.len() as int) == old(devices)@,
            forall|k: int|
                old(devices)@.len() <= k < devices@.len() ==> (#[trigger] devices@[k]).bars_wf(),
            hyp == (forall|i: int|
                0 <= i < old(host).funcs@.len() ==> (#[trigger] old(host).funcs@[i]).bus != bus),
            hyp ==> (result == false && devices@ == old(devices)@ && *host == *old(host)),
            hyp1 == (bus_answers(*old(host), bus as int) && slot_leaf_answers(
                *old(host),
                bus,
                0,
            )),
            slot == 0 ==> *host == *old(host) && devices@ == old(devices)@ && result == false,
            hyp1 && slot > 0 ==> (result == true && devices@.len() > old(devices)@.len()
                && probed_device_like(
                devices@[old(devices)@.len() as int],
                old(host).func_at(bus, 0, 0),
                bus,
                0,
            )),
        decreases 32 - slot,
    {
        let probe_fn = PCIFunction::new(bus, slot, 0);
        let vendor_id = probe_fn.read_config_u16(host, PCI_CFG_VENDOR_ID);
        proof {
            if hyp {
                if probe_fn.present(*host) {
                    let i = host.func_index(bus, slot, 0);
                    assert(old(host).funcs@[i].bus != bus);
                }
                assert(vendor_id == 0xffff);
            }
        }
        if vendor_id != 0xffff {
            let ghost devs_pre = devices@;
            let found = pci_probe_slot(host, bus, slot, devices, depth);
            result = result || found;
            proof {
                assert(devices@.subrange(0, old(devices)@.len() as int) =~= devices@.subrange(
                    0,
                    devs_pre.len() as int,
                ).subrange(0, old(devices)@.len() as int));
                assert forall|k: int|
                    old(devices)@.len() <= k < devices@.len() implies (#[trigger] devices@[
                k]).bars_wf() by {
                    if k < devs_pre.len() {
                        assert(devices@.subrange(0, devs_pre.len() as int)[k] == devices@[k]);
                        assert(devices@[k] == devs_pre[k]);
                    }
                }
                if hyp1 && slot > 0 {
                    let n = old(devices)@.len() as int;
                    assert(devices@.subrange(0, devs_pre.len() as int)[n] == devices@[n]);
                    assert(devices@[n] == devs_pre[n]);
                }
            }
        }
        slot += 1;
    }
    result
}

/// Probes the eight functions of one slot, recursing into bridges; true
/// when any non-bridge function was probed.
pub fn pci_probe_slot(
    host: &mut PciHost,
    bus_id: u16,
    slot_id: u16,
    devices: &mut Vec<PCIDevice>,
    depth: u8,
) -> (r: bool)
    requires
        old(host).wf(),
        host_no_sizing(*old(host)),
    ensures
        final(host).wf(),
        host_no_sizing(*final(host)),
        final(devices)@.len() >= old(devices)@.len(),
        final(devices)@.subrange(0, old(devices)@.len() as int) == old(devices)@,
        forall|k: int|
            old(devices)@.len() <= k < final(devices)@.len()
                ==> (#[trigger] final(devices)@[k]).bars_wf(),
        // an answering non-bridge function zero is probed and its device
        // appended
        slot_leaf_answers(*old(host), bus_id, slot_id) ==> (r == true && final(devices)@.len()
            > old(devices)@.len() && probed_device_like(
            final(devices)@[old(devices)@.len() as int],
            old(host).func_at(bus_id, slot_id, 0),
            bus_id,
            slot_id,
        )),
    decreases depth, 0int,
{
    let mut result = false;
    let ghost hyp0 = slot_leaf_answers(*old(host), bus_id, slot_id);
    let mut func_id: u16 = 0;
    while func_id < 8
        invariant
            host.wf(),
            host_no_sizing(*host),
            devices@.len() >= old(devices)@.len(),
            devices@.subrange(0, old(devices)@.len() as int) == old(devices)@,
            forall|k: int|
                old(devices)@.len() <= k < devices@.len() ==> (#[trigger] devices@[k]).bars_wf(),
            hyp0 == slot_leaf_answers(*old(host), bus_id, slot_id),
            func_id == 0 ==> *host == *old(host) && devices@ == old(devices)@ && result == false,
            hyp0 && func_id > 0 ==> (result == true && devices@.len() > old(devices)@.len()
                && probed_device_like(
                devices@[old(devices)@.len() as int],
                old(host).func_at(bus_id, slot_id, 0),
                bus_id,
                slot_id,
            )),
        decreases 8 - func_id,
    {
        let ghost hpre = *host;
        let ghost devs_pre = devices@;
        let func = PCIFunction::new(bus_id, slot_id, func_id);
        let class_revision = func.read_config_u32(host, PCI_CFG_REVISION_ID);
        if class_revision != 0xffff_ffff {
            let header_type = func.read_config_u8(host, PCI_CFG_HEADER_TYPE);
            if header_type % 4 == PCI_HEADER_TYPE_BRIDGE {
                if depth > 0 {
                    let secondary_bus = func.read_config_u8(host, PCI_CFG_SECONDARY_BUS);
                    pci_probe_bus(host, secondary_bus as u16, devices, depth - 1);
                    proof {
                        assert(devices@.subrange(0, old(devices)@.len() as int)
                            =~= devices@.subrange(0, devs_pre.len() as int).subrange(
                            0,
                            old(devices)@.len() as int,
                        ));
                        assert forall|k: int|
                            old(devices)@.len() <= k < devices@.len() implies (#[trigger] devices@[
                        k]).bars_wf() by {
                            if k < devs_pre.len() {
                                assert(devices@.subrange(0, devs_pre.len() as int)[k]
                                    == devices@[k]);
                                assert(devices@[k] == devs_pre[k]);
                            }
                        }
                        if hyp0 && func_id > 0 {
                            let n = old(devices)@.len() as int;
                            assert(devices@.subrange(0, devs_pre.len() as int)[n] == devices@[n]);
                            assert(devices@[n] == devs_pre[n]);
                        }
                    }
                }
            } else if func.find(host).is_some() {
                result = true;
                let dev = PCIDevice::probe(func, header_type, host);
                devices.push(dev);
                proof {
                    assert forall|i: int, k2: int|
                        0 <= i < host.funcs@.len() && 0 <= k2 < 6 implies !(#[trigger] host.funcs@[
                    i].sizing@[k2]) by {
                        let i0 = hpre.func_index(bus_id, slot_id, func_id);
                        if i != i0 {
                            assert(func_like(host.funcs@[i], hpre.funcs@[i]));
                        } else {
                            assert(host.funcs@[i].sizing@ == hpre.funcs@[i0].sizing@);
                        }
                    }
                    assert(devices@.subrange(0, old(devices)@.len() as int) =~= devs_pre.subrange(
                        0,
                        old(devices)@.len() as int,
                    ));
                    if hyp0 {
                        if func_id == 0 {
                            assert(devs_pre == old(devices)@);
                            assert(devices@[old(devices)@.len() as int] == dev);
                            assert(probed_device_like(
                                dev,
                                old(host).func_at(bus_id, slot_id, 0),
                                bus_id,
                                slot_id,
                            ));
                        } else {
                            let n = old(devices)@.len() as int;
                            assert(devices@[n] == devs_pre[n]);
                        }
                    }
                }
            }
        }
        func_id += 1;
    }
    result
}

/// What `BAR::remap` yields for a decoded BAR.
pub open spec fn bar_remap_spec(b: BAR) -> Option<IOPort> {
    match b {
        BAR::Memory { base_addr, size, .. } => if base_addr + size <= usize::MAX {
            Some(IOPort::Memory { base_addr: base_addr as usize, size })
        } else {
            None
        },
        BAR::IO { iobase, size } => if iobase + size <= 0xffff {
            Some(IOPort::IO { iobase, size })
        } else {
            None
        },
    }
}

/// How many BAR slots a header type carries.
pub open spec fn max_bars_spec(header_type: u8) -> int {
    if header_type as int % 4 == PCI_HEADER_TYPE_DEVICE {
        6
    } else if header_type as int % 4 == PCI_HEADER_TYPE_PCCARD {
        2
    } else {
        0
    }
}

/// The six I/O-port slots after decoding and remapping the BARs of `f` from
/// slot `idx` up to `max`, starting from `acc` (64-bit BARs take two slots).
pub open spec fn decoded_bars(
    f: PciFuncState,
    acc: Seq<Option<IOPort>>,
    idx: int,
    max: int,
) -> Seq<Option<IOPort>>
    decreases 8 - idx,
{
    if idx < 0 || idx >= max || idx >= 6 || max > 6 {
        acc
    } else {
        let (bar, next) = bar_decode_spec(f, idx);
        let acc2 = match bar {
            None => acc,
            Some(b) => acc.update(idx, bar_remap_spec(b)),
        };
        decoded_bars(f, acc2, next, max)
    }
}

/// Register-likeness is transitive.
pub proof fn lemma_host_like_trans(h1: PciHost, h2: PciHost, h3: PciHost)
    requires
        host_like(h1, h2),
        host_like(h2, h3),
    ensures
        host_like(h1, h3),
{
    assert forall|i: int|
        0 <= i < h1.funcs@.len() implies func_like(#[trigger] h1.funcs@[i], h3.funcs@[i]) by {
        assert(func_like(h1.funcs@[i], h2.funcs@[i]));
        assert(func_like(h2.funcs@[i], h3.funcs@[i]));
    }
}

/// BAR decoding reads register values alone.
pub proof fn lemma_bar_decode_like(a: PciFuncState, b: PciFuncState, idx: int)
    requires
        func_like(a, b),
    ensures
        bar_decode_spec(a, idx) == bar_decode_spec(b, idx),
{
}

/// A function address resolves to the unique position that answers to it.
pub proof fn lemma_func_index_unique(h: PciHost, b: u16, s: u16, f: u16, i: int)
    requires
        h.wf(),
        0 <= i < h.funcs@.len(),
        h.funcs@[i].is_at(b, s, f),
    ensures
        h.has_func(b, s, f),
        h.func_index(b, s, f) == i,
{
    assert(h.has_func(b, s, f));
    let j = h.func_index(b, s, f);
    if j < i {
        assert(!h.funcs@[j].is_at(h.funcs@[i].bus, h.funcs@[i].slot, h.funcs@[i].func));
    } else if j > i {
        assert(!h.funcs@[i].is_at(h.funcs@[j].bus, h.funcs@[j].slot, h.funcs@[j].func));
    }
}

/// Updating one function in place (same address triple, same shape) keeps
/// the host well-formed.
proof fn lemma_host_wf_update(h0: PciHost, h1: PciHost, i: int)
    requires
        h0.wf(),
        0 <= i < h0.funcs@.len(),
        h1.funcs@ == h0.funcs@.update(i, h1.funcs@[i]),
        h1.funcs@[i].wf(),
        h1.funcs@[i].bus == h0.funcs@[i].bus,
        h1.funcs@[i].slot == h0.funcs@[i].slot,
        h1.funcs@[i].func == h0.funcs@[i].func,
    ensures
        h1.wf(),
{
    assert forall|a: int| 0 <= a < h1.funcs@.len() implies (#[trigger] h1.funcs@[a]).wf() by {
        if a != i {
            assert(h1.funcs@[a] == h0.funcs@[a]);
        }
    }
    assert forall|a: int, b: int|
        0 <= a < b < h1.funcs@.len() implies !(#[trigger] h1.funcs@[a]).is_at(
        (#[trigger] h1.funcs@[b]).bus,
        h1.funcs@[b].slot,
        h1.funcs@[b].func,
    ) by {
        assert(h1.funcs@[a].is_at(h0.funcs@[a].bus, h0.funcs@[a].slot, h0.funcs@[a].func));
        assert(!h0.funcs@[a].is_at(h0.funcs@[b].bus, h0.funcs@[b].slot, h0.funcs@[b].func));
    }
}

} // verus!
