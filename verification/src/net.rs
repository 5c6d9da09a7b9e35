//! Virtio network device driver.
//!
//! The device's register windows (common configuration, notifications,
//! device configuration) are hardware behind PCI BARs; here they are an
//! explicit register-file model that answers reads and writes at the
//! offsets the virtio specification gives them, so the whole probe sequence
//! and the packet paths are verified against a specified device.

use vstd::prelude::*;
use vstd::pervasive::VecAdditionalExecFns;
use crate::errno::Error;
use crate::event::{Event, EventNotifier};
use crate::ioport::IOPort;
use crate::ioqueue::{IOCmd, IOQueue, Opcode};
use crate::memory::MemoryPool;
use crate::pci::{PCIDevice, PciHost, cfg32, PCI_CAPABILITY_VENDOR, CAP_WALK_FUEL};
use crate::virtqueue::{Virtqueue, wrap16_sub, wrap16_inc};
use crate::vm::{VMAddressSpace, VMProt, VM_ALLOC_BASE, VM_ALLOC_CEILING};
use crate::PAGE_SIZE_SMALL;

verus! {

/// The PCI device identifier of a modern virtio network device.
pub const PCI_DEVICE_ID_VIRTIO_NET: u16 = 0x1041;

/// Common-configuration offset of the device feature word.
pub const VIRTIO_DEVICE_FEATURE: usize = 0x04;
/// Common-configuration offset of the driver feature word.
pub const VIRTIO_DRIVER_FEATURE: usize = 0x0c;
/// Common-configuration offset of the configuration MSI-X vector.
pub const VIRTIO_MSIX_CONFIG: usize = 0x10;
/// Common-configuration offset of the queue count.
pub const VIRTIO_NUM_QUEUES: usize = 0x12;
/// Common-configuration offset of the device status byte.
pub const VIRTIO_DEVICE_STATUS: usize = 0x14;
/// Common-configuration offset of the queue selector.
pub const VIRTIO_QUEUE_SELECT: usize = 0x16;
/// Common-configuration offset of the selected queue's size.
pub const VIRTIO_QUEUE_SIZE: usize = 0x18;
/// Common-configuration offset of the selected queue's MSI-X vector.
pub const VIRTIO_QUEUE_MSIX_VECTOR: usize = 0x1a;
/// Common-configuration offset of the selected queue's enable register.
pub const VIRTIO_QUEUE_ENABLE: usize = 0x1c;
/// Common-configuration offset of the selected queue's notify offset.
pub const VIRTIO_QUEUE_NOTIFY_OFF: usize = 0x1e;
/// Common-configuration offset of the selected queue's descriptor table.
pub const VIRTIO_QUEUE_DESC: usize = 0x20;
/// Common-configuration offset of the selected queue's available ring.
pub const VIRTIO_QUEUE_AVAIL: usize = 0x28;
/// Common-configuration offset of the selected queue's used ring.
pub const VIRTIO_QUEUE_USED: usize = 0x30;

/// Device status bit: the guest noticed the device.
pub const VIRTIO_ACKNOWLEDGE: u8 = 1;
/// Device status bit: the guest knows how to drive the device.
pub const VIRTIO_DRIVER: u8 = 2;
/// Device status bit: the driver is ready.
pub const VIRTIO_DRIVER_OK: u8 = 4;
/// Device status bit: feature negotiation finished.
pub const VIRTIO_FEATURES_OK: u8 = 8;

/// Network device feature: the device has a MAC address.
pub const VIRTIO_NET_F_MAC: u32 = 0x20;

/// Virtio vendor-capability field: configuration type.
pub const VIRTIO_PCI_CAP_CFG_TYPE: u8 = 3;
/// Virtio vendor-capability field: BAR index.
pub const VIRTIO_PCI_CAP_BAR: u8 = 4;
/// Virtio vendor-capability field: offset within the BAR.
pub const VIRTIO_PCI_CAP_OFFSET: u8 = 8;
/// Virtio vendor-capability field: length of the window.
pub const VIRTIO_PCI_CAP_LENGTH: u8 = 12;
/// Notification-capability field: the notify offset multiplier.
pub const VIRTIO_NOTIFY_OFF_MULTIPLIER: u8 = 16;

/// Virtio capability type: common configuration.
pub const VIRTIO_PCI_CAP_COMMON_CFG: u8 = 1;
/// Virtio capability type: notifications.
pub const VIRTIO_PCI_CAP_NOTIFY_CFG: u8 = 2;
/// Virtio capability type: device configuration.
pub const VIRTIO_PCI_CAP_DEVICE_CFG: u8 = 4;

/// Index of the receive queue.
pub const VIRTIO_RX_QUEUE_IDX: u16 = 0;
/// Index of the transmit queue.
pub const VIRTIO_TX_QUEUE_IDX: u16 = 1;

/// Bytes of the virtio network header that precedes every packet.
pub const VIRTIO_NET_HDR_SIZE: usize = 10;

/// The per-queue registers of the common configuration window.
#[derive(Debug, Clone, Copy, PartialEq, Eq, Structural)]
pub struct QueueRegs {
    /// Queue size (read-only to the driver).
    pub size: u16,
    /// MSI-X vector for the queue's interrupt.
    pub msix_vector: u16,
    /// Whether the queue is enabled.
    pub enable: u16,
    /// Notification offset (read-only to the driver).
    pub notify_off: u16,
    /// Physical address of the descriptor table.
    pub desc: u64,
    /// Physical address of the available ring.
    pub avail: u64,
    /// Physical address of the used ring.
    pub used: u64,
}

/// The common-configuration register window of a virtio device, and the
/// device's acceptance policy for feature negotiation: the device clears
/// `FEATURES_OK` when the driver asked for a feature it does not offer.
pub struct VirtioCommonRegs {
    pub device_feature: u32,
    pub driver_feature: u32,
    pub msix_config: u16,
    pub num_queues: u16,
    pub device_status: u8,
    pub queue_select: u16,
    pub queues: Vec<QueueRegs>,
}

impl VirtioCommonRegs {
    pub open spec fn wf(&self) -> bool {
        &&& self.queues@.len() == self.num_queues
        &&& forall|q: int|
            0 <= q < self.queues@.len() ==> 0 < (#[trigger] self.queues@[q]).size <= 0x8000
                && 0x10000int % (self.queues@[q].size as int) == 0
    }

    /// Writes the device status byte. Writing zero resets the device's
    /// driver-visible state; a write with `FEATURES_OK` set keeps the bit
    /// only when every driver feature is offered by the device.
    pub fn write_status(&mut self, value: u8)
        ensures
            final(self).device_feature == old(self).device_feature,
            final(self).num_queues == old(self).num_queues,
            final(self).queues@ == old(self).queues@,
            final(self).queue_select == old(self).queue_select,
            final(self).msix_config == old(self).msix_config,
            final(self).driver_feature == (if value == 0 {
                0u32
            } else {
                old(self).driver_feature
            }),
            final(self).device_status == (if value == 0 {
                0u8
            } else if (value as int / VIRTIO_FEATURES_OK as int) % 2 == 1 && (old(
                self,
            ).driver_feature & !old(self).device_feature) != 0 {
                (value - VIRTIO_FEATURES_OK) as u8
            } else {
                value
            }),
    {
        if value == 0 {
            self.device_status = 0;
            self.driver_feature = 0;
        } else if (value / VIRTIO_FEATURES_OK) % 2 == 1 && (self.driver_feature
            & !self.device_feature) != 0 {
            self.device_status = value - VIRTIO_FEATURES_OK;
        } else {
            self.device_status = value;
        }
    }

    /// Reads the device status byte.
    pub fn read_status(&self) -> (r: u8)
        ensures
            r == self.device_status,
    {
        self.device_status
    }

    /// Writes the driver feature word.
    pub fn write_driver_feature(&mut self, value: u32)
        ensures
            *final(self) == (VirtioCommonRegs { driver_feature: value, ..*old(self) }),
    {
        self.driver_feature = value;
    }

    /// Reads the device feature word.
    pub fn read_device_feature(&self) -> (r: u32)
        ensures
            r == self.device_feature,
    {
        self.device_feature
    }

    /// Reads the queue count.
    pub fn read_num_queues(&self) -> (r: u16)
        ensures
            r == self.num_queues,
    {
        self.num_queues
    }

    /// Selects the queue the per-queue registers address.
    pub fn write_queue_select(&mut self, value: u16)
        ensures
            *final(self) == (VirtioCommonRegs { queue_select: value, ..*old(self) }),
    {
        self.queue_select = value;
    }

    /// Reads the selected queue's size; zero when the selector is out of
    /// range.
    pub fn read_queue_size(&self) -> (r: u16)
        requires
            self.wf(),
        ensures
            r == (if self.queue_select < self.num_queues {
                self.queues@[self.queue_select as int].size
            } else {
                0u16
            }),
    {
        if self.queue_select < self.num_queues {
            self.queues[self.queue_select as usize].size
        } else {
            0
        }
    }

    /// Reads the selected queue's notification offset; zero when the
    /// selector is out of range.
    pub fn read_queue_notify_off(&self) -> (r: u16)
        requires
            self.wf(),
        ensures
            r == (if self.queue_select < self.num_queues {
                self.queues@[self.queue_select as int].notify_off
            } else {
                0u16
            }),
    {
        if self.queue_select < self.num_queues {
            self.queues[self.queue_select as usize].notify_off
        } else {
            0
        }
    }

    /// Writes one of the selected queue's registers (`which` is the
    /// register's common-configuration offset); ignored when the selector
    /// is out of range or the register is read-only.
    pub fn write_queue_reg(&mut self, which: usize, value: u64)
        requires
            old(self).wf(),
        ensures
            final(self).wf(),
            final(self).device_feature == old(self).device_feature,
            final(self).driver_feature == old(self).driver_feature,
            final(self).device_status == old(self).device_status,
            final(self).num_queues == old(self).num_queues,
            final(self).queue_select == old(self).queue_select,
            final(self).msix_config == old(self).msix_config,
            old(self).queue_select >= old(self).num_queues ==> final(self).queues@ == old(
                self,
            ).queues@,
            old(self).queue_select < old(self).num_queues ==> {
                let q = old(self).queue_select as int;
                let qr = old(self).queues@[q];
                final(self).queues@ == old(self).queues@.update(
                    q,
                    if which == VIRTIO_QUEUE_MSIX_VECTOR {
                        QueueRegs { msix_vector: value as u16, ..qr }
                    } else if which == VIRTIO_QUEUE_ENABLE {
                        QueueRegs { enable: value as u16, ..qr }
                    } else if which == VIRTIO_QUEUE_DESC {
                        QueueRegs { desc: value as u64, ..qr }
                    } else if which == VIRTIO_QUEUE_AVAIL {
                        QueueRegs { avail: value as u64, ..qr }
                    } else if which == VIRTIO_QUEUE_USED {
                        QueueRegs { used: value as u64, ..qr }
                    } else {
                        qr
                    },
                )
            },
    {
        if self.queue_select >= self.num_queues {
            proof {
                assert(self.queues@ =~= old(self).queues@);
            }
            return ;
        }
        let q = self.queue_select as usize;
        let qr = self.queues[q];
        let nqr = if which == VIRTIO_QUEUE_MSIX_VECTOR {
            QueueRegs { msix_vector: value as u16, ..qr }
        } else if which == VIRTIO_QUEUE_ENABLE {
            QueueRegs { enable: value as u16, ..qr }
        } else if which == VIRTIO_QUEUE_DESC {
            QueueRegs { desc: value, ..qr }
        } else if which == VIRTIO_QUEUE_AVAIL {
            QueueRegs { avail: value, ..qr }
        } else if which == VIRTIO_QUEUE_USED {
            QueueRegs { used: value, ..qr }
        } else {
            qr
        };
        self.queues.set(q, nqr);
    }
}

/// The register windows of one virtio device: common configuration, the
/// device-configuration bytes (the MAC address for a network device), and
/// the notification window, which records every doorbell write.
pub struct VirtioBackend {
    pub common: VirtioCommonRegs,
    pub device_cfg: Vec<u8>,
    pub notify_log: Vec<(u64, u16)>,
}

impl VirtioBackend {
    pub open spec fn wf(&self) -> bool {
        &&& self.common.wf()
        &&& self.device_cfg@.len() >= 6
    }
}

/// A virtio vendor-specific PCI capability: where a register window lives.
#[derive(Debug, Clone, Copy, PartialEq, Eq, Structural)]
pub struct VirtioPCICap {
    pub offset: u8,
    pub bar_idx: u8,
}

impl VirtioPCICap {
    pub fn new(offset: u8, bar_idx: u8) -> (r: VirtioPCICap)
        ensures
            r == (VirtioPCICap { offset, bar_idx }),
    {
        VirtioPCICap { offset, bar_idx }
    }

    /// Remaps the window this capability describes into an I/O port, using
    /// the offset and length the capability encodes within its BAR.
    pub fn map(&self, pci_dev: &PCIDevice, host: &PciHost) -> (r: Option<IOPort>)
        requires
            host.wf(),
            pci_dev.bars_wf(),
            self.offset <= 0xf0,
            self.bar_idx < 6,
        ensures
            pci_dev.func.present(*host) ==> {
                let f = pci_dev.func.state_of(*host);
                let window_off = cfg32(f, self.offset as int + VIRTIO_PCI_CAP_OFFSET as int);
                let window_len = cfg32(f, self.offset as int + VIRTIO_PCI_CAP_LENGTH as int);
                match pci_dev.bars@[self.bar_idx as int] {
                    None => r is None,
                    Some(port) => {
                        &&& (r is Some <==> window_off + window_len <= port.size_spec()
                            && window_off <= usize::MAX)
                        &&& r matches Some(p) ==> p.wf() && p.base_spec() == port.base_spec()
                            + window_off && p.size_spec() == window_len && (p is Memory <==> port
                            is Memory)
                    },
                }
            },
            !pci_dev.func.present(*host) ==> r is None,
    {
        if pci_dev.func.find(host).is_none() {
            return None;
        }
        let window_off = pci_dev.func.read_config_u32(host, self.offset + VIRTIO_PCI_CAP_OFFSET);
        let window_len = pci_dev.func.read_config_u32(host, self.offset + VIRTIO_PCI_CAP_LENGTH);
        match pci_dev.bars[self.bar_idx as usize] {
            None => None,
            Some(port) => {
                if window_off as u64 > usize::MAX as u64 {
                    proof {
                        let f = pci_dev.func.state_of(*host);
                        let wo = cfg32(f, self.offset as int + VIRTIO_PCI_CAP_OFFSET as int);
                        assert(wo + cfg32(f, self.offset as int + VIRTIO_PCI_CAP_LENGTH as int)
                            > port.size_spec());
                    }
                    return None;
                }
                port.remap(window_off as usize, window_len)
            },
        }
    }
}

/// The first virtio vendor capability with configuration type `cfg_type`
/// and a BAR index below five, following the chain at most `fuel` links.
pub open spec fn virtio_cap_walk(
    f: crate::pci::PciFuncState,
    cfg_type: u8,
    off: int,
    fuel: nat,
) -> Option<VirtioPCICap>
    decreases fuel,
{
    if fuel == 0 || off == 0 || off >= 0xf0 {
        None
    } else if f.config@[off] == PCI_CAPABILITY_VENDOR && f.config@[off + VIRTIO_PCI_CAP_CFG_TYPE
        as int] == cfg_type && f.config@[off + VIRTIO_PCI_CAP_BAR as int] < 5 {
        Some(VirtioPCICap { offset: off as u8, bar_idx: f.config@[off + VIRTIO_PCI_CAP_BAR as int] })
    } else {
        virtio_cap_walk(f, cfg_type, f.config@[off + 1] as int, (fuel - 1) as nat)
    }
}

/// Where the virtio capability search for `cfg_type` lands on function `f`:
/// nothing without a capability list, else the walk from the capabilities
/// pointer.
pub open spec fn find_virtio_cap_spec(f: crate::pci::PciFuncState, cfg_type: u8) -> Option<
    VirtioPCICap,
> {
    if (f.config@[crate::pci::PCI_CFG_STATUS as int] / 16) % 2 == 0 {
        None
    } else {
        virtio_cap_walk(
            f,
            cfg_type,
            f.config@[crate::pci::PCI_CFG_CAPABILITIES_PTR as int] as int,
            CAP_WALK_FUEL as nat,
        )
    }
}

/// Placeholder ring addresses programmed into the queue address registers;
/// the rings' contents are modelled by the virtqueue values themselves.
pub open spec fn vq_ring_addr(q: int, which: int) -> u64 {
    (0x4000_0000 + q * 0x3000 + which * 0x1000) as u64
}

/// Looks for the virtio vendor capability with configuration type
/// `cfg_type` on the device's function.
pub fn find_virtio_capability(pci_dev: &PCIDevice, host: &PciHost, cfg_type: u8) -> (r: Option<
    VirtioPCICap,
>)
    requires
        host.wf(),
    ensures
        !pci_dev.func.present(*host) ==> r is None,
        pci_dev.func.present(*host) ==> r == find_virtio_cap_spec(
            pci_dev.func.state_of(*host),
            cfg_type,
        ),
        r matches Some(c) ==> c.bar_idx < 5 && 0 < c.offset < 0xf0,
{
    if pci_dev.func.find(host).is_none() {
        return None;
    }
    let status = pci_dev.func.read_config_u8(host, crate::pci::PCI_CFG_STATUS);
    if (status / 16) % 2 == 0 {
        return None;
    }
    let start = pci_dev.func.read_config_u8(host, crate::pci::PCI_CFG_CAPABILITIES_PTR);
    let mut off = start;
    let mut fuel: u16 = CAP_WALK_FUEL;
    while fuel > 0
        invariant
            host.wf(),
            pci_dev.func.present(*host),
            fuel <= CAP_WALK_FUEL,
            find_virtio_cap_spec(pci_dev.func.state_of(*host), cfg_type) == virtio_cap_walk(
                pci_dev.func.state_of(*host),
                cfg_type,
                off as int,
                fuel as nat,
            ),
        decreases fuel,
    {
        if off == 0 || off >= 0xf0 {
            return None;
        }
        let id = pci_dev.func.read_config_u8(host, off);
        let ty = pci_dev.func.read_config_u8(host, off + VIRTIO_PCI_CAP_CFG_TYPE);
        let bar_idx = pci_dev.func.read_config_u8(host, off + VIRTIO_PCI_CAP_BAR);
        if id == PCI_CAPABILITY_VENDOR && ty == cfg_type && bar_idx < 5 {
            return Some(VirtioPCICap::new(off, bar_idx));
        }
        let next = pci_dev.func.read_config_u8(host, off + 1);
        off = next;
        fuel = fuel - 1;
    }
    None
}

/// A virtio network device bound to its PCI function.
pub struct VirtioNetDevice {
    pub pci_dev: PCIDevice,
    /// The notification window as an I/O port.
    pub notify_cfg_ioport: IOPort,
    /// Byte distance between consecutive queues' doorbells.
    pub notify_off_multiplier: u32,
    /// The device's virtqueues (receive first, then transmit).
    pub vqs: Vec<Virtqueue>,
    /// Where received-packet events are delivered.
    pub notifier: EventNotifier,
    /// Physical page receiving inbound packets.
    pub rx_page: u64,
    pub rx_page_size: usize,
    /// Physical bounce page for outbound packets.
    pub tx_page: u64,
    pub tx_page_size: usize,
    /// Model of the transmit bounce page's contents.
    pub tx_buf: Vec<u8>,
    /// The device's MAC address, when it offers one.
    pub mac_addr: Option<Vec<u8>>,
    /// User virtual address the receive page is mapped at.
    pub rx_buffer_addr: Option<usize>,
    /// The submission queue shared with the process that acquired the
    /// device.
    pub io_queue: Option<IOQueue>,
}

impl VirtioNetDevice {
    pub open spec fn wf(&self) -> bool {
        &&& self.vqs@.len() >= 2
        &&& forall|q: int| 0 <= q < self.vqs@.len() ==> (#[trigger] self.vqs@[q]).wf()
        &&& self.rx_page_size == PAGE_SIZE_SMALL
        &&& self.tx_page_size == PAGE_SIZE_SMALL
        &&& (self.io_queue matches Some(q) ==> q.wf())
        &&& (self.mac_addr matches Some(m) ==> m@.len() == 6)
    }

    /// Drives the virtio initialisation sequence against the device's
    /// register windows: reset, acknowledge, driver, feature negotiation,
    /// queue setup (posting one inbound buffer and an interrupt vector on
    /// the receive queue), then driver-ready; finally reads the MAC address
    /// when the device offers one. Returns `None` when a required register
    /// window is missing or unmappable, or memory for the packet pages runs
    /// out.
    #[verifier::rlimit(100)]
    #[verifier::spinoff_prover]
    pub fn probe(
        pci_dev: PCIDevice,
        host: &mut PciHost,
        backend: &mut VirtioBackend,
        pool: &mut MemoryPool,
        irq_vector: u8,
    ) -> (r: Option<VirtioNetDevice>)
        requires
            old(host).wf(),
            old(backend).wf(),
            old(pool).wf(),
            pci_dev.bars_wf(),
            pci_dev.func.present(*old(host)),
            // the device offers the one feature the driver negotiates
            old(backend).common.device_feature & VIRTIO_NET_F_MAC == VIRTIO_NET_F_MAC,
            2 <= old(backend).common.num_queues <= 64,
        ensures
            final(host).wf(),
            final(backend).wf(),
            final(pool).wf(),
            r matches Some(dev) ==> {
                let qs0 = old(backend).common.queues@;
                &&& dev.wf()
                &&& final(backend).common.device_status == (VIRTIO_ACKNOWLEDGE + VIRTIO_DRIVER
                    + VIRTIO_FEATURES_OK + VIRTIO_DRIVER_OK)
                &&& final(backend).common.driver_feature == VIRTIO_NET_F_MAC
                &&& final(backend).common.num_queues == old(backend).common.num_queues
                &&& dev.vqs@.len() == old(backend).common.num_queues
                &&& (forall|q: int|
                    0 <= q < dev.vqs@.len() ==> {
                        let vq = #[trigger] dev.vqs@[q];
                        &&& vq.queue_idx == q
                        &&& vq.queue_size == qs0[q].size
                        &&& vq.notify_off == qs0[q].notify_off
                    })
                &&& (forall|q: int|
                    0 <= q < final(backend).common.queues@.len()
                        ==> (#[trigger] final(backend).common.queues@[q]).enable == 1)
                // the receive queue holds one posted inbound buffer
                &&& dev.vqs@[0].avail.idx == 1
                &&& dev.vqs@[0].avail.ring@[0] == 0
                &&& dev.vqs@[0].desc@[0] == (crate::virtqueue::VirtqDesc {
                    addr: dev.rx_page,
                    len: dev.rx_page_size as u32,
                    flags: crate::virtqueue::VIRTQ_DESC_F_WRITE,
                    next: 0,
                })
                &&& dev.rx_buffer_addr is None
                &&& dev.io_queue is None
                &&& dev.notifier.listeners_spec().len() == 0
                &&& dev.notify_off_multiplier == cfg32(
                    pci_dev.func.state_of(*old(host)),
                    find_virtio_cap_spec(
                        pci_dev.func.state_of(*old(host)),
                        VIRTIO_PCI_CAP_NOTIFY_CFG,
                    )->Some_0.offset as int + VIRTIO_NOTIFY_OFF_MULTIPLIER as int,
                )
                &&& (dev.mac_addr matches Some(m) ==> m@.len() == 6 && (forall|i: int|
                    0 <= i < 6 ==> m@[i] == old(backend).device_cfg@[i]))
                &&& final(pool).total() == old(pool).total() - 2 * PAGE_SIZE_SMALL
            },
            r is None ==> final(pool).total() == old(pool).total(),
            // success is owed when both required windows exist and map, and
            // two small pages are on hand
            ({
                let f = pci_dev.func.state_of(*old(host));
                match (
                    find_virtio_cap_spec(f, VIRTIO_PCI_CAP_NOTIFY_CFG),
                    find_virtio_cap_spec(f, VIRTIO_PCI_CAP_COMMON_CFG),
                ) {
                    (Some(nc), Some(cc)) => (cap_map_ok(&pci_dev, f, nc) && nc.offset <= 0xe0
                        && cap_map_ok(&pci_dev, f, cc) && old(pool).small@.len() > 0 && old(
                        pool,
                    ).small@[0].size >= 2 * PAGE_SIZE_SMALL) ==> r is Some,
                    _ => true,
                }
            }),
    {
        let ghost f0 = pci_dev.func.state_of(*old(host));
        let mut pci_dev = pci_dev;
        // Locate the register windows before anything writes configuration
        // space.
        let notify_cfg_cap = match find_virtio_capability(&pci_dev, host, VIRTIO_PCI_CAP_NOTIFY_CFG) {
            None => {
                return None;
            },
            Some(c) => c,
        };
        if notify_cfg_cap.offset > 0xe0 {
            return None;
        }
        let notify_off_multiplier = pci_dev.func.read_config_u32(
            host,
            notify_cfg_cap.offset + VIRTIO_NOTIFY_OFF_MULTIPLIER,
        );
        let notify_cfg_ioport = match notify_cfg_cap.map(&pci_dev, host) {
            None => {
                return None;
            },
            Some(p) => p,
        };
        let common_cfg_cap = match find_virtio_capability(&pci_dev, host, VIRTIO_PCI_CAP_COMMON_CFG) {
            None => {
                return None;
            },
            Some(c) => c,
        };
        // The common-configuration window maps; its registers are the
        // device model's common register file.
        let _common_ioport = match common_cfg_cap.map(&pci_dev, host) {
            None => {
                return None;
            },
            Some(p) => p,
        };
        // Take the bus and the interrupt machinery.
        pci_dev.set_bus_master(host, true);
        pci_dev.enable_msix(host);
        // Virtio initialisation: reset, acknowledge, driver.
        let mut status: u8 = 0;
        backend.common.write_status(status);
        status = status + VIRTIO_ACKNOWLEDGE;
        backend.common.write_status(status);
        status = status + VIRTIO_DRIVER;
        backend.common.write_status(status);
        // Negotiate the feature set.
        backend.common.write_driver_feature(VIRTIO_NET_F_MAC);
        status = status + VIRTIO_FEATURES_OK;
        backend.common.write_status(status);
        proof {
            let df = old(backend).common.device_feature;
            assert(VIRTIO_NET_F_MAC & !df == 0) by (bit_vector)
                requires
                    df & VIRTIO_NET_F_MAC == VIRTIO_NET_F_MAC,
            ;
        }
        if backend.common.read_status() / VIRTIO_FEATURES_OK % 2 != 1 {
            return None;
        }
        // Packet pages for the receive buffer and the transmit bounce page.
        let rx_page = match pool.page_alloc_small() {
            None => {
                return None;
            },
            Some(p) => p,
        };
        proof {
            assert(old(pool).small.covers(rx_page + PAGE_SIZE_SMALL - 1));
            crate::memory::lemma_covered_bounded(old(pool).small@, rx_page + PAGE_SIZE_SMALL - 1);
        }
        let tx_page = match pool.page_alloc_small() {
            None => {
                proof {
                    assert forall|a: int|
                        rx_page <= a < rx_page + PAGE_SIZE_SMALL implies !pool.covers(a) by {
                        assert(old(pool).small.covers(a));
                        assert(!old(pool).large.covers(a));
                        assert(!pool.small.covers(a));
                        assert(pool.large == old(pool).large);
                    }
                }
                pool.page_free_small(rx_page);
                return None;
            },
            Some(p) => p,
        };
        // Device-specific setup: configure every queue.
        let num_queues = backend.common.read_num_queues();
        let mut vqs: Vec<Virtqueue> = Vec::new();
        let mut queue: u16 = 0;
        let ghost qs0 = old(backend).common.queues@;
        while queue < num_queues
            invariant
                old(backend).common.wf(),
                num_queues == old(backend).common.num_queues,
                2 <= num_queues <= 64,
                qs0 == old(backend).common.queues@,
                queue <= num_queues,
                vqs@.len() == queue,
                backend.common.num_queues == num_queues,
                backend.common.queues@.len() == num_queues,
                backend.common.device_status == 1 + 2 + 8,
                backend.common.driver_feature == VIRTIO_NET_F_MAC,
                backend.common.device_feature == old(backend).common.device_feature,
                backend.device_cfg@ == old(backend).device_cfg@,
                pci_dev.bars_wf(),
                rx_page + PAGE_SIZE_SMALL <= u64::MAX,
                forall|q: int|
                    queue <= q < num_queues ==> (#[trigger] backend.common.queues@[q]) == qs0[q],
                forall|q: int|
                    0 <= q < queue ==> (#[trigger] backend.common.queues@[q]).enable == 1
                        && backend.common.queues@[q].size == qs0[q].size
                        && backend.common.queues@[q].notify_off == qs0[q].notify_off,
                forall|q: int|
                    0 <= q < queue ==> {
                        let vq = #[trigger] vqs@[q];
                        &&& vq.wf()
                        &&& vq.queue_idx == q
                        &&& vq.queue_size == qs0[q].size
                        &&& vq.notify_off == qs0[q].notify_off
                    },
                queue > 0 ==> vqs@[0].avail.idx == 1 && vqs@[0].avail.ring@[0] == 0
                    && vqs@[0].desc@[0] == (crate::virtqueue::VirtqDesc {
                    addr: rx_page,
                    len: PAGE_SIZE_SMALL as u32,
                    flags: crate::virtqueue::VIRTQ_DESC_F_WRITE,
                    next: 0,
                }),
            decreases num_queues - queue,
        {
            backend.common.write_queue_select(queue);
            let size = backend.common.read_queue_size();
            let notify_off = backend.common.read_queue_notify_off();
            let mut vq = Virtqueue::new(queue, size, notify_off);
            backend.common.write_queue_reg(VIRTIO_QUEUE_DESC, vq_ring_addrs(queue as usize, 0));
            backend.common.write_queue_reg(VIRTIO_QUEUE_AVAIL, vq_ring_addrs(queue as usize, 1));
            backend.common.write_queue_reg(VIRTIO_QUEUE_USED, vq_ring_addrs(queue as usize, 2));
            if queue == VIRTIO_RX_QUEUE_IDX {
                let posted = vq.add_inbuf(rx_page, PAGE_SIZE_SMALL as u32);
                proof {
                    assert(posted is Some);
                }
                if pci_dev.msix_entries.len() > 0 {
                    let _vector = pci_dev.register_irq(queue, irq_vector);
                    pci_dev.enable_irq(queue);
                }
                backend.common.write_queue_reg(VIRTIO_QUEUE_MSIX_VECTOR, queue as u64);
            }
            backend.common.write_queue_reg(VIRTIO_QUEUE_ENABLE, 1);
            vqs.push(vq);
            queue += 1;
        }
        // Driver ready.
        status = status + VIRTIO_DRIVER_OK;
        backend.common.write_status(status);
        // Read the MAC address when the device offers one.
        let dev_features = backend.common.read_device_feature();
        let mac_addr = if (dev_features / VIRTIO_NET_F_MAC) % 2 == 1 {
            match find_virtio_capability(&pci_dev, host, VIRTIO_PCI_CAP_DEVICE_CFG) {
                Some(dev_cfg_cap) => {
                    match dev_cfg_cap.map(&pci_dev, host) {
                        Some(_dev_cfg_ioport) => {
                            let mut mac: Vec<u8> = Vec::new();
                            let mut i: usize = 0;
                            while i < 6
                                invariant
                                    i <= 6,
                                    mac@.len() == i,
                                    backend.device_cfg@.len() >= 6,
                                    backend.device_cfg@ == old(backend).device_cfg@,
                                    forall|k: int|
                                        0 <= k < i ==> (#[trigger] mac@[k]) == backend.device_cfg@[
                                        k],
                                decreases 6 - i,
                            {
                                mac.push(backend.device_cfg[i]);
                                i += 1;
                            }
                            Some(mac)
                        },
                        None => None,
                    }
                },
                None => None,
            }
        } else {
            None
        };
        Some(
            VirtioNetDevice {
                pci_dev,
                notify_cfg_ioport,
                notify_off_multiplier,
                vqs,
                notifier: EventNotifier::new("/dev/eth"),
                rx_page,
                rx_page_size: PAGE_SIZE_SMALL as usize,
                tx_page,
                tx_page_size: PAGE_SIZE_SMALL as usize,
                tx_buf: Vec::new(),
                mac_addr,
                rx_buffer_addr: None,
                io_queue: None,
            },
        )
    }
}

/// The event a consumed receive buffer of `used_len` bytes turns into, for
/// a process that sees the receive page at `rx_addr`: the payload follows
/// the virtio network header.
pub open spec fn rx_event(rx_addr: int, used_len: int) -> Event {
    Event::PacketIO {
        addr: (rx_addr + VIRTIO_NET_HDR_SIZE) as usize,
        len: (if used_len >= VIRTIO_NET_HDR_SIZE {
            used_len - VIRTIO_NET_HDR_SIZE
        } else {
            0
        }) as usize,
    }
}

impl VirtioNetDevice {
    /// Handles a receive interrupt: walks the used ring from the last seen
    /// entry up to the device's index, reclaims each descriptor, and
    /// returns one packet event per consumed buffer (none when no process
    /// has mapped the receive buffer yet). Afterwards everything the device
    /// returned has been seen.
    pub fn recv(&mut self) -> (events: Vec<Event>)
        requires
            old(self).wf(),
            old(self).rx_buffer_addr matches Some(a) ==> a + VIRTIO_NET_HDR_SIZE <= usize::MAX,
        ensures
            final(self).wf(),
            final(self).vqs@.len() == old(self).vqs@.len(),
            final(self).notifier.listeners_spec() == old(self).notifier.listeners_spec(),
            final(self).vqs@[0].unseen_used() == 0,
            final(self).vqs@[0].used.idx == old(self).vqs@[0].used.idx,
            final(self).vqs@[0].used.ring@ == old(self).vqs@[0].used.ring@,
            final(self).vqs@[0].queue_size == old(self).vqs@[0].queue_size,
            final(self).rx_buffer_addr == old(self).rx_buffer_addr,
            final(self).io_queue == old(self).io_queue,
            forall|q: int|
                1 <= q < old(self).vqs@.len() ==> final(self).vqs@[q] == old(self).vqs@[q],
            match old(self).rx_buffer_addr {
                None => events@.len() == 0,
                Some(rx_addr) => {
                    let vq = old(self).vqs@[0];
                    &&& events@.len() == vq.unseen_used()
                    &&& forall|k: int|
                        0 <= k < events@.len() ==> (#[trigger] events@[k]) == rx_event(
                            rx_addr as int,
                            vq.used.ring@[(vq.last_seen_used + k) % (vq.queue_size as int)].len
                                as int,
                        )
                },
            },
    {
        let mut events: Vec<Event> = Vec::new();
        let rx_buffer_addr = self.rx_buffer_addr;
        let mut vq = self.vqs.remove(0);
        let ghost vq0 = vq;
        let last_used_idx = vq.last_used_idx();
        let ghost total = vq0.unseen_used();
        let mut steps: usize = 0;
        while vq.last_seen_used() != last_used_idx
            invariant
                vq.wf(),
                vq.used.idx == vq0.used.idx,
                vq.used.ring@ == vq0.used.ring@,
                vq.queue_size == vq0.queue_size,
                vq.queue_idx == vq0.queue_idx,
                vq.notify_off == vq0.notify_off,
                vq.avail.idx == vq0.avail.idx,
                vq.avail.ring@ == vq0.avail.ring@,
                vq.desc@ == vq0.desc@,
                last_used_idx == vq0.used.idx,
                total == vq0.unseen_used(),
                steps == total - vq.unseen_used(),
                wrap16_sub(vq.last_seen_used, vq0.last_seen_used) == steps,
                rx_buffer_addr == old(self).rx_buffer_addr,
                rx_buffer_addr matches Some(a) ==> a + VIRTIO_NET_HDR_SIZE <= usize::MAX,
                events@.len() == (if rx_buffer_addr is Some {
                    steps as int
                } else {
                    0
                }),
                rx_buffer_addr matches Some(rx_addr) ==> forall|k: int|
                    0 <= k < events@.len() ==> (#[trigger] events@[k]) == rx_event(
                        rx_addr as int,
                        vq0.used.ring@[(vq0.last_seen_used + k) % (vq0.queue_size as int)].len
                            as int,
                    ),
            decreases vq.unseen_used(),
        {
            let ring_pos = vq.last_seen_used() % vq.queue_size;
            proof {
                let n = vq.queue_size as int;
                let m = 0x10000int / n;
                vstd::arithmetic::div_mod::lemma_fundamental_div_mod(0x10000, n);
                assert(n * m == 0x10000);
                assert(vq.last_seen_used as int == (vq0.last_seen_used + steps) % 0x10000);
                vstd::arithmetic::div_mod::lemma_mod_mod(vq0.last_seen_used + steps as int, n, m);
                assert(ring_pos as int == (vq0.last_seen_used + steps as int) % n);
            }
            let (_buf_addr, buf_len) = vq.get_used_buf(ring_pos);
            let desc_id = vq.used.ring[ring_pos as usize].id as u16;
            proof {
                assert(vq.unseen_used() > 0);
            }
            vq.advance_last_seen_used();
            vq.release_desc(desc_id);
            match rx_buffer_addr {
                Some(rx_addr) => {
                    let packet_len = if buf_len as usize >= VIRTIO_NET_HDR_SIZE {
                        buf_len as usize - VIRTIO_NET_HDR_SIZE
                    } else {
                        0
                    };
                    events.push(
                        Event::PacketIO { addr: rx_addr + VIRTIO_NET_HDR_SIZE, len: packet_len },
                    );
                },
                None => {},
            }
            steps += 1;
        }
        self.vqs.insert(0, vq);
        proof {
            assert(self.vqs@ =~= old(self).vqs@.update(0, self.vqs@[0]));
        }
        events
    }

    /// Kicks the device for `queue`: writes the queue's index to its
    /// doorbell in the notification window, at the queue's notify offset
    /// scaled by the device's multiplier.
    pub fn notify(&self, backend: &mut VirtioBackend, queue_idx: u16, notify_off: u16)
        ensures
            final(backend).common == old(backend).common,
            final(backend).device_cfg@ == old(backend).device_cfg@,
            final(backend).notify_log@ == old(backend).notify_log@.push(
                ((self.notify_off_multiplier * notify_off) as u64, queue_idx),
            ),
    {
        proof {
            assert((self.notify_off_multiplier as int) * (notify_off as int) <= 0xffff_ffff
                * 0xffff) by (nonlinear_arith)
                requires
                    self.notify_off_multiplier <= 0xffff_ffff,
                    notify_off <= 0xffff,
            ;
        }
        let doorbell = (self.notify_off_multiplier as u64) * (notify_off as u64);
        backend.notify_log.push((doorbell, queue_idx));
    }

    /// Performs one I/O command. `Submit` copies the user payload behind a
    /// zeroed virtio network header into the transmit bounce page, posts it
    /// outbound and kicks the transmit queue. `Complete` reposts the
    /// receive buffer and kicks the receive queue.
    pub fn process_io_one(&mut self, backend: &mut VirtioBackend, cmd: IOCmd, payload: &Vec<u8>)
        requires
            old(self).wf(),
            cmd.opcode is Submit ==> payload@.len() == cmd.len && cmd.len + VIRTIO_NET_HDR_SIZE
                <= old(self).tx_page_size,
            cmd.opcode is Submit ==> old(self).vqs@[1].free_desc_spec().len() > 0,
            cmd.opcode is Complete ==> old(self).vqs@[0].free_desc_spec().len() > 0,
        ensures
            final(self).wf(),
            final(self).vqs@.len() == old(self).vqs@.len(),
            final(self).rx_buffer_addr == old(self).rx_buffer_addr,
            final(self).io_queue == old(self).io_queue,
            final(self).notifier.listeners_spec() == old(self).notifier.listeners_spec(),
            final(self).rx_page == old(self).rx_page,
            final(self).rx_page_size == old(self).rx_page_size,
            final(self).tx_page_size == old(self).tx_page_size,
            final(self).notify_off_multiplier == old(self).notify_off_multiplier,
            final(self).mac_addr == old(self).mac_addr,
            final(backend).common == old(backend).common,
            final(backend).device_cfg@ == old(backend).device_cfg@,
            cmd.opcode is Submit ==> {
                let tx0 = old(self).vqs@[1];
                let i = tx0.free_desc_spec().last();
                &&& final(self).tx_buf@.len() == VIRTIO_NET_HDR_SIZE + cmd.len
                &&& (forall|k: int|
                    0 <= k < VIRTIO_NET_HDR_SIZE ==> (#[trigger] final(self).tx_buf@[k]) == 0u8)
                &&& (forall|k: int|
                    0 <= k < cmd.len ==> (#[trigger] final(self).tx_buf@[
                    VIRTIO_NET_HDR_SIZE + k]) == payload@[k])
                &&& final(self).vqs@[1].desc@ == tx0.desc@.update(
                    i as int,
                    crate::virtqueue::VirtqDesc {
                        addr: old(self).tx_page,
                        len: (VIRTIO_NET_HDR_SIZE + cmd.len) as u32,
                        flags: 0,
                        next: 0,
                    },
                )
                &&& final(self).vqs@[1].avail.idx == wrap16_inc(tx0.avail.idx)
                &&& final(self).vqs@[1].free_desc_spec() == tx0.free_desc_spec().drop_last()
                &&& final(self).vqs@[1].queue_idx == tx0.queue_idx
                &&& final(self).vqs@[1].notify_off == tx0.notify_off
                &&& final(self).vqs@[1].queue_size == tx0.queue_size
                &&& final(self).vqs@[0] == old(self).vqs@[0]
                &&& final(backend).notify_log@ == old(backend).notify_log@.push(
                    ((old(self).notify_off_multiplier * tx0.notify_off) as u64, tx0.queue_idx),
                )
            },
            cmd.opcode is Complete ==> {
                let rx0 = old(self).vqs@[0];
                let i = rx0.free_desc_spec().last();
                &&& final(self).vqs@[0].desc@ == rx0.desc@.update(
                    i as int,
                    crate::virtqueue::VirtqDesc {
                        addr: old(self).rx_page,
                        len: old(self).rx_page_size as u32,
                        flags: crate::virtqueue::VIRTQ_DESC_F_WRITE,
                        next: 0,
                    },
                )
                &&& final(self).vqs@[0].avail.idx == wrap16_inc(rx0.avail.idx)
                &&& final(self).vqs@[1] == old(self).vqs@[1]
                &&& final(self).tx_buf@ == old(self).tx_buf@
                &&& final(backend).notify_log@ == old(backend).notify_log@.push(
                    ((old(self).notify_off_multiplier * rx0.notify_off) as u64, rx0.queue_idx),
                )
            },
    {
        match cmd.opcode {
            Opcode::Submit => {
                // A zeroed virtio network header, then the payload, goes to
                // the bounce page.
                let mut buf = crate::vm::zero_bytes(VIRTIO_NET_HDR_SIZE);
                let mut k: usize = 0;
                let n = payload.len();
                while k < n
                    invariant
                        k <= n,
                        n == payload@.len(),
                        buf@.len() == VIRTIO_NET_HDR_SIZE + k,
                        forall|j: int|
                            0 <= j < VIRTIO_NET_HDR_SIZE ==> (#[trigger] buf@[j]) == 0u8,
                        forall|j: int|
                            0 <= j < k ==> (#[trigger] buf@[VIRTIO_NET_HDR_SIZE + j])
                                == payload@[j],
                    decreases n - k,
                {
                    buf.push(payload[k]);
                    k += 1;
                }
                self.tx_buf = buf;
                let tx_page = self.tx_page;
                let len = (VIRTIO_NET_HDR_SIZE + cmd.len) as u32;
                let mut vq = self.vqs.remove(1);
                let posted = vq.add_outbuf(tx_page, len);
                proof {
                    assert(posted is Some);
                }
                let notify_off = vq.notify_off;
                let queue_idx = vq.queue_idx;
                self.vqs.insert(1, vq);
                proof {
                    assert(self.vqs@ =~= old(self).vqs@.update(1, self.vqs@[1]));
                }
                self.notify(backend, queue_idx, notify_off);
            },
            Opcode::Complete => {
                let rx_page = self.rx_page;
                let rx_len = self.rx_page_size as u32;
                let mut vq = self.vqs.remove(0);
                let posted = vq.add_inbuf(rx_page, rx_len);
                proof {
                    assert(posted is Some);
                }
                let notify_off = vq.notify_off;
                let queue_idx = vq.queue_idx;
                self.vqs.insert(0, vq);
                proof {
                    assert(self.vqs@ =~= old(self).vqs@.update(0, self.vqs@[0]));
                }
                self.notify(backend, queue_idx, notify_off);
            },
        }
    }

    /// Device configuration for user space: the MAC address bytes, or the
    /// user-visible address of the submission queue as eight little-endian
    /// bytes; nothing for an unknown option.
    pub fn get_config(&self, opt: i32) -> (r: Option<Vec<u8>>)
        requires
            self.wf(),
        ensures
            r is Some <==> get_config_defined(self, opt),
            opt == crate::device::CONFIG_ETHERNET_MAC_ADDRESS ==> match self.mac_addr {
                Some(m) => r matches Some(v) && v@ == m@,
                None => r is None,
            },
            opt == crate::device::CONFIG_IO_QUEUE ==> match self.io_queue {
                Some(q) => r matches Some(v) && v@.len() == 8 && (forall|k: int|
                    0 <= k < 8 ==> (#[trigger] v@[k]) == le_byte_of(
                        q.ring_buffer.base_addr_spec(),
                        k,
                    )),
                None => r is None,
            },
            opt != crate::device::CONFIG_ETHERNET_MAC_ADDRESS && opt
                != crate::device::CONFIG_IO_QUEUE ==> r is None,
    {
        if opt == crate::device::CONFIG_ETHERNET_MAC_ADDRESS {
            match self.mac_addr {
                Some(ref m) => {
                    let mut v: Vec<u8> = Vec::new();
                    let mut k: usize = 0;
                    let n = m.len();
                    while k < n
                        invariant
                            k <= n,
                            n == m@.len(),
                            v@.len() == k,
                            forall|j: int| 0 <= j < k ==> (#[trigger] v@[j]) == m@[j],
                        decreases n - k,
                    {
                        v.push(m[k]);
                        k += 1;
                    }
                    proof {
                        assert(v@ =~= m@);
                    }
                    Some(v)
                },
                None => None,
            }
        } else if opt == crate::device::CONFIG_IO_QUEUE {
            match self.io_queue {
                Some(ref q) => {
                    let addr = q.ring_buffer.ring_addr();
                    let mut v: Vec<u8> = Vec::new();
                    let mut rest = addr as u64;
                    let mut k: usize = 0;
                    while k < 8
                        invariant
                            k <= 8,
                            v@.len() == k,
                            rest as int == (addr as int) / pow256(k as int),
                            forall|j: int|
                                0 <= j < k ==> (#[trigger] v@[j]) == le_byte_of(addr as int, j),
                        decreases 8 - k,
                    {
                        proof {
                            lemma_le_byte_step(addr as int, k as int);
                        }
                        v.push((rest % 0x100) as u8);
                        rest = rest / 0x100;
                        k += 1;
                    }
                    Some(v)
                },
                None => None,
            }
        } else {
            None
        }
    }

    /// Attaches the calling process to the device: registers it as an event
    /// listener, maps the receive page read-only into its address space,
    /// and allocates, populates and wraps the submission-queue page.
    pub fn acquire(
        &mut self,
        vmspace: &mut VMAddressSpace,
        pool: &mut MemoryPool,
        listener: usize,
    ) -> (r: Result<(), Error>)
        requires
            old(self).wf(),
            old(vmspace).wf(),
            old(pool).wf(),
        ensures
            final(self).wf(),
            final(vmspace).wf(),
            final(pool).wf(),
            final(self).vqs@ == old(self).vqs@,
            final(self).tx_buf@ == old(self).tx_buf@,
            final(self).notifier.listeners_spec() == old(self).notifier.listeners_spec().push(
                listener,
            ),
            r is Ok ==> {
                &&& final(self).rx_buffer_addr is Some
                &&& (final(self).io_queue matches Some(q) && q.wf() && q.view_spec().len() == 0)
            },
            r matches Err(e) ==> e.0 == crate::errno::ENOMEM || e.0 == crate::errno::EINVAL,
            // success is owed when the address space sits comfortably below
            // the allocator ceiling and the arena has a page for the
            // submission queue
            (crate::vm::vm_watermark(old(vmspace).regions_spec()) + 4 * PAGE_SIZE_SMALL
                <= VM_ALLOC_CEILING && crate::vm::pool_can_serve_page(
                *old(pool),
                PAGE_SIZE_SMALL as int,
            )) ==> r is Ok,
    {
        let ghost w0 = crate::vm::vm_watermark(old(vmspace).regions_spec());
        proof {
            crate::vm::lemma_watermark_bounds(old(vmspace).regions_spec());
        }
        self.notifier.add_listener(listener);
        let rx_page = self.rx_page;
        let rx_size = self.rx_page_size;
        let rx_buf_start = match map_shared_rx(vmspace, rx_page, rx_size) {
            Err(e) => {
                return Err(e);
            },
            Ok(a) => a,
        };
        self.rx_buffer_addr = Some(rx_buf_start);
        proof {
            // The mapped receive region keeps the watermark within one
            // aligned page, so the submission-queue page still fits.
            if w0 + 4 * PAGE_SIZE_SMALL <= VM_ALLOC_CEILING {
                assert forall|i: int|
                    0 <= i < vmspace.regions_spec().len() implies crate::vm::align_up_spec(
                    (#[trigger] vmspace.regions_spec()[i]).end as int,
                    PAGE_SIZE_SMALL as int,
                ) <= w0 + 2 * PAGE_SIZE_SMALL by {
                    assert(vmspace.regions_spec()[i].end <= w0 + PAGE_SIZE_SMALL);
                }
                crate::vm::lemma_watermark_le(
                    vmspace.regions_spec(),
                    w0 + 2 * PAGE_SIZE_SMALL,
                );
            }
        }
        let io_buf_size = PAGE_SIZE_SMALL as usize;
        let io_buf_start = match alloc_io_page(vmspace, pool) {
            Err(e) => {
                return Err(e);
            },
            Ok(a) => a,
        };
        let io_queue = IOQueue::new(io_buf_start, io_buf_size);
        self.io_queue = Some(io_queue);
        Ok(())
    }
}

/// Maps the device's receive page read-only into a fresh region of the
/// process's address space and returns the region's start.
fn map_shared_rx(vmspace: &mut VMAddressSpace, rx_page: u64, rx_size: usize) -> (r: Result<
    usize,
    Error,
>)
    requires
        old(vmspace).wf(),
        rx_size == PAGE_SIZE_SMALL,
    ensures
        final(vmspace).wf(),
        r matches Err(e) ==> e.0 == crate::errno::ENOMEM || e.0 == crate::errno::EINVAL,
        r matches Ok(a) ==> VM_ALLOC_BASE <= a && a + rx_size <= VM_ALLOC_CEILING,
        // every region still ends near the old watermark, so later gap
        // requests stay satisfiable
        r is Ok ==> (forall|i: int|
            0 <= i < final(vmspace).regions_spec().len()
                ==> (#[trigger] final(vmspace).regions_spec()[i]).end <= crate::vm::vm_watermark(
                old(vmspace).regions_spec(),
            ) + PAGE_SIZE_SMALL),
        // success is owed below the allocator ceiling
        crate::vm::vm_watermark(old(vmspace).regions_spec()) + 2 * PAGE_SIZE_SMALL
            <= VM_ALLOC_CEILING ==> r is Ok,
{
    proof {
        crate::vm::lemma_watermark_bounds(old(vmspace).regions_spec());
    }
    let ghost w0 = crate::vm::vm_watermark(vmspace.regions_spec());
    let (rx_buf_start, rx_buf_end) = match vmspace.allocate(rx_size, VMProt::prot_read()) {
        Err(e) => {
            return Err(e);
        },
        Ok(se) => se,
    };
    proof {
        assert(crate::vm::vm_has_region(
            vmspace.regions_spec(),
            rx_buf_start as int,
            rx_buf_end as int,
        ));
        assert forall|i: int|
            0 <= i < vmspace.regions_spec().len() implies (#[trigger] vmspace.regions_spec()[
        i]).end <= w0 + PAGE_SIZE_SMALL by {
            let ns = vmspace.regions_spec();
            let idx = choose|idx: int|
                0 <= idx <= old(vmspace).regions_spec().len() && ns == old(
                    vmspace,
                ).regions_spec().insert(idx, #[trigger] ns[idx]) && ns[idx].start == rx_buf_start
                    && ns[idx].end == rx_buf_end;
            if i != idx {
                let oi = if i < idx {
                    i
                } else {
                    i - 1
                };
                assert(ns[i] == old(vmspace).regions_spec()[oi]);
                assert(old(vmspace).regions_spec()[oi].end <= crate::vm::align_up_spec(
                    old(vmspace).regions_spec()[oi].end as int,
                    PAGE_SIZE_SMALL as int,
                ));
            }
        }
    }
    match vmspace.map(rx_buf_start, rx_buf_end, rx_page) {
        Err(e) => Err(e),
        Ok(_) => Ok(rx_buf_start),
    }
}

/// Allocates and populates one fresh read-write page of the process's
/// address space for the submission queue, returning its start.
fn alloc_io_page(vmspace: &mut VMAddressSpace, pool: &mut MemoryPool) -> (r: Result<usize, Error>)
    requires
        old(vmspace).wf(),
        old(pool).wf(),
    ensures
        final(vmspace).wf(),
        final(pool).wf(),
        r matches Err(e) ==> e.0 == crate::errno::ENOMEM || e.0 == crate::errno::EINVAL,
        r matches Ok(a) ==> VM_ALLOC_BASE <= a && a + PAGE_SIZE_SMALL <= VM_ALLOC_CEILING,
        // success is owed below the ceiling when the arena has a page
        (crate::vm::vm_watermark(old(vmspace).regions_spec()) + 2 * PAGE_SIZE_SMALL
            <= VM_ALLOC_CEILING && crate::vm::pool_can_serve_page(
            *old(pool),
            PAGE_SIZE_SMALL as int,
        )) ==> r is Ok,
{
    proof {
        crate::vm::lemma_watermark_bounds(old(vmspace).regions_spec());
    }
    let (io_buf_start, io_buf_end) = match vmspace.allocate(
        PAGE_SIZE_SMALL as usize,
        VMProt::prot_rw(),
    ) {
        Err(e) => {
            return Err(e);
        },
        Ok(se) => se,
    };
    match vmspace.populate(io_buf_start, io_buf_end, pool) {
        Err(e) => Err(e),
        Ok(_) => Ok(io_buf_start),
    }
}

/// Whether the device answers configuration option `opt`: the MAC address
/// when it has one, the submission-queue address once a process acquired
/// the device.
pub open spec fn get_config_defined(dev: &VirtioNetDevice, opt: i32) -> bool {
    if opt == crate::device::CONFIG_ETHERNET_MAC_ADDRESS {
        dev.mac_addr is Some
    } else if opt == crate::device::CONFIG_IO_QUEUE {
        dev.io_queue is Some
    } else {
        false
    }
}

/// Byte `k` of the little-endian encoding of `v`.
pub open spec fn le_byte_of(v: int, k: int) -> u8 {
    ((v / pow256(k)) % 0x100) as u8
}

/// 256 to the power `k`.
pub open spec fn pow256(k: int) -> int
    decreases k,
{
    if k <= 0 {
        1
    } else {
        0x100 * pow256(k - 1)
    }
}

/// Dividing off one more byte steps the little-endian decomposition.
proof fn lemma_le_byte_step(v: int, k: int)
    requires
        0 <= v,
        0 <= k,
    ensures
        (v / pow256(k)) / 0x100 == v / pow256(k + 1),
        le_byte_of(v, k) == ((v / pow256(k)) % 0x100) as u8,
{
    assert(pow256(k + 1) == 0x100 * pow256(k));
    assert(pow256(k) > 0) by {
        lemma_pow256_pos(k);
    }
    vstd::arithmetic::div_mod::lemma_div_denominator(v, pow256(k), 0x100);
}

proof fn lemma_pow256_pos(k: int)
    ensures
        pow256(k) > 0,
    decreases (if k > 0 {
        k
    } else {
        0
    }),
{
    if k > 0 {
        lemma_pow256_pos(k - 1);
    }
}

/// Registers the virtio network driver in the driver registry.
pub fn virtio_register_drivers(registry: &mut Vec<crate::pci::PCIDriver>)
    ensures
        final(registry)@ == old(registry)@.push(
            crate::pci::PCIDriver {
                dev_id: crate::pci::DeviceID {
                    vendor_id: crate::pci::PCI_VENDOR_ID_REDHAT,
                    device_id: PCI_DEVICE_ID_VIRTIO_NET,
                    revision_id: 0,
                    header_type: 0,
                    class_code: 0,
                    subclass: 0,
                    prog_if: 0,
                },
            },
        ),
{
    let dev_id = crate::pci::DeviceID::new(
        crate::pci::PCI_VENDOR_ID_REDHAT,
        PCI_DEVICE_ID_VIRTIO_NET,
    );
    crate::pci::pci_register_driver(registry, crate::pci::PCIDriver::new(dev_id));
}

/// Matches one discovered PCI device against the registered drivers and, on
/// a match, probes it as a virtio network device and registers it in the
/// namespace under its device name. The discovered-device record must still
/// answer on the bus and the backend must be the matched device's register
/// windows.
pub fn probe_and_register(
    kernel: &mut crate::sched::Kernel,
    pci_dev: PCIDevice,
    host: &mut PciHost,
    backend: &mut VirtioBackend,
    irq_vector: u8,
) -> (r: bool)
    requires
        old(kernel).wf(),
        old(host).wf(),
        old(backend).wf(),
        pci_dev.bars_wf(),
        old(backend).common.device_feature & VIRTIO_NET_F_MAC == VIRTIO_NET_F_MAC,
        2 <= old(backend).common.num_queues <= 64,
    ensures
        final(kernel).wf(),
        final(host).wf(),
        final(backend).wf(),
        r ==> final(kernel).namespace.devices@.len() == old(kernel).namespace.devices@.len() + 1,
        !r ==> final(kernel).namespace.devices@ == old(kernel).namespace.devices@,
        final(kernel).processes@ == old(kernel).processes@,
        // registration is owed when a registered driver matches the device
        // and the probe's own success conditions hold
        ({
            let f = pci_dev.func.state_of(*old(host));
            ((exists|di: int|
                0 <= di < old(kernel).drivers@.len() && (#[trigger] old(kernel).drivers@[
                    di]).dev_id.vendor_id == pci_dev.dev_id.vendor_id && old(kernel).drivers@[
                    di].dev_id.device_id == pci_dev.dev_id.device_id) && pci_dev.func.present(
                *old(host),
            ) && (match (
                find_virtio_cap_spec(f, VIRTIO_PCI_CAP_NOTIFY_CFG),
                find_virtio_cap_spec(f, VIRTIO_PCI_CAP_COMMON_CFG),
            ) {
                (Some(nc), Some(cc)) => cap_map_ok(&pci_dev, f, nc) && nc.offset <= 0xe0
                    && cap_map_ok(&pci_dev, f, cc),
                _ => false,
            }) && old(kernel).pool.small@.len() > 0 && old(kernel).pool.small@[0].size >= 2
                * PAGE_SIZE_SMALL) ==> r
        }),
{
    let mut matched = false;
    let nd = kernel.drivers.len();
    let mut di: usize = 0;
    while di < nd
        invariant
            nd == kernel.drivers@.len(),
            di <= nd,
            kernel.wf(),
            *kernel == *old(kernel),
            matched ==> (exists|dj: int|
                0 <= dj < nd && (#[trigger] kernel.drivers@[dj]).dev_id.vendor_id
                    == pci_dev.dev_id.vendor_id && kernel.drivers@[dj].dev_id.device_id
                    == pci_dev.dev_id.device_id),
            !matched ==> (forall|dj: int|
                0 <= dj < di ==> !((#[trigger] kernel.drivers@[dj]).dev_id.vendor_id
                    == pci_dev.dev_id.vendor_id && kernel.drivers@[dj].dev_id.device_id
                    == pci_dev.dev_id.device_id)),
        decreases nd - di,
    {
        if kernel.drivers[di].matches(&pci_dev.dev_id) {
            matched = true;
        }
        di += 1;
    }
    if !matched {
        return false;
    }
    if pci_dev.func.find(host).is_none() {
        return false;
    }
    let dev = match VirtioNetDevice::probe(pci_dev, host, backend, &mut kernel.pool, irq_vector) {
        None => {
            return false;
        },
        Some(d) => d,
    };
    let name: String = "/dev/eth".to_owned();
    crate::device::register_device(
        &mut kernel.namespace,
        crate::device::Device::new(name, dev),
    );
    proof {
        assert forall|d: int, k: int|
            0 <= d < kernel.namespace.devices@.len() && 0 <= k < kernel.namespace.devices@[
                d].ops.notifier.listeners_spec().len() implies (#[trigger] kernel.namespace.devices@[
        d].ops.notifier.listeners_spec()[k]) < kernel.processes@.len() by {
            if d < kernel.namespace.devices@.len() - 1 {
                assert(kernel.namespace.devices@[d] == old(kernel).namespace.devices@[d]);
            } else {
                assert(kernel.namespace.devices@[d].ops.notifier.listeners_spec().len() == 0);
            }
        }
    }
    true
}

/// Whether the window a virtio capability describes fits its BAR's port.
pub open spec fn cap_map_ok(
    pci_dev: &PCIDevice,
    f: crate::pci::PciFuncState,
    cap: VirtioPCICap,
) -> bool {
    match pci_dev.bars@[cap.bar_idx as int] {
        None => false,
        Some(port) => cfg32(f, cap.offset as int + VIRTIO_PCI_CAP_OFFSET as int) + cfg32(
            f,
            cap.offset as int + VIRTIO_PCI_CAP_LENGTH as int,
        ) <= port.size_spec() && cfg32(f, cap.offset as int + VIRTIO_PCI_CAP_OFFSET as int)
            <= usize::MAX,
    }
}

/// The placeholder address programmed into queue `q`'s ring register
/// `which` (descriptor table, available ring, used ring).
pub fn vq_ring_addrs(q: usize, which: usize) -> (r: u64)
    requires
        q < 0x10000,
        which < 3,
    ensures
        r == vq_ring_addr(q as int, which as int),
{
    0x4000_0000u64 + (q as u64) * 0x3000 + (which as u64) * 0x1000
}

} // verus!
