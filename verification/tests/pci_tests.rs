use manticore::pci::{
    pci_probe, BAR, DeviceID, Locatable, PCIDevice, PCIFunction, PciFuncState, PciHost,
    PCI_CAPABILITY_MSIX, PCI_CFG_CAPABILITIES_PTR, PCI_CFG_STATUS,
};

fn empty_func(bus: u16, slot: u16, func: u16) -> PciFuncState {
    PciFuncState {
        bus,
        slot,
        func,
        config: vec![0u8; 256],
        bar_masks: vec![0xffff_f000; 6],
        sizing: vec![false; 6],
    }
}

fn put16(f: &mut PciFuncState, off: usize, v: u16) {
    f.config[off] = (v & 0xff) as u8;
    f.config[off + 1] = (v >> 8) as u8;
}

fn put32(f: &mut PciFuncState, off: usize, v: u32) {
    f.config[off] = (v & 0xff) as u8;
    f.config[off + 1] = ((v >> 8) & 0xff) as u8;
    f.config[off + 2] = ((v >> 16) & 0xff) as u8;
    f.config[off + 3] = ((v >> 24) & 0xff) as u8;
}

#[test]
fn config_reads_and_absent_functions() {
    let mut host = PciHost::new();
    let mut f = empty_func(0, 3, 0);
    put16(&mut f, 0, 0x1af4);
    put16(&mut f, 2, 0x1041);
    assert!(host.add_func(f));
    let func = PCIFunction::new(0, 3, 0);
    assert_eq!(func.read_config_u16(&host, 0), 0x1af4);
    assert_eq!(func.read_config_u16(&host, 2), 0x1041);
    let absent = PCIFunction::new(0, 4, 0);
    assert_eq!(absent.read_config_u16(&host, 0), 0xffff);
    assert_eq!(absent.read_config_u32(&host, 0), 0xffff_ffff);
    assert_eq!(absent.read_config_u8(&host, 0), 0xff);
}

#[test]
fn bar_decode_sixty_four_bit_memory() {
    // A 64-bit memory BAR with raw value 0xFEBC0004 and a zero upper half,
    // sized to 0x4000 by the write-all-ones read-back, decodes to a 64-bit
    // memory window and advances the BAR index by two.
    let mut host = PciHost::new();
    let mut f = empty_func(0, 3, 0);
    put32(&mut f, 0x10, 0xFEBC_0004);
    put32(&mut f, 0x14, 0x0000_0000);
    f.bar_masks[0] = !(0x4000u32 - 1);
    assert!(host.add_func(f));
    let func = PCIFunction::new(0, 3, 0);
    let (bar, next) = BAR::decode(&func, &mut host, 0);
    assert_eq!(next, 2);
    match bar.unwrap() {
        BAR::Memory { base_addr, size, prefetchable, locatable } => {
            assert_eq!(base_addr, 0xFEBC_0000);
            assert_eq!(size, 0x4000);
            assert!(!prefetchable);
            assert_eq!(locatable, Locatable::Bits64);
        },
        _ => panic!("expected a memory BAR"),
    }
    // The decode restored the raw value.
    assert_eq!(func.read_config_u32(&host, 0x10), 0xFEBC_0004);
}

#[test]
fn bar_decode_io_and_empty() {
    let mut host = PciHost::new();
    let mut f = empty_func(0, 3, 0);
    put32(&mut f, 0x10, 0x0000_c001);
    f.bar_masks[0] = !(0x40u32 - 1);
    assert!(host.add_func(f));
    let func = PCIFunction::new(0, 3, 0);
    let (bar, next) = BAR::decode(&func, &mut host, 0);
    assert_eq!(next, 1);
    match bar.unwrap() {
        BAR::IO { iobase, size } => {
            assert_eq!(iobase, 0xc000);
            assert_eq!(size, 0x40);
        },
        _ => panic!("expected an io BAR"),
    }
    let (none_bar, next2) = BAR::decode(&func, &mut host, 1);
    assert!(none_bar.is_none());
    assert_eq!(next2, 2);
}

#[test]
fn capability_walk_finds_msix() {
    let mut host = PciHost::new();
    let mut f = empty_func(0, 3, 0);
    // Status bit 4 announces a capability list at 0x40: a vendor capability
    // chaining to MSI-X at 0x50.
    f.config[PCI_CFG_STATUS as usize] = 0x10;
    f.config[PCI_CFG_CAPABILITIES_PTR as usize] = 0x40;
    f.config[0x40] = 0x09;
    f.config[0x41] = 0x50;
    f.config[0x50] = PCI_CAPABILITY_MSIX;
    f.config[0x51] = 0x00;
    assert!(host.add_func(f));
    let func = PCIFunction::new(0, 3, 0);
    assert_eq!(func.find_capability(&host, PCI_CAPABILITY_MSIX), Some(0x50));
    assert_eq!(func.find_capability(&host, 0x09), Some(0x40));
    assert_eq!(func.find_next_capability(&host, 0x09, 0x40), None);
    assert_eq!(func.find_capability(&host, 0x05), None);
}

#[test]
fn probe_reads_identification() {
    let mut host = PciHost::new();
    let mut f = empty_func(0, 3, 0);
    put16(&mut f, 0, 0x1af4);
    put16(&mut f, 2, 0x1041);
    f.config[0x08] = 0x01; // revision
    f.config[0x09] = 0x02; // programming interface
    f.config[0x0a] = 0x00; // subclass
    f.config[0x0b] = 0x02; // class: network controller
    assert!(host.add_func(f));
    let func = PCIFunction::new(0, 3, 0);
    let dev = PCIDevice::probe(func, 0, &mut host);
    assert_eq!(dev.dev_id.vendor_id, 0x1af4);
    assert_eq!(dev.dev_id.device_id, 0x1041);
    assert_eq!(dev.dev_id.revision_id, 0x01);
    assert_eq!(dev.dev_id.prog_if, 0x02);
    assert_eq!(dev.dev_id.class_code, 0x02);
    assert_eq!(dev.bars.len(), 6);
    // The command register now has memory and I/O decoding enabled.
    assert_eq!(func.read_config_u16(&host, 0x04) & 0x3, 0x3);
}

#[test]
fn empty_bus_stops_the_walk() {
    // A bus that answers all-ones at every slot stops the bus walk: a device
    // parked on a higher bus is never reached.
    let mut host = PciHost::new();
    let mut f = empty_func(5, 0, 0);
    put16(&mut f, 0, 0x1af4);
    assert!(host.add_func(f));
    let devices = pci_probe(&mut host);
    assert_eq!(devices.len(), 0);
}

#[test]
fn walk_finds_device_on_bus_zero() {
    let mut host = PciHost::new();
    let mut f = empty_func(0, 0, 0);
    put16(&mut f, 0, 0x1af4);
    put16(&mut f, 2, 0x1041);
    assert!(host.add_func(f));
    let devices = pci_probe(&mut host);
    assert_eq!(devices.len(), 1);
    assert_eq!(devices[0].dev_id.vendor_id, 0x1af4);
}

#[test]
fn all_ones_at_slot_zero_stops_the_walk() {
    // A device sits at slot three, but slot zero of the bus answers
    // all-ones: the walk stops without reaching it.
    let mut host = PciHost::new();
    let mut f = empty_func(0, 3, 0);
    put16(&mut f, 0, 0x1af4);
    put16(&mut f, 2, 0x1041);
    assert!(host.add_func(f));
    let devices = pci_probe(&mut host);
    assert_eq!(devices.len(), 0);
}

#[test]
fn device_id_matches_by_vendor_and_device() {
    let id = DeviceID::new(0x1af4, 0x1041);
    assert_eq!(id.vendor_id, 0x1af4);
    assert_eq!(id.device_id, 0x1041);
    assert_eq!(id.revision_id, 0);
    let driver = manticore::pci::PCIDriver::new(id);
    assert!(driver.matches(&DeviceID::new(0x1af4, 0x1041)));
    assert!(!driver.matches(&DeviceID::new(0x1af4, 0x1000)));
}
