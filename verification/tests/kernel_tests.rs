use manticore::device::{CONFIG_ETHERNET_MAC_ADDRESS, CONFIG_IO_QUEUE};
use manticore::event::EVENT_PACKET_RX;
use manticore::net::{
    probe_and_register, virtio_register_drivers, QueueRegs, VirtioBackend, VirtioCommonRegs,
    VIRTIO_NET_HDR_SIZE,
};
use manticore::pci::{pci_probe, PciFuncState, PciHost};
use manticore::process::ProcessState;
use manticore::sched::Kernel;

fn put16(f: &mut PciFuncState, off: usize, v: u16) {
    f.config[off] = (v & 0xff) as u8;
    f.config[off + 1] = (v >> 8) as u8;
}

fn put32(f: &mut PciFuncState, off: usize, v: u32) {
    f.config[off] = (v & 0xff) as u8;
    f.config[off + 1] = ((v >> 8) & 0xff) as u8;
    f.config[off + 2] = ((v >> 16) & 0xff) as u8;
    f.config[off + 3] = ((v >> 24) & 0xff) as u8;
}

/// A PCI host with one virtio network function at 0:3.0: one memory BAR of
/// 16 KiB and the three virtio vendor capabilities (notify, common
/// configuration, device configuration) windowed into it.
fn virtio_host() -> PciHost {
    let mut host = PciHost::new();
    // The host function at slot zero keeps the bus walk going.
    let mut bridge = PciFuncState {
        bus: 0,
        slot: 0,
        func: 0,
        config: vec![0u8; 256],
        bar_masks: vec![0xffff_f000; 6],
        sizing: vec![false; 6],
    };
    put16(&mut bridge, 0x00, 0x8086);
    put16(&mut bridge, 0x02, 0x1237);
    assert!(host.add_func(bridge));
    let mut f = PciFuncState {
        bus: 0,
        slot: 3,
        func: 0,
        config: vec![0u8; 256],
        bar_masks: vec![0xffff_f000; 6],
        sizing: vec![false; 6],
    };
    put16(&mut f, 0x00, 0x1af4);
    put16(&mut f, 0x02, 0x1041);
    f.config[0x0b] = 0x02;
    f.config[0x06] = 0x10; // capability list present
    f.config[0x34] = 0x40; // capabilities pointer
    // Notify capability at 0x40 (vendor, type 2, BAR 0, offset 0x1000).
    f.config[0x40] = 0x09;
    f.config[0x41] = 0x54;
    f.config[0x43] = 2;
    f.config[0x44] = 0;
    put32(&mut f, 0x48, 0x1000);
    put32(&mut f, 0x4c, 0x100);
    put32(&mut f, 0x50, 4); // notify offset multiplier
    // Common configuration capability at 0x54 (type 1, BAR 0, offset 0).
    f.config[0x54] = 0x09;
    f.config[0x55] = 0x64;
    f.config[0x57] = 1;
    f.config[0x58] = 0;
    put32(&mut f, 0x5c, 0x0);
    put32(&mut f, 0x60, 0x38);
    // Device configuration capability at 0x64 (type 4, BAR 0, offset 0x2000).
    f.config[0x64] = 0x09;
    f.config[0x65] = 0x00;
    f.config[0x67] = 4;
    f.config[0x68] = 0;
    put32(&mut f, 0x6c, 0x2000);
    put32(&mut f, 0x70, 0x100);
    // BAR 0: a 32-bit memory window of 16 KiB.
    put32(&mut f, 0x10, 0xFEB0_0000);
    f.bar_masks[0] = !(0x4000u32 - 1);
    assert!(host.add_func(f));
    host
}

/// The matching device model: two queues of four entries, a MAC address in
/// the device configuration bytes.
fn virtio_backend() -> VirtioBackend {
    let queue = QueueRegs {
        size: 4,
        msix_vector: 0,
        enable: 0,
        notify_off: 0,
        desc: 0,
        avail: 0,
        used: 0,
    };
    let mut device_cfg = vec![0u8; 16];
    let mac = [0x52, 0x54, 0x00, 0x12, 0x34, 0x56];
    device_cfg[..6].copy_from_slice(&mac);
    VirtioBackend {
        common: VirtioCommonRegs {
            device_feature: 0x20,
            driver_feature: 0,
            msix_config: 0,
            num_queues: 2,
            device_status: 0,
            queue_select: 0,
            queues: vec![queue, QueueRegs { notify_off: 1, ..queue }],
        },
        device_cfg,
        notify_log: Vec::new(),
    }
}

/// A minimal ELF64 image: one loadable read-execute segment of `data` at
/// virtual address 0x400000, entry at its first byte.
fn tiny_elf(data: &[u8]) -> Vec<u8> {
    let mut v = vec![0u8; 0x78];
    let p64 = |v: &mut Vec<u8>, off: usize, x: u64| {
        for i in 0..8 {
            v[off + i] = ((x >> (8 * i)) & 0xff) as u8;
        }
    };
    let p32 = |v: &mut Vec<u8>, off: usize, x: u32| {
        for i in 0..4 {
            v[off + i] = ((x >> (8 * i)) & 0xff) as u8;
        }
    };
    let p16 = |v: &mut Vec<u8>, off: usize, x: u16| {
        v[off] = (x & 0xff) as u8;
        v[off + 1] = (x >> 8) as u8;
    };
    v[0] = 0x7f;
    v[1] = b'E';
    v[2] = b'L';
    v[3] = b'F';
    v[4] = 2; // 64-bit
    v[5] = 1; // little-endian
    v[6] = 1; // version
    p16(&mut v, 16, 2); // executable
    p16(&mut v, 18, 0x3e); // machine
    p32(&mut v, 20, 1); // version
    p64(&mut v, 24, 0x400000); // entry point
    p64(&mut v, 32, 64); // program-header offset
    p64(&mut v, 40, 0); // no section headers
    p16(&mut v, 52, 64); // header size
    p16(&mut v, 54, 56); // program-header entry size
    p16(&mut v, 56, 1); // one program header
    // Program header at 64: loadable, read+execute.
    p32(&mut v, 64, 1); // load
    p32(&mut v, 68, 5); // read + execute
    p64(&mut v, 72, 0x78); // file offset of the segment bytes
    p64(&mut v, 80, 0x400000); // virtual address
    p64(&mut v, 88, 0x400000); // physical address
    p64(&mut v, 96, data.len() as u64); // file size
    p64(&mut v, 104, data.len() as u64); // memory size
    p64(&mut v, 112, 0x1000); // alignment
    v.extend_from_slice(data);
    v
}

fn booted_kernel() -> (Kernel, PciHost, VirtioBackend) {
    let mut kernel = Kernel::new();
    kernel.pool.add_span(0x100000, 0x1000000);
    let mut host = virtio_host();
    let mut backend = virtio_backend();
    virtio_register_drivers(&mut kernel.drivers);
    let devices = pci_probe(&mut host);
    assert_eq!(devices.len(), 2);
    let mut registered = false;
    for dev in devices {
        if probe_and_register(&mut kernel, dev, &mut host, &mut backend, 33) {
            registered = true;
        }
    }
    assert!(registered);
    (kernel, host, backend)
}

#[test]
fn boot_probe_configures_the_device() {
    let (kernel, _host, backend) = booted_kernel();
    assert_eq!(kernel.namespace.devices.len(), 1);
    let dev = &kernel.namespace.devices[0].ops;
    // Acknowledge, driver, features-ok, driver-ok.
    assert_eq!(backend.common.device_status, 15);
    assert_eq!(backend.common.driver_feature, 0x20);
    assert!(backend.common.queues[0].enable == 1 && backend.common.queues[1].enable == 1);
    assert_eq!(dev.vqs.len(), 2);
    assert_eq!(dev.vqs[0].queue_size, 4);
    // One inbound buffer is already posted on the receive queue.
    assert_eq!(dev.vqs[0].avail.idx, 1);
    assert_eq!(dev.vqs[0].desc[0].addr, dev.rx_page);
    assert_eq!(dev.mac_addr.as_deref(), Some(&[0x52, 0x54, 0x00, 0x12, 0x34, 0x56][..]));
    assert_eq!(dev.notify_off_multiplier, 4);
}

#[test]
fn spawn_loads_segments_and_enqueues() {
    let (mut kernel, _host, _backend) = booted_kernel();
    let image = tiny_elf(&[0x90, 0x90, 0xc3, 0x7f]);
    let r = kernel.process_spawn(&image);
    assert_eq!(r, 0);
    assert_eq!(kernel.processes.len(), 1);
    assert_eq!(kernel.run_queue, vec![0]);
    let pr = &kernel.processes[0];
    assert_eq!(pr.entry_point(), 0x400000);
    assert_eq!(pr.state, ProcessState::RUNNABLE);
    // The segment bytes are visible at their virtual address, zeroes after.
    assert_eq!(pr.vmspace.read_byte(0x400000), Some(0x90));
    assert_eq!(pr.vmspace.read_byte(0x400002), Some(0xc3));
    assert_eq!(pr.vmspace.read_byte(0x400003), Some(0x7f));
    assert_eq!(pr.vmspace.read_byte(0x400004), Some(0));
}

#[test]
fn spawn_rejects_garbage() {
    let mut kernel = Kernel::new();
    kernel.pool.add_span(0x100000, 0x1000000);
    let r = kernel.process_spawn(&vec![1, 2, 3, 4]);
    assert_eq!(r, -22);
    assert_eq!(kernel.processes.len(), 0);
}

#[test]
fn spawn_rejects_header_table_out_of_bounds() {
    // A valid ELF header whose program-header table lies past the end of
    // the image: refused cleanly before the parser is reached.
    let mut kernel = Kernel::new();
    kernel.pool.add_span(0x100000, 0x1000000);
    let mut image = tiny_elf(&[0xc3]);
    // Point the program-header table far past the image.
    image[32..40].copy_from_slice(&0x10000u64.to_le_bytes());
    assert_eq!(kernel.process_spawn(&image), -22);
    // A misaligned table offset is refused too.
    let mut image2 = tiny_elf(&[0xc3]);
    image2[32..40].copy_from_slice(&62u64.to_le_bytes());
    assert_eq!(kernel.process_spawn(&image2), -22);
    // An entry size other than the 64-bit class's is refused.
    let mut image3 = tiny_elf(&[0xc3]);
    image3[54..56].copy_from_slice(&8u16.to_le_bytes());
    assert_eq!(kernel.process_spawn(&image3), -22);
    assert_eq!(kernel.processes.len(), 0);
}

#[test]
fn round_robin_runs_in_order() {
    // Three runnable processes are scheduled A, B, C, A.
    let (mut kernel, _host, _backend) = booted_kernel();
    let image = tiny_elf(&[0xc3]);
    assert_eq!(kernel.process_spawn(&image), 0);
    assert_eq!(kernel.process_spawn(&image), 0);
    assert_eq!(kernel.process_spawn(&image), 0);
    kernel.schedule();
    assert_eq!(kernel.current, Some(0));
    assert_eq!(kernel.processes[0].state, ProcessState::RUNNING);
    kernel.schedule();
    assert_eq!(kernel.current, Some(1));
    kernel.schedule();
    assert_eq!(kernel.current, Some(2));
    kernel.schedule();
    assert_eq!(kernel.current, Some(0));
}

#[test]
fn schedule_loads_the_translation_table() {
    let (mut kernel, _host, _backend) = booted_kernel();
    let image = tiny_elf(&[0xc3]);
    assert_eq!(kernel.process_spawn(&image), 0);
    kernel.schedule();
    assert_eq!(kernel.loaded_map, kernel.processes[0].vmspace.mmu_map.id);
}

#[test]
fn event_delivery_wakes_the_waiter() {
    // A process acquires the network device and waits; one consumed receive
    // buffer turns into exactly one packet event in its queue, and the next
    // wake-up makes it runnable again.
    let (mut kernel, _host, mut backend) = booted_kernel();
    let image = tiny_elf(&[0xc3]);
    assert_eq!(kernel.process_spawn(&image), 0);
    kernel.schedule();
    assert_eq!(kernel.current, Some(0));
    let desc = kernel.process_acquire(&"/dev/eth".to_owned());
    assert_eq!(desc, 0);
    kernel.process_wait(&mut backend);
    assert_eq!(kernel.processes[0].state, ProcessState::WAITING);
    assert_eq!(kernel.wait_queue, vec![0]);
    // The device consumes the posted receive buffer: 64 payload bytes behind
    // the virtio network header.
    let used_len = (VIRTIO_NET_HDR_SIZE + 64) as u32;
    kernel.namespace.devices[0].ops.vqs[0].device_publish_used(0, used_len);
    kernel.device_interrupt(0);
    let rx_addr = kernel.namespace.devices[0].ops.rx_buffer_addr.unwrap();
    let pr = &kernel.processes[0];
    let raw = pr.event_queue.ring_buffer.front().copied().unwrap();
    assert_eq!(raw.type_, EVENT_PACKET_RX);
    assert_eq!(raw.addr, rx_addr + VIRTIO_NET_HDR_SIZE);
    assert_eq!(raw.len, 64);
    kernel.wake_up_processes();
    assert_eq!(kernel.wait_queue.len(), 0);
    assert_eq!(kernel.run_queue, vec![0]);
    assert_eq!(kernel.processes[0].state, ProcessState::RUNNABLE);
}

#[test]
fn get_config_returns_mac_and_ring_address() {
    let (mut kernel, _host, mut backend) = booted_kernel();
    let image = tiny_elf(&[0xc3]);
    assert_eq!(kernel.process_spawn(&image), 0);
    kernel.schedule();
    assert_eq!(kernel.process_acquire(&"/dev/eth".to_owned()), 0);
    let mac = kernel.process_get_config(0, CONFIG_ETHERNET_MAC_ADDRESS).unwrap();
    assert_eq!(mac, vec![0x52, 0x54, 0x00, 0x12, 0x34, 0x56]);
    let ring = kernel.process_get_config(0, CONFIG_IO_QUEUE).unwrap();
    assert_eq!(ring.len(), 8);
    let addr = u64::from_le_bytes(ring.try_into().unwrap());
    let io_queue_addr = kernel.namespace.devices[0].ops.io_queue.as_ref().unwrap();
    assert_eq!(addr as usize, io_queue_addr.ring_buffer.ring_addr());
    // Unknown option and bad descriptor report EINVAL.
    assert_eq!(kernel.process_get_config(0, 99).unwrap_err().errno(), 22);
    assert_eq!(kernel.process_get_config(7, 0).unwrap_err().errno(), 22);
    // getevents returns the event-queue address.
    assert_eq!(
        kernel.process_getevents(),
        kernel.processes[0].event_queue.ring_buffer.ring_addr()
    );
    // subscribe succeeds on an attached descriptor, fails on a bad one.
    assert_eq!(kernel.process_subscribe(0, &"recv".to_owned()), 0);
    assert_eq!(kernel.process_subscribe(3, &"recv".to_owned()), -22);
    assert_eq!(kernel.process_subscribe(-1, &"recv".to_owned()), -22);
    drop(backend);
}

#[test]
fn acquire_unknown_device_fails() {
    let (mut kernel, _host, _backend) = booted_kernel();
    let image = tiny_elf(&[0xc3]);
    assert_eq!(kernel.process_spawn(&image), 0);
    kernel.schedule();
    assert_eq!(kernel.process_acquire(&"/dev/null".to_owned()), -22);
}
