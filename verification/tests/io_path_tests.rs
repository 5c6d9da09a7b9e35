use manticore::ioqueue::{IOCmd, Opcode, RawIOCmd};
use manticore::net::{
    probe_and_register, virtio_register_drivers, QueueRegs, VirtioBackend, VirtioCommonRegs,
    VIRTIO_NET_HDR_SIZE,
};
use manticore::pci::{pci_probe, PciFuncState, PciHost};
use manticore::sched::Kernel;

fn put16(f: &mut PciFuncState, off: usize, v: u16) {
    f.config[off] = (v & 0xff) as u8;
    f.config[off + 1] = (v >> 8) as u8;
}

fn put32(f: &mut PciFuncState, off: usize, v: u32) {
    f.config[off] = (v & 0xff) as u8;
    f.config[off + 1] = ((v >> 8) & 0xff) as u8;
    f.config[off + 2] = ((v >> 16) & 0xff) as u8;
    f.config[off + 3] = ((v >> 24) & 0xff) as u8;
}

fn virtio_host() -> PciHost {
    let mut host = PciHost::new();
    // The host function at slot zero keeps the bus walk going.
    let mut bridge = PciFuncState {
        bus: 0,
        slot: 0,
        func: 0,
        config: vec![0u8; 256],
        bar_masks: vec![0xffff_f000; 6],
        sizing: vec![false; 6],
    };
    put16(&mut bridge, 0x00, 0x8086);
    put16(&mut bridge, 0x02, 0x1237);
    assert!(host.add_func(bridge));
    let mut f = PciFuncState {
        bus: 0,
        slot: 3,
        func: 0,
        config: vec![0u8; 256],
        bar_masks: vec![0xffff_f000; 6],
        sizing: vec![false; 6],
    };
    put16(&mut f, 0x00, 0x1af4);
    put16(&mut f, 0x02, 0x1041);
    f.config[0x06] = 0x10;
    f.config[0x34] = 0x40;
    f.config[0x40] = 0x09;
    f.config[0x41] = 0x54;
    f.config[0x43] = 2;
    f.config[0x44] = 0;
    put32(&mut f, 0x48, 0x1000);
    put32(&mut f, 0x4c, 0x100);
    put32(&mut f, 0x50, 4);
    f.config[0x54] = 0x09;
    f.config[0x55] = 0x00;
    f.config[0x57] = 1;
    f.config[0x58] = 0;
    put32(&mut f, 0x5c, 0x0);
    put32(&mut f, 0x60, 0x38);
    put32(&mut f, 0x10, 0xFEB0_0000);
    f.bar_masks[0] = !(0x4000u32 - 1);
    assert!(host.add_func(f));
    host
}

fn virtio_backend() -> VirtioBackend {
    let queue = QueueRegs {
        size: 4,
        msix_vector: 0,
        enable: 0,
        notify_off: 0,
        desc: 0,
        avail: 0,
        used: 0,
    };
    VirtioBackend {
        common: VirtioCommonRegs {
            device_feature: 0x20,
            driver_feature: 0,
            msix_config: 0,
            num_queues: 2,
            device_status: 0,
            queue_select: 0,
            queues: vec![queue, QueueRegs { notify_off: 1, ..queue }],
        },
        device_cfg: vec![0u8; 16],
        notify_log: Vec::new(),
    }
}

fn tiny_elf(data: &[u8]) -> Vec<u8> {
    let mut v = vec![0u8; 0x78];
    let p64 = |v: &mut Vec<u8>, off: usize, x: u64| {
        for i in 0..8 {
            v[off + i] = ((x >> (8 * i)) & 0xff) as u8;
        }
    };
    let p32 = |v: &mut Vec<u8>, off: usize, x: u32| {
        for i in 0..4 {
            v[off + i] = ((x >> (8 * i)) & 0xff) as u8;
        }
    };
    let p16 = |v: &mut Vec<u8>, off: usize, x: u16| {
        v[off] = (x & 0xff) as u8;
        v[off + 1] = (x >> 8) as u8;
    };
    v[0] = 0x7f;
    v[1] = b'E';
    v[2] = b'L';
    v[3] = b'F';
    v[4] = 2;
    v[5] = 1;
    v[6] = 1;
    p16(&mut v, 16, 2);
    p16(&mut v, 18, 0x3e);
    p32(&mut v, 20, 1);
    p64(&mut v, 24, 0x400000);
    p64(&mut v, 32, 64);
    p16(&mut v, 52, 64);
    p16(&mut v, 54, 56);
    p16(&mut v, 56, 1);
    p32(&mut v, 64, 1);
    p32(&mut v, 68, 6); // read + write: the payload lives here
    p64(&mut v, 72, 0x78);
    p64(&mut v, 80, 0x400000);
    p64(&mut v, 88, 0x400000);
    p64(&mut v, 96, data.len() as u64);
    p64(&mut v, 104, data.len() as u64);
    p64(&mut v, 112, 0x1000);
    v.extend_from_slice(data);
    v
}

#[test]
fn submit_copies_payload_and_kicks_transmit() {
    let mut kernel = Kernel::new();
    kernel.pool.add_span(0x100000, 0x1000000);
    let mut host = virtio_host();
    let mut backend = virtio_backend();
    virtio_register_drivers(&mut kernel.drivers);
    let devices = pci_probe(&mut host);
    let mut registered = 0;
    for dev in devices {
        if probe_and_register(&mut kernel, dev, &mut host, &mut backend, 33) {
            registered += 1;
        }
    }
    assert_eq!(registered, 1);
    // The payload is the first four bytes of the process's image segment.
    let image = tiny_elf(&[0x11, 0x22, 0x33, 0x44]);
    assert_eq!(kernel.process_spawn(&image), 0);
    kernel.schedule();
    assert_eq!(kernel.process_acquire(&"/dev/eth".to_owned()), 0);
    // User space writes a transmit request into the submission queue.
    let io_queue = kernel.namespace.devices[0].ops.io_queue.as_mut().unwrap();
    assert!(io_queue.push_raw(RawIOCmd { opcode: 1, addr: 0x400000, len: 4 }));
    let kicks_before = backend.notify_log.len();
    kernel.process_wait(&mut backend);
    // The queue is drained, the bounce buffer holds a zeroed header and the
    // payload, and the device was kicked for the transmit queue.
    assert_eq!(
        kernel.namespace.devices[0].ops.io_queue.as_ref().unwrap().ring_buffer.front(),
        None
    );
    let dev = &kernel.namespace.devices[0].ops;
    assert_eq!(dev.tx_buf.len(), VIRTIO_NET_HDR_SIZE + 4);
    assert_eq!(&dev.tx_buf[..VIRTIO_NET_HDR_SIZE], &[0u8; 10]);
    assert_eq!(&dev.tx_buf[VIRTIO_NET_HDR_SIZE..], &[0x11, 0x22, 0x33, 0x44]);
    let tx = &dev.vqs[1];
    assert_eq!(tx.avail.idx, 1);
    assert_eq!(tx.desc[0].addr, dev.tx_page);
    assert_eq!(tx.desc[0].len as usize, VIRTIO_NET_HDR_SIZE + 4);
    assert_eq!(backend.notify_log.len(), kicks_before + 1);
    assert_eq!(backend.notify_log.last().copied(), Some((4, 1)));
}

#[test]
fn wait_posts_each_queued_submit() {
    // Three queued transmit requests: each gets an available-ring slot and a
    // doorbell, and the bounce page holds the last payload.
    let mut kernel = Kernel::new();
    kernel.pool.add_span(0x100000, 0x1000000);
    let mut host = virtio_host();
    let mut backend = virtio_backend();
    virtio_register_drivers(&mut kernel.drivers);
    let devices = pci_probe(&mut host);
    for dev in devices {
        probe_and_register(&mut kernel, dev, &mut host, &mut backend, 33);
    }
    let image = tiny_elf(&[0x11, 0x22, 0x33, 0x44]);
    assert_eq!(kernel.process_spawn(&image), 0);
    kernel.schedule();
    assert_eq!(kernel.process_acquire(&"/dev/eth".to_owned()), 0);
    let io_queue = kernel.namespace.devices[0].ops.io_queue.as_mut().unwrap();
    assert!(io_queue.push_raw(RawIOCmd { opcode: 1, addr: 0x400000, len: 4 }));
    assert!(io_queue.push_raw(RawIOCmd { opcode: 1, addr: 0x400001, len: 2 }));
    assert!(io_queue.push_raw(RawIOCmd { opcode: 1, addr: 0x400002, len: 2 }));
    let kicks_before = backend.notify_log.len();
    kernel.process_wait(&mut backend);
    let dev = &kernel.namespace.devices[0].ops;
    let tx = &dev.vqs[1];
    assert_eq!(tx.avail.idx, 3);
    assert_eq!(backend.notify_log.len(), kicks_before + 3);
    assert_eq!(backend.notify_log.last().copied(), Some((4, 1)));
    // The bounce page holds the last request's payload.
    assert_eq!(dev.tx_buf.len(), VIRTIO_NET_HDR_SIZE + 2);
    assert_eq!(&dev.tx_buf[VIRTIO_NET_HDR_SIZE..], &[0x33, 0x44]);
}

#[test]
fn complete_reposts_the_receive_buffer() {
    let mut kernel = Kernel::new();
    kernel.pool.add_span(0x100000, 0x1000000);
    let mut host = virtio_host();
    let mut backend = virtio_backend();
    virtio_register_drivers(&mut kernel.drivers);
    let devices = pci_probe(&mut host);
    let mut registered = 0;
    for dev in devices {
        if probe_and_register(&mut kernel, dev, &mut host, &mut backend, 33) {
            registered += 1;
        }
    }
    assert_eq!(registered, 1);
    let image = tiny_elf(&[0xc3]);
    assert_eq!(kernel.process_spawn(&image), 0);
    kernel.schedule();
    assert_eq!(kernel.process_acquire(&"/dev/eth".to_owned()), 0);
    // The device consumed the posted buffer; user space acknowledges it.
    kernel.namespace.devices[0].ops.vqs[0].device_publish_used(0, 74);
    kernel.device_interrupt(0);
    let io_queue = kernel.namespace.devices[0].ops.io_queue.as_mut().unwrap();
    assert!(io_queue.push_raw(RawIOCmd { opcode: 2, addr: 0, len: 0 }));
    kernel.process_wait(&mut backend);
    let dev = &kernel.namespace.devices[0].ops;
    // The inbound buffer is posted again and the receive queue was kicked.
    assert_eq!(dev.vqs[0].avail.idx, 2);
    assert_eq!(backend.notify_log.last().copied(), Some((0, 0)));
    let cmd = IOCmd { opcode: Opcode::Complete, addr: 0, len: 0 };
    assert_eq!(cmd.opcode, Opcode::Complete);
}
