use manticore::atomic_ring_buffer::AtomicRingBuffer;
use manticore::event::{Event, EventQueue, RawEvent, EVENT_PACKET_RX};
use manticore::ioport::IOPort;
use manticore::ioqueue::{IOQueue, Opcode, RawIOCmd};

#[test]
fn ring_emplace_front_pop() {
    // On an initially empty ring: emplace(x); front() == x; pop();
    // front() == nothing.
    let mut ring: AtomicRingBuffer<u64> = AtomicRingBuffer::new(0x8000, 4096, 8);
    assert!(ring.front().is_none());
    assert!(ring.emplace(0xdead));
    assert_eq!(ring.front().copied(), Some(0xdead));
    ring.pop();
    assert!(ring.front().is_none());
    assert_eq!(ring.ring_addr(), 0x8000);
}

#[test]
fn ring_orders_elements() {
    let mut ring: AtomicRingBuffer<u64> = AtomicRingBuffer::new(0x8000, 4096, 8);
    assert!(ring.emplace(1));
    assert!(ring.emplace(2));
    assert_eq!(ring.front().copied(), Some(1));
    ring.pop();
    assert_eq!(ring.front().copied(), Some(2));
}

#[test]
fn ring_rejects_when_full() {
    // Header of 16 bytes plus two 8-byte slots.
    let mut ring: AtomicRingBuffer<u64> = AtomicRingBuffer::new(0x8000, 32, 8);
    assert!(ring.emplace(1));
    assert!(ring.emplace(2));
    assert!(!ring.emplace(3));
    ring.pop();
    assert!(ring.emplace(3));
}

#[test]
fn event_queue_emplaces_raw_records() {
    let mut q = EventQueue::new(0x9000, 4096);
    assert!(q.emplace(Event::PacketIO { addr: 0x1234, len: 60 }));
    let raw = q.ring_buffer.front().copied().unwrap();
    assert_eq!(raw, RawEvent { type_: EVENT_PACKET_RX, addr: 0x1234, len: 60 });
}

#[test]
fn io_queue_decodes_opcodes() {
    let mut q = IOQueue::new(0xa000, 4096);
    assert!(q.pop().is_none());
    assert!(q.push_raw(RawIOCmd { opcode: 1, addr: 0x5000, len: 32 }));
    assert!(q.push_raw(RawIOCmd { opcode: 2, addr: 0x6000, len: 0 }));
    assert!(q.push_raw(RawIOCmd { opcode: 9, addr: 0, len: 0 }));
    let c1 = q.pop().unwrap();
    assert_eq!(c1.opcode, Opcode::Submit);
    assert_eq!(c1.addr, 0x5000);
    assert_eq!(c1.len, 32);
    let c2 = q.pop().unwrap();
    assert_eq!(c2.opcode, Opcode::Complete);
    // An unknown opcode is consumed and decodes to nothing.
    assert!(q.pop().is_none());
    assert!(q.pop().is_none());
}

#[test]
fn remap_fits_iff_within_size() {
    // remap(off, new_size) succeeds exactly when off + new_size <= size.
    let port = IOPort::new_memory(0x1000, 0x100);
    assert!(port.remap(0x80, 0x80).is_some());
    assert!(port.remap(0x80, 0x81).is_none());
    assert!(port.remap(0x100, 0).is_some());
    assert!(port.remap(0x101, 0).is_none());
    match port.remap(0x40, 0x10).unwrap() {
        IOPort::Memory { base_addr, size } => {
            assert_eq!(base_addr, 0x1040);
            assert_eq!(size, 0x10);
        },
        _ => panic!("expected a memory port"),
    }
    let pio = IOPort::new_io(0xc000, 0x40);
    assert!(pio.remap(0x20, 0x20).is_some());
    assert!(pio.remap(0x20, 0x21).is_none());
    match pio.remap(0x20, 0x20).unwrap() {
        IOPort::IO { iobase, size } => {
            assert_eq!(iobase, 0xc020);
            assert_eq!(size, 0x20);
        },
        _ => panic!("expected a programmed-io port"),
    }
}
