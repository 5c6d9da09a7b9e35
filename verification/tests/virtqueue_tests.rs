use manticore::virtqueue::{Virtqueue, VirtqDesc, VIRTQ_DESC_F_WRITE};

#[test]
fn virtqueue_lifecycle() {
    // A queue of size four, one outbound buffer: descriptor zero carries it,
    // the available ring publishes descriptor zero, and the available index
    // advances to one.
    let mut vq = Virtqueue::new(1, 4, 0);
    let got = vq.add_outbuf(0xAAAA, 64);
    assert_eq!(got, Some(0));
    assert_eq!(vq.desc[0], VirtqDesc { addr: 0xAAAA, len: 64, flags: 0, next: 0 });
    assert_eq!(vq.avail.ring[0], 0);
    assert_eq!(vq.avail.idx, 1);
}

#[test]
fn new_queue_rings_start_zeroed() {
    // A fresh queue has zeroed descriptor, available and used rings, and
    // every descriptor free.
    let vq = Virtqueue::new(0, 8, 0);
    assert_eq!(vq.avail.idx, 0);
    assert_eq!(vq.used.idx, 0);
    for k in 0..8usize {
        assert_eq!(vq.desc[k], VirtqDesc { addr: 0, len: 0, flags: 0, next: 0 });
        assert_eq!(vq.avail.ring[k], 0);
        assert_eq!(vq.used.ring[k].id, 0);
        assert_eq!(vq.used.ring[k].len, 0);
    }
    assert_eq!(vq.num_free_desc(), 8);
}

#[test]
fn inbuf_sets_write_flag() {
    let mut vq = Virtqueue::new(0, 4, 0);
    let got = vq.add_inbuf(0x4000, 4096);
    assert_eq!(got, Some(0));
    assert_eq!(vq.desc[0].flags, VIRTQ_DESC_F_WRITE);
}

#[test]
fn descriptors_run_out_and_come_back() {
    let mut vq = Virtqueue::new(1, 2, 0);
    assert_eq!(vq.add_outbuf(0x1000, 8), Some(0));
    assert_eq!(vq.add_outbuf(0x2000, 8), Some(1));
    // Both descriptors are with the device.
    assert_eq!(vq.add_outbuf(0x3000, 8), None);
    // The device returns descriptor zero; after seeing and reclaiming it, a
    // new buffer can be posted.
    vq.device_publish_used(0, 8);
    vq.advance_last_seen_used();
    assert!(vq.release_desc(0));
    assert_eq!(vq.add_outbuf(0x3000, 8), Some(0));
}

#[test]
fn used_index_never_runs_ahead_of_posted() {
    // 0 <= last_used_idx - last_seen_used <= queue size, and ring positions
    // are indices modulo the queue size.
    let mut vq = Virtqueue::new(0, 4, 0);
    for i in 0..4 {
        assert!(vq.add_inbuf(0x1000 * (i + 1), 64).is_some());
    }
    vq.device_publish_used(0, 10);
    vq.device_publish_used(1, 20);
    let unseen = vq.last_used_idx().wrapping_sub(vq.last_seen_used());
    assert!(unseen as usize <= 4);
    assert_eq!(unseen, 2);
    let (addr, len) = vq.get_used_buf(vq.last_seen_used() % vq.queue_size);
    assert_eq!(addr, 0x1000);
    assert_eq!(len, 10);
    vq.advance_last_seen_used();
    let (addr2, len2) = vq.get_used_buf(vq.last_seen_used() % vq.queue_size);
    assert_eq!(addr2, 0x2000);
    assert_eq!(len2, 20);
    vq.advance_last_seen_used();
    assert_eq!(vq.last_used_idx().wrapping_sub(vq.last_seen_used()), 0);
}

#[test]
fn release_desc_is_defensive() {
    let mut vq = Virtqueue::new(0, 4, 0);
    // Out of range, already free, no slot open: all rejected.
    assert!(!vq.release_desc(4));
    assert!(!vq.release_desc(0));
    assert!(vq.add_outbuf(0x1000, 8).is_some());
    vq.device_publish_used(0, 8);
    vq.advance_last_seen_used();
    assert!(vq.release_desc(0));
    assert!(!vq.release_desc(0));
}
