use manticore::device::{DeviceDesc, DeviceSpace};
use manticore::errno::{Error, EINVAL, ENOMEM, ENOSYS};
use manticore::print::Console;

#[test]
fn errno_values() {
    assert_eq!(ENOMEM, 12);
    assert_eq!(EINVAL, 22);
    assert_eq!(ENOSYS, 38);
    let e = Error::new(EINVAL);
    assert_eq!(e.errno(), 22);
}

#[test]
fn device_descriptors_round_trip() {
    let d = DeviceDesc::from_user(3);
    assert_eq!(d.to_user(), 3);
    assert_eq!(d.to_idx(), Some(3));
    let bad = DeviceDesc::from_user(-1);
    assert_eq!(bad.to_user(), -1);
    assert_eq!(bad.to_idx(), None);
}

#[test]
fn device_space_attach_and_lookup() {
    let mut ds = DeviceSpace::new();
    let d0 = ds.attach(7);
    let d1 = ds.attach(9);
    assert_eq!(d0.to_user(), 0);
    assert_eq!(d1.to_user(), 1);
    assert_eq!(ds.lookup(d0), Some(7));
    assert_eq!(ds.lookup(d1), Some(9));
    assert_eq!(ds.lookup(DeviceDesc::from_user(2)), None);
    assert_eq!(ds.lookup(DeviceDesc::from_user(-5)), None);
}

#[test]
fn console_accumulates_bytes() {
    let mut c = Console::new();
    c.write_str("virtio-net: ");
    c.write_str("ready");
    assert_eq!(c.out, b"virtio-net: ready".to_vec());
}
