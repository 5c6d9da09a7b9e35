//! Device namespace and per-process device descriptors.
//!
//! Devices are registered under a name in a kernel-wide namespace that only
//! grows after boot; a process attaches a device to its descriptor table
//! and addresses it with a small integer descriptor from then on.

use vstd::prelude::*;
use crate::net::VirtioNetDevice;

verus! {

/// Configuration option: the six bytes of the device's MAC address.
pub const CONFIG_ETHERNET_MAC_ADDRESS: i32 = 0;

/// Configuration option: the eight-byte user-visible address of the
/// device's submission queue.
pub const CONFIG_IO_QUEUE: i32 = 1;

/// A device configuration option.
pub type ConfigOption = i32;

/// A device descriptor as user space sees it: a small non-negative integer,
/// or a negative error.
#[derive(Clone, Copy, Debug, PartialEq, Eq, Structural)]
pub struct DeviceDesc(pub i32);

impl DeviceDesc {
    /// A descriptor as received from user space.
    pub fn from_user(desc: i32) -> (r: DeviceDesc)
        ensures
            r == DeviceDesc(desc),
    {
        DeviceDesc(desc)
    }

    /// The raw value handed back to user space.
    pub fn to_user(&self) -> (r: i32)
        ensures
            r == self.0,
    {
        self.0
    }

    /// The descriptor-table index, when the descriptor is non-negative.
    pub fn to_idx(&self) -> (r: Option<usize>)
        ensures
            r is Some <==> self.0 >= 0,
            r matches Some(i) ==> i == self.0,
    {
        if self.0 >= 0 {
            Some(self.0 as usize)
        } else {
            None
        }
    }
}

/// A named device in the kernel namespace.
pub struct Device {
    /// The name the device is exported under.
    pub name: String,
    /// The driver state behind the name.
    pub ops: VirtioNetDevice,
}

impl Device {
    pub fn new(name: String, ops: VirtioNetDevice) -> (r: Device)
        ensures
            r.name@ == name@,
            r.ops == ops,
    {
        Device { name, ops }
    }

    /// Expresses interest in an event stream. Every listener currently
    /// receives every packet; flow filtering is not part of this kernel.
    pub fn subscribe(&self, _events: &String) {
    }
}

/// The kernel-wide device namespace, append-only after boot.
pub struct Namespace {
    pub devices: Vec<Device>,
}

impl Namespace {
    pub fn new() -> (r: Namespace)
        ensures
            r.devices@.len() == 0,
    {
        Namespace { devices: Vec::new() }
    }

    /// Registers a device; the namespace only grows.
    pub fn add(&mut self, device: Device)
        ensures
            final(self).devices@ == old(self).devices@.push(device),
    {
        self.devices.push(device);
    }

    /// The position of the device registered under `name`.
    pub fn lookup(&self, name: &String) -> (r: Option<usize>)
        ensures
            r matches Some(i) ==> i < self.devices@.len() && self.devices@[i as int].name@
                == name@,
            r is None ==> forall|i: int|
                0 <= i < self.devices@.len() ==> (#[trigger] self.devices@[i]).name@ != name@,
    {
        let n = self.devices.len();
        let mut i: usize = 0;
        while i < n
            invariant
                n == self.devices@.len(),
                i <= n,
                forall|k: int|
                    0 <= k < i ==> (#[trigger] self.devices@[k]).name@ != name@,
            decreases n - i,
        {
            if self.devices[i].name == *name {
                return Some(i);
            }
            i += 1;
        }
        None
    }
}

/// Registers a device in the namespace.
pub fn register_device(namespace: &mut Namespace, device: Device)
    ensures
        final(namespace).devices@ == old(namespace).devices@.push(device),
{
    namespace.add(device);
}

/// A process's device descriptor table: descriptor values index it, entries
/// point into the namespace.
pub struct DeviceSpace {
    pub desc_table: Vec<usize>,
}

impl DeviceSpace {
    pub fn new() -> (r: DeviceSpace)
        ensures
            r.desc_table@.len() == 0,
    {
        DeviceSpace { desc_table: Vec::new() }
    }

    /// Attaches the namespace device at `device_idx` and returns the fresh
    /// descriptor for it.
    pub fn attach(&mut self, device_idx: usize) -> (r: DeviceDesc)
        requires
            old(self).desc_table@.len() < 0x7fff_ffff,
        ensures
            final(self).desc_table@ == old(self).desc_table@.push(device_idx),
            r.0 == old(self).desc_table@.len(),
    {
        let idx = self.desc_table.len();
        self.desc_table.push(device_idx);
        DeviceDesc(idx as i32)
    }

    /// The namespace position behind descriptor `desc`, when it is valid.
    pub fn lookup(&self, desc: DeviceDesc) -> (r: Option<usize>)
        ensures
            r is Some <==> 0 <= desc.0 < self.desc_table@.len(),
            r matches Some(d) ==> d == self.desc_table@[desc.0 as int],
    {
        match desc.to_idx() {
            None => None,
            Some(idx) => {
                if idx < self.desc_table.len() {
                    Some(self.desc_table[idx])
                } else {
                    None
                }
            },
        }
    }
}

} // verus!
