//! Event subsystem.
//!
//! Kernel components (device drivers) notify user-space processes of events.
//! A notifier keeps the handles of its listener processes; when an event
//! arrives, the kernel pushes a raw record of it into each listener's event
//! queue, a ring buffer shared with the process.

use vstd::prelude::*;
use crate::atomic_ring_buffer::{AtomicRingBuffer, RING_HEADER_SIZE};

verus! {

/// Raw event type tag for a received packet.
pub const EVENT_PACKET_RX: usize = 0x01;

/// A kernel event.
#[derive(Clone, Copy, Debug, PartialEq, Eq, Structural)]
pub enum Event {
    PacketIO { addr: usize, len: usize },
}

/// The memory layout of an event record in an event queue, as promised to
/// user space: a type word, an address word and a length word.
#[derive(Clone, Copy, Debug, PartialEq, Eq, Structural)]
pub struct RawEvent {
    pub type_: usize,
    pub addr: usize,
    pub len: usize,
}

/// The raw record that `ev` is delivered as.
pub open spec fn raw_of_event(ev: Event) -> RawEvent {
    match ev {
        Event::PacketIO { addr, len } => RawEvent { type_: EVENT_PACKET_RX as usize, addr, len },
    }
}

/// An event listener: something the kernel can hand an event to.
pub trait EventListener {
    /// What must hold of the listener for delivery to be possible.
    spec fn listener_wf(&self) -> bool;

    /// Delivers one event to the listener.
    fn on_event(&mut self, ev: Event)
        requires
            old(self).listener_wf(),
        ensures
            final(self).listener_wf(),
    ;
}

/// An event queue between the kernel and one user-space process.
pub struct EventQueue {
    pub ring_buffer: AtomicRingBuffer<RawEvent>,
}

impl EventQueue {
    pub open spec fn wf(&self) -> bool {
        self.ring_buffer.wf()
    }

    /// The pending raw events, oldest first.
    pub open spec fn view_spec(&self) -> Seq<RawEvent> {
        self.ring_buffer@
    }

    /// Constructs an event queue over the shared memory region at `buf` of
    /// `size` bytes.
    pub fn new(buf: usize, size: usize) -> (r: EventQueue)
        requires
            size >= RING_HEADER_SIZE + 24,
            size < 0x1_0000_0000,
        ensures
            r.wf(),
            r.view_spec() =~= Seq::<RawEvent>::empty(),
            r.ring_buffer.base_addr_spec() == buf,
    {
        EventQueue { ring_buffer: AtomicRingBuffer::new(buf, size, 24) }
    }

    /// Delivers `event` into the queue as a raw record; the event is dropped
    /// when the queue is full.
    pub fn emplace(&mut self, event: Event) -> (r: bool)
        requires
            old(self).wf(),
        ensures
            final(self).wf(),
            final(self).ring_buffer.capacity_spec() == old(self).ring_buffer.capacity_spec(),
            final(self).ring_buffer.base_addr_spec() == old(self).ring_buffer.base_addr_spec(),
            r == (old(self).view_spec().len() < old(self).ring_buffer.capacity_spec()),
            r ==> final(self).view_spec() == old(self).view_spec().push(raw_of_event(event)),
            !r ==> final(self).view_spec() == old(self).view_spec(),
    {
        let raw_event = match event {
            Event::PacketIO { addr, len } => RawEvent { type_: EVENT_PACKET_RX, addr, len },
        };
        self.ring_buffer.emplace(raw_event)
    }
}

/// An event notifier: a named source of events with a list of listener
/// process handles. The kernel resolves the handles and delivers to each
/// listener's event queue.
pub struct EventNotifier {
    name: &'static str,
    listeners: Vec<usize>,
}

impl EventNotifier {
    pub closed spec fn listeners_spec(&self) -> Seq<usize> {
        self.listeners@
    }

    pub fn new(name: &'static str) -> (r: EventNotifier)
        ensures
            r.listeners_spec() =~= Seq::<usize>::empty(),
    {
        EventNotifier { name, listeners: Vec::new() }
    }

    /// The name of the event source.
    pub fn name(&self) -> &'static str {
        self.name
    }

    /// Registers the process with handle `listener` as a listener.
    pub fn add_listener(&mut self, listener: usize)
        ensures
            final(self).listeners_spec() == old(self).listeners_spec().push(listener),
    {
        self.listeners.push(listener);
    }

    /// Number of registered listeners.
    pub fn num_listeners(&self) -> (r: usize)
        ensures
            r == self.listeners_spec().len(),
    {
        self.listeners.len()
    }

    /// The listener handle at position `i`.
    pub fn listener_at(&self, i: usize) -> (r: usize)
        requires
            i < self.listeners_spec().len(),
        ensures
            r == self.listeners_spec()[i as int],
    {
        self.listeners[i]
    }
}

} // verus!
