//! Processes.
//!
//! A process is a task-state handle, an address space, a device descriptor
//! table, an event queue shared with user space, and a page-fault fixup
//! address for recovering from faulting copies to user memory.

use vstd::prelude::*;
use crate::device::DeviceSpace;
use crate::event::{Event, EventListener, EventQueue};
use crate::vm::VMAddressSpace;

verus! {

/// What a process is doing.
#[derive(Clone, Copy, Debug, PartialEq, Eq, Structural)]
pub enum ProcessState {
    RUNNABLE,
    RUNNING,
    WAITING,
}

/// An opaque handle to a hardware register snapshot.
pub type TaskState = usize;

/// A process.
pub struct Process {
    /// What the process is doing.
    pub state: ProcessState,
    /// Handle to the process's hardware context.
    pub task_state: TaskState,
    /// The program counter the process starts at.
    pub entry_point: u64,
    /// The top of the process's stack.
    pub stack_top: u64,
    /// The process's address space.
    pub vmspace: VMAddressSpace,
    /// Devices the process has acquired.
    pub device_space: DeviceSpace,
    /// Where the fault handler resumes a faulting copy to user memory.
    pub page_fault_fixup: u64,
    /// Events for user space, in a queue shared with it.
    pub event_queue: EventQueue,
}

impl Process {
    pub open spec fn wf(&self) -> bool {
        &&& self.vmspace.wf()
        &&& self.event_queue.wf()
    }

    /// A fresh runnable process.
    pub fn new(
        task_state: TaskState,
        entry_point: u64,
        stack_top: u64,
        vmspace: VMAddressSpace,
        event_queue: EventQueue,
    ) -> (r: Process)
        requires
            vmspace.wf(),
            event_queue.wf(),
        ensures
            r.wf(),
            r.state == ProcessState::RUNNABLE,
            r.task_state == task_state,
            r.entry_point == entry_point,
            r.stack_top == stack_top,
            r.vmspace == vmspace,
            r.event_queue == event_queue,
            r.device_space.desc_table@.len() == 0,
            r.page_fault_fixup == 0,
    {
        Process {
            state: ProcessState::RUNNABLE,
            task_state,
            entry_point,
            stack_top,
            vmspace,
            device_space: DeviceSpace::new(),
            page_fault_fixup: 0,
            event_queue,
        }
    }

    /// The program counter the process starts at.
    pub fn entry_point(&self) -> (r: u64)
        ensures
            r == self.entry_point,
    {
        self.entry_point
    }

    /// The top of the process's stack.
    pub fn stack_top(&self) -> (r: u64)
        ensures
            r == self.stack_top,
    {
        self.stack_top
    }
}

impl EventListener for Process {
    /// A process can take an event when its event queue is well-formed.
    open spec fn listener_wf(&self) -> bool {
        self.event_queue.wf()
    }

    /// Delivers an event into the process's event queue; a full queue drops
    /// the event.
    fn on_event(&mut self, ev: Event) {
        let _ = self.event_queue.emplace(ev);
    }
}

} // verus!
