//! Kernel error values, shared by the in-kernel result surface and the
//! system-call boundary (where they appear negated).

use vstd::prelude::*;

verus! {

/// Out of memory.
pub const ENOMEM: i32 = 12;
/// Invalid argument.
pub const EINVAL: i32 = 22;
/// Function not implemented.
pub const ENOSYS: i32 = 38;

/// A kernel error carrying an errno value.
#[derive(Clone, Copy, Debug, PartialEq, Eq, Structural)]
pub struct Error(pub i32);

impl Error {
    pub fn new(err: i32) -> (r: Error)
        ensures
            r.0 == err,
    {
        Error(err)
    }

    /// The errno value this error carries.
    pub fn errno(&self) -> (r: i32)
        ensures
            r == self.0,
    {
        self.0
    }
}

} // verus!
