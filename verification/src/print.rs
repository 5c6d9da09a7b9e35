//! Console output.
//!
//! The console hardware accepts one byte at a time; the model accumulates
//! everything written so the boot transcript is a value.

use vstd::prelude::*;
use vstd::string::StringSliceAdditionalSpecFns;

verus! {

/// The kernel console: everything written to it, in order.
pub struct Console {
    pub out: Vec<u8>,
}

impl Console {
    pub fn new() -> (r: Console)
        ensures
            r.out@.len() == 0,
    {
        Console { out: Vec::new() }
    }

    /// Writes every byte of `s` to the console.
    pub fn write_str(&mut self, s: &str)
        requires
            old(self).out@.len() + s.spec_bytes().len() <= usize::MAX,
        ensures
            final(self).out@ == old(self).out@ + s.spec_bytes(),
    {
        let bytes = s.as_bytes();
        let n = bytes.len();
        let mut i: usize = 0;
        while i < n
            invariant
                bytes@ == s.spec_bytes(),
                n == bytes@.len(),
                i <= n,
                old(self).out@.len() + n <= usize::MAX,
                self.out@ == old(self).out@ + bytes@.take(i as int),
            decreases n - i,
        {
            let b = bytes[i];
            self.out.push(b);
            i += 1;
            proof {
                assert(self.out@ =~= old(self).out@ + bytes@.take(i as int));
            }
        }
        proof {
            assert(self.out@ =~= old(self).out@ + s.spec_bytes());
        }
    }
}

} // verus!
