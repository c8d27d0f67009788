//! The runtime.

use vstd::prelude::*;

verus! {

/// Handle to the virtual runtime.
#[derive(Debug, Clone, Copy, PartialEq, Eq, Structural)]
pub struct Handle;

impl Handle {
    /// Returns a Handle view over the currently running Runtime.
    pub fn current() -> (r: Self)
        ensures
            r == Handle,
    {
        Handle
    }
}

} // verus!
