//! Decisions of template helpers.
use vstd::prelude::*;

verus! {

/// A block helper that renders its block when a program is installed, or,
/// when `positive` is false, when it is not.
pub struct IfInstalledHelper {
    pub positive: bool,
}

impl IfInstalledHelper {
    /// Whether the block is rendered, given whether the program is installed.
    pub fn renders_block(&self, installed: bool) -> (r: bool)
        ensures
            r == (installed == self.positive),
    {
        installed == self.positive
    }
}

} // verus!
