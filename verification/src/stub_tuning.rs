//! Single-stub impedance matching: how a stub is terminated.

use vstd::prelude::*;

verus! {

/// Stub termination type.
#[derive(Debug, Clone, Copy, PartialEq, Eq, Structural)]
pub enum StubType {
    Open,
    Short,
}

} // verus!
