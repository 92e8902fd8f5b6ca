//! Direction of a travelling wave.

use vstd::prelude::*;

verus! {

/// Direction of wave propagation.
#[derive(Debug, Clone, Copy, PartialEq, Eq, Structural)]
pub enum Direction {
    PositiveX,
    NegativeX,
}

} // verus!
