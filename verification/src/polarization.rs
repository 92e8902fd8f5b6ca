//! Classification of a plane wave's polarization.

use vstd::prelude::*;

verus! {

/// Classification of polarization type.
#[derive(Debug, Clone, Copy, PartialEq, Eq, Structural)]
pub enum PolarizationType {
    Linear,
    Circular,
    Elliptical,
}

/// Rotation sense (handedness).
#[derive(Debug, Clone, Copy, PartialEq, Eq, Structural)]
pub enum RotationSense {
    LeftHand,
    RightHand,
    /// Linear polarization does not rotate.
    NoRotation,
}

} // verus!
