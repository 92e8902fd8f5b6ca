//! Preset vector fields for demonstration.

use vstd::prelude::*;

verus! {

/// Preset vector fields F(x, y, z).
#[derive(Debug, Clone, Copy, PartialEq, Eq, Structural)]
pub enum VectorFieldPreset {
    /// F = (x, y, z): radial outward (source)
    RadialOutward,
    /// F = (-y, x, 0): 2D rotation (vortex)
    Rotation2D,
    /// F = (y, -x, 0): clockwise rotation
    RotationCW,
    /// F = (x², xy, 0): non-uniform
    NonUniform,
    /// F = (1, 0, 0): uniform in x
    UniformX,
    /// F = (-x, -y, -z): radial inward (sink)
    RadialInward,
}

} // verus!
