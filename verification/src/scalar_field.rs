//! Preset scalar fields for demonstration.

use vstd::prelude::*;

verus! {

/// Preset scalar fields f(x, y, z).
#[derive(Debug, Clone, Copy, PartialEq, Eq, Structural)]
pub enum ScalarFieldPreset {
    /// f = x² + y² + z² (paraboloid)
    Paraboloid,
    /// f = x² - y² (saddle)
    Saddle,
    /// f = sin(x)·cos(y)
    SinCos,
    /// f = 1/√(x² + y² + z²) (point source potential)
    InverseR,
    /// f = x·y·z
    Product,
    /// f = e^(-(x²+y²+z²)) (Gaussian)
    Gaussian,
}

} // verus!
