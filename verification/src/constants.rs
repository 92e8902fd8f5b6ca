//! Physical constants that are exact integers in SI units.

use vstd::prelude::*;

verus! {

/// Speed of light in vacuum (m/s). Exact by the definition of the metre.
pub const C_0: u64 = 299_792_458;

} // verus!
