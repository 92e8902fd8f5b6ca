//! Ideal transformers, described by their turn counts.

use vstd::prelude::*;

verus! {

/// A simple transformer (ideal).
#[derive(Debug, Clone, Copy, PartialEq, Eq, Structural)]
pub struct IdealTransformer {
    /// Primary turns
    pub n_primary: usize,
    /// Secondary turns
    pub n_secondary: usize,
}

impl IdealTransformer {
    pub fn new(n_primary: usize, n_secondary: usize) -> (transformer: Self)
        ensures
            transformer.n_primary == n_primary,
            transformer.n_secondary == n_secondary,
    {
        Self { n_primary, n_secondary }
    }

    /// Whether the secondary winding has more turns than the primary, so that
    /// the secondary voltage exceeds the primary voltage.
    pub open spec fn steps_up(&self) -> bool {
        self.n_secondary > self.n_primary
    }

    /// Is step-up transformer?
    pub fn is_step_up(&self) -> (step_up: bool)
        ensures
            step_up == self.steps_up(),
    {
        self.n_secondary > self.n_primary
    }
}

} // verus!
