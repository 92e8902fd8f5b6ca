//! The event schedule of a bounce diagram.
//!
//! A wave launched at the source end of a line at time zero meets the load
//! after one transit time, the source after two, the load again after three,
//! and so on. Event `k` of the diagram happens at `k` transit times. Event 0
//! is the launch; every later event multiplies the travelling amplitude by
//! the reflection coefficient of the end that the wave meets. The amplitude
//! of event `k` therefore carries one factor of the load's coefficient for
//! each of its reflections at the load and one of the source's for each at
//! the source; with a matched source, whose coefficient is zero, nothing
//! travels after the first arrival at the load.

use vstd::prelude::*;

verus! {

/// Whether the wave of event `bounce` is at the load end of the line: the
/// odd events are at the load, the even ones at the source.
pub open spec fn arrives_at_load(bounce: nat) -> bool {
    bounce % 2 == 1
}

/// How many times the wave has been reflected by the load once event
/// `bounce` has happened.
pub open spec fn load_reflections(bounce: nat) -> nat {
    (bounce + 1) / 2
}

/// How many times the wave has been reflected by the source once event
/// `bounce` has happened. The launch, event 0, is no reflection.
pub open spec fn source_reflections(bounce: nat) -> nat {
    bounce / 2
}

/// One entry of the schedule: the number of the event and the end of the
/// line at which it happens.
#[derive(Debug, Clone, Copy, PartialEq, Eq, Structural)]
pub struct BounceStep {
    /// Bounce number (0 = initial, 1 = first reflection, etc.)
    pub bounce: usize,
    /// Location: true = at load, false = at source
    pub at_load: bool,
}

impl BounceStep {
    /// The entry that belongs at place `index` of a schedule.
    pub open spec fn is_step(&self, index: int) -> bool {
        self.bounce == index && self.at_load == arrives_at_load(index as nat)
    }
}

/// Location of event `bounce`: true = at load, false = at source.
pub fn bounce_at_load(bounce: usize) -> (at_load: bool)
    ensures
        at_load == arrives_at_load(bounce as nat),
{
    bounce % 2 == 1
}

/// The schedule of a diagram with `num_bounces` reflections after the launch:
/// events 0 to `num_bounces`, in order of time.
pub fn bounce_schedule(num_bounces: usize) -> (steps: Vec<BounceStep>)
    requires
        num_bounces < usize::MAX,
    ensures
        steps@.len() == num_bounces + 1,
        forall|i: int| 0 <= i < steps@.len() ==> (#[trigger] steps@[i]).is_step(i),
{
    let mut steps: Vec<BounceStep> = Vec::with_capacity(num_bounces + 1);
    steps.push(BounceStep { bounce: 0, at_load: false });
    let mut i: usize = 1;
    while i <= num_bounces
        invariant
            1 <= i <= num_bounces + 1,
            num_bounces < usize::MAX,
            steps@.len() == i,
            forall|j: int| 0 <= j < steps@.len() ==> (#[trigger] steps@[j]).is_step(j),
        decreases num_bounces + 1 - i,
    {
        let at_load = bounce_at_load(i);
        steps.push(BounceStep { bounce: i, at_load });
        i = i + 1;
    }
    steps
}

/// Consecutive events happen at opposite ends of the line, and the launch is
/// at the source.
pub proof fn lemma_ends_alternate(bounce: nat)
    ensures
        !arrives_at_load(0),
        arrives_at_load(bounce + 1) == !arrives_at_load(bounce),
{
}

/// Each event after the launch adds one reflection at the end where it
/// happens and none at the other, so that after event `bounce` the wave has
/// been reflected `bounce` times in all.
pub proof fn lemma_reflections_accumulate(bounce: nat)
    ensures
        load_reflections(0) == 0,
        source_reflections(0) == 0,
        arrives_at_load(bounce + 1) ==> load_reflections(bounce + 1) == load_reflections(bounce)
            + 1 && source_reflections(bounce + 1) == source_reflections(bounce),
        !arrives_at_load(bounce + 1) ==> load_reflections(bounce + 1) == load_reflections(bounce)
            && source_reflections(bounce + 1) == source_reflections(bounce) + 1,
        load_reflections(bounce) + source_reflections(bounce) == bounce,
{
}

/// The first arrival at the load has met the load once and the source not at
/// all; every event from the second on has met the source at least once.
pub proof fn lemma_later_bounces_met_source(bounce: nat)
    requires
        bounce >= 2,
    ensures
        source_reflections(bounce) >= 1,
        load_reflections(1) == 1,
        source_reflections(1) == 0,
{
}

} // verus!
