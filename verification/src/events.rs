//! Events that one game update reports to the audio layer.
use vstd::prelude::*;

verus! {

/// What one simulation step reported.
#[derive(Clone, Copy, Debug, Default, PartialEq, Eq, Structural)]
pub struct StepEvents {
    pub jumped: bool,
    pub fixed_point_activated: bool,
    pub completed: bool,
}

/// What one game update reported.
#[derive(Clone, Copy, Debug, Default, PartialEq, Eq, Structural)]
pub struct GameEvents {
    pub jumped: bool,
    pub fixed_point_activated: bool,
    pub gate_latched: bool,
    pub completed: bool,
    pub stage_changed: bool,
}

impl GameEvents {
    /// Adds the events of one simulation step: an event is reported when
    /// any step of the update reported it.
    pub fn include_step(&mut self, events: StepEvents)
        ensures
            final(self).jumped == (old(self).jumped || events.jumped),
            final(self).fixed_point_activated == (old(self).fixed_point_activated
                || events.fixed_point_activated),
            final(self).completed == (old(self).completed || events.completed),
            final(self).gate_latched == old(self).gate_latched,
            final(self).stage_changed == old(self).stage_changed,
    {
        self.jumped = self.jumped || events.jumped;
        self.fixed_point_activated = self.fixed_point_activated || events.fixed_point_activated;
        self.completed = self.completed || events.completed;
    }
}

} // verus!
