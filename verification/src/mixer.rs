//! What the audio layer does with the events of one frame.
//!
//! The decisions (muting, which effects to play, when the rewind drone starts
//! and stops, how loud the music runs) are made here; playing the sounds is
//! left to the program around the library.
use vstd::prelude::*;

use crate::events::GameEvents;

verus! {

/// What the audio layer remembers between frames.
#[derive(Clone, Copy, Debug, Default, PartialEq, Eq, Structural)]
pub struct MixerState {
    pub muted: bool,
    /// The rewind drone is playing.
    pub rewind_playing: bool,
}

/// A volume setting of a looping sound.
#[derive(Clone, Copy, Debug, PartialEq, Eq, Structural)]
pub enum LoopLevel {
    Silent,
    /// Lowered under the rewind drone.
    Ducked,
    Full,
}

/// What to do with the rewind drone this frame.
#[derive(Clone, Copy, Debug, PartialEq, Eq, Structural)]
pub enum DroneChange {
    Keep,
    Start,
    Stop,
}

/// The audio work of one frame.
#[derive(Clone, Copy, Debug, PartialEq, Eq, Structural)]
pub struct MixerPlan {
    pub play_jump: bool,
    pub play_fixed_point: bool,
    pub play_gate_latched: bool,
    pub play_stage_clear: bool,
    pub drone: DroneChange,
    /// The drone's volume, when it plays after this frame.
    pub drone_level: LoopLevel,
    pub music_level: LoopLevel,
}

/// The plan for a frame, given the state after the mute toggle.
pub open spec fn mixer_plan(muted: bool, was_playing: bool, events: GameEvents, rewinding: bool) -> MixerPlan {
    MixerPlan {
        play_jump: events.jumped && !muted,
        play_fixed_point: events.fixed_point_activated && !muted,
        play_gate_latched: events.gate_latched && !muted,
        play_stage_clear: events.completed && !muted,
        drone: if rewinding == was_playing {
            DroneChange::Keep
        } else if rewinding {
            DroneChange::Start
        } else {
            DroneChange::Stop
        },
        drone_level: if muted {
            LoopLevel::Silent
        } else {
            LoopLevel::Full
        },
        music_level: if muted {
            LoopLevel::Silent
        } else if rewinding {
            LoopLevel::Ducked
        } else {
            LoopLevel::Full
        },
    }
}

impl MixerState {
    /// Toggles muting when asked, then plans the frame's sounds: each event's
    /// effect unless muted, the drone started or stopped to follow rewinding,
    /// and the music silenced, ducked while rewinding, or at full volume.
    pub fn plan(&mut self, events: &GameEvents, rewinding: bool, mute_pressed: bool) -> (plan:
        MixerPlan)
        ensures
            final(self).muted == (old(self).muted != mute_pressed),
            final(self).rewind_playing == rewinding,
            plan == mixer_plan(final(self).muted, old(self).rewind_playing, *events, rewinding),
    {
        if mute_pressed {
            self.muted = !self.muted;
        }
        let muted = self.muted;
        let drone = if rewinding == self.rewind_playing {
            DroneChange::Keep
        } else if rewinding {
            DroneChange::Start
        } else {
            DroneChange::Stop
        };
        self.rewind_playing = rewinding;
        MixerPlan {
            play_jump: events.jumped && !muted,
            play_fixed_point: events.fixed_point_activated && !muted,
            play_gate_latched: events.gate_latched && !muted,
            play_stage_clear: events.completed && !muted,
            drone,
            drone_level: if muted {
                LoopLevel::Silent
            } else {
                LoopLevel::Full
            },
            music_level: if muted {
                LoopLevel::Silent
            } else if rewinding {
                LoopLevel::Ducked
            } else {
                LoopLevel::Full
            },
        }
    }
}

/// Law: muting silences every sound in every frame: no effect plays, the
/// drone is silent and the music is silent, rewinding or not.
pub proof fn lemma_muted_frames_are_silent(was_playing: bool, events: GameEvents, rewinding: bool)
    ensures
        ({
            let plan = mixer_plan(true, was_playing, events, rewinding);
            &&& !plan.play_jump && !plan.play_fixed_point && !plan.play_gate_latched
                && !plan.play_stage_clear
            &&& plan.music_level == LoopLevel::Silent
            &&& plan.drone_level == LoopLevel::Silent
        }),
{
}

/// Law: unmuted, the music is ducked exactly while rewinding and otherwise
/// plays at full volume, the drone plays at full volume, and every event's
/// effect plays.
pub proof fn lemma_unmuted_frames_follow_the_events(
    was_playing: bool,
    events: GameEvents,
    rewinding: bool,
)
    ensures
        ({
            let plan = mixer_plan(false, was_playing, events, rewinding);
            &&& plan.music_level == if rewinding {
                LoopLevel::Ducked
            } else {
                LoopLevel::Full
            }
            &&& plan.drone_level == LoopLevel::Full
            &&& plan.play_jump == events.jumped
            &&& plan.play_fixed_point == events.fixed_point_activated
            &&& plan.play_gate_latched == events.gate_latched
            &&& plan.play_stage_clear == events.completed
        }),
{
}

/// Law: the drone follows rewinding. It starts when rewinding begins, stops
/// when it ends, and is left alone otherwise, muted or not.
pub proof fn lemma_drone_follows_rewinding(
    muted: bool,
    was_playing: bool,
    events: GameEvents,
    rewinding: bool,
)
    ensures
        mixer_plan(muted, was_playing, events, rewinding).drone == if rewinding && !was_playing {
            DroneChange::Start
        } else if !rewinding && was_playing {
            DroneChange::Stop
        } else {
            DroneChange::Keep
        },
{
}

} // verus!
