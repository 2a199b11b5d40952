use unrun::events::GameEvents;
use unrun::mixer::{DroneChange, LoopLevel, MixerState};

#[test]
fn effects_play_for_events_unless_muted() {
    let mut mixer = MixerState::default();
    let events = GameEvents {
        jumped: true,
        completed: true,
        ..GameEvents::default()
    };
    let plan = mixer.plan(&events, false, false);
    assert!(plan.play_jump && plan.play_stage_clear);
    assert!(!plan.play_fixed_point && !plan.play_gate_latched);
    assert_eq!(plan.music_level, LoopLevel::Full);

    let muted = mixer.plan(&events, false, true);
    assert!(mixer.muted);
    assert!(!muted.play_jump && !muted.play_stage_clear);
    assert_eq!(muted.music_level, LoopLevel::Silent);

    mixer.plan(&GameEvents::default(), false, true);
    assert!(!mixer.muted);
}

#[test]
fn drone_follows_rewinding_and_ducks_the_music() {
    let mut mixer = MixerState::default();
    let start = mixer.plan(&GameEvents::default(), true, false);
    assert_eq!(start.drone, DroneChange::Start);
    assert_eq!(start.drone_level, LoopLevel::Full);
    assert_eq!(start.music_level, LoopLevel::Ducked);
    assert!(mixer.rewind_playing);

    let keep = mixer.plan(&GameEvents::default(), true, false);
    assert_eq!(keep.drone, DroneChange::Keep);

    let stop = mixer.plan(&GameEvents::default(), false, false);
    assert_eq!(stop.drone, DroneChange::Stop);
    assert_eq!(stop.music_level, LoopLevel::Full);
    assert!(!mixer.rewind_playing);
}
