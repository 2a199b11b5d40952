use unrun::control::{
    FrameAction, FrameFacts, Objective, accept_bonus_terminal, current_objective, bonus_all_solved, bonus_submission_events,
    decide_frame, next_stage,
};

#[test]
fn open_editor_takes_the_whole_frame() {
    let facts = FrameFacts {
        editor_open: true,
        reset_pressed: true,
        nearby_terminal: Some(1),
        interact_pressed: true,
        ..FrameFacts::default()
    };
    assert_eq!(decide_frame(&facts), FrameAction::Edit);
}

#[test]
fn interacting_at_a_terminal_opens_the_editor_before_reset() {
    let facts = FrameFacts {
        nearby_terminal: Some(2),
        interact_pressed: true,
        reset_pressed: true,
        ..FrameFacts::default()
    };
    assert_eq!(decide_frame(&facts), FrameAction::OpenEditor { terminal: 2 });
    let away = FrameFacts {
        nearby_terminal: None,
        interact_pressed: true,
        reset_pressed: true,
        ..FrameFacts::default()
    };
    assert_eq!(decide_frame(&away), FrameAction::Reset);
}

#[test]
fn completed_stage_advances_holds_or_rewinds() {
    let advance = FrameFacts {
        completed: true,
        advance_pressed: true,
        rewind_down: true,
        ..FrameFacts::default()
    };
    assert_eq!(decide_frame(&advance), FrameAction::Advance);
    let hold = FrameFacts {
        completed: true,
        ..FrameFacts::default()
    };
    assert_eq!(decide_frame(&hold), FrameAction::Hold);
    let rewind = FrameFacts {
        completed: true,
        rewind_down: true,
        ..FrameFacts::default()
    };
    assert_eq!(decide_frame(&rewind), FrameAction::Simulate { rewind: true });
}

#[test]
fn advance_is_ignored_before_completion() {
    let facts = FrameFacts {
        advance_pressed: true,
        ..FrameFacts::default()
    };
    assert_eq!(decide_frame(&facts), FrameAction::Simulate { rewind: false });
}

#[test]
fn final_stage_wraps_to_stage_zero() {
    assert_eq!(next_stage(0, 4), 1);
    assert_eq!(next_stage(2, 4), 3);
    assert_eq!(next_stage(3, 4), 0);
    assert_eq!(next_stage(0, 1), 0);
}

#[test]
fn third_accepted_terminal_arms_the_fixed_point_once() {
    let mut solved = [false; 3];
    let first = accept_bonus_terminal(&mut solved, 1, false);
    assert_eq!(solved, [false, true, false]);
    assert_eq!(first.solved_count, 1);
    assert!(!first.all_solved && !first.arm_fixed_point);

    let again = accept_bonus_terminal(&mut solved, 1, false);
    assert_eq!(again.solved_count, 1);

    accept_bonus_terminal(&mut solved, 0, false);
    let last = accept_bonus_terminal(&mut solved, 2, false);
    assert!(bonus_all_solved(&solved));
    assert_eq!(last.solved_count, 3);
    assert!(last.all_solved && last.arm_fixed_point);

    let armed = accept_bonus_terminal(&mut solved, 2, true);
    assert!(armed.all_solved && !armed.arm_fixed_point);
}

#[test]
fn accepted_terminal_fires_fixed_point_and_latches_when_all_solved() {
    let mut solved = [true, true, false];
    let partial = accept_bonus_terminal(&mut [false; 3], 0, false);
    let events = bonus_submission_events(&partial);
    assert!(events.fixed_point_activated && !events.gate_latched);
    let last = accept_bonus_terminal(&mut solved, 2, false);
    let events = bonus_submission_events(&last);
    assert!(events.fixed_point_activated && events.gate_latched);
    assert!(!events.jumped && !events.completed && !events.stage_changed);
}

#[test]
fn objective_follows_fixed_point_door_and_terminals() {
    assert_eq!(current_objective(false, 0, false, false), Objective::TouchFixedPoint);
    assert_eq!(current_objective(false, 0, true, false), Objective::ReverseDoor);
    assert_eq!(current_objective(false, 0, true, true), Objective::ReachExit);
    assert_eq!(
        current_objective(true, 2, true, false),
        Objective::HackTerminals { solved: 2 }
    );
    assert_eq!(current_objective(true, 3, true, false), Objective::ReverseDoor);
    assert_eq!(current_objective(true, 3, true, true), Objective::ReachExit);
}
