//! The decisions of one frame of the game loop.
//!
//! The loop itself (timing, physics, drawing) belongs to the program around
//! the library; it reports what happened in a [`FrameFacts`] and performs the
//! [`FrameAction`] that [`decide_frame`] returns.
use vstd::prelude::*;

use crate::events::GameEvents;

verus! {

/// Number of bonus terminals.
pub const BONUS_TERMINALS: usize = 3;

/// What the loop knows at the start of a frame.
#[derive(Clone, Copy, Debug, Default, PartialEq, Eq, Structural)]
pub struct FrameFacts {
    /// The code editor is open.
    pub editor_open: bool,
    /// The unsolved bonus terminal the player stands at, if any.
    pub nearby_terminal: Option<usize>,
    pub interact_pressed: bool,
    pub reset_pressed: bool,
    pub advance_pressed: bool,
    pub rewind_down: bool,
    /// The current stage has been completed.
    pub completed: bool,
}

/// What the loop does with a frame.
#[derive(Clone, Copy, Debug, PartialEq, Eq, Structural)]
pub enum FrameAction {
    /// Feed the frame's input to the open editor and nothing else.
    Edit,
    /// Open the editor on this terminal.
    OpenEditor { terminal: usize },
    /// Restart the current stage.
    Reset,
    /// Move on to the next stage.
    Advance,
    /// The stage is complete and nothing rewinds: hold the world still.
    Hold,
    /// Run the fixed-step simulation, backwards when `rewind` is set.
    Simulate { rewind: bool },
}

/// The action for a frame, by the first rule that applies: an open editor
/// takes the frame; interacting at a terminal opens the editor on it; reset
/// restarts; on a completed stage, advance moves on and anything but a
/// rewind holds; otherwise the simulation runs.
pub open spec fn frame_action(facts: FrameFacts) -> FrameAction {
    if facts.editor_open {
        FrameAction::Edit
    } else if facts.nearby_terminal is Some && facts.interact_pressed {
        FrameAction::OpenEditor { terminal: facts.nearby_terminal->0 }
    } else if facts.reset_pressed {
        FrameAction::Reset
    } else if facts.completed && facts.advance_pressed {
        FrameAction::Advance
    } else if facts.completed && !facts.rewind_down {
        FrameAction::Hold
    } else {
        FrameAction::Simulate { rewind: facts.rewind_down }
    }
}

/// Decides what a frame does.
pub fn decide_frame(facts: &FrameFacts) -> (action: FrameAction)
    ensures
        action == frame_action(*facts),
{
    if facts.editor_open {
        return FrameAction::Edit;
    }
    if let Some(terminal) = facts.nearby_terminal {
        if facts.interact_pressed {
            return FrameAction::OpenEditor { terminal };
        }
    }
    if facts.reset_pressed {
        return FrameAction::Reset;
    }
    if facts.completed && facts.advance_pressed {
        return FrameAction::Advance;
    }
    if facts.completed && !facts.rewind_down {
        return FrameAction::Hold;
    }
    FrameAction::Simulate { rewind: facts.rewind_down }
}

/// The stage after `stage`, wrapping from the last stage to the first.
pub fn next_stage(stage: usize, stage_count: usize) -> (next: usize)
    requires
        stage < stage_count,
    ensures
        next == (stage + 1) % (stage_count as int),
        next < stage_count,
{
    if stage + 1 == stage_count {
        assert((stage_count as int) % (stage_count as int) == 0) by {
            vstd::arithmetic::div_mod::lemma_mod_self_0(stage_count as int);
        }
        0
    } else {
        assert((stage + 1) % (stage_count as int) == stage + 1) by {
            vstd::arithmetic::div_mod::lemma_small_mod((stage + 1) as nat, stage_count as nat);
        }
        stage + 1
    }
}

/// Number of `true` entries.
pub open spec fn count_true(flags: Seq<bool>) -> nat
    decreases flags.len(),
{
    if flags.len() == 0 {
        0
    } else {
        count_true(flags.drop_last()) + if flags.last() {
            1nat
        } else {
            0nat
        }
    }
}

/// Whether every terminal is solved.
pub open spec fn all_true(flags: Seq<bool>) -> bool {
    forall|i: int| 0 <= i < flags.len() ==> #[trigger] flags[i]
}

/// What accepting a terminal's solution leads to.
#[derive(Clone, Copy, Debug, PartialEq, Eq, Structural)]
pub struct BonusAcceptance {
    /// Every terminal is now solved.
    pub all_solved: bool,
    /// The fixed point is to be armed now: every terminal is solved and its
    /// door was not armed yet.
    pub arm_fixed_point: bool,
    /// How many terminals are solved now.
    pub solved_count: usize,
}

/// Whether every bonus terminal is solved.
pub fn bonus_all_solved(solved: &[bool; 3]) -> (all: bool)
    ensures
        all == all_true(solved@),
{
    solved[0] && solved[1] && solved[2]
}

/// Marks `terminal` solved and reports what follows from it.
pub fn accept_bonus_terminal(solved: &mut [bool; 3], terminal: usize, door_armed: bool) -> (outcome:
    BonusAcceptance)
    requires
        terminal < BONUS_TERMINALS,
    ensures
        final(solved)@ == old(solved)@.update(terminal as int, true),
        outcome.all_solved == all_true(final(solved)@),
        outcome.arm_fixed_point == (outcome.all_solved && !door_armed),
        outcome.solved_count == count_true(final(solved)@),
{
    solved[terminal] = true;
    let all = bonus_all_solved(solved);
    let mut count: usize = 0;
    let mut i: usize = 0;
    while i < BONUS_TERMINALS
        invariant
            i <= 3,
            count == count_true(solved@.subrange(0, i as int)),
            count <= i,
        decreases 3 - i,
    {
        proof {
            assert(solved@.subrange(0, i + 1).drop_last() =~= solved@.subrange(0, i as int));
        }
        if solved[i] {
            count += 1;
        }
        i += 1;
    }
    assert(solved@.subrange(0, 3) =~= solved@);
    BonusAcceptance { all_solved: all, arm_fixed_point: all && !door_armed, solved_count: count }
}

/// The events of a frame in which the editor accepted a terminal's solution:
/// the fixed point reacts, and the door latches once every terminal is solved.
pub fn bonus_submission_events(outcome: &BonusAcceptance) -> (events: GameEvents)
    ensures
        events == (GameEvents {
            jumped: false,
            fixed_point_activated: true,
            gate_latched: outcome.all_solved,
            completed: false,
            stage_changed: false,
        }),
{
    GameEvents {
        jumped: false,
        fixed_point_activated: true,
        gate_latched: outcome.all_solved,
        completed: false,
        stage_changed: false,
    }
}

/// The step of a stage the player is on, as the HUD names it.
#[derive(Clone, Copy, Debug, PartialEq, Eq, Structural)]
pub enum Objective {
    /// Touch the fixed point (on the bonus stage: solve the terminals).
    TouchFixedPoint,
    /// Solve the bonus terminals; `solved` of them are solved.
    HackTerminals { solved: usize },
    /// Hold rewind until the door has opened all the way.
    ReverseDoor,
    /// The way is open: reach the exit.
    ReachExit,
}

/// The HUD's objective: on the bonus stage the terminals come first, on any
/// other stage the fixed point; then the door is reversed; then the exit
/// waits.
pub open spec fn objective_for(
    bonus_stage: bool,
    solved: usize,
    door_armed: bool,
    door_latched: bool,
) -> Objective {
    if bonus_stage && solved < BONUS_TERMINALS {
        Objective::HackTerminals { solved }
    } else if !bonus_stage && !door_armed {
        Objective::TouchFixedPoint
    } else if !door_latched {
        Objective::ReverseDoor
    } else {
        Objective::ReachExit
    }
}

/// Chooses the objective the HUD shows.
pub fn current_objective(bonus_stage: bool, solved: usize, door_armed: bool, door_latched: bool) -> (objective: Objective)
    ensures
        objective == objective_for(bonus_stage, solved, door_armed, door_latched),
{
    if bonus_stage && solved < BONUS_TERMINALS {
        Objective::HackTerminals { solved }
    } else if !bonus_stage && !door_armed {
        Objective::TouchFixedPoint
    } else if !door_latched {
        Objective::ReverseDoor
    } else {
        Objective::ReachExit
    }
}

/// Law: on a stage that is not completed, with the editor closed, no
/// terminal being opened and reset not pressed, the frame runs the
/// simulation, backwards exactly while rewind is held.
pub proof fn lemma_play_simulates_in_the_held_direction(facts: FrameFacts)
    requires
        !facts.editor_open,
        !(facts.nearby_terminal is Some && facts.interact_pressed),
        !facts.reset_pressed,
        !facts.completed,
    ensures
        frame_action(facts) == (FrameAction::Simulate { rewind: facts.rewind_down }),
{
}

/// Law: holding rewind rewinds on any stage, completed or not, unless the
/// editor is open, a terminal is being opened, reset is pressed, or a
/// completed stage is being advanced.
pub proof fn lemma_held_rewind_rewinds(facts: FrameFacts)
    requires
        facts.rewind_down,
        !facts.editor_open,
        !(facts.nearby_terminal is Some && facts.interact_pressed),
        !facts.reset_pressed,
        !(facts.completed && facts.advance_pressed),
    ensures
        frame_action(facts) == (FrameAction::Simulate { rewind: true }),
{
}

/// Law: a frame never runs forward on a completed stage; without rewind it
/// holds still or advances.
pub proof fn lemma_completed_stage_never_runs_forward(facts: FrameFacts)
    requires
        facts.completed,
        !facts.editor_open,
        !(facts.nearby_terminal is Some && facts.interact_pressed),
        !facts.reset_pressed,
    ensures
        frame_action(facts) == if facts.advance_pressed {
            FrameAction::Advance
        } else if facts.rewind_down {
            FrameAction::Simulate { rewind: true }
        } else {
            FrameAction::Hold
        },
{
}

/// Law: an open editor takes the whole frame, whatever else is pressed.
pub proof fn lemma_open_editor_takes_the_frame(facts: FrameFacts)
    requires
        facts.editor_open,
    ensures
        frame_action(facts) == FrameAction::Edit,
{
}

/// Law: on the bonus stage, while fewer than [`BONUS_TERMINALS`] terminals
/// are solved, the objective is to hack them, whatever the door is doing.
pub proof fn lemma_bonus_stage_hacks_terminals_first(
    solved: usize,
    door_armed: bool,
    door_latched: bool,
)
    requires
        solved < BONUS_TERMINALS,
    ensures
        objective_for(true, solved, door_armed, door_latched) == (Objective::HackTerminals {
            solved,
        }),
{
}

/// Law: the objective moves through its steps in order. On an ordinary
/// stage: touch the fixed point until the door is armed, reverse the door
/// until it is latched, then reach the exit. On the bonus stage, once every
/// terminal is solved: reverse the door, then reach the exit.
pub proof fn lemma_objective_steps(bonus_stage: bool, solved: usize, door_armed: bool, door_latched: bool)
    ensures
        !bonus_stage ==> objective_for(bonus_stage, solved, door_armed, door_latched) == if !door_armed {
            Objective::TouchFixedPoint
        } else if !door_latched {
            Objective::ReverseDoor
        } else {
            Objective::ReachExit
        },
        bonus_stage && solved >= BONUS_TERMINALS ==> objective_for(
            bonus_stage,
            solved,
            door_armed,
            door_latched,
        ) == if !door_latched {
            Objective::ReverseDoor
        } else {
            Objective::ReachExit
        },
{
}

/// Law: the order of precedence. Opening a terminal wins over reset, reset
/// wins over advancing, and advancing a completed stage wins over rewinding.
pub proof fn lemma_frame_precedence(facts: FrameFacts)
    requires
        !facts.editor_open,
    ensures
        facts.nearby_terminal is Some && facts.interact_pressed ==> frame_action(facts) == (
        FrameAction::OpenEditor { terminal: facts.nearby_terminal->0 }),
        !(facts.nearby_terminal is Some && facts.interact_pressed) && facts.reset_pressed
            ==> frame_action(facts) == FrameAction::Reset,
        !(facts.nearby_terminal is Some && facts.interact_pressed) && !facts.reset_pressed
            && facts.completed && facts.advance_pressed ==> frame_action(facts)
            == FrameAction::Advance,
{
}

} // verus!
