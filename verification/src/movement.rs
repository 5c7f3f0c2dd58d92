//! Moving the player.
//!
//! The client alone decides where its player stands. What the server echoes is
//! shown in the log and never applied.

use vstd::prelude::*;

use crate::engine::{ControllerState, Hand, InputFrame, LocomotionInput, PlayerRig};
use crate::network::PendingInput;
use crate::part_pull::{is_pressed, pressed, PrevInput};
use crate::protocol::{WireHand, WireLocomotionInput};
use crate::scalar::{Scalar, Vec3};
use crate::to_wire::{
    carries_input, carries_rig, input_frame_to_wire, locomotion_input_to_wire, player_rig_to_wire,
    same_blends, same_numbers, wire_grabs, wire_presses, wire_touches,
};

verus! {

/// The bit pattern of 0.1, which a stick at rest stays under.
pub const STICK_AT_REST: u32 = 0x3dcc_cccd;

/// Movement is logged once in so many frames.
pub const LOG_EVERY: u64 = 30;

/// What the controllers ask for. The right trigger teleports.
pub open spec fn asked(cs: ControllerState, prev_r_trigger: bool) -> LocomotionInput {
    LocomotionInput {
        move_stick: cs.l_stick,
        turn_stick_x: cs.r_stick.x,
        teleport_pressed: is_pressed(cs.r_trigger) && !prev_r_trigger,
        teleport_released: !is_pressed(cs.r_trigger) && prev_r_trigger,
        teleport_hand: Hand::Right,
    }
}

/// What the controllers ask for.
pub fn locomotion_input(cs: &ControllerState, prev_r_trigger: bool) -> (r: LocomotionInput)
    ensures
        r == asked(*cs, prev_r_trigger),
{
    let down = pressed(cs.r_trigger);
    LocomotionInput {
        move_stick: cs.l_stick,
        turn_stick_x: cs.r_stick.x,
        teleport_pressed: down && !prev_r_trigger,
        teleport_released: !down && prev_r_trigger,
        teleport_hand: Hand::Right,
    }
}

/// Whether a stick is pushed away from rest along an axis.
pub open spec fn pushed(axis: Scalar) -> bool {
    (Scalar { bits: STICK_AT_REST }).below(axis.unsigned())
}

fn is_pushed(axis: Scalar) -> (r: bool)
    ensures
        r == pushed(axis),
{
    axis.abs().gt(Scalar { bits: STICK_AT_REST })
}

/// What the server last said of where the player stands; zero where it has said
/// nothing yet.
#[derive(Clone, Copy, Debug, PartialEq, Eq)]
pub struct Echo {
    pub offset: Vec3,
    pub yaw: Scalar,
}

/// What one frame of movement comes to.
#[derive(Debug)]
pub struct Step {
    /// What the server is told.
    pub pending: PendingInput,
    /// What the log shows of the server's view, in the frames that are logged.
    pub log: Option<Echo>,
}

/// What the server is told of the movement: what was asked for, and where the
/// player stands now.
pub open spec fn told(asked: LocomotionInput, offset: Vec3, yaw: Scalar) -> WireLocomotionInput {
    WireLocomotionInput {
        move_stick: asked.move_stick,
        turn_stick_x: asked.turn_stick_x,
        teleport_pressed: asked.teleport_pressed,
        teleport_released: asked.teleport_released,
        teleport_hand: match asked.teleport_hand {
            Hand::Left => WireHand::Left,
            Hand::Right => WireHand::Right,
        },
        player_offset: Some(offset),
        player_yaw: Some(yaw),
    }
}

/// Whether this frame's movement is logged.
pub open spec fn logged(frame_count: u64, cs: ControllerState) -> bool {
    &&& frame_count % LOG_EVERY == 0
    &&& pushed(cs.l_stick.x) || pushed(cs.l_stick.y) || pushed(cs.r_stick.x)
}

/// The server's view, with zero for what it has not said.
pub open spec fn echoed(offset: Option<Vec3>, yaw: Option<Scalar>) -> Echo {
    Echo {
        offset: match offset {
            Some(o) => o,
            None => Vec3::origin(),
        },
        yaw: match yaw {
            Some(y) => y,
            None => Scalar::zero(),
        },
    }
}

/// Whether a step moves the player by what the controllers ask for, tells the
/// server of it, and logs it where it should. `advance` moves the player and
/// gives the new offset and yaw.
pub open spec fn is_step<F: FnOnce(LocomotionInput) -> (Vec3, Scalar)>(
    step: Step,
    cs: ControllerState,
    rig: PlayerRig,
    frame_count: u64,
    server_player_offset: Option<Vec3>,
    server_player_yaw: Option<Scalar>,
    prev_r_trigger: bool,
    input: InputFrame,
    advance: F,
) -> bool {
    let sent = step.pending.locomotion_input;
    &&& carries_input(step.pending.input, input)
    &&& carries_rig(step.pending.rig, rig)
    &&& step.pending.teleport_target is None
    &&& sent.player_offset is Some
    &&& sent.player_yaw is Some
    &&& call_ensures(
        advance,
        (asked(cs, prev_r_trigger),),
        (sent.player_offset->0, sent.player_yaw->0),
    )
    &&& sent == told(asked(cs, prev_r_trigger), sent.player_offset->0, sent.player_yaw->0)
    &&& step.log == (if logged(frame_count, cs) {
        Some(echoed(server_player_offset, server_player_yaw))
    } else {
        None
    })
}

/// Moves the player by what the controllers ask for, and says what to send.
/// `advance` moves the player and returns the new offset and yaw.
pub fn step_locomotion<F: FnOnce(LocomotionInput) -> (Vec3, Scalar)>(
    cs: &ControllerState,
    rig: &PlayerRig,
    frame_count: u64,
    server_player_offset: Option<Vec3>,
    server_player_yaw: Option<Scalar>,
    prev_r_trigger: bool,
    input: &InputFrame,
    advance: F,
) -> (r: Step)
    requires
        call_requires(advance, (asked(*cs, prev_r_trigger),)),
    ensures
        is_step(
            r,
            *cs,
            *rig,
            frame_count,
            server_player_offset,
            server_player_yaw,
            prev_r_trigger,
            *input,
            advance,
        ),
{
    let asked_for = locomotion_input(cs, prev_r_trigger);
    let (offset, yaw) = advance(asked_for);
    let log = if frame_count % LOG_EVERY == 0 && (is_pushed(cs.l_stick.x) || is_pushed(cs.l_stick.y)
        || is_pushed(cs.r_stick.x)) {
        Some(
            Echo {
                offset: match server_player_offset {
                    Some(o) => o,
                    None => Vec3::origin(),
                },
                yaw: match server_player_yaw {
                    Some(y) => y,
                    None => Scalar::zero(),
                },
            },
        )
    } else {
        None
    };
    let mut locomotion_input = locomotion_input_to_wire(&asked_for);
    locomotion_input.player_offset = Some(offset);
    locomotion_input.player_yaw = Some(yaw);
    Step {
        pending: PendingInput {
            input: input_frame_to_wire(input),
            locomotion_input,
            rig: player_rig_to_wire(rig),
            teleport_target: None,
        },
        log,
    }
}

/// Whether two messages say the same.
pub open spec fn same_message(a: PendingInput, b: PendingInput) -> bool {
    &&& wire_touches(a.input.pointed@) == wire_touches(b.input.pointed@)
    &&& wire_grabs(a.input.grabbed@) == wire_grabs(b.input.grabbed@)
    &&& wire_touches(a.input.released@) == wire_touches(b.input.released@)
    &&& wire_presses(a.input.button_presses@) == wire_presses(b.input.button_presses@)
    &&& wire_presses(a.input.button_releases@) == wire_presses(b.input.button_releases@)
    &&& a.input.axes == b.input.axes
    &&& same_blends(a.input.part_blends, b.input.part_blends)
    &&& a.locomotion_input == b.locomotion_input
    &&& a.rig.joints@ == b.rig.joints@
    &&& a.rig.hand_tracking_active@ == b.rig.hand_tracking_active@
    &&& a.teleport_target == b.teleport_target
}

/// What the server echoes is never applied. Two steps that differ only in the
/// echo and in the frame's number move the player alike and tell the server the
/// same, where moving the player gives one answer for one input.
pub proof fn the_echo_is_never_applied<F: FnOnce(LocomotionInput) -> (Vec3, Scalar)>(
    a: Step,
    b: Step,
    cs: ControllerState,
    rig: PlayerRig,
    frame_counts: (u64, u64),
    echoed_offsets: (Option<Vec3>, Option<Vec3>),
    echoed_yaws: (Option<Scalar>, Option<Scalar>),
    prev_r_trigger: bool,
    input: InputFrame,
    advances: (F, F),
)
    requires
        is_step(
            a,
            cs,
            rig,
            frame_counts.0,
            echoed_offsets.0,
            echoed_yaws.0,
            prev_r_trigger,
            input,
            advances.0,
        ),
        is_step(
            b,
            cs,
            rig,
            frame_counts.1,
            echoed_offsets.1,
            echoed_yaws.1,
            prev_r_trigger,
            input,
            advances.1,
        ),
        forall|to: (Vec3, Scalar), or: (Vec3, Scalar)|
            call_ensures(advances.0, (asked(cs, prev_r_trigger),), to) && call_ensures(
                advances.1,
                (asked(cs, prev_r_trigger),),
                or,
            ) ==> to == or,
    ensures
        same_message(a.pending, b.pending),
        a.pending.locomotion_input.player_offset is Some,
        a.pending.locomotion_input.player_yaw is Some,
        call_ensures(
            advances.0,
            (asked(cs, prev_r_trigger),),
            (
                a.pending.locomotion_input.player_offset->0,
                a.pending.locomotion_input.player_yaw->0,
            ),
        ),
        a.pending.teleport_target is None,
{
    let x = a.pending.input.part_blends;
    let y = b.pending.input.part_blends;
    let z = input.part_blends;
    assert forall|i: int| 0 <= i < x.entries@.len() implies (#[trigger] x.entries@[i]).0@
        == y.entries@[i].0@ && same_numbers(x.entries@[i].1, y.entries@[i].1) by {
        assert(x.entries@[i].0@ == z.entries@[i].0@);
        assert(y.entries@[i].0@ == z.entries@[i].0@);
        let p = x.entries@[i].1;
        let q = y.entries@[i].1;
        assert forall|k: int| 0 <= k < p.entries@.len() implies (#[trigger] p.entries@[k]).0@
            == q.entries@[k].0@ && p.entries@[k].1 == q.entries@[k].1 by {
            assert(q.entries@[k].0@ == z.entries@[i].1.entries@[k].0@);
        }
    }
}

/// A teleport is never both begun and ended in one frame.
pub proof fn teleport_edges_exclude_each_other(cs: ControllerState, prev_r_trigger: bool)
    ensures
        !(asked(cs, prev_r_trigger).teleport_pressed && asked(
            cs,
            prev_r_trigger,
        ).teleport_released),
{
}

/// The trigger that this frame saw, taken for the trigger before, asks for no
/// teleport: an edge needs the frame before.
pub proof fn a_teleport_needs_the_frame_before(cs: ControllerState)
    ensures
        !asked(cs, PrevInput::now(cs).r_trigger).teleport_pressed,
        !asked(cs, PrevInput::now(cs).r_trigger).teleport_released,
{
}

/// The left stick walks and the right one turns. The right trigger begins a
/// teleport where it goes down, beyond one half, and ends it where it comes up
/// again. The server is told so, and of the offset and yaw that the player was
/// moved to by it.
pub proof fn the_player_is_moved_as_the_sticks_ask<
    F: FnOnce(LocomotionInput) -> (Vec3, Scalar),
>(
    step: Step,
    cs: ControllerState,
    last: ControllerState,
    rig: PlayerRig,
    frame_count: u64,
    server_player_offset: Option<Vec3>,
    server_player_yaw: Option<Scalar>,
    input: InputFrame,
    advance: F,
)
    requires
        is_step(
            step,
            cs,
            rig,
            frame_count,
            server_player_offset,
            server_player_yaw,
            PrevInput::now(last).r_trigger,
            input,
            advance,
        ),
    ensures
        ({
            let sent = step.pending.locomotion_input;
            let half = Scalar { bits: 0x3f00_0000 };
            &&& sent.move_stick == cs.l_stick
            &&& sent.turn_stick_x == cs.r_stick.x
            &&& sent.teleport_pressed == (half.below(cs.r_trigger) && !half.below(last.r_trigger))
            &&& sent.teleport_released == (!half.below(cs.r_trigger) && half.below(last.r_trigger))
            &&& sent.teleport_hand is Right
            &&& sent.player_offset matches Some(offset) && sent.player_yaw matches Some(yaw)
                && call_ensures(
                advance,
                (LocomotionInput {
                    move_stick: sent.move_stick,
                    turn_stick_x: sent.turn_stick_x,
                    teleport_pressed: sent.teleport_pressed,
                    teleport_released: sent.teleport_released,
                    teleport_hand: Hand::Right,
                },),
                (offset, yaw),
            )
            &&& step.pending.teleport_target is None
        }),
{
}

/// In every thirtieth frame in which a stick that moves the player is more than a
/// tenth away from rest, either way, the log shows what the server says of where
/// the player stands, and zero for what it has not said. In other frames it shows
/// nothing.
pub proof fn the_log_shows_what_the_server_says<F: FnOnce(LocomotionInput) -> (Vec3, Scalar)>(
    step: Step,
    cs: ControllerState,
    rig: PlayerRig,
    frame_count: u64,
    server_player_offset: Option<Vec3>,
    server_player_yaw: Option<Scalar>,
    prev_r_trigger: bool,
    input: InputFrame,
    advance: F,
)
    requires
        is_step(
            step,
            cs,
            rig,
            frame_count,
            server_player_offset,
            server_player_yaw,
            prev_r_trigger,
            input,
            advance,
        ),
    ensures
        ({
            let tenth = Scalar { bits: 0x3dcc_cccd };
            step.log is Some <==> frame_count % 30 == 0 && (tenth.below(cs.l_stick.x.unsigned())
                || tenth.below(cs.l_stick.y.unsigned()) || tenth.below(cs.r_stick.x.unsigned()))
        }),
        step.log matches Some(shown) ==> {
            &&& match server_player_offset {
                Some(said) => shown.offset == said,
                None => shown.offset.x.bits == 0 && shown.offset.y.bits == 0 && shown.offset.z.bits
                    == 0,
            }
            &&& match server_player_yaw {
                Some(said) => shown.yaw == said,
                None => shown.yaw.bits == 0,
            }
        },
{
}

} // verus!
