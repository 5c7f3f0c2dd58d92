//! The player's input, rewritten for the wire.

use vstd::prelude::*;

use crate::engine::{
    copy_text, text_of, ButtonPress, FingerJoint, Hand, InputFrame, JointId, LocomotionInput,
    PlayerRig, TeleportTarget, Transform,
};
use crate::part_pull::{grabs, releases};
use crate::protocol::{
    Pose, WireButtonPress, WireFingerJoint, WireHand, WireInputAxes, WireInputFrame, WireJointId,
    WireLocomotionInput, WirePlayerRig, WireTeleportTarget,
};
use crate::scalar::Scalar;
use crate::table::Table;

verus! {

/// A hand on the wire.
pub open spec fn wire_hand(h: Hand) -> WireHand {
    match h {
        Hand::Left => WireHand::Left,
        Hand::Right => WireHand::Right,
    }
}

/// A hand on the wire.
pub fn hand_to_wire(h: Hand) -> (r: WireHand)
    ensures
        r == wire_hand(h),
{
    match h {
        Hand::Left => WireHand::Left,
        Hand::Right => WireHand::Right,
    }
}

/// A finger joint on the wire: the joint of the same name.
pub open spec fn wire_finger_joint(j: FingerJoint) -> WireFingerJoint {
    match j {
        FingerJoint::Palm => WireFingerJoint::Palm,
        FingerJoint::Wrist => WireFingerJoint::Wrist,
        FingerJoint::ThumbMeta => WireFingerJoint::ThumbMeta,
        FingerJoint::ThumbProx => WireFingerJoint::ThumbProx,
        FingerJoint::ThumbDist => WireFingerJoint::ThumbDist,
        FingerJoint::ThumbTip => WireFingerJoint::ThumbTip,
        FingerJoint::IndexMeta => WireFingerJoint::IndexMeta,
        FingerJoint::IndexProx => WireFingerJoint::IndexProx,
        FingerJoint::IndexInter => WireFingerJoint::IndexInter,
        FingerJoint::IndexDist => WireFingerJoint::IndexDist,
        FingerJoint::IndexTip => WireFingerJoint::IndexTip,
        FingerJoint::MiddleMeta => WireFingerJoint::MiddleMeta,
        FingerJoint::MiddleProx => WireFingerJoint::MiddleProx,
        FingerJoint::MiddleInter => WireFingerJoint::MiddleInter,
        FingerJoint::MiddleDist => WireFingerJoint::MiddleDist,
        FingerJoint::MiddleTip => WireFingerJoint::MiddleTip,
        FingerJoint::RingMeta => WireFingerJoint::RingMeta,
        FingerJoint::RingProx => WireFingerJoint::RingProx,
        FingerJoint::RingInter => WireFingerJoint::RingInter,
        FingerJoint::RingDist => WireFingerJoint::RingDist,
        FingerJoint::RingTip => WireFingerJoint::RingTip,
        FingerJoint::LittleMeta => WireFingerJoint::LittleMeta,
        FingerJoint::LittleProx => WireFingerJoint::LittleProx,
        FingerJoint::LittleInter => WireFingerJoint::LittleInter,
        FingerJoint::LittleDist => WireFingerJoint::LittleDist,
        FingerJoint::LittleTip => WireFingerJoint::LittleTip,
    }
}

/// A finger joint on the wire.
pub fn finger_joint_to_wire(j: FingerJoint) -> (r: WireFingerJoint)
    ensures
        r == wire_finger_joint(j),
{
    match j {
        FingerJoint::Palm => WireFingerJoint::Palm,
        FingerJoint::Wrist => WireFingerJoint::Wrist,
        FingerJoint::ThumbMeta => WireFingerJoint::ThumbMeta,
        FingerJoint::ThumbProx => WireFingerJoint::ThumbProx,
        FingerJoint::ThumbDist => WireFingerJoint::ThumbDist,
        FingerJoint::ThumbTip => WireFingerJoint::ThumbTip,
        FingerJoint::IndexMeta => WireFingerJoint::IndexMeta,
        FingerJoint::IndexProx => WireFingerJoint::IndexProx,
        FingerJoint::IndexInter => WireFingerJoint::IndexInter,
        FingerJoint::IndexDist => WireFingerJoint::IndexDist,
        FingerJoint::IndexTip => WireFingerJoint::IndexTip,
        FingerJoint::MiddleMeta => WireFingerJoint::MiddleMeta,
        FingerJoint::MiddleProx => WireFingerJoint::MiddleProx,
        FingerJoint::MiddleInter => WireFingerJoint::MiddleInter,
        FingerJoint::MiddleDist => WireFingerJoint::MiddleDist,
        FingerJoint::MiddleTip => WireFingerJoint::MiddleTip,
        FingerJoint::RingMeta => WireFingerJoint::RingMeta,
        FingerJoint::RingProx => WireFingerJoint::RingProx,
        FingerJoint::RingInter => WireFingerJoint::RingInter,
        FingerJoint::RingDist => WireFingerJoint::RingDist,
        FingerJoint::RingTip => WireFingerJoint::RingTip,
        FingerJoint::LittleMeta => WireFingerJoint::LittleMeta,
        FingerJoint::LittleProx => WireFingerJoint::LittleProx,
        FingerJoint::LittleInter => WireFingerJoint::LittleInter,
        FingerJoint::LittleDist => WireFingerJoint::LittleDist,
        FingerJoint::LittleTip => WireFingerJoint::LittleTip,
    }
}

/// A joint on the wire.
pub open spec fn wire_joint(j: JointId) -> WireJointId {
    match j {
        JointId::Head => WireJointId::Head,
        JointId::HandGrip(h) => WireJointId::HandGrip(wire_hand(h)),
        JointId::HandAim(h) => WireJointId::HandAim(wire_hand(h)),
        JointId::Finger(h, f) => WireJointId::Finger(wire_hand(h), wire_finger_joint(f)),
    }
}

/// A joint on the wire.
pub fn joint_id_to_wire(j: JointId) -> (r: WireJointId)
    ensures
        r == wire_joint(j),
{
    match j {
        JointId::Head => WireJointId::Head,
        JointId::HandGrip(h) => WireJointId::HandGrip(hand_to_wire(h)),
        JointId::HandAim(h) => WireJointId::HandAim(hand_to_wire(h)),
        JointId::Finger(h, f) => WireJointId::Finger(hand_to_wire(h), finger_joint_to_wire(f)),
    }
}

/// Different joints stay different on the wire.
pub proof fn wire_joints_are_distinct(a: JointId, b: JointId)
    ensures
        wire_joint(a) == wire_joint(b) <==> a == b,
{
}

/// A transform on the wire.
pub fn transform_to_wire(t: Transform) -> (r: Pose)
    ensures
        r.position == t.position,
        r.rotation == t.rotation,
{
    Pose { position: t.position, rotation: t.rotation }
}

/// Whether a message carries a rig, joint by joint.
pub open spec fn carries_rig(r: WirePlayerRig, rig: PlayerRig) -> bool {
    &&& r.joints@ == rig.joints@.map_values(
        |j: (JointId, Transform)|
            (wire_joint(j.0), Pose { position: j.1.position, rotation: j.1.rotation }),
    )
    &&& r.hand_tracking_active@ == rig.hand_tracking_active@.map_values(
        |h: (Hand, bool)| (wire_hand(h.0), h.1),
    )
}

/// A rig on the wire, joint by joint.
pub fn player_rig_to_wire(rig: &PlayerRig) -> (r: WirePlayerRig)
    ensures
        carries_rig(r, *rig),
{
    let ghost as_joint = |j: (JointId, Transform)|
        (wire_joint(j.0), Pose { position: j.1.position, rotation: j.1.rotation });
    let ghost as_hand = |h: (Hand, bool)| (wire_hand(h.0), h.1);
    let mut joints: Vec<(WireJointId, Pose)> = Vec::new();
    let mut i: usize = 0;
    while i < rig.joints.len()
        invariant
            i <= rig.joints@.len(),
            as_joint == (|j: (JointId, Transform)|
                (wire_joint(j.0), Pose { position: j.1.position, rotation: j.1.rotation })),
            joints@ =~= rig.joints@.map_values(as_joint).take(i as int),
        decreases rig.joints@.len() - i,
    {
        let (joint, tf) = rig.joints[i];
        joints.push((joint_id_to_wire(joint), transform_to_wire(tf)));
        i = i + 1;
    }
    assert(joints@ =~= rig.joints@.map_values(as_joint));
    let mut active: Vec<(WireHand, bool)> = Vec::new();
    let mut k: usize = 0;
    while k < rig.hand_tracking_active.len()
        invariant
            k <= rig.hand_tracking_active@.len(),
            as_hand == (|h: (Hand, bool)| (wire_hand(h.0), h.1)),
            active@ =~= rig.hand_tracking_active@.map_values(as_hand).take(k as int),
        decreases rig.hand_tracking_active@.len() - k,
    {
        let (hand, on) = rig.hand_tracking_active[k];
        active.push((hand_to_wire(hand), on));
        k = k + 1;
    }
    assert(active@ =~= rig.hand_tracking_active@.map_values(as_hand));
    WirePlayerRig { joints, hand_tracking_active: active }
}

/// A button edge on the wire, its texts as characters.
pub struct WirePress {
    pub button: Seq<char>,
    pub object_id: Option<Seq<char>>,
    pub hand: Option<WireHand>,
}

impl View for WireButtonPress {
    type V = WirePress;

    open spec fn view(&self) -> WirePress {
        WirePress { button: self.button@, object_id: text_of(self.object_id), hand: self.hand }
    }
}

/// What a button edge is on the wire.
pub open spec fn wire_press(b: ButtonPress) -> WirePress {
    WirePress {
        button: b.button@,
        object_id: text_of(b.object_id),
        hand: match b.hand {
            Some(h) => Some(wire_hand(h)),
            None => None,
        },
    }
}

/// The texts and hands of a list of button edges on the wire.
pub open spec fn wire_presses(s: Seq<WireButtonPress>) -> Seq<WirePress> {
    s.map_values(|b: WireButtonPress| b@)
}

/// A button edge on the wire.
pub fn button_press_to_wire(b: &ButtonPress) -> (r: WireButtonPress)
    ensures
        r@ == wire_press(*b),
{
    WireButtonPress {
        button: b.button.clone(),
        object_id: copy_text(&b.object_id),
        hand: match b.hand {
            Some(h) => Some(hand_to_wire(h)),
            None => None,
        },
    }
}

fn presses_to_wire(list: &Vec<ButtonPress>) -> (r: Vec<WireButtonPress>)
    ensures
        wire_presses(r@) == list@.map_values(|b: ButtonPress| wire_press(b)),
{
    let ghost wired = list@.map_values(|b: ButtonPress| wire_press(b));
    let mut out: Vec<WireButtonPress> = Vec::new();
    let mut i: usize = 0;
    while i < list.len()
        invariant
            i <= list@.len(),
            wired == list@.map_values(|b: ButtonPress| wire_press(b)),
            wire_presses(out@) =~= wired.take(i as int),
        decreases list@.len() - i,
    {
        let ghost had = out@;
        out.push(button_press_to_wire(&list[i]));
        proof {
            assert(wire_presses(out@) =~= wire_presses(had).push(wired[i as int]));
        }
        i = i + 1;
    }
    assert(wire_presses(out@) =~= wired);
    out
}

/// The texts of a list of object ids and hands on the wire.
pub open spec fn wire_touches(s: Seq<(String, WireHand)>) -> Seq<(Seq<char>, WireHand)> {
    s.map_values(|t: (String, WireHand)| (t.0@, t.1))
}

/// The texts of a list of grabs on the wire.
pub open spec fn wire_grabs(
    s: Seq<(String, WireHand, String)>,
) -> Seq<(Seq<char>, WireHand, Seq<char>)> {
    s.map_values(|t: (String, WireHand, String)| (t.0@, t.1, t.2@))
}

fn touches_to_wire(list: &Vec<(String, Hand)>) -> (r: Vec<(String, WireHand)>)
    ensures
        wire_touches(r@) == releases(list@).map_values(
            |t: (Seq<char>, Hand)| (t.0, wire_hand(t.1)),
        ),
{
    let ghost wired = releases(list@).map_values(|t: (Seq<char>, Hand)| (t.0, wire_hand(t.1)));
    let mut out: Vec<(String, WireHand)> = Vec::new();
    let mut i: usize = 0;
    while i < list.len()
        invariant
            i <= list@.len(),
            wired == releases(list@).map_values(|t: (Seq<char>, Hand)| (t.0, wire_hand(t.1))),
            wire_touches(out@) =~= wired.take(i as int),
        decreases list@.len() - i,
    {
        let ghost had = out@;
        out.push((list[i].0.clone(), hand_to_wire(list[i].1)));
        proof {
            assert(wire_touches(out@) =~= wire_touches(had).push(wired[i as int]));
        }
        i = i + 1;
    }
    assert(wire_touches(out@) =~= wired);
    out
}

fn grabs_to_wire(list: &Vec<(String, Hand, String)>) -> (r: Vec<(String, WireHand, String)>)
    ensures
        wire_grabs(r@) == grabs(list@).map_values(
            |t: (Seq<char>, Hand, Seq<char>)| (t.0, wire_hand(t.1), t.2),
        ),
{
    let ghost wired = grabs(list@).map_values(
        |t: (Seq<char>, Hand, Seq<char>)| (t.0, wire_hand(t.1), t.2),
    );
    let mut out: Vec<(String, WireHand, String)> = Vec::new();
    let mut i: usize = 0;
    while i < list.len()
        invariant
            i <= list@.len(),
            wired == grabs(list@).map_values(
                |t: (Seq<char>, Hand, Seq<char>)| (t.0, wire_hand(t.1), t.2),
            ),
            wire_grabs(out@) =~= wired.take(i as int),
        decreases list@.len() - i,
    {
        let ghost had = out@;
        out.push((list[i].0.clone(), hand_to_wire(list[i].1), list[i].2.clone()));
        proof {
            assert(wire_grabs(out@) =~= wire_grabs(had).push(wired[i as int]));
        }
        i = i + 1;
    }
    assert(wire_grabs(out@) =~= wired);
    out
}

/// Whether two tables hold the same keys in the same order with the same numbers.
pub open spec fn same_numbers(a: Table<Scalar>, b: Table<Scalar>) -> bool {
    &&& a.entries@.len() == b.entries@.len()
    &&& forall|i: int|
        0 <= i < a.entries@.len() ==> (#[trigger] a.entries@[i]).0@ == b.entries@[i].0@
            && a.entries@[i].1 == b.entries@[i].1
}

/// Whether two tables of tables hold the same.
pub open spec fn same_blends(a: Table<Table<Scalar>>, b: Table<Table<Scalar>>) -> bool {
    &&& a.entries@.len() == b.entries@.len()
    &&& forall|i: int|
        0 <= i < a.entries@.len() ==> (#[trigger] a.entries@[i]).0@ == b.entries@[i].0@
            && same_numbers(a.entries@[i].1, b.entries@[i].1)
}

fn copy_numbers(t: &Table<Scalar>) -> (r: Table<Scalar>)
    ensures
        same_numbers(r, *t),
{
    let mut entries: Vec<(String, Scalar)> = Vec::new();
    let mut i: usize = 0;
    while i < t.entries.len()
        invariant
            i <= t.entries@.len(),
            entries@.len() == i,
            forall|k: int|
                0 <= k < i ==> (#[trigger] entries@[k]).0@ == t.entries@[k].0@ && entries@[k].1
                    == t.entries@[k].1,
        decreases t.entries@.len() - i,
    {
        entries.push((t.entries[i].0.clone(), t.entries[i].1));
        i = i + 1;
    }
    Table { entries }
}

/// A copy of a table of blends.
pub fn copy_blends(t: &Table<Table<Scalar>>) -> (r: Table<Table<Scalar>>)
    ensures
        same_blends(r, *t),
{
    let mut entries: Vec<(String, Table<Scalar>)> = Vec::new();
    let mut i: usize = 0;
    while i < t.entries.len()
        invariant
            i <= t.entries@.len(),
            entries@.len() == i,
            forall|k: int|
                0 <= k < i ==> (#[trigger] entries@[k]).0@ == t.entries@[k].0@ && same_numbers(
                    entries@[k].1,
                    t.entries@[k].1,
                ),
        decreases t.entries@.len() - i,
    {
        entries.push((t.entries[i].0.clone(), copy_numbers(&t.entries[i].1)));
        i = i + 1;
    }
    Table { entries }
}

/// Whether a message carries the player's input.
pub open spec fn carries_input(r: WireInputFrame, input: InputFrame) -> bool {
    &&& wire_touches(r.pointed@) == releases(input.pointed@).map_values(
        |t: (Seq<char>, Hand)| (t.0, wire_hand(t.1)),
    )
    &&& wire_grabs(r.grabbed@) == grabs(input.grabbed@).map_values(
        |t: (Seq<char>, Hand, Seq<char>)| (t.0, wire_hand(t.1), t.2),
    )
    &&& wire_touches(r.released@) == releases(input.released@).map_values(
        |t: (Seq<char>, Hand)| (t.0, wire_hand(t.1)),
    )
    &&& wire_presses(r.button_presses@) == input.button_presses@.map_values(
        |b: ButtonPress| wire_press(b),
    )
    &&& wire_presses(r.button_releases@) == input.button_releases@.map_values(
        |b: ButtonPress| wire_press(b),
    )
    &&& r.axes == (WireInputAxes {
        l_trigger: input.axes.l_trigger,
        r_trigger: input.axes.r_trigger,
        l_grip: input.axes.l_grip,
        r_grip: input.axes.r_grip,
        l_stick: input.axes.l_stick,
        r_stick: input.axes.r_stick,
    })
    &&& same_blends(r.part_blends, input.part_blends)
}

/// The player's input on the wire.
///
/// Button-up edges travel apart from `released`, which is the release of a grab.
pub fn input_frame_to_wire(input: &InputFrame) -> (r: WireInputFrame)
    ensures
        carries_input(r, *input),
{
    WireInputFrame {
        pointed: touches_to_wire(&input.pointed),
        grabbed: grabs_to_wire(&input.grabbed),
        released: touches_to_wire(&input.released),
        button_presses: presses_to_wire(&input.button_presses),
        button_releases: presses_to_wire(&input.button_releases),
        axes: WireInputAxes {
            l_trigger: input.axes.l_trigger,
            r_trigger: input.axes.r_trigger,
            l_grip: input.axes.l_grip,
            r_grip: input.axes.r_grip,
            l_stick: input.axes.l_stick,
            r_stick: input.axes.r_stick,
        },
        part_blends: copy_blends(&input.part_blends),
    }
}

/// What the sticks ask for, on the wire. Where the player stands is not known
/// before the player has moved.
pub fn locomotion_input_to_wire(input: &LocomotionInput) -> (r: WireLocomotionInput)
    ensures
        r.move_stick == input.move_stick,
        r.turn_stick_x == input.turn_stick_x,
        r.teleport_pressed == input.teleport_pressed,
        r.teleport_released == input.teleport_released,
        r.teleport_hand == wire_hand(input.teleport_hand),
        r.player_offset is None,
        r.player_yaw is None,
{
    WireLocomotionInput {
        move_stick: input.move_stick,
        turn_stick_x: input.turn_stick_x,
        teleport_pressed: input.teleport_pressed,
        teleport_released: input.teleport_released,
        teleport_hand: hand_to_wire(input.teleport_hand),
        player_offset: None,
        player_yaw: None,
    }
}

/// A teleport target on the wire.
pub fn teleport_target_to_wire(target: TeleportTarget) -> (r: WireTeleportTarget)
    ensures
        r.position == target.position,
        r.valid == target.valid,
{
    WireTeleportTarget { position: target.position, valid: target.valid }
}

/// Whether a hand on the wire is on its own side.
pub open spec fn same_side(h: Hand, w: WireHand) -> bool {
    (h is Left <==> w is Left) && (h is Right <==> w is Right)
}

/// Whether a finger joint on the wire has its own name.
pub open spec fn same_finger(j: FingerJoint, w: WireFingerJoint) -> bool {
    &&& j is Palm <==> w is Palm
    &&& j is Wrist <==> w is Wrist
    &&& j is ThumbMeta <==> w is ThumbMeta
    &&& j is ThumbProx <==> w is ThumbProx
    &&& j is ThumbDist <==> w is ThumbDist
    &&& j is ThumbTip <==> w is ThumbTip
    &&& j is IndexMeta <==> w is IndexMeta
    &&& j is IndexProx <==> w is IndexProx
    &&& j is IndexInter <==> w is IndexInter
    &&& j is IndexDist <==> w is IndexDist
    &&& j is IndexTip <==> w is IndexTip
    &&& j is MiddleMeta <==> w is MiddleMeta
    &&& j is MiddleProx <==> w is MiddleProx
    &&& j is MiddleInter <==> w is MiddleInter
    &&& j is MiddleDist <==> w is MiddleDist
    &&& j is MiddleTip <==> w is MiddleTip
    &&& j is RingMeta <==> w is RingMeta
    &&& j is RingProx <==> w is RingProx
    &&& j is RingInter <==> w is RingInter
    &&& j is RingDist <==> w is RingDist
    &&& j is RingTip <==> w is RingTip
    &&& j is LittleMeta <==> w is LittleMeta
    &&& j is LittleProx <==> w is LittleProx
    &&& j is LittleInter <==> w is LittleInter
    &&& j is LittleDist <==> w is LittleDist
    &&& j is LittleTip <==> w is LittleTip
}

/// Whether a joint on the wire is the same joint of the same hand.
pub open spec fn same_joint(j: JointId, w: WireJointId) -> bool {
    match (j, w) {
        (JointId::Head, WireJointId::Head) => true,
        (JointId::HandGrip(h), WireJointId::HandGrip(v)) => same_side(h, v),
        (JointId::HandAim(h), WireJointId::HandAim(v)) => same_side(h, v),
        (JointId::Finger(h, f), WireJointId::Finger(v, e)) => same_side(h, v) && same_finger(f, e),
        _ => false,
    }
}

/// Every joint of a rig travels in its turn, as the same joint of the same hand and
/// where it was tracked, and of each hand whether it is tracked.
pub proof fn a_rig_travels_whole(r: WirePlayerRig, rig: PlayerRig)
    requires
        carries_rig(r, rig),
    ensures
        r.joints@.len() == rig.joints@.len(),
        forall|k: int|
            0 <= k < rig.joints@.len() ==> {
                &&& same_joint((#[trigger] rig.joints@[k]).0, r.joints@[k].0)
                &&& r.joints@[k].1.position == rig.joints@[k].1.position
                &&& r.joints@[k].1.rotation == rig.joints@[k].1.rotation
            },
        r.hand_tracking_active@.len() == rig.hand_tracking_active@.len(),
        forall|k: int|
            0 <= k < rig.hand_tracking_active@.len() ==> {
                &&& same_side(
                    (#[trigger] rig.hand_tracking_active@[k]).0,
                    r.hand_tracking_active@[k].0,
                )
                &&& r.hand_tracking_active@[k].1 == rig.hand_tracking_active@[k].1
            },
{
}

/// Whether a button edge on the wire says what the edge says.
pub open spec fn same_press(b: ButtonPress, w: WireButtonPress) -> bool {
    &&& w.button@ == b.button@
    &&& match (b.object_id, w.object_id) {
        (Some(x), Some(y)) => x@ == y@,
        (None, None) => true,
        _ => false,
    }
    &&& match (b.hand, w.hand) {
        (Some(h), Some(v)) => same_side(h, v),
        (None, None) => true,
        _ => false,
    }
}

/// Whether button edges on the wire are the edges, in order.
pub open spec fn same_presses(list: Seq<ButtonPress>, wire: Seq<WireButtonPress>) -> bool {
    &&& wire.len() == list.len()
    &&& forall|k: int| 0 <= k < list.len() ==> same_press(#[trigger] list[k], wire[k])
}

/// Whether what was touched travels as it was, in order.
pub open spec fn same_touches(list: Seq<(String, Hand)>, wire: Seq<(String, WireHand)>) -> bool {
    &&& wire.len() == list.len()
    &&& forall|k: int|
        0 <= k < list.len() ==> wire[k].0@ == (#[trigger] list[k]).0@ && same_side(
            list[k].1,
            wire[k].1,
        )
}

proof fn presses_travel(list: Seq<ButtonPress>, wire: Seq<WireButtonPress>)
    requires
        wire_presses(wire) == list.map_values(|b: ButtonPress| wire_press(b)),
    ensures
        same_presses(list, wire),
{
    let wired = list.map_values(|b: ButtonPress| wire_press(b));
    assert(wire_presses(wire).len() == wire.len());
    assert forall|k: int| 0 <= k < list.len() implies same_press(#[trigger] list[k], wire[k]) by {
        assert(wire_presses(wire)[k] == wire[k]@);
        assert(wired[k] == wire_press(list[k]));
    }
}

proof fn touches_travel(list: Seq<(String, Hand)>, wire: Seq<(String, WireHand)>)
    requires
        wire_touches(wire) == releases(list).map_values(
            |t: (Seq<char>, Hand)| (t.0, wire_hand(t.1)),
        ),
    ensures
        same_touches(list, wire),
{
    let wired = releases(list).map_values(|t: (Seq<char>, Hand)| (t.0, wire_hand(t.1)));
    assert(wire_touches(wire).len() == wire.len());
    assert(wired.len() == list.len());
    assert forall|k: int| 0 <= k < list.len() implies wire[k].0@ == (#[trigger] list[k]).0@
        && same_side(list[k].1, wire[k].1) by {
        assert(wire_touches(wire)[k] == (wire[k].0@, wire[k].1));
        assert(wired[k] == (list[k].0@, wire_hand(list[k].1)));
    }
}

/// Everything that the player did travels, in order, each thing as the same
/// hand's: what was pointed at, grabbed and let go, the buttons, the sticks,
/// triggers and grips, and the blends.
pub proof fn an_input_travels_whole(r: WireInputFrame, input: InputFrame)
    requires
        carries_input(r, input),
    ensures
        same_touches(input.pointed@, r.pointed@),
        same_touches(input.released@, r.released@),
        r.grabbed@.len() == input.grabbed@.len(),
        forall|k: int|
            0 <= k < input.grabbed@.len() ==> {
                &&& r.grabbed@[k].0@ == (#[trigger] input.grabbed@[k]).0@
                &&& same_side(input.grabbed@[k].1, r.grabbed@[k].1)
                &&& r.grabbed@[k].2@ == input.grabbed@[k].2@
            },
        same_presses(input.button_presses@, r.button_presses@),
        same_presses(input.button_releases@, r.button_releases@),
        r.axes.l_trigger == input.axes.l_trigger && r.axes.r_trigger == input.axes.r_trigger,
        r.axes.l_grip == input.axes.l_grip && r.axes.r_grip == input.axes.r_grip,
        r.axes.l_stick == input.axes.l_stick && r.axes.r_stick == input.axes.r_stick,
        r.part_blends.entries@.len() == input.part_blends.entries@.len(),
        forall|i: int|
            0 <= i < input.part_blends.entries@.len() ==> {
                let from = #[trigger] input.part_blends.entries@[i];
                let to = r.part_blends.entries@[i];
                &&& to.0@ == from.0@
                &&& to.1.entries@.len() == from.1.entries@.len()
                &&& forall|k: int|
                    0 <= k < from.1.entries@.len() ==> to.1.entries@[k].0@ == (
                    #[trigger] from.1.entries@[k]).0@ && to.1.entries@[k].1 == from.1.entries@[k].1
            },
{
    touches_travel(input.pointed@, r.pointed@);
    touches_travel(input.released@, r.released@);
    presses_travel(input.button_presses@, r.button_presses@);
    presses_travel(input.button_releases@, r.button_releases@);
    let wired = grabs(input.grabbed@).map_values(
        |t: (Seq<char>, Hand, Seq<char>)| (t.0, wire_hand(t.1), t.2),
    );
    assert(wire_grabs(r.grabbed@).len() == r.grabbed@.len());
    assert(wired.len() == input.grabbed@.len());
    assert forall|k: int| 0 <= k < input.grabbed@.len() implies {
        &&& r.grabbed@[k].0@ == (#[trigger] input.grabbed@[k]).0@
        &&& same_side(input.grabbed@[k].1, r.grabbed@[k].1)
        &&& r.grabbed@[k].2@ == input.grabbed@[k].2@
    } by {
        assert(wire_grabs(r.grabbed@)[k] == (r.grabbed@[k].0@, r.grabbed@[k].1, r.grabbed@[k].2@));
        assert(wired[k] == (
            input.grabbed@[k].0@,
            wire_hand(input.grabbed@[k].1),
            input.grabbed@[k].2@,
        ));
    }
    assert forall|i: int| 0 <= i < input.part_blends.entries@.len() implies {
        let from = #[trigger] input.part_blends.entries@[i];
        let to = r.part_blends.entries@[i];
        &&& to.0@ == from.0@
        &&& to.1.entries@.len() == from.1.entries@.len()
        &&& forall|k: int|
            0 <= k < from.1.entries@.len() ==> to.1.entries@[k].0@ == (
            #[trigger] from.1.entries@[k]).0@ && to.1.entries@[k].1 == from.1.entries@[k].1
    } by {
        let from = input.part_blends.entries@[i];
        let to = r.part_blends.entries@[i];
        assert(to.0@ == from.0@);
        assert forall|k: int| 0 <= k < from.1.entries@.len() implies to.1.entries@[k].0@ == (
        #[trigger] from.1.entries@[k]).0@ && to.1.entries@[k].1 == from.1.entries@[k].1 by {
            assert(to.1.entries@[k].0@ == from.1.entries@[k].0@);
        }
    }
}

} // verus!
