//! The account of a frame that a debug viewer is sent.

use vstd::prelude::*;
use vstd::string::StringExecFns;

use crate::engine::{ControllerState, Transform};
use crate::platform::{joint_name, joint_title};
use crate::scalar::{Quat, Scalar, Vec2, Vec3};

verus! {

/// A tracked joint, as the runtime reports it.
#[derive(Clone, Copy, Debug, PartialEq, Eq)]
pub struct HandJoint {
    pub pose: Transform,
    pub valid: bool,
}

/// A tracked joint, as the viewer is sent it.
#[derive(Debug)]
pub struct JointSample {
    pub name: String,
    pub pose: Transform,
    pub valid: bool,
}

/// One hand, as the viewer is sent it.
#[derive(Debug)]
pub struct HandSample {
    pub tracking_active: bool,
    pub grip: Option<Transform>,
    pub aim: Option<Transform>,
    pub joints: Vec<JointSample>,
    pub trigger: Scalar,
    pub squeeze: Scalar,
    pub stick: Vec2,
    pub stick_click: bool,
    pub btn_a: bool,
    pub btn_b: bool,
    pub btn_x: bool,
    pub btn_y: bool,
}

/// Where the player stands, as the viewer is sent it.
#[derive(Debug)]
pub struct LocomotionSample {
    pub mode: String,
    pub player_offset: Vec3,
    pub player_yaw_deg: Scalar,
    pub teleport_aiming: bool,
}

/// What is in the scene, as the viewer is sent it.
#[derive(Debug)]
pub struct SceneSample {
    pub scene_name: String,
    pub object_count: usize,
    pub render_cuboids: usize,
    pub render_meshes: usize,
    pub active_animations: Vec<String>,
}

/// How fast frames come, as the viewer is sent it.
#[derive(Clone, Copy, Debug, PartialEq, Eq)]
pub struct TimingSample {
    pub dt_seconds: Scalar,
    pub fps: Scalar,
    pub frame_count: u64,
}

/// The account of a frame.
#[derive(Debug)]
pub struct DebugPacket {
    pub head: Transform,
    pub left_hand: HandSample,
    pub right_hand: HandSample,
    pub locomotion: LocomotionSample,
    pub scene: SceneSample,
    pub timing: TimingSample,
    pub log_lines: Vec<String>,
}

/// What the account is drawn from, besides the controllers.
#[derive(Debug)]
pub struct FrameFacts {
    pub left_joints: Vec<HandJoint>,
    pub right_joints: Vec<HandJoint>,
    pub eyes: Vec<Transform>,
    pub player_offset: Vec3,
    pub player_yaw_deg: Scalar,
    pub scene_name: String,
    pub cuboid_count: usize,
    pub mesh_count: usize,
    pub dt: Scalar,
    /// One divided by `dt`.
    pub rate: Scalar,
    pub frame_count: u64,
}

/// Whether samples are those of some joints: each in its place, under its name.
pub open spec fn samples_are(samples: Seq<JointSample>, joints: Seq<HandJoint>) -> bool {
    &&& samples.len() == joints.len()
    &&& forall|i: int|
        0 <= i < joints.len() ==> (#[trigger] samples[i]).name@ == joint_title(i)
            && samples[i].pose == joints[i].pose && samples[i].valid == joints[i].valid
}

fn to_joint_samples(joints: &Vec<HandJoint>) -> (r: Vec<JointSample>)
    ensures
        samples_are(r@, joints@),
{
    let mut out: Vec<JointSample> = Vec::new();
    let mut i: usize = 0;
    while i < joints.len()
        invariant
            i <= joints@.len(),
            samples_are(out@, joints@.take(i as int)),
        decreases joints@.len() - i,
    {
        out.push(
            JointSample {
                name: String::from_str(joint_name(i)),
                pose: joints[i].pose,
                valid: joints[i].valid,
            },
        );
        i = i + 1;
    }
    assert(joints@.take(i as int) =~= joints@);
    out
}

/// Where the player's head is: the first eye, or the middle of the stage where
/// no eye is tracked.
pub open spec fn head_of(eyes: Seq<Transform>) -> Transform {
    if eyes.len() > 0 {
        eyes[0]
    } else {
        Transform { position: Vec3::origin(), rotation: Quat::identity() }
    }
}

/// Whether a sample is of the left hand, which has the buttons X and Y.
pub open spec fn is_left_hand(h: HandSample, cs: ControllerState, joints: Seq<HandJoint>) -> bool {
    &&& h.tracking_active == (joints.len() > 0)
    &&& h.grip == cs.l_grip_pose
    &&& h.aim == cs.l_aim_pose
    &&& samples_are(h.joints@, joints)
    &&& h.trigger == cs.l_trigger
    &&& h.squeeze == cs.l_squeeze
    &&& h.stick == cs.l_stick
    &&& h.stick_click == cs.l_stick_click
    &&& !h.btn_a
    &&& !h.btn_b
    &&& h.btn_x == cs.btn_x
    &&& h.btn_y == cs.btn_y
}

/// Whether a sample is of the right hand, which has the buttons A and B.
pub open spec fn is_right_hand(
    h: HandSample,
    cs: ControllerState,
    joints: Seq<HandJoint>,
) -> bool {
    &&& h.tracking_active == (joints.len() > 0)
    &&& h.grip == cs.r_grip_pose
    &&& h.aim == cs.r_aim_pose
    &&& samples_are(h.joints@, joints)
    &&& h.trigger == cs.r_trigger
    &&& h.squeeze == cs.r_squeeze
    &&& h.stick == cs.r_stick
    &&& h.stick_click == cs.r_stick_click
    &&& h.btn_a == cs.btn_a
    &&& h.btn_b == cs.btn_b
    &&& !h.btn_x
    &&& !h.btn_y
}

/// Whether a packet is the account of a frame.
pub open spec fn accounts_for(p: DebugPacket, cs: ControllerState, f: FrameFacts) -> bool {
    &&& p.head == head_of(f.eyes@)
    &&& is_left_hand(p.left_hand, cs, f.left_joints@)
    &&& is_right_hand(p.right_hand, cs, f.right_joints@)
    &&& p.locomotion.mode@ == "client-predicted"@
    &&& p.locomotion.player_offset == f.player_offset
    &&& p.locomotion.player_yaw_deg == f.player_yaw_deg
    &&& !p.locomotion.teleport_aiming
    &&& p.scene.scene_name@ == f.scene_name@
    &&& p.scene.object_count == f.cuboid_count + f.mesh_count
    &&& p.scene.render_cuboids == f.cuboid_count
    &&& p.scene.render_meshes == f.mesh_count
    &&& p.scene.active_animations@.len() == 0
    &&& p.timing.dt_seconds == f.dt
    &&& p.timing.fps == (if Scalar::zero().below(f.dt) {
        f.rate
    } else {
        Scalar::zero()
    })
    &&& p.timing.frame_count == f.frame_count
    &&& p.log_lines@.len() == 0
}

/// The account of a frame.
pub fn packet(cs: &ControllerState, f: &FrameFacts) -> (r: DebugPacket)
    requires
        f.cuboid_count + f.mesh_count <= usize::MAX,
    ensures
        accounts_for(r, *cs, *f),
{
    DebugPacket {
        head: if f.eyes.len() > 0 {
            f.eyes[0]
        } else {
            Transform { position: Vec3::origin(), rotation: Quat::identity() }
        },
        left_hand: HandSample {
            tracking_active: f.left_joints.len() > 0,
            grip: cs.l_grip_pose,
            aim: cs.l_aim_pose,
            joints: to_joint_samples(&f.left_joints),
            trigger: cs.l_trigger,
            squeeze: cs.l_squeeze,
            stick: cs.l_stick,
            stick_click: cs.l_stick_click,
            btn_a: false,
            btn_b: false,
            btn_x: cs.btn_x,
            btn_y: cs.btn_y,
        },
        right_hand: HandSample {
            tracking_active: f.right_joints.len() > 0,
            grip: cs.r_grip_pose,
            aim: cs.r_aim_pose,
            joints: to_joint_samples(&f.right_joints),
            trigger: cs.r_trigger,
            squeeze: cs.r_squeeze,
            stick: cs.r_stick,
            stick_click: cs.r_stick_click,
            btn_a: cs.btn_a,
            btn_b: cs.btn_b,
            btn_x: false,
            btn_y: false,
        },
        locomotion: LocomotionSample {
            mode: String::from_str("client-predicted"),
            player_offset: f.player_offset,
            player_yaw_deg: f.player_yaw_deg,
            teleport_aiming: false,
        },
        scene: SceneSample {
            scene_name: f.scene_name.clone(),
            object_count: f.cuboid_count + f.mesh_count,
            render_cuboids: f.cuboid_count,
            render_meshes: f.mesh_count,
            active_animations: Vec::new(),
        },
        timing: TimingSample {
            dt_seconds: f.dt,
            fps: if f.dt.gt(Scalar::zero()) {
                f.rate
            } else {
                Scalar::zero()
            },
            frame_count: f.frame_count,
        },
        log_lines: Vec::new(),
    }
}

/// Whether a viewer is connected, and how many frames it has been missing for.
#[derive(Clone, Copy, Debug, PartialEq, Eq)]
pub struct DebugLink {
    pub connected: bool,
    pub reconnect_timer: u64,
}

/// Sends the account of a frame to the viewer, if there is one. `send` says
/// whether it went through; a viewer that it did not reach is given up, and the
/// wait for the next one begins.
pub fn maybe_send<S: FnOnce(DebugPacket) -> bool>(
    link: &mut DebugLink,
    cs: &ControllerState,
    f: &FrameFacts,
    send: S,
)
    requires
        f.cuboid_count + f.mesh_count <= usize::MAX,
        forall|p: DebugPacket| accounts_for(p, *cs, *f) ==> #[trigger] call_requires(send, (p,)),
    ensures
        !old(link).connected ==> *final(link) == *old(link),
        old(link).connected ==> exists|p: DebugPacket, sent: bool| #[trigger]
            call_ensures(send, (p,), sent) && accounts_for(p, *cs, *f) && *final(link) == (if sent {
                *old(link)
            } else {
                DebugLink { connected: false, reconnect_timer: 0 }
            }),
{
    if !link.connected {
        return ;
    }
    let p = packet(cs, f);
    let sent = send(p);
    if !sent {
        link.connected = false;
        link.reconnect_timer = 0;
    }
}

/// What the viewer sees of each hand is what that hand did: where it was held and
/// pointed, what its trigger, squeeze and stick did, and its own two buttons and
/// never the other hand's. A hand is tracked where it has joints, and each joint
/// comes in its place.
pub proof fn the_viewer_sees_each_hand_as_it_was(
    p: DebugPacket,
    cs: ControllerState,
    f: FrameFacts,
    right: bool,
)
    requires
        accounts_for(p, cs, f),
    ensures
        ({
            let (seen, joints) = if right {
                (p.right_hand, f.right_joints@)
            } else {
                (p.left_hand, f.left_joints@)
            };
            let (grip, aim) = if right {
                (cs.r_grip_pose, cs.r_aim_pose)
            } else {
                (cs.l_grip_pose, cs.l_aim_pose)
            };
            let (trigger, squeeze) = if right {
                (cs.r_trigger, cs.r_squeeze)
            } else {
                (cs.l_trigger, cs.l_squeeze)
            };
            let (stick, click) = if right {
                (cs.r_stick, cs.r_stick_click)
            } else {
                (cs.l_stick, cs.l_stick_click)
            };
            &&& seen.grip == grip && seen.aim == aim
            &&& seen.trigger == trigger && seen.squeeze == squeeze
            &&& seen.stick == stick && seen.stick_click == click
            &&& seen.btn_a <==> right && cs.btn_a
            &&& seen.btn_b <==> right && cs.btn_b
            &&& seen.btn_x <==> !right && cs.btn_x
            &&& seen.btn_y <==> !right && cs.btn_y
            &&& seen.tracking_active <==> joints.len() > 0
            &&& seen.joints@.len() == joints.len()
            &&& forall|i: int|
                0 <= i < joints.len() ==> {
                    &&& (#[trigger] seen.joints@[i]).pose == joints[i].pose
                    &&& seen.joints@[i].valid == joints[i].valid
                    &&& seen.joints@[i].name@ == joint_title(i)
                }
        }),
{
    if right {
        let _ = p.right_hand.joints@;
    }
}

/// What the viewer sees besides is what the frame was: the first eye for a head, or
/// the middle of the stage; the place and direction of the player; as many objects
/// as there are cuboids and meshes; and the rate of frames, or zero where no time
/// has passed.
pub proof fn the_viewer_sees_the_frame_as_it_was(
    p: DebugPacket,
    cs: ControllerState,
    f: FrameFacts,
)
    requires
        accounts_for(p, cs, f),
    ensures
        f.eyes@.len() > 0 ==> p.head == f.eyes@.first(),
        f.eyes@.len() == 0 ==> p.head.position.x.bits == 0 && p.head.position.y.bits == 0
            && p.head.position.z.bits == 0 && p.head.rotation.x.bits == 0 && p.head.rotation.y.bits
            == 0 && p.head.rotation.z.bits == 0 && p.head.rotation.w.bits == 0x3f80_0000,
        p.locomotion.player_offset == f.player_offset,
        p.locomotion.player_yaw_deg == f.player_yaw_deg,
        p.scene.scene_name@ == f.scene_name@,
        p.scene.render_cuboids == f.cuboid_count,
        p.scene.object_count - p.scene.render_cuboids == f.mesh_count,
        p.scene.object_count == p.scene.render_cuboids + p.scene.render_meshes,
        p.timing.dt_seconds == f.dt,
        p.timing.frame_count == f.frame_count,
        (Scalar { bits: 0 }).below(f.dt) ==> p.timing.fps == f.rate,
        !(Scalar { bits: 0 }).below(f.dt) ==> p.timing.fps.bits == 0,
{
}

} // verus!
