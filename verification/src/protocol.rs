//! What travels between the client and the server.

use vstd::prelude::*;

use crate::engine::Hand;
use crate::scalar::{Quat, Scalar, Vec2, Vec3};
use crate::table::Table;

verus! {

/// One of a player's hands, on the wire.
#[derive(Clone, Copy, Debug, PartialEq, Eq, Structural)]
pub enum WireHand {
    Left,
    Right,
}

/// A joint of a tracked hand, on the wire.
#[derive(Clone, Copy, Debug, PartialEq, Eq, Structural)]
pub enum WireFingerJoint {
    Palm,
    Wrist,
    ThumbMeta,
    ThumbProx,
    ThumbDist,
    ThumbTip,
    IndexMeta,
    IndexProx,
    IndexInter,
    IndexDist,
    IndexTip,
    MiddleMeta,
    MiddleProx,
    MiddleInter,
    MiddleDist,
    MiddleTip,
    RingMeta,
    RingProx,
    RingInter,
    RingDist,
    RingTip,
    LittleMeta,
    LittleProx,
    LittleInter,
    LittleDist,
    LittleTip,
}

/// A joint of a player's rig, on the wire.
#[derive(Clone, Copy, Debug, PartialEq, Eq, Structural)]
pub enum WireJointId {
    Head,
    HandGrip(WireHand),
    HandAim(WireHand),
    Finger(WireHand, WireFingerJoint),
}

/// A place and a direction to face, on the wire.
#[derive(Clone, Copy, Debug, PartialEq, Eq, Structural)]
pub struct Pose {
    pub position: Vec3,
    pub rotation: Quat,
}

/// The tracked joints of a player, on the wire.
#[derive(Clone, Debug)]
pub struct WirePlayerRig {
    pub joints: Vec<(WireJointId, Pose)>,
    pub hand_tracking_active: Vec<(WireHand, bool)>,
}

/// A button edge, on the wire.
#[derive(Clone, Debug)]
pub struct WireButtonPress {
    pub button: String,
    pub object_id: Option<String>,
    pub hand: Option<WireHand>,
}

/// The continuous values of the controllers, on the wire.
#[derive(Clone, Copy, Debug, PartialEq, Eq, Structural)]
pub struct WireInputAxes {
    pub l_trigger: Scalar,
    pub r_trigger: Scalar,
    pub l_grip: Scalar,
    pub r_grip: Scalar,
    pub l_stick: Vec2,
    pub r_stick: Vec2,
}

/// What a player did in one frame, on the wire.
#[derive(Clone, Debug)]
pub struct WireInputFrame {
    pub pointed: Vec<(String, WireHand)>,
    pub grabbed: Vec<(String, WireHand, String)>,
    pub released: Vec<(String, WireHand)>,
    pub button_presses: Vec<WireButtonPress>,
    pub button_releases: Vec<WireButtonPress>,
    pub axes: WireInputAxes,
    pub part_blends: Table<Table<Scalar>>,
}

/// What the sticks ask for and where the player stands, on the wire.
#[derive(Clone, Copy, Debug, PartialEq, Eq)]
pub struct WireLocomotionInput {
    pub move_stick: Vec2,
    pub turn_stick_x: Scalar,
    pub teleport_pressed: bool,
    pub teleport_released: bool,
    pub teleport_hand: WireHand,
    pub player_offset: Option<Vec3>,
    pub player_yaw: Option<Scalar>,
}

/// Where a teleport would land, on the wire.
#[derive(Clone, Copy, Debug, PartialEq, Eq, Structural)]
pub struct WireTeleportTarget {
    pub position: Vec3,
    pub valid: bool,
}

/// A colour with its opacity.
#[derive(Clone, Copy, Debug, PartialEq, Eq, Structural)]
pub struct WireColor3(pub u8, pub u8, pub u8, pub u8);

/// How a cuboid is drawn.
#[derive(Clone, Copy, Debug, PartialEq, Eq, Structural)]
pub enum WireCuboidStyle {
    Solid,
    Wireframe,
    SolidAndWire,
}

/// The shape inside a cuboid's bounds.
#[derive(Clone, Copy, Debug, PartialEq, Eq, Structural)]
pub enum WireCuboidShape {
    Box,
    Cylinder,
}

/// A cuboid to draw.
#[derive(Clone, Debug)]
pub struct WireRenderCuboid {
    pub id: String,
    pub position: Vec3,
    pub rotation: Quat,
    pub half_size: Vec3,
    pub color: WireColor3,
    pub wire_color: WireColor3,
    pub style: WireCuboidStyle,
    pub shape: WireCuboidShape,
    pub reflectivity: Scalar,
}

/// A mesh to draw.
#[derive(Clone, Debug)]
pub struct WireRenderMesh {
    pub id: String,
    pub path: String,
    pub position: Vec3,
    pub rotation: Quat,
    pub scale: Vec3,
    pub hidden_parts: Vec<String>,
    pub manual_part_blends: Table<Scalar>,
}

/// How a light spreads.
#[derive(Clone, Copy, Debug, PartialEq, Eq, Structural)]
pub enum WireLightKind {
    Point,
    Spot,
}

/// A light.
#[derive(Clone, Copy, Debug, PartialEq, Eq, Structural)]
pub struct WireRenderLight {
    pub position: Vec3,
    pub direction: Vec3,
    pub kind: WireLightKind,
    pub color: WireColor3,
    pub intensity: Scalar,
    pub range: Scalar,
    pub cone_angle_deg: Scalar,
}

/// A laser beam.
#[derive(Clone, Copy, Debug, PartialEq, Eq, Structural)]
pub struct WireRenderLaser {
    pub origin: Vec3,
    pub end: Vec3,
    pub beam_width: Scalar,
    pub color: WireColor3,
}

/// Something that sheds particles.
#[derive(Clone, Debug)]
pub struct WireRenderParticleEmitter {
    pub id: String,
    pub position: Vec3,
    pub direction: Vec3,
    pub spread_deg: Scalar,
    pub speed: Scalar,
    pub spawn_rate: Scalar,
    pub lifetime: Scalar,
    pub particle_size: Scalar,
    pub color: WireColor3,
}

/// The box around an object.
#[derive(Clone, Debug)]
pub struct WireObjectBounds {
    pub id: String,
    pub position: Vec3,
    pub rotation: Quat,
    pub half_size: Vec3,
}

/// What the server says a hand holds, and where on it.
#[derive(Clone, Debug)]
pub struct WireHeldGrip {
    pub object_id: String,
    pub point_local_pos: Vec3,
    pub point_local_rot: Quat,
    /// Whether the server sent the pose that the author gave the hand.
    pub has_hand_pose: bool,
}

/// A sound that an object makes.
#[derive(Clone, Debug)]
pub struct WireSoundState {
    pub object_id: String,
    pub clip: String,
    pub position: Vec3,
    pub volume: Scalar,
    pub pitch: Scalar,
    pub looping: bool,
    pub min_distance: Scalar,
    pub max_distance: Scalar,
}

/// The server's latest account of the world.
#[derive(Clone, Debug)]
pub struct WireWorld {
    pub scene_name: String,
    pub player_offset: Vec3,
    pub player_yaw: Scalar,
    pub cuboids: Vec<WireRenderCuboid>,
    pub meshes: Vec<WireRenderMesh>,
    pub lights: Vec<WireRenderLight>,
    pub lasers: Vec<WireRenderLaser>,
    pub object_bounds: Vec<WireObjectBounds>,
    pub particle_emitters: Vec<WireRenderParticleEmitter>,
    pub hidden_brushes: Vec<String>,
    pub left_hand_held: Option<WireHeldGrip>,
    pub right_hand_held: Option<WireHeldGrip>,
    pub sounds: Vec<WireSoundState>,
}

/// What a world says that a hand holds.
pub open spec fn held_in(world: Option<WireWorld>, hand: Hand) -> Option<WireHeldGrip> {
    match world {
        Some(w) => match hand {
            Hand::Left => w.left_hand_held,
            Hand::Right => w.right_hand_held,
        },
        None => None,
    }
}

/// What a world says that a hand holds.
pub fn held(world: &Option<WireWorld>, hand: Hand) -> (r: Option<&WireHeldGrip>)
    ensures
        match r {
            Some(h) => held_in(*world, hand) == Some(*h),
            None => held_in(*world, hand) is None,
        },
{
    match world {
        Some(w) => match hand {
            Hand::Left => w.left_hand_held.as_ref(),
            Hand::Right => w.right_hand_held.as_ref(),
        },
        None => None,
    }
}

/// Where the first mesh with an id stands in a list, if there is one.
pub open spec fn mesh_position(meshes: Seq<WireRenderMesh>, id: Seq<char>) -> Option<int>
    decreases meshes.len(),
{
    if meshes.len() == 0 {
        None
    } else {
        match mesh_position(meshes.drop_last(), id) {
            Some(i) => Some(i),
            None => if meshes.last().id@ == id {
                Some(meshes.len() - 1)
            } else {
                None
            },
        }
    }
}

/// Where the first mesh with an id stands in a list.
pub fn find_mesh(meshes: &[WireRenderMesh], id: &String) -> (r: Option<usize>)
    ensures
        match r {
            Some(i) => mesh_position(meshes@, id@) == Some(i as int) && i < meshes@.len(),
            None => mesh_position(meshes@, id@) is None,
        },
{
    let mut found: Option<usize> = None;
    let mut i: usize = 0;
    while i < meshes.len()
        invariant
            i <= meshes@.len(),
            match found {
                Some(f) => mesh_position(meshes@.take(i as int), id@) == Some(f as int) && f < i,
                None => mesh_position(meshes@.take(i as int), id@) is None,
            },
        decreases meshes@.len() - i,
    {
        proof {
            assert(meshes@.take(i + 1).drop_last() =~= meshes@.take(i as int));
        }
        if found.is_none() && meshes[i].id == *id {
            found = Some(i);
        }
        i = i + 1;
    }
    proof {
        assert(meshes@.take(i as int) =~= meshes@);
    }
    found
}

} // verus!
