//! What the client knows about the player and about the scene's objects.

use vstd::prelude::*;

use crate::scalar::{Quat, Scalar, Vec2, Vec3};
use crate::table::Table;

verus! {

/// One of the player's hands.
#[derive(Clone, Copy, Debug, PartialEq, Eq, Structural)]
pub enum Hand {
    Left,
    Right,
}

impl Hand {
    /// The other hand.
    pub open spec fn opposite(self) -> Hand {
        match self {
            Hand::Left => Hand::Right,
            Hand::Right => Hand::Left,
        }
    }

    /// The other hand.
    pub fn other(self) -> (r: Hand)
        ensures
            r == self.opposite(),
    {
        match self {
            Hand::Left => Hand::Right,
            Hand::Right => Hand::Left,
        }
    }
}

/// Something that each hand has one of.
#[derive(Debug)]
pub struct PerHand<T> {
    pub left: T,
    pub right: T,
}

impl<T> PerHand<T> {
    /// The one that belongs to a hand.
    pub open spec fn of(self, hand: Hand) -> T {
        match hand {
            Hand::Left => self.left,
            Hand::Right => self.right,
        }
    }

    /// The one that belongs to a hand.
    pub fn get(&self, hand: Hand) -> (r: &T)
        ensures
            *r == self.of(hand),
    {
        match hand {
            Hand::Left => &self.left,
            Hand::Right => &self.right,
        }
    }

    /// Replaces the one that belongs to a hand.
    pub fn set(&mut self, hand: Hand, value: T)
        ensures
            final(self).of(hand) == value,
            final(self).of(hand.opposite()) == old(self).of(hand.opposite()),
    {
        match hand {
            Hand::Left => {
                self.left = value;
            },
            Hand::Right => {
                self.right = value;
            },
        }
    }
}

/// A joint of a tracked hand.
#[derive(Clone, Copy, Debug, PartialEq, Eq, Structural)]
pub enum FingerJoint {
    Palm,
    Wrist,
    ThumbMeta,
    ThumbProx,
    ThumbDist,
    ThumbTip,
    IndexMeta,
    IndexProx,
    IndexInter,
    IndexDist,
    IndexTip,
    MiddleMeta,
    MiddleProx,
    MiddleInter,
    MiddleDist,
    MiddleTip,
    RingMeta,
    RingProx,
    RingInter,
    RingDist,
    RingTip,
    LittleMeta,
    LittleProx,
    LittleInter,
    LittleDist,
    LittleTip,
}

/// A joint of the player's rig.
#[derive(Clone, Copy, Debug, PartialEq, Eq, Structural)]
pub enum JointId {
    Head,
    HandGrip(Hand),
    HandAim(Hand),
    Finger(Hand, FingerJoint),
}

/// A place and a direction to face.
#[derive(Clone, Copy, Debug, PartialEq, Eq, Structural)]
pub struct Transform {
    pub position: Vec3,
    pub rotation: Quat,
}

/// The tracked joints of the player, in the order in which they were walked.
#[derive(Debug)]
pub struct PlayerRig {
    pub joints: Vec<(JointId, Transform)>,
    pub hand_tracking_active: Vec<(Hand, bool)>,
}

/// What the controllers report for one frame.
#[derive(Clone, Copy, Debug, PartialEq, Eq)]
pub struct ControllerState {
    pub l_trigger: Scalar,
    pub r_trigger: Scalar,
    pub l_squeeze: Scalar,
    pub r_squeeze: Scalar,
    pub l_stick: Vec2,
    pub r_stick: Vec2,
    pub l_stick_click: bool,
    pub r_stick_click: bool,
    pub btn_a: bool,
    pub btn_b: bool,
    pub btn_x: bool,
    pub btn_y: bool,
    pub l_grip_pose: Option<Transform>,
    pub r_grip_pose: Option<Transform>,
    pub l_aim_pose: Option<Transform>,
    pub r_aim_pose: Option<Transform>,
}

impl ControllerState {
    /// How far a hand's trigger is pulled.
    pub open spec fn trigger(self, hand: Hand) -> Scalar {
        match hand {
            Hand::Left => self.l_trigger,
            Hand::Right => self.r_trigger,
        }
    }

    /// How hard a hand squeezes.
    pub open spec fn squeeze(self, hand: Hand) -> Scalar {
        match hand {
            Hand::Left => self.l_squeeze,
            Hand::Right => self.r_squeeze,
        }
    }

    /// How far a hand's trigger is pulled.
    pub fn trigger_of(&self, hand: Hand) -> (r: Scalar)
        ensures
            r == self.trigger(hand),
    {
        match hand {
            Hand::Left => self.l_trigger,
            Hand::Right => self.r_trigger,
        }
    }

    /// How hard a hand squeezes.
    pub fn squeeze_of(&self, hand: Hand) -> (r: Scalar)
        ensures
            r == self.squeeze(hand),
    {
        match hand {
            Hand::Left => self.l_squeeze,
            Hand::Right => self.r_squeeze,
        }
    }
}

/// A button edge, and what the hand on that button was holding.
#[derive(Debug)]
pub struct ButtonPress {
    pub button: String,
    pub object_id: Option<String>,
    pub hand: Option<Hand>,
}

/// The continuous values of the controllers.
#[derive(Clone, Copy, Debug, PartialEq, Eq, Structural)]
pub struct InputAxes {
    pub l_trigger: Scalar,
    pub r_trigger: Scalar,
    pub l_grip: Scalar,
    pub r_grip: Scalar,
    pub l_stick: Vec2,
    pub r_stick: Vec2,
}

/// What the player did in one frame.
#[derive(Debug)]
pub struct InputFrame {
    pub pointed: Vec<(String, Hand)>,
    pub grabbed: Vec<(String, Hand, String)>,
    pub released: Vec<(String, Hand)>,
    pub button_presses: Vec<ButtonPress>,
    pub button_releases: Vec<ButtonPress>,
    pub axes: InputAxes,
    pub part_blends: Table<Table<Scalar>>,
}

/// What the sticks and the teleport trigger ask for.
#[derive(Clone, Copy, Debug, PartialEq, Eq, Structural)]
pub struct LocomotionInput {
    pub move_stick: Vec2,
    pub turn_stick_x: Scalar,
    pub teleport_pressed: bool,
    pub teleport_released: bool,
    pub teleport_hand: Hand,
}

/// Where a teleport would land.
#[derive(Clone, Copy, Debug, PartialEq, Eq, Structural)]
pub struct TeleportTarget {
    pub position: Vec3,
    pub valid: bool,
}

/// How a grip point is held.
#[derive(Clone, Copy, Debug, PartialEq, Eq, Structural)]
pub enum GripKind {
    /// With the whole hand.
    Palm,
    /// Between two fingers, which only the trigger does.
    Pinch,
}

/// A place on an object where a hand may hold it.
#[derive(Debug)]
pub struct GripPointDef {
    pub name: String,
    pub hand: Hand,
    pub kind: GripKind,
    pub grab_range: Option<Scalar>,
    pub part: Option<String>,
    pub local_pos: Vec3,
}

/// What moves a part of an object.
#[derive(Clone, Copy, Debug, PartialEq, Eq, Structural)]
pub enum PartDriver {
    HoldTrigger,
    HoldGrip,
    HandPull,
    Manual,
}

/// How a clip joins the pose that the other clips made.
#[derive(Clone, Copy, Debug, PartialEq, Eq, Structural)]
pub enum ClipBlendMode {
    Additive,
    Override,
}

/// An animated part of an object. `easing` numbers the curve that shapes the
/// blend.
#[derive(Debug)]
pub struct PartAnimationDef {
    pub clip: String,
    pub driver: PartDriver,
    pub easing: u32,
    pub blend_mode: ClipBlendMode,
}

/// The sky that a scene asks for.
#[derive(Debug)]
pub struct SkyDef {
    pub id: String,
    pub rotation_deg: Scalar,
    pub intensity: Scalar,
}

/// What the views of two optional texts have in common: the same text, or none.
pub open spec fn text_of(s: Option<String>) -> Option<Seq<char>> {
    match s {
        Some(t) => Some(t@),
        None => None,
    }
}

/// A copy of an optional text.
pub fn copy_text(s: &Option<String>) -> (r: Option<String>)
    ensures
        text_of(r) == text_of(*s),
{
    match s {
        Some(t) => Some(t.clone()),
        None => None,
    }
}

/// The texts of a list of strings.
pub open spec fn texts(s: Seq<String>) -> Seq<Seq<char>> {
    s.map_values(|t: String| t@)
}

/// A copy of a list of texts.
pub fn copy_texts(from: &Vec<String>) -> (r: Vec<String>)
    ensures
        texts(r@) == texts(from@),
{
    let mut out: Vec<String> = Vec::new();
    let mut i: usize = 0;
    while i < from.len()
        invariant
            i <= from@.len(),
            texts(out@) =~= texts(from@).take(i as int),
        decreases from@.len() - i,
    {
        let ghost had = out@;
        out.push(from[i].clone());
        proof {
            assert(texts(out@) =~= texts(had).push(from@[i as int]@));
        }
        i = i + 1;
    }
    assert(texts(out@) =~= texts(from@));
    out
}

/// Whether a list holds a text.
pub fn lists(list: &[String], text: &String) -> (r: bool)
    ensures
        r == texts(list@).contains(text@),
{
    let mut i: usize = 0;
    while i < list.len()
        invariant
            i <= list@.len(),
            forall|j: int| 0 <= j < i ==> texts(list@)[j] != text@,
        decreases list@.len() - i,
    {
        if list[i] == *text {
            assert(texts(list@)[i as int] == text@);
            return true;
        }
        i = i + 1;
    }
    false
}

/// Where a text first stands in a list.
pub open spec fn place(list: Seq<Seq<char>>, text: Seq<char>) -> Option<int>
    decreases list.len(),
{
    if list.len() == 0 {
        None
    } else {
        match place(list.drop_last(), text) {
            Some(i) => Some(i),
            None => if list.last() == text {
                Some(list.len() - 1)
            } else {
                None
            },
        }
    }
}

/// Where a text first stands in a list.
pub fn find_text(list: &Vec<String>, text: &String) -> (r: Option<usize>)
    ensures
        match r {
            Some(i) => place(texts(list@), text@) == Some(i as int) && i < list@.len(),
            None => place(texts(list@), text@) is None,
        },
{
    let ghost all = texts(list@);
    let mut found: Option<usize> = None;
    let mut i: usize = 0;
    while i < list.len()
        invariant
            i <= list@.len(),
            all == texts(list@),
            match found {
                Some(f) => place(all.take(i as int), text@) == Some(f as int) && f < i,
                None => place(all.take(i as int), text@) is None,
            },
        decreases list@.len() - i,
    {
        proof {
            assert(all.take(i + 1).drop_last() =~= all.take(i as int));
        }
        if found.is_none() && list[i] == *text {
            found = Some(i);
        }
        i = i + 1;
    }
    assert(all.take(i as int) =~= all);
    found
}

/// `place` finds the first of the texts that are the same, and nothing where there is
/// none.
pub proof fn place_is_first(list: Seq<Seq<char>>, text: Seq<char>)
    ensures
        match place(list, text) {
            Some(i) => 0 <= i < list.len() && list[i] == text && forall|k: int|
                0 <= k < i ==> #[trigger] list[k] != text,
            None => forall|k: int| 0 <= k < list.len() ==> #[trigger] list[k] != text,
        },
    decreases list.len(),
{
    if list.len() > 0 {
        let front = list.drop_last();
        place_is_first(front, text);
        assert(forall|k: int| 0 <= k < front.len() ==> front[k] == #[trigger] list[k]);
    }
}

} // verus!
