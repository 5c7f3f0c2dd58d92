//! Grabs, releases, button edges and pulled parts.

use vstd::prelude::*;
use vstd::string::StringExecFns;

use crate::engine::{
    copy_text, text_of, ButtonPress, ControllerState, Hand, InputAxes, InputFrame,
    PartAnimationDef, PartDriver, PerHand,
};
use crate::grab_detect::{
    held_object_id, holding, nearest_grabbable, nearest_grabbable_object_to, nearest_grip,
    nearest_grip_point_to, nearest_object, nearest_object_to, one_distance_each, LiveObjects,
    StaticScene,
};
use crate::protocol::{
    find_mesh, held, held_in, mesh_position, WireHeldGrip, WireRenderMesh, WireWorld,
};
use crate::scalar::{Scalar, Vec3};
use crate::table::Table;

verus! {

/// The bit pattern of 0.5: how far a trigger or a grip is pulled before it
/// counts as pressed.
pub const BUTTON_THRESHOLD: u32 = 0x3f00_0000;

/// The bit pattern of 0.09: how near a hand must be to a part to pull it.
pub const PART_PULL_GRAB_RANGE: u32 = 0x3db8_51ec;

/// Whether an analog pull counts as pressed.
pub open spec fn is_pressed(pull: Scalar) -> bool {
    (Scalar { bits: BUTTON_THRESHOLD }).below(pull)
}

/// Whether an analog pull counts as pressed.
pub fn pressed(pull: Scalar) -> (r: bool)
    ensures
        r == is_pressed(pull),
{
    pull.gt(Scalar { bits: BUTTON_THRESHOLD })
}

/// How far a driver that reads the controllers has moved its part.
pub open spec fn driven_blend(driver: PartDriver, hand: Hand, cs: ControllerState) -> Scalar {
    match driver {
        PartDriver::HoldTrigger => cs.trigger(hand),
        PartDriver::HoldGrip => cs.squeeze(hand),
        PartDriver::HandPull => Scalar::zero(),
        PartDriver::Manual => Scalar::zero(),
    }
}

/// How far a driver that reads the controllers has moved its part.
pub fn part_animation_blend(driver: PartDriver, hand: Hand, cs: &ControllerState) -> (r: Scalar)
    ensures
        r == driven_blend(driver, hand, *cs),
{
    match driver {
        PartDriver::HoldTrigger => cs.trigger_of(hand),
        PartDriver::HoldGrip => cs.squeeze_of(hand),
        PartDriver::HandPull => Scalar::zero(),
        PartDriver::Manual => Scalar::zero(),
    }
}

/// The index of a hand in a pair, left first.
#[verifier::allow_in_spec]
pub fn hand_idx(hand: Hand) -> usize
    returns
        (match hand {
            Hand::Left => 0usize,
            Hand::Right => 1usize,
        }),
{
    match hand {
        Hand::Left => 0,
        Hand::Right => 1,
    }
}

/// A hand that is pulling a part.
#[derive(Debug)]
pub struct PullSession {
    pub object_id: String,
    pub clip: String,
    pub grab_local: Vec3,
    pub axis_model: Vec3,
    pub travel: Scalar,
    pub b0: Scalar,
    pub blend: Scalar,
}

/// What a pull amounts to.
pub struct Pull {
    pub object_id: Seq<char>,
    pub clip: Seq<char>,
    pub grab_local: Vec3,
    pub axis_model: Vec3,
    pub travel: Scalar,
    pub b0: Scalar,
    pub blend: Scalar,
}

impl View for PullSession {
    type V = Pull;

    open spec fn view(&self) -> Pull {
        Pull {
            object_id: self.object_id@,
            clip: self.clip@,
            grab_local: self.grab_local,
            axis_model: self.axis_model,
            travel: self.travel,
            b0: self.b0,
            blend: self.blend,
        }
    }
}

/// What an optional pull amounts to.
pub open spec fn pull_of(s: Option<PullSession>) -> Option<Pull> {
    match s {
        Some(p) => Some(p@),
        None => None,
    }
}

/// Where on its travel a part stands, measured in what each hand holds. Where a
/// hand holds nothing, or not the part's object, its measure means nothing.
#[derive(Clone, Copy, Debug, PartialEq, Eq, Structural)]
pub struct Along {
    pub left: Scalar,
    pub right: Scalar,
}

impl Along {
    /// The measure in what a hand holds.
    pub open spec fn of(self, hand: Hand) -> Scalar {
        match hand {
            Hand::Left => self.left,
            Hand::Right => self.right,
        }
    }

    /// The measure in what a hand holds.
    pub fn get(self, hand: Hand) -> (r: Scalar)
        ensures
            r == self.of(hand),
    {
        match hand {
            Hand::Left => self.left,
            Hand::Right => self.right,
        }
    }
}

/// How a hand stands to a part that can be pulled.
#[derive(Clone, Copy, Debug, PartialEq, Eq, Structural)]
pub struct PullReach {
    pub axis_model: Vec3,
    pub travel: Scalar,
    /// From the hand to the part's handle.
    pub distance: Scalar,
    /// Where on its travel the part stands if the pull begins here.
    pub pulled: Along,
}

/// Everything measured around one hand in a frame.
#[derive(Debug)]
pub struct HandReach {
    /// To each live object, in the order of the walk.
    pub objects: Vec<Scalar>,
    /// To each grip point of the scene, in the order of the walk.
    pub grips: Vec<Vec<Scalar>>,
    /// The hand, in the frame of what the other hand holds.
    pub local: Vec3,
    /// For each part of what the other hand holds, how the hand stands to it, or
    /// `None` where the part has no handle. `None` in all where the object is
    /// not loaded or has no skeleton.
    pub pulls: Option<Vec<Option<PullReach>>>,
    /// Where on its travel the part that this hand already pulls now stands.
    pub pulled: Along,
}

/// Whether a part starts to move when the hand closes.
pub open spec fn pullable(part: PartAnimationDef, reach: Option<PullReach>) -> bool {
    part.driver == PartDriver::HandPull && match reach {
        Some(p) => p.distance.at_most(Scalar { bits: PART_PULL_GRAB_RANGE }),
        None => false,
    }
}

/// The first part that starts to move when the hand closes.
pub open spec fn first_pullable(
    parts: Seq<PartAnimationDef>,
    reach: Seq<Option<PullReach>>,
) -> Option<int>
    decreases parts.len(),
{
    if parts.len() == 0 {
        None
    } else {
        match first_pullable(parts.drop_last(), reach) {
            Some(i) => Some(i),
            None => if pullable(parts.last(), reach[parts.len() - 1]) {
                Some(parts.len() - 1)
            } else {
                None
            },
        }
    }
}

/// The pull that starts when a hand closes near an object that the other hand
/// holds, and the part that it moves.
pub open spec fn pull_start(
    object_id: Seq<char>,
    local: Vec3,
    scene: StaticScene,
    pulls: Option<Vec<Option<PullReach>>>,
) -> Option<(Pull, int)> {
    match (scene.part_animations.lookup(object_id), pulls) {
        (Some(parts), Some(reach)) => match first_pullable(parts@, reach@) {
            Some(i) => Some(
                (
                    Pull {
                        object_id,
                        clip: parts@[i].clip@,
                        grab_local: local,
                        axis_model: reach@[i]->0.axis_model,
                        travel: reach@[i]->0.travel,
                        b0: Scalar::zero(),
                        blend: Scalar::zero(),
                    },
                    i,
                ),
            ),
            None => None,
        },
        _ => None,
    }
}

/// Whether the parts of an object and what was measured of them belong together.
pub open spec fn one_reach_each(
    object_id: Seq<char>,
    scene: StaticScene,
    pulls: Option<Vec<Option<PullReach>>>,
) -> bool {
    match (scene.part_animations.lookup(object_id), pulls) {
        (Some(parts), Some(reach)) => parts@.len() == reach@.len(),
        _ => true,
    }
}

/// Starts to pull the first part within reach of an object that the other hand
/// holds. Also tells where on its travel that part stands.
pub fn try_start_pull(
    object_id: &String,
    local: Vec3,
    static_scene: &StaticScene,
    pulls: &Option<Vec<Option<PullReach>>>,
) -> (r: Option<(PullSession, Along)>)
    requires
        one_reach_each(object_id@, *static_scene, *pulls),
    ensures
        match r {
            Some(s) => pull_start(object_id@, local, *static_scene, *pulls) matches Some(p) && s.0@
                == p.0 && s.1 == pulls->0@[p.1]->0.pulled,
            None => pull_start(object_id@, local, *static_scene, *pulls) is None,
        },
{
    let parts = match static_scene.part_animations.get(object_id) {
        Some(p) => p,
        None => {
            return None;
        },
    };
    let reach = match pulls {
        Some(p) => p,
        None => {
            return None;
        },
    };
    let mut found: Option<usize> = None;
    let mut i: usize = 0;
    while i < parts.len()
        invariant
            i <= parts@.len(),
            parts@.len() == reach@.len(),
            match found {
                Some(f) => first_pullable(parts@.take(i as int), reach@) == Some(f as int) && f < i
                    && reach@[f as int] is Some,
                None => first_pullable(parts@.take(i as int), reach@) is None,
            },
        decreases parts@.len() - i,
    {
        proof {
            assert(parts@.take(i + 1).drop_last() =~= parts@.take(i as int));
        }
        if found.is_none() && parts[i].driver == PartDriver::HandPull {
            if let Some(p) = &reach[i] {
                if p.distance.le(Scalar { bits: PART_PULL_GRAB_RANGE }) {
                    found = Some(i);
                }
            }
        }
        i = i + 1;
    }
    proof {
        assert(parts@.take(i as int) =~= parts@);
    }
    match found {
        Some(f) => match &reach[f] {
            Some(p) => Some(
                (
                    PullSession {
                        object_id: object_id.clone(),
                        clip: parts[f].clip.clone(),
                        grab_local: local,
                        axis_model: p.axis_model,
                        travel: p.travel,
                        b0: Scalar::zero(),
                        blend: Scalar::zero(),
                    },
                    p.pulled,
                ),
            ),
            None => None,
        },
        None => None,
    }
}

/// One clip of an object, with the blend that its driver gives it and the curve
/// that shapes the blend.
pub struct BlendSource {
    pub clip: Seq<char>,
    pub easing: u32,
    pub raw: Scalar,
}

/// Whether a hand is pulling a clip of an object.
pub open spec fn pulls_clip(s: Option<PullSession>, object_id: Seq<char>, clip: Seq<char>) -> bool {
    match s {
        Some(p) => p.object_id@ == object_id && p.clip@ == clip,
        None => false,
    }
}

/// Where the pull on a clip stands: the left hand's, if it pulls the clip, or
/// else the right hand's.
pub open spec fn pulled_blend(
    sessions: PerHand<Option<PullSession>>,
    object_id: Seq<char>,
    clip: Seq<char>,
) -> Scalar {
    if pulls_clip(sessions.left, object_id, clip) {
        sessions.left->0.blend
    } else if pulls_clip(sessions.right, object_id, clip) {
        sessions.right->0.blend
    } else {
        Scalar::zero()
    }
}

/// What a script set a clip to.
pub open spec fn manual_blend(manual: Option<Table<Scalar>>, clip: Seq<char>) -> Scalar {
    match manual {
        Some(m) => match m.lookup(clip) {
            Some(b) => b,
            None => Scalar::zero(),
        },
        None => Scalar::zero(),
    }
}

/// The blend that a part's driver gives it.
pub open spec fn raw_blend(
    object_id: Seq<char>,
    part: PartAnimationDef,
    hand: Hand,
    cs: ControllerState,
    sessions: PerHand<Option<PullSession>>,
    manual: Option<Table<Scalar>>,
) -> Scalar {
    match part.driver {
        PartDriver::HandPull => pulled_blend(sessions, object_id, part.clip@),
        PartDriver::Manual => manual_blend(manual, part.clip@),
        _ => driven_blend(part.driver, hand, cs),
    }
}

/// The blends that the drivers of an object's parts give them, part by part.
pub open spec fn blend_sources(
    object_id: Seq<char>,
    parts: Seq<PartAnimationDef>,
    hand: Hand,
    cs: ControllerState,
    sessions: PerHand<Option<PullSession>>,
    manual: Option<Table<Scalar>>,
) -> Seq<BlendSource> {
    Seq::new(
        parts.len(),
        |i: int|
            BlendSource {
                clip: parts[i].clip@,
                easing: parts[i].easing,
                raw: raw_blend(object_id, parts[i], hand, cs, sessions, manual),
            },
    )
}

/// The last source for a clip.
pub open spec fn last_source(sources: Seq<BlendSource>, clip: Seq<char>) -> Option<int>
    decreases sources.len(),
{
    if sources.len() == 0 {
        None
    } else if sources.last().clip == clip {
        Some(sources.len() - 1)
    } else {
        last_source(sources.drop_last(), clip)
    }
}

/// Whether a table holds, for every clip, its last blend with the curve applied.
pub open spec fn eased_from<F: Fn(u32, Scalar) -> Scalar>(
    sources: Seq<BlendSource>,
    ease: F,
    blends: Table<Scalar>,
) -> bool {
    &&& blends.distinct()
    &&& forall|k: Seq<char>|
        match last_source(sources, k) {
            Some(i) => (#[trigger] blends.lookup(k)) matches Some(v) && call_ensures(
                ease,
                (sources[i].easing, sources[i].raw),
                v,
            ),
            None => blends.lookup(k) is None,
        }
}

fn clip_pull(s: &Option<PullSession>, object_id: &String, clip: &String) -> (r: Option<Scalar>)
    ensures
        match r {
            Some(b) => pulls_clip(*s, object_id@, clip@) && b == s->0.blend,
            None => !pulls_clip(*s, object_id@, clip@),
        },
{
    match s {
        Some(p) => if p.object_id == *object_id && p.clip == *clip {
            Some(p.blend)
        } else {
            None
        },
        None => None,
    }
}

/// The blend that each of an object's clips sits at this frame.
///
/// The pose that the player sees and the blend that a trigger fires on both come
/// from here, so they cannot disagree.
pub fn blends_for_object<F: Fn(u32, Scalar) -> Scalar>(
    object_id: &String,
    parts: &Vec<PartAnimationDef>,
    hand: Hand,
    cs: &ControllerState,
    pull_sessions: &PerHand<Option<PullSession>>,
    manual: Option<&Table<Scalar>>,
    ease: &F,
) -> (r: Table<Scalar>)
    requires
        forall|e: u32, raw: Scalar| #[trigger] call_requires(*ease, (e, raw)),
    ensures
        eased_from(
            blend_sources(
                object_id@,
                parts@,
                hand,
                *cs,
                *pull_sessions,
                match manual {
                    Some(m) => Some(*m),
                    None => None,
                },
            ),
            *ease,
            r,
        ),
        r.entries@.len() == 0 <==> parts@.len() == 0,
{
    let ghost set = match manual {
        Some(m) => Some(*m),
        None => None,
    };
    let ghost sources = blend_sources(object_id@, parts@, hand, *cs, *pull_sessions, set);
    let mut out: Table<Scalar> = Table::new();
    let mut i: usize = 0;
    while i < parts.len()
        invariant
            i <= parts@.len(),
            sources == blend_sources(object_id@, parts@, hand, *cs, *pull_sessions, set),
            set == (match manual {
                Some(m) => Some(*m),
                None => None,
            }),
            forall|e: u32, raw: Scalar| #[trigger] call_requires(*ease, (e, raw)),
            eased_from(sources.take(i as int), *ease, out),
            out.entries@.len() == 0 <==> i == 0,
        decreases parts@.len() - i,
    {
        let pa = &parts[i];
        let raw: Scalar = match pa.driver {
            PartDriver::HandPull => match clip_pull(&pull_sessions.left, object_id, &pa.clip) {
                Some(b) => b,
                None => match clip_pull(&pull_sessions.right, object_id, &pa.clip) {
                    Some(b) => b,
                    None => Scalar::zero(),
                },
            },
            PartDriver::Manual => match manual {
                Some(m) => match m.get(&pa.clip) {
                    Some(b) => *b,
                    None => Scalar::zero(),
                },
                None => Scalar::zero(),
            },
            _ => part_animation_blend(pa.driver, hand, cs),
        };
        let eased: Scalar = ease(pa.easing, raw);
        let ghost before = out;
        out.insert(pa.clip.clone(), eased);
        proof {
            let s = sources.take(i + 1);
            assert(s.drop_last() =~= sources.take(i as int));
            assert(s.last() == sources[i as int]);
            assert forall|k: Seq<char>|
                match last_source(s, k) {
                    Some(j) => (#[trigger] out.lookup(k)) matches Some(v) && call_ensures(
                        *ease,
                        (s[j].easing, s[j].raw),
                        v,
                    ),
                    None => out.lookup(k) is None,
                } by {
                last_source_in_range(sources.take(i as int), k);
                let _ = before.lookup(k);
            }
        }
        i = i + 1;
    }
    proof {
        assert(sources.take(i as int) =~= sources);
    }
    out
}

proof fn last_source_in_range(sources: Seq<BlendSource>, clip: Seq<char>)
    ensures
        last_source(sources, clip) matches Some(i) ==> 0 <= i < sources.len(),
    decreases sources.len(),
{
    if sources.len() > 0 {
        last_source_in_range(sources.drop_last(), clip);
    }
}

/// Which buttons were down in the frame before.
#[derive(Clone, Copy, Debug, PartialEq, Eq, Structural)]
pub struct PrevInput {
    pub r_trigger: bool,
    pub l_trigger: bool,
    pub r_squeeze: bool,
    pub l_squeeze: bool,
    pub btn_a: bool,
    pub btn_b: bool,
    pub btn_x: bool,
    pub btn_y: bool,
}

impl PrevInput {
    /// Whether a hand was closed in the frame before.
    pub open spec fn closed(self, hand: Hand) -> bool {
        match hand {
            Hand::Left => self.l_trigger || self.l_squeeze,
            Hand::Right => self.r_trigger || self.r_squeeze,
        }
    }

    /// Whether a hand was closed in the frame before.
    pub fn was_closed(&self, hand: Hand) -> (r: bool)
        ensures
            r == self.closed(hand),
    {
        match hand {
            Hand::Left => self.l_trigger || self.l_squeeze,
            Hand::Right => self.r_trigger || self.r_squeeze,
        }
    }

    /// Which buttons are down now.
    pub open spec fn now(cs: ControllerState) -> PrevInput {
        PrevInput {
            r_trigger: is_pressed(cs.r_trigger),
            l_trigger: is_pressed(cs.l_trigger),
            r_squeeze: is_pressed(cs.r_squeeze),
            l_squeeze: is_pressed(cs.l_squeeze),
            btn_a: cs.btn_a,
            btn_b: cs.btn_b,
            btn_x: cs.btn_x,
            btn_y: cs.btn_y,
        }
    }

    /// Which buttons are down now.
    pub fn of_frame(cs: &ControllerState) -> (r: PrevInput)
        ensures
            r == PrevInput::now(*cs),
    {
        PrevInput {
            r_trigger: pressed(cs.r_trigger),
            l_trigger: pressed(cs.l_trigger),
            r_squeeze: pressed(cs.r_squeeze),
            l_squeeze: pressed(cs.l_squeeze),
            btn_a: cs.btn_a,
            btn_b: cs.btn_b,
            btn_x: cs.btn_x,
            btn_y: cs.btn_y,
        }
    }
}

/// Whether a hand closes in this frame.
pub open spec fn closes(cs: ControllerState, prev: PrevInput, hand: Hand) -> bool {
    PrevInput::now(cs).closed(hand) && !prev.closed(hand)
}

/// Whether a hand opens in this frame.
pub open spec fn opens(cs: ControllerState, prev: PrevInput, hand: Hand) -> bool {
    !PrevInput::now(cs).closed(hand) && prev.closed(hand)
}

/// The pull that a hand starts in this frame.
pub open spec fn started(
    cs: ControllerState,
    prev: PrevInput,
    world: Option<WireWorld>,
    scene: StaticScene,
    reach: HandReach,
    hand: Hand,
) -> Option<(Pull, int)> {
    match held_in(world, hand.opposite()) {
        Some(h) => if closes(cs, prev, hand) {
            pull_start(h.object_id@, reach.local, scene, reach.pulls)
        } else {
            None
        },
        None => None,
    }
}

/// What a hand takes in this frame, and by which grip point: the nearest grip
/// point, or else the nearest object that has none.
pub open spec fn taken(
    cs: ControllerState,
    prev: PrevInput,
    world: Option<WireWorld>,
    scene: StaticScene,
    live: LiveObjects,
    reach: HandReach,
    hand: Hand,
) -> Option<(Seq<char>, Seq<char>)> {
    if closes(cs, prev, hand) && started(cs, prev, world, scene, reach, hand) is None {
        match nearest_grip(live, scene, reach.grips@, is_pressed(cs.trigger(hand)), hand) {
            Some(g) => Some(g),
            None => match nearest_grabbable(live, scene, reach.objects@) {
                Some(id) => Some((id, Seq::empty())),
                None => None,
            },
        }
    } else {
        None
    }
}

/// What a hand lets go in this frame: what is nearest to it when it opens,
/// unless it was pulling a part.
pub open spec fn let_go(
    cs: ControllerState,
    prev: PrevInput,
    live: LiveObjects,
    reach: HandReach,
    session: Option<PullSession>,
    hand: Hand,
) -> Option<Seq<char>> {
    if opens(cs, prev, hand) && session is None {
        nearest_object(live, reach.objects@)
    } else {
        None
    }
}

/// The hand that the server says holds an object. Where both do, the left.
pub open spec fn holder(world: Option<WireWorld>, id: Seq<char>) -> Option<Hand> {
    if held_in(world, Hand::Left) matches Some(h) && h.object_id@ == id {
        Some(Hand::Left)
    } else if held_in(world, Hand::Right) matches Some(h) && h.object_id@ == id {
        Some(Hand::Right)
    } else {
        None
    }
}

/// Whether the server says that one of the hands holds an object.
pub open spec fn held_by_either(world: Option<WireWorld>, id: Seq<char>) -> bool {
    ||| held_in(world, Hand::Left) matches Some(h) && h.object_id@ == id
    ||| held_in(world, Hand::Right) matches Some(h) && h.object_id@ == id
}

/// A hand's pull after this frame: it lasts while the hand stays closed and the
/// object is held. How far it is pulled is measured in the object as its holder
/// holds it.
pub open spec fn session_after(
    cs: ControllerState,
    prev: PrevInput,
    world: Option<WireWorld>,
    scene: StaticScene,
    reach: HandReach,
    session: Option<PullSession>,
    hand: Hand,
) -> Option<Pull> {
    let running = match started(cs, prev, world, scene, reach, hand) {
        Some(s) => Some((s.0, reach.pulls->0@[s.1]->0.pulled)),
        None => match session {
            Some(s) => Some((s@, reach.pulled)),
            None => None,
        },
    };
    match running {
        Some(r) => match holder(world, r.0.object_id) {
            Some(by) => if PrevInput::now(cs).closed(hand) {
                Some(Pull { blend: r.1.of(by).in_unit(), ..r.0 })
            } else {
                None
            },
            None => None,
        },
        None => None,
    }
}

/// What a hand has grabbed and not let go, after this frame.
pub open spec fn grabbed_after(
    cs: ControllerState,
    prev: PrevInput,
    world: Option<WireWorld>,
    scene: StaticScene,
    live: LiveObjects,
    reach: HandReach,
    grabbed: Option<String>,
    hand: Hand,
) -> Option<Seq<char>> {
    match taken(cs, prev, world, scene, live, reach, hand) {
        Some(t) => Some(t.0),
        None => if opens(cs, prev, hand) {
            None
        } else {
            text_of(grabbed)
        },
    }
}

/// Whether what was measured around a hand fits the scene and the objects.
pub open spec fn reach_fits(
    world: Option<WireWorld>,
    scene: StaticScene,
    live: LiveObjects,
    reach: HandReach,
    hand: Hand,
) -> bool {
    &&& reach.objects@.len() == live.by_id.entries@.len()
    &&& one_distance_each(scene.grip_points.entries@, reach.grips@)
    &&& held_in(world, hand.opposite()) matches Some(h) ==> one_reach_each(
        h.object_id@,
        scene,
        reach.pulls,
    )
}

struct HandStep {
    started: Option<(PullSession, Along)>,
    taken: Option<(String, String)>,
    let_go: Option<String>,
}

fn hand_step(
    cs: &ControllerState,
    prev: &PrevInput,
    world: &Option<WireWorld>,
    static_scene: &StaticScene,
    live: &LiveObjects,
    reach: &HandReach,
    pulling: bool,
    hand: Hand,
) -> (r: HandStep)
    requires
        reach_fits(*world, *static_scene, *live, *reach, hand),
    ensures
        match r.started {
            Some(s) => started(*cs, *prev, *world, *static_scene, *reach, hand) matches Some(p)
                && s.0@ == p.0 && s.1 == reach.pulls->0@[p.1]->0.pulled,
            None => started(*cs, *prev, *world, *static_scene, *reach, hand) is None,
        },
        match r.taken {
            Some(t) => taken(*cs, *prev, *world, *static_scene, *live, *reach, hand) == Some(
                (t.0@, t.1@),
            ),
            None => taken(*cs, *prev, *world, *static_scene, *live, *reach, hand) is None,
        },
        text_of(r.let_go) == if opens(*cs, *prev, hand) && !pulling {
            nearest_object(*live, reach.objects@)
        } else {
            None
        },
{
    let now = PrevInput::of_frame(cs);
    let down = now.was_closed(hand);
    let was = prev.was_closed(hand);
    let mut started: Option<(PullSession, Along)> = None;
    let mut taken: Option<(String, String)> = None;
    let mut let_go: Option<String> = None;
    if down && !was {
        if let Some(h) = held(world, hand.other()) {
            started = try_start_pull(&h.object_id, reach.local, static_scene, &reach.pulls);
        }
        if started.is_none() {
            let trigger_only = pressed(cs.trigger_of(hand));
            taken = nearest_grip_point_to(
                live,
                static_scene,
                reach.grips.as_slice(),
                trigger_only,
                hand,
            );
            if taken.is_none() {
                if let Some(id) = nearest_grabbable_object_to(
                    live,
                    static_scene,
                    reach.objects.as_slice(),
                ) {
                    taken = Some((id, String::new()));
                }
            }
        }
    }
    if !down && was && !pulling {
        let_go = nearest_object_to(live, reach.objects.as_slice());
    }
    HandStep { started, taken, let_go }
}

/// The hand that the server says holds an object. Where both do, the left.
pub fn holder_of(world: &Option<WireWorld>, id: &String) -> (r: Option<Hand>)
    ensures
        r == holder(*world, id@),
{
    if let Some(h) = held(world, Hand::Left) {
        if h.object_id == *id {
            return Some(Hand::Left);
        }
    }
    if let Some(h) = held(world, Hand::Right) {
        if h.object_id == *id {
            return Some(Hand::Right);
        }
    }
    None
}

fn advance(
    started: Option<(PullSession, Along)>,
    session: Option<PullSession>,
    pulled: Along,
    world: &Option<WireWorld>,
    down: bool,
) -> (r: Option<PullSession>)
    ensures
        pull_of(r) == ({
            let running = match started {
                Some(s) => Some((s.0@, s.1)),
                None => match session {
                    Some(s) => Some((s@, pulled)),
                    None => None,
                },
            };
            match running {
                Some(s) => match holder(*world, s.0.object_id) {
                    Some(by) => if down {
                        Some(Pull { blend: s.1.of(by).in_unit(), ..s.0 })
                    } else {
                        None
                    },
                    None => None,
                },
                None => None,
            }
        }),
{
    let (mut s, at) = match started {
        Some(p) => p,
        None => match session {
            Some(p) => (p, pulled),
            None => {
                return None;
            },
        },
    };
    match holder_of(world, &s.object_id) {
        Some(by) => if down {
            s.blend = at.get(by).clamp_unit();
            Some(s)
        } else {
            None
        },
        None => None,
    }
}

/// A button edge, its texts as characters.
pub struct Press {
    pub button: Seq<char>,
    pub object_id: Option<Seq<char>>,
    pub hand: Option<Hand>,
}

impl View for ButtonPress {
    type V = Press;

    open spec fn view(&self) -> Press {
        Press { button: self.button@, object_id: text_of(self.object_id), hand: self.hand }
    }
}

impl ButtonPress {
    /// An edge of a hand's button.
    pub fn new(button: &str, object_id: Option<String>, hand: Hand) -> (r: ButtonPress)
        ensures
            r@ == (Press { button: button@, object_id: text_of(object_id), hand: Some(hand) }),
    {
        ButtonPress { button: String::from_str(button), object_id, hand: Some(hand) }
    }
}

/// The texts and hands of a list of button edges.
pub open spec fn presses(s: Seq<ButtonPress>) -> Seq<Press> {
    s.map_values(|b: ButtonPress| b@)
}

/// A button that may have an edge: its name, whether it is down now, whether it
/// was down before, and whose it is.
pub struct Button {
    pub name: Seq<char>,
    pub down: bool,
    pub was: bool,
    pub hand: Hand,
}

/// Every button of the two controllers, in the order in which edges are reported.
pub open spec fn buttons(cs: ControllerState, prev: PrevInput) -> Seq<Button> {
    seq![
        Button { name: "btn_a"@, down: cs.btn_a, was: prev.btn_a, hand: Hand::Right },
        Button { name: "btn_b"@, down: cs.btn_b, was: prev.btn_b, hand: Hand::Right },
        Button { name: "btn_x"@, down: cs.btn_x, was: prev.btn_x, hand: Hand::Left },
        Button { name: "btn_y"@, down: cs.btn_y, was: prev.btn_y, hand: Hand::Left },
        Button {
            name: "trigger"@,
            down: is_pressed(cs.r_trigger),
            was: prev.r_trigger,
            hand: Hand::Right,
        },
        Button {
            name: "trigger"@,
            down: is_pressed(cs.l_trigger),
            was: prev.l_trigger,
            hand: Hand::Left,
        },
        Button {
            name: "grip"@,
            down: is_pressed(cs.r_squeeze),
            was: prev.r_squeeze,
            hand: Hand::Right,
        },
        Button {
            name: "grip"@,
            down: is_pressed(cs.l_squeeze),
            was: prev.l_squeeze,
            hand: Hand::Left,
        },
    ]
}

/// The down edges among buttons, each with what its hand holds.
pub open spec fn down_edges(
    buttons: Seq<Button>,
    left: Option<Seq<char>>,
    right: Option<Seq<char>>,
) -> Seq<Press>
    decreases buttons.len(),
{
    if buttons.len() == 0 {
        Seq::empty()
    } else {
        let before = down_edges(buttons.drop_last(), left, right);
        let b = buttons.last();
        if b.down && !b.was {
            before.push(edge_of(b, left, right))
        } else {
            before
        }
    }
}

/// The up edges among buttons, each with what its hand holds.
pub open spec fn up_edges(
    buttons: Seq<Button>,
    left: Option<Seq<char>>,
    right: Option<Seq<char>>,
) -> Seq<Press>
    decreases buttons.len(),
{
    if buttons.len() == 0 {
        Seq::empty()
    } else {
        let before = up_edges(buttons.drop_last(), left, right);
        let b = buttons.last();
        if !b.down && b.was {
            before.push(edge_of(b, left, right))
        } else {
            before
        }
    }
}

/// What is reported of a button's edge.
pub open spec fn edge_of(
    b: Button,
    left: Option<Seq<char>>,
    right: Option<Seq<char>>,
) -> Press {
    Press {
        button: b.name,
        object_id: match b.hand {
            Hand::Left => left,
            Hand::Right => right,
        },
        hand: Some(b.hand),
    }
}

struct Edges {
    down: Vec<ButtonPress>,
    up: Vec<ButtonPress>,
}

impl Edges {
    /// Whether the edges of the first so many buttons, and no others, are noted.
    #[verifier::opaque]
    spec fn noted(
        self,
        all: Seq<Button>,
        n: int,
        left: Option<Seq<char>>,
        right: Option<Seq<char>>,
    ) -> bool {
        &&& presses(self.down@) == down_edges(all.take(n), left, right)
        &&& presses(self.up@) == up_edges(all.take(n), left, right)
    }

    fn note(
        &mut self,
        name: &str,
        down: bool,
        was: bool,
        hand: Hand,
        left: &Option<String>,
        right: &Option<String>,
        Ghost(all): Ghost<Seq<Button>>,
        Ghost(n): Ghost<int>,
    )
        requires
            0 <= n < all.len(),
            all[n] == (Button { name: name@, down, was, hand }),
            old(self).noted(all, n, text_of(*left), text_of(*right)),
        ensures
            final(self).noted(all, n + 1, text_of(*left), text_of(*right)),
    {
        let object_id = match hand {
            Hand::Left => copy_text(left),
            Hand::Right => copy_text(right),
        };
        let ghost e = edge_of(all[n], text_of(*left), text_of(*right));
        proof {
            reveal(Edges::noted);
            assert(all.take(n + 1).drop_last() =~= all.take(n));
        }
        if down && !was {
            self.down.push(ButtonPress::new(name, object_id, hand));
            assert(presses(self.down@) =~= presses(old(self).down@).push(e));
        } else if !down && was {
            self.up.push(ButtonPress::new(name, object_id, hand));
            assert(presses(self.up@) =~= presses(old(self).up@).push(e));
        }
    }
}

fn button_edges(
    cs: &ControllerState,
    prev: &PrevInput,
    left: &Option<String>,
    right: &Option<String>,
) -> (r: Edges)
    ensures
        presses(r.down@) == down_edges(buttons(*cs, *prev), text_of(*left), text_of(*right)),
        presses(r.up@) == up_edges(buttons(*cs, *prev), text_of(*left), text_of(*right)),
{
    let ghost all = buttons(*cs, *prev);
    let mut e = Edges { down: Vec::new(), up: Vec::new() };
    assert(e.noted(all, 0, text_of(*left), text_of(*right))) by {
        reveal(Edges::noted);
        assert(presses(e.down@) =~= Seq::empty());
        assert(presses(e.up@) =~= Seq::empty());
        assert(all.take(0) =~= Seq::empty());
    }
    e.note("btn_a", cs.btn_a, prev.btn_a, Hand::Right, left, right, Ghost(all), Ghost(0));
    e.note("btn_b", cs.btn_b, prev.btn_b, Hand::Right, left, right, Ghost(all), Ghost(1));
    e.note("btn_x", cs.btn_x, prev.btn_x, Hand::Left, left, right, Ghost(all), Ghost(2));
    e.note("btn_y", cs.btn_y, prev.btn_y, Hand::Left, left, right, Ghost(all), Ghost(3));
    let rt = pressed(cs.r_trigger);
    e.note("trigger", rt, prev.r_trigger, Hand::Right, left, right, Ghost(all), Ghost(4));
    let lt = pressed(cs.l_trigger);
    e.note("trigger", lt, prev.l_trigger, Hand::Left, left, right, Ghost(all), Ghost(5));
    let rg = pressed(cs.r_squeeze);
    e.note("grip", rg, prev.r_squeeze, Hand::Right, left, right, Ghost(all), Ghost(6));
    let lg = pressed(cs.l_squeeze);
    e.note("grip", lg, prev.l_squeeze, Hand::Left, left, right, Ghost(all), Ghost(7));
    proof {
        reveal(Edges::noted);
        assert(all.take(8) =~= all);
    }
    e
}

/// The object in a hand whose clips are reported, with its parts.
pub open spec fn reported(
    world: Option<WireWorld>,
    scene: StaticScene,
    hand: Hand,
) -> Option<(Seq<char>, Seq<PartAnimationDef>)> {
    match held_in(world, hand) {
        Some(h) => match scene.part_animations.lookup(h.object_id@) {
            Some(parts) => if parts@.len() > 0 {
                Some((h.object_id@, parts@))
            } else {
                None
            },
            None => None,
        },
        None => None,
    }
}

/// What scripts set an object's clips to.
pub open spec fn manual_of(meshes: Seq<WireRenderMesh>, id: Seq<char>) -> Option<Table<Scalar>> {
    match mesh_position(meshes, id) {
        Some(i) => Some(meshes[i].manual_part_blends),
        None => None,
    }
}

/// Whether a hand reports the clips of an object.
pub open spec fn reports(
    world: Option<WireWorld>,
    scene: StaticScene,
    hand: Hand,
    id: Seq<char>,
) -> bool {
    reported(world, scene, hand) matches Some(r) && r.0 == id
}

/// Whether a table of blends is what one hand reports of the object it holds.
pub open spec fn reported_blends<F: Fn(u32, Scalar) -> Scalar>(
    cs: ControllerState,
    world: Option<WireWorld>,
    meshes: Seq<WireRenderMesh>,
    scene: StaticScene,
    sessions: PerHand<Option<PullSession>>,
    ease: F,
    hand: Hand,
    blends: Table<Scalar>,
) -> bool {
    let r = reported(world, scene, hand)->0;
    eased_from(
        blend_sources(r.0, r.1, hand, cs, sessions, manual_of(meshes, r.0)),
        ease,
        blends,
    )
}

fn report_blends<F: Fn(u32, Scalar) -> Scalar>(
    cs: &ControllerState,
    world: &Option<WireWorld>,
    meshes_src: &[WireRenderMesh],
    static_scene: &StaticScene,
    pull_sessions: &PerHand<Option<PullSession>>,
    ease: &F,
    hand: Hand,
    out: &mut Table<Table<Scalar>>,
)
    requires
        forall|e: u32, raw: Scalar| #[trigger] call_requires(*ease, (e, raw)),
        old(out).distinct(),
    ensures
        final(out).distinct(),
        forall|k: Seq<char>|
            if reports(*world, *static_scene, hand, k) {
                (#[trigger] final(out).lookup(k)) matches Some(t) && reported_blends(
                    *cs,
                    *world,
                    meshes_src@,
                    *static_scene,
                    *pull_sessions,
                    *ease,
                    hand,
                    t,
                )
            } else {
                final(out).lookup(k) == old(out).lookup(k)
            },
{
    if let Some(h) = held(world, hand) {
        if let Some(parts) = static_scene.part_animations.get(&h.object_id) {
            let manual = match find_mesh(meshes_src, &h.object_id) {
                Some(i) => Some(&meshes_src[i].manual_part_blends),
                None => None,
            };
            let blends = blends_for_object(
                &h.object_id,
                parts,
                hand,
                cs,
                pull_sessions,
                manual,
                ease,
            );
            if !blends.is_empty() {
                out.insert(h.object_id.clone(), blends);
            }
        }
    }
}

/// The texts of a list of grabs.
pub open spec fn grabs(s: Seq<(String, Hand, String)>) -> Seq<(Seq<char>, Hand, Seq<char>)> {
    s.map_values(|g: (String, Hand, String)| (g.0@, g.1, g.2@))
}

/// The texts of a list of releases.
pub open spec fn releases(s: Seq<(String, Hand)>) -> Seq<(Seq<char>, Hand)> {
    s.map_values(|g: (String, Hand)| (g.0@, g.1))
}

/// A grab by a hand as a list, empty where there was none.
pub open spec fn grab_list(
    t: Option<(Seq<char>, Seq<char>)>,
    hand: Hand,
) -> Seq<(Seq<char>, Hand, Seq<char>)> {
    match t {
        Some(g) => seq![(g.0, hand, g.1)],
        None => Seq::empty(),
    }
}

/// A release by a hand as a list, empty where there was none.
pub open spec fn release_list(t: Option<Seq<char>>, hand: Hand) -> Seq<(Seq<char>, Hand)> {
    match t {
        Some(id) => seq![(id, hand)],
        None => Seq::empty(),
    }
}

/// The continuous values of the controllers.
pub open spec fn axes_of(cs: ControllerState) -> InputAxes {
    InputAxes {
        l_trigger: cs.l_trigger,
        r_trigger: cs.r_trigger,
        l_grip: cs.l_squeeze,
        r_grip: cs.r_squeeze,
        l_stick: cs.l_stick,
        r_stick: cs.r_stick,
    }
}

/// Whether both hands' pulls go on as they should.
pub open spec fn pulls_go_on(
    after: PerHand<Option<PullSession>>,
    before: PerHand<Option<PullSession>>,
    cs: ControllerState,
    prev: PrevInput,
    world: Option<WireWorld>,
    scene: StaticScene,
    reach: PerHand<HandReach>,
) -> bool {
    forall|hand: Hand| #[trigger]
        pull_of(after.of(hand)) == session_after(
            cs,
            prev,
            world,
            scene,
            reach.of(hand),
            before.of(hand),
            hand,
        )
}

/// Whether what both hands have grabbed and not let go is as it should be.
pub open spec fn grabs_go_on(
    after: PerHand<Option<String>>,
    before: PerHand<Option<String>>,
    cs: ControllerState,
    prev: PrevInput,
    world: Option<WireWorld>,
    scene: StaticScene,
    live: LiveObjects,
    reach: PerHand<HandReach>,
) -> bool {
    forall|hand: Hand| #[trigger]
        text_of(after.of(hand)) == grabbed_after(
            cs,
            prev,
            world,
            scene,
            live,
            reach.of(hand),
            before.of(hand),
            hand,
        )
}

/// What both hands hold, for the button edges of a frame.
pub open spec fn in_hand(
    world: Option<WireWorld>,
    grabbed: PerHand<Option<String>>,
    live: LiveObjects,
    reach: PerHand<HandReach>,
    hand: Hand,
) -> Option<Seq<char>> {
    holding(held_in(world, hand), text_of(grabbed.of(hand)), live, reach.of(hand).objects@)
}

/// Whether a frame's input is what the player did: the grabs and releases of the
/// right hand and then of the left, the edges of every button, the values of the
/// controllers, and the blends of what is held. `before` and `after` are the
/// pulls around the frame, and `grabbed` what the hands hold on to after it.
pub open spec fn is_what_was_done<F: Fn(u32, Scalar) -> Scalar>(
    input: InputFrame,
    cs: ControllerState,
    prev: PrevInput,
    world: Option<WireWorld>,
    meshes: Seq<WireRenderMesh>,
    scene: StaticScene,
    live: LiveObjects,
    reach: PerHand<HandReach>,
    ease: F,
    before: PerHand<Option<PullSession>>,
    after: PerHand<Option<PullSession>>,
    grabbed: PerHand<Option<String>>,
) -> bool {
    let left = in_hand(world, grabbed, live, reach, Hand::Left);
    let right = in_hand(world, grabbed, live, reach, Hand::Right);
    &&& input.pointed@.len() == 0
    &&& grabs(input.grabbed@) == grab_list(
        taken(cs, prev, world, scene, live, reach.right, Hand::Right),
        Hand::Right,
    ) + grab_list(taken(cs, prev, world, scene, live, reach.left, Hand::Left), Hand::Left)
    &&& releases(input.released@) == release_list(
        let_go(cs, prev, live, reach.right, before.right, Hand::Right),
        Hand::Right,
    ) + release_list(let_go(cs, prev, live, reach.left, before.left, Hand::Left), Hand::Left)
    &&& presses(input.button_presses@) == down_edges(buttons(cs, prev), left, right)
    &&& presses(input.button_releases@) == up_edges(buttons(cs, prev), left, right)
    &&& input.axes == axes_of(cs)
    &&& input.part_blends.distinct()
    &&& forall|k: Seq<char>|
        match (#[trigger] input.part_blends.lookup(k)) {
            Some(t) => if reports(world, scene, Hand::Right, k) {
                reported_blends(cs, world, meshes, scene, after, ease, Hand::Right, t)
            } else {
                reports(world, scene, Hand::Left, k) && reported_blends(
                    cs,
                    world,
                    meshes,
                    scene,
                    after,
                    ease,
                    Hand::Left,
                    t,
                )
            },
            None => !reports(world, scene, Hand::Left, k) && !reports(
                world,
                scene,
                Hand::Right,
                k,
            ),
        }
}

/// Works out what the player did in one frame: grabs and releases, the edges of
/// every button, the pulls that go on and the blends of what is held.
///
/// A hand that closes starts to pull a part of what the other hand holds, or
/// else takes the nearest grip point, or else the nearest object without grip
/// points. A hand that opens lets go.
pub fn handle_input<F: Fn(u32, Scalar) -> Scalar>(
    cs: &ControllerState,
    world: &Option<WireWorld>,
    meshes_src: &[WireRenderMesh],
    static_scene: &StaticScene,
    live_objects: &LiveObjects,
    reach: &PerHand<HandReach>,
    ease: &F,
    pull_sessions: &mut PerHand<Option<PullSession>>,
    grabbed_ids: &mut PerHand<Option<String>>,
    prev: &mut PrevInput,
) -> (input: InputFrame)
    requires
        reach_fits(*world, *static_scene, *live_objects, reach.left, Hand::Left),
        reach_fits(*world, *static_scene, *live_objects, reach.right, Hand::Right),
        forall|e: u32, raw: Scalar| #[trigger] call_requires(*ease, (e, raw)),
    ensures
        *final(prev) == PrevInput::now(*cs),
        pulls_go_on(
            *final(pull_sessions),
            *old(pull_sessions),
            *cs,
            *old(prev),
            *world,
            *static_scene,
            *reach,
        ),
        grabs_go_on(
            *final(grabbed_ids),
            *old(grabbed_ids),
            *cs,
            *old(prev),
            *world,
            *static_scene,
            *live_objects,
            *reach,
        ),
        is_what_was_done(
            input,
            *cs,
            *old(prev),
            *world,
            meshes_src@,
            *static_scene,
            *live_objects,
            *reach,
            *ease,
            *old(pull_sessions),
            *final(pull_sessions),
            *final(grabbed_ids),
        ),
{
    let now = PrevInput::of_frame(cs);
    let r_down = now.was_closed(Hand::Right);
    let l_down = now.was_closed(Hand::Left);
    let mut grabbed: Vec<(String, Hand, String)> = Vec::new();
    let mut released: Vec<(String, Hand)> = Vec::new();

    let r_step = hand_step(
        cs,
        prev,
        world,
        static_scene,
        live_objects,
        &reach.right,
        pull_sessions.right.is_some(),
        Hand::Right,
    );
    let l_step = hand_step(
        cs,
        prev,
        world,
        static_scene,
        live_objects,
        &reach.left,
        pull_sessions.left.is_some(),
        Hand::Left,
    );

    let r_opens = !r_down && prev.was_closed(Hand::Right);
    let l_opens = !l_down && prev.was_closed(Hand::Left);
    if let Some((id, point)) = r_step.taken {
        grabbed_ids.right = Some(id.clone());
        grabbed.push((id, Hand::Right, point));
    } else if r_opens {
        grabbed_ids.right = None;
    }
    if let Some(id) = r_step.let_go {
        released.push((id, Hand::Right));
    }
    assert(grabs(grabbed@) =~= grab_list(
        taken(*cs, *old(prev), *world, *static_scene, *live_objects, reach.right, Hand::Right),
        Hand::Right,
    ));
    assert(releases(released@) =~= release_list(
        let_go(
            *cs,
            *old(prev),
            *live_objects,
            reach.right,
            old(pull_sessions).right,
            Hand::Right,
        ),
        Hand::Right,
    ));
    let ghost r_grabs = grabs(grabbed@);
    let ghost r_releases = releases(released@);
    if let Some((id, point)) = l_step.taken {
        grabbed_ids.left = Some(id.clone());
        grabbed.push((id, Hand::Left, point));
    } else if l_opens {
        grabbed_ids.left = None;
    }
    if let Some(id) = l_step.let_go {
        released.push((id, Hand::Left));
    }
    assert(grabs(grabbed@) =~= r_grabs + grab_list(
        taken(*cs, *old(prev), *world, *static_scene, *live_objects, reach.left, Hand::Left),
        Hand::Left,
    ));
    assert(releases(released@) =~= r_releases + release_list(
        let_go(*cs, *old(prev), *live_objects, reach.left, old(pull_sessions).left, Hand::Left),
        Hand::Left,
    ));

    let l_session = pull_sessions.left.take();
    pull_sessions.left = advance(l_step.started, l_session, reach.left.pulled, world, l_down);
    let r_session = pull_sessions.right.take();
    pull_sessions.right = advance(r_step.started, r_session, reach.right.pulled, world, r_down);

    let held_r = held_object_id(
        held(world, Hand::Right),
        &grabbed_ids.right,
        live_objects,
        reach.right.objects.as_slice(),
    );
    let held_l = held_object_id(
        held(world, Hand::Left),
        &grabbed_ids.left,
        live_objects,
        reach.left.objects.as_slice(),
    );
    let edges = button_edges(cs, prev, &held_l, &held_r);

    let mut part_blends: Table<Table<Scalar>> = Table::new();
    report_blends(
        cs,
        world,
        meshes_src,
        static_scene,
        pull_sessions,
        ease,
        Hand::Left,
        &mut part_blends,
    );
    report_blends(
        cs,
        world,
        meshes_src,
        static_scene,
        pull_sessions,
        ease,
        Hand::Right,
        &mut part_blends,
    );

    *prev = now;

    InputFrame {
        pointed: Vec::new(),
        grabbed,
        released,
        button_presses: edges.down,
        button_releases: edges.up,
        axes: InputAxes {
            l_trigger: cs.l_trigger,
            r_trigger: cs.r_trigger,
            l_grip: cs.l_squeeze,
            r_grip: cs.r_squeeze,
            l_stick: cs.l_stick,
            r_stick: cs.r_stick,
        },
        part_blends,
    }
}

/// A frame in which nothing changed reports no edge, takes nothing, lets nothing
/// go and starts no pull.
pub proof fn a_still_frame_reports_nothing(
    cs: ControllerState,
    world: Option<WireWorld>,
    scene: StaticScene,
    live: LiveObjects,
    reach: HandReach,
    session: Option<PullSession>,
    hand: Hand,
    left: Option<Seq<char>>,
    right: Option<Seq<char>>,
)
    ensures
        ({
            let prev = PrevInput::now(cs);
            &&& down_edges(buttons(cs, prev), left, right).len() == 0
            &&& up_edges(buttons(cs, prev), left, right).len() == 0
            &&& taken(cs, prev, world, scene, live, reach, hand) is None
            &&& let_go(cs, prev, live, reach, session, hand) is None
            &&& started(cs, prev, world, scene, reach, hand) is None
        }),
{
    no_edges(buttons(cs, PrevInput::now(cs)), left, right);
}

proof fn no_edges(all: Seq<Button>, left: Option<Seq<char>>, right: Option<Seq<char>>)
    requires
        forall|i: int| 0 <= i < all.len() ==> (#[trigger] all[i]).down == all[i].was,
    ensures
        down_edges(all, left, right).len() == 0,
        up_edges(all, left, right).len() == 0,
    decreases all.len(),
{
    if all.len() > 0 {
        let front = all.drop_last();
        assert forall|i: int| 0 <= i < front.len() implies (#[trigger] front[i]).down
            == front[i].was by {
            assert(front[i] == all[i]);
        }
        no_edges(front, left, right);
        assert(all.last() == all[all.len() - 1]);
    }
}

/// What one frame sees down is what the next frame saw down before, so the edges
/// of a button alternate: no button goes down twice without going up.
pub proof fn edges_alternate(cs: ControllerState, prev: PrevInput, next: ControllerState, k: int)
    requires
        0 <= k < buttons(cs, prev).len(),
    ensures
        ({
            let b = buttons(cs, prev)[k];
            let later = buttons(next, PrevInput::now(cs))[k];
            &&& later.was == b.down
            &&& later.name == b.name
            &&& later.hand == b.hand
            &&& (b.down && !b.was) ==> !(later.down && !later.was)
            &&& (!b.down && b.was) ==> !(!later.down && later.was)
        }),
{
}

/// A hand that takes something does not let anything go in the same frame, and
/// does not start to pull.
pub proof fn a_hand_does_one_thing(
    cs: ControllerState,
    prev: PrevInput,
    world: Option<WireWorld>,
    scene: StaticScene,
    live: LiveObjects,
    reach: HandReach,
    session: Option<PullSession>,
    hand: Hand,
)
    requires
        taken(cs, prev, world, scene, live, reach, hand) is Some,
    ensures
        let_go(cs, prev, live, reach, session, hand) is None,
        started(cs, prev, world, scene, reach, hand) is None,
{
}

/// A pull lasts only while the hand stays closed and a hand holds the object, and
/// its blend stays between the ends of its travel.
pub proof fn a_pull_stays_on_its_travel(
    cs: ControllerState,
    prev: PrevInput,
    world: Option<WireWorld>,
    scene: StaticScene,
    reach: HandReach,
    session: Option<PullSession>,
    hand: Hand,
)
    ensures
        session_after(cs, prev, world, scene, reach, session, hand) matches Some(p) ==> {
            &&& PrevInput::now(cs).closed(hand)
            &&& held_by_either(world, p.object_id)
            &&& !p.blend.nan() ==> Scalar::zero().at_most(p.blend) && p.blend.at_most(
                Scalar::one(),
            )
        },
{
}

/// The pose that the player sees and the blend that is reported agree, clip by
/// clip, if a curve gives the same blend the same shape every time.
pub proof fn the_pose_and_the_report_agree<F: Fn(u32, Scalar) -> Scalar>(
    sources: Seq<BlendSource>,
    ease: F,
    seen: Table<Scalar>,
    told: Table<Scalar>,
)
    requires
        eased_from(sources, ease, seen),
        eased_from(sources, ease, told),
        forall|e: u32, raw: Scalar, a: Scalar, b: Scalar| #[trigger]
            call_ensures(ease, (e, raw), a) && #[trigger] call_ensures(ease, (e, raw), b) ==> a
                == b,
    ensures
        forall|clip: Seq<char>| #[trigger] seen.lookup(clip) == told.lookup(clip),
{
    assert forall|clip: Seq<char>| #[trigger] seen.lookup(clip) == told.lookup(clip) by {
        let _ = told.lookup(clip);
    }
}

} // verus!
