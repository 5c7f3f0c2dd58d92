//! Players' bodies in the rendered scene.

use std::collections::{HashMap, HashSet};

use vstd::prelude::*;
use vstd::std_specs::iter::IteratorSpec;

use crate::avatar::RemotePlayerState;
use crate::engine::{Hand, PerHand, Transform};
use crate::protocol::{held, held_in, WireHeldGrip, WireWorld};
use crate::scalar::{Quat, Scalar, Vec3};

verus! {

broadcast use vstd::std_specs::hash::group_hash_axioms;

/// The local player's body, whose hands are always tracked.
pub open spec fn local_body(head: Transform, grips: PerHand<Transform>) -> RemotePlayerState {
    RemotePlayerState { head, left_hand: Some(grips.left), right_hand: Some(grips.right) }
}

/// Whether a list holds the players of a map, each once, in whatever order.
pub open spec fn lists_players(
    list: Seq<(u64, RemotePlayerState)>,
    players: Map<u64, RemotePlayerState>,
) -> bool {
    &&& list.len() == players.len()
    &&& forall|i: int|
        0 <= i < list.len() ==> players.contains_key((#[trigger] list[i]).0) && players[list[i].0]
            == list[i].1
    &&& forall|id: u64| #[trigger]
        players.contains_key(id) ==> list.contains((id, players[id]))
    &&& list.no_duplicates()
}

/// All players' bodies: the local one first, then the others.
pub fn build_bodies(
    local_player: u64,
    head: Transform,
    grips: &PerHand<Transform>,
    remotes: &HashMap<u64, RemotePlayerState>,
) -> (r: Vec<(u64, RemotePlayerState)>)
    ensures
        r@.len() > 0,
        r@[0] == (local_player, local_body(head, *grips)),
        lists_players(r@.skip(1), remotes@),
{
    let mut bodies: Vec<(u64, RemotePlayerState)> = Vec::new();
    bodies.push(
        (
            local_player,
            RemotePlayerState { head, left_hand: Some(grips.left), right_hand: Some(grips.right) },
        ),
    );
    let ghost first = bodies@[0];
    let players = remotes.iter();
    let ghost all = players.remaining();
    for player in it: players
        invariant
            it.seq() == all,
            bodies@.len() == it.index() + 1,
            bodies@[0] == first,
            forall|j: int|
                0 <= j < it.index() ==> #[trigger] bodies@[j + 1] == (*all[j].0, *all[j].1),
    {
        bodies.push((*player.0, *player.1));
    }
    proof {
        let rest = bodies@.skip(1);
        assert forall|j: int| 0 <= j < rest.len() implies #[trigger] rest[j] == (
            *all[j].0,
            *all[j].1,
        ) by {
            assert(rest[j] == bodies@[j + 1]);
        }
        assert forall|i: int| 0 <= i < rest.len() implies remotes@.contains_key(
            (#[trigger] rest[i]).0,
        ) && remotes@[rest[i].0] == rest[i].1 by {
            assert(remotes@.contains_key(*all[i].0));
        }
        assert forall|id: u64| #[trigger] remotes@.contains_key(id) implies rest.contains(
            (id, remotes@[id]),
        ) by {
            let entry = (&id, &remotes@[id]);
            assert(all.contains(entry));
            let j = choose|j: int| 0 <= j < all.len() && all[j] == entry;
            assert(rest[j] == (id, remotes@[id]));
        }
        assert forall|i: int, j: int|
            0 <= i < rest.len() && 0 <= j < rest.len() && i != j implies rest[i] != rest[j] by {
            assert(all[i] != all[j]);
        }
    }
    bodies
}

/// Where a body's hand is drawn.
#[derive(Clone, Copy, Debug, PartialEq, Eq, Structural)]
pub enum HandPlace {
    /// Nowhere: the hand is not tracked.
    Absent,
    /// Where the device sees it.
    AsSeen,
    /// On the handle that it pulls.
    OnHandle,
}

/// How a hand's fingers are bent.
#[derive(Clone, Copy, Debug, PartialEq, Eq, Structural)]
pub enum Fingers {
    /// Round what the hand holds, as the author posed them.
    Authored,
    /// Round what the hand holds, by how hard it squeezes.
    Curled,
    /// Round the handle that the hand pulls.
    OnHandle,
    /// As the empty hand's trigger, squeeze and thumb bend them.
    Free,
}

/// Where a mesh stands, and how large it is.
#[derive(Clone, Copy, Debug, PartialEq, Eq, Structural)]
pub struct Stand {
    pub position: Vec3,
    pub rotation: Quat,
    pub scale: Vec3,
}

/// Where a body's mesh rests: at the origin, unturned, at its own size. Its joints
/// alone carry it to where the player is.
#[verifier::allow_in_spec]
pub fn at_rest() -> Stand
    returns
        (Stand {
            position: Vec3::origin(),
            rotation: Quat::identity(),
            scale: Vec3 { x: Scalar::one(), y: Scalar::one(), z: Scalar::one() },
        }),
{
    Stand {
        position: Vec3::origin(),
        rotation: Quat::identity(),
        scale: Vec3 { x: Scalar::one(), y: Scalar::one(), z: Scalar::one() },
    }
}

/// What is done for one body.
#[derive(Clone, Copy, Debug, PartialEq, Eq)]
pub enum BodyStep {
    /// Nothing: there is no mesh to make the body of yet.
    Wait,
    /// The body's mesh, made now if it was not there, is put where it rests. It
    /// has no skeleton to pose.
    Rest { make: bool, stand: Stand },
    /// The body's mesh, made now if it was not there, is put where it rests and
    /// posed.
    Pose {
        make: bool,
        stand: Stand,
        /// How high the player's head is, by which the body's height is
        /// calibrated.
        head_height: Scalar,
        /// Whether the player's height was not calibrated before.
        first_seen: bool,
        left_hand: HandPlace,
        right_hand: HandPlace,
        left_fingers: Option<Fingers>,
        right_fingers: Option<Fingers>,
        /// For the local player, whether the headless mesh that the player sees
        /// has to be made now. It is posed like the body.
        headless: Option<bool>,
    },
}

/// The bodies' meshes: for each player that has one, whether it has a skeleton;
/// whether the local player's headless mesh is there; and the players whose
/// height was calibrated.
pub struct Roster {
    pub meshes: Map<u64, bool>,
    pub headless: bool,
    pub calibrated: Set<u64>,
}

/// What does not change from one body to the next.
pub struct Surroundings {
    /// Whether the mesh that bodies are made of has a skeleton, once it is
    /// loaded.
    pub master: Option<bool>,
    pub local_player: u64,
    pub left_held: Option<WireHeldGrip>,
    pub right_held: Option<WireHeldGrip>,
    pub left_pulls: bool,
    pub right_pulls: bool,
}

/// Where a hand is drawn. Only the local player's hands are drawn on a handle:
/// the others come posed over the wire.
pub open spec fn placed(hand: Option<Transform>, pulls: bool, local: bool) -> HandPlace {
    match hand {
        None => HandPlace::Absent,
        Some(_) => if pulls && local {
            HandPlace::OnHandle
        } else {
            HandPlace::AsSeen
        },
    }
}

/// How the local player's fingers are bent. What the hand holds comes before
/// what it pulls, and the author's pose before the squeeze.
pub open spec fn bent(held: Option<WireHeldGrip>, pulls: bool) -> Fingers {
    match held {
        Some(h) => if h.has_hand_pose {
            Fingers::Authored
        } else {
            Fingers::Curled
        },
        None => if pulls {
            Fingers::OnHandle
        } else {
            Fingers::Free
        },
    }
}

/// What is done for a body, given whether its mesh has to be made and whether
/// that mesh has a skeleton.
pub open spec fn step_with(
    make: bool,
    skinned: bool,
    r: Roster,
    s: Surroundings,
    body: (u64, RemotePlayerState),
) -> BodyStep {
    let local = body.0 == s.local_player;
    if !skinned {
        BodyStep::Rest { make, stand: at_rest() }
    } else {
        BodyStep::Pose {
            make,
            stand: at_rest(),
            head_height: body.1.head.position.y,
            first_seen: !r.calibrated.contains(body.0),
            left_hand: placed(body.1.left_hand, s.left_pulls, local),
            right_hand: placed(body.1.right_hand, s.right_pulls, local),
            left_fingers: if local {
                Some(bent(s.left_held, s.left_pulls))
            } else {
                None
            },
            right_fingers: if local {
                Some(bent(s.right_held, s.right_pulls))
            } else {
                None
            },
            headless: if local {
                Some(!r.headless)
            } else {
                None
            },
        }
    }
}

/// What is done for a body.
pub open spec fn step_for(r: Roster, s: Surroundings, body: (u64, RemotePlayerState)) -> BodyStep {
    if r.meshes.contains_key(body.0) {
        step_with(false, r.meshes[body.0], r, s, body)
    } else {
        match s.master {
            None => BodyStep::Wait,
            Some(skinned) => step_with(true, skinned, r, s, body),
        }
    }
}

/// The meshes after that.
pub open spec fn roster_after(
    r: Roster,
    s: Surroundings,
    body: (u64, RemotePlayerState),
) -> Roster {
    let meshes = if r.meshes.contains_key(body.0) {
        r.meshes
    } else {
        match s.master {
            None => r.meshes,
            Some(skinned) => r.meshes.insert(body.0, skinned),
        }
    };
    let posed = meshes.contains_key(body.0) && meshes[body.0];
    Roster {
        meshes,
        headless: r.headless || (posed && body.0 == s.local_player),
        calibrated: if posed {
            r.calibrated.insert(body.0)
        } else {
            r.calibrated
        },
    }
}

/// The meshes after all bodies.
pub open spec fn roster_of(
    r: Roster,
    s: Surroundings,
    bodies: Seq<(u64, RemotePlayerState)>,
) -> Roster
    decreases bodies.len(),
{
    if bodies.len() == 0 {
        r
    } else {
        roster_after(roster_of(r, s, bodies.drop_last()), s, bodies.last())
    }
}

/// What is done for each body.
pub open spec fn steps_for(
    r: Roster,
    s: Surroundings,
    bodies: Seq<(u64, RemotePlayerState)>,
) -> Seq<BodyStep>
    decreases bodies.len(),
{
    if bodies.len() == 0 {
        Seq::empty()
    } else {
        steps_for(r, s, bodies.drop_last()).push(
            step_for(roster_of(r, s, bodies.drop_last()), s, bodies.last()),
        )
    }
}

/// Whether a player is among the bodies.
pub open spec fn present(bodies: Seq<(u64, RemotePlayerState)>, id: u64) -> bool {
    exists|i: int| 0 <= i < bodies.len() && (#[trigger] bodies[i]).0 == id
}

/// The meshes of the players that are still there.
pub open spec fn still_there(
    meshes: Map<u64, bool>,
    bodies: Seq<(u64, RemotePlayerState)>,
) -> Map<u64, bool> {
    meshes.restrict(Set::new(|id: u64| present(bodies, id)))
}

/// What does not change from one body to the next.
pub open spec fn surroundings(
    master: Option<bool>,
    local_player: u64,
    world: Option<WireWorld>,
    pulls: PerHand<bool>,
) -> Surroundings {
    Surroundings {
        master,
        local_player,
        left_held: held_in(world, Hand::Left),
        right_held: held_in(world, Hand::Right),
        left_pulls: pulls.left,
        right_pulls: pulls.right,
    }
}

fn retain_present(
    meshes: &HashMap<u64, bool>,
    bodies: &[(u64, RemotePlayerState)],
) -> (r: HashMap<u64, bool>)
    ensures
        r@ == still_there(meshes@, bodies@),
{
    let mut kept: HashMap<u64, bool> = HashMap::new();
    let mut i: usize = 0;
    assert(kept@ =~= still_there(meshes@, bodies@.take(0)));
    while i < bodies.len()
        invariant
            i <= bodies@.len(),
            kept@ == still_there(meshes@, bodies@.take(i as int)),
        decreases bodies@.len() - i,
    {
        let id = bodies[i].0;
        let ghost had = kept@;
        let found = meshes.get(&id);
        if let Some(skinned) = found {
            kept.insert(id, *skinned);
        }
        proof {
            let now = bodies@.take(i + 1);
            let before = bodies@.take(i as int);
            assert forall|k: u64| #[trigger] present(now, k) == (present(before, k) || k == id) by {
                if present(before, k) {
                    let j = choose|j: int| 0 <= j < before.len() && (#[trigger] before[j]).0 == k;
                    assert(now[j].0 == k);
                }
                if k == id {
                    assert(now[i as int].0 == k);
                }
                if present(now, k) && k != id {
                    let j = choose|j: int| 0 <= j < now.len() && (#[trigger] now[j]).0 == k;
                    assert(before[j].0 == k);
                }
            }
            assert(kept@ =~= still_there(meshes@, now));
        }
        i = i + 1;
    }
    assert(bodies@.take(i as int) =~= bodies@);
    kept
}

fn place_hand(hand: Option<Transform>, pulls: bool, local: bool) -> (r: HandPlace)
    ensures
        r == placed(hand, pulls, local),
{
    match hand {
        None => HandPlace::Absent,
        Some(_) => if pulls && local {
            HandPlace::OnHandle
        } else {
            HandPlace::AsSeen
        },
    }
}

fn bend(held: Option<&WireHeldGrip>, pulls: bool) -> (r: Fingers)
    ensures
        r == bent(
            match held {
                Some(h) => Some(*h),
                None => None,
            },
            pulls,
        ),
{
    match held {
        Some(h) => if h.has_hand_pose {
            Fingers::Authored
        } else {
            Fingers::Curled
        },
        None => if pulls {
            Fingers::OnHandle
        } else {
            Fingers::Free
        },
    }
}

/// Brings the bodies' meshes up to date: forgets those of players who left,
/// makes those that are missing once there is a mesh to make them of, and says
/// where each body rests and how it is posed.
///
/// `meshes` says of each player who has a mesh whether it has a skeleton,
/// `master` the same of the mesh that bodies are made of, `headless` whether the
/// local player's headless mesh is there, and `pulls` which of the local
/// player's hands is pulling a handle. `calibrated` are the players whose height
/// was calibrated; one who left is remembered.
pub fn update_avatar_bodies(
    meshes: &mut HashMap<u64, bool>,
    master: Option<bool>,
    headless: &mut bool,
    calibrated: &mut HashSet<u64>,
    local_player: u64,
    world: &Option<WireWorld>,
    pulls: &PerHand<bool>,
    bodies: &[(u64, RemotePlayerState)],
) -> (r: Vec<BodyStep>)
    ensures
        ({
            let s = surroundings(master, local_player, *world, *pulls);
            let start = Roster {
                meshes: still_there(old(meshes)@, bodies@),
                headless: *old(headless),
                calibrated: old(calibrated)@,
            };
            &&& r@ == steps_for(start, s, bodies@)
            &&& final(meshes)@ == roster_of(start, s, bodies@).meshes
            &&& *final(headless) == roster_of(start, s, bodies@).headless
            &&& final(calibrated)@ == roster_of(start, s, bodies@).calibrated
        }),
{
    let ghost s = surroundings(master, local_player, *world, *pulls);
    let mut kept = retain_present(meshes, bodies);
    let ghost start = Roster { meshes: kept@, headless: *headless, calibrated: calibrated@ };
    let left_bent = bend(held(world, Hand::Left), pulls.left);
    let right_bent = bend(held(world, Hand::Right), pulls.right);
    let mut steps: Vec<BodyStep> = Vec::new();
    let mut i: usize = 0;
    proof {
        assert(bodies@.take(0) =~= Seq::empty());
    }
    while i < bodies.len()
        invariant
            i <= bodies@.len(),
            s == surroundings(master, local_player, *world, *pulls),
            left_bent == bent(s.left_held, s.left_pulls),
            right_bent == bent(s.right_held, s.right_pulls),
            steps@ =~= steps_for(start, s, bodies@.take(i as int)),
            kept@ == roster_of(start, s, bodies@.take(i as int)).meshes,
            *headless == roster_of(start, s, bodies@.take(i as int)).headless,
            calibrated@ == roster_of(start, s, bodies@.take(i as int)).calibrated,
        decreases bodies@.len() - i,
    {
        proof {
            assert(bodies@.take(i + 1).drop_last() =~= bodies@.take(i as int));
        }
        let (id, state) = bodies[i];
        let found: Option<bool> = match kept.get(&id) {
            Some(skinned) => Some(*skinned),
            None => None,
        };
        let (make, mesh): (bool, Option<bool>) = match found {
            Some(skinned) => (false, Some(skinned)),
            None => (true, master),
        };
        let step = match mesh {
            None => BodyStep::Wait,
            Some(skinned) => {
                if make {
                    kept.insert(id, skinned);
                }
                if !skinned {
                    BodyStep::Rest { make, stand: at_rest() }
                } else {
                    let local = id == local_player;
                    let first_seen = !calibrated.contains(&id);
                    calibrated.insert(id);
                    let had_headless = *headless;
                    if local {
                        *headless = true;
                    }
                    BodyStep::Pose {
                        make,
                        stand: at_rest(),
                        head_height: state.head.position.y,
                        first_seen,
                        left_hand: place_hand(state.left_hand, pulls.left, local),
                        right_hand: place_hand(state.right_hand, pulls.right, local),
                        left_fingers: if local {
                            Some(left_bent)
                        } else {
                            None
                        },
                        right_fingers: if local {
                            Some(right_bent)
                        } else {
                            None
                        },
                        headless: if local {
                            Some(!had_headless)
                        } else {
                            None
                        },
                    }
                }
            },
        };
        steps.push(step);
        i = i + 1;
    }
    proof {
        assert(bodies@.take(i as int) =~= bodies@);
    }
    *meshes = kept;
    steps
}

proof fn roster_covers(r: Roster, s: Surroundings, bodies: Seq<(u64, RemotePlayerState)>)
    ensures
        forall|id: u64| #[trigger]
            roster_of(r, s, bodies).meshes.contains_key(id) <==> r.meshes.contains_key(id) || (
            s.master is Some && present(bodies, id)),
    decreases bodies.len(),
{
    if bodies.len() > 0 {
        let front = bodies.drop_last();
        roster_covers(r, s, front);
        assert forall|id: u64| #[trigger] present(bodies, id) == (present(front, id) || id
            == bodies.last().0) by {
            if present(front, id) {
                let j = choose|j: int| 0 <= j < front.len() && (#[trigger] front[j]).0 == id;
                assert(bodies[j].0 == id);
            }
            if id == bodies.last().0 {
                assert(bodies[bodies.len() - 1].0 == id);
            }
            if present(bodies, id) && id != bodies.last().0 {
                let j = choose|j: int| 0 <= j < bodies.len() && (#[trigger] bodies[j]).0 == id;
                assert(front[j].0 == id);
            }
        }
        let before = roster_of(r, s, front);
        assert forall|id: u64| #[trigger]
            roster_of(r, s, bodies).meshes.contains_key(id) <==> r.meshes.contains_key(id) || (
            s.master is Some && present(bodies, id)) by {
            assert(before.meshes.contains_key(id) <==> r.meshes.contains_key(id) || (
            s.master is Some && present(front, id)));
            assert(present(bodies, id) == (present(front, id) || id == bodies.last().0));
        }
    }
}

/// Nobody who left keeps a mesh. Once there is a mesh to make bodies of, everyone
/// who is there has one; before that, those who had one keep it.
pub proof fn meshes_follow_the_players(
    r: Roster,
    s: Surroundings,
    bodies: Seq<(u64, RemotePlayerState)>,
)
    ensures
        ({
            let after = roster_of(
                Roster { meshes: still_there(r.meshes, bodies), ..r },
                s,
                bodies,
            ).meshes;
            forall|id: u64| #[trigger]
                after.contains_key(id) <==> present(bodies, id) && (s.master is Some
                    || r.meshes.contains_key(id))
        }),
{
    roster_covers(Roster { meshes: still_there(r.meshes, bodies), ..r }, s, bodies);
}

/// Nobody's calibrated height is forgotten, everyone who is posed is calibrated,
/// and the headless mesh stays once it is there.
pub proof fn no_height_is_forgotten(
    r: Roster,
    s: Surroundings,
    bodies: Seq<(u64, RemotePlayerState)>,
)
    ensures
        r.calibrated.subset_of(roster_of(r, s, bodies).calibrated),
        r.headless ==> roster_of(r, s, bodies).headless,
        forall|i: int|
            0 <= i < bodies.len() && #[trigger] steps_for(r, s, bodies)[i] is Pose ==> roster_of(
                r,
                s,
                bodies,
            ).calibrated.contains(bodies[i].0),
        steps_for(r, s, bodies).len() == bodies.len(),
    decreases bodies.len(),
{
    if bodies.len() > 0 {
        no_height_is_forgotten(r, s, bodies.drop_last());
        let before = steps_for(r, s, bodies.drop_last());
        assert forall|i: int|
            0 <= i < bodies.len() && #[trigger] steps_for(r, s, bodies)[i] is Pose implies
            roster_of(r, s, bodies).calibrated.contains(bodies[i].0) by {
            if i < bodies.len() - 1 {
                assert(before[i] is Pose);
                assert(bodies.drop_last()[i] == bodies[i]);
            }
        }
    }
}

/// Every body that has a mesh rests where meshes rest, posed or not.
pub proof fn bodies_rest_at_the_origin(
    r: Roster,
    s: Surroundings,
    body: (u64, RemotePlayerState),
)
    ensures
        match step_for(r, s, body) {
            BodyStep::Wait => !roster_after(r, s, body).meshes.contains_key(body.0),
            BodyStep::Rest { make, stand } => stand == at_rest(),
            BodyStep::Pose {
                make,
                stand,
                head_height,
                first_seen,
                left_hand,
                right_hand,
                left_fingers,
                right_fingers,
                headless,
            } => stand == at_rest(),
        },
{
}

/// Only the local player's hands are drawn on a handle, only theirs have bent
/// fingers, and only they have a headless mesh.
pub proof fn others_come_as_they_are(
    r: Roster,
    s: Surroundings,
    body: (u64, RemotePlayerState),
)
    requires
        body.0 != s.local_player,
    ensures
        match step_for(r, s, body) {
            BodyStep::Pose {
                make,
                stand,
                head_height,
                first_seen,
                left_hand,
                right_hand,
                left_fingers,
                right_fingers,
                headless,
            } => left_hand != HandPlace::OnHandle && right_hand != HandPlace::OnHandle
                && left_fingers is None && right_fingers is None && headless is None,
            _ => true,
        },
        roster_after(r, s, body).headless == r.headless,
{
}

/// The local player's head and hands are where they are tracked, each hand on its
/// own side.
pub proof fn the_local_body_is_as_it_is_tracked(head: Transform, grips: PerHand<Transform>)
    ensures
        ({
            let body = local_body(head, grips);
            &&& body.head == head
            &&& body.left_hand == Some(grips.left)
            &&& body.right_hand == Some(grips.right)
        }),
{
}

/// Whether a mesh stands at the origin, unturned, at its own size.
pub open spec fn is_at_rest(stand: Stand) -> bool {
    let one: u32 = 0x3f80_0000;
    &&& stand.position.x.bits == 0 && stand.position.y.bits == 0 && stand.position.z.bits == 0
    &&& stand.rotation.x.bits == 0 && stand.rotation.y.bits == 0 && stand.rotation.z.bits == 0
    &&& stand.rotation.w.bits == one
    &&& stand.scale.x.bits == one && stand.scale.y.bits == one && stand.scale.z.bits == one
}

/// Whether a hand is drawn where it should be: nowhere where it is not tracked, on
/// the handle where it is the local player's and pulls one, and else as seen.
pub open spec fn is_drawn_rightly(
    at: HandPlace,
    hand: Option<Transform>,
    pulls: bool,
    local: bool,
) -> bool {
    &&& at is Absent <==> hand is None
    &&& at is OnHandle <==> hand is Some && local && pulls
}

/// Whether fingers are bent as they should be: round what the hand holds, as the
/// author posed them if the author did; else round the handle that it pulls; else
/// freely.
pub open spec fn are_bent_rightly(f: Fingers, held: Option<WireHeldGrip>, pulls: bool) -> bool {
    &&& f is Authored <==> (held matches Some(h) && h.has_hand_pose)
    &&& f is Curled <==> (held matches Some(h) && !h.has_hand_pose)
    &&& f is OnHandle <==> held is None && pulls
    &&& f is Free <==> held is None && !pulls
}

/// What the server says that the left hand holds, and what the right one does.
pub open spec fn said_of_hands(
    world: Option<WireWorld>,
) -> (Option<WireHeldGrip>, Option<WireHeldGrip>) {
    match world {
        Some(w) => (w.left_hand_held, w.right_hand_held),
        None => (None, None),
    }
}

/// Whether a step is the right one for a body, given whether it had a mesh, and of
/// which mesh it is made else.
pub open spec fn is_right_step(
    step: BodyStep,
    body: (u64, RemotePlayerState),
    had: Option<bool>,
    master: Option<bool>,
    headless: bool,
    calibrated: bool,
    local_player: u64,
    world: Option<WireWorld>,
    pulls: PerHand<bool>,
) -> bool {
    let local = body.0 == local_player;
    let skinned = match (had, master) {
        (Some(skinned), _) => Some(skinned),
        (None, m) => m,
    };
    match step {
        BodyStep::Wait => skinned is None,
        BodyStep::Rest { make, stand } => {
            &&& skinned == Some(false)
            &&& make == (had is None)
            &&& is_at_rest(stand)
        },
        BodyStep::Pose {
            make,
            stand,
            head_height,
            first_seen,
            left_hand,
            right_hand,
            left_fingers,
            right_fingers,
            headless: headless_to_make,
        } => {
            &&& skinned == Some(true)
            &&& make == (had is None)
            &&& is_at_rest(stand)
            &&& head_height == body.1.head.position.y
            &&& first_seen == !calibrated
            &&& is_drawn_rightly(left_hand, body.1.left_hand, pulls.left, local)
            &&& is_drawn_rightly(right_hand, body.1.right_hand, pulls.right, local)
            &&& match left_fingers {
                Some(f) => local && are_bent_rightly(f, said_of_hands(world).0, pulls.left),
                None => !local,
            }
            &&& match right_fingers {
                Some(f) => local && are_bent_rightly(f, said_of_hands(world).1, pulls.right),
                None => !local,
            }
            &&& headless_to_make == if local {
                Some(!headless)
            } else {
                None
            }
        },
    }
}

proof fn nobody_else_is_touched(
    r: Roster,
    s: Surroundings,
    bodies: Seq<(u64, RemotePlayerState)>,
    id: u64,
)
    requires
        forall|i: int| 0 <= i < bodies.len() ==> (#[trigger] bodies[i]).0 != id,
    ensures
        ({
            let after = roster_of(r, s, bodies);
            &&& after.meshes.contains_key(id) == r.meshes.contains_key(id)
            &&& after.meshes.contains_key(id) ==> after.meshes[id] == r.meshes[id]
            &&& after.calibrated.contains(id) == r.calibrated.contains(id)
            &&& id == s.local_player ==> after.headless == r.headless
        }),
    decreases bodies.len(),
{
    if bodies.len() > 0 {
        let front = bodies.drop_last();
        assert(forall|i: int| 0 <= i < front.len() ==> front[i] == #[trigger] bodies[i]);
        nobody_else_is_touched(r, s, front, id);
        assert(bodies[bodies.len() - 1].0 != id);
    }
}

proof fn steps_come_in_turn(
    r: Roster,
    s: Surroundings,
    bodies: Seq<(u64, RemotePlayerState)>,
    i: int,
)
    requires
        0 <= i < bodies.len(),
    ensures
        steps_for(r, s, bodies).len() == bodies.len(),
        steps_for(r, s, bodies)[i] == step_for(roster_of(r, s, bodies.take(i)), s, bodies[i]),
    decreases bodies.len(),
{
    no_height_is_forgotten(r, s, bodies);
    no_height_is_forgotten(r, s, bodies.drop_last());
    if i < bodies.len() - 1 {
        steps_come_in_turn(r, s, bodies.drop_last(), i);
        assert(bodies.drop_last().take(i) =~= bodies.take(i));
    } else {
        assert(bodies.take(i) =~= bodies.drop_last());
    }
}

/// Every body is dealt with in its turn, by what was known of its own player: it
/// waits while there is no mesh for it, keeps the mesh it had, and is posed where
/// its mesh has a skeleton. Its head's height is what it is calibrated by, its
/// hands are drawn where they are or where they pull, and the local player's
/// fingers are bent round what each hand holds. Every player is among the bodies
/// once.
pub proof fn every_body_is_posed_as_its_player_stands(
    meshes: Map<u64, bool>,
    master: Option<bool>,
    headless: bool,
    calibrated: Set<u64>,
    local_player: u64,
    world: Option<WireWorld>,
    pulls: PerHand<bool>,
    bodies: Seq<(u64, RemotePlayerState)>,
    i: int,
)
    requires
        0 <= i < bodies.len(),
        forall|j: int, k: int|
            0 <= j < k < bodies.len() ==> (#[trigger] bodies[j]).0 != (#[trigger] bodies[k]).0,
    ensures
        ({
            let s = surroundings(master, local_player, world, pulls);
            let start = Roster { meshes: still_there(meshes, bodies), headless, calibrated };
            let id = bodies[i].0;
            let after = roster_of(start, s, bodies);
            let had = if meshes.contains_key(id) {
                Some(meshes[id])
            } else {
                None
            };
            &&& steps_for(start, s, bodies).len() == bodies.len()
            &&& is_right_step(
                steps_for(start, s, bodies)[i],
                bodies[i],
                had,
                master,
                headless,
                calibrated.contains(id),
                local_player,
                world,
                pulls,
            )
            &&& match (had, master) {
                (Some(skinned), _) => after.meshes.contains_key(id) && after.meshes[id] == skinned,
                (None, Some(skinned)) => after.meshes.contains_key(id) && after.meshes[id]
                    == skinned,
                (None, None) => !after.meshes.contains_key(id),
            }
            &&& after.calibrated.contains(id) <==> calibrated.contains(id) || (
            after.meshes.contains_key(id) && after.meshes[id])
            &&& id == local_player ==> (after.headless <==> headless || (after.meshes.contains_key(
                id,
            ) && after.meshes[id]))
        }),
{
    let s = surroundings(master, local_player, world, pulls);
    let start = Roster { meshes: still_there(meshes, bodies), headless, calibrated };
    let id = bodies[i].0;
    let first = bodies.take(i);
    assert(forall|j: int| 0 <= j < first.len() ==> first[j] == #[trigger] bodies[j]);
    assert(present(bodies, id));
    nobody_else_is_touched(start, s, first, id);
    steps_come_in_turn(start, s, bodies, i);
    let next = bodies.take(i + 1);
    assert(next.drop_last() =~= first);
    assert(next.last() == bodies[i]);
    last_ones_leave_alone(start, s, bodies, i + 1, id);
}

proof fn last_ones_leave_alone(
    r: Roster,
    s: Surroundings,
    bodies: Seq<(u64, RemotePlayerState)>,
    n: int,
    id: u64,
)
    requires
        0 <= n <= bodies.len(),
        forall|j: int| n <= j < bodies.len() ==> (#[trigger] bodies[j]).0 != id,
    ensures
        ({
            let before = roster_of(r, s, bodies.take(n));
            let after = roster_of(r, s, bodies);
            &&& after.meshes.contains_key(id) == before.meshes.contains_key(id)
            &&& after.meshes.contains_key(id) ==> after.meshes[id] == before.meshes[id]
            &&& after.calibrated.contains(id) == before.calibrated.contains(id)
            &&& id == s.local_player ==> after.headless == before.headless
        }),
    decreases bodies.len(),
{
    if n < bodies.len() {
        let front = bodies.drop_last();
        assert(forall|i: int| 0 <= i < front.len() ==> front[i] == #[trigger] bodies[i]);
        last_ones_leave_alone(r, s, front, n, id);
        assert(front.take(n) =~= bodies.take(n));
        assert(bodies[bodies.len() - 1].0 != id);
    } else {
        assert(bodies.take(n) =~= bodies);
    }
}

} // verus!
