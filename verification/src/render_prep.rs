//! What one frame draws.

use std::collections::HashMap;

use vstd::prelude::*;
use vstd::std_specs::iter::IteratorSpec;
use vstd::string::StringExecFns;

use crate::convert::{
    draws, shines, to_space_soup_cuboid, to_space_soup_light, Cuboid, Light,
};
use crate::engine::{
    copy_texts, find_text, place, texts, ClipBlendMode, ControllerState, Hand, PartAnimationDef,
    PerHand, Transform,
};
use crate::grab_detect::StaticScene;
use crate::part_pull::{
    blend_sources, blends_for_object, eased_from, manual_of, PullSession,
};
use crate::protocol::{
    find_mesh, held, held_in, WireRenderCuboid, WireRenderLight, WireRenderMesh, WireWorld,
};
use crate::scalar::{Quat, Scalar, Vec3};
use crate::table::Table;

verus! {

broadcast use vstd::std_specs::hash::group_hash_axioms;

/// The bit pattern of 40.0, the distance in metres beyond which nothing is drawn.
pub const MAX_RENDER_DIST: u32 = 0x4220_0000;

/// Whether something at a distance is drawn.
pub open spec fn in_view(distance: Scalar) -> bool {
    distance.below(Scalar { bits: MAX_RENDER_DIST })
}

fn is_in_view(distance: Scalar) -> (r: bool)
    ensures
        r == in_view(distance),
{
    distance.lt(Scalar { bits: MAX_RENDER_DIST })
}

/// The places of the distances that are in view.
pub open spec fn near(distances: Seq<Scalar>) -> Seq<int>
    decreases distances.len(),
{
    if distances.len() == 0 {
        Seq::empty()
    } else {
        let before = near(distances.drop_last());
        if in_view(distances.last()) {
            before.push(distances.len() - 1)
        } else {
            before
        }
    }
}

/// What is in view is drawn, and nothing else is, in the order of the world.
pub proof fn exactly_what_is_in_view_is_drawn(distances: Seq<Scalar>)
    ensures
        forall|i: int| #[trigger]
            near(distances).contains(i) <==> 0 <= i < distances.len() && in_view(distances[i]),
        forall|j: int, k: int|
            0 <= j < k < near(distances).len() ==> #[trigger] near(distances)[j]
                < #[trigger] near(distances)[k],
    decreases distances.len(),
{
    if distances.len() > 0 {
        let front = distances.drop_last();
        let before = near(front);
        let now = near(distances);
        exactly_what_is_in_view_is_drawn(front);
        assert forall|i: int| #[trigger]
            now.contains(i) <==> 0 <= i < distances.len() && in_view(distances[i]) by {
            assert(before.contains(i) <==> 0 <= i < front.len() && in_view(front[i]));
            if before.contains(i) {
                let p = choose|p: int| 0 <= p < before.len() && before[p] == i;
                assert(now[p] == i);
            }
            if now.contains(i) {
                let p = choose|p: int| 0 <= p < now.len() && now[p] == i;
                if p < before.len() {
                    assert(before[p] == i);
                }
            }
            if i == distances.len() - 1 && in_view(distances[i]) {
                assert(now[before.len() as int] == i);
            }
        }
        assert forall|j: int, k: int| 0 <= j < k < now.len() implies #[trigger] now[j]
            < #[trigger] now[k] by {
            assert(before.contains(before[j]));
        }
    }
}

// ---------------------------------------------------------------------------
// Cuboids and lights
// ---------------------------------------------------------------------------

/// Whether cuboids are those of the world in view, in the world's order.
pub open spec fn are_shown<P: Fn(Vec3) -> Vec3, R: Fn(Quat) -> Quat>(
    shown: Seq<Cuboid>,
    cuboids: Seq<WireRenderCuboid>,
    distances: Seq<Scalar>,
    point: P,
    turn: R,
) -> bool {
    &&& shown.len() == near(distances).len()
    &&& forall|k: int|
        0 <= k < shown.len() ==> draws(
            #[trigger] shown[k],
            cuboids[near(distances)[k]],
            point,
            turn,
        )
}

/// The cuboids in view, in the player's frame.
pub fn visible_cuboids<P: Fn(Vec3) -> Vec3, R: Fn(Quat) -> Quat>(
    cuboids_src: &[WireRenderCuboid],
    distances: &[Scalar],
    point: &P,
    turn: &R,
) -> (r: Vec<Cuboid>)
    requires
        distances@.len() == cuboids_src@.len(),
        forall|v: Vec3| #[trigger] call_requires(*point, (v,)),
        forall|q: Quat| #[trigger] call_requires(*turn, (q,)),
    ensures
        are_shown(r@, cuboids_src@, distances@, *point, *turn),
{
    let mut out: Vec<Cuboid> = Vec::new();
    let mut i: usize = 0;
    proof {
        assert(distances@.take(0) =~= Seq::empty());
    }
    while i < cuboids_src.len()
        invariant
            i <= cuboids_src@.len(),
            distances@.len() == cuboids_src@.len(),
            forall|v: Vec3| #[trigger] call_requires(*point, (v,)),
            forall|q: Quat| #[trigger] call_requires(*turn, (q,)),
            out@.len() == near(distances@.take(i as int)).len(),
            forall|k: int|
                0 <= k < out@.len() ==> draws(
                    #[trigger] out@[k],
                    cuboids_src@[near(distances@.take(i as int))[k]],
                    *point,
                    *turn,
                ),
        decreases cuboids_src@.len() - i,
    {
        proof {
            assert(distances@.take(i + 1).drop_last() =~= distances@.take(i as int));
        }
        if is_in_view(distances[i]) {
            let ghost had = out@;
            out.push(to_space_soup_cuboid(&cuboids_src[i], point, turn));
            proof {
                assert forall|k: int| 0 <= k < out@.len() implies draws(
                    #[trigger] out@[k],
                    cuboids_src@[near(distances@.take(i + 1))[k]],
                    *point,
                    *turn,
                ) by {
                    if k < had.len() {
                        assert(out@[k] == had[k]);
                    }
                }
            }
        }
        i = i + 1;
    }
    proof {
        assert(distances@.take(i as int) =~= distances@);
    }
    out
}

/// Whether lights are those of the world, in the world's order.
pub open spec fn all_shine<P: Fn(Vec3) -> Vec3, D: Fn(Vec3) -> Vec3>(
    shown: Seq<Light>,
    lights: Seq<WireRenderLight>,
    point: P,
    aim: D,
) -> bool {
    &&& shown.len() == lights.len()
    &&& forall|k: int|
        0 <= k < shown.len() ==> shines(#[trigger] shown[k], lights[k], point, aim)
}

/// The lights, in the player's frame. Every light counts, however far.
pub fn all_lights<P: Fn(Vec3) -> Vec3, D: Fn(Vec3) -> Vec3>(
    lights_src: &[WireRenderLight],
    point: &P,
    aim: &D,
) -> (r: Vec<Light>)
    requires
        forall|v: Vec3| #[trigger] call_requires(*point, (v,)),
        forall|v: Vec3| #[trigger] call_requires(*aim, (v,)),
    ensures
        all_shine(r@, lights_src@, *point, *aim),
{
    let mut out: Vec<Light> = Vec::new();
    let mut i: usize = 0;
    while i < lights_src.len()
        invariant
            i <= lights_src@.len(),
            forall|v: Vec3| #[trigger] call_requires(*point, (v,)),
            forall|v: Vec3| #[trigger] call_requires(*aim, (v,)),
            out@.len() == i,
            forall|k: int|
                0 <= k < i ==> shines(#[trigger] out@[k], lights_src@[k], *point, *aim),
        decreases lights_src@.len() - i,
    {
        out.push(to_space_soup_light(&lights_src[i], point, aim));
        i = i + 1;
    }
    out
}

/// Which cuboid is the mirror, if one is.
pub open spec fn mirror_of(cuboids: Seq<WireRenderCuboid>) -> Option<int>
    decreases cuboids.len(),
{
    if cuboids.len() == 0 {
        None
    } else {
        match mirror_of(cuboids.drop_last()) {
            Some(i) => Some(i),
            None => if cuboids.last().id@ == "mirror"@ {
                Some(cuboids.len() - 1)
            } else {
                None
            },
        }
    }
}

/// Which cuboid is the mirror: the first that is called so, however far.
pub fn find_mirror(cuboids: &[WireRenderCuboid]) -> (r: Option<usize>)
    ensures
        match r {
            Some(i) => mirror_of(cuboids@) == Some(i as int) && i < cuboids@.len(),
            None => mirror_of(cuboids@) is None,
        },
{
    let name = String::from_str("mirror");
    let mut found: Option<usize> = None;
    let mut i: usize = 0;
    while i < cuboids.len()
        invariant
            i <= cuboids@.len(),
            name@ == "mirror"@,
            match found {
                Some(f) => mirror_of(cuboids@.take(i as int)) == Some(f as int) && f < i,
                None => mirror_of(cuboids@.take(i as int)) is None,
            },
        decreases cuboids@.len() - i,
    {
        proof {
            assert(cuboids@.take(i + 1).drop_last() =~= cuboids@.take(i as int));
        }
        if found.is_none() && cuboids[i].id == name {
            found = Some(i);
        }
        i = i + 1;
    }
    proof {
        assert(cuboids@.take(i as int) =~= cuboids@);
    }
    found
}

// ---------------------------------------------------------------------------
// Meshes that the world moves
// ---------------------------------------------------------------------------

/// What is known of a loaded mesh: the names of its joints, where it has a skin.
#[derive(Debug)]
pub struct MeshFacts {
    pub joints: Option<Vec<String>>,
}

/// Where the world puts a loaded mesh, in the player's frame.
#[derive(Clone, Copy, Debug, PartialEq, Eq)]
pub struct MeshMove {
    /// Which mesh of the world this is.
    pub mesh: usize,
    pub position: Vec3,
    pub rotation: Quat,
    pub scale: Vec3,
}

/// The places of the world's meshes that are loaded.
pub open spec fn loaded_ones(
    meshes: Seq<WireRenderMesh>,
    mesh_cache: Table<MeshFacts>,
) -> Seq<int>
    decreases meshes.len(),
{
    if meshes.len() == 0 {
        Seq::empty()
    } else {
        let before = loaded_ones(meshes.drop_last(), mesh_cache);
        if mesh_cache.holds(meshes.last().id@) {
            before.push(meshes.len() - 1)
        } else {
            before
        }
    }
}

/// Whether a move puts a mesh where the world does.
pub open spec fn moves<P: Fn(Vec3) -> Vec3, R: Fn(Quat) -> Quat>(
    m: MeshMove,
    at: int,
    rm: WireRenderMesh,
    point: P,
    turn: R,
) -> bool {
    &&& m.mesh == at
    &&& call_ensures(point, (rm.position,), m.position)
    &&& call_ensures(turn, (rm.rotation,), m.rotation)
    &&& m.scale == rm.scale
}

/// Whether moves put the loaded meshes where the world does, in the world's order.
pub open spec fn are_moved<P: Fn(Vec3) -> Vec3, R: Fn(Quat) -> Quat>(
    list: Seq<MeshMove>,
    meshes: Seq<WireRenderMesh>,
    mesh_cache: Table<MeshFacts>,
    point: P,
    turn: R,
) -> bool {
    &&& list.len() == loaded_ones(meshes, mesh_cache).len()
    &&& forall|k: int|
        0 <= k < list.len() ==> moves(
            #[trigger] list[k],
            loaded_ones(meshes, mesh_cache)[k],
            meshes[loaded_ones(meshes, mesh_cache)[k]],
            point,
            turn,
        )
}

/// Where the world puts the meshes that are loaded.
pub fn mesh_moves<P: Fn(Vec3) -> Vec3, R: Fn(Quat) -> Quat>(
    meshes_src: &[WireRenderMesh],
    mesh_cache: &Table<MeshFacts>,
    point: &P,
    turn: &R,
) -> (r: Vec<MeshMove>)
    requires
        forall|v: Vec3| #[trigger] call_requires(*point, (v,)),
        forall|q: Quat| #[trigger] call_requires(*turn, (q,)),
    ensures
        are_moved(r@, meshes_src@, *mesh_cache, *point, *turn),
{
    let mut out: Vec<MeshMove> = Vec::new();
    let mut i: usize = 0;
    proof {
        assert(meshes_src@.take(0) =~= Seq::empty());
    }
    while i < meshes_src.len()
        invariant
            i <= meshes_src@.len(),
            forall|v: Vec3| #[trigger] call_requires(*point, (v,)),
            forall|q: Quat| #[trigger] call_requires(*turn, (q,)),
            out@.len() == loaded_ones(meshes_src@.take(i as int), *mesh_cache).len(),
            forall|k: int|
                0 <= k < out@.len() ==> moves(
                    #[trigger] out@[k],
                    loaded_ones(meshes_src@.take(i as int), *mesh_cache)[k],
                    meshes_src@[loaded_ones(meshes_src@.take(i as int), *mesh_cache)[k]],
                    *point,
                    *turn,
                ),
        decreases meshes_src@.len() - i,
    {
        proof {
            assert(meshes_src@.take(i + 1).drop_last() =~= meshes_src@.take(i as int));
        }
        let rm = &meshes_src[i];
        if mesh_cache.contains_key(&rm.id) {
            let ghost had = out@;
            out.push(
                MeshMove {
                    mesh: i,
                    position: point(rm.position),
                    rotation: turn(rm.rotation),
                    scale: rm.scale,
                },
            );
            proof {
                let now = loaded_ones(meshes_src@.take(i + 1), *mesh_cache);
                assert forall|k: int| 0 <= k < out@.len() implies moves(
                    #[trigger] out@[k],
                    now[k],
                    meshes_src@[now[k]],
                    *point,
                    *turn,
                ) by {
                    if k < had.len() {
                        assert(out@[k] == had[k]);
                    }
                }
            }
        }
        i = i + 1;
    }
    proof {
        assert(meshes_src@.take(i as int) =~= meshes_src@);
    }
    out
}

// ---------------------------------------------------------------------------
// Meshes that a hand holds
// ---------------------------------------------------------------------------

/// A clip that poses a held mesh: which of the mesh's animations it is, how far
/// it is blended in, and how it joins the others.
#[derive(Clone, Copy, Debug, PartialEq, Eq, Structural)]
pub struct BlendTarget {
    pub clip: usize,
    pub blend: Scalar,
    pub mode: ClipBlendMode,
}

/// The clips that pose a held mesh: those of its parts that the mesh has, with
/// the blends that they sit at.
pub open spec fn targets(
    parts: Seq<PartAnimationDef>,
    indices: Seq<Option<usize>>,
    blends: Table<Scalar>,
) -> Seq<BlendTarget>
    decreases parts.len(),
{
    if parts.len() == 0 {
        Seq::empty()
    } else {
        let before = targets(parts.drop_last(), indices.drop_last(), blends);
        match indices.last() {
            Some(clip) => before.push(
                BlendTarget {
                    clip,
                    blend: match blends.lookup(parts.last().clip@) {
                        Some(b) => b,
                        None => Scalar::zero(),
                    },
                    mode: parts.last().blend_mode,
                },
            ),
            None => before,
        }
    }
}

/// Whether the places of some parts' clips in a mesh are those that `index_of`
/// gives.
pub open spec fn indexed<X: Fn(&String, &String) -> Option<usize>>(
    indices: Seq<Option<usize>>,
    object_id: String,
    parts: Seq<PartAnimationDef>,
    index_of: X,
) -> bool {
    &&& indices.len() == parts.len()
    &&& forall|i: int|
        0 <= i < parts.len() ==> call_ensures(
            index_of,
            (&object_id, &parts[i].clip),
            #[trigger] indices[i],
        )
}

/// The clips that pose a held mesh. `index_of` finds a clip among the animations
/// of an object's mesh.
pub fn blend_targets<X: Fn(&String, &String) -> Option<usize>>(
    object_id: &String,
    parts: &Vec<PartAnimationDef>,
    blends: &Table<Scalar>,
    index_of: &X,
) -> (r: Vec<BlendTarget>)
    requires
        forall|id: &String, clip: &String| #[trigger] call_requires(*index_of, (id, clip)),
    ensures
        exists|indices: Seq<Option<usize>>| #[trigger]
            indexed(indices, *object_id, parts@, *index_of) && r@ == targets(
                parts@,
                indices,
                *blends,
            ),
{
    let ghost mut indices: Seq<Option<usize>> = Seq::empty();
    let mut out: Vec<BlendTarget> = Vec::new();
    let mut i: usize = 0;
    while i < parts.len()
        invariant
            i <= parts@.len(),
            forall|id: &String, clip: &String| #[trigger] call_requires(*index_of, (id, clip)),
            indexed(indices, *object_id, parts@.take(i as int), *index_of),
            out@ =~= targets(parts@.take(i as int), indices, *blends),
        decreases parts@.len() - i,
    {
        let part = &parts[i];
        let index = index_of(object_id, &part.clip);
        proof {
            let now = indices.push(index);
            assert(now.drop_last() =~= indices);
            assert(parts@.take(i + 1).drop_last() =~= parts@.take(i as int));
            assert(indexed(now, *object_id, parts@.take(i + 1), *index_of));
            indices = now;
        }
        if let Some(clip) = index {
            let blend: Scalar = match blends.get(&part.clip) {
                Some(b) => *b,
                None => Scalar::zero(),
            };
            out.push(BlendTarget { clip, blend, mode: part.blend_mode });
        }
        i = i + 1;
    }
    proof {
        assert(parts@.take(i as int) =~= parts@);
        assert(indexed(indices, *object_id, parts@, *index_of));
    }
    out
}

/// A loaded mesh that a hand holds, and the clips that pose it.
#[derive(Debug)]
pub struct HeldMesh {
    pub object_id: String,
    pub targets: Vec<BlendTarget>,
}

/// The mesh in a hand, if it is loaded, and its parts, if it is posed: where the
/// scene animates it and it has a skin.
pub open spec fn in_hand(
    world: Option<WireWorld>,
    mesh_cache: Table<MeshFacts>,
    scene: StaticScene,
    hand: Hand,
) -> Option<(Seq<char>, Option<Seq<PartAnimationDef>>)> {
    match held_in(world, hand) {
        Some(h) => match mesh_cache.lookup(h.object_id@) {
            Some(facts) => Some(
                (
                    h.object_id@,
                    match scene.part_animations.lookup(h.object_id@) {
                        Some(parts) => if facts.joints is Some {
                            Some(parts@)
                        } else {
                            None
                        },
                        None => None,
                    },
                ),
            ),
            None => None,
        },
        None => None,
    }
}

/// Whether clips pose the mesh in a hand: they are those of its parts, each at
/// the blend that is also reported to the server.
pub open spec fn poses<X: Fn(&String, &String) -> Option<usize>, E: Fn(u32, Scalar) -> Scalar>(
    clips: Seq<BlendTarget>,
    object_id: String,
    parts: Seq<PartAnimationDef>,
    hand: Hand,
    cs: ControllerState,
    meshes: Seq<WireRenderMesh>,
    sessions: PerHand<Option<PullSession>>,
    index_of: X,
    ease: E,
) -> bool {
    exists|indices: Seq<Option<usize>>, blends: Table<Scalar>|
        #![trigger targets(parts, indices, blends)]
        indexed(indices, object_id, parts, index_of) && eased_from(
            blend_sources(
                object_id@,
                parts,
                hand,
                cs,
                sessions,
                manual_of(meshes, object_id@),
            ),
            ease,
            blends,
        ) && clips == targets(parts, indices, blends)
}

/// Whether a held mesh, or none, is what a hand holds.
pub open spec fn is_held<X: Fn(&String, &String) -> Option<usize>, E: Fn(u32, Scalar) -> Scalar>(
    r: Option<HeldMesh>,
    holds: Option<(Seq<char>, Option<Seq<PartAnimationDef>>)>,
    hand: Hand,
    cs: ControllerState,
    meshes: Seq<WireRenderMesh>,
    sessions: PerHand<Option<PullSession>>,
    index_of: X,
    ease: E,
) -> bool {
    match holds {
        Some((id, parts)) => r matches Some(m) && m.object_id@ == id && match parts {
            Some(parts) => poses(
                m.targets@,
                m.object_id,
                parts,
                hand,
                cs,
                meshes,
                sessions,
                index_of,
                ease,
            ),
            None => m.targets@.len() == 0,
        },
        None => r is None,
    }
}

/// The mesh that a hand holds, and the clips that pose it.
pub fn held_mesh<X: Fn(&String, &String) -> Option<usize>, E: Fn(u32, Scalar) -> Scalar>(
    world: &Option<WireWorld>,
    meshes_src: &[WireRenderMesh],
    mesh_cache: &Table<MeshFacts>,
    static_scene: &StaticScene,
    pull_sessions: &PerHand<Option<PullSession>>,
    cs: &ControllerState,
    hand: Hand,
    index_of: &X,
    ease: &E,
) -> (r: Option<HeldMesh>)
    requires
        forall|id: &String, clip: &String| #[trigger] call_requires(*index_of, (id, clip)),
        forall|e: u32, raw: Scalar| #[trigger] call_requires(*ease, (e, raw)),
    ensures
        is_held(
            r,
            in_hand(*world, *mesh_cache, *static_scene, hand),
            hand,
            *cs,
            meshes_src@,
            *pull_sessions,
            *index_of,
            *ease,
        ),
{
    let h = match held(world, hand) {
        Some(h) => h,
        None => {
            return None;
        },
    };
    let facts = match mesh_cache.get(&h.object_id) {
        Some(facts) => facts,
        None => {
            return None;
        },
    };
    let object_id = h.object_id.clone();
    if let Some(parts) = static_scene.part_animations.get(&object_id) {
        if facts.joints.is_some() {
            let manual = match find_mesh(meshes_src, &object_id) {
                Some(i) => Some(&meshes_src[i].manual_part_blends),
                None => None,
            };
            let blends = blends_for_object(
                &object_id,
                parts,
                hand,
                cs,
                pull_sessions,
                manual,
                ease,
            );
            let clips = blend_targets(&object_id, parts, &blends, index_of);
            return Some(HeldMesh { object_id, targets: clips });
        }
    }
    Some(HeldMesh { object_id, targets: Vec::new() })
}

/// The last joint of a name among joints.
pub open spec fn last_place(names: Seq<Seq<char>>, name: Seq<char>) -> Option<int>
    decreases names.len(),
{
    if names.len() == 0 {
        None
    } else if names.last() == name {
        Some(names.len() - 1)
    } else {
        last_place(names.drop_last(), name)
    }
}

/// Whether a table says where each part of a posed mesh is. Of two joints with
/// one name the later counts.
pub open spec fn says_where(
    t: Table<Transform>,
    joints: Seq<Seq<char>>,
    poses: Seq<Transform>,
) -> bool {
    forall|name: Seq<char>|
        #[trigger] t.lookup(name) == match last_place(joints, name) {
            Some(i) => Some(poses[i]),
            None => None,
        }
}

/// Publishes where each part of a posed mesh ended up. The engine reads it in
/// the next frame.
pub fn publish_parts(
    part_transforms: &mut Table<Table<Transform>>,
    object_id: &String,
    joint_names: &Vec<String>,
    posed: &[Transform],
)
    requires
        posed@.len() >= joint_names@.len(),
    ensures
        forall|id: Seq<char>|
            if id == object_id@ {
                (#[trigger] final(part_transforms).lookup(id)) matches Some(t) && says_where(
                    t,
                    texts(joint_names@),
                    posed@,
                )
            } else {
                final(part_transforms).lookup(id) == old(part_transforms).lookup(id)
            },
{
    let ghost names = texts(joint_names@);
    let mut out: Table<Transform> = Table::new();
    let mut i: usize = 0;
    while i < joint_names.len()
        invariant
            i <= joint_names@.len(),
            posed@.len() >= joint_names@.len(),
            names == texts(joint_names@),
            says_where(out, names.take(i as int), posed@),
        decreases joint_names@.len() - i,
    {
        let ghost had = out;
        out.insert(joint_names[i].clone(), posed[i]);
        proof {
            let now = names.take(i + 1);
            assert(now.drop_last() =~= names.take(i as int));
            assert forall|name: Seq<char>| #[trigger] out.lookup(name) == (match last_place(
                now,
                name,
            ) {
                Some(j) => Some(posed@[j]),
                None => None,
            }) by {
                let _ = had.lookup(name);
            }
        }
        i = i + 1;
    }
    proof {
        assert(names.take(i as int) =~= names);
    }
    part_transforms.insert(object_id.clone(), out);
}

// ---------------------------------------------------------------------------
// Meshes with parts left out
// ---------------------------------------------------------------------------

/// What the variants of meshes with parts left out were built for.
pub open spec fn built(cache: Table<Vec<String>>) -> Map<Seq<char>, Seq<Seq<char>>> {
    Map::new(|id: Seq<char>| cache.holds(id), |id: Seq<char>| texts(cache.lookup(id)->0@))
}

/// The joints of the parts that are left out. A name that is no joint leaves
/// nothing out.
pub open spec fn left_out(hidden: Seq<Seq<char>>, joints: Seq<Seq<char>>) -> Seq<int>
    decreases hidden.len(),
{
    if hidden.len() == 0 {
        Seq::empty()
    } else {
        let before = left_out(hidden.drop_last(), joints);
        match place(joints, hidden.last()) {
            Some(j) => before.push(j),
            None => before,
        }
    }
}

/// The joints to build a mesh's variant without, where one has to be built: the
/// mesh hides parts, its variant is not the right one, and the mesh is loaded
/// and has joints of those names.
pub open spec fn to_build(
    variants: Map<Seq<char>, Seq<Seq<char>>>,
    mesh_cache: Table<MeshFacts>,
    rm: WireRenderMesh,
) -> Option<Seq<int>> {
    let hidden = texts(rm.hidden_parts@);
    if hidden.len() == 0 || (variants.contains_key(rm.id@) && variants[rm.id@] == hidden) {
        None
    } else {
        match mesh_cache.lookup(rm.id@) {
            Some(facts) => match facts.joints {
                Some(joints) => if left_out(hidden, texts(joints@)).len() > 0 {
                    Some(left_out(hidden, texts(joints@)))
                } else {
                    None
                },
                None => None,
            },
            None => None,
        }
    }
}

/// The variants after a mesh was looked at: none for a mesh that hides nothing,
/// and the one that was built, if one was.
pub open spec fn variants_with(
    variants: Map<Seq<char>, Seq<Seq<char>>>,
    mesh_cache: Table<MeshFacts>,
    rm: WireRenderMesh,
) -> Map<Seq<char>, Seq<Seq<char>>> {
    if rm.hidden_parts@.len() == 0 {
        variants.remove(rm.id@)
    } else if to_build(variants, mesh_cache, rm) is Some {
        variants.insert(rm.id@, texts(rm.hidden_parts@))
    } else {
        variants
    }
}

/// The variants after all meshes were looked at.
pub open spec fn variants_after(
    variants: Map<Seq<char>, Seq<Seq<char>>>,
    mesh_cache: Table<MeshFacts>,
    meshes: Seq<WireRenderMesh>,
) -> Map<Seq<char>, Seq<Seq<char>>>
    decreases meshes.len(),
{
    if meshes.len() == 0 {
        variants
    } else {
        variants_with(
            variants_after(variants, mesh_cache, meshes.drop_last()),
            mesh_cache,
            meshes.last(),
        )
    }
}

/// A variant to build: of which of the world's meshes, and without which joints.
pub struct Cut {
    pub mesh: int,
    pub without: Seq<int>,
}

/// The variants to build, in order.
pub open spec fn cuts(
    variants: Map<Seq<char>, Seq<Seq<char>>>,
    mesh_cache: Table<MeshFacts>,
    meshes: Seq<WireRenderMesh>,
) -> Seq<Cut>
    decreases meshes.len(),
{
    if meshes.len() == 0 {
        Seq::empty()
    } else {
        let before = cuts(variants, mesh_cache, meshes.drop_last());
        match to_build(
            variants_after(variants, mesh_cache, meshes.drop_last()),
            mesh_cache,
            meshes.last(),
        ) {
            Some(without) => before.push(Cut { mesh: meshes.len() - 1, without }),
            None => before,
        }
    }
}

/// A variant to build: of which of the world's meshes, and without which joints.
#[derive(Debug)]
pub struct Rebuild {
    pub mesh: usize,
    pub without: Vec<usize>,
}

/// The numbers of a list of places.
pub open spec fn places(list: Seq<usize>) -> Seq<int> {
    list.map_values(|i: usize| i as int)
}

/// What a list of variants to build says.
pub open spec fn orders(list: Seq<Rebuild>) -> Seq<Cut> {
    list.map_values(|o: Rebuild| Cut { mesh: o.mesh as int, without: places(o.without@) })
}

fn joints_left_out(hidden: &Vec<String>, joints: &Vec<String>) -> (r: Vec<usize>)
    ensures
        places(r@) == left_out(texts(hidden@), texts(joints@)),
{
    let ghost names = texts(hidden@);
    let mut out: Vec<usize> = Vec::new();
    let mut i: usize = 0;
    proof {
        assert(places(out@) =~= left_out(names.take(0), texts(joints@)));
    }
    while i < hidden.len()
        invariant
            i <= hidden@.len(),
            names == texts(hidden@),
            places(out@) == left_out(names.take(i as int), texts(joints@)),
        decreases hidden@.len() - i,
    {
        proof {
            assert(names.take(i + 1).drop_last() =~= names.take(i as int));
        }
        if let Some(j) = find_text(joints, &hidden[i]) {
            let ghost had = out@;
            out.push(j);
            proof {
                assert(places(out@) =~= places(had).push(j as int));
            }
        }
        i = i + 1;
    }
    proof {
        assert(names.take(i as int) =~= names);
    }
    out
}

fn same_texts(a: &Vec<String>, b: &Vec<String>) -> (r: bool)
    ensures
        r == (texts(a@) == texts(b@)),
{
    if a.len() != b.len() {
        assert(texts(a@).len() != texts(b@).len());
        return false;
    }
    let mut i: usize = 0;
    while i < a.len()
        invariant
            i <= a@.len(),
            a@.len() == b@.len(),
            forall|k: int| 0 <= k < i ==> texts(a@)[k] == texts(b@)[k],
        decreases a@.len() - i,
    {
        if a[i] != b[i] {
            assert(texts(a@)[i as int] != texts(b@)[i as int]);
            return false;
        }
        i = i + 1;
    }
    assert(texts(a@) =~= texts(b@));
    true
}

/// Brings the variants of meshes with parts left out up to date, and says which
/// of them to build. Building one is costly, so it is done only when what a mesh
/// hides has changed.
pub fn refresh_variants(
    meshes_src: &[WireRenderMesh],
    mesh_cache: &Table<MeshFacts>,
    hidden_cache: &mut Table<Vec<String>>,
) -> (r: Vec<Rebuild>)
    requires
        old(hidden_cache).distinct(),
    ensures
        final(hidden_cache).distinct(),
        orders(r@) == cuts(built(*old(hidden_cache)), *mesh_cache, meshes_src@),
        built(*final(hidden_cache)) == variants_after(
            built(*old(hidden_cache)),
            *mesh_cache,
            meshes_src@,
        ),
{
    let ghost before = built(*hidden_cache);
    let mut out: Vec<Rebuild> = Vec::new();
    let mut i: usize = 0;
    proof {
        assert(meshes_src@.take(0) =~= Seq::empty());
        assert(orders(out@) =~= cuts(before, *mesh_cache, meshes_src@.take(0)));
    }
    while i < meshes_src.len()
        invariant
            i <= meshes_src@.len(),
            hidden_cache.distinct(),
            orders(out@) == cuts(before, *mesh_cache, meshes_src@.take(i as int)),
            built(*hidden_cache) == variants_after(
                before,
                *mesh_cache,
                meshes_src@.take(i as int),
            ),
        decreases meshes_src@.len() - i,
    {
        proof {
            assert(meshes_src@.take(i + 1).drop_last() =~= meshes_src@.take(i as int));
        }
        let rm = &meshes_src[i];
        let ghost had = *hidden_cache;
        let ghost hidden = texts(rm.hidden_parts@);
        let ghost list = out@;
        if rm.hidden_parts.len() == 0 {
            hidden_cache.remove(&rm.id);
            proof {
                assert forall|id: Seq<char>| #[trigger] hidden_cache.holds(id) == (had.holds(id)
                    && id != rm.id@) by {
                    let _ = (hidden_cache.lookup(id), had.lookup(id));
                }
                assert(built(*hidden_cache) =~= built(had).remove(rm.id@));
            }
        } else {
            let current = match hidden_cache.get(&rm.id) {
                Some(built_for) => same_texts(built_for, &rm.hidden_parts),
                None => false,
            };
            assert(current == (built(had).contains_key(rm.id@) && built(had)[rm.id@] == hidden));
            if !current {
                if let Some(facts) = mesh_cache.get(&rm.id) {
                    if let Some(joints) = &facts.joints {
                        let without = joints_left_out(&rm.hidden_parts, joints);
                        assert(places(without@).len() == without@.len());
                        if without.len() > 0 {
                            hidden_cache.insert(rm.id.clone(), copy_texts(&rm.hidden_parts));
                            proof {
                                assert(built(*hidden_cache) =~= built(had).insert(rm.id@, hidden));
                            }
                            out.push(Rebuild { mesh: i, without });
                            proof {
                                assert(orders(out@) =~= orders(list).push(
                                    Cut { mesh: i as int, without: places(without@) },
                                ));
                            }
                        }
                    }
                }
            }
        }
        i = i + 1;
    }
    proof {
        assert(meshes_src@.take(i as int) =~= meshes_src@);
    }
    out
}

proof fn variants_settle(
    variants: Map<Seq<char>, Seq<Seq<char>>>,
    mesh_cache: Table<MeshFacts>,
    meshes: Seq<WireRenderMesh>,
    k: int,
)
    requires
        forall|i: int, j: int|
            0 <= i < j < meshes.len() ==> (#[trigger] meshes[i]).id@ != (#[trigger] meshes[j]).id@,
        0 <= k < meshes.len(),
    ensures
        ({
            let after = variants_after(variants, mesh_cache, meshes);
            let before = variants_after(variants, mesh_cache, meshes.take(k));
            let id = meshes[k].id@;
            &&& after.contains_key(id) == variants_with(
                before,
                mesh_cache,
                meshes[k],
            ).contains_key(id)
            &&& after.contains_key(id) ==> after[id] == variants_with(
                before,
                mesh_cache,
                meshes[k],
            )[id]
        }),
    decreases meshes.len(),
{
    let front = meshes.drop_last();
    if k == meshes.len() - 1 {
        assert(meshes.take(k) =~= front);
    } else {
        assert(front.take(k) =~= meshes.take(k));
        assert forall|i: int, j: int| 0 <= i < j < front.len() implies (
        #[trigger] front[i]).id@ != (#[trigger] front[j]).id@ by {
            assert(meshes[i].id@ != meshes[j].id@);
        }
        variants_settle(variants, mesh_cache, front, k);
        assert(meshes[k].id@ != meshes[meshes.len() - 1].id@);
    }
}

proof fn nothing_to_build_in(
    variants: Map<Seq<char>, Seq<Seq<char>>>,
    mesh_cache: Table<MeshFacts>,
    meshes: Seq<WireRenderMesh>,
)
    requires
        forall|i: int|
            0 <= i < meshes.len() ==> to_build(variants, mesh_cache, #[trigger] meshes[i]) is None
                && (meshes[i].hidden_parts@.len() == 0 ==> !variants.contains_key(meshes[i].id@)),
    ensures
        cuts(variants, mesh_cache, meshes).len() == 0,
        variants_after(variants, mesh_cache, meshes) == variants,
    decreases meshes.len(),
{
    if meshes.len() > 0 {
        let front = meshes.drop_last();
        assert forall|i: int| 0 <= i < front.len() implies to_build(
            variants,
            mesh_cache,
            #[trigger] front[i],
        ) is None && (front[i].hidden_parts@.len() == 0 ==> !variants.contains_key(
            front[i].id@,
        )) by {
            assert(front[i] == meshes[i]);
        }
        nothing_to_build_in(variants, mesh_cache, front);
        let last = meshes[meshes.len() - 1];
        if last.hidden_parts@.len() == 0 {
            assert(variants.remove(last.id@) =~= variants);
        }
    }
}

/// A frame that hides what the frame before hid builds nothing. The objects of a
/// world have ids of their own.
pub proof fn a_variant_is_built_once(
    variants: Map<Seq<char>, Seq<Seq<char>>>,
    mesh_cache: Table<MeshFacts>,
    meshes: Seq<WireRenderMesh>,
)
    requires
        forall|i: int, j: int|
            0 <= i < j < meshes.len() ==> (#[trigger] meshes[i]).id@ != (#[trigger] meshes[j]).id@,
    ensures
        ({
            let after = variants_after(variants, mesh_cache, meshes);
            &&& cuts(after, mesh_cache, meshes).len() == 0
            &&& variants_after(after, mesh_cache, meshes) == after
        }),
{
    let after = variants_after(variants, mesh_cache, meshes);
    assert forall|k: int| 0 <= k < meshes.len() implies to_build(
        after,
        mesh_cache,
        #[trigger] meshes[k],
    ) is None && (meshes[k].hidden_parts@.len() == 0 ==> !after.contains_key(meshes[k].id@)) by {
        variants_settle(variants, mesh_cache, meshes, k);
    }
    nothing_to_build_in(after, mesh_cache, meshes);
}

// ---------------------------------------------------------------------------
// Instances
// ---------------------------------------------------------------------------

/// Something that is drawn as a mesh.
#[derive(Clone, Copy, Debug, PartialEq, Eq, Structural)]
pub enum Instance {
    /// One of the world's meshes, with parts left out.
    Variant { mesh: usize },
    /// One of the world's meshes, whole.
    Whole { mesh: usize },
    /// Another player's body.
    Body { player: u64 },
    /// The local player's headless body.
    Headless,
}

/// How one of the world's meshes is drawn, if it can be.
pub open spec fn drawn(
    variants: Map<Seq<char>, Seq<Seq<char>>>,
    mesh_cache: Table<MeshFacts>,
    meshes: Seq<WireRenderMesh>,
    i: int,
) -> Option<Instance> {
    if variants.contains_key(meshes[i].id@) {
        Some(Instance::Variant { mesh: i as usize })
    } else if mesh_cache.holds(meshes[i].id@) {
        Some(Instance::Whole { mesh: i as usize })
    } else {
        None
    }
}

/// The world's meshes in view, as far as they can be drawn.
pub open spec fn drawn_meshes(
    variants: Map<Seq<char>, Seq<Seq<char>>>,
    mesh_cache: Table<MeshFacts>,
    meshes: Seq<WireRenderMesh>,
    distances: Seq<Scalar>,
) -> Seq<Instance>
    decreases distances.len(),
{
    if distances.len() == 0 {
        Seq::empty()
    } else {
        let i = distances.len() - 1;
        let before = drawn_meshes(variants, mesh_cache, meshes, distances.drop_last());
        match drawn(variants, mesh_cache, meshes, i) {
            Some(instance) => if in_view(distances.last()) {
                before.push(instance)
            } else {
                before
            },
            None => before,
        }
    }
}

/// Whether a list holds the other players who have a body, each once.
pub open spec fn others(list: Seq<u64>, avatars: Map<u64, bool>, local_player: u64) -> bool {
    &&& list.no_duplicates()
    &&& forall|id: u64| #[trigger]
        list.contains(id) <==> avatars.contains_key(id) && id != local_player
}

/// The bodies of a list of players.
pub open spec fn bodies_of(list: Seq<u64>) -> Seq<Instance> {
    list.map_values(|id: u64| Instance::Body { player: id })
}

/// The local player's headless body, where there is one.
pub open spec fn headless_body(headless: bool) -> Seq<Instance> {
    if headless {
        seq![Instance::Headless]
    } else {
        Seq::empty()
    }
}

/// Whether instances are all that is drawn as a mesh.
pub open spec fn are_drawn(
    list: Seq<Instance>,
    variants: Map<Seq<char>, Seq<Seq<char>>>,
    mesh_cache: Table<MeshFacts>,
    meshes: Seq<WireRenderMesh>,
    distances: Seq<Scalar>,
    avatars: Map<u64, bool>,
    headless: bool,
    local_player: u64,
) -> bool {
    exists|players: Seq<u64>| #[trigger]
        others(players, avatars, local_player) && list == drawn_meshes(
            variants,
            mesh_cache,
            meshes,
            distances,
        ) + bodies_of(players) + headless_body(headless)
}

/// What is drawn as a mesh: the world's meshes in view, then the other players'
/// bodies in whatever order, then the local player's headless body.
pub fn mesh_instances(
    meshes_src: &[WireRenderMesh],
    distances: &[Scalar],
    mesh_cache: &Table<MeshFacts>,
    hidden_cache: &Table<Vec<String>>,
    avatars: &HashMap<u64, bool>,
    headless: bool,
    local_player: u64,
) -> (r: Vec<Instance>)
    requires
        distances@.len() == meshes_src@.len(),
    ensures
        are_drawn(
            r@,
            built(*hidden_cache),
            *mesh_cache,
            meshes_src@,
            distances@,
            avatars@,
            headless,
            local_player,
        ),
{
    let ghost variants = built(*hidden_cache);
    let mut out: Vec<Instance> = Vec::new();
    let mut i: usize = 0;
    while i < meshes_src.len()
        invariant
            i <= meshes_src@.len(),
            distances@.len() == meshes_src@.len(),
            variants == built(*hidden_cache),
            out@ =~= drawn_meshes(variants, *mesh_cache, meshes_src@, distances@.take(i as int)),
        decreases meshes_src@.len() - i,
    {
        proof {
            assert(distances@.take(i + 1).drop_last() =~= distances@.take(i as int));
        }
        let rm = &meshes_src[i];
        if is_in_view(distances[i]) {
            if hidden_cache.contains_key(&rm.id) {
                out.push(Instance::Variant { mesh: i });
            } else if mesh_cache.contains_key(&rm.id) {
                out.push(Instance::Whole { mesh: i });
            }
        }
        i = i + 1;
    }
    let ghost meshes = out@;
    proof {
        assert(distances@.take(i as int) =~= distances@);
    }
    let players = avatars.iter();
    let ghost all = players.remaining();
    let ghost mut list: Seq<u64> = Seq::empty();
    proof {
        assert(out@ =~= meshes + bodies_of(list));
    }
    for player in it: players
        invariant
            it.seq() == all,
            all.no_duplicates(),
            forall|j: int|
                0 <= j < all.len() ==> avatars@.contains_key(*(#[trigger] all[j]).0)
                    && avatars@[*all[j].0] == *all[j].1,
            out@ == meshes + bodies_of(list),
            list.no_duplicates(),
            forall|id: u64| #[trigger]
                list.contains(id) <==> id != local_player && exists|j: int|
                    0 <= j < it.index() && *(#[trigger] all[j]).0 == id,
    {
        let id = *player.0;
        let ghost n = it.index();
        if id != local_player {
            let ghost had = out@;
            proof {
                if list.contains(id) {
                    let j = choose|j: int| 0 <= j < n && *(#[trigger] all[j]).0 == id;
                    assert(all[j] == all[n as int]);
                }
            }
            out.push(Instance::Body { player: id });
            proof {
                let now = list.push(id);
                assert(bodies_of(now) =~= bodies_of(list).push(Instance::Body { player: id }));
                assert(out@ =~= meshes + bodies_of(now));
                assert forall|k: u64| #[trigger]
                    now.contains(k) <==> k != local_player && exists|j: int|
                        0 <= j < n + 1 && *(#[trigger] all[j]).0 == k by {
                    if now.contains(k) {
                        let p = choose|p: int| 0 <= p < now.len() && now[p] == k;
                        if p < list.len() {
                            assert(list[p] == k);
                            assert(list.contains(k));
                            let j = choose|j: int| 0 <= j < n && *(#[trigger] all[j]).0 == k;
                            assert(*all[j].0 == k);
                        } else {
                            assert(*all[n as int].0 == k);
                        }
                    }
                    if k != local_player && exists|j: int|
                        0 <= j < n + 1 && *(#[trigger] all[j]).0 == k {
                        let j = choose|j: int| 0 <= j < n + 1 && *(#[trigger] all[j]).0 == k;
                        if j < n {
                            assert(list.contains(k));
                            let p = choose|p: int| 0 <= p < list.len() && list[p] == k;
                            assert(now[p] == k);
                        } else {
                            assert(now[list.len() as int] == k);
                        }
                    }
                }
                list = now;
            }
        } else {
            proof {
                assert forall|k: u64| #[trigger]
                    list.contains(k) <==> k != local_player && exists|j: int|
                        0 <= j < n + 1 && *(#[trigger] all[j]).0 == k by {
                    if list.contains(k) {
                        let j = choose|j: int| 0 <= j < n && *(#[trigger] all[j]).0 == k;
                        assert(*all[j].0 == k);
                    }
                    if k != local_player && exists|j: int|
                        0 <= j < n + 1 && *(#[trigger] all[j]).0 == k {
                        let j = choose|j: int| 0 <= j < n + 1 && *(#[trigger] all[j]).0 == k;
                        assert(j < n);
                    }
                }
            }
        }
    }
    proof {
        assert forall|id: u64| #[trigger]
            list.contains(id) <==> avatars@.contains_key(id) && id != local_player by {
            if avatars@.contains_key(id) {
                let entry = (&id, &avatars@[id]);
                assert(all.contains(entry));
                let j = choose|j: int| 0 <= j < all.len() && all[j] == entry;
                assert(*all[j].0 == id);
            }
        }
        assert(others(list, avatars@, local_player));
    }
    if headless {
        out.push(Instance::Headless);
    }
    proof {
        assert(out@ =~= meshes + bodies_of(list) + headless_body(headless));
    }
    out
}

/// What one frame draws, and what has to be done to the meshes before.
#[derive(Debug)]
pub struct RenderLists {
    pub cuboids: Vec<Cuboid>,
    pub lights: Vec<Light>,
    /// Where the world puts the loaded meshes. This comes first.
    pub moves: Vec<MeshMove>,
    /// The meshes in the hands, which follow the hands instead.
    pub left_held: Option<HeldMesh>,
    pub right_held: Option<HeldMesh>,
    /// The variants to build.
    pub rebuilds: Vec<Rebuild>,
    pub instances: Vec<Instance>,
    /// Whether the local player's whole body is drawn, which is seen in the
    /// mirror alone.
    pub mirror_only: bool,
    /// Which cuboid is the mirror.
    pub mirror: Option<usize>,
}

/// What the world has to draw, and how far from the player's head it is.
#[derive(Clone, Copy, Debug)]
pub struct Sources<'a> {
    pub cuboids: &'a [WireRenderCuboid],
    pub cuboid_distances: &'a [Scalar],
    pub lights: &'a [WireRenderLight],
    pub meshes: &'a [WireRenderMesh],
    pub mesh_distances: &'a [Scalar],
}

/// The players' bodies that are there to be drawn.
#[derive(Clone, Copy, Debug)]
pub struct Bodies<'a> {
    pub avatars: &'a HashMap<u64, bool>,
    pub headless: bool,
    pub local_player: u64,
}

/// How the world looks from the player's frame.
#[derive(Debug)]
pub struct Outlook<P, R, D> {
    /// Where a point of the world is.
    pub point: P,
    /// How a rotation of the world is turned.
    pub turn: R,
    /// Where a direction of the world points.
    pub aim: D,
}

/// What one frame draws, and what has to be done to the meshes before: the world
/// moves the loaded ones, those in the hands follow the hands and are posed by
/// their clips, and those that newly hide parts are rebuilt without them.
pub fn build_render_lists<
    P: Fn(Vec3) -> Vec3,
    R: Fn(Quat) -> Quat,
    D: Fn(Vec3) -> Vec3,
    X: Fn(&String, &String) -> Option<usize>,
    E: Fn(u32, Scalar) -> Scalar,
>(
    src: Sources,
    mesh_cache: &Table<MeshFacts>,
    hidden_cache: &mut Table<Vec<String>>,
    bodies: Bodies,
    world: &Option<WireWorld>,
    static_scene: &StaticScene,
    pull_sessions: &PerHand<Option<PullSession>>,
    cs: &ControllerState,
    view: &Outlook<P, R, D>,
    index_of: &X,
    ease: &E,
) -> (r: RenderLists)
    requires
        src.cuboid_distances@.len() == src.cuboids@.len(),
        src.mesh_distances@.len() == src.meshes@.len(),
        old(hidden_cache).distinct(),
        forall|v: Vec3| #[trigger] call_requires(view.point, (v,)),
        forall|q: Quat| #[trigger] call_requires(view.turn, (q,)),
        forall|v: Vec3| #[trigger] call_requires(view.aim, (v,)),
        forall|id: &String, clip: &String| #[trigger] call_requires(*index_of, (id, clip)),
        forall|e: u32, raw: Scalar| #[trigger] call_requires(*ease, (e, raw)),
    ensures
        are_shown(r.cuboids@, src.cuboids@, src.cuboid_distances@, view.point, view.turn),
        all_shine(r.lights@, src.lights@, view.point, view.aim),
        are_moved(r.moves@, src.meshes@, *mesh_cache, view.point, view.turn),
        is_held(
            r.left_held,
            in_hand(*world, *mesh_cache, *static_scene, Hand::Left),
            Hand::Left,
            *cs,
            src.meshes@,
            *pull_sessions,
            *index_of,
            *ease,
        ),
        is_held(
            r.right_held,
            in_hand(*world, *mesh_cache, *static_scene, Hand::Right),
            Hand::Right,
            *cs,
            src.meshes@,
            *pull_sessions,
            *index_of,
            *ease,
        ),
        final(hidden_cache).distinct(),
        orders(r.rebuilds@) == cuts(built(*old(hidden_cache)), *mesh_cache, src.meshes@),
        built(*final(hidden_cache)) == variants_after(
            built(*old(hidden_cache)),
            *mesh_cache,
            src.meshes@,
        ),
        are_drawn(
            r.instances@,
            built(*final(hidden_cache)),
            *mesh_cache,
            src.meshes@,
            src.mesh_distances@,
            bodies.avatars@,
            bodies.headless,
            bodies.local_player,
        ),
        r.mirror_only == bodies.avatars@.contains_key(bodies.local_player),
        match r.mirror {
            Some(i) => mirror_of(src.cuboids@) == Some(i as int) && i < src.cuboids@.len(),
            None => mirror_of(src.cuboids@) is None,
        },
{
    let cuboids = visible_cuboids(src.cuboids, src.cuboid_distances, &view.point, &view.turn);
    let lights = all_lights(src.lights, &view.point, &view.aim);
    let moves = mesh_moves(src.meshes, mesh_cache, &view.point, &view.turn);
    let left_held = held_mesh(
        world,
        src.meshes,
        mesh_cache,
        static_scene,
        pull_sessions,
        cs,
        Hand::Left,
        index_of,
        ease,
    );
    let right_held = held_mesh(
        world,
        src.meshes,
        mesh_cache,
        static_scene,
        pull_sessions,
        cs,
        Hand::Right,
        index_of,
        ease,
    );
    let rebuilds = refresh_variants(src.meshes, mesh_cache, hidden_cache);
    let instances = mesh_instances(
        src.meshes,
        src.mesh_distances,
        mesh_cache,
        hidden_cache,
        bodies.avatars,
        bodies.headless,
        bodies.local_player,
    );
    RenderLists {
        cuboids,
        lights,
        moves,
        left_held,
        right_held,
        rebuilds,
        instances,
        mirror_only: bodies.avatars.contains_key(&bodies.local_player),
        mirror: find_mirror(src.cuboids),
    }
}

} // verus!
