//! What the lists of a frame come to, seen from the world that they show.

use vstd::prelude::*;

use crate::convert::{glows, Beam, Color3, Cuboid, CuboidPaint, Light};
use crate::engine::{
    place, place_is_first, texts, ControllerState, Hand, PartAnimationDef, PerHand, Transform,
};
use crate::grab_detect::StaticScene;
use crate::hands::{blends_each_part, parts_are_blended_as_they_are_driven, said_to_hold};
use crate::part_pull::{blend_sources, eased_from, manual_of, PullSession};
use crate::protocol::{
    WireColor3, WireRenderCuboid, WireRenderLaser, WireRenderLight, WireRenderMesh, WireWorld,
};
use crate::render_prep::{
    all_shine, are_drawn, are_moved, are_shown, bodies_of, cuts, drawn_meshes,
    exactly_what_is_in_view_is_drawn, headless_body, in_hand, indexed, is_held, last_place,
    left_out, loaded_ones, mirror_of, near, others, poses, says_where, targets, to_build,
    variants_after, variants_with, BlendTarget, HeldMesh, Instance, MeshFacts, MeshMove,
};
use crate::scalar::{Quat, Scalar, Vec3};
use crate::table::{position_is_first, Table};

verus! {

/// Whether something is nearer than forty metres.
pub open spec fn is_near(distance: Scalar) -> bool {
    distance.below(Scalar { bits: 0x4220_0000 })
}

/// Whether a colour kept its four parts.
pub open spec fn same_colour(c: Color3, wire: WireColor3) -> bool {
    c.0 == wire.0 && c.1 == wire.1 && c.2 == wire.2 && c.3 == wire.3
}

/// Whether a cuboid looks as the server describes it: where `point` and `turn` put
/// it, as large, in the colours that its style shows, and with its own light map.
pub open spec fn looks_like<P: Fn(Vec3) -> Vec3, R: Fn(Quat) -> Quat>(
    c: Cuboid,
    rc: WireRenderCuboid,
    point: P,
    turn: R,
) -> bool {
    &&& call_ensures(point, (rc.position,), c.position)
    &&& call_ensures(turn, (rc.rotation,), c.rotation)
    &&& c.half_size == rc.half_size
    &&& match c.paint {
        CuboidPaint::Solid { color } => rc.style is Solid && same_colour(color, rc.color),
        CuboidPaint::Wireframe { wire_color } => rc.style is Wireframe && same_colour(
            wire_color,
            rc.wire_color,
        ),
        CuboidPaint::SolidAndWire { color, wire_color } => rc.style is SolidAndWire && same_colour(
            color,
            rc.color,
        ) && same_colour(wire_color, rc.wire_color),
    }
    &&& c.lightmap_key matches Some(key) && key@ == rc.id@
    &&& c.reflectivity == if rc.reflectivity.below(Scalar { bits: 0 }) {
        Scalar { bits: 0 }
    } else if (Scalar { bits: 0x3f80_0000 }).below(rc.reflectivity) {
        Scalar { bits: 0x3f80_0000 }
    } else {
        rc.reflectivity
    }
    &&& c.shape is Box <==> rc.shape is Box
    &&& c.shape is Cylinder <==> rc.shape is Cylinder
}

/// Whether numbers go up.
pub open spec fn goes_up(list: Seq<int>) -> bool {
    forall|j: int, k: int| 0 <= j < k < list.len() ==> #[trigger] list[j] < #[trigger] list[k]
}

/// Every cuboid nearer than forty metres is drawn once, looking as the server
/// describes it, in the order of the world, and nothing else is.
pub proof fn what_is_near_is_drawn_as_described<P: Fn(Vec3) -> Vec3, R: Fn(Quat) -> Quat>(
    shown: Seq<Cuboid>,
    cuboids: Seq<WireRenderCuboid>,
    distances: Seq<Scalar>,
    point: P,
    turn: R,
) -> (from: Seq<int>)
    requires
        are_shown(shown, cuboids, distances, point, turn),
        distances.len() == cuboids.len(),
    ensures
        from.len() == shown.len(),
        goes_up(from),
        forall|i: int| #[trigger]
            from.contains(i) <==> 0 <= i < cuboids.len() && is_near(distances[i]),
        forall|k: int|
            0 <= k < shown.len() ==> looks_like(
                #[trigger] shown[k],
                cuboids[from[k]],
                point,
                turn,
            ),
{
    exactly_what_is_in_view_is_drawn(distances);
    near(distances)
}

/// Every light shines once, where and whither `point` and `aim` put it, in its own
/// colour, as bright, as far and as wide as the server says, however far it is.
pub proof fn every_light_shines_as_described<P: Fn(Vec3) -> Vec3, D: Fn(Vec3) -> Vec3>(
    shown: Seq<Light>,
    lights: Seq<WireRenderLight>,
    point: P,
    aim: D,
    k: int,
)
    requires
        all_shine(shown, lights, point, aim),
        0 <= k < lights.len(),
    ensures
        shown.len() == lights.len(),
        call_ensures(point, (lights[k].position,), shown[k].position),
        call_ensures(aim, (lights[k].direction,), shown[k].direction),
        shown[k].kind is Point <==> lights[k].kind is Point,
        shown[k].kind is Spot <==> lights[k].kind is Spot,
        same_colour(shown[k].color, lights[k].color),
        shown[k].intensity == lights[k].intensity,
        shown[k].range == lights[k].range,
        shown[k].cone_angle_deg == lights[k].cone_angle_deg,
{
    let _ = shown[k];
}

/// Whether a mesh is loaded.
pub open spec fn is_loaded(mesh_cache: Table<MeshFacts>, id: Seq<char>) -> bool {
    exists|e: int|
        0 <= e < mesh_cache.entries@.len() && (#[trigger] mesh_cache.entries@[e]).0@ == id
}

proof fn loaded_is_held(mesh_cache: Table<MeshFacts>, id: Seq<char>)
    ensures
        mesh_cache.holds(id) == is_loaded(mesh_cache, id),
{
    position_is_first(mesh_cache.entries@, id);
}

proof fn loaded_ones_are_listed(meshes: Seq<WireRenderMesh>, mesh_cache: Table<MeshFacts>)
    ensures
        goes_up(loaded_ones(meshes, mesh_cache)),
        forall|i: int| #[trigger]
            loaded_ones(meshes, mesh_cache).contains(i) <==> 0 <= i < meshes.len() && is_loaded(
                mesh_cache,
                meshes[i].id@,
            ),
    decreases meshes.len(),
{
    if meshes.len() > 0 {
        let front = meshes.drop_last();
        let before = loaded_ones(front, mesh_cache);
        let now = loaded_ones(meshes, mesh_cache);
        loaded_ones_are_listed(front, mesh_cache);
        loaded_is_held(mesh_cache, meshes.last().id@);
        assert forall|i: int| #[trigger]
            now.contains(i) <==> 0 <= i < meshes.len() && is_loaded(mesh_cache, meshes[i].id@) by {
            assert(before.contains(i) <==> 0 <= i < front.len() && is_loaded(
                mesh_cache,
                front[i].id@,
            ));
            if before.contains(i) {
                let p = choose|p: int| 0 <= p < before.len() && before[p] == i;
                assert(now[p] == i);
            }
            if now.contains(i) {
                let p = choose|p: int| 0 <= p < now.len() && now[p] == i;
                if p < before.len() {
                    assert(before[p] == i);
                }
            }
            if i == meshes.len() - 1 && is_loaded(mesh_cache, meshes[i].id@) {
                assert(now[before.len() as int] == i);
            }
        }
        assert forall|j: int, k: int| 0 <= j < k < now.len() implies #[trigger] now[j]
            < #[trigger] now[k] by {
            assert(before.contains(before[j]));
        }
    }
}

/// Every loaded mesh is moved once, in the order of the world: its position is one
/// that `point` gave for its own, its rotation one that `turn` gave for its own,
/// and its scale is as the server says.
pub proof fn every_loaded_mesh_is_put_in_its_place<P: Fn(Vec3) -> Vec3, R: Fn(Quat) -> Quat>(
    list: Seq<MeshMove>,
    meshes: Seq<WireRenderMesh>,
    mesh_cache: Table<MeshFacts>,
    point: P,
    turn: R,
) -> (from: Seq<int>)
    requires
        are_moved(list, meshes, mesh_cache, point, turn),
    ensures
        from.len() == list.len(),
        goes_up(from),
        forall|i: int| #[trigger]
            from.contains(i) <==> 0 <= i < meshes.len() && is_loaded(mesh_cache, meshes[i].id@),
        forall|k: int|
            0 <= k < list.len() ==> {
                &&& (#[trigger] list[k]).mesh == from[k]
                &&& call_ensures(point, (meshes[from[k]].position,), list[k].position)
                &&& call_ensures(turn, (meshes[from[k]].rotation,), list[k].rotation)
                &&& list[k].scale == meshes[from[k]].scale
            },
{
    loaded_ones_are_listed(meshes, mesh_cache);
    loaded_ones(meshes, mesh_cache)
}

/// A loaded mesh and a cuboid in view that stand alike in the world stand alike in
/// the player's frame, where `point` and `turn` each have one answer for one
/// question: neither is moved or turned without the other.
pub proof fn meshes_and_cuboids_keep_together<P: Fn(Vec3) -> Vec3, R: Fn(Quat) -> Quat>(
    shown: Seq<Cuboid>,
    cuboids: Seq<WireRenderCuboid>,
    distances: Seq<Scalar>,
    list: Seq<MeshMove>,
    meshes: Seq<WireRenderMesh>,
    mesh_cache: Table<MeshFacts>,
    point: P,
    turn: R,
    i: int,
    j: int,
) -> (at: (int, int))
    requires
        are_shown(shown, cuboids, distances, point, turn),
        are_moved(list, meshes, mesh_cache, point, turn),
        distances.len() == cuboids.len(),
        forall|v: Vec3, a: Vec3, b: Vec3| #[trigger]
            call_ensures(point, (v,), a) && #[trigger] call_ensures(point, (v,), b) ==> a == b,
        forall|q: Quat, a: Quat, b: Quat| #[trigger]
            call_ensures(turn, (q,), a) && #[trigger] call_ensures(turn, (q,), b) ==> a == b,
        0 <= i < meshes.len(),
        is_loaded(mesh_cache, meshes[i].id@),
        0 <= j < cuboids.len(),
        is_near(distances[j]),
        meshes[i].position == cuboids[j].position,
        meshes[i].rotation == cuboids[j].rotation,
    ensures
        0 <= at.0 < list.len(),
        list[at.0].mesh == i,
        0 <= at.1 < shown.len(),
        looks_like(shown[at.1], cuboids[j], point, turn),
        list[at.0].position == shown[at.1].position,
        list[at.0].rotation == shown[at.1].rotation,
{
    let movers = every_loaded_mesh_is_put_in_its_place(list, meshes, mesh_cache, point, turn);
    let boxes = what_is_near_is_drawn_as_described(shown, cuboids, distances, point, turn);
    assert(movers.contains(i));
    assert(boxes.contains(j));
    let k = choose|k: int| 0 <= k < movers.len() && movers[k] == i;
    let l = choose|l: int| 0 <= l < boxes.len() && boxes[l] == j;
    assert(list[k].mesh == i);
    assert(looks_like(shown[l], cuboids[j], point, turn));
    (k, l)
}

/// The mirror is the first cuboid that is called so, wherever it is.
pub proof fn the_mirror_is_the_first_so_called(cuboids: Seq<WireRenderCuboid>)
    ensures
        match mirror_of(cuboids) {
            Some(i) => 0 <= i < cuboids.len() && cuboids[i].id@ == "mirror"@ && forall|k: int|
                0 <= k < i ==> (#[trigger] cuboids[k]).id@ != "mirror"@,
            None => forall|k: int| 0 <= k < cuboids.len() ==> (#[trigger] cuboids[k]).id@
                != "mirror"@,
        },
    decreases cuboids.len(),
{
    if cuboids.len() > 0 {
        let front = cuboids.drop_last();
        the_mirror_is_the_first_so_called(front);
        assert(forall|k: int| 0 <= k < front.len() ==> front[k] == #[trigger] cuboids[k]);
    }
}

proof fn drawn_meshes_are_listed(
    variants: Map<Seq<char>, Seq<Seq<char>>>,
    mesh_cache: Table<MeshFacts>,
    meshes: Seq<WireRenderMesh>,
    distances: Seq<Scalar>,
)
    requires
        distances.len() <= meshes.len() <= usize::MAX,
    ensures
        forall|k: int|
            0 <= k < drawn_meshes(variants, mesh_cache, meshes, distances).len() ==> match (
            #[trigger] drawn_meshes(variants, mesh_cache, meshes, distances)[k]) {
                Instance::Variant { mesh } => mesh < distances.len() && is_near(
                    distances[mesh as int],
                ) && variants.contains_key(meshes[mesh as int].id@),
                Instance::Whole { mesh } => mesh < distances.len() && is_near(
                    distances[mesh as int],
                ) && !variants.contains_key(meshes[mesh as int].id@) && is_loaded(
                    mesh_cache,
                    meshes[mesh as int].id@,
                ),
                _ => false,
            },
        drawn_meshes(variants, mesh_cache, meshes, distances).no_duplicates(),
        forall|i: usize|
            i < distances.len() && is_near(distances[i as int]) && variants.contains_key(
                meshes[i as int].id@,
            ) ==> #[trigger] drawn_meshes(variants, mesh_cache, meshes, distances).contains(
                Instance::Variant { mesh: i },
            ),
        forall|i: usize|
            i < distances.len() && is_near(distances[i as int]) && !variants.contains_key(
                meshes[i as int].id@,
            ) && is_loaded(mesh_cache, meshes[i as int].id@) ==> #[trigger] drawn_meshes(
                variants,
                mesh_cache,
                meshes,
                distances,
            ).contains(Instance::Whole { mesh: i }),
    decreases distances.len(),
{
    if distances.len() > 0 {
        let front = distances.drop_last();
        let before = drawn_meshes(variants, mesh_cache, meshes, front);
        let now = drawn_meshes(variants, mesh_cache, meshes, distances);
        let last = distances.len() - 1;
        drawn_meshes_are_listed(variants, mesh_cache, meshes, front);
        loaded_is_held(mesh_cache, meshes[last].id@);
        assert(forall|k: int| 0 <= k < before.len() ==> now[k] == #[trigger] before[k]);
        assert forall|i: usize|
            i < distances.len() && is_near(distances[i as int]) && variants.contains_key(
                meshes[i as int].id@,
            ) implies #[trigger] now.contains(Instance::Variant { mesh: i }) by {
            let a = Instance::Variant { mesh: i };
            if i < last {
                assert(front[i as int] == distances[i as int]);
                assert(before.contains(a));
                let k = choose|k: int| 0 <= k < before.len() && before[k] == a;
                assert(now[k] == a);
            } else {
                assert(now[before.len() as int] == a);
            }
        }
        assert forall|i: usize|
            i < distances.len() && is_near(distances[i as int]) && !variants.contains_key(
                meshes[i as int].id@,
            ) && is_loaded(mesh_cache, meshes[i as int].id@) implies #[trigger] now.contains(
            Instance::Whole { mesh: i },
        ) by {
            let a = Instance::Whole { mesh: i };
            if i < last {
                assert(front[i as int] == distances[i as int]);
                assert(before.contains(a));
                let k = choose|k: int| 0 <= k < before.len() && before[k] == a;
                assert(now[k] == a);
            } else {
                assert(now[before.len() as int] == a);
            }
        }
    }
}

/// What is drawn as a mesh is this, each once: a mesh of the world nearer than
/// forty metres, with parts left out where a variant of it was built, and else
/// whole where it is loaded; the body of every player who has one but the local
/// player; and the local player's headless body, where there is one.
pub proof fn everything_to_be_seen_is_drawn_once(
    list: Seq<Instance>,
    variants: Map<Seq<char>, Seq<Seq<char>>>,
    mesh_cache: Table<MeshFacts>,
    meshes: Seq<WireRenderMesh>,
    distances: Seq<Scalar>,
    avatars: Map<u64, bool>,
    headless: bool,
    local_player: u64,
)
    requires
        are_drawn(
            list,
            variants,
            mesh_cache,
            meshes,
            distances,
            avatars,
            headless,
            local_player,
        ),
        distances.len() == meshes.len() <= usize::MAX,
    ensures
        forall|what: Instance| #[trigger]
            list.contains(what) <==> match what {
                Instance::Variant { mesh } => mesh < meshes.len() && is_near(
                    distances[mesh as int],
                ) && variants.contains_key(meshes[mesh as int].id@),
                Instance::Whole { mesh } => mesh < meshes.len() && is_near(distances[mesh as int])
                    && !variants.contains_key(meshes[mesh as int].id@) && is_loaded(
                    mesh_cache,
                    meshes[mesh as int].id@,
                ),
                Instance::Body { player } => player != local_player && avatars.contains_key(player),
                Instance::Headless => headless,
            },
        list.no_duplicates(),
{
    let players = choose|players: Seq<u64>| #[trigger]
        others(players, avatars, local_player) && list == drawn_meshes(
            variants,
            mesh_cache,
            meshes,
            distances,
        ) + bodies_of(players) + headless_body(headless);
    let first = drawn_meshes(variants, mesh_cache, meshes, distances);
    let last = headless_body(headless);
    let a = first.len() as int;
    let b = a + players.len();
    drawn_meshes_are_listed(variants, mesh_cache, meshes, distances);
    assert(forall|k: int| 0 <= k < a ==> list[k] == #[trigger] first[k]);
    assert(forall|k: int|
        0 <= k < players.len() ==> list[a + k] == Instance::Body { player: #[trigger] players[k] });
    assert forall|k: int| a <= k < b implies (#[trigger] list[k]) == (Instance::Body {
        player: players[k - a],
    }) by {}
    assert(list.len() == b + last.len());
    assert(headless ==> list[b] == Instance::Headless);
    assert forall|what: Instance| #[trigger]
        list.contains(what) <==> (match what {
            Instance::Variant { mesh } => mesh < meshes.len() && is_near(distances[mesh as int])
                && variants.contains_key(meshes[mesh as int].id@),
            Instance::Whole { mesh } => mesh < meshes.len() && is_near(distances[mesh as int])
                && !variants.contains_key(meshes[mesh as int].id@) && is_loaded(
                mesh_cache,
                meshes[mesh as int].id@,
            ),
            Instance::Body { player } => player != local_player && avatars.contains_key(player),
            Instance::Headless => headless,
        }) by {
        if list.contains(what) {
            let k = choose|k: int| 0 <= k < list.len() && list[k] == what;
            if k < a {
                assert(first[k] == what);
            } else if k < b {
                assert(players.contains(players[k - a]));
            }
        }
        match what {
            Instance::Variant { mesh } => {
                if first.contains(what) {
                    let k = choose|k: int| 0 <= k < first.len() && first[k] == what;
                    assert(list[k] == what);
                }
            },
            Instance::Whole { mesh } => {
                if first.contains(what) {
                    let k = choose|k: int| 0 <= k < first.len() && first[k] == what;
                    assert(list[k] == what);
                }
            },
            Instance::Body { player } => {
                if players.contains(player) {
                    let k = choose|k: int| 0 <= k < players.len() && players[k] == player;
                    assert(list[a + k] == what);
                }
            },
            Instance::Headless => {},
        }
    }
    assert forall|j: int, k: int|
        0 <= j < list.len() && 0 <= k < list.len() && j != k implies list[j] != list[k] by {
        if j < a && k < a {
            assert(first[j] != first[k]);
        }
        if j < a {
            let _ = first[j];
        }
        if k < a {
            let _ = first[k];
        }
    }
}

/// Whether the clips of a posed mesh are those of its parts that the mesh has, in
/// the order of the parts, each with its part's mode and blend.
pub open spec fn are_clips_of(
    clips: Seq<BlendTarget>,
    parts: Seq<PartAnimationDef>,
    indices: Seq<Option<usize>>,
    blends: Table<Scalar>,
) -> bool {
    exists|from: Seq<int>|
        {
            &&& from.len() == clips.len()
            &&& #[trigger] goes_up(from)
            &&& forall|i: int| #[trigger]
                from.contains(i) <==> 0 <= i < parts.len() && indices[i] is Some
            &&& forall|k: int|
                0 <= k < clips.len() ==> {
                    &&& indices[from[k]] == Some((#[trigger] clips[k]).clip)
                    &&& clips[k].mode == parts[from[k]].blend_mode
                    &&& blends.lookup(parts[from[k]].clip@) is Some ==> clips[k].blend
                        == blends.lookup(parts[from[k]].clip@)->0
                }
        }
}

proof fn targets_are_clips(
    parts: Seq<PartAnimationDef>,
    indices: Seq<Option<usize>>,
    blends: Table<Scalar>,
) -> (from: Seq<int>)
    requires
        indices.len() == parts.len(),
    ensures
        from.len() == targets(parts, indices, blends).len(),
        goes_up(from),
        forall|i: int| #[trigger]
            from.contains(i) <==> 0 <= i < parts.len() && indices[i] is Some,
        forall|k: int|
            0 <= k < from.len() ==> {
                &&& indices[#[trigger] from[k]] == Some(targets(parts, indices, blends)[k].clip)
                &&& targets(parts, indices, blends)[k].mode == parts[from[k]].blend_mode
                &&& blends.lookup(parts[from[k]].clip@) is Some ==> targets(
                    parts,
                    indices,
                    blends,
                )[k].blend == blends.lookup(parts[from[k]].clip@)->0
            },
    decreases parts.len(),
{
    if parts.len() == 0 {
        Seq::empty()
    } else {
        let had = targets_are_clips(parts.drop_last(), indices.drop_last(), blends);
        let last = parts.len() - 1;
        let now = if indices[last] is Some {
            had.push(last)
        } else {
            had
        };
        let fewer = indices.drop_last();
        assert forall|i: int| #[trigger]
            now.contains(i) <==> 0 <= i < parts.len() && indices[i] is Some by {
            assert(had.contains(i) <==> 0 <= i < last && fewer[i] is Some);
            if had.contains(i) {
                let p = choose|p: int| 0 <= p < had.len() && had[p] == i;
                assert(now[p] == i);
            }
            if now.contains(i) {
                let p = choose|p: int| 0 <= p < now.len() && now[p] == i;
                if p < had.len() {
                    assert(had[p] == i);
                }
            }
            if i == last && indices[i] is Some {
                assert(now[had.len() as int] == i);
            }
        }
        assert forall|j: int, k: int| 0 <= j < k < now.len() implies #[trigger] now[j]
            < #[trigger] now[k] by {
            assert(had.contains(had[j]));
        }
        assert forall|k: int| 0 <= k < now.len() implies {
            &&& indices[#[trigger] now[k]] == Some(targets(parts, indices, blends)[k].clip)
            &&& targets(parts, indices, blends)[k].mode == parts[now[k]].blend_mode
            &&& blends.lookup(parts[now[k]].clip@) is Some ==> targets(
                parts,
                indices,
                blends,
            )[k].blend == blends.lookup(parts[now[k]].clip@)->0
        } by {
            if k < had.len() {
                assert(had.contains(had[k]));
                assert(had[k] == now[k]);
            }
        }
        now
    }
}

/// Whether clips pose a mesh that a hand holds as the hand drives its parts: they
/// are where `index_of` finds the parts' clips, at the blends of the parts.
pub open spec fn is_posed<
    X: Fn(&String, &String) -> Option<usize>,
    E: Fn(u32, Scalar) -> Scalar,
>(
    clips: Seq<BlendTarget>,
    object_id: String,
    parts: Seq<PartAnimationDef>,
    hand: Hand,
    cs: ControllerState,
    meshes: Seq<WireRenderMesh>,
    sessions: PerHand<Option<PullSession>>,
    index_of: X,
    ease: E,
) -> bool {
    exists|indices: Seq<Option<usize>>, blends: Table<Scalar>|
        {
            &&& #[trigger] are_clips_of(clips, parts, indices, blends)
            &&& indices.len() == parts.len()
            &&& forall|i: int|
                0 <= i < parts.len() ==> call_ensures(
                    index_of,
                    (&object_id, &parts[i].clip),
                    #[trigger] indices[i],
                )
            &&& blends_each_part(
                blends,
                parts,
                object_id@,
                hand,
                cs,
                sessions,
                meshes,
                ease,
            )
        }
}

proof fn poses_are_driven<
    X: Fn(&String, &String) -> Option<usize>,
    E: Fn(u32, Scalar) -> Scalar,
>(
    clips: Seq<BlendTarget>,
    object_id: String,
    parts: Seq<PartAnimationDef>,
    hand: Hand,
    cs: ControllerState,
    meshes: Seq<WireRenderMesh>,
    sessions: PerHand<Option<PullSession>>,
    index_of: X,
    ease: E,
)
    requires
        poses(clips, object_id, parts, hand, cs, meshes, sessions, index_of, ease),
    ensures
        is_posed(clips, object_id, parts, hand, cs, meshes, sessions, index_of, ease),
{
    let (indices, blends) = choose|indices: Seq<Option<usize>>, blends: Table<Scalar>|
        #![trigger targets(parts, indices, blends)]
        indexed(indices, object_id, parts, index_of) && eased_from(
            blend_sources(
                object_id@,
                parts,
                hand,
                cs,
                sessions,
                manual_of(meshes, object_id@),
            ),
            ease,
            blends,
        ) && clips == targets(parts, indices, blends);
    parts_are_blended_as_they_are_driven(
        blends,
        parts,
        object_id@,
        hand,
        cs,
        sessions,
        meshes,
        ease,
    );
    targets_have_clips(clips, parts, indices, blends);
}

proof fn targets_have_clips(
    clips: Seq<BlendTarget>,
    parts: Seq<PartAnimationDef>,
    indices: Seq<Option<usize>>,
    blends: Table<Scalar>,
)
    requires
        indices.len() == parts.len(),
        clips == targets(parts, indices, blends),
    ensures
        are_clips_of(clips, parts, indices, blends),
{
    let from = targets_are_clips(parts, indices, blends);
    assert(goes_up(from));
    assert forall|k: int| 0 <= k < clips.len() implies {
        &&& indices[from[k]] == Some((#[trigger] clips[k]).clip)
        &&& clips[k].mode == parts[from[k]].blend_mode
        &&& blends.lookup(parts[from[k]].clip@) is Some ==> clips[k].blend == blends.lookup(
            parts[from[k]].clip@,
        )->0
    } by {
        let _ = from[k];
    }
}

/// A loaded mesh that the server says is in a hand follows that hand, and no other
/// mesh does. Where the scene animates it and it has a skin, it is posed by the
/// clips of its parts that it has, at the blends to which this hand drives them;
/// else by none.
pub proof fn what_is_held_is_posed_as_it_is_driven<
    X: Fn(&String, &String) -> Option<usize>,
    E: Fn(u32, Scalar) -> Scalar,
>(
    r: Option<HeldMesh>,
    world: Option<WireWorld>,
    mesh_cache: Table<MeshFacts>,
    scene: StaticScene,
    hand: Hand,
    cs: ControllerState,
    meshes: Seq<WireRenderMesh>,
    sessions: PerHand<Option<PullSession>>,
    index_of: X,
    ease: E,
)
    requires
        is_held(
            r,
            in_hand(world, mesh_cache, scene, hand),
            hand,
            cs,
            meshes,
            sessions,
            index_of,
            ease,
        ),
    ensures
        r is Some <==> (said_to_hold(world, hand) matches Some(h) && is_loaded(
            mesh_cache,
            h.object_id@,
        )),
        r matches Some(m) ==> {
            let id = m.object_id@;
            let facts = mesh_cache.lookup(id)->0;
            &&& id == said_to_hold(world, hand)->0.object_id@
            &&& match scene.part_animations.lookup(id) {
                Some(parts) => if facts.joints is Some {
                    is_posed(
                        m.targets@,
                        m.object_id,
                        parts@,
                        hand,
                        cs,
                        meshes,
                        sessions,
                        index_of,
                        ease,
                    )
                } else {
                    m.targets@.len() == 0
                },
                None => m.targets@.len() == 0,
            }
        },
{
    if let Some(h) = said_to_hold(world, hand) {
        loaded_is_held(mesh_cache, h.object_id@);
        if let Some(m) = r {
            if let Some(parts) = scene.part_animations.lookup(m.object_id@) {
                if mesh_cache.lookup(m.object_id@)->0.joints is Some {
                    assert(poses(
                        m.targets@,
                        m.object_id,
                        parts@,
                        hand,
                        cs,
                        meshes,
                        sessions,
                        index_of,
                        ease,
                    ));
                    poses_are_driven(
                        m.targets@,
                        m.object_id,
                        parts@,
                        hand,
                        cs,
                        meshes,
                        sessions,
                        index_of,
                        ease,
                    );
                }
            }
        }
    }
}

/// Where a part of a posed mesh is said to be is where its joint was posed: the
/// last joint of that name. What is no joint's name is said to be nowhere.
pub proof fn a_part_is_where_its_joint_is(
    t: Table<Transform>,
    joints: Seq<Seq<char>>,
    posed: Seq<Transform>,
    name: Seq<char>,
)
    requires
        says_where(t, joints, posed),
    ensures
        forall|i: int|
            0 <= i < joints.len() && #[trigger] joints[i] == name && (forall|k: int|
                i < k < joints.len() ==> #[trigger] joints[k] != name) ==> t.lookup(name) == Some(
                posed[i],
            ),
        !joints.contains(name) ==> t.lookup(name) is None,
{
    last_place_is_last(joints, name);
    let _ = t.lookup(name);
    if let Some(at) = last_place(joints, name) {
        assert forall|i: int|
            0 <= i < joints.len() && #[trigger] joints[i] == name && (forall|k: int|
                i < k < joints.len() ==> #[trigger] joints[k] != name) implies t.lookup(name)
            == Some(posed[i]) by {
            if i < at {
                assert(joints[at] != name);
            }
            if at < i {
                assert(joints[i] != name);
            }
        }
    }
}

proof fn last_place_is_last(names: Seq<Seq<char>>, name: Seq<char>)
    ensures
        match last_place(names, name) {
            Some(i) => 0 <= i < names.len() && names[i] == name && forall|k: int|
                i < k < names.len() ==> #[trigger] names[k] != name,
            None => forall|k: int| 0 <= k < names.len() ==> #[trigger] names[k] != name,
        },
    decreases names.len(),
{
    if names.len() > 0 {
        let front = names.drop_last();
        last_place_is_last(front, name);
        assert(forall|k: int| 0 <= k < front.len() ==> front[k] == #[trigger] names[k]);
    }
}

/// The joints that are left out are those that the hidden parts name, and no other
/// joints are: of two joints with one name the first.
pub proof fn what_is_hidden_is_left_out(hidden: Seq<Seq<char>>, joints: Seq<Seq<char>>)
    ensures
        forall|j: int| #[trigger]
            left_out(hidden, joints).contains(j) <==> 0 <= j < joints.len() && hidden.contains(
                joints[j],
            ) && (forall|k: int| 0 <= k < j ==> #[trigger] joints[k] != joints[j]),
        left_out(hidden, joints).len() > 0 <==> exists|h: int|
            0 <= h < hidden.len() && joints.contains(#[trigger] hidden[h]),
    decreases hidden.len(),
{
    let now = left_out(hidden, joints);
    if hidden.len() > 0 {
        let front = hidden.drop_last();
        let before = left_out(front, joints);
        let last = hidden.last();
        what_is_hidden_is_left_out(front, joints);
        place_is_first(joints, last);
        assert forall|j: int| #[trigger]
            now.contains(j) <==> 0 <= j < joints.len() && hidden.contains(joints[j]) && (forall|
                k: int,
            |
                0 <= k < j ==> #[trigger] joints[k] != joints[j]) by {
            let _ = before.contains(j);
            if before.contains(j) {
                let p = choose|p: int| 0 <= p < before.len() && before[p] == j;
                assert(now[p] == j);
                let h = choose|h: int| 0 <= h < front.len() && front[h] == joints[j];
                assert(hidden[h] == joints[j]);
            }
            if now.contains(j) {
                let p = choose|p: int| 0 <= p < now.len() && now[p] == j;
                if p < before.len() {
                    assert(before[p] == j);
                } else {
                    assert(hidden[hidden.len() - 1] == joints[j]);
                }
            }
            if 0 <= j < joints.len() && hidden.contains(joints[j]) && (forall|k: int|
                0 <= k < j ==> #[trigger] joints[k] != joints[j]) {
                let h = choose|h: int| 0 <= h < hidden.len() && hidden[h] == joints[j];
                if h < front.len() {
                    assert(front[h] == joints[j]);
                    assert(before.contains(j));
                } else {
                    let at = place(joints, last)->0;
                    assert(joints[at] == last);
                    assert(at == j);
                    assert(now[before.len() as int] == j);
                }
            }
        }
        if now.len() > 0 {
            if before.len() > 0 {
                let h = choose|h: int| 0 <= h < front.len() && joints.contains(#[trigger] front[h]);
                assert(joints.contains(hidden[h]));
            } else {
                assert(joints.contains(hidden[hidden.len() - 1]));
            }
        }
        if exists|h: int| 0 <= h < hidden.len() && joints.contains(#[trigger] hidden[h]) {
            let h = choose|h: int| 0 <= h < hidden.len() && joints.contains(#[trigger] hidden[h]);
            if h < front.len() {
                assert(joints.contains(front[h]));
            } else {
                let k = choose|k: int| 0 <= k < joints.len() && joints[k] == last;
                assert(joints[k] == last);
            }
        }
    } else {
        assert(now.len() == 0);
    }
}

/// Whether a mesh can be drawn without what it hides: it is loaded, and one of its
/// joints has the name of a part that it hides.
pub open spec fn can_hide(mesh_cache: Table<MeshFacts>, rm: WireRenderMesh) -> bool {
    mesh_cache.lookup(rm.id@) matches Some(facts) && facts.joints matches Some(joints) && exists|
        h: int,
    |
        0 <= h < rm.hidden_parts@.len() && texts(joints@).contains(
            (#[trigger] rm.hidden_parts@[h])@,
        )
}

proof fn what_can_be_hidden_is_built(
    variants: Map<Seq<char>, Seq<Seq<char>>>,
    mesh_cache: Table<MeshFacts>,
    rm: WireRenderMesh,
)
    ensures
        to_build(variants, mesh_cache, rm) is Some <==> can_hide(mesh_cache, rm) && !(
        variants.contains_key(rm.id@) && variants[rm.id@] == texts(rm.hidden_parts@)),
        to_build(variants, mesh_cache, rm) matches Some(without) ==> without == left_out(
            texts(rm.hidden_parts@),
            texts(mesh_cache.lookup(rm.id@)->0.joints->0@),
        ),
{
    let hidden = texts(rm.hidden_parts@);
    assert(forall|h: int|
        0 <= h < hidden.len() ==> #[trigger] hidden[h] == rm.hidden_parts@[h]@);
    if let Some(facts) = mesh_cache.lookup(rm.id@) {
        if let Some(joints) = facts.joints {
            what_is_hidden_is_left_out(hidden, texts(joints@));
            if exists|h: int|
                0 <= h < hidden.len() && texts(joints@).contains(#[trigger] hidden[h]) {
                let h = choose|h: int|
                    0 <= h < hidden.len() && texts(joints@).contains(#[trigger] hidden[h]);
                assert(texts(joints@).contains(rm.hidden_parts@[h]@));
            }
            if can_hide(mesh_cache, rm) {
                let h = choose|h: int|
                    0 <= h < rm.hidden_parts@.len() && texts(joints@).contains(
                        (#[trigger] rm.hidden_parts@[h])@,
                    );
                assert(texts(joints@).contains(hidden[h]));
            }
        }
    }
}

/// Whether two sets of variants have the same one of a mesh, or both none.
pub open spec fn same_at(
    a: Map<Seq<char>, Seq<Seq<char>>>,
    b: Map<Seq<char>, Seq<Seq<char>>>,
    id: Seq<char>,
) -> bool {
    &&& a.contains_key(id) <==> b.contains_key(id)
    &&& a.contains_key(id) ==> a[id] == b[id]
}

/// A mesh that hides parts has a variant without them, as soon as it can have one,
/// and keeps the one it had until then; one that hides nothing has none. A variant
/// is built exactly where it is not the one that was there. Nothing else comes to
/// have one. The objects of a world have ids of their own.
pub proof fn a_variant_hides_what_its_mesh_hides(
    variants: Map<Seq<char>, Seq<Seq<char>>>,
    mesh_cache: Table<MeshFacts>,
    meshes: Seq<WireRenderMesh>,
)
    requires
        forall|i: int, j: int|
            0 <= i < j < meshes.len() ==> (#[trigger] meshes[i]).id@ != (#[trigger] meshes[j]).id@,
    ensures
        ({
            let after = variants_after(variants, mesh_cache, meshes);
            let list = cuts(variants, mesh_cache, meshes);
            &&& forall|i: int|
                #![trigger meshes[i]]
                0 <= i < meshes.len() ==> {
                    let id = meshes[i].id@;
                    let hidden = texts(meshes[i].hidden_parts@);
                    let is_right = variants.contains_key(id) && variants[id] == hidden;
                    &&& hidden.len() == 0 ==> !after.contains_key(id)
                    &&& can_hide(mesh_cache, meshes[i]) ==> after.contains_key(id) && after[id]
                        == hidden
                    &&& hidden.len() > 0 && !can_hide(mesh_cache, meshes[i]) ==> same_at(
                        after,
                        variants,
                        id,
                    )
                    &&& can_hide(mesh_cache, meshes[i]) && !is_right ==> exists|k: int|
                        0 <= k < list.len() && (#[trigger] list[k]).mesh == i
                }
            &&& forall|id: Seq<char>|
                (forall|i: int| 0 <= i < meshes.len() ==> (#[trigger] meshes[i]).id@ != id)
                    ==> #[trigger] same_at(after, variants, id)
            &&& forall|k: int|
                0 <= k < list.len() ==> {
                    let rm = meshes[(#[trigger] list[k]).mesh];
                    &&& 0 <= list[k].mesh < meshes.len()
                    &&& can_hide(mesh_cache, rm)
                    &&& !(variants.contains_key(rm.id@) && variants[rm.id@] == texts(
                        rm.hidden_parts@,
                    ))
                    &&& list[k].without == left_out(
                        texts(rm.hidden_parts@),
                        texts(mesh_cache.lookup(rm.id@)->0.joints->0@),
                    )
                }
        }),
    decreases meshes.len(),
{
    if meshes.len() > 0 {
        let front = meshes.drop_last();
        let last = meshes.last();
        let before = variants_after(variants, mesh_cache, front);
        let after = variants_after(variants, mesh_cache, meshes);
        let had = cuts(variants, mesh_cache, front);
        let list = cuts(variants, mesh_cache, meshes);
        assert(forall|i: int| 0 <= i < front.len() ==> front[i] == #[trigger] meshes[i]);
        a_variant_hides_what_its_mesh_hides(variants, mesh_cache, front);
        what_can_be_hidden_is_built(before, mesh_cache, last);
        assert(forall|i: int| 0 <= i < front.len() ==> (#[trigger] front[i]).id@ != last.id@);
        assert(same_at(before, variants, last.id@));
        assert(after == variants_with(before, mesh_cache, last));
        assert forall|i: int|
            #![trigger meshes[i]]
            0 <= i < meshes.len() implies {
            let id = meshes[i].id@;
            let hidden = texts(meshes[i].hidden_parts@);
            let is_right = variants.contains_key(id) && variants[id] == hidden;
            &&& hidden.len() == 0 ==> !after.contains_key(id)
            &&& can_hide(mesh_cache, meshes[i]) ==> after.contains_key(id) && after[id] == hidden
            &&& hidden.len() > 0 && !can_hide(mesh_cache, meshes[i]) ==> same_at(
                after,
                variants,
                id,
            )
            &&& can_hide(mesh_cache, meshes[i]) && !is_right ==> exists|k: int|
                0 <= k < list.len() && (#[trigger] list[k]).mesh == i
        } by {
            if i < front.len() {
                let _ = front[i];
                if can_hide(mesh_cache, meshes[i]) && !(variants.contains_key(meshes[i].id@)
                    && variants[meshes[i].id@] == texts(meshes[i].hidden_parts@)) {
                    let k = choose|k: int| 0 <= k < had.len() && (#[trigger] had[k]).mesh == i;
                    assert(list[k].mesh == i);
                }
            } else {
                if to_build(before, mesh_cache, last) is Some {
                    assert(list[had.len() as int].mesh == i);
                }
            }
        }
        assert forall|k: int| 0 <= k < list.len() implies {
            let rm = meshes[(#[trigger] list[k]).mesh];
            &&& 0 <= list[k].mesh < meshes.len()
            &&& can_hide(mesh_cache, rm)
            &&& !(variants.contains_key(rm.id@) && variants[rm.id@] == texts(rm.hidden_parts@))
            &&& list[k].without == left_out(
                texts(rm.hidden_parts@),
                texts(mesh_cache.lookup(rm.id@)->0.joints->0@),
            )
        } by {
            if k < had.len() {
                assert(list[k] == had[k]);
            }
        }
        assert forall|id: Seq<char>|
            (forall|i: int| 0 <= i < meshes.len() ==> (#[trigger] meshes[i]).id@ != id)
            implies #[trigger] same_at(after, variants, id) by {
            assert(meshes[meshes.len() - 1].id@ != id);
            assert(same_at(before, variants, id));
        }
    }
}

/// A beam runs from where `point` puts its origin to where it puts its end, as wide
/// as the server says and in the same colour.
pub proof fn a_beam_runs_from_its_origin_to_its_end<P: Fn(Vec3) -> Vec3>(
    b: Beam,
    rl: WireRenderLaser,
    point: P,
)
    requires
        glows(b, rl, point),
    ensures
        call_ensures(point, (rl.origin,), b.start),
        call_ensures(point, (rl.end,), b.end),
        b.width == rl.beam_width,
        same_colour(b.color, rl.color),
{
}

} // verus!
