//! What the meshed brushes of a scene come to, triangle by triangle.

use vstd::prelude::*;

use crate::brush_render::{
    corner, corner_count, corners_in, first_seen, has_geometry, holds, is_loaded, layer_in,
    loadable, meshed, numbers, object_corners, object_indices, placed_as, scene_names,
    shown_corners, shown_indices, solids, without_geometry, Assembly, BrushGeometry, BrushObject,
    BrushVertex, PlacedVertex, Solid,
};
use crate::engine::{place, place_is_first, texts};
use crate::scalar::Vec4;
use crate::scene::{GameObject, MeshGroup, Scene};
use crate::sight::goes_up;

verus! {

/// How many indices the groups before one have.
pub open spec fn indices_before(groups: Seq<MeshGroup>, j: int) -> int
    decreases j,
{
    if j <= 0 {
        0
    } else {
        indices_before(groups, j - 1) + groups[j - 1].indices@.len()
    }
}

/// How many corners the groups before one have, three numbers to a position.
pub open spec fn corners_before(groups: Seq<MeshGroup>, j: int) -> int
    decreases j,
{
    if j <= 0 {
        0
    } else {
        corners_before(groups, j - 1) + groups[j - 1].positions@.len() as int / 3
    }
}

/// Whether a vertex is a corner of a group: it has the corner's position, normal,
/// tangent and coordinates, and the brush's tint.
pub open spec fn is_corner(v: BrushVertex, g: MeshGroup, c: int, tint: Vec4) -> bool {
    &&& v.position.x == g.positions@[3 * c]
    &&& v.position.y == g.positions@[3 * c + 1]
    &&& v.position.z == g.positions@[3 * c + 2]
    &&& v.normal.x == g.normals@[3 * c]
    &&& v.normal.y == g.normals@[3 * c + 1]
    &&& v.normal.z == g.normals@[3 * c + 2]
    &&& v.tangent.x == g.tangents@[4 * c]
    &&& v.tangent.y == g.tangents@[4 * c + 1]
    &&& v.tangent.z == g.tangents@[4 * c + 2]
    &&& v.tangent.w == g.tangents@[4 * c + 3]
    &&& v.uv.x == g.uvs@[2 * c]
    &&& v.uv.y == g.uvs@[2 * c + 1]
    &&& v.uv2.x == g.uv2@[2 * c]
    &&& v.uv2.y == g.uv2@[2 * c + 1]
    &&& v.tint == tint
}

/// Whether a layer is that of a material: its own, or the last one where all the
/// layers are taken and none of them is its own.
pub open spec fn is_layer_of(
    layer: u32,
    name: Seq<char>,
    materials: Seq<String>,
    limit: int,
) -> bool {
    if exists|m: int| 0 <= m < materials.len() && (#[trigger] materials[m])@ == name {
        layer < materials.len() && materials[layer as int]@ == name
    } else {
        materials.len() == limit && layer == limit - 1
    }
}

/// Whether an object holds the triangles of groups, one group after the other: what
/// an index of a group selects there is what it selects in the group itself.
pub open spec fn is_mesh_of(
    b: BrushObject,
    groups: Seq<MeshGroup>,
    tint: Vec4,
    materials: Seq<String>,
    limit: int,
) -> bool {
    &&& b.vertices@.len() == corners_before(groups, groups.len() as int)
    &&& b.indices@.len() == indices_before(groups, groups.len() as int)
    &&& forall|j: int, c: int|
        #![trigger is_corner(b.vertices@[corners_before(groups, j) + c], groups[j], c, tint)]
        0 <= j < groups.len() && 0 <= c < groups[j].positions@.len() as int / 3 ==> {
            let v = b.vertices@[corners_before(groups, j) + c];
            &&& is_corner(v, groups[j], c, tint)
            &&& is_layer_of(v.material, groups[j].material@, materials, limit)
        }
    &&& forall|j: int, k: int|
        #![trigger groups[j].indices@[k]]
        0 <= j < groups.len() && 0 <= k < groups[j].indices@.len() && groups[j].indices@[k]
            < groups[j].positions@.len() as int / 3 ==> {
            let at = b.indices@[indices_before(groups, j) + k];
            &&& at < b.vertices@.len()
            &&& is_corner(b.vertices@[at as int], groups[j], groups[j].indices@[k] as int, tint)
            &&& is_layer_of(
                b.vertices@[at as int].material,
                groups[j].material@,
                materials,
                limit,
            )
        }
}

/// Whether an object is a brush with anything to draw: a corner and an index.
pub open spec fn has_triangles(o: GameObject) -> bool {
    &&& o.brush matches Some(groups)
    &&& exists|j: int| 0 <= j < groups@.len() && (#[trigger] groups@[j]).positions@.len() >= 3
    &&& exists|j: int| 0 <= j < groups@.len() && (#[trigger] groups@[j]).indices@.len() > 0
}

proof fn counts_of_front(groups: Seq<MeshGroup>, j: int)
    requires
        0 <= j < groups.len(),
    ensures
        indices_before(groups.drop_last(), j) == indices_before(groups, j),
        corners_before(groups.drop_last(), j) == corners_before(groups, j),
    decreases j,
{
    if j > 0 {
        counts_of_front(groups, j - 1);
        assert(groups.drop_last()[j - 1] == groups[j - 1]);
    }
}

proof fn counts_agree(
    groups: Seq<MeshGroup>,
    materials: Seq<Seq<char>>,
    limit: int,
    tint: Vec4,
)
    ensures
        object_indices(groups).len() == indices_before(groups, groups.len() as int),
        object_corners(groups, materials, limit, tint).len() == corners_before(
            groups,
            groups.len() as int,
        ),
        corners_in(groups) == corners_before(groups, groups.len() as int),
    decreases groups.len(),
{
    if groups.len() > 0 {
        counts_agree(groups.drop_last(), materials, limit, tint);
        counts_of_front(groups, groups.len() - 1);
    }
}

proof fn corner_stands(
    groups: Seq<MeshGroup>,
    materials: Seq<Seq<char>>,
    limit: int,
    tint: Vec4,
    j: int,
    c: int,
)
    requires
        0 <= j < groups.len(),
        0 <= c < groups[j].positions@.len() as int / 3,
    ensures
        0 <= corners_before(groups, j) + c < object_corners(groups, materials, limit, tint).len(),
        object_corners(groups, materials, limit, tint)[corners_before(groups, j) + c] == corner(
            groups[j],
            c,
            layer_in(materials, groups[j].material@, limit) as u32,
            tint,
        ),
    decreases groups.len(),
{
    let front = groups.drop_last();
    counts_agree(front, materials, limit, tint);
    counts_of_front(groups, j);
    if j < front.len() {
        assert(front[j] == groups[j]);
        corner_stands(front, materials, limit, tint, j, c);
    } else {
        assert(corner_count(groups[j]) == groups[j].positions@.len() as int / 3);
    }
}

proof fn index_selects(
    groups: Seq<MeshGroup>,
    materials: Seq<Seq<char>>,
    limit: int,
    tint: Vec4,
    j: int,
    k: int,
)
    requires
        0 <= j < groups.len(),
        0 <= k < groups[j].indices@.len(),
        groups[j].indices@[k] < groups[j].positions@.len() as int / 3,
    ensures
        ({
            let all = object_indices(groups);
            let corners = object_corners(groups, materials, limit, tint);
            &&& 0 <= indices_before(groups, j) + k < all.len()
            &&& 0 <= all[indices_before(groups, j) + k] < corners.len()
            &&& corners[all[indices_before(groups, j) + k]] == corner(
                groups[j],
                groups[j].indices@[k] as int,
                layer_in(materials, groups[j].material@, limit) as u32,
                tint,
            )
        }),
    decreases groups.len(),
{
    let front = groups.drop_last();
    counts_agree(front, materials, limit, tint);
    counts_of_front(groups, j);
    if j < front.len() {
        assert(front[j] == groups[j]);
        index_selects(front, materials, limit, tint, j, k);
    } else {
        corner_stands(groups, materials, limit, tint, j, groups[j].indices@[k] as int);
    }
}

proof fn first_seen_grows(names: Seq<Seq<char>>, limit: int)
    requires
        names.len() > 0,
        limit > 0,
    ensures
        first_seen(names, limit).len() <= limit,
        first_seen(names, limit).contains(names.last()) || first_seen(names, limit).len() == limit,
        first_seen(names.drop_last(), limit).is_prefix_of(first_seen(names, limit)),
    decreases names.len(),
{
    let before = first_seen(names.drop_last(), limit);
    let now = first_seen(names, limit);
    if names.len() > 1 {
        first_seen_grows(names.drop_last(), limit);
    }
    place_is_first(before, names.last());
    if place(before, names.last()) is None && before.len() < limit {
        assert(now[before.len() as int] == names.last());
    }
}

/// Whether a name is first in a list at a place, behind nothing but other names.
pub open spec fn first_at(
    names: Seq<Seq<char>>,
    n: int,
    earlier: Seq<Seq<char>>,
    name: Seq<char>,
) -> bool {
    &&& 0 <= n < names.len()
    &&& names[n] == name
    &&& forall|q: int| 0 <= q < n ==> earlier.contains(#[trigger] names[q])
}

/// Whether a name first comes in a list behind nothing but other names.
pub open spec fn comes_after(
    names: Seq<Seq<char>>,
    earlier: Seq<Seq<char>>,
    name: Seq<char>,
) -> bool {
    exists|n: int| first_at(names, n, earlier, name)
}

proof fn names_are_seen(names: Seq<Seq<char>>, limit: int)
    requires
        limit > 0,
    ensures
        ({
            let seen = first_seen(names, limit);
            &&& seen.len() <= limit
            &&& seen.no_duplicates()
            &&& forall|n: int|
                0 <= n < names.len() ==> seen.contains(#[trigger] names[n]) || seen.len() == limit
            &&& forall|m: int|
                0 <= m < seen.len() ==> #[trigger] comes_after(names, seen.take(m), seen[m])
        }),
    decreases names.len(),
{
    if names.len() > 0 {
        let front = names.drop_last();
        let before = first_seen(front, limit);
        let seen = first_seen(names, limit);
        names_are_seen(front, limit);
        first_seen_grows(names, limit);
        place_is_first(before, names.last());
        assert(forall|n: int| 0 <= n < front.len() ==> front[n] == #[trigger] names[n]);
        assert(forall|m: int| 0 <= m < before.len() ==> before[m] == #[trigger] seen[m]);
        assert forall|n: int| 0 <= n < names.len() implies seen.contains(#[trigger] names[n])
            || seen.len() == limit by {
            if n < front.len() {
                assert(before.contains(front[n]) || before.len() == limit);
                if before.contains(front[n]) {
                    let m = choose|m: int| 0 <= m < before.len() && before[m] == front[n];
                    assert(seen[m] == names[n]);
                }
            }
        }
        assert forall|m: int| 0 <= m < seen.len() implies #[trigger] comes_after(
            names,
            seen.take(m),
            seen[m],
        ) by {
            if m < before.len() {
                assert(comes_after(front, before.take(m), before[m]));
                assert(before.take(m) =~= seen.take(m));
                let n = choose|n: int| first_at(front, n, before.take(m), before[m]);
                assert forall|q: int| 0 <= q < n implies seen.take(m).contains(
                    #[trigger] names[q],
                ) by {
                    assert(before.take(m).contains(front[q]));
                }
                assert(names[n] == front[n]);
                assert(first_at(names, n, seen.take(m), seen[m]));
            } else {
                let n = names.len() - 1;
                assert(before =~= seen.take(m));
                assert forall|q: int| 0 <= q < n implies seen.take(m).contains(
                    #[trigger] names[q],
                ) by {
                    assert(before.contains(front[q]) || before.len() == limit);
                }
                assert(first_at(names, n, seen.take(m), seen[m]));
            }
        }
    }
}

/// Whether a face of a scene's brushes is of a material.
pub open spec fn is_used(objects: Seq<GameObject>, name: Seq<char>) -> bool {
    exists|i: int, j: int|
        #![trigger objects[i].brush->0@[j]]
        0 <= i < objects.len() && objects[i].brush is Some && 0 <= j < objects[i].brush->0@.len()
            && objects[i].brush->0@[j].material@ == name
}

proof fn names_are_used(objects: Seq<GameObject>)
    ensures
        forall|name: Seq<char>| #[trigger]
            scene_names(objects).contains(name) <==> is_used(objects, name),
    decreases objects.len(),
{
    if objects.len() > 0 {
        let front = objects.drop_last();
        let before = scene_names(front);
        let now = scene_names(objects);
        let last = objects.len() - 1;
        names_are_used(front);
        assert(forall|i: int| 0 <= i < front.len() ==> front[i] == #[trigger] objects[i]);
        assert forall|name: Seq<char>| #[trigger]
            now.contains(name) <==> is_used(objects, name) by {
            let _ = before.contains(name);
            if now.contains(name) {
                let n = choose|n: int| 0 <= n < now.len() && now[n] == name;
                if n < before.len() {
                    assert(before[n] == name);
                    assert(is_used(front, name));
                    let (i, j) = choose|i: int, j: int|
                        #![trigger front[i].brush->0@[j]]
                        0 <= i < front.len() && front[i].brush is Some && 0 <= j
                            < front[i].brush->0@.len() && front[i].brush->0@[j].material@ == name;
                    assert(objects[i].brush->0@[j].material@ == name);
                } else {
                    let j = n - before.len();
                    assert(objects[last].brush->0@[j].material@ == name);
                }
            }
            if is_used(objects, name) {
                let (i, j) = choose|i: int, j: int|
                    #![trigger objects[i].brush->0@[j]]
                    0 <= i < objects.len() && objects[i].brush is Some && 0 <= j
                        < objects[i].brush->0@.len() && objects[i].brush->0@[j].material@ == name;
                if i < last {
                    assert(front[i].brush->0@[j].material@ == name);
                    assert(before.contains(name));
                    let n = choose|n: int| 0 <= n < before.len() && before[n] == name;
                    assert(now[n] == name);
                } else {
                    assert(now[before.len() + j] == name);
                }
            }
        }
    } else {
        assert forall|name: Seq<char>| !(#[trigger] scene_names(objects).contains(name)) by {}
    }
}

/// The layers are the materials that the scene's faces are of, each once, and no
/// more than the limit. One that has no layer is left out because all are taken.
/// Before the first face of a material come only faces of the layers before its
/// own.
pub proof fn every_material_gets_a_layer_while_there_are_any(
    g: BrushGeometry,
    scene: Scene,
    limit: usize,
)
    requires
        is_loaded(g, scene, limit),
        limit > 0,
    ensures
        g.materials@.len() <= limit,
        forall|m: int, n: int|
            0 <= m < n < g.materials@.len() ==> (#[trigger] g.materials@[m])@ != (
            #[trigger] g.materials@[n])@,
        forall|m: int|
            0 <= m < g.materials@.len() ==> is_used(
                scene.objects@,
                (#[trigger] g.materials@[m])@,
            ),
        forall|name: Seq<char>| #[trigger]
            is_used(scene.objects@, name) ==> g.materials@.len() == limit || exists|m: int|
                0 <= m < g.materials@.len() && (#[trigger] g.materials@[m])@ == name,
        forall|m: int|
            0 <= m < g.materials@.len() ==> #[trigger] comes_after(
                scene_names(scene.objects@),
                texts(g.materials@).take(m),
                g.materials@[m]@,
            ),
{
    let names = scene_names(scene.objects@);
    let seen = first_seen(names, limit as int);
    names_are_seen(names, limit as int);
    names_are_used(scene.objects@);
    assert(seen.len() == g.materials@.len());
    assert(forall|m: int| 0 <= m < seen.len() ==> seen[m] == (#[trigger] g.materials@[m])@);
    assert forall|m: int, n: int| 0 <= m < n < g.materials@.len() implies (
    #[trigger] g.materials@[m])@ != (#[trigger] g.materials@[n])@ by {
        assert(seen[m] != seen[n]);
    }
    assert forall|m: int| 0 <= m < g.materials@.len() implies is_used(
        scene.objects@,
        (#[trigger] g.materials@[m])@,
    ) by {
        assert(comes_after(names, seen.take(m), seen[m]));
        let n = choose|n: int| first_at(names, n, seen.take(m), seen[m]);
        assert(names.contains(names[n]));
    }
    assert forall|m: int| 0 <= m < g.materials@.len() implies #[trigger] comes_after(
        names,
        texts(g.materials@).take(m),
        g.materials@[m]@,
    ) by {
        assert(comes_after(names, seen.take(m), seen[m]));
    }
    assert forall|name: Seq<char>| #[trigger]
        is_used(scene.objects@, name) implies g.materials@.len() == limit || exists|m: int|
        0 <= m < g.materials@.len() && (#[trigger] g.materials@[m])@ == name by {
        assert(names.contains(name));
        let n = choose|n: int| 0 <= n < names.len() && names[n] == name;
        assert(seen.contains(names[n]) || seen.len() == limit);
        if seen.contains(name) {
            let m = choose|m: int| 0 <= m < seen.len() && seen[m] == name;
            assert(g.materials@[m]@ == name);
        }
    }
}

proof fn geometry_is_triangles(groups: Seq<MeshGroup>)
    ensures
        corners_before(groups, groups.len() as int) > 0 <==> exists|j: int|
            0 <= j < groups.len() && (#[trigger] groups[j]).positions@.len() >= 3,
        indices_before(groups, groups.len() as int) > 0 <==> exists|j: int|
            0 <= j < groups.len() && (#[trigger] groups[j]).indices@.len() > 0,
        corners_before(groups, groups.len() as int) >= 0,
        indices_before(groups, groups.len() as int) >= 0,
    decreases groups.len(),
{
    if groups.len() > 0 {
        let front = groups.drop_last();
        let last = groups.len() - 1;
        geometry_is_triangles(front);
        counts_of_front(groups, last);
        assert(forall|j: int| 0 <= j < front.len() ==> front[j] == #[trigger] groups[j]);
        if exists|j: int| 0 <= j < front.len() && (#[trigger] front[j]).positions@.len() >= 3 {
            let j = choose|j: int|
                0 <= j < front.len() && (#[trigger] front[j]).positions@.len() >= 3;
            assert(groups[j].positions@.len() >= 3);
        }
        if exists|j: int| 0 <= j < front.len() && (#[trigger] front[j]).indices@.len() > 0 {
            let j = choose|j: int| 0 <= j < front.len() && (#[trigger] front[j]).indices@.len() > 0;
            assert(groups[j].indices@.len() > 0);
        }
        if exists|j: int| 0 <= j < groups.len() && (#[trigger] groups[j]).positions@.len() >= 3 {
            let j = choose|j: int|
                0 <= j < groups.len() && (#[trigger] groups[j]).positions@.len() >= 3;
            if j < last {
                assert(front[j].positions@.len() >= 3);
            }
        }
        if exists|j: int| 0 <= j < groups.len() && (#[trigger] groups[j]).indices@.len() > 0 {
            let j = choose|j: int|
                0 <= j < groups.len() && (#[trigger] groups[j]).indices@.len() > 0;
            if j < last {
                assert(front[j].indices@.len() > 0);
            }
        }
        assert(groups[last].positions@.len() >= 3 ==> groups[last].positions@.len() as int / 3 > 0);
    }
}

proof fn brushes_are_meshed(
    objects: Seq<GameObject>,
    materials: Seq<Seq<char>>,
    limit: int,
) -> (from: Seq<int>)
    ensures
        from.len() == meshed(objects, materials, limit).len(),
        goes_up(from),
        forall|i: int| #[trigger]
            from.contains(i) <==> 0 <= i < objects.len() && has_triangles(objects[i]),
        forall|o: int|
            0 <= o < from.len() ==> #[trigger] meshed(objects, materials, limit)[o] == (Solid {
                id: objects[from[o]].id@,
                vertices: object_corners(
                    objects[from[o]].brush->0@,
                    materials,
                    limit,
                    objects[from[o]].tint,
                ),
                indices: object_indices(objects[from[o]].brush->0@),
            }),
    decreases objects.len(),
{
    if objects.len() == 0 {
        Seq::empty()
    } else {
        let front = objects.drop_last();
        let last = objects.len() - 1;
        let had = brushes_are_meshed(front, materials, limit);
        let now = if has_triangles(objects[last]) {
            had.push(last)
        } else {
            had
        };
        if let Some(groups) = objects[last].brush {
            geometry_is_triangles(groups@);
            counts_agree(groups@, materials, limit, objects[last].tint);
        }
        assert(forall|i: int| 0 <= i < front.len() ==> front[i] == #[trigger] objects[i]);
        assert(meshed(objects, materials, limit).len() == now.len());
        assert forall|i: int| #[trigger]
            now.contains(i) <==> 0 <= i < objects.len() && has_triangles(objects[i]) by {
            assert(had.contains(i) <==> 0 <= i < front.len() && has_triangles(front[i]));
            if had.contains(i) {
                let p = choose|p: int| 0 <= p < had.len() && had[p] == i;
                assert(now[p] == i);
            }
            if now.contains(i) {
                let p = choose|p: int| 0 <= p < now.len() && now[p] == i;
                if p < had.len() {
                    assert(had[p] == i);
                }
            }
            if i == last && has_triangles(objects[i]) {
                assert(now[had.len() as int] == i);
            }
        }
        assert forall|j: int, k: int| 0 <= j < k < now.len() implies #[trigger] now[j]
            < #[trigger] now[k] by {
            assert(had.contains(had[j]));
        }
        assert forall|o: int| 0 <= o < now.len() implies #[trigger] meshed(
            objects,
            materials,
            limit,
        )[o] == (Solid {
            id: objects[now[o]].id@,
            vertices: object_corners(
                objects[now[o]].brush->0@,
                materials,
                limit,
                objects[now[o]].tint,
            ),
            indices: object_indices(objects[now[o]].brush->0@),
        }) by {
            if o < had.len() {
                assert(had.contains(had[o]));
                assert(meshed(objects, materials, limit)[o] == meshed(front, materials, limit)[o]);
            }
        }
        now
    }
}

proof fn a_layer_is_found(
    materials: Seq<String>,
    objects: Seq<GameObject>,
    limit: usize,
    name: Seq<char>,
)
    requires
        texts(materials) == first_seen(scene_names(objects), limit as int),
        0 < limit <= u32::MAX,
        is_used(objects, name),
    ensures
        is_layer_of(
            layer_in(texts(materials), name, limit as int) as u32,
            name,
            materials,
            limit as int,
        ),
{
    let names = scene_names(objects);
    let seen = texts(materials);
    names_are_seen(names, limit as int);
    names_are_used(objects);
    place_is_first(seen, name);
    assert(forall|m: int| 0 <= m < seen.len() ==> seen[m] == (#[trigger] materials[m])@);
    assert(names.contains(name));
    let n = choose|n: int| 0 <= n < names.len() && names[n] == name;
    assert(seen.contains(names[n]) || seen.len() == limit);
    if place(seen, name) is None {
        assert forall|m: int| 0 <= m < materials.len() implies (#[trigger] materials[m])@
            != name by {
            assert(seen[m] != name);
        }
        assert(!seen.contains(name));
    } else {
        let at = place(seen, name)->0;
        assert(materials[at]@ == name);
    }
}

proof fn mesh_is_of_its_groups(
    b: BrushObject,
    objects: Seq<GameObject>,
    i: int,
    materials: Seq<String>,
    limit: usize,
)
    requires
        0 <= i < objects.len(),
        objects[i].brush is Some,
        texts(materials) == first_seen(scene_names(objects), limit as int),
        0 < limit <= u32::MAX,
        b@.vertices == object_corners(
            objects[i].brush->0@,
            texts(materials),
            limit as int,
            objects[i].tint,
        ),
        b@.indices == object_indices(objects[i].brush->0@),
    ensures
        is_mesh_of(b, objects[i].brush->0@, objects[i].tint, materials, limit as int),
{
    let groups = objects[i].brush->0@;
    let tint = objects[i].tint;
    let names = texts(materials);
    let lim = limit as int;
    counts_agree(groups, names, lim, tint);
    assert(numbers(b.indices@).len() == b.indices@.len());
    assert forall|j: int, c: int|
        #![trigger is_corner(b.vertices@[corners_before(groups, j) + c], groups[j], c, tint)]
        0 <= j < groups.len() && 0 <= c < groups[j].positions@.len() as int / 3 implies {
        let v = b.vertices@[corners_before(groups, j) + c];
        &&& is_corner(v, groups[j], c, tint)
        &&& is_layer_of(v.material, groups[j].material@, materials, lim)
    } by {
        corner_stands(groups, names, lim, tint, j, c);
        assert(objects[i].brush->0@[j].material@ == groups[j].material@);
        assert(is_used(objects, groups[j].material@));
        a_layer_is_found(materials, objects, limit, groups[j].material@);
    }
    assert forall|j: int, k: int|
        #![trigger groups[j].indices@[k]]
        0 <= j < groups.len() && 0 <= k < groups[j].indices@.len() && groups[j].indices@[k]
            < groups[j].positions@.len() as int / 3 implies {
        let at = b.indices@[indices_before(groups, j) + k];
        &&& at < b.vertices@.len()
        &&& is_corner(b.vertices@[at as int], groups[j], groups[j].indices@[k] as int, tint)
        &&& is_layer_of(b.vertices@[at as int].material, groups[j].material@, materials, lim)
    } by {
        index_selects(groups, names, lim, tint, j, k);
        let p = indices_before(groups, j) + k;
        assert(numbers(b.indices@)[p] == b.indices@[p]);
        assert(objects[i].brush->0@[j].material@ == groups[j].material@);
        assert(is_used(objects, groups[j].material@));
        a_layer_is_found(materials, objects, limit, groups[j].material@);
    }
}

/// Every brush of a scene that has anything to draw is there once, in the order of
/// the scene, under its own id, and holds its own triangles: the corner that an
/// index of one of its groups selects is the group's own corner of that number,
/// with its position, normal, tangent and coordinates, in the brush's tint and on
/// the layer of the group's material. Nothing else is there.
pub proof fn every_index_selects_its_groups_own_corner(
    g: BrushGeometry,
    scene: Scene,
    limit: usize,
) -> (from: Seq<int>)
    requires
        is_loaded(g, scene, limit),
        loadable(scene, limit),
    ensures
        from.len() == g.objects@.len(),
        goes_up(from),
        forall|i: int| #[trigger]
            from.contains(i) <==> 0 <= i < scene.objects@.len() && has_triangles(scene.objects@[i]),
        forall|o: int|
            #![trigger g.objects@[o]]
            0 <= o < from.len() ==> {
                let brush = scene.objects@[from[o]];
                &&& g.objects@[o].id@ == brush.id@
                &&& is_mesh_of(
                    g.objects@[o],
                    brush.brush->0@,
                    brush.tint,
                    g.materials@,
                    limit as int,
                )
            },
{
    let objects = scene.objects@;
    let names = texts(g.materials@);
    let from = brushes_are_meshed(objects, names, limit as int);
    let all = meshed(objects, names, limit as int);
    assert(solids(g.objects@).len() == g.objects@.len());
    assert forall|o: int|
        #![trigger g.objects@[o]]
        0 <= o < from.len() implies {
        let brush = objects[from[o]];
        &&& g.objects@[o].id@ == brush.id@
        &&& is_mesh_of(g.objects@[o], brush.brush->0@, brush.tint, g.materials@, limit as int)
    } by {
        assert(solids(g.objects@)[o] == g.objects@[o]@);
        let _ = all[o];
        assert(from.contains(from[o]));
        mesh_is_of_its_groups(g.objects@[o], objects, from[o], g.materials@, limit);
    }
    from
}

/// A brush is listed as one without geometry just where it has nothing to draw.
pub proof fn what_has_no_triangles_is_listed(objects: Seq<GameObject>)
    ensures
        forall|i: int|
            0 <= i < objects.len() && (#[trigger] objects[i]).brush is Some && !has_triangles(
                objects[i],
            ) ==> without_geometry(objects).contains(objects[i].id@),
        forall|k: int|
            0 <= k < without_geometry(objects).len() ==> exists|i: int|
                0 <= i < objects.len() && (#[trigger] objects[i]).brush is Some && !has_triangles(
                    objects[i],
                ) && #[trigger] without_geometry(objects)[k] == objects[i].id@,
    decreases objects.len(),
{
    if objects.len() > 0 {
        let front = objects.drop_last();
        let last = objects.len() - 1;
        let before = without_geometry(front);
        let now = without_geometry(objects);
        what_has_no_triangles_is_listed(front);
        if let Some(groups) = objects[last].brush {
            geometry_is_triangles(groups@);
            counts_agree(groups@, Seq::empty(), 0, objects[last].tint);
            assert(has_geometry(groups@) == has_triangles(objects[last]));
        }
        assert(forall|i: int| 0 <= i < front.len() ==> front[i] == #[trigger] objects[i]);
        assert forall|i: int|
            0 <= i < objects.len() && (#[trigger] objects[i]).brush is Some && !has_triangles(
                objects[i],
            ) implies now.contains(objects[i].id@) by {
            if i < last {
                assert(before.contains(front[i].id@));
                let k = choose|k: int| 0 <= k < before.len() && before[k] == front[i].id@;
                assert(now[k] == objects[i].id@);
            } else {
                assert(now[before.len() as int] == objects[i].id@);
            }
        }
        assert forall|k: int| 0 <= k < now.len() implies exists|i: int|
            0 <= i < objects.len() && (#[trigger] objects[i]).brush is Some && !has_triangles(
                objects[i],
            ) && #[trigger] now[k] == objects[i].id@ by {
            if k < before.len() {
                let i = choose|i: int|
                    0 <= i < front.len() && (#[trigger] front[i]).brush is Some && !has_triangles(
                        front[i],
                    ) && before[k] == front[i].id@;
                assert(objects[i].brush is Some);
            } else {
                assert(objects[last].brush is Some);
            }
        }
    }
}

/// How many indices the brushes before one have that are not hidden.
pub open spec fn indices_shown_before(
    objects: Seq<BrushObject>,
    hidden: Seq<Seq<char>>,
    o: int,
) -> int
    decreases o,
{
    if o <= 0 {
        0
    } else {
        indices_shown_before(objects, hidden, o - 1) + if hidden.contains(objects[o - 1].id@) {
            0
        } else {
            objects[o - 1].indices@.len() as int
        }
    }
}

/// Whether a vertex is another one as `place` puts it: where it says, and with the
/// other's coordinates, layer, tint and handedness.
pub open spec fn is_put<F: Fn(BrushVertex) -> PlacedVertex>(
    v: BrushVertex,
    from: BrushVertex,
    place: F,
) -> bool {
    exists|p: PlacedVertex|
        {
            &&& #[trigger] call_ensures(place, (from,), p)
            &&& v.position == p.position && v.normal == p.normal
            &&& v.tangent.x == p.tangent.x && v.tangent.y == p.tangent.y && v.tangent.z
                == p.tangent.z
            &&& v.tangent.w == from.tangent.w
            &&& v.uv == from.uv && v.uv2 == from.uv2
            &&& v.material == from.material && v.tint == from.tint
        }
}

proof fn shown_counts_of_front(objects: Seq<BrushObject>, hidden: Seq<Seq<char>>, o: int)
    requires
        0 <= o < objects.len(),
    ensures
        indices_shown_before(objects.drop_last(), hidden, o) == indices_shown_before(
            objects,
            hidden,
            o,
        ),
    decreases o,
{
    if o > 0 {
        shown_counts_of_front(objects, hidden, o - 1);
        assert(objects.drop_last()[o - 1] == objects[o - 1]);
    }
}

proof fn shown_counts_agree(objects: Seq<BrushObject>, hidden: Seq<Seq<char>>)
    ensures
        shown_indices(solids(objects), hidden).len() == indices_shown_before(
            objects,
            hidden,
            objects.len() as int,
        ),
    decreases objects.len(),
{
    if objects.len() > 0 {
        let front = objects.drop_last();
        shown_counts_agree(front, hidden);
        shown_counts_of_front(objects, hidden, objects.len() - 1);
        assert(solids(objects).drop_last() =~= solids(front));
        assert(solids(objects).last() == objects.last()@);
        assert(objects.last()@.indices.len() == objects.last().indices@.len());
    }
}

proof fn shown_index_selects(
    objects: Seq<BrushObject>,
    hidden: Seq<Seq<char>>,
    o: int,
    k: int,
)
    requires
        0 <= o < objects.len(),
        !hidden.contains(objects[o].id@),
        0 <= k < objects[o].indices@.len(),
        objects[o].indices@[k] < objects[o].vertices@.len(),
    ensures
        ({
            let all = shown_indices(solids(objects), hidden);
            let corners = shown_corners(solids(objects), hidden);
            let at = indices_shown_before(objects, hidden, o) + k;
            &&& 0 <= at < all.len()
            &&& 0 <= all[at] < corners.len()
            &&& corners[all[at]] == objects[o].vertices@[objects[o].indices@[k] as int]
        }),
    decreases objects.len(),
{
    let front = objects.drop_last();
    let last = objects.len() - 1;
    shown_counts_agree(front, hidden);
    shown_counts_of_front(objects, hidden, o);
    assert(solids(objects).drop_last() =~= solids(front));
    assert(solids(objects).last() == objects.last()@);
    if o < last {
        assert(front[o] == objects[o]);
        shown_index_selects(front, hidden, o, k);
    } else {
        assert(numbers(objects[o].indices@)[k] == objects[o].indices@[k]);
    }
}

/// A buffer shows the triangles of every brush that is not hidden, in order, and
/// nothing else: the vertex that an index selects is the one that the brush's own
/// index selects in the brush, as `place` puts it.
pub proof fn every_brush_that_is_not_hidden_is_shown<F: Fn(BrushVertex) -> PlacedVertex>(
    g: BrushGeometry,
    asked: Assembly<F>,
)
    requires
        holds(g, asked),
    ensures
        g.indices@.len() == indices_shown_before(
            g.objects@,
            asked.hidden,
            g.objects@.len() as int,
        ),
        forall|o: int, k: int|
            #![trigger g.objects@[o].indices@[k]]
            0 <= o < g.objects@.len() && !asked.hidden.contains(g.objects@[o].id@) && 0 <= k
                < g.objects@[o].indices@.len() && g.objects@[o].indices@[k]
                < g.objects@[o].vertices@.len() ==> {
                let at = indices_shown_before(g.objects@, asked.hidden, o) + k;
                &&& 0 <= at < g.indices@.len()
                &&& g.indices@[at] < g.vertices@.len()
                &&& is_put(
                    g.vertices@[g.indices@[at] as int],
                    g.objects@[o].vertices@[g.objects@[o].indices@[k] as int],
                    asked.place,
                )
            },
{
    let objects = g.objects@;
    let hidden = asked.hidden;
    shown_counts_agree(objects, hidden);
    assert(numbers(g.indices@).len() == g.indices@.len());
    assert forall|o: int, k: int|
        #![trigger g.objects@[o].indices@[k]]
        0 <= o < g.objects@.len() && !asked.hidden.contains(g.objects@[o].id@) && 0 <= k
            < g.objects@[o].indices@.len() && g.objects@[o].indices@[k]
            < g.objects@[o].vertices@.len() implies {
        let at = indices_shown_before(g.objects@, asked.hidden, o) + k;
        &&& 0 <= at < g.indices@.len()
        &&& g.indices@[at] < g.vertices@.len()
        &&& is_put(
            g.vertices@[g.indices@[at] as int],
            g.objects@[o].vertices@[g.objects@[o].indices@[k] as int],
            asked.place,
        )
    } by {
        shown_index_selects(objects, hidden, o, k);
        let at = indices_shown_before(objects, hidden, o) + k;
        assert(numbers(g.indices@)[at] == g.indices@[at]);
        let v = g.vertices@[g.indices@[at] as int];
        let from = objects[o].vertices@[objects[o].indices@[k] as int];
        assert(placed_as(from, asked.place, v));
        let p = choose|p: PlacedVertex| #[trigger]
            call_ensures(asked.place, (from,), p) && v == from.moved_to(p);
        assert(call_ensures(asked.place, (from,), p));
    }
}

} // verus!
