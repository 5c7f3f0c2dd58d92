//! Brush geometry for the renderer.
//!
//! Brushes are the level's walls, rooms and stairs. They are meshed once per
//! scene; what changes at run time is only which of them are drawn, and that
//! arrives as a list of ids.
//!
//! The materials of a scene are its own: the array of layers is built from
//! exactly the ids that the scene's brush faces name, in the order in which they
//! are first seen.

use vstd::prelude::*;

use crate::engine::{find_text, lists, place, texts};
use crate::fnv::{hash_text, text_hash};
use crate::scalar::{Scalar, Vec2, Vec3, Vec4};
use crate::scene::{GameObject, MeshGroup, Scene};

verus! {

/// A corner of a brush's triangle.
#[derive(Clone, Copy, Debug, PartialEq, Eq, Structural)]
pub struct BrushVertex {
    pub position: Vec3,
    pub normal: Vec3,
    pub tangent: Vec4,
    /// In tiles of the material.
    pub uv: Vec2,
    /// The material's layer in the texture array.
    pub material: u32,
    /// Multiplied over the texture.
    pub tint: Vec4,
    /// Where the corner reads the baked lighting.
    pub uv2: Vec2,
}

/// Where a corner stands in the player's frame.
#[derive(Clone, Copy, Debug, PartialEq, Eq, Structural)]
pub struct PlacedVertex {
    pub position: Vec3,
    pub normal: Vec3,
    pub tangent: Vec3,
}

impl BrushVertex {
    /// The corner moved to another frame. The handedness of its tangent and
    /// everything about its surface stay.
    pub open spec fn moved_to(self, p: PlacedVertex) -> BrushVertex {
        BrushVertex {
            position: p.position,
            normal: p.normal,
            tangent: Vec4 { x: p.tangent.x, y: p.tangent.y, z: p.tangent.z, w: self.tangent.w },
            ..self
        }
    }

    fn placed(self, p: PlacedVertex) -> (r: BrushVertex)
        ensures
            r == self.moved_to(p),
    {
        BrushVertex {
            position: p.position,
            normal: p.normal,
            tangent: Vec4 { x: p.tangent.x, y: p.tangent.y, z: p.tangent.z, w: self.tangent.w },
            uv: self.uv,
            material: self.material,
            tint: self.tint,
            uv2: self.uv2,
        }
    }
}

/// One brush object's triangles, in world space.
#[derive(Debug)]
pub struct BrushObject {
    pub id: String,
    pub vertices: Vec<BrushVertex>,
    pub indices: Vec<u32>,
}

/// What a brush object amounts to.
pub struct Solid {
    pub id: Seq<char>,
    pub vertices: Seq<BrushVertex>,
    pub indices: Seq<int>,
}

/// Indices as numbers.
pub open spec fn numbers(indices: Seq<u32>) -> Seq<int> {
    indices.map_values(|i: u32| i as int)
}

impl View for BrushObject {
    type V = Solid;

    open spec fn view(&self) -> Solid {
        Solid { id: self.id@, vertices: self.vertices@, indices: numbers(self.indices@) }
    }
}

/// What a list of brush objects amounts to.
pub open spec fn solids(objects: Seq<BrushObject>) -> Seq<Solid> {
    objects.map_values(|o: BrushObject| o@)
}

// ---------------------------------------------------------------------------
// Materials
// ---------------------------------------------------------------------------

/// The distinct names of a list in the order in which they are first seen, and
/// no more of them than the limit.
pub open spec fn first_seen(names: Seq<Seq<char>>, limit: int) -> Seq<Seq<char>>
    decreases names.len(),
{
    if names.len() == 0 {
        Seq::empty()
    } else {
        let before = first_seen(names.drop_last(), limit);
        if place(before, names.last()) is Some || before.len() >= limit {
            before
        } else {
            before.push(names.last())
        }
    }
}

/// The layer that a name is drawn with: its own, or the last one where there was
/// no room left for it.
pub open spec fn layer_in(materials: Seq<Seq<char>>, name: Seq<char>, limit: int) -> int {
    match place(materials, name) {
        Some(i) => i,
        None => limit - 1,
    }
}

proof fn place_in_range(materials: Seq<Seq<char>>, name: Seq<char>)
    ensures
        match place(materials, name) {
            Some(i) => 0 <= i < materials.len() && materials[i] == name,
            None => !materials.contains(name),
        },
    decreases materials.len(),
{
    if materials.len() > 0 {
        let front = materials.drop_last();
        place_in_range(front, name);
        if place(materials, name) is None && materials.contains(name) {
            let i = choose|i: int| 0 <= i < materials.len() && materials[i] == name;
            assert(front[i] == name);
        }
    }
}

proof fn first_seen_bounded(names: Seq<Seq<char>>, limit: int)
    requires
        limit >= 0,
    ensures
        first_seen(names, limit).len() <= limit,
    decreases names.len(),
{
    if names.len() > 0 {
        first_seen_bounded(names.drop_last(), limit);
    }
}

/// Once a name has its layer, names seen later do not change it.
proof fn layer_is_settled(all: Seq<Seq<char>>, k: int, n: int, name: Seq<char>, limit: int)
    requires
        0 <= k <= n <= all.len(),
        place(first_seen(all.take(k), limit), name) is Some || first_seen(all.take(k), limit).len()
            >= limit,
    ensures
        layer_in(first_seen(all.take(n), limit), name, limit) == layer_in(
            first_seen(all.take(k), limit),
            name,
            limit,
        ),
        place(first_seen(all.take(n), limit), name) is Some || first_seen(all.take(n), limit).len()
            >= limit,
    decreases n - k,
{
    if k < n {
        layer_is_settled(all, k, n - 1, name, limit);
        assert(all.take(n).drop_last() =~= all.take(n - 1));
        let before = first_seen(all.take(n - 1), limit);
        let after = first_seen(all.take(n), limit);
        if after != before {
            assert(after.drop_last() =~= before);
        }
    }
}

/// Two faces of the same material share a layer, two of different materials in
/// the list do not, and every face's layer is in the array.
pub proof fn layers_are_shared_and_in_range(
    names: Seq<Seq<char>>,
    limit: int,
    a: Seq<char>,
    b: Seq<char>,
)
    requires
        limit > 0,
        names.contains(a),
    ensures
        0 <= layer_in(first_seen(names, limit), a, limit) < first_seen(names, limit).len() <= limit,
        first_seen(names, limit).contains(a) && first_seen(names, limit).contains(b) ==> (
        layer_in(first_seen(names, limit), a, limit) == layer_in(
            first_seen(names, limit),
            b,
            limit,
        ) <==> a == b),
{
    let m = first_seen(names, limit);
    first_seen_bounded(names, limit);
    place_in_range(m, a);
    place_in_range(m, b);
    seen_or_full(names, limit, a);
}

proof fn seen_or_full(names: Seq<Seq<char>>, limit: int, name: Seq<char>)
    requires
        names.contains(name),
    ensures
        place(first_seen(names, limit), name) is Some || first_seen(names, limit).len() >= limit,
{
    let i = choose|i: int| 0 <= i < names.len() && names[i] == name;
    let upto = names.take(i + 1);
    assert(upto.drop_last() =~= names.take(i));
    assert(upto.last() == name);
    let before = first_seen(names.take(i), limit);
    if !(place(before, name) is Some || before.len() >= limit) {
        assert(before.push(name).drop_last() =~= before);
    }
    layer_is_settled(names, i + 1, names.len() as int, name, limit);
    assert(names.take(names.len() as int) =~= names);
}

/// No material is listed twice.
pub proof fn materials_are_distinct(names: Seq<Seq<char>>, limit: int)
    ensures
        first_seen(names, limit).no_duplicates(),
    decreases names.len(),
{
    if names.len() > 0 {
        let before = first_seen(names.drop_last(), limit);
        materials_are_distinct(names.drop_last(), limit);
        place_in_range(before, names.last());
    }
}

fn layer_of(materials: &mut Vec<String>, name: &String, limit: usize) -> (r: u32)
    requires
        0 < limit <= u32::MAX,
        old(materials)@.len() <= limit,
    ensures
        texts(final(materials)@) == (if place(texts(old(materials)@), name@) is Some || old(
            materials,
        )@.len() >= limit {
            texts(old(materials)@)
        } else {
            texts(old(materials)@).push(name@)
        }),
        r == layer_in(texts(final(materials)@), name@, limit as int),
        place(texts(final(materials)@), name@) is Some || final(materials)@.len() >= limit,
        final(materials)@.len() <= limit,
{
    let ghost before = texts(materials@);
    match find_text(materials, name) {
        Some(f) => f as u32,
        None => {
            if materials.len() >= limit {
                (limit - 1) as u32
            } else {
                materials.push(name.clone());
                proof {
                    assert(texts(materials@) =~= before.push(name@));
                    assert(before.push(name@).drop_last() =~= before);
                }
                (materials.len() - 1) as u32
            }
        },
    }
}

// ---------------------------------------------------------------------------
// Meshing a scene
// ---------------------------------------------------------------------------

/// How many corners a group has.
pub open spec fn corner_count(g: MeshGroup) -> nat {
    (g.positions@.len() / 3) as nat
}

/// Whether every corner of a group has its normal, tangent and coordinates.
pub open spec fn group_is_whole(g: MeshGroup) -> bool {
    let n = corner_count(g);
    &&& g.normals@.len() >= 3 * n
    &&& g.tangents@.len() >= 4 * n
    &&& g.uvs@.len() >= 2 * n
    &&& g.uv2@.len() >= 2 * n
}

/// A corner of a group.
pub open spec fn corner(g: MeshGroup, i: int, material: u32, tint: Vec4) -> BrushVertex {
    BrushVertex {
        position: Vec3 {
            x: g.positions@[i * 3],
            y: g.positions@[i * 3 + 1],
            z: g.positions@[i * 3 + 2],
        },
        normal: Vec3 { x: g.normals@[i * 3], y: g.normals@[i * 3 + 1], z: g.normals@[i * 3 + 2] },
        tangent: Vec4 {
            x: g.tangents@[i * 4],
            y: g.tangents@[i * 4 + 1],
            z: g.tangents@[i * 4 + 2],
            w: g.tangents@[i * 4 + 3],
        },
        uv: Vec2 { x: g.uvs@[i * 2], y: g.uvs@[i * 2 + 1] },
        material,
        tint,
        uv2: Vec2 { x: g.uv2@[i * 2], y: g.uv2@[i * 2 + 1] },
    }
}

/// The corners of a group.
pub open spec fn group_corners(g: MeshGroup, material: u32, tint: Vec4) -> Seq<BrushVertex> {
    Seq::new(corner_count(g), |i: int| corner(g, i, material, tint))
}

/// The corners of an object, group after group, each with the layer of its
/// group's material.
pub open spec fn object_corners(
    groups: Seq<MeshGroup>,
    materials: Seq<Seq<char>>,
    limit: int,
    tint: Vec4,
) -> Seq<BrushVertex>
    decreases groups.len(),
{
    if groups.len() == 0 {
        Seq::empty()
    } else {
        let g = groups.last();
        object_corners(groups.drop_last(), materials, limit, tint) + group_corners(
            g,
            layer_in(materials, g.material@, limit) as u32,
            tint,
        )
    }
}

/// How many corners a list of groups has.
pub open spec fn corners_in(groups: Seq<MeshGroup>) -> nat
    decreases groups.len(),
{
    if groups.len() == 0 {
        0
    } else {
        corners_in(groups.drop_last()) + corner_count(groups.last())
    }
}

/// Indices moved up by a base.
pub open spec fn rebased(indices: Seq<u32>, base: int) -> Seq<int> {
    indices.map_values(|i: u32| i + base)
}

/// The indices of an object, group after group, each group's counted from its
/// own first corner.
pub open spec fn object_indices(groups: Seq<MeshGroup>) -> Seq<int>
    decreases groups.len(),
{
    if groups.len() == 0 {
        Seq::empty()
    } else {
        object_indices(groups.drop_last()) + rebased(
            groups.last().indices@,
            corners_in(groups.drop_last()) as int,
        )
    }
}

/// The material names of a list of groups.
pub open spec fn group_names(groups: Seq<MeshGroup>) -> Seq<Seq<char>> {
    groups.map_values(|g: MeshGroup| g.material@)
}

/// The material names that a scene's brush faces reference, in scene order.
pub open spec fn scene_names(objects: Seq<GameObject>) -> Seq<Seq<char>>
    decreases objects.len(),
{
    if objects.len() == 0 {
        Seq::empty()
    } else {
        scene_names(objects.drop_last()) + match objects.last().brush {
            Some(groups) => group_names(groups@),
            None => Seq::empty(),
        }
    }
}

/// The brushes of a scene, meshed. One that has no geometry is left out.
pub open spec fn meshed(
    objects: Seq<GameObject>,
    materials: Seq<Seq<char>>,
    limit: int,
) -> Seq<Solid>
    decreases objects.len(),
{
    if objects.len() == 0 {
        Seq::empty()
    } else {
        let before = meshed(objects.drop_last(), materials, limit);
        let o = objects.last();
        match o.brush {
            Some(groups) => {
                let vertices = object_corners(groups@, materials, limit, o.tint);
                let indices = object_indices(groups@);
                if vertices.len() == 0 || indices.len() == 0 {
                    before
                } else {
                    before.push(Solid { id: o.id@, vertices, indices })
                }
            },
            None => before,
        }
    }
}

/// Which objects of a scene are brushes.
pub open spec fn brush_flags(objects: Seq<GameObject>) -> Seq<bool> {
    objects.map_values(|o: GameObject| o.brush is Some)
}

/// How many of the flags before a place are set.
pub open spec fn flags_before(flags: Seq<bool>, i: int) -> nat
    decreases i,
{
    if i <= 0 {
        0
    } else {
        flags_before(flags, i - 1) + (if flags[i - 1] {
            1nat
        } else {
            0nat
        })
    }
}

proof fn flags_bounded(flags: Seq<bool>, i: int)
    requires
        0 <= i,
    ensures
        flags_before(flags, i) <= i,
    decreases i,
{
    if i > 0 {
        flags_bounded(flags, i - 1);
    }
}

proof fn flags_mount_up(flags: Seq<bool>, i: int, j: int)
    requires
        0 <= i <= j,
    ensures
        flags_before(flags, i) <= flags_before(flags, j),
    decreases j - i,
{
    if i < j {
        flags_mount_up(flags, i, j - 1);
    }
}

/// The number of each brush in the layout of the baked lighting: how many brushes
/// come before it in the scene. An object that is no brush has none.
///
/// A brush takes its number whatever it meshes to, so one that has no geometry
/// does not shift the lighting of those after it.
pub fn brush_numbers(has_brush: &Vec<bool>) -> (r: Vec<Option<usize>>)
    ensures
        r@.len() == has_brush@.len(),
        forall|i: int|
            0 <= i < has_brush@.len() ==> match #[trigger] r@[i] {
                Some(n) => has_brush@[i] && n == flags_before(has_brush@, i),
                None => !has_brush@[i],
            },
{
    let mut numbers: Vec<Option<usize>> = Vec::new();
    let mut next: usize = 0;
    let mut i: usize = 0;
    while i < has_brush.len()
        invariant
            i <= has_brush@.len(),
            numbers@.len() == i,
            next == flags_before(has_brush@, i as int),
            forall|k: int|
                0 <= k < i ==> match #[trigger] numbers@[k] {
                    Some(n) => has_brush@[k] && n == flags_before(has_brush@, k),
                    None => !has_brush@[k],
                },
        decreases has_brush@.len() - i,
    {
        proof {
            flags_bounded(has_brush@, i as int);
        }
        if has_brush[i] {
            numbers.push(Some(next));
            next = next + 1;
        } else {
            numbers.push(None);
        }
        i = i + 1;
    }
    numbers
}

/// Brushes are numbered from zero upwards in scene order, and no two share a
/// number.
pub proof fn brushes_are_numbered_in_order(flags: Seq<bool>, i: int, j: int)
    requires
        0 <= i < j < flags.len(),
        flags[i],
        flags[j],
    ensures
        flags_before(flags, i) < flags_before(flags, j) < flags_before(flags, flags.len() as int),
{
    flags_mount_up(flags, i + 1, j);
    flags_mount_up(flags, j + 1, flags.len() as int);
}

/// What a brush meshes to changes nobody's number: one that has no geometry, and
/// is left out, counts as before.
pub proof fn a_brush_without_geometry_keeps_its_number(
    objects: Seq<GameObject>,
    i: int,
    other: GameObject,
    k: int,
)
    requires
        0 <= i < objects.len(),
        objects[i].brush is Some,
        other.brush is Some,
    ensures
        flags_before(brush_flags(objects.update(i, other)), k) == flags_before(
            brush_flags(objects),
            k,
        ),
{
    assert(brush_flags(objects.update(i, other)) =~= brush_flags(objects));
}

/// Whether a brush has anything to draw.
pub open spec fn has_geometry(groups: Seq<MeshGroup>) -> bool {
    corners_in(groups) > 0 && object_indices(groups).len() > 0
}

/// The ids of the brushes that have nothing to draw, in scene order.
pub open spec fn without_geometry(objects: Seq<GameObject>) -> Seq<Seq<char>>
    decreases objects.len(),
{
    if objects.len() == 0 {
        Seq::empty()
    } else {
        let before = without_geometry(objects.drop_last());
        match objects.last().brush {
            Some(groups) => if has_geometry(groups@) {
                before
            } else {
                before.push(objects.last().id@)
            },
            None => before,
        }
    }
}

fn is_drawable(groups: &Vec<MeshGroup>) -> (r: bool)
    ensures
        r == has_geometry(groups@),
{
    let mut corners = false;
    let mut indices = false;
    let mut j: usize = 0;
    assert(groups@.take(0) =~= Seq::empty());
    while j < groups.len()
        invariant
            j <= groups@.len(),
            corners == (corners_in(groups@.take(j as int)) > 0),
            indices == (object_indices(groups@.take(j as int)).len() > 0),
        decreases groups@.len() - j,
    {
        proof {
            assert(groups@.take(j + 1).drop_last() =~= groups@.take(j as int));
        }
        if groups[j].positions.len() / 3 > 0 {
            corners = true;
        }
        if groups[j].indices.len() > 0 {
            indices = true;
        }
        j = j + 1;
    }
    assert(groups@.take(j as int) =~= groups@);
    corners && indices
}

/// The ids of the brushes that have nothing to draw. They are left out of the
/// level and worth a warning: one broken solid can then be told from the log.
pub fn dropped_brushes(scene: &Scene) -> (r: Vec<String>)
    ensures
        texts(r@) == without_geometry(scene.objects@),
{
    let mut dropped: Vec<String> = Vec::new();
    let mut i: usize = 0;
    assert(texts(dropped@) =~= Seq::empty());
    assert(scene.objects@.take(0) =~= Seq::empty());
    while i < scene.objects.len()
        invariant
            i <= scene.objects@.len(),
            texts(dropped@) == without_geometry(scene.objects@.take(i as int)),
        decreases scene.objects@.len() - i,
    {
        let obj = &scene.objects[i];
        proof {
            assert(scene.objects@.take(i + 1).drop_last() =~= scene.objects@.take(i as int));
        }
        if let Some(groups) = &obj.brush {
            if !is_drawable(groups) {
                let ghost had = dropped@;
                dropped.push(obj.id.clone());
                assert(texts(dropped@) =~= texts(had).push(obj.id@));
            }
        }
        i = i + 1;
    }
    assert(scene.objects@.take(i as int) =~= scene.objects@);
    dropped
}

/// Every brush is either drawn or listed as one that is not.
pub proof fn no_brush_goes_missing(
    objects: Seq<GameObject>,
    materials: Seq<Seq<char>>,
    limit: int,
)
    ensures
        meshed(objects, materials, limit).len() + without_geometry(objects).len() == flags_before(
            brush_flags(objects),
            objects.len() as int,
        ),
    decreases objects.len(),
{
    if objects.len() > 0 {
        let front = objects.drop_last();
        no_brush_goes_missing(front, materials, limit);
        let n = objects.len() - 1;
        flags_agree(brush_flags(front), brush_flags(objects), n as int);
        if let Some(groups) = objects.last().brush {
            corners_counted(groups@, materials, limit, objects.last().tint);
        }
    }
}

proof fn flags_agree(a: Seq<bool>, b: Seq<bool>, i: int)
    requires
        0 <= i <= a.len(),
        i <= b.len(),
        forall|k: int| 0 <= k < i ==> a[k] == b[k],
    ensures
        flags_before(a, i) == flags_before(b, i),
    decreases i,
{
    if i > 0 {
        flags_agree(a, b, i - 1);
    }
}

/// The materials of a scene's brush faces in layer order: those first seen, and no
/// more than `limit` of them.
pub fn scene_materials(scene: &Scene, limit: usize) -> (r: Vec<String>)
    requires
        0 < limit <= u32::MAX,
    ensures
        texts(r@) == first_seen(scene_names(scene.objects@), limit as int),
{
    let mut materials: Vec<String> = Vec::new();
    let mut i: usize = 0;
    assert(texts(materials@) =~= Seq::empty());
    assert(scene.objects@.take(0) =~= Seq::empty());
    while i < scene.objects.len()
        invariant
            i <= scene.objects@.len(),
            0 < limit <= u32::MAX,
            materials@.len() <= limit,
            texts(materials@) == first_seen(
                scene_names(scene.objects@.take(i as int)),
                limit as int,
            ),
        decreases scene.objects@.len() - i,
    {
        let obj = &scene.objects[i];
        let ghost done = scene_names(scene.objects@.take(i as int));
        proof {
            assert(scene.objects@.take(i + 1).drop_last() =~= scene.objects@.take(i as int));
        }
        match &obj.brush {
            Some(groups) => {
                let mut j: usize = 0;
                assert(done + group_names(groups@.take(0)) =~= done);
                while j < groups.len()
                    invariant
                        j <= groups@.len(),
                        0 < limit <= u32::MAX,
                        materials@.len() <= limit,
                        texts(materials@) == first_seen(
                            done + group_names(groups@.take(j as int)),
                            limit as int,
                        ),
                    decreases groups@.len() - j,
                {
                    proof {
                        let now = done + group_names(groups@.take(j + 1));
                        assert(now.drop_last() =~= done + group_names(groups@.take(j as int)));
                        assert(now.last() == groups@[j as int].material@);
                    }
                    layer_of(&mut materials, &groups[j].material, limit);
                    j = j + 1;
                }
                assert(groups@.take(j as int) =~= groups@);
            },
            None => {
                assert(done + Seq::<Seq<char>>::empty() =~= done);
            },
        }
        i = i + 1;
    }
    assert(scene.objects@.take(i as int) =~= scene.objects@);
    materials
}

/// The names of a list that have no layer of their own, each as often as it is
/// named.
pub open spec fn without_layer(
    names: Seq<Seq<char>>,
    materials: Seq<Seq<char>>,
) -> Seq<Seq<char>>
    decreases names.len(),
{
    if names.len() == 0 {
        Seq::empty()
    } else {
        let before = without_layer(names.drop_last(), materials);
        if place(materials, names.last()) is None {
            before.push(names.last())
        } else {
            before
        }
    }
}

/// The materials of a scene's brush faces that are not among the layers, once for
/// each group of faces that names one. They are drawn with the last layer, and
/// worth a warning.
pub fn clamped_materials(scene: &Scene, materials: &Vec<String>) -> (r: Vec<String>)
    ensures
        texts(r@) == without_layer(scene_names(scene.objects@), texts(materials@)),
{
    let ghost layers = texts(materials@);
    let mut clamped: Vec<String> = Vec::new();
    let mut i: usize = 0;
    assert(texts(clamped@) =~= Seq::empty());
    assert(scene.objects@.take(0) =~= Seq::empty());
    while i < scene.objects.len()
        invariant
            i <= scene.objects@.len(),
            layers == texts(materials@),
            texts(clamped@) == without_layer(scene_names(scene.objects@.take(i as int)), layers),
        decreases scene.objects@.len() - i,
    {
        let obj = &scene.objects[i];
        let ghost done = scene_names(scene.objects@.take(i as int));
        proof {
            assert(scene.objects@.take(i + 1).drop_last() =~= scene.objects@.take(i as int));
        }
        match &obj.brush {
            Some(groups) => {
                let mut j: usize = 0;
                assert(done + group_names(groups@.take(0)) =~= done);
                while j < groups.len()
                    invariant
                        j <= groups@.len(),
                        layers == texts(materials@),
                        texts(clamped@) == without_layer(
                            done + group_names(groups@.take(j as int)),
                            layers,
                        ),
                    decreases groups@.len() - j,
                {
                    let ghost had = clamped@;
                    proof {
                        let now = done + group_names(groups@.take(j + 1));
                        assert(now.drop_last() =~= done + group_names(groups@.take(j as int)));
                        assert(now.last() == groups@[j as int].material@);
                    }
                    if find_text(materials, &groups[j].material).is_none() {
                        clamped.push(groups[j].material.clone());
                        assert(texts(clamped@) =~= texts(had).push(groups@[j as int].material@));
                    }
                    j = j + 1;
                }
                assert(groups@.take(j as int) =~= groups@);
            },
            None => {
                assert(done + Seq::<Seq<char>>::empty() =~= done);
            },
        }
        i = i + 1;
    }
    assert(scene.objects@.take(i as int) =~= scene.objects@);
    clamped
}

/// A material is drawn with a layer that is not its own just where it is listed
/// as one without, and that only happens once the layers are full.
pub proof fn only_full_layers_clamp(names: Seq<Seq<char>>, limit: int, name: Seq<char>)
    requires
        names.contains(name),
    ensures
        without_layer(names, first_seen(names, limit)).contains(name) <==> !first_seen(
            names,
            limit,
        ).contains(name),
        !first_seen(names, limit).contains(name) ==> first_seen(names, limit).len() >= limit,
{
    let materials = first_seen(names, limit);
    seen_or_full(names, limit, name);
    place_in_range(materials, name);
    without_layer_lists(names, materials, name);
}

proof fn without_layer_lists(
    names: Seq<Seq<char>>,
    materials: Seq<Seq<char>>,
    name: Seq<char>,
)
    ensures
        without_layer(names, materials).contains(name) <==> names.contains(name) && place(
            materials,
            name,
        ) is None,
    decreases names.len(),
{
    if names.len() > 0 {
        let front = names.drop_last();
        let before = without_layer(front, materials);
        without_layer_lists(front, materials, name);
        assert(names =~= front.push(names.last()));
        assert(names.contains(name) <==> front.contains(name) || names.last() == name) by {
            if front.contains(name) {
                let i = choose|i: int| 0 <= i < front.len() && front[i] == name;
                assert(names[i] == name);
            }
            if names.contains(name) && names.last() != name {
                let i = choose|i: int| 0 <= i < names.len() && names[i] == name;
                assert(front[i] == name);
            }
            if names.last() == name {
                assert(names[names.len() - 1] == name);
            }
        }
        if place(materials, names.last()) is None {
            let now = before.push(names.last());
            assert(now.contains(name) <==> before.contains(name) || names.last() == name) by {
                if before.contains(name) {
                    let i = choose|i: int| 0 <= i < before.len() && before[i] == name;
                    assert(now[i] == name);
                }
                if names.last() == name {
                    assert(now[before.len() as int] == name);
                }
                if now.contains(name) && names.last() != name {
                    let i = choose|i: int| 0 <= i < now.len() && now[i] == name;
                    assert(before[i] == name);
                }
            }
        }
    }
}

/// Whether a brush can be meshed: its groups are whole and its indices fit.
pub open spec fn can_be_meshed(groups: Seq<MeshGroup>) -> bool {
    &&& forall|j: int| 0 <= j < groups.len() ==> group_is_whole(#[trigger] groups[j])
    &&& fits(object_indices(groups))
}

/// Whether indices fit the buffer's number type.
pub open spec fn fits(indices: Seq<int>) -> bool {
    forall|k: int| 0 <= k < indices.len() ==> 0 <= #[trigger] indices[k] <= u32::MAX
}

proof fn scene_names_prefix(objects: Seq<GameObject>, i: int)
    requires
        0 <= i <= objects.len(),
    ensures
        scene_names(objects.take(i)).len() <= scene_names(objects).len(),
        scene_names(objects).take(scene_names(objects.take(i)).len() as int) =~= scene_names(
            objects.take(i),
        ),
    decreases objects.len() - i,
{
    if i < objects.len() {
        scene_names_prefix(objects, i + 1);
        assert(objects.take(i + 1).drop_last() =~= objects.take(i));
        let all = scene_names(objects);
        let next = scene_names(objects.take(i + 1));
        let here = scene_names(objects.take(i));
        assert(next.take(here.len() as int) =~= here);
        assert(all.take(here.len() as int) =~= next.take(here.len() as int));
    } else {
        assert(objects.take(i) =~= objects);
    }
}

proof fn corners_counted(
    groups: Seq<MeshGroup>,
    materials: Seq<Seq<char>>,
    limit: int,
    tint: Vec4,
)
    ensures
        object_corners(groups, materials, limit, tint).len() == corners_in(groups),
    decreases groups.len(),
{
    if groups.len() > 0 {
        corners_counted(groups.drop_last(), materials, limit, tint);
    }
}

proof fn object_indices_prefix(groups: Seq<MeshGroup>, j: int)
    requires
        0 <= j <= groups.len(),
        fits(object_indices(groups)),
    ensures
        fits(object_indices(groups.take(j))),
    decreases groups.len() - j,
{
    if j < groups.len() {
        object_indices_prefix(groups, j + 1);
        assert(groups.take(j + 1).drop_last() =~= groups.take(j));
        let next = object_indices(groups.take(j + 1));
        let here = object_indices(groups.take(j));
        assert forall|k: int| 0 <= k < here.len() implies 0 <= #[trigger] here[k] <= u32::MAX by {
            assert(next[k] == here[k]);
        }
    } else {
        assert(groups.take(j) =~= groups);
    }
}

fn push_group(
    g: &MeshGroup,
    material: u32,
    tint: Vec4,
    vertices: &mut Vec<BrushVertex>,
    indices: &mut Vec<u32>,
)
    requires
        group_is_whole(*g),
        fits(rebased(g.indices@, old(vertices)@.len() as int)),
    ensures
        final(vertices)@ == old(vertices)@ + group_corners(*g, material, tint),
        numbers(final(indices)@) == numbers(old(indices)@) + rebased(
            g.indices@,
            old(vertices)@.len() as int,
        ),
{
    let base: u32 = #[verifier::truncate] (vertices.len() as u32);
    let numbers_in: usize = g.positions.len();
    let tangent_numbers: usize = g.tangents.len();
    let n: usize = numbers_in / 3;
    let ghost had = vertices@;
    let mut i: usize = 0;
    while i < n
        invariant
            i <= n,
            n == corner_count(*g),
            n * 3 <= numbers_in == g.positions@.len(),
            n * 4 <= tangent_numbers == g.tangents@.len(),
            group_is_whole(*g),
            vertices@ =~= had + group_corners(*g, material, tint).take(i as int),
        decreases n - i,
    {
        vertices.push(
            BrushVertex {
                position: Vec3 {
                    x: g.positions[i * 3],
                    y: g.positions[i * 3 + 1],
                    z: g.positions[i * 3 + 2],
                },
                normal: Vec3 {
                    x: g.normals[i * 3],
                    y: g.normals[i * 3 + 1],
                    z: g.normals[i * 3 + 2],
                },
                tangent: Vec4 {
                    x: g.tangents[i * 4],
                    y: g.tangents[i * 4 + 1],
                    z: g.tangents[i * 4 + 2],
                    w: g.tangents[i * 4 + 3],
                },
                uv: Vec2 { x: g.uvs[i * 2], y: g.uvs[i * 2 + 1] },
                material,
                tint,
                uv2: Vec2 { x: g.uv2[i * 2], y: g.uv2[i * 2 + 1] },
            },
        );
        i = i + 1;
    }
    assert(vertices@ =~= had + group_corners(*g, material, tint));
    let ghost from = indices@;
    let ghost moved = rebased(g.indices@, had.len() as int);
    let mut k: usize = 0;
    while k < g.indices.len()
        invariant
            k <= g.indices@.len(),
            base == had.len() as u32,
            moved == rebased(g.indices@, had.len() as int),
            fits(moved),
            numbers(indices@) =~= numbers(from) + moved.take(k as int),
        decreases g.indices@.len() - k,
    {
        proof {
            assert(moved[k as int] == g.indices@[k as int] + had.len());
        }
        let ghost before = indices@;
        indices.push(g.indices[k] + base);
        proof {
            assert(numbers(indices@) =~= numbers(before).push(moved[k as int]));
        }
        k = k + 1;
    }
    assert(numbers(indices@) =~= numbers(from) + moved);
}

/// Every brush of the scene, and the buffer last assembled from them.
#[derive(Debug)]
pub struct BrushGeometry {
    pub objects: Vec<BrushObject>,
    pub vertices: Vec<BrushVertex>,
    pub indices: Vec<u32>,
    pub built_for: Option<BuildKey>,
    pub materials: Vec<String>,
}

/// What the last assembly was made for.
#[derive(Clone, Copy, Debug, PartialEq, Eq, Structural)]
pub struct BuildKey {
    pub offset: Vec3,
    pub player_yaw: Scalar,
    pub hidden: u64,
}

/// Whether a scene's brushes can be loaded with at most so many materials.
pub open spec fn loadable(scene: Scene, limit: usize) -> bool {
    &&& 0 < limit <= u32::MAX
    &&& forall|i: int|
        0 <= i < scene.objects@.len() ==> (
        (#[trigger] scene.objects@[i]).brush matches Some(groups) ==> can_be_meshed(groups@))
}

/// Whether geometry is that of a scene's brushes, with nothing assembled yet.
pub open spec fn is_loaded(g: BrushGeometry, scene: Scene, limit: usize) -> bool {
    &&& texts(g.materials@) == first_seen(scene_names(scene.objects@), limit as int)
    &&& solids(g.objects@) == meshed(scene.objects@, texts(g.materials@), limit as int)
    &&& g.vertices@.len() == 0
    &&& g.indices@.len() == 0
    &&& g.built_for is None
}

impl BrushGeometry {
    /// A scene without brushes.
    pub fn empty() -> (r: BrushGeometry)
        ensures
            r.objects@.len() == 0,
            r.vertices@.len() == 0,
            r.indices@.len() == 0,
            r.built_for is None,
            r.materials@.len() == 0,
    {
        BrushGeometry {
            objects: Vec::new(),
            vertices: Vec::new(),
            indices: Vec::new(),
            built_for: None,
            materials: Vec::new(),
        }
    }

    /// The material ids that this scene's brushes reference, in layer order.
    pub fn materials(&self) -> (r: &[String])
        ensures
            r@ == self.materials@,
    {
        self.materials.as_slice()
    }

    /// Whether the scene has no brushes.
    pub fn is_empty(&self) -> (r: bool)
        ensures
            r == (self.objects@.len() == 0),
    {
        self.objects.len() == 0
    }

    /// How many brushes the scene has.
    pub fn object_count(&self) -> (r: usize)
        ensures
            r == self.objects@.len(),
    {
        self.objects.len()
    }

    /// Meshes every brush of a scene, with at most `limit` material layers.
    ///
    /// Layers are given in the order in which materials are first seen. A
    /// material beyond the limit is drawn with the last layer; wrapping round
    /// would paint its faces with an unrelated one. A brush that produces no
    /// geometry is left out.
    pub fn load(scene: &Scene, limit: usize) -> (r: BrushGeometry)
        requires
            loadable(*scene, limit),
        ensures
            is_loaded(r, *scene, limit),
    {
        let ghost all = scene_names(scene.objects@);
        let ghost fin = first_seen(all, limit as int);
        let ghost lim = limit as int;
        let mut materials: Vec<String> = Vec::new();
        let mut objects: Vec<BrushObject> = Vec::new();
        assert(texts(materials@) =~= Seq::empty());
        assert(scene.objects@.take(0) =~= Seq::empty());
        assert(solids(objects@) =~= Seq::empty());
        let mut i: usize = 0;
        while i < scene.objects.len()
            invariant
                i <= scene.objects@.len(),
                0 < limit <= u32::MAX,
                lim == limit,
                all == scene_names(scene.objects@),
                fin == first_seen(all, lim),
                forall|k: int|
                    0 <= k < scene.objects@.len() ==> (
                    (#[trigger] scene.objects@[k]).brush matches Some(groups) ==> can_be_meshed(
                        groups@,
                    )),
                materials@.len() <= limit,
                texts(materials@) == first_seen(scene_names(scene.objects@.take(i as int)), lim),
                solids(objects@) == meshed(scene.objects@.take(i as int), fin, lim),
            decreases scene.objects@.len() - i,
        {
            let obj = &scene.objects[i];
            let ghost done = scene_names(scene.objects@.take(i as int));
            proof {
                assert(scene.objects@.take(i + 1).drop_last() =~= scene.objects@.take(i as int));
                assert(scene.objects@.take(i + 1).last() == *obj);
                scene_names_prefix(scene.objects@, i + 1);
            }
            match &obj.brush {
                Some(groups) => {
                    let mut vertices: Vec<BrushVertex> = Vec::new();
                    let mut indices: Vec<u32> = Vec::new();
                    assert(can_be_meshed(groups@));
                    assert(groups@.take(0) =~= Seq::empty());
                    assert(done + group_names(groups@.take(0)) =~= done);
                    assert(numbers(indices@) =~= Seq::empty());
                    let mut j: usize = 0;
                    while j < groups.len()
                        invariant
                            j <= groups@.len(),
                            i < scene.objects@.len(),
                            0 < limit <= u32::MAX,
                            lim == limit,
                            *obj == scene.objects@[i as int],
                            obj.brush == Some(*groups),
                            all == scene_names(scene.objects@),
                            fin == first_seen(all, lim),
                            done == scene_names(scene.objects@.take(i as int)),
                            done + group_names(groups@) == scene_names(
                                scene.objects@.take(i + 1),
                            ),
                            scene_names(scene.objects@.take(i + 1)).len() <= all.len(),
                            all.take(scene_names(scene.objects@.take(i + 1)).len() as int)
                                == scene_names(scene.objects@.take(i + 1)),
                            can_be_meshed(groups@),
                            materials@.len() <= limit,
                            texts(materials@) == first_seen(
                                done + group_names(groups@.take(j as int)),
                                lim,
                            ),
                            vertices@ == object_corners(
                                groups@.take(j as int),
                                fin,
                                lim,
                                obj.tint,
                            ),
                            numbers(indices@) == object_indices(groups@.take(j as int)),
                        decreases groups@.len() - j,
                    {
                        let g = &groups[j];
                        let ghost seen = done + group_names(groups@.take(j as int));
                        let material = layer_of(&mut materials, &g.material, limit);
                        proof {
                            let now = groups@.take(j + 1);
                            assert(now.drop_last() =~= groups@.take(j as int));
                            let next = done + group_names(now);
                            assert(next.drop_last() =~= seen);
                            assert(next.last() == g.material@);
                            assert(texts(materials@) == first_seen(next, lim));
                            let n = next.len() as int;
                            assert(all.take(n) =~= next) by {
                                let upto = done + group_names(groups@);
                                assert(all.take(n) =~= all.take(upto.len() as int).take(n));
                                assert(upto.take(n) =~= next);
                            }
                            layer_is_settled(all, n, all.len() as int, g.material@, lim);
                            assert(all.take(all.len() as int) =~= all);
                            object_indices_prefix(groups@, j + 1);
                            corners_counted(groups@.take(j as int), fin, lim, obj.tint);
                            let idx = object_indices(now);
                            let old_idx = object_indices(groups@.take(j as int));
                            let moved = rebased(g.indices@, vertices@.len() as int);
                            assert forall|k: int| 0 <= k < moved.len() implies 0
                                <= #[trigger] moved[k] <= u32::MAX by {
                                assert(idx[old_idx.len() + k] == moved[k]);
                            }
                        }
                        push_group(g, material, obj.tint, &mut vertices, &mut indices);
                        j = j + 1;
                    }
                    proof {
                        assert(groups@.take(j as int) =~= groups@);
                        assert(numbers(indices@).len() == indices@.len());
                    }
                    if vertices.len() > 0 && indices.len() > 0 {
                        let ghost before = objects@;
                        objects.push(BrushObject { id: obj.id.clone(), vertices, indices });
                        proof {
                            assert(solids(objects@) =~= solids(before).push(objects@.last()@));
                        }
                    }
                },
                None => {
                    assert(done + Seq::<Seq<char>>::empty() =~= done);
                },
            }
            i = i + 1;
        }
        proof {
            assert(scene.objects@.take(i as int) =~= scene.objects@);
        }
        BrushGeometry {
            objects,
            vertices: Vec::new(),
            indices: Vec::new(),
            built_for: None,
            materials,
        }
    }
}

// ---------------------------------------------------------------------------
// The hidden set
// ---------------------------------------------------------------------------

/// The sum of the hashes of a list of ids.
pub open spec fn hash_sum(ids: Seq<Seq<char>>) -> nat
    decreases ids.len(),
{
    if ids.len() == 0 {
        0
    } else {
        hash_sum(ids.drop_last()) + text_hash(ids.last()) as nat
    }
}

/// The fingerprint of a list of ids: how many there are plus the sum of their
/// hashes, modulo two to the sixty-four.
pub open spec fn fingerprint(ids: Seq<Seq<char>>) -> int {
    (ids.len() + hash_sum(ids)) as int % 0x1_0000_0000_0000_0000
}

/// A fingerprint of the hidden set that does not depend on its order.
///
/// The list is built by walking the scene, and a reorder is not a change: a
/// fingerprint of the order would rebuild the level's geometry for nothing.
pub fn hidden_fingerprint(hidden: &[String]) -> (r: u64)
    ensures
        r == fingerprint(texts(hidden@)),
{
    let ghost ids = texts(hidden@);
    let mut acc: u64 = hidden.len() as u64;
    let mut i: usize = 0;
    assert(hash_sum(ids.take(0)) == 0);
    while i < hidden.len()
        invariant
            i <= hidden@.len(),
            ids == texts(hidden@),
            acc == (ids.len() + hash_sum(ids.take(i as int))) as int % 0x1_0000_0000_0000_0000,
        decreases hidden@.len() - i,
    {
        let h: u64 = hash_text(hidden[i].as_str());
        proof {
            assert(ids.take(i + 1).drop_last() =~= ids.take(i as int));
            assert(ids.take(i + 1).last() == hidden@[i as int]@);
            let sum = (ids.len() + hash_sum(ids.take(i as int))) as int;
            let m: int = 0x1_0000_0000_0000_0000;
            assert((sum + h) % m == if sum % m + h >= m {
                sum % m + h - m
            } else {
                sum % m + h
            }) by (nonlinear_arith)
                requires
                    0 <= h < m,
                    m == 0x1_0000_0000_0000_0000,
                    sum >= 0,
            ;
        }
        acc = acc.wrapping_add(h);
        i = i + 1;
    }
    proof {
        assert(ids.take(i as int) =~= ids);
    }
    acc
}

proof fn hash_sum_without(ids: Seq<Seq<char>>, i: int)
    requires
        0 <= i < ids.len(),
    ensures
        hash_sum(ids) == hash_sum(ids.remove(i)) + text_hash(ids[i]) as nat,
    decreases ids.len(),
{
    if i < ids.len() - 1 {
        hash_sum_without(ids.drop_last(), i);
        assert(ids.remove(i).drop_last() =~= ids.drop_last().remove(i));
    } else {
        assert(ids.remove(i) =~= ids.drop_last());
    }
}

proof fn hash_sum_of_permutation(a: Seq<Seq<char>>, b: Seq<Seq<char>>)
    requires
        a.to_multiset() == b.to_multiset(),
    ensures
        a.len() == b.len(),
        hash_sum(a) == hash_sum(b),
    decreases a.len(),
{
    broadcast use vstd::seq_lib::group_to_multiset_ensures;

    assert(a.len() == a.to_multiset().len());
    assert(b.len() == b.to_multiset().len());
    if a.len() > 0 {
        let x = a.last();
        assert(a.contains(x));
        assert(a.to_multiset().count(x) > 0);
        assert(b.contains(x));
        let i = choose|i: int| 0 <= i < b.len() && b[i] == x;
        assert(a.remove(a.len() - 1) =~= a.drop_last());
        assert(a.drop_last().to_multiset() == b.remove(i).to_multiset());
        hash_sum_of_permutation(a.drop_last(), b.remove(i));
        hash_sum_without(b, i);
    }
}

/// Reordering the hidden list is not a change.
pub proof fn fingerprint_ignores_order(a: Seq<Seq<char>>, b: Seq<Seq<char>>)
    requires
        a.to_multiset() == b.to_multiset(),
    ensures
        fingerprint(a) == fingerprint(b),
{
    hash_sum_of_permutation(a, b);
}

// ---------------------------------------------------------------------------
// Assembly
// ---------------------------------------------------------------------------

/// The corners of the brushes that are not hidden, in order.
pub open spec fn shown_corners(objects: Seq<Solid>, hidden: Seq<Seq<char>>) -> Seq<BrushVertex>
    decreases objects.len(),
{
    if objects.len() == 0 {
        Seq::empty()
    } else {
        let before = shown_corners(objects.drop_last(), hidden);
        if hidden.contains(objects.last().id) {
            before
        } else {
            before + objects.last().vertices
        }
    }
}

/// The indices of the brushes that are not hidden, each brush's counted from its
/// own first corner.
pub open spec fn shown_indices(objects: Seq<Solid>, hidden: Seq<Seq<char>>) -> Seq<int>
    decreases objects.len(),
{
    if objects.len() == 0 {
        Seq::empty()
    } else {
        let before = shown_indices(objects.drop_last(), hidden);
        if hidden.contains(objects.last().id) {
            before
        } else {
            let base = shown_corners(objects.drop_last(), hidden).len() as int;
            before + objects.last().indices.map_values(|i: int| i + base)
        }
    }
}

/// Whether `place` may put a corner where `to` has it, with the rest of the
/// corner kept.
pub open spec fn placed_as<F: Fn(BrushVertex) -> PlacedVertex>(
    from: BrushVertex,
    place: F,
    to: BrushVertex,
) -> bool {
    exists|p: PlacedVertex| #[trigger] call_ensures(place, (from,), p) && to == from.moved_to(p)
}

/// Whether `place` may put every corner of a list where `to` has it.
pub open spec fn all_placed<F: Fn(BrushVertex) -> PlacedVertex>(
    from: Seq<BrushVertex>,
    place: F,
    to: Seq<BrushVertex>,
) -> bool {
    &&& from.len() == to.len()
    &&& forall|k: int| 0 <= k < to.len() ==> placed_as(from[k], place, #[trigger] to[k])
}

/// Whether two corners are of the same surface, wherever they stand.
pub open spec fn same_surface(a: BrushVertex, b: BrushVertex) -> bool {
    a.uv == b.uv && a.material == b.material && a.tint == b.tint && a.uv2 == b.uv2 && a.tangent.w
        == b.tangent.w
}

impl BuildKey {
    /// Whether an assembly made for this key serves another: the same place, the
    /// same direction and the same fingerprint of the hidden set.
    pub open spec fn serves(self, other: BuildKey) -> bool {
        self.offset.same_point(other.offset) && self.player_yaw.same_number(other.player_yaw)
            && self.hidden == other.hidden
    }

    fn covers(self, other: BuildKey) -> (r: bool)
        ensures
            r == self.serves(other),
    {
        self.offset.equals(other.offset) && self.player_yaw.equals(other.player_yaw) && self.hidden
            == other.hidden
    }
}

proof fn shown_prefix(objects: Seq<Solid>, i: int, hidden: Seq<Seq<char>>)
    requires
        0 <= i <= objects.len(),
        fits(shown_indices(objects, hidden)),
    ensures
        fits(shown_indices(objects.take(i), hidden)),
    decreases objects.len() - i,
{
    if i < objects.len() {
        shown_prefix(objects, i + 1, hidden);
        assert(objects.take(i + 1).drop_last() =~= objects.take(i));
        let next = shown_indices(objects.take(i + 1), hidden);
        let here = shown_indices(objects.take(i), hidden);
        assert forall|k: int| 0 <= k < here.len() implies 0 <= #[trigger] here[k] <= u32::MAX by {
            assert(next[k] == here[k]);
        }
    } else {
        assert(objects.take(i) =~= objects);
    }
}

fn push_object<F: Fn(BrushVertex) -> PlacedVertex>(
    o: &BrushObject,
    place: &F,
    vertices: &mut Vec<BrushVertex>,
    indices: &mut Vec<u32>,
    Ghost(from): Ghost<Seq<BrushVertex>>,
)
    requires
        forall|v: BrushVertex| #[trigger] call_requires(*place, (v,)),
        all_placed(from, *place, old(vertices)@),
        fits(rebased(o.indices@, old(vertices)@.len() as int)),
    ensures
        all_placed(from + o.vertices@, *place, final(vertices)@),
        numbers(final(indices)@) == numbers(old(indices)@) + rebased(
            o.indices@,
            old(vertices)@.len() as int,
        ),
{
    let ghost had = vertices@;
    let base: u32 = #[verifier::truncate] (vertices.len() as u32);
    let mut i: usize = 0;
    assert(from + o.vertices@.take(0) =~= from);
    while i < o.vertices.len()
        invariant
            i <= o.vertices@.len(),
            forall|v: BrushVertex| #[trigger] call_requires(*place, (v,)),
            all_placed(from + o.vertices@.take(i as int), *place, vertices@),
        decreases o.vertices@.len() - i,
    {
        let v: BrushVertex = o.vertices[i];
        let p: PlacedVertex = place(v);
        let ghost before = vertices@;
        vertices.push(v.placed(p));
        proof {
            let src = from + o.vertices@.take(i as int);
            let next = from + o.vertices@.take(i + 1);
            assert(next =~= src.push(v));
            assert(placed_as(v, *place, v.moved_to(p)));
            assert forall|k: int| 0 <= k < vertices@.len() implies placed_as(
                next[k],
                *place,
                #[trigger] vertices@[k],
            ) by {
                if k < before.len() {
                    assert(placed_as(src[k], *place, before[k]));
                }
            }
        }
        i = i + 1;
    }
    assert(o.vertices@.take(i as int) =~= o.vertices@);
    let ghost kept = indices@;
    let ghost moved = rebased(o.indices@, had.len() as int);
    let mut k: usize = 0;
    while k < o.indices.len()
        invariant
            k <= o.indices@.len(),
            base == had.len() as u32,
            moved == rebased(o.indices@, had.len() as int),
            fits(moved),
            numbers(indices@) =~= numbers(kept) + moved.take(k as int),
        decreases o.indices@.len() - k,
    {
        proof {
            assert(moved[k as int] == o.indices@[k as int] + had.len());
        }
        let ghost before = indices@;
        indices.push(o.indices[k] + base);
        proof {
            assert(numbers(indices@) =~= numbers(before).push(moved[k as int]));
        }
        k = k + 1;
    }
    assert(numbers(indices@) =~= numbers(kept) + moved);
}

/// What an assembly is asked for: what is hidden, where the player stands and
/// looks, and how a corner is moved into the player's frame.
pub struct Assembly<F> {
    pub hidden: Seq<Seq<char>>,
    pub offset: Vec3,
    pub player_yaw: Scalar,
    pub place: F,
}

impl<F> Assembly<F> {
    /// What a buffer that is built for this records.
    pub open spec fn key(self) -> BuildKey {
        BuildKey {
            offset: self.offset,
            player_yaw: self.player_yaw,
            hidden: fingerprint(self.hidden) as u64,
        }
    }

    /// Whether both are asked for at the same place and in the same direction.
    pub open spec fn same_stand(self, other: Assembly<F>) -> bool {
        self.offset.same_point(other.offset) && self.player_yaw.same_number(other.player_yaw)
    }
}

/// Whether geometry holds the buffer of an assembly: the brushes that are not
/// hidden, in order, each corner where it is placed.
pub open spec fn holds<F: Fn(BrushVertex) -> PlacedVertex>(
    g: BrushGeometry,
    asked: Assembly<F>,
) -> bool {
    &&& all_placed(shown_corners(solids(g.objects@), asked.hidden), asked.place, g.vertices@)
    &&& numbers(g.indices@) == shown_indices(solids(g.objects@), asked.hidden)
}

/// Whether geometry is what an assembly makes of other geometry: the same, where
/// its buffer was built for the same place, direction and fingerprint, and else
/// with the buffer built anew.
pub open spec fn assembled<F: Fn(BrushVertex) -> PlacedVertex>(
    before: BrushGeometry,
    after: BrushGeometry,
    asked: Assembly<F>,
) -> bool {
    let current = before.objects@.len() == 0 || (before.built_for matches Some(k) && k.serves(
        asked.key(),
    ));
    &&& after.objects@ == before.objects@
    &&& after.materials@ == before.materials@
    &&& if current {
        &&& after.vertices@ == before.vertices@
        &&& after.indices@ == before.indices@
        &&& after.built_for == before.built_for
    } else {
        &&& after.built_for == Some(asked.key())
        &&& holds(after, asked)
    }
}

/// The buffer that is handed to the renderer, where there is anything to draw.
pub open spec fn to_draw(g: BrushGeometry) -> Option<(Seq<BrushVertex>, Seq<u32>)> {
    if g.objects@.len() == 0 || g.vertices@.len() == 0 || g.indices@.len() == 0 {
        None
    } else {
        Some((g.vertices@, g.indices@))
    }
}

impl BrushGeometry {
    /// Whether the buffer holds the brushes that a hidden list leaves: their
    /// indices, and their corners wherever those stand.
    pub open spec fn shows(self, hidden: Seq<Seq<char>>) -> bool {
        let corners = shown_corners(solids(self.objects@), hidden);
        &&& numbers(self.indices@) == shown_indices(solids(self.objects@), hidden)
        &&& self.vertices@.len() == corners.len()
        &&& forall|k: int|
            0 <= k < corners.len() ==> same_surface(corners[k], #[trigger] self.vertices@[k])
    }

    /// Whether the buffer, if it was ever assembled, shows what some hidden list
    /// with the recorded fingerprint leaves.
    pub open spec fn consistent(self) -> bool {
        self.built_for matches Some(key) ==> exists|hidden: Seq<Seq<char>>|
            key.hidden == #[trigger] fingerprint(hidden) && self.shows(hidden)
    }

    /// The triangles to draw this frame, in the player's frame, or nothing where
    /// nothing is left to draw.
    ///
    /// `place` moves a corner into the player's frame. The buffer is built anew
    /// only when the player has moved or turned, or the fingerprint of the
    /// hidden set has changed.
    pub fn assemble<F: Fn(BrushVertex) -> PlacedVertex>(
        &mut self,
        hidden: &[String],
        offset: Vec3,
        player_yaw: Scalar,
        place: &F,
    ) -> (r: Option<(&[BrushVertex], &[u32])>)
        requires
            forall|v: BrushVertex| #[trigger] call_requires(*place, (v,)),
            fits(shown_indices(solids(old(self).objects@), texts(hidden@))),
        ensures
            assembled(
                *old(self),
                *final(self),
                Assembly { hidden: texts(hidden@), offset, player_yaw, place: *place },
            ),
            match r {
                Some(buffers) => to_draw(*final(self)) == Some((buffers.0@, buffers.1@)),
                None => to_draw(*final(self)) is None,
            },
            old(self).consistent() ==> final(self).consistent(),
    {
        if self.objects.len() == 0 {
            return None;
        }
        let key = BuildKey { offset, player_yaw, hidden: hidden_fingerprint(hidden) };
        let current = match self.built_for {
            Some(k) => k.covers(key),
            None => false,
        };
        if !current {
            let ghost ids = texts(hidden@);
            let ghost all = solids(self.objects@);
            let mut vertices: Vec<BrushVertex> = Vec::new();
            let mut indices: Vec<u32> = Vec::new();
            let mut i: usize = 0;
            assert(all.take(0) =~= Seq::empty());
            assert(numbers(indices@) =~= Seq::empty());
            while i < self.objects.len()
                invariant
                    i <= self.objects@.len(),
                    ids == texts(hidden@),
                    all == solids(self.objects@),
                    forall|v: BrushVertex| #[trigger] call_requires(*place, (v,)),
                    fits(shown_indices(all, ids)),
                    all_placed(shown_corners(all.take(i as int), ids), *place, vertices@),
                    numbers(indices@) == shown_indices(all.take(i as int), ids),
                decreases self.objects@.len() - i,
            {
                let o = &self.objects[i];
                proof {
                    assert(all.take(i + 1).drop_last() =~= all.take(i as int));
                    assert(all.take(i + 1).last() == o@);
                }
                if !lists(hidden, &o.id) {
                    proof {
                        shown_prefix(all, i + 1, ids);
                        let next = shown_indices(all.take(i + 1), ids);
                        let here = shown_indices(all.take(i as int), ids);
                        let moved = rebased(o.indices@, vertices@.len() as int);
                        let base = vertices@.len() as int;
                        assert(o@.indices.map_values(|k: int| k + base) =~= moved);
                        assert forall|k: int| 0 <= k < moved.len() implies 0 <= #[trigger] moved[k]
                            <= u32::MAX by {
                            assert(next[here.len() + k] == moved[k]);
                        }
                    }
                    push_object(
                        o,
                        place,
                        &mut vertices,
                        &mut indices,
                        Ghost(shown_corners(all.take(i as int), ids)),
                    );
                }
                i = i + 1;
            }
            proof {
                assert(all.take(i as int) =~= all);
            }
            self.vertices = vertices;
            self.indices = indices;
            self.built_for = Some(key);
            proof {
                let corners = shown_corners(all, ids);
                assert forall|k: int| 0 <= k < corners.len() implies same_surface(
                    corners[k],
                    #[trigger] self.vertices@[k],
                ) by {
                    assert(placed_as(corners[k], *place, self.vertices@[k]));
                }
                assert(self.shows(ids));
            }
        }
        if self.vertices.len() == 0 || self.indices.len() == 0 {
            return None;
        }
        Some((self.vertices.as_slice(), self.indices.as_slice()))
    }
}

/// A buffer that was built for the fingerprint of a hidden list shows what that
/// list leaves, unless another list with the same fingerprint leaves something
/// else.
pub proof fn buffer_shows_the_hidden_list(g: BrushGeometry, hidden: Seq<Seq<char>>)
    requires
        g.consistent(),
        g.built_for matches Some(key) && key.hidden == fingerprint(hidden),
        forall|other: Seq<Seq<char>>| #[trigger]
            fingerprint(other) == fingerprint(hidden) ==> shown_indices(solids(g.objects@), other)
                == shown_indices(solids(g.objects@), hidden) && shown_corners(
                solids(g.objects@),
                other,
            ) == shown_corners(solids(g.objects@), hidden),
    ensures
        g.shows(hidden),
{
}

/// Whether two placings put every corner in the same place.
pub open spec fn agree<F: Fn(BrushVertex) -> PlacedVertex>(a: F, b: F) -> bool {
    forall|v: BrushVertex, p: PlacedVertex, q: PlacedVertex|
        call_ensures(a, (v,), p) && call_ensures(b, (v,), q) ==> p == q
}

/// Whether two lists hide the same of a level's brushes.
pub open spec fn hide_alike(
    objects: Seq<Solid>,
    a: Seq<Seq<char>>,
    b: Seq<Seq<char>>,
) -> bool {
    forall|i: int|
        0 <= i < objects.len() ==> (a.contains((#[trigger] objects[i]).id) <==> b.contains(
            objects[i].id,
        ))
}

/// Whether geometry went through assemblies, one after the other, from where
/// nothing was assembled yet.
pub open spec fn assembled_in_turn<F: Fn(BrushVertex) -> PlacedVertex>(
    states: Seq<BrushGeometry>,
    calls: Seq<Assembly<F>>,
) -> bool {
    &&& states.len() == calls.len() + 1
    &&& states[0].built_for is None
    &&& forall|i: int|
        0 <= i < calls.len() ==> assembled(#[trigger] states[i], states[i + 1], calls[i])
}

/// The buffer is always that of one of the assemblies so far, for the same place,
/// direction and fingerprint as the last one.
proof fn buffer_is_of_a_call<F: Fn(BrushVertex) -> PlacedVertex>(
    states: Seq<BrushGeometry>,
    calls: Seq<Assembly<F>>,
    n: int,
) -> (i: int)
    requires
        assembled_in_turn(states, calls),
        states[0].objects@.len() > 0,
        0 < n <= calls.len(),
    ensures
        0 <= i < n,
        states[n].objects@ == states[0].objects@,
        states[n].built_for == Some(calls[i].key()),
        holds(states[n], calls[i]),
        i == n - 1 || calls[i].key().serves(calls[n - 1].key()),
    decreases n,
{
    let before = states[n - 1];
    assert(assembled(before, states[n - 1 + 1], calls[n - 1]));
    if n == 1 {
        0
    } else {
        let j = buffer_is_of_a_call(states, calls, n - 1);
        if calls[j].key().serves(calls[n - 1].key()) {
            j
        } else {
            n - 1
        }
    }
}

proof fn placed_alike<F: Fn(BrushVertex) -> PlacedVertex>(
    from: Seq<BrushVertex>,
    a: F,
    b: F,
    at_a: Seq<BrushVertex>,
    at_b: Seq<BrushVertex>,
)
    requires
        all_placed(from, a, at_a),
        all_placed(from, b, at_b),
        agree(a, b),
    ensures
        at_a == at_b,
{
    assert forall|k: int| 0 <= k < at_a.len() implies at_a[k] == at_b[k] by {
        assert(placed_as(from[k], a, at_a[k]));
        assert(placed_as(from[k], b, at_b[k]));
    }
    assert(at_a =~= at_b);
}

/// That the buffer is kept never shows. Geometry that went through any assemblies
/// hands over, corner by corner, what geometry that never was assembled would,
/// for the same place and direction and for any list that hides the same of the
/// level's brushes.
///
/// This rests on the fingerprint telling apart the lists that were asked for,
/// and on corners being placed alike wherever the player stands and looks alike.
pub proof fn the_kept_buffer_never_shows<F: Fn(BrushVertex) -> PlacedVertex>(
    states: Seq<BrushGeometry>,
    calls: Seq<Assembly<F>>,
    fresh: BrushGeometry,
    after: BrushGeometry,
    asked: Assembly<F>,
)
    requires
        calls.len() > 0,
        assembled_in_turn(states, calls),
        solids(fresh.objects@) == solids(states[0].objects@),
        fresh.built_for is None,
        assembled(fresh, after, asked),
        asked.offset == calls.last().offset && asked.player_yaw == calls.last().player_yaw,
        hide_alike(solids(fresh.objects@), asked.hidden, calls.last().hidden),
        forall|i: int|
            0 <= i < calls.len() && fingerprint((#[trigger] calls[i]).hidden) == fingerprint(
                calls.last().hidden,
            ) ==> hide_alike(
                solids(fresh.objects@),
                calls[i].hidden,
                calls.last().hidden,
            ),
        forall|i: int|
            0 <= i < calls.len() && (i == calls.len() - 1 || (#[trigger] calls[i]).same_stand(
                calls.last(),
            )) ==> agree(calls[i].place, asked.place),
    ensures
        to_draw(states.last()) == to_draw(after),
{
    let n = calls.len() as int;
    let all = solids(fresh.objects@);
    if states[0].objects@.len() == 0 {
        objects_stay(states, calls, n);
        assert(all.len() == 0);
    } else {
        assert(all.len() > 0);
        let i = buffer_is_of_a_call(states, calls, n);
        let call = calls[i];
        assert(call.key().hidden == calls[n - 1].key().hidden);
        assert(fingerprint(call.hidden) == fingerprint(calls[n - 1].hidden));
        assert(hide_alike(all, call.hidden, calls.last().hidden));
        shown_depends_on_the_set(all, call.hidden, calls.last().hidden);
        shown_depends_on_the_set(all, asked.hidden, calls.last().hidden);
        assert(agree(call.place, asked.place));
        placed_alike(
            shown_corners(all, asked.hidden),
            call.place,
            asked.place,
            states[n].vertices@,
            after.vertices@,
        );
        assert(states[n].indices@ =~= after.indices@) by {
            let a = states[n].indices@;
            let b = after.indices@;
            assert(numbers(a) == numbers(b));
            assert(numbers(a).len() == a.len() && numbers(b).len() == b.len());
            assert forall|k: int| 0 <= k < a.len() implies a[k] == b[k] by {
                assert(numbers(a)[k] == a[k] && numbers(b)[k] == b[k]);
            }
        }
        assert(solids(states[n].objects@).len() == states[n].objects@.len());
        assert(solids(after.objects@).len() == after.objects@.len());
    }
}

proof fn objects_stay<F: Fn(BrushVertex) -> PlacedVertex>(
    states: Seq<BrushGeometry>,
    calls: Seq<Assembly<F>>,
    n: int,
)
    requires
        assembled_in_turn(states, calls),
        0 <= n <= calls.len(),
    ensures
        states[n].objects@ == states[0].objects@,
    decreases n,
{
    if n > 0 {
        objects_stay(states, calls, n - 1);
        assert(assembled(states[n - 1], states[n - 1 + 1], calls[n - 1]));
    }
}

proof fn shown_with_all_hidden(objects: Seq<Solid>, hidden: Seq<Seq<char>>)
    requires
        forall|i: int| 0 <= i < objects.len() ==> hidden.contains((#[trigger] objects[i]).id),
    ensures
        shown_corners(objects, hidden).len() == 0,
        shown_indices(objects, hidden).len() == 0,
    decreases objects.len(),
{
    if objects.len() > 0 {
        assert(hidden.contains(objects[objects.len() - 1].id));
        assert forall|i: int| 0 <= i < objects.drop_last().len() implies hidden.contains(
            (#[trigger] objects.drop_last()[i]).id,
        ) by {
            assert(hidden.contains(objects[i].id));
        }
        shown_with_all_hidden(objects.drop_last(), hidden);
    }
}

/// A level whose every brush is hidden leaves nothing to draw.
pub proof fn nothing_is_shown_of_a_level_shot_to_pieces(
    objects: Seq<Solid>,
    hidden: Seq<Seq<char>>,
)
    requires
        forall|i: int| 0 <= i < objects.len() ==> hidden.contains((#[trigger] objects[i]).id),
    ensures
        shown_corners(objects, hidden) == Seq::<BrushVertex>::empty(),
        shown_indices(objects, hidden) == Seq::<int>::empty(),
{
    shown_with_all_hidden(objects, hidden);
}

/// Which brushes are shown depends on which of their ids are hidden, not on the
/// order of the list, on how often it names one, or on ids that no brush has.
pub proof fn shown_depends_on_the_set(
    objects: Seq<Solid>,
    a: Seq<Seq<char>>,
    b: Seq<Seq<char>>,
)
    requires
        hide_alike(objects, a, b),
    ensures
        shown_corners(objects, a) == shown_corners(objects, b),
        shown_indices(objects, a) == shown_indices(objects, b),
    decreases objects.len(),
{
    if objects.len() > 0 {
        assert(a.contains(objects[objects.len() - 1].id) <==> b.contains(
            objects[objects.len() - 1].id,
        ));
        assert forall|i: int| 0 <= i < objects.drop_last().len() implies (a.contains(
            (#[trigger] objects.drop_last()[i]).id,
        ) <==> b.contains(objects.drop_last()[i].id)) by {
            assert(a.contains(objects[i].id) <==> b.contains(objects[i].id));
        }
        shown_depends_on_the_set(objects.drop_last(), a, b);
    }
}

// ---------------------------------------------------------------------------
// Material images
// ---------------------------------------------------------------------------

/// An image for the texture array.
#[derive(Debug)]
pub struct TerrainImage {
    pub width: u32,
    pub height: u32,
    pub rgba: Vec<u8>,
}

/// Whether an image is one white pixel.
pub open spec fn is_white_pixel(image: TerrainImage) -> bool {
    image.width == 1 && image.height == 1 && image.rgba@ == seq![255u8, 255, 255, 255]
}

/// Fills the texture array of a scene's materials. `colours` and `normals` are
/// what could be read of each material; a missing colour map becomes one white
/// pixel, so that the object's own tint shows. Also lists the materials whose
/// missing colour map is worth a warning: `default` names no material at all.
pub fn load_materials(
    materials: &[String],
    colours: Vec<Option<TerrainImage>>,
    normals: Vec<Option<TerrainImage>>,
) -> (r: (Vec<TerrainImage>, Vec<Option<TerrainImage>>, Vec<String>))
    requires
        colours@.len() == materials@.len(),
        normals@.len() == materials@.len(),
    ensures
        r.0@.len() == materials@.len(),
        forall|i: int|
            0 <= i < materials@.len() ==> match colours@[i] {
                Some(image) => #[trigger] r.0@[i] == image,
                None => is_white_pixel(r.0@[i]),
            },
        r.1@ == normals@,
        texts(r.2@) == missing_colours(texts(materials@), colours@),
{
    let ghost given = colours@;
    let ghost ids = texts(materials@);
    let mut images: Vec<TerrainImage> = Vec::new();
    let mut missing: Vec<String> = Vec::new();
    let default_name = "default".to_string();
    assert(texts(missing@) =~= Seq::empty());
    for colour in it: colours
        invariant
            it.seq() == given,
            given.len() == materials@.len(),
            ids == texts(materials@),
            default_name@ == "default"@,
            images@.len() == it.index(),
            forall|i: int|
                0 <= i < it.index() ==> match given[i] {
                    Some(image) => #[trigger] images@[i] == image,
                    None => is_white_pixel(images@[i]),
                },
            texts(missing@) == missing_colours(
                ids.take(it.index() as int),
                given.take(it.index() as int),
            ),
    {
        let i: usize = images.len();
        let ghost had = missing@;
        proof {
            assert(ids.take(i + 1).drop_last() =~= ids.take(i as int));
            assert(given.take(i + 1).drop_last() =~= given.take(i as int));
            assert(ids.take(i + 1).last() == materials@[i as int]@);
            assert(given.take(i + 1).last() == colour);
        }
        match colour {
            Some(image) => {
                images.push(image);
            },
            None => {
                if !(materials[i] == default_name) {
                    missing.push(materials[i].clone());
                    assert(texts(missing@) =~= texts(had).push(materials@[i as int]@));
                }
                let rgba: Vec<u8> = vec![255, 255, 255, 255];
                assert(rgba@ =~= seq![255u8, 255, 255, 255]);
                images.push(TerrainImage { width: 1, height: 1, rgba });
            },
        }
    }
    proof {
        assert(ids.take(ids.len() as int) =~= ids);
        assert(given.take(given.len() as int) =~= given);
    }
    (images, normals, missing)
}

/// The materials, other than `default`, that have no colour map.
pub open spec fn missing_colours(
    ids: Seq<Seq<char>>,
    colours: Seq<Option<TerrainImage>>,
) -> Seq<Seq<char>>
    decreases ids.len(),
{
    if ids.len() == 0 {
        Seq::empty()
    } else {
        let before = missing_colours(ids.drop_last(), colours.drop_last());
        if colours.last() is None && ids.last() != "default"@ {
            before.push(ids.last())
        } else {
            before
        }
    }
}

/// A player who stands still, in a level that hides the same brushes in whatever
/// order, keeps the buffer that was assembled.
pub proof fn standing_still_keeps_the_buffer(
    offset: Vec3,
    player_yaw: Scalar,
    a: Seq<Seq<char>>,
    b: Seq<Seq<char>>,
)
    requires
        !offset.x.nan() && !offset.y.nan() && !offset.z.nan() && !player_yaw.nan(),
        a.to_multiset() == b.to_multiset(),
    ensures
        (BuildKey { offset, player_yaw, hidden: fingerprint(a) as u64 }).serves(
            BuildKey { offset, player_yaw, hidden: fingerprint(b) as u64 },
        ),
{
    fingerprint_ignores_order(a, b);
}

/// Nothing hidden has the fingerprint zero, and one more brush that is hidden moves
/// the fingerprint on by its hash and one, modulo two to the sixty-four.
pub proof fn one_more_hidden_moves_the_fingerprint(ids: Seq<Seq<char>>, id: Seq<char>)
    ensures
        fingerprint(Seq::empty()) == 0,
        fingerprint(ids.push(id)) == (fingerprint(ids) + 1 + text_hash(id))
            % 0x1_0000_0000_0000_0000,
{
    assert(ids.push(id).drop_last() =~= ids);
    let whole = 0x1_0000_0000_0000_0000int;
    let a = (ids.len() + hash_sum(ids)) as int;
    let b = 1 + text_hash(id) as int;
    assert((a % whole + b) % whole == (a + b) % whole) by (nonlinear_arith)
        requires
            whole == 0x1_0000_0000_0000_0000int,
            0 <= a,
            0 <= b,
    ;
}

/// A material is warned of just where its colour map is missing, unless it names no
/// material at all.
pub proof fn every_missing_colour_is_warned_of(
    ids: Seq<Seq<char>>,
    colours: Seq<Option<TerrainImage>>,
)
    requires
        ids.len() == colours.len(),
    ensures
        forall|name: Seq<char>| #[trigger]
            missing_colours(ids, colours).contains(name) <==> name != "default"@ && exists|i: int|
                0 <= i < ids.len() && colours[i] is None && #[trigger] ids[i] == name,
    decreases ids.len(),
{
    if ids.len() > 0 {
        let front = ids.drop_last();
        let fewer = colours.drop_last();
        let before = missing_colours(front, fewer);
        let now = missing_colours(ids, colours);
        let last = ids.len() - 1;
        every_missing_colour_is_warned_of(front, fewer);
        assert(forall|i: int| 0 <= i < front.len() ==> front[i] == #[trigger] ids[i]);
        assert(forall|i: int| 0 <= i < fewer.len() ==> fewer[i] == #[trigger] colours[i]);
        assert forall|name: Seq<char>| #[trigger]
            now.contains(name) <==> name != "default"@ && exists|i: int|
                0 <= i < ids.len() && colours[i] is None && #[trigger] ids[i] == name by {
            let _ = before.contains(name);
            if before.contains(name) {
                let k = choose|k: int| 0 <= k < before.len() && before[k] == name;
                assert(now[k] == name);
                let i = choose|i: int|
                    0 <= i < front.len() && fewer[i] is None && #[trigger] front[i] == name;
                assert(ids[i] == name && colours[i] is None);
            }
            if now.contains(name) {
                let k = choose|k: int| 0 <= k < now.len() && now[k] == name;
                if k < before.len() {
                    assert(before[k] == name);
                } else {
                    assert(ids[last] == name && colours[last] is None);
                }
            }
            if name != "default"@ && exists|i: int|
                0 <= i < ids.len() && colours[i] is None && #[trigger] ids[i] == name {
                let i = choose|i: int|
                    0 <= i < ids.len() && colours[i] is None && #[trigger] ids[i] == name;
                if i < last {
                    assert(front[i] == name && fewer[i] is None);
                    assert(before.contains(name));
                } else {
                    assert(now[before.len() as int] == name);
                }
            }
        }
    } else {
        assert forall|name: Seq<char>| !(#[trigger] missing_colours(ids, colours).contains(
            name,
        )) by {}
    }
}

/// The first brush of a scene has the number zero, and the next one after a brush
/// has the next number, however many other objects stand between them.
pub proof fn brush_numbers_leave_no_gaps(flags: Seq<bool>, i: int, j: int)
    requires
        0 <= i < j <= flags.len(),
        forall|k: int| i < k < j ==> !#[trigger] flags[k],
    ensures
        flags_before(flags, j) == flags_before(flags, i) + (if flags[i] {
            1nat
        } else {
            0nat
        }),
        flags_before(flags, 0) == 0,
    decreases j,
{
    if i < j - 1 {
        brush_numbers_leave_no_gaps(flags, i, j - 1);
        assert(!flags[j - 1]);
    }
}

/// What is handed to the renderer is the whole buffer, wherever there is a corner
/// and an index in it and the scene has brushes.
pub proof fn the_whole_buffer_is_drawn(g: BrushGeometry)
    ensures
        match to_draw(g) {
            Some((vertices, indices)) => vertices == g.vertices@ && indices == g.indices@
                && vertices.len() > 0 && indices.len() > 0,
            None => g.objects@.len() == 0 || g.vertices@.len() == 0 || g.indices@.len() == 0,
        },
{
}

} // verus!
