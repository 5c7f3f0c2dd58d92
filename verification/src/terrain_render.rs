//! Terrain geometry for the renderer.
//!
//! The samples are scene data that the device already has, so the client builds
//! the ground itself, once per scene.

use vstd::prelude::*;

use crate::brush_render::TerrainImage;
use crate::scalar::{Scalar, Vec2, Vec3, Vec4};

verus! {

/// A vertex of the ground, as the renderer takes it.
#[derive(Clone, Copy, Debug, PartialEq, Eq)]
pub struct SolidVertex {
    pub position: Vec3,
    pub normal: Vec3,
    pub color: Vec4,
    pub uv2: Vec2,
    pub reflectivity: Scalar,
}

/// The ground's triangles, three indices to each.
#[derive(Debug)]
pub struct TerrainPatch {
    pub positions: Vec<Vec3>,
    pub indices: Vec<u32>,
}

/// Ground vertices and indices, as the renderer takes them.
#[derive(Debug)]
pub struct TerrainGeometry {
    pub vertices: Vec<SolidVertex>,
    pub indices: Vec<u32>,
}

impl TerrainGeometry {
    /// Whether there is nothing to draw.
    pub open spec fn nothing(self) -> bool {
        self.vertices@.len() == 0 || self.indices@.len() == 0
    }

    /// Whether there is nothing to draw.
    pub fn is_empty(&self) -> (r: bool)
        ensures
            r == self.nothing(),
    {
        self.vertices.len() == 0 || self.indices.len() == 0
    }
}

/// The direction that a normal points in where no triangle gives it one.
#[verifier::allow_in_spec]
pub fn up() -> Vec3
    returns
        (Vec3 { x: Scalar::zero(), y: Scalar::one(), z: Scalar::zero() }),
{
    Vec3 { x: Scalar::zero(), y: Scalar::one(), z: Scalar::zero() }
}

/// How many of a list's indices are corners of whole triangles.
pub open spec fn corners_of(indices: Seq<u32>) -> int {
    indices.len() as int / 3 * 3
}

/// Whether every whole triangle stands on vertices that there are.
pub open spec fn stands_on(indices: Seq<u32>, vertices: nat) -> bool {
    forall|k: int| 0 <= k < corners_of(indices) ==> (#[trigger] indices[k]) < vertices
}

/// Whether each whole triangle has the face that `face` gives its corners.
pub open spec fn faces_of<F: Fn(Vec3, Vec3, Vec3) -> Vec3>(
    faces: Seq<Vec3>,
    positions: Seq<Vec3>,
    indices: Seq<u32>,
    face: F,
) -> bool {
    &&& faces.len() == indices.len() / 3
    &&& forall|t: int|
        0 <= t < faces.len() ==> call_ensures(
            face,
            (
                positions[indices[3 * t] as int],
                positions[indices[3 * t + 1] as int],
                positions[indices[3 * t + 2] as int],
            ),
            #[trigger] faces[t],
        )
}

/// The faces that meet in a vertex, among the first so many corners: one for
/// each corner that is that vertex.
pub open spec fn meeting(
    indices: Seq<u32>,
    faces: Seq<Vec3>,
    vertex: int,
    corners: int,
) -> Seq<Vec3>
    decreases corners,
{
    if corners <= 0 {
        Seq::empty()
    } else {
        let before = meeting(indices, faces, vertex, corners - 1);
        if indices[corners - 1] == vertex {
            before.push(faces[(corners - 1) / 3])
        } else {
            before
        }
    }
}

/// Whether a total is what `sum` makes of some parts, added one by one from
/// nothing.
pub open spec fn added_up<S: Fn(Vec3, Vec3) -> Vec3>(
    parts: Seq<Vec3>,
    total: Vec3,
    sum: S,
) -> bool
    decreases parts.len(),
{
    if parts.len() == 0 {
        total == Vec3::origin()
    } else {
        exists|before: Vec3| #[trigger]
            call_ensures(sum, (before, parts.last()), total) && added_up(
                parts.drop_last(),
                before,
                sum,
            )
    }
}

/// Whether a normal is what `unit` makes of a total; up, where that is nothing.
pub open spec fn straightened<N: Fn(Vec3) -> Vec3>(normal: Vec3, total: Vec3, unit: N) -> bool {
    exists|n: Vec3| #[trigger]
        call_ensures(unit, (total,), n) && normal == (if n.same_point(Vec3::origin()) {
            up()
        } else {
            n
        })
}

/// Whether a vertex's normal comes from the faces that meet in it.
pub open spec fn is_normal<S: Fn(Vec3, Vec3) -> Vec3, N: Fn(Vec3) -> Vec3>(
    normal: Vec3,
    parts: Seq<Vec3>,
    sum: S,
    unit: N,
) -> bool {
    exists|total: Vec3| #[trigger] added_up(parts, total, sum) && straightened(normal, total, unit)
}

/// Whether normals come from the triangles of a surface.
pub open spec fn normals_of<
    F: Fn(Vec3, Vec3, Vec3) -> Vec3,
    S: Fn(Vec3, Vec3) -> Vec3,
    N: Fn(Vec3) -> Vec3,
>(
    normals: Seq<Vec3>,
    positions: Seq<Vec3>,
    indices: Seq<u32>,
    face: F,
    sum: S,
    unit: N,
) -> bool {
    &&& normals.len() == positions.len()
    &&& exists|faces: Seq<Vec3>| #[trigger]
        faces_of(faces, positions, indices, face) && forall|v: int|
            0 <= v < normals.len() ==> is_normal(
                #[trigger] normals[v],
                meeting(indices, faces, v, corners_of(indices)),
                sum,
                unit,
            )
}

proof fn meeting_of_prefix(
    indices: Seq<u32>,
    faces: Seq<Vec3>,
    more: Seq<Vec3>,
    vertex: int,
    corners: int,
)
    requires
        corners <= 3 * faces.len(),
        faces.len() <= more.len(),
        forall|t: int| 0 <= t < faces.len() ==> faces[t] == more[t],
    ensures
        meeting(indices, faces, vertex, corners) == meeting(indices, more, vertex, corners),
    decreases corners,
{
    if corners > 0 {
        meeting_of_prefix(indices, faces, more, vertex, corners - 1);
    }
}

fn add_corner<S: Fn(Vec3, Vec3) -> Vec3>(
    normals: &mut Vec<Vec3>,
    indices: &Vec<u32>,
    k: usize,
    part: Vec3,
    sum: &S,
    Ghost(faces): Ghost<Seq<Vec3>>,
)
    requires
        k < indices@.len(),
        indices@[k as int] < old(normals)@.len(),
        k < 3 * faces.len(),
        part == faces[k as int / 3],
        forall|a: Vec3, b: Vec3| #[trigger] call_requires(*sum, (a, b)),
        forall|v: int|
            0 <= v < old(normals)@.len() ==> added_up(
                meeting(indices@, faces, v, k as int),
                #[trigger] old(normals)@[v],
                *sum,
            ),
    ensures
        final(normals)@.len() == old(normals)@.len(),
        forall|v: int|
            0 <= v < final(normals)@.len() ==> added_up(
                meeting(indices@, faces, v, k + 1),
                #[trigger] final(normals)@[v],
                *sum,
            ),
{
    let ghost had = normals@;
    let at: usize = indices[k] as usize;
    let before = normals[at];
    let total = sum(before, part);
    normals.set(at, total);
    proof {
        assert forall|v: int| 0 <= v < normals@.len() implies added_up(
            meeting(indices@, faces, v, k + 1),
            #[trigger] normals@[v],
            *sum,
        ) by {
            let parts = meeting(indices@, faces, v, k as int);
            assert(added_up(parts, had[v], *sum));
            if v == at {
                let now = meeting(indices@, faces, v, k + 1);
                assert(now.drop_last() =~= parts);
                assert(now.last() == part);
                assert(added_up(now.drop_last(), before, *sum));
                assert(call_ensures(*sum, (before, now.last()), normals@[v]));
            }
        }
    }
}

/// The normals of a surface's vertices: for each, the faces that meet in it added
/// up and brought to unit length, or straight up where that leaves nothing.
///
/// `face` gives a triangle's face as a vector whose length weighs it, `sum` adds
/// two vectors, and `unit` brings one to unit length, or to nothing where it has
/// no direction.
pub fn vertex_normals<
    F: Fn(Vec3, Vec3, Vec3) -> Vec3,
    S: Fn(Vec3, Vec3) -> Vec3,
    N: Fn(Vec3) -> Vec3,
>(positions: &Vec<Vec3>, indices: &Vec<u32>, face: &F, sum: &S, unit: &N) -> (r: Vec<Vec3>)
    requires
        stands_on(indices@, positions@.len()),
        forall|a: Vec3, b: Vec3, c: Vec3| #[trigger] call_requires(*face, (a, b, c)),
        forall|a: Vec3, b: Vec3| #[trigger] call_requires(*sum, (a, b)),
        forall|v: Vec3| #[trigger] call_requires(*unit, (v,)),
    ensures
        normals_of(r@, positions@, indices@, *face, *sum, *unit),
{
    let count: usize = positions.len();
    let whole: usize = indices.len() - indices.len() % 3;
    let ghost mut faces: Seq<Vec3> = Seq::empty();
    let mut totals: Vec<Vec3> = Vec::new();
    let mut i: usize = 0;
    while i < count
        invariant
            i <= count,
            totals@.len() == i,
            forall|v: int| 0 <= v < i ==> #[trigger] totals@[v] == Vec3::origin(),
        decreases count - i,
    {
        totals.push(Vec3::origin());
        i = i + 1;
    }
    let mut k: usize = 0;
    while k < whole
        invariant
            k <= whole,
            whole == corners_of(indices@),
            k % 3 == 0,
            count == positions@.len(),
            stands_on(indices@, count as nat),
            totals@.len() == count,
            forall|a: Vec3, b: Vec3, c: Vec3| #[trigger] call_requires(*face, (a, b, c)),
            forall|a: Vec3, b: Vec3| #[trigger] call_requires(*sum, (a, b)),
            faces.len() == k / 3,
            forall|t: int|
                0 <= t < faces.len() ==> call_ensures(
                    *face,
                    (
                        positions@[indices@[3 * t] as int],
                        positions@[indices@[3 * t + 1] as int],
                        positions@[indices@[3 * t + 2] as int],
                    ),
                    #[trigger] faces[t],
                ),
            forall|v: int|
                0 <= v < count ==> added_up(
                    meeting(indices@, faces, v, k as int),
                    #[trigger] totals@[v],
                    *sum,
                ),
        decreases whole - k,
    {
        let ghost t = k as int / 3;
        assert(3 * t == k);
        let f = face(
            positions[indices[k] as usize],
            positions[indices[k + 1] as usize],
            positions[indices[k + 2] as usize],
        );
        proof {
            let now = faces.push(f);
            assert forall|v: int| 0 <= v < count implies added_up(
                meeting(indices@, now, v, k as int),
                #[trigger] totals@[v],
                *sum,
            ) by {
                meeting_of_prefix(indices@, faces, now, v, k as int);
            }
            faces = now;
        }
        add_corner(&mut totals, indices, k, f, sum, Ghost(faces));
        add_corner(&mut totals, indices, k + 1, f, sum, Ghost(faces));
        add_corner(&mut totals, indices, k + 2, f, sum, Ghost(faces));
        k = k + 3;
    }
    let mut out: Vec<Vec3> = Vec::new();
    let mut j: usize = 0;
    while j < count
        invariant
            j <= count,
            totals@.len() == count,
            out@.len() == j,
            forall|v: Vec3| #[trigger] call_requires(*unit, (v,)),
            forall|v: int| 0 <= v < j ==> straightened(#[trigger] out@[v], totals@[v], *unit),
        decreases count - j,
    {
        let n = unit(totals[j]);
        out.push(
            if n.equals(Vec3::origin()) {
                up()
            } else {
                n
            },
        );
        j = j + 1;
    }
    proof {
        assert(faces_of(faces, positions@, indices@, *face));
        assert forall|v: int| 0 <= v < out@.len() implies is_normal(
            #[trigger] out@[v],
            meeting(indices@, faces, v, corners_of(indices@)),
            *sum,
            *unit,
        ) by {
            assert(added_up(
                meeting(indices@, faces, v, corners_of(indices@)),
                totals@[v],
                *sum,
            ));
        }
    }
    out
}

/// A vertex in which no triangle meets points up, if `unit` leaves nothing as it
/// is.
pub proof fn a_lone_vertex_points_up<S: Fn(Vec3, Vec3) -> Vec3, N: Fn(Vec3) -> Vec3>(
    normal: Vec3,
    sum: S,
    unit: N,
)
    requires
        is_normal(normal, Seq::empty(), sum, unit),
        forall|n: Vec3|
            call_ensures(unit, (Vec3::origin(),), n) ==> n.same_point(Vec3::origin()),
    ensures
        normal == up(),
{
}

/// The level of detail that a patch is cut at: one step at least.
pub fn patch_step(step: u32) -> (r: u32)
    ensures
        r == (if step == 0 {
            1
        } else {
            step
        }),
{
    if step == 0 {
        1
    } else {
        step
    }
}

/// Whether a vertex shows the ground at a point with a normal.
pub open spec fn shows_ground<G: Fn(Scalar) -> Vec4>(
    v: SolidVertex,
    position: Vec3,
    normal: Vec3,
    colour: G,
) -> bool {
    &&& v.position == position
    &&& v.normal == normal
    &&& call_ensures(colour, (normal.y,), v.color)
    &&& v.uv2 == (Vec2 { x: Scalar::zero(), y: Scalar::zero() })
    &&& v.reflectivity == Scalar::zero()
}

/// Whether ground is that of a patch, with nothing where the patch has nothing to
/// draw.
pub open spec fn is_ground_of<
    F: Fn(Vec3, Vec3, Vec3) -> Vec3,
    S: Fn(Vec3, Vec3) -> Vec3,
    N: Fn(Vec3) -> Vec3,
    G: Fn(Scalar) -> Vec4,
>(
    r: Option<TerrainGeometry>,
    patch: Option<TerrainPatch>,
    face: F,
    sum: S,
    unit: N,
    colour: G,
) -> bool {
    match patch {
        Some(p) => if p.positions@.len() == 0 || p.indices@.len() == 0 {
            r is None
        } else {
            r matches Some(g) && g.indices@ == p.indices@ && g.vertices@.len()
                == p.positions@.len() && exists|normals: Seq<Vec3>| #[trigger]
                normals_of(normals, p.positions@, p.indices@, face, sum, unit) && forall|
                    v: int,
                |
                    0 <= v < normals.len() ==> shows_ground(
                        #[trigger] g.vertices@[v],
                        p.positions@[v],
                        normals[v],
                        colour,
                    )
        },
        None => r is None,
    }
}

/// A scene's terrain, as the renderer takes it. `None` where the terrain could
/// not be read or has no triangles: a level without ground is better than none.
///
/// `colour` gives the ground's colour by how far up its normal points. Terrain is
/// lit as it is drawn, so its vertices point into no light map.
pub fn load<
    F: Fn(Vec3, Vec3, Vec3) -> Vec3,
    S: Fn(Vec3, Vec3) -> Vec3,
    N: Fn(Vec3) -> Vec3,
    G: Fn(Scalar) -> Vec4,
>(patch: Option<TerrainPatch>, face: &F, sum: &S, unit: &N, colour: &G) -> (r: Option<
    TerrainGeometry,
>)
    requires
        patch matches Some(p) ==> stands_on(p.indices@, p.positions@.len()),
        forall|a: Vec3, b: Vec3, c: Vec3| #[trigger] call_requires(*face, (a, b, c)),
        forall|a: Vec3, b: Vec3| #[trigger] call_requires(*sum, (a, b)),
        forall|v: Vec3| #[trigger] call_requires(*unit, (v,)),
        forall|y: Scalar| #[trigger] call_requires(*colour, (y,)),
    ensures
        is_ground_of(r, patch, *face, *sum, *unit, *colour),
{
    let p = match patch {
        Some(p) => p,
        None => {
            return None;
        },
    };
    if p.positions.len() == 0 || p.indices.len() == 0 {
        return None;
    }
    let normals = vertex_normals(&p.positions, &p.indices, face, sum, unit);
    let mut vertices: Vec<SolidVertex> = Vec::new();
    let mut i: usize = 0;
    while i < p.positions.len()
        invariant
            i <= p.positions@.len(),
            normals@.len() == p.positions@.len(),
            forall|y: Scalar| #[trigger] call_requires(*colour, (y,)),
            vertices@.len() == i,
            forall|v: int|
                0 <= v < i ==> shows_ground(
                    #[trigger] vertices@[v],
                    p.positions@[v],
                    normals@[v],
                    *colour,
                ),
        decreases p.positions@.len() - i,
    {
        let n = normals[i];
        vertices.push(
            SolidVertex {
                position: p.positions[i],
                normal: n,
                color: colour(n.y),
                uv2: Vec2 { x: Scalar::zero(), y: Scalar::zero() },
                reflectivity: Scalar::zero(),
            },
        );
        i = i + 1;
    }
    Some(TerrainGeometry { vertices, indices: p.indices })
}

/// What was read of a terrain's painted weights.
#[derive(Debug)]
pub enum Splat {
    /// A map was read.
    Read { width: u32, height: u32, bytes: Vec<u8> },
    /// The terrain declares none.
    Undeclared,
    /// The terrain declares one that cannot be read.
    Broken,
}

/// The terrain of a scene, with its painted weights where there are any. A map
/// that is missing or broken leaves the ground unpainted.
pub open spec fn with_splat(
    geometry: Option<TerrainGeometry>,
    splat: Splat,
) -> Option<(TerrainGeometry, Option<TerrainImage>)> {
    match geometry {
        Some(g) => Some(
            (
                g,
                match splat {
                    Splat::Read { width, height, bytes } => Some(
                        TerrainImage { width, height, rgba: bytes },
                    ),
                    _ => None,
                },
            ),
        ),
        None => None,
    }
}

/// The terrain of a scene, with its painted weights where there are any.
/// `geometry` is missing where the scene cannot be read, has no terrain, or its
/// terrain has no triangles.
pub fn load_scene_terrain(geometry: Option<TerrainGeometry>, splat: Splat) -> (r: Option<
    (TerrainGeometry, Option<TerrainImage>),
>)
    ensures
        r == with_splat(geometry, splat),
{
    match geometry {
        Some(g) => Some(
            (
                g,
                match splat {
                    Splat::Read { width, height, bytes } => Some(
                        TerrainImage { width, height, rgba: bytes },
                    ),
                    Splat::Undeclared => None,
                    Splat::Broken => None,
                },
            ),
        ),
        None => None,
    }
}

/// What the renderer is handed of the loaded terrain: nothing where there is
/// nothing to draw.
pub fn to_draw(loaded: &Option<(TerrainGeometry, Option<TerrainImage>)>) -> (r: Option<
    (&[SolidVertex], &[u32]),
>)
    ensures
        match loaded {
            Some(l) => if l.0.nothing() {
                r is None
            } else {
                r matches Some(d) && d.0@ == l.0.vertices@ && d.1@ == l.0.indices@
            },
            None => r is None,
        },
{
    match loaded {
        Some(l) => if l.0.is_empty() {
            None
        } else {
            Some((l.0.vertices.as_slice(), l.0.indices.as_slice()))
        },
        None => None,
    }
}

/// Whether some parts were added up one by one: from nothing, each to what the ones
/// before it came to.
pub open spec fn adds_up_through<S: Fn(Vec3, Vec3) -> Vec3>(
    totals: Seq<Vec3>,
    parts: Seq<Vec3>,
    sum: S,
) -> bool {
    &&& totals.len() == parts.len() + 1
    &&& totals[0].x.bits == 0 && totals[0].y.bits == 0 && totals[0].z.bits == 0
    &&& forall|i: int|
        0 <= i < parts.len() ==> call_ensures(
            sum,
            (totals[i], #[trigger] parts[i]),
            totals[i + 1],
        )
}

proof fn parts_add_up<S: Fn(Vec3, Vec3) -> Vec3>(
    parts: Seq<Vec3>,
    total: Vec3,
    sum: S,
) -> (totals: Seq<Vec3>)
    requires
        added_up(parts, total, sum),
    ensures
        adds_up_through(totals, parts, sum),
        totals.last() == total,
    decreases parts.len(),
{
    if parts.len() == 0 {
        seq![total]
    } else {
        let before = choose|before: Vec3| #[trigger]
            call_ensures(sum, (before, parts.last()), total) && added_up(
                parts.drop_last(),
                before,
                sum,
            );
        let had = parts_add_up(parts.drop_last(), before, sum);
        let totals = had.push(total);
        assert forall|i: int| 0 <= i < parts.len() implies call_ensures(
            sum,
            (totals[i], #[trigger] parts[i]),
            totals[i + 1],
        ) by {
            if i < parts.len() - 1 {
                assert(parts.drop_last()[i] == parts[i]);
            }
        }
        totals
    }
}

proof fn corners_that_meet(
    indices: Seq<u32>,
    faces: Seq<Vec3>,
    vertex: int,
    corners: int,
) -> (at: Seq<int>)
    requires
        0 <= corners <= indices.len(),
    ensures
        at.len() == meeting(indices, faces, vertex, corners).len(),
        forall|k: int| #[trigger]
            at.contains(k) <==> 0 <= k < corners && indices[k] == vertex,
        forall|i: int, j: int| 0 <= i < j < at.len() ==> #[trigger] at[i] < #[trigger] at[j],
        forall|i: int|
            0 <= i < at.len() ==> meeting(indices, faces, vertex, corners)[i] == faces[(
            #[trigger] at[i]) / 3],
    decreases corners,
{
    if corners == 0 {
        Seq::empty()
    } else {
        let had = corners_that_meet(indices, faces, vertex, corners - 1);
        let last = corners - 1;
        let now = if indices[last] == vertex {
            had.push(last)
        } else {
            had
        };
        assert forall|k: int| #[trigger]
            now.contains(k) <==> 0 <= k < corners && indices[k] == vertex by {
            assert(had.contains(k) <==> 0 <= k < last && indices[k] == vertex);
            if had.contains(k) {
                let p = choose|p: int| 0 <= p < had.len() && had[p] == k;
                assert(now[p] == k);
            }
            if now.contains(k) {
                let p = choose|p: int| 0 <= p < now.len() && now[p] == k;
                if p < had.len() {
                    assert(had[p] == k);
                }
            }
            if k == last && indices[k] == vertex {
                assert(now[had.len() as int] == k);
            }
        }
        assert forall|i: int, j: int| 0 <= i < j < now.len() implies #[trigger] now[i]
            < #[trigger] now[j] by {
            assert(had.contains(had[i]));
        }
        assert forall|i: int| 0 <= i < now.len() implies meeting(
            indices,
            faces,
            vertex,
            corners,
        )[i] == faces[(#[trigger] now[i]) / 3] by {
            if i < had.len() {
                assert(had[i] == now[i]);
            }
        }
        now
    }
}

/// The faces of the triangles that have corners at some places of the index list.
pub open spec fn faces_at(faces: Seq<Vec3>, at: Seq<int>) -> Seq<Vec3> {
    at.map_values(|k: int| faces[k / 3])
}

/// Whether a normal is that of a vertex: the faces of all the triangles that have a
/// corner there, one for each such corner, added up and brought to unit length; and
/// up, where that gives no direction.
pub open spec fn is_normal_at<S: Fn(Vec3, Vec3) -> Vec3, N: Fn(Vec3) -> Vec3>(
    normal: Vec3,
    indices: Seq<u32>,
    faces: Seq<Vec3>,
    vertex: int,
    sum: S,
    unit: N,
) -> bool {
    exists|at: Seq<int>, totals: Seq<Vec3>, n: Vec3|
        {
            &&& #[trigger] call_ensures(unit, (totals.last(),), n)
            &&& forall|k: int| #[trigger]
                at.contains(k) <==> 0 <= k < 3 * (indices.len() as int / 3) && indices[k] == vertex
            &&& forall|i: int, j: int| 0 <= i < j < at.len() ==> #[trigger] at[i] < #[trigger] at[j]
            &&& #[trigger] adds_up_through(totals, faces_at(faces, at), sum)
            &&& if n.same_point(Vec3::origin()) {
                normal.x.bits == 0 && normal.y.bits == 0x3f80_0000 && normal.z.bits == 0
            } else {
                normal == n
            }
        }
}

/// Every vertex of a surface has the normal of the triangles that meet in it, and
/// every whole triangle the face that `face` gives its three corners, in order.
pub proof fn every_triangle_tilts_its_corners<
    F: Fn(Vec3, Vec3, Vec3) -> Vec3,
    S: Fn(Vec3, Vec3) -> Vec3,
    N: Fn(Vec3) -> Vec3,
>(
    normals: Seq<Vec3>,
    positions: Seq<Vec3>,
    indices: Seq<u32>,
    face: F,
    sum: S,
    unit: N,
) -> (faces: Seq<Vec3>)
    requires
        normals_of(normals, positions, indices, face, sum, unit),
    ensures
        normals.len() == positions.len(),
        faces.len() == indices.len() / 3,
        forall|t: int|
            0 <= t < faces.len() ==> call_ensures(
                face,
                (
                    positions[indices[3 * t] as int],
                    positions[indices[3 * t + 1] as int],
                    positions[indices[3 * t + 2] as int],
                ),
                #[trigger] faces[t],
            ),
        forall|v: int|
            0 <= v < normals.len() ==> is_normal_at(
                #[trigger] normals[v],
                indices,
                faces,
                v,
                sum,
                unit,
            ),
{
    let faces = choose|faces: Seq<Vec3>| #[trigger]
        faces_of(faces, positions, indices, face) && forall|v: int|
            0 <= v < normals.len() ==> is_normal(
                #[trigger] normals[v],
                meeting(indices, faces, v, corners_of(indices)),
                sum,
                unit,
            );
    assert forall|v: int| 0 <= v < normals.len() implies is_normal_at(
        #[trigger] normals[v],
        indices,
        faces,
        v,
        sum,
        unit,
    ) by {
        let parts = meeting(indices, faces, v, corners_of(indices));
        let total = choose|total: Vec3| #[trigger]
            added_up(parts, total, sum) && straightened(normals[v], total, unit);
        let totals = parts_add_up(parts, total, sum);
        let at = corners_that_meet(indices, faces, v, corners_of(indices));
        assert(faces_at(faces, at) =~= parts) by {
            assert forall|i: int| 0 <= i < at.len() implies faces_at(faces, at)[i]
                == parts[i] by {
                let _ = at[i];
            }
        }
        let n = choose|n: Vec3| #[trigger]
            call_ensures(unit, (total,), n) && normals[v] == (if n.same_point(Vec3::origin()) {
                up()
            } else {
                n
            });
        assert(call_ensures(unit, (totals.last(),), n));
        assert(adds_up_through(totals, faces_at(faces, at), sum));
    }
    faces
}

/// The ground has a vertex for each point of its patch, in its place, coloured by
/// how far up its normal points, dull and without a light map; and the patch's
/// triangles. A patch without points or triangles is no ground.
pub proof fn the_ground_is_its_patch<
    F: Fn(Vec3, Vec3, Vec3) -> Vec3,
    S: Fn(Vec3, Vec3) -> Vec3,
    N: Fn(Vec3) -> Vec3,
    G: Fn(Scalar) -> Vec4,
>(
    r: Option<TerrainGeometry>,
    patch: Option<TerrainPatch>,
    face: F,
    sum: S,
    unit: N,
    colour: G,
)
    requires
        is_ground_of(r, patch, face, sum, unit, colour),
    ensures
        r is Some <==> (patch matches Some(p) && p.positions@.len() > 0 && p.indices@.len() > 0),
        r matches Some(g) ==> {
            let p = patch->0;
            let normals = g.vertices@.map_values(|v: SolidVertex| v.normal);
            &&& g.indices@ == p.indices@
            &&& g.vertices@.len() == p.positions@.len()
            &&& forall|v: int|
                0 <= v < g.vertices@.len() ==> {
                    &&& (#[trigger] g.vertices@[v]).position == p.positions@[v]
                    &&& call_ensures(colour, (g.vertices@[v].normal.y,), g.vertices@[v].color)
                    &&& g.vertices@[v].uv2.x.bits == 0 && g.vertices@[v].uv2.y.bits == 0
                    &&& g.vertices@[v].reflectivity.bits == 0
                }
            &&& normals_of(normals, p.positions@, p.indices@, face, sum, unit)
        },
{
    if let Some(g) = r {
        let p = patch->0;
        let normals = choose|normals: Seq<Vec3>| #[trigger]
            normals_of(normals, p.positions@, p.indices@, face, sum, unit) && forall|v: int|
                0 <= v < normals.len() ==> shows_ground(
                    #[trigger] g.vertices@[v],
                    p.positions@[v],
                    normals[v],
                    colour,
                );
        assert(g.vertices@.map_values(|v: SolidVertex| v.normal) =~= normals) by {
            assert forall|v: int| 0 <= v < normals.len() implies g.vertices@[v].normal
                == normals[v] by {
                assert(shows_ground(g.vertices@[v], p.positions@[v], normals[v], colour));
            }
        }
    }
}

/// Paint that was read is on the ground, as large as it was read and with every
/// byte. There is ground where there was any, painted or not.
pub proof fn what_was_painted_is_on_the_ground(geometry: Option<TerrainGeometry>, splat: Splat)
    ensures
        match with_splat(geometry, splat) {
            Some((ground, paint)) => {
                &&& geometry == Some(ground)
                &&& paint is Some <==> splat is Read
                &&& paint matches Some(image) ==> (splat matches Splat::Read {
                    width,
                    height,
                    bytes,
                } && image.width == width && image.height == height && image.rgba@ == bytes@)
            },
            None => geometry is None,
        },
{
}

} // verus!
