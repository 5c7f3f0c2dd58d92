use glam::Vec3;

use quest_app::brush_render::TerrainImage;
use quest_app::scalar;
use quest_app::scalar::Scalar;
use quest_app::terrain_render::{
    load, load_scene_terrain, patch_step, to_draw, vertex_normals, Splat, TerrainGeometry,
    TerrainPatch,
};

fn s(x: f32) -> Scalar {
    Scalar { bits: x.to_bits() }
}

fn f(x: Scalar) -> f32 {
    f32::from_bits(x.bits)
}

fn to_glam(v: scalar::Vec3) -> Vec3 {
    Vec3::new(f(v.x), f(v.y), f(v.z))
}

fn from_glam(v: Vec3) -> scalar::Vec3 {
    scalar::Vec3 { x: s(v.x), y: s(v.y), z: s(v.z) }
}

fn face(a: scalar::Vec3, b: scalar::Vec3, c: scalar::Vec3) -> scalar::Vec3 {
    let (a, b, c) = (to_glam(a), to_glam(b), to_glam(c));
    from_glam((b - a).cross(c - a))
}

fn sum(a: scalar::Vec3, b: scalar::Vec3) -> scalar::Vec3 {
    from_glam(to_glam(a) + to_glam(b))
}

fn unit(v: scalar::Vec3) -> scalar::Vec3 {
    from_glam(to_glam(v).normalize_or_zero())
}

fn colour(y: Scalar) -> scalar::Vec4 {
    scalar::Vec4 { x: y, y: s(0.0), z: s(0.0), w: s(1.0) }
}

fn normals(positions: &[Vec3], indices: &[u32]) -> Vec<Vec3> {
    let positions: Vec<scalar::Vec3> = positions.iter().map(|p| from_glam(*p)).collect();
    vertex_normals(&positions, &indices.to_vec(), &face, &sum, &unit)
        .into_iter()
        .map(to_glam)
        .collect()
}

fn square() -> Vec<Vec3> {
    vec![
        Vec3::new(0.0, 0.0, 0.0),
        Vec3::new(1.0, 0.0, 0.0),
        Vec3::new(0.0, 0.0, 1.0),
        Vec3::new(1.0, 0.0, 1.0),
    ]
}

fn patch(positions: Vec<Vec3>, indices: Vec<u32>) -> TerrainPatch {
    TerrainPatch { positions: positions.into_iter().map(from_glam).collect(), indices }
}

#[test]
fn flat_ground_normals_point_up() {
    // Counter-clockwise seen from above.
    let indices = vec![0, 2, 1, 1, 2, 3];
    for n in normals(&square(), &indices) {
        assert!((n.y - 1.0).abs() < 1e-5, "expected up, got {n:?}");
    }
}

#[test]
fn a_vertex_with_no_triangles_still_gets_a_usable_normal() {
    let positions = vec![Vec3::ZERO, Vec3::X, Vec3::Z, Vec3::new(9.0, 0.0, 9.0)];
    let normals = normals(&positions, &[0, 2, 1]);
    assert_eq!(normals[3], Vec3::Y);
}

#[test]
fn a_larger_face_weighs_more() {
    // A floor of one square metre meets a wall of two along an edge.
    let positions = vec![
        Vec3::ZERO,
        Vec3::X,
        Vec3::Z,
        Vec3::new(1.0, 4.0, 0.0),
        Vec3::new(0.0, 4.0, 0.0),
    ];
    let indices = [0, 2, 1, 0, 1, 4];
    let n = normals(&positions, &indices);
    let expected = (Vec3::Y + Vec3::Z * 4.0).normalize();
    assert!((n[0] - expected).length() < 1e-6, "{:?}", n[0]);
    assert_eq!(n[2], Vec3::Y);
    assert_eq!(n[3], Vec3::Y);
}

#[test]
fn what_is_left_of_a_triangle_is_ignored() {
    let n = normals(&square(), &[0, 2, 1, 3, 3]);
    assert_eq!(n.len(), 4);
    assert_eq!(n[0], Vec3::Y);
    assert_eq!(n[3], Vec3::Y);
}

#[test]
fn ground_becomes_vertices_without_a_light_map() {
    let p = patch(square(), vec![0, 2, 1, 1, 2, 3]);
    let g = load(Some(p), &face, &sum, &unit, &colour).expect("ground");
    assert!(!g.is_empty());
    assert_eq!(g.indices, vec![0, 2, 1, 1, 2, 3]);
    assert_eq!(g.vertices.len(), 4);
    assert_eq!(to_glam(g.vertices[3].position), Vec3::new(1.0, 0.0, 1.0));
    assert_eq!(f(g.vertices[3].color.x), 1.0);
    assert_eq!(g.vertices[3].uv2, scalar::Vec2 { x: s(0.0), y: s(0.0) });
    assert_eq!(g.vertices[3].reflectivity, s(0.0));
}

#[test]
fn terrain_without_triangles_is_no_terrain() {
    assert!(load(None, &face, &sum, &unit, &colour).is_none());
    let none = patch(square(), Vec::new());
    assert!(load(Some(none), &face, &sum, &unit, &colour).is_none());
    let none = patch(Vec::new(), Vec::new());
    assert!(load(Some(none), &face, &sum, &unit, &colour).is_none());
}

#[test]
fn a_patch_is_cut_at_one_step_at_least() {
    assert_eq!(patch_step(0), 1);
    assert_eq!(patch_step(1), 1);
    assert_eq!(patch_step(7), 7);
}

fn ground() -> TerrainGeometry {
    let p = patch(square(), vec![0, 2, 1]);
    load(Some(p), &face, &sum, &unit, &colour).unwrap()
}

#[test]
fn only_a_map_that_was_read_paints_the_ground() {
    let read = Splat::Read { width: 1, height: 1, bytes: vec![9, 8, 7, 6] };
    let (_, splat) = load_scene_terrain(Some(ground()), read).unwrap();
    let splat: TerrainImage = splat.unwrap();
    assert_eq!((splat.width, splat.height, splat.rgba), (1, 1, vec![9, 8, 7, 6]));

    assert!(load_scene_terrain(Some(ground()), Splat::Undeclared).unwrap().1.is_none());
    assert!(load_scene_terrain(Some(ground()), Splat::Broken).unwrap().1.is_none());
    assert!(load_scene_terrain(None, Splat::Undeclared).is_none());
}

#[test]
fn empty_ground_is_not_handed_to_the_renderer() {
    let loaded = load_scene_terrain(Some(ground()), Splat::Undeclared);
    let (vertices, indices) = to_draw(&loaded).unwrap();
    assert_eq!((vertices.len(), indices.len()), (4, 3));

    let empty = TerrainGeometry { vertices: Vec::new(), indices: vec![0] };
    assert!(empty.is_empty());
    assert!(to_draw(&Some((empty, None))).is_none());
    assert!(to_draw(&None).is_none());
}
