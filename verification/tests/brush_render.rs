use std::collections::HashSet;

use glam::{Quat, Vec3};

use quest_app::brush_render::{
    brush_numbers, clamped_materials, dropped_brushes, hidden_fingerprint, load_materials,
    scene_materials, BrushGeometry, BrushVertex, PlacedVertex, TerrainImage,
};
use quest_app::frame_loop::load_scene_brushes;
use quest_app::scalar;
use quest_app::scalar::Scalar;
use quest_app::scene::{GameObject, MeshGroup, Scene};

const LIMIT: usize = 8;

fn s(x: f32) -> Scalar {
    Scalar { bits: x.to_bits() }
}

fn f(x: Scalar) -> f32 {
    f32::from_bits(x.bits)
}

fn to_glam(v: scalar::Vec3) -> Vec3 {
    Vec3::new(f(v.x), f(v.y), f(v.z))
}

fn from_glam(v: Vec3) -> scalar::Vec3 {
    scalar::Vec3 { x: s(v.x), y: s(v.y), z: s(v.z) }
}

/// The six faces of a block, each with its own material, two metres to a tile.
fn block(lo: Vec3, hi: Vec3, materials: [&str; 6]) -> Vec<MeshGroup> {
    let faces = [
        (Vec3::X, Vec3::Z),
        (Vec3::NEG_X, Vec3::Z),
        (Vec3::Y, Vec3::X),
        (Vec3::NEG_Y, Vec3::X),
        (Vec3::Z, Vec3::X),
        (Vec3::NEG_Z, Vec3::X),
    ];
    let centre = (lo + hi) / 2.0;
    let half = (hi - lo) / 2.0;
    let mut groups: Vec<MeshGroup> = Vec::new();
    for (k, (n, t)) in faces.iter().enumerate() {
        let name = materials[k];
        let at = match groups.iter().position(|g| g.material == name) {
            Some(i) => i,
            None => {
                groups.push(MeshGroup {
                    material: name.to_string(),
                    positions: Vec::new(),
                    normals: Vec::new(),
                    tangents: Vec::new(),
                    uvs: Vec::new(),
                    uv2: Vec::new(),
                    indices: Vec::new(),
                });
                groups.len() - 1
            }
        };
        let g = &mut groups[at];
        let base = (g.positions.len() / 3) as u32;
        let b = n.cross(*t);
        for (i, j) in [(-1.0f32, -1.0f32), (1.0, -1.0), (1.0, 1.0), (-1.0, 1.0)] {
            let p = centre + (*n + *t * i + b * j) * half;
            for c in [p.x, p.y, p.z] {
                g.positions.push(s(c));
            }
            for c in [n.x, n.y, n.z] {
                g.normals.push(s(c));
            }
            for c in [t.x, t.y, t.z, 1.0] {
                g.tangents.push(s(c));
            }
            g.uvs.push(s(p.dot(*t) / 2.0));
            g.uvs.push(s(p.dot(b) / 2.0));
            g.uv2.push(s(0.0));
            g.uv2.push(s(0.0));
        }
        for i in [0, 1, 2, 0, 2, 3] {
            g.indices.push(base + i);
        }
    }
    groups
}

fn object(id: &str, brush: Option<Vec<MeshGroup>>) -> GameObject {
    GameObject {
        id: id.to_string(),
        brush,
        tint: scalar::Vec4 { x: s(1.0), y: s(0.5), z: s(0.25), w: s(1.0) },
        grip_points: Vec::new(),
        part_animations: Vec::new(),
    }
}

/// A 4 x 2 x 0.3 wall.
fn wall_object(id: &str) -> GameObject {
    let lo = Vec3::new(-2.0, 0.0, -0.15);
    let hi = Vec3::new(2.0, 2.0, 0.15);
    object(id, Some(block(lo, hi, ["concrete"; 6])))
}

/// A wall whose six faces carry three different materials.
fn painted_wall(id: &str) -> GameObject {
    let lo = Vec3::new(-2.0, 0.0, -0.15);
    let hi = Vec3::new(2.0, 2.0, 0.15);
    let materials = ["brick", "brick", "metal", "concrete", "concrete", "concrete"];
    object(id, Some(block(lo, hi, materials)))
}

fn scene_of(objects: Vec<GameObject>) -> Scene {
    Scene { objects, sky: None }
}

fn load(objects: Vec<GameObject>) -> BrushGeometry {
    BrushGeometry::load(&scene_of(objects), LIMIT)
}

fn assemble(
    g: &mut BrushGeometry,
    hidden: &[String],
    offset: Vec3,
    yaw_inv: Quat,
    player_yaw: f32,
) -> Option<(Vec<BrushVertex>, Vec<u32>)> {
    let place = |v: BrushVertex| PlacedVertex {
        position: from_glam(yaw_inv * (to_glam(v.position) - offset)),
        normal: from_glam(yaw_inv * to_glam(v.normal)),
        tangent: from_glam(yaw_inv * Vec3::new(f(v.tangent.x), f(v.tangent.y), f(v.tangent.z))),
    };
    g.assemble(hidden, from_glam(offset), s(player_yaw), &place)
        .map(|(v, i)| (v.to_vec(), i.to_vec()))
}

fn span(v: &[f32]) -> f32 {
    v.iter().fold(f32::MIN, |a, b| a.max(*b)) - v.iter().fold(f32::MAX, |a, b| a.min(*b))
}

#[test]
fn a_wall_meshes_to_its_own_shape_and_not_a_box() {
    let g = load(vec![wall_object("wall")]);
    assert_eq!(g.object_count(), 1);

    let o = &g.objects[0];
    assert_eq!(o.indices.len(), 36);

    let xs: Vec<f32> = o.vertices.iter().map(|v| f(v.position.x)).collect();
    let zs: Vec<f32> = o.vertices.iter().map(|v| f(v.position.z)).collect();
    assert!((span(&xs) - 4.0).abs() < 1e-4, "4m wide: {}", span(&xs));
    assert!((span(&zs) - 0.3).abs() < 1e-4, "and 30cm thick: {}", span(&zs));
}

#[test]
fn every_face_carries_the_normal_of_the_plane_it_came_from() {
    let g = load(vec![wall_object("wall")]);
    let normals: HashSet<[i32; 3]> = g.objects[0]
        .vertices
        .iter()
        .map(|v| {
            [
                (f(v.normal.x) * 100.0).round() as i32,
                (f(v.normal.y) * 100.0).round() as i32,
                (f(v.normal.z) * 100.0).round() as i32,
            ]
        })
        .collect();
    assert_eq!(normals.len(), 6, "six flat faces, six normals: {normals:?}");
    for n in &normals {
        let len = ((n[0] * n[0] + n[1] * n[1] + n[2] * n[2]) as f32).sqrt() / 100.0;
        assert!((len - 1.0).abs() < 0.02, "normals are unit: {n:?}");
    }
}

#[test]
fn each_face_carries_the_layer_of_its_own_material() {
    let g = load(vec![painted_wall("wall")]);
    assert_eq!(g.materials().len(), 3, "three distinct materials: {:?}", g.materials());

    let used: HashSet<u32> = g.objects[0].vertices.iter().map(|v| v.material).collect();
    assert_eq!(used.len(), 3, "and three distinct layers on the geometry");
    for i in &used {
        assert!((*i as usize) < g.materials().len(), "layer {i} is in range");
    }
}

#[test]
fn two_walls_of_the_same_material_share_one_layer() {
    let g = load(vec![painted_wall("a"), painted_wall("b")]);
    assert_eq!(g.materials().len(), 3, "still three: {:?}", g.materials());
}

#[test]
fn a_scene_past_the_material_limit_clamps_rather_than_wrapping() {
    let objects: Vec<GameObject> = (0..LIMIT + 5)
        .map(|i| {
            let name = format!("mat{i}");
            let groups = block(Vec3::ZERO, Vec3::ONE, [name.as_str(); 6]);
            object(&format!("w{i}"), Some(groups))
        })
        .collect();

    let g = load(objects);
    assert_eq!(g.materials().len(), LIMIT);
    for v in g.objects.iter().flat_map(|o| &o.vertices) {
        assert!(
            (v.material as usize) < LIMIT,
            "layer {} would read past the end of the array",
            v.material
        );
    }
}

#[test]
fn the_uv_is_in_tiles_so_a_wall_repeats_its_material() {
    let g = load(vec![wall_object("wall")]);
    let us: Vec<f32> = g.objects[0].vertices.iter().map(|v| f(v.uv.x)).collect();
    assert!(
        (span(&us) - 2.0).abs() < 1e-4,
        "4m of wall at the default 2m tile is two tiles: {}",
        span(&us)
    );
}

#[test]
fn tangents_survive_the_walk_into_the_players_frame() {
    let mut g = load(vec![wall_object("wall")]);
    let yaw = std::f32::consts::FRAC_PI_2;
    let (verts, _) =
        assemble(&mut g, &[], Vec3::ZERO, Quat::from_rotation_y(-yaw), yaw).expect("geometry");
    for v in verts {
        let t = Vec3::new(f(v.tangent.x), f(v.tangent.y), f(v.tangent.z));
        let n = to_glam(v.normal);
        assert!((t.length() - 1.0).abs() < 1e-3, "tangent stays unit: {t:?}");
        assert!(
            t.dot(n).abs() < 1e-3,
            "and stays in the face it belongs to: t={t:?} n={n:?}"
        );
    }
}

#[test]
fn a_scene_with_no_brushes_hands_the_renderer_nothing() {
    let mut g = load(vec![object("", None)]);
    assert!(g.is_empty());
    assert!(assemble(&mut g, &[], Vec3::ZERO, Quat::IDENTITY, 0.0).is_none());
}

#[test]
fn geometry_arrives_in_the_players_frame_not_the_worlds() {
    let mut g = load(vec![wall_object("wall")]);
    let offset = Vec3::new(10.0, 0.0, 0.0);

    let (verts, _) = assemble(&mut g, &[], offset, Quat::IDENTITY, 0.0).expect("geometry");
    let min_x = verts.iter().fold(f32::MAX, |a, v| a.min(f(v.position.x)));
    assert!((min_x - (-12.0)).abs() < 1e-4, "walked 10m east: {min_x}");
}

#[test]
fn a_yawed_player_turns_the_wall_and_its_normals_together() {
    let mut g = load(vec![wall_object("wall")]);
    let yaw = std::f32::consts::FRAC_PI_2;
    let (verts, _) =
        assemble(&mut g, &[], Vec3::ZERO, Quat::from_rotation_y(-yaw), yaw).expect("geometry");

    let centre =
        verts.iter().fold(Vec3::ZERO, |a, v| a + to_glam(v.position)) / verts.len() as f32;
    for v in &verts {
        let n = to_glam(v.normal);
        assert!((n.length() - 1.0).abs() < 1e-3, "still unit: {n:?}");
        assert!(
            n.dot(to_glam(v.position) - centre) > 0.0,
            "normal {n:?} does not face outward from {centre:?} at {:?}",
            v.position
        );
    }
    let zs: Vec<f32> = verts.iter().map(|v| f(v.position.z)).collect();
    assert!((span(&zs) - 4.0).abs() < 1e-3, "the 4m span turned onto z: {}", span(&zs));
}

#[test]
fn a_hidden_brush_is_left_out_of_the_buffer() {
    let mut g = load(vec![wall_object("a"), wall_object("b")]);
    let whole = assemble(&mut g, &[], Vec3::ZERO, Quat::IDENTITY, 0.0).unwrap().1.len();

    let half = assemble(&mut g, &["a".to_string()], Vec3::ZERO, Quat::IDENTITY, 0.0)
        .unwrap()
        .1
        .len();
    assert_eq!(half * 2, whole, "one of two walls gone");

    let all = ["a".to_string(), "b".to_string()];
    assert!(
        assemble(&mut g, &all, Vec3::ZERO, Quat::IDENTITY, 0.0).is_none(),
        "a level shot to pieces hands the renderer nothing, not an empty draw"
    );
}

#[test]
fn a_wall_that_came_back_is_drawn_again() {
    let mut g = load(vec![wall_object("a")]);
    assert!(assemble(&mut g, &["a".into()], Vec3::ZERO, Quat::IDENTITY, 0.0).is_none());
    assert!(
        assemble(&mut g, &[], Vec3::ZERO, Quat::IDENTITY, 0.0).is_some(),
        "standing perfectly still, the wall must reappear"
    );
}

#[test]
fn reordering_the_hidden_list_is_not_a_change() {
    let mut g = load(vec![wall_object("a"), wall_object("b")]);
    let all = ["a".to_string(), "b".to_string()];
    let first = assemble(&mut g, &all, Vec3::ZERO, Quat::IDENTITY, 0.0).is_none();
    assert!(first);
    assert_eq!(
        hidden_fingerprint(&["a".into(), "b".into()]),
        hidden_fingerprint(&["b".into(), "a".into()])
    );
}

#[test]
fn two_different_hidden_sets_are_told_apart() {
    assert_ne!(
        hidden_fingerprint(&["a".into()]),
        hidden_fingerprint(&["b".into()])
    );
    assert_ne!(
        hidden_fingerprint(&["a".into()]),
        hidden_fingerprint(&["a".into(), "b".into()])
    );
}

#[test]
fn fingerprints_have_these_values() {
    assert_eq!(hidden_fingerprint(&[]), 0);
    // FNV-1a of "a", plus one for the length of the list.
    assert_eq!(hidden_fingerprint(&["a".into()]), 0xaf63_dc4c_8601_ec8c + 1);
    let both = 0xaf63_dc4c_8601_ec8cu64.wrapping_add(0xaf63_df4c_8601_f1a5).wrapping_add(2);
    assert_eq!(hidden_fingerprint(&["a".into(), "b".into()]), both);
}

#[test]
fn a_player_who_stands_still_keeps_the_buffer() {
    let mut g = load(vec![wall_object("a")]);
    assemble(&mut g, &[], Vec3::ZERO, Quat::IDENTITY, 0.0);
    // Were the buffer built anew, everything would collapse into the origin.
    let flat = |v: BrushVertex| PlacedVertex {
        position: scalar::Vec3::origin(),
        normal: v.normal,
        tangent: scalar::Vec3::origin(),
    };
    let (verts, _) = g.assemble(&[], scalar::Vec3::origin(), s(0.0), &flat).unwrap();
    assert!(verts.iter().any(|v| f(v.position.x) == 2.0));
    // Minus zero is the same number as zero.
    let (verts, _) = g.assemble(&[], scalar::Vec3::origin(), s(-0.0), &flat).unwrap();
    assert!(verts.iter().any(|v| f(v.position.x) == 2.0));
    // A player who turned is another matter.
    let (verts, _) = g.assemble(&[], scalar::Vec3::origin(), s(0.1), &flat).unwrap();
    assert!(verts.iter().all(|v| f(v.position.x) == 0.0));
}

#[test]
fn a_brush_without_triangles_is_left_out() {
    let mut groups = block(Vec3::ZERO, Vec3::ONE, ["x"; 6]);
    groups[0].indices.clear();
    let g = load(vec![object("empty", Some(groups)), wall_object("wall")]);
    assert_eq!(g.object_count(), 1);
    assert_eq!(g.objects[0].id, "wall");
    // Its material has been counted all the same.
    assert_eq!(g.materials(), ["x".to_string(), "concrete".to_string()]);
}

#[test]
fn the_second_wall_counts_its_indices_from_the_first() {
    let mut g = load(vec![wall_object("a"), wall_object("b")]);
    let (verts, indices) = assemble(&mut g, &[], Vec3::ZERO, Quat::IDENTITY, 0.0).unwrap();
    assert_eq!(verts.len(), 48);
    assert_eq!(indices.len(), 72);
    assert_eq!(indices[0], 0);
    assert_eq!(indices[36], 24);
    assert_eq!(verts[0].tint, scalar::Vec4 { x: s(1.0), y: s(0.5), z: s(0.25), w: s(1.0) });
}

#[test]
fn a_scene_that_cannot_be_read_has_no_brushes() {
    assert!(load_scene_brushes(&None, LIMIT).is_empty());
    let scene = Some(scene_of(vec![wall_object("a")]));
    assert_eq!(load_scene_brushes(&scene, LIMIT).object_count(), 1);
    assert!(BrushGeometry::empty().is_empty());
}

#[test]
fn a_missing_colour_map_is_drawn_white() {
    let names = ["brick".to_string(), "default".to_string(), "metal".to_string()];
    let image = || TerrainImage { width: 2, height: 1, rgba: vec![1, 2, 3, 4, 5, 6, 7, 8] };
    let (colours, normals, missing) = load_materials(
        &names,
        vec![None, None, Some(image())],
        vec![None, Some(image()), None],
    );
    assert_eq!(colours.len(), 3);
    assert_eq!((colours[0].width, colours[0].height), (1, 1));
    assert_eq!(colours[0].rgba, vec![255, 255, 255, 255]);
    assert_eq!(colours[1].rgba, vec![255, 255, 255, 255]);
    assert_eq!(colours[2].rgba, vec![1, 2, 3, 4, 5, 6, 7, 8]);
    assert!(normals[0].is_none() && normals[1].is_some() && normals[2].is_none());
    // Nobody installs "default", so nobody is told that it is missing.
    assert_eq!(missing, vec!["brick".to_string()]);
}

#[test]
fn a_brush_without_geometry_still_takes_its_number() {
    assert_eq!(
        brush_numbers(&vec![false, true, true, false, true]),
        vec![None, Some(0), Some(1), None, Some(2)]
    );
    assert!(brush_numbers(&Vec::new()).is_empty());

    let scene = scene_of(vec![
        wall_object("a"),
        object("hollow", Some(Vec::new())),
        object("lamp", None),
        wall_object("b"),
    ]);
    let flags = scene.objects.iter().map(|o| o.brush.is_some()).collect();
    assert_eq!(brush_numbers(&flags), vec![Some(0), Some(1), None, Some(2)]);
    let g = BrushGeometry::load(&scene, LIMIT);
    assert_eq!(g.object_count(), 2);
    assert_eq!(dropped_brushes(&scene), vec!["hollow".to_string()]);
}

#[test]
fn a_brush_with_corners_and_no_triangles_is_dropped() {
    let mut groups = block(Vec3::ZERO, Vec3::ONE, ["brick"; 6]);
    groups[0].indices.clear();
    let scene = scene_of(vec![object("loose", Some(groups)), wall_object("wall")]);
    assert_eq!(dropped_brushes(&scene), vec!["loose".to_string()]);
    let g = BrushGeometry::load(&scene, LIMIT);
    assert_eq!(g.objects[0].id, "wall");
}

#[test]
fn materials_past_the_limit_are_listed() {
    let named = |id: &str, materials| object(id, Some(block(Vec3::ZERO, Vec3::ONE, materials)));
    let scene = scene_of(vec![
        named("a", ["brick", "brick", "metal", "tile", "tile", "tile"]),
        named("b", ["brick", "tile", "wood", "wood", "wood", "wood"]),
    ]);
    let layers = scene_materials(&scene, 2);
    assert_eq!(layers, vec!["brick".to_string(), "metal".to_string()]);
    assert_eq!(BrushGeometry::load(&scene, 2).materials(), layers.as_slice());
    let clamped = clamped_materials(&scene, &layers);
    assert_eq!(clamped, vec!["tile".to_string(), "tile".to_string(), "wood".to_string()]);
    assert!(clamped_materials(&scene, &scene_materials(&scene, LIMIT)).is_empty());
}

#[test]
fn that_the_buffer_is_kept_never_shows() {
    let level = || load(vec![wall_object("a"), painted_wall("b"), wall_object("c")]);
    let ids = |list: &[&str]| -> Vec<String> { list.iter().map(|t| t.to_string()).collect() };
    let mut kept = level();
    let calls = [
        (ids(&["a"]), 0.0, 0.0),
        (ids(&["a", "c"]), 0.0, 0.0),
        (ids(&["c", "a"]), 0.0, 0.0),
        (ids(&["c", "nobody", "a"]), 0.0, 0.0),
        (ids(&[]), 3.0, 0.0),
        (ids(&[]), 3.0, 0.5),
        (ids(&["a", "b", "c"]), 3.0, 0.5),
        (ids(&["b"]), 3.0, 0.5),
    ];
    for (hidden, x, yaw) in calls {
        let offset = Vec3::new(x, 0.0, -x);
        let turn = Quat::from_rotation_y(-yaw);
        let shown = assemble(&mut kept, &hidden, offset, turn, yaw);
        // Listed the other way round, with one of them twice and a stranger.
        let mut other: Vec<String> = hidden.iter().rev().cloned().collect();
        other.extend(hidden.first().cloned());
        other.push("stranger".to_string());
        assert_eq!(shown, assemble(&mut level(), &other, offset, turn, yaw));
    }
}
