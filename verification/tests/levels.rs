use std::cell::RefCell;

use quest_app::brush_render::TerrainImage;
use quest_app::engine::{GripKind, GripPointDef, Hand, SkyDef};
use quest_app::level::{Level, LevelFiles};
use quest_app::protocol::WireWorld;
use quest_app::scalar::{Scalar, Vec2, Vec3, Vec4};
use quest_app::scene::{GameObject, MeshGroup, Scene};
use quest_app::terrain_render::{SolidVertex, Splat, TerrainGeometry};

fn zero() -> Scalar {
    Scalar::zero()
}

fn world(name: &str) -> Option<WireWorld> {
    Some(WireWorld {
        scene_name: name.to_string(),
        player_offset: Vec3::origin(),
        player_yaw: zero(),
        cuboids: Vec::new(),
        meshes: Vec::new(),
        lights: Vec::new(),
        lasers: Vec::new(),
        object_bounds: Vec::new(),
        particle_emitters: Vec::new(),
        hidden_brushes: Vec::new(),
        left_hand_held: None,
        right_hand_held: None,
        sounds: Vec::new(),
    })
}

fn triangle(id: &str) -> MeshGroup {
    MeshGroup {
        material: format!("{id} stone"),
        positions: vec![zero(); 9],
        normals: vec![zero(); 9],
        tangents: vec![zero(); 12],
        uvs: vec![zero(); 6],
        uv2: vec![zero(); 6],
        indices: vec![0, 1, 2],
    }
}

fn object(id: &str, brush: bool) -> GameObject {
    GameObject {
        id: id.to_string(),
        brush: if brush { Some(vec![triangle(id)]) } else { None },
        tint: Vec4 { x: zero(), y: zero(), z: zero(), w: zero() },
        grip_points: vec![GripPointDef {
            name: "handle".to_string(),
            hand: Hand::Left,
            kind: GripKind::Palm,
            grab_range: None,
            part: None,
            local_pos: Vec3::origin(),
        }],
        part_animations: Vec::new(),
    }
}

fn scene(id: &str, brush: bool) -> Option<Scene> {
    let sky = Some(SkyDef { id: id.to_string(), rotation_deg: zero(), intensity: zero() });
    Some(Scene { objects: vec![object(id, brush)], sky })
}

fn ground() -> Option<TerrainGeometry> {
    let corner = SolidVertex {
        position: Vec3::origin(),
        normal: Vec3::origin(),
        color: Vec4 { x: zero(), y: zero(), z: zero(), w: zero() },
        uv2: Vec2 { x: zero(), y: zero() },
        reflectivity: zero(),
    };
    Some(TerrainGeometry { vertices: vec![corner; 3], indices: vec![0, 1, 2] })
}

/// The files of a scene: "meadow" has painted ground, "moor" has bare ground, and
/// of "nowhere" nothing can be read.
fn read(name: &String) -> LevelFiles<String> {
    let there = name != "nowhere";
    let grassy = name == "meadow" || name == "moor";
    LevelFiles {
        document: if there { scene(name, false) } else { None },
        brushes: if there { scene(name, true) } else { None },
        ground: if grassy { ground() } else { None },
        splat: if name == "meadow" {
            Splat::Read { width: 1, height: 1, bytes: vec![1, 2, 3, 4] }
        } else {
            Splat::Undeclared
        },
        engine: name.clone(),
    }
}

fn paint(level: &Level<String>) -> Option<Vec<u8>> {
    level.splat().map(|image: &TerrainImage| image.rgba.clone())
}

/// Everything of a level that its scene names.
fn all_of(level: &Level<String>) -> Vec<String> {
    let mut names: Vec<String> = vec![level.statics.scene_name.clone(), level.engine.clone()];
    names.extend(level.statics.grip_points.entries.iter().map(|(id, _)| id.clone()));
    names.extend(level.statics.sky.iter().map(|sky| sky.id.clone()));
    names.extend(level.brushes.objects.iter().map(|o| o.id.clone()));
    names
}

#[test]
fn another_scene_replaces_all_of_the_level() {
    let first = "meadow".to_string();
    let mut level = Level::load(&first, read(&first), 4);
    assert_eq!(all_of(&level), vec!["meadow"; 5]);
    assert_eq!(paint(&level), Some(vec![1, 2, 3, 4]));

    assert!(level.follow(&world("moor"), 4, read));
    assert_eq!(all_of(&level), vec!["moor"; 5]);
    assert_eq!(level.brushes.materials(), ["moor stone".to_string()]);
    assert!(level.terrain.is_some());
    assert_eq!(paint(&level), None, "the paint of the meadow is gone");

    assert!(level.follow(&world("cellar"), 4, read));
    assert_eq!(all_of(&level), vec!["cellar"; 5]);
    assert!(level.terrain.is_none());

    assert!(level.follow(&world("nowhere"), 4, read));
    assert_eq!(all_of(&level), vec!["nowhere"; 2]);
    assert!(level.brushes.is_empty() && level.brushes.materials().is_empty());
}

#[test]
fn the_same_scene_is_not_read_again() {
    let first = "moor".to_string();
    let mut level = Level::load(&first, read(&first), 4);
    let asked = RefCell::new(Vec::new());
    let note = |name: &String| {
        asked.borrow_mut().push(name.clone());
        read(name)
    };
    assert!(!level.follow(&world("moor"), 4, note));
    assert!(!level.follow(&None, 4, note));
    assert!(asked.borrow().is_empty());
    assert!(level.follow(&world("meadow"), 4, note));
    assert!(!level.follow(&world("meadow"), 4, note));
    assert!(!level.follow(&None, 4, note));
    assert_eq!(*asked.borrow(), vec!["meadow".to_string()]);
    assert_eq!(all_of(&level), vec!["meadow"; 5]);
}
