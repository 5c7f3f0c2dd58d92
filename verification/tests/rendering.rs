use std::cell::RefCell;
use std::collections::{HashMap, HashSet};

use quest_app::avatar::RemotePlayerState;
use quest_app::avatar_render::{
    at_rest, build_bodies, update_avatar_bodies, BodyStep, Fingers, HandPlace,
};
use quest_app::convert::{
    to_space_soup_beam, to_space_soup_cuboid, to_space_soup_light, Color3, CuboidPaint,
    CuboidShape, LightKind,
};
use quest_app::engine::{
    ClipBlendMode, ControllerState, PartAnimationDef, PartDriver, PerHand, SkyDef, Transform,
};
use quest_app::grab_detect::StaticScene;
use quest_app::loaders::{deliver, load_scene_sky};
use quest_app::mesh_load::queue_new_meshes;
use quest_app::part_pull::PullSession;
use quest_app::particles::{hash_to_unit_floats, simulate};
use quest_app::protocol::{
    WireColor3, WireCuboidShape, WireCuboidStyle, WireHeldGrip, WireLightKind, WireRenderCuboid,
    WireRenderLaser, WireRenderLight, WireRenderMesh, WireRenderParticleEmitter, WireWorld,
};
use quest_app::render_prep::{
    build_render_lists, mesh_instances, publish_parts, refresh_variants, Bodies, Instance,
    MeshFacts, Outlook, RenderLists, Sources,
};
use quest_app::scalar::{Quat, Scalar, Vec2, Vec3, Vec4};
use quest_app::scene::{GameObject, Scene};
use quest_app::table::Table;

fn s(x: f32) -> Scalar {
    Scalar { bits: x.to_bits() }
}

fn f(x: Scalar) -> f32 {
    f32::from_bits(x.bits)
}

fn vec3(x: f32, y: f32, z: f32) -> Vec3 {
    Vec3 { x: s(x), y: s(y), z: s(z) }
}

fn at(x: f32) -> Transform {
    Transform { position: vec3(x, 0.0, 0.0), rotation: Quat::identity() }
}

/// One metre east of the world's frame.
fn point(p: Vec3) -> Vec3 {
    Vec3 { x: s(f(p.x) - 1.0), ..p }
}

fn turn(q: Quat) -> Quat {
    Quat { x: q.w, y: q.y, z: q.z, w: q.x }
}

fn aim(d: Vec3) -> Vec3 {
    Vec3 { x: s(-f(d.x)), ..d }
}

fn cuboid(id: &str, style: WireCuboidStyle) -> WireRenderCuboid {
    WireRenderCuboid {
        id: id.to_string(),
        position: vec3(3.0, 0.0, 0.0),
        rotation: Quat::identity(),
        half_size: vec3(0.5, 0.5, 0.5),
        color: WireColor3(1, 2, 3, 4),
        wire_color: WireColor3(5, 6, 7, 8),
        style,
        shape: WireCuboidShape::Cylinder,
        reflectivity: s(1.5),
    }
}

fn mesh(id: &str, path: &str, hidden: &[&str]) -> WireRenderMesh {
    WireRenderMesh {
        id: id.to_string(),
        path: path.to_string(),
        position: vec3(2.0, 0.0, 0.0),
        rotation: Quat::identity(),
        scale: vec3(1.0, 1.0, 2.0),
        hidden_parts: hidden.iter().map(|h| h.to_string()).collect(),
        manual_part_blends: Table::new(),
    }
}

fn facts(joints: Option<&[&str]>) -> MeshFacts {
    MeshFacts { joints: joints.map(|j| j.iter().map(|n| n.to_string()).collect()) }
}

fn cache(entries: Vec<(&str, MeshFacts)>) -> Table<MeshFacts> {
    let mut t = Table::new();
    for (id, f) in entries {
        t.insert(id.to_string(), f);
    }
    t
}

#[test]
fn a_cuboid_shows_the_colours_of_its_style() {
    let solid = to_space_soup_cuboid(&cuboid("a", WireCuboidStyle::Solid), &point, &turn);
    assert_eq!(solid.paint, CuboidPaint::Solid { color: Color3(1, 2, 3, 4) });
    assert_eq!(solid.position, vec3(2.0, 0.0, 0.0));
    assert_eq!(solid.rotation.x, s(1.0));
    assert_eq!(solid.half_size, vec3(0.5, 0.5, 0.5));
    assert_eq!(solid.lightmap_key, Some("a".to_string()));
    assert_eq!(solid.reflectivity, s(1.0));
    assert_eq!(solid.shape, CuboidShape::Cylinder);
    let wire = to_space_soup_cuboid(&cuboid("a", WireCuboidStyle::Wireframe), &point, &turn);
    assert_eq!(wire.paint, CuboidPaint::Wireframe { wire_color: Color3(5, 6, 7, 8) });
    let both = to_space_soup_cuboid(&cuboid("a", WireCuboidStyle::SolidAndWire), &point, &turn);
    assert_eq!(
        both.paint,
        CuboidPaint::SolidAndWire { color: Color3(1, 2, 3, 4), wire_color: Color3(5, 6, 7, 8) }
    );
}

fn light() -> WireRenderLight {
    WireRenderLight {
        position: vec3(3.0, 1.0, 0.0),
        direction: vec3(1.0, 0.0, 0.0),
        kind: WireLightKind::Spot,
        color: WireColor3(9, 8, 7, 6),
        intensity: s(2.0),
        range: s(5.0),
        cone_angle_deg: s(30.0),
    }
}

#[test]
fn a_light_is_aimed_and_moved() {
    let l = to_space_soup_light(&light(), &point, &aim);
    assert_eq!(l.position, vec3(2.0, 1.0, 0.0));
    assert_eq!(l.direction.x, s(-1.0));
    assert_eq!(l.kind, LightKind::Spot);
    assert_eq!((l.intensity, l.range, l.cone_angle_deg), (s(2.0), s(5.0), s(30.0)));
    assert_eq!(l.color, Color3(9, 8, 7, 6));
}

#[test]
fn a_beam_has_two_ends() {
    let laser = WireRenderLaser {
        origin: vec3(1.0, 0.0, 0.0),
        end: vec3(5.0, 0.0, 0.0),
        beam_width: s(0.02),
        color: WireColor3(1, 1, 1, 1),
    };
    let b = to_space_soup_beam(&laser, &point);
    assert_eq!((b.start.x, b.end.x, b.width), (s(0.0), s(4.0), s(0.02)));
}

#[test]
fn meshes_are_asked_for_once_and_file_by_file() {
    let loaded = cache(vec![("have", facts(None))]);
    let mut requested = vec!["asked".to_string()];
    let meshes = [
        mesh("a", "gun.glb", &[]),
        mesh("have", "gun.glb", &[]),
        mesh("b", "box.glb", &[]),
        mesh("asked", "box.glb", &[]),
        mesh("c", "gun.glb", &[]),
        mesh("a", "box.glb", &[]),
    ];
    let r = queue_new_meshes(&meshes, &loaded, &mut requested);
    let expected = vec![
        ("gun.glb".to_string(), vec!["a".to_string(), "c".to_string()]),
        ("box.glb".to_string(), vec!["b".to_string()]),
    ];
    assert_eq!(r, expected);
    assert_eq!(requested, ["asked", "a", "b", "c"]);
    assert!(queue_new_meshes(&meshes, &loaded, &mut requested).is_empty());
    assert_eq!(requested.len(), 4);
}

#[test]
fn a_slot_s_numbers_follow_from_its_emitter() {
    let reference = |id: &str, slot: u64| {
        let h = id
            .bytes()
            .fold(0xcbf29ce484222325u64, |h, b| (h ^ b as u64).wrapping_mul(0x100000001b3));
        let mix = |mut x: u64| {
            x ^= x >> 30;
            x = x.wrapping_mul(0xbf58476d1ce4e5b9);
            x ^= x >> 27;
            x = x.wrapping_mul(0x94d049bb133111eb);
            x ^ (x >> 31)
        };
        (mix(h ^ (slot * 2)) % 1_000_000, mix(h ^ (slot * 2 + 1)) % 1_000_000)
    };
    for slot in 0..20 {
        let r = hash_to_unit_floats("fire", slot);
        assert_eq!(r, reference("fire", slot as u64));
        assert!(r.0 < 1_000_000 && r.1 < 1_000_000);
    }
    assert_ne!(hash_to_unit_floats("fire", 0), hash_to_unit_floats("smoke", 0));
}

fn emitter(id: &str, lifetime: f32) -> WireRenderParticleEmitter {
    WireRenderParticleEmitter {
        id: id.to_string(),
        position: vec3(0.0, 0.0, 0.0),
        direction: vec3(0.0, 1.0, 0.0),
        spread_deg: s(10.0),
        speed: s(1.0),
        spawn_rate: s(1.0),
        lifetime: s(lifetime),
        particle_size: s(0.25),
        color: WireColor3(10, 20, 30, 40),
    }
}

#[test]
fn every_slot_of_every_emitter_sheds_a_particle() {
    let capacity = |e: &WireRenderParticleEmitter| f(e.lifetime) as usize;
    let place = |e: &WireRenderParticleEmitter, slot: usize, u1: u64, _u2: u64| {
        assert_eq!(u1, hash_to_unit_floats(&e.id, slot).0);
        (vec3(slot as f32, 0.0, 0.0), 7 + slot as u8)
    };
    let p = simulate(&[emitter("a", 2.0), emitter("b", 0.0), emitter("c", 1.0)], &capacity, &place);
    assert_eq!(p.len(), 3);
    assert_eq!(p[1].position.x, s(1.0));
    assert_eq!(p[1].color, Color3(10, 20, 30, 8));
    assert_eq!(p[2].color, Color3(10, 20, 30, 7));
    assert_eq!(p[2].size, s(0.25));
}

#[test]
fn a_mesh_is_delivered_while_someone_listens() {
    let ids: Vec<String> = ["a", "b", "c"].iter().map(|i| i.to_string()).collect();
    let sent = RefCell::new(Vec::new());
    let all = |id: &String| {
        sent.borrow_mut().push(id.clone());
        true
    };
    assert!(deliver(&ids, &all));
    assert_eq!(*sent.borrow(), ids);
    sent.borrow_mut().clear();
    let until_b = |id: &String| {
        sent.borrow_mut().push(id.clone());
        id != "b"
    };
    assert!(!deliver(&ids, &until_b));
    assert_eq!(*sent.borrow(), ["a", "b"]);
    assert!(deliver(&Vec::new(), &until_b));
}

#[test]
fn a_sky_that_cannot_be_had_is_no_sky() {
    let def = SkyDef { id: "dusk".to_string(), rotation_deg: s(90.0), intensity: s(0.5) };
    let read = |parts: Vec<String>| {
        assert_eq!(parts, ["skies", "dusk", "sky.hdr"]);
        Some(vec![1u8, 2])
    };
    let sky = load_scene_sky(Some(&def), read, |bytes| Some(bytes.len()));
    assert_eq!(sky, Some((2, s(90.0), s(0.5))));
    assert!(load_scene_sky(Some(&def), read, |_| None::<u8>).is_none());
    assert!(load_scene_sky(Some(&def), |_| None, |_| Some(1)).is_none());
    assert!(load_scene_sky(None, |_| panic!("no sky"), |_| Some(1)).is_none());
}

fn player(x: f32) -> RemotePlayerState {
    RemotePlayerState { head: at(x), left_hand: Some(at(x)), right_hand: None }
}

#[test]
fn the_local_body_comes_first() {
    let mut remotes = HashMap::new();
    remotes.insert(5, player(5.0));
    remotes.insert(6, player(6.0));
    let grips = PerHand { left: at(2.0), right: at(3.0) };
    let bodies = build_bodies(1, at(1.0), &grips, &remotes);
    assert_eq!(bodies.len(), 3);
    assert_eq!(bodies[0].0, 1);
    assert_eq!(bodies[0].1.right_hand, Some(at(3.0)));
    let mut others: Vec<(u64, RemotePlayerState)> = bodies[1..].to_vec();
    others.sort_by_key(|b| b.0);
    assert_eq!(others, vec![(5, player(5.0)), (6, player(6.0))]);
}

fn held(id: &str, posed: bool) -> Option<WireHeldGrip> {
    Some(WireHeldGrip {
        object_id: id.to_string(),
        point_local_pos: Vec3::origin(),
        point_local_rot: Quat::identity(),
        has_hand_pose: posed,
    })
}

fn world(left: Option<WireHeldGrip>, right: Option<WireHeldGrip>) -> Option<WireWorld> {
    Some(WireWorld {
        scene_name: "den".to_string(),
        player_offset: Vec3::origin(),
        player_yaw: s(0.0),
        cuboids: Vec::new(),
        meshes: Vec::new(),
        lights: Vec::new(),
        lasers: Vec::new(),
        object_bounds: Vec::new(),
        particle_emitters: Vec::new(),
        hidden_brushes: Vec::new(),
        left_hand_held: left,
        right_hand_held: right,
        sounds: Vec::new(),
    })
}

const IDLE: PerHand<bool> = PerHand { left: false, right: false };

#[test]
fn bodies_wait_for_a_mesh_to_be_made_of() {
    let bodies = [(1, player(1.0))];
    let mut meshes = HashMap::new();
    let mut headless = false;
    let mut tall = HashSet::new();
    let steps =
        update_avatar_bodies(&mut meshes, None, &mut headless, &mut tall, 1, &None, &IDLE, &bodies);
    assert_eq!(steps, vec![BodyStep::Wait]);
    assert!(meshes.is_empty() && !headless && tall.is_empty());
}

#[test]
fn before_there_is_a_mesh_to_make_bodies_of_those_that_are_there_stay() {
    let mut meshes = HashMap::from([(2, false), (9, true)]);
    let mut headless = false;
    let mut tall = HashSet::new();
    let bodies = [(1, player(1.0)), (2, player(2.0))];
    update_avatar_bodies(&mut meshes, None, &mut headless, &mut tall, 1, &None, &IDLE, &bodies);
    assert_eq!(meshes, HashMap::from([(2, false)]));
}

#[test]
fn a_body_rests_at_the_origin_at_its_own_size() {
    let rest = at_rest();
    assert_eq!(rest.position, Vec3 { x: s(0.0), y: s(0.0), z: s(0.0) });
    assert_eq!(rest.rotation, Quat { x: s(0.0), y: s(0.0), z: s(0.0), w: s(1.0) });
    assert_eq!(rest.scale, Vec3 { x: s(1.0), y: s(1.0), z: s(1.0) });
}

#[test]
fn a_mesh_without_a_skeleton_only_rests() {
    let bodies = [(1, player(1.0))];
    let mut meshes = HashMap::new();
    let mut headless = false;
    let mut tall = HashSet::new();
    let mut update = || {
        let master = Some(false);
        update_avatar_bodies(
            &mut meshes, master, &mut headless, &mut tall, 1, &None, &IDLE, &bodies,
        )
    };
    assert_eq!(update(), vec![BodyStep::Rest { make: true, stand: at_rest() }]);
    assert_eq!(update(), vec![BodyStep::Rest { make: false, stand: at_rest() }]);
    assert!(!headless && tall.is_empty());
}

#[test]
fn bodies_are_made_once_and_forgotten_when_players_leave() {
    let mut meshes = HashMap::new();
    meshes.insert(9, true);
    let mut headless = false;
    let mut tall = HashSet::from([2, 9]);
    let master = Some(true);
    let mut bodies = [(1, player(1.0)), (2, player(2.0))];
    bodies[0].1.head.position.y = s(1.7);
    let w = world(None, held("gun", true));
    let pulls = PerHand { left: true, right: true };
    let steps =
        update_avatar_bodies(&mut meshes, master, &mut headless, &mut tall, 1, &w, &pulls, &bodies);
    assert_eq!(
        steps[0],
        BodyStep::Pose {
            make: true,
            stand: at_rest(),
            head_height: s(1.7),
            first_seen: true,
            left_hand: HandPlace::OnHandle,
            right_hand: HandPlace::Absent,
            left_fingers: Some(Fingers::OnHandle),
            right_fingers: Some(Fingers::Authored),
            headless: Some(true),
        }
    );
    assert_eq!(
        steps[1],
        BodyStep::Pose {
            make: true,
            stand: at_rest(),
            head_height: bodies[1].1.head.position.y,
            first_seen: false,
            left_hand: HandPlace::AsSeen,
            right_hand: HandPlace::Absent,
            left_fingers: None,
            right_fingers: None,
            headless: None,
        }
    );
    assert!(headless);
    let mut ids: Vec<u64> = meshes.keys().copied().collect();
    ids.sort();
    assert_eq!(ids, vec![1, 2]);

    let w = world(held("gun", false), None);
    let one = &bodies[..1];
    let steps =
        update_avatar_bodies(&mut meshes, master, &mut headless, &mut tall, 1, &w, &IDLE, one);
    assert_eq!(
        steps,
        vec![BodyStep::Pose {
            make: false,
            stand: at_rest(),
            head_height: s(1.7),
            first_seen: false,
            left_hand: HandPlace::AsSeen,
            right_hand: HandPlace::Absent,
            left_fingers: Some(Fingers::Curled),
            right_fingers: Some(Fingers::Free),
            headless: Some(false),
        }]
    );
    assert_eq!(meshes.len(), 1);
    // The heights of those who left are remembered.
    assert_eq!(tall, HashSet::from([1, 2, 9]));
}

#[test]
fn a_variant_is_built_only_when_what_is_hidden_changes() {
    let loaded = cache(vec![
        ("gun", facts(Some(&["root", "mag", "sight", "mag"]))),
        ("box", facts(None)),
    ]);
    let mut hidden: Table<Vec<String>> = Table::new();
    let meshes = [
        mesh("gun", "g", &["sight", "nothing", "mag"]),
        mesh("box", "b", &["lid"]),
        mesh("far", "f", &["x"]),
    ];
    let r = refresh_variants(&meshes, &loaded, &mut hidden);
    assert_eq!(r.len(), 1);
    assert_eq!((r[0].mesh, r[0].without.clone()), (0, vec![2, 1]));
    assert_eq!(hidden.len(), 1);
    assert!(refresh_variants(&meshes, &loaded, &mut hidden).is_empty());

    let other = [mesh("gun", "g", &["mag"])];
    assert_eq!(refresh_variants(&other, &loaded, &mut hidden).len(), 1);
    // A name that is no joint leaves nothing out, and the variant stays.
    let unknown = [mesh("gun", "g", &["nothing"])];
    assert!(refresh_variants(&unknown, &loaded, &mut hidden).is_empty());
    assert_eq!(hidden.len(), 1);
    let whole = [mesh("gun", "g", &[])];
    assert!(refresh_variants(&whole, &loaded, &mut hidden).is_empty());
    assert!(hidden.is_empty());
}

#[test]
fn only_what_is_near_is_drawn() {
    let loaded = cache(vec![("a", facts(None)), ("b", facts(None)), ("c", facts(None))]);
    let mut hidden: Table<Vec<String>> = Table::new();
    hidden.insert("b".to_string(), vec!["x".to_string()]);
    let meshes = [mesh("a", "p", &[]), mesh("b", "p", &["x"]), mesh("c", "p", &[]), mesh("d", "p", &[])];
    let distances = [s(39.9), s(1.0), s(40.0), s(0.0)];
    let mut avatars = HashMap::new();
    avatars.insert(1, true);
    avatars.insert(2, true);
    let drawn = mesh_instances(&meshes, &distances, &loaded, &hidden, &avatars, true, 1);
    assert_eq!(
        drawn,
        vec![
            Instance::Whole { mesh: 0 },
            Instance::Variant { mesh: 1 },
            Instance::Body { player: 2 },
            Instance::Headless,
        ]
    );
    let drawn = mesh_instances(&[], &[], &loaded, &hidden, &HashMap::new(), false, 1);
    assert!(drawn.is_empty());
}

#[test]
fn parts_are_published_where_they_are() {
    let mut all: Table<Table<Transform>> = Table::new();
    let names = vec!["slide".to_string(), "mag".to_string(), "slide".to_string()];
    publish_parts(&mut all, &"gun".to_string(), &names, &[at(1.0), at(2.0), at(3.0)]);
    let gun = all.get(&"gun".to_string()).unwrap();
    assert_eq!(gun.get(&"mag".to_string()), Some(&at(2.0)));
    assert_eq!(gun.get(&"slide".to_string()), Some(&at(3.0)));
    publish_parts(&mut all, &"gun".to_string(), &Vec::new(), &[]);
    assert!(all.get(&"gun".to_string()).unwrap().is_empty());
}

fn controllers() -> ControllerState {
    let still = Vec2 { x: s(0.0), y: s(0.0) };
    ControllerState {
        l_trigger: s(0.0),
        r_trigger: s(0.75),
        l_squeeze: s(0.0),
        r_squeeze: s(0.0),
        l_stick: still,
        r_stick: still,
        l_stick_click: false,
        r_stick_click: false,
        btn_a: false,
        btn_b: false,
        btn_x: false,
        btn_y: false,
        l_grip_pose: None,
        r_grip_pose: None,
        l_aim_pose: None,
        r_aim_pose: None,
    }
}

fn den() -> StaticScene {
    let part = |clip: &str, mode| PartAnimationDef {
        clip: clip.to_string(),
        driver: PartDriver::HoldTrigger,
        easing: 0,
        blend_mode: mode,
    };
    let gun = GameObject {
        id: "gun".to_string(),
        brush: None,
        tint: Vec4 { x: s(1.0), y: s(1.0), z: s(1.0), w: s(1.0) },
        grip_points: Vec::new(),
        part_animations: vec![
            part("pull", ClipBlendMode::Override),
            part("absent", ClipBlendMode::Additive),
            part("click", ClipBlendMode::Additive),
        ],
    };
    StaticScene::load(&"den".to_string(), Some(Scene { objects: vec![gun], sky: None }))
}

fn lists(w: &Option<WireWorld>, loaded: &Table<MeshFacts>) -> RenderLists {
    let cuboids = [
        cuboid("far", WireCuboidStyle::Solid),
        cuboid("mirror", WireCuboidStyle::Solid),
        cuboid("mirror", WireCuboidStyle::Solid),
    ];
    let cuboid_distances = [s(50.0), s(45.0), s(2.0)];
    let lights = [light()];
    let meshes = [mesh("gun", "g", &["mag"]), mesh("later", "l", &[])];
    let mesh_distances = [s(1.0), s(1.0)];
    let mut avatars = HashMap::new();
    avatars.insert(1, true);
    let sessions: PerHand<Option<PullSession>> = PerHand { left: None, right: None };
    let index_of = |object: &String, clip: &String| {
        assert_eq!(object, "gun");
        match clip.as_str() {
            "pull" => Some(4),
            "click" => Some(2),
            _ => None,
        }
    };
    let ease = |_: u32, raw: Scalar| raw;
    let mut hidden: Table<Vec<String>> = Table::new();
    build_render_lists(
        Sources {
            cuboids: &cuboids,
            cuboid_distances: &cuboid_distances,
            lights: &lights,
            meshes: &meshes,
            mesh_distances: &mesh_distances,
        },
        loaded,
        &mut hidden,
        Bodies { avatars: &avatars, headless: false, local_player: 1 },
        w,
        &den(),
        &sessions,
        &controllers(),
        &Outlook { point, turn, aim },
        &index_of,
        &ease,
    )
}

#[test]
fn a_frame_draws_all_of_this() {
    let loaded = cache(vec![("gun", facts(Some(&["root", "mag"])))]);
    let r = lists(&world(None, held("gun", false)), &loaded);
    assert_eq!(r.cuboids.len(), 1);
    assert_eq!(r.cuboids[0].lightmap_key, Some("mirror".to_string()));
    assert_eq!(r.lights.len(), 1);
    // The mirror counts however far it is.
    assert_eq!(r.mirror, Some(1));
    assert!(r.mirror_only);
    assert_eq!(r.moves.len(), 1);
    assert_eq!((r.moves[0].mesh, r.moves[0].position), (0, vec3(1.0, 0.0, 0.0)));
    assert_eq!(r.moves[0].scale, vec3(1.0, 1.0, 2.0));
    assert_eq!(r.rebuilds.len(), 1);
    assert_eq!(r.instances, vec![Instance::Variant { mesh: 0 }]);
    assert!(r.left_held.is_none());
    let gun = r.right_held.unwrap();
    assert_eq!(gun.object_id, "gun");
    assert_eq!(gun.targets.len(), 2);
    assert_eq!((gun.targets[0].clip, gun.targets[0].blend), (4, s(0.75)));
    assert_eq!(gun.targets[0].mode, ClipBlendMode::Override);
    assert_eq!((gun.targets[1].clip, gun.targets[1].mode), (2, ClipBlendMode::Additive));
}

#[test]
fn a_held_mesh_is_posed_only_if_it_has_a_skin() {
    let stiff = cache(vec![("gun", facts(None))]);
    let r = lists(&world(held("gun", false), None), &stiff);
    assert!(r.left_held.unwrap().targets.is_empty());
    assert!(r.rebuilds.is_empty());
    assert_eq!(r.instances, vec![Instance::Whole { mesh: 0 }]);
    let r = lists(&world(held("gun", false), None), &Table::new());
    assert!(r.left_held.is_none());
    assert!(r.instances.is_empty() && r.moves.is_empty());
    let r = lists(&None, &stiff);
    assert!(r.left_held.is_none() && r.right_held.is_none());
}
