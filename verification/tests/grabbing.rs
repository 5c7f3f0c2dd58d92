use quest_app::engine::{GripKind, GripPointDef, Hand, Transform};
use quest_app::grab_detect::{
    grab_diagnostic, held_object_id, nearest_grabbable_object_to, nearest_grip_point_to,
    nearest_object_to, part_pose, DiagNumbers, LiveObjects, StaticScene,
};
use quest_app::protocol::{WireHeldGrip, WireObjectBounds};
use quest_app::scalar::{Quat, Scalar, Vec3, Vec4};
use quest_app::scene::{GameObject, Scene};
use quest_app::table::Table;

fn s(x: f32) -> Scalar {
    Scalar { bits: x.to_bits() }
}

fn list(d: &[f32]) -> Vec<Scalar> {
    d.iter().map(|x| s(*x)).collect()
}

fn bounds(id: &str, x: f32) -> WireObjectBounds {
    WireObjectBounds {
        id: id.to_string(),
        position: Vec3 { x: s(x), y: s(0.0), z: s(0.0) },
        rotation: Quat::identity(),
        half_size: Vec3 { x: s(0.1), y: s(0.1), z: s(0.1) },
    }
}

fn live(ids: &[&str]) -> LiveObjects {
    let all: Vec<WireObjectBounds> = ids.iter().map(|id| bounds(id, 1.0)).collect();
    let mut live = LiveObjects::new();
    live.update(&all);
    live
}

fn grip(name: &str, hand: Hand, kind: GripKind, range: Option<f32>) -> GripPointDef {
    GripPointDef {
        name: name.to_string(),
        hand,
        kind,
        grab_range: range.map(s),
        part: None,
        local_pos: Vec3::origin(),
    }
}

fn object(id: &str, grip_points: Vec<GripPointDef>) -> GameObject {
    GameObject {
        id: id.to_string(),
        brush: None,
        tint: Vec4 { x: s(1.0), y: s(1.0), z: s(1.0), w: s(1.0) },
        grip_points,
        part_animations: Vec::new(),
    }
}

fn scene(objects: Vec<GameObject>) -> StaticScene {
    StaticScene::load(&"den".to_string(), Some(Scene { objects, sky: None }))
}

#[test]
fn live_objects_are_those_of_the_last_update() {
    let mut l = live(&["a", "b"]);
    assert_eq!(l.by_id.len(), 2);
    l.update(&[bounds("c", 1.0), bounds("c", 5.0)]);
    assert_eq!(l.by_id.len(), 1);
    assert_eq!(l.by_id.get(&"c".to_string()).unwrap().position.x, s(5.0));
}

#[test]
fn a_scene_remembers_who_has_grip_points() {
    let sc = scene(vec![
        object("gun", vec![grip("handle", Hand::Right, GripKind::Palm, None)]),
        object("rock", Vec::new()),
    ]);
    assert_eq!(sc.scene_name, "den");
    assert_eq!(sc.grip_points.len(), 1);
    assert!(sc.grip_points.contains_key(&"gun".to_string()));
    assert!(sc.part_animations.is_empty());
    let missing = StaticScene::load(&"gone".to_string(), None);
    assert_eq!(missing.scene_name, "gone");
    assert!(missing.grip_points.is_empty() && missing.sky.is_none());
}

#[test]
fn the_nearest_object_is_within_fifteen_centimetres() {
    let l = live(&["a", "b", "c"]);
    assert_eq!(nearest_object_to(&l, &list(&[0.14, 0.05, 0.2])), Some("b".to_string()));
    assert_eq!(nearest_object_to(&l, &list(&[0.15, 0.3, 0.2])), Some("a".to_string()));
    assert_eq!(nearest_object_to(&l, &list(&[0.16, 0.3, f32::NAN])), None);
}

#[test]
fn an_object_with_grip_points_is_not_taken_by_proximity() {
    let l = live(&["gun", "rock"]);
    let sc = scene(vec![object("gun", vec![grip("h", Hand::Left, GripKind::Palm, None)])]);
    let d = list(&[0.01, 0.1]);
    assert_eq!(nearest_grabbable_object_to(&l, &sc, &d), Some("rock".to_string()));
    assert_eq!(nearest_object_to(&l, &d), Some("gun".to_string()));
    assert_eq!(nearest_grabbable_object_to(&l, &sc, &list(&[0.01, 0.5])), None);
}

#[test]
fn a_grip_point_is_taken_by_its_own_hand_within_its_own_range() {
    let l = live(&["gun"]);
    let sc = scene(vec![object(
        "gun",
        vec![
            grip("left", Hand::Left, GripKind::Palm, None),
            grip("wide", Hand::Right, GripKind::Palm, Some(0.4)),
            grip("near", Hand::Right, GripKind::Palm, None),
        ],
    )]);
    let find = |d: &[f32], hand| nearest_grip_point_to(&l, &sc, &[list(d)], false, hand);
    let found = |name: &str| Some(("gun".to_string(), name.to_string()));
    assert_eq!(find(&[0.01, 0.39, 0.2], Hand::Right), found("wide"));
    assert_eq!(find(&[0.01, 0.39, 0.15], Hand::Right), found("near"));
    assert_eq!(find(&[0.01, 0.41, 0.2], Hand::Right), None);
    assert_eq!(find(&[0.01, 0.0, 0.0], Hand::Left), found("left"));
}

#[test]
fn a_pinch_needs_the_trigger() {
    let l = live(&["pin"]);
    let sc = scene(vec![object("pin", vec![grip("p", Hand::Right, GripKind::Pinch, None)])]);
    let find = |trigger| nearest_grip_point_to(&l, &sc, &[list(&[0.0])], trigger, Hand::Right);
    assert_eq!(find(false), None);
    assert_eq!(find(true), Some(("pin".to_string(), "p".to_string())));
}

#[test]
fn an_object_that_is_not_there_has_no_grip_points() {
    let l = live(&["other"]);
    let sc = scene(vec![object("gun", vec![grip("h", Hand::Right, GripKind::Palm, None)])]);
    assert_eq!(nearest_grip_point_to(&l, &sc, &[list(&[0.0])], true, Hand::Right), None);
}

#[test]
fn a_grip_point_on_a_part_rides_the_part() {
    let at = Transform {
        position: Vec3 { x: s(3.0), y: s(0.0), z: s(0.0) },
        rotation: Quat::identity(),
    };
    let mut parts: Table<Transform> = Table::new();
    parts.insert("slide".to_string(), at);
    let mut all: Table<Table<Transform>> = Table::new();
    all.insert("gun".to_string(), parts);
    let mut gp = grip("h", Hand::Right, GripKind::Palm, None);
    assert_eq!(part_pose(&gp, &"gun".to_string(), &all), None);
    gp.part = Some("slide".to_string());
    assert_eq!(part_pose(&gp, &"gun".to_string(), &all), Some(at));
    assert_eq!(part_pose(&gp, &"rock".to_string(), &all), None);
    gp.part = Some("bolt".to_string());
    assert_eq!(part_pose(&gp, &"gun".to_string(), &all), None);
}

#[test]
fn the_server_knows_best_what_a_hand_holds() {
    let l = live(&["near"]);
    let held = WireHeldGrip {
        object_id: "told".to_string(),
        point_local_pos: Vec3::origin(),
        point_local_rot: Quat::identity(),
        has_hand_pose: false,
    };
    let grabbed = Some("grabbed".to_string());
    let d = list(&[0.1]);
    assert_eq!(held_object_id(Some(&held), &grabbed, &l, &d), Some("told".to_string()));
    assert_eq!(held_object_id(None, &grabbed, &l, &d), Some("grabbed".to_string()));
    assert_eq!(held_object_id(None, &None, &l, &d), Some("near".to_string()));
    assert_eq!(held_object_id(None, &None, &l, &list(&[0.2])), None);
}

fn written(obj: &str, grip: &str, range: &str) -> DiagNumbers {
    DiagNumbers {
        hand_x: "0.10".to_string(),
        hand_y: "1.20".to_string(),
        hand_z: "-0.30".to_string(),
        object_distance: obj.to_string(),
        grip_distance: grip.to_string(),
        grip_range: range.to_string(),
    }
}

#[test]
fn the_diagnostic_looks_further_than_a_hand_reaches() {
    let l = live(&["gun", "rock"]);
    let sc = scene(vec![object(
        "gun",
        vec![grip("h", Hand::Right, GripKind::Pinch, Some(0.3))],
    )]);
    let d = grab_diagnostic(&l, &sc, &list(&[2.0, 1.5]), &[list(&[2.5])], Hand::Right);
    assert_eq!(d.live_count, 2);
    assert_eq!(d.nearest_obj, Some(("rock".to_string(), s(1.5))));
    assert_eq!(d.nearest_grip, Some(("gun".to_string(), "h".to_string(), s(2.5), s(0.3))));
    let text = d.summary(Hand::Right, &written("1.50", "2.50", "0.30"));
    assert!(text.contains("rock") && text.contains("too-far"), "{text}");

    let d = grab_diagnostic(&l, &sc, &list(&[0.1, 1.5]), &[list(&[0.2])], Hand::Right);
    let text = d.summary(Hand::Right, &written("0.10", "0.20", "0.30"));
    assert!(text.contains("gun") && text.contains("IN-RANGE"), "{text}");

    let d = grab_diagnostic(&live(&[]), &sc, &[], &[list(&[0.2])], Hand::Left);
    assert!(d.nearest_obj.is_none() && d.nearest_grip.is_none());
    let text = d.summary(Hand::Left, &written("", "", ""));
    assert!(text.contains("nearest_grip=none-for-hand"), "{text}");
}
