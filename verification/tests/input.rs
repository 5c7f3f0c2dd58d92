use quest_app::engine::{
    ButtonPress, ClipBlendMode, ControllerState, GripKind, GripPointDef, Hand, InputFrame,
    PartAnimationDef, PartDriver, PerHand,
};
use quest_app::grab_detect::{LiveObjects, StaticScene};
use quest_app::part_pull::{
    blends_for_object, hand_idx, handle_input, holder_of, part_animation_blend, pressed,
    try_start_pull, Along, HandReach, PrevInput, PullReach, PullSession,
};
use quest_app::protocol::{WireHeldGrip, WireObjectBounds, WireRenderMesh, WireWorld};
use quest_app::scalar::{Quat, Scalar, Vec2, Vec3, Vec4};
use quest_app::scene::{GameObject, Scene};
use quest_app::table::Table;

fn s(x: f32) -> Scalar {
    Scalar { bits: x.to_bits() }
}

fn both(x: f32) -> Along {
    Along { left: s(x), right: s(x) }
}

fn controllers() -> ControllerState {
    let still = Vec2 { x: s(0.0), y: s(0.0) };
    ControllerState {
        l_trigger: s(0.0),
        r_trigger: s(0.0),
        l_squeeze: s(0.0),
        r_squeeze: s(0.0),
        l_stick: still,
        r_stick: still,
        l_stick_click: false,
        r_stick_click: false,
        btn_a: false,
        btn_b: false,
        btn_x: false,
        btn_y: false,
        l_grip_pose: None,
        r_grip_pose: None,
        l_aim_pose: None,
        r_aim_pose: None,
    }
}

fn held(id: &str) -> Option<WireHeldGrip> {
    Some(WireHeldGrip {
        object_id: id.to_string(),
        point_local_pos: Vec3::origin(),
        point_local_rot: Quat::identity(),
        has_hand_pose: false,
    })
}

fn world(left: Option<WireHeldGrip>, right: Option<WireHeldGrip>) -> Option<WireWorld> {
    Some(WireWorld {
        scene_name: "den".to_string(),
        player_offset: Vec3::origin(),
        player_yaw: s(0.0),
        cuboids: Vec::new(),
        meshes: Vec::new(),
        lights: Vec::new(),
        lasers: Vec::new(),
        object_bounds: Vec::new(),
        particle_emitters: Vec::new(),
        hidden_brushes: Vec::new(),
        left_hand_held: left,
        right_hand_held: right,
        sounds: Vec::new(),
    })
}

fn part(clip: &str, driver: PartDriver) -> PartAnimationDef {
    PartAnimationDef {
        clip: clip.to_string(),
        driver,
        easing: 0,
        blend_mode: ClipBlendMode::Additive,
    }
}

fn object(id: &str, grips: Vec<GripPointDef>, parts: Vec<PartAnimationDef>) -> GameObject {
    GameObject {
        id: id.to_string(),
        brush: None,
        tint: Vec4 { x: s(1.0), y: s(1.0), z: s(1.0), w: s(1.0) },
        grip_points: grips,
        part_animations: parts,
    }
}

fn handle() -> GripPointDef {
    GripPointDef {
        name: "handle".to_string(),
        hand: Hand::Right,
        kind: GripKind::Palm,
        grab_range: None,
        part: None,
        local_pos: Vec3::origin(),
    }
}

/// A rock to grab by proximity, and a gun with a handle and a slide to pull.
fn den() -> StaticScene {
    let objects = vec![
        object("rock", Vec::new(), Vec::new()),
        object(
            "gun",
            vec![handle()],
            vec![part("trigger", PartDriver::HoldTrigger), part("slide", PartDriver::HandPull)],
        ),
    ];
    StaticScene::load(&"den".to_string(), Some(Scene { objects, sky: None }))
}

fn live() -> LiveObjects {
    let bounds = |id: &str| WireObjectBounds {
        id: id.to_string(),
        position: Vec3::origin(),
        rotation: Quat::identity(),
        half_size: Vec3::origin(),
    };
    let mut live = LiveObjects::new();
    live.update(&[bounds("rock"), bounds("gun")]);
    live
}

fn reach(rock: f32, gun: f32, handle: f32) -> HandReach {
    HandReach {
        objects: vec![s(rock), s(gun)],
        grips: vec![vec![s(handle)]],
        local: Vec3::origin(),
        pulls: None,
        pulled: both(0.0),
    }
}

fn far() -> HandReach {
    reach(9.0, 9.0, 9.0)
}

fn linear(_: u32, raw: Scalar) -> Scalar {
    raw
}

struct Player {
    scene: StaticScene,
    live: LiveObjects,
    sessions: PerHand<Option<PullSession>>,
    grabbed: PerHand<Option<String>>,
    prev: PrevInput,
}

impl Player {
    fn new() -> Player {
        Player {
            scene: den(),
            live: live(),
            sessions: PerHand { left: None, right: None },
            grabbed: PerHand { left: None, right: None },
            prev: PrevInput::of_frame(&controllers()),
        }
    }

    fn frame(
        &mut self,
        cs: &ControllerState,
        world: &Option<WireWorld>,
        left: HandReach,
        right: HandReach,
    ) -> InputFrame {
        handle_input(
            cs,
            world,
            &[],
            &self.scene,
            &self.live,
            &PerHand { left, right },
            &linear,
            &mut self.sessions,
            &mut self.grabbed,
            &mut self.prev,
        )
    }
}

fn told(list: &[ButtonPress]) -> Vec<(String, Option<String>, Option<Hand>)> {
    list.iter().map(|b| (b.button.clone(), b.object_id.clone(), b.hand)).collect()
}

#[test]
fn a_button_is_pressed_beyond_half_way() {
    assert!(!pressed(s(0.5)));
    assert!(pressed(s(0.50001)));
    assert!(!pressed(s(f32::NAN)));
    assert_eq!((hand_idx(Hand::Left), hand_idx(Hand::Right)), (0, 1));
}

#[test]
fn a_closing_hand_takes_the_nearest_grip_point() {
    let mut p = Player::new();
    let mut cs = controllers();
    cs.r_squeeze = s(0.9);
    let input = p.frame(&cs, &None, far(), reach(0.01, 0.1, 0.1));
    let grab = ("gun".to_string(), Hand::Right, "handle".to_string());
    assert_eq!(input.grabbed, vec![grab]);
    assert_eq!(p.grabbed.right, Some("gun".to_string()));
    assert_eq!(p.grabbed.left, None);
    // Held closed, nothing more is taken.
    let input = p.frame(&cs, &None, far(), reach(0.01, 0.1, 0.1));
    assert!(input.grabbed.is_empty() && input.released.is_empty());
    assert!(input.button_presses.is_empty());
    assert_eq!(p.grabbed.right, Some("gun".to_string()));
}

#[test]
fn without_a_grip_point_in_reach_an_object_without_any_is_taken() {
    let mut p = Player::new();
    let mut cs = controllers();
    cs.l_trigger = s(1.0);
    let input = p.frame(&cs, &None, reach(0.1, 0.01, 0.5), far());
    assert_eq!(input.grabbed, vec![("rock".to_string(), Hand::Left, String::new())]);
}

#[test]
fn a_hand_that_closes_on_nothing_takes_nothing() {
    let mut p = Player::new();
    let mut cs = controllers();
    cs.r_trigger = s(1.0);
    let input = p.frame(&cs, &None, far(), reach(9.0, 0.01, 0.5));
    assert!(input.grabbed.is_empty());
    assert_eq!(p.grabbed.right, None);
}

#[test]
fn an_opening_hand_lets_go() {
    let mut p = Player::new();
    let mut cs = controllers();
    cs.r_squeeze = s(1.0);
    p.frame(&cs, &None, far(), reach(0.1, 9.0, 9.0));
    assert_eq!(p.grabbed.right, Some("rock".to_string()));
    let input = p.frame(&controllers(), &None, far(), reach(0.1, 9.0, 9.0));
    assert_eq!(input.released, vec![("rock".to_string(), Hand::Right)]);
    assert!(input.grabbed.is_empty());
    assert_eq!(p.grabbed.right, None);
}

#[test]
fn both_edges_of_a_button_name_what_its_hand_holds() {
    let mut p = Player::new();
    let mut cs = controllers();
    cs.btn_a = true;
    cs.btn_x = true;
    let w = world(held("left thing"), None);
    let input = p.frame(&cs, &w, far(), far());
    assert_eq!(
        told(&input.button_presses),
        vec![
            ("btn_a".to_string(), None, Some(Hand::Right)),
            ("btn_x".to_string(), Some("left thing".to_string()), Some(Hand::Left)),
        ]
    );
    assert!(input.button_releases.is_empty());
    let input = p.frame(&controllers(), &w, far(), far());
    assert!(input.button_presses.is_empty());
    assert_eq!(
        told(&input.button_releases),
        vec![
            ("btn_a".to_string(), None, Some(Hand::Right)),
            ("btn_x".to_string(), Some("left thing".to_string()), Some(Hand::Left)),
        ]
    );
}

#[test]
fn triggers_and_grips_are_buttons_too() {
    let mut p = Player::new();
    let mut cs = controllers();
    cs.r_trigger = s(0.8);
    cs.l_squeeze = s(0.8);
    let input = p.frame(&cs, &world(held("l"), held("r")), far(), far());
    assert_eq!(
        told(&input.button_presses),
        vec![
            ("trigger".to_string(), Some("r".to_string()), Some(Hand::Right)),
            ("grip".to_string(), Some("l".to_string()), Some(Hand::Left)),
        ]
    );
    assert_eq!(input.axes.r_trigger, s(0.8));
    assert_eq!(input.axes.l_grip, s(0.8));
    assert!(p.prev.r_trigger && p.prev.l_squeeze && !p.prev.l_trigger);
}

fn slide_reach(distance: f32, pulled: f32) -> HandReach {
    let mut r = far();
    r.pulls = Some(vec![
        None,
        Some(PullReach {
            axis_model: Vec3 { x: s(0.0), y: s(0.0), z: s(1.0) },
            travel: s(0.04),
            distance: s(distance),
            pulled: both(pulled),
        }),
    ]);
    r.pulled = both(pulled);
    r
}

#[test]
fn the_free_hand_pulls_a_part_of_what_the_other_holds() {
    let mut p = Player::new();
    let w = world(None, held("gun"));
    let mut cs = controllers();
    cs.l_trigger = s(1.0);
    let input = p.frame(&cs, &w, slide_reach(0.09, 0.25), far());
    assert!(input.grabbed.is_empty());
    let session = p.sessions.left.as_ref().unwrap();
    assert_eq!((session.object_id.as_str(), session.clip.as_str()), ("gun", "slide"));
    assert_eq!(session.blend, s(0.25));
    assert_eq!(session.travel, s(0.04));
    // The blend is reported with the gun's other parts.
    let blends = input.part_blends.get(&"gun".to_string()).unwrap();
    assert_eq!(blends.get(&"slide".to_string()), Some(&s(0.25)));
    assert_eq!(blends.get(&"trigger".to_string()), Some(&s(0.0)));

    // Further than the travel is the end of the travel.
    p.frame(&cs, &w, slide_reach(0.5, 1.5), far());
    assert_eq!(p.sessions.left.as_ref().unwrap().blend, s(1.0));
    p.frame(&cs, &w, slide_reach(0.5, -0.5), far());
    assert_eq!(p.sessions.left.as_ref().unwrap().blend, s(0.0));

    // A hand that opens ends the pull and lets nothing go.
    let mut near = slide_reach(0.5, 0.5);
    near.objects = vec![s(0.0), s(0.0)];
    let input = p.frame(&controllers(), &w, near, far());
    assert!(p.sessions.left.is_none());
    assert!(input.released.is_empty());
}

#[test]
fn a_pull_ends_when_nobody_holds_the_object() {
    let mut p = Player::new();
    let mut cs = controllers();
    cs.l_trigger = s(1.0);
    p.frame(&cs, &world(None, held("gun")), slide_reach(0.05, 0.5), far());
    assert!(p.sessions.left.is_some());
    p.frame(&cs, &world(None, None), slide_reach(0.05, 0.5), far());
    assert!(p.sessions.left.is_none());
}

#[test]
fn a_pull_is_measured_in_the_hand_that_holds_the_object() {
    let gun = "gun".to_string();
    assert_eq!(holder_of(&world(held("gun"), held("gun")), &gun), Some(Hand::Left));
    assert_eq!(holder_of(&world(held("rock"), held("gun")), &gun), Some(Hand::Right));
    assert_eq!(holder_of(&world(held("rock"), None), &gun), None);
    assert_eq!(holder_of(&None, &gun), None);

    let mut p = Player::new();
    let mut cs = controllers();
    cs.l_trigger = s(1.0);
    let reach = |left: f32, right: f32| {
        let mut r = slide_reach(0.05, 0.0);
        let pulled = Along { left: s(left), right: s(right) };
        r.pulls.as_mut().unwrap()[1].as_mut().unwrap().pulled = pulled;
        r.pulled = pulled;
        r
    };
    // The pull begins in what the right hand holds, and the left holds it too.
    p.frame(&cs, &world(held("gun"), held("gun")), reach(0.25, 0.5), far());
    assert_eq!(p.sessions.left.as_ref().unwrap().blend, s(0.25));
    p.frame(&cs, &world(held("rock"), held("gun")), reach(0.25, 0.5), far());
    assert_eq!(p.sessions.left.as_ref().unwrap().blend, s(0.5));
    p.frame(&cs, &world(held("gun"), None), reach(0.75, 0.5), far());
    assert_eq!(p.sessions.left.as_ref().unwrap().blend, s(0.75));
}

#[test]
fn a_part_out_of_reach_is_not_pulled() {
    let pulls = slide_reach(0.0901, 0.0).pulls;
    let gun = "gun".to_string();
    assert!(try_start_pull(&gun, Vec3::origin(), &den(), &pulls).is_none());
    assert!(try_start_pull(&gun, Vec3::origin(), &den(), &None).is_none());
    let pulls = slide_reach(0.09, 0.5).pulls;
    let rock = "rock".to_string();
    assert!(try_start_pull(&rock, Vec3::origin(), &den(), &pulls).is_none());
    let (session, pulled) = try_start_pull(&gun, Vec3::origin(), &den(), &pulls).unwrap();
    assert_eq!((session.b0, session.blend, pulled), (s(0.0), s(0.0), both(0.5)));
}

#[test]
fn every_driver_moves_its_part() {
    let mut cs = controllers();
    cs.r_trigger = s(0.3);
    cs.r_squeeze = s(0.6);
    let blend = |d| part_animation_blend(d, Hand::Right, &cs);
    assert_eq!(blend(PartDriver::HoldTrigger), s(0.3));
    assert_eq!(blend(PartDriver::HoldGrip), s(0.6));

    let parts = vec![
        part("t", PartDriver::HoldTrigger),
        part("g", PartDriver::HoldGrip),
        part("p", PartDriver::HandPull),
        part("m", PartDriver::Manual),
        part("n", PartDriver::Manual),
    ];
    let session = |blend: f32| {
        Some(PullSession {
            object_id: "gun".to_string(),
            clip: "p".to_string(),
            grab_local: Vec3::origin(),
            axis_model: Vec3::origin(),
            travel: s(1.0),
            b0: s(0.0),
            blend: s(blend),
        })
    };
    let sessions = PerHand { left: session(0.7), right: session(0.2) };
    let mut manual: Table<Scalar> = Table::new();
    manual.insert("m".to_string(), s(0.9));
    let half = |_: u32, raw: Scalar| s(f32::from_bits(raw.bits) / 2.0);
    let gun = "gun".to_string();
    let b = blends_for_object(&gun, &parts, Hand::Right, &cs, &sessions, Some(&manual), &half);
    let get = |clip: &str| f32::from_bits(b.get(&clip.to_string()).unwrap().bits);
    assert_eq!((get("t"), get("g")), (0.15, 0.3));
    // The left hand's pull counts before the right hand's.
    assert_eq!(get("p"), 0.35);
    assert_eq!((get("m"), get("n")), (0.45, 0.0));
    let other = "rifle".to_string();
    let b = blends_for_object(&other, &parts, Hand::Right, &cs, &sessions, None, &half);
    assert_eq!(b.get(&"p".to_string()), Some(&s(0.0)));
    assert_eq!(b.get(&"m".to_string()), Some(&s(0.0)));
}

#[test]
fn what_a_script_set_is_reported() {
    let mut p = Player::new();
    let objects =
        vec![object("door", Vec::new(), vec![part("swing", PartDriver::Manual)])];
    p.scene = StaticScene::load(&"den".to_string(), Some(Scene { objects, sky: None }));
    let mut manual: Table<Scalar> = Table::new();
    manual.insert("swing".to_string(), s(0.4));
    let mesh = WireRenderMesh {
        id: "door".to_string(),
        path: "door.glb".to_string(),
        position: Vec3::origin(),
        rotation: Quat::identity(),
        scale: Vec3::origin(),
        hidden_parts: Vec::new(),
        manual_part_blends: manual,
    };
    let mut no_grips = far();
    no_grips.grips = Vec::new();
    let mut no_grips_either = far();
    no_grips_either.grips = Vec::new();
    let input = handle_input(
        &controllers(),
        &world(held("door"), None),
        &[mesh],
        &p.scene,
        &p.live,
        &PerHand { left: no_grips, right: no_grips_either },
        &linear,
        &mut p.sessions,
        &mut p.grabbed,
        &mut p.prev,
    );
    let blends = input.part_blends.get(&"door".to_string()).unwrap();
    assert_eq!(blends.get(&"swing".to_string()), Some(&s(0.4)));
}
