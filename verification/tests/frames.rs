use quest_app::debug_packet::{maybe_send, packet, DebugLink, FrameFacts, HandJoint};
use quest_app::engine::{
    ButtonPress, ControllerState, FingerJoint, Hand, InputAxes, InputFrame, JointId,
    LocomotionInput, PerHand, PlayerRig, TeleportTarget, Transform,
};
use quest_app::frame_log::{log_frame_status, send_local_pose, FrameCounts};
use quest_app::frame_loop::{
    observe, scene_file, world_lists, Begin, FrameLoop, Proceed, ServerView, XrEvent,
};
use quest_app::grab_detect::StaticScene;
use quest_app::movement::{locomotion_input, step_locomotion};
use quest_app::platform::{
    game_dir, init_xr, joint_name, looper_source, pump_android_events, wait_for_resume,
    ActivityEvent, LooperSource, PumpStep, Pumped, WaitStep,
};
use quest_app::protocol::{
    Pose, WireFingerJoint, WireHand, WireJointId, WireRenderLight, WireLightKind, WireColor3,
    WireWorld,
};
use quest_app::scalar::{Quat, Scalar, Vec2, Vec3};
use quest_app::table::Table;
use quest_app::to_wire::{
    button_press_to_wire, finger_joint_to_wire, hand_to_wire, input_frame_to_wire,
    joint_id_to_wire, locomotion_input_to_wire, player_rig_to_wire, teleport_target_to_wire,
    transform_to_wire,
};
use quest_app::{run, Severity};

fn s(x: f32) -> Scalar {
    Scalar { bits: x.to_bits() }
}

fn at(x: f32) -> Transform {
    Transform { position: Vec3 { x: s(x), y: s(0.0), z: s(0.0) }, rotation: Quat::identity() }
}

fn controllers() -> ControllerState {
    ControllerState {
        l_trigger: s(0.1),
        r_trigger: s(0.2),
        l_squeeze: s(0.3),
        r_squeeze: s(0.4),
        l_stick: Vec2 { x: s(0.0), y: s(0.0) },
        r_stick: Vec2 { x: s(0.0), y: s(0.05) },
        l_stick_click: true,
        r_stick_click: false,
        btn_a: true,
        btn_b: false,
        btn_x: false,
        btn_y: true,
        l_grip_pose: Some(at(1.0)),
        r_grip_pose: None,
        l_aim_pose: None,
        r_aim_pose: Some(at(2.0)),
    }
}

fn rig() -> PlayerRig {
    PlayerRig {
        joints: vec![
            (JointId::Head, at(1.0)),
            (JointId::Finger(Hand::Left, FingerJoint::RingDist), at(2.0)),
        ],
        hand_tracking_active: vec![(Hand::Right, true)],
    }
}

fn idle_input() -> InputFrame {
    InputFrame {
        pointed: Vec::new(),
        grabbed: vec![("gun".to_string(), Hand::Left, "handle".to_string())],
        released: vec![("rock".to_string(), Hand::Right)],
        button_presses: vec![ButtonPress::new("btn_a", Some("gun".to_string()), Hand::Right)],
        button_releases: vec![ButtonPress::new("grip", None, Hand::Left)],
        axes: InputAxes {
            l_trigger: s(0.1),
            r_trigger: s(0.2),
            l_grip: s(0.3),
            r_grip: s(0.4),
            l_stick: Vec2 { x: s(0.5), y: s(0.6) },
            r_stick: Vec2 { x: s(0.7), y: s(0.8) },
        },
        part_blends: Table::new(),
    }
}

fn scene_called(name: &str) -> StaticScene {
    StaticScene::load(&name.to_string(), None)
}

fn world(name: &str) -> WireWorld {
    WireWorld {
        scene_name: name.to_string(),
        player_offset: Vec3 { x: s(4.0), y: s(5.0), z: s(6.0) },
        player_yaw: s(0.5),
        cuboids: Vec::new(),
        meshes: Vec::new(),
        lights: vec![WireRenderLight {
            position: Vec3::origin(),
            direction: Vec3::origin(),
            kind: WireLightKind::Point,
            color: WireColor3(1, 2, 3, 4),
            intensity: s(1.0),
            range: s(1.0),
            cone_angle_deg: s(1.0),
        }],
        lasers: Vec::new(),
        object_bounds: Vec::new(),
        particle_emitters: Vec::new(),
        hidden_brushes: vec!["wall".to_string()],
        left_hand_held: None,
        right_hand_held: None,
        sounds: Vec::new(),
    }
}

#[test]
fn the_right_trigger_teleports() {
    let mut cs = controllers();
    cs.r_trigger = s(0.6);
    cs.l_stick = Vec2 { x: s(0.3), y: s(-0.4) };
    cs.r_stick = Vec2 { x: s(0.9), y: s(0.0) };
    let asked = locomotion_input(&cs, false);
    assert!(asked.teleport_pressed && !asked.teleport_released);
    assert_eq!(asked.move_stick, cs.l_stick);
    assert_eq!(asked.turn_stick_x, s(0.9));
    assert_eq!(asked.teleport_hand, Hand::Right);
    let asked = locomotion_input(&cs, true);
    assert!(!asked.teleport_pressed && !asked.teleport_released);
    cs.r_trigger = s(0.5);
    let asked = locomotion_input(&cs, true);
    assert!(!asked.teleport_pressed && asked.teleport_released);
}

#[test]
fn the_server_is_told_where_the_player_went() {
    let moved = Vec3 { x: s(1.0), y: s(2.0), z: s(3.0) };
    let advance = |asked: LocomotionInput| {
        assert_eq!(asked.turn_stick_x, s(0.0));
        (moved, s(0.7))
    };
    let step =
        step_locomotion(&controllers(), &rig(), 30, None, None, false, &idle_input(), advance);
    let told = &step.pending.locomotion_input;
    assert_eq!(told.player_offset, Some(moved));
    assert_eq!(told.player_yaw, Some(s(0.7)));
    assert_eq!(told.teleport_hand, WireHand::Right);
    assert!(step.pending.teleport_target.is_none());
    assert_eq!(step.pending.rig.joints.len(), 2);
    assert_eq!(step.pending.input.grabbed.len(), 1);
    assert!(step.log.is_none(), "the sticks are at rest");
}

#[test]
fn what_the_server_echoes_moves_nobody() {
    let advance = |asked: LocomotionInput| {
        (Vec3 { x: asked.turn_stick_x, y: s(0.0), z: s(1.0) }, s(0.7))
    };
    let cs = controllers();
    let step = |frame_count, offset, yaw| {
        step_locomotion(&cs, &rig(), frame_count, offset, yaw, false, &idle_input(), advance)
    };
    let a = step(60, None, None).pending;
    let b = step(61, Some(Vec3 { x: s(8.0), y: s(9.0), z: s(1.0) }), Some(s(3.0))).pending;
    assert_eq!(a.locomotion_input, b.locomotion_input);
    assert_eq!(a.rig.joints, b.rig.joints);
    assert_eq!(a.input.grabbed, b.input.grabbed);
    assert_eq!(a.input.released, b.input.released);
    assert_eq!(a.input.axes, b.input.axes);
    assert!(a.teleport_target.is_none() && b.teleport_target.is_none());
}

#[test]
fn movement_is_logged_now_and_then() {
    let advance = |_: LocomotionInput| (Vec3::origin(), s(0.0));
    let mut cs = controllers();
    cs.l_stick.y = s(-0.2);
    let there = Some(Vec3 { x: s(8.0), y: s(0.0), z: s(0.0) });
    let step = step_locomotion(&cs, &rig(), 60, there, Some(s(1.0)), false, &idle_input(), advance);
    let echo = step.log.unwrap();
    assert_eq!((echo.offset.x, echo.yaw), (s(8.0), s(1.0)));
    let step = step_locomotion(&cs, &rig(), 60, None, None, false, &idle_input(), advance);
    assert_eq!(step.log.unwrap().offset, Vec3::origin());
    let step = step_locomotion(&cs, &rig(), 61, None, None, false, &idle_input(), advance);
    assert!(step.log.is_none());
    cs.l_stick.y = s(0.1);
    let step = step_locomotion(&cs, &rig(), 60, None, None, false, &idle_input(), advance);
    assert!(step.log.is_none(), "a tenth is still at rest");
}

#[test]
fn both_hands_are_sent() {
    let pose = send_local_pose(at(1.0), &PerHand { left: at(2.0), right: at(3.0) });
    assert_eq!(pose.head, at(1.0));
    assert_eq!((pose.left_hand, pose.right_hand), (Some(at(2.0)), Some(at(3.0))));
}

#[test]
fn a_frame_is_logged_now_and_then() {
    let counts = |frame_count| FrameCounts {
        frame_count,
        cuboids: 1,
        meshes: 22,
        lights: 3,
        bounds: 4,
        connected: true,
    };
    let log = log_frame_status(counts(180));
    assert_eq!(
        log.status.unwrap(),
        "Frame 180: cuboids=1 meshes=22 lights=3 bounds=4 connected=true"
    );
    assert!(log.hands);
    let log = log_frame_status(counts(30));
    assert!(log.status.is_none() && log.hands);
    let log = log_frame_status(counts(31));
    assert!(log.status.is_none() && !log.hands);
}

fn facts() -> FrameFacts {
    FrameFacts {
        left_joints: vec![HandJoint { pose: at(5.0), valid: true }; 27],
        right_joints: Vec::new(),
        eyes: vec![at(6.0), at(7.0)],
        player_offset: Vec3::origin(),
        player_yaw_deg: s(90.0),
        scene_name: "den".to_string(),
        cuboid_count: 3,
        mesh_count: 4,
        dt: s(0.02),
        rate: s(50.0),
        frame_count: 11,
    }
}

#[test]
fn the_viewer_is_sent_an_account_of_the_frame() {
    let p = packet(&controllers(), &facts());
    assert_eq!(p.head, at(6.0));
    assert!(p.left_hand.tracking_active && !p.right_hand.tracking_active);
    assert_eq!(p.left_hand.grip, Some(at(1.0)));
    assert_eq!(p.right_hand.aim, Some(at(2.0)));
    assert_eq!(p.left_hand.joints[0].name, "palm");
    assert_eq!(p.left_hand.joints[25].name, "little_tip");
    assert_eq!(p.left_hand.joints[26].name, "unknown");
    assert!(!p.left_hand.btn_a && p.left_hand.btn_y && p.left_hand.stick_click);
    assert!(p.right_hand.btn_a && !p.right_hand.btn_y);
    assert_eq!((p.left_hand.trigger, p.right_hand.squeeze), (s(0.1), s(0.4)));
    assert_eq!(p.locomotion.mode, "client-predicted");
    assert_eq!(p.scene.object_count, 7);
    assert_eq!((p.scene.render_cuboids, p.scene.render_meshes), (3, 4));
    assert_eq!((p.timing.dt_seconds, p.timing.fps), (s(0.02), s(50.0)));
    assert!(p.log_lines.is_empty() && p.scene.active_animations.is_empty());

    let mut f = facts();
    f.eyes.clear();
    f.dt = s(0.0);
    let p = packet(&controllers(), &f);
    assert_eq!(p.head, at(0.0));
    assert_eq!(p.timing.fps, s(0.0));
}

#[test]
fn a_viewer_that_is_gone_is_given_up() {
    let mut link = DebugLink { connected: true, reconnect_timer: 17 };
    maybe_send(&mut link, &controllers(), &facts(), |p| p.timing.frame_count == 11);
    assert_eq!(link, DebugLink { connected: true, reconnect_timer: 17 });
    maybe_send(&mut link, &controllers(), &facts(), |_| false);
    assert_eq!(link, DebugLink { connected: false, reconnect_timer: 0 });
    maybe_send(&mut link, &controllers(), &facts(), |_| panic!("nobody is there"));
    assert!(!link.connected);
}

#[test]
fn a_missing_viewer_is_sought_every_sixtieth_frame() {
    let mut l = FrameLoop::new();
    for _ in 0..59 {
        assert_eq!(l.begin(), Begin::Go);
    }
    assert_eq!(l.begin(), Begin::SeekViewer);
    assert_eq!(l.link.reconnect_timer, 0);
    l.viewer_found();
    for _ in 0..100 {
        assert_eq!(l.begin(), Begin::Go);
    }
}

#[test]
fn the_loop_leaves_when_the_session_ends() {
    let mut l = FrameLoop::new();
    assert!(l.hear(Some(XrEvent::Other)));
    assert!(l.hear(Some(XrEvent::StateChanged { ends: false })));
    assert!(!l.hear(None));
    assert!(!l.exit);
    assert!(l.hear(Some(XrEvent::StateChanged { ends: true })));
    assert!(l.hear(Some(XrEvent::StateChanged { ends: false })));
    assert!(matches!(l.proceed(true), Proceed::Leave));
    assert_eq!(l.begin(), Begin::Leave);

    let mut l = FrameLoop::new();
    assert!(l.hear(Some(XrEvent::InstanceLossPending)));
    assert!(l.exit);
}

#[test]
fn waiting_is_logged_every_fiftieth_pass() {
    let mut l = FrameLoop::new();
    match l.proceed(false) {
        Proceed::Idle(Some(line)) => {
            assert_eq!(line, "idle: waiting for XR session READY (0s elapsed)")
        }
        other => panic!("{other:?}"),
    }
    assert!(matches!(l.proceed(false), Proceed::Idle(None)));
    assert_eq!(l.frame_count, 2);
    assert!(matches!(l.proceed(true), Proceed::Frame));
    assert_eq!(l.frame_count, 2);
    l.frame_count = 150;
    let line = l.not_wanted().unwrap();
    assert_eq!(line, "waiting: session running but should_render=false (15s elapsed)");
    assert!(l.not_wanted().is_none());
    assert_eq!(l.frame_count, 152);
}

#[test]
fn frames_and_looks_are_counted() {
    let mut l = FrameLoop::new();
    for _ in 0..89 {
        assert!(!l.synced());
    }
    assert!(l.synced());
    assert!(!l.synced());
    l.frame_count = 498;
    assert!(l.drawn().is_none());
    assert_eq!(l.drawn().unwrap(), "Frame 500");
    assert!(l.drawn().is_none());
}

#[test]
fn a_world_in_another_scene_is_noticed() {
    let mut view = ServerView { player_offset: None, player_yaw: None };
    assert!(observe(&None, &mut view, &scene_called("den")).is_none());
    assert!(view.player_offset.is_none());
    let w = Some(world("yard"));
    let line = observe(&w, &mut view, &scene_called("den")).unwrap();
    assert_eq!(line, "Scene changed: 'den' -> 'yard' — reloading local grip-point data");
    assert_eq!(view.player_offset.unwrap().x, s(4.0));
    assert_eq!(view.player_yaw, Some(s(0.5)));
    assert!(observe(&w, &mut view, &scene_called("yard")).is_none());
}

#[test]
fn without_a_world_nothing_is_hidden() {
    let none = None;
    let lists = world_lists(&none);
    assert!(lists.hidden_brushes.is_empty() && lists.lights.is_empty());
    assert!(lists.cuboids.is_empty() && lists.sounds.is_empty());
    let some = Some(world("den"));
    let lists = world_lists(&some);
    assert_eq!(lists.hidden_brushes, ["wall".to_string()]);
    assert_eq!(lists.lights.len(), 1);
}

#[test]
fn a_scene_is_in_a_file_of_its_name() {
    assert_eq!(scene_file(&"den".to_string()), "den.json");
}

#[test]
fn the_client_waits_for_its_activity() {
    assert_eq!(wait_for_resume(Some(ActivityEvent::Resume)), WaitStep::Start);
    assert_eq!(wait_for_resume(Some(ActivityEvent::Destroy)), WaitStep::Leave);
    assert_eq!(wait_for_resume(Some(ActivityEvent::Other)), WaitStep::Next);
    assert_eq!(wait_for_resume(None), WaitStep::Sleep);
}

#[test]
fn a_destroyed_activity_ends_the_client() {
    let mut exit = false;
    let other = Pumped::Activity(Some(ActivityEvent::Resume));
    assert_eq!(pump_android_events(&mut exit, other), PumpStep::Next);
    assert_eq!(pump_android_events(&mut exit, Pumped::Input), PumpStep::Finish);
    for seen in [Pumped::Idle, Pumped::Activity(None), Pumped::NoInput, Pumped::Unknown] {
        assert_eq!(pump_android_events(&mut exit, seen), PumpStep::Stop);
    }
    assert!(!exit);
    let destroyed = Pumped::Activity(Some(ActivityEvent::Destroy));
    assert_eq!(pump_android_events(&mut exit, destroyed), PumpStep::Next);
    assert!(exit);
    assert_eq!(pump_android_events(&mut exit, Pumped::Idle), PumpStep::Stop);
    assert!(exit);
}

#[test]
fn the_looper_has_two_sources() {
    assert_eq!(looper_source(0), LooperSource::Main);
    assert_eq!(looper_source(1), LooperSource::Input);
    assert_eq!(looper_source(2), LooperSource::Unknown);
    assert_eq!(looper_source(-1), LooperSource::Unknown);
}

#[test]
fn a_busy_runtime_is_asked_again_twenty_five_times() {
    let mut attempts = 0;
    let line = init_xr("there are no more sessions", &mut attempts).unwrap();
    assert_eq!(
        line,
        "xr: limit reached — previous session still cleaning up (attempt 1/25), retrying in 200ms"
    );
    for _ in 1..25 {
        assert!(init_xr("no more", &mut attempts).is_some());
    }
    assert_eq!(attempts, 25);
    assert!(init_xr("no more", &mut attempts).is_none());
    assert_eq!(attempts, 25);
    let mut attempts = 0;
    for error in ["no runtime", "nomore", "no mor", ""] {
        assert!(init_xr(error, &mut attempts).is_none(), "{error}");
    }
    assert_eq!(attempts, 0);
}

#[test]
fn joints_have_names() {
    assert_eq!(joint_name(0), "palm");
    assert_eq!(joint_name(13), "middle_inter");
    assert_eq!(joint_name(25), "little_tip");
    assert_eq!(joint_name(26), "unknown");
    assert_eq!(game_dir(), "/sdcard/Android/data/com.example.questapp/files/game");
}

#[test]
fn the_last_line_says_how_it_ended() {
    let line = run(Ok(()));
    assert_eq!((line.level, line.text.as_str()), (Severity::Info, "App exited cleanly"));
    let line = run(Err("no headset".to_string()));
    assert_eq!((line.level, line.text.as_str()), (Severity::Error, "App error: no headset"));
}

#[test]
fn input_travels_field_by_field() {
    let wire = input_frame_to_wire(&idle_input());
    let grab = ("gun".to_string(), WireHand::Left, "handle".to_string());
    assert_eq!(wire.grabbed, vec![grab]);
    assert_eq!(wire.released, vec![("rock".to_string(), WireHand::Right)]);
    assert_eq!(wire.button_presses[0].button, "btn_a");
    assert_eq!(wire.button_presses[0].object_id, Some("gun".to_string()));
    assert_eq!(wire.button_releases[0].hand, Some(WireHand::Left));
    assert_eq!(wire.axes.l_stick, Vec2 { x: s(0.5), y: s(0.6) });
    assert_eq!((wire.axes.l_grip, wire.axes.r_grip), (s(0.3), s(0.4)));

    let mut input = idle_input();
    let mut blends = Table::new();
    blends.insert("slide".to_string(), s(0.25));
    input.part_blends.insert("gun".to_string(), blends);
    let wire = input_frame_to_wire(&input);
    let gun = wire.part_blends.get(&"gun".to_string()).unwrap();
    assert_eq!(gun.get(&"slide".to_string()), Some(&s(0.25)));
}

#[test]
fn joints_travel_as_themselves() {
    assert_eq!(hand_to_wire(Hand::Left), WireHand::Left);
    assert_eq!(finger_joint_to_wire(FingerJoint::ThumbProx), WireFingerJoint::ThumbProx);
    assert_eq!(joint_id_to_wire(JointId::HandAim(Hand::Right)), WireJointId::HandAim(WireHand::Right));
    let wire = player_rig_to_wire(&rig());
    let finger = WireJointId::Finger(WireHand::Left, WireFingerJoint::RingDist);
    let pose = Pose { position: at(2.0).position, rotation: Quat::identity() };
    assert_eq!(wire.joints[1], (finger, pose));
    assert_eq!(wire.hand_tracking_active, vec![(WireHand::Right, true)]);
    assert_eq!(transform_to_wire(at(2.0)), pose);
}

#[test]
fn what_is_asked_for_travels_before_the_player_moved() {
    let asked = LocomotionInput {
        move_stick: Vec2 { x: s(0.1), y: s(0.2) },
        turn_stick_x: s(0.3),
        teleport_pressed: true,
        teleport_released: false,
        teleport_hand: Hand::Left,
    };
    let wire = locomotion_input_to_wire(&asked);
    assert_eq!(wire.move_stick, asked.move_stick);
    assert!(wire.teleport_pressed && !wire.teleport_released);
    assert_eq!(wire.teleport_hand, WireHand::Left);
    assert!(wire.player_offset.is_none() && wire.player_yaw.is_none());
    let target = TeleportTarget { position: at(3.0).position, valid: true };
    let wire = teleport_target_to_wire(target);
    assert!(wire.valid && wire.position == at(3.0).position);
    let press = button_press_to_wire(&ButtonPress::new("btn_y", None, Hand::Left));
    assert_eq!((press.button.as_str(), press.object_id), ("btn_y", None));
}
