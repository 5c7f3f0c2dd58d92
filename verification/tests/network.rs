use quest_app::avatar::{
    skeleton_data_from_skin, GltfSkin, LocalPose, RemotePlayerState,
};
use quest_app::engine::Transform;
use quest_app::network::{
    address_in, from_wire, resting_pose, run_session, server_url, session_start, to_wire,
    ClientMessage, PendingInput, ServerMessage, SessionAction, SessionEvent, SharedState,
    RECONNECT_SECONDS,
};
use quest_app::protocol::{Pose, WireHand, WireWorld};
use quest_app::scalar::{Quat, Scalar, Vec3};

fn s(x: f32) -> Scalar {
    Scalar { bits: x.to_bits() }
}

fn pose(x: f32) -> Pose {
    Pose {
        position: Vec3 { x: s(x), y: s(2.0), z: s(3.0) },
        rotation: Quat { x: s(0.0), y: s(1.0), z: s(0.0), w: s(0.0) },
    }
}

fn world(name: &str) -> WireWorld {
    WireWorld {
        scene_name: name.to_string(),
        player_offset: Vec3::origin(),
        player_yaw: s(0.0),
        cuboids: Vec::new(),
        meshes: Vec::new(),
        lights: Vec::new(),
        lasers: Vec::new(),
        object_bounds: Vec::new(),
        particle_emitters: Vec::new(),
        hidden_brushes: Vec::new(),
        left_hand_held: None,
        right_hand_held: None,
        sounds: Vec::new(),
    }
}

fn update(id: u64, x: f32) -> ServerMessage {
    ServerMessage::PlayerUpdate { id, head: pose(x), left_hand: None, right_hand: Some(pose(9.0)) }
}

#[test]
fn the_address_is_what_the_file_says_without_the_space_around_it() {
    let read = |t: &str| server_url(Some(t.to_string()));
    assert_eq!(read("ws://10.0.0.2:9001"), "ws://10.0.0.2:9001");
    assert_eq!(read(" \t ws://h:1 x\r\n"), "ws://h:1 x");
    // What Unicode counts as white space, not only the blank.
    assert_eq!(read("\u{a0}\u{3000}ws://h\u{2028}"), "ws://h");
}

#[test]
fn white_space_is_what_unicode_says() {
    let white = |c: &char| server_url(Some(format!("{c}x"))) == "x";
    let found: Vec<u32> = (0..=0x10ffff)
        .filter_map(char::from_u32)
        .filter(|c| *c < '\u{4000}' || *c as u32 % 97 == 0)
        .filter(white)
        .map(|c| c as u32)
        .collect();
    let mut listed: Vec<u32> = (0x9..=0xd).collect();
    listed.extend([0x20, 0x85, 0xa0, 0x1680]);
    listed.extend(0x2000..=0x200a);
    listed.extend([0x2028, 0x2029, 0x202f, 0x205f, 0x3000]);
    assert_eq!(found, listed);
    assert!((0..=0x10ffff).filter_map(char::from_u32).all(|c| {
        c.is_whitespace() == listed.contains(&(c as u32))
    }));
}

#[test]
fn an_address_is_cut_where_the_flags_say() {
    let cut = |t: &str, white: &[u8]| {
        address_in(&t.to_string(), &white.iter().map(|w| *w == 1).collect())
    };
    assert_eq!(cut("abcd", &[1, 0, 1, 1]), Some("b".to_string()));
    // Flags between two that are not set do not count.
    assert_eq!(cut("abcd", &[0, 1, 1, 0]), Some("abcd".to_string()));
    // It is the flags that decide, not the characters.
    assert_eq!(cut(" x ", &[0, 0, 1]), Some(" x".to_string()));
    assert_eq!(cut("\u{e9}tat", &[0, 0, 0, 1]), Some("\u{e9}ta".to_string()));
    assert_eq!(cut("ab", &[1, 1]), None);
    assert_eq!(cut("", &[]), None);
}

#[test]
fn without_a_file_the_server_is_this_machine() {
    assert_eq!(server_url(None), "ws://127.0.0.1:9001");
    assert_eq!(server_url(Some(String::new())), "ws://127.0.0.1:9001");
    assert_eq!(server_url(Some(" \n\t ".to_string())), "ws://127.0.0.1:9001");
}

#[test]
fn a_transform_survives_the_wire() {
    let p = pose(1.5);
    let t = from_wire(p);
    assert_eq!(t.position, p.position);
    assert_eq!(t.rotation, p.rotation);
    assert_eq!(to_wire(t), p);
}

#[test]
fn nothing_was_pressed_before_the_first_frame() {
    let p = PendingInput::default();
    assert!(p.input.grabbed.is_empty() && p.input.button_presses.is_empty());
    assert!(p.rig.joints.is_empty());
    assert_eq!(p.locomotion_input.move_stick.x, s(0.0));
    assert_eq!(p.locomotion_input.teleport_hand, WireHand::Right);
    assert!(p.locomotion_input.player_offset.is_none());
    assert!(p.locomotion_input.player_yaw.is_none());
    assert!(p.teleport_target.is_none());
    let rest = resting_pose();
    assert_eq!(rest.head.position, Vec3::origin());
    assert!(rest.left_hand.is_none() && rest.right_hand.is_none());
}

#[test]
fn players_come_move_and_leave() {
    let mut state = SharedState::new();
    state.handle_server_message(Some(ServerMessage::Welcome { id: 4 }));
    assert!(state.remote_players.is_empty());
    state.handle_server_message(Some(update(7, 1.0)));
    state.handle_server_message(Some(update(8, 2.0)));
    state.handle_server_message(Some(update(7, 3.0)));
    assert_eq!(state.remote_players.len(), 2);
    let seven: &RemotePlayerState = &state.remote_players[&7];
    assert_eq!(seven.head.position.x, s(3.0));
    assert!(seven.left_hand.is_none());
    assert_eq!(seven.right_hand.unwrap().position.x, s(9.0));
    state.handle_server_message(Some(ServerMessage::PlayerLeft { id: 7 }));
    state.handle_server_message(Some(ServerMessage::PlayerLeft { id: 99 }));
    assert_eq!(state.remote_players.keys().copied().collect::<Vec<u64>>(), vec![8]);
}

#[test]
fn the_latest_world_counts() {
    let mut state = SharedState::new();
    state.handle_server_message(Some(ServerMessage::World(world("one"))));
    state.handle_server_message(Some(ServerMessage::World(world("two"))));
    state.handle_server_message(None);
    assert_eq!(state.latest_world.as_ref().unwrap().scene_name, "two");
    state.handle_server_message(Some(update(1, 0.0)));
    state.disconnected();
    assert!(state.latest_world.is_none());
    assert!(state.remote_players.is_empty());
    assert_eq!(RECONNECT_SECONDS, 2);
}

#[test]
fn a_session_begins_by_joining() {
    assert!(matches!(session_start(), ClientMessage::Join));
}

#[test]
fn a_session_sends_what_changed() {
    let mut state = SharedState::new();
    let local = LocalPose {
        head: from_wire(pose(1.0)),
        left_hand: Some(from_wire(pose(2.0))),
        right_hand: None,
    };
    match run_session(&mut state, SessionEvent::Pose(local)) {
        SessionAction::Send(ClientMessage::Update { head, left_hand, right_hand }) => {
            assert_eq!(head, pose(1.0));
            assert_eq!(left_hand, Some(pose(2.0)));
            assert_eq!(right_hand, None);
        }
        other => panic!("{other:?}"),
    }
    match run_session(&mut state, SessionEvent::Input(PendingInput::default())) {
        SessionAction::Send(ClientMessage::Input { locomotion_input, teleport_target, .. }) => {
            assert_eq!(locomotion_input.teleport_hand, WireHand::Right);
            assert!(teleport_target.is_none());
        }
        other => panic!("{other:?}"),
    }
}

#[test]
fn a_session_ends_when_the_server_closes_and_fails_when_the_stream_does() {
    let mut state = SharedState::new();
    assert!(matches!(run_session(&mut state, SessionEvent::Closed), SessionAction::End));
    assert!(matches!(run_session(&mut state, SessionEvent::Failed), SessionAction::Fail));
    assert!(matches!(run_session(&mut state, SessionEvent::SenderGone), SessionAction::Fail));
    assert!(matches!(run_session(&mut state, SessionEvent::Other), SessionAction::Continue));
    let text = SessionEvent::Text(Some(update(5, 1.0)));
    assert!(matches!(run_session(&mut state, text), SessionAction::Continue));
    assert_eq!(state.remote_players.len(), 1);
    assert!(matches!(run_session(&mut state, SessionEvent::Text(None)), SessionAction::Continue));
    assert_eq!(state.remote_players.len(), 1);
}

#[test]
fn a_skeleton_is_its_skin_s() {
    let skin = GltfSkin {
        joint_names: vec!["hip".to_string(), "knee".to_string()],
        joint_parents: vec![None, Some(0)],
        joint_local_bind: vec![Transform { position: Vec3::origin(), rotation: Quat::identity() }],
        inv_bind_mats: vec![1u8, 2],
    };
    let skeleton = skeleton_data_from_skin(&skin);
    assert_eq!(skeleton.joint_names, vec!["hip".to_string(), "knee".to_string()]);
    assert_eq!(skeleton.joint_parents, vec![None, Some(0)]);
    assert_eq!(skeleton.joint_local_bind, skin.joint_local_bind);
    assert_eq!(skeleton.inv_bind_mats, vec![1, 2]);
}
