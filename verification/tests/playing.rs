use quest_app::client::Client;
use quest_app::engine::{
    ControllerState, Hand, LocomotionInput, PerHand, PlayerRig, Transform,
};
use quest_app::grab_detect::{LiveObjects, StaticScene};
use quest_app::part_pull::{Along, HandReach, PullSession};
use quest_app::protocol::{WireObjectBounds, WireRenderMesh, WireWorld};
use quest_app::render_prep::MeshFacts;
use quest_app::scalar::{Quat, Scalar, Vec2, Vec3};
use quest_app::table::Table;

fn s(x: f32) -> Scalar {
    Scalar { bits: x.to_bits() }
}

fn at(x: f32) -> Transform {
    Transform { position: Vec3 { x: s(x), y: s(0.0), z: s(0.0) }, rotation: Quat::identity() }
}

fn controllers(r_trigger: f32) -> ControllerState {
    let still = Vec2 { x: s(0.0), y: s(0.0) };
    ControllerState {
        l_trigger: s(0.0),
        r_trigger: s(r_trigger),
        l_squeeze: s(0.0),
        r_squeeze: s(0.0),
        l_stick: still,
        r_stick: still,
        l_stick_click: false,
        r_stick_click: false,
        btn_a: false,
        btn_b: false,
        btn_x: false,
        btn_y: false,
        l_grip_pose: None,
        r_grip_pose: None,
        l_aim_pose: None,
        r_aim_pose: None,
    }
}

fn world() -> Option<WireWorld> {
    Some(WireWorld {
        scene_name: "den".to_string(),
        player_offset: Vec3::origin(),
        player_yaw: s(0.0),
        cuboids: Vec::new(),
        meshes: vec![WireRenderMesh {
            id: "rock".to_string(),
            path: "rock.glb".to_string(),
            position: Vec3::origin(),
            rotation: Quat::identity(),
            scale: Vec3::origin(),
            hidden_parts: Vec::new(),
            manual_part_blends: Table::new(),
        }],
        lights: Vec::new(),
        lasers: Vec::new(),
        object_bounds: vec![WireObjectBounds {
            id: "rock".to_string(),
            position: Vec3::origin(),
            rotation: Quat::identity(),
            half_size: Vec3::origin(),
        }],
        particle_emitters: Vec::new(),
        hidden_brushes: Vec::new(),
        left_hand_held: None,
        right_hand_held: None,
        sounds: Vec::new(),
    })
}

/// Every object is right in the hand.
fn measure(live: &LiveObjects, _: &PerHand<Option<PullSession>>) -> PerHand<HandReach> {
    let reach = || HandReach {
        objects: vec![s(0.0); live.by_id.len()],
        grips: Vec::new(),
        local: Vec3::origin(),
        pulls: None,
        pulled: Along { left: s(0.0), right: s(0.0) },
    };
    PerHand { left: reach(), right: reach() }
}

#[test]
fn a_frame_is_played_in_order() {
    let mut client = Client::new();
    let scene = StaticScene::load(&"den".to_string(), None);
    let cache: Table<MeshFacts> = Table::new();
    let rig = PlayerRig { joints: Vec::new(), hand_tracking_active: Vec::new() };
    let grips = PerHand { left: at(2.0), right: at(3.0) };
    let ease = |_: u32, raw: Scalar| raw;
    let advance = |asked: LocomotionInput| {
        // The input was taken in first, so no edge is left to teleport on.
        assert!(!asked.teleport_pressed && !asked.teleport_released);
        (Vec3::origin(), s(0.5))
    };
    let played = client.play(
        90,
        &controllers(1.0),
        &rig,
        at(1.0),
        &grips,
        &world(),
        &scene,
        &cache,
        &measure,
        &ease,
        advance,
    );
    let rock = "rock".to_string();
    assert_eq!(played.requests, vec![("rock.glb".to_string(), vec![rock.clone()])]);
    assert_eq!(played.input.grabbed, vec![(rock.clone(), Hand::Right, String::new())]);
    assert_eq!(played.step.pending.input.grabbed.len(), 1);
    assert_eq!(played.step.pending.locomotion_input.player_yaw, Some(s(0.5)));
    assert_eq!(played.pose.right_hand, Some(at(3.0)));
    assert_eq!(
        played.log.status.as_deref(),
        Some("Frame 90: cuboids=0 meshes=1 lights=0 bounds=1 connected=true")
    );
    assert!(played.log.hands);
    assert!(client.prev.r_trigger);
    assert_eq!(client.grabbed.right, Some(rock));

    let played = client.play(
        91,
        &controllers(0.0),
        &rig,
        at(1.0),
        &grips,
        &None,
        &scene,
        &cache,
        &measure,
        &ease,
        advance,
    );
    assert!(played.requests.is_empty());
    // The world is gone, so there is nothing near to let go of.
    assert!(played.input.released.is_empty());
    assert_eq!(client.grabbed.right, None);
    assert!(client.live.by_id.is_empty());
    assert!(played.log.status.is_none() && !played.log.hands);
}
