use base64::Engine;

use quest_app::frame_loop::{occlusion, take_soundmaps};
use quest_app::lightmap_client;
use quest_app::lightmap_client::{LightmapUpdate, WireLightmapMessage};
use quest_app::map_stream::{run_client, StreamEvent, StreamStep};
use quest_app::picture::decode_picture;
use quest_app::protocol::WireSoundState;
use quest_app::scalar::{Scalar, Vec3};
use quest_app::soundmap_client;
use quest_app::soundmap_client::{OcclusionGrid, SoundmapUpdate, WireSoundmapMessage};
use quest_app::table::Table;

fn s(x: f32) -> Scalar {
    Scalar { bits: x.to_bits() }
}

/// A PNG file of two by one pixels, as Base64 text.
fn png_text(pixels: [u8; 8]) -> String {
    let image = image::RgbaImage::from_raw(2, 1, pixels.to_vec()).unwrap();
    let mut file = std::io::Cursor::new(Vec::new());
    image.write_to(&mut file, image::ImageFormat::Png).unwrap();
    base64::engine::general_purpose::STANDARD.encode(file.into_inner())
}

#[test]
fn a_picture_in_a_text_gives_its_pixels() {
    let pixels = [1, 2, 3, 255, 40, 50, 60, 128];
    assert_eq!(decode_picture(&png_text(pixels)), Some(pixels.to_vec()));
}

#[test]
fn a_picture_without_opacity_is_opaque() {
    let image = image::RgbImage::from_raw(1, 1, vec![7, 8, 9]).unwrap();
    let mut file = std::io::Cursor::new(Vec::new());
    image.write_to(&mut file, image::ImageFormat::Png).unwrap();
    let text = base64::engine::general_purpose::STANDARD.encode(file.into_inner());
    assert_eq!(decode_picture(&text), Some(vec![7, 8, 9, 255]));
}

#[test]
fn a_text_that_is_no_picture_is_dropped() {
    assert_eq!(decode_picture(&"not base64!".to_string()), None);
    assert_eq!(decode_picture(&String::new()), None);
    let text = base64::engine::general_purpose::STANDARD.encode("not an image");
    assert_eq!(decode_picture(&text), None);
}

#[test]
fn a_lightmap_message_becomes_an_update() {
    let pixels = [1, 2, 3, 4, 5, 6, 7, 8];
    let msg = WireLightmapMessage {
        object_id: "wall".to_string(),
        width: 2,
        height: 1,
        png_b64: png_text(pixels),
    };
    let update: LightmapUpdate = lightmap_client::handle_message(msg).unwrap();
    assert_eq!(update.object_id, "wall");
    assert_eq!((update.width, update.height), (2, 1));
    assert_eq!(update.rgba, pixels.to_vec());

    let msg = WireLightmapMessage {
        object_id: "wall".to_string(),
        width: 2,
        height: 1,
        png_b64: "?".to_string(),
    };
    assert!(lightmap_client::handle_message(msg).is_none());
}

#[test]
fn an_update_needs_pixels() {
    let msg = || WireLightmapMessage {
        object_id: "w".to_string(),
        width: 1,
        height: 1,
        png_b64: String::new(),
    };
    assert!(lightmap_client::update_from(msg(), None).is_none());
    assert_eq!(lightmap_client::update_from(msg(), Some(vec![3])).unwrap().rgba, vec![3]);
}

#[test]
fn a_soundmap_message_becomes_a_grid() {
    let msg = WireSoundmapMessage {
        object_id: "horn".to_string(),
        width: 2,
        height: 1,
        png_b64: png_text([10, 2, 3, 4, 20, 6, 7, 8]),
    };
    let update = soundmap_client::handle_message(msg).unwrap();
    assert_eq!(update.object_id, "horn");
    assert_eq!(update.grid.gray, vec![10, 20]);
    assert_eq!((update.grid.width, update.grid.height), (2, 1));

    let msg = WireSoundmapMessage {
        object_id: "horn".to_string(),
        width: 2,
        height: 1,
        png_b64: "?".to_string(),
    };
    assert!(soundmap_client::update_from(msg, None).is_none());
}

#[test]
fn maps_are_served_by_this_machine() {
    assert_eq!(lightmap_client::server_ws_url("den"), "ws://127.0.0.1:8000/api/lightmap/den");
    assert_eq!(soundmap_client::server_ws_url("den"), "ws://127.0.0.1:8000/api/soundmap/den");
}

#[test]
fn a_grid_takes_the_first_channel() {
    let g = OcclusionGrid::from_rgba(2, 1, &[1, 9, 9, 9, 2, 9, 9, 9, 3]);
    assert_eq!(g.gray, vec![1, 2]);
}

#[test]
fn a_grid_is_sampled_around_a_place() {
    let g = OcclusionGrid { width: 3, height: 2, gray: vec![1, 2, 3, 4, 5, 6] };
    let c = g.sample(s(5.0), 0, 0).unwrap();
    assert_eq!((c.top_left, c.top_right, c.bottom_left, c.bottom_right), (1, 2, 4, 5));
    // At the last column and row the neighbour is the cell itself.
    let c = g.sample(s(5.0), 2, 1).unwrap();
    assert_eq!((c.top_left, c.top_right, c.bottom_left, c.bottom_right), (6, 6, 6, 6));
}

#[test]
fn a_sound_that_reaches_nowhere_is_not_occluded() {
    let g = OcclusionGrid { width: 1, height: 1, gray: vec![1] };
    assert!(g.sample(s(0.0), 0, 0).is_none());
    assert!(g.sample(s(-1.0), 0, 0).is_none());
    let none = OcclusionGrid { width: 0, height: 4, gray: Vec::new() };
    assert!(none.sample(s(5.0), 0, 0).is_none());
}

fn sound(id: &str, volume: f32) -> WireSoundState {
    WireSoundState {
        object_id: id.to_string(),
        clip: "c.ogg".to_string(),
        position: Vec3::origin(),
        volume: s(volume),
        pitch: s(1.0),
        looping: false,
        min_distance: s(1.0),
        max_distance: s(10.0),
    }
}

fn grid(cell: u8) -> OcclusionGrid {
    OcclusionGrid { width: 1, height: 1, gray: vec![cell] }
}

#[test]
fn the_latest_grid_of_an_object_counts() {
    let mut grids: Table<OcclusionGrid> = Table::new();
    grids.insert("a".to_string(), grid(1));
    let updates = vec![
        SoundmapUpdate { object_id: "b".to_string(), grid: grid(2) },
        SoundmapUpdate { object_id: "b".to_string(), grid: grid(3) },
    ];
    take_soundmaps(&mut grids, updates);
    assert_eq!(grids.get(&"a".to_string()).unwrap().gray, vec![1]);
    assert_eq!(grids.get(&"b".to_string()).unwrap().gray, vec![3]);
}

#[test]
fn only_sounds_with_a_grid_are_held_back() {
    let mut grids: Table<OcclusionGrid> = Table::new();
    grids.insert("a".to_string(), grid(64));
    let measure = |sound: &WireSoundState, grid: &OcclusionGrid| {
        s(grid.gray[0] as f32 * f32::from_bits(sound.volume.bits))
    };
    let sounds = [sound("a", 1.0), sound("b", 1.0), sound("a", 0.5)];
    let held = occlusion(&sounds, &grids, &measure);
    assert_eq!(held.len(), 1);
    assert_eq!(held.get(&"a".to_string()), Some(&s(32.0)));
}

#[test]
fn a_map_stream_that_ends_is_opened_again() {
    assert_eq!(run_client(StreamEvent::Text), StreamStep::Handle);
    assert_eq!(run_client(StreamEvent::Other), StreamStep::Continue);
    assert_eq!(run_client(StreamEvent::Closed), StreamStep::Reconnect);
    assert_eq!(run_client(StreamEvent::Failed), StreamStep::WarnAndReconnect);
}
