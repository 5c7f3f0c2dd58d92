use std::cell::RefCell;

use quest_app::client_audio::ClientAudio;
use quest_app::protocol::WireSoundState;
use quest_app::scalar::{Scalar, Vec3};
use quest_app::table::Table;

fn s(x: f32) -> Scalar {
    Scalar { bits: x.to_bits() }
}

fn sound(id: &str, clip: &str) -> WireSoundState {
    WireSoundState {
        object_id: id.to_string(),
        clip: clip.to_string(),
        position: Vec3 { x: s(4.0), y: s(0.0), z: s(0.0) },
        volume: s(0.5),
        pitch: s(2.0),
        looping: true,
        min_distance: s(1.0),
        max_distance: s(10.0),
    }
}

fn names(t: &Table<String>) -> Vec<String> {
    t.entries.iter().map(|e| e.0.clone()).collect()
}

type Audio = ClientAudio<String, String>;

fn load(clip: &String) -> Option<String> {
    if clip == "missing" {
        None
    } else {
        Some(format!("data of {clip}"))
    }
}

fn begin(clip: &String, sound: &WireSoundState) -> Option<String> {
    if sound.object_id == "mute" {
        None
    } else {
        Some(format!("{} playing {clip}", sound.object_id))
    }
}

fn plays_on(_: &String) -> bool {
    false
}

#[test]
fn a_sound_that_is_named_plays() {
    let mut audio: Audio = ClientAudio::new();
    let changes =
        audio.update(&[sound("horn", "h.ogg")], &Table::new(), &load, &begin, &plays_on);
    assert!(changes.stopped.is_empty());
    assert_eq!(changes.follows.len(), 1);
    let f = &changes.follows[0];
    assert_eq!(f.object_id, "horn");
    assert_eq!((f.position.x, f.volume, f.pitch), (s(4.0), s(0.5), s(2.0)));
    assert_eq!(f.occluded, s(0.0));
    let playing = audio.playing.get(&"horn".to_string()).unwrap();
    assert_eq!(playing, "horn playing data of h.ogg");
}

#[test]
fn a_sound_that_is_no_longer_named_stops() {
    let mut audio: Audio = ClientAudio::new();
    let both = [sound("a", "x"), sound("b", "x")];
    audio.update(&both, &Table::new(), &load, &begin, &plays_on);
    let changes = audio.update(&[sound("b", "x")], &Table::new(), &load, &begin, &plays_on);
    assert_eq!(changes.stopped.len(), 1);
    assert_eq!(changes.stopped[0].0, "a");
    assert_eq!(names(&audio.playing), vec!["b".to_string()]);
    let changes = audio.update(&[], &Table::new(), &load, &begin, &plays_on);
    assert_eq!(changes.stopped.len(), 1);
    assert!(audio.playing.is_empty());
}

#[test]
fn a_clip_is_read_once() {
    let reads = RefCell::new(0);
    let counting = |clip: &String| {
        *reads.borrow_mut() += 1;
        load(clip)
    };
    let mut audio: Audio = ClientAudio::new();
    let both = [sound("a", "x"), sound("b", "x")];
    audio.update(&both, &Table::new(), &counting, &begin, &plays_on);
    audio.update(&[], &Table::new(), &counting, &begin, &plays_on);
    audio.update(&both, &Table::new(), &counting, &begin, &plays_on);
    assert_eq!(*reads.borrow(), 1);
    assert_eq!(names(&audio.clips), vec!["x".to_string()]);
    assert_eq!(audio.load_clip(&"x".to_string(), &counting), Some(0));
    assert_eq!(audio.load_clip(&"missing".to_string(), &counting), None);
    assert_eq!(*reads.borrow(), 2);
}

#[test]
fn a_sound_that_cannot_be_started_does_not_play() {
    let mut audio: Audio = ClientAudio::new();
    let sounds = [sound("a", "missing"), sound("mute", "x")];
    let changes = audio.update(&sounds, &Table::new(), &load, &begin, &plays_on);
    assert!(changes.follows.is_empty());
    assert!(audio.playing.is_empty());
    // The clip that could be read is kept all the same.
    assert_eq!(names(&audio.clips), vec!["x".to_string()]);
}

#[test]
fn a_sound_that_has_run_out_is_forgotten_and_starts_anew() {
    let mut audio: Audio = ClientAudio::new();
    audio.update(&[sound("a", "x")], &Table::new(), &load, &begin, &plays_on);
    let over = |_: &String| true;
    let changes = audio.update(&[sound("a", "x")], &Table::new(), &load, &begin, &over);
    assert!(changes.follows.is_empty());
    assert!(audio.playing.is_empty());
    let changes = audio.update(&[sound("a", "x")], &Table::new(), &load, &begin, &plays_on);
    assert_eq!(changes.follows.len(), 1);
}

#[test]
fn what_is_held_back_stays_within_bounds() {
    let mut audio: Audio = ClientAudio::new();
    let mut occlusion: Table<Scalar> = Table::new();
    occlusion.insert("a".to_string(), s(1.75));
    occlusion.insert("b".to_string(), s(0.25));
    let both = [sound("a", "x"), sound("b", "x")];
    let changes = audio.update(&both, &occlusion, &load, &begin, &plays_on);
    assert_eq!(changes.follows[0].occluded, s(1.0));
    assert_eq!(changes.follows[1].occluded, s(0.25));
}
