use quest_app::fnv::hash_text;
use quest_app::grab_detect::{grab_range, GRAB_RANGE};
use quest_app::movement::STICK_AT_REST;
use quest_app::nearest::closest_of;
use quest_app::frame_loop::{frame_length, FIRST_FRAME};
use quest_app::part_pull::{BUTTON_THRESHOLD, PART_PULL_GRAB_RANGE};
use quest_app::render_prep::MAX_RENDER_DIST;
use quest_app::scalar::{Quat, Scalar, Vec3};
use quest_app::table::Table;
use quest_app::text::to_decimal;

fn s(x: f32) -> Scalar {
    Scalar { bits: x.to_bits() }
}

const SOME: [f32; 13] = [
    f32::NEG_INFINITY,
    -3.5,
    -1.0,
    -1e-40,
    -0.0,
    0.0,
    1e-40,
    0.1,
    0.5,
    1.0,
    40.0,
    f32::INFINITY,
    f32::NAN,
];

#[test]
fn numbers_compare_as_the_hardware_compares_them() {
    for a in SOME {
        for b in SOME {
            assert_eq!(s(a).lt(s(b)), a < b, "{a} < {b}");
            assert_eq!(s(a).le(s(b)), a <= b, "{a} <= {b}");
            assert_eq!(s(a).gt(s(b)), a > b, "{a} > {b}");
            assert_eq!(s(a).equals(s(b)), a == b, "{a} == {b}");
        }
    }
}

#[test]
fn limiting_is_the_hardware_s() {
    for a in SOME {
        let limited = f32::from_bits(s(a).clamp_unit().bits);
        let expected = a.clamp(0.0, 1.0);
        assert!(limited == expected || (limited.is_nan() && expected.is_nan()), "{a}");
        assert_eq!(s(a).clamp_unit().clamp_unit(), s(a).clamp_unit());
        assert_eq!(s(a).abs().bits, a.abs().to_bits(), "{a}");
        assert_eq!(s(a).is_nan(), a.is_nan());
    }
}

#[test]
fn constants_are_these_numbers() {
    assert_eq!(Scalar::zero(), s(0.0));
    assert_eq!(Scalar::half(), s(0.5));
    assert_eq!(Scalar::one(), s(1.0));
    assert_eq!(GRAB_RANGE, 0.15f32.to_bits());
    assert_eq!(grab_range(), s(0.15));
    assert_eq!(BUTTON_THRESHOLD, 0.5f32.to_bits());
    assert_eq!(PART_PULL_GRAB_RANGE, 0.09f32.to_bits());
    assert_eq!(MAX_RENDER_DIST, 40.0f32.to_bits());
    assert_eq!(STICK_AT_REST, 0.1f32.to_bits());
    assert_eq!(FIRST_FRAME, (1.0f32 / 90.0).to_bits());
}

#[test]
fn the_first_frame_has_the_usual_length() {
    assert_eq!(frame_length(None), s(1.0 / 90.0));
    assert_eq!(frame_length(Some(s(0.25))), s(0.25));
}

#[test]
fn points_compare_number_by_number() {
    let p = Vec3 { x: s(0.0), y: s(-0.0), z: s(0.0) };
    assert!(p.equals(Vec3::origin()));
    assert!(!Vec3 { x: s(f32::NAN), y: s(0.0), z: s(0.0) }.equals(Vec3::origin()));
    assert_eq!(Quat::identity().w, s(1.0));
    assert_eq!(Quat::identity().x, s(0.0));
}

#[test]
fn the_first_of_the_closest_is_picked() {
    let d = [s(3.0), s(1.0), s(1.0), s(0.5)];
    assert_eq!(closest_of(&d, &[true, true, true, false]), Some(1));
    assert_eq!(closest_of(&d, &[true, false, true, true]), Some(3));
    assert_eq!(closest_of(&d, &[false; 4]), None);
    assert_eq!(closest_of(&[], &[]), None);
}

#[test]
fn numbers_are_written_in_decimal() {
    assert_eq!(to_decimal(0), "0");
    assert_eq!(to_decimal(907), "907");
    assert_eq!(to_decimal(u64::MAX), u64::MAX.to_string());
}

#[test]
fn texts_hash_as_published() {
    assert_eq!(hash_text(""), 0xcbf2_9ce4_8422_2325);
    assert_eq!(hash_text("a"), 0xaf63_dc4c_8601_ec8c);
    assert_eq!(hash_text("foobar"), 0x8594_4171_f739_67e8);
}

#[test]
fn a_table_keeps_the_order_of_its_keys() {
    let mut t: Table<u32> = Table::new();
    assert!(t.is_empty());
    t.insert("b".to_string(), 1);
    t.insert("a".to_string(), 2);
    t.insert("b".to_string(), 3);
    assert_eq!(t.len(), 2);
    assert_eq!(t.entries[0], ("b".to_string(), 3));
    assert_eq!(t.get(&"a".to_string()), Some(&2));
    assert_eq!(t.get(&"c".to_string()), None);
    assert!(t.contains_key(&"a".to_string()));
    t.remove(&"b".to_string());
    t.remove(&"c".to_string());
    assert_eq!(t.entries, vec![("a".to_string(), 2)]);
    assert_eq!(t.find(&"a".to_string()), Some(0));
}
