use gtpsp::natives::{
    analog_axis, ascii_string_hash, bgm_track_path, bgm_volume, wav_samples, course_data_path, distance_string, fan_triangles, key_down,
    money_string, save_blob, save_header_ok, save_slot_path, speed_string, sprintf_placeholders,
    time_string,
};
use gtpsp::value::Value;
use std::rc::Rc;

#[test]
fn string_hash_multiplies_by_31_and_wraps() {
    assert_eq!(ascii_string_hash(""), 0);
    assert_eq!(ascii_string_hash("abc"), 96354);
    assert_eq!(ascii_string_hash("hello"), 99162322);
    assert_eq!(ascii_string_hash("hello world"), 1794106052);
    assert_eq!(ascii_string_hash("polygenelubricants"), i32::MIN);
}

#[test]
fn string_hash_reads_utf8_bytes() {
    // 'é' is the two bytes C3 A9.
    assert_eq!(ascii_string_hash("é"), 0xc3 * 31 + 0xa9);
}

#[test]
fn amounts_are_printed_with_their_units() {
    assert_eq!(money_string(1500), "1500 Cr.");
    assert_eq!(money_string(-20), "-20 Cr.");
    assert_eq!(money_string(0), "0 Cr.");
    assert_eq!(distance_string(5), "5m");
    assert_eq!(speed_string(120), "120 km/h");
    assert_eq!(speed_string(i32::MIN), "-2147483648 km/h");
}

#[test]
fn time_is_printed_as_padded_hours_minutes_seconds() {
    assert_eq!(time_string(0), "00:00:00");
    assert_eq!(time_string(3725), "01:02:05");
    assert_eq!(time_string(360000), "100:00:00");
    assert_eq!(time_string(-61), "00:-1:-1");
    assert_eq!(time_string(-43200), "-12:00:00");
    assert_eq!(time_string(i32::MIN), "-596523:-14:-8");
    assert_eq!(time_string(i32::MAX), "596523:14:07");
}

#[test]
fn save_slots_and_course_data_have_their_paths() {
    assert_eq!(save_slot_path(3), "save_data_3.bin");
    assert_eq!(save_slot_path(-1), "save_data_-1.bin");
    assert_eq!(course_data_path(0), "crs/c001");
    assert_eq!(course_data_path(41), "crs/c042");
    assert_eq!(course_data_path(999), "crs/c1000");
    assert_eq!(course_data_path(-5), "crs/c-04");
}

#[test]
fn analog_axes_follow_the_direction_keys() {
    assert_eq!(analog_axis(0, true), 128);
    assert_eq!(analog_axis(0, false), 128);
    assert_eq!(analog_axis(1 << 3, true), 255);
    assert_eq!(analog_axis(1 << 5, true), 0);
    assert_eq!(analog_axis((1 << 3) | (1 << 5), true), 255);
    assert_eq!(analog_axis(1 << 4, false), 255);
    assert_eq!(analog_axis(1 << 2, false), 0);
    assert_eq!(analog_axis(1 << 4, true), 128);
}

#[test]
fn keys_are_down_by_their_bit() {
    assert!(key_down(0b100, 2));
    assert!(!key_down(0b100, 3));
    assert!(key_down(1 << 31, 31));
}

#[test]
fn polygons_are_drawn_as_fans() {
    assert_eq!(fan_triangles(5), vec![(0, 1, 2), (0, 2, 3), (0, 3, 4)]);
    assert_eq!(fan_triangles(3), vec![(0, 1, 2)]);
    assert!(fan_triangles(2).is_empty());
    assert!(fan_triangles(0).is_empty());
}

#[test]
fn format_placeholders_become_question_marks() {
    assert_eq!(sprintf_placeholders("Hi %{name}!"), "Hi ?!");
    assert_eq!(sprintf_placeholders("a%{}b"), "a?b");
    assert_eq!(sprintf_placeholders("%{x"), "?");
    assert_eq!(sprintf_placeholders("%{"), "%{");
    assert_eq!(sprintf_placeholders("50%"), "50%");
    assert_eq!(sprintf_placeholders("%{a}%{b}"), "??");
    assert_eq!(sprintf_placeholders(""), "");
}

#[test]
fn format_bytes_are_read_one_character_each() {
    assert_eq!(sprintf_placeholders("é"), "\u{c3}\u{a9}");
}

fn magic() -> Vec<u8> {
    b"GTPSP_SAVE_V1".to_vec()
}

#[test]
fn save_blob_holds_the_arguments_after_the_slot() {
    let args: Vec<Value<()>> = vec![
        Value::Int(1),
        Value::Int(7),
        Value::Str(Rc::new("ab".to_string())),
        Value::Bool(true),
        Value::Long(-1),
        Value::Float(0x3f80_0000),
        Value::Nil,
        Value::Double(0),
        Value::UInt(0x0102_0304),
        Value::Bool(false),
    ];
    let mut want = magic();
    want.extend_from_slice(&[7, 0, 0, 0]);
    want.extend_from_slice(&[2, 0, 0, 0, b'a', b'b']);
    want.push(1);
    want.extend_from_slice(&[0xff; 8]);
    want.extend_from_slice(&[0, 0, 0x80, 0x3f]);
    want.extend_from_slice(&[4, 3, 2, 1]);
    want.push(0);
    assert_eq!(save_blob(&args), want);
}

#[test]
fn save_blob_of_no_fields_is_the_magic() {
    let none: Vec<Value<()>> = vec![];
    assert_eq!(save_blob(&none), magic());
    assert_eq!(save_blob(&[Value::<()>::Int(5)]), magic());
    assert_eq!(magic().len(), 13);
}

#[test]
fn save_strings_are_counted_in_utf8_bytes() {
    let args: Vec<Value<()>> = vec![Value::Int(0), Value::Str(Rc::new("é".to_string()))];
    let mut want = magic();
    want.extend_from_slice(&[2, 0, 0, 0, 0xc3, 0xa9]);
    assert_eq!(save_blob(&args), want);
}

#[test]
fn load_check_accepts_no_blob() {
    let blob = save_blob(&[Value::<()>::Int(0), Value::Int(9)]);
    assert!(!save_header_ok(&blob));
    assert!(!save_header_ok(&magic()));
    assert!(!save_header_ok(&[0u8; 5]));
    assert!(!save_header_ok(&[]));
}

#[test]
fn music_tracks_are_at3_files_under_the_track_folder() {
    assert_eq!(bgm_track_path("title"), "assets/sound_gt/track/title.at3");
    assert_eq!(bgm_track_path("title.at3"), "assets/sound_gt/track/title.at3");
    assert_eq!(bgm_track_path("a.at3.at3"), "assets/sound_gt/track/a.at3");
    assert_eq!(bgm_track_path("x.wav"), "assets/sound_gt/track/x.at3");
    assert_eq!(bgm_track_path("x.wav.at3"), "assets/sound_gt/track/x.at3");
    assert_eq!(bgm_track_path("x.at3.wav"), "assets/sound_gt/track/x.at3.at3");
    assert_eq!(bgm_track_path(""), "assets/sound_gt/track/.at3");
}

#[test]
fn volume_is_held_to_0_through_128() {
    assert_eq!(bgm_volume(-5), 0);
    assert_eq!(bgm_volume(200), 128);
    assert_eq!(bgm_volume(64), 64);
    assert_eq!(bgm_volume(128), 128);
}

#[test]
fn wav_samples_follow_the_header() {
    let mut wav = vec![0u8; 44];
    wav.extend_from_slice(&[1, 0, 0xff, 0xff, 5]);
    assert_eq!(wav_samples(&wav), vec![1, -1]);
    assert!(wav_samples(&[0u8; 44]).is_empty());
    assert!(wav_samples(&[0u8; 45]).is_empty());
    assert!(wav_samples(&[]).is_empty());
}
