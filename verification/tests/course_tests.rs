use gtpsp::course::{course_checkpoints, course_metadata_file, course_start, parse_course_metadata_full};

fn put32(d: &mut [u8], off: usize, v: u32) {
    d[off..off + 4].copy_from_slice(&v.to_le_bytes());
}

fn record(d: &mut [u8], off: usize, x: f32, z: f32) {
    put32(d, off, 1);
    put32(d, off + 4, x.to_bits());
    put32(d, off + 8, z.to_bits());
}

fn b(x: f32, z: f32) -> (u32, u32) {
    (x.to_bits(), z.to_bits())
}

#[test]
fn checkpoints_are_the_type_one_records_in_range() {
    let mut d = vec![0u8; 0x300];
    record(&mut d, 0x100, 10.0, -5.0);
    record(&mut d, 0x140, 200000.0, 1.0);
    record(&mut d, 0x180, 1.0, 2.0);
    assert_eq!(course_checkpoints(&d), vec![b(10.0, -5.0), b(1.0, 2.0)]);
    assert_eq!(course_start(&d), Some(b(10.0, -5.0)));
    let m = parse_course_metadata_full(&d);
    assert_eq!((m.spawn_x, m.spawn_z), b(10.0, -5.0));
    assert_eq!(m.checkpoints, vec![b(10.0, -5.0), b(1.0, 2.0)]);
}

#[test]
fn a_zero_record_past_0x200_ends_the_list() {
    let mut d = vec![0u8; 0x400];
    record(&mut d, 0x100, 1.0, 1.0);
    record(&mut d, 0x300, 2.0, 2.0);
    assert_eq!(course_checkpoints(&d), vec![b(1.0, 1.0)]);
    // Non-zero words keep the walk going past 0x200.
    for off in (0x140..0x300).step_by(4) {
        put32(&mut d, off, 7);
    }
    assert_eq!(course_checkpoints(&d), vec![b(1.0, 1.0), b(2.0, 2.0)]);
}

#[test]
fn infinite_and_nan_coordinates_are_skipped() {
    let mut d = vec![0u8; 0x300];
    record(&mut d, 0x100, f32::INFINITY, 1.0);
    record(&mut d, 0x140, 1.0, f32::NAN);
    record(&mut d, 0x180, -99999.0, 99999.0);
    assert_eq!(course_checkpoints(&d), vec![b(-99999.0, 99999.0)]);
}

#[test]
fn spawn_skips_checkpoints_at_the_origin() {
    let mut d = vec![0u8; 0x300];
    record(&mut d, 0x100, 0.0, -0.0);
    record(&mut d, 0x140, 3.0, 4.0);
    record(&mut d, 0x180, 5.0, 6.0);
    let m = parse_course_metadata_full(&d);
    assert_eq!((m.spawn_x, m.spawn_z), b(3.0, 4.0));
    assert_eq!(course_start(&d), Some(b(0.0, -0.0)));
}

#[test]
fn short_files_have_no_metadata_but_may_have_a_start() {
    let mut d = vec![0u8; 0x120];
    record(&mut d, 0x100, 8.0, 9.0);
    let m = parse_course_metadata_full(&d);
    assert_eq!((m.spawn_x, m.spawn_z), (0, 0));
    assert!(m.checkpoints.is_empty());
    assert_eq!(course_start(&d), Some(b(8.0, 9.0)));
    assert_eq!(course_start(&[0u8; 0x40]), None);
}

#[test]
fn metadata_files_are_named_by_course() {
    assert_eq!(course_metadata_file(7), "c007.ad");
    assert_eq!(course_metadata_file(1234), "c1234.ad");
}
