use gtpsp::gtengine::{car_to_chassis, car_to_displacement, car_to_drivetrain, car_to_engine};
use gtpsp::specdb::{ColumnDef, SpecDB, SpecDBTable};

fn le32(v: u32) -> [u8; 4] {
    v.to_le_bytes()
}

/// A `.dbt` file with the given column descriptors, rows (all of one stride) and string block.
fn dbt(cols: &[(u16, u16)], rows: &[Vec<u8>], strings: &[u8]) -> Vec<u8> {
    let stride = rows.first().map(|r| r.len()).unwrap_or(0) as u32;
    let mut d = Vec::new();
    d.extend_from_slice(b"GTDB");
    d.extend_from_slice(&le32(0x0001_0008));
    d.extend_from_slice(&le32(rows.len() as u32));
    d.extend_from_slice(&le32(cols.len() as u32));
    d.extend_from_slice(&le32(stride));
    d.extend_from_slice(&le32(0));
    for &(off, bits) in cols {
        d.extend_from_slice(&off.to_le_bytes());
        d.extend_from_slice(&bits.to_le_bytes());
        d.extend_from_slice(&le32(0));
    }
    for r in rows {
        d.extend_from_slice(r);
    }
    d.extend_from_slice(strings);
    d
}

/// An `.idi` file whose keys carry these row ids.
fn idi(ids: &[u32], declared: u32) -> Vec<u8> {
    let mut d = Vec::new();
    d.extend_from_slice(b"GTID");
    d.extend_from_slice(&le32(declared));
    d.extend_from_slice(&le32(0));
    d.extend_from_slice(&le32(7));
    for &id in ids {
        d.extend_from_slice(&le32(0));
        d.extend_from_slice(&le32(id));
    }
    d
}

fn sample_table() -> SpecDBTable {
    let rows = vec![
        vec![0x10, 0, 0, 0, 0x34, 0x12, 0xab, 0],
        vec![4, 0, 0, 0, 1, 0, 0x07, 0],
    ];
    let strings = [0u8, 0, 0, 0, 6, 0, 0, 0, b'H', 0, b'i', 0, 0, 0];
    let data = dbt(&[(0, 32), (4, 16), (6, 4)], &rows, &strings);
    let index = idi(&[100, 200, 100], 3);
    SpecDBTable::from_files(&data, Some(&index), "SAMPLE").unwrap()
}

#[test]
fn short_dbt_is_rejected() {
    let err = SpecDBTable::from_files(&[0u8; 23], None, "X").err().unwrap();
    assert_eq!(err, "DBT file too short");
}

#[test]
fn bad_dbt_magic_is_reported_in_hex() {
    let mut data = vec![0u8; 24];
    data[0..4].copy_from_slice(b"XYZ\x01");
    let err = SpecDBTable::from_files(&data, None, "X").err().unwrap();
    assert_eq!(err, "Bad DBT magic: [58, 59, 5A, 01]");
}

#[test]
fn header_rows_and_string_block_are_read() {
    let t = sample_table();
    assert_eq!(t.name, "SAMPLE");
    assert_eq!(t.row_count, 2);
    assert_eq!(t.col_count, 3);
    assert_eq!(t.stride, 8);
    assert_eq!(t.columns.len(), 3);
    assert_eq!(t.rows.len(), 2);
    assert_eq!(t.row_count(), 2);
    assert_eq!(t.string_offset, 64);
    assert_eq!(t.string_block.len(), 14);
    assert_eq!(t.rows[1], vec![4, 0, 0, 0, 1, 0, 0x07, 0]);
}

#[test]
fn columns_are_read_by_bit_size() {
    let t = sample_table();
    let c = t.columns.clone();
    assert_eq!(t.read_column_value(0, &c[0]), 16);
    assert_eq!(t.read_column_value(0, &c[1]), 0x1234);
    assert_eq!(t.read_column_value(0, &c[2]), 0xb);
    assert_eq!(t.read_column_value(1, &c[2]), 7);
    assert_eq!(t.read_column_value(2, &c[0]), 0);
    assert_eq!(t.read_u32(0, &c[1]), 0x1234);
    assert_eq!(t.read_u16(0, &c[1]), 0x1234);
    assert_eq!(t.read_i32(1, &c[0]), 4);
    let byte = ColumnDef { offset: 6, col_type: 8 };
    assert_eq!(t.read_column_value(0, &byte), 0xab);
    let none = ColumnDef { offset: 0, col_type: 0 };
    assert_eq!(t.read_column_value(0, &none), 0);
    let odd = ColumnDef { offset: 0, col_type: 12 };
    assert_eq!(t.read_column_value(0, &odd), 0);
    let past = ColumnDef { offset: 6, col_type: 32 };
    assert_eq!(t.read_column_value(0, &past), 0);
}

#[test]
fn named_field_readers_use_their_columns() {
    let t = sample_table();
    assert_eq!(t.car_default_parts(0), 16);
    assert_eq!(t.car_price(0), 0x00ab_1234);
    assert_eq!(t.car_year(0), 0);
    assert_eq!(t.chassis_length(1), 4);
    assert_eq!(t.chassis_width(0), 0x1234);
    assert_eq!(t.chassis_height(0), 0xb);
    assert_eq!(t.chassis_mass(0), 0);
    assert_eq!(t.drivetrain_type(1), 4);
    assert_eq!(t.displacement_cc(0), 16);
    assert_eq!(t.engine_sound_id(0), 16);
    assert_eq!(t.engine_ps_value(0), 0);
    assert_eq!(t.car_power_max(0), 0);
    assert_eq!(t.car_maker(0), 0);
    assert_eq!(t.race_prize_1st(0), 0);
    assert_eq!(t.car_price(5), 0);
}

#[test]
fn strings_are_utf16_without_trailing_nuls() {
    let t = sample_table();
    assert_eq!(t.read_string(4), "Hi");
    assert_eq!(t.read_string(0), "");
    assert_eq!(t.read_string(12), "");
    assert_eq!(t.read_string(100), "");
    assert_eq!(t.race_course_label(1), "Hi");
    assert_eq!(t.course_name_eng(1), "");
    assert_eq!(t.car_name_by_row(1), "Hi");
}

#[test]
fn car_name_falls_back_to_row_bytes() {
    let t = sample_table();
    assert_eq!(t.car_name_by_row(0), "\u{10}");
    assert_eq!(t.car_name_by_row(9), "");
}

#[test]
fn index_maps_row_ids_to_the_last_key() {
    let t = sample_table();
    assert_eq!(t.get_row_by_id(100), Some(2));
    assert_eq!(t.get_row_by_id(200), Some(1));
    assert_eq!(t.get_row_by_id(5), None);
}

#[test]
fn index_count_is_cut_to_the_keys_present() {
    let rows = vec![vec![0u8; 4]];
    let data = dbt(&[(0, 32)], &rows, &[]);
    let index = idi(&[9, 8], 50);
    let t = SpecDBTable::from_files(&data, Some(&index), "T").unwrap();
    assert_eq!(t.get_row_by_id(8), Some(1));
    let bad = b"GTIX\0\0\0\0\0\0\0\0\0\0\0\0".to_vec();
    let t2 = SpecDBTable::from_files(&data, Some(&bad), "T").unwrap();
    assert_eq!(t2.get_row_by_id(0), None);
}

#[test]
fn declared_rows_are_cut_to_the_file() {
    let mut data = dbt(&[(0, 8)], &[vec![1, 2], vec![3, 4]], &[]);
    data[8..12].copy_from_slice(&le32(9));
    let t = SpecDBTable::from_files(&data, None, "T").unwrap();
    assert_eq!(t.row_count, 9);
    assert_eq!(t.rows.len(), 2);
    assert!(t.string_block.is_empty());
}

#[test]
fn database_finds_tables_by_name_and_replaces_on_store() {
    let mut db = SpecDB::new();
    assert!(db.get_table("SAMPLE").is_none());
    db.set_base_path("specdb");
    assert_eq!(db.base_path, "specdb");
    db.insert_table(sample_table());
    assert_eq!(db.get_table("SAMPLE").unwrap().rows.len(), 2);
    assert!(db.get_table("OTHER").is_none());
    let data = dbt(&[(0, 32)], &[vec![1, 0, 0, 0]], &[]);
    db.insert_table(SpecDBTable::from_files(&data, None, "SAMPLE").unwrap());
    assert_eq!(db.tables.len(), 1);
    assert_eq!(db.get_table("SAMPLE").unwrap().rows.len(), 1);
}

fn car_database() -> SpecDB {
    let mut db = SpecDB::new();
    // GENERIC_CAR: row 0 names default parts id 77.
    let car = dbt(&[(0, 32)], &[vec![77, 0, 0, 0]], &[]);
    db.insert_table(SpecDBTable::from_files(&car, None, "GENERIC_CAR").unwrap());
    // DEFAULT_PARTS: one row, 15 byte columns: column k holds k + 1.
    let cols: Vec<(u16, u16)> = (0..15).map(|k| (k as u16, 8u16)).collect();
    let row: Vec<u8> = (0..16).map(|k| k as u8 + 1).collect();
    let parts = dbt(&cols, &[row], &[]);
    db.insert_table(SpecDBTable::from_files(&parts, Some(&idi(&[77], 1)), "DEFAULT_PARTS").unwrap());
    for (name, id) in [("ENGINE", 12u32), ("CHASSIS", 5), ("DRIVETRAIN", 10), ("DISPLACEMENT", 15)] {
        let t = dbt(&[(0, 32)], &[vec![0; 4], vec![0; 4]], &[]);
        db.insert_table(SpecDBTable::from_files(&t, Some(&idi(&[999, id], 2)), name).unwrap());
    }
    db
}

#[test]
fn car_parts_follow_the_default_parts_row() {
    let db = car_database();
    assert_eq!(car_to_engine(&db, 0), Some(1));
    assert_eq!(car_to_chassis(&db, 0), Some(1));
    assert_eq!(car_to_drivetrain(&db, 0), Some(1));
    assert_eq!(car_to_displacement(&db, 0), Some(1));
    assert_eq!(car_to_chassis(&db, 1), None);
    assert_eq!(car_to_engine(&SpecDB::new(), 0), None);
}

#[test]
fn table_files_are_named_after_the_table() {
    assert_eq!(gtpsp::specdb::dbt_table_name("CAR.dbt"), Some("CAR".to_string()));
    assert_eq!(gtpsp::specdb::dbt_table_name("x.dbt.dbt"), Some("x".to_string()));
    assert_eq!(gtpsp::specdb::dbt_table_name(".dbt"), Some(String::new()));
    assert_eq!(gtpsp::specdb::dbt_table_name("CAR.idi"), None);
    assert_eq!(gtpsp::specdb::dbt_table_name("dbt"), None);
    assert_eq!(
        gtpsp::specdb::table_file_paths("db", "ENGINE"),
        ("db/ENGINE.dbt".to_string(), "db/ENGINE.idi".to_string())
    );
}
