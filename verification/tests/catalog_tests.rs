use gtpsp::gtengine::{
    car_catalog_displacement, car_catalog_height, car_catalog_length, car_catalog_ms,
    car_catalog_ps, car_catalog_ps_rpm, car_catalog_tq, car_catalog_tq_rpm, car_catalog_width,
    car_category, car_drive_train, car_field, car_label, car_label_list, car_name,
    car_short_name, car_variation, car_weight, course_name, opponent_cars, race_label, CarField,
};
use gtpsp::specdb::{SpecDB, SpecDBTable};

fn le32(v: u32) -> [u8; 4] {
    v.to_le_bytes()
}

/// A `.dbt` file with the given column descriptors, rows (all of one stride) and string block.
fn dbt(cols: &[(u16, u16)], rows: &[Vec<u8>], strings: &[u8]) -> Vec<u8> {
    let stride = rows.first().map(|r| r.len()).unwrap_or(0) as u32;
    let mut d = Vec::new();
    d.extend_from_slice(b"GTDB");
    d.extend_from_slice(&le32(0x0001_0008));
    d.extend_from_slice(&le32(rows.len() as u32));
    d.extend_from_slice(&le32(cols.len() as u32));
    d.extend_from_slice(&le32(stride));
    d.extend_from_slice(&le32(0));
    for &(off, bits) in cols {
        d.extend_from_slice(&off.to_le_bytes());
        d.extend_from_slice(&bits.to_le_bytes());
        d.extend_from_slice(&le32(0));
    }
    for r in rows {
        d.extend_from_slice(r);
    }
    d.extend_from_slice(strings);
    d
}

/// An `.idi` file whose keys carry these row ids.
fn idi(ids: &[u32]) -> Vec<u8> {
    let mut d = Vec::new();
    d.extend_from_slice(b"GTID");
    d.extend_from_slice(&le32(ids.len() as u32));
    d.extend_from_slice(&le32(0));
    d.extend_from_slice(&le32(7));
    for &id in ids {
        d.extend_from_slice(&le32(0));
        d.extend_from_slice(&le32(id));
    }
    d
}

fn table(cols: &[(u16, u16)], rows: &[Vec<u8>], strings: &[u8], ids: Option<&[u32]>, name: &str) -> SpecDBTable {
    let data = dbt(cols, rows, strings);
    match ids {
        Some(ids) => SpecDBTable::from_files(&data, Some(&idi(ids)), name).unwrap(),
        None => SpecDBTable::from_files(&data, None, name).unwrap(),
    }
}

/// "Hi" as a string-block entry at offset 4.
const STRINGS: [u8; 14] = [0, 0, 0, 0, 6, 0, 0, 0, b'H', 0, b'i', 0, 0, 0];

fn catalog() -> SpecDB {
    let mut db = SpecDB::new();
    // GENERIC_CAR row 0: default parts 77, price 25000, year 2004, power 280/100,
    // country 2, category 5. Row 1 is all zeros.
    let mut car = vec![0u8; 24];
    car[0] = 77;
    car[8..12].copy_from_slice(&le32(25000));
    car[12..14].copy_from_slice(&2004u16.to_le_bytes());
    car[14..16].copy_from_slice(&280u16.to_le_bytes());
    car[16..18].copy_from_slice(&100u16.to_le_bytes());
    car[18] = 2;
    car[21] = 5;
    let car_cols = [(0, 32), (8, 32), (12, 16), (14, 16), (16, 16), (18, 8), (19, 8), (20, 8), (21, 8)];
    db.insert_table(table(&car_cols, &[car, vec![0u8; 24]], &[], None, "GENERIC_CAR"));
    // DEFAULT_PARTS: column k holds k + 1.
    let cols: Vec<(u16, u16)> = (0..15).map(|k| (k as u16, 8u16)).collect();
    let row: Vec<u8> = (0..16).map(|k| k as u8 + 1).collect();
    db.insert_table(table(&cols, &[row], &[], Some(&[77]), "DEFAULT_PARTS"));
    // ENGINE id 12: torque 300 in column 9, rev-limit byte 75 at 0x55.
    let mut engine = vec![0u8; 0x60];
    engine[0..4].copy_from_slice(&le32(300));
    engine[0x55] = 75;
    let engine_cols: Vec<(u16, u16)> = (0..10).map(|_| (0u16, 32u16)).collect();
    db.insert_table(table(&engine_cols, &[engine], &[], Some(&[12]), "ENGINE"));
    // CHASSIS id 5: length, width, height, mass.
    let mut chassis = vec![0u8; 8];
    for (k, v) in [4200u16, 1700, 1300, 1100].iter().enumerate() {
        chassis[2 * k..2 * k + 2].copy_from_slice(&v.to_le_bytes());
    }
    db.insert_table(table(&[(0, 16), (2, 16), (4, 16), (6, 16)], &[chassis], &[], Some(&[5]), "CHASSIS"));
    db.insert_table(table(&[(0, 32)], &[le32(1).to_vec()], &[], Some(&[10]), "DRIVETRAIN"));
    db.insert_table(table(&[(0, 32)], &[le32(1998).to_vec()], &[], Some(&[15]), "DISPLACEMENT"));
    // CAR_NAME_american: no string block, so the name is the row's text.
    db.insert_table(table(&[(0, 32)], &[b"Skyline\0".to_vec()], &[], None, "CAR_NAME_american"));
    db.insert_table(table(&[(0, 32), (0, 32), (0, 32)], &[le32(4).to_vec()], &STRINGS, None, "COURSE"));
    db.insert_table(table(&[(0, 32)], &[le32(4).to_vec(), le32(0).to_vec()], &STRINGS, None, "RACE"));
    let variations: Vec<Vec<u8>> = (0..13).map(|_| vec![0u8; 4]).collect();
    db.insert_table(table(&[(0, 32)], &variations, &[], None, "VARIATION"));
    let enemies: Vec<Vec<u8>> = (0..14u32).map(|k| le32(100 + k).to_vec()).collect();
    db.insert_table(table(&[(0, 32)], &enemies, &[], None, "ENEMY_CARS"));
    db
}

#[test]
fn car_fields_are_read_from_the_car_row() {
    let db = catalog();
    assert_eq!(car_field(&db, CarField::Price, 0), 25000);
    assert_eq!(car_field(&db, CarField::Year, 0), 2004);
    assert_eq!(car_field(&db, CarField::PowerMax, 0), 280);
    assert_eq!(car_field(&db, CarField::PowerMin, 0), 100);
    assert_eq!(car_field(&db, CarField::Country, 0), 2);
    assert_eq!(car_field(&db, CarField::Category, 0), 5);
    assert_eq!(car_field(&db, CarField::Price, 1), 0);
    assert_eq!(car_field(&db, CarField::Price, 2), 0);
    assert_eq!(car_field(&SpecDB::new(), CarField::Year, 0), 0);
}

#[test]
fn catalog_values_follow_the_default_parts() {
    let db = catalog();
    assert_eq!(car_catalog_ps(&db, 0), 280);
    assert_eq!(car_category(&db, 0), 5);
    assert_eq!(car_catalog_tq(&db, 0), 300);
    assert_eq!(car_catalog_length(&db, 0), 4200);
    assert_eq!(car_catalog_width(&db, 0), 1700);
    assert_eq!(car_catalog_height(&db, 0), 1300);
    assert_eq!(car_catalog_ms(&db, 0), 1100);
    assert_eq!(car_weight(&db, 0), 1100);
    assert_eq!(car_catalog_displacement(&db, 0), 1998);
    assert_eq!(car_drive_train(&db, 0), 1);
    assert_eq!(car_catalog_ps_rpm(&db, 0), 7500);
    assert_eq!(car_catalog_tq_rpm(&db, 0), 52);
}

#[test]
fn catalog_values_fall_back_to_their_defaults() {
    let db = catalog();
    // Car 1 has default parts id 0, which the index does not know.
    assert_eq!(car_catalog_tq(&db, 1), 200);
    assert_eq!(car_catalog_length(&db, 1), 4600);
    assert_eq!(car_catalog_width(&db, 1), 1745);
    assert_eq!(car_catalog_height(&db, 1), 1200);
    assert_eq!(car_catalog_ms(&db, 1), 1200);
    assert_eq!(car_weight(&db, 1), 1300);
    assert_eq!(car_catalog_displacement(&db, 1), 2000);
    assert_eq!(car_drive_train(&db, 1), 0);
    assert_eq!(car_catalog_ps_rpm(&db, 1), 6500);
    assert_eq!(car_catalog_tq_rpm(&db, 1), 4500);
    assert_eq!(car_catalog_ps(&db, 5), 200);
    assert_eq!(car_category(&db, 5), 0);
    let empty = SpecDB::new();
    assert_eq!(car_catalog_ps(&empty, 0), 200);
    assert_eq!(car_variation(&empty), 2);
}

#[test]
fn names_and_labels_fall_back_to_numbered_ones() {
    let db = catalog();
    assert_eq!(car_name(&db, 0), "Skyline");
    assert_eq!(car_name(&db, 3), "Car_3");
    assert_eq!(course_name(&db, 0), "Hi");
    assert_eq!(course_name(&db, 1), "Course_1");
    assert_eq!(race_label(&db, 0), "Hi");
    assert_eq!(race_label(&db, 1), "Race_1");
    assert_eq!(race_label(&SpecDB::new(), 7), "Race_7");
    assert_eq!(car_label(&db, 1), "CAR001");
    assert_eq!(car_label(&db, 2), "CAR000");
    assert_eq!(car_label(&SpecDB::new(), 0), "CAR000");
    assert_eq!(car_short_name(&db, 0), "C001");
    assert_eq!(car_short_name(&db, 3), "C002");
    assert_eq!(car_short_name(&SpecDB::new(), 3), "C000");
}

#[test]
fn car_label_list_numbers_the_cars() {
    let db = catalog();
    assert_eq!(car_label_list(&db), vec!["car_0".to_string(), "car_1".to_string()]);
    assert!(car_label_list(&SpecDB::new()).is_empty());
}

#[test]
fn variations_and_opponents_come_from_their_tables() {
    let db = catalog();
    assert_eq!(car_variation(&db), 4);
    let opponents = opponent_cars(&db);
    assert_eq!(opponents, (100..112u32).collect::<Vec<_>>());
    assert!(opponent_cars(&SpecDB::new()).is_empty());
}
