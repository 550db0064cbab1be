//! Following a car's default parts through the SpecDB to the rows of its engine,
//! chassis, drivetrain and displacement, and the car, course and race values that the
//! spec-database natives give, each with the default they fall back on.
use vstd::prelude::*;
use vstd::string::StringExecFns;
use vstd::string::StrSliceExecFns;
use crate::bytes::{le_u16, le_u32, read_u16, read_u32};
use crate::specdb::{SpecDB, SpecDBTable, lookup_table};
use crate::text::{decimal_text, push_decimal, push_padded_magnitude, zero_padded};

verus! {

/// The GENERIC_CAR table and, when `car_idx` is one of its rows, the DEFAULT_PARTS table
/// with the row that the car's default-parts id leads to.
pub open spec fn default_parts_of(db: Seq<SpecDBTable>, car_idx: int) -> Option<(SpecDBTable, usize)> {
    match lookup_table(db, "GENERIC_CAR"@) {
        None => None,
        Some(car) => if car_idx >= car.rows@.len() {
            None
        } else {
            let dp_id = car.default_parts_id(car_idx);
            match lookup_table(db, "DEFAULT_PARTS"@) {
                None => None,
                Some(dp) => if dp.id_to_row@.contains_key(dp_id) {
                    Some((dp, dp.id_to_row@[dp_id]))
                } else {
                    None
                },
            }
        },
    }
}

/// The row of table `part` whose id column `col` of the car's default parts holds.
pub open spec fn car_part_row(db: Seq<SpecDBTable>, car_idx: int, col: int, part: Seq<char>) -> Option<usize> {
    match default_parts_of(db, car_idx) {
        None => None,
        Some((dp, dp_row)) => if dp.columns@.len() <= col {
            None
        } else {
            let id = dp.column_at(dp_row as int, dp.columns@[col]);
            match lookup_table(db, part) {
                None => None,
                Some(t) => if t.id_to_row@.contains_key(id) {
                    Some(t.id_to_row@[id])
                } else {
                    None
                },
            }
        },
    }
}

/// Follows column `col` of the car's DEFAULT_PARTS row to a row of `part`.
fn car_part(sd: &SpecDB, car_idx: usize, col: usize, part: &str) -> (r: Option<usize>)
    ensures
        r == car_part_row(sd.tables@, car_idx as int, col as int, part@),
{
    let car = match sd.get_table("GENERIC_CAR") {
        Some(t) => t,
        None => return None,
    };
    if car_idx >= car.row_count() {
        return None;
    }
    let dp_id = car.car_default_parts(car_idx);
    let dp = match sd.get_table("DEFAULT_PARTS") {
        Some(t) => t,
        None => return None,
    };
    let dp_row = match dp.get_row_by_id(dp_id) {
        Some(r) => r,
        None => return None,
    };
    if dp.columns.len() <= col {
        return None;
    }
    let id = dp.read_column_value(dp_row, &dp.columns[col]);
    let t = match sd.get_table(part) {
        Some(t) => t,
        None => return None,
    };
    t.get_row_by_id(id)
}

/// The ENGINE row of car `car_idx`: DEFAULT_PARTS column 11. The car's DEFAULT_PARTS
/// row must be one of that table's rows.
pub fn car_to_engine(sd: &SpecDB, car_idx: usize) -> (r: Option<usize>)
    requires
        default_parts_of(sd.tables@, car_idx as int) matches Some((dp, row)) ==> row
            < dp.rows@.len(),
    ensures
        r == car_part_row(sd.tables@, car_idx as int, 11, "ENGINE"@),
{
    car_part(sd, car_idx, 11, "ENGINE")
}

/// The CHASSIS row of car `car_idx`: DEFAULT_PARTS column 4.
pub fn car_to_chassis(sd: &SpecDB, car_idx: usize) -> (r: Option<usize>)
    ensures
        r == car_part_row(sd.tables@, car_idx as int, 4, "CHASSIS"@),
{
    car_part(sd, car_idx, 4, "CHASSIS")
}

/// The DRIVETRAIN row of car `car_idx`: DEFAULT_PARTS column 9.
pub fn car_to_drivetrain(sd: &SpecDB, car_idx: usize) -> (r: Option<usize>)
    ensures
        r == car_part_row(sd.tables@, car_idx as int, 9, "DRIVETRAIN"@),
{
    car_part(sd, car_idx, 9, "DRIVETRAIN")
}

/// The DISPLACEMENT row of car `car_idx`: DEFAULT_PARTS column 14.
pub fn car_to_displacement(sd: &SpecDB, car_idx: usize) -> (r: Option<usize>)
    ensures
        r == car_part_row(sd.tables@, car_idx as int, 14, "DISPLACEMENT"@),
{
    car_part(sd, car_idx, 14, "DISPLACEMENT")
}

/// The GENERIC_CAR fields that the getCar… natives read straight from a car's row.
#[derive(Clone, Copy, PartialEq, Eq, Structural)]
pub enum CarField {
    Price,
    PowerMax,
    PowerMin,
    Year,
    Category,
    Country,
}

/// Where a field lies in a GENERIC_CAR row: its byte offset and its width in bits.
pub open spec fn car_field_layout(f: CarField) -> (int, int) {
    match f {
        CarField::Price => (8, 32),
        CarField::PowerMax => (14, 16),
        CarField::PowerMin => (16, 16),
        CarField::Year => (12, 16),
        CarField::Category => (21, 8),
        CarField::Country => (18, 8),
    }
}

/// The little-endian number of `bits` bits at byte `off` of `d`, as a signed 32-bit
/// number; 0 when the row is too short for it.
pub open spec fn row_field(d: Seq<u8>, off: int, bits: int) -> i32 {
    if bits == 32 && d.len() >= off + 4 {
        le_u32(d, off) as i32
    } else if bits == 16 && d.len() >= off + 2 {
        le_u16(d, off) as i32
    } else if bits == 8 && d.len() > off {
        d[off] as i32
    } else {
        0
    }
}

/// Field `f` of GENERIC_CAR row `idx`; 0 without that table or row.
pub open spec fn car_field_of(db: Seq<SpecDBTable>, f: CarField, idx: int) -> i32 {
    match lookup_table(db, "GENERIC_CAR"@) {
        Some(t) => if 0 <= idx < t.rows@.len() {
            row_field(t.rows@[idx]@, car_field_layout(f).0, car_field_layout(f).1)
        } else {
            0
        },
        None => 0,
    }
}

/// Field `f` of car `idx` (see `car_field_of`).
pub fn car_field(sd: &SpecDB, f: CarField, idx: usize) -> (r: i32)
    ensures
        r == car_field_of(sd.tables@, f, idx as int),
{
    let (off, bits): (usize, u16) = match f {
        CarField::Price => (8, 32),
        CarField::PowerMax => (14, 16),
        CarField::PowerMin => (16, 16),
        CarField::Year => (12, 16),
        CarField::Category => (21, 8),
        CarField::Country => (18, 8),
    };
    let t = match sd.get_table("GENERIC_CAR") {
        Some(t) => t,
        None => return 0,
    };
    if idx >= t.row_count() {
        return 0;
    }
    let d = t.rows[idx].as_slice();
    if bits == 32 && d.len() >= off + 4 {
        read_u32(d, off) as i32
    } else if bits == 16 && d.len() >= off + 2 {
        read_u16(d, off) as i32
    } else if bits == 8 && d.len() > off {
        d[off] as i32
    } else {
        0
    }
}

/// Value column `k` of the row of table `part` that car `idx` leads to through
/// DEFAULT_PARTS column `col`, as a signed number; `default` when there is none.
pub open spec fn via_part(
    db: Seq<SpecDBTable>,
    idx: int,
    col: int,
    part: Seq<char>,
    k: int,
    default: i32,
) -> i32 {
    match car_part_row(db, idx, col, part) {
        Some(row) => match lookup_table(db, part) {
            Some(t) => t.field(row as int, k) as i32,
            None => default,
        },
        None => default,
    }
}

/// GENERIC_CAR column `k` of row `idx` as a signed number, or `default` without that
/// table or row.
pub open spec fn car_column_or(db: Seq<SpecDBTable>, idx: int, k: int, default: i32) -> i32 {
    match lookup_table(db, "GENERIC_CAR"@) {
        Some(t) => if 0 <= idx < t.rows@.len() {
            t.field(idx, k) as i32
        } else {
            default
        },
        None => default,
    }
}

/// The catalog power of car `idx` (getCarCatalogPs and getPower): its maximum power,
/// 200 without one.
pub fn car_catalog_ps(sd: &SpecDB, idx: usize) -> (r: i32)
    ensures
        r == car_column_or(sd.tables@, idx as int, 3, 200),
{
    match sd.get_table("GENERIC_CAR") {
        Some(t) => if idx < t.row_count() {
            t.car_power_max(idx) as i32
        } else {
            200
        },
        None => 200,
    }
}

/// The category of car `idx`, 0 without one.
pub fn car_category(sd: &SpecDB, idx: usize) -> (r: i32)
    ensures
        r == (match lookup_table(sd.tables@, "GENERIC_CAR"@) {
            Some(t) => if idx < t.rows@.len() { t.field(idx as int, 8) as u8 as i32 } else { 0 },
            None => 0,
        }),
{
    match sd.get_table("GENERIC_CAR") {
        Some(t) => if idx < t.row_count() {
            t.car_category(idx) as i32
        } else {
            0
        },
        None => 0,
    }
}

/// The catalog torque of car `idx`: its engine's torque, 200 without one.
pub fn car_catalog_tq(sd: &SpecDB, idx: usize) -> (r: i32)
    requires
        default_parts_of(sd.tables@, idx as int) matches Some((dp, row)) ==> row
            < dp.rows@.len(),
    ensures
        r == via_part(sd.tables@, idx as int, 11, "ENGINE"@, 9, 200),
{
    match car_to_engine(sd, idx) {
        Some(e) => match sd.get_table("ENGINE") {
            Some(t) => t.engine_torque_value(e) as i32,
            None => 200,
        },
        None => 200,
    }
}

/// The catalog mass of car `idx`: its chassis's mass, 1200 without one.
pub fn car_catalog_ms(sd: &SpecDB, idx: usize) -> (r: i32)
    ensures
        r == via_part(sd.tables@, idx as int, 4, "CHASSIS"@, 3, 1200),
{
    match car_to_chassis(sd, idx) {
        Some(c) => match sd.get_table("CHASSIS") {
            Some(t) => t.chassis_mass(c) as i32,
            None => 1200,
        },
        None => 1200,
    }
}

/// The weight of car `idx` (getWeight): its chassis's mass, 1300 without one.
pub fn car_weight(sd: &SpecDB, idx: usize) -> (r: i32)
    ensures
        r == via_part(sd.tables@, idx as int, 4, "CHASSIS"@, 3, 1300),
{
    match car_to_chassis(sd, idx) {
        Some(c) => match sd.get_table("CHASSIS") {
            Some(t) => t.chassis_mass(c) as i32,
            None => 1300,
        },
        None => 1300,
    }
}

/// The catalog length of car `idx`: its chassis's length, 4600 without one.
pub fn car_catalog_length(sd: &SpecDB, idx: usize) -> (r: i32)
    ensures
        r == via_part(sd.tables@, idx as int, 4, "CHASSIS"@, 0, 4600),
{
    match car_to_chassis(sd, idx) {
        Some(c) => match sd.get_table("CHASSIS") {
            Some(t) => t.chassis_length(c) as i32,
            None => 4600,
        },
        None => 4600,
    }
}

/// The catalog width of car `idx`: its chassis's width, 1745 without one.
pub fn car_catalog_width(sd: &SpecDB, idx: usize) -> (r: i32)
    ensures
        r == via_part(sd.tables@, idx as int, 4, "CHASSIS"@, 1, 1745),
{
    match car_to_chassis(sd, idx) {
        Some(c) => match sd.get_table("CHASSIS") {
            Some(t) => t.chassis_width(c) as i32,
            None => 1745,
        },
        None => 1745,
    }
}

/// The catalog height of car `idx`: its chassis's height, 1200 without one.
pub fn car_catalog_height(sd: &SpecDB, idx: usize) -> (r: i32)
    ensures
        r == via_part(sd.tables@, idx as int, 4, "CHASSIS"@, 2, 1200),
{
    match car_to_chassis(sd, idx) {
        Some(c) => match sd.get_table("CHASSIS") {
            Some(t) => t.chassis_height(c) as i32,
            None => 1200,
        },
        None => 1200,
    }
}

/// The catalog displacement of car `idx`, in cc: 2000 without one.
pub fn car_catalog_displacement(sd: &SpecDB, idx: usize) -> (r: i32)
    ensures
        r == via_part(sd.tables@, idx as int, 14, "DISPLACEMENT"@, 0, 2000),
{
    match car_to_displacement(sd, idx) {
        Some(d) => match sd.get_table("DISPLACEMENT") {
            Some(t) => t.displacement_cc(d) as i32,
            None => 2000,
        },
        None => 2000,
    }
}

/// The drivetrain type of car `idx`, 0 without one.
pub fn car_drive_train(sd: &SpecDB, idx: usize) -> (r: i32)
    ensures
        r == via_part(sd.tables@, idx as int, 9, "DRIVETRAIN"@, 0, 0),
{
    match car_to_drivetrain(sd, idx) {
        Some(d) => match sd.get_table("DRIVETRAIN") {
            Some(t) => t.drivetrain_type(d) as i32,
            None => 0,
        },
        None => 0,
    }
}

/// The rev-limit byte (byte 0x55) of the ENGINE row of car `idx`, when there is such a
/// row and it is long enough.
pub open spec fn rev_limit_byte(db: Seq<SpecDBTable>, idx: int) -> Option<u8> {
    match car_part_row(db, idx, 11, "ENGINE"@) {
        Some(row) => match lookup_table(db, "ENGINE"@) {
            Some(t) => if row < t.rows@.len() && t.rows@[row as int]@.len() > 0x55 {
                Some(t.rows@[row as int]@[0x55])
            } else {
                None
            },
            None => None,
        },
        None => None,
    }
}

/// Car `idx`'s engine row, when it has one, lies within the ENGINE table (and its
/// DEFAULT_PARTS row within that table): the rpm natives index those rows.
pub open spec fn engine_rows_in_range(db: Seq<SpecDBTable>, idx: int) -> bool {
    &&& default_parts_of(db, idx) matches Some((dp, row)) ==> row < dp.rows@.len()
    &&& car_part_row(db, idx, 11, "ENGINE"@) matches Some(row) ==> (lookup_table(db, "ENGINE"@) matches Some(t) ==> row < t.rows@.len())
}

fn rev_limit(sd: &SpecDB, idx: usize) -> (r: Option<u8>)
    requires
        engine_rows_in_range(sd.tables@, idx as int),
    ensures
        r == rev_limit_byte(sd.tables@, idx as int),
{
    match car_to_engine(sd, idx) {
        Some(e) => match sd.get_table("ENGINE") {
            Some(t) => {
                let d = &t.rows[e];
                if d.len() > 0x55 {
                    Some(d[0x55])
                } else {
                    None
                }
            },
            None => None,
        },
        None => None,
    }
}

/// The rpm of peak power of car `idx`: its rev limit times 100, 6500 without one.
pub fn car_catalog_ps_rpm(sd: &SpecDB, idx: usize) -> (r: i32)
    requires
        engine_rows_in_range(sd.tables@, idx as int),
    ensures
        r == (match rev_limit_byte(sd.tables@, idx as int) {
            Some(b) => b as i32 * 100,
            None => 6500,
        }),
{
    match rev_limit(sd, idx) {
        Some(b) => (b as i32) * 100,
        None => 6500,
    }
}

/// The rpm of peak torque of car `idx`: 70% of its rev limit times 100, rounded down,
/// 4500 without one.
pub fn car_catalog_tq_rpm(sd: &SpecDB, idx: usize) -> (r: i32)
    requires
        engine_rows_in_range(sd.tables@, idx as int),
    ensures
        r == (match rev_limit_byte(sd.tables@, idx as int) {
            Some(b) => b as i32 * 70 / 100,
            None => 4500,
        }),
{
    match rev_limit(sd, idx) {
        Some(b) => (b as i32) * 70 / 100,
        None => 4500,
    }
}

/// `prefix` followed by the decimal digits of `n`.
fn prefixed_number(prefix: &str, n: usize) -> (r: String)
    ensures
        r@ == prefix@ + decimal_text(n as nat),
{
    let mut s = String::from_str(prefix);
    push_decimal(&mut s, n as u64);
    s
}

/// The name of car `idx` (getCarName): its CAR_NAME_american name when it has a
/// non-empty one, else "Car_" and the index.
pub open spec fn car_name_of(db: Seq<SpecDBTable>, idx: int) -> Seq<char> {
    match lookup_table(db, "CAR_NAME_american"@) {
        Some(n) => if 0 <= idx < n.rows@.len() && n.car_name(idx).len() > 0 {
            n.car_name(idx)
        } else {
            "Car_"@ + decimal_text(idx as nat)
        },
        None => "Car_"@ + decimal_text(idx as nat),
    }
}

/// The name of car `idx` (see `car_name_of`).
pub fn car_name(sd: &SpecDB, idx: usize) -> (r: String)
    ensures
        r@ == car_name_of(sd.tables@, idx as int),
{
    if let Some(n) = sd.get_table("CAR_NAME_american") {
        if idx < n.row_count() {
            let name = n.car_name_by_row(idx);
            if name.as_str().unicode_len() > 0 {
                return name;
            }
        }
    }
    prefixed_number("Car_", idx)
}

/// The name of course `idx` (getCourseName): the English name of its COURSE row when
/// that is not empty, else "Course_" and the index.
pub open spec fn course_name_of(db: Seq<SpecDBTable>, idx: int) -> Seq<char> {
    match lookup_table(db, "COURSE"@) {
        Some(t) => if 0 <= idx < t.rows@.len() && t.string_field(idx, 2).len() > 0 {
            t.string_field(idx, 2)
        } else {
            "Course_"@ + decimal_text(idx as nat)
        },
        None => "Course_"@ + decimal_text(idx as nat),
    }
}

/// The name of course `idx` (see `course_name_of`).
pub fn course_name(sd: &SpecDB, idx: usize) -> (r: String)
    ensures
        r@ == course_name_of(sd.tables@, idx as int),
{
    if let Some(t) = sd.get_table("COURSE") {
        if idx < t.row_count() {
            let name = t.course_name_eng(idx);
            if name.as_str().unicode_len() > 0 {
                return name;
            }
        }
    }
    prefixed_number("Course_", idx)
}

/// The label of race `idx` (getRaceLabel): the course label of its RACE row when that
/// is not empty, else "Race_" and the index.
pub open spec fn race_label_of(db: Seq<SpecDBTable>, idx: int) -> Seq<char> {
    match lookup_table(db, "RACE"@) {
        Some(t) => if 0 <= idx < t.rows@.len() && t.string_field(idx, 0).len() > 0 {
            t.string_field(idx, 0)
        } else {
            "Race_"@ + decimal_text(idx as nat)
        },
        None => "Race_"@ + decimal_text(idx as nat),
    }
}

/// The label of race `idx` (see `race_label_of`).
pub fn race_label(sd: &SpecDB, idx: usize) -> (r: String)
    ensures
        r@ == race_label_of(sd.tables@, idx as int),
{
    if let Some(t) = sd.get_table("RACE") {
        if idx < t.row_count() {
            let label = t.race_course_label(idx);
            if label.as_str().unicode_len() > 0 {
                return label;
            }
        }
    }
    prefixed_number("Race_", idx)
}

/// The label of car `idx` (getCarLabel): "CAR" and the index zero-padded to three places
/// for a GENERIC_CAR row, else "CAR000".
pub fn car_label(sd: &SpecDB, idx: usize) -> (r: String)
    ensures
        r@ == (match lookup_table(sd.tables@, "GENERIC_CAR"@) {
            Some(t) => if idx < t.rows@.len() {
                "CAR"@ + zero_padded(idx as int, 3)
            } else {
                "CAR000"@
            },
            None => "CAR000"@,
        }),
{
    if let Some(t) = sd.get_table("GENERIC_CAR") {
        if idx < t.row_count() {
            let mut s = String::from_str("CAR");
            push_padded_magnitude(&mut s, false, idx as u64, 3);
            return s;
        }
    }
    String::from_str("CAR000")
}

/// The short name of car `idx` (getCarShortName): "C" and the car's place among the
/// GENERIC_CAR rows, counted from one and wrapping around, zero-padded to three places;
/// "C000" without that table. The table must not be empty.
pub fn car_short_name(sd: &SpecDB, idx: usize) -> (r: String)
    requires
        lookup_table(sd.tables@, "GENERIC_CAR"@) matches Some(t) ==> t.rows@.len() > 0,
    ensures
        r@ == (match lookup_table(sd.tables@, "GENERIC_CAR"@) {
            Some(t) => "C"@ + zero_padded(idx as int % t.rows@.len() as int + 1, 3),
            None => "C000"@,
        }),
{
    match sd.get_table("GENERIC_CAR") {
        Some(t) => {
            let place = idx % t.row_count() + 1;
            let mut s = String::from_str("C");
            push_padded_magnitude(&mut s, false, place as u64, 3);
            s
        },
        None => String::from_str("C000"),
    }
}

/// The car labels (getCarLabelList): "car_" and the row number for each of the first
/// GENERIC_CAR rows, at most 837 of them; none without that table.
pub fn car_label_list(sd: &SpecDB) -> (r: Vec<String>)
    ensures
        r@.len() == (match lookup_table(sd.tables@, "GENERIC_CAR"@) {
            Some(t) => if t.rows@.len() < 837 { t.rows@.len() as int } else { 837 },
            None => 0,
        }),
        forall|i: int| 0 <= i < r@.len() ==> #[trigger] r@[i]@ == "car_"@ + decimal_text(i as nat),
{
    let mut labels: Vec<String> = Vec::new();
    if let Some(t) = sd.get_table("GENERIC_CAR") {
        let n = if t.row_count() < 837 {
            t.row_count()
        } else {
            837
        };
        let mut row: usize = 0;
        while row < n
            invariant
                row <= n,
                labels@.len() == row,
                forall|i: int| 0 <= i < row ==> #[trigger] labels@[i]@ == "car_"@ + decimal_text(i as nat),
            decreases n - row,
        {
            labels.push(prefixed_number("car_", row));
            row = row + 1;
        }
    }
    labels
}

/// The number of colour variations a car offers (getCarVariation): the VARIATION row
/// count (1 without that table) modulo 10, plus one.
pub fn car_variation(sd: &SpecDB) -> (r: i32)
    ensures
        r == (match lookup_table(sd.tables@, "VARIATION"@) {
            Some(t) => t.rows@.len() % 10 + 1,
            None => 2,
        }),
{
    let count = match sd.get_table("VARIATION") {
        Some(t) => t.row_count(),
        None => 1,
    };
    (count % 10 + 1) as i32
}

/// The opponent car codes (getOpponentCars): the first four bytes, as a little-endian
/// number, of each of the first ENEMY_CARS rows (at most 12) that has four; none
/// without that table.
pub open spec fn opponent_codes(rows: Seq<Vec<u8>>, n: int) -> Seq<u32>
    decreases n,
{
    if n <= 0 {
        Seq::empty()
    } else if rows[n - 1]@.len() >= 4 {
        opponent_codes(rows, n - 1).push(le_u32(rows[n - 1]@, 0))
    } else {
        opponent_codes(rows, n - 1)
    }
}

/// The opponent car codes (see `opponent_codes`).
pub fn opponent_cars(sd: &SpecDB) -> (r: Vec<u32>)
    ensures
        r@ == (match lookup_table(sd.tables@, "ENEMY_CARS"@) {
            Some(t) => opponent_codes(t.rows@, if t.rows@.len() < 12 { t.rows@.len() as int } else { 12 }),
            None => Seq::empty(),
        }),
{
    let mut cars: Vec<u32> = Vec::new();
    if let Some(t) = sd.get_table("ENEMY_CARS") {
        let n = if t.row_count() < 12 {
            t.row_count()
        } else {
            12
        };
        let mut row: usize = 0;
        while row < n
            invariant
                row <= n <= t.rows@.len(),
                cars@ == opponent_codes(t.rows@, row as int),
            decreases n - row,
        {
            let d = t.rows[row].as_slice();
            if d.len() >= 4 {
                cars.push(read_u32(d, 0));
            }
            row = row + 1;
        }
    }
    cars
}

} // verus!
