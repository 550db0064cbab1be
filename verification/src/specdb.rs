//! SpecDB tables: the `.dbt` row store with its column descriptors and string block,
//! and the `.idi` index from row ids to row numbers.
//!
//! `.dbt` layout: magic "GTDB", version, row count (0x08), column count (0x0C),
//! row stride (0x10), padding, then 8-byte column descriptors (u16 offset, u16 bit size),
//! the rows, and a block of length-prefixed UTF-16LE strings.
//! `.idi` layout: magic "GTID", key count (0x04), padding, table id, then 8-byte keys
//! (string offset, row id) from 0x10.
use std::collections::HashMap;
use vstd::prelude::*;
use vstd::string::StringExecFns;
use vstd::string::StrSliceExecFns;
use vstd::arithmetic::power2::{pow2, lemma2_to64, lemma_pow2_unfold, lemma_pow2_strictly_increases, lemma_pow2_pos};
use crate::bytes::{le_u16, le_u32, read_u16, read_u32, copy_range};
use crate::text::{hex_list4, utf8_lossy, decode_utf8_lossy, push_hex_list4};

verus! {

broadcast use vstd::std_specs::hash::group_hash_axioms;

/// One column descriptor: the byte offset of the field in a row and its width in bits
/// (0 = no stored value, below 8 = a bit field in one byte, else 8, 16 or 32).
#[derive(Debug, Clone)]
pub struct ColumnDef {
    pub offset: u16,
    pub col_type: u16,
}

/// A parsed table: the rows that fit in the file, the column descriptors, the string
/// block and the id index.
#[derive(Debug, Clone)]
pub struct SpecDBTable {
    pub name: String,
    pub columns: Vec<ColumnDef>,
    pub stride: u32,
    pub rows: Vec<Vec<u8>>,
    pub id_to_row: HashMap<u32, usize>,
    pub string_block: Vec<u8>,
    pub string_offset: u32,
    pub row_count: u32,
    pub col_count: u32,
}

pub open spec fn min_int(a: int, b: int) -> int {
    if a <= b {
        a
    } else {
        b
    }
}

/// The file starts with "GTDB".
pub open spec fn dbt_magic_ok(d: Seq<u8>) -> bool {
    &&& d[0] == 0x47u8
    &&& d[1] == 0x54u8
    &&& d[2] == 0x44u8
    &&& d[3] == 0x42u8
}

pub open spec fn dbt_row_count(d: Seq<u8>) -> u32 {
    le_u32(d, 8)
}

pub open spec fn dbt_col_count(d: Seq<u8>) -> u32 {
    le_u32(d, 12)
}

pub open spec fn dbt_stride(d: Seq<u8>) -> u32 {
    le_u32(d, 16)
}

/// The number of column descriptors kept: the declared count, cut to those that fit.
pub open spec fn dbt_columns(d: Seq<u8>) -> int {
    min_int(dbt_col_count(d) as int, (d.len() - 24) / 8)
}

/// Descriptor `i`, read at `0x18 + 8 * i`.
pub open spec fn dbt_column(d: Seq<u8>, i: int) -> ColumnDef {
    ColumnDef { offset: le_u16(d, 24 + 8 * i), col_type: le_u16(d, 26 + 8 * i) }
}

/// Where the rows begin: right after the kept descriptors.
pub open spec fn dbt_rows_start(d: Seq<u8>) -> int {
    24 + 8 * dbt_columns(d)
}

/// The number of rows kept: the declared count, cut to the whole rows that fit.
pub open spec fn dbt_rows(d: Seq<u8>) -> int {
    if dbt_stride(d) > 0 && dbt_row_count(d) > 0 {
        min_int(dbt_row_count(d) as int, (d.len() - dbt_rows_start(d)) / (dbt_stride(d) as int))
    } else {
        0
    }
}

/// Row `i`: `stride` bytes from `rows_start + i * stride`.
pub open spec fn dbt_row(d: Seq<u8>, i: int) -> Seq<u8> {
    d.subrange(
        dbt_rows_start(d) + i * dbt_stride(d),
        dbt_rows_start(d) + (i + 1) * dbt_stride(d),
    )
}

/// Where the string block begins: after all declared rows.
pub open spec fn dbt_strings_start(d: Seq<u8>) -> int {
    if dbt_stride(d) > 0 {
        dbt_rows_start(d) + dbt_row_count(d) * dbt_stride(d)
    } else {
        dbt_rows_start(d)
    }
}

/// Everything from the string block's start to the end of the file.
pub open spec fn dbt_string_block(d: Seq<u8>) -> Seq<u8> {
    if dbt_strings_start(d) < d.len() {
        d.subrange(dbt_strings_start(d), d.len() as int)
    } else {
        Seq::empty()
    }
}

/// The offsets that the header declares fit in 32 bits (the string block's start is
/// computed in `u32`).
pub open spec fn dbt_offsets_fit(d: Seq<u8>) -> bool {
    d.len() >= 24 ==> dbt_strings_start(d) <= u32::MAX
}

/// An index file: at least a header, starting with "GTID".
pub open spec fn idi_valid(x: Seq<u8>) -> bool {
    &&& x.len() >= 16
    &&& x[0] == 0x47u8
    &&& x[1] == 0x54u8
    &&& x[2] == 0x49u8
    &&& x[3] == 0x44u8
}

/// The number of keys read: the declared count, cut to the whole keys that fit.
pub open spec fn idi_entries(x: Seq<u8>) -> int {
    min_int(le_u32(x, 4) as int, (x.len() - 16) / 8)
}

/// The row id of key `i`.
pub open spec fn idi_row_id(x: Seq<u8>, i: int) -> u32 {
    le_u32(x, 16 + 8 * i + 4)
}

/// The index after the first `n` keys were entered in order, key `i` mapping its row
/// id to `i` (a later key with the same id replaces an earlier one).
pub open spec fn idi_map_upto(x: Seq<u8>, n: nat) -> Map<u32, usize>
    decreases n,
{
    if n == 0 {
        Map::empty()
    } else {
        idi_map_upto(x, (n - 1) as nat).insert(idi_row_id(x, n - 1), (n - 1) as usize)
    }
}

/// The id index built from an optional `.idi` file: empty without a valid one.
pub open spec fn idi_index(idi: Option<Seq<u8>>) -> Map<u32, usize> {
    match idi {
        Some(x) => if idi_valid(x) {
            idi_map_upto(x, idi_entries(x) as nat)
        } else {
            Map::empty()
        },
        None => Map::empty(),
    }
}

/// The message for a rejected table magic (see `hex_list4`).
fn bad_magic_error(magic: &[u8]) -> (e: String)
    requires
        magic@.len() == 4,
    ensures
        e@ == "Bad DBT magic: "@ + hex_list4(magic@),
{
    let mut e = String::new();
    e.append("Bad DBT magic: ");
    push_hex_list4(&mut e, magic);
    e
}

/// The value of a field of `bits` bits at byte `off` of a row: a little-endian u32, u16
/// or a byte when the field is that wide and fits; the low `bits` bits of the byte at
/// `off` for a bit field; 0 for an empty, unknown or out-of-range field.
pub open spec fn column_value(data: Seq<u8>, off: int, bits: u16) -> u32 {
    if bits == 0 {
        0
    } else if bits == 32 {
        if off + 4 <= data.len() {
            le_u32(data, off)
        } else {
            0
        }
    } else if bits == 16 {
        if off + 2 <= data.len() {
            le_u16(data, off) as u32
        } else {
            0
        }
    } else if bits == 8 {
        if off < data.len() {
            data[off] as u32
        } else {
            0
        }
    } else if bits < 8 {
        if off < data.len() {
            (data[off] as int % pow2(bits as nat) as int) as u32
        } else {
            0
        }
    } else {
        0
    }
}

/// `s` without its trailing NUL characters.
pub open spec fn trim_nul(s: Seq<char>) -> Seq<char>
    decreases s.len(),
{
    if s.len() > 0 && s.last() == '\0' {
        trim_nul(s.drop_last())
    } else {
        s
    }
}

/// The UTF-16 code units of `n` bytes at `start`, little-endian, an odd last byte dropped.
pub open spec fn utf16_units(sb: Seq<u8>, start: int, n: int) -> Seq<u16> {
    Seq::new((n / 2) as nat, |j: int| le_u16(sb, start + 2 * j))
}

/// What `String::from_utf16_lossy` gives for these code units.
pub uninterp spec fn utf16_lossy(units: Seq<u16>) -> Seq<char>;

/// The string stored at `off` of a string block: a u32 byte length, then UTF-16LE text,
/// decoded leniently and without trailing NULs; empty when it does not fit.
pub open spec fn block_string(sb: Seq<u8>, off: int) -> Seq<char> {
    if off + 4 > sb.len() {
        Seq::empty()
    } else if off + 4 + le_u32(sb, off) > sb.len() {
        Seq::empty()
    } else {
        trim_nul(utf16_lossy(utf16_units(sb, off + 4, le_u32(sb, off) as int)))
    }
}

/// Decodes UTF-16 leniently: `String::from_utf16_lossy`, which puts U+FFFD in place of
/// each unpaired surrogate.
#[verifier::external_body]
fn decode_utf16_lossy(units: &[u16]) -> (s: String)
    ensures
        s@ == utf16_lossy(units@),
{
    String::from_utf16_lossy(units)
}

/// The index of the first NUL byte of `d` at or after `i`, or `d.len()`.
pub open spec fn nul_from(d: Seq<u8>, i: int) -> int
    decreases d.len() - i,
{
    if i >= d.len() || i < 0 || d[i] == 0 {
        i
    } else {
        nul_from(d, i + 1)
    }
}

/// The bytes of an optional file.
pub open spec fn opt_bytes(o: Option<&[u8]>) -> Option<Seq<u8>> {
    match o {
        Some(x) => Some(x@),
        None => None,
    }
}

/// Upper bound of a row range: `(k + 1) * stride` stays within `count * stride`.
proof fn lemma_row_in_range(k: int, count: int, stride: int, avail: int)
    requires
        0 <= k < count,
        stride > 0,
        count <= avail / stride,
        avail >= 0,
    ensures
        (k + 1) * stride <= count * stride <= avail,
        (k + 1) * stride == k * stride + stride,
{
    assert((k + 1) * stride <= count * stride) by (nonlinear_arith)
        requires
            k + 1 <= count,
            stride > 0,
    ;
    assert(count * stride <= (avail / stride) * stride) by (nonlinear_arith)
        requires
            count <= avail / stride,
            stride > 0,
    ;
    vstd::arithmetic::div_mod::lemma_fundamental_div_mod(avail, stride);
    assert((k + 1) * stride == k * stride + stride) by (nonlinear_arith);
}

/// Whether `SpecDBTable::from_files` can take these bytes: the file fits in 32 bits and
/// so do the offsets its header declares.
pub fn dbt_offsets_checked(d: &[u8]) -> (r: bool)
    ensures
        r == (d@.len() <= u32::MAX && dbt_offsets_fit(d@)),
{
    let len = d.len();
    if len > 0xffff_ffff {
        return false;
    }
    if len < 24 {
        return true;
    }
    let row_count = read_u32(d, 8) as u64;
    let col_count = read_u32(d, 12) as u64;
    let stride = read_u32(d, 16) as u64;
    let max_cols = ((len - 24) / 8) as u64;
    let cols = if col_count < max_cols {
        col_count
    } else {
        max_cols
    };
    let start = 24 + 8 * cols;
    if stride == 0 {
        return start <= 0xffff_ffff;
    }
    assert(row_count * stride <= 0xffff_fffe_0000_0001u64) by (nonlinear_arith)
        requires
            row_count <= 0xffff_ffff,
            stride <= 0xffff_ffff,
    ;
    start + row_count * stride <= 0xffff_ffff
}

impl SpecDBTable {
    /// The value of column `col` in row `row`; 0 for a row that does not exist.
    pub open spec fn column_at(self, row: int, col: ColumnDef) -> u32 {
        if 0 <= row < self.rows@.len() {
            column_value(self.rows@[row]@, col.offset as int, col.col_type)
        } else {
            0
        }
    }

    /// The value of the `c`-th column in row `row`; 0 when either does not exist.
    pub open spec fn field(self, row: int, c: int) -> u32 {
        if 0 <= c < self.columns@.len() {
            self.column_at(row, self.columns@[c])
        } else {
            0
        }
    }

    /// The DEFAULT_PARTS id of a GENERIC_CAR row: the u32 at byte 0 of the row, 0 when
    /// the row does not exist or is shorter.
    pub open spec fn default_parts_id(self, row: int) -> u32 {
        if 0 <= row < self.rows@.len() && self.rows@[row]@.len() >= 4 {
            le_u32(self.rows@[row]@, 0)
        } else {
            0
        }
    }

    /// The string that the `c`-th column of row `row` points at; empty when either does
    /// not exist.
    pub open spec fn string_field(self, row: int, c: int) -> Seq<char> {
        if 0 <= row < self.rows@.len() && 0 <= c < self.columns@.len() {
            block_string(self.string_block@, self.field(row, c) as int)
        } else {
            Seq::empty()
        }
    }

    /// This table is what `d` (with the index `idi`) describes, named `name`.
    pub open spec fn parsed_from(self, d: Seq<u8>, idi: Option<Seq<u8>>, name: Seq<char>) -> bool {
        &&& self.name@ == name
        &&& self.columns@.len() == dbt_columns(d)
        &&& forall|i: int| 0 <= i < dbt_columns(d) ==> #[trigger] self.columns@[i] == dbt_column(d, i)
        &&& self.stride == dbt_stride(d)
        &&& self.rows@.len() == dbt_rows(d)
        &&& forall|i: int| 0 <= i < dbt_rows(d) ==> #[trigger] self.rows@[i]@ == dbt_row(d, i)
        &&& self.id_to_row@ == idi_index(idi)
        &&& self.string_block@ == dbt_string_block(d)
        &&& self.string_offset == dbt_strings_start(d)
        &&& self.row_count == dbt_row_count(d)
        &&& self.col_count == dbt_col_count(d)
    }

    /// Parses a `.dbt` file and, when given and valid, its `.idi` index.
    /// Fails when the file is shorter than its header or does not start with "GTDB".
    pub fn from_files(dbt_data: &[u8], idi_data: Option<&[u8]>, table_name: &str) -> (r: Result<
        Self,
        String,
    >)
        requires
            dbt_data@.len() <= u32::MAX,
            dbt_offsets_fit(dbt_data@),
        ensures
            r is Err <==> dbt_data@.len() < 24 || !dbt_magic_ok(dbt_data@),
            r matches Err(e) ==> e@ == (if dbt_data@.len() < 24 {
                "DBT file too short"@
            } else {
                "Bad DBT magic: "@ + hex_list4(dbt_data@.subrange(0, 4))
            }),
            r matches Ok(t) ==> t.parsed_from(dbt_data@, opt_bytes(idi_data), table_name@),
    {
        let len = dbt_data.len();
        if len < 24 {
            return Err(String::from_str("DBT file too short"));
        }
        if !(dbt_data[0] == 0x47 && dbt_data[1] == 0x54 && dbt_data[2] == 0x44 && dbt_data[3]
            == 0x42) {
            return Err(bad_magic_error(&dbt_data[0..4]));
        }
        let ghost d = dbt_data@;
        let row_count = read_u32(dbt_data, 8);
        let col_count = read_u32(dbt_data, 12);
        let stride = read_u32(dbt_data, 16);
        let file_size = len as u32;
        let max_cols = (file_size - 24) / 8;
        let actual_cols = if col_count < max_cols {
            col_count
        } else {
            max_cols
        };
        assert(actual_cols == dbt_columns(d));
        let mut columns: Vec<ColumnDef> = Vec::new();
        let mut i: u32 = 0;
        while i < actual_cols
            invariant
                d == dbt_data@,
                len == d.len(),
                d.len() <= u32::MAX,
                actual_cols == dbt_columns(d),
                24 + 8 * actual_cols <= len,
                i <= actual_cols,
                columns@.len() == i,
                forall|k: int| 0 <= k < i ==> #[trigger] columns@[k] == dbt_column(d, k),
            decreases actual_cols - i,
        {
            let pos = (24 + i * 8) as usize;
            let offset = read_u16(dbt_data, pos);
            let col_type = read_u16(dbt_data, pos + 2);
            columns.push(ColumnDef { offset, col_type });
            i += 1;
        }
        let col_desc_end: u32 = 24 + actual_cols * 8;
        let mut rows: Vec<Vec<u8>> = Vec::new();
        if stride > 0 && row_count > 0 {
            let avail = len - col_desc_end as usize;
            let max_rows = avail / (stride as usize);
            let actual_rows = if (row_count as usize) < max_rows {
                row_count as usize
            } else {
                max_rows
            };
            assert(actual_rows == dbt_rows(d));
            let mut k: usize = 0;
            let mut off: usize = col_desc_end as usize;
            while k < actual_rows
                invariant
                    d == dbt_data@,
                    len == d.len(),
                    stride == dbt_stride(d),
                    stride > 0,
                    col_desc_end == dbt_rows_start(d),
                    avail == len - col_desc_end,
                    actual_rows <= (avail as int) / (stride as int),
                    actual_rows == dbt_rows(d),
                    k <= actual_rows,
                    off == col_desc_end + k * stride,
                    rows@.len() == k,
                    forall|j: int| 0 <= j < k ==> #[trigger] rows@[j]@ == dbt_row(d, j),
                decreases actual_rows - k,
            {
                proof {
                    lemma_row_in_range(k as int, actual_rows as int, stride as int, avail as int);
                }
                let row = copy_range(dbt_data, off, off + stride as usize);
                rows.push(row);
                off = off + stride as usize;
                k += 1;
            }
        }
        let str_start: u64 = if stride > 0 {
            assert(row_count as u64 * stride as u64 <= 0xffff_fffe_0000_0001u64) by (nonlinear_arith);
            col_desc_end as u64 + row_count as u64 * stride as u64
        } else {
            col_desc_end as u64
        };
        assert(str_start == dbt_strings_start(d));
        let string_block = if str_start < len as u64 {
            copy_range(dbt_data, str_start as usize, len)
        } else {
            Vec::new()
        };
        let mut id_to_row: HashMap<u32, usize> = HashMap::new();
        match idi_data {
            Some(idi) => {
                if idi.len() >= 16 && idi[0] == 0x47 && idi[1] == 0x54 && idi[2] == 0x49 && idi[3]
                    == 0x44 {
                    let idi_count = read_u32(idi, 4) as usize;
                    let fit = (idi.len() - 16) / 8;
                    let entries = if idi_count < fit {
                        idi_count
                    } else {
                        fit
                    };
                    assert(entries == idi_entries(idi@));
                    let ilen = idi.len();
                    let mut n: usize = 0;
                    while n < entries
                        invariant
                            ilen == idi@.len(),
                            idi_valid(idi@),
                            entries == idi_entries(idi@),
                            entries <= (idi@.len() - 16) / 8,
                            n <= entries,
                            id_to_row@ == idi_map_upto(idi@, n as nat),
                        decreases entries - n,
                    {
                        assert(16 + 8 * n + 8 <= idi@.len()) by {
                            assert(n + 1 <= (idi@.len() - 16) / 8);
                            vstd::arithmetic::div_mod::lemma_fundamental_div_mod(
                                idi@.len() - 16,
                                8,
                            );
                        }
                        let row_id = read_u32(idi, 16 + 8 * n + 4);
                        id_to_row.insert(row_id, n);
                        n += 1;
                    }
                }
            },
            None => {},
        }
        let name = String::from_str(table_name);
        let t = SpecDBTable {
            name,
            columns,
            stride,
            rows,
            id_to_row,
            string_block,
            string_offset: str_start as u32,
            row_count,
            col_count,
        };
        Ok(t)
    }
}

/// `b % 2^bits` for a bit field narrower than a byte.
fn low_bits(b: u8, bits: u16) -> (r: u32)
    requires
        0 < bits < 8,
    ensures
        r == (b as int % pow2(bits as nat) as int) as u32,
{
    let mut span: u32 = 1;
    let mut i: u16 = 0;
    proof {
        lemma2_to64();
    }
    while i < bits
        invariant
            i <= bits < 8,
            span == pow2(i as nat),
        decreases bits - i,
    {
        proof {
            lemma_pow2_unfold((i + 1) as nat);
            lemma_pow2_strictly_increases(i as nat, 7);
            lemma2_to64();
        }
        span = span * 2;
        i += 1;
    }
    proof {
        lemma_pow2_pos(bits as nat);
    }
    (b as u32) % span
}

impl SpecDBTable {
    /// Reads column `col` of row `row` by its bit size.
    pub fn read_column_value(&self, row: usize, col: &ColumnDef) -> (r: u32)
        ensures
            r == self.column_at(row as int, *col),
    {
        if row >= self.rows.len() {
            return 0;
        }
        let data = &self.rows[row];
        let byte_off = col.offset as usize;
        let bits = col.col_type;
        if bits == 0 {
            0
        } else if bits == 32 {
            if byte_off + 4 <= data.len() {
                read_u32(data.as_slice(), byte_off)
            } else {
                0
            }
        } else if bits == 16 {
            if byte_off + 2 <= data.len() {
                read_u16(data.as_slice(), byte_off) as u32
            } else {
                0
            }
        } else if bits == 8 {
            if byte_off < data.len() {
                data[byte_off] as u32
            } else {
                0
            }
        } else if bits < 8 {
            if byte_off < data.len() {
                low_bits(data[byte_off], bits)
            } else {
                0
            }
        } else {
            0
        }
    }

    /// `read_column_value` as a u32.
    pub fn read_u32(&self, row: usize, col: &ColumnDef) -> (r: u32)
        ensures
            r == self.column_at(row as int, *col),
    {
        self.read_column_value(row, col)
    }

    /// `read_column_value` reinterpreted as an i32.
    pub fn read_i32(&self, row: usize, col: &ColumnDef) -> (r: i32)
        ensures
            r == self.column_at(row as int, *col) as i32,
    {
        self.read_u32(row, col) as i32
    }

    /// `read_column_value` cut to its low 16 bits.
    pub fn read_u16(&self, row: usize, col: &ColumnDef) -> (r: u16)
        ensures
            r == self.column_at(row as int, *col) as u16,
    {
        self.read_u32(row, col) as u16
    }

    /// The value of the `c`-th column of row `row`, 0 when either does not exist.
    fn field_value(&self, row: usize, c: usize) -> (r: u32)
        ensures
            r == self.field(row as int, c as int),
    {
        if c < self.columns.len() {
            self.read_column_value(row, &self.columns[c])
        } else {
            0
        }
    }

    /// GENERIC_CAR default parts id: the u32 at byte 0 of the row.
    pub fn car_default_parts(&self, row: usize) -> (r: u32)
        ensures
            r == self.default_parts_id(row as int),
    {
        if row >= self.rows.len() {
            return 0;
        }
        let data = &self.rows[row];
        if data.len() >= 4 {
            read_u32(data.as_slice(), 0)
        } else {
            0
        }
    }

    /// GENERIC_CAR price: the u32 at byte 4 of the row.
    pub fn car_price(&self, row: usize) -> (r: u32)
        ensures
            r == (if row < self.rows@.len() && self.rows@[row as int]@.len() >= 8 {
                le_u32(self.rows@[row as int]@, 4)
            } else {
                0
            }),
    {
        if row >= self.rows.len() {
            return 0;
        }
        let data = &self.rows[row];
        if data.len() >= 8 {
            read_u32(data.as_slice(), 4)
        } else {
            0
        }
    }

    /// GENERIC_CAR year: column 2, in rows of at least 12 bytes.
    pub fn car_year(&self, row: usize) -> (r: u16)
        ensures
            r == (if row < self.rows@.len() && self.rows@[row as int]@.len() >= 12
                && self.columns@.len() > 2 {
                self.field(row as int, 2) as u16
            } else {
                0
            }),
    {
        if row >= self.rows.len() {
            return 0;
        }
        let data = &self.rows[row];
        if data.len() >= 12 && self.columns.len() > 2 {
            self.read_column_value(row, &self.columns[2]) as u16
        } else {
            0
        }
    }

    /// GENERIC_CAR maximum power: column 3.
    pub fn car_power_max(&self, row: usize) -> (r: u32)
        ensures
            r == self.field(row as int, 3),
    {
        self.field_value(row, 3)
    }

    /// GENERIC_CAR minimum power: column 4.
    pub fn car_power_min(&self, row: usize) -> (r: u32)
        ensures
            r == self.field(row as int, 4),
    {
        self.field_value(row, 4)
    }

    /// GENERIC_CAR maker: column 6, low byte.
    pub fn car_maker(&self, row: usize) -> (r: u8)
        ensures
            r == self.field(row as int, 6) as u8,
    {
        self.field_value(row, 6) as u8
    }

    /// GENERIC_CAR country: column 5, low byte.
    pub fn car_country(&self, row: usize) -> (r: u8)
        ensures
            r == self.field(row as int, 5) as u8,
    {
        self.field_value(row, 5) as u8
    }

    /// GENERIC_CAR category: column 8, low byte.
    pub fn car_category(&self, row: usize) -> (r: u8)
        ensures
            r == self.field(row as int, 8) as u8,
    {
        self.field_value(row, 8) as u8
    }

    /// ENGINE peak power in PS: column 8.
    pub fn engine_ps_value(&self, row: usize) -> (r: u32)
        ensures
            r == self.field(row as int, 8),
    {
        self.field_value(row, 8)
    }

    /// ENGINE peak torque: column 9.
    pub fn engine_torque_value(&self, row: usize) -> (r: u32)
        ensures
            r == self.field(row as int, 9),
    {
        self.field_value(row, 9)
    }

    /// ENGINE sound bank id: column 0.
    pub fn engine_sound_id(&self, row: usize) -> (r: u32)
        ensures
            r == self.field(row as int, 0),
    {
        self.field_value(row, 0)
    }

    /// CHASSIS length in mm: column 0.
    pub fn chassis_length(&self, row: usize) -> (r: u32)
        ensures
            r == self.field(row as int, 0),
    {
        self.field_value(row, 0)
    }

    /// CHASSIS width: column 1.
    pub fn chassis_width(&self, row: usize) -> (r: u32)
        ensures
            r == self.field(row as int, 1),
    {
        self.field_value(row, 1)
    }

    /// CHASSIS height: column 2.
    pub fn chassis_height(&self, row: usize) -> (r: u32)
        ensures
            r == self.field(row as int, 2),
    {
        self.field_value(row, 2)
    }

    /// CHASSIS mass in kg: column 3.
    pub fn chassis_mass(&self, row: usize) -> (r: u32)
        ensures
            r == self.field(row as int, 3),
    {
        self.field_value(row, 3)
    }

    /// DRIVETRAIN type (0 FF, 1 FR, 2 MR, 3 4WD): column 0.
    pub fn drivetrain_type(&self, row: usize) -> (r: u32)
        ensures
            r == self.field(row as int, 0),
    {
        self.field_value(row, 0)
    }

    /// DISPLACEMENT in cc: column 0.
    pub fn displacement_cc(&self, row: usize) -> (r: u32)
        ensures
            r == self.field(row as int, 0),
    {
        self.field_value(row, 0)
    }

    /// RACE first-place prize: column 5.
    pub fn race_prize_1st(&self, row: usize) -> (r: u32)
        ensures
            r == self.field(row as int, 5),
    {
        self.field_value(row, 5)
    }

    /// The number of rows read from the file.
    pub fn row_count(&self) -> (r: usize)
        ensures
            r == self.rows@.len(),
    {
        self.rows.len()
    }

    /// The row number that the index gives for `id`.
    pub fn get_row_by_id(&self, id: u32) -> (r: Option<usize>)
        ensures
            r == (if self.id_to_row@.contains_key(id) {
                Some(self.id_to_row@[id])
            } else {
                None::<usize>
            }),
    {
        match self.id_to_row.get(&id) {
            Some(v) => Some(*v),
            None => None,
        }
    }
}

/// `s` without its trailing NUL characters.
fn trim_trailing_nul(s: String) -> (r: String)
    ensures
        r@ == trim_nul(s@),
{
    let mut k = s.as_str().unicode_len();
    proof {
        assert(s@.subrange(0, k as int) =~= s@);
    }
    loop
        invariant
            k <= s@.len(),
            trim_nul(s@) == trim_nul(s@.subrange(0, k as int)),
        ensures
            k <= s@.len(),
            trim_nul(s@) == s@.subrange(0, k as int),
        decreases k,
    {
        if k == 0 {
            break;
        }
        let c = s.as_str().get_char(k - 1);
        if c != '\0' {
            break;
        }
        proof {
            assert(s@.subrange(0, k as int).drop_last() =~= s@.subrange(0, k - 1));
        }
        k -= 1;
    }
    String::from_str(s.as_str().substring_char(0, k))
}

/// The number of bytes of `d` before its first NUL (all of them when there is none).
fn nul_prefix_len(d: &[u8]) -> (k: usize)
    ensures
        k == nul_from(d@, 0),
        k <= d@.len(),
{
    let mut k: usize = 0;
    while k < d.len() && d[k] != 0
        invariant
            k <= d@.len(),
            nul_from(d@, 0) == nul_from(d@, k as int),
        decreases d@.len() - k,
    {
        k += 1;
    }
    k
}

impl SpecDBTable {
    /// The string at `offset` of the string block (see `block_string`).
    pub fn read_string(&self, offset: u32) -> (r: String)
        ensures
            r@ == block_string(self.string_block@, offset as int),
    {
        let off = offset as usize;
        let sb = self.string_block.as_slice();
        let n = sb.len();
        if off >= n || n - off < 4 {
            return String::new();
        }
        let byte_len = read_u32(sb, off) as usize;
        if n - off - 4 < byte_len {
            return String::new();
        }
        let start = off + 4;
        let count = byte_len / 2;
        let ghost want = utf16_units(sb@, start as int, byte_len as int);
        let mut units: Vec<u16> = Vec::new();
        let mut j: usize = 0;
        while j < count
            invariant
                n == sb@.len(),
                start + byte_len <= n,
                count == byte_len / 2,
                want == utf16_units(sb@, start as int, byte_len as int),
                j <= count,
                units@ == want.subrange(0, j as int),
            decreases count - j,
        {
            let u = read_u16(sb, start + 2 * j);
            units.push(u);
            proof {
                assert(units@ =~= want.subrange(0, j + 1));
            }
            j += 1;
        }
        proof {
            assert(units@ =~= want);
        }
        let s = decode_utf16_lossy(units.as_slice());
        trim_trailing_nul(s)
    }

    /// The string column `c` of row `row` points at, or "" without such a row or column.
    fn string_column(&self, row: usize, c: usize) -> (r: String)
        ensures
            r@ == self.string_field(row as int, c as int),
    {
        if row >= self.rows.len() || c >= self.columns.len() {
            return String::new();
        }
        let str_off = self.read_column_value(row, &self.columns[c]);
        self.read_string(str_off)
    }

    /// COURSE English name: the string of column 2.
    pub fn course_name_eng(&self, row: usize) -> (r: String)
        ensures
            r@ == self.string_field(row as int, 2),
    {
        self.string_column(row, 2)
    }

    /// COURSE Japanese name: the string of column 1.
    pub fn course_name_jpn(&self, row: usize) -> (r: String)
        ensures
            r@ == self.string_field(row as int, 1),
    {
        self.string_column(row, 1)
    }

    /// RACE course label: the string of column 0.
    pub fn race_course_label(&self, row: usize) -> (r: String)
        ensures
            r@ == self.string_field(row as int, 0),
    {
        self.string_column(row, 0)
    }

    /// The name a CAR_NAME table gives row `row`: the string of column 0; when that is
    /// empty, the row's bytes up to the first NUL read as UTF-8.
    pub open spec fn car_name(self, row: int) -> Seq<char> {
        if 0 <= row < self.rows@.len() && self.columns@.len() > 0 {
            let name = self.string_field(row, 0);
            let d = self.rows@[row]@;
            if name.len() > 0 {
                name
            } else if nul_from(d, 0) > 0 {
                utf8_lossy(d.subrange(0, nul_from(d, 0)))
            } else {
                Seq::empty()
            }
        } else {
            Seq::empty()
        }
    }

    /// CAR_NAME row name (see `car_name`).
    pub fn car_name_by_row(&self, row: usize) -> (r: String)
        ensures
            r@ == self.car_name(row as int),
    {
        if row >= self.rows.len() || self.columns.len() == 0 {
            return String::new();
        }
        let name = self.string_column(row, 0);
        if name.as_str().unicode_len() > 0 {
            return name;
        }
        let d = self.rows[row].as_slice();
        let k = nul_prefix_len(d);
        if k > 0 {
            let raw = copy_range(d, 0, k);
            decode_utf8_lossy(raw.as_slice())
        } else {
            String::new()
        }
    }
}

/// A row id is in the index built from the first `n` keys exactly when one of those keys
/// carries it, and then it maps to the last such key.
pub proof fn lemma_idi_last_key(x: Seq<u8>, n: nat, id: u32)
    requires
        n <= usize::MAX,
    ensures
        idi_map_upto(x, n).contains_key(id) <==> exists|i: int|
            0 <= i < n && #[trigger] idi_row_id(x, i) == id,
        idi_map_upto(x, n).contains_key(id) ==> {
            let i = idi_map_upto(x, n)[id] as int;
            &&& 0 <= i < n
            &&& idi_row_id(x, i) == id
            &&& forall|j: int| i < j < n ==> #[trigger] idi_row_id(x, j) != id
        },
    decreases n,
{
    if n > 0 {
        lemma_idi_last_key(x, (n - 1) as nat, id);
        if idi_row_id(x, n - 1) != id {
            if exists|i: int| 0 <= i < n && #[trigger] idi_row_id(x, i) == id {
                let w = choose|i: int| 0 <= i < n && #[trigger] idi_row_id(x, i) == id;
                assert(w < n - 1);
            }
        }
    }
}

/// The loaded tables, found by name, and the directory they were read from.
pub struct SpecDB {
    pub tables: Vec<SpecDBTable>,
    pub base_path: String,
}

/// Table `i` of `ts` is the first one named `name`.
pub open spec fn first_named(ts: Seq<SpecDBTable>, name: Seq<char>, i: int) -> bool {
    &&& 0 <= i < ts.len()
    &&& ts[i].name@ == name
    &&& forall|j: int| 0 <= j < i ==> #[trigger] ts[j].name@ != name
}

/// Some table of `ts` is named `name`.
pub open spec fn has_table(ts: Seq<SpecDBTable>, name: Seq<char>) -> bool {
    exists|i: int| 0 <= i < ts.len() && #[trigger] ts[i].name@ == name
}

/// The table that a lookup of `name` finds in `ts`.
pub open spec fn lookup_table(ts: Seq<SpecDBTable>, name: Seq<char>) -> Option<SpecDBTable> {
    if has_table(ts, name) {
        Some(ts[choose|i: int| first_named(ts, name, i)])
    } else {
        None
    }
}

/// `ts` after storing `t` under its name: it replaces the table of that name, or is
/// added at the end.
pub open spec fn with_table(ts: Seq<SpecDBTable>, t: SpecDBTable) -> Seq<SpecDBTable> {
    if has_table(ts, t.name@) {
        ts.update(choose|i: int| first_named(ts, t.name@, i), t)
    } else {
        ts.push(t)
    }
}

/// When some table is named `name`, exactly one index is the first of that name.
proof fn lemma_first_named(ts: Seq<SpecDBTable>, name: Seq<char>)
    requires
        has_table(ts, name),
    ensures
        first_named(ts, name, choose|i: int| first_named(ts, name, i)),
        forall|i: int| #[trigger] first_named(ts, name, i) ==> i == choose|k: int| first_named(ts, name, k),
    decreases ts.len(),
{
    let w = choose|i: int| 0 <= i < ts.len() && #[trigger] ts[i].name@ == name;
    if has_table(ts.drop_last(), name) {
        lemma_first_named(ts.drop_last(), name);
        let k = choose|i: int| first_named(ts.drop_last(), name, i);
        assert(first_named(ts, name, k)) by {
            assert(ts[k] == ts.drop_last()[k]);
            assert forall|j: int| 0 <= j < k implies #[trigger] ts[j].name@ != name by {
                assert(ts[j] == ts.drop_last()[j]);
            }
        }
    } else {
        assert(first_named(ts, name, w)) by {
            assert forall|j: int| 0 <= j < w implies #[trigger] ts[j].name@ != name by {
                if ts[j].name@ == name {
                    assert(ts.drop_last()[j].name@ == name);
                }
            }
        }
    }
    assert forall|i: int, k: int| first_named(ts, name, i) && first_named(ts, name, k) implies i
        == k by {
        if i < k {
            assert(ts[i].name@ != name);
        }
        if k < i {
            assert(ts[k].name@ != name);
        }
    }
}

/// Storing a table and then looking up its name finds that table, and every other name
/// finds what it found before.
pub proof fn lemma_lookup_after_store(ts: Seq<SpecDBTable>, t: SpecDBTable, name: Seq<char>)
    ensures
        lookup_table(with_table(ts, t), t.name@) == Some(t),
        name != t.name@ ==> lookup_table(with_table(ts, t), name) == lookup_table(ts, name),
{
    let nts = with_table(ts, t);
    if has_table(ts, t.name@) {
        lemma_first_named(ts, t.name@);
        let k = choose|i: int| first_named(ts, t.name@, i);
        assert(first_named(nts, t.name@, k));
        lemma_first_named(nts, t.name@);
        if name != t.name@ {
            assert forall|i: int| 0 <= i < nts.len() implies (#[trigger] nts[i].name@ == name)
                == (ts[i].name@ == name) by {}
            assert forall|i: int| first_named(nts, name, i) == first_named(ts, name, i) by {
                if first_named(ts, name, i) {
                    assert forall|j: int| 0 <= j < i implies #[trigger] nts[j].name@ != name by {
                        assert(ts[j].name@ != name);
                    }
                }
                if first_named(nts, name, i) {
                    assert forall|j: int| 0 <= j < i implies #[trigger] ts[j].name@ != name by {
                        assert(nts[j].name@ != name);
                    }
                }
            }
            if has_table(ts, name) {
                lemma_first_named(ts, name);
                let m = choose|i: int| first_named(ts, name, i);
                assert(nts[m].name@ == name);
                lemma_first_named(nts, name);
            } else {
                assert(!has_table(nts, name)) by {
                    if has_table(nts, name) {
                        let w = choose|i: int| 0 <= i < nts.len() && #[trigger] nts[i].name@ == name;
                        assert(ts[w].name@ == name);
                    }
                }
            }
        }
    } else {
        let k = ts.len() as int;
        assert(first_named(nts, t.name@, k)) by {
            assert forall|j: int| 0 <= j < k implies #[trigger] nts[j].name@ != t.name@ by {
                assert(nts[j] == ts[j]);
            }
        }
        lemma_first_named(nts, t.name@);
        if name != t.name@ {
            assert forall|i: int| first_named(nts, name, i) == first_named(ts, name, i) by {
                if 0 <= i < ts.len() {
                    assert forall|j: int| 0 <= j < i implies nts[j] == ts[j] by {}
                }
            }
            if has_table(ts, name) {
                lemma_first_named(ts, name);
                let m = choose|i: int| first_named(ts, name, i);
                assert(nts[m].name@ == name);
                lemma_first_named(nts, name);
            } else {
                assert(!has_table(nts, name)) by {
                    if has_table(nts, name) {
                        let w = choose|i: int| 0 <= i < nts.len() && #[trigger] nts[i].name@ == name;
                        assert(w < ts.len());
                        assert(ts[w].name@ == name);
                    }
                }
            }
        }
    }
}

/// A name with every trailing ".dbt" taken off.
pub open spec fn without_dbt(s: Seq<char>) -> Seq<char>
    decreases s.len(),
{
    if s.len() >= 4 && s.subrange(s.len() - 4, s.len() as int) == ".dbt"@ {
        without_dbt(s.subrange(0, s.len() - 4))
    } else {
        s
    }
}

/// The table that a directory entry named `f` holds: the name before its ".dbt"
/// endings, for a file that ends so.
pub open spec fn dbt_table_of(f: Seq<char>) -> Option<Seq<char>> {
    if f.len() >= 4 && f.subrange(f.len() - 4, f.len() as int) == ".dbt"@ {
        Some(without_dbt(f))
    } else {
        None
    }
}

fn ends_with_dbt(s: &str, end: usize) -> (r: bool)
    requires
        end <= s@.len(),
    ensures
        r == (end >= 4 && s@.subrange(end - 4, end as int) == ".dbt"@),
{
    proof {
        reveal_strlit(".dbt");
    }
    if end < 4 {
        return false;
    }
    let r = s.get_char(end - 4) == '.' && s.get_char(end - 3) == 'd' && s.get_char(end - 2) == 'b'
        && s.get_char(end - 1) == 't';
    proof {
        let t = s@.subrange(end - 4, end as int);
        if r {
            assert(t =~= ".dbt"@);
        } else {
            assert(t[0] != '.' || t[1] != 'd' || t[2] != 'b' || t[3] != 't');
        }
    }
    r
}

/// The table name of a directory entry (see `dbt_table_of`).
pub fn dbt_table_name(file_name: &str) -> (r: Option<String>)
    ensures
        match r {
            Some(n) => dbt_table_of(file_name@) == Some(n@),
            None => dbt_table_of(file_name@) is None,
        },
{
    let n = file_name.unicode_len();
    if !ends_with_dbt(file_name, n) {
        return None;
    }
    let mut end = n;
    assert(file_name@.subrange(0, n as int) =~= file_name@);
    while ends_with_dbt(file_name, end)
        invariant
            end <= n == file_name@.len(),
            without_dbt(file_name@.subrange(0, end as int)) == without_dbt(file_name@),
        decreases end,
    {
        proof {
            let t = file_name@.subrange(0, end as int);
            assert(t.subrange(t.len() - 4, t.len() as int) =~= file_name@.subrange(end - 4, end as int));
            assert(t.subrange(0, t.len() - 4) =~= file_name@.subrange(0, end - 4));
        }
        end = end - 4;
    }
    proof {
        assert(file_name@.subrange(0, n as int) =~= file_name@);
        let t = file_name@.subrange(0, end as int);
        assert(t.len() >= 4 ==> t.subrange(t.len() - 4, t.len() as int) =~= file_name@.subrange(end - 4, end as int));
    }
    Some(String::from_str(file_name.substring_char(0, end)))
}

/// The data and index files of a table in the directory `base`.
pub fn table_file_paths(base: &str, name: &str) -> (r: (String, String))
    ensures
        r.0@ == base@ + "/"@ + name@ + ".dbt"@,
        r.1@ == base@ + "/"@ + name@ + ".idi"@,
{
    let mut dbt = String::from_str(base);
    dbt.append("/");
    dbt.append(name);
    let mut idi = dbt.clone();
    dbt.append(".dbt");
    idi.append(".idi");
    (dbt, idi)
}

impl SpecDB {
    /// An empty database with no base path.
    pub fn new() -> (db: Self)
        ensures
            db.tables@.len() == 0,
            db.base_path@ == Seq::<char>::empty(),
    {
        SpecDB { tables: Vec::new(), base_path: String::new() }
    }

    /// Sets the directory the tables are read from.
    pub fn set_base_path(&mut self, path: &str)
        ensures
            final(self).base_path@ == path@,
            final(self).tables@ == old(self).tables@,
    {
        self.base_path = String::from_str(path);
    }

    /// The index of the first table named `name`, if any.
    fn find_table(&self, name: &String) -> (r: Option<usize>)
        ensures
            match r {
                Some(i) => first_named(self.tables@, name@, i as int),
                None => !has_table(self.tables@, name@),
            },
    {
        let mut i: usize = 0;
        while i < self.tables.len()
            invariant
                i <= self.tables@.len(),
                forall|j: int| 0 <= j < i ==> #[trigger] self.tables@[j].name@ != name@,
            decreases self.tables@.len() - i,
        {
            if self.tables[i].name == *name {
                return Some(i);
            }
            i += 1;
        }
        None
    }

    /// The table named `name`, if one was loaded.
    pub fn get_table(&self, name: &str) -> (r: Option<&SpecDBTable>)
        ensures
            r == (match lookup_table(self.tables@, name@) {
                Some(t) => Some(&t),
                None => None::<&SpecDBTable>,
            }),
    {
        let key = String::from_str(name);
        match self.find_table(&key) {
            Some(i) => {
                proof {
                    lemma_first_named(self.tables@, name@);
                }
                Some(&self.tables[i])
            },
            None => None,
        }
    }

    /// Stores a table under its name, replacing a table of the same name.
    pub fn insert_table(&mut self, table: SpecDBTable)
        ensures
            final(self).tables@ == with_table(old(self).tables@, table),
            final(self).base_path == old(self).base_path,
    {
        match self.find_table(&table.name) {
            Some(i) => {
                proof {
                    lemma_first_named(self.tables@, table.name@);
                }
                self.tables.set(i, table);
            },
            None => {
                self.tables.push(table);
            },
        }
    }
}

} // verus!
