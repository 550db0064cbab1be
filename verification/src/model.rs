//! 3LDM model files (ModelSet3): the header, the vertex-layout, field and mesh tables,
//! triangle strips, and the texture set embedded in a car model.
use vstd::prelude::*;
use vstd::string::StringExecFns;
use crate::bytes::{le_u16, le_u32, read_u16, read_u32};
use crate::graphics::LoadedTexture;
use crate::sprite::{parse_txs3_texture, parse_txs3_texture_at, sprite_file, txs3_at, txs3_magic};
use crate::text::{hex_fixed, hex_list4, push_hex_fixed};
use crate::track::{de_strip_triangles, strip_state};

verus! {

/// The fixed header of a 3LDM file.
pub struct ModelSet3Header {
    pub file_size: u32,
    pub model_count: u16,
    pub shape_count: u16,
    pub fvf_count: u16,
    pub bones_count: u16,
    pub models_ptr: u32,
    pub meshes_ptr: u32,
    pub fvf_ptr: u32,
    pub materials_ptr: u32,
    pub bones_ptr: u32,
    pub texture_set_ptr: u32,
}

/// The file starts with "3LDM".
pub open spec fn model_magic_ok(d: Seq<u8>) -> bool {
    d[0] == 0x33u8 && d[1] == 0x4cu8 && d[2] == 0x44u8 && d[3] == 0x4du8
}

/// The header fields as the file stores them.
pub open spec fn model_header(d: Seq<u8>) -> ModelSet3Header {
    ModelSet3Header {
        file_size: le_u32(d, 0x04),
        model_count: le_u16(d, 0x10),
        shape_count: le_u16(d, 0x14),
        fvf_count: le_u16(d, 0x18),
        bones_count: le_u16(d, 0x1a),
        models_ptr: le_u32(d, 0x30),
        meshes_ptr: le_u32(d, 0x38),
        fvf_ptr: le_u32(d, 0x40),
        materials_ptr: le_u32(d, 0x44),
        bones_ptr: le_u32(d, 0x50),
        texture_set_ptr: le_u32(d, 0x48),
    }
}

/// Reads the 3LDM header; fails when the file is shorter than 0xE4 bytes or does not
/// start with "3LDM".
pub fn read_3ldm_header(data: &[u8]) -> (r: Result<ModelSet3Header, String>)
    ensures
        r is Ok <==> data@.len() >= 0xe4 && model_magic_ok(data@),
        r matches Ok(h) ==> h == model_header(data@),
        r matches Err(e) ==> e@ == (if data@.len() < 0xe4 {
            "File too short for 3LDM header"@
        } else {
            "Bad magic: "@ + hex_list4(data@.subrange(0, 4))
        }),
{
    if data.len() < 0xe4 {
        return Err(String::from_str("File too short for 3LDM header"));
    }
    if !(data[0] == 0x33 && data[1] == 0x4c && data[2] == 0x44 && data[3] == 0x4d) {
        return Err(crate::loader::bad_magic_message(&data[0..4]));
    }
    Ok(
        ModelSet3Header {
            file_size: read_u32(data, 0x04),
            model_count: read_u16(data, 0x10),
            shape_count: read_u16(data, 0x14),
            fvf_count: read_u16(data, 0x18),
            bones_count: read_u16(data, 0x1a),
            models_ptr: read_u32(data, 0x30),
            meshes_ptr: read_u32(data, 0x38),
            fvf_ptr: read_u32(data, 0x40),
            materials_ptr: read_u32(data, 0x44),
            bones_ptr: read_u32(data, 0x50),
            texture_set_ptr: read_u32(data, 0x48),
        },
    )
}

/// How many of `count` records of `size` bytes from `ptr` lie within `len` bytes.
pub open spec fn records_in(len: int, ptr: int, size: int, count: int) -> int {
    if ptr <= len {
        let fit = (len - ptr) / size;
        if count < fit {
            count
        } else {
            fit
        }
    } else {
        0
    }
}

/// Record `i` of `size` bytes from `ptr` ends within `len` exactly when `i` is below
/// `records_in`.
proof fn lemma_records_in(len: int, ptr: int, size: int, count: int, i: int)
    requires
        size > 0,
        0 <= i <= count,
        0 <= ptr,
        0 <= len,
        i <= records_in(len, ptr, size, count),
    ensures
        i < records_in(len, ptr, size, count) ==> ptr + size * (i + 1) <= len,
        i == records_in(len, ptr, size, count) && i < count ==> ptr + size * (i + 1) > len,
        ptr + size * i <= len || i == 0,
{
    if ptr <= len {
        let fit = (len - ptr) / size;
        vstd::arithmetic::div_mod::lemma_fundamental_div_mod(len - ptr, size);
        if i < records_in(len, ptr, size, count) {
            assert(size * (i + 1) <= size * fit) by (nonlinear_arith)
                requires
                    i + 1 <= fit,
                    size > 0,
            ;
        }
        if i == fit {
            assert(size * (i + 1) == size * fit + size) by (nonlinear_arith)
                requires
                    i == fit,
            ;
        }
        assert(size * i <= size * fit) by (nonlinear_arith)
            requires
                i <= fit,
                size > 0,
        ;
    }
}

/// A vertex layout entry: how many fields, the vertex stride, where the fields are.
pub struct FVFEntry {
    pub field_count: u8,
    pub vertex_stride: u8,
    pub field_def_ptr: u32,
}

/// The vertex layout entry at `off` (0x78 bytes each).
pub open spec fn fvf_entry_at(d: Seq<u8>, off: int) -> FVFEntry {
    FVFEntry { field_count: d[off + 0x18], vertex_stride: d[off + 0x19], field_def_ptr: le_u32(d, off + 8) }
}

/// The vertex layout entries: up to `fvf_count` from `fvf_ptr`, those that fit.
pub fn read_fvf(data: &[u8], fvf_ptr: u32, fvf_count: u16) -> (r: Vec<FVFEntry>)
    requires
        data@.len() <= u32::MAX,
    ensures
        r@.len() == records_in(data@.len() as int, fvf_ptr as int, 0x78, fvf_count as int),
        forall|i: int| 0 <= i < r@.len() ==> #[trigger] r@[i] == fvf_entry_at(data@, fvf_ptr + 0x78 * i),
{
    let mut fvfs: Vec<FVFEntry> = Vec::new();
    let len = data.len();
    let mut i: u32 = 0;
    while i < fvf_count as u32
        invariant_except_break
            len == data@.len() <= u32::MAX,
            i <= fvf_count,
            i <= records_in(len as int, fvf_ptr as int, 0x78, fvf_count as int),
            fvfs@.len() == i,
            forall|k: int| 0 <= k < i ==> #[trigger] fvfs@[k] == fvf_entry_at(data@, fvf_ptr + 0x78 * k),
        ensures
            fvfs@.len() == records_in(len as int, fvf_ptr as int, 0x78, fvf_count as int),
            forall|k: int| 0 <= k < fvfs@.len() ==> #[trigger] fvfs@[k] == fvf_entry_at(data@, fvf_ptr + 0x78 * k),
        decreases fvf_count - i,
    {
        proof {
            lemma_records_in(len as int, fvf_ptr as int, 0x78, fvf_count as int, i as int);
        }
        let off = (fvf_ptr + i * 0x78) as usize;
        if off > len || len - off < 0x78 {
            break;
        }
        fvfs.push(
            FVFEntry {
                field_count: data[off + 0x18],
                vertex_stride: data[off + 0x19],
                field_def_ptr: read_u32(data, off + 8),
            },
        );
        i += 1;
    }
    fvfs
}

/// One field of a vertex layout.
pub struct FVFField {
    pub semantic: u8,
    pub data_type: u8,
    pub offset: u8,
}

/// The layout field at `off` (4 bytes each).
pub open spec fn fvf_field_at(d: Seq<u8>, off: int) -> FVFField {
    FVFField { semantic: d[off], data_type: d[off + 1], offset: d[off + 2] }
}

/// The fields of a vertex layout entry, those that fit.
pub fn read_fvf_fields(data: &[u8], fvf: &FVFEntry) -> (r: Vec<FVFField>)
    ensures
        r@.len() == records_in(data@.len() as int, fvf.field_def_ptr as int, 4, fvf.field_count as int),
        forall|i: int|
            0 <= i < r@.len() ==> #[trigger] r@[i] == fvf_field_at(data@, fvf.field_def_ptr + 4 * i),
{
    let mut fields: Vec<FVFField> = Vec::new();
    let ptr = fvf.field_def_ptr as usize;
    let len = data.len();
    let count = fvf.field_count as usize;
    let mut i: usize = 0;
    while i < count
        invariant_except_break
            len == data@.len(),
            ptr == fvf.field_def_ptr,
            count == fvf.field_count,
            i <= count,
            i <= records_in(len as int, ptr as int, 4, count as int),
            fields@.len() == i,
            forall|k: int| 0 <= k < i ==> #[trigger] fields@[k] == fvf_field_at(data@, ptr + 4 * k),
        ensures
            fields@.len() == records_in(len as int, ptr as int, 4, count as int),
            forall|k: int|
                0 <= k < fields@.len() ==> #[trigger] fields@[k] == fvf_field_at(data@, ptr + 4 * k),
        decreases count - i,
    {
        proof {
            lemma_records_in(len as int, ptr as int, 4, count as int, i as int);
        }
        let off = ptr + i * 4;
        if off > len || len - off < 4 {
            break;
        }
        fields.push(FVFField { semantic: data[off], data_type: data[off + 1], offset: data[off + 2] });
        i += 1;
    }
    fields
}

/// A mesh (shape) entry.
pub struct MeshEntry {
    pub flags: u16,
    pub fvf_index: i16,
    pub material_index: i16,
    pub vertex_count: u32,
    pub vertex_ptr: u32,
    pub tri_len: u32,
    pub tri_ptr: u32,
    pub tri_count: i16,
}

/// The mesh entry at `off` (0x30 bytes each).
pub open spec fn mesh_entry_at(d: Seq<u8>, off: int) -> MeshEntry {
    MeshEntry {
        flags: le_u16(d, off),
        fvf_index: le_u16(d, off + 2) as i16,
        material_index: le_u16(d, off + 4) as i16,
        vertex_count: le_u32(d, off + 8),
        vertex_ptr: le_u32(d, off + 0x0c),
        tri_len: le_u32(d, off + 0x14),
        tri_ptr: le_u32(d, off + 0x18),
        tri_count: le_u16(d, off + 0x26) as i16,
    }
}

/// The mesh entries: up to `shape_count` from `meshes_ptr`, those that fit.
pub fn read_meshes(data: &[u8], meshes_ptr: u32, shape_count: u16) -> (r: Vec<MeshEntry>)
    requires
        data@.len() <= u32::MAX,
    ensures
        r@.len() == records_in(data@.len() as int, meshes_ptr as int, 0x30, shape_count as int),
        forall|i: int|
            0 <= i < r@.len() ==> #[trigger] r@[i] == mesh_entry_at(data@, meshes_ptr + 0x30 * i),
{
    let mut meshes: Vec<MeshEntry> = Vec::new();
    let len = data.len();
    let mut i: u32 = 0;
    while i < shape_count as u32
        invariant_except_break
            len == data@.len() <= u32::MAX,
            i <= shape_count,
            i <= records_in(len as int, meshes_ptr as int, 0x30, shape_count as int),
            meshes@.len() == i,
            forall|k: int|
                0 <= k < i ==> #[trigger] meshes@[k] == mesh_entry_at(data@, meshes_ptr + 0x30 * k),
        ensures
            meshes@.len() == records_in(len as int, meshes_ptr as int, 0x30, shape_count as int),
            forall|k: int|
                0 <= k < meshes@.len() ==> #[trigger] meshes@[k] == mesh_entry_at(
                    data@,
                    meshes_ptr + 0x30 * k,
                ),
        decreases shape_count - i,
    {
        proof {
            lemma_records_in(len as int, meshes_ptr as int, 0x30, shape_count as int, i as int);
        }
        let off = (meshes_ptr + i * 0x30) as usize;
        if off > len || len - off < 0x30 {
            break;
        }
        meshes.push(
            MeshEntry {
                flags: read_u16(data, off),
                fvf_index: read_u16(data, off + 2) as i16,
                material_index: read_u16(data, off + 4) as i16,
                vertex_count: read_u32(data, off + 8),
                vertex_ptr: read_u32(data, off + 0x0c),
                tri_len: read_u32(data, off + 0x14),
                tri_ptr: read_u32(data, off + 0x18),
                tri_count: read_u16(data, off + 0x26) as i16,
            },
        );
        i += 1;
    }
    meshes
}

/// Triangles from strips of indices (see `strip_state`, with no offset).
pub fn destrip_indices(indices: &[i16]) -> (faces: Vec<(u32, u32, u32)>)
    ensures
        faces@ == strip_state(indices@, 0).0,
{
    de_strip_triangles(indices, 0)
}

/// The texture embedded in a car model: the TXS3 block that the header's texture-set
/// pointer locates, decoded with offsets relative to it; `None` when the model header is
/// bad, the pointer is 0 or leaves fewer than four bytes, the block is not TXS3, or it
/// does not decode.
pub open spec fn car_texture(d: Seq<u8>) -> Option<(u32, u32, Seq<u8>)> {
    if d.len() < 0xe4 || !model_magic_ok(d) {
        None
    } else {
        let ptr = le_u32(d, 0x48) as int;
        if ptr == 0 || ptr + 4 > d.len() {
            None
        } else {
            let t = d.subrange(ptr, d.len() as int);
            if !txs3_magic(t) {
                None
            } else {
                match txs3_at(t, ptr) {
                    Ok(x) => Some(x),
                    Err(_) => None,
                }
            }
        }
    }
}

/// Where a car model's file lies: its id as eight upper-case hexadecimal digits under
/// the race car directory of the game data.
pub open spec fn car_model_path(car_id: u32) -> Seq<char> {
    "../files/decompiled/Gran Turismo/PSP_GAME/USRDIR/GT.VOL/car/race/"@ + hex_fixed(car_id as nat, 8)
}

/// The path of a car model's file (see `car_model_path`).
pub fn car_texture_path(car_id: u32) -> (p: String)
    ensures
        p@ == car_model_path(car_id),
{
    let mut p = String::new();
    p.append("../files/decompiled/Gran Turismo/PSP_GAME/USRDIR/GT.VOL/car/race/");
    push_hex_fixed(&mut p, car_id, 8);
    p
}

/// The path of the course texture file.
pub fn course_texture_path() -> (p: &'static str)
    ensures
        p@ == "../files/decompiled/Gran Turismo/PSP_GAME/USRDIR/GT.VOL/crs/race.txs"@,
{
    "../files/decompiled/Gran Turismo/PSP_GAME/USRDIR/GT.VOL/crs/race.txs"
}

/// Decodes the texture embedded in a car model's bytes (see `car_texture`).
pub fn load_car_texture(data: &[u8]) -> (r: Option<LoadedTexture>)
    ensures
        match r {
            Some(t) => car_texture(data@) == Some((t.width, t.height, t.rgba@)),
            None => car_texture(data@) is None,
        },
{
    let header = match read_3ldm_header(data) {
        Ok(h) => h,
        Err(_) => return None,
    };
    let len = data.len();
    let tex_off = header.texture_set_ptr as usize;
    if header.texture_set_ptr == 0 || tex_off > len || len - tex_off < 4 {
        return None;
    }
    let tex_slice = &data[tex_off..len];
    if tex_slice.len() < 4 || !((tex_slice[0] == 0x33 && tex_slice[1] == 0x53 && tex_slice[2]
        == 0x58 && tex_slice[3] == 0x54) || (tex_slice[0] == 0x54 && tex_slice[1] == 0x58
        && tex_slice[2] == 0x53 && tex_slice[3] == 0x33)) {
        return None;
    }
    match parse_txs3_texture_at(tex_slice, tex_off) {
        Ok(t) => Some(t),
        Err(_) => None,
    }
}

/// Decodes a course texture file's bytes (see `sprite_file`); `None` when it does not
/// decode.
pub fn load_course_texture(data: &[u8]) -> (r: Option<LoadedTexture>)
    requires
        data@.len() <= u32::MAX,
    ensures
        match r {
            Some(t) => sprite_file(data@) == Ok::<(u32, u32, Seq<u8>), Seq<char>>(
                (t.width, t.height, t.rgba@),
            ),
            None => sprite_file(data@) is Err,
        },
{
    match parse_txs3_texture(data) {
        Ok(t) => Some(t),
        Err(_) => None,
    }
}

} // verus!
