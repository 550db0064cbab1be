//! Track geometry tables: vertex layouts (FVF entries), triangle strips turned into
//! triangles, and the decoded track texture.
use vstd::prelude::*;
use vstd::string::StringExecFns;
use crate::bytes::{copy_range, le_u16, le_u32, read_u16, read_u32, spec_read_u32};
use crate::grid::fill_result;
use crate::text::{decimal_text, push_decimal};
use crate::texture::{
    bits_per_pixel, bufw_for, compute_texture_bufw, decode_psp_texture, psp_texel, texture_bits_per_pixel,
    texture_fits, GeTextureFormat,
};

verus! {

/// A decoded track texture: `width` by `height` RGBA8888 pixels.
#[derive(Clone)]
pub struct TrackTexture {
    pub data: Vec<u32>,
    pub width: u32,
    pub height: u32,
}

/// Bytes of one vertex element of a storage format: 8, 12, 16 for two, three, four f32;
/// 4 or 8 for two or four i16 (plain or normalized); 4 for four u8 and for any other.
pub open spec fn element_size(format: u16) -> int {
    if format == 0 || format == 4 || format == 7 {
        8
    } else if format == 1 {
        12
    } else if format == 2 {
        16
    } else {
        4
    }
}

/// Bytes of one vertex element (see `element_size`).
pub fn element_byte_size(format: u16) -> (r: usize)
    ensures
        r == element_size(format),
{
    match format {
        0 => 8,
        1 => 12,
        2 => 16,
        3 => 4,
        4 => 8,
        5 => 4,
        6 => 4,
        7 => 8,
        8 => 4,
        _ => 4,
    }
}

/// One element of a vertex layout: what it means, how it is stored, where in the vertex.
pub struct FvfElement {
    pub semantic: u16,
    pub format: u16,
    pub offset: u16,
}

/// An element as its three fields.
pub open spec fn elem_view(e: FvfElement) -> (u16, u16, u16) {
    (e.semantic, e.format, e.offset)
}

/// Up to `n` six-byte elements from `fp`, stopping at the first that does not fit; with
/// the position after the last one read.
pub open spec fn elems_from(d: Seq<u8>, fp: int, n: nat) -> (Seq<(u16, u16, u16)>, int)
    decreases n,
{
    if n == 0 || fp + 6 > d.len() {
        (Seq::empty(), fp)
    } else {
        let rest = elems_from(d, fp + 6, (n - 1) as nat);
        (seq![(le_u16(d, fp), le_u16(d, fp + 2), le_u16(d, fp + 4))] + rest.0, rest.1)
    }
}

/// Up to `n` layouts from `fp`, each a u16 element count and a u16 stride, then its
/// elements; it stops at the first layout header that does not fit.
pub open spec fn layouts_from(d: Seq<u8>, fp: int, n: nat) -> Seq<Seq<(u16, u16, u16)>>
    decreases n,
{
    if n == 0 || fp + 4 > d.len() {
        Seq::empty()
    } else {
        let es = elems_from(d, fp + 4, le_u16(d, fp) as nat);
        seq![es.0] + layouts_from(d, es.1, (n - 1) as nat)
    }
}

/// The vertex layouts of a track file: none when the pointer is 0 or past the end.
pub open spec fn fvf_layouts(d: Seq<u8>, fvf_ptr: int, fvf_count: nat) -> Seq<Seq<(u16, u16, u16)>> {
    if fvf_ptr == 0 || fvf_ptr >= d.len() {
        Seq::empty()
    } else {
        layouts_from(d, fvf_ptr, fvf_count)
    }
}

/// `elems_from` never moves past the end or backwards.
proof fn lemma_elems_from_pos(d: Seq<u8>, fp: int, n: nat)
    requires
        fp <= d.len(),
    ensures
        fp <= elems_from(d, fp, n).1 <= d.len(),
    decreases n,
{
    if n > 0 && fp + 6 <= d.len() {
        lemma_elems_from_pos(d, fp + 6, (n - 1) as nat);
    }
}

/// Reads one layout's elements (see `elems_from`).
fn read_elems(data: &[u8], fp: usize, n: usize) -> (r: (Vec<FvfElement>, usize))
    requires
        fp <= data@.len(),
    ensures
        r.0@.map_values(|e: FvfElement| elem_view(e)) == elems_from(data@, fp as int, n as nat).0,
        r.1 == elems_from(data@, fp as int, n as nat).1,
{
    let mut elems: Vec<FvfElement> = Vec::new();
    let mut p = fp;
    let mut i: usize = 0;
    while i < n
        invariant_except_break
            i <= n,
            fp <= p <= data@.len(),
            elems@.map_values(|e: FvfElement| elem_view(e)) + elems_from(
                data@,
                p as int,
                (n - i) as nat,
            ).0 == elems_from(data@, fp as int, n as nat).0,
            elems_from(data@, p as int, (n - i) as nat).1 == elems_from(
                data@,
                fp as int,
                n as nat,
            ).1,
        ensures
            elems@.map_values(|e: FvfElement| elem_view(e)) == elems_from(
                data@,
                fp as int,
                n as nat,
            ).0,
            p == elems_from(data@, fp as int, n as nat).1,
        decreases n - i,
    {
        if data.len() - p < 6 {
            proof {
                assert(elems@.map_values(|e: FvfElement| elem_view(e)) + Seq::<
                    (u16, u16, u16),
                >::empty() =~= elems@.map_values(|e: FvfElement| elem_view(e)));
            }
            break;
        }
        let semantic = read_u16(data, p);
        let format = read_u16(data, p + 2);
        let offset = read_u16(data, p + 4);
        let ghost prev = elems@.map_values(|e: FvfElement| elem_view(e));
        let ghost rest = elems_from(data@, p + 6, (n - i - 1) as nat);
        elems.push(FvfElement { semantic, format, offset });
        proof {
            assert(elems@.map_values(|e: FvfElement| elem_view(e)) =~= prev.push(
                (semantic, format, offset),
            ));
            assert(prev.push((semantic, format, offset)) + rest.0 =~= prev + (seq![
                (semantic, format, offset),
            ] + rest.0));
        }
        p = p + 6;
        i += 1;
    }
    proof {
        if i == n {
            assert(elems@.map_values(|e: FvfElement| elem_view(e)) + Seq::<
                (u16, u16, u16),
            >::empty() =~= elems@.map_values(|e: FvfElement| elem_view(e)));
        }
    }
    (elems, p)
}

/// The vertex layouts at `fvf_ptr` (see `fvf_layouts`).
pub fn parse_fvf_entries(data: &[u8], fvf_ptr: usize, fvf_count: usize) -> (r: Vec<Vec<FvfElement>>)
    ensures
        r@.len() == fvf_layouts(data@, fvf_ptr as int, fvf_count as nat).len(),
        forall|i: int|
            0 <= i < r@.len() ==> (#[trigger] r@[i])@.map_values(|e: FvfElement| elem_view(e))
                == fvf_layouts(data@, fvf_ptr as int, fvf_count as nat)[i],
{
    let mut list: Vec<Vec<FvfElement>> = Vec::new();
    if fvf_ptr == 0 || fvf_ptr >= data.len() {
        return list;
    }
    let ghost want = layouts_from(data@, fvf_ptr as int, fvf_count as nat);
    let mut fp = fvf_ptr;
    let mut k: usize = 0;
    while k < fvf_count
        invariant_except_break
            k <= fvf_count,
            fp <= data@.len(),
            want == layouts_from(data@, fvf_ptr as int, fvf_count as nat),
            list@.len() + layouts_from(data@, fp as int, (fvf_count - k) as nat).len()
                == want.len(),
            forall|i: int|
                0 <= i < list@.len() ==> (#[trigger] list@[i])@.map_values(
                    |e: FvfElement| elem_view(e),
                ) == want[i],
            forall|i: int|
                0 <= i < layouts_from(data@, fp as int, (fvf_count - k) as nat).len()
                    ==> #[trigger] layouts_from(data@, fp as int, (fvf_count - k) as nat)[i]
                    == want[list@.len() + i],
        ensures
            list@.len() == want.len(),
            forall|i: int|
                0 <= i < list@.len() ==> (#[trigger] list@[i])@.map_values(
                    |e: FvfElement| elem_view(e),
                ) == want[i],
        decreases fvf_count - k,
    {
        if data.len() - fp < 4 {
            break;
        }
        let num_elems = read_u16(data, fp) as usize;
        proof {
            lemma_elems_from_pos(data@, fp + 4, num_elems as nat);
        }
        let (elems, next) = read_elems(data, fp + 4, num_elems);
        let ghost rest = layouts_from(data@, next as int, (fvf_count - k - 1) as nat);
        proof {
            let here = layouts_from(data@, fp as int, (fvf_count - k) as nat);
            assert(here == seq![elems_from(data@, fp + 4, num_elems as nat).0] + rest);
            assert(here[0] == elems_from(data@, fp + 4, num_elems as nat).0);
            assert forall|i: int| 0 <= i < rest.len() implies #[trigger] rest[i] == want[
                list@.len() + 1 + i] by {
                assert(here[i + 1] == rest[i]);
            }
        }
        list.push(elems);
        fp = next;
        k += 1;
    }
    list
}

/// The triangles of triangle strips and the strip in progress, after the indices `idx`:
/// a negative index ends the strip; from the third index of a strip on, each index makes a
/// triangle with the two before it, every second one with its last two corners swapped
/// so all face the same way. Indices are offset by `base`.
pub open spec fn strip_state(idx: Seq<i16>, base: u32) -> (Seq<(u32, u32, u32)>, Seq<u32>)
    decreases idx.len(),
{
    if idx.len() == 0 {
        (Seq::empty(), Seq::empty())
    } else {
        let prev = strip_state(idx.drop_last(), base);
        let v = idx.last();
        if v < 0 {
            (prev.0, Seq::empty())
        } else {
            let s = prev.1.push((base + v) as u32);
            let n = s.len() as int;
            if n >= 3 {
                let f = if (n - 3) % 2 == 0 {
                    (s[n - 3], s[n - 2], s[n - 1])
                } else {
                    (s[n - 3], s[n - 1], s[n - 2])
                };
                (prev.0.push(f), s)
            } else {
                (prev.0, s)
            }
        }
    }
}

/// Triangles from strips of indices offset by `base` (see `strip_state`).
pub fn de_strip_triangles(indices: &[i16], base_vert: u32) -> (faces: Vec<(u32, u32, u32)>)
    requires
        forall|i: int| 0 <= i < indices@.len() ==> base_vert + #[trigger] indices@[i] <= u32::MAX,
    ensures
        faces@ == strip_state(indices@, base_vert).0,
{
    let mut faces: Vec<(u32, u32, u32)> = Vec::new();
    let mut strip: Vec<u32> = Vec::new();
    let mut i: usize = 0;
    while i < indices.len()
        invariant
            i <= indices@.len(),
            forall|j: int| 0 <= j < indices@.len() ==> base_vert + #[trigger] indices@[j] <= u32::MAX,
            (faces@, strip@) == strip_state(indices@.subrange(0, i as int), base_vert),
        decreases indices@.len() - i,
    {
        let idx = indices[i];
        proof {
            assert(indices@.subrange(0, i + 1).drop_last() =~= indices@.subrange(0, i as int));
            assert(indices@.subrange(0, i + 1).last() == idx);
        }
        if idx < 0 {
            strip.clear();
        } else {
            assert(base_vert + indices@[i as int] <= u32::MAX);
            strip.push(base_vert + idx as u32);
            let n = strip.len();
            if n >= 3 {
                let a = strip[n - 3];
                let b = strip[n - 2];
                let c = strip[n - 1];
                if (n - 3) % 2 == 0 {
                    faces.push((a, b, c));
                } else {
                    faces.push((a, c, b));
                }
            }
        }
        i += 1;
    }
    proof {
        assert(indices@.subrange(0, i as int) =~= indices@);
    }
    faces
}

/// Every index of a triangle from `de_strip_triangles` is `base` plus one of the
/// non-negative indices given.
pub proof fn lemma_strip_faces_use_indices(idx: Seq<i16>, base: u32)
    requires
        forall|i: int| 0 <= i < idx.len() ==> base + #[trigger] idx[i] <= u32::MAX,
    ensures
        forall|k: int|
            0 <= k < strip_state(idx, base).0.len() ==> {
                let f = #[trigger] strip_state(idx, base).0[k];
                &&& exists|i: int| 0 <= i < idx.len() && idx[i] >= 0 && f.0 == base + idx[i]
                &&& exists|i: int| 0 <= i < idx.len() && idx[i] >= 0 && f.1 == base + idx[i]
                &&& exists|i: int| 0 <= i < idx.len() && idx[i] >= 0 && f.2 == base + idx[i]
            },
        forall|k: int|
            0 <= k < strip_state(idx, base).1.len() ==> exists|i: int|
                0 <= i < idx.len() && idx[i] >= 0 && #[trigger] strip_state(idx, base).1[k] == base
                    + idx[i],
    decreases idx.len(),
{
    if idx.len() > 0 {
        let pre = idx.drop_last();
        lemma_strip_faces_use_indices(pre, base);
        let st = strip_state(idx, base);
        let prev = strip_state(pre, base);
        let last = idx.len() - 1;
        assert forall|k: int| 0 <= k < prev.1.len() implies exists|i: int|
            0 <= i < idx.len() && idx[i] >= 0 && #[trigger] prev.1[k] == base + idx[i] by {
            let i = choose|i: int| 0 <= i < pre.len() && pre[i] >= 0 && prev.1[k] == base + pre[i];
            assert(idx[i] == pre[i]);
        }
        assert forall|k: int| 0 <= k < prev.0.len() implies {
            let f = #[trigger] prev.0[k];
            &&& exists|i: int| 0 <= i < idx.len() && idx[i] >= 0 && f.0 == base + idx[i]
            &&& exists|i: int| 0 <= i < idx.len() && idx[i] >= 0 && f.1 == base + idx[i]
            &&& exists|i: int| 0 <= i < idx.len() && idx[i] >= 0 && f.2 == base + idx[i]
        } by {
            let f = prev.0[k];
            let i0 = choose|i: int| 0 <= i < pre.len() && pre[i] >= 0 && f.0 == base + pre[i];
            let i1 = choose|i: int| 0 <= i < pre.len() && pre[i] >= 0 && f.1 == base + pre[i];
            let i2 = choose|i: int| 0 <= i < pre.len() && pre[i] >= 0 && f.2 == base + pre[i];
            assert(idx[i0] == pre[i0]);
            assert(idx[i1] == pre[i1]);
            assert(idx[i2] == pre[i2]);
        }
        if idx[last] >= 0 {
            let s = prev.1.push((base + idx[last]) as u32);
            assert forall|k: int| 0 <= k < s.len() implies exists|i: int|
                0 <= i < idx.len() && idx[i] >= 0 && #[trigger] s[k] == base + idx[i] by {
                if k == s.len() - 1 {
                    assert(s[k] == base + idx[last]);
                } else {
                    assert(s[k] == prev.1[k]);
                }
            }
        }
    }
}

/// The GE format of a TXS3 format code: 0 RGB565, 1 RGBA5551, 2 RGBA4444, 3 RGBA8888,
/// 4 DXT1, 5 DXT5, 6 DXT3.
pub open spec fn track_format(code: u8) -> Option<GeTextureFormat> {
    if code == 0 {
        Some(GeTextureFormat::Rgb565)
    } else if code == 1 {
        Some(GeTextureFormat::Rgba5551)
    } else if code == 2 {
        Some(GeTextureFormat::Rgba4444)
    } else if code == 3 {
        Some(GeTextureFormat::Rgba8888)
    } else if code == 4 {
        Some(GeTextureFormat::Dxt1)
    } else if code == 5 {
        Some(GeTextureFormat::Dxt5)
    } else if code == 6 {
        Some(GeTextureFormat::Dxt3)
    } else {
        None
    }
}

/// The bytes a `w` by `h` image of `fmt` takes: whole 4x4 blocks of 8 (DXT1) or 16 bytes
/// for DXT, `w * h` pixels of the format's bits otherwise.
pub open spec fn track_expected_size(w: u32, h: u32, fmt: GeTextureFormat) -> int {
    if fmt.is_dxt() {
        ((w + 3) / 4) * ((h + 3) / 4) * (if fmt is Dxt1 {
            8int
        } else {
            16int
        })
    } else {
        w * h * bits_per_pixel(fmt) / 8
    }
}

/// The pixel bytes: `size` bytes from `ptr` (cut at the end of the file), padded with
/// zeros to `expected`.
pub open spec fn track_pixel_bytes(d: Seq<u8>, ptr: int, size: int, expected: int) -> Seq<u8> {
    let end = if ptr + size < d.len() {
        ptr + size
    } else {
        d.len() as int
    };
    let raw = d.subrange(ptr, end);
    if raw.len() < expected {
        raw + Seq::new((expected - raw.len()) as nat, |i: int| 0u8)
    } else {
        raw
    }
}

/// The image info of a TXS3 file starting with "3SXT": its offset is at 0x1C; from it,
/// the pixel offset (+0), data size (+4), format code (+9), width (+0xC), height (+0xE).
pub open spec fn track_info(d: Seq<u8>) -> (int, int, u8, u32, u32) {
    let ii = le_u32(d, 0x1c) as int;
    (le_u32(d, ii) as int, le_u32(d, ii + 4) as int, d[ii + 9], le_u16(d, ii + 0x0c) as u32, le_u16(
        d,
        ii + 0x0e,
    ) as u32)
}

/// What a track texture file holds: its width, height, GE format, padded pixel bytes and
/// whether it is swizzled (bit 0 of byte 0x24), or why it cannot be read.
pub open spec fn track_texture_at(d: Seq<u8>) -> Result<
    (u32, u32, GeTextureFormat, Seq<u8>, bool),
    Seq<char>,
> {
    if d.len() < 0x40 || !(d[0] == 0x33u8 && d[1] == 0x53u8 && d[2] == 0x58u8 && d[3] == 0x54u8) {
        Err("Not a TXS3 texture file"@)
    } else if le_u16(d, 0x16) == 0 || le_u32(d, 0x1c) + 0x20 > d.len() {
        Err("No image info in TXS3"@)
    } else {
        let (ptr, size, code, w, h) = track_info(d);
        if w == 0 || h == 0 || ptr == 0 || size == 0 {
            Err("Invalid texture image info"@)
        } else {
            match track_format(code) {
                None => Err("Unsupported TXS3 texture format: "@ + decimal_text(code as nat)),
                Some(fmt) => Ok(
                    (
                        w,
                        h,
                        fmt,
                        track_pixel_bytes(d, ptr, size, track_expected_size(w, h, fmt)),
                        d[0x24] & 1 != 0,
                    ),
                ),
            }
        }
    }
}

/// The inputs on which reading a track texture stays within its arithmetic and buffers:
/// the expected size fits in 32 bits, the pixel offset lies within the file, swizzled
/// non-DXT pixel bytes are whole 32-bit words, and the decoder's buffers fit in memory
/// (see `texture_fits`).
pub open spec fn track_texture_readable(d: Seq<u8>) -> bool {
    match track_texture_at(d) {
        Ok((w, h, fmt, px, swizzled)) => {
            &&& track_expected_size(w, h, fmt) <= u32::MAX
            &&& w * h * bits_per_pixel(fmt) <= u32::MAX
            &&& track_info(d).0 <= d.len()
            &&& swizzled && !fmt.is_dxt() ==> px.len() % 4 == 0
            &&& texture_fits(w, h, bufw_for(w, fmt) as u32)
        },
        Err(_) => true,
    }
}

/// Whether `parse_txs3_texture` can take these bytes (see `track_texture_readable`).
pub fn track_texture_checked(data: &[u8]) -> (r: bool)
    ensures
        r == track_texture_readable(data@),
{
    let len = data.len();
    if len < 0x40 || !(data[0] == 0x33 && data[1] == 0x53 && data[2] == 0x58 && data[3] == 0x54) {
        return true;
    }
    let count = read_u16(data, 0x16);
    let ii = read_u32(data, 0x1c) as usize;
    if count == 0 || ii > len || len - ii < 0x20 {
        return true;
    }
    let data_ptr = read_u32(data, ii) as u64;
    let data_size = read_u32(data, ii + 4) as u64;
    let code = data[ii + 9];
    let width = read_u16(data, ii + 0x0c) as u64;
    let height = read_u16(data, ii + 0x0e) as u64;
    if width == 0 || height == 0 || data_ptr == 0 || data_size == 0 || code > 6 {
        return true;
    }
    let fmt = match code {
        0 => GeTextureFormat::Rgb565,
        1 => GeTextureFormat::Rgba5551,
        2 => GeTextureFormat::Rgba4444,
        3 => GeTextureFormat::Rgba8888,
        4 => GeTextureFormat::Dxt1,
        5 => GeTextureFormat::Dxt5,
        _ => GeTextureFormat::Dxt3,
    };
    let is_dxt = code >= 4;
    let bpp = texture_bits_per_pixel(fmt) as u64;
    proof {
        crate::texture::lemma_bits_per_pixel_values(fmt);
        assert(width * height <= 0xffff * 0xffff && width * height * bpp <= 0xffff * 0xffff * 32)
            by (nonlinear_arith)
            requires
                width <= 0xffff,
                height <= 0xffff,
                bpp <= 32,
        ;
        assert(((width + 3) / 4) * ((height + 3) / 4) * 16 <= 0x4001 * 0x4001 * 16) by (nonlinear_arith)
            requires
                width <= 0xffff,
                height <= 0xffff,
        ;
    }
    let pixels_bits = width * height * bpp;
    let expected: u64 = if is_dxt {
        let block: u64 = if code == 4 {
            8
        } else {
            16
        };
        ((width + 3) / 4) * ((height + 3) / 4) * block
    } else {
        pixels_bits / 8
    };
    if expected > 0xffff_ffff || pixels_bits > 0xffff_ffff || data_ptr > len as u64 {
        return false;
    }
    let bufw = compute_texture_bufw(width as u32, fmt) as u64;
    proof {
        assert((height + 16) * (bufw + 16) * 64 + (width + 3) * (height + 3) <= 0x100_0000_0000) by (nonlinear_arith)
            requires
                width <= 0xffff,
                height <= 0xffff,
                bufw < width + 32,
        ;
    }
    let need: u64 = (height + 16) * (bufw + 16) * 64 + (width + 3) * (height + 3) + width * 4 + 4;
    if bufw * 32 > 0xffff_ffff || need > usize::MAX as u64 {
        return false;
    }
    let swizzled = (data[0x24] & 1) != 0;
    if swizzled && !is_dxt {
        let end = if data_ptr + data_size < len as u64 {
            data_ptr + data_size
        } else {
            len as u64
        };
        let raw_len = end - data_ptr;
        let total = if raw_len < expected {
            expected
        } else {
            raw_len
        };
        proof {
            let px = track_pixel_bytes(data@, data_ptr as int, data_size as int, expected as int);
            assert(px.len() == total);
        }
        return total % 4 == 0;
    }
    true
}

/// The message for an unsupported texture format, the code in decimal.
fn unsupported_format_error(code: u8) -> (e: String)
    ensures
        e@ == "Unsupported TXS3 texture format: "@ + decimal_text(code as nat),
{
    let mut e = String::new();
    e.append("Unsupported TXS3 texture format: ");
    push_decimal(&mut e, code as u64);
    e
}

/// Whether `r` is what reading the track texture file `d` gives: the texture that
/// `track_texture_at` describes, decoded by `psp_texel` at the buffer width that
/// `compute_texture_bufw` gives, or the message of its error.
pub open spec fn txs3_texture_result(d: Seq<u8>, r: Result<TrackTexture, String>) -> bool {
    match r {
        Ok(t) => track_texture_at(d) is Ok && ({
            let (w, h, fmt, px, sw) = track_texture_at(d)->Ok_0;
            &&& t.width == w
            &&& t.height == h
            &&& t.data@ == fill_result(
                Seq::new((w * h) as nat, |i: int| 0u32),
                w as int,
                h as int,
                |x: int, y: int| psp_texel(px, w, h, bufw_for(w, fmt) as u32, fmt, sw, x, y),
            )
        }),
        Err(e) => track_texture_at(d) == Err::<(u32, u32, GeTextureFormat, Seq<u8>, bool), Seq<char>>(e@),
    }
}

/// The decoded texture of a track texture file (see `track_texture_at` and
/// `decode_psp_texture`, with the buffer width that `compute_texture_bufw` gives).
pub fn parse_txs3_texture(data: &[u8]) -> (r: Result<TrackTexture, String>)
    requires
        track_texture_readable(data@),
    ensures
        txs3_texture_result(data@, r),
{
    let len = data.len();
    if len < 0x40 || !(data[0] == 0x33 && data[1] == 0x53 && data[2] == 0x58 && data[3] == 0x54) {
        return Err(String::from_str("Not a TXS3 texture file"));
    }
    let count = read_u16(data, 0x16);
    let ii = read_u32(data, 0x1c) as usize;
    if count == 0 || ii > len || len - ii < 0x20 {
        return Err(String::from_str("No image info in TXS3"));
    }
    let data_ptr = read_u32(data, ii) as usize;
    let data_size = read_u32(data, ii + 4) as usize;
    let code = data[ii + 9];
    let width = read_u16(data, ii + 0x0c) as u32;
    let height = read_u16(data, ii + 0x0e) as u32;
    if width == 0 || height == 0 || data_ptr == 0 || data_size == 0 {
        return Err(String::from_str("Invalid texture image info"));
    }
    let fmt = match code {
        0 => GeTextureFormat::Rgb565,
        1 => GeTextureFormat::Rgba5551,
        2 => GeTextureFormat::Rgba4444,
        3 => GeTextureFormat::Rgba8888,
        4 => GeTextureFormat::Dxt1,
        5 => GeTextureFormat::Dxt5,
        6 => GeTextureFormat::Dxt3,
        _ => return Err(unsupported_format_error(code)),
    };
    let is_dxt = match fmt {
        GeTextureFormat::Dxt1 | GeTextureFormat::Dxt3 | GeTextureFormat::Dxt5 => true,
        _ => false,
    };
    let bpp = texture_bits_per_pixel(fmt);
    assert({
        let t = track_texture_at(data@);
        &&& t is Ok
        &&& t->Ok_0.0 == width
        &&& t->Ok_0.1 == height
        &&& t->Ok_0.2 == fmt
    });
    assert(width * height * bpp <= u32::MAX);
    proof {
        crate::texture::lemma_bits_per_pixel_values(fmt);
        assert(width * height <= width * height * bpp) by (nonlinear_arith)
            requires
                bpp >= 1,
        ;
    }
    let expected: usize = if is_dxt {
        let block: u32 = match fmt {
            GeTextureFormat::Dxt1 => 8,
            _ => 16,
        };
        (((width + 3) / 4) * ((height + 3) / 4) * block) as usize
    } else {
        (width * height * bpp / 8) as usize
    };
    let sum = data_ptr as u64 + data_size as u64;
    let end = if sum < len as u64 {
        sum as usize
    } else {
        len
    };
    let mut tex = copy_range(data, data_ptr, end);
    let ghost raw = tex@;
    while tex.len() < expected
        invariant
            raw.len() <= tex@.len(),
            tex@.len() <= (if raw.len() < expected {
                expected as int
            } else {
                raw.len() as int
            }),
            tex@ == raw + Seq::new((tex@.len() - raw.len()) as nat, |i: int| 0u8),
        decreases expected - tex@.len(),
    {
        tex.push(0);
        proof {
            assert(tex@ =~= raw + Seq::new((tex@.len() - raw.len()) as nat, |i: int| 0u8));
        }
    }
    proof {
        if raw.len() >= expected {
            assert(tex@ =~= raw);
        }
        assert(tex@ =~= track_pixel_bytes(data@, data_ptr as int, data_size as int, expected as int));
        assert(track_texture_at(data@) == Ok::<(u32, u32, GeTextureFormat, Seq<u8>, bool), Seq<char>>(
            (width, height, fmt, tex@, data@[0x24] & 1 != 0),
        ));
    }
    let bufw = compute_texture_bufw(width, fmt);
    let swizzled = len > 0x24 && (data[0x24] & 1) != 0;
    proof {
        crate::texture::lemma_bits_per_pixel_values(fmt);
        lemma_track_texture_fits(width, height);
    }
    let decoded = decode_psp_texture(tex.as_slice(), width, height, bufw, fmt, swizzled);
    let t = TrackTexture { data: decoded, width, height };
    proof {
        assert(swizzled == (data@[0x24] & 1 != 0));
        assert(bufw == bufw_for(width, fmt) as u32);
        let f1 = |x: int, y: int| psp_texel(tex@, width, height, bufw, fmt, swizzled, x, y);
        let f2 = |x: int, y: int|
            psp_texel(tex@, width, height, bufw_for(width, fmt) as u32, fmt, swizzled, x, y);
        assert(f1 =~= f2);
    }
    Ok(t)
}

/// The pixel count of a texture of at most 65535 by 65535 pixels fits in 32 bits.
proof fn lemma_track_texture_fits(width: u32, height: u32)
    requires
        width <= 0xffff,
        height <= 0xffff,
    ensures
        width * height <= u32::MAX,
{
    assert(width * height <= 0xffff * 0xffff) by (nonlinear_arith)
        requires
            width <= 0xffff,
            height <= 0xffff,
    ;
}

/// The start of the first "3LDM" in `d` at or after `i`.
pub open spec fn ldm_magic_from(d: Seq<u8>, i: int) -> Option<int>
    decreases d.len() - i,
{
    if i < 0 || i + 4 > d.len() {
        None
    } else if d[i] == 0x33 && d[i + 1] == 0x4c && d[i + 2] == 0x44 && d[i + 3] == 0x4d {
        Some(i)
    } else {
        ldm_magic_from(d, i + 1)
    }
}

/// The texture file that a track file carries: from its first "3LDM" on, the 32-bit
/// pointer at 0x48 leads (when it is not 0 and lies inside) to bytes that start with
/// "3SXT"; those bytes to the end.
pub open spec fn embedded_texture_bytes(d: Seq<u8>) -> Option<Seq<u8>> {
    match ldm_magic_from(d, 0) {
        None => None,
        Some(base) => {
            let hdr = d.subrange(base, d.len() as int);
            let tp = spec_read_u32(hdr, 0x48) as int;
            if tp == 0 || tp >= hdr.len() {
                None
            } else {
                let t = hdr.subrange(tp, hdr.len() as int);
                if t.len() >= 4 && t[0] == 0x33 && t[1] == 0x53 && t[2] == 0x58 && t[3] == 0x54 {
                    Some(t)
                } else {
                    None
                }
            }
        },
    }
}

/// The texture bytes that a track file carries (see `embedded_texture_bytes`).
pub fn embedded_texture(track_data: &[u8]) -> (r: Option<Vec<u8>>)
    ensures
        match embedded_texture_bytes(track_data@) {
            None => r is None,
            Some(t) => r matches Some(v) && v@ == t,
        },
{
    let n = track_data.len();
    let mut i: usize = 0;
    let mut found = false;
    while !found && n - i >= 4
        invariant
            n == track_data@.len(),
            i <= n,
            ldm_magic_from(track_data@, 0) == if found {
                Some(i as int)
            } else {
                ldm_magic_from(track_data@, i as int)
            },
            found ==> n - i >= 4,
        decreases n - i + (if found { 0int } else { 1int }),
    {
        if track_data[i] == 0x33 && track_data[i + 1] == 0x4c && track_data[i + 2] == 0x44
            && track_data[i + 3] == 0x4d {
            found = true;
        } else {
            i = i + 1;
        }
    }
    if !found {
        return None;
    }
    let hdr = copy_range(track_data, i, n);
    let tex_ptr = read_u32(hdr.as_slice(), 0x48) as usize;
    if tex_ptr == 0 || tex_ptr >= hdr.len() {
        return None;
    }
    let tex = copy_range(hdr.as_slice(), tex_ptr, hdr.len());
    if tex.len() < 4 || !(tex[0] == 0x33 && tex[1] == 0x53 && tex[2] == 0x58 && tex[3] == 0x54) {
        return None;
    }
    Some(tex)
}

/// The texture embedded in a track file: the texture that its texture bytes (see
/// `embedded_texture_bytes`) decode to, or nothing when it has none or they do not
/// decode.
pub fn load_embedded_texture(track_data: &[u8]) -> (r: Option<TrackTexture>)
    requires
        embedded_texture_bytes(track_data@) matches Some(t) ==> track_texture_readable(t),
    ensures
        match embedded_texture_bytes(track_data@) {
            None => r is None,
            Some(t) => match r {
                Some(x) => txs3_texture_result(t, Ok(x)),
                None => track_texture_at(t) is Err,
            },
        },
{
    match embedded_texture(track_data) {
        None => None,
        Some(tex) => match parse_txs3_texture(tex.as_slice()) {
            Ok(t) => Some(t),
            Err(_) => None,
        },
    }
}

} // verus!
