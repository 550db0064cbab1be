//! Sprite textures: TXS3 image headers, pixel formats decoded to RGBA, and a bounded
//! cache of decoded sprites.
//!
//! A TXS3 block starts with "3SXT" or "TXS3"; the u32 at 0x1C locates the image
//! info, whose fields are the data size (+0x04), the format (+0x09), the width (+0x0C),
//! the height (+0x0E) and the pixel data offset (+0x24). Offsets may be absolute in an
//! enclosing file, so a base offset is taken off them.
use vstd::prelude::*;
use vstd::string::StringExecFns;
use vstd::string::StrSliceExecFns;
use crate::bytes::{le_u16, le_u32, read_u16, read_u32, copy_range};
use crate::graphics::LoadedTexture;

verus! {

/// Bytes per pixel of a sprite format: 4 for RGBA8888 (1), 2 for RGBA5551 (3), RGB565
/// (4) and RGBA4444 (5), 1 for L8 (7) and L4 (8), 2 for any other.
pub open spec fn sprite_bpp(format: u8) -> u32 {
    if format == 1 {
        4
    } else if format == 7 || format == 8 {
        1
    } else {
        2
    }
}

/// Bytes per pixel of a sprite format (see `sprite_bpp`).
pub fn bytes_per_pixel(format: u8) -> (r: u32)
    ensures
        r == sprite_bpp(format),
{
    match format {
        1 => 4,
        3 => 2,
        4 => 2,
        5 => 2,
        7 => 1,
        8 => 1,
        _ => 2,
    }
}

/// The widths tried, largest first, when the header's size disagrees with the data.
pub open spec fn candidate_widths() -> Seq<u32> {
    seq![512u32, 480, 384, 320, 256, 192, 160, 128, 96, 80, 64, 48, 32, 24, 16, 8]
}

/// `px` pixels make whole rows of width `w` whose height is within a factor 8 of `w`.
pub open spec fn width_fits(px: int, w: int) -> bool {
    &&& px % w == 0
    &&& px / w >= w / 8
    &&& px / w <= w * 8
}

/// The first candidate width from index `k` on that `px` pixels fit.
pub open spec fn first_fitting_width(px: int, k: nat) -> Option<u32>
    decreases 16 - k,
{
    if k >= 16 {
        None
    } else if width_fits(px, candidate_widths()[k as int] as int) {
        Some(candidate_widths()[k as int])
    } else {
        first_fitting_width(px, k + 1)
    }
}

/// The width a sprite really has: the header's, when its pixel count is within a factor
/// 2 of what `data_size` holds, equals it, or is zero; otherwise the first candidate
/// width that fits, falling back to the header's.
pub open spec fn real_width(hw: u32, hh: u32, data_size: int, format: u8) -> u32 {
    let px = data_size / (sprite_bpp(format) as int);
    let expected = hw * hh;
    if hw > 0 && hh > 0 && expected > 0 && px >= expected / 2 && px <= expected * 2 {
        hw
    } else if expected == px || expected == 0 {
        hw
    } else {
        match first_fitting_width(px, 0) {
            Some(w) => w,
            None => hw,
        }
    }
}

/// The width of a sprite whose header says `header_w` by `header_h` (see `real_width`).
pub fn compute_real_dim(header_w: u32, header_h: u32, data_size: usize, format: u8) -> (r: u32)
    requires
        header_w * header_h <= u32::MAX,
    ensures
        r == real_width(header_w, header_h, data_size as int, format),
{
    let bpp = bytes_per_pixel(format) as u64;
    let px_from_size: u64 = data_size as u64 / bpp;
    let expected_px: u64 = (header_w * header_h) as u64;
    if header_w > 0 && header_h > 0 && expected_px > 0 {
        if px_from_size >= expected_px / 2 && px_from_size <= expected_px * 2 {
            return header_w;
        }
    }
    if expected_px == px_from_size || expected_px == 0 {
        return header_w;
    }
    let widths: [u32; 16] = [512, 480, 384, 320, 256, 192, 160, 128, 96, 80, 64, 48, 32, 24, 16, 8];
    proof {
        assert(widths@ =~= candidate_widths());
    }
    assert(real_width(header_w, header_h, data_size as int, format) == match first_fitting_width(
        px_from_size as int,
        0,
    ) {
        Some(w) => w,
        None => header_w,
    });
    let mut k: usize = 0;
    while k < 16
        invariant
            real_width(header_w, header_h, data_size as int, format) == match first_fitting_width(
                px_from_size as int,
                0,
            ) {
                Some(w) => w,
                None => header_w,
            },
            k <= 16,
            widths@ == candidate_widths(),
            px_from_size == data_size as int / (sprite_bpp(format) as int),
            first_fitting_width(px_from_size as int, 0) == first_fitting_width(
                px_from_size as int,
                k as nat,
            ),
        decreases 16 - k,
    {
        let w = widths[k];
        assert(w == candidate_widths()[k as int]);
        assert(8 <= w <= 512);
        if px_from_size % (w as u64) == 0 {
            let h = px_from_size / (w as u64);
            if h >= (w / 8) as u64 && h <= (w * 8) as u64 {
                assert(width_fits(px_from_size as int, w as int));
                assert(first_fitting_width(px_from_size as int, k as nat) == Some(w));
                return w;
            }
        }
        assert(!width_fits(px_from_size as int, w as int));
        k += 1;
    }
    header_w
}

/// Expands a 5-bit channel to 0..255 by `v * 255 / 31`.
pub open spec fn scale5(v: u16) -> u8 {
    ((v as int) * 255 / 31) as u8
}

/// Expands a 6-bit channel to 0..255 by `v * 255 / 63`.
pub open spec fn scale6(v: u16) -> u8 {
    ((v as int) * 255 / 63) as u8
}

/// Expands a 4-bit channel to 0..255 by `v * 255 / 15`.
pub open spec fn scale4(v: u16) -> u8 {
    ((v as int) * 255 / 15) as u8
}

/// Channel `c` (0 red .. 3 alpha) of an RGBA5551 pixel (red in the top bits, alpha the
/// lowest bit).
pub open spec fn channel_5551(p: u16, c: int) -> u8 {
    if c == 0 {
        scale5((p >> 11u16) & 0x1f)
    } else if c == 1 {
        scale5((p >> 6u16) & 0x1f)
    } else if c == 2 {
        scale5((p >> 1u16) & 0x1f)
    } else if p & 1 != 0 {
        255
    } else {
        0
    }
}

/// Channel `c` of an RGB565 pixel, opaque.
pub open spec fn channel_565(p: u16, c: int) -> u8 {
    if c == 0 {
        scale5((p >> 11u16) & 0x1f)
    } else if c == 1 {
        scale6((p >> 5u16) & 0x3f)
    } else if c == 2 {
        scale5(p & 0x1f)
    } else {
        255
    }
}

/// Channel `c` of an RGBA4444 pixel (red in the top nibble).
pub open spec fn channel_4444(p: u16, c: int) -> u8 {
    if c == 0 {
        scale4((p >> 12u16) & 0xf)
    } else if c == 1 {
        scale4((p >> 8u16) & 0xf)
    } else if c == 2 {
        scale4((p >> 4u16) & 0xf)
    } else {
        scale4(p & 0xf)
    }
}

/// Byte `k` of the RGBA stream that pixel data in `format` decodes to, before it is fit
/// to `count` pixels: RGBA8888 copies whole 4-byte groups; the 16-bit formats decode
/// each little-endian pair; L8 gives grey opaque pixels; L4 gives two grey pixels per
/// byte, high nibble first; any other format gives `count` magenta pixels. Past the end
/// of the stream the byte is 0.
pub open spec fn sprite_byte(px: Seq<u8>, format: u8, count: int, k: int) -> u8 {
    let c = k % 4;
    if format == 1 {
        if k < 4 * (px.len() / 4) {
            px[k]
        } else {
            0
        }
    } else if format == 3 || format == 4 || format == 5 {
        if k < 4 * (px.len() / 2) {
            let p = le_u16(px, 2 * (k / 4));
            if format == 3 {
                channel_5551(p, c)
            } else if format == 4 {
                channel_565(p, c)
            } else {
                channel_4444(p, c)
            }
        } else {
            0
        }
    } else if format == 7 {
        if k < 4 * px.len() {
            if c == 3 {
                255
            } else {
                px[k / 4]
            }
        } else {
            0
        }
    } else if format == 8 {
        if k < 8 * px.len() {
            let b = px[k / 8];
            let v = if k % 8 < 4 {
                (b >> 4u8) & 0xf
            } else {
                b & 0xf
            };
            if c == 3 {
                255
            } else {
                scale4(v as u16)
            }
        } else {
            0
        }
    } else if k < 4 * count {
        if c == 1 {
            0
        } else {
            255
        }
    } else {
        0
    }
}

/// The RGBA bytes of `count` pixels decoded from `px` in `format`.
pub open spec fn sprite_rgba(px: Seq<u8>, format: u8, count: int) -> Seq<u8> {
    Seq::new((4 * count) as nat, |k: int| sprite_byte(px, format, count, k))
}

/// What the sprite formats make of pixel `i` (its four RGBA bytes at `4 * i`): RGBA8888
/// copies the pixel's four bytes; L8 repeats its byte as grey, opaque; L4 takes the high
/// nibble for even pixels and the low one for odd pixels, times 17, as grey, opaque;
/// RGBA5551 (alpha the low bit) is opaque exactly when that bit is set; RGB565 is
/// opaque; a format it does not know gives opaque magenta.
pub proof fn lemma_sprite_pixels(px: Seq<u8>, format: u8, count: int, i: int)
    requires
        0 <= i < count,
    ensures
        ({
            let out = sprite_rgba(px, format, count);
            &&& out.len() == 4 * count
            &&& format == 1 && 4 * i + 4 <= px.len() ==> out[4 * i] == px[4 * i] && out[4 * i + 1] == px[4 * i + 1]
                && out[4 * i + 2] == px[4 * i + 2] && out[4 * i + 3] == px[4 * i + 3]
            &&& format == 7 && i < px.len() ==> out[4 * i] == px[i] && out[4 * i + 1] == px[i] && out[4 * i + 2]
                == px[i] && out[4 * i + 3] == 255
            &&& format == 8 && i < 2 * px.len() ==> ({
                let v = if i % 2 == 0 { px[i / 2] / 16 } else { px[i / 2] % 16 };
                out[4 * i] == v * 17 && out[4 * i + 1] == v * 17 && out[4 * i + 2] == v * 17 && out[4 * i + 3] == 255
            })
            &&& format == 3 && i < px.len() / 2 ==> out[4 * i + 3] == (if le_u16(px, 2 * i) % 2 == 1 { 255u8 } else { 0u8 })
            &&& format == 4 && i < px.len() / 2 ==> out[4 * i + 3] == 255
            &&& !(format == 1 || format == 3 || format == 4 || format == 5 || format == 7 || format == 8) ==> out[4 * i]
                == 255 && out[4 * i + 1] == 0 && out[4 * i + 2] == 255 && out[4 * i + 3] == 255
        }),
{
    let out = sprite_rgba(px, format, count);
    assert(out[4 * i] == sprite_byte(px, format, count, 4 * i));
    assert(out[4 * i + 1] == sprite_byte(px, format, count, 4 * i + 1));
    assert(out[4 * i + 2] == sprite_byte(px, format, count, 4 * i + 2));
    assert(out[4 * i + 3] == sprite_byte(px, format, count, 4 * i + 3));
    if format == 8 && i < 2 * px.len() {
        let b = px[i / 2];
        assert((4 * i) / 8 == i / 2 && (4 * i + 1) / 8 == i / 2 && (4 * i + 2) / 8 == i / 2 && (4 * i + 3) / 8 == i / 2);
        assert(((b >> 4u8) & 0xfu8) == b / 16 && (b & 0xfu8) == b % 16) by (bit_vector);
        let v = if i % 2 == 0 { b / 16 } else { b % 16 };
        assert(scale4(v as u16) == v * 17);
    }
    if format == 3 && i < px.len() / 2 {
        let p = le_u16(px, 2 * i);
        assert((p & 1u16 != 0) == (p % 2 == 1)) by (bit_vector);
    }
}

/// A mask bounds the value it keeps.
proof fn lemma_and_le(x: u16, m: u16)
    ensures
        x & m <= m,
{
    assert(x & m <= m) by (bit_vector);
}

/// Byte `k` of the decoded stream (see `sprite_byte`).
fn sprite_byte_at(px: &[u8], format: u8, count: u64, k: u64) -> (b: u8)
    requires
        count <= u32::MAX,
        k < 4 * count,
    ensures
        b == sprite_byte(px@, format, count as int, k as int),
{
    let len = px.len() as u64;
    let c = k % 4;
    if format == 1 {
        if k / 4 < len / 4 {
            px[k as usize]
        } else {
            0
        }
    } else if format == 3 || format == 4 || format == 5 {
        if k / 4 < len / 2 {
            let p = read_u16(px, (2 * (k / 4)) as usize);
            proof {
                lemma_and_le(p >> 11u16, 0x1f);
                lemma_and_le(p >> 6u16, 0x1f);
                lemma_and_le(p >> 1u16, 0x1f);
                lemma_and_le(p >> 5u16, 0x3f);
                lemma_and_le(p, 0x1f);
                lemma_and_le(p >> 12u16, 0xf);
                lemma_and_le(p >> 8u16, 0xf);
                lemma_and_le(p >> 4u16, 0xf);
                lemma_and_le(p, 0xf);
            }
            if format == 3 {
                if c == 0 {
                    (((p >> 11) & 0x1f) * 255 / 31) as u8
                } else if c == 1 {
                    (((p >> 6) & 0x1f) * 255 / 31) as u8
                } else if c == 2 {
                    (((p >> 1) & 0x1f) * 255 / 31) as u8
                } else if p & 1 != 0 {
                    255
                } else {
                    0
                }
            } else if format == 4 {
                if c == 0 {
                    (((p >> 11) & 0x1f) * 255 / 31) as u8
                } else if c == 1 {
                    (((p >> 5) & 0x3f) * 255 / 63) as u8
                } else if c == 2 {
                    ((p & 0x1f) * 255 / 31) as u8
                } else {
                    255
                }
            } else {
                if c == 0 {
                    (((p >> 12) & 0xf) * 255 / 15) as u8
                } else if c == 1 {
                    (((p >> 8) & 0xf) * 255 / 15) as u8
                } else if c == 2 {
                    (((p >> 4) & 0xf) * 255 / 15) as u8
                } else {
                    ((p & 0xf) * 255 / 15) as u8
                }
            }
        } else {
            0
        }
    } else if format == 7 {
        if k / 4 < len {
            if c == 3 {
                255
            } else {
                px[(k / 4) as usize]
            }
        } else {
            0
        }
    } else if format == 8 {
        if k / 8 < len {
            let b = px[(k / 8) as usize];
            let v = if k % 8 < 4 {
                (b >> 4) & 0xf
            } else {
                b & 0xf
            };
            if c == 3 {
                255
            } else {
                ((v as u16) * 255 / 15) as u8
            }
        } else {
            0
        }
    } else if c == 1 {
        0
    } else {
        255
    }
}

/// Decodes `w * h` pixels of `format` to RGBA (see `sprite_byte`).
pub fn decode_to_rgba(pixels: &[u8], format: u8, w: u32, h: u32) -> (rgba: Vec<u8>)
    requires
        w * h <= u32::MAX,
    ensures
        rgba@ == sprite_rgba(pixels@, format, w * h),
{
    let count: u64 = (w * h) as u64;
    let total: u64 = count * 4;
    let mut rgba: Vec<u8> = Vec::new();
    let mut k: u64 = 0;
    while k < total
        invariant
            count == w * h,
            count <= u32::MAX,
            total == 4 * count,
            k <= total,
            rgba@ =~= sprite_rgba(pixels@, format, count as int).subrange(0, k as int),
        decreases total - k,
    {
        let b = sprite_byte_at(pixels, format, count, k);
        rgba.push(b);
        k += 1;
    }
    rgba
}

/// The block starts with "3SXT" or "TXS3".
pub open spec fn txs3_magic(d: Seq<u8>) -> bool {
    ||| (d[0] == 0x33u8 && d[1] == 0x53u8 && d[2] == 0x58u8 && d[3] == 0x54u8)
    ||| (d[0] == 0x54u8 && d[1] == 0x58u8 && d[2] == 0x53u8 && d[3] == 0x33u8)
}

/// The height that goes with the real width `aw`: the header's when the width was kept,
/// else the whole rows of `aw` pixels that the data holds.
pub open spec fn real_height(hw: u32, aw: u32, hh: u32, data_size: int, format: u8) -> u32 {
    if aw != hw {
        ((data_size / (sprite_bpp(format) as int)) / (if aw >= 1 {
            aw as int
        } else {
            1
        })) as u32
    } else {
        hh
    }
}

/// What a TXS3 block at the start of `d` decodes to, header offsets taken relative to
/// `base`: the width, height and RGBA bytes, or the reason it cannot be read.
pub open spec fn txs3_at(d: Seq<u8>, base: int) -> Result<(u32, u32, Seq<u8>), Seq<char>> {
    if d.len() < 32 {
        Err("TXS3 too short"@)
    } else if !txs3_magic(d) {
        Err("Not TXS3 format"@)
    } else if base > le_u32(d, 0x1c) {
        Err("ImageInfo offset is before TXS3 base"@)
    } else {
        let io = le_u32(d, 0x1c) - base;
        if io + 0x30 > d.len() {
            Err("ImageInfo out of range"@)
        } else {
            let size = le_u32(d, io + 4) as int;
            let format = d[io + 9];
            let w = le_u16(d, io + 0x0c) as u32;
            let h = le_u16(d, io + 0x0e) as u32;
            if base > le_u32(d, io + 0x24) {
                Err("Pixel data offset is before TXS3 base"@)
            } else {
                let po = le_u32(d, io + 0x24) - base;
                if po + size > d.len() {
                    Err("Pixel data out of range"@)
                } else {
                    let aw = real_width(w, h, size, format);
                    let ah = real_height(w, aw, h, size, format);
                    Ok((aw, ah, sprite_rgba(d.subrange(po, po + size), format, aw * ah)))
                }
            }
        }
    }
}

/// A fitting candidate width is one of the candidates, all between 8 and 512.
proof fn lemma_first_fitting_width(px: int, k: nat)
    ensures
        first_fitting_width(px, k) matches Some(w) ==> 8 <= w <= 512,
    decreases 16 - k,
{
    if k < 16 {
        lemma_first_fitting_width(px, k + 1);
    }
}

/// The real size's pixel count fits in 32 bits.
proof fn lemma_real_size_fits(w: u32, h: u32, size: int, format: u8)
    requires
        w <= 0xffff,
        h <= 0xffff,
        0 <= size <= u32::MAX,
    ensures
        real_width(w, h, size, format) * real_height(w, real_width(w, h, size, format), h, size, format)
            <= u32::MAX,
        w * h <= u32::MAX,
{
    assert(w * h <= 0xffff * 0xffff) by (nonlinear_arith)
        requires
            w <= 0xffff,
            h <= 0xffff,
    ;
    let aw = real_width(w, h, size, format);
    if aw != w {
        lemma_first_fitting_width(size / (sprite_bpp(format) as int), 0);
        let px = size / (sprite_bpp(format) as int);
        let ah = px / (aw as int);
        assert(aw * ah <= px) by (nonlinear_arith)
            requires
                aw >= 8,
                ah == px / (aw as int),
                px >= 0,
        ;
    }
}

/// Decodes a TXS3 block, taking `base` off its header offsets (see `txs3_at`).
pub fn parse_txs3_texture_at(data: &[u8], base: usize) -> (r: Result<LoadedTexture, String>)
    ensures
        match r {
            Ok(t) => txs3_at(data@, base as int) == Ok::<(u32, u32, Seq<u8>), Seq<char>>(
                (t.width, t.height, t.rgba@),
            ),
            Err(e) => txs3_at(data@, base as int) == Err::<(u32, u32, Seq<u8>), Seq<char>>(e@),
        },
{
    let len = data.len();
    if len < 32 {
        return Err(String::from_str("TXS3 too short"));
    }
    let is_txs3 = (data[0] == 0x33 && data[1] == 0x53 && data[2] == 0x58 && data[3] == 0x54) || (
    data[0] == 0x54 && data[1] == 0x58 && data[2] == 0x53 && data[3] == 0x33);
    if !is_txs3 {
        return Err(String::from_str("Not TXS3 format"));
    }
    let abs_img_info = read_u32(data, 0x1c) as usize;
    if base > abs_img_info {
        return Err(String::from_str("ImageInfo offset is before TXS3 base"));
    }
    let io = abs_img_info - base;
    if io > len || len - io < 0x30 {
        return Err(String::from_str("ImageInfo out of range"));
    }
    let data_size = read_u32(data, io + 4) as usize;
    let format = data[io + 9];
    let w = read_u16(data, io + 0x0c) as u32;
    let h = read_u16(data, io + 0x0e) as u32;
    let abs_pixel = read_u32(data, io + 0x24) as usize;
    if base > abs_pixel {
        return Err(String::from_str("Pixel data offset is before TXS3 base"));
    }
    let po = abs_pixel - base;
    if po > len || len - po < data_size {
        return Err(String::from_str("Pixel data out of range"));
    }
    proof {
        lemma_real_size_fits(w, h, data_size as int, format);
    }
    let actual_w = compute_real_dim(w, h, data_size, format);
    let actual_h = if actual_w != w {
        let px_count = data_size as u64 / bytes_per_pixel(format) as u64;
        let div = if actual_w >= 1 {
            actual_w as u64
        } else {
            1
        };
        (px_count / div) as u32
    } else {
        h
    };
    let pixel_data = &data[po..po + data_size];
    let rgba = decode_to_rgba(pixel_data, format, actual_w, actual_h);
    Ok(LoadedTexture { width: actual_w, height: actual_h, rgba })
}

/// `s` is the side of a square of `px` pixels.
pub open spec fn square_side(px: int, s: int) -> bool {
    s > 0 && s * s == px
}

/// What a sprite file decodes to: a TXS3 block, or, for a file of at least 32 bytes that
/// is not one, a square RGB565 image when its byte pairs make a square number of pixels.
pub open spec fn sprite_file(d: Seq<u8>) -> Result<(u32, u32, Seq<u8>), Seq<char>> {
    if d.len() >= 32 && !txs3_magic(d) {
        let px = d.len() / 2;
        if exists|s: int| square_side(px as int, s) {
            let s = choose|s: int| square_side(px as int, s);
            Ok((s as u32, s as u32, sprite_rgba(d, 4, px as int)))
        } else {
            Err("Not TXS3 format"@)
        }
    } else {
        txs3_at(d, 0)
    }
}

/// `s` with `s * s <= px < (s + 1) * (s + 1)` is the only possible side of a square of
/// `px` pixels.
proof fn lemma_square_side_unique(px: int, s: int, t: int)
    requires
        s >= 0,
        s * s <= px < (s + 1) * (s + 1),
        square_side(px, t),
    ensures
        t == s,
{
    if t < s {
        assert(t * t < s * s) by (nonlinear_arith)
            requires
                0 < t < s,
        ;
    } else if t > s {
        assert(t * t >= (s + 1) * (s + 1)) by (nonlinear_arith)
            requires
                t >= s + 1,
                s >= 0,
        ;
    }
}

/// The largest `s` with `s * s <= px`.
fn square_root_floor(px: u64) -> (s: u64)
    requires
        px <= u32::MAX,
    ensures
        s * s <= px < (s + 1) * (s + 1),
        s <= 0x10000,
{
    let mut s: u64 = 0;
    loop
        invariant
            s * s <= px,
            px <= u32::MAX,
            s <= 0x10000,
        ensures
            s * s <= px < (s + 1) * (s + 1),
            s <= 0x10000,
        decreases px - s,
    {
        let next = s + 1;
        assert(next * next <= 0x10001 * 0x10001) by (nonlinear_arith)
            requires
                next <= 0x10001,
        ;
        if next * next > px {
            break;
        }
        proof {
            assert(next <= 0x10000) by (nonlinear_arith)
                requires
                    next * next <= px,
                    px <= u32::MAX,
            ;
            assert(s < px) by (nonlinear_arith)
                requires
                    next * next <= px,
                    next == s + 1,
                    s >= 0,
            ;
        }
        s = next;
    }
    s
}

/// Decodes a sprite file (see `sprite_file`).
pub fn parse_txs3_texture(data: &[u8]) -> (r: Result<LoadedTexture, String>)
    requires
        data@.len() <= u32::MAX,
    ensures
        match r {
            Ok(t) => sprite_file(data@) == Ok::<(u32, u32, Seq<u8>), Seq<char>>(
                (t.width, t.height, t.rgba@),
            ),
            Err(e) => sprite_file(data@) == Err::<(u32, u32, Seq<u8>), Seq<char>>(e@),
        },
{
    let len = data.len();
    if len >= 32 && !((data[0] == 0x33 && data[1] == 0x53 && data[2] == 0x58 && data[3] == 0x54)
        || (data[0] == 0x54 && data[1] == 0x58 && data[2] == 0x53 && data[3] == 0x33)) {
        let px_count = (len / 2) as u64;
        let side = square_root_floor(px_count);
        proof {
            if exists|t: int| square_side(px_count as int, t) {
                let t = choose|t: int| square_side(px_count as int, t);
                lemma_square_side_unique(px_count as int, side as int, t);
            }
        }
        if side * side == px_count && side > 0 {
            assert(square_side(px_count as int, side as int));
            let w = side as u32;
            let rgba = decode_to_rgba(data, 4, w, w);
            return Ok(LoadedTexture { width: w, height: w, rgba });
        }
        return Err(String::from_str("Not TXS3 format"));
    }
    parse_txs3_texture_at(data, 0)
}

/// A cached sprite: its key, the decoded texture and the access count when it was stored.
struct CachedSprite {
    key: String,
    texture: LoadedTexture,
    last_access: u64,
}

/// `s` with each backslash turned into a slash.
pub open spec fn forward_slashes(s: Seq<char>) -> Seq<char> {
    s.map_values(|c: char| if c == '\\' { '/' } else { c })
}

/// The files a sprite is looked for in, in order: its image under the piece directory,
/// the same with forward slashes, the path under the assets directory, and the path
/// itself.
pub open spec fn sprite_paths(p: Seq<char>) -> Seq<Seq<char>> {
    seq![
        "assets/piece_gt5m/"@ + p + ".img"@,
        "assets/piece_gt5m/"@ + forward_slashes(p) + ".img"@,
        "assets/"@ + p,
        p,
    ]
}

/// The files to try for the sprite `path` (see `sprite_paths`).
pub fn sprite_load_paths(path: &str) -> (paths: Vec<String>)
    ensures
        paths@.map_values(|s: String| s@) == sprite_paths(path@),
{
    let mut a = String::new();
    a.append("assets/piece_gt5m/");
    a.append(path);
    a.append(".img");
    let mut b = String::new();
    b.append("assets/piece_gt5m/");
    let ghost start = b@;
    let n = path.unicode_len();
    let mut i: usize = 0;
    while i < n
        invariant
            n == path@.len(),
            i <= n,
            b@ == start + forward_slashes(path@.subrange(0, i as int)),
        decreases n - i,
    {
        let c = path.get_char(i);
        if c == '\\' {
            b.push('/');
        } else {
            b.push(c);
        }
        proof {
            assert(forward_slashes(path@.subrange(0, i as int + 1)) =~= forward_slashes(
                path@.subrange(0, i as int),
            ).push(if c == '\\' { '/' } else { c }));
        }
        i = i + 1;
    }
    proof {
        assert(path@.subrange(0, n as int) =~= path@);
    }
    b.append(".img");
    let mut c = String::new();
    c.append("assets/");
    c.append(path);
    let d = String::from_str(path);
    let paths = vec![a, b, c, d];
    proof {
        assert(paths@.map_values(|s: String| s@) =~= sprite_paths(path@));
    }
    paths
}

/// A cache of decoded sprites by path, holding at most 512 of them; when a store goes
/// past that, the one stored longest ago goes.
pub struct SpriteCache {
    entries: Vec<CachedSprite>,
    access_counter: u64,
}

/// What the cache holds for one sprite: key, width, height, RGBA bytes, store stamp.
pub open spec fn entry_key(e: (Seq<char>, u32, u32, Seq<u8>, u64)) -> Seq<char> {
    e.0
}

/// Entry `i` is the first one stored under `key`.
pub open spec fn first_key(es: Seq<(Seq<char>, u32, u32, Seq<u8>, u64)>, key: Seq<char>, i: int) -> bool {
    &&& 0 <= i < es.len()
    &&& es[i].0 == key
    &&& forall|j: int| 0 <= j < i ==> #[trigger] es[j].0 != key
}

/// Some entry is stored under `key`.
pub open spec fn has_key(es: Seq<(Seq<char>, u32, u32, Seq<u8>, u64)>, key: Seq<char>) -> bool {
    exists|i: int| 0 <= i < es.len() && #[trigger] es[i].0 == key
}

/// Scanning the first `n` entries in order, the first one whose stamp is below every
/// earlier candidate's, starting from `u64::MAX` (so an entry stamped `u64::MAX` is
/// never picked).
pub open spec fn oldest_in(es: Seq<(Seq<char>, u32, u32, Seq<u8>, u64)>, n: nat) -> Option<int>
    decreases n,
{
    if n == 0 {
        None
    } else {
        match oldest_in(es, (n - 1) as nat) {
            None => if es[n - 1].4 < u64::MAX {
                Some(n - 1)
            } else {
                None
            },
            Some(i) => if es[n - 1].4 < es[i].4 {
                Some(n - 1)
            } else {
                Some(i)
            },
        }
    }
}

/// The entries after evicting the oldest one, unless it has an empty key.
pub open spec fn evict_oldest_of(es: Seq<(Seq<char>, u32, u32, Seq<u8>, u64)>) -> Seq<
    (Seq<char>, u32, u32, Seq<u8>, u64),
> {
    match oldest_in(es, es.len()) {
        Some(i) => if es[i].0.len() > 0 {
            es.remove(i)
        } else {
            es
        },
        None => es,
    }
}

/// The entries after storing `e` under its key (replacing the first entry of that key,
/// or added at the end), then evicting the oldest when there are more than 512.
pub open spec fn store_entry(
    es: Seq<(Seq<char>, u32, u32, Seq<u8>, u64)>,
    e: (Seq<char>, u32, u32, Seq<u8>, u64),
) -> Seq<(Seq<char>, u32, u32, Seq<u8>, u64)> {
    let added = if has_key(es, e.0) {
        es.update(choose|i: int| first_key(es, e.0, i), e)
    } else {
        es.push(e)
    };
    if added.len() > 512 {
        evict_oldest_of(added)
    } else {
        added
    }
}

impl View for SpriteCache {
    type V = Seq<(Seq<char>, u32, u32, Seq<u8>, u64)>;

    closed spec fn view(&self) -> Self::V {
        self.entries@.map_values(
            |e: CachedSprite|
                (e.key@, e.texture.width, e.texture.height, e.texture.rgba@, e.last_access),
        )
    }
}

/// `oldest_in` picks an index among the first `n`.
proof fn lemma_oldest_in_range(es: Seq<(Seq<char>, u32, u32, Seq<u8>, u64)>, n: nat)
    ensures
        oldest_in(es, n) matches Some(i) ==> 0 <= i < n,
    decreases n,
{
    if n > 0 {
        lemma_oldest_in_range(es, (n - 1) as nat);
    }
}

impl SpriteCache {
    /// The number of loads asked for so far; the stamp of the next store.
    pub closed spec fn counter(self) -> u64 {
        self.access_counter
    }

    /// The number of loads asked for so far.
    pub fn access_count(&self) -> (n: u64)
        ensures
            n == self.counter(),
    {
        self.access_counter
    }

    /// An empty cache.
    pub fn new() -> (c: Self)
        ensures
            c@.len() == 0,
            c.counter() == 0,
    {
        let c = SpriteCache { entries: Vec::new(), access_counter: 0 };
        proof {
            assert(c@ =~= Seq::empty());
        }
        c
    }

    /// Drops every sprite.
    pub fn clear(&mut self)
        ensures
            final(self)@.len() == 0,
            final(self).counter() == old(self).counter(),
    {
        self.entries.clear();
        proof {
            assert(self@ =~= Seq::empty());
        }
    }

    /// Counts a load of `path` and gives a copy of the sprite stored under it, if any.
    pub fn lookup(&mut self, path: &str) -> (r: Option<LoadedTexture>)
        requires
            old(self).counter() < u64::MAX,
        ensures
            final(self)@ == old(self)@,
            final(self).counter() == old(self).counter() + 1,
            match r {
                Some(t) => exists|i: int|
                    first_key(old(self)@, path@, i) && #[trigger] old(self)@[i] == (
                        path@,
                        t.width,
                        t.height,
                        t.rgba@,
                        old(self)@[i].4,
                    ),
                None => !has_key(old(self)@, path@),
            },
    {
        self.access_counter = self.access_counter + 1;
        let key = String::from_str(path);
        match self.find(&key) {
            Some(i) => {
                let t = self.entries[i].texture.duplicate();
                proof {
                    assert(self@[i as int] == (
                        path@,
                        t.width,
                        t.height,
                        t.rgba@,
                        self@[i as int].4,
                    ));
                }
                Some(t)
            },
            None => None,
        }
    }

    /// The index of the first entry stored under `key`.
    fn find(&self, key: &String) -> (r: Option<usize>)
        ensures
            match r {
                Some(i) => first_key(self@, key@, i as int),
                None => !has_key(self@, key@),
            },
    {
        let mut i: usize = 0;
        while i < self.entries.len()
            invariant
                i <= self.entries@.len(),
                forall|j: int| 0 <= j < i ==> #[trigger] self@[j].0 != key@,
            decreases self.entries@.len() - i,
        {
            if self.entries[i].key == *key {
                return Some(i);
            }
            i += 1;
        }
        proof {
            assert forall|j: int| 0 <= j < self@.len() implies #[trigger] self@[j].0 != key@ by {}
        }
        None
    }

    /// Removes the oldest entry (see `evict_oldest_of`).
    fn evict_oldest(&mut self)
        ensures
            final(self)@ == evict_oldest_of(old(self)@),
            final(self).counter() == old(self).counter(),
    {
        let mut oldest: u64 = u64::MAX;
        let mut oldest_idx: Option<usize> = None;
        let mut i: usize = 0;
        while i < self.entries.len()
            invariant
                i <= self.entries@.len(),
                oldest_idx == match oldest_in(self@, i as nat) {
                    Some(k) => Some(k as usize),
                    None => None::<usize>,
                },
                oldest == match oldest_in(self@, i as nat) {
                    Some(k) => self@[k].4,
                    None => u64::MAX,
                },
            decreases self.entries@.len() - i,
        {
            proof {
                lemma_oldest_in_range(self@, i as nat);
            }
            if self.entries[i].last_access < oldest {
                oldest = self.entries[i].last_access;
                oldest_idx = Some(i);
            }
            i += 1;
        }
        proof {
            lemma_oldest_in_range(self@, self@.len());
        }
        match oldest_idx {
            Some(k) => {
                if self.entries[k].key.as_str().unicode_len() > 0 {
                    let ghost before = self@;
                    self.entries.remove(k);
                    proof {
                        assert(self@ =~= before.remove(k as int));
                    }
                }
            },
            None => {},
        }
    }

    /// Stores a loaded sprite under `path`, stamped with the current count, evicting the
    /// oldest when the cache then holds more than 512.
    pub fn store(&mut self, path: &str, texture: LoadedTexture)
        ensures
            final(self)@ == store_entry(
                old(self)@,
                (path@, texture.width, texture.height, texture.rgba@, old(self).counter()),
            ),
            final(self).counter() == old(self).counter(),
    {
        let key = String::from_str(path);
        let ghost e = (path@, texture.width, texture.height, texture.rgba@, self.access_counter);
        let ghost before = self@;
        let entry = CachedSprite { key, texture, last_access: self.access_counter };
        match self.find(&entry.key) {
            Some(i) => {
                proof {
                    lemma_first_key(before, path@);
                }
                self.entries.set(i, entry);
                proof {
                    assert(self@ =~= before.update(i as int, e));
                }
            },
            None => {
                self.entries.push(entry);
                proof {
                    assert(self@ =~= before.push(e));
                }
            },
        }
        if self.entries.len() > 512 {
            self.evict_oldest();
        }
    }
}

/// What fetching a sprite does next.
pub enum SpriteFetch {
    /// The sprite, from the cache or from a file just read.
    Ready(LoadedTexture),
    /// Read and parse the candidate file with this index (see `sprite_paths`).
    Read(usize, String),
    /// No candidate file held a sprite.
    Missing,
}

/// The step after candidate `k` failed: the next candidate, or none left.
pub open spec fn after_failed(path: Seq<char>, k: int, r: SpriteFetch) -> bool {
    if k + 1 < 4 {
        r matches SpriteFetch::Read(j, s) && j == k + 1 && s@ == sprite_paths(path)[k + 1]
    } else {
        r is Missing
    }
}

impl SpriteCache {
    /// Starts fetching the sprite `path`: counts the load (see `lookup`) and gives the
    /// cached copy, or else the first candidate file to read.
    pub fn fetch_start(&mut self, path: &str) -> (r: SpriteFetch)
        requires
            old(self).counter() < u64::MAX,
        ensures
            final(self)@ == old(self)@,
            final(self).counter() == old(self).counter() + 1,
            match r {
                SpriteFetch::Ready(t) => exists|i: int|
                    first_key(old(self)@, path@, i) && #[trigger] old(self)@[i] == (
                        path@,
                        t.width,
                        t.height,
                        t.rgba@,
                        old(self)@[i].4,
                    ),
                SpriteFetch::Read(k, s) => !has_key(old(self)@, path@) && k == 0 && s@ == sprite_paths(path@)[0],
                SpriteFetch::Missing => false,
            },
    {
        match self.lookup(path) {
            Some(t) => SpriteFetch::Ready(t),
            None => {
                let mut paths = sprite_load_paths(path);
                proof {
                    assert(sprite_paths(path@).len() == 4);
                    assert(paths@.map_values(|s: String| s@).len() == paths@.len());
                    assert(paths@.map_values(|s: String| s@)[0] == paths@[0]@);
                }
                SpriteFetch::Read(0, paths.swap_remove(0))
            },
        }
    }

    /// Goes on after candidate `k` of the sprite `path` was read: a parsed sprite is
    /// stored (see `store`) and given; otherwise the next candidate, or none left.
    pub fn fetch_next(&mut self, path: &str, k: usize, parsed: Option<LoadedTexture>) -> (r: SpriteFetch)
        requires
            k < 4,
        ensures
            final(self).counter() == old(self).counter(),
            match parsed {
                Some(t) => final(self)@ == store_entry(
                    old(self)@,
                    (path@, t.width, t.height, t.rgba@, old(self).counter()),
                ) && (r matches SpriteFetch::Ready(u) && u.width == t.width && u.height == t.height
                    && u.rgba@ == t.rgba@),
                None => final(self)@ == old(self)@ && after_failed(path@, k as int, r),
            },
    {
        match parsed {
            Some(t) => {
                self.store(path, t.duplicate());
                SpriteFetch::Ready(t)
            },
            None => {
                if k + 1 < 4 {
                    let mut paths = sprite_load_paths(path);
                    proof {
                        assert(sprite_paths(path@).len() == 4);
                        assert(paths@.map_values(|s: String| s@).len() == paths@.len());
                        assert(paths@.map_values(|s: String| s@)[k + 1] == paths@[k + 1]@);
                    }
                    SpriteFetch::Read(k + 1, paths.swap_remove(k + 1))
                } else {
                    SpriteFetch::Missing
                }
            },
        }
    }
}

/// When some entry has `key`, exactly one index is the first with it.
proof fn lemma_first_key(es: Seq<(Seq<char>, u32, u32, Seq<u8>, u64)>, key: Seq<char>)
    requires
        has_key(es, key),
    ensures
        first_key(es, key, choose|i: int| first_key(es, key, i)),
        forall|i: int| #[trigger] first_key(es, key, i) ==> i == choose|k: int| first_key(es, key, k),
    decreases es.len(),
{
    let w = choose|i: int| 0 <= i < es.len() && #[trigger] es[i].0 == key;
    if has_key(es.drop_last(), key) {
        lemma_first_key(es.drop_last(), key);
        let k = choose|i: int| first_key(es.drop_last(), key, i);
        assert(first_key(es, key, k)) by {
            assert(es[k] == es.drop_last()[k]);
            assert forall|j: int| 0 <= j < k implies #[trigger] es[j].0 != key by {
                assert(es[j] == es.drop_last()[j]);
            }
        }
    } else {
        assert(first_key(es, key, w)) by {
            assert forall|j: int| 0 <= j < w implies #[trigger] es[j].0 != key by {
                if es[j].0 == key {
                    assert(es.drop_last()[j].0 == key);
                }
            }
        }
    }
    assert forall|i: int, k: int| first_key(es, key, i) && first_key(es, key, k) implies i
        == k by {
        if i < k {
            assert(es[i].0 != key);
        }
        if k < i {
            assert(es[k].0 != key);
        }
    }
}

/// With a first entry stamped below `u64::MAX`, the scan picks an entry of least stamp.
proof fn lemma_oldest_in_min(es: Seq<(Seq<char>, u32, u32, Seq<u8>, u64)>, n: nat)
    requires
        0 < n <= es.len(),
        es[0].4 < u64::MAX,
    ensures
        oldest_in(es, n) matches Some(i) && 0 <= i < n && forall|j: int|
            0 <= j < n ==> es[i].4 <= #[trigger] es[j].4,
    decreases n,
{
    if n > 1 {
        lemma_oldest_in_min(es, (n - 1) as nat);
        let i = oldest_in(es, (n - 1) as nat)->0;
        if es[n - 1].4 < es[i].4 {
            assert forall|j: int| 0 <= j < n implies es[n - 1].4 <= #[trigger] es[j].4 by {
                if j < n - 1 {
                    assert(es[i].4 <= es[j].4);
                }
            }
        } else {
            assert forall|j: int| 0 <= j < n implies es[i].4 <= #[trigger] es[j].4 by {
                if j < n - 1 {
                    assert(es[i].4 <= es[j].4);
                }
            }
        }
    }
}

/// Storing a sprite stamped later than every cached one, in a cache of at most 512
/// sprites with non-empty keys, leaves at most 512 and the sprite findable under its key.
pub proof fn lemma_store_then_find(
    es: Seq<(Seq<char>, u32, u32, Seq<u8>, u64)>,
    e: (Seq<char>, u32, u32, Seq<u8>, u64),
)
    requires
        es.len() <= 512,
        forall|i: int| 0 <= i < es.len() ==> (#[trigger] es[i]).4 < e.4,
        forall|i: int| 0 <= i < es.len() ==> (#[trigger] es[i]).0.len() > 0,
    ensures
        store_entry(es, e).len() <= 512,
        exists|i: int| first_key(store_entry(es, e), e.0, i) && store_entry(es, e)[i] == e,
{
    let r = store_entry(es, e);
    if has_key(es, e.0) {
        lemma_first_key(es, e.0);
        let k = choose|i: int| first_key(es, e.0, i);
        let added = es.update(k, e);
        assert(first_key(added, e.0, k)) by {
            assert forall|j: int| 0 <= j < k implies #[trigger] added[j].0 != e.0 by {
                assert(added[j] == es[j]);
            }
        }
        assert(r == added);
    } else {
        let added = es.push(e);
        let last = es.len() as int;
        if added.len() > 512 {
            lemma_oldest_in_min(added, 512);
            let i = oldest_in(added, 512)->0;
            assert(added[last].4 >= added[i].4);
            assert(oldest_in(added, 513) == Some(i));
            assert(added[i] == es[i]);
            let removed = added.remove(i);
            assert(r == removed);
            assert(removed[last - 1] == e);
            assert(first_key(removed, e.0, last - 1)) by {
                assert forall|j: int| 0 <= j < last - 1 implies #[trigger] removed[j].0 != e.0 by {
                    let s = if j < i {
                        j
                    } else {
                        j + 1
                    };
                    assert(removed[j] == es[s]);
                }
            }
        } else {
            assert(r == added);
            assert(first_key(added, e.0, last)) by {
                assert forall|j: int| 0 <= j < last implies #[trigger] added[j].0 != e.0 by {
                    assert(added[j] == es[j]);
                }
            }
        }
    }
}

} // verus!
