//! PSP GE texture formats: pixel expansion, DXT block decoding, unswizzling.
use vstd::prelude::*;
use crate::bytes::{le_u16, le_u32, read_u16, read_u32};
use crate::grid::{fill_result, lemma_row_major_index};

verus! {

/// PSP GE texture format, in the numbering PPSSPP uses.
#[derive(Clone, Copy, PartialEq, Eq, Structural, Debug)]
pub enum GeTextureFormat {
    Rgb565,
    Rgba5551,
    Rgba4444,
    Rgba8888,
    Clut4,
    Clut8,
    Clut16,
    Clut32,
    Dxt1,
    Dxt3,
    Dxt5,
}

impl GeTextureFormat {
    /// The GE code of the format (0 to 10).
    pub open spec fn code(self) -> u8 {
        match self {
            GeTextureFormat::Rgb565 => 0,
            GeTextureFormat::Rgba5551 => 1,
            GeTextureFormat::Rgba4444 => 2,
            GeTextureFormat::Rgba8888 => 3,
            GeTextureFormat::Clut4 => 4,
            GeTextureFormat::Clut8 => 5,
            GeTextureFormat::Clut16 => 6,
            GeTextureFormat::Clut32 => 7,
            GeTextureFormat::Dxt1 => 8,
            GeTextureFormat::Dxt3 => 9,
            GeTextureFormat::Dxt5 => 10,
        }
    }

    pub open spec fn is_dxt(self) -> bool {
        self is Dxt1 || self is Dxt3 || self is Dxt5
    }

    pub open spec fn is_16bit_direct(self) -> bool {
        self is Rgb565 || self is Rgba5551 || self is Rgba4444
    }

    /// The format whose GE code is `v`, if `v` names one.
    pub fn from_u8(v: u8) -> (r: Option<Self>)
        ensures
            match r {
                Some(f) => f.code() == v,
                None => v > 10,
            },
    {
        match v {
            0 => Some(GeTextureFormat::Rgb565),
            1 => Some(GeTextureFormat::Rgba5551),
            2 => Some(GeTextureFormat::Rgba4444),
            3 => Some(GeTextureFormat::Rgba8888),
            4 => Some(GeTextureFormat::Clut4),
            5 => Some(GeTextureFormat::Clut8),
            6 => Some(GeTextureFormat::Clut16),
            7 => Some(GeTextureFormat::Clut32),
            8 => Some(GeTextureFormat::Dxt1),
            9 => Some(GeTextureFormat::Dxt3),
            10 => Some(GeTextureFormat::Dxt5),
            _ => None,
        }
    }
}

/// Bits per pixel of each format (PPSSPP's textureBitsPerPixel table).
pub open spec fn bits_per_pixel(fmt: GeTextureFormat) -> u32 {
    match fmt {
        GeTextureFormat::Rgb565 => 16,
        GeTextureFormat::Rgba5551 => 16,
        GeTextureFormat::Rgba4444 => 16,
        GeTextureFormat::Rgba8888 => 32,
        GeTextureFormat::Clut4 => 4,
        GeTextureFormat::Clut8 => 8,
        GeTextureFormat::Clut16 => 16,
        GeTextureFormat::Clut32 => 32,
        GeTextureFormat::Dxt1 => 4,
        GeTextureFormat::Dxt3 => 8,
        GeTextureFormat::Dxt5 => 8,
    }
}

pub fn texture_bits_per_pixel(fmt: GeTextureFormat) -> (r: u32)
    ensures
        r == bits_per_pixel(fmt),
{
    match fmt {
        GeTextureFormat::Rgb565 => 16,
        GeTextureFormat::Rgba5551 => 16,
        GeTextureFormat::Rgba4444 => 16,
        GeTextureFormat::Rgba8888 => 32,
        GeTextureFormat::Clut4 => 4,
        GeTextureFormat::Clut8 => 8,
        GeTextureFormat::Clut16 => 16,
        GeTextureFormat::Clut32 => 32,
        GeTextureFormat::Dxt1 => 4,
        GeTextureFormat::Dxt3 => 8,
        GeTextureFormat::Dxt5 => 8,
    }
}

// ─── Color expansion ───
/// 4-bit to 8-bit replication: `0000abcd -> abcdabcd`.
pub open spec fn expand4(v: u8) -> u8 {
    (v << 4u8) | v
}

/// 5-bit to 8-bit replication: `000abcde -> abcdeabc`.
pub open spec fn expand5(v: u8) -> u8 {
    (v << 3u8) | (v >> 2u8)
}

/// 6-bit to 8-bit replication: `00abcdef -> abcdefab`.
pub open spec fn expand6(v: u8) -> u8 {
    (v << 2u8) | (v >> 4u8)
}

/// What the replications are on values of the intended width.
pub proof fn lemma_expand_values(v: u8)
    by (bit_vector)
    ensures
        v < 16 ==> expand4(v) == v * 17,
        v < 32 ==> expand5(v) == v * 8 + v / 4,
        v < 64 ==> expand6(v) == v * 4 + v / 16,
{
}

pub fn convert_4_to_8(v: u8) -> (r: u8)
    ensures
        r == expand4(v),
        v < 16 ==> r == v * 17,
{
    proof {
        lemma_expand_values(v);
    }
    (v << 4u8) | v
}

pub fn convert_5_to_8(v: u8) -> (r: u8)
    ensures
        r == expand5(v),
        v < 32 ==> r == v * 8 + v / 4,
{
    proof {
        lemma_expand_values(v);
    }
    (v << 3u8) | (v >> 2u8)
}

pub fn convert_6_to_8(v: u8) -> (r: u8)
    ensures
        r == expand6(v),
        v < 64 ==> r == v * 4 + v / 16,
{
    proof {
        lemma_expand_values(v);
    }
    (v << 2u8) | (v >> 4u8)
}

// ─── 16-bit to RGBA8888 ───
/// The u32 whose little-endian bytes are `r, g, b, a`.
pub open spec fn pack_rgba(r: u8, g: u8, b: u8, a: u8) -> u32 {
    (r as int + 256 * (g as int) + 65536 * (b as int) + 16777216 * (a as int)) as u32
}

fn pack(r: u8, g: u8, b: u8, a: u8) -> (p: u32)
    ensures
        p == pack_rgba(r, g, b, a),
{
    (r as u32) + 256 * (g as u32) + 65536 * (b as u32) + 16777216 * (a as u32)
}

/// RGBA4444 (red in the low nibble) expanded to RGBA8888.
pub open spec fn rgba4444_value(src: u16) -> u32 {
    pack_rgba(
        expand4((src & 0xFu16) as u8),
        expand4(((src >> 4u16) & 0xFu16) as u8),
        expand4(((src >> 8u16) & 0xFu16) as u8),
        expand4(((src >> 12u16) & 0xFu16) as u8),
    )
}

/// RGBA5551 (red in the low bits, alpha in bit 15) expanded to RGBA8888.
pub open spec fn rgba5551_value(src: u16) -> u32 {
    pack_rgba(
        expand5((src & 0x1Fu16) as u8),
        expand5(((src >> 5u16) & 0x1Fu16) as u8),
        expand5(((src >> 10u16) & 0x1Fu16) as u8),
        if (src >> 15u16) != 0 {
            255
        } else {
            0
        },
    )
}

/// RGB565 (red in the low bits) expanded to opaque RGBA8888.
pub open spec fn rgb565_value(src: u16) -> u32 {
    pack_rgba(
        expand5((src & 0x1Fu16) as u8),
        expand6(((src >> 5u16) & 0x3Fu16) as u8),
        expand5(((src >> 11u16) & 0x1Fu16) as u8),
        255,
    )
}

/// The bytes of a packed RGBA8888 value are its red, green, blue and alpha, in order.
proof fn lemma_pack_bytes(r: u8, g: u8, b: u8, a: u8)
    ensures
        pack_rgba(r, g, b, a) % 256 == r,
        pack_rgba(r, g, b, a) / 256 % 256 == g,
        pack_rgba(r, g, b, a) / 65536 % 256 == b,
        pack_rgba(r, g, b, a) / 16777216 == a,
{
    let v = r as int + 256 * (g as int) + 65536 * (b as int) + 16777216 * (a as int);
    assert(v < 0x1_0000_0000);
    assert(pack_rgba(r, g, b, a) == v);
}

/// A `w`-bit field of a 16-bit pixel, `w` bits from the bottom after `sh`: the pixel's
/// value divided by 2 to the `sh`, modulo 2 to the `w`.
proof fn lemma_fields(src: u16)
    ensures
        (src & 0xFu16) as int == src % 16,
        ((src >> 4u16) & 0xFu16) as int == src / 16 % 16,
        ((src >> 8u16) & 0xFu16) as int == src / 256 % 16,
        ((src >> 12u16) & 0xFu16) as int == src / 4096,
        (src & 0x1Fu16) as int == src % 32,
        ((src >> 5u16) & 0x1Fu16) as int == src / 32 % 32,
        ((src >> 5u16) & 0x3Fu16) as int == src / 32 % 64,
        ((src >> 10u16) & 0x1Fu16) as int == src / 1024 % 32,
        ((src >> 11u16) & 0x1Fu16) as int == src / 2048,
        ((src >> 15u16) != 0) == (src >= 0x8000),
{
    assert((src & 0xFu16) == src % 16) by (bit_vector);
    assert(((src >> 4u16) & 0xFu16) == src / 16 % 16) by (bit_vector);
    assert(((src >> 8u16) & 0xFu16) == src / 256 % 16) by (bit_vector);
    assert(((src >> 12u16) & 0xFu16) == src / 4096) by (bit_vector);
    assert((src & 0x1Fu16) == src % 32) by (bit_vector);
    assert(((src >> 5u16) & 0x1Fu16) == src / 32 % 32) by (bit_vector);
    assert(((src >> 5u16) & 0x3Fu16) == src / 32 % 64) by (bit_vector);
    assert(((src >> 10u16) & 0x1Fu16) == src / 1024 % 32) by (bit_vector);
    assert(((src >> 11u16) & 0x1Fu16) == src / 2048) by (bit_vector);
    assert(((src >> 15u16) != 0) == (src >= 0x8000)) by (bit_vector);
}

/// The channels of the 16-bit pixel formats, as bytes of the RGBA8888 result (red
/// first): RGBA4444 takes four 4-bit fields from the bottom up, each times 17; RGBA5551
/// takes three 5-bit fields, each `v * 8 + v / 4`, and alpha 255 exactly when the top bit
/// is set, else 0; RGB565 takes 5, 6 and 5 bits (the 6-bit field `v * 4 + v / 16`) and is
/// opaque.
pub proof fn lemma_16bit_channels(src: u16)
    ensures
        rgba4444_value(src) % 256 == (src % 16) * 17,
        rgba4444_value(src) / 256 % 256 == (src / 16 % 16) * 17,
        rgba4444_value(src) / 65536 % 256 == (src / 256 % 16) * 17,
        rgba4444_value(src) / 16777216 == (src / 4096) * 17,
        rgba5551_value(src) % 256 == (src % 32) * 8 + (src % 32) / 4,
        rgba5551_value(src) / 256 % 256 == (src / 32 % 32) * 8 + (src / 32 % 32) / 4,
        rgba5551_value(src) / 65536 % 256 == (src / 1024 % 32) * 8 + (src / 1024 % 32) / 4,
        rgba5551_value(src) / 16777216 == (if src >= 0x8000 { 255int } else { 0int }),
        rgb565_value(src) % 256 == (src % 32) * 8 + (src % 32) / 4,
        rgb565_value(src) / 256 % 256 == (src / 32 % 64) * 4 + (src / 32 % 64) / 16,
        rgb565_value(src) / 65536 % 256 == (src / 2048) * 8 + (src / 2048) / 4,
        rgb565_value(src) / 16777216 == 255,
{
    lemma_fields(src);
    lemma_expand_values((src & 0xFu16) as u8);
    lemma_expand_values(((src >> 4u16) & 0xFu16) as u8);
    lemma_expand_values(((src >> 8u16) & 0xFu16) as u8);
    lemma_expand_values(((src >> 12u16) & 0xFu16) as u8);
    lemma_expand_values((src & 0x1Fu16) as u8);
    lemma_expand_values(((src >> 5u16) & 0x1Fu16) as u8);
    lemma_expand_values(((src >> 5u16) & 0x3Fu16) as u8);
    lemma_expand_values(((src >> 10u16) & 0x1Fu16) as u8);
    lemma_expand_values(((src >> 11u16) & 0x1Fu16) as u8);
    lemma_pack_bytes(
        expand4((src & 0xFu16) as u8),
        expand4(((src >> 4u16) & 0xFu16) as u8),
        expand4(((src >> 8u16) & 0xFu16) as u8),
        expand4(((src >> 12u16) & 0xFu16) as u8),
    );
    lemma_pack_bytes(
        expand5((src & 0x1Fu16) as u8),
        expand5(((src >> 5u16) & 0x1Fu16) as u8),
        expand5(((src >> 10u16) & 0x1Fu16) as u8),
        if (src >> 15u16) != 0 { 255 } else { 0 },
    );
    lemma_pack_bytes(
        expand5((src & 0x1Fu16) as u8),
        expand6(((src >> 5u16) & 0x3Fu16) as u8),
        expand5(((src >> 11u16) & 0x1Fu16) as u8),
        255,
    );
}

pub fn rgba4444_to_rgba8888(src: u16) -> (p: u32)
    ensures
        p == rgba4444_value(src),
{
    let r = convert_4_to_8((src & 0xFu16) as u8);
    let g = convert_4_to_8(((src >> 4u16) & 0xFu16) as u8);
    let b = convert_4_to_8(((src >> 8u16) & 0xFu16) as u8);
    let a = convert_4_to_8(((src >> 12u16) & 0xFu16) as u8);
    pack(r, g, b, a)
}

pub fn rgba5551_to_rgba8888(src: u16) -> (p: u32)
    ensures
        p == rgba5551_value(src),
{
    let r = convert_5_to_8((src & 0x1Fu16) as u8);
    let g = convert_5_to_8(((src >> 5u16) & 0x1Fu16) as u8);
    let b = convert_5_to_8(((src >> 10u16) & 0x1Fu16) as u8);
    let a: u8 = if (src >> 15u16) != 0 {
        255
    } else {
        0
    };
    pack(r, g, b, a)
}

pub fn rgb565_to_rgba8888(src: u16) -> (p: u32)
    ensures
        p == rgb565_value(src),
{
    let r = convert_5_to_8((src & 0x1Fu16) as u8);
    let g = convert_6_to_8(((src >> 5u16) & 0x3Fu16) as u8);
    let b = convert_5_to_8(((src >> 11u16) & 0x1Fu16) as u8);
    pack(r, g, b, 255)
}

/// A 16-bit pixel of a direct 16-bit format as RGBA8888; 0 for every other format.
pub open spec fn convert16_value(src: u16, fmt: GeTextureFormat) -> u32 {
    match fmt {
        GeTextureFormat::Rgb565 => rgb565_value(src),
        GeTextureFormat::Rgba5551 => rgba5551_value(src),
        GeTextureFormat::Rgba4444 => rgba4444_value(src),
        _ => 0,
    }
}

pub fn convert_16bit_to_rgba8888(src: u16, fmt: GeTextureFormat) -> (p: u32)
    ensures
        p == convert16_value(src, fmt),
{
    match fmt {
        GeTextureFormat::Rgb565 => rgb565_to_rgba8888(src),
        GeTextureFormat::Rgba5551 => rgba5551_to_rgba8888(src),
        GeTextureFormat::Rgba4444 => rgba4444_to_rgba8888(src),
        _ => 0,
    }
}

// ─── Byte-order reversal of 16-bit pixels ───
/// The four nibbles of `src` in reverse order (RGBA4444 to ABGR4444).
pub open spec fn reversed_4444(src: u16) -> u16 {
    (src >> 12u16) | ((src >> 4u16) & 0x00F0u16) | ((src << 4u16) & 0x0F00u16) | (src << 12u16)
}

/// RGBA5551 to ABGR1555: the alpha bit moves to bit 0 and the three 5-bit fields swap order.
pub open spec fn reversed_5551(src: u16) -> u16 {
    (src >> 15u16) | ((src >> 9u16) & 0x003Eu16) | ((src << 1u16) & 0x07C0u16) | (src << 11u16)
}

/// RGB565 to BGR565: the two 5-bit fields trade places, green stays.
pub open spec fn reversed_565(src: u16) -> u16 {
    ((src >> 11u16) & 0x001Fu16) | (src & 0x07E0u16) | ((src << 11u16) & 0xF800u16)
}

pub fn reverse_4444(src: u16) -> (r: u16)
    ensures
        r == reversed_4444(src),
{
    (src >> 12u16) | ((src >> 4u16) & 0x00F0u16) | ((src << 4u16) & 0x0F00u16) | (src << 12u16)
}

pub fn reverse_5551(src: u16) -> (r: u16)
    ensures
        r == reversed_5551(src),
{
    (src >> 15u16) | ((src >> 9u16) & 0x003Eu16) | ((src << 1u16) & 0x07C0u16) | (src << 11u16)
}

pub fn reverse_565(src: u16) -> (r: u16)
    ensures
        r == reversed_565(src),
{
    ((src >> 11u16) & 0x001Fu16) | (src & 0x07E0u16) | ((src << 11u16) & 0xF800u16)
}

/// Reversing the nibble order twice gives the pixel back.
pub proof fn lemma_reverse_4444_involution(src: u16)
    by (bit_vector)
    ensures
        reversed_4444(reversed_4444(src)) == src,
{
}

/// Swapping the red and blue fields of RGB565 twice gives the pixel back.
pub proof fn lemma_reverse_565_involution(src: u16)
    by (bit_vector)
    ensures
        reversed_565(reversed_565(src)) == src,
{
}

/// Reversing RGBA5551 keeps all sixteen bits: the alpha bit and each 5-bit field land
/// in their ABGR1555 positions.
pub proof fn lemma_reverse_5551_fields(src: u16)
    by (bit_vector)
    ensures
        reversed_5551(src) & 1u16 == src >> 15u16,
        (reversed_5551(src) >> 1u16) & 0x1Fu16 == (src >> 10u16) & 0x1Fu16,
        (reversed_5551(src) >> 6u16) & 0x1Fu16 == (src >> 5u16) & 0x1Fu16,
        reversed_5551(src) >> 11u16 == src & 0x1Fu16,
{
}

// ─── DXT blocks ───
/// PSP DXT1 block: four index lines, then two RGB565 endpoints (8 bytes).
pub struct Dxt1Block {
    pub lines: [u8; 4],
    pub color1: u16,
    pub color2: u16,
}

/// PSP DXT3 block: a DXT1 color block and four lines of 4-bit alphas (16 bytes).
pub struct Dxt3Block {
    pub color: Dxt1Block,
    pub alpha_lines: [u16; 4],
}

/// PSP DXT5 block: a DXT1 color block, 48 bits of 3-bit alpha indices and two
/// alpha endpoints (16 bytes).
pub struct Dxt5Block {
    pub color: Dxt1Block,
    pub alpha_data2: u32,
    pub alpha_data1: u16,
    pub alpha_endpoint1: u8,
    pub alpha_endpoint2: u8,
}

/// An RGB565 color (red in bits 11..16) built from its three fields.
pub open spec fn rgb565_of(r: u16, g: u16, b: u16) -> u16 {
    (r << 11u16) | (g << 5u16) | b
}

/// The four palette colors of a DXT1 block with endpoints `c0` and `c1`: the two
/// endpoints, then either two interpolations (when `c0 > c1`) or their average and
/// transparent black.
pub open spec fn dxt_palette(c0: u16, c1: u16) -> Seq<u32> {
    let r0 = (c0 >> 11u16) & 0x1Fu16;
    let g0 = (c0 >> 5u16) & 0x3Fu16;
    let b0 = c0 & 0x1Fu16;
    let r1 = (c1 >> 11u16) & 0x1Fu16;
    let g1 = (c1 >> 5u16) & 0x3Fu16;
    let b1 = c1 & 0x1Fu16;
    if c0 > c1 {
        let c2 = rgb565_of(
            ((r0 * 2 + r1) / 3) as u16,
            ((g0 * 2 + g1) / 3) as u16,
            ((b0 * 2 + b1) / 3) as u16,
        );
        let c3 = rgb565_of(
            ((r0 + r1 * 2) / 3) as u16,
            ((g0 + g1 * 2) / 3) as u16,
            ((b0 + b1 * 2) / 3) as u16,
        );
        seq![rgb565_value(c0), rgb565_value(c1), rgb565_value(c2), rgb565_value(c3)]
    } else {
        let c2 = rgb565_of(
            ((r0 + r1) / 2) as u16,
            ((g0 + g1) / 2) as u16,
            ((b0 + b1) / 2) as u16,
        );
        seq![rgb565_value(c0), rgb565_value(c1), rgb565_value(c2), 0u32]
    }
}

/// A color given by its RGB565 bits is fully opaque.
pub proof fn lemma_rgb565_opaque(src: u16)
    ensures
        rgb565_value(src) / 16777216 == 255,
{
    let r = expand5((src & 0x1Fu16) as u8) as int;
    let g = expand6(((src >> 5u16) & 0x3Fu16) as u8) as int;
    let b = expand5(((src >> 11u16) & 0x1Fu16) as u8) as int;
    assert(r + 256 * g + 65536 * b < 16777216);
}

/// The DXT1 palette: the first two colors are the endpoints as given; with the first
/// endpoint above the second all four colors are opaque, and otherwise the third is
/// opaque and the fourth is transparent black.
pub proof fn lemma_dxt1_palette(c0: u16, c1: u16)
    ensures
        dxt_palette(c0, c1).len() == 4,
        dxt_palette(c0, c1)[0] == rgb565_value(c0),
        dxt_palette(c0, c1)[1] == rgb565_value(c1),
        c0 > c1 ==> forall|k: int| 0 <= k < 4 ==> #[trigger] dxt_palette(c0, c1)[k] / 16777216 == 255,
        c0 <= c1 ==> dxt_palette(c0, c1)[2] / 16777216 == 255 && dxt_palette(c0, c1)[3] == 0,
{
    lemma_rgb565_opaque(c0);
    lemma_rgb565_opaque(c1);
    let r0 = (c0 >> 11u16) & 0x1Fu16;
    let g0 = (c0 >> 5u16) & 0x3Fu16;
    let b0 = c0 & 0x1Fu16;
    let r1 = (c1 >> 11u16) & 0x1Fu16;
    let g1 = (c1 >> 5u16) & 0x3Fu16;
    let b1 = c1 & 0x1Fu16;
    if c0 > c1 {
        lemma_rgb565_opaque(rgb565_of(((r0 * 2 + r1) / 3) as u16, ((g0 * 2 + g1) / 3) as u16, ((b0 * 2 + b1) / 3) as u16));
        lemma_rgb565_opaque(rgb565_of(((r0 + r1 * 2) / 3) as u16, ((g0 + g1 * 2) / 3) as u16, ((b0 + b1 * 2) / 3) as u16));
    } else {
        lemma_rgb565_opaque(rgb565_of(((r0 + r1) / 2) as u16, ((g0 + g1) / 2) as u16, ((b0 + b1) / 2) as u16));
    }
}

fn decode_dxt1_colors(c0: u16, c1: u16) -> (colors: [u32; 4])
    ensures
        colors@ == dxt_palette(c0, c1),
{
    let r0 = (c0 >> 11u16) & 0x1Fu16;
    let g0 = (c0 >> 5u16) & 0x3Fu16;
    let b0 = c0 & 0x1Fu16;
    let r1 = (c1 >> 11u16) & 0x1Fu16;
    let g1 = (c1 >> 5u16) & 0x3Fu16;
    let b1 = c1 & 0x1Fu16;
    assert((c0 >> 11u16) & 0x1Fu16 <= 0x1F && (c1 >> 11u16) & 0x1Fu16 <= 0x1F && c0 & 0x1Fu16
        <= 0x1F && c1 & 0x1Fu16 <= 0x1F && (c0 >> 5u16) & 0x3Fu16 <= 0x3F && (c1 >> 5u16)
        & 0x3Fu16 <= 0x3F) by (bit_vector);
    let p0 = rgb565_to_rgba8888(c0);
    let p1 = rgb565_to_rgba8888(c1);
    if c0 > c1 {
        let r2 = ((r0 as u32 * 2 + r1 as u32) / 3) as u16;
        let g2 = ((g0 as u32 * 2 + g1 as u32) / 3) as u16;
        let b2 = ((b0 as u32 * 2 + b1 as u32) / 3) as u16;
        let r3 = ((r0 as u32 + r1 as u32 * 2) / 3) as u16;
        let g3 = ((g0 as u32 + g1 as u32 * 2) / 3) as u16;
        let b3 = ((b0 as u32 + b1 as u32 * 2) / 3) as u16;
        let c2 = (r2 << 11u16) | (g2 << 5u16) | b2;
        let c3 = (r3 << 11u16) | (g3 << 5u16) | b3;
        let colors = [p0, p1, rgb565_to_rgba8888(c2), rgb565_to_rgba8888(c3)];
        assert(colors@ =~= dxt_palette(c0, c1));
        colors
    } else {
        let r2 = ((r0 as u32 + r1 as u32) / 2) as u16;
        let g2 = ((g0 as u32 + g1 as u32) / 2) as u16;
        let b2 = ((b0 as u32 + b1 as u32) / 2) as u16;
        let c2 = (r2 << 11u16) | (g2 << 5u16) | b2;
        let colors = [p0, p1, rgb565_to_rgba8888(c2), 0u32];
        assert(colors@ =~= dxt_palette(c0, c1));
        colors
    }
}

/// The eight alpha levels of a DXT5 block with endpoints `a0` and `a1`.
pub open spec fn dxt5_alpha(a0: u8, a1: u8, i: int) -> u8 {
    if i == 0 {
        a0
    } else if i == 1 {
        a1
    } else if a0 > a1 {
        (((8 - i) * (a0 as int) + (i - 1) * (a1 as int)) / 7) as u8
    } else if i < 6 {
        (((6 - i) * (a0 as int) + (i - 1) * (a1 as int)) / 5) as u8
    } else if i == 6 {
        0
    } else {
        255
    }
}

/// The eight DXT5 alpha levels: levels 0 and 1 are the two endpoints. When the first
/// endpoint is above the second, the six other levels lie between them, falling from the
/// first toward the second. Otherwise levels 2 to 5 lie between the endpoints, rising
/// from the first toward the second, level 6 is fully transparent (0) and level 7 fully
/// opaque (255).
pub proof fn lemma_dxt5_alpha_levels(a0: u8, a1: u8, i: int, j: int)
    requires
        0 <= i <= j < 8,
    ensures
        dxt5_alpha(a0, a1, 0) == a0,
        dxt5_alpha(a0, a1, 1) == a1,
        a0 <= a1 ==> dxt5_alpha(a0, a1, 6) == 0 && dxt5_alpha(a0, a1, 7) == 255,
        a0 <= a1 && 2 <= i < 6 ==> a0 <= dxt5_alpha(a0, a1, i) <= a1,
        a0 <= a1 && 2 <= i <= j < 6 ==> dxt5_alpha(a0, a1, i) <= dxt5_alpha(a0, a1, j),
        a0 > a1 && 2 <= i ==> a1 <= dxt5_alpha(a0, a1, i) <= a0,
        a0 > a1 && 2 <= i <= j ==> dxt5_alpha(a0, a1, i) >= dxt5_alpha(a0, a1, j),
{
    let x = a0 as int;
    let y = a1 as int;
    if a0 > a1 && 2 <= i {
        assert(y * 7 <= (8 - i) * x + (i - 1) * y <= x * 7) by (nonlinear_arith)
            requires
                y < x,
                2 <= i < 8,
        ;
        if 2 <= i <= j {
            assert((8 - j) * x + (j - 1) * y <= (8 - i) * x + (i - 1) * y) by (nonlinear_arith)
                requires
                    y < x,
                    i <= j,
            ;
            vstd::arithmetic::div_mod::lemma_div_is_ordered((8 - j) * x + (j - 1) * y, (8 - i) * x + (i - 1) * y, 7);
        }
        vstd::arithmetic::div_mod::lemma_div_is_ordered(y * 7, (8 - i) * x + (i - 1) * y, 7);
        vstd::arithmetic::div_mod::lemma_div_is_ordered((8 - i) * x + (i - 1) * y, x * 7, 7);
        vstd::arithmetic::div_mod::lemma_div_by_multiple(y, 7);
        vstd::arithmetic::div_mod::lemma_div_by_multiple(x, 7);
    }
    if a0 <= a1 && 2 <= i < 6 {
        assert(x * 5 <= (6 - i) * x + (i - 1) * y <= y * 5) by (nonlinear_arith)
            requires
                x <= y,
                2 <= i < 6,
        ;
        if j < 6 {
            assert((6 - j) * x + (j - 1) * y <= y * 5) by (nonlinear_arith)
                requires
                    x <= y,
                    2 <= j < 6,
            ;
            vstd::arithmetic::div_mod::lemma_div_is_ordered((6 - j) * x + (j - 1) * y, y * 5, 5);
            assert((6 - i) * x + (i - 1) * y <= (6 - j) * x + (j - 1) * y) by (nonlinear_arith)
                requires
                    x <= y,
                    i <= j,
            ;
            vstd::arithmetic::div_mod::lemma_div_is_ordered((6 - i) * x + (i - 1) * y, (6 - j) * x + (j - 1) * y, 5);
        }
        vstd::arithmetic::div_mod::lemma_div_is_ordered(x * 5, (6 - i) * x + (i - 1) * y, 5);
        vstd::arithmetic::div_mod::lemma_div_is_ordered((6 - i) * x + (i - 1) * y, y * 5, 5);
        vstd::arithmetic::div_mod::lemma_div_by_multiple(y, 5);
        vstd::arithmetic::div_mod::lemma_div_by_multiple(x, 5);
    }
}

pub open spec fn dxt5_alpha_table(a0: u8, a1: u8) -> Seq<u8> {
    Seq::new(8, |i: int| dxt5_alpha(a0, a1, i))
}

proof fn lemma_dxt5_alpha_entries(a0: u8, a1: u8)
    ensures
        a0 > a1 ==> {
            &&& dxt5_alpha(a0, a1, 2) == ((6 * a0 + a1) / 7) as u8
            &&& dxt5_alpha(a0, a1, 3) == ((5 * a0 + 2 * a1) / 7) as u8
            &&& dxt5_alpha(a0, a1, 4) == ((4 * a0 + 3 * a1) / 7) as u8
            &&& dxt5_alpha(a0, a1, 5) == ((3 * a0 + 4 * a1) / 7) as u8
            &&& dxt5_alpha(a0, a1, 6) == ((2 * a0 + 5 * a1) / 7) as u8
            &&& dxt5_alpha(a0, a1, 7) == ((a0 + 6 * a1) / 7) as u8
        },
        a0 <= a1 ==> {
            &&& dxt5_alpha(a0, a1, 2) == ((4 * a0 + a1) / 5) as u8
            &&& dxt5_alpha(a0, a1, 3) == ((3 * a0 + 2 * a1) / 5) as u8
            &&& dxt5_alpha(a0, a1, 4) == ((2 * a0 + 3 * a1) / 5) as u8
            &&& dxt5_alpha(a0, a1, 5) == ((a0 + 4 * a1) / 5) as u8
        },
{
    assert(dxt5_alpha(a0, a1, 2) == (((8 - 2) * (a0 as int) + (2 - 1) * (a1 as int)) / 7) as u8 || a0 <= a1);
    assert(dxt5_alpha(a0, a1, 7) == (((8 - 7) * (a0 as int) + (7 - 1) * (a1 as int)) / 7) as u8 || a0 <= a1);
    assert(dxt5_alpha(a0, a1, 6) == (((8 - 6) * (a0 as int) + (6 - 1) * (a1 as int)) / 7) as u8 || a0 <= a1);
}

fn decode_dxt5_alphas(a0: u8, a1: u8) -> (alphas: [u8; 8])
    ensures
        alphas@ == dxt5_alpha_table(a0, a1),
{
    let x0 = a0 as u32;
    let x1 = a1 as u32;
    proof {
        lemma_dxt5_alpha_entries(a0, a1);
    }
    if a0 > a1 {
        let e2 = ((6 * x0 + x1) / 7) as u8;
        let e3 = ((5 * x0 + 2 * x1) / 7) as u8;
        let e4 = ((4 * x0 + 3 * x1) / 7) as u8;
        let e5 = ((3 * x0 + 4 * x1) / 7) as u8;
        let e6 = ((2 * x0 + 5 * x1) / 7) as u8;
        let e7 = ((x0 + 6 * x1) / 7) as u8;
        assert(e2 == dxt5_alpha(a0, a1, 2));
        assert(e3 == dxt5_alpha(a0, a1, 3));
        assert(e4 == dxt5_alpha(a0, a1, 4));
        assert(e5 == dxt5_alpha(a0, a1, 5));
        assert(e6 == dxt5_alpha(a0, a1, 6));
        assert(e7 == dxt5_alpha(a0, a1, 7));
        let alphas: [u8; 8] = [a0, a1, e2, e3, e4, e5, e6, e7];
        assert(alphas@ =~= dxt5_alpha_table(a0, a1));
        alphas
    } else {
        let e2 = ((4 * x0 + x1) / 5) as u8;
        let e3 = ((3 * x0 + 2 * x1) / 5) as u8;
        let e4 = ((2 * x0 + 3 * x1) / 5) as u8;
        let e5 = ((x0 + 4 * x1) / 5) as u8;
        assert(e2 == dxt5_alpha(a0, a1, 2));
        assert(e3 == dxt5_alpha(a0, a1, 3));
        assert(e4 == dxt5_alpha(a0, a1, 4));
        assert(e5 == dxt5_alpha(a0, a1, 5));
        let alphas: [u8; 8] = [a0, a1, e2, e3, e4, e5, 0, 255];
        assert(alphas@ =~= dxt5_alpha_table(a0, a1));
        alphas
    }
}

pub open spec fn pow4(x: int) -> int {
    if x == 0 {
        1
    } else if x == 1 {
        4
    } else if x == 2 {
        16
    } else {
        64
    }
}

pub open spec fn pow8(x: int) -> int {
    if x == 0 {
        1
    } else if x == 1 {
        8
    } else if x == 2 {
        64
    } else {
        512
    }
}

pub open spec fn pow16(x: int) -> int {
    if x == 0 {
        1
    } else if x == 1 {
        16
    } else if x == 2 {
        256
    } else {
        4096
    }
}

pub open spec fn pow4096(y: int) -> int {
    if y == 0 {
        1
    } else if y == 1 {
        4096
    } else if y == 2 {
        16777216
    } else {
        68719476736
    }
}

/// Palette index of pixel `i` (row `i / 4`, column `i % 4`) of a DXT1 block: two bits
/// per pixel, the first column in the lowest bits of the row's line byte.
pub open spec fn dxt1_index(b: Dxt1Block, i: int) -> int {
    (b.lines@[i / 4] as int / pow4(i % 4)) % 4
}

/// The sixteen RGBA8888 pixels of a DXT1 block, row by row.
pub open spec fn dxt1_pixels(b: Dxt1Block) -> Seq<u32> {
    Seq::new(16, |i: int| dxt_palette(b.color1, b.color2)[dxt1_index(b, i)])
}

/// Some pixel of the block uses palette entry 3 (transparent in 3-color mode).
pub open spec fn dxt1_has_alpha(b: Dxt1Block) -> bool {
    exists|i: int| 0 <= i < 16 && dxt1_index(b, i) == 3
}

/// `color` with its alpha byte replaced by `alpha`.
pub open spec fn with_alpha(color: u32, alpha: u32) -> u32 {
    (color & 0x00FFFFFFu32) | (alpha << 24u32)
}

/// The 4-bit alpha of pixel `i` of a DXT3 block, expanded to 8 bits.
pub open spec fn dxt3_alpha(b: Dxt3Block, i: int) -> u32 {
    (((b.alpha_lines@[i / 4] as int / pow16(i % 4)) % 16) * 17) as u32
}

pub open spec fn dxt3_pixels(b: Dxt3Block) -> Seq<u32> {
    Seq::new(
        16,
        |i: int|
            with_alpha(
                dxt_palette(b.color.color1, b.color.color2)[dxt1_index(b.color, i)],
                dxt3_alpha(b, i),
            ),
    )
}

/// The 48 alpha-index bits of a DXT5 block as one number.
pub open spec fn dxt5_bits(b: Dxt5Block) -> int {
    b.alpha_data1 as int * 4294967296 + b.alpha_data2 as int
}

/// The 3-bit alpha index of pixel `i`: twelve bits per row, three per column.
pub open spec fn dxt5_alpha_index(b: Dxt5Block, i: int) -> int {
    (dxt5_bits(b) / pow4096(i / 4) / pow8(i % 4)) % 8
}

pub open spec fn dxt5_pixels(b: Dxt5Block) -> Seq<u32> {
    Seq::new(
        16,
        |i: int|
            with_alpha(
                dxt_palette(b.color.color1, b.color.color2)[dxt1_index(b.color, i)],
                dxt5_alpha_table(b.alpha_endpoint1, b.alpha_endpoint2)[dxt5_alpha_index(
                    b,
                    i,
                )] as u32,
            ),
    )
}

fn palette_index(b: &Dxt1Block, i: usize) -> (idx: usize)
    requires
        i < 16,
    ensures
        idx == dxt1_index(*b, i as int),
        idx < 4,
{
    let line = b.lines[i / 4];
    let x = i % 4;
    let pow: u8 = if x == 0 {
        1
    } else if x == 1 {
        4
    } else if x == 2 {
        16
    } else {
        64
    };
    ((line / pow) % 4) as usize
}

/// Decodes a DXT1 block into `dst[0..16]`; reports whether some pixel used palette
/// entry 3.
pub fn decode_dxt1_block(dst: &mut [u32], src: &Dxt1Block) -> (has_alpha: bool)
    requires
        old(dst)@.len() >= 16,
    ensures
        final(dst)@.len() == old(dst)@.len(),
        final(dst)@.subrange(0, 16) == dxt1_pixels(*src),
        final(dst)@.subrange(16, final(dst)@.len() as int) == old(dst)@.subrange(
            16,
            old(dst)@.len() as int,
        ),
        has_alpha == dxt1_has_alpha(*src),
{
    let colors = decode_dxt1_colors(src.color1, src.color2);
    let mut has_alpha = false;
    let mut i: usize = 0;
    while i < 16
        invariant
            i <= 16,
            dst@.len() == old(dst)@.len(),
            old(dst)@.len() >= 16,
            colors@ == dxt_palette(src.color1, src.color2),
            forall|j: int| 0 <= j < i ==> dst@[j] == dxt1_pixels(*src)[j],
            forall|j: int| 16 <= j < dst@.len() ==> dst@[j] == old(dst)@[j],
            has_alpha == exists|j: int| 0 <= j < i && dxt1_index(*src, j) == 3,
        decreases 16 - i,
    {
        let idx = palette_index(src, i);
        if idx == 3 {
            has_alpha = true;
        }
        dst[i] = colors[idx];
        i += 1;
    }
    assert(dst@.subrange(0, 16) =~= dxt1_pixels(*src));
    assert(dst@.subrange(16, dst@.len() as int) =~= old(dst)@.subrange(16, old(dst)@.len() as int));
    has_alpha
}

/// Decodes a DXT3 block into `dst[0..16]`, each pixel taking its explicit 4-bit alpha.
pub fn decode_dxt3_block(dst: &mut [u32], src: &Dxt3Block)
    requires
        old(dst)@.len() >= 16,
    ensures
        final(dst)@.len() == old(dst)@.len(),
        final(dst)@.subrange(0, 16) == dxt3_pixels(*src),
        final(dst)@.subrange(16, final(dst)@.len() as int) == old(dst)@.subrange(
            16,
            old(dst)@.len() as int,
        ),
{
    let colors = decode_dxt1_colors(src.color.color1, src.color.color2);
    let mut i: usize = 0;
    while i < 16
        invariant
            i <= 16,
            dst@.len() == old(dst)@.len(),
            old(dst)@.len() >= 16,
            colors@ == dxt_palette(src.color.color1, src.color.color2),
            forall|j: int| 0 <= j < i ==> dst@[j] == dxt3_pixels(*src)[j],
            forall|j: int| 16 <= j < dst@.len() ==> dst@[j] == old(dst)@[j],
        decreases 16 - i,
    {
        let idx = palette_index(&src.color, i);
        let line = src.alpha_lines[i / 4];
        let x = i % 4;
        let pow: u16 = if x == 0 {
            1
        } else if x == 1 {
            16
        } else if x == 2 {
            256
        } else {
            4096
        };
        let alpha: u32 = (((line / pow) % 16) as u32) * 17;
        let pixel = (colors[idx] & 0x00FFFFFFu32) | (alpha << 24u32);
        dst[i] = pixel;
        i += 1;
    }
    assert(dst@.subrange(0, 16) =~= dxt3_pixels(*src));
    assert(dst@.subrange(16, dst@.len() as int) =~= old(dst)@.subrange(16, old(dst)@.len() as int));
}

/// Decodes a DXT5 block into `dst[0..16]`, each pixel taking one of the eight
/// interpolated alpha levels.
pub fn decode_dxt5_block(dst: &mut [u32], src: &Dxt5Block)
    requires
        old(dst)@.len() >= 16,
    ensures
        final(dst)@.len() == old(dst)@.len(),
        final(dst)@.subrange(0, 16) == dxt5_pixels(*src),
        final(dst)@.subrange(16, final(dst)@.len() as int) == old(dst)@.subrange(
            16,
            old(dst)@.len() as int,
        ),
{
    let colors = decode_dxt1_colors(src.color.color1, src.color.color2);
    let alphas = decode_dxt5_alphas(src.alpha_endpoint1, src.alpha_endpoint2);
    let all_alpha: u64 = (src.alpha_data1 as u64) * 4294967296 + (src.alpha_data2 as u64);
    let mut i: usize = 0;
    while i < 16
        invariant
            i <= 16,
            dst@.len() == old(dst)@.len(),
            old(dst)@.len() >= 16,
            colors@ == dxt_palette(src.color.color1, src.color.color2),
            alphas@ == dxt5_alpha_table(src.alpha_endpoint1, src.alpha_endpoint2),
            all_alpha == dxt5_bits(*src),
            forall|j: int| 0 <= j < i ==> dst@[j] == dxt5_pixels(*src)[j],
            forall|j: int| 16 <= j < dst@.len() ==> dst@[j] == old(dst)@[j],
        decreases 16 - i,
    {
        let idx = palette_index(&src.color, i);
        let y = i / 4;
        let x = i % 4;
        let row_pow: u64 = if y == 0 {
            1
        } else if y == 1 {
            4096
        } else if y == 2 {
            16777216
        } else {
            68719476736
        };
        let col_pow: u64 = if x == 0 {
            1
        } else if x == 1 {
            8
        } else if x == 2 {
            64
        } else {
            512
        };
        let aidx = ((all_alpha / row_pow / col_pow) % 8) as usize;
        let alpha = alphas[aidx] as u32;
        let pixel = (colors[idx] & 0x00FFFFFFu32) | (alpha << 24u32);
        dst[i] = pixel;
        i += 1;
    }
    assert(dst@.subrange(0, 16) =~= dxt5_pixels(*src));
    assert(dst@.subrange(16, dst@.len() as int) =~= old(dst)@.subrange(16, old(dst)@.len() as int));
}

// ─── Blocks read from texture bytes ───
/// The DXT1 block stored at byte `off` (endpoints little-endian).
pub open spec fn dxt1_block_at(d: Seq<u8>, off: int) -> Dxt1Block {
    Dxt1Block {
        lines: [d[off], d[off + 1], d[off + 2], d[off + 3]],
        color1: le_u16(d, off + 4),
        color2: le_u16(d, off + 6),
    }
}

pub open spec fn dxt3_block_at(d: Seq<u8>, off: int) -> Dxt3Block {
    Dxt3Block {
        color: dxt1_block_at(d, off),
        alpha_lines: [
            le_u16(d, off + 8),
            le_u16(d, off + 10),
            le_u16(d, off + 12),
            le_u16(d, off + 14),
        ],
    }
}

pub open spec fn dxt5_block_at(d: Seq<u8>, off: int) -> Dxt5Block {
    Dxt5Block {
        color: dxt1_block_at(d, off),
        alpha_data2: le_u32(d, off + 8),
        alpha_data1: le_u16(d, off + 12),
        alpha_endpoint1: d[off + 14],
        alpha_endpoint2: d[off + 15],
    }
}

fn dxt1_block_from(d: &[u8], off: usize) -> (b: Dxt1Block)
    requires
        off + 8 <= d.len(),
    ensures
        b == dxt1_block_at(d@, off as int),
{
    let b = Dxt1Block {
        lines: [d[off], d[off + 1], d[off + 2], d[off + 3]],
        color1: read_u16(d, off + 4),
        color2: read_u16(d, off + 6),
    };
    assert(b.lines@ =~= dxt1_block_at(d@, off as int).lines@);
    b
}

fn dxt3_block_from(d: &[u8], off: usize) -> (b: Dxt3Block)
    requires
        off + 16 <= d.len(),
    ensures
        b == dxt3_block_at(d@, off as int),
{
    let b = Dxt3Block {
        color: dxt1_block_from(d, off),
        alpha_lines: [
            read_u16(d, off + 8),
            read_u16(d, off + 10),
            read_u16(d, off + 12),
            read_u16(d, off + 14),
        ],
    };
    assert(b.alpha_lines@ =~= dxt3_block_at(d@, off as int).alpha_lines@);
    b
}

fn dxt5_block_from(d: &[u8], off: usize) -> (b: Dxt5Block)
    requires
        off + 16 <= d.len(),
    ensures
        b == dxt5_block_at(d@, off as int),
{
    Dxt5Block {
        color: dxt1_block_from(d, off),
        alpha_data2: read_u32(d, off + 8),
        alpha_data1: read_u16(d, off + 12),
        alpha_endpoint1: d[off + 14],
        alpha_endpoint2: d[off + 15],
    }
}

// ─── Whole DXT textures ───
pub open spec fn dxt_block_size(fmt: GeTextureFormat) -> int {
    if fmt is Dxt1 {
        8
    } else {
        16
    }
}

/// Blocks per row: the width rounded up to a multiple of 4, over 4.
pub open spec fn dxt_blocks_per_row(width: u32) -> int {
    (width as int + 3) / 4
}

/// Byte offset of the block holding pixel `(x, y)`; DXT data is stored block by block,
/// row-major, and is not swizzled.
pub open spec fn dxt_block_offset(fmt: GeTextureFormat, width: u32, x: int, y: int) -> int {
    ((y / 4) * dxt_blocks_per_row(width) + x / 4) * dxt_block_size(fmt)
}

/// The sixteen pixels of the block at `off`; all zero for a format that is not DXT.
pub open spec fn dxt_block_pixels(d: Seq<u8>, fmt: GeTextureFormat, off: int) -> Seq<u32> {
    match fmt {
        GeTextureFormat::Dxt1 => dxt1_pixels(dxt1_block_at(d, off)),
        GeTextureFormat::Dxt3 => dxt3_pixels(dxt3_block_at(d, off)),
        GeTextureFormat::Dxt5 => dxt5_pixels(dxt5_block_at(d, off)),
        _ => Seq::new(16, |i: int| 0u32),
    }
}

/// What the DXT decoder writes to pixel `(x, y)`: `None` (pixel untouched) when the
/// pixel's block lies past the end of the data.
pub open spec fn dxt_texel(d: Seq<u8>, fmt: GeTextureFormat, width: u32, x: int, y: int) -> Option<
    u32,
> {
    let off = dxt_block_offset(fmt, width, x, y);
    if fmt.is_dxt() && off + dxt_block_size(fmt) > d.len() {
        None
    } else {
        Some(dxt_block_pixels(d, fmt, off)[(y % 4) * 4 + x % 4])
    }
}

/// Decodes the 16 pixels of the block at `off` into `dst`; `false` when the block
/// lies past the end of `data`.
fn decode_block_at(dst: &mut [u32; 16], data: &[u8], off: usize, format: GeTextureFormat) -> (present: bool)
    ensures
        present == (!format.is_dxt() || off + dxt_block_size(format) <= data@.len()),
        present ==> final(dst)@ == dxt_block_pixels(data@, format, off as int),
{
    match format {
        GeTextureFormat::Dxt1 => {
            if off > data.len() || data.len() - off < 8 {
                return false;
            }
            let b = dxt1_block_from(data, off);
            decode_dxt1_block(dst, &b);
            assert(dst@ =~= dst@.subrange(0, 16));
            true
        },
        GeTextureFormat::Dxt3 => {
            if off > data.len() || data.len() - off < 16 {
                return false;
            }
            let b = dxt3_block_from(data, off);
            decode_dxt3_block(dst, &b);
            assert(dst@ =~= dst@.subrange(0, 16));
            true
        },
        GeTextureFormat::Dxt5 => {
            if off > data.len() || data.len() - off < 16 {
                return false;
            }
            let b = dxt5_block_from(data, off);
            decode_dxt5_block(dst, &b);
            assert(dst@ =~= dst@.subrange(0, 16));
            true
        },
        _ => {
            *dst = [0u32; 16];
            assert(dst@ =~= dxt_block_pixels(data@, format, off as int));
            true
        },
    }
}

/// Decodes a DXT texture (block by block, not swizzled) into the row-major `out`,
/// `width` pixels per row. Pixels whose block is missing from `data` are left as they
/// were; a format that is not DXT writes zeros.
#[verifier::spinoff_prover]
#[verifier::rlimit(60)]
pub fn decode_dxt_texture(
    out: &mut [u32],
    data: &[u8],
    width: u32,
    height: u32,
    format: GeTextureFormat,
)
    requires
        width <= u32::MAX - 3,
        width * height <= old(out)@.len(),
        (width as int + 3) * (height as int + 3) <= usize::MAX,
    ensures
        final(out)@ == fill_result(
            old(out)@,
            width as int,
            height as int,
            |x: int, y: int| dxt_texel(data@, format, width, x, y),
        ),
{
    let ghost texel = |x: int, y: int| dxt_texel(data@, format, width, x, y);
    let w = width as usize;
    let h = height as usize;
    let bpr = ((width + 3) / 4) as usize;
    let bs: usize = match format {
        GeTextureFormat::Dxt1 => 8,
        _ => 16,
    };
    let mut block = [0u32; 16];
    let mut present = false;
    let mut y: usize = 0;
    let mut k: usize = 0;
    while y < h
        invariant
            y <= h,
            k == y * w,
            w == width,
            h == height,
            bpr == dxt_blocks_per_row(width),
            bs == dxt_block_size(format),
            w * h <= old(out)@.len(),
            (w + 3) * (h + 3) <= usize::MAX,
            out@.len() == old(out)@.len(),
            texel == (|x: int, y: int| dxt_texel(data@, format, width, x, y)),
            forall|j: int|
                0 <= j < k ==> out@[j] == #[trigger] fill_result(old(out)@, w as int, h as int, texel)[j],
            forall|j: int| k <= j < out@.len() ==> out@[j] == old(out)@[j],
        decreases h - y,
    {
        let mut x: usize = 0;
        while x < w
            invariant
                x <= w,
                y < h,
                k == y * w + x,
                w == width,
                h == height,
                bpr == dxt_blocks_per_row(width),
                bs == dxt_block_size(format),
                w * h <= old(out)@.len(),
                (w + 3) * (h + 3) <= usize::MAX,
                out@.len() == old(out)@.len(),
                texel == (|x: int, y: int| dxt_texel(data@, format, width, x, y)),
                x % 4 != 0 ==> (present == (!format.is_dxt() || dxt_block_offset(format, width, x as int, y as int)
                    + bs <= data@.len())),
                x % 4 != 0 && present ==> block@ == dxt_block_pixels(
                    data@,
                    format,
                    dxt_block_offset(format, width, x as int, y as int),
                ),
                forall|j: int|
                    0 <= j < k ==> out@[j] == #[trigger] fill_result(old(out)@, w as int, h as int, texel)[j],
                forall|j: int| k <= j < out@.len() ==> out@[j] == old(out)@[j],
            decreases w - x,
        {
            proof {
                lemma_row_major_index(x as int, y as int, w as int, h as int);
            }
            if x % 4 == 0 {
                assert((y / 4) * bpr + x / 4 <= (w + 3) * (h + 3) / 16) by (nonlinear_arith)
                    requires
                        x < w,
                        y < h,
                        bpr == (w + 3) / 4,
                ;
                let off = ((y / 4) * bpr + x / 4) * bs;
                present = decode_block_at(&mut block, data, off, format);
            }
            assert(dxt_block_offset(format, width, x as int, y as int) == ((y / 4) * bpr + x / 4) * bs);
            if present {
                let v = block[(y % 4) * 4 + x % 4];
                out[k] = v;
            }
            assert(fill_result(old(out)@, w as int, h as int, texel)[k as int] == out@[k as int]);
            x += 1;
            k += 1;
        }
        assert(k == (y + 1) * w) by (nonlinear_arith)
            requires
                k == y * w + x,
                x == w,
        ;
        y += 1;
    }
    assert(k == w * h) by (nonlinear_arith)
        requires
            k == y * w,
            y == h,
    ;
    assert(out@ =~= fill_result(old(out)@, w as int, h as int, texel));
}

// ─── Unswizzling ───
/// Destination word of copy step `t`: steps run over block rows, then 16-byte blocks
/// in the row, then the 8 lines of a block; block column `bx` starts at word `bx * 4`
/// and each line is `pitch_words` further down.
pub open spec fn unswizzle_step_base(t: int, bxc: int, pitch_words: int) -> int {
    let row = t % 8;
    let blk = t / 8;
    (blk / bxc) * 8 * pitch_words + (blk % bxc) * 4 + row * pitch_words
}

/// `dest` with the 16 bytes at `dpos` replaced by the 16 bytes of `src` at `spos`.
pub open spec fn copy16(dest: Seq<u8>, dpos: int, src: Seq<u8>, spos: int) -> Seq<u8> {
    Seq::new(
        dest.len(),
        |i: int|
            if dpos <= i < dpos + 16 {
                src[spos + i - dpos]
            } else {
                dest[i]
            },
    )
}

/// `dest` after the first `t` copy steps: step `s` moves source bytes `16 s .. 16 s + 16`
/// to destination word `unswizzle_step_base(s)`, when both ranges lie inside their
/// buffers; later steps overwrite earlier ones.
pub open spec fn unswizzled(dest: Seq<u8>, src: Seq<u8>, pitch_words: int, bxc: int, t: nat) -> Seq<
    u8,
>
    decreases t,
{
    if t == 0 {
        dest
    } else {
        let prev = unswizzled(dest, src, pitch_words, bxc, (t - 1) as nat);
        let s = t - 1;
        let base = unswizzle_step_base(s, bxc, pitch_words);
        if 4 * base + 16 <= dest.len() && 16 * s + 16 <= src.len() {
            copy16(prev, 4 * base, src, 16 * s)
        } else {
            prev
        }
    }
}

fn copy_16_bytes(dest: &mut [u8], dpos: usize, src: &[u8], spos: usize)
    requires
        dpos + 16 <= old(dest).len(),
        spos + 16 <= src.len(),
    ensures
        final(dest)@ == copy16(old(dest)@, dpos as int, src@, spos as int),
{
    let mut i: usize = 0;
    while i < 16
        invariant
            i <= 16,
            dpos + 16 <= dest.len(),
            spos + 16 <= src.len(),
            dest@.len() == old(dest)@.len(),
            forall|j: int|
                0 <= j < dest@.len() ==> dest@[j] == (if dpos <= j < dpos + i {
                    src@[spos + j - dpos]
                } else {
                    old(dest)@[j]
                }),
        decreases 16 - i,
    {
        dest[dpos + i] = src[spos + i];
        i += 1;
    }
    assert(dest@ =~= copy16(old(dest)@, dpos as int, src@, spos as int));
}

/// Unswizzles PSP texture data (16-byte blocks arranged 8 lines high) into the linear
/// `dest`, `dest_pitch` bytes per line. Both buffers are handled as 32-bit words, so
/// their lengths are multiples of 4.
pub fn unswizzle_16_byte_blocks(dest: &mut [u8], dest_pitch: usize, src: &[u8], bxc: usize, byc: usize)
    requires
        old(dest)@.len() % 4 == 0,
        src@.len() % 4 == 0,
        (byc as int + 1) * 8 * (dest_pitch as int / 4) + (bxc as int + 1) * 4 <= usize::MAX,
        (byc as int + 1) * (bxc as int + 1) * 32 <= usize::MAX,
    ensures
        final(dest)@ == unswizzled(
            old(dest)@,
            src@,
            dest_pitch as int / 4,
            bxc as int,
            (byc * bxc * 8) as nat,
        ),
{
    let pitch_words = dest_pitch / 4;
    let ghost pw = pitch_words as int;
    let mut src_pos: usize = 0;
    let mut dest_row_base: usize = 0;
    let mut by: usize = 0;
    while by < byc
        invariant
            by <= byc,
            pitch_words == dest_pitch / 4,
            pw == pitch_words,
            dest@.len() == old(dest)@.len(),
            old(dest)@.len() % 4 == 0,
            src@.len() % 4 == 0,
            (byc as int + 1) * 8 * pw + (bxc as int + 1) * 4 <= usize::MAX,
            (byc as int + 1) * (bxc as int + 1) * 32 <= usize::MAX,
            dest_row_base == by * 8 * pw,
            src_pos == by * bxc * 32,
            dest@ == unswizzled(old(dest)@, src@, pw, bxc as int, (by * bxc * 8) as nat),
        decreases byc - by,
    {
        let mut dest_col_base: usize = 0;
        let mut bx: usize = 0;
        while bx < bxc
            invariant
                bx <= bxc,
                by < byc,
                pitch_words == dest_pitch / 4,
                pw == pitch_words,
                dest@.len() == old(dest)@.len(),
                old(dest)@.len() % 4 == 0,
                src@.len() % 4 == 0,
                (byc as int + 1) * 8 * pw + (bxc as int + 1) * 4 <= usize::MAX,
                (byc as int + 1) * (bxc as int + 1) * 32 <= usize::MAX,
                dest_row_base == by * 8 * pw,
                dest_col_base == bx * 4,
                src_pos == (by * bxc + bx) * 32,
                dest@ == unswizzled(
                    old(dest)@,
                    src@,
                    pw,
                    bxc as int,
                    ((by * bxc + bx) * 8) as nat,
                ),
            decreases bxc - bx,
        {
            let mut row: usize = 0;
            while row < 8
                invariant
                    row <= 8,
                    bx < bxc,
                    by < byc,
                    pitch_words == dest_pitch / 4,
                    pw == pitch_words,
                    dest@.len() == old(dest)@.len(),
                    old(dest)@.len() % 4 == 0,
                    src@.len() % 4 == 0,
                    (byc as int + 1) * 8 * pw + (bxc as int + 1) * 4 <= usize::MAX,
                    (byc as int + 1) * (bxc as int + 1) * 32 <= usize::MAX,
                    dest_row_base == by * 8 * pw,
                    dest_col_base == bx * 4,
                    src_pos == ((by * bxc + bx) * 8 + row) * 4,
                    dest@ == unswizzled(
                        old(dest)@,
                        src@,
                        pw,
                        bxc as int,
                        ((by * bxc + bx) * 8 + row) as nat,
                    ),
                decreases 8 - row,
            {
                let ghost t = (by * bxc + bx) * 8 + row;
                proof {
                    assert(by * 8 * pw + bx * 4 + row * pw <= (byc as int + 1) * 8 * pw + (bxc as int
                        + 1) * 4 && row * pw <= 8 * pw) by (nonlinear_arith)
                        requires
                            by < byc,
                            bx < bxc,
                            row < 8,
                            pw >= 0,
                    ;
                    assert(((by * bxc + bx) * 8 + row) * 4 + 4 <= (byc as int + 1) * (bxc as int + 1) * 32)
                        by (nonlinear_arith)
                        requires
                            by < byc,
                            bx < bxc,
                            row < 8,
                    ;
                    vstd::arithmetic::div_mod::lemma_fundamental_div_mod_converse(
                        t,
                        8,
                        by * bxc + bx,
                        row as int,
                    );
                    vstd::arithmetic::div_mod::lemma_fundamental_div_mod_converse(
                        by * bxc + bx,
                        bxc as int,
                        by as int,
                        bx as int,
                    );
                    assert(unswizzle_step_base(t, bxc as int, pw) == by * 8 * pw + bx * 4 + row * pw);
                }
                let base = dest_row_base + dest_col_base + row * pitch_words;
                let dest_words = dest.len() / 4;
                let src_words = src.len() / 4;
                if base <= dest_words && dest_words - base >= 4 && src_pos <= src_words && src_words
                    - src_pos >= 4 {
                    copy_16_bytes(dest, base * 4, src, src_pos * 4);
                }
                assert(dest@ == unswizzled(old(dest)@, src@, pw, bxc as int, (t + 1) as nat));
                src_pos += 4;
                row += 1;
            }
            dest_col_base += 4;
            bx += 1;
        }
        assert((by * bxc + bxc) * 8 == (by + 1) * bxc * 8) by (nonlinear_arith);
        assert((by * bxc + bxc) * 32 == (by + 1) * bxc * 32) by (nonlinear_arith);
        assert((by + 1) * 8 * pw <= (byc as int + 1) * 8 * pw && pw * 8 == 8 * pw && (by + 1) * 8 * pw
            == by * 8 * pw + pw * 8) by (nonlinear_arith)
            requires
                by < byc,
                pw >= 0,
        ;
        dest_row_base += pitch_words * 8;
        by += 1;
    }
}

/// Destination word of copy step `t` of `unswizzle_tex16`: the block column `t / 8 % bxc`
/// (four words wide) and line `t % 8`; every block row writes the same places.
pub open spec fn tex16_step_base(t: int, bxc: int, pitch: int) -> int {
    ((t / 8) % bxc) * 4 + (t % 8) * pitch
}

/// `dest` with the 4 words at `dpos` replaced by little-endian words `w .. w + 4` of `src`.
pub open spec fn copy4_words(dest: Seq<u32>, dpos: int, src: Seq<u8>, w: int) -> Seq<u32> {
    Seq::new(
        dest.len(),
        |i: int|
            if dpos <= i < dpos + 4 {
                le_u32(src, 4 * (w + i - dpos))
            } else {
                dest[i]
            },
    )
}

/// `dest` after the first `t` copy steps of `unswizzle_tex16`: step `s` moves source words
/// `4 s .. 4 s + 4` to `tex16_step_base(s)` when both ranges lie inside their buffers.
pub open spec fn tex16_unswizzled(dest: Seq<u32>, src: Seq<u8>, pitch: int, bxc: int, t: nat) -> Seq<
    u32,
>
    decreases t,
{
    if t == 0 {
        dest
    } else {
        let prev = tex16_unswizzled(dest, src, pitch, bxc, (t - 1) as nat);
        let s = t - 1;
        let base = tex16_step_base(s, bxc, pitch);
        if base + 4 <= dest.len() && 4 * s + 4 <= src.len() / 4 {
            copy4_words(prev, base, src, 4 * s)
        } else {
            prev
        }
    }
}

/// Copies four little-endian words of `src`, from word `w`, to `dest[dpos..dpos + 4]`.
fn copy_4_words(dest: &mut [u32], dpos: usize, src: &[u8], w: usize)
    requires
        dpos + 4 <= old(dest).len(),
        4 * w + 16 <= src.len(),
    ensures
        final(dest)@ == copy4_words(old(dest)@, dpos as int, src@, w as int),
{
    let mut i: usize = 0;
    while i < 4
        invariant
            i <= 4,
            dpos + 4 <= dest.len(),
            4 * w + 16 <= src.len(),
            dest@.len() == old(dest)@.len(),
            forall|j: int|
                0 <= j < dest@.len() ==> dest@[j] == (if dpos <= j < dpos + i {
                    le_u32(src@, 4 * (w + j - dpos))
                } else {
                    old(dest)@[j]
                }),
        decreases 4 - i,
    {
        dest[dpos + i] = read_u32(src, 4 * (w + i));
        i += 1;
    }
    assert(dest@ =~= copy4_words(old(dest)@, dpos as int, src@, w as int));
}

/// Unswizzles 16-bit-per-pixel data word by word into `dest` (`dest_pitch` words per
/// line): each 16-byte source block goes to one of `bxc` four-word columns of an 8-line
/// band; every block row is written over the same band. Source words are read
/// little-endian.
pub fn unswizzle_tex16(dest: &mut [u32], src: &[u8], bxc: usize, byc: usize, dest_pitch: usize)
    requires
        (bxc as int + 1) * 4 + 8 * dest_pitch as int <= usize::MAX,
        (byc as int + 1) * (bxc as int + 1) * 32 <= usize::MAX,
    ensures
        final(dest)@ == tex16_unswizzled(
            old(dest)@,
            src@,
            dest_pitch as int,
            bxc as int,
            (byc * bxc * 8) as nat,
        ),
{
    let src_words = src.len() / 4;
    let ghost pw = dest_pitch as int;
    let mut src_idx: usize = 0;
    let mut by: usize = 0;
    while by < byc
        invariant
            by <= byc,
            src_words == src@.len() / 4,
            pw == dest_pitch,
            dest@.len() == old(dest)@.len(),
            (bxc as int + 1) * 4 + 8 * pw <= usize::MAX,
            (byc as int + 1) * (bxc as int + 1) * 32 <= usize::MAX,
            src_idx == by * bxc * 32,
            dest@ == tex16_unswizzled(old(dest)@, src@, pw, bxc as int, (by * bxc * 8) as nat),
        decreases byc - by,
    {
        let mut xdest: usize = 0;
        let mut bx: usize = 0;
        while bx < bxc
            invariant
                bx <= bxc,
                by < byc,
                src_words == src@.len() / 4,
                pw == dest_pitch,
                dest@.len() == old(dest)@.len(),
                (bxc as int + 1) * 4 + 8 * pw <= usize::MAX,
                (byc as int + 1) * (bxc as int + 1) * 32 <= usize::MAX,
                xdest == bx * 4,
                src_idx == (by * bxc + bx) * 32,
                dest@ == tex16_unswizzled(
                    old(dest)@,
                    src@,
                    pw,
                    bxc as int,
                    ((by * bxc + bx) * 8) as nat,
                ),
            decreases bxc - bx,
        {
            let mut dest_off = xdest;
            let mut n: usize = 0;
            while n < 8
                invariant
                    n <= 8,
                    bx < bxc,
                    by < byc,
                    src_words == src@.len() / 4,
                    pw == dest_pitch,
                    dest@.len() == old(dest)@.len(),
                    (bxc as int + 1) * 4 + 8 * pw <= usize::MAX,
                    (byc as int + 1) * (bxc as int + 1) * 32 <= usize::MAX,
                    xdest == bx * 4,
                    dest_off == bx * 4 + n * pw,
                    src_idx == ((by * bxc + bx) * 8 + n) * 4,
                    dest@ == tex16_unswizzled(
                        old(dest)@,
                        src@,
                        pw,
                        bxc as int,
                        ((by * bxc + bx) * 8 + n) as nat,
                    ),
                decreases 8 - n,
            {
                let ghost t = (by * bxc + bx) * 8 + n;
                proof {
                    assert(bx * 4 + (n + 1) * pw <= (bxc as int + 1) * 4 + 8 * pw && bx * 4 + n * pw
                        + pw == bx * 4 + (n + 1) * pw) by (nonlinear_arith)
                        requires
                            bx < bxc,
                            n < 8,
                            pw >= 0,
                    ;
                    assert((((by * bxc + bx) * 8 + n) * 4 + 4) <= (byc as int + 1) * (bxc as int
                        + 1) * 32) by (nonlinear_arith)
                        requires
                            by < byc,
                            bx < bxc,
                            n < 8,
                    ;
                    vstd::arithmetic::div_mod::lemma_fundamental_div_mod_converse(
                        t,
                        8,
                        by * bxc + bx,
                        n as int,
                    );
                    vstd::arithmetic::div_mod::lemma_fundamental_div_mod_converse(
                        by * bxc + bx,
                        bxc as int,
                        by as int,
                        bx as int,
                    );
                    assert(tex16_step_base(t, bxc as int, pw) == bx * 4 + n * pw);
                }
                if dest_off <= dest.len() && dest.len() - dest_off >= 4 && src_idx <= src_words
                    && src_words - src_idx >= 4 {
                    copy_4_words(dest, dest_off, src, src_idx);
                }
                assert(dest@ == tex16_unswizzled(old(dest)@, src@, pw, bxc as int, (t + 1) as nat));
                dest_off += dest_pitch;
                src_idx += 4;
                n += 1;
            }
            xdest += 4;
            bx += 1;
        }
        assert((by * bxc + bxc) * 8 == (by + 1) * bxc * 8) by (nonlinear_arith);
        assert((by * bxc + bxc) * 32 == (by + 1) * bxc * 32) by (nonlinear_arith);
        by += 1;
    }
}

// ─── Linear (unswizzled) pixel data ───
/// What a linear-buffer decoder writes to pixel `(x, y)` when lines are `pitch` bytes
/// apart: 16-bit formats expand the little-endian u16 at `y * pitch + x * 2`; RGBA8888
/// takes the four bytes at `y * pitch + x * 4` as they are. `None` (pixel untouched)
/// when those bytes lie past the end of the buffer, or for any other format.
pub open spec fn linear_texel(buf: Seq<u8>, pitch: int, fmt: GeTextureFormat, x: int, y: int) -> Option<
    u32,
> {
    if fmt.is_16bit_direct() {
        let off = y * pitch + x * 2;
        if off + 2 <= buf.len() {
            Some(convert16_value(le_u16(buf, off), fmt))
        } else {
            None
        }
    } else if fmt is Rgba8888 {
        let off = y * pitch + x * 4;
        if off + 4 <= buf.len() {
            Some(le_u32(buf, off))
        } else {
            None
        }
    } else {
        None
    }
}

/// Fills the `width` by `height` grid of `out` from a linear buffer (see `linear_texel`).
fn decode_linear(out: &mut [u32], buf: &[u8], pitch: usize, width: u32, height: u32, format: GeTextureFormat)
    requires
        width * height <= old(out)@.len(),
        (height as int) * (pitch as int) + (width as int) * 4 + 4 <= usize::MAX,
    ensures
        final(out)@ == fill_result(
            old(out)@,
            width as int,
            height as int,
            |x: int, y: int| linear_texel(buf@, pitch as int, format, x, y),
        ),
{
    let ghost texel = |x: int, y: int| linear_texel(buf@, pitch as int, format, x, y);
    let w = width as usize;
    let h = height as usize;
    let is16 = match format {
        GeTextureFormat::Rgb565 | GeTextureFormat::Rgba5551 | GeTextureFormat::Rgba4444 => true,
        _ => false,
    };
    let is32 = match format {
        GeTextureFormat::Rgba8888 => true,
        _ => false,
    };
    let mut y: usize = 0;
    let mut k: usize = 0;
    while y < h
        invariant
            y <= h,
            k == y * w,
            w == width,
            h == height,
            is16 == format.is_16bit_direct(),
            is32 == (format is Rgba8888),
            w * h <= old(out)@.len(),
            (h as int) * (pitch as int) + (w as int) * 4 + 4 <= usize::MAX,
            out@.len() == old(out)@.len(),
            texel == (|x: int, y: int| linear_texel(buf@, pitch as int, format, x, y)),
            forall|j: int|
                0 <= j < k ==> out@[j] == #[trigger] fill_result(old(out)@, w as int, h as int, texel)[j],
            forall|j: int| k <= j < out@.len() ==> out@[j] == old(out)@[j],
        decreases h - y,
    {
        let mut x: usize = 0;
        while x < w
            invariant
                x <= w,
                y < h,
                k == y * w + x,
                w == width,
                h == height,
                is16 == format.is_16bit_direct(),
                is32 == (format is Rgba8888),
                w * h <= old(out)@.len(),
                (h as int) * (pitch as int) + (w as int) * 4 + 4 <= usize::MAX,
                out@.len() == old(out)@.len(),
                texel == (|x: int, y: int| linear_texel(buf@, pitch as int, format, x, y)),
                forall|j: int|
                    0 <= j < k ==> out@[j] == #[trigger] fill_result(old(out)@, w as int, h as int, texel)[j],
                forall|j: int| k <= j < out@.len() ==> out@[j] == old(out)@[j],
            decreases w - x,
        {
            proof {
                lemma_row_major_index(x as int, y as int, w as int, h as int);
                assert(y * pitch <= h * pitch) by (nonlinear_arith)
                    requires
                        y < h,
                ;
            }
            if is16 {
                let off = y * pitch + x * 2;
                if off <= buf.len() && buf.len() - off >= 2 {
                    let px = read_u16(buf, off);
                    out[k] = convert_16bit_to_rgba8888(px, format);
                }
            } else if is32 {
                let off = y * pitch + x * 4;
                if off <= buf.len() && buf.len() - off >= 4 {
                    out[k] = read_u32(buf, off);
                }
            }
            assert(fill_result(old(out)@, w as int, h as int, texel)[k as int] == out@[k as int]);
            x += 1;
            k += 1;
        }
        assert(k == (y + 1) * w) by (nonlinear_arith)
            requires
                k == y * w + x,
                x == w,
        ;
        y += 1;
    }
    assert(k == w * h) by (nonlinear_arith)
        requires
            k == y * w,
            y == h,
    ;
    assert(out@ =~= fill_result(old(out)@, w as int, h as int, texel));
}

/// Bytes per pixel used for the unswizzle scratch buffer and linear pitches (at least 1).
pub open spec fn scratch_bytes_per_pixel(fmt: GeTextureFormat) -> int {
    if bits_per_pixel(fmt) / 8 > 1 {
        (bits_per_pixel(fmt) / 8) as int
    } else {
        1
    }
}

/// Line pitch, in bytes, of the unswizzled scratch buffer.
pub open spec fn swizzle_pitch(bufw: u32, fmt: GeTextureFormat) -> int {
    bufw * scratch_bytes_per_pixel(fmt)
}

/// The scratch buffer after unswizzling: zero-filled, `bufw` pixels wide and the height
/// rounded up to 8 lines, then the copy steps of `unswizzled` with `bits * bufw / 16`
/// blocks per block row.
pub open spec fn swizzle_scratch(data: Seq<u8>, height: u32, bufw: u32, fmt: GeTextureFormat) -> Seq<u8> {
    let byc = (height as int + 7) / 8;
    let bxc = (bufw * bits_per_pixel(fmt)) / 16;
    let size = bufw * (byc * 8) * scratch_bytes_per_pixel(fmt);
    unswizzled(
        Seq::new(size as nat, |i: int| 0u8),
        data,
        swizzle_pitch(bufw, fmt) / 4,
        bxc,
        (byc * bxc * 8) as nat,
    )
}

/// What unswizzling writes to pixel `(x, y)`: the expanded scratch-buffer pixel for
/// the direct formats, the DXT decoder's pixel (from the raw data) for the others.
pub open spec fn swizzled_texel(
    data: Seq<u8>,
    width: u32,
    height: u32,
    bufw: u32,
    fmt: GeTextureFormat,
    x: int,
    y: int,
) -> Option<u32> {
    if fmt.is_16bit_direct() || fmt is Rgba8888 {
        linear_texel(swizzle_scratch(data, height, bufw, fmt), swizzle_pitch(bufw, fmt), fmt, x, y)
    } else {
        dxt_texel(data, fmt, width, x, y)
    }
}

/// The machine limits the texture decoders need for their index arithmetic.
pub open spec fn texture_fits(width: u32, height: u32, bufw: u32) -> bool {
    &&& width <= u32::MAX - 3
    &&& bufw as int * 32 <= u32::MAX
    &&& (height as int + 16) * (bufw as int + 16) * 64 + (width as int + 3) * (height as int + 3)
        + (width as int) * 4 + 4 <= usize::MAX
}

/// Arithmetic facts behind the scratch buffer's size and the unswizzle step bounds.
proof fn lemma_scratch_bounds(height: u32, bufw: u32, bpp: u32, byc: int, bxc: int, bytes: int)
    requires
        bpp == 4 || bpp == 8 || bpp == 16 || bpp == 32,
        bufw as int * 32 <= u32::MAX,
        (height as int + 16) * (bufw as int + 16) * 64 <= usize::MAX,
        byc == (height as int + 7) / 8,
        bxc == (bufw * bpp) / 16,
        bytes == (if bpp / 8 > 1 {
            bpp / 8
        } else {
            1
        }),
    ensures
        height as int + 16 <= usize::MAX,
        (bufw as int) * (byc * 8) <= (bufw as int) * (byc * 8) * bytes,
        (bufw as int) * (byc * 8) * bytes <= usize::MAX,
        (bufw as int) * bytes <= usize::MAX,
        bufw > 0 && height > 0 ==> (bufw as int) * (byc * 8) * bytes > 0,
        ((bufw as int) * (byc * 8) * bytes) % 8 == 0,
        (byc + 1) * 8 * ((bufw as int) * bytes / 4) + (bxc + 1) * 4 <= usize::MAX,
        (byc + 1) * (bxc + 1) * 32 <= usize::MAX,
        (height as int) * ((bufw as int) * bytes) <= (height as int + 16) * (bufw as int + 16) * 64,
{
    assert(height as int + 16 <= (height as int + 16) * (bufw as int + 16) * 64) by (nonlinear_arith);
    assert(1 <= bytes <= 4);
    assert(byc * 8 <= height + 7);
    assert(bxc * 16 <= bufw * 32);
    assert((bufw as int) * (byc * 8) * bytes <= (height as int + 16) * (bufw as int + 16) * 64)
        by (nonlinear_arith)
        requires
            byc * 8 <= height + 7,
            bytes <= 4,
            byc >= 0,
    ;
    assert((bufw as int) * bytes <= (height as int + 16) * (bufw as int + 16) * 64) by (nonlinear_arith)
        requires
            bytes <= 4,
            bytes >= 1,
    ;
    assert(bufw > 0 && height > 0 ==> (bufw as int) * (byc * 8) * bytes > 0) by (nonlinear_arith)
        requires
            byc == (height as int + 7) / 8,
            bytes >= 1,
    ;
    assert((bufw as int) * (byc * 8) * bytes == ((bufw as int) * byc * bytes) * 8) by (nonlinear_arith);
    vstd::arithmetic::div_mod::lemma_mod_multiples_basic((bufw as int) * byc * bytes, 8);
    assert((bufw as int) * (byc * 8) <= (bufw as int) * (byc * 8) * bytes) by (nonlinear_arith)
        requires
            bytes >= 1,
            byc >= 0,
    ;
    assert((byc + 1) * 8 * ((bufw as int) * bytes / 4) + (bxc + 1) * 4 <= usize::MAX && (byc + 1) * (
    bxc + 1) * 32 <= usize::MAX) by (nonlinear_arith)
        requires
            byc * 8 <= height + 7,
            bytes <= 4,
            bytes >= 1,
            bxc * 16 <= bufw * 32,
            bxc >= 0,
            (height as int + 16) * (bufw as int + 16) * 64 <= usize::MAX,
    ;
    assert((height as int) * ((bufw as int) * bytes) <= (height as int + 16) * (bufw as int + 16) * 64)
        by (nonlinear_arith)
        requires
            bytes <= 4,
            bytes >= 1,
    ;
}

/// Builds the unswizzled scratch buffer and returns it with its line pitch.
#[verifier::spinoff_prover]
#[verifier::rlimit(40)]
fn unswizzle_scratch(data: &[u8], height: u32, bufw: u32, format: GeTextureFormat) -> (res: (
    Vec<u8>,
    usize,
))
    requires
        bufw as int * 32 <= u32::MAX,
        (height as int + 16) * (bufw as int + 16) * 64 <= usize::MAX,
        bufw > 0,
        height > 0,
        data@.len() % 4 == 0,
    ensures
        res.0@ == swizzle_scratch(data@, height, bufw, format),
        res.1 == swizzle_pitch(bufw, format),
        (height as int) * (res.1 as int) <= (height as int + 16) * (bufw as int + 16) * 64,
{
    let bpp = texture_bits_per_pixel(format);
    proof {
        lemma_bits_per_pixel_values(format);
    }
    let row_width = bufw * bpp;
    let bxc = (row_width as usize) / 16;
    let bytes: usize = if bpp / 8 > 1 {
        (bpp / 8) as usize
    } else {
        1
    };
    proof {
        lemma_scratch_bounds(height, bufw, bpp, (height as int + 7) / 8, bxc as int, bytes as int);
    }
    let byc = ((height as usize) + 7) / 8;
    let size = (bufw as usize) * (byc * 8) * bytes;
    let mut temp: Vec<u8> = vec![0u8; size];
    assert(temp@ =~= Seq::new(size as nat, |i: int| 0u8));
    let temp_pitch = (bufw as usize) * bytes;
    unswizzle_16_byte_blocks(temp.as_mut_slice(), temp_pitch, data, bxc, byc);
    (temp, temp_pitch)
}

/// Unswizzles a PSP texture and converts it to RGBA8888 in the row-major `dest`
/// (`width` pixels per row). `bufw` is the swizzled buffer width in pixels.
pub fn unswizzle_texture_to_rgba(
    dest: &mut [u32],
    data: &[u8],
    width: u32,
    height: u32,
    bufw: u32,
    format: GeTextureFormat,
)
    requires
        texture_fits(width, height, bufw),
        bufw > 0,
        height > 0,
        data@.len() % 4 == 0,
        width * height <= old(dest)@.len(),
    ensures
        final(dest)@ == fill_result(
            old(dest)@,
            width as int,
            height as int,
            |x: int, y: int| swizzled_texel(data@, width, height, bufw, format, x, y),
        ),
{
    let (temp, temp_pitch) = unswizzle_scratch(data, height, bufw, format);
    match format {
        GeTextureFormat::Rgb565 | GeTextureFormat::Rgba5551 | GeTextureFormat::Rgba4444
        | GeTextureFormat::Rgba8888 => {
            decode_linear(dest, temp.as_slice(), temp_pitch, width, height, format);
        },
        _ => {
            decode_dxt_texture(dest, data, width, height, format);
        },
    }
    assert(final(dest)@ =~= fill_result(
            old(dest)@,
            width as int,
            height as int,
            |x: int, y: int| swizzled_texel(data@, width, height, bufw, format, x, y),
        ));
}

/// Every format has 4, 8, 16 or 32 bits per pixel.
pub proof fn lemma_bits_per_pixel_values(fmt: GeTextureFormat)
    ensures
        bits_per_pixel(fmt) == 4 || bits_per_pixel(fmt) == 8 || bits_per_pixel(fmt) == 16
            || bits_per_pixel(fmt) == 32,
        bits_per_pixel(fmt) == 4 ==> 128int / (bits_per_pixel(fmt) as int) == 32,
        bits_per_pixel(fmt) == 8 ==> 128int / (bits_per_pixel(fmt) as int) == 16,
        bits_per_pixel(fmt) == 16 ==> 128int / (bits_per_pixel(fmt) as int) == 8,
        bits_per_pixel(fmt) == 32 ==> 128int / (bits_per_pixel(fmt) as int) == 4,
{
}

/// Rounds `width` up so that a line is a multiple of 16 bytes.
pub open spec fn bufw_for(width: u32, fmt: GeTextureFormat) -> int {
    let p = 128int / (bits_per_pixel(fmt) as int);
    ((width + p - 1) / p) * p
}

/// The PSP buffer width for `width` pixels: the smallest multiple of the pixels in
/// 16 bytes that is at least `width`.
pub fn compute_texture_bufw(width: u32, format: GeTextureFormat) -> (r: u32)
    requires
        width as int + 128int / (bits_per_pixel(format) as int) - 1 <= u32::MAX,
    ensures
        r == bufw_for(width, format),
        r >= width,
        r < width + 128int / (bits_per_pixel(format) as int),
        r as int % (128int / (bits_per_pixel(format) as int)) == 0,
        (r as int * bits_per_pixel(format) as int) % 128 == 0,
{
    let bpp = texture_bits_per_pixel(format);
    proof {
        lemma_bits_per_pixel_values(format);
    }
    if bpp == 0 {
        return width;
    }
    let p = (16 * 8) / bpp;
    if p == 0 {
        return width;
    }
    let q = width / p;
    let ghost pi = p as int;
    proof {
        assert(pi == 4 || pi == 8 || pi == 16 || pi == 32);
        assert(pi * bpp == 128);
        vstd::arithmetic::div_mod::lemma_fundamental_div_mod(width as int, pi);
        vstd::arithmetic::mul::lemma_mul_is_commutative(q as int, pi);
        assert(q * pi <= width < q * pi + pi);
        vstd::arithmetic::div_mod::lemma_fundamental_div_mod(width + pi - 1, pi);
        if width % p == 0 {
            assert((width + pi - 1) / pi == q);
        } else {
            assert((width + pi - 1) / pi == q + 1);
        }
    }
    let r = if width % p == 0 { q * p } else { (q + 1) * p };
    proof {
        let k = (width + pi - 1) / pi;
        assert(r == k * pi);
        assert((k * pi * bpp) % 128 == 0) by (nonlinear_arith)
            requires
                pi * bpp == 128,
                k >= 0,
        ;
        vstd::arithmetic::div_mod::lemma_mod_multiples_basic(k, pi);
    }
    r
}

/// What `decode_psp_texture` gives pixel `(x, y)`.
pub open spec fn psp_texel(
    data: Seq<u8>,
    width: u32,
    height: u32,
    bufw: u32,
    fmt: GeTextureFormat,
    swizzled: bool,
    x: int,
    y: int,
) -> Option<u32> {
    if swizzled && !fmt.is_dxt() {
        swizzled_texel(data, width, height, bufw, fmt, x, y)
    } else if fmt.is_dxt() {
        dxt_texel(data, fmt, width, x, y)
    } else {
        linear_texel(data, bufw * scratch_bytes_per_pixel(fmt), fmt, x, y)
    }
}

/// Decodes a PSP texture to `width * height` row-major RGBA8888 pixels; pixels the
/// data does not cover stay 0.
pub fn decode_psp_texture(
    data: &[u8],
    width: u32,
    height: u32,
    bufw: u32,
    format: GeTextureFormat,
    swizzled: bool,
) -> (out: Vec<u32>)
    requires
        width * height <= u32::MAX,
        texture_fits(width, height, bufw),
        swizzled && !format.is_dxt() ==> bufw > 0 && height > 0 && data@.len() % 4 == 0,
    ensures
        out@ == fill_result(
            Seq::new((width * height) as nat, |i: int| 0u32),
            width as int,
            height as int,
            |x: int, y: int| psp_texel(data@, width, height, bufw, format, swizzled, x, y),
        ),
{
    let size = (width * height) as usize;
    let mut out: Vec<u32> = vec![0u32; size];
    assert(out@ =~= Seq::new((width * height) as nat, |i: int| 0u32));
    let is_dxt = match format {
        GeTextureFormat::Dxt1 | GeTextureFormat::Dxt3 | GeTextureFormat::Dxt5 => true,
        _ => false,
    };
    if swizzled && !is_dxt {
        unswizzle_texture_to_rgba(out.as_mut_slice(), data, width, height, bufw, format);
    } else if is_dxt {
        decode_dxt_texture(out.as_mut_slice(), data, width, height, format);
    } else {
        let bpp = (texture_bits_per_pixel(format) / 8) as usize;
        let bytes: usize = if bpp > 1 {
            bpp
        } else {
            1
        };
        proof {
            assert((bufw as int) * (bytes as int) <= (height as int + 16) * (bufw as int + 16) * 64)
                by (nonlinear_arith)
                requires
                    bytes <= 4,
                    bytes >= 1,
            ;
        }
        let row_size = (bufw as usize) * bytes;
        proof {
            assert((height as int) * (row_size as int) <= (height as int + 16) * (bufw as int + 16)
                * 64) by (nonlinear_arith)
                requires
                    row_size == bufw * bytes,
                    bytes <= 4,
            ;
        }
        decode_linear(out.as_mut_slice(), data, row_size, width, height, format);
    }
    out
}

} // verus!
