use gtpsp::texture::{
    compute_texture_bufw, convert_16bit_to_rgba8888, convert_4_to_8, convert_5_to_8, convert_6_to_8,
    decode_dxt1_block, decode_dxt3_block, decode_psp_texture, unswizzle_16_byte_blocks, unswizzle_tex16, reverse_4444, reverse_5551, reverse_565,
    rgb565_to_rgba8888, rgba4444_to_rgba8888, rgba5551_to_rgba8888, texture_bits_per_pixel,
    Dxt1Block, Dxt3Block, GeTextureFormat,
};

#[test]
fn format_codes_map_to_formats() {
    assert_eq!(GeTextureFormat::from_u8(0), Some(GeTextureFormat::Rgb565));
    assert_eq!(GeTextureFormat::from_u8(3), Some(GeTextureFormat::Rgba8888));
    assert_eq!(GeTextureFormat::from_u8(10), Some(GeTextureFormat::Dxt5));
    assert_eq!(GeTextureFormat::from_u8(11), None);
}

#[test]
fn bits_per_pixel_by_format() {
    assert_eq!(texture_bits_per_pixel(GeTextureFormat::Rgb565), 16);
    assert_eq!(texture_bits_per_pixel(GeTextureFormat::Rgba8888), 32);
    assert_eq!(texture_bits_per_pixel(GeTextureFormat::Clut4), 4);
    assert_eq!(texture_bits_per_pixel(GeTextureFormat::Dxt1), 4);
    assert_eq!(texture_bits_per_pixel(GeTextureFormat::Dxt5), 8);
}

#[test]
fn channel_expansion_replicates_high_bits() {
    assert_eq!(convert_4_to_8(0xf), 0xff);
    assert_eq!(convert_4_to_8(0x5), 0x55);
    assert_eq!(convert_5_to_8(31), 255);
    assert_eq!(convert_5_to_8(16), 132);
    assert_eq!(convert_6_to_8(63), 255);
    assert_eq!(convert_6_to_8(32), 130);
}

#[test]
fn sixteen_bit_pixels_expand_to_rgba8888() {
    assert_eq!(rgb565_to_rgba8888(0xffff), 0xffff_ffff);
    assert_eq!(rgb565_to_rgba8888(0x001f), 0xff00_00ff);
    assert_eq!(rgba5551_to_rgba8888(0x8000), 0xff00_0000);
    assert_eq!(rgba5551_to_rgba8888(0x7fff), 0x00ff_ffff);
    assert_eq!(rgba4444_to_rgba8888(0x1234), 0x1122_3344);
    assert_eq!(convert_16bit_to_rgba8888(0x1234, GeTextureFormat::Rgba4444), 0x1122_3344);
    assert_eq!(convert_16bit_to_rgba8888(0x1234, GeTextureFormat::Rgba8888), 0);
}

#[test]
fn channel_order_reversal() {
    assert_eq!(reverse_4444(0x1234), 0x4321);
    assert_eq!(reverse_565(0xf800), 0x001f);
    assert_eq!(reverse_565(reverse_565(0x1234)), 0x1234);
    assert_eq!(reverse_4444(reverse_4444(0xbeef)), 0xbeef);
    assert_eq!(reverse_5551(0x8000), 0x0001);
    assert_eq!(reverse_5551(0x0001), 0x0800);
}

#[test]
fn buffer_width_rounds_to_sixteen_bytes() {
    assert_eq!(compute_texture_bufw(100, GeTextureFormat::Rgba8888), 100);
    assert_eq!(compute_texture_bufw(101, GeTextureFormat::Rgba8888), 104);
    assert_eq!(compute_texture_bufw(10, GeTextureFormat::Rgb565), 16);
    assert_eq!(compute_texture_bufw(1, GeTextureFormat::Clut4), 32);
    assert_eq!(compute_texture_bufw(5, GeTextureFormat::Rgb565), 8);
    assert_eq!(compute_texture_bufw(1, GeTextureFormat::Rgba8888), 4);
    assert_eq!(compute_texture_bufw(33, GeTextureFormat::Clut4), 64);
    assert_eq!(compute_texture_bufw(u32::MAX - 32, GeTextureFormat::Clut4), u32::MAX - 31);
    assert_eq!(compute_texture_bufw(u32::MAX - 31, GeTextureFormat::Clut4), u32::MAX - 31);
    assert_eq!(compute_texture_bufw(u32::MAX - 3, GeTextureFormat::Rgba8888), u32::MAX - 3);
}

#[test]
fn dxt1_block_four_colour_mode() {
    let block = Dxt1Block { lines: [0xe4; 4], color1: 0xffff, color2: 0x0000 };
    let mut dst = [0u32; 16];
    let has_alpha = decode_dxt1_block(&mut dst, &block);
    assert!(has_alpha);
    for y in 0..4 {
        assert_eq!(dst[y * 4], 0xffff_ffff);
        assert_eq!(dst[y * 4 + 1], 0xff00_0000);
        assert_eq!(dst[y * 4 + 2], 0xffa5_aaa5);
        assert_eq!(dst[y * 4 + 3], 0xff52_5552);
    }
}

#[test]
fn dxt1_block_three_colour_mode_has_transparent_black() {
    let block = Dxt1Block { lines: [0xff; 4], color1: 0x0000, color2: 0xffff };
    let mut dst = [7u32; 16];
    assert!(decode_dxt1_block(&mut dst, &block));
    assert!(dst.iter().all(|&p| p == 0));
}

#[test]
fn dxt3_block_takes_explicit_alpha() {
    let block = Dxt3Block {
        color: Dxt1Block { lines: [0; 4], color1: 0xffff, color2: 0x0000 },
        alpha_lines: [0x0f00, 0, 0, 0xffff],
    };
    let mut dst = [0u32; 16];
    decode_dxt3_block(&mut dst, &block);
    assert_eq!(dst[0], 0x00ff_ffff);
    assert_eq!(dst[2], 0xffff_ffff);
    assert_eq!(dst[15], 0xffff_ffff);
    assert_eq!(dst[4], 0x00ff_ffff);
}

#[test]
fn linear_rgba8888_texture_reads_rows_by_buffer_width() {
    // 2x2 pixels, buffer width 4 pixels (16 bytes per line).
    let mut data = vec![0u8; 32];
    data[0..4].copy_from_slice(&[1, 2, 3, 4]);
    data[4..8].copy_from_slice(&[5, 6, 7, 8]);
    data[16..20].copy_from_slice(&[9, 10, 11, 12]);
    data[20..24].copy_from_slice(&[13, 14, 15, 16]);
    let out = decode_psp_texture(&data, 2, 2, 4, GeTextureFormat::Rgba8888, false);
    assert_eq!(out, vec![0x0403_0201, 0x0807_0605, 0x0c0b_0a09, 0x100f_0e0d]);
}

#[test]
fn linear_texture_leaves_uncovered_pixels_zero() {
    let data = vec![0xffu8, 0xff];
    let out = decode_psp_texture(&data, 2, 1, 8, GeTextureFormat::Rgb565, false);
    assert_eq!(out, vec![0xffff_ffff, 0]);
}

#[test]
fn tex16_unswizzle_writes_each_band_over_the_same_lines() {
    let mut src = Vec::new();
    for k in 0..64u32 {
        src.extend_from_slice(&k.to_le_bytes());
    }
    let mut dest = vec![0u32; 32];
    unswizzle_tex16(&mut dest, &src[..128], 1, 1, 4);
    assert_eq!(dest, (0..32).collect::<Vec<u32>>());
    let mut dest2 = vec![0u32; 32];
    unswizzle_tex16(&mut dest2, &src, 1, 2, 4);
    assert_eq!(dest2, (32..64).collect::<Vec<u32>>());
}

#[test]
fn byte_unswizzle_places_blocks_in_bands() {
    let src: Vec<u8> = (0..128u32).map(|v| v as u8).collect();
    let mut dest = vec![0u8; 128];
    unswizzle_16_byte_blocks(&mut dest, 16, &src, 1, 1);
    assert_eq!(dest, src);
}
