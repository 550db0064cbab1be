use gtpsp::graphics::{dominant_rgba, LoadedTexture};
use gtpsp::model::{car_texture_path, course_texture_path, load_car_texture, load_course_texture};
use gtpsp::sprite::{
    bytes_per_pixel, compute_real_dim, decode_to_rgba, parse_txs3_texture, parse_txs3_texture_at, sprite_load_paths, SpriteCache,
    SpriteFetch,
};

fn put32(d: &mut [u8], off: usize, v: u32) {
    d[off..off + 4].copy_from_slice(&v.to_le_bytes());
}

fn put16(d: &mut [u8], off: usize, v: u16) {
    d[off..off + 2].copy_from_slice(&v.to_le_bytes());
}

/// A TXS3 block of a 2x2 RGBA8888 image whose offsets count from `base`.
fn txs3_block(base: u32) -> Vec<u8> {
    let mut d = vec![0u8; 0x60];
    d[0..4].copy_from_slice(b"TXS3");
    put32(&mut d, 0x1c, base + 0x20);
    put32(&mut d, 0x24, 16);
    d[0x29] = 1;
    put16(&mut d, 0x2c, 2);
    put16(&mut d, 0x2e, 2);
    put32(&mut d, 0x44, base + 0x50);
    for i in 0..16 {
        d[0x50 + i] = i as u8 + 1;
    }
    d
}

#[test]
fn pixel_sizes_by_format() {
    assert_eq!(bytes_per_pixel(1), 4);
    assert_eq!(bytes_per_pixel(3), 2);
    assert_eq!(bytes_per_pixel(7), 1);
    assert_eq!(bytes_per_pixel(8), 1);
    assert_eq!(bytes_per_pixel(42), 2);
}

#[test]
fn real_width_keeps_a_plausible_header() {
    assert_eq!(compute_real_dim(16, 16, 512, 4), 16);
    assert_eq!(compute_real_dim(0, 5, 100, 4), 0);
    assert_eq!(compute_real_dim(3, 3, 7, 4), 3);
}

#[test]
fn real_width_picks_the_first_fitting_candidate() {
    assert_eq!(compute_real_dim(100, 100, 512, 4), 32);
}

#[test]
fn decodes_each_sprite_format() {
    assert_eq!(decode_to_rgba(&[1, 2, 3, 4, 5, 6, 7, 8, 9], 1, 2, 1), vec![1, 2, 3, 4, 5, 6, 7, 8]);
    assert_eq!(decode_to_rgba(&[0x00, 0xf8], 4, 1, 1), vec![255, 0, 0, 255]);
    assert_eq!(decode_to_rgba(&[0x01, 0x00, 0x00, 0xf8], 3, 2, 1), vec![0, 0, 0, 255, 255, 0, 0, 0]);
    assert_eq!(decode_to_rgba(&[0x34, 0x12], 5, 1, 1), vec![17, 34, 51, 68]);
    assert_eq!(decode_to_rgba(&[0x80], 7, 1, 1), vec![128, 128, 128, 255]);
    assert_eq!(decode_to_rgba(&[0xf0], 8, 2, 1), vec![255, 255, 255, 255, 0, 0, 0, 255]);
    assert_eq!(decode_to_rgba(&[], 9, 1, 2), vec![255, 0, 255, 255, 255, 0, 255, 255]);
}

#[test]
fn decoded_data_is_fit_to_the_pixel_count() {
    assert_eq!(decode_to_rgba(&[1], 7, 2, 1), vec![1, 1, 1, 255, 0, 0, 0, 0]);
    assert_eq!(decode_to_rgba(&[1, 2], 7, 1, 1), vec![1, 1, 1, 255]);
    assert!(decode_to_rgba(&[1, 2], 7, 0, 3).is_empty());
}

#[test]
fn txs3_block_decodes() {
    let t = parse_txs3_texture_at(&txs3_block(0), 0).unwrap();
    assert_eq!((t.width, t.height), (2, 2));
    assert_eq!(t.rgba, (1..=16).collect::<Vec<u8>>());
    assert_eq!(t.len(), 16);
}

#[test]
fn txs3_block_offsets_are_taken_relative_to_the_base() {
    let block = txs3_block(0x100);
    let t = parse_txs3_texture_at(&block, 0x100).unwrap();
    assert_eq!((t.width, t.height), (2, 2));
    assert_eq!(parse_txs3_texture_at(&block, 0x121).err().unwrap(), "ImageInfo offset is before TXS3 base");
}

#[test]
fn txs3_errors() {
    assert_eq!(parse_txs3_texture_at(&[0u8; 31], 0).err().unwrap(), "TXS3 too short");
    assert_eq!(parse_txs3_texture_at(&[0u8; 40], 0).err().unwrap(), "Not TXS3 format");
    let mut far = txs3_block(0);
    put32(&mut far, 0x1c, 0x40);
    assert_eq!(parse_txs3_texture_at(&far, 0).err().unwrap(), "ImageInfo out of range");
    let mut early = txs3_block(0x10);
    put32(&mut early, 0x1c, 0x30);
    put32(&mut early, 0x44, 0x08);
    assert_eq!(parse_txs3_texture_at(&early, 0x10).err().unwrap(), "Pixel data offset is before TXS3 base");
    let mut big = txs3_block(0);
    put32(&mut big, 0x24, 17);
    assert_eq!(parse_txs3_texture_at(&big, 0).err().unwrap(), "Pixel data out of range");
}

#[test]
fn raw_square_rgb565_files_decode() {
    let t = parse_txs3_texture(&[0xffu8; 32]).unwrap();
    assert_eq!((t.width, t.height), (4, 4));
    assert_eq!(t.rgba, vec![255u8; 64]);
    assert_eq!(parse_txs3_texture(&[0u8; 34]).err().unwrap(), "Not TXS3 format");
    assert_eq!(parse_txs3_texture(&[0u8; 8]).err().unwrap(), "TXS3 too short");
    assert_eq!(parse_txs3_texture(&txs3_block(0)).unwrap().width, 2);
}

#[test]
fn course_and_car_textures() {
    assert_eq!(load_course_texture(&[0u8; 32]).unwrap().width, 4);
    assert!(load_course_texture(&[0u8; 34]).is_none());
    let mut model = vec![0u8; 0x100];
    model[0..4].copy_from_slice(b"3LDM");
    put32(&mut model, 0x48, 0x100);
    model.extend_from_slice(&txs3_block(0x100));
    let t = load_car_texture(&model).unwrap();
    assert_eq!((t.width, t.height), (2, 2));
    put32(&mut model, 0x48, 0);
    assert!(load_car_texture(&model).is_none());
    assert!(load_car_texture(&[0u8; 10]).is_none());
}

#[test]
fn cache_returns_what_was_stored_until_cleared() {
    let mut cache = SpriteCache::new();
    assert!(cache.lookup("menu/bg").is_none());
    let tex = LoadedTexture { width: 1, height: 1, rgba: vec![1, 2, 3, 4] };
    cache.store("menu/bg", tex);
    let got = cache.lookup("menu/bg").unwrap();
    assert_eq!((got.width, got.height, got.rgba), (1, 1, vec![1, 2, 3, 4]));
    cache.clear();
    assert!(cache.lookup("menu/bg").is_none());
}

#[test]
fn cache_evicts_the_oldest_past_512() {
    let mut cache = SpriteCache::new();
    for i in 0..513u32 {
        let key = format!("s{}", i);
        assert!(cache.lookup(&key).is_none());
        cache.store(&key, LoadedTexture { width: i, height: 1, rgba: vec![] });
    }
    assert!(cache.lookup("s0").is_none());
    assert_eq!(cache.lookup("s1").unwrap().width, 1);
    assert_eq!(cache.lookup("s512").unwrap().width, 512);
}

#[test]
fn dominant_colour_averages_opaque_pixels() {
    assert_eq!(dominant_rgba(&[1, 2, 3], 0, 0), (0, 0, 0, 0));
    let px = [10, 20, 30, 255, 30, 40, 50, 200, 200, 200, 200, 0];
    assert_eq!(dominant_rgba(&px, 3, 1), (20, 30, 40, 227));
    let clear = [10, 20, 30, 0, 30, 40, 50, 100];
    assert_eq!(dominant_rgba(&clear, 2, 1), (20, 30, 40, 50));
}

#[test]
fn empty_texture() {
    let t = LoadedTexture::new();
    assert_eq!((t.width, t.height, t.len()), (0, 0, 0));
    let d = t.duplicate();
    assert_eq!(d.len(), 0);
}

#[test]
fn sprite_files_are_tried_in_order() {
    assert_eq!(
        sprite_load_paths("menu\\icon"),
        vec![
            "assets/piece_gt5m/menu\\icon.img".to_string(),
            "assets/piece_gt5m/menu/icon.img".to_string(),
            "assets/menu\\icon".to_string(),
            "menu\\icon".to_string(),
        ]
    );
}

#[test]
fn car_files_are_named_by_hex_id() {
    assert_eq!(car_texture_path(0x1A2B), "../files/decompiled/Gran Turismo/PSP_GAME/USRDIR/GT.VOL/car/race/00001A2B");
    assert_eq!(car_texture_path(u32::MAX), "../files/decompiled/Gran Turismo/PSP_GAME/USRDIR/GT.VOL/car/race/FFFFFFFF");
    assert!(course_texture_path().ends_with("crs/race.txs"));
}

fn tex(w: u32) -> LoadedTexture {
    LoadedTexture { width: w, height: 1, rgba: vec![1, 2, 3, 4] }
}

#[test]
fn fetch_tries_each_candidate_then_gives_up() {
    let mut cache = SpriteCache::new();
    let step = cache.fetch_start("icon/a");
    assert_eq!(cache.access_count(), 1);
    let (k, file) = match step {
        SpriteFetch::Read(k, f) => (k, f),
        _ => panic!("expected a file to read"),
    };
    assert_eq!((k, file.as_str()), (0, "assets/piece_gt5m/icon/a.img"));
    let mut k = k;
    let mut seen = Vec::new();
    loop {
        match cache.fetch_next("icon/a", k, None) {
            SpriteFetch::Read(j, f) => {
                seen.push(f);
                k = j;
            }
            SpriteFetch::Missing => break,
            SpriteFetch::Ready(_) => panic!("nothing was parsed"),
        }
    }
    assert_eq!(seen, vec!["assets/piece_gt5m/icon/a.img".to_string(), "assets/icon/a".to_string(), "icon/a".to_string()]);
    assert!(cache.lookup("icon/a").is_none());
}

#[test]
fn fetch_stores_the_parsed_sprite_and_then_hits_the_cache() {
    let mut cache = SpriteCache::new();
    assert!(matches!(cache.fetch_start("x"), SpriteFetch::Read(0, _)));
    match cache.fetch_next("x", 2, Some(tex(7))) {
        SpriteFetch::Ready(t) => assert_eq!(t.width, 7),
        _ => panic!("expected the sprite"),
    }
    match cache.fetch_start("x") {
        SpriteFetch::Ready(t) => {
            assert_eq!(t.width, 7);
            assert_eq!(t.rgba, vec![1, 2, 3, 4]);
        }
        _ => panic!("expected the cached sprite"),
    }
    assert_eq!(cache.access_count(), 2);
}
