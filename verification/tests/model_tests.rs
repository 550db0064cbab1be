use gtpsp::model::{destrip_indices, read_3ldm_header, read_fvf, read_fvf_fields, read_meshes, FVFEntry};
use gtpsp::track::{de_strip_triangles, element_byte_size, embedded_texture, load_embedded_texture, parse_fvf_entries, TrackTexture};

fn put32(d: &mut [u8], off: usize, v: u32) {
    d[off..off + 4].copy_from_slice(&v.to_le_bytes());
}

fn put16(d: &mut [u8], off: usize, v: u16) {
    d[off..off + 2].copy_from_slice(&v.to_le_bytes());
}

#[test]
fn model_header_fields() {
    let mut d = vec![0u8; 0xe4];
    d[0..4].copy_from_slice(b"3LDM");
    put32(&mut d, 0x04, 0x1234);
    put16(&mut d, 0x10, 3);
    put16(&mut d, 0x14, 4);
    put16(&mut d, 0x18, 5);
    put16(&mut d, 0x1a, 6);
    put32(&mut d, 0x30, 0x100);
    put32(&mut d, 0x38, 0x200);
    put32(&mut d, 0x40, 0x300);
    put32(&mut d, 0x44, 0x400);
    put32(&mut d, 0x48, 0x500);
    put32(&mut d, 0x50, 0x600);
    let h = read_3ldm_header(&d).unwrap();
    assert_eq!(h.file_size, 0x1234);
    assert_eq!((h.model_count, h.shape_count, h.fvf_count, h.bones_count), (3, 4, 5, 6));
    assert_eq!((h.models_ptr, h.meshes_ptr, h.fvf_ptr), (0x100, 0x200, 0x300));
    assert_eq!((h.materials_ptr, h.texture_set_ptr, h.bones_ptr), (0x400, 0x500, 0x600));
}

#[test]
fn model_header_errors() {
    assert_eq!(read_3ldm_header(&[0u8; 0xe3]).err().unwrap(), "File too short for 3LDM header");
    let mut d = vec![0u8; 0xe4];
    d[0..4].copy_from_slice(b"3LDN");
    assert_eq!(read_3ldm_header(&d).err().unwrap(), "Bad magic: [33, 4C, 44, 4E]");
}

#[test]
fn layout_and_mesh_tables_stop_at_the_end() {
    let mut d = vec![0u8; 0x100];
    // layout entries at 0x10: the third does not fit
    d[0x10 + 0x18] = 2;
    d[0x10 + 0x19] = 24;
    put32(&mut d, 0x10 + 0x08, 0xf0);
    let fvfs = read_fvf(&d, 0x10, 3);
    assert_eq!(fvfs.len(), 2);
    assert_eq!((fvfs[0].field_count, fvfs[0].vertex_stride, fvfs[0].field_def_ptr), (2, 24, 0xf0));
    d[0xf0] = 1;
    d[0xf1] = 3;
    d[0xf2] = 12;
    d[0xf4] = 7;
    let fields = read_fvf_fields(&d, &fvfs[0]);
    assert_eq!(fields.len(), 2);
    assert_eq!((fields[0].semantic, fields[0].data_type, fields[0].offset), (1, 3, 12));
    assert_eq!(fields[1].semantic, 7);
    let far = FVFEntry { field_count: 3, vertex_stride: 0, field_def_ptr: 0xfc };
    assert_eq!(read_fvf_fields(&d, &far).len(), 1);
    put16(&mut d, 0x90 + 0x02, 0xffff);
    put32(&mut d, 0x90 + 0x08, 36);
    put16(&mut d, 0x90 + 0x26, 12);
    let meshes = read_meshes(&d, 0x90, 4);
    assert_eq!(meshes.len(), 2);
    assert_eq!((meshes[0].fvf_index, meshes[0].vertex_count, meshes[0].tri_count), (-1, 36, 12));
    assert!(read_meshes(&d, 0x200, 4).is_empty());
}

#[test]
fn strips_become_triangles_with_alternating_winding() {
    assert_eq!(destrip_indices(&[0, 1, 2, 3, -1, 4, 5, 6]), vec![(0, 1, 2), (1, 3, 2), (4, 5, 6)]);
    assert_eq!(destrip_indices(&[0, 1, -1, 2, 3]), vec![]);
    assert_eq!(de_strip_triangles(&[0, 1, 2, 3, 4], 10), vec![(10, 11, 12), (11, 13, 12), (12, 13, 14)]);
}

#[test]
fn element_sizes() {
    assert_eq!(element_byte_size(0), 8);
    assert_eq!(element_byte_size(1), 12);
    assert_eq!(element_byte_size(2), 16);
    assert_eq!(element_byte_size(7), 8);
    assert_eq!(element_byte_size(99), 4);
}

#[test]
fn vertex_layouts_are_read_in_order() {
    let mut d = vec![0u8; 0x40];
    // layout 0 at 0x10: two elements
    put16(&mut d, 0x10, 2);
    put16(&mut d, 0x12, 20);
    put16(&mut d, 0x14, 0);
    put16(&mut d, 0x16, 1);
    put16(&mut d, 0x18, 0);
    put16(&mut d, 0x1a, 1);
    put16(&mut d, 0x1c, 7);
    put16(&mut d, 0x1e, 12);
    // layout 1 at 0x20: declares 9 elements, four fit; layout 2 at 0x3c has none
    put16(&mut d, 0x20, 9);
    put16(&mut d, 0x24, 3);
    let list = parse_fvf_entries(&d, 0x10, 5);
    assert_eq!(list.len(), 3);
    assert!(list[2].is_empty());
    assert_eq!(list[0].len(), 2);
    assert_eq!((list[0][1].semantic, list[0][1].format, list[0][1].offset), (1, 7, 12));
    assert_eq!(list[1].len(), 4);
    assert_eq!(list[1][0].semantic, 3);
    assert!(parse_fvf_entries(&d, 0, 5).is_empty());
    assert!(parse_fvf_entries(&d, 0x40, 5).is_empty());
}

#[test]
fn track_texture_holds_pixels() {
    let t = TrackTexture { data: vec![1, 2], width: 2, height: 1 };
    assert_eq!(t.clone().data.len() as u32, t.width * t.height);
}

fn track_texture_file(code: u8, width: u16) -> Vec<u8> {
    let mut d = vec![0u8; 0x48];
    d[0..4].copy_from_slice(b"3SXT");
    put16(&mut d, 0x16, 1);
    put32(&mut d, 0x1c, 0x20);
    put32(&mut d, 0x20, 0x40);
    put32(&mut d, 0x24, 8);
    d[0x29] = code;
    put16(&mut d, 0x2c, width);
    put16(&mut d, 0x2e, 1);
    for i in 0..8 {
        d[0x40 + i] = i as u8 + 1;
    }
    d
}

#[test]
fn track_texture_decodes_linear_rgba8888() {
    let t = gtpsp::track::parse_txs3_texture(&track_texture_file(3, 2)).unwrap();
    assert_eq!((t.width, t.height), (2, 1));
    assert_eq!(t.data, vec![0x0403_0201, 0x0807_0605]);
}

#[test]
fn track_texture_errors() {
    assert_eq!(gtpsp::track::parse_txs3_texture(&[0u8; 0x3f]).err().unwrap(), "Not a TXS3 texture file");
    let mut none = track_texture_file(3, 2);
    put16(&mut none, 0x16, 0);
    assert_eq!(gtpsp::track::parse_txs3_texture(&none).err().unwrap(), "No image info in TXS3");
    assert_eq!(gtpsp::track::parse_txs3_texture(&track_texture_file(3, 0)).err().unwrap(), "Invalid texture image info");
    assert_eq!(gtpsp::track::parse_txs3_texture(&track_texture_file(9, 2)).err().unwrap(), "Unsupported TXS3 texture format: 9");
}

fn words(vals: &[u16]) -> Vec<u8> {
    vals.iter().flat_map(|v| v.to_le_bytes()).collect()
}

#[test]
fn strip_runs_give_their_triangles() {
    let d = words(&[0, 1, 2, 3, 1, 2, 0]);
    assert_eq!(
        gtpsp::index_scan::index_triangles(&d, 4),
        vec![(0, 1, 2), (1, 3, 2), (2, 3, 1), (3, 2, 1)]
    );
}

#[test]
fn short_runs_fall_back_to_triples() {
    let d = words(&[0, 1, 2, 3]);
    assert_eq!(gtpsp::index_scan::index_triangles(&d, 4), vec![(0, 1, 2)]);
    assert!(gtpsp::index_scan::index_triangles(&[], 4).is_empty());
}

#[test]
fn values_past_the_mesh_are_skipped() {
    let d = words(&[900, 900, 0, 1, 2, 3, 1, 2, 0]);
    assert_eq!(
        gtpsp::index_scan::index_triangles(&d, 4),
        vec![(0, 1, 2), (1, 3, 2), (2, 3, 1), (3, 2, 1)]
    );
}

#[test]
fn restarts_break_the_strip() {
    let d = words(&[0, 1, 2, 0xFFFF, 3, 2, 1, 0, 0]);
    assert_eq!(gtpsp::index_scan::index_triangles(&d, 4), vec![(0, 1, 2), (3, 2, 1), (2, 0, 1)]);
}

/// A track file: `lead` bytes of junk, then a "3LDM" header whose pointer at 0x48
/// leads to the texture file.
fn track_with_texture(lead: usize, tex: &[u8]) -> Vec<u8> {
    let mut d = vec![0xaau8; lead];
    let mut hdr = vec![0u8; 0x50];
    hdr[0..4].copy_from_slice(b"3LDM");
    put32(&mut hdr, 0x48, 0x50);
    d.extend_from_slice(&hdr);
    d.extend_from_slice(tex);
    d
}

#[test]
fn embedded_texture_is_found_after_the_model_magic() {
    let t = load_embedded_texture(&track_with_texture(3, &track_texture_file(3, 2))).unwrap();
    assert_eq!((t.width, t.height), (2, 1));
    assert_eq!(t.data, vec![0x0403_0201, 0x0807_0605]);
}

#[test]
fn embedded_texture_needs_magic_pointer_and_texture() {
    assert!(load_embedded_texture(&[]).is_none());
    assert!(load_embedded_texture(&track_texture_file(3, 2)).is_none());
    let mut zero_ptr = track_with_texture(0, &track_texture_file(3, 2));
    put32(&mut zero_ptr, 0x48, 0);
    assert!(load_embedded_texture(&zero_ptr).is_none());
    let mut past_end = track_with_texture(0, &track_texture_file(3, 2));
    put32(&mut past_end, 0x48, 0x1000);
    assert!(load_embedded_texture(&past_end).is_none());
    let mut not_txs3 = track_with_texture(0, &track_texture_file(3, 2));
    not_txs3[0x50] = b'X';
    assert!(load_embedded_texture(&not_txs3).is_none());
    // A texture file that does not decode gives nothing.
    assert!(load_embedded_texture(&track_with_texture(0, &track_texture_file(9, 2))).is_none());
}

#[test]
fn embedded_texture_bytes_run_to_the_end() {
    let tex = track_texture_file(3, 2);
    assert_eq!(embedded_texture(&track_with_texture(5, &tex)), Some(tex));
    assert_eq!(embedded_texture(b"3LD"), None);
}
