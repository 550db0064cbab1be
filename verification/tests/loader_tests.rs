use gtpsp::loader::{Cursor, Loader};
use gtpsp::vm::StorageKind;

#[test]
fn fixed_width_reads_are_little_endian() {
    let data = [1u8, 2, 3, 4, 5, 0xff, 0, 0x80];
    let mut c = Cursor::new(&data);
    assert_eq!(c.read_u8().unwrap(), 1);
    assert_eq!(c.read_u16().unwrap(), 0x0302);
    assert_eq!(c.position(), 3);
    assert_eq!(c.read_i16().unwrap(), 0x0504);
    assert_eq!(c.read_i8().unwrap(), -1);
    assert!(!c.read_bool().unwrap());
    assert_eq!(c.read_u8().unwrap(), 0x80);
    assert_eq!(c.position(), 8);
}

#[test]
fn wide_reads() {
    let data = [0xfeu8, 0xff, 0xff, 0xff, 0xff, 0xff, 0xff, 0xff, 0x78, 0x56, 0x34, 0x12];
    let mut c = Cursor::new(&data);
    assert_eq!(c.read_i64().unwrap(), -2);
    assert_eq!(c.read_u32().unwrap(), 0x1234_5678);
    let mut d = Cursor::new(&data);
    assert_eq!(d.read_u64().unwrap(), 0xffff_ffff_ffff_fffe);
    assert_eq!(d.read_i32().unwrap(), 0x1234_5678);
}

#[test]
fn reading_past_the_end_reports_the_offset() {
    let data = [1u8, 2, 3, 4, 5];
    let mut c = Cursor::new(&data);
    c.read_u16().unwrap();
    c.read_u8().unwrap();
    assert_eq!(c.read_u32().err().unwrap(), "Unexpected EOF at offset 0x3");
    assert_eq!(c.position(), 3);
    assert_eq!(c.read_bytes(2).unwrap(), &[4u8, 5][..]);
    assert_eq!(c.read_u8().err().unwrap(), "Unexpected EOF at offset 0x5");
    let big = vec![0u8; 0x1a];
    let mut b = Cursor::new(&big);
    b.read_bytes(0x1a).unwrap();
    assert_eq!(b.read_bool().err().unwrap(), "Unexpected EOF at offset 0x1A");
}

#[test]
fn adhoc_varints() {
    assert_eq!(Cursor::new(&[0x05]).read_adhoc_varint().unwrap(), 5);
    assert_eq!(Cursor::new(&[0x81, 0x23]).read_adhoc_varint().unwrap(), 0x123);
    let mut c = Cursor::new(&[0xc1, 0x02, 0x03, 0x09]);
    assert_eq!(c.read_varint().unwrap(), 0x1_0203);
    assert_eq!(c.position(), 3);
    assert_eq!(c.read_multi_byte_length().unwrap(), 9);
    assert_eq!(Cursor::new(&[0x81]).read_adhoc_varint().err().unwrap(), "Unexpected EOF at offset 0x1");
}

#[test]
fn unknown_symbols_get_placeholder_names() {
    let c = Cursor::new(&[]);
    assert_eq!(c.get_symbol(5), "!sym5");
    assert_eq!(c.get_symbol(123), "!sym123");
}

fn header(symbols: &[&str]) -> Vec<u8> {
    let mut d = b"ADCH12 \0".to_vec();
    d.push(symbols.len() as u8);
    for s in symbols {
        d.push(s.len() as u8);
        d.extend_from_slice(s.as_bytes());
    }
    d
}

#[test]
fn header_reads_the_symbol_table() {
    let mut d = header(&["abc", "xy"]);
    d.extend_from_slice(&[2, 0, 0, 0, 1, 7]);
    let mut c = Cursor::new(&d);
    Loader::read_header(&mut c).unwrap();
    assert_eq!(c.get_symbol(0), "abc");
    assert_eq!(c.get_symbol(1), "xy");
    assert_eq!(Loader::read_symbols(&mut c).unwrap(), vec!["xy".to_string(), "!sym7".to_string()]);
    assert_eq!(c.position(), d.len());
}

#[test]
fn header_errors() {
    let mut bad = header(&[]);
    bad[3] = b'X';
    assert_eq!(Loader::read_header(&mut Cursor::new(&bad)).err().unwrap(), "Bad magic: [41, 44, 43, 58]");
    let mut ver = header(&[]);
    ver[4] = b'x';
    assert_eq!(Loader::read_header(&mut Cursor::new(&ver)).err().unwrap(), "Bad version");
    assert_eq!(Loader::read_header(&mut Cursor::new(b"AD")).err().unwrap(), "Unexpected EOF at offset 0x0");
    assert_eq!(Loader::read_header(&mut Cursor::new(b"ADCH12")).err().unwrap(), "Unexpected EOF at offset 0x4");
    assert_eq!(Loader::read_header(&mut Cursor::new(b"ADCH+7 \0")).err().unwrap(), "Unexpected EOF at offset 0x8");
}

#[test]
fn truncated_symbol_table_keeps_the_complete_entries() {
    let mut d = header(&["abc"]);
    d[8] = 3;
    d.extend_from_slice(&[5, b'q']);
    let mut c = Cursor::new(&d);
    Loader::read_header(&mut c).unwrap();
    assert_eq!(c.get_symbol(0), "abc");
    assert_eq!(c.get_symbol(1), "!sym1");
    assert_eq!(c.position(), 14);
}

#[test]
fn symbol_references_with_an_index() {
    let mut d = header(&["a"]);
    d.extend_from_slice(&[1, 0, 0, 0, 0, 0xfe, 0xff, 0xff, 0xff]);
    d.extend_from_slice(&[0, 0, 0, 0, 9, 0, 0, 0, 0]);
    let mut c = Cursor::new(&d);
    Loader::read_header(&mut c).unwrap();
    let (names, index) = Loader::read_symbols_and_index(&mut c).unwrap();
    assert_eq!((names, index), (vec!["a".to_string()], -2));
    let (names, kind, index) = Loader::read_storage_ref(&mut c).unwrap();
    assert!(names.is_empty());
    assert_eq!(kind, StorageKind::Local);
    assert_eq!(index, 9);
    assert_eq!(Loader::read_symbol(&mut c).unwrap(), "a");
    assert!(Loader::read_symbols(&mut c).is_err());
}

#[test]
fn symbol_text_is_utf8_lossy() {
    let mut d = b"ADCH12 \0".to_vec();
    d.extend_from_slice(&[1, 2, 0xff, b'a']);
    let mut c = Cursor::new(&d);
    Loader::read_header(&mut c).unwrap();
    assert_eq!(c.get_symbol(0), "\u{fffd}a");
    let mut s = Cursor::new(&[0x01]);
    assert_eq!(s.read_string().unwrap(), "!sym1");
}
