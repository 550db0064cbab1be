use gtpsp::decode::{CodeFrame, Instruction, Opcode};
use gtpsp::loader::{Cursor, Loader};

fn table() -> Vec<Option<Opcode>> {
    let mut t: Vec<Option<Opcode>> = vec![None; 16];
    t[1] = Some(Opcode::IntConst);
    t[2] = Some(Opcode::Jump);
    t[3] = Some(Opcode::FunctionConst);
    t[4] = Some(Opcode::Nop);
    t[5] = Some(Opcode::StringConst);
    t
}

fn header(symbols: &[&str]) -> Vec<u8> {
    let mut d = b"ADCH12 \0".to_vec();
    d.push(symbols.len() as u8);
    for s in symbols {
        d.push(s.len() as u8);
        d.extend_from_slice(s.as_bytes());
    }
    d
}

fn u32le(v: u32) -> [u8; 4] {
    v.to_le_bytes()
}

/// A version 12 frame head without debug data, read inside a version 12 frame.
fn frame_head(insn_count: u32) -> Vec<u8> {
    let mut d = vec![0u8, 12, 0];
    d.extend_from_slice(&u32le(0)); // parameters
    d.extend_from_slice(&u32le(0)); // captured
    d.extend_from_slice(&u32le(0)); // unused word
    d.extend_from_slice(&u32le(5)); // stack size
    d.extend_from_slice(&u32le(2)); // locals
    d.extend_from_slice(&u32le(1)); // statics
    d.extend_from_slice(&u32le(insn_count));
    d
}

fn load(d: &[u8]) -> CodeFrame {
    Loader::load(d, &table()).unwrap()
}

#[test]
fn load_reads_the_root_frame() {
    let mut d = header(&["f"]);
    d.extend(frame_head(3));
    d.push(1);
    d.extend_from_slice(&u32le(7));
    d.push(2);
    d.extend_from_slice(&u32le(16));
    d.push(4);
    let f = load(&d);
    assert!(!f.has_debug);
    assert_eq!(f.adhoc_version, 12);
    assert_eq!(f.param_count, 0);
    assert!(f.param_names.is_empty());
    assert_eq!(f.stack_size, 5);
    assert_eq!(f.local_var_count, 2);
    assert_eq!(f.static_var_count, 1);
    assert_eq!(f.instructions.len(), 3);
    assert!(matches!(f.instructions[0], Instruction::IntConst { value: 7 }));
    assert!(matches!(f.instructions[1], Instruction::Jump { target: 16 }));
    assert!(matches!(f.instructions[2], Instruction::Nop));
    assert_eq!(f.instruction_lines, vec![0, 0, 0]);
    assert!(f.child_frames.is_empty());
}

#[test]
fn function_const_reads_its_nested_frame() {
    let mut d = header(&[]);
    d.extend(frame_head(2));
    d.push(3);
    d.extend(frame_head(1));
    d.push(4);
    d.push(1);
    d.extend_from_slice(&u32le(9));
    let f = load(&d);
    assert_eq!(f.instructions.len(), 2);
    assert!(matches!(f.instructions[0], Instruction::FunctionConst));
    assert!(matches!(f.instructions[1], Instruction::IntConst { value: 9 }));
    assert_eq!(f.child_frames.len(), 1);
    assert_eq!(f.child_frames[0].instructions.len(), 1);
    assert!(matches!(f.child_frames[0].instructions[0], Instruction::Nop));
}

#[test]
fn unknown_opcode_ends_the_instructions() {
    let mut d = header(&[]);
    d.extend(frame_head(3));
    d.push(1);
    d.extend_from_slice(&u32le(1));
    d.push(200);
    d.push(4);
    let f = load(&d);
    assert_eq!(f.instructions.len(), 1);
    assert_eq!(f.instruction_lines.len(), 2);
}

#[test]
fn truncated_operand_ends_the_instructions() {
    let mut d = header(&[]);
    d.extend(frame_head(2));
    d.push(1);
    d.extend_from_slice(&[1, 0]);
    let f = load(&d);
    assert!(f.instructions.is_empty());
    assert_eq!(f.instruction_lines.len(), 1);
}

#[test]
fn instruction_count_bounds_the_reading() {
    let mut d = header(&[]);
    d.extend(frame_head(1));
    d.push(4);
    d.push(4);
    let f = load(&d);
    assert_eq!(f.instructions.len(), 1);
    assert_eq!(f.instruction_lines, vec![0]);
}

#[test]
fn debug_frames_carry_source_lines() {
    let mut d = header(&["main.ad"]);
    d.extend_from_slice(&[1, 12, 0, 0]); // debug flag, version, source file symbol, rest flag
    for v in [0u32, 0, 0, 3, 0, 0, 1] {
        d.extend_from_slice(&u32le(v));
    }
    d.extend_from_slice(&u32le(42));
    d.push(1);
    d.extend_from_slice(&u32le(3));
    let f = load(&d);
    assert!(f.has_debug);
    assert_eq!(f.stack_size, 3);
    assert_eq!(f.instruction_lines, vec![42]);
    assert!(matches!(f.instructions[0], Instruction::IntConst { value: 3 }));
}

#[test]
fn string_const_names_its_symbols() {
    let mut d = header(&["hello"]);
    d.extend(frame_head(1));
    d.extend_from_slice(&[5, 0]);
    let f = load(&d);
    match &f.instructions[0] {
        Instruction::StringConst { symbols } => assert_eq!(symbols, &vec!["hello".to_string()]),
        other => panic!("unexpected {:?}", other),
    }
}

#[test]
fn load_reports_header_errors() {
    let mut bad = header(&[]);
    bad[3] = b'X';
    bad.extend(frame_head(0));
    assert_eq!(Loader::load(&bad, &table()).err().unwrap(), "Bad magic: [41, 44, 43, 58]");
    assert_eq!(Loader::load(b"AD", &table()).err().unwrap(), "Unexpected EOF at offset 0x0");
}

#[test]
fn decode_instruction_reads_operands() {
    let bytes = [5u8, 0, 0, 0];
    let mut c = Cursor::new(&bytes);
    let mut children: Vec<CodeFrame> = Vec::new();
    let i = Loader::decode_instruction(&mut c, &Opcode::IntConst, &mut children, 12, &table()).unwrap();
    assert!(matches!(i, Instruction::IntConst { value: 5 }));
    assert_eq!(c.position(), 4);
    let short = [5u8, 0];
    let mut s = Cursor::new(&short);
    let e = Loader::decode_instruction(&mut s, &Opcode::IntConst, &mut children, 12, &table()).err().unwrap();
    assert_eq!(e, "Unexpected EOF at offset 0x0");
    assert!(children.is_empty());
}
