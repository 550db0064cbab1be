//! Code frames of `.adc` bytecode: the instruction set, how each instruction's operands
//! are read, and the frames (a header, instructions with their source lines, and the
//! frames nested in them) that a file holds. Which operation a byte names is given by
//! a table that the caller supplies; a byte outside it ends a frame's instructions.
use vstd::prelude::*;
use vstd::string::StringExecFns;
use crate::bytes::{le_u16, le_u32, le_u64};
use crate::loader::{adc_header, eof_text, symbol_name, symbol_refs_at, u32_at, varint_at, Cursor, Loader};
use crate::vm::StorageKind;

verus! {

/// The operations of the bytecode, as a byte of the file names them.
#[derive(Clone, Copy, PartialEq, Eq, Structural, Debug)]
pub enum Opcode {
    ArrayConstOld,
    ArrayConst,
    ArrayPush,
    Assign,
    AssignPop,
    AssignOld,
    AttributeDefine,
    AttributeEval,
    AttributePush,
    BinaryAssignOperator,
    BinaryOperator,
    BoolConst,
    Call,
    CallOld,
    ClassDefine,
    DelegateDefine,
    DoubleConst,
    ElementEval,
    ElementPush,
    Eval,
    FloatConst,
    FunctionConst,
    FunctionDefine,
    Import,
    IntConst,
    Jump,
    JumpIfFalse,
    JumpIfNil,
    JumpIfTrue,
    Leave,
    ListAssign,
    ListAssignOld,
    LocalDefine,
    LogicalAnd,
    LogicalAndOld,
    LogicalOptional,
    LogicalOr,
    LogicalOrOld,
    LongConst,
    MapConst,
    MapConstOld,
    MapInsert,
    MethodConst,
    MethodDefine,
    ModuleConstructor,
    ModuleDefine,
    NilConst,
    Nop,
    ObjectSelector,
    Pop,
    PopOld,
    Print,
    Require,
    SetState,
    SetStateOld,
    SourceFile,
    StaticDefine,
    StringConst,
    StringPush,
    SymbolConst,
    Throw,
    TryCatch,
    UIntConst,
    ULongConst,
    UnaryAssignOperator,
    UnaryOperator,
    VaCall,
    VariableEval,
    VariablePush,
    VoidConst,
    ByteConst,
    UByteConst,
    ShortConst,
    UShortConst,
    IteratorNext,
}

/// A decoded instruction. Float constants are held as their bits. The switch and case,
/// jump-table, defined and undefined jumps, and big-integer and template constants are
/// run by the engine, but no operation of the table is read into them.
#[derive(Debug)]
#[allow(inconsistent_fields)]
pub enum Instruction {
    ArrayConstOld { count: u32 },
    ArrayConst { count: u32 },
    ArrayPush,
    Assign { symbols: Vec<String>, storage_index: i32 },
    AssignPop,
    AssignOld { symbols: Vec<String>, index: i32 },
    AttributeDefine { symbols: Vec<String> },
    AttributeEval { symbols: Vec<String> },
    AttributePush { symbols: Vec<String>, kind: StorageKind, index: i32 },
    BinaryAssignOperator { op: String, symbols: Vec<String> },
    BinaryOperator { op: String },
    BoolConst { value: bool },
    Call { arg_count: i32 },
    CallOld { arg_count: i32 },
    ClassDefine { symbols: Vec<String> },
    DelegateDefine { name: String, target: String },
    DoubleConst { value: u64 },
    ElementEval,
    ElementPush,
    Eval,
    FloatConst { value: u32 },
    FunctionConst,
    FunctionDefine { symbols: Vec<String> },
    Import { symbols: Vec<String> },
    IntConst { value: i32 },
    Jump { target: i32 },
    JumpIfFalse { target: i32 },
    JumpIfNil { target: i32 },
    JumpIfTrue { target: i32 },
    Leave { depth: i32, rewind_locals: i32 },
    ListAssign,
    ListAssignOld,
    LocalDefine,
    LogicalAnd { target: i32 },
    LogicalAndOld { target: i32 },
    LogicalOptional,
    LogicalOr { target: i32 },
    LogicalOrOld { target: i32 },
    LongConst { value: i64 },
    MapConst,
    MapConstOld,
    MapInsert,
    MethodConst,
    MethodDefine { symbols: Vec<String> },
    ModuleConstructor,
    ModuleDefine { symbols: Vec<String> },
    NilConst,
    Nop,
    ObjectSelector { symbol: String },
    Pop,
    PopOld,
    Require { symbols: Vec<String> },
    SetState { state: u8 },
    SetStateOld,
    SourceFile { symbols: Vec<String> },
    StaticDefine { symbols: Vec<String> },
    StringConst { symbols: Vec<String> },
    StringPush { count: i32 },
    SymbolConst { symbol: String },
    TryCatch { target: i32 },
    UIntConst { value: u32 },
    ULongConst { value: u64 },
    UnaryOperator { op: String },
    VaCall { arg_count: i32 },
    VariableEval { symbols: Vec<String>, kind: StorageKind, index: i32 },
    VariablePush { symbols: Vec<String>, kind: StorageKind, index: i32 },
    VoidConst,
    ByteConst { value: i32 },
    UByteConst { value: i32 },
    ShortConst { value: i32 },
    UShortConst { value: i32 },
    IteratorNext { target: i32, var_index: i32 },
    Switch { default_target: i32, case_count: u32 },
    Case { value: i32, target: i32 },
    JumpTable { default_target: i32 },
    JumpUndefined { target: i32 },
    JumpDefined { target: i32 },
    BigIntConst,
    TemplateConst,
}

/// An instruction with its texts as character sequences.
#[allow(inconsistent_fields)]
pub enum InsnV {
    ArrayConstOld { count: u32 },
    ArrayConst { count: u32 },
    ArrayPush,
    Assign { symbols: Seq<Seq<char>>, storage_index: i32 },
    AssignPop,
    AssignOld { symbols: Seq<Seq<char>>, index: i32 },
    AttributeDefine { symbols: Seq<Seq<char>> },
    AttributeEval { symbols: Seq<Seq<char>> },
    AttributePush { symbols: Seq<Seq<char>>, kind: StorageKind, index: i32 },
    BinaryAssignOperator { op: Seq<char>, symbols: Seq<Seq<char>> },
    BinaryOperator { op: Seq<char> },
    BoolConst { value: bool },
    Call { arg_count: i32 },
    CallOld { arg_count: i32 },
    ClassDefine { symbols: Seq<Seq<char>> },
    DelegateDefine { name: Seq<char>, target: Seq<char> },
    DoubleConst { value: u64 },
    ElementEval,
    ElementPush,
    Eval,
    FloatConst { value: u32 },
    FunctionConst,
    FunctionDefine { symbols: Seq<Seq<char>> },
    Import { symbols: Seq<Seq<char>> },
    IntConst { value: i32 },
    Jump { target: i32 },
    JumpIfFalse { target: i32 },
    JumpIfNil { target: i32 },
    JumpIfTrue { target: i32 },
    Leave { depth: i32, rewind_locals: i32 },
    ListAssign,
    ListAssignOld,
    LocalDefine,
    LogicalAnd { target: i32 },
    LogicalAndOld { target: i32 },
    LogicalOptional,
    LogicalOr { target: i32 },
    LogicalOrOld { target: i32 },
    LongConst { value: i64 },
    MapConst,
    MapConstOld,
    MapInsert,
    MethodConst,
    MethodDefine { symbols: Seq<Seq<char>> },
    ModuleConstructor,
    ModuleDefine { symbols: Seq<Seq<char>> },
    NilConst,
    Nop,
    ObjectSelector { symbol: Seq<char> },
    Pop,
    PopOld,
    Require { symbols: Seq<Seq<char>> },
    SetState { state: u8 },
    SetStateOld,
    SourceFile { symbols: Seq<Seq<char>> },
    StaticDefine { symbols: Seq<Seq<char>> },
    StringConst { symbols: Seq<Seq<char>> },
    StringPush { count: i32 },
    SymbolConst { symbol: Seq<char> },
    TryCatch { target: i32 },
    UIntConst { value: u32 },
    ULongConst { value: u64 },
    UnaryOperator { op: Seq<char> },
    VaCall { arg_count: i32 },
    VariableEval { symbols: Seq<Seq<char>>, kind: StorageKind, index: i32 },
    VariablePush { symbols: Seq<Seq<char>>, kind: StorageKind, index: i32 },
    VoidConst,
    ByteConst { value: i32 },
    UByteConst { value: i32 },
    ShortConst { value: i32 },
    UShortConst { value: i32 },
    IteratorNext { target: i32, var_index: i32 },
    Switch { default_target: i32, case_count: u32 },
    Case { value: i32, target: i32 },
    JumpTable { default_target: i32 },
    JumpUndefined { target: i32 },
    JumpDefined { target: i32 },
    BigIntConst,
    TemplateConst,
}

/// An instruction's view: its symbol lists and texts as character sequences.
pub open spec fn insn_view(i: Instruction) -> InsnV {
    match i {
        Instruction::ArrayConstOld { count } => InsnV::ArrayConstOld { count: count },
        Instruction::ArrayConst { count } => InsnV::ArrayConst { count: count },
        Instruction::ArrayPush => InsnV::ArrayPush,
        Instruction::Assign { symbols, storage_index } => InsnV::Assign { symbols: symbols@.map_values(|s: String| s@), storage_index: storage_index },
        Instruction::AssignPop => InsnV::AssignPop,
        Instruction::AssignOld { symbols, index } => InsnV::AssignOld { symbols: symbols@.map_values(|s: String| s@), index: index },
        Instruction::AttributeDefine { symbols } => InsnV::AttributeDefine { symbols: symbols@.map_values(|s: String| s@) },
        Instruction::AttributeEval { symbols } => InsnV::AttributeEval { symbols: symbols@.map_values(|s: String| s@) },
        Instruction::AttributePush { symbols, kind, index } => InsnV::AttributePush { symbols: symbols@.map_values(|s: String| s@), kind: kind, index: index },
        Instruction::BinaryAssignOperator { op, symbols } => InsnV::BinaryAssignOperator { op: op@, symbols: symbols@.map_values(|s: String| s@) },
        Instruction::BinaryOperator { op } => InsnV::BinaryOperator { op: op@ },
        Instruction::BoolConst { value } => InsnV::BoolConst { value: value },
        Instruction::Call { arg_count } => InsnV::Call { arg_count: arg_count },
        Instruction::CallOld { arg_count } => InsnV::CallOld { arg_count: arg_count },
        Instruction::ClassDefine { symbols } => InsnV::ClassDefine { symbols: symbols@.map_values(|s: String| s@) },
        Instruction::DelegateDefine { name, target } => InsnV::DelegateDefine { name: name@, target: target@ },
        Instruction::DoubleConst { value } => InsnV::DoubleConst { value: value },
        Instruction::ElementEval => InsnV::ElementEval,
        Instruction::ElementPush => InsnV::ElementPush,
        Instruction::Eval => InsnV::Eval,
        Instruction::FloatConst { value } => InsnV::FloatConst { value: value },
        Instruction::FunctionConst => InsnV::FunctionConst,
        Instruction::FunctionDefine { symbols } => InsnV::FunctionDefine { symbols: symbols@.map_values(|s: String| s@) },
        Instruction::Import { symbols } => InsnV::Import { symbols: symbols@.map_values(|s: String| s@) },
        Instruction::IntConst { value } => InsnV::IntConst { value: value },
        Instruction::Jump { target } => InsnV::Jump { target: target },
        Instruction::JumpIfFalse { target } => InsnV::JumpIfFalse { target: target },
        Instruction::JumpIfNil { target } => InsnV::JumpIfNil { target: target },
        Instruction::JumpIfTrue { target } => InsnV::JumpIfTrue { target: target },
        Instruction::Leave { depth, rewind_locals } => InsnV::Leave { depth: depth, rewind_locals: rewind_locals },
        Instruction::ListAssign => InsnV::ListAssign,
        Instruction::ListAssignOld => InsnV::ListAssignOld,
        Instruction::LocalDefine => InsnV::LocalDefine,
        Instruction::LogicalAnd { target } => InsnV::LogicalAnd { target: target },
        Instruction::LogicalAndOld { target } => InsnV::LogicalAndOld { target: target },
        Instruction::LogicalOptional => InsnV::LogicalOptional,
        Instruction::LogicalOr { target } => InsnV::LogicalOr { target: target },
        Instruction::LogicalOrOld { target } => InsnV::LogicalOrOld { target: target },
        Instruction::LongConst { value } => InsnV::LongConst { value: value },
        Instruction::MapConst => InsnV::MapConst,
        Instruction::MapConstOld => InsnV::MapConstOld,
        Instruction::MapInsert => InsnV::MapInsert,
        Instruction::MethodConst => InsnV::MethodConst,
        Instruction::MethodDefine { symbols } => InsnV::MethodDefine { symbols: symbols@.map_values(|s: String| s@) },
        Instruction::ModuleConstructor => InsnV::ModuleConstructor,
        Instruction::ModuleDefine { symbols } => InsnV::ModuleDefine { symbols: symbols@.map_values(|s: String| s@) },
        Instruction::NilConst => InsnV::NilConst,
        Instruction::Nop => InsnV::Nop,
        Instruction::ObjectSelector { symbol } => InsnV::ObjectSelector { symbol: symbol@ },
        Instruction::Pop => InsnV::Pop,
        Instruction::PopOld => InsnV::PopOld,
        Instruction::Require { symbols } => InsnV::Require { symbols: symbols@.map_values(|s: String| s@) },
        Instruction::SetState { state } => InsnV::SetState { state: state },
        Instruction::SetStateOld => InsnV::SetStateOld,
        Instruction::SourceFile { symbols } => InsnV::SourceFile { symbols: symbols@.map_values(|s: String| s@) },
        Instruction::StaticDefine { symbols } => InsnV::StaticDefine { symbols: symbols@.map_values(|s: String| s@) },
        Instruction::StringConst { symbols } => InsnV::StringConst { symbols: symbols@.map_values(|s: String| s@) },
        Instruction::StringPush { count } => InsnV::StringPush { count: count },
        Instruction::SymbolConst { symbol } => InsnV::SymbolConst { symbol: symbol@ },
        Instruction::TryCatch { target } => InsnV::TryCatch { target: target },
        Instruction::UIntConst { value } => InsnV::UIntConst { value: value },
        Instruction::ULongConst { value } => InsnV::ULongConst { value: value },
        Instruction::UnaryOperator { op } => InsnV::UnaryOperator { op: op@ },
        Instruction::VaCall { arg_count } => InsnV::VaCall { arg_count: arg_count },
        Instruction::VariableEval { symbols, kind, index } => InsnV::VariableEval { symbols: symbols@.map_values(|s: String| s@), kind: kind, index: index },
        Instruction::VariablePush { symbols, kind, index } => InsnV::VariablePush { symbols: symbols@.map_values(|s: String| s@), kind: kind, index: index },
        Instruction::VoidConst => InsnV::VoidConst,
        Instruction::ByteConst { value } => InsnV::ByteConst { value: value },
        Instruction::UByteConst { value } => InsnV::UByteConst { value: value },
        Instruction::ShortConst { value } => InsnV::ShortConst { value: value },
        Instruction::UShortConst { value } => InsnV::UShortConst { value: value },
        Instruction::IteratorNext { target, var_index } => InsnV::IteratorNext { target: target, var_index: var_index },
        Instruction::Switch { default_target, case_count } => InsnV::Switch {
            default_target: default_target,
            case_count: case_count,
        },
        Instruction::Case { value, target } => InsnV::Case { value: value, target: target },
        Instruction::JumpTable { default_target } => InsnV::JumpTable { default_target: default_target },
        Instruction::JumpUndefined { target } => InsnV::JumpUndefined { target: target },
        Instruction::JumpDefined { target } => InsnV::JumpDefined { target: target },
        Instruction::BigIntConst => InsnV::BigIntConst,
        Instruction::TemplateConst => InsnV::TemplateConst,
    }
}

/// What the operands of `op` at `p` give: the instruction and the position after it,
/// the instruction and the position where its child code frame starts, or the position
/// where the bytes ran out. `new_format` is set for code of version 8 and up.
pub open spec fn operands_at(d: Seq<u8>, p: int, table: Seq<Seq<char>>, op: Opcode, new_format: bool) -> OperandStep {
    match op {
        Opcode::ArrayConstOld => {
            match u32_at(d, p) {
                Err(q) => OperandStep::Fail(q),
                Ok((raw_count, pn)) => {
                    let count = raw_count;
                    OperandStep::Done(InsnV::ArrayConstOld { count: count }, pn)
                },
            }
        },
        Opcode::ArrayConst => {
            match u32_at(d, p) {
                Err(q) => OperandStep::Fail(q),
                Ok((raw_count, pn)) => {
                    let count = raw_count;
                    OperandStep::Done(InsnV::ArrayConst { count: count }, pn)
                },
            }
        },
        Opcode::ArrayPush => {
            OperandStep::Done(InsnV::ArrayPush, p)
        },
        Opcode::Assign => if new_format {
            OperandStep::Done(InsnV::Assign { symbols: Seq::empty(), storage_index: 0i32 }, p)
        } else {
            match symbol_refs_at(d, p, table) {
                Err(q) => OperandStep::Fail(q),
                Ok((raw_symbols, pn)) => {
                    let symbols = raw_symbols;
                    match u32_at(d, pn) {
                        Err(q) => OperandStep::Fail(q),
                        Ok((raw_storage_index, pnn)) => {
                            let storage_index = raw_storage_index as i32;
                            OperandStep::Done(InsnV::Assign { symbols: symbols, storage_index: storage_index }, pnn)
                        },
                    }
                },
            }
        },
        Opcode::AssignPop => {
            OperandStep::Done(InsnV::AssignPop, p)
        },
        Opcode::AssignOld => if new_format {
            OperandStep::Done(InsnV::AssignOld { symbols: Seq::empty(), index: 0i32 }, p)
        } else {
            match symbol_refs_at(d, p, table) {
                Err(q) => OperandStep::Fail(q),
                Ok((raw_symbols, pn)) => {
                    let symbols = raw_symbols;
                    match u32_at(d, pn) {
                        Err(q) => OperandStep::Fail(q),
                        Ok((raw_index, pnn)) => {
                            let index = raw_index as i32;
                            OperandStep::Done(InsnV::AssignOld { symbols: symbols, index: index }, pnn)
                        },
                    }
                },
            }
        },
        Opcode::AttributeDefine => {
            match sym_at(d, p, table) {
                Err(q) => OperandStep::Fail(q),
                Ok((raw_s, pn)) => {
                    let s = raw_s;
                    OperandStep::Done(InsnV::AttributeDefine { symbols: seq![s] }, pn)
                },
            }
        },
        Opcode::AttributeEval => {
            match symbol_refs_at(d, p, table) {
                Err(q) => OperandStep::Fail(q),
                Ok((raw_symbols, pn)) => {
                    let symbols = raw_symbols;
                    OperandStep::Done(InsnV::AttributeEval { symbols: symbols }, pn)
                },
            }
        },
        Opcode::AttributePush => {
            match symbol_refs_at(d, p, table) {
                Err(q) => OperandStep::Fail(q),
                Ok((raw_symbols, pn)) => {
                    let symbols = raw_symbols;
                    OperandStep::Done(InsnV::AttributePush { symbols: symbols, kind: StorageKind::Local, index: 0i32 }, pn)
                },
            }
        },
        Opcode::BinaryAssignOperator => if new_format {
            match sym_at(d, p, table) {
                Err(q) => OperandStep::Fail(q),
                Ok((raw_op, pn)) => {
                    let op = raw_op;
                    OperandStep::Done(InsnV::BinaryAssignOperator { op: op, symbols: Seq::empty() }, pn)
                },
            }
        } else {
            match sym_at(d, p, table) {
                Err(q) => OperandStep::Fail(q),
                Ok((raw_op, pn)) => {
                    let op = raw_op;
                    match symbol_refs_at(d, pn, table) {
                        Err(q) => OperandStep::Fail(q),
                        Ok((raw_symbols, pnn)) => {
                            let symbols = raw_symbols;
                            OperandStep::Done(InsnV::BinaryAssignOperator { op: op, symbols: symbols }, pnn)
                        },
                    }
                },
            }
        },
        Opcode::BinaryOperator => {
            match sym_at(d, p, table) {
                Err(q) => OperandStep::Fail(q),
                Ok((raw_op, pn)) => {
                    let op = raw_op;
                    OperandStep::Done(InsnV::BinaryOperator { op: op }, pn)
                },
            }
        },
        Opcode::BoolConst => {
            match byte_at(d, p) {
                Err(q) => OperandStep::Fail(q),
                Ok((raw_value, pn)) => {
                    let value = raw_value != 0;
                    OperandStep::Done(InsnV::BoolConst { value: value }, pn)
                },
            }
        },
        Opcode::Call => {
            match u32_at(d, p) {
                Err(q) => OperandStep::Fail(q),
                Ok((raw_arg_count, pn)) => {
                    let arg_count = raw_arg_count as i32;
                    OperandStep::Done(InsnV::Call { arg_count: arg_count }, pn)
                },
            }
        },
        Opcode::CallOld => {
            match u32_at(d, p) {
                Err(q) => OperandStep::Fail(q),
                Ok((raw_arg_count, pn)) => {
                    let arg_count = raw_arg_count as i32;
                    OperandStep::Done(InsnV::CallOld { arg_count: arg_count }, pn)
                },
            }
        },
        Opcode::ClassDefine => {
            match sym_at(d, p, table) {
                Err(q) => OperandStep::Fail(q),
                Ok((raw_name, pn)) => {
                    let name = raw_name;
                    match symbol_refs_at(d, pn, table) {
                        Err(q) => OperandStep::Fail(q),
                        Ok((raw_extends, pnn)) => {
                            let extends = raw_extends;
                            OperandStep::Done(InsnV::ClassDefine { symbols: seq![name] }, pnn)
                        },
                    }
                },
            }
        },
        Opcode::DelegateDefine => {
            match sym_at(d, p, table) {
                Err(q) => OperandStep::Fail(q),
                Ok((raw_name, pn)) => {
                    let name = raw_name;
                    OperandStep::Done(InsnV::DelegateDefine { name: name, target: symbol_name(table, 0) }, pn)
                },
            }
        },
        Opcode::DoubleConst => {
            match u64_at(d, p) {
                Err(q) => OperandStep::Fail(q),
                Ok((raw_value, pn)) => {
                    let value = raw_value;
                    OperandStep::Done(InsnV::DoubleConst { value: value }, pn)
                },
            }
        },
        Opcode::ElementEval => {
            OperandStep::Done(InsnV::ElementEval, p)
        },
        Opcode::ElementPush => {
            OperandStep::Done(InsnV::ElementPush, p)
        },
        Opcode::Eval => {
            OperandStep::Done(InsnV::Eval, p)
        },
        Opcode::FloatConst => {
            match u32_at(d, p) {
                Err(q) => OperandStep::Fail(q),
                Ok((raw_value, pn)) => {
                    let value = raw_value;
                    OperandStep::Done(InsnV::FloatConst { value: value }, pn)
                },
            }
        },
        Opcode::FunctionConst => {
            OperandStep::Frame(InsnV::FunctionConst, p)
        },
        Opcode::FunctionDefine => {
            match sym_at(d, p, table) {
                Err(q) => OperandStep::Fail(q),
                Ok((raw_name, pn)) => {
                    let name = raw_name;
                    OperandStep::Frame(InsnV::FunctionDefine { symbols: seq![name] }, pn)
                },
            }
        },
        Opcode::Import => {
            match symbol_refs_at(d, p, table) {
                Err(q) => OperandStep::Fail(q),
                Ok((raw_symbols, pn)) => {
                    let symbols = raw_symbols;
                    OperandStep::Done(InsnV::Import { symbols: symbols }, pn)
                },
            }
        },
        Opcode::IntConst => {
            match u32_at(d, p) {
                Err(q) => OperandStep::Fail(q),
                Ok((raw_value, pn)) => {
                    let value = raw_value as i32;
                    OperandStep::Done(InsnV::IntConst { value: value }, pn)
                },
            }
        },
        Opcode::Jump => {
            match u32_at(d, p) {
                Err(q) => OperandStep::Fail(q),
                Ok((raw_target, pn)) => {
                    let target = raw_target as i32;
                    OperandStep::Done(InsnV::Jump { target: target }, pn)
                },
            }
        },
        Opcode::JumpIfFalse => {
            match u32_at(d, p) {
                Err(q) => OperandStep::Fail(q),
                Ok((raw_target, pn)) => {
                    let target = raw_target as i32;
                    OperandStep::Done(InsnV::JumpIfFalse { target: target }, pn)
                },
            }
        },
        Opcode::JumpIfNil => {
            match u32_at(d, p) {
                Err(q) => OperandStep::Fail(q),
                Ok((raw_target, pn)) => {
                    let target = raw_target as i32;
                    OperandStep::Done(InsnV::JumpIfNil { target: target }, pn)
                },
            }
        },
        Opcode::JumpIfTrue => {
            match u32_at(d, p) {
                Err(q) => OperandStep::Fail(q),
                Ok((raw_target, pn)) => {
                    let target = raw_target as i32;
                    OperandStep::Done(InsnV::JumpIfTrue { target: target }, pn)
                },
            }
        },
        Opcode::Leave => {
            match u32_at(d, p) {
                Err(q) => OperandStep::Fail(q),
                Ok((raw_depth, pn)) => {
                    let depth = raw_depth as i32;
                    match u32_at(d, pn) {
                        Err(q) => OperandStep::Fail(q),
                        Ok((raw_rewind_locals, pnn)) => {
                            let rewind_locals = raw_rewind_locals as i32;
                            OperandStep::Done(InsnV::Leave { depth: depth, rewind_locals: rewind_locals }, pnn)
                        },
                    }
                },
            }
        },
        Opcode::ListAssign => if new_format {
            match varint_at(d, p) {
                Err(q) => OperandStep::Fail(q),
                Ok((raw_elem_count, pn)) => {
                    let elem_count = raw_elem_count;
                    match varint_at(d, pn) {
                        Err(q) => OperandStep::Fail(q),
                        Ok((raw_has_rest, pnn)) => {
                            let has_rest = raw_has_rest;
                            OperandStep::Done(InsnV::ListAssign, pnn)
                        },
                    }
                },
            }
        } else {
            OperandStep::Done(InsnV::ListAssign, p)
        },
        Opcode::ListAssignOld => {
            match u32_at(d, p) {
                Err(q) => OperandStep::Fail(q),
                Ok((raw_var_count, pn)) => {
                    let var_count = raw_var_count as i32;
                    OperandStep::Done(InsnV::ListAssignOld, pn)
                },
            }
        },
        Opcode::LocalDefine => {
            OperandStep::Done(InsnV::LocalDefine, p)
        },
        Opcode::LogicalAnd => {
            match u32_at(d, p) {
                Err(q) => OperandStep::Fail(q),
                Ok((raw_target, pn)) => {
                    let target = raw_target as i32;
                    OperandStep::Done(InsnV::LogicalAnd { target: target }, pn)
                },
            }
        },
        Opcode::LogicalAndOld => {
            match u32_at(d, p) {
                Err(q) => OperandStep::Fail(q),
                Ok((raw_target, pn)) => {
                    let target = raw_target as i32;
                    OperandStep::Done(InsnV::LogicalAndOld { target: target }, pn)
                },
            }
        },
        Opcode::LogicalOptional => {
            OperandStep::Done(InsnV::LogicalOptional, p)
        },
        Opcode::LogicalOr => {
            match u32_at(d, p) {
                Err(q) => OperandStep::Fail(q),
                Ok((raw_target, pn)) => {
                    let target = raw_target as i32;
                    OperandStep::Done(InsnV::LogicalOr { target: target }, pn)
                },
            }
        },
        Opcode::LogicalOrOld => {
            match u32_at(d, p) {
                Err(q) => OperandStep::Fail(q),
                Ok((raw_target, pn)) => {
                    let target = raw_target as i32;
                    OperandStep::Done(InsnV::LogicalOrOld { target: target }, pn)
                },
            }
        },
        Opcode::LongConst => {
            match u64_at(d, p) {
                Err(q) => OperandStep::Fail(q),
                Ok((raw_value, pn)) => {
                    let value = raw_value as i64;
                    OperandStep::Done(InsnV::LongConst { value: value }, pn)
                },
            }
        },
        Opcode::MapConst => {
            OperandStep::Done(InsnV::MapConst, p)
        },
        Opcode::MapConstOld => {
            match u32_at(d, p) {
                Err(q) => OperandStep::Fail(q),
                Ok((raw_value, pn)) => {
                    let value = raw_value as i32;
                    OperandStep::Done(InsnV::MapConstOld, pn)
                },
            }
        },
        Opcode::MapInsert => {
            OperandStep::Done(InsnV::MapInsert, p)
        },
        Opcode::MethodConst => {
            OperandStep::Frame(InsnV::MethodConst, p)
        },
        Opcode::MethodDefine => {
            match sym_at(d, p, table) {
                Err(q) => OperandStep::Fail(q),
                Ok((raw_name, pn)) => {
                    let name = raw_name;
                    OperandStep::Frame(InsnV::MethodDefine { symbols: seq![name] }, pn)
                },
            }
        },
        Opcode::ModuleConstructor => {
            OperandStep::Done(InsnV::ModuleConstructor, p)
        },
        Opcode::ModuleDefine => {
            match symbol_refs_at(d, p, table) {
                Err(q) => OperandStep::Fail(q),
                Ok((raw_symbols, pn)) => {
                    let symbols = raw_symbols;
                    OperandStep::Done(InsnV::ModuleDefine { symbols: symbols }, pn)
                },
            }
        },
        Opcode::NilConst => {
            OperandStep::Done(InsnV::NilConst, p)
        },
        Opcode::Nop => {
            OperandStep::Done(InsnV::Nop, p)
        },
        Opcode::ObjectSelector => {
            OperandStep::Done(InsnV::ObjectSelector { symbol: Seq::empty() }, p)
        },
        Opcode::Pop => {
            OperandStep::Done(InsnV::Pop, p)
        },
        Opcode::PopOld => {
            OperandStep::Done(InsnV::PopOld, p)
        },
        Opcode::Print => {
            match u32_at(d, p) {
                Err(q) => OperandStep::Fail(q),
                Ok((raw_arg_count, pn)) => {
                    let arg_count = raw_arg_count as i32;
                    OperandStep::Done(InsnV::Nop, pn)
                },
            }
        },
        Opcode::Require => {
            match symbol_refs_at(d, p, table) {
                Err(q) => OperandStep::Fail(q),
                Ok((raw_symbols, pn)) => {
                    let symbols = raw_symbols;
                    OperandStep::Done(InsnV::Require { symbols: symbols }, pn)
                },
            }
        },
        Opcode::SetState => {
            match byte_at(d, p) {
                Err(q) => OperandStep::Fail(q),
                Ok((raw_state, pn)) => {
                    let state = raw_state;
                    OperandStep::Done(InsnV::SetState { state: state }, pn)
                },
            }
        },
        Opcode::SetStateOld => if new_format {
            match byte_at(d, p) {
                Err(q) => OperandStep::Fail(q),
                Ok((raw_state, pn)) => {
                    let state = raw_state;
                    OperandStep::Done(InsnV::SetStateOld, pn)
                },
            }
        } else {
            match u32_at(d, p) {
                Err(q) => OperandStep::Fail(q),
                Ok((raw_state, pn)) => {
                    let state = raw_state as i32;
                    OperandStep::Done(InsnV::SetStateOld, pn)
                },
            }
        },
        Opcode::SourceFile => {
            match sym_at(d, p, table) {
                Err(q) => OperandStep::Fail(q),
                Ok((raw_s, pn)) => {
                    let s = raw_s;
                    OperandStep::Done(InsnV::SourceFile { symbols: seq![s] }, pn)
                },
            }
        },
        Opcode::StaticDefine => {
            match sym_at(d, p, table) {
                Err(q) => OperandStep::Fail(q),
                Ok((raw_s, pn)) => {
                    let s = raw_s;
                    OperandStep::Done(InsnV::StaticDefine { symbols: seq![s] }, pn)
                },
            }
        },
        Opcode::StringConst => {
            match sym_at(d, p, table) {
                Err(q) => OperandStep::Fail(q),
                Ok((raw_s, pn)) => {
                    let s = raw_s;
                    OperandStep::Done(InsnV::StringConst { symbols: seq![s] }, pn)
                },
            }
        },
        Opcode::StringPush => {
            match u32_at(d, p) {
                Err(q) => OperandStep::Fail(q),
                Ok((raw_count, pn)) => {
                    let count = raw_count as i32;
                    OperandStep::Done(InsnV::StringPush { count: count }, pn)
                },
            }
        },
        Opcode::SymbolConst => {
            match sym_at(d, p, table) {
                Err(q) => OperandStep::Fail(q),
                Ok((raw_symbol, pn)) => {
                    let symbol = raw_symbol;
                    OperandStep::Done(InsnV::SymbolConst { symbol: symbol }, pn)
                },
            }
        },
        Opcode::Throw => {
            OperandStep::Done(InsnV::Nop, p)
        },
        Opcode::TryCatch => {
            match u32_at(d, p) {
                Err(q) => OperandStep::Fail(q),
                Ok((raw_target, pn)) => {
                    let target = raw_target as i32;
                    OperandStep::Done(InsnV::TryCatch { target: target }, pn)
                },
            }
        },
        Opcode::UIntConst => {
            match u32_at(d, p) {
                Err(q) => OperandStep::Fail(q),
                Ok((raw_value, pn)) => {
                    let value = raw_value;
                    OperandStep::Done(InsnV::UIntConst { value: value }, pn)
                },
            }
        },
        Opcode::ULongConst => {
            match u64_at(d, p) {
                Err(q) => OperandStep::Fail(q),
                Ok((raw_value, pn)) => {
                    let value = raw_value;
                    OperandStep::Done(InsnV::ULongConst { value: value }, pn)
                },
            }
        },
        Opcode::UnaryAssignOperator => {
            match sym_at(d, p, table) {
                Err(q) => OperandStep::Fail(q),
                Ok((raw_op, pn)) => {
                    let op = raw_op;
                    OperandStep::Done(InsnV::Nop, pn)
                },
            }
        },
        Opcode::UnaryOperator => {
            match sym_at(d, p, table) {
                Err(q) => OperandStep::Fail(q),
                Ok((raw_op, pn)) => {
                    let op = raw_op;
                    OperandStep::Done(InsnV::UnaryOperator { op: op }, pn)
                },
            }
        },
        Opcode::VaCall => {
            match u32_at(d, p) {
                Err(q) => OperandStep::Fail(q),
                Ok((raw_arg_count, pn)) => {
                    let arg_count = raw_arg_count as i32;
                    OperandStep::Done(InsnV::VaCall { arg_count: arg_count }, pn)
                },
            }
        },
        Opcode::VariableEval => {
            match symbol_refs_at(d, p, table) {
                Err(q) => OperandStep::Fail(q),
                Ok((raw_symbols, pn)) => {
                    let symbols = raw_symbols;
                    match u32_at(d, pn) {
                        Err(q) => OperandStep::Fail(q),
                        Ok((raw_index, pnn)) => {
                            let index = raw_index as i32;
                            OperandStep::Done(InsnV::VariableEval { symbols: symbols, kind: if symbols.len() > 1 { StorageKind::Static } else { StorageKind::Local }, index: index }, pnn)
                        },
                    }
                },
            }
        },
        Opcode::VariablePush => {
            match symbol_refs_at(d, p, table) {
                Err(q) => OperandStep::Fail(q),
                Ok((raw_symbols, pn)) => {
                    let symbols = raw_symbols;
                    match u32_at(d, pn) {
                        Err(q) => OperandStep::Fail(q),
                        Ok((raw_index, pnn)) => {
                            let index = raw_index as i32;
                            OperandStep::Done(InsnV::VariablePush { symbols: symbols, kind: if symbols.len() > 1 { StorageKind::Static } else { StorageKind::Local }, index: index }, pnn)
                        },
                    }
                },
            }
        },
        Opcode::VoidConst => {
            OperandStep::Done(InsnV::VoidConst, p)
        },
        Opcode::ByteConst => {
            match byte_at(d, p) {
                Err(q) => OperandStep::Fail(q),
                Ok((raw_value, pn)) => {
                    let value = raw_value as i8;
                    OperandStep::Done(InsnV::ByteConst { value: value as i32 }, pn)
                },
            }
        },
        Opcode::UByteConst => {
            match byte_at(d, p) {
                Err(q) => OperandStep::Fail(q),
                Ok((raw_value, pn)) => {
                    let value = raw_value;
                    OperandStep::Done(InsnV::UByteConst { value: value as i32 }, pn)
                },
            }
        },
        Opcode::ShortConst => {
            match u16_at(d, p) {
                Err(q) => OperandStep::Fail(q),
                Ok((raw_value, pn)) => {
                    let value = raw_value as i16;
                    OperandStep::Done(InsnV::ShortConst { value: value as i32 }, pn)
                },
            }
        },
        Opcode::UShortConst => {
            match u16_at(d, p) {
                Err(q) => OperandStep::Fail(q),
                Ok((raw_value, pn)) => {
                    let value = raw_value;
                    OperandStep::Done(InsnV::UShortConst { value: value as i32 }, pn)
                },
            }
        },
        Opcode::IteratorNext => {
            match u32_at(d, p) {
                Err(q) => OperandStep::Fail(q),
                Ok((raw_target, pn)) => {
                    let target = raw_target as i32;
                    match u32_at(d, pn) {
                        Err(q) => OperandStep::Fail(q),
                        Ok((raw_var_index, pnn)) => {
                            let var_index = raw_var_index as i32;
                            OperandStep::Done(InsnV::IteratorNext { target: target, var_index: var_index }, pnn)
                        },
                    }
                },
            }
        },
    }
}
/// What reading an instruction's operands gives: the instruction and the position after
/// it; the instruction and the position where the code frame nested in it starts; or
/// the position where the bytes ran out.
pub enum OperandStep {
    Done(InsnV, int),
    Frame(InsnV, int),
    Fail(int),
}

/// The byte at `p` and the position after it.
pub open spec fn byte_at(d: Seq<u8>, p: int) -> Result<(u8, int), int> {
    if 0 <= p < d.len() {
        Ok((d[p], p + 1))
    } else {
        Err(p)
    }
}

/// The little-endian u16 at `p` and the position after it.
pub open spec fn u16_at(d: Seq<u8>, p: int) -> Result<(u16, int), int> {
    if p + 2 <= d.len() {
        Ok((le_u16(d, p), p + 2))
    } else {
        Err(p)
    }
}

/// The little-endian u64 at `p` and the position after it.
pub open spec fn u64_at(d: Seq<u8>, p: int) -> Result<(u64, int), int> {
    if p + 8 <= d.len() {
        Ok((le_u64(d, p), p + 8))
    } else {
        Err(p)
    }
}

/// The symbol that the varint at `p` refers to, and the position after it.
pub open spec fn sym_at(d: Seq<u8>, p: int, table: Seq<Seq<char>>) -> Result<(Seq<char>, int), int> {
    match varint_at(d, p) {
        Ok((w, q)) => Ok((symbol_name(table, (w as usize) as int), q)),
        Err(q) => Err(q),
    }
}

/// A code frame as the file gives it.
pub struct FrameV {
    pub has_debug: bool,
    pub adhoc_version: u8,
    pub param_count: i32,
    pub param_names: Seq<Seq<char>>,
    pub stack_size: i32,
    pub local_var_count: i32,
    pub static_var_count: i32,
    pub instructions: Seq<InsnV>,
    pub child_frames: Seq<FrameV>,
    pub instruction_lines: Seq<i32>,
}

/// A decoded code frame: its header, its instructions with the source line read before
/// each (one line more than instructions when decoding stopped inside one), and the code
/// frames of the functions and methods it defines, in the order they were read.
pub struct CodeFrame {
    pub has_debug: bool,
    pub adhoc_version: u8,
    pub param_count: i32,
    pub param_names: Vec<String>,
    pub stack_size: i32,
    pub local_var_count: i32,
    pub static_var_count: i32,
    pub instructions: Vec<Instruction>,
    pub child_frames: Vec<CodeFrame>,
    pub instruction_lines: Vec<i32>,
}

/// A code frame's view.
pub open spec fn frame_view(f: CodeFrame) -> FrameV
    decreases f,
{
    FrameV {
        has_debug: f.has_debug,
        adhoc_version: f.adhoc_version,
        param_count: f.param_count,
        param_names: f.param_names@.map_values(|s: String| s@),
        stack_size: f.stack_size,
        local_var_count: f.local_var_count,
        static_var_count: f.static_var_count,
        instructions: f.instructions@.map_values(|i: Instruction| insn_view(i)),
        child_frames: frames_view(f.child_frames@),
        instruction_lines: f.instruction_lines@,
    }
}

/// The views of a run of code frames.
pub open spec fn frames_view(fs: Seq<CodeFrame>) -> Seq<FrameV>
    decreases fs,
{
    if fs.len() == 0 {
        Seq::empty()
    } else {
        frames_view(fs.drop_last()).push(frame_view(fs.last()))
    }
}

/// The operation that byte `b` names in the table `ops`; none past its end.
pub open spec fn opcode_of(ops: Seq<Option<Opcode>>, b: u8) -> Option<Opcode> {
    if (b as int) < ops.len() {
        ops[b as int]
    } else {
        None
    }
}

/// `q` when it lies between `p` and `len`, else `p`.
pub open spec fn fwd(p: int, q: int, len: int) -> int {
    if p <= q <= len {
        q
    } else {
        p
    }
}

/// A count read from the file, held to 0..=`max`.
pub open spec fn held_count(x: i32, max: int) -> nat {
    if x < 0 {
        0
    } else if x > max {
        max as nat
    } else {
        x as nat
    }
}

/// A flag at `p`, or `default` where the bytes ran out; with the position after it.
pub open spec fn bool_or(d: Seq<u8>, p: int, default: bool) -> (bool, int) {
    match byte_at(d, p) {
        Ok((b, q)) => (b != 0, q),
        Err(q) => (default, q),
    }
}

/// A byte at `p`, or `default`.
pub open spec fn u8_or(d: Seq<u8>, p: int, default: u8) -> (u8, int) {
    match byte_at(d, p) {
        Ok((b, q)) => (b, q),
        Err(q) => (default, q),
    }
}

/// A u32 at `p`, or 0.
pub open spec fn u32_or(d: Seq<u8>, p: int) -> (u32, int) {
    match u32_at(d, p) {
        Ok((v, q)) => (v, q),
        Err(q) => (0, q),
    }
}

/// An i32 at `p`, or 0.
pub open spec fn i32_or(d: Seq<u8>, p: int) -> (i32, int) {
    match u32_at(d, p) {
        Ok((v, q)) => (v as i32, q),
        Err(q) => (0, q),
    }
}

/// Where a varint at `p` ends, or where the bytes ran out.
pub open spec fn varint_end(d: Seq<u8>, p: int) -> int {
    match varint_at(d, p) {
        Ok((_, q)) => q,
        Err(q) => q,
    }
}

/// The parameters of a frame of version 8 and up: `n` entries of a symbol varint and an
/// i32 index; each entry whose varint reads gives an empty name.
pub open spec fn params_new(d: Seq<u8>, p: int, n: nat) -> (Seq<Seq<char>>, int)
    decreases n,
{
    if n == 0 {
        (Seq::empty(), p)
    } else {
        match varint_at(d, p) {
            Ok((_, q)) => {
                let r = params_new(d, i32_or(d, q).1, (n - 1) as nat);
                (seq![Seq::<char>::empty()] + r.0, r.1)
            },
            Err(q) => params_new(d, q, (n - 1) as nat),
        }
    }
}

/// Skips `n` captured-variable entries, each a varint and an i32.
pub open spec fn captured_skip(d: Seq<u8>, p: int, n: nat) -> int
    decreases n,
{
    if n == 0 {
        p
    } else {
        captured_skip(d, i32_or(d, varint_end(d, p)).1, (n - 1) as nat)
    }
}

/// The parameters of a frame before version 8: `n` symbol references, each that reads
/// giving its name.
pub open spec fn params_old(d: Seq<u8>, p: int, table: Seq<Seq<char>>, n: nat) -> (Seq<Seq<char>>, int)
    decreases n,
{
    if n == 0 {
        (Seq::empty(), p)
    } else {
        match sym_at(d, p, table) {
            Ok((s, q)) => {
                let r = params_old(d, q, table, (n - 1) as nat);
                (seq![s] + r.0, r.1)
            },
            Err(q) => params_old(d, q, table, (n - 1) as nat),
        }
    }
}

/// A code frame's header.
pub struct FrameHeader {
    pub has_debug: bool,
    pub version: u8,
    pub param_count: i32,
    pub param_names: Seq<Seq<char>>,
    pub stack_size: i32,
    pub local_var_count: i32,
    pub static_var_count: i32,
    pub insn_count: i32,
}

/// The header of the code frame at `pos`, and the position after it. Inside a frame of
/// version 8 and up a debug flag comes first; then the frame's version (12 where the
/// bytes ran out). A source-file symbol follows for versions below 8, and for versions
/// other than 8 with the debug flag; a rest-element flag for version 12 and up. Version
/// 8 and up: the parameter count and entries, the captured count and entries, a word,
/// the stack size, local and static variable counts and the instruction count. Before
/// version 8: a code size, the instruction count, the parameter count and names, the
/// stack size and local variable count; the debug flag is set and there are no statics.
/// A number that cannot be read is 0 (a flag, its default); parameter and captured
/// counts are held to 10000 and 1000.
pub open spec fn frame_header(d: Seq<u8>, pos: int, table: Seq<Seq<char>>, parent_ver: u8) -> (FrameHeader, int) {
    let (hd, ver, p1) = if parent_ver >= 8 {
        let (h, a) = bool_or(d, pos, true);
        let (v, b) = u8_or(d, a, 12);
        (h, v, b)
    } else {
        let (v, b) = u8_or(d, pos, 12);
        (true, v, b)
    };
    let p2 = if ver >= 8 {
        if ver != 8 && hd {
            varint_end(d, p1)
        } else {
            p1
        }
    } else {
        varint_end(d, p1)
    };
    let p3 = if ver >= 12 {
        bool_or(d, p2, false).1
    } else {
        p2
    };
    if ver >= 8 {
        let (pc, a) = u32_or(d, p3);
        let (names, b) = params_new(d, a, held_count(pc as i32, 10000));
        let (cc, c) = u32_or(d, b);
        let e = captured_skip(d, c, held_count(cc as i32, 1000));
        let f = u32_or(d, e).1;
        let (stack, g) = i32_or(d, f);
        let (local, h) = i32_or(d, g);
        let (stat, i) = i32_or(d, h);
        let (ic, j) = u32_or(d, i);
        (
            FrameHeader {
                has_debug: hd,
                version: ver,
                param_count: pc as i32,
                param_names: names,
                stack_size: stack,
                local_var_count: local,
                static_var_count: stat,
                insn_count: ic as i32,
            },
            j,
        )
    } else {
        let a = i32_or(d, p3).1;
        let (ic, b) = i32_or(d, a);
        let (pc, c) = i32_or(d, b);
        let (names, e) = params_old(d, c, table, held_count(pc, 10000));
        let (stack, f) = i32_or(d, e);
        let (local, g) = i32_or(d, f);
        (
            FrameHeader {
                has_debug: true,
                version: ver,
                param_count: pc,
                param_names: names,
                stack_size: stack,
                local_var_count: local,
                static_var_count: 0,
                insn_count: ic,
            },
            g,
        )
    }
}

/// The code frame at `pos` and the position after it: its header (see `frame_header`)
/// and then its instructions (see `insns_from`), at most 100000 of them.
pub open spec fn frame_at(d: Seq<u8>, pos: int, table: Seq<Seq<char>>, parent_ver: u8, ops: Seq<Option<Opcode>>) -> (FrameV, int)
    decreases d.len() - pos, 1int, 0int,
{
    let (h, e) = frame_header(d, pos, table, parent_ver);
    let start = fwd(pos, e, d.len() as int);
    let r = insns_from(d, start, table, h.has_debug, h.version, ops, held_count(h.insn_count, 100000));
    (
        FrameV {
            has_debug: h.has_debug,
            adhoc_version: h.version,
            param_count: h.param_count,
            param_names: h.param_names,
            stack_size: h.stack_size,
            local_var_count: h.local_var_count,
            static_var_count: h.static_var_count,
            instructions: r.0,
            child_frames: r.2,
            instruction_lines: r.1,
        },
        r.3,
    )
}

/// What reading one instruction at `p` gives: the source line read before it (an i32,
/// 0 where it cannot be read, and only when the frame has debug data), then the opcode
/// byte. `Stop` with the line and where reading stopped, when the bytes run out, the
/// table does not name the byte, or the operands run out; else `Go` with the line, the
/// instruction, the code frame nested in it if any, and the position after it.
pub enum InsnStep {
    Stop(i32, int),
    Go(i32, InsnV, Option<FrameV>, int),
}

/// One instruction at `p` (see `InsnStep`).
pub open spec fn insn_step(d: Seq<u8>, p: int, table: Seq<Seq<char>>, hd: bool, ver: u8, ops: Seq<Option<Opcode>>) -> InsnStep
    decreases d.len() - p, 0int, 0int,
{
    if p < 0 || p > d.len() {
        InsnStep::Stop(0, p)
    } else {
        let (line, p1) = if hd {
            i32_or(d, p)
        } else {
            (0i32, p)
        };
        match byte_at(d, p1) {
            Err(q) => InsnStep::Stop(line, q),
            Ok((b, p2)) => match opcode_of(ops, b) {
                None => InsnStep::Stop(line, p2),
                Some(op) => match operands_at(d, p2, table, op, ver >= 8) {
                    OperandStep::Fail(q) => InsnStep::Stop(line, q),
                    OperandStep::Done(v, q) => InsnStep::Go(line, v, None, fwd(p2, q, d.len() as int)),
                    OperandStep::Frame(v, q) => {
                        let q1 = fwd(p2, q, d.len() as int);
                        let (f, q2) = frame_at(d, q1, table, ver, ops);
                        InsnStep::Go(line, v, Some(f), fwd(q1, q2, d.len() as int))
                    },
                },
            },
        }
    }
}

/// Up to `n` instructions from `p` (see `insn_step`): the instructions, the line read
/// before each (also before the one where reading stopped), the code frames nested in
/// them, and the position where reading stopped.
pub open spec fn insns_from(
    d: Seq<u8>,
    p: int,
    table: Seq<Seq<char>>,
    hd: bool,
    ver: u8,
    ops: Seq<Option<Opcode>>,
    n: nat,
) -> (Seq<InsnV>, Seq<i32>, Seq<FrameV>, int)
    decreases d.len() - p, 0int, n,
{
    if n == 0 || p < 0 || p > d.len() {
        (Seq::empty(), Seq::empty(), Seq::empty(), p)
    } else {
        match insn_step(d, p, table, hd, ver, ops) {
            InsnStep::Stop(line, q) => (Seq::empty(), seq![line], Seq::empty(), q),
            InsnStep::Go(line, v, fo, q) => {
                let rest = insns_from(d, fwd(p, q, d.len() as int), table, hd, ver, ops, (n - 1) as nat);
                (
                    seq![v] + rest.0,
                    seq![line] + rest.1,
                    match fo {
                        Some(f) => seq![f] + rest.2,
                        None => rest.2,
                    },
                    rest.3,
                )
            },
        }
    }
}

/// A frame holds at most as many instructions as its header counts, and one source
/// line for each of them, plus one more where reading stopped inside an instruction.
pub proof fn lemma_lines_per_instruction(
    d: Seq<u8>,
    p: int,
    table: Seq<Seq<char>>,
    hd: bool,
    ver: u8,
    ops: Seq<Option<Opcode>>,
    n: nat,
)
    ensures
        ({
            let r = insns_from(d, p, table, hd, ver, ops, n);
            &&& r.0.len() <= n
            &&& (r.1.len() == r.0.len() || r.1.len() == r.0.len() + 1)
        }),
    decreases n,
{
    if n > 0 && 0 <= p <= d.len() {
        match insn_step(d, p, table, hd, ver, ops) {
            InsnStep::Stop(_, _) => {},
            InsnStep::Go(_, _, _, q) => {
                lemma_lines_per_instruction(d, fwd(p, q, d.len() as int), table, hd, ver, ops, (n - 1) as nat);
            },
        }
    }
}

/// The operation of the table that an instruction is the decoded form of; none for the
/// instructions that no operation is read into.
pub open spec fn insn_opcode(v: InsnV) -> Option<Opcode> {
    match v {
        InsnV::ArrayConstOld { .. } => Some(Opcode::ArrayConstOld),
        InsnV::ArrayConst { .. } => Some(Opcode::ArrayConst),
        InsnV::ArrayPush => Some(Opcode::ArrayPush),
        InsnV::Assign { .. } => Some(Opcode::Assign),
        InsnV::AssignPop => Some(Opcode::AssignPop),
        InsnV::AssignOld { .. } => Some(Opcode::AssignOld),
        InsnV::AttributeDefine { .. } => Some(Opcode::AttributeDefine),
        InsnV::AttributeEval { .. } => Some(Opcode::AttributeEval),
        InsnV::AttributePush { .. } => Some(Opcode::AttributePush),
        InsnV::BinaryAssignOperator { .. } => Some(Opcode::BinaryAssignOperator),
        InsnV::BinaryOperator { .. } => Some(Opcode::BinaryOperator),
        InsnV::BoolConst { .. } => Some(Opcode::BoolConst),
        InsnV::Call { .. } => Some(Opcode::Call),
        InsnV::CallOld { .. } => Some(Opcode::CallOld),
        InsnV::ClassDefine { .. } => Some(Opcode::ClassDefine),
        InsnV::DelegateDefine { .. } => Some(Opcode::DelegateDefine),
        InsnV::DoubleConst { .. } => Some(Opcode::DoubleConst),
        InsnV::ElementEval => Some(Opcode::ElementEval),
        InsnV::ElementPush => Some(Opcode::ElementPush),
        InsnV::Eval => Some(Opcode::Eval),
        InsnV::FloatConst { .. } => Some(Opcode::FloatConst),
        InsnV::FunctionConst => Some(Opcode::FunctionConst),
        InsnV::FunctionDefine { .. } => Some(Opcode::FunctionDefine),
        InsnV::Import { .. } => Some(Opcode::Import),
        InsnV::IntConst { .. } => Some(Opcode::IntConst),
        InsnV::Jump { .. } => Some(Opcode::Jump),
        InsnV::JumpIfFalse { .. } => Some(Opcode::JumpIfFalse),
        InsnV::JumpIfNil { .. } => Some(Opcode::JumpIfNil),
        InsnV::JumpIfTrue { .. } => Some(Opcode::JumpIfTrue),
        InsnV::Leave { .. } => Some(Opcode::Leave),
        InsnV::ListAssign => Some(Opcode::ListAssign),
        InsnV::ListAssignOld => Some(Opcode::ListAssignOld),
        InsnV::LocalDefine => Some(Opcode::LocalDefine),
        InsnV::LogicalAnd { .. } => Some(Opcode::LogicalAnd),
        InsnV::LogicalAndOld { .. } => Some(Opcode::LogicalAndOld),
        InsnV::LogicalOptional => Some(Opcode::LogicalOptional),
        InsnV::LogicalOr { .. } => Some(Opcode::LogicalOr),
        InsnV::LogicalOrOld { .. } => Some(Opcode::LogicalOrOld),
        InsnV::LongConst { .. } => Some(Opcode::LongConst),
        InsnV::MapConst => Some(Opcode::MapConst),
        InsnV::MapConstOld => Some(Opcode::MapConstOld),
        InsnV::MapInsert => Some(Opcode::MapInsert),
        InsnV::MethodConst => Some(Opcode::MethodConst),
        InsnV::MethodDefine { .. } => Some(Opcode::MethodDefine),
        InsnV::ModuleConstructor => Some(Opcode::ModuleConstructor),
        InsnV::ModuleDefine { .. } => Some(Opcode::ModuleDefine),
        InsnV::NilConst => Some(Opcode::NilConst),
        InsnV::Nop => Some(Opcode::Nop),
        InsnV::ObjectSelector { .. } => Some(Opcode::ObjectSelector),
        InsnV::Pop => Some(Opcode::Pop),
        InsnV::PopOld => Some(Opcode::PopOld),
        InsnV::Require { .. } => Some(Opcode::Require),
        InsnV::SetState { .. } => Some(Opcode::SetState),
        InsnV::SetStateOld => Some(Opcode::SetStateOld),
        InsnV::SourceFile { .. } => Some(Opcode::SourceFile),
        InsnV::StaticDefine { .. } => Some(Opcode::StaticDefine),
        InsnV::StringConst { .. } => Some(Opcode::StringConst),
        InsnV::StringPush { .. } => Some(Opcode::StringPush),
        InsnV::SymbolConst { .. } => Some(Opcode::SymbolConst),
        InsnV::TryCatch { .. } => Some(Opcode::TryCatch),
        InsnV::UIntConst { .. } => Some(Opcode::UIntConst),
        InsnV::ULongConst { .. } => Some(Opcode::ULongConst),
        InsnV::UnaryOperator { .. } => Some(Opcode::UnaryOperator),
        InsnV::VaCall { .. } => Some(Opcode::VaCall),
        InsnV::VariableEval { .. } => Some(Opcode::VariableEval),
        InsnV::VariablePush { .. } => Some(Opcode::VariablePush),
        InsnV::VoidConst => Some(Opcode::VoidConst),
        InsnV::ByteConst { .. } => Some(Opcode::ByteConst),
        InsnV::UByteConst { .. } => Some(Opcode::UByteConst),
        InsnV::ShortConst { .. } => Some(Opcode::ShortConst),
        InsnV::UShortConst { .. } => Some(Opcode::UShortConst),
        InsnV::IteratorNext { .. } => Some(Opcode::IteratorNext),
        InsnV::Switch { .. } => None::<Opcode>,
        InsnV::Case { .. } => None::<Opcode>,
        InsnV::JumpTable { .. } => None::<Opcode>,
        InsnV::JumpUndefined { .. } => None::<Opcode>,
        InsnV::JumpDefined { .. } => None::<Opcode>,
        InsnV::BigIntConst => None::<Opcode>,
        InsnV::TemplateConst => None::<Opcode>,
    }
}

/// The operations whose operands are read and dropped, leaving a no-op.
pub open spec fn reads_as_nop(op: Opcode) -> bool {
    op is Print || op is Throw || op is UnaryAssignOperator
}

/// The jump target an instruction carries, if it is a jump.
pub open spec fn jump_target(v: InsnV) -> Option<i32> {
    match v {
        InsnV::Jump { target } => Some(target),
        InsnV::JumpIfFalse { target } => Some(target),
        InsnV::JumpIfTrue { target } => Some(target),
        InsnV::JumpIfNil { target } => Some(target),
        _ => None,
    }
}

/// Decoding keeps the operation: whatever an opcode's operands read into is an
/// instruction of that opcode's own kind (the print, throw and unary-assignment
/// operations read into a no-op).
pub proof fn lemma_decoded_kind(d: Seq<u8>, p: int, table: Seq<Seq<char>>, op: Opcode, new_format: bool)
    ensures
        match operands_at(d, p, table, op, new_format) {
            OperandStep::Done(v, _) => if reads_as_nop(op) {
                v is Nop
            } else {
                insn_opcode(v) == Some(op)
            },
            OperandStep::Frame(v, _) => insn_opcode(v) == Some(op),
            OperandStep::Fail(_) => true,
        },
{
}

/// A jump opcode followed by four bytes decodes to a jump of that kind whose target is
/// those bytes read as a little-endian 32-bit integer, ending after them.
pub proof fn lemma_jump_operand(d: Seq<u8>, p: int, table: Seq<Seq<char>>, op: Opcode, new_format: bool)
    requires
        op is Jump || op is JumpIfFalse || op is JumpIfTrue || op is JumpIfNil,
        p + 4 <= d.len(),
    ensures
        operands_at(d, p, table, op, new_format) matches OperandStep::Done(v, q) && q == p + 4 && insn_opcode(v)
            == Some(op) && jump_target(v) == Some(le_u32(d, p) as i32),
{
}

/// The 32-bit word an instruction with one word operand carries (a signed operand by
/// its bits).
pub open spec fn word_operand(v: InsnV) -> Option<u32> {
    match v {
        InsnV::Call { arg_count } => Some(arg_count as u32),
        InsnV::CallOld { arg_count } => Some(arg_count as u32),
        InsnV::IntConst { value } => Some(value as u32),
        InsnV::Jump { target } => Some(target as u32),
        InsnV::JumpIfFalse { target } => Some(target as u32),
        InsnV::JumpIfNil { target } => Some(target as u32),
        InsnV::JumpIfTrue { target } => Some(target as u32),
        InsnV::LogicalAnd { target } => Some(target as u32),
        InsnV::LogicalAndOld { target } => Some(target as u32),
        InsnV::LogicalOr { target } => Some(target as u32),
        InsnV::LogicalOrOld { target } => Some(target as u32),
        InsnV::StringPush { count } => Some(count as u32),
        InsnV::TryCatch { target } => Some(target as u32),
        InsnV::VaCall { arg_count } => Some(arg_count as u32),
        InsnV::ArrayConstOld { count } => Some(count),
        InsnV::ArrayConst { count } => Some(count),
        InsnV::FloatConst { value } => Some(value),
        InsnV::UIntConst { value } => Some(value),
        _ => None,
    }
}

/// An opcode whose operand is one 32-bit word, followed by four bytes, decodes to an
/// instruction of that opcode's kind carrying those bytes read as a little-endian word,
/// and reading ends after them.
pub proof fn lemma_word_operand(d: Seq<u8>, p: int, table: Seq<Seq<char>>, op: Opcode, new_format: bool)
    requires
        op is Call || op is CallOld || op is IntConst || op is Jump || op is JumpIfFalse || op is JumpIfNil || op is JumpIfTrue || op is LogicalAnd || op is LogicalAndOld || op is LogicalOr || op is LogicalOrOld || op is StringPush || op is TryCatch || op is VaCall || op is ArrayConstOld || op is ArrayConst || op is FloatConst || op is UIntConst,
        p + 4 <= d.len(),
    ensures
        operands_at(d, p, table, op, new_format) matches OperandStep::Done(v, q) && q == p + 4 && insn_opcode(v)
            == Some(op) && word_operand(v) == Some(le_u32(d, p)),
{
    let w = le_u32(d, p);
    assert((w as i32) as u32 == w) by (bit_vector);
}

/// What a whole `.adc` file gives: its root code frame (read as inside a version 12
/// frame) after the head (see `adc_header`), or the head's error.
pub open spec fn code_file(d: Seq<u8>, ops: Seq<Option<Opcode>>) -> Result<FrameV, Seq<char>> {
    match adc_header(d) {
        Err(e) => Err(e),
        Ok((table, p)) => Ok(frame_at(d, p, table, 12, ops).0),
    }
}

/// A list holding one symbol.
fn one(s: String) -> (v: Vec<String>)
    ensures
        v@.map_values(|x: String| x@) == seq![s@],
{
    let mut v: Vec<String> = Vec::new();
    v.push(s);
    assert(v@.map_values(|x: String| x@) =~= seq![s@]);
    v
}

/// An empty list of symbols.
fn no_symbols() -> (v: Vec<String>)
    ensures
        v@.map_values(|x: String| x@) == Seq::<Seq<char>>::empty(),
{
    let v: Vec<String> = Vec::new();
    assert(v@.map_values(|x: String| x@) =~= Seq::<Seq<char>>::empty());
    v
}

/// Adding a frame to a run adds its view to the run's views.
proof fn lemma_frames_view_push(fs: Seq<CodeFrame>, f: CodeFrame)
    ensures
        frames_view(fs.push(f)) == frames_view(fs).push(frame_view(f)),
{
    assert(fs.push(f).drop_last() =~= fs);
}

/// `held_count` for a count in hand.
fn held(x: i32, max: i32) -> (r: usize)
    requires
        max >= 0,
    ensures
        r == held_count(x, max as int),
{
    if x < 0 {
        0
    } else if x > max {
        max as usize
    } else {
        x as usize
    }
}

impl Loader {
    /// The parameters of a frame of version 8 and up (see `params_new`).
    fn read_params_new(cursor: &mut Cursor, n: usize) -> (names: Vec<String>)
        requires
            old(cursor).wf(),
        ensures
            final(cursor).wf(),
            final(cursor).bytes() == old(cursor).bytes(),
            final(cursor).table() == old(cursor).table(),
            old(cursor).pos() <= final(cursor).pos(),
            names@.map_values(|s: String| s@) == params_new(old(cursor).bytes(), old(cursor).pos(), n as nat).0,
            final(cursor).pos() == params_new(old(cursor).bytes(), old(cursor).pos(), n as nat).1,
    {
        let ghost d = cursor.bytes();
        let ghost start = cursor.pos();
        let mut names: Vec<String> = Vec::new();
        let mut k: usize = 0;
        while k < n
            invariant
                k <= n,
                cursor.wf(),
                cursor.bytes() == d,
                d == old(cursor).bytes(),
                start == old(cursor).pos(),
                cursor.table() == old(cursor).table(),
                start <= cursor.pos(),
                names@.map_values(|s: String| s@) + params_new(d, cursor.pos(), (n - k) as nat).0
                    == params_new(d, start, n as nat).0,
                params_new(d, cursor.pos(), (n - k) as nat).1 == params_new(d, start, n as nat).1,
            decreases n - k,
        {
            let ghost prev = names@.map_values(|s: String| s@);
            match cursor.read_varint() {
                Ok(sym_idx) => {
                    let _name = cursor.get_symbol(sym_idx as usize);
                    let _param_idx = cursor.read_i32();
                    names.push(String::new());
                    proof {
                        let r = params_new(d, cursor.pos(), (n - k - 1) as nat);
                        assert(names@.map_values(|s: String| s@) =~= prev.push(Seq::<char>::empty()));
                        assert(prev.push(Seq::<char>::empty()) + r.0 =~= prev + (seq![Seq::<char>::empty()] + r.0));
                    }
                },
                Err(_) => {},
            }
            k = k + 1;
        }
        assert(names@.map_values(|s: String| s@) + Seq::<Seq<char>>::empty() =~= names@.map_values(|s: String| s@));
        names
    }

    /// Skips the captured-variable entries (see `captured_skip`).
    fn skip_captured(cursor: &mut Cursor, n: usize)
        requires
            old(cursor).wf(),
        ensures
            final(cursor).wf(),
            final(cursor).bytes() == old(cursor).bytes(),
            final(cursor).table() == old(cursor).table(),
            old(cursor).pos() <= final(cursor).pos(),
            final(cursor).pos() == captured_skip(old(cursor).bytes(), old(cursor).pos(), n as nat),
    {
        let ghost d = cursor.bytes();
        let mut k: usize = 0;
        while k < n
            invariant
                k <= n,
                cursor.wf(),
                cursor.bytes() == d,
                d == old(cursor).bytes(),
                cursor.table() == old(cursor).table(),
                old(cursor).pos() <= cursor.pos(),
                captured_skip(d, cursor.pos(), (n - k) as nat) == captured_skip(d, old(cursor).pos(), n as nat),
            decreases n - k,
        {
            let _ = cursor.read_varint();
            let _ = cursor.read_i32();
            k = k + 1;
        }
    }

    /// The parameters of a frame before version 8 (see `params_old`).
    fn read_params_old(cursor: &mut Cursor, n: usize) -> (names: Vec<String>)
        requires
            old(cursor).wf(),
        ensures
            final(cursor).wf(),
            final(cursor).bytes() == old(cursor).bytes(),
            final(cursor).table() == old(cursor).table(),
            old(cursor).pos() <= final(cursor).pos(),
            names@.map_values(|s: String| s@) == params_old(
                old(cursor).bytes(),
                old(cursor).pos(),
                old(cursor).table(),
                n as nat,
            ).0,
            final(cursor).pos() == params_old(old(cursor).bytes(), old(cursor).pos(), old(cursor).table(), n as nat).1,
    {
        let ghost d = cursor.bytes();
        let ghost table = cursor.table();
        let ghost start = cursor.pos();
        let mut names: Vec<String> = Vec::new();
        let mut k: usize = 0;
        while k < n
            invariant
                k <= n,
                cursor.wf(),
                cursor.bytes() == d,
                d == old(cursor).bytes(),
                start == old(cursor).pos(),
                cursor.table() == table,
                table == old(cursor).table(),
                start <= cursor.pos(),
                names@.map_values(|s: String| s@) + params_old(d, cursor.pos(), table, (n - k) as nat).0
                    == params_old(d, start, table, n as nat).0,
                params_old(d, cursor.pos(), table, (n - k) as nat).1 == params_old(d, start, table, n as nat).1,
            decreases n - k,
        {
            let ghost prev = names@.map_values(|s: String| s@);
            match Self::read_symbol(cursor) {
                Ok(name) => {
                    let ghost nv = name@;
                    names.push(name);
                    proof {
                        let r = params_old(d, cursor.pos(), table, (n - k - 1) as nat);
                        assert(names@.map_values(|s: String| s@) =~= prev.push(nv));
                        assert(prev.push(nv) + r.0 =~= prev + (seq![nv] + r.0));
                    }
                },
                Err(_) => {},
            }
            k = k + 1;
        }
        assert(names@.map_values(|s: String| s@) + Seq::<Seq<char>>::empty() =~= names@.map_values(|s: String| s@));
        names
    }
}

impl Loader {

    /// `decode_instruction` for the operations ArrayConstOld, AssignPop, AttributePush, Call, DoubleConst, FloatConst, JumpIfFalse, ListAssign, LogicalAndOld, LongConst, ModuleConstructor, ObjectSelector, Require, StaticDefine, Throw, UnaryAssignOperator, VariablePush, ShortConst.
    fn decode_group0(cursor: &mut Cursor, opcode: &Opcode, adhoc_version: u8) -> (r: Result<Instruction, String>)
        requires
            old(cursor).wf(),
            (*opcode is ArrayConstOld || *opcode is AssignPop || *opcode is AttributePush || *opcode is Call || *opcode is DoubleConst || *opcode is FloatConst || *opcode is JumpIfFalse || *opcode is ListAssign || *opcode is LogicalAndOld || *opcode is LongConst || *opcode is ModuleConstructor || *opcode is ObjectSelector || *opcode is Require || *opcode is StaticDefine || *opcode is Throw || *opcode is UnaryAssignOperator || *opcode is VariablePush || *opcode is ShortConst),
        ensures
            final(cursor).wf(),
            final(cursor).bytes() == old(cursor).bytes(),
            final(cursor).table() == old(cursor).table(),
            old(cursor).pos() <= final(cursor).pos(),
            match operands_at(old(cursor).bytes(), old(cursor).pos(), old(cursor).table(), *opcode, adhoc_version >= 8) {
                OperandStep::Done(v, q) => r matches Ok(i) && insn_view(i) == v && final(cursor).pos() == q,
                OperandStep::Frame(_, _) => false,
                OperandStep::Fail(q) => r matches Err(e) && e@ == eof_text(q) && final(cursor).pos() == q,
            },
    {
        proof {
            cursor.lemma_pos_in_bytes();
        }
        let is_v12 = adhoc_version >= 8;
        match *opcode {
            Opcode::ArrayConstOld => {
                let count = match cursor.read_u32() {
                    Ok(v) => v,
                    Err(e) => return Err(e),
                };
                Ok(Instruction::ArrayConstOld { count: count })
            },
            Opcode::AssignPop => {
                Ok(Instruction::AssignPop)
            },
            Opcode::AttributePush => {
                let symbols = match Loader::read_symbols(cursor) {
                    Ok(v) => v,
                    Err(e) => return Err(e),
                };
                Ok(Instruction::AttributePush { symbols: symbols, kind: StorageKind::Local, index: 0 })
            },
            Opcode::Call => {
                let arg_count = match cursor.read_i32() {
                    Ok(v) => v,
                    Err(e) => return Err(e),
                };
                Ok(Instruction::Call { arg_count: arg_count })
            },
            Opcode::DoubleConst => {
                let value = match cursor.read_u64() {
                    Ok(v) => v,
                    Err(e) => return Err(e),
                };
                Ok(Instruction::DoubleConst { value: value })
            },
            Opcode::FloatConst => {
                let value = match cursor.read_u32() {
                    Ok(v) => v,
                    Err(e) => return Err(e),
                };
                Ok(Instruction::FloatConst { value: value })
            },
            Opcode::JumpIfFalse => {
                let target = match cursor.read_i32() {
                    Ok(v) => v,
                    Err(e) => return Err(e),
                };
                Ok(Instruction::JumpIfFalse { target: target })
            },
            Opcode::ListAssign => if is_v12 {
                let _elem_count = match cursor.read_adhoc_varint() {
                    Ok(v) => v,
                    Err(e) => return Err(e),
                };
                let _has_rest = match cursor.read_adhoc_varint() {
                    Ok(v) => v,
                    Err(e) => return Err(e),
                };
                Ok(Instruction::ListAssign)
            } else {
                Ok(Instruction::ListAssign)
            },
            Opcode::LogicalAndOld => {
                let target = match cursor.read_i32() {
                    Ok(v) => v,
                    Err(e) => return Err(e),
                };
                Ok(Instruction::LogicalAndOld { target: target })
            },
            Opcode::LongConst => {
                let value = match cursor.read_i64() {
                    Ok(v) => v,
                    Err(e) => return Err(e),
                };
                Ok(Instruction::LongConst { value: value })
            },
            Opcode::ModuleConstructor => {
                Ok(Instruction::ModuleConstructor)
            },
            Opcode::ObjectSelector => {
                Ok(Instruction::ObjectSelector { symbol: String::new() })
            },
            Opcode::Require => {
                let symbols = match Loader::read_symbols(cursor) {
                    Ok(v) => v,
                    Err(e) => return Err(e),
                };
                Ok(Instruction::Require { symbols: symbols })
            },
            Opcode::StaticDefine => {
                let s = match Loader::read_symbol(cursor) {
                    Ok(v) => v,
                    Err(e) => return Err(e),
                };
                Ok(Instruction::StaticDefine { symbols: one(s) })
            },
            Opcode::Throw => {
                Ok(Instruction::Nop)
            },
            Opcode::UnaryAssignOperator => {
                let _op = match Loader::read_symbol(cursor) {
                    Ok(v) => v,
                    Err(e) => return Err(e),
                };
                Ok(Instruction::Nop)
            },
            Opcode::VariablePush => {
                let symbols = match Loader::read_symbols(cursor) {
                    Ok(v) => v,
                    Err(e) => return Err(e),
                };
                let index = match cursor.read_i32() {
                    Ok(v) => v,
                    Err(e) => return Err(e),
                };
                let kind = if symbols.len() > 1 { StorageKind::Static } else { StorageKind::Local };
                Ok(Instruction::VariablePush { symbols: symbols, kind: kind, index: index })
            },
            Opcode::ShortConst => {
                let value = match cursor.read_i16() {
                    Ok(v) => v,
                    Err(e) => return Err(e),
                };
                Ok(Instruction::ShortConst { value: value as i32 })
            },
            _ => {
                proof {
                    assert(false);
                }
                Err(String::new())
            },
        }
    }

    /// `decode_instruction` for the operations ArrayConst, AssignOld, BinaryAssignOperator, CallOld, ElementEval, Import, JumpIfNil, ListAssignOld, LogicalOptional, MapConst, ModuleDefine, Pop, SetState, StringConst, TryCatch, UnaryOperator, VoidConst, UShortConst.
    fn decode_group1(cursor: &mut Cursor, opcode: &Opcode, adhoc_version: u8) -> (r: Result<Instruction, String>)
        requires
            old(cursor).wf(),
            (*opcode is ArrayConst || *opcode is AssignOld || *opcode is BinaryAssignOperator || *opcode is CallOld || *opcode is ElementEval || *opcode is Import || *opcode is JumpIfNil || *opcode is ListAssignOld || *opcode is LogicalOptional || *opcode is MapConst || *opcode is ModuleDefine || *opcode is Pop || *opcode is SetState || *opcode is StringConst || *opcode is TryCatch || *opcode is UnaryOperator || *opcode is VoidConst || *opcode is UShortConst),
        ensures
            final(cursor).wf(),
            final(cursor).bytes() == old(cursor).bytes(),
            final(cursor).table() == old(cursor).table(),
            old(cursor).pos() <= final(cursor).pos(),
            match operands_at(old(cursor).bytes(), old(cursor).pos(), old(cursor).table(), *opcode, adhoc_version >= 8) {
                OperandStep::Done(v, q) => r matches Ok(i) && insn_view(i) == v && final(cursor).pos() == q,
                OperandStep::Frame(_, _) => false,
                OperandStep::Fail(q) => r matches Err(e) && e@ == eof_text(q) && final(cursor).pos() == q,
            },
    {
        proof {
            cursor.lemma_pos_in_bytes();
        }
        let is_v12 = adhoc_version >= 8;
        match *opcode {
            Opcode::ArrayConst => {
                let count = match cursor.read_u32() {
                    Ok(v) => v,
                    Err(e) => return Err(e),
                };
                Ok(Instruction::ArrayConst { count: count })
            },
            Opcode::AssignOld => if is_v12 {
                Ok(Instruction::AssignOld { symbols: no_symbols(), index: 0 })
            } else {
                let symbols = match Loader::read_symbols(cursor) {
                    Ok(v) => v,
                    Err(e) => return Err(e),
                };
                let index = match cursor.read_i32() {
                    Ok(v) => v,
                    Err(e) => return Err(e),
                };
                Ok(Instruction::AssignOld { symbols: symbols, index: index })
            },
            Opcode::BinaryAssignOperator => if is_v12 {
                let op = match Loader::read_symbol(cursor) {
                    Ok(v) => v,
                    Err(e) => return Err(e),
                };
                Ok(Instruction::BinaryAssignOperator { op: op, symbols: no_symbols() })
            } else {
                let op = match Loader::read_symbol(cursor) {
                    Ok(v) => v,
                    Err(e) => return Err(e),
                };
                let symbols = match Loader::read_symbols(cursor) {
                    Ok(v) => v,
                    Err(e) => return Err(e),
                };
                Ok(Instruction::BinaryAssignOperator { op: op, symbols: symbols })
            },
            Opcode::CallOld => {
                let arg_count = match cursor.read_i32() {
                    Ok(v) => v,
                    Err(e) => return Err(e),
                };
                Ok(Instruction::CallOld { arg_count: arg_count })
            },
            Opcode::ElementEval => {
                Ok(Instruction::ElementEval)
            },
            Opcode::Import => {
                let symbols = match Loader::read_symbols(cursor) {
                    Ok(v) => v,
                    Err(e) => return Err(e),
                };
                Ok(Instruction::Import { symbols: symbols })
            },
            Opcode::JumpIfNil => {
                let target = match cursor.read_i32() {
                    Ok(v) => v,
                    Err(e) => return Err(e),
                };
                Ok(Instruction::JumpIfNil { target: target })
            },
            Opcode::ListAssignOld => {
                let _var_count = match cursor.read_i32() {
                    Ok(v) => v,
                    Err(e) => return Err(e),
                };
                Ok(Instruction::ListAssignOld)
            },
            Opcode::LogicalOptional => {
                Ok(Instruction::LogicalOptional)
            },
            Opcode::MapConst => {
                Ok(Instruction::MapConst)
            },
            Opcode::ModuleDefine => {
                let symbols = match Loader::read_symbols(cursor) {
                    Ok(v) => v,
                    Err(e) => return Err(e),
                };
                Ok(Instruction::ModuleDefine { symbols: symbols })
            },
            Opcode::Pop => {
                Ok(Instruction::Pop)
            },
            Opcode::SetState => {
                let state = match cursor.read_u8() {
                    Ok(v) => v,
                    Err(e) => return Err(e),
                };
                Ok(Instruction::SetState { state: state })
            },
            Opcode::StringConst => {
                let s = match Loader::read_symbol(cursor) {
                    Ok(v) => v,
                    Err(e) => return Err(e),
                };
                Ok(Instruction::StringConst { symbols: one(s) })
            },
            Opcode::TryCatch => {
                let target = match cursor.read_i32() {
                    Ok(v) => v,
                    Err(e) => return Err(e),
                };
                Ok(Instruction::TryCatch { target: target })
            },
            Opcode::UnaryOperator => {
                let op = match Loader::read_symbol(cursor) {
                    Ok(v) => v,
                    Err(e) => return Err(e),
                };
                Ok(Instruction::UnaryOperator { op: op })
            },
            Opcode::VoidConst => {
                Ok(Instruction::VoidConst)
            },
            Opcode::UShortConst => {
                let value = match cursor.read_u16() {
                    Ok(v) => v,
                    Err(e) => return Err(e),
                };
                Ok(Instruction::UShortConst { value: value as i32 })
            },
            _ => {
                proof {
                    assert(false);
                }
                Err(String::new())
            },
        }
    }

    /// `decode_instruction` for the operations ArrayPush, AttributeDefine, BinaryOperator, ClassDefine, ElementPush, IntConst, JumpIfTrue, LocalDefine, LogicalOr, MapConstOld, NilConst, PopOld, SetStateOld, StringPush, UIntConst, VaCall, ByteConst, IteratorNext.
    fn decode_group2(cursor: &mut Cursor, opcode: &Opcode, adhoc_version: u8) -> (r: Result<Instruction, String>)
        requires
            old(cursor).wf(),
            (*opcode is ArrayPush || *opcode is AttributeDefine || *opcode is BinaryOperator || *opcode is ClassDefine || *opcode is ElementPush || *opcode is IntConst || *opcode is JumpIfTrue || *opcode is LocalDefine || *opcode is LogicalOr || *opcode is MapConstOld || *opcode is NilConst || *opcode is PopOld || *opcode is SetStateOld || *opcode is StringPush || *opcode is UIntConst || *opcode is VaCall || *opcode is ByteConst || *opcode is IteratorNext),
        ensures
            final(cursor).wf(),
            final(cursor).bytes() == old(cursor).bytes(),
            final(cursor).table() == old(cursor).table(),
            old(cursor).pos() <= final(cursor).pos(),
            match operands_at(old(cursor).bytes(), old(cursor).pos(), old(cursor).table(), *opcode, adhoc_version >= 8) {
                OperandStep::Done(v, q) => r matches Ok(i) && insn_view(i) == v && final(cursor).pos() == q,
                OperandStep::Frame(_, _) => false,
                OperandStep::Fail(q) => r matches Err(e) && e@ == eof_text(q) && final(cursor).pos() == q,
            },
    {
        proof {
            cursor.lemma_pos_in_bytes();
        }
        let is_v12 = adhoc_version >= 8;
        match *opcode {
            Opcode::ArrayPush => {
                Ok(Instruction::ArrayPush)
            },
            Opcode::AttributeDefine => {
                let s = match Loader::read_symbol(cursor) {
                    Ok(v) => v,
                    Err(e) => return Err(e),
                };
                Ok(Instruction::AttributeDefine { symbols: one(s) })
            },
            Opcode::BinaryOperator => {
                let op = match Loader::read_symbol(cursor) {
                    Ok(v) => v,
                    Err(e) => return Err(e),
                };
                Ok(Instruction::BinaryOperator { op: op })
            },
            Opcode::ClassDefine => {
                let name = match Loader::read_symbol(cursor) {
                    Ok(v) => v,
                    Err(e) => return Err(e),
                };
                let _extends = match Loader::read_symbols(cursor) {
                    Ok(v) => v,
                    Err(e) => return Err(e),
                };
                Ok(Instruction::ClassDefine { symbols: one(name) })
            },
            Opcode::ElementPush => {
                Ok(Instruction::ElementPush)
            },
            Opcode::IntConst => {
                let value = match cursor.read_i32() {
                    Ok(v) => v,
                    Err(e) => return Err(e),
                };
                Ok(Instruction::IntConst { value: value })
            },
            Opcode::JumpIfTrue => {
                let target = match cursor.read_i32() {
                    Ok(v) => v,
                    Err(e) => return Err(e),
                };
                Ok(Instruction::JumpIfTrue { target: target })
            },
            Opcode::LocalDefine => {
                Ok(Instruction::LocalDefine)
            },
            Opcode::LogicalOr => {
                let target = match cursor.read_i32() {
                    Ok(v) => v,
                    Err(e) => return Err(e),
                };
                Ok(Instruction::LogicalOr { target: target })
            },
            Opcode::MapConstOld => {
                let _value = match cursor.read_i32() {
                    Ok(v) => v,
                    Err(e) => return Err(e),
                };
                Ok(Instruction::MapConstOld)
            },
            Opcode::NilConst => {
                Ok(Instruction::NilConst)
            },
            Opcode::PopOld => {
                Ok(Instruction::PopOld)
            },
            Opcode::SetStateOld => if is_v12 {
                let _state = match cursor.read_u8() {
                    Ok(v) => v,
                    Err(e) => return Err(e),
                };
                Ok(Instruction::SetStateOld)
            } else {
                let _state = match cursor.read_i32() {
                    Ok(v) => v,
                    Err(e) => return Err(e),
                };
                Ok(Instruction::SetStateOld)
            },
            Opcode::StringPush => {
                let count = match cursor.read_i32() {
                    Ok(v) => v,
                    Err(e) => return Err(e),
                };
                Ok(Instruction::StringPush { count: count })
            },
            Opcode::UIntConst => {
                let value = match cursor.read_u32() {
                    Ok(v) => v,
                    Err(e) => return Err(e),
                };
                Ok(Instruction::UIntConst { value: value })
            },
            Opcode::VaCall => {
                let arg_count = match cursor.read_i32() {
                    Ok(v) => v,
                    Err(e) => return Err(e),
                };
                Ok(Instruction::VaCall { arg_count: arg_count })
            },
            Opcode::ByteConst => {
                let value = match cursor.read_i8() {
                    Ok(v) => v,
                    Err(e) => return Err(e),
                };
                Ok(Instruction::ByteConst { value: value as i32 })
            },
            Opcode::IteratorNext => {
                let target = match cursor.read_i32() {
                    Ok(v) => v,
                    Err(e) => return Err(e),
                };
                let var_index = match cursor.read_i32() {
                    Ok(v) => v,
                    Err(e) => return Err(e),
                };
                Ok(Instruction::IteratorNext { target: target, var_index: var_index })
            },
            _ => {
                proof {
                    assert(false);
                }
                Err(String::new())
            },
        }
    }

    /// `decode_instruction` for the operations Assign, AttributeEval, BoolConst, DelegateDefine, Eval, Jump, Leave, LogicalAnd, LogicalOrOld, MapInsert, Nop, Print, SourceFile, SymbolConst, ULongConst, VariableEval, UByteConst.
    fn decode_group3(cursor: &mut Cursor, opcode: &Opcode, adhoc_version: u8) -> (r: Result<Instruction, String>)
        requires
            old(cursor).wf(),
            (*opcode is Assign || *opcode is AttributeEval || *opcode is BoolConst || *opcode is DelegateDefine || *opcode is Eval || *opcode is Jump || *opcode is Leave || *opcode is LogicalAnd || *opcode is LogicalOrOld || *opcode is MapInsert || *opcode is Nop || *opcode is Print || *opcode is SourceFile || *opcode is SymbolConst || *opcode is ULongConst || *opcode is VariableEval || *opcode is UByteConst),
        ensures
            final(cursor).wf(),
            final(cursor).bytes() == old(cursor).bytes(),
            final(cursor).table() == old(cursor).table(),
            old(cursor).pos() <= final(cursor).pos(),
            match operands_at(old(cursor).bytes(), old(cursor).pos(), old(cursor).table(), *opcode, adhoc_version >= 8) {
                OperandStep::Done(v, q) => r matches Ok(i) && insn_view(i) == v && final(cursor).pos() == q,
                OperandStep::Frame(_, _) => false,
                OperandStep::Fail(q) => r matches Err(e) && e@ == eof_text(q) && final(cursor).pos() == q,
            },
    {
        proof {
            cursor.lemma_pos_in_bytes();
        }
        let is_v12 = adhoc_version >= 8;
        match *opcode {
            Opcode::Assign => if is_v12 {
                Ok(Instruction::Assign { symbols: no_symbols(), storage_index: 0 })
            } else {
                let symbols = match Loader::read_symbols(cursor) {
                    Ok(v) => v,
                    Err(e) => return Err(e),
                };
                let storage_index = match cursor.read_i32() {
                    Ok(v) => v,
                    Err(e) => return Err(e),
                };
                Ok(Instruction::Assign { symbols: symbols, storage_index: storage_index })
            },
            Opcode::AttributeEval => {
                let symbols = match Loader::read_symbols(cursor) {
                    Ok(v) => v,
                    Err(e) => return Err(e),
                };
                Ok(Instruction::AttributeEval { symbols: symbols })
            },
            Opcode::BoolConst => {
                let value = match cursor.read_bool() {
                    Ok(v) => v,
                    Err(e) => return Err(e),
                };
                Ok(Instruction::BoolConst { value: value })
            },
            Opcode::DelegateDefine => {
                let name = match Loader::read_symbol(cursor) {
                    Ok(v) => v,
                    Err(e) => return Err(e),
                };
                Ok(Instruction::DelegateDefine { name: name, target: cursor.get_symbol(0) })
            },
            Opcode::Eval => {
                Ok(Instruction::Eval)
            },
            Opcode::Jump => {
                let target = match cursor.read_i32() {
                    Ok(v) => v,
                    Err(e) => return Err(e),
                };
                Ok(Instruction::Jump { target: target })
            },
            Opcode::Leave => {
                let depth = match cursor.read_i32() {
                    Ok(v) => v,
                    Err(e) => return Err(e),
                };
                let rewind_locals = match cursor.read_i32() {
                    Ok(v) => v,
                    Err(e) => return Err(e),
                };
                Ok(Instruction::Leave { depth: depth, rewind_locals: rewind_locals })
            },
            Opcode::LogicalAnd => {
                let target = match cursor.read_i32() {
                    Ok(v) => v,
                    Err(e) => return Err(e),
                };
                Ok(Instruction::LogicalAnd { target: target })
            },
            Opcode::LogicalOrOld => {
                let target = match cursor.read_i32() {
                    Ok(v) => v,
                    Err(e) => return Err(e),
                };
                Ok(Instruction::LogicalOrOld { target: target })
            },
            Opcode::MapInsert => {
                Ok(Instruction::MapInsert)
            },
            Opcode::Nop => {
                Ok(Instruction::Nop)
            },
            Opcode::Print => {
                let _arg_count = match cursor.read_i32() {
                    Ok(v) => v,
                    Err(e) => return Err(e),
                };
                Ok(Instruction::Nop)
            },
            Opcode::SourceFile => {
                let s = match Loader::read_symbol(cursor) {
                    Ok(v) => v,
                    Err(e) => return Err(e),
                };
                Ok(Instruction::SourceFile { symbols: one(s) })
            },
            Opcode::SymbolConst => {
                let symbol = match Loader::read_symbol(cursor) {
                    Ok(v) => v,
                    Err(e) => return Err(e),
                };
                Ok(Instruction::SymbolConst { symbol: symbol })
            },
            Opcode::ULongConst => {
                let value = match cursor.read_u64() {
                    Ok(v) => v,
                    Err(e) => return Err(e),
                };
                Ok(Instruction::ULongConst { value: value })
            },
            Opcode::VariableEval => {
                let symbols = match Loader::read_symbols(cursor) {
                    Ok(v) => v,
                    Err(e) => return Err(e),
                };
                let index = match cursor.read_i32() {
                    Ok(v) => v,
                    Err(e) => return Err(e),
                };
                let kind = if symbols.len() > 1 { StorageKind::Static } else { StorageKind::Local };
                Ok(Instruction::VariableEval { symbols: symbols, kind: kind, index: index })
            },
            Opcode::UByteConst => {
                let value = match cursor.read_u8() {
                    Ok(v) => v,
                    Err(e) => return Err(e),
                };
                Ok(Instruction::UByteConst { value: value as i32 })
            },
            _ => {
                proof {
                    assert(false);
                }
                Err(String::new())
            },
        }
    }

    /// `decode_instruction` for the operations that define or make a function or method,
    /// whose code frame follows.
    fn decode_frame_group(
        cursor: &mut Cursor,
        opcode: &Opcode,
        child_frames: &mut Vec<CodeFrame>,
        adhoc_version: u8,
        opcodes: &[Option<Opcode>],
    ) -> (r: Result<Instruction, String>)
        requires
            old(cursor).wf(),
            (*opcode is FunctionConst || *opcode is FunctionDefine || *opcode is MethodConst || *opcode is MethodDefine),
        ensures
            final(cursor).wf(),
            final(cursor).bytes() == old(cursor).bytes(),
            final(cursor).table() == old(cursor).table(),
            old(cursor).pos() <= final(cursor).pos(),
            match operands_at(old(cursor).bytes(), old(cursor).pos(), old(cursor).table(), *opcode, adhoc_version >= 8) {
                OperandStep::Done(v, q) => r matches Ok(i) && insn_view(i) == v && final(cursor).pos() == q && final(child_frames)@ == old(child_frames)@,
                OperandStep::Frame(v, q) => r matches Ok(i) && insn_view(i) == v && old(cursor).pos() <= q
                    <= old(cursor).bytes().len() && q <= final(cursor).pos() && ({
                    let fr = frame_at(old(cursor).bytes(), q, old(cursor).table(), adhoc_version, opcodes@);
                    &&& frames_view(final(child_frames)@) == frames_view(old(child_frames)@).push(fr.0)
                    &&& final(cursor).pos() == fr.1
                }),
                OperandStep::Fail(q) => r matches Err(e) && e@ == eof_text(q) && final(cursor).pos() == q && final(child_frames)@ == old(child_frames)@,
            },
        decreases old(cursor).bytes().len() - old(cursor).pos() + 1, 0int,
    {
        proof {
            cursor.lemma_pos_in_bytes();
        }
        match *opcode {
            Opcode::FunctionConst => {
                proof {
                    cursor.lemma_pos_in_bytes();
                }
                match Self::read_code_frame(cursor, adhoc_version, opcodes) {
                    Ok(f) => {
                        proof { lemma_frames_view_push(child_frames@, f); }
                        child_frames.push(f);
                    },
                    Err(e) => return Err(e),
                }
                Ok(Instruction::FunctionConst)
            },
            Opcode::FunctionDefine => {
                let name = match Loader::read_symbol(cursor) {
                    Ok(v) => v,
                    Err(e) => return Err(e),
                };
                proof {
                    cursor.lemma_pos_in_bytes();
                }
                match Self::read_code_frame(cursor, adhoc_version, opcodes) {
                    Ok(f) => {
                        proof { lemma_frames_view_push(child_frames@, f); }
                        child_frames.push(f);
                    },
                    Err(e) => return Err(e),
                }
                Ok(Instruction::FunctionDefine { symbols: one(name) })
            },
            Opcode::MethodConst => {
                proof {
                    cursor.lemma_pos_in_bytes();
                }
                match Self::read_code_frame(cursor, adhoc_version, opcodes) {
                    Ok(f) => {
                        proof { lemma_frames_view_push(child_frames@, f); }
                        child_frames.push(f);
                    },
                    Err(e) => return Err(e),
                }
                Ok(Instruction::MethodConst)
            },
            Opcode::MethodDefine => {
                let name = match Loader::read_symbol(cursor) {
                    Ok(v) => v,
                    Err(e) => return Err(e),
                };
                proof {
                    cursor.lemma_pos_in_bytes();
                }
                match Self::read_code_frame(cursor, adhoc_version, opcodes) {
                    Ok(f) => {
                        proof { lemma_frames_view_push(child_frames@, f); }
                        child_frames.push(f);
                    },
                    Err(e) => return Err(e),
                }
                Ok(Instruction::MethodDefine { symbols: one(name) })
            },
            _ => {
                proof {
                    assert(false);
                }
                Err(String::new())
            },
        }
    }

    /// Reads the operands of `opcode` at the cursor (see `operands_at`); the code frame
    /// of a function or method it defines or makes is read (see `frame_at`) and added to
    /// `child_frames`. Fails only where the bytes run out, with the end-of-input message.
    pub fn decode_instruction(
        cursor: &mut Cursor,
        opcode: &Opcode,
        child_frames: &mut Vec<CodeFrame>,
        adhoc_version: u8,
        opcodes: &[Option<Opcode>],
    ) -> (r: Result<Instruction, String>)
        requires
            old(cursor).wf(),
        ensures
            final(cursor).wf(),
            final(cursor).bytes() == old(cursor).bytes(),
            final(cursor).table() == old(cursor).table(),
            old(cursor).pos() <= final(cursor).pos(),
            match operands_at(old(cursor).bytes(), old(cursor).pos(), old(cursor).table(), *opcode, adhoc_version >= 8) {
                OperandStep::Done(v, q) => r matches Ok(i) && insn_view(i) == v && final(cursor).pos() == q && final(child_frames)@ == old(child_frames)@,
                OperandStep::Frame(v, q) => r matches Ok(i) && insn_view(i) == v && old(cursor).pos() <= q
                    <= old(cursor).bytes().len() && q <= final(cursor).pos() && ({
                    let fr = frame_at(old(cursor).bytes(), q, old(cursor).table(), adhoc_version, opcodes@);
                    &&& frames_view(final(child_frames)@) == frames_view(old(child_frames)@).push(fr.0)
                    &&& final(cursor).pos() == fr.1
                }),
                OperandStep::Fail(q) => r matches Err(e) && e@ == eof_text(q) && final(cursor).pos() == q && final(child_frames)@ == old(child_frames)@,
            },
        decreases old(cursor).bytes().len() - old(cursor).pos() + 1, 1int,
    {
        match *opcode {
            Opcode::ArrayConstOld | Opcode::AssignPop | Opcode::AttributePush | Opcode::Call | Opcode::DoubleConst | Opcode::FloatConst | Opcode::JumpIfFalse | Opcode::ListAssign | Opcode::LogicalAndOld | Opcode::LongConst | Opcode::ModuleConstructor | Opcode::ObjectSelector | Opcode::Require | Opcode::StaticDefine | Opcode::Throw | Opcode::UnaryAssignOperator | Opcode::VariablePush | Opcode::ShortConst => Self::decode_group0(cursor, opcode, adhoc_version),
            Opcode::ArrayConst | Opcode::AssignOld | Opcode::BinaryAssignOperator | Opcode::CallOld | Opcode::ElementEval | Opcode::Import | Opcode::JumpIfNil | Opcode::ListAssignOld | Opcode::LogicalOptional | Opcode::MapConst | Opcode::ModuleDefine | Opcode::Pop | Opcode::SetState | Opcode::StringConst | Opcode::TryCatch | Opcode::UnaryOperator | Opcode::VoidConst | Opcode::UShortConst => Self::decode_group1(cursor, opcode, adhoc_version),
            Opcode::ArrayPush | Opcode::AttributeDefine | Opcode::BinaryOperator | Opcode::ClassDefine | Opcode::ElementPush | Opcode::IntConst | Opcode::JumpIfTrue | Opcode::LocalDefine | Opcode::LogicalOr | Opcode::MapConstOld | Opcode::NilConst | Opcode::PopOld | Opcode::SetStateOld | Opcode::StringPush | Opcode::UIntConst | Opcode::VaCall | Opcode::ByteConst | Opcode::IteratorNext => Self::decode_group2(cursor, opcode, adhoc_version),
            Opcode::Assign | Opcode::AttributeEval | Opcode::BoolConst | Opcode::DelegateDefine | Opcode::Eval | Opcode::Jump | Opcode::Leave | Opcode::LogicalAnd | Opcode::LogicalOrOld | Opcode::MapInsert | Opcode::Nop | Opcode::Print | Opcode::SourceFile | Opcode::SymbolConst | Opcode::ULongConst | Opcode::VariableEval | Opcode::UByteConst => Self::decode_group3(cursor, opcode, adhoc_version),
            Opcode::FunctionConst | Opcode::FunctionDefine | Opcode::MethodConst | Opcode::MethodDefine => Self::decode_frame_group(cursor, opcode, child_frames, adhoc_version, opcodes),
        }
    }
}
impl Loader {
    /// Reads one instruction at the cursor (see `insn_step`): its source line, and the
    /// instruction unless reading stopped; a code frame nested in it is added to
    /// `child_frames`.
    #[verifier::rlimit(60)]
    fn read_one(
        cursor: &mut Cursor,
        has_debug: bool,
        adhoc_version: u8,
        opcodes: &[Option<Opcode>],
        child_frames: &mut Vec<CodeFrame>,
    ) -> (r: (i32, Option<Instruction>))
        requires
            old(cursor).wf(),
        ensures
            final(cursor).wf(),
            final(cursor).bytes() == old(cursor).bytes(),
            final(cursor).table() == old(cursor).table(),
            old(cursor).pos() <= final(cursor).pos(),
            match insn_step(old(cursor).bytes(), old(cursor).pos(), old(cursor).table(), has_debug, adhoc_version, opcodes@) {
                InsnStep::Stop(line, q) => r.0 == line && r.1 is None && final(cursor).pos() == q
                    && final(child_frames)@ == old(child_frames)@,
                InsnStep::Go(line, v, fo, q) => r.0 == line && (r.1 matches Some(i) && insn_view(i) == v)
                    && final(cursor).pos() == q && match fo {
                    None => final(child_frames)@ == old(child_frames)@,
                    Some(f) => frames_view(final(child_frames)@) == frames_view(old(child_frames)@).push(f),
                },
            },
        decreases old(cursor).bytes().len() - old(cursor).pos(), 2int,
    {
        proof {
            cursor.lemma_pos_in_bytes();
        }
        let ghost d = cursor.bytes();
        let ghost p = cursor.pos();
        let line: i32 = if has_debug {
            match cursor.read_u32() {
                Ok(v) => v as i32,
                Err(_) => 0,
            }
        } else {
            0
        };
        let ghost p1 = cursor.pos();
        assert((line, p1) == (if has_debug { i32_or(d, p) } else { (0i32, p) }));
        let opcode_byte = match cursor.read_u8() {
            Ok(b) => b,
            Err(_) => return (line, None),
        };
        let opcode = if (opcode_byte as usize) < opcodes.len() {
            opcodes[opcode_byte as usize]
        } else {
            None
        };
        let op = match opcode {
            Some(op) => op,
            None => return (line, None),
        };
        let ghost p2 = cursor.pos();
        assert(byte_at(d, p1) == Ok::<(u8, int), int>((opcode_byte, p2)));
        match Self::decode_instruction(cursor, &op, child_frames, adhoc_version, opcodes) {
            Ok(i) => {
                proof {
                    cursor.lemma_pos_in_bytes();
                }
                (line, Some(i))
            },
            Err(_) => (line, None),
        }
    }

    /// Reads the instructions of a frame whose header is given (see `insns_from`), at
    /// most 100000 of them, into a code frame.
    #[verifier::spinoff_prover]
    #[verifier::rlimit(100)]
    fn read_instructions(
        cursor: &mut Cursor,
        has_debug: bool,
        insn_count: i32,
        stack_size: i32,
        local_var_count: i32,
        static_var_count: i32,
        param_count: i32,
        param_names: Vec<String>,
        adhoc_version: u8,
        opcodes: &[Option<Opcode>],
    ) -> (r: Result<CodeFrame, String>)
        requires
            old(cursor).wf(),
        ensures
            final(cursor).wf(),
            final(cursor).bytes() == old(cursor).bytes(),
            final(cursor).table() == old(cursor).table(),
            old(cursor).pos() <= final(cursor).pos(),
            r matches Ok(f) && ({
                let s = insns_from(
                    old(cursor).bytes(),
                    old(cursor).pos(),
                    old(cursor).table(),
                    has_debug,
                    adhoc_version,
                    opcodes@,
                    held_count(insn_count, 100000),
                );
                &&& frame_view(f) == FrameV {
                    has_debug,
                    adhoc_version,
                    param_count,
                    param_names: param_names@.map_values(|s: String| s@),
                    stack_size,
                    local_var_count,
                    static_var_count,
                    instructions: s.0,
                    child_frames: s.2,
                    instruction_lines: s.1,
                }
                &&& final(cursor).pos() == s.3
            }),
        decreases old(cursor).bytes().len() - old(cursor).pos(), 3int,
    {
        proof {
            cursor.lemma_pos_in_bytes();
        }
        let safe = held(insn_count, 100000);
        let ghost d = cursor.bytes();
        let ghost table = cursor.table();
        let ghost start = cursor.pos();
        let ghost ops = opcodes@;
        let ghost total = insns_from(d, start, table, has_debug, adhoc_version, ops, safe as nat);
        let mut instructions: Vec<Instruction> = Vec::new();
        let mut instruction_lines: Vec<i32> = Vec::new();
        let mut child_frames: Vec<CodeFrame> = Vec::new();
        let mut k: usize = 0;
        loop
            invariant_except_break
                k <= safe,
                cursor.wf(),
                cursor.bytes() == d,
                cursor.table() == table,
                d == old(cursor).bytes(),
                table == old(cursor).table(),
                start == old(cursor).pos(),
                ops == opcodes@,
                start <= cursor.pos(),
                total == insns_from(d, start, table, has_debug, adhoc_version, ops, safe as nat),
                instructions@.map_values(|i: Instruction| insn_view(i)) + insns_from(d, cursor.pos(), table, has_debug, adhoc_version, ops, (safe - k) as nat).0 == total.0,
                instruction_lines@ + insns_from(d, cursor.pos(), table, has_debug, adhoc_version, ops, (safe - k) as nat).1 == total.1,
                frames_view(child_frames@) + insns_from(d, cursor.pos(), table, has_debug, adhoc_version, ops, (safe - k) as nat).2 == total.2,
                insns_from(d, cursor.pos(), table, has_debug, adhoc_version, ops, (safe - k) as nat).3 == total.3,
            ensures
                cursor.wf(),
                cursor.bytes() == d,
                cursor.table() == table,
                start <= cursor.pos(),
                instructions@.map_values(|i: Instruction| insn_view(i)) == total.0,
                instruction_lines@ == total.1,
                frames_view(child_frames@) == total.2,
                cursor.pos() == total.3,
            decreases safe - k,
        {
            proof {
                cursor.lemma_pos_in_bytes();
            }
            let ghost p = cursor.pos();
            let ghost iv = instructions@.map_values(|i: Instruction| insn_view(i));
            let ghost lv = instruction_lines@;
            let ghost fv = frames_view(child_frames@);
            let ghost rest = insns_from(d, p, table, has_debug, adhoc_version, ops, (safe - k) as nat);
            if k >= safe {
                assert(iv + Seq::<InsnV>::empty() =~= iv);
                assert(lv + Seq::<i32>::empty() =~= lv);
                assert(fv + Seq::<FrameV>::empty() =~= fv);
                break;
            }
            let ghost step = insn_step(d, p, table, has_debug, adhoc_version, ops);
            let (line, insn) = Self::read_one(cursor, has_debug, adhoc_version, opcodes, &mut child_frames);
            instruction_lines.push(line);
            match insn {
                None => {
                    assert(iv + Seq::<InsnV>::empty() =~= iv);
                    assert(instruction_lines@ =~= lv + seq![line]);
                    assert(frames_view(child_frames@) + Seq::<FrameV>::empty() =~= fv);
                    break;
                },
                Some(i) => {
                    let ghost ins_v = insn_view(i);
                    instructions.push(i);
                    k = k + 1;
                    proof {
                        cursor.lemma_pos_in_bytes();
                        let next = insns_from(d, cursor.pos(), table, has_debug, adhoc_version, ops, (safe - k) as nat);
                        assert(instructions@.map_values(|i: Instruction| insn_view(i)) =~= iv.push(ins_v));
                        assert(instruction_lines@ =~= lv.push(line));
                        if let InsnStep::Go(l, v, fo, q) = step {
                            assert(rest.0 == seq![v] + next.0);
                            assert(iv.push(ins_v) + next.0 =~= iv + (seq![v] + next.0));
                            assert(lv.push(line) + next.1 =~= lv + (seq![line] + next.1));
                            if let Some(f) = fo {
                                assert(fv.push(f) + next.2 =~= fv + (seq![f] + next.2));
                            }
                        }
                    }
                },
            }
        }
        Ok(CodeFrame {
            has_debug,
            adhoc_version,
            param_count,
            param_names,
            stack_size,
            local_var_count,
            static_var_count,
            instructions,
            child_frames,
            instruction_lines,
        })
    }

    /// Reads the code frame at the cursor (see `frame_at`); it always succeeds.
    #[verifier::spinoff_prover]
    #[verifier::rlimit(100)]
    pub fn read_code_frame(cursor: &mut Cursor, parent_version: u8, opcodes: &[Option<Opcode>]) -> (r: Result<
        CodeFrame,
        String,
    >)
        requires
            old(cursor).wf(),
        ensures
            final(cursor).wf(),
            final(cursor).bytes() == old(cursor).bytes(),
            final(cursor).table() == old(cursor).table(),
            old(cursor).pos() <= final(cursor).pos(),
            r matches Ok(f) && ({
                let fr = frame_at(old(cursor).bytes(), old(cursor).pos(), old(cursor).table(), parent_version, opcodes@);
                &&& frame_view(f) == fr.0
                &&& final(cursor).pos() == fr.1
            }),
        decreases old(cursor).bytes().len() - old(cursor).pos(), 4int,
    {
        proof {
            cursor.lemma_pos_in_bytes();
        }
        let ghost d = cursor.bytes();
        let ghost table = cursor.table();
        let ghost pos = cursor.pos();
        let (has_debug, adhoc_version) = if parent_version >= 8 {
            let hd = match cursor.read_bool() {
                Ok(b) => b,
                Err(_) => true,
            };
            let ver = match cursor.read_u8() {
                Ok(v) => v,
                Err(_) => 12,
            };
            (hd, ver)
        } else {
            let ver = match cursor.read_u8() {
                Ok(v) => v,
                Err(_) => 12,
            };
            (true, ver)
        };
        let ghost p1 = cursor.pos();
        proof {
            cursor.lemma_pos_in_bytes();
            let t = if parent_version >= 8 {
                let (hh, a) = bool_or(d, pos, true);
                let (v, b) = u8_or(d, a, 12);
                (hh, v, b)
            } else {
                let (v, b) = u8_or(d, pos, 12);
                (true, v, b)
            };
            assert(t == (has_debug, adhoc_version, p1));
        }
        if adhoc_version >= 8 {
            if adhoc_version != 8 && has_debug {
                if let Ok(sym_idx) = cursor.read_varint() {
                    let _src_file = cursor.get_symbol(sym_idx as usize);
                }
            }
        } else {
            if let Ok(sym_idx) = cursor.read_varint() {
                let _src_file = cursor.get_symbol(sym_idx as usize);
            }
        }
        if adhoc_version >= 12 {
            let _has_rest = cursor.read_bool();
        }
        let ghost p3 = cursor.pos();
        let ghost (h, e) = frame_header(d, pos, table, parent_version);
        assert(p3 == if adhoc_version >= 12 {
            bool_or(d, if adhoc_version >= 8 {
                if adhoc_version != 8 && has_debug { varint_end(d, p1) } else { p1 }
            } else {
                varint_end(d, p1)
            }, false).1
        } else {
            if adhoc_version >= 8 {
                if adhoc_version != 8 && has_debug { varint_end(d, p1) } else { p1 }
            } else {
                varint_end(d, p1)
            }
        });
        if adhoc_version >= 8 {
            let pc_raw = match cursor.read_u32() {
                Ok(v) => v,
                Err(_) => 0,
            };
            let ghost a = cursor.pos();
            assert((pc_raw, a) == u32_or(d, p3));
            let param_count = pc_raw as i32;
            let param_names = Self::read_params_new(cursor, held(param_count, 10000));
            let ghost b = cursor.pos();
            assert((param_names@.map_values(|s: String| s@), b) == params_new(d, a, held_count(pc_raw as i32, 10000)));
            let cc_raw = match cursor.read_u32() {
                Ok(v) => v,
                Err(_) => 0,
            };
            let ghost c = cursor.pos();
            assert((cc_raw, c) == u32_or(d, b));
            let captured_count = cc_raw as i32;
            Self::skip_captured(cursor, held(captured_count, 1000));
            let _unk_stack_idx = cursor.read_u32();
            let stack_size = match cursor.read_i32() {
                Ok(v) => v,
                Err(_) => 0,
            };
            let local_var_count = match cursor.read_i32() {
                Ok(v) => v,
                Err(_) => 0,
            };
            let static_var_count = match cursor.read_i32() {
                Ok(v) => v,
                Err(_) => 0,
            };
            let insn_count = match cursor.read_u32() {
                Ok(v) => v,
                Err(_) => 0,
            } as i32;
            proof {
                cursor.lemma_pos_in_bytes();
            }
            assert(h.param_names == param_names@.map_values(|s: String| s@));
            assert(e == cursor.pos());
            Self::read_instructions(
                cursor,
                has_debug,
                insn_count,
                stack_size,
                local_var_count,
                static_var_count,
                param_count,
                param_names,
                adhoc_version,
                opcodes,
            )
        } else {
            let _code_size = cursor.read_i32();
            let ghost a = cursor.pos();
            assert(a == i32_or(d, p3).1);
            let insn_count = match cursor.read_i32() {
                Ok(v) => v,
                Err(_) => 0,
            };
            let ghost b = cursor.pos();
            assert((insn_count, b) == i32_or(d, a));
            let param_count = match cursor.read_i32() {
                Ok(v) => v,
                Err(_) => 0,
            };
            let ghost c = cursor.pos();
            assert((param_count, c) == i32_or(d, b));
            let param_names = Self::read_params_old(cursor, held(param_count, 10000));
            let stack_size = match cursor.read_i32() {
                Ok(v) => v,
                Err(_) => 0,
            };
            let local_var_count = match cursor.read_i32() {
                Ok(v) => v,
                Err(_) => 0,
            };
            proof {
                cursor.lemma_pos_in_bytes();
            }
            assert(h.param_names == param_names@.map_values(|s: String| s@));
            assert(e == cursor.pos());
            Self::read_instructions(
                cursor,
                true,
                insn_count,
                stack_size,
                local_var_count,
                0,
                param_count,
                param_names,
                adhoc_version,
                opcodes,
            )
        }
    }

    /// Reads a whole `.adc` file (see `code_file`): its head, then its root code frame.
    /// `opcodes` names the operation of each byte value (a byte past its end names none).
    pub fn load(data: &[u8], opcodes: &[Option<Opcode>]) -> (r: Result<CodeFrame, String>)
        ensures
            match code_file(data@, opcodes@) {
                Ok(fv) => r matches Ok(f) && frame_view(f) == fv,
                Err(e) => r matches Err(x) && x@ == e,
            },
    {
        let mut cursor = Cursor::new(data);
        match Self::read_header(&mut cursor) {
            Ok(_) => {},
            Err(e) => return Err(e),
        }
        Self::read_code_frame(&mut cursor, 12, opcodes)
    }
}

} // verus!
