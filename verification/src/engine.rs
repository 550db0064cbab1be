//! The interpreter step of the bytecode machine: what one decoded instruction does to
//! the running call frame (its operand stack, locals and registers), to the statics and
//! to the table of static slots by name.
use vstd::prelude::*;
use std::rc::Rc;
use vstd::string::StrSliceExecFns;
use vstd::string::StringExecFns;
use crate::decode::{insn_view, CodeFrame, InsnV, Instruction};
use crate::frame::{pop_of, Frame};
use crate::native::NativeRegistry;
use crate::ops::{bin_op, bin_op_of, binary_op, binary_op_overflows, binary_op_result, values_equal, values_equal_of, BinOp};
use crate::storage::{empty_cells, put_fixed, put_growing, slot, StaticStorage};
use crate::text::{decimal_text, is_prefix, str_eq};
use crate::ui::chars_of;
use crate::value::{as_i32_of, truthy_of, value_text, ObjectInstance, Value};
use crate::text::push_decimal;
use crate::vm::{FrameState, FunctionValue, ModuleRegistry, StorageKind};

verus! {

/// What running an instruction tells the loop that runs a frame.
pub enum FrameAction<V> {
    Continue,
    Return(V),
    Exit,
    Yield,
}

/// A call frame's state as values.
pub struct CallV<V> {
    pub locals: Seq<Option<V>>,
    pub ip: i32,
    pub frame_index: usize,
    pub stack: Seq<V>,
    pub return_value: Option<V>,
    pub state: FrameState,
    pub try_catch_target: Option<i32>,
    pub static_base: usize,
    pub local_def_counter: usize,
    pub var_index: i32,
    pub var_static: bool,
    pub switch_value: Option<V>,
    pub switch_default: Option<i32>,
    pub switch_remaining: usize,
}

/// The state of a call frame.
pub open spec fn call_view<V>(f: Frame<V>) -> CallV<V> {
    CallV {
        locals: f.locals.cells(),
        ip: f.instruction_ptr,
        frame_index: f.frame_index,
        stack: f.stack@,
        return_value: f.return_value,
        state: f.state,
        try_catch_target: f.try_catch_target,
        static_base: f.static_base,
        local_def_counter: f.local_def_counter,
        var_index: f.last_var_push_index,
        var_static: f.last_var_push_static,
        switch_value: f.switch_value,
        switch_default: f.switch_default,
        switch_remaining: f.switch_remaining,
    }
}

/// The machine's state as values: its call frames, statics, static slots by name, the
/// next free static slot, the modules being run (innermost last), the global functions
/// by name, and the native paths it knows.
#[verifier::ext_equal]
pub struct MachineV<N> {
    pub frames: Seq<CallV<Value<N>>>,
    pub statics: Seq<Option<Value<N>>>,
    pub bases: Seq<(Seq<char>, usize)>,
    pub next_slot: usize,
    pub modules: Seq<Seq<char>>,
    pub globals: Seq<(Seq<char>, Rc<FunctionValue>)>,
    pub natives: Set<Seq<char>>,
}

/// The bytecode machine's running state.
pub struct Engine<N, F> {
    pub modules: ModuleRegistry<Value<N>, CodeFrame>,
    pub natives: NativeRegistry<F>,
    pub static_storage: StaticStorage<Value<N>>,
    pub call_stack: Vec<Frame<Value<N>>>,
    pub module_stack: Vec<String>,
    pub global_functions: Vec<(String, Rc<FunctionValue>)>,
    pub module_static_bases: Vec<(String, usize)>,
    pub next_static_slot: usize,
    /// Where the statics of the next loaded code frame start.
    pub current_module_index: usize,
    /// The instructions run so far, and the most that may run.
    pub insn_count: u64,
    pub max_instructions: u64,
}

/// The parts of the engine that running an instruction leaves alone: the code, the
/// natives, the instruction count and limit, and where the next statics start.
pub open spec fn rest_same<N, F>(a: Engine<N, F>, b: Engine<N, F>) -> bool {
    &&& a.modules == b.modules
    &&& a.natives == b.natives
    &&& a.insn_count == b.insn_count
    &&& a.max_instructions == b.max_instructions
    &&& a.current_module_index == b.current_module_index
}

impl<N, F> Engine<N, F> {
    /// The machine's state.
    pub open spec fn machine(&self) -> MachineV<N> {
        MachineV {
            frames: self.call_stack@.map_values(|f: Frame<Value<N>>| call_view(f)),
            statics: self.static_storage.cells(),
            bases: self.module_static_bases@.map_values(|e: (String, usize)| (e.0@, e.1)),
            next_slot: self.next_static_slot,
            modules: self.module_stack@.map_values(|s: String| s@),
            globals: self.global_functions@.map_values(|e: (String, Rc<FunctionValue>)| (e.0@, e.1)),
            natives: Set::new(
                |p: Seq<char>|
                    self.natives.table().dom().contains(p) || exists|j: int|
                        0 <= j < self.natives.fallbacks().len() && is_prefix(
                            #[trigger] self.natives.fallbacks()[j].0,
                            p,
                        ),
            ),
        }
    }
}

/// A value as a stack slot gives it: nil for nothing.
pub open spec fn nil_or<N>(o: Option<Value<N>>) -> Value<N> {
    match o {
        Some(v) => v,
        None => Value::Nil,
    }
}

/// The frame with `v` pushed.
pub open spec fn pushed<V>(c: CallV<V>, v: V) -> CallV<V> {
    CallV { stack: c.stack.push(v), ..c }
}

/// The value a pop gives (nil from an empty stack) and the frame after it.
pub open spec fn popped<N>(c: CallV<Value<N>>) -> (Value<N>, CallV<Value<N>>) {
    (nil_or(pop_of(c.stack).0), CallV { stack: pop_of(c.stack).1, ..c })
}

/// The values that `n` pops give, in stack order (the first popped last), and the
/// frame after them.
pub open spec fn popped_n<N>(c: CallV<Value<N>>, n: nat) -> (Seq<Value<N>>, CallV<Value<N>>)
    decreases n,
{
    if n == 0 {
        (Seq::empty(), c)
    } else {
        let (v, c1) = popped(c);
        let (vs, c2) = popped_n(c1, (n - 1) as nat);
        (vs.push(v), c2)
    }
}

/// The frame with its instruction pointer at `t`.
pub open spec fn jumped<V>(c: CallV<V>, t: i32) -> CallV<V> {
    CallV { ip: t, ..c }
}

/// The machine with frame `fi` replaced.
pub open spec fn with_frame<N>(m: MachineV<N>, fi: int, c: CallV<Value<N>>) -> MachineV<N> {
    MachineV { frames: m.frames.update(fi, c), ..m }
}

/// The index of the first entry at or after `i` whose name is `name`.
pub open spec fn key_from<T>(es: Seq<(Seq<char>, T)>, name: Seq<char>, i: int) -> Option<int>
    decreases es.len() - i,
{
    if i < 0 || i >= es.len() {
        None
    } else if es[i].0 == name {
        Some(i)
    } else {
        key_from(es, name, i + 1)
    }
}

/// What the first entry named `name` holds.
pub open spec fn entry_of<T>(es: Seq<(Seq<char>, T)>, name: Seq<char>) -> Option<T> {
    match key_from(es, name, 0) {
        Some(i) => Some(es[i].1),
        None => None,
    }
}

/// The entries with `name` set to `v`: the first entry so named is replaced, or the
/// entry is added at the end.
pub open spec fn entry_put<T>(es: Seq<(Seq<char>, T)>, name: Seq<char>, v: T) -> Seq<(Seq<char>, T)> {
    match key_from(es, name, 0) {
        Some(i) => es.update(i, (name, v)),
        None => es.push((name, v)),
    }
}

/// The last name of a list, or the empty name.
pub open spec fn last_name(s: Seq<Seq<char>>) -> Seq<char> {
    if s.len() == 0 {
        Seq::empty()
    } else {
        s.last()
    }
}

/// The static slot a variable with these names has by name: its last name's, else its
/// first name's.
pub open spec fn named_slot(bases: Seq<(Seq<char>, usize)>, symbols: Seq<Seq<char>>) -> Option<usize> {
    match entry_of(bases, last_name(symbols)) {
        Some(a) => Some(a),
        None => if symbols.len() > 0 {
            entry_of(bases, symbols[0])
        } else {
            None
        },
    }
}

/// What reading a variable gives: a static by its slot by name, else by `index`; a
/// local by `index`.
pub open spec fn var_value<N>(m: MachineV<N>, c: CallV<Value<N>>, symbols: Seq<Seq<char>>, kind: StorageKind, index: i32) -> Value<N> {
    if kind == StorageKind::Static {
        match named_slot(m.bases, symbols) {
            Some(a) => nil_or(slot(m.statics, (a as i32) as int)),
            None => nil_or(slot(m.statics, index as int)),
        }
    } else {
        nil_or(slot(c.locals, index as int))
    }
}

/// Whether `n` occurs in `h` as a run of characters.
pub open spec fn contains_text(h: Seq<char>, n: Seq<char>) -> bool {
    exists|i: int| 0 <= i && i + n.len() <= h.len() && #[trigger] h.subrange(i, i + n.len()) == n
}

/// The index of the first module path at or after `i` that contains `sym`.
pub open spec fn module_from(ms: Seq<Seq<char>>, sym: Seq<char>, i: int) -> Option<int>
    decreases ms.len() - i,
{
    if i < 0 || i >= ms.len() {
        None
    } else if contains_text(ms[i], sym) {
        Some(i)
    } else {
        module_from(ms, sym, i + 1)
    }
}

/// The native namespaces a bare name is looked for in, in order.
pub open spec fn native_prefixes() -> Seq<Seq<char>> {
    seq!["main,pdiext,"@, "main,pdistd,"@, "main,gtengine,"@, "main,menu,"@, "main,pdiapp,"@]
}

/// The first native path at or after prefix `i` that the machine knows for `sym`.
pub open spec fn native_from(known: Set<Seq<char>>, sym: Seq<char>, i: int) -> Option<Seq<char>>
    decreases 5 - i,
{
    if i < 0 || i >= 5 {
        None
    } else if known.contains(native_prefixes()[i] + sym) {
        Some(native_prefixes()[i] + sym)
    } else {
        native_from(known, sym, i + 1)
    }
}

/// What a variable read names when it reads nil or names a global function: the global
/// function named by its first name; else for a nil read, the current module for
/// `__module__`, the first module path containing the name, or the first native
/// namespace that knows it. `Ok` with a value, `Err` with the class path of a new
/// object, `None` to keep what was read.
pub open spec fn resolved<N>(m: MachineV<N>, symbols: Seq<Seq<char>>, v: Value<N>) -> Option<Result<Value<N>, Seq<char>>> {
    if symbols.len() == 0 {
        None
    } else {
        let sym = symbols[0];
        match entry_of(m.globals, sym) {
            Some(f) => Some(Ok(Value::Function(f))),
            None => if !(v is Nil) {
                None
            } else if sym == "__module__"@ {
                if m.modules.len() > 0 {
                    Some(Err(m.modules.last()))
                } else {
                    None
                }
            } else {
                match module_from(m.modules, sym, 0) {
                    Some(j) => Some(Err(m.modules[j])),
                    None => match native_from(m.natives, sym, 0) {
                        Some(p) => Some(Err(p)),
                        None => None,
                    },
                }
            },
        }
    }
}

/// Whether `v` is a new object of the class `path` with no fields.
pub open spec fn is_object_of<N>(v: Value<N>, path: Seq<char>) -> bool {
    v matches Value::Object(o) && (*o).class_path@ == path && (*o).fields@.len() == 0
}

/// The text after the last comma of `s` (all of it when it has none).
pub open spec fn after_last_comma(s: Seq<char>) -> Seq<char>
    decreases s.len(),
{
    if s.len() == 0 {
        s
    } else if s.last() == ',' {
        Seq::empty()
    } else {
        after_last_comma(s.drop_last()).push(s.last())
    }
}

/// The static slots by name after defining `name` at the next slot: the name itself and,
/// inside a module, the module's short name, `::` and the name.
pub open spec fn defined_bases<N>(m: MachineV<N>, name: Seq<char>) -> Seq<(Seq<char>, usize)> {
    let b1 = entry_put(m.bases, name, m.next_slot);
    if m.modules.len() > 0 {
        entry_put(b1, after_last_comma(m.modules.last()) + "::"@ + name, m.next_slot)
    } else {
        b1
    }
}

/// The top of frame `fi`'s stack.
pub open spec fn top_at<N>(m: MachineV<N>, fi: int) -> Value<N> {
    m.frames[fi].stack.last()
}

/// `m1` is `m0` with a new value pushed on frame `fi` (`c` with it on top).
pub open spec fn pushes_new<N>(m0: MachineV<N>, fi: int, c: CallV<Value<N>>, m1: MachineV<N>) -> bool {
    m1 == with_frame(m0, fi, pushed(c, top_at(m1, fi)))
}

/// The texts of `vs`, one after another; `None` where one has no text the library
/// computes (see `value_text`).
pub open spec fn joined_text<N>(vs: Seq<Value<N>>) -> Option<Seq<char>>
    decreases vs.len(),
{
    if vs.len() == 0 {
        Some(Seq::empty())
    } else {
        match (joined_text(vs.drop_last()), value_text(vs.last())) {
            (Some(a), Some(b)) => Some(a + b),
            _ => None,
        }
    }
}

/// What looking `key` up in the pairs from `i` on gives: `Some(Some(v))` for the value
/// of the first key equal to it, `Some(None)` when none is, `None` where an equality on
/// the way is one the library does not decide (see `values_equal_of`).
pub open spec fn dict_find<N>(es: Seq<(Value<N>, Value<N>)>, key: Value<N>, i: int) -> Option<Option<Value<N>>>
    decreases es.len() - i,
{
    if i < 0 || i >= es.len() {
        Some(None)
    } else {
        match values_equal_of(es[i].0, key) {
            None => None,
            Some(true) => Some(Some(es[i].1)),
            Some(false) => dict_find(es, key, i + 1),
        }
    }
}

/// What indexing `obj` with `key` gives: an array's element at the key's integer (0
/// for a key that is not one), nil outside it; a map's value for the key, nil without
/// one; nil for any other value. `None` where the map lookup is undecided.
pub open spec fn element_of<N>(obj: Value<N>, key: Value<N>) -> Option<Value<N>> {
    match obj {
        Value::Array(a) => {
            let k = match as_i32_of(key) {
                Some(k) => k as int,
                None => 0,
            };
            if 0 <= k < (*a)@.len() {
                Some((*a)@[k])
            } else {
                Some(Value::Nil)
            }
        },
        Value::Dict(d) => match dict_find((*d)@, key, 0) {
            None => None,
            Some(found) => Some(nil_or(found)),
        },
        _ => Some(Value::Nil),
    }
}

/// Whether the operator text names negation, logical not or bitwise not.
pub open spec fn is_neg_op(op: Seq<char>) -> bool {
    op == "-@"@ || op == "__uminus__"@
}

/// Whether `op` names logical not.
pub open spec fn is_not_op(op: Seq<char>) -> bool {
    op == "!"@ || op == "__not__"@
}

/// Whether `op` names bitwise not.
pub open spec fn is_invert_op(op: Seq<char>) -> bool {
    op == "~"@ || op == "__invert__"@
}

/// What the unary operator `op` gives for `a`: negation (of a 32-bit integer, or a
/// 32-bit float by its sign bit; 0 otherwise), logical not of its truthiness, bitwise
/// not of a 32-bit integer (0 otherwise), or `a` itself for any other operator.
pub open spec fn unary_result<N>(op: Seq<char>, a: Value<N>) -> Value<N> {
    if is_neg_op(op) {
        match a {
            Value::Int(i) => Value::Int((-i) as i32),
            Value::Float(f) => Value::Float(f ^ 0x8000_0000u32),
            _ => Value::Int(0),
        }
    } else if is_not_op(op) {
        Value::Bool(!truthy_of(a))
    } else if is_invert_op(op) {
        match a {
            Value::Int(i) => Value::Int(!i),
            _ => Value::Int(0),
        }
    } else {
        a
    }
}

/// Whether `r` is what the binary operator named `op` gives (see `binary_op`).
pub open spec fn binary_ok<N>(a: Value<N>, b: Value<N>, op: Seq<char>, r: Option<Value<N>>) -> bool {
    match bin_op_of(op) {
        Some(o) => binary_op_result(a, b, o, r),
        None => r == Some(Value::<N>::Nil),
    }
}

/// The inputs on which an instruction runs without overflow: a static definition needs
/// a free slot number, a write-back to a static a slot that is not negative, a string
/// join a count that is not negative, a negation not the least 32-bit integer, and a
/// binary operator operands it does not overflow on.
pub open spec fn insn_fits<N>(m: MachineV<N>, fi: int, i: InsnV) -> bool {
    let c = m.frames[fi];
    match i {
        InsnV::StaticDefine { .. } => m.next_slot < usize::MAX,
        InsnV::AssignPop => c.var_static ==> c.var_index >= 0,
        InsnV::Assign { .. } => c.var_static ==> c.var_index >= 0,
        InsnV::StringPush { count } => count >= 0,
        InsnV::UnaryOperator { op } => is_neg_op(op) ==> !(popped(c).0 matches Value::Int(x) && x == i32::MIN),
        InsnV::BinaryOperator { op } => {
            let (b, c1) = popped(c);
            let a = popped(c1).0;
            bin_op_of(op) matches Some(o) ==> !binary_op_overflows(a, b, o)
        },
        InsnV::Case { value, .. } => !case_matches(c, value) ==> c.switch_remaining > 0,
        _ => true,
    }
}

/// Whether the frame's switch value is a 32-bit integer equal to `value`.
pub open spec fn case_matches<N>(c: CallV<Value<N>>, value: i32) -> bool {
    c.switch_value matches Some(sv) && as_i32_of(sv) == Some(value)
}

/// The frame after a case of its switch (see `Case`): a match jumps to the case and
/// ends the switch; otherwise one case fewer is left, and after the last the switch ends
/// at its default target (if it has one).
pub open spec fn after_case<N>(c: CallV<Value<N>>, value: i32, target: i32) -> CallV<Value<N>> {
    if case_matches(c, value) {
        CallV { ip: target, switch_value: None, switch_remaining: 0, ..c }
    } else if c.switch_remaining == 1 {
        CallV {
            ip: match c.switch_default {
                Some(d) => d,
                None => c.ip,
            },
            switch_value: None,
            switch_remaining: 0,
            ..c
        }
    } else {
        CallV { switch_remaining: (c.switch_remaining - 1) as usize, ..c }
    }
}

/// Whether `i` makes a constant, reads, defines or assigns a variable.
pub open spec fn is_data_insn(i: InsnV) -> bool {
    ||| i is NilConst
    ||| i is VoidConst
    ||| i is BoolConst
    ||| i is IntConst
    ||| i is UIntConst
    ||| i is FloatConst
    ||| i is DoubleConst
    ||| i is LongConst
    ||| i is StringConst
    ||| i is SymbolConst
    ||| i is VariablePush
    ||| i is VariableEval
    ||| i is StaticDefine
    ||| i is AttributeDefine
    ||| i is AssignPop
    ||| i is Assign
    ||| i is AssignOld
    ||| i is BinaryAssignOperator
}

/// Whether `i` builds or extends an array or map.
pub open spec fn is_build_insn(i: InsnV) -> bool {
    ||| i is ArrayConst
    ||| i is ArrayConstOld
    ||| i is ArrayPush
    ||| i is MapConst
    ||| i is MapConstOld
    ||| i is MapInsert
    ||| i is ElementPush
}

/// Whether `i` joins strings, reads or walks an array or map, or pops or re-pushes.
pub open spec fn is_walk_insn(i: InsnV) -> bool {
    ||| i is StringPush
    ||| i is Pop
    ||| i is PopOld
    ||| i is Eval
    ||| i is ObjectSelector
    ||| i is ElementEval
    ||| i is IteratorNext
}

/// What running instruction `i` in frame `fi` does: from `m0` the machine goes to `m1`,
/// and the frame loop is told `out`; `out` is `None`, with the machine unchanged, where
/// the step rests on float arithmetic or formatting, or on an equality the library does
/// not decide.
pub open spec fn step_ok<N>(m0: MachineV<N>, fi: int, i: InsnV, m1: MachineV<N>, out: Option<FrameAction<Value<N>>>) -> bool {
    let c = m0.frames[fi];
    let go = out == Some(FrameAction::<Value<N>>::Continue);
    let same = m1 == m0 && go;
    match i {
        InsnV::NilConst => go && m1 == with_frame(m0, fi, pushed(c, Value::Nil)),
        InsnV::VoidConst => go && m1 == with_frame(m0, fi, pushed(c, Value::Void)),
        InsnV::BoolConst { value } => go && m1 == with_frame(m0, fi, pushed(c, Value::Bool(value))),
        InsnV::IntConst { value } => go && m1 == with_frame(m0, fi, pushed(c, Value::Int(value))),
        InsnV::UIntConst { value } => go && m1 == with_frame(m0, fi, pushed(c, Value::UInt(value))),
        InsnV::FloatConst { value } => go && m1 == with_frame(m0, fi, pushed(c, Value::Float(value))),
        InsnV::DoubleConst { value } => go && m1 == with_frame(m0, fi, pushed(c, Value::Double(value))),
        InsnV::LongConst { value } => go && m1 == with_frame(m0, fi, pushed(c, Value::Long(value))),
        InsnV::StringConst { symbols } => go && pushes_new(m0, fi, c, m1) && (top_at(m1, fi) matches Value::Str(s)
            && (*s)@ == last_name(symbols)),
        InsnV::SymbolConst { symbol } => go && pushes_new(m0, fi, c, m1) && (top_at(m1, fi) matches Value::Symbol(s)
            && (*s)@ == symbol),
        InsnV::VariablePush { symbols, kind, index } => {
            let st = kind == StorageKind::Static;
            let slot_no = if st {
                match named_slot(m0.bases, symbols) {
                    Some(a) => a as i32,
                    None => index,
                }
            } else {
                index
            };
            go && m1 == with_frame(
                m0,
                fi,
                CallV { var_index: slot_no, var_static: st, ..pushed(c, var_value(m0, c, symbols, kind, index)) },
            )
        },
        InsnV::VariableEval { symbols, kind, index } => {
            let v = var_value(m0, c, symbols, kind, index);
            go && match resolved(m0, symbols, v) {
                None => m1 == with_frame(m0, fi, pushed(c, v)),
                Some(Ok(w)) => m1 == with_frame(m0, fi, pushed(c, w)),
                Some(Err(path)) => pushes_new(m0, fi, c, m1) && is_object_of(top_at(m1, fi), path),
            }
        },
        InsnV::StaticDefine { symbols } => go && m1 == MachineV {
            frames: m0.frames.update(fi, pushed(c, Value::Nil)),
            bases: defined_bases(m0, last_name(symbols)),
            next_slot: (m0.next_slot + 1) as usize,
            ..m0
        },
        InsnV::AttributeDefine { .. } => go && m1 == with_frame(m0, fi, pushed(popped(c).1, Value::Nil)),
        InsnV::AssignPop => {
            let (val, c1) = popped(c);
            let c2 = popped(c1).1;
            go && m1 == MachineV {
                frames: m0.frames.update(fi, pushed(c2, val)),
                statics: if c.var_static { put_growing(m0.statics, c.var_index as int, val) } else { m0.statics },
                ..m0
            }
        },
        InsnV::Assign { .. } => {
            let (val, c1) = popped(c);
            let c2 = popped(c1).1;
            if c.var_static {
                go && m1 == MachineV {
                    frames: m0.frames.update(fi, pushed(c2, val)),
                    statics: put_growing(m0.statics, c.var_index as int, val),
                    ..m0
                }
            } else {
                go && m1 == with_frame(
                    m0,
                    fi,
                    pushed(CallV { locals: put_fixed(c2.locals, c.var_index as int, val), ..c2 }, val),
                )
            }
        },
        InsnV::AssignOld { index, .. } => {
            let (val, c1) = popped(c);
            go && m1 == with_frame(m0, fi, pushed(CallV { locals: put_fixed(c1.locals, index as int, val), ..c1 }, val))
        },
        InsnV::BinaryAssignOperator { .. } => {
            let (val, c1) = popped(c);
            go && m1 == with_frame(m0, fi, pushed(c1, val))
        },
        InsnV::ArrayConst { count } => {
            let (vs, c1) = popped_n(c, count as nat);
            go && pushes_new(m0, fi, c1, m1) && (top_at(m1, fi) matches Value::Array(a) && (*a)@ == vs)
        },
        InsnV::ArrayConstOld { count } => {
            let (vs, c1) = popped_n(c, count as nat);
            go && pushes_new(m0, fi, c1, m1) && (top_at(m1, fi) matches Value::Array(a) && (*a)@ == vs)
        },
        InsnV::ArrayPush => {
            let (val, c1) = popped(c);
            let (arr, c2) = popped(c1);
            go && match arr {
                Value::Array(a) => pushes_new(m0, fi, c2, m1) && (top_at(m1, fi) matches Value::Array(b)
                    && (*b)@ == (*a)@.push(val)),
                _ => m1 == with_frame(m0, fi, pushed(c2, arr)),
            }
        },
        InsnV::MapConst => go && pushes_new(m0, fi, c, m1) && (top_at(m1, fi) matches Value::Dict(d) && (*d)@.len() == 0),
        InsnV::MapConstOld => go && pushes_new(m0, fi, c, m1) && (top_at(m1, fi) matches Value::Dict(d) && (*d)@.len()
            == 0),
        InsnV::MapInsert => {
            let (val, c1) = popped(c);
            let (key, c2) = popped(c1);
            let (map, c3) = popped(c2);
            go && match map {
                Value::Dict(d) => pushes_new(m0, fi, c3, m1) && (top_at(m1, fi) matches Value::Dict(e)
                    && (*e)@ == (*d)@.push((key, val))),
                _ => m1 == with_frame(m0, fi, pushed(c3, map)),
            }
        },
        InsnV::StringPush { count } => {
            let (vs, c1) = popped_n(c, count as nat);
            match joined_text(vs) {
                None => m1 == m0 && out is None,
                Some(t) => go && pushes_new(m0, fi, c1, m1) && (top_at(m1, fi) matches Value::Str(s) && (*s)@ == t),
            }
        },
        InsnV::Pop => go && m1 == with_frame(m0, fi, popped(c).1),
        InsnV::PopOld => go && m1 == with_frame(m0, fi, popped(c).1),
        InsnV::Eval => {
            let (v, c1) = popped(c);
            go && m1 == with_frame(m0, fi, pushed(c1, v))
        },
        InsnV::ObjectSelector { .. } => {
            let (key, c1) = popped(c);
            let (obj, c2) = popped(c1);
            match element_of(obj, key) {
                None => m1 == m0 && out is None,
                Some(v) => go && m1 == with_frame(m0, fi, pushed(c2, v)),
            }
        },
        InsnV::ElementEval => {
            let (key, c1) = popped(c);
            let (obj, c2) = popped(c1);
            match element_of(obj, key) {
                None => m1 == m0 && out is None,
                Some(v) => go && m1 == with_frame(m0, fi, pushed(c2, v)),
            }
        },
        InsnV::ElementPush => {
            let (val, c1) = popped(c);
            let (key, c2) = popped(c1);
            let (obj, c3) = popped(c2);
            go && match obj {
                Value::Array(a) => pushes_new(m0, fi, c3, m1) && (top_at(m1, fi) matches Value::Array(b)
                    && (*b)@ == (*a)@.push(val)),
                Value::Dict(d) => pushes_new(m0, fi, c3, m1) && (top_at(m1, fi) matches Value::Dict(e)
                    && (*e)@ == (*d)@.push((key, val))),
                _ => m1 == with_frame(m0, fi, pushed(c3, obj)),
            }
        },
        InsnV::UnaryOperator { op } => {
            let (a, c1) = popped(c);
            go && m1 == with_frame(m0, fi, pushed(c1, unary_result(op, a)))
        },
        InsnV::BinaryOperator { op } => {
            let (b, c1) = popped(c);
            let (a, c2) = popped(c1);
            ||| binary_ok(a, b, op, None) && m1 == m0 && out is None
            ||| go && pushes_new(m0, fi, c2, m1) && binary_ok(a, b, op, Some(top_at(m1, fi)))
        },
        InsnV::LogicalAnd { target } => {
            let (v, c1) = popped(c);
            go && m1 == with_frame(m0, fi, if !truthy_of(v) { jumped(pushed(c1, v), target) } else { c1 })
        },
        InsnV::LogicalAndOld { target } => {
            let (v, c1) = popped(c);
            go && m1 == with_frame(m0, fi, if !truthy_of(v) { jumped(pushed(c1, v), target) } else { c1 })
        },
        InsnV::LogicalOr { target } => {
            let (v, c1) = popped(c);
            go && m1 == with_frame(m0, fi, if truthy_of(v) { jumped(pushed(c1, v), target) } else { c1 })
        },
        InsnV::LogicalOrOld { target } => {
            let (v, c1) = popped(c);
            go && m1 == with_frame(m0, fi, if truthy_of(v) { jumped(pushed(c1, v), target) } else { c1 })
        },
        InsnV::Jump { target } => go && m1 == with_frame(m0, fi, jumped(c, target)),
        InsnV::JumpIfFalse { target } => {
            let (v, c1) = popped(c);
            go && m1 == with_frame(m0, fi, if !truthy_of(v) { jumped(c1, target) } else { c1 })
        },
        InsnV::JumpIfTrue { target } => {
            let (v, c1) = popped(c);
            go && m1 == with_frame(m0, fi, if truthy_of(v) { jumped(c1, target) } else { c1 })
        },
        InsnV::JumpIfNil { target } => {
            let (v, c1) = popped(c);
            go && m1 == with_frame(m0, fi, if v is Nil { jumped(c1, target) } else { c1 })
        },
        InsnV::SetState { state } => if state == 1 {
            let (ret, c1) = popped(c);
            out == Some(FrameAction::Return(ret)) && m1 == with_frame(m0, fi, CallV { state: FrameState::Returned, ..c1 })
        } else if state == 2 {
            out == Some(FrameAction::<Value<N>>::Yield) && m1 == with_frame(m0, fi, CallV { state: FrameState::Yielded, ..c })
        } else {
            same
        },
        InsnV::IteratorNext { target, var_index } => {
            let (arr, c1) = popped(c);
            go && match arr {
                Value::Array(a) => if (*a)@.len() == 0 {
                    m1 == with_frame(m0, fi, jumped(c1, target))
                } else {
                    pushes_new(m0, fi, CallV { locals: put_fixed(c1.locals, var_index as int, (*a)@[0]), ..c1 }, m1)
                        && (top_at(m1, fi) matches Value::Array(b) && (*b)@ == (*a)@.drop_first())
                },
                _ => m1 == with_frame(m0, fi, jumped(c1, target)),
            }
        },
        InsnV::Switch { default_target, case_count } => {
            let (v, c1) = popped(c);
            go && m1 == with_frame(
                m0,
                fi,
                CallV {
                    switch_value: Some(v),
                    switch_default: Some(default_target),
                    switch_remaining: case_count as usize,
                    ..c1
                },
            )
        },
        InsnV::Case { value, target } => go && m1 == with_frame(m0, fi, after_case(c, value, target)),
        InsnV::JumpUndefined { target } => {
            let v = popped(c).0;
            go && m1 == with_frame(m0, fi, if v is Nil || v is Void { jumped(c, target) } else { c })
        },
        InsnV::JumpDefined { target } => {
            let v = popped(c).0;
            go && m1 == with_frame(m0, fi, if !(v is Nil || v is Void) { jumped(c, target) } else { c })
        },
        InsnV::BigIntConst => go && m1 == with_frame(m0, fi, pushed(c, Value::Int(0))),
        InsnV::TemplateConst => go && pushes_new(m0, fi, c, m1) && (top_at(m1, fi) matches Value::Str(s) && (*s)@.len()
            == 0),
        _ => same,
    }
}

/// The unary operators on their operands: bitwise not (`~`, `__invert__`) of a 32-bit
/// integer `i` is `-(i + 1)`, negation (`-@`, `__uminus__`) is `-i`, and logical not
/// (`!`, `__not__`) is the opposite of the operand's truthiness.
pub proof fn lemma_unary_operators<N>(op: Seq<char>, i: i32, a: Value<N>)
    ensures
        (op == "~"@ || op == "__invert__"@) ==> unary_result(op, Value::<N>::Int(i)) == Value::<N>::Int(
            (-1 - i) as i32,
        ),
        (op == "-@"@ || op == "__uminus__"@) && i != i32::MIN ==> unary_result(op, Value::<N>::Int(i))
            == Value::<N>::Int((-i) as i32),
        (op == "!"@ || op == "__not__"@) ==> unary_result(op, a) == Value::<N>::Bool(!truthy_of(a)),
{
    reveal_strlit("~");
    reveal_strlit("__invert__");
    reveal_strlit("-@");
    reveal_strlit("__uminus__");
    reveal_strlit("!");
    reveal_strlit("__not__");
    assert(!i == (-1 - i) as i32) by (bit_vector);
    if op == "~"@ || op == "__invert__"@ {
        assert(op.len() == 1 ==> op[0] == '~');
        assert(op.len() == 10 ==> op[2] == 'i');
        assert(!is_neg_op(op));
        assert(!is_not_op(op));
        assert(is_invert_op(op));
    }
    if op == "!"@ || op == "__not__"@ {
        assert(op.len() == 1 ==> op[0] == '!');
        assert(op.len() == 7 ==> op[2] == 'n');
        assert(!is_neg_op(op));
        assert(is_not_op(op));
    }
}

/// Running a unary operator replaces the top of the stack with the operator's value on
/// it: with bitwise not on a 32-bit integer `i`, the new top is `-(i + 1)`.
pub proof fn lemma_invert_step<N>(m0: MachineV<N>, fi: int, op: Seq<char>, m1: MachineV<N>, out: Option<FrameAction<Value<N>>>, i: i32)
    requires
        0 <= fi < m0.frames.len(),
        op == "~"@ || op == "__invert__"@,
        popped(m0.frames[fi]).0 == Value::<N>::Int(i),
        step_ok(m0, fi, InsnV::UnaryOperator { op }, m1, out),
    ensures
        out == Some(FrameAction::<Value<N>>::Continue),
        m1.frames[fi].stack == popped(m0.frames[fi]).1.stack.push(Value::<N>::Int((-1 - i) as i32)),
{
    lemma_unary_operators(op, i, Value::<N>::Int(i));
}

/// An integer constant is pushed: the running frame's stack grows by exactly that value
/// and its instruction pointer stays.
pub proof fn lemma_int_const_pushes<N>(m0: MachineV<N>, fi: int, v: i32, m1: MachineV<N>, out: Option<FrameAction<Value<N>>>)
    requires
        0 <= fi < m0.frames.len(),
        step_ok(m0, fi, InsnV::IntConst { value: v }, m1, out),
    ensures
        out == Some(FrameAction::<Value<N>>::Continue),
        m1.frames[fi].stack == m0.frames[fi].stack.push(Value::<N>::Int(v)),
        m1.frames[fi].ip == m0.frames[fi].ip,
{
}

/// A pop right after pushing a constant puts the machine back as it was.
pub proof fn lemma_pop_undoes_const<N>(
    m0: MachineV<N>,
    fi: int,
    v: i32,
    m1: MachineV<N>,
    o1: Option<FrameAction<Value<N>>>,
    m2: MachineV<N>,
    o2: Option<FrameAction<Value<N>>>,
)
    requires
        0 <= fi < m0.frames.len(),
        step_ok(m0, fi, InsnV::IntConst { value: v }, m1, o1),
        step_ok(m1, fi, InsnV::Pop, m2, o2),
    ensures
        m2 == m0,
{
    let c = m0.frames[fi];
    assert(c.stack.push(Value::<N>::Int(v)).drop_last() =~= c.stack);
    assert(popped(pushed(c, Value::<N>::Int(v))).1 == c);
    assert(m2.frames =~= m0.frames);
    assert(m2 =~= m0);
}

/// The two conditional jumps on the same frame take the same value off the stack, and
/// exactly the one that matches its truthiness jumps: `JumpIfTrue` on a true value,
/// `JumpIfFalse` on a false one; the other leaves the instruction pointer where it was.
pub proof fn lemma_conditional_jumps<N>(
    m0: MachineV<N>,
    fi: int,
    t: i32,
    m1: MachineV<N>,
    o1: Option<FrameAction<Value<N>>>,
    m2: MachineV<N>,
    o2: Option<FrameAction<Value<N>>>,
)
    requires
        0 <= fi < m0.frames.len(),
        step_ok(m0, fi, InsnV::JumpIfFalse { target: t }, m1, o1),
        step_ok(m0, fi, InsnV::JumpIfTrue { target: t }, m2, o2),
    ensures
        m1.frames[fi].stack == popped(m0.frames[fi]).1.stack,
        m2.frames[fi].stack == popped(m0.frames[fi]).1.stack,
        truthy_of(popped(m0.frames[fi]).0) ==> m2.frames[fi].ip == t && m1.frames[fi].ip == m0.frames[fi].ip,
        !truthy_of(popped(m0.frames[fi]).0) ==> m1.frames[fi].ip == t && m2.frames[fi].ip == m0.frames[fi].ip,
{
}

/// The short-circuit operators on the same frame: `&&` stops (keeping the left value as
/// the result and jumping past the right operand) exactly when the left value is false,
/// `||` exactly when it is true; the one that does not stop drops the left value and
/// goes on to the next instruction.
pub proof fn lemma_short_circuit<N>(
    m0: MachineV<N>,
    fi: int,
    t: i32,
    m1: MachineV<N>,
    o1: Option<FrameAction<Value<N>>>,
    m2: MachineV<N>,
    o2: Option<FrameAction<Value<N>>>,
)
    requires
        0 <= fi < m0.frames.len(),
        step_ok(m0, fi, InsnV::LogicalAnd { target: t }, m1, o1),
        step_ok(m0, fi, InsnV::LogicalOr { target: t }, m2, o2),
    ensures
        ({
            let (v, c1) = popped(m0.frames[fi]);
            &&& truthy_of(v) ==> m1.frames[fi] == c1 && m2.frames[fi].ip == t && m2.frames[fi].stack == c1.stack.push(v)
            &&& !truthy_of(v) ==> m2.frames[fi] == c1 && m1.frames[fi].ip == t && m1.frames[fi].stack == c1.stack.push(v)
        }),
{
}

/// `+` on two 32-bit integers on top of the stack (the right operand on top) replaces
/// them with their sum, when it fits.
pub proof fn lemma_add_step<N>(m0: MachineV<N>, fi: int, m1: MachineV<N>, out: Option<FrameAction<Value<N>>>, x: i32, y: i32)
    requires
        0 <= fi < m0.frames.len(),
        popped(m0.frames[fi]).0 == Value::<N>::Int(y),
        popped(popped(m0.frames[fi]).1).0 == Value::<N>::Int(x),
        i32::MIN <= x + y <= i32::MAX,
        step_ok(m0, fi, InsnV::BinaryOperator { op: "+"@ }, m1, out),
    ensures
        out == Some(FrameAction::<Value<N>>::Continue),
        m1.frames[fi].stack == popped(popped(m0.frames[fi]).1).1.stack.push(Value::<N>::Int((x + y) as i32)),
{
    let top = top_at(m1, fi);
    crate::ops::lemma_int_arithmetic::<N>(x, y, Some(top), None);
}

/// An instruction touches only the call frame that runs it: every other frame, and the
/// number of frames, stay as they were.
pub proof fn lemma_step_keeps_other_frames<N>(
    m0: MachineV<N>,
    fi: int,
    i: InsnV,
    m1: MachineV<N>,
    out: Option<FrameAction<Value<N>>>,
    j: int,
)
    requires
        0 <= fi < m0.frames.len(),
        0 <= j < m0.frames.len(),
        j != fi,
        step_ok(m0, fi, i, m1, out),
    ensures
        m1.frames.len() == m0.frames.len(),
        m1.frames[j] == m0.frames[j],
{
}

/// `Rc::clone`: another handle on the same value.
#[verifier::external_body]
fn share<T>(r: &Rc<T>) -> (s: Rc<T>)
    ensures
        s == *r,
{
    Rc::clone(r)
}

/// A copy of a value; shared contents stay shared.
pub fn copy_value<N>(v: &Value<N>) -> (r: Value<N>)
    ensures
        r == *v,
{
    match v {
        Value::Nil => Value::Nil,
        Value::Void => Value::Void,
        Value::Bool(b) => Value::Bool(*b),
        Value::Int(i) => Value::Int(*i),
        Value::UInt(u) => Value::UInt(*u),
        Value::Long(l) => Value::Long(*l),
        Value::ULong(u) => Value::ULong(*u),
        Value::Float(f) => Value::Float(*f),
        Value::Double(d) => Value::Double(*d),
        Value::Byte(b) => Value::Byte(*b),
        Value::UByte(b) => Value::UByte(*b),
        Value::Short(x) => Value::Short(*x),
        Value::UShort(x) => Value::UShort(*x),
        Value::Str(s) => Value::Str(share(s)),
        Value::Symbol(s) => Value::Symbol(share(s)),
        Value::Array(a) => Value::Array(share(a)),
        Value::Dict(d) => Value::Dict(share(d)),
        Value::Object(o) => Value::Object(share(o)),
        Value::Function(f) => Value::Function(share(f)),
        Value::Native(n) => Value::Native(share(n)),
    }
}

/// A read slot as a value (see `nil_or`).
fn value_or_nil<N>(o: Option<&Value<N>>) -> (v: Value<N>)
    ensures
        v == nil_or(match o {
            Some(x) => Some(*x),
            None => None::<Value<N>>,
        }),
{
    match o {
        Some(x) => copy_value(x),
        None => Value::Nil,
    }
}

/// Replacing one frame replaces its state.
proof fn lemma_frame_update<N>(s: Seq<Frame<Value<N>>>, i: int, f: Frame<Value<N>>)
    requires
        0 <= i < s.len(),
    ensures
        s.update(i, f).map_values(|x: Frame<Value<N>>| call_view(x)) == s.map_values(
            |x: Frame<Value<N>>| call_view(x),
        ).update(i, call_view(f)),
{
    assert(s.update(i, f).map_values(|x: Frame<Value<N>>| call_view(x)) =~= s.map_values(
        |x: Frame<Value<N>>| call_view(x),
    ).update(i, call_view(f)));
}

impl<N, F> Engine<N, F> {
    /// Pushes `v` on frame `fi`.
    fn push_at(&mut self, fi: usize, v: Value<N>)
        requires
            fi < old(self).call_stack@.len(),
        ensures
            final(self).machine() == with_frame(
                old(self).machine(),
                fi as int,
                pushed(old(self).machine().frames[fi as int], v),
            ),
            final(self).call_stack@.len() == old(self).call_stack@.len(),
            rest_same(*old(self), *final(self)),
    {
        let ghost before = self.call_stack@;
        self.call_stack[fi].push(v);
        proof {
            lemma_frame_update(before, fi as int, self.call_stack@[fi as int]);
            assert(self.machine().frames =~= old(self).machine().frames.update(
                fi as int,
                pushed(old(self).machine().frames[fi as int], v),
            ));
        }
    }

    /// Pops frame `fi` (see `popped`).
    fn pop_at(&mut self, fi: usize) -> (v: Value<N>)
        requires
            fi < old(self).call_stack@.len(),
        ensures
            v == popped(old(self).machine().frames[fi as int]).0,
            final(self).machine() == with_frame(
                old(self).machine(),
                fi as int,
                popped(old(self).machine().frames[fi as int]).1,
            ),
            final(self).call_stack@.len() == old(self).call_stack@.len(),
            rest_same(*old(self), *final(self)),
    {
        let ghost before = self.call_stack@;
        let r = self.call_stack[fi].pop();
        proof {
            lemma_frame_update(before, fi as int, self.call_stack@[fi as int]);
            assert(self.machine().frames =~= old(self).machine().frames.update(
                fi as int,
                popped(old(self).machine().frames[fi as int]).1,
            ));
        }
        match r {
            Some(v) => v,
            None => Value::Nil,
        }
    }

    /// Moves frame `fi`'s instruction pointer to `t`.
    fn jump_at(&mut self, fi: usize, t: i32)
        requires
            fi < old(self).call_stack@.len(),
        ensures
            final(self).machine() == with_frame(
                old(self).machine(),
                fi as int,
                jumped(old(self).machine().frames[fi as int], t),
            ),
            final(self).call_stack@.len() == old(self).call_stack@.len(),
            rest_same(*old(self), *final(self)),
    {
        let ghost before = self.call_stack@;
        self.call_stack[fi].instruction_ptr = t;
        proof {
            lemma_frame_update(before, fi as int, self.call_stack@[fi as int]);
            assert(self.machine().frames =~= old(self).machine().frames.update(
                fi as int,
                jumped(old(self).machine().frames[fi as int], t),
            ));
        }
    }

    /// Writes `v` to local `index` of frame `fi` (see `put_fixed`).
    fn write_local_at(&mut self, fi: usize, index: i32, v: Value<N>)
        requires
            fi < old(self).call_stack@.len(),
        ensures
            final(self).machine() == with_frame(
                old(self).machine(),
                fi as int,
                CallV {
                    locals: put_fixed(old(self).machine().frames[fi as int].locals, index as int, v),
                    ..old(self).machine().frames[fi as int]
                },
            ),
            final(self).call_stack@.len() == old(self).call_stack@.len(),
            rest_same(*old(self), *final(self)),
    {
        let ghost before = self.call_stack@;
        let ghost c = old(self).machine().frames[fi as int];
        self.call_stack[fi].locals.write(index, v);
        proof {
            lemma_frame_update(before, fi as int, self.call_stack@[fi as int]);
            assert(self.machine().frames =~= old(self).machine().frames.update(
                fi as int,
                CallV { locals: put_fixed(c.locals, index as int, v), ..c },
            ));
        }
    }
}

/// Whether `h` contains `n` (see `contains_text`).
fn text_contains(h: &str, n: &str) -> (r: bool)
    ensures
        r == contains_text(h@, n@),
{
    let hs = chars_of(h);
    let ns = chars_of(n);
    let hl = hs.len();
    let nl = ns.len();
    if nl > hl {
        return false;
    }
    let mut i: usize = 0;
    while i <= hl - nl
        invariant
            hs@ == h@,
            ns@ == n@,
            hl == hs@.len(),
            nl == ns@.len(),
            nl <= hl,
            i <= hl - nl + 1,
            forall|k: int| 0 <= k < i ==> #[trigger] h@.subrange(k, k + nl) != n@,
        decreases hl - nl + 1 - i,
    {
        let mut j: usize = 0;
        let mut same = true;
        while j < nl
            invariant
                hs@ == h@,
                ns@ == n@,
                hl == hs@.len(),
                nl == ns@.len(),
                i + nl <= hl,
                j <= nl,
                same == (forall|t: int| 0 <= t < j ==> hs@[i + t] == ns@[t]),
            decreases nl - j,
        {
            if hs[i + j] != ns[j] {
                same = false;
            }
            j += 1;
        }
        if same {
            proof {
                assert(h@.subrange(i as int, i + nl) =~= n@);
            }
            return true;
        }
        proof {
            let t = choose|t: int| 0 <= t < nl && hs@[i + t] != ns@[t];
            assert(h@.subrange(i as int, i + nl)[t] != n@[t]);
        }
        i += 1;
    }
    proof {
        assert forall|k: int| 0 <= k && k + n@.len() <= h@.len() implies #[trigger] h@.subrange(k, k + n@.len()) != n@ by {
            assert(k < i);
        }
    }
    false
}

/// The text after the last comma of `s` (see `after_last_comma`).
fn text_after_last_comma(s: &str) -> (r: String)
    ensures
        r@ == after_last_comma(s@),
{
    let cs = chars_of(s);
    let n = cs.len();
    let mut j: usize = n;
    proof {
        assert(s@.subrange(0, n as int) =~= s@);
        assert(after_last_comma(s@) + s@.subrange(n as int, n as int) =~= after_last_comma(s@));
    }
    while j > 0 && cs[j - 1] != ','
        invariant
            cs@ == s@,
            n == cs@.len(),
            j <= n,
            after_last_comma(s@) == after_last_comma(s@.subrange(0, j as int)) + s@.subrange(j as int, n as int),
        decreases j,
    {
        proof {
            let a = s@.subrange(0, j as int);
            assert(a.drop_last() =~= s@.subrange(0, j - 1));
            assert(s@.subrange(j - 1, n as int) =~= seq![a.last()] + s@.subrange(j as int, n as int));
            assert(after_last_comma(a) == after_last_comma(a.drop_last()).push(a.last()));
            assert(after_last_comma(a.drop_last()).push(a.last()) + s@.subrange(j as int, n as int)
                =~= after_last_comma(a.drop_last()) + s@.subrange(j - 1, n as int));
        }
        j -= 1;
    }
    proof {
        let a = s@.subrange(0, j as int);
        if j == 0 {
            assert(a.len() == 0);
        } else {
            assert(a.last() == ',');
        }
        assert(after_last_comma(a) =~= Seq::<char>::empty());
        assert(Seq::<char>::empty() + s@.subrange(j as int, n as int) =~= s@.subrange(j as int, n as int));
    }
    String::from_str(s.substring_char(j, n))
}

impl<N, F> Engine<N, F> {
    /// The index of the first static slot entry named `name` (see `key_from`).
    fn find_base(&self, name: &str) -> (r: Option<usize>)
        ensures
            match r {
                Some(i) => key_from(self.machine().bases, name@, 0) == Some(i as int) && i < self.module_static_bases@.len(),
                None => key_from(self.machine().bases, name@, 0) is None,
            },
    {
        let ghost bs = self.machine().bases;
        let n = self.module_static_bases.len();
        let mut i: usize = 0;
        while i < n
            invariant
                n == self.module_static_bases@.len(),
                bs == self.machine().bases,
                i <= n,
                key_from(bs, name@, 0) == key_from(bs, name@, i as int),
            decreases n - i,
        {
            assert(bs[i as int].0 == self.module_static_bases@[i as int].0@);
            if str_eq(self.module_static_bases[i].0.as_str(), name) {
                return Some(i);
            }
            i += 1;
        }
        None
    }

    /// The slot of the first static slot entry named `name` (see `entry_of`).
    fn base_of(&self, name: &str) -> (r: Option<usize>)
        ensures
            r == entry_of(self.machine().bases, name@),
    {
        match self.find_base(name) {
            Some(i) => Some(self.module_static_bases[i].1),
            None => None,
        }
    }

    /// Sets the static slot of `name` (see `entry_put`).
    fn put_base(&mut self, name: String, slot_no: usize)
        ensures
            final(self).machine() == (MachineV { bases: entry_put(old(self).machine().bases, name@, slot_no), ..old(self).machine() }),
            final(self).call_stack@.len() == old(self).call_stack@.len(),
            rest_same(*old(self), *final(self)),
    {
        let ghost key = name@;
        match self.find_base(name.as_str()) {
            Some(i) => {
                self.module_static_bases.set(i, (name, slot_no));
            },
            None => {
                self.module_static_bases.push((name, slot_no));
            },
        }
        assert(self.machine().bases =~= entry_put(old(self).machine().bases, key, slot_no));
    }

    /// The global function named `name` (see `entry_of`).
    fn global_of(&self, name: &str) -> (r: Option<Rc<FunctionValue>>)
        ensures
            r == entry_of(self.machine().globals, name@),
    {
        let ghost gs = self.machine().globals;
        let n = self.global_functions.len();
        let mut i: usize = 0;
        while i < n
            invariant
                n == self.global_functions@.len(),
                gs == self.machine().globals,
                i <= n,
                key_from(gs, name@, 0) == key_from(gs, name@, i as int),
            decreases n - i,
        {
            assert(gs[i as int].0 == self.global_functions@[i as int].0@);
            if str_eq(self.global_functions[i].0.as_str(), name) {
                return Some(share(&self.global_functions[i].1));
            }
            i += 1;
        }
        None
    }

    /// The index of the first module path that contains `sym` (see `module_from`).
    fn module_with(&self, sym: &str) -> (r: Option<usize>)
        ensures
            match r {
                Some(j) => module_from(self.machine().modules, sym@, 0) == Some(j as int) && j < self.module_stack@.len(),
                None => module_from(self.machine().modules, sym@, 0) is None,
            },
    {
        let ghost ms = self.machine().modules;
        let n = self.module_stack.len();
        let mut i: usize = 0;
        while i < n
            invariant
                n == self.module_stack@.len(),
                ms == self.machine().modules,
                i <= n,
                module_from(ms, sym@, 0) == module_from(ms, sym@, i as int),
            decreases n - i,
        {
            assert(ms[i as int] == self.module_stack@[i as int]@);
            if text_contains(self.module_stack[i].as_str(), sym) {
                return Some(i);
            }
            i += 1;
        }
        None
    }

    /// Whether the machine knows the native path `p`.
    fn knows_native(&self, p: &String) -> (r: bool)
        ensures
            r == self.machine().natives.contains(p@),
    {
        self.natives.has(p.as_str())
    }

    /// The first native path that the machine knows for `sym` (see `native_from`).
    fn native_for(&self, sym: &str) -> (r: Option<String>)
        ensures
            match native_from(self.machine().natives, sym@, 0) {
                Some(p) => r matches Some(x) && x@ == p,
                None => r is None,
            },
    {
        let ghost k = self.machine().natives;
        let ghost ps = native_prefixes();
        let a = String::from_str("main,pdiext,").concat(sym);
        assert(ps[0] + sym@ == a@);
        if self.knows_native(&a) {
            return Some(a);
        }
        assert(native_from(k, sym@, 0) == native_from(k, sym@, 1));
        let b = String::from_str("main,pdistd,").concat(sym);
        assert(ps[1] + sym@ == b@);
        if self.knows_native(&b) {
            return Some(b);
        }
        assert(native_from(k, sym@, 1) == native_from(k, sym@, 2));
        let c = String::from_str("main,gtengine,").concat(sym);
        assert(ps[2] + sym@ == c@);
        if self.knows_native(&c) {
            return Some(c);
        }
        assert(native_from(k, sym@, 2) == native_from(k, sym@, 3));
        let d = String::from_str("main,menu,").concat(sym);
        assert(ps[3] + sym@ == d@);
        if self.knows_native(&d) {
            return Some(d);
        }
        assert(native_from(k, sym@, 3) == native_from(k, sym@, 4));
        let e = String::from_str("main,pdiapp,").concat(sym);
        assert(ps[4] + sym@ == e@);
        if self.knows_native(&e) {
            return Some(e);
        }
        assert(native_from(k, sym@, 4) == native_from(k, sym@, 5));
        None
    }
}

/// The names' texts.
pub open spec fn names_view(v: Seq<String>) -> Seq<Seq<char>> {
    v.map_values(|s: String| s@)
}

/// What `n` pops give, by the stack: nil for each pop past its bottom, then its top
/// values in stack order; the frame keeps the rest.
proof fn lemma_popped_n<N>(c: CallV<Value<N>>, n: nat)
    ensures
        ({
            let m = if n < c.stack.len() { n as int } else { c.stack.len() as int };
            &&& popped_n(c, n).1 == (CallV { stack: c.stack.subrange(0, c.stack.len() - m), ..c })
            &&& popped_n(c, n).0 == Seq::new(
                n,
                |k: int| if k < n - m { Value::<N>::Nil } else { c.stack[c.stack.len() - n + k] },
            )
        }),
    decreases n,
{
    let len = c.stack.len() as int;
    if n == 0 {
        assert(c.stack.subrange(0, len) =~= c.stack);
        assert(popped_n(c, n).0 =~= Seq::new(
            n,
            |k: int| if k < n - 0 { Value::<N>::Nil } else { c.stack[c.stack.len() - n + k] },
        ));
    } else {
        let (v, c1) = popped(c);
        lemma_popped_n(c1, (n - 1) as nat);
        let m = if n < len { n as int } else { len };
        if len > 0 {
            assert(c1.stack =~= c.stack.subrange(0, len - 1));
            assert(c1.stack.subrange(0, c1.stack.len() - (m - 1)) =~= c.stack.subrange(0, len - m));
        } else {
            assert(c1 == c);
        }
        assert(popped_n(c, n).0 =~= Seq::new(
            n,
            |k: int| if k < n - m { Value::<N>::Nil } else { c.stack[c.stack.len() - n + k] },
        ));
    }
}

/// The values of `v`, copied.
fn copy_values<N>(v: &Vec<Value<N>>) -> (r: Vec<Value<N>>)
    ensures
        r@ == v@,
{
    let mut r: Vec<Value<N>> = Vec::new();
    let mut k: usize = 0;
    while k < v.len()
        invariant
            k <= v@.len(),
            r@ == v@.subrange(0, k as int),
        decreases v@.len() - k,
    {
        r.push(copy_value(&v[k]));
        k += 1;
        assert(r@ =~= v@.subrange(0, k as int));
    }
    assert(v@.subrange(0, v@.len() as int) =~= v@);
    r
}

/// The pairs of `v`, copied.
fn copy_pairs<N>(v: &Vec<(Value<N>, Value<N>)>) -> (r: Vec<(Value<N>, Value<N>)>)
    ensures
        r@ == v@,
{
    let mut r: Vec<(Value<N>, Value<N>)> = Vec::new();
    let mut k: usize = 0;
    while k < v.len()
        invariant
            k <= v@.len(),
            r@ == v@.subrange(0, k as int),
        decreases v@.len() - k,
    {
        r.push((copy_value(&v[k].0), copy_value(&v[k].1)));
        k += 1;
        assert(r@ =~= v@.subrange(0, k as int));
    }
    assert(v@.subrange(0, v@.len() as int) =~= v@);
    r
}

/// What the unary operator `op` gives (see `unary_result`).
fn unary_value<N>(op: &str, a: Value<N>) -> (r: Value<N>)
    requires
        is_neg_op(op@) ==> !(a matches Value::Int(x) && x == i32::MIN),
    ensures
        r == unary_result(op@, a),
{
    if str_eq(op, "-@") || str_eq(op, "__uminus__") {
        match a {
            Value::Int(i) => Value::Int(-i),
            Value::Float(f) => Value::Float(f ^ 0x8000_0000u32),
            _ => Value::Int(0),
        }
    } else if str_eq(op, "!") || str_eq(op, "__not__") {
        Value::Bool(!a.truthy())
    } else if str_eq(op, "~") || str_eq(op, "__invert__") {
        match a {
            Value::Int(i) => Value::Int(!i),
            _ => Value::Int(0),
        }
    } else {
        a
    }
}

/// What looking `key` up in the pairs `es` gives (see `dict_find`).
fn dict_lookup<N>(es: &Vec<(Value<N>, Value<N>)>, key: &Value<N>) -> (r: Option<Option<Value<N>>>)
    ensures
        r == dict_find(es@, *key, 0),
{
    let mut i: usize = 0;
    while i < es.len()
        invariant
            i <= es@.len(),
            dict_find(es@, *key, 0) == dict_find(es@, *key, i as int),
        decreases es@.len() - i,
    {
        match values_equal(&es[i].0, key) {
            None => return None,
            Some(true) => return Some(Some(copy_value(&es[i].1))),
            Some(false) => {},
        }
        i += 1;
    }
    Some(None)
}

/// What indexing `obj` with `key` gives (see `element_of`).
fn element_value<N>(obj: &Value<N>, key: &Value<N>) -> (r: Option<Value<N>>)
    ensures
        r == element_of(*obj, *key),
{
    match obj {
        Value::Array(a) => {
            let k: i32 = match key.as_i32() {
                Some(k) => k,
                None => 0,
            };
            if k >= 0 && (k as usize) < a.len() {
                Some(copy_value(&a[k as usize]))
            } else {
                Some(Value::Nil)
            }
        },
        Value::Dict(d) => match dict_lookup(&**d, key) {
            None => None,
            Some(found) => Some(match found {
                Some(v) => v,
                None => Value::Nil,
            }),
        },
        _ => Some(Value::Nil),
    }
}

impl<N, F> Engine<N, F> {
    /// Records on frame `fi` the variable the last push read.
    fn track_at(&mut self, fi: usize, index: i32, is_static: bool)
        requires
            fi < old(self).call_stack@.len(),
        ensures
            final(self).machine() == with_frame(
                old(self).machine(),
                fi as int,
                (CallV { var_index: index, var_static: is_static, ..old(self).machine().frames[fi as int] }),
            ),
            final(self).call_stack@.len() == old(self).call_stack@.len(),
            rest_same(*old(self), *final(self)),
    {
        let ghost before = self.call_stack@;
        let ghost c = old(self).machine().frames[fi as int];
        self.call_stack[fi].last_var_push_index = index;
        self.call_stack[fi].last_var_push_static = is_static;
        proof {
            lemma_frame_update(before, fi as int, self.call_stack@[fi as int]);
            assert(self.machine().frames =~= old(self).machine().frames.update(
                fi as int,
                CallV { var_index: index, var_static: is_static, ..c },
            ));
        }
    }

    /// Sets frame `fi`'s switch registers.
    fn set_switch_at(&mut self, fi: usize, sv: Option<Value<N>>, sd: Option<i32>, rem: usize)
        requires
            fi < old(self).call_stack@.len(),
        ensures
            final(self).machine() == with_frame(
                old(self).machine(),
                fi as int,
                (CallV { switch_value: sv, switch_default: sd, switch_remaining: rem, ..old(self).machine().frames[fi as int] }),
            ),
            final(self).call_stack@.len() == old(self).call_stack@.len(),
            rest_same(*old(self), *final(self)),
    {
        let ghost before = self.call_stack@;
        let ghost c = old(self).machine().frames[fi as int];
        self.call_stack[fi].switch_value = sv;
        self.call_stack[fi].switch_default = sd;
        self.call_stack[fi].switch_remaining = rem;
        proof {
            lemma_frame_update(before, fi as int, self.call_stack@[fi as int]);
            assert(self.machine().frames =~= old(self).machine().frames.update(
                fi as int,
                CallV { switch_value: sv, switch_default: sd, switch_remaining: rem, ..c },
            ));
        }
    }

    /// Sets frame `fi`'s run state.
    fn set_state_at(&mut self, fi: usize, st: FrameState)
        requires
            fi < old(self).call_stack@.len(),
        ensures
            final(self).machine() == with_frame(
                old(self).machine(),
                fi as int,
                (CallV { state: st, ..old(self).machine().frames[fi as int] }),
            ),
            final(self).call_stack@.len() == old(self).call_stack@.len(),
            rest_same(*old(self), *final(self)),
    {
        let ghost before = self.call_stack@;
        let ghost c = old(self).machine().frames[fi as int];
        self.call_stack[fi].state = st;
        proof {
            lemma_frame_update(before, fi as int, self.call_stack@[fi as int]);
            assert(self.machine().frames =~= old(self).machine().frames.update(fi as int, CallV { state: st, ..c }));
        }
    }

    /// Writes `v` to static `index` (see `put_growing`).
    fn write_static(&mut self, index: i32, v: Value<N>)
        requires
            index >= 0,
        ensures
            final(self).machine() == (MachineV {
                statics: put_growing(old(self).machine().statics, index as int, v),
                ..old(self).machine()
            }),
            final(self).call_stack@.len() == old(self).call_stack@.len(),
            rest_same(*old(self), *final(self)),
    {
        self.static_storage.write(index, v);
    }

    /// Pops `n` values off frame `fi` (see `popped_n`), in stack order.
    fn pop_n_at(&mut self, fi: usize, n: usize) -> (vs: Vec<Value<N>>)
        requires
            fi < old(self).call_stack@.len(),
        ensures
            vs@ == popped_n(old(self).machine().frames[fi as int], n as nat).0,
            final(self).machine() == with_frame(
                old(self).machine(),
                fi as int,
                popped_n(old(self).machine().frames[fi as int], n as nat).1,
            ),
            final(self).call_stack@.len() == old(self).call_stack@.len(),
            rest_same(*old(self), *final(self)),
    {
        let ghost m0 = self.machine();
        let ghost c0 = m0.frames[fi as int];
        let mut out: Vec<Value<N>> = Vec::new();
        let mut k: usize = 0;
        proof {
            assert(m0.frames.update(fi as int, m0.frames[fi as int]) =~= m0.frames);
            assert(Seq::<Value<N>>::empty() + popped_n(c0, n as nat).0 =~= popped_n(c0, n as nat).0);
        }
        while k < n
            invariant
                k <= n,
                fi < self.call_stack@.len(),
                self.call_stack@.len() == m0.frames.len(),
                rest_same(*old(self), *self),
                self.machine() == with_frame(m0, fi as int, self.machine().frames[fi as int]),
                popped_n(c0, n as nat) == (
                    popped_n(self.machine().frames[fi as int], (n - k) as nat).0 + out@,
                    popped_n(self.machine().frames[fi as int], (n - k) as nat).1,
                ),
            decreases n - k,
        {
            let ghost ck = self.machine().frames[fi as int];
            let ghost mk = self.machine();
            let v = self.pop_at(fi);
            proof {
                let rest = popped_n(self.machine().frames[fi as int], (n - k - 1) as nat);
                assert(popped_n(ck, (n - k) as nat) == (rest.0.push(v), rest.1));
                assert(rest.0.push(v) + out@ =~= rest.0 + (seq![v] + out@));
                assert(mk.frames.update(fi as int, popped(ck).1) =~= m0.frames.update(fi as int, popped(ck).1));
            }
            out.insert(0, v);
            k += 1;
        }
        proof {
            assert(Seq::<Value<N>>::empty() + out@ =~= out@);
        }
        out
    }

    /// The two values that two pops of frame `fi` would give, left in place.
    fn top_two(&self, fi: usize) -> (r: (Value<N>, Value<N>))
        requires
            fi < self.call_stack@.len(),
        ensures
            r.0 == popped(self.machine().frames[fi as int]).0,
            r.1 == popped(popped(self.machine().frames[fi as int]).1).0,
    {
        let st = &self.call_stack[fi].stack;
        let n = st.len();
        let a = if n >= 1 { copy_value(&st[n - 1]) } else { Value::Nil };
        let b = if n >= 2 { copy_value(&st[n - 2]) } else { Value::Nil };
        (a, b)
    }

    /// The static slot by name of a variable with these names (see `named_slot`).
    fn named_slot_of(&self, symbols: &Vec<String>) -> (r: Option<usize>)
        ensures
            r == named_slot(self.machine().bases, names_view(symbols@)),
    {
        let n = symbols.len();
        proof {
            reveal_strlit("");
        }
        let last: &str = if n > 0 { symbols[n - 1].as_str() } else { "" };
        assert(last@ == last_name(names_view(symbols@)));
        match self.base_of(last) {
            Some(a) => Some(a),
            None => if n > 0 {
                self.base_of(symbols[0].as_str())
            } else {
                None
            },
        }
    }

    /// What reading a variable gives (see `var_value`).
    fn read_var(&self, fi: usize, symbols: &Vec<String>, kind: StorageKind, index: i32) -> (v: Value<N>)
        requires
            fi < self.call_stack@.len(),
        ensures
            v == var_value(self.machine(), self.machine().frames[fi as int], names_view(symbols@), kind, index),
    {
        if kind == StorageKind::Static {
            match self.named_slot_of(symbols) {
                Some(a) => value_or_nil(self.static_storage.read(a as i32)),
                None => value_or_nil(self.static_storage.read(index)),
            }
        } else {
            value_or_nil(self.call_stack[fi].locals.read(index))
        }
    }

    /// What a variable read names (see `resolved`).
    fn resolve(&self, symbols: &Vec<String>, v: Value<N>) -> (r: Value<N>)
        ensures
            match resolved(self.machine(), names_view(symbols@), v) {
                None => r == v,
                Some(Ok(w)) => r == w,
                Some(Err(p)) => is_object_of(r, p),
            },
    {
        if symbols.len() == 0 {
            return v;
        }
        let sym = symbols[0].as_str();
        match self.global_of(sym) {
            Some(f) => {
                return Value::Function(f);
            },
            None => {},
        }
        let is_nil = match v {
            Value::Nil => true,
            _ => false,
        };
        if !is_nil {
            return v;
        }
        if str_eq(sym, "__module__") {
            let n = self.module_stack.len();
            if n > 0 {
                return Value::Object(Rc::new(ObjectInstance::simple(self.module_stack[n - 1].as_str())));
            }
            return v;
        }
        match self.module_with(sym) {
            Some(j) => Value::Object(Rc::new(ObjectInstance::simple(self.module_stack[j].as_str()))),
            None => match self.native_for(sym) {
                Some(p) => Value::Object(Rc::new(ObjectInstance::simple(p.as_str()))),
                None => v,
            },
        }
    }
}

impl<N, F> Engine<N, F> {
    /// `exec_insn` for the constants, variables and assignments.
    #[verifier::spinoff_prover]
    #[verifier::rlimit(60)]
    fn exec_data(&mut self, fi: usize, insn: &Instruction) -> (r: Option<FrameAction<Value<N>>>)
        requires
            fi < old(self).call_stack@.len(),
            insn_fits(old(self).machine(), fi as int, insn_view(*insn)),
            is_data_insn(insn_view(*insn)),
        ensures
            final(self).call_stack@.len() == old(self).call_stack@.len(),
            rest_same(*old(self), *final(self)),
            step_ok(old(self).machine(), fi as int, insn_view(*insn), final(self).machine(), r),
    {
        let ghost m0 = self.machine();
        let ghost c = m0.frames[fi as int];
        match insn {
            Instruction::NilConst => self.push_at(fi, Value::Nil),
            Instruction::VoidConst => self.push_at(fi, Value::Void),
            Instruction::BoolConst { value } => self.push_at(fi, Value::Bool(*value)),
            Instruction::IntConst { value } => self.push_at(fi, Value::Int(*value)),
            Instruction::UIntConst { value } => self.push_at(fi, Value::UInt(*value)),
            Instruction::FloatConst { value } => self.push_at(fi, Value::Float(*value)),
            Instruction::DoubleConst { value } => self.push_at(fi, Value::Double(*value)),
            Instruction::LongConst { value } => self.push_at(fi, Value::Long(*value)),
            Instruction::StringConst { symbols } => {
                let n = symbols.len();
                proof {
                    reveal_strlit("");
                }
                let t: &str = if n > 0 { symbols[n - 1].as_str() } else { "" };
                assert(t@ == last_name(names_view(symbols@)));
                self.push_at(fi, Value::Str(Rc::new(String::from_str(t))));
            },
            Instruction::SymbolConst { symbol } => {
                self.push_at(fi, Value::Symbol(Rc::new(String::from_str(symbol.as_str()))));
            },
            Instruction::VariablePush { symbols, kind, index } => {
                let v = self.read_var(fi, symbols, *kind, *index);
                let is_static = *kind == StorageKind::Static;
                let slot_no: i32 = if is_static {
                    match self.named_slot_of(symbols) {
                        Some(a) => a as i32,
                        None => *index,
                    }
                } else {
                    *index
                };
                self.push_at(fi, v);
                self.track_at(fi, slot_no, is_static);
                proof {
                    assert(self.machine().frames =~= m0.frames.update(
                        fi as int,
                        CallV {
                            var_index: slot_no,
                            var_static: is_static,
                            ..pushed(c, var_value(m0, c, names_view(symbols@), *kind, *index))
                        },
                    ));
                }
            },
            Instruction::VariableEval { symbols, kind, index } => {
                let v = self.read_var(fi, symbols, *kind, *index);
                let w = self.resolve(symbols, v);
                self.push_at(fi, w);
            },
            Instruction::StaticDefine { symbols } => {
                let n = symbols.len();
                proof {
                    reveal_strlit("");
                }
                let name: &str = if n > 0 { symbols[n - 1].as_str() } else { "" };
                assert(name@ == last_name(names_view(symbols@)));
                let slot_no = self.next_static_slot;
                self.put_base(String::from_str(name), slot_no);
                let k = self.module_stack.len();
                if k > 0 {
                    assert(self.module_stack@[k - 1]@ == self.machine().modules.last());
                    let short = text_after_last_comma(self.module_stack[k - 1].as_str());
                    let qualified = short.concat("::").concat(name);
                    self.put_base(qualified, slot_no);
                }
                self.next_static_slot = slot_no + 1;
                self.push_at(fi, Value::Nil);
                proof {
                    assert(self.machine().bases == defined_bases(m0, last_name(names_view(symbols@))));
                }
            },
            Instruction::AttributeDefine { .. } => {
                let _default = self.pop_at(fi);
                self.push_at(fi, Value::Nil);
                proof {
                    assert(self.machine().frames =~= m0.frames.update(fi as int, pushed(popped(c).1, Value::Nil)));
                }
            },
            Instruction::AssignPop => {
                let val = self.pop_at(fi);
                let _target = self.pop_at(fi);
                assert(self.machine().frames[fi as int] == call_view(self.call_stack@[fi as int]));
                let idx = self.call_stack[fi].last_var_push_index;
                if self.call_stack[fi].last_var_push_static {
                    self.write_static(idx, copy_value(&val));
                }
                self.push_at(fi, val);
                proof {
                    assert(self.machine().frames =~= m0.frames.update(
                        fi as int,
                        pushed(popped(popped(c).1).1, val),
                    ));
                }
            },
            Instruction::Assign { .. } => {
                let val = self.pop_at(fi);
                let _old = self.pop_at(fi);
                let ghost c2 = popped(popped(c).1).1;
                assert(self.machine().frames[fi as int] == call_view(self.call_stack@[fi as int]));
                let idx = self.call_stack[fi].last_var_push_index;
                if self.call_stack[fi].last_var_push_static {
                    self.write_static(idx, copy_value(&val));
                } else {
                    self.write_local_at(fi, idx, copy_value(&val));
                }
                self.push_at(fi, val);
                proof {
                    if c.var_static {
                        assert(self.machine().frames =~= m0.frames.update(fi as int, pushed(c2, val)));
                    } else {
                        assert(self.machine().frames =~= m0.frames.update(
                            fi as int,
                            pushed(CallV { locals: put_fixed(c2.locals, c.var_index as int, val), ..c2 }, val),
                        ));
                    }
                }
            },
            Instruction::AssignOld { index, .. } => {
                let val = self.pop_at(fi);
                self.write_local_at(fi, *index, copy_value(&val));
                self.push_at(fi, val);
                proof {
                    let c1 = popped(c).1;
                    assert(self.machine().frames =~= m0.frames.update(
                        fi as int,
                        pushed(CallV { locals: put_fixed(c1.locals, *index as int, val), ..c1 }, val),
                    ));
                }
            },
            Instruction::BinaryAssignOperator { .. } => {
                let val = self.pop_at(fi);
                self.push_at(fi, val);
                proof {
                    assert(self.machine().frames =~= m0.frames.update(fi as int, pushed(popped(c).1, val)));
                }
            },
            _ => {},
        }
        Some(FrameAction::Continue)
    }
}

/// The values of `v` after its first, copied.
fn copy_tail<N>(v: &Vec<Value<N>>) -> (r: Vec<Value<N>>)
    requires
        v@.len() > 0,
    ensures
        r@ == v@.drop_first(),
{
    let mut r: Vec<Value<N>> = Vec::new();
    let mut k: usize = 1;
    while k < v.len()
        invariant
            1 <= k <= v@.len(),
            r@ == v@.subrange(1, k as int),
        decreases v@.len() - k,
    {
        r.push(copy_value(&v[k]));
        k += 1;
        assert(r@ =~= v@.subrange(1, k as int));
    }
    assert(v@.subrange(1, v@.len() as int) =~= v@.drop_first());
    r
}

impl<N, F> Engine<N, F> {
    /// `exec_insn` for building and extending arrays and maps.
    #[verifier::spinoff_prover]
    #[verifier::rlimit(60)]
    fn exec_build(&mut self, fi: usize, insn: &Instruction) -> (r: Option<FrameAction<Value<N>>>)
        requires
            fi < old(self).call_stack@.len(),
            insn_fits(old(self).machine(), fi as int, insn_view(*insn)),
            is_build_insn(insn_view(*insn)),
        ensures
            final(self).call_stack@.len() == old(self).call_stack@.len(),
            rest_same(*old(self), *final(self)),
            step_ok(old(self).machine(), fi as int, insn_view(*insn), final(self).machine(), r),
    {
        let ghost m0 = self.machine();
        let ghost c = m0.frames[fi as int];
        match insn {
            Instruction::ArrayConst { count } | Instruction::ArrayConstOld { count } => {
                let vs = self.pop_n_at(fi, *count as usize);
                let v = Value::Array(Rc::new(vs));
                self.push_at(fi, v);
                proof {
                    assert(self.machine().frames =~= m0.frames.update(
                        fi as int,
                        pushed(popped_n(c, *count as nat).1, v),
                    ));
                }
            },
            Instruction::ArrayPush => {
                let val = self.pop_at(fi);
                let arr = self.pop_at(fi);
                let ghost c2 = popped(popped(c).1).1;
                match arr {
                    Value::Array(a) => {
                        let mut na = copy_values(&*a);
                        na.push(val);
                        let v = Value::Array(Rc::new(na));
                        self.push_at(fi, v);
                        proof {
                            assert(self.machine().frames =~= m0.frames.update(fi as int, pushed(c2, v)));
                        }
                    },
                    other => {
                        self.push_at(fi, other);
                        proof {
                            assert(self.machine().frames =~= m0.frames.update(fi as int, pushed(c2, other)));
                        }
                    },
                }
            },
            Instruction::MapConst | Instruction::MapConstOld => {
                let v = Value::Dict(Rc::new(Vec::new()));
                self.push_at(fi, v);
            },
            Instruction::MapInsert => {
                let val = self.pop_at(fi);
                let key = self.pop_at(fi);
                let map = self.pop_at(fi);
                let ghost c3 = popped(popped(popped(c).1).1).1;
                match map {
                    Value::Dict(d) => {
                        let mut nd = copy_pairs(&*d);
                        nd.push((key, val));
                        let v = Value::Dict(Rc::new(nd));
                        self.push_at(fi, v);
                        proof {
                            assert(self.machine().frames =~= m0.frames.update(fi as int, pushed(c3, v)));
                        }
                    },
                    other => {
                        self.push_at(fi, other);
                        proof {
                            assert(self.machine().frames =~= m0.frames.update(fi as int, pushed(c3, other)));
                        }
                    },
                }
            },
            Instruction::ElementPush => {
                let val = self.pop_at(fi);
                let key = self.pop_at(fi);
                let obj = self.pop_at(fi);
                let ghost c3 = popped(popped(popped(c).1).1).1;
                match obj {
                    Value::Array(a) => {
                        let mut na = copy_values(&*a);
                        na.push(val);
                        let v = Value::Array(Rc::new(na));
                        self.push_at(fi, v);
                        proof {
                            assert(self.machine().frames =~= m0.frames.update(fi as int, pushed(c3, v)));
                        }
                    },
                    Value::Dict(d) => {
                        let mut nd = copy_pairs(&*d);
                        nd.push((key, val));
                        let v = Value::Dict(Rc::new(nd));
                        self.push_at(fi, v);
                        proof {
                            assert(self.machine().frames =~= m0.frames.update(fi as int, pushed(c3, v)));
                        }
                    },
                    other => {
                        self.push_at(fi, other);
                        proof {
                            assert(self.machine().frames =~= m0.frames.update(fi as int, pushed(c3, other)));
                        }
                    },
                }
            },
            _ => {},
        }
        Some(FrameAction::Continue)
    }

    /// `exec_insn` for joining strings.
    #[verifier::spinoff_prover]
    #[verifier::rlimit(60)]
    fn exec_string_push(&mut self, fi: usize, insn: &Instruction) -> (r: Option<FrameAction<Value<N>>>)
        requires
            fi < old(self).call_stack@.len(),
            insn_fits(old(self).machine(), fi as int, insn_view(*insn)),
            insn_view(*insn) is StringPush,
        ensures
            final(self).call_stack@.len() == old(self).call_stack@.len(),
            rest_same(*old(self), *final(self)),
            step_ok(old(self).machine(), fi as int, insn_view(*insn), final(self).machine(), r),
    {
        let ghost m0 = self.machine();
        let ghost c = m0.frames[fi as int];
        match insn {
            Instruction::StringPush { count } => {
                let n = *count as usize;
                let ghost vs = popped_n(c, n as nat).0;
                proof {
                    lemma_popped_n(c, n as nat);
                }
                assert(self.machine().frames[fi as int] == call_view(self.call_stack@[fi as int]));
                let len = self.call_stack[fi].stack.len();
                let m = if n < len { n } else { len };
                let mut text = String::new();
                let mut ok = true;
                let mut k: usize = 0;
                while k < n
                    invariant
                        self.machine() == m0,
                        fi < self.call_stack@.len(),
                        c == m0.frames[fi as int],
                        c.stack == self.call_stack@[fi as int].stack@,
                        len == c.stack.len(),
                        m == (if n < len { n } else { len }),
                        vs == popped_n(c, n as nat).0,
                        vs == Seq::new(
                            n as nat,
                            |j: int| if j < n - m { Value::<N>::Nil } else { c.stack[c.stack.len() - n + j] },
                        ),
                        k <= n,
                        ok ==> joined_text(vs.take(k as int)) == Some(text@),
                        !ok ==> joined_text(vs.take(k as int)) is None,
                    decreases n - k,
                {
                    let v = if k < n - m { Value::Nil } else { copy_value(&self.call_stack[fi].stack[(len - m) + (k - (n - m))]) };
                    assert(v == vs[k as int]);
                    assert(vs.take(k + 1).drop_last() =~= vs.take(k as int));
                    match v.to_string() {
                        Some(t) => {
                            if ok {
                                text.append(t.as_str());
                            }
                        },
                        None => {
                            ok = false;
                        },
                    }
                    k += 1;
                }
                assert(vs.take(n as int) =~= vs);
                if !ok {
                    return None;
                }
                let _vs = self.pop_n_at(fi, n);
                let v = Value::Str(Rc::new(text));
                self.push_at(fi, v);
                proof {
                    assert(self.machine().frames =~= m0.frames.update(fi as int, pushed(popped_n(c, n as nat).1, v)));
                }
            },
            _ => {},
        }
        Some(FrameAction::Continue)
    }

    /// `exec_insn` for reading and walking arrays and maps, and for pops and re-pushes.
    #[verifier::spinoff_prover]
    #[verifier::rlimit(60)]
    fn exec_walk(&mut self, fi: usize, insn: &Instruction) -> (r: Option<FrameAction<Value<N>>>)
        requires
            fi < old(self).call_stack@.len(),
            insn_fits(old(self).machine(), fi as int, insn_view(*insn)),
            is_walk_insn(insn_view(*insn)) && !(insn_view(*insn) is StringPush),
        ensures
            final(self).call_stack@.len() == old(self).call_stack@.len(),
            rest_same(*old(self), *final(self)),
            step_ok(old(self).machine(), fi as int, insn_view(*insn), final(self).machine(), r),
    {
        let ghost m0 = self.machine();
        let ghost c = m0.frames[fi as int];
        match insn {
            Instruction::Pop | Instruction::PopOld => {
                let _v = self.pop_at(fi);
            },
            Instruction::Eval => {
                let v = self.pop_at(fi);
                self.push_at(fi, v);
                proof {
                    assert(self.machine().frames =~= m0.frames.update(fi as int, pushed(popped(c).1, v)));
                }
            },
            Instruction::ObjectSelector { .. } | Instruction::ElementEval => {
                let (key, obj) = self.top_two(fi);
                match element_value(&obj, &key) {
                    None => {
                        return None;
                    },
                    Some(v) => {
                        let _k = self.pop_at(fi);
                        let _o = self.pop_at(fi);
                        self.push_at(fi, v);
                        proof {
                            assert(self.machine().frames =~= m0.frames.update(
                                fi as int,
                                pushed(popped(popped(c).1).1, v),
                            ));
                        }
                    },
                }
            },
            Instruction::IteratorNext { target, var_index } => {
                let arr = self.pop_at(fi);
                let ghost c1 = popped(c).1;
                match arr {
                    Value::Array(a) => {
                        if a.len() == 0 {
                            self.jump_at(fi, *target);
                            proof {
                                assert(self.machine().frames =~= m0.frames.update(fi as int, jumped(c1, *target)));
                            }
                        } else {
                            let first = copy_value(&a[0]);
                            self.write_local_at(fi, *var_index, first);
                            let v = Value::Array(Rc::new(copy_tail(&*a)));
                            self.push_at(fi, v);
                            proof {
                                assert(self.machine().frames =~= m0.frames.update(
                                    fi as int,
                                    pushed(CallV { locals: put_fixed(c1.locals, *var_index as int, (*a)@[0]), ..c1 }, v),
                                ));
                            }
                        }
                    },
                    _ => {
                        self.jump_at(fi, *target);
                        proof {
                            assert(self.machine().frames =~= m0.frames.update(fi as int, jumped(c1, *target)));
                        }
                    },
                }
            },
            _ => {},
        }
        Some(FrameAction::Continue)
    }

}

impl<N, F> Engine<N, F> {
    /// `exec_insn` for the operators, jumps and state changes, and the instructions
    /// that leave the machine as it is.
    #[verifier::spinoff_prover]
    #[verifier::rlimit(60)]
    fn exec_control(&mut self, fi: usize, insn: &Instruction) -> (r: Option<FrameAction<Value<N>>>)
        requires
            fi < old(self).call_stack@.len(),
            insn_fits(old(self).machine(), fi as int, insn_view(*insn)),
            !is_data_insn(insn_view(*insn)),
            !is_build_insn(insn_view(*insn)),
            !is_walk_insn(insn_view(*insn)),
        ensures
            final(self).call_stack@.len() == old(self).call_stack@.len(),
            rest_same(*old(self), *final(self)),
            step_ok(old(self).machine(), fi as int, insn_view(*insn), final(self).machine(), r),
    {
        let ghost m0 = self.machine();
        let ghost c = m0.frames[fi as int];
        match insn {
            Instruction::UnaryOperator { op } => {
                let a = self.pop_at(fi);
                let v = unary_value(op.as_str(), a);
                self.push_at(fi, v);
                proof {
                    assert(self.machine().frames =~= m0.frames.update(fi as int, pushed(popped(c).1, v)));
                }
            },
            Instruction::BinaryOperator { op } => {
                let (b, a) = self.top_two(fi);
                match binary_op(&a, &b, op.as_str()) {
                    None => {
                        return None;
                    },
                    Some(v) => {
                        let _b = self.pop_at(fi);
                        let _a = self.pop_at(fi);
                        self.push_at(fi, v);
                        proof {
                            assert(self.machine().frames =~= m0.frames.update(
                                fi as int,
                                pushed(popped(popped(c).1).1, v),
                            ));
                        }
                    },
                }
            },
            Instruction::LogicalAnd { target } | Instruction::LogicalAndOld { target } => {
                let v = self.pop_at(fi);
                let ghost c1 = popped(c).1;
                if !v.truthy() {
                    self.push_at(fi, v);
                    self.jump_at(fi, *target);
                    proof {
                        assert(self.machine().frames =~= m0.frames.update(fi as int, jumped(pushed(c1, v), *target)));
                    }
                }
            },
            Instruction::LogicalOr { target } | Instruction::LogicalOrOld { target } => {
                let v = self.pop_at(fi);
                let ghost c1 = popped(c).1;
                if v.truthy() {
                    self.push_at(fi, v);
                    self.jump_at(fi, *target);
                    proof {
                        assert(self.machine().frames =~= m0.frames.update(fi as int, jumped(pushed(c1, v), *target)));
                    }
                }
            },
            Instruction::Jump { target } => {
                self.jump_at(fi, *target);
            },
            Instruction::JumpIfFalse { target } => {
                let v = self.pop_at(fi);
                if !v.truthy() {
                    self.jump_at(fi, *target);
                    proof {
                        assert(self.machine().frames =~= m0.frames.update(fi as int, jumped(popped(c).1, *target)));
                    }
                }
            },
            Instruction::JumpIfTrue { target } => {
                let v = self.pop_at(fi);
                if v.truthy() {
                    self.jump_at(fi, *target);
                    proof {
                        assert(self.machine().frames =~= m0.frames.update(fi as int, jumped(popped(c).1, *target)));
                    }
                }
            },
            Instruction::JumpIfNil { target } => {
                let v = self.pop_at(fi);
                let is_nil = match v {
                    Value::Nil => true,
                    _ => false,
                };
                if is_nil {
                    self.jump_at(fi, *target);
                    proof {
                        assert(self.machine().frames =~= m0.frames.update(fi as int, jumped(popped(c).1, *target)));
                    }
                }
            },
            Instruction::Switch { default_target, case_count } => {
                let v = self.pop_at(fi);
                self.set_switch_at(fi, Some(v), Some(*default_target), *case_count as usize);
                proof {
                    let c1 = popped(c).1;
                    assert(self.machine().frames =~= m0.frames.update(
                        fi as int,
                        CallV {
                            switch_value: Some(v),
                            switch_default: Some(*default_target),
                            switch_remaining: *case_count as usize,
                            ..c1
                        },
                    ));
                }
            },
            Instruction::Case { value, target } => {
                assert(c == call_view(self.call_stack@[fi as int]));
                let matched = match &self.call_stack[fi].switch_value {
                    Some(sv) => match sv.as_i32() {
                        Some(x) => x == *value,
                        None => false,
                    },
                    None => false,
                };
                let rem = self.call_stack[fi].switch_remaining;
                let dflt = self.call_stack[fi].switch_default;
                if matched {
                    self.jump_at(fi, *target);
                    self.set_switch_at(fi, None, dflt, 0);
                } else if rem - 1 == 0 {
                    match dflt {
                        Some(d) => self.jump_at(fi, d),
                        None => {},
                    }
                    self.set_switch_at(fi, None, dflt, 0);
                } else {
                    let sv = match &self.call_stack[fi].switch_value {
                        Some(x) => Some(copy_value(x)),
                        None => None,
                    };
                    self.set_switch_at(fi, sv, dflt, rem - 1);
                }
                proof {
                    assert(self.machine().frames =~= m0.frames.update(fi as int, after_case(c, *value, *target)));
                }
            },
            Instruction::JumpUndefined { target } | Instruction::JumpDefined { target } => {
                let (v, _w) = self.top_two(fi);
                let undefined = match v {
                    Value::Nil | Value::Void => true,
                    _ => false,
                };
                let want = match insn {
                    Instruction::JumpUndefined { .. } => true,
                    _ => false,
                };
                if undefined == want {
                    self.jump_at(fi, *target);
                } else {
                    proof {
                        assert(m0.frames.update(fi as int, c) =~= m0.frames);
                    }
                }
            },
            Instruction::BigIntConst => {
                self.push_at(fi, Value::Int(0));
            },
            Instruction::TemplateConst => {
                self.push_at(fi, Value::Str(Rc::new(String::new())));
            },
            Instruction::SetState { state } => {
                if *state == 1 {
                    let ret = self.pop_at(fi);
                    self.set_state_at(fi, FrameState::Returned);
                    proof {
                        assert(self.machine().frames =~= m0.frames.update(
                            fi as int,
                            CallV { state: FrameState::Returned, ..popped(c).1 },
                        ));
                    }
                    return Some(FrameAction::Return(ret));
                } else if *state == 2 {
                    self.set_state_at(fi, FrameState::Yielded);
                    return Some(FrameAction::Yield);
                }
            },
            _ => {},
        }
        Some(FrameAction::Continue)
    }

    /// Runs instruction `insn` in call frame `fi` (see `step_ok`): it returns what the
    /// loop that runs the frame does next, or `None`, with nothing changed, where the
    /// step needs float arithmetic or formatting, or an equality the library does not
    /// decide.
    pub fn exec_insn(&mut self, fi: usize, insn: &Instruction) -> (r: Option<FrameAction<Value<N>>>)
        requires
            fi < old(self).call_stack@.len(),
            insn_fits(old(self).machine(), fi as int, insn_view(*insn)),
        ensures
            final(self).call_stack@.len() == old(self).call_stack@.len(),
            rest_same(*old(self), *final(self)),
            step_ok(old(self).machine(), fi as int, insn_view(*insn), final(self).machine(), r),
    {
        let ghost i = insn_view(*insn);
        if Self::data_kind(insn) {
            self.exec_data(fi, insn)
        } else if Self::build_kind(insn) {
            self.exec_build(fi, insn)
        } else if Self::string_push_kind(insn) {
            self.exec_string_push(fi, insn)
        } else if Self::walk_kind(insn) {
            self.exec_walk(fi, insn)
        } else {
            self.exec_control(fi, insn)
        }
    }

    /// Whether `insn` is one of `is_data_insn`.
    fn data_kind(insn: &Instruction) -> (b: bool)
        ensures
            b == is_data_insn(insn_view(*insn)),
    {
        match insn {
            Instruction::NilConst | Instruction::VoidConst | Instruction::BoolConst { .. } | Instruction::IntConst { .. }
            | Instruction::UIntConst { .. } | Instruction::FloatConst { .. } | Instruction::DoubleConst { .. }
            | Instruction::LongConst { .. } | Instruction::StringConst { .. } | Instruction::SymbolConst { .. }
            | Instruction::VariablePush { .. } | Instruction::VariableEval { .. } | Instruction::StaticDefine { .. }
            | Instruction::AttributeDefine { .. } | Instruction::AssignPop | Instruction::Assign { .. }
            | Instruction::AssignOld { .. } | Instruction::BinaryAssignOperator { .. } => true,
            _ => false,
        }
    }

    /// Whether `insn` is one of `is_build_insn`.
    fn build_kind(insn: &Instruction) -> (b: bool)
        ensures
            b == is_build_insn(insn_view(*insn)),
    {
        match insn {
            Instruction::ArrayConst { .. } | Instruction::ArrayConstOld { .. } | Instruction::ArrayPush
            | Instruction::MapConst | Instruction::MapConstOld | Instruction::MapInsert | Instruction::ElementPush => true,
            _ => false,
        }
    }

    /// Whether `insn` joins strings.
    fn string_push_kind(insn: &Instruction) -> (b: bool)
        ensures
            b == (insn_view(*insn) is StringPush),
    {
        match insn {
            Instruction::StringPush { .. } => true,
            _ => false,
        }
    }

    /// Whether `insn` is one of `is_walk_insn`.
    fn walk_kind(insn: &Instruction) -> (b: bool)
        ensures
            b == is_walk_insn(insn_view(*insn)),
    {
        match insn {
            Instruction::StringPush { .. } | Instruction::Pop | Instruction::PopOld | Instruction::Eval
            | Instruction::ObjectSelector { .. } | Instruction::ElementEval | Instruction::IteratorNext { .. } => true,
            _ => false,
        }
    }
}

/// Whether operator `op` overflows on `a` and `b` (see `binary_op_overflows`).
fn overflows<N>(a: &Value<N>, b: &Value<N>, op: BinOp) -> (r: bool)
    ensures
        r == binary_op_overflows(*a, *b, op),
{
    match (a, b) {
        (Value::Int(x), Value::Int(y)) => {
            let p: i64 = *x as i64;
            let q: i64 = *y as i64;
            match op {
                BinOp::Add => p + q < i32::MIN as i64 || p + q > i32::MAX as i64,
                BinOp::Sub => p - q < i32::MIN as i64 || p - q > i32::MAX as i64,
                BinOp::Mul => {
                    assert(-0x4000_0000_0000_0000 <= p * q <= 0x4000_0000_0000_0000) by (nonlinear_arith)
                        requires
                            -0x8000_0000 <= p <= 0x7fff_ffff,
                            -0x8000_0000 <= q <= 0x7fff_ffff,
                    ;
                    p * q < i32::MIN as i64 || p * q > i32::MAX as i64
                },
                BinOp::Div | BinOp::Mod => *x == i32::MIN && *y == -1,
                _ => false,
            }
        },
        (Value::UInt(x), Value::UInt(y)) => match op {
            BinOp::Add => *x as u64 + *y as u64 > u32::MAX as u64,
            _ => false,
        },
        _ => false,
    }
}

/// The code frame that a call frame runs: the one at `idx`, or the first for an index
/// past the end.
pub open spec fn code_of(frames: Seq<CodeFrame>, idx: usize) -> CodeFrame {
    if idx < frames.len() {
        frames[idx as int]
    } else {
        frames[0]
    }
}

/// The message for a run that reached its instruction limit.
pub open spec fn limit_text(max: u64) -> Seq<char> {
    "Hit instruction limit ("@ + decimal_text(max as nat) + ")"@
}

/// The message for an instruction whose arithmetic would overflow (see `insn_fits`).
pub open spec fn overflow_text() -> Seq<char> {
    "Arithmetic overflow"@
}

impl<N, F> Engine<N, F> {
    /// Whether `insn` runs without overflow in frame `fi` (see `insn_fits`).
    fn fits(&self, fi: usize, insn: &Instruction) -> (b: bool)
        requires
            fi < self.call_stack@.len(),
        ensures
            b == insn_fits(self.machine(), fi as int, insn_view(*insn)),
    {
        let ghost c = self.machine().frames[fi as int];
        assert(c == call_view(self.call_stack@[fi as int]));
        match insn {
            Instruction::StaticDefine { .. } => self.next_static_slot < usize::MAX,
            Instruction::AssignPop | Instruction::Assign { .. } => {
                !self.call_stack[fi].last_var_push_static || self.call_stack[fi].last_var_push_index >= 0
            },
            Instruction::StringPush { count } => *count >= 0,
            Instruction::Case { value, .. } => {
                let matched = match &self.call_stack[fi].switch_value {
                    Some(sv) => match sv.as_i32() {
                        Some(x) => x == *value,
                        None => false,
                    },
                    None => false,
                };
                matched || self.call_stack[fi].switch_remaining > 0
            },
            Instruction::UnaryOperator { op } => {
                let (a, _b) = self.top_two(fi);
                let neg = str_eq(op.as_str(), "-@") || str_eq(op.as_str(), "__uminus__");
                let least = match a {
                    Value::Int(x) => x == i32::MIN,
                    _ => false,
                };
                !(neg && least)
            },
            Instruction::BinaryOperator { op } => {
                let (b, a) = self.top_two(fi);
                match bin_op(op.as_str()) {
                    None => true,
                    Some(o) => !overflows(&a, &b, o),
                }
            },
            _ => true,
        }
    }

    /// Runs the instruction at frame `fi`'s instruction pointer: past the end of its
    /// code the frame exits; at the instruction limit the run fails; otherwise the count
    /// goes up, the pointer moves to the next instruction and the instruction runs (see
    /// `step_ok`), unless its arithmetic would overflow.
    #[verifier::spinoff_prover]
    #[verifier::rlimit(60)]
    pub fn exec_frame(&mut self, fi: usize) -> (r: Result<Option<FrameAction<Value<N>>>, String>)
        requires
            fi < old(self).call_stack@.len(),
            old(self).modules.frames@.len() > 0,
        ensures
            final(self).modules == old(self).modules,
            final(self).natives == old(self).natives,
            final(self).max_instructions == old(self).max_instructions,
            final(self).current_module_index == old(self).current_module_index,
            final(self).call_stack@.len() == old(self).call_stack@.len(),
            ({
                let m0 = old(self).machine();
                let c = m0.frames[fi as int];
                let code = code_of(old(self).modules.frames@, c.frame_index);
                if c.ip < 0 || c.ip >= code.instructions@.len() {
                    &&& r == Ok::<Option<FrameAction<Value<N>>>, String>(Some(FrameAction::Exit))
                    &&& final(self).machine() == m0
                    &&& final(self).insn_count == old(self).insn_count
                } else if old(self).insn_count >= old(self).max_instructions {
                    &&& r matches Err(e) && e@ == limit_text(old(self).max_instructions)
                    &&& final(self).machine() == m0
                    &&& final(self).insn_count == old(self).insn_count
                } else {
                    let m1 = with_frame(m0, fi as int, jumped(c, (c.ip + 1) as i32));
                    let i = insn_view(code.instructions@[c.ip as int]);
                    &&& final(self).insn_count == old(self).insn_count + 1
                    &&& if insn_fits(m1, fi as int, i) {
                        r matches Ok(out) && step_ok(m1, fi as int, i, final(self).machine(), out)
                    } else {
                        r matches Err(e) && e@ == overflow_text() && final(self).machine() == m1
                    }
                }
            }),
    {
        let ghost m0 = self.machine();
        assert(m0.frames[fi as int] == call_view(self.call_stack@[fi as int]));
        let ip = self.call_stack[fi].instruction_ptr;
        let mut modules = ModuleRegistry::new();
        std::mem::swap(&mut modules, &mut self.modules);
        let ghost saved = modules;
        let code = modules.get_frame(self.call_stack[fi].frame_index);
        if ip < 0 || ip as usize >= code.instructions.len() {
            std::mem::swap(&mut modules, &mut self.modules);
            return Ok(Some(FrameAction::Exit));
        }
        if self.insn_count >= self.max_instructions {
            std::mem::swap(&mut modules, &mut self.modules);
            let mut e = String::from_str("Hit instruction limit (");
            push_decimal(&mut e, self.max_instructions);
            e.append(")");
            return Err(e);
        }
        self.insn_count = self.insn_count + 1;
        let next: i32 = (ip as usize + 1) as i32;
        self.jump_at(fi, next);
        let insn = &code.instructions[ip as usize];
        let r = if self.fits(fi, insn) {
            Ok(self.exec_insn(fi, insn))
        } else {
            Err(String::from_str("Arithmetic overflow"))
        };
        std::mem::swap(&mut modules, &mut self.modules);
        r
    }
}

/// The message for a step that needs float arithmetic or formatting, or an equality
/// that the library does not decide.
pub open spec fn undecided_text() -> Seq<char> {
    "Step not computed"@
}

/// A point of a run: the machine and the number of instructions run so far.
pub struct RunState<N> {
    pub m: MachineV<N>,
    pub count: u64,
}

/// How one round of the run loop ends: the run goes on, the last frame is done with a
/// value, a frame yields, or the run fails with a message.
pub enum RoundEnd<N> {
    Next,
    Done(Value<N>),
    Paused,
    Failed(String),
}

/// The machine without its innermost call frame.
pub open spec fn after_exit<N>(m: MachineV<N>) -> MachineV<N> {
    MachineV { frames: m.frames.drop_last(), ..m }
}

/// The machine after its innermost call frame returned `v` to the one below it.
pub open spec fn after_return<N>(m: MachineV<N>, v: Value<N>) -> MachineV<N> {
    let fs = m.frames.drop_last();
    MachineV { frames: fs.update(fs.len() - 1, pushed(fs.last(), v)), ..m }
}

/// What the run loop makes of what the innermost frame's instruction told it (`out`,
/// with the machine at `m2`): the machine `m3` and how the round ends. A return or an
/// exit drops the frame (a return hands its value to the frame below); when no frame is
/// left the run is done.
pub open spec fn round_finish<N>(m2: MachineV<N>, out: Option<FrameAction<Value<N>>>, m3: MachineV<N>, o: RoundEnd<N>) -> bool {
    match out {
        None => m3 == m2 && (o matches RoundEnd::Failed(x) && x@ == undecided_text()),
        Some(FrameAction::Continue) => m3 == m2 && o == RoundEnd::<N>::Next,
        Some(FrameAction::Return(v)) => if m2.frames.len() == 1 {
            m3 == after_exit(m2) && o == RoundEnd::Done(v)
        } else {
            m3 == after_return(m2, v) && o == RoundEnd::<N>::Next
        },
        Some(FrameAction::Exit) => m3 == after_exit(m2) && o == (if m2.frames.len() == 1 {
            RoundEnd::Done(Value::Void)
        } else {
            RoundEnd::<N>::Next
        }),
        Some(FrameAction::Yield) => m3 == m2 && o == RoundEnd::<N>::Paused,
    }
}

/// One round of the run loop from `s0` (see `exec_frame`): the innermost frame runs its
/// next instruction, or exits past the end of its code; the run fails at the
/// instruction limit, on an instruction whose arithmetic would overflow, or on a step
/// that is not computed.
pub open spec fn round_ok<N>(codes: Seq<CodeFrame>, max: u64, s0: RunState<N>, s1: RunState<N>, o: RoundEnd<N>) -> bool {
    let fi = s0.m.frames.len() - 1;
    let c = s0.m.frames[fi];
    let code = code_of(codes, c.frame_index);
    if c.ip < 0 || c.ip >= code.instructions@.len() {
        &&& s1 == RunState { m: after_exit(s0.m), count: s0.count }
        &&& o == (if fi == 0 { RoundEnd::Done(Value::Void) } else { RoundEnd::<N>::Next })
    } else if s0.count >= max {
        s1 == s0 && (o matches RoundEnd::Failed(x) && x@ == limit_text(max))
    } else {
        let m1 = with_frame(s0.m, fi, jumped(c, (c.ip + 1) as i32));
        let i = insn_view(code.instructions@[c.ip as int]);
        &&& s1.count == s0.count + 1
        &&& if !insn_fits(m1, fi, i) {
            s1.m == m1 && (o matches RoundEnd::Failed(x) && x@ == overflow_text())
        } else {
            exists|m2: MachineV<N>, out: Option<FrameAction<Value<N>>>|
                #[trigger] step_ok(m1, fi, i, m2, out) && round_finish(m2, out, s1.m, o)
        }
    }
}

/// Round `k` of the run `tr` starts with a call frame, below the count `target`, and goes on.
pub open spec fn goes_on<N>(codes: Seq<CodeFrame>, max: u64, target: int, tr: Seq<RunState<N>>, k: int) -> bool {
    &&& tr[k].count < target
    &&& tr[k].m.frames.len() > 0
    &&& round_ok(codes, max, tr[k], tr[k + 1], RoundEnd::Next)
}

/// `tr` is a run of rounds that each go on (see `goes_on`).
pub open spec fn run_from<N>(codes: Seq<CodeFrame>, max: u64, target: int, tr: Seq<RunState<N>>) -> bool {
    &&& tr.len() >= 1
    &&& forall|k: int| 0 <= k < tr.len() - 1 ==> #[trigger] goes_on(codes, max, target, tr, k)
}

/// How a run that reached `s` ends at `s_end` with `r`: at the count `target` it stops
/// with nothing; otherwise a last round ends it, done with the value of the last frame,
/// paused by a yield, or failed with its message.
pub open spec fn run_end<N>(
    codes: Seq<CodeFrame>,
    max: u64,
    target: int,
    s: RunState<N>,
    s_end: RunState<N>,
    r: Result<Option<Value<N>>, String>,
) -> bool {
    if s.count >= target {
        s_end == s && r == Ok::<Option<Value<N>>, String>(None)
    } else {
        exists|o: RoundEnd<N>|
            #[trigger] round_ok(codes, max, s, s_end, o) && match o {
                RoundEnd::Next => false,
                RoundEnd::Done(v) => r == Ok::<Option<Value<N>>, String>(Some(v)),
                RoundEnd::Paused => r == Ok::<Option<Value<N>>, String>(None),
                RoundEnd::Failed(e) => r matches Err(x) && x@ == e@,
            }
    }
}

/// The call frame a code frame `idx` starts with: first instruction, `local_count` empty
/// locals, empty stack, registers cleared, statics from `base`.
pub open spec fn fresh_call<V>(idx: usize, local_count: i32, base: usize) -> CallV<V> {
    CallV {
        locals: empty_cells::<V>(if local_count > 0 { local_count as int } else { 0 }),
        ip: 0,
        frame_index: idx,
        stack: Seq::empty(),
        return_value: None,
        state: FrameState::Running,
        try_catch_target: None,
        static_base: base,
        local_def_counter: 0,
        var_index: 0,
        var_static: false,
        switch_value: None,
        switch_default: None,
        switch_remaining: 0,
    }
}

/// The call frames for the loaded code frames `cfs`, added as code frames `n0` on, each
/// with its statics after the last one's (at least one slot each) from `base`; and where
/// the next statics start. `None` where that runs past the largest slot number.
pub open spec fn loaded_calls<V>(cfs: Seq<CodeFrame>, n0: int, base: int) -> Option<(Seq<CallV<V>>, int)>
    decreases cfs.len(),
{
    if cfs.len() == 0 {
        Some((Seq::empty(), base))
    } else {
        let cf = cfs[0];
        let st = if cf.static_var_count > 1 { cf.static_var_count as int } else { 1 };
        if base + st > usize::MAX {
            None
        } else {
            match loaded_calls::<V>(cfs.drop_first(), n0 + 1, base + st) {
                None => None,
                Some((cs, e)) => Some((seq![fresh_call::<V>(n0 as usize, cf.local_var_count, base as usize)] + cs, e)),
            }
        }
    }
}

/// The machine with the call frames `cs` added on top.
pub open spec fn with_calls<N>(m: MachineV<N>, cs: Seq<CallV<Value<N>>>) -> MachineV<N> {
    MachineV { frames: m.frames + cs, ..m }
}

/// The machine's state and count as a point of a run.
pub open spec fn run_state<N, F>(e: Engine<N, F>) -> RunState<N> {
    RunState { m: e.machine(), count: e.insn_count }
}

/// Dropping the last frame drops its state.
proof fn lemma_frames_drop_last<N>(s: Seq<Frame<Value<N>>>)
    requires
        s.len() > 0,
    ensures
        s.drop_last().map_values(|x: Frame<Value<N>>| call_view(x)) == s.map_values(
            |x: Frame<Value<N>>| call_view(x),
        ).drop_last(),
{
    assert(s.drop_last().map_values(|x: Frame<Value<N>>| call_view(x)) =~= s.map_values(
        |x: Frame<Value<N>>| call_view(x),
    ).drop_last());
}

/// Adding a frame adds its state.
proof fn lemma_frames_push<N>(s: Seq<Frame<Value<N>>>, f: Frame<Value<N>>)
    ensures
        s.push(f).map_values(|x: Frame<Value<N>>| call_view(x)) == s.map_values(
            |x: Frame<Value<N>>| call_view(x),
        ).push(call_view(f)),
{
    assert(s.push(f).map_values(|x: Frame<Value<N>>| call_view(x)) =~= s.map_values(
        |x: Frame<Value<N>>| call_view(x),
    ).push(call_view(f)));
}

impl<N, F> Engine<N, F> {
    /// The instructions run so far.
    pub fn get_insn_count(&self) -> (n: u64)
        ensures
            n == self.insn_count,
    {
        self.insn_count
    }

    /// Adds the code frames loaded since the last run (see `loaded_calls`), each with a
    /// call frame of its own on top of the call stack.
    fn start_loaded(&mut self, loaded: &mut Vec<CodeFrame>) -> (ok: bool)
        ensures
            final(loaded)@.len() == 0,
            final(self).insn_count == old(self).insn_count,
            final(self).max_instructions == old(self).max_instructions,
            final(self).natives == old(self).natives,
            match loaded_calls::<Value<N>>(
                old(loaded)@,
                old(self).modules.frames@.len() as int,
                old(self).current_module_index as int,
            ) {
                None => !ok,
                Some((cs, e)) => {
                    &&& ok
                    &&& final(self).machine() == with_calls(old(self).machine(), cs)
                    &&& final(self).modules.frames@ == old(self).modules.frames@ + old(loaded)@
                    &&& final(self).current_module_index == e
                },
            },
    {
        let mut pending: Vec<CodeFrame> = Vec::new();
        std::mem::swap(&mut pending, loaded);
        let ghost orig = pending@;
        let ghost m0 = self.machine();
        let ghost codes0 = self.modules.frames@;
        let ghost n0 = codes0.len() as int;
        let ghost whole = loaded_calls::<Value<N>>(orig, n0, self.current_module_index as int);
        let ghost mut k: int = 0;
        let ghost mut added: Seq<CallV<Value<N>>> = Seq::empty();
        proof {
            assert(orig.skip(0) =~= orig);
            assert(m0.frames + added =~= m0.frames);
            assert(codes0 + orig.take(0) =~= codes0);
        }
        while pending.len() > 0
            invariant
                0 <= k <= orig.len(),
                orig == old(loaded)@,
                pending@ == orig.skip(k),
                loaded@.len() == 0,
                n0 == codes0.len(),
                codes0 == old(self).modules.frames@,
                m0 == old(self).machine(),
                self.modules.frames@ == codes0 + orig.take(k),
                self.machine() == with_calls(m0, added),
                self.insn_count == old(self).insn_count,
                self.max_instructions == old(self).max_instructions,
                self.natives == old(self).natives,
                whole == loaded_calls::<Value<N>>(orig, n0, old(self).current_module_index as int),
                whole == match loaded_calls::<Value<N>>(orig.skip(k), n0 + k, self.current_module_index as int) {
                    None => None,
                    Some((cs, e)) => Some((added + cs, e)),
                },
            decreases pending@.len(),
        {
            let ghost rest = orig.skip(k);
            let cf = pending.remove(0);
            proof {
                assert(rest[0] == cf);
                assert(rest.drop_first() =~= orig.skip(k + 1));
            }
            let statics: i32 = if cf.static_var_count > 1 { cf.static_var_count } else { 1 };
            let stack_size = cf.stack_size;
            let locals = cf.local_var_count;
            let base = self.current_module_index;
            let ghost before = self.call_stack@;
            let idx = self.modules.add_frame(cf);
            proof {
                assert(self.modules.frames@ =~= codes0 + orig.take(k + 1));
            }
            match base.checked_add(statics as usize) {
                Some(b) => {
                    self.current_module_index = b;
                },
                None => {
                    assert(loaded_calls::<Value<N>>(rest, n0 + k, base as int) is None);
                    return false;
                },
            }
            let f = Frame::new(idx, stack_size, locals, base);
            assert(f.stack@ =~= Seq::<Value<N>>::empty());
            let ghost cv = call_view(f);
            assert(cv == fresh_call::<Value<N>>(idx, locals, base));
            self.call_stack.push(f);
            proof {
                lemma_frames_push(before, f);
                assert(added.push(cv) + Seq::<CallV<Value<N>>>::empty() =~= added.push(cv));
                assert(m0.frames + added.push(cv) =~= (m0.frames + added).push(cv));
                match loaded_calls::<Value<N>>(orig.skip(k + 1), n0 + k + 1, self.current_module_index as int) {
                    None => {},
                    Some((cs, e)) => {
                        assert(added + (seq![cv] + cs) =~= added.push(cv) + cs);
                    },
                }
                added = added.push(cv);
                k = k + 1;
            }
        }
        proof {
            assert(orig.skip(k).len() == 0);
            assert(k == orig.len());
            assert(orig.take(k) =~= orig);
            assert(added + Seq::<CallV<Value<N>>>::empty() =~= added);
        }
        true
    }

    /// The run loop's handling of what the innermost frame's instruction told it (see
    /// `round_finish`): a return or exit drops the frame, a return's value goes to the
    /// frame below.
    fn finish_round(&mut self, out: Option<FrameAction<Value<N>>>) -> (o: RoundEnd<N>)
        requires
            old(self).call_stack@.len() > 0,
        ensures
            round_finish(old(self).machine(), out, final(self).machine(), o),
            final(self).modules == old(self).modules,
            final(self).insn_count == old(self).insn_count,
            final(self).max_instructions == old(self).max_instructions,
            final(self).natives == old(self).natives,
            final(self).current_module_index == old(self).current_module_index,
            final(self).call_stack@.len() == old(self).call_stack@.len() || final(self).call_stack@.len()
                == old(self).call_stack@.len() - 1,
            o is Next ==> final(self).call_stack@.len() > 0,
    {
        let ghost m2 = self.machine();
        match out {
            None => RoundEnd::Failed(String::from_str("Step not computed")),
            Some(FrameAction::Continue) => RoundEnd::Next,
            Some(FrameAction::Yield) => RoundEnd::Paused,
            Some(FrameAction::Return(val)) => {
                let ghost before = self.call_stack@;
                let _done = self.call_stack.pop();
                proof {
                    lemma_frames_drop_last(before);
                    assert(self.machine() == after_exit(m2));
                }
                if self.call_stack.len() == 0 {
                    return RoundEnd::Done(val);
                }
                let last = self.call_stack.len() - 1;
                let ghost mid = self.call_stack@;
                self.call_stack[last].push(val);
                proof {
                    lemma_frame_update(mid, last as int, self.call_stack@[last as int]);
                    assert(self.machine().frames =~= after_return(m2, val).frames);
                }
                RoundEnd::Next
            },
            Some(FrameAction::Exit) => {
                let ghost before = self.call_stack@;
                let _done = self.call_stack.pop();
                proof {
                    lemma_frames_drop_last(before);
                    assert(self.machine() == after_exit(m2));
                }
                if self.call_stack.len() == 0 {
                    RoundEnd::Done(Value::Void)
                } else {
                    RoundEnd::Next
                }
            },
        }
    }
}

impl<N, F> Engine<N, F> {
    /// Runs instructions of the innermost call frame until `max_insns` more have run,
    /// the last frame is done, a frame yields or the run fails (see `run_from` and
    /// `run_end`). The code frames in `loaded` are added first (see `loaded_calls`);
    /// with no call frame, or no instruction to run, nothing happens.
    #[verifier::spinoff_prover]
    #[verifier::rlimit(100)]
    pub fn execute_frame(&mut self, max_insns: u64, loaded: &mut Vec<CodeFrame>) -> (r: Result<Option<Value<N>>, String>)
        requires
            old(self).insn_count + max_insns <= u64::MAX,
            old(self).call_stack@.len() == 0 || old(self).modules.frames@.len() > 0,
        ensures
            final(self).max_instructions == old(self).max_instructions,
            (old(self).call_stack@.len() == 0 || max_insns == 0) ==> ({
                &&& r == Ok::<Option<Value<N>>, String>(None)
                &&& run_state(*final(self)) == run_state(*old(self))
                &&& final(loaded)@ == old(loaded)@
            }),
            (old(self).call_stack@.len() > 0 && max_insns > 0) ==> ({
                let codes = old(self).modules.frames@ + old(loaded)@;
                let target = old(self).insn_count + max_insns;
                &&& final(loaded)@.len() == 0
                &&& match loaded_calls::<Value<N>>(
                    old(loaded)@,
                    old(self).modules.frames@.len() as int,
                    old(self).current_module_index as int,
                ) {
                    None => r matches Err(e) && e@ == "Static slots overflow"@,
                    Some((cs, _)) => exists|tr: Seq<RunState<N>>|
                        #[trigger] run_from(codes, old(self).max_instructions, target, tr) && tr[0] == (RunState {
                            m: with_calls(old(self).machine(), cs),
                            count: old(self).insn_count,
                        }) && run_end(codes, old(self).max_instructions, target, tr.last(), run_state(*final(self)), r),
                }
            }),
    {
        let start = self.insn_count;
        let target = start + max_insns;
        if self.call_stack.len() == 0 {
            return Ok(None);
        }
        if self.insn_count >= target {
            return Ok(None);
        }
        if !self.start_loaded(loaded) {
            return Err(String::from_str("Static slots overflow"));
        }
        let ghost codes = self.modules.frames@;
        let ghost max = self.max_instructions;
        let ghost first = run_state(*self);
        let ghost mut tr: Seq<RunState<N>> = seq![first];
        let ghost lc = loaded_calls::<Value<N>>(
            old(loaded)@,
            old(self).modules.frames@.len() as int,
            old(self).current_module_index as int,
        );
        proof {
            let cs = lc->Some_0.0;
            assert(self.machine().frames.len() == old(self).machine().frames.len() + cs.len());
            assert(self.call_stack@.len() == self.machine().frames.len());
            assert(old(self).call_stack@.len() == old(self).machine().frames.len());
        }
        while self.insn_count < target
            invariant
                old(self).call_stack@.len() > 0,
                max_insns > 0,
                loaded@.len() == 0,
                lc == loaded_calls::<Value<N>>(
                    old(loaded)@,
                    old(self).modules.frames@.len() as int,
                    old(self).current_module_index as int,
                ),
                lc matches Some((cs, _)) && first == (RunState { m: with_calls(old(self).machine(), cs), count: old(self).insn_count }),
                codes == old(self).modules.frames@ + old(loaded)@,
                self.call_stack@.len() > 0,
                self.modules.frames@ == codes,
                codes.len() > 0,
                self.max_instructions == max,
                max == old(self).max_instructions,
                target == old(self).insn_count + max_insns,
                start == old(self).insn_count,
                start <= self.insn_count <= target,
                run_from(codes, max, target as int, tr),
                tr[0] == first,
                tr.last() == run_state(*self),
            decreases target - self.insn_count, self.call_stack@.len(),
        {
            let ghost s0 = run_state(*self);
            let ghost len0 = self.call_stack@.len();
            assert(len0 == s0.m.frames.len());
            let fi = self.call_stack.len() - 1;
            let step = self.exec_frame(fi);
            match step {
                Err(e) => {
                    proof {
                        assert(round_ok(codes, max, s0, run_state(*self), RoundEnd::Failed(e)));
                    }
                    return Err(e);
                },
                Ok(out) => {
                    let ghost m2 = self.machine();
                    let ghost fout = out;
                    let o = self.finish_round(out);
                    proof {
                        let c = s0.m.frames[fi as int];
                        let code = code_of(codes, c.frame_index);
                        if 0 <= c.ip < code.instructions@.len() && s0.count < max {
                            let m1 = with_frame(s0.m, fi as int, jumped(c, (c.ip + 1) as i32));
                            let i = insn_view(code.instructions@[c.ip as int]);
                            if insn_fits(m1, fi as int, i) {
                                assert(step_ok(m1, fi as int, i, m2, fout));
                            }
                        }
                        assert(round_ok(codes, max, s0, run_state(*self), o));
                    }
                    match o {
                        RoundEnd::Next => {
                            proof {
                                assert(self.call_stack@.len() == self.machine().frames.len());
                                let c = s0.m.frames[fi as int];
                                let code = code_of(codes, c.frame_index);
                                if c.ip < 0 || c.ip >= code.instructions@.len() {
                                    assert(self.machine().frames.len() == len0 - 1);
                                } else {
                                    assert(self.insn_count == s0.count + 1);
                                }
                                let ntr = tr.push(run_state(*self));
                                assert forall|k: int| 0 <= k < ntr.len() - 1 implies #[trigger] goes_on(
                                    codes,
                                    max,
                                    target as int,
                                    ntr,
                                    k,
                                ) by {
                                    if k < tr.len() - 1 {
                                        assert(goes_on(codes, max, target as int, tr, k));
                                    }
                                }
                                tr = ntr;
                            }
                        },
                        RoundEnd::Done(v) => {
                            return Ok(Some(v));
                        },
                        RoundEnd::Paused => {
                            return Ok(None);
                        },
                        RoundEnd::Failed(e) => {
                            return Err(e);
                        },
                    }
                },
            }
        }
        Ok(None)
    }
}

/// Round `k` of the run `tr` starts with a call frame and goes on; a yield goes on too.
pub open spec fn keeps_going<N>(codes: Seq<CodeFrame>, max: u64, tr: Seq<RunState<N>>, k: int) -> bool {
    &&& tr[k].m.frames.len() > 0
    &&& (round_ok(codes, max, tr[k], tr[k + 1], RoundEnd::Next) || round_ok(
        codes,
        max,
        tr[k],
        tr[k + 1],
        RoundEnd::Paused,
    ))
}

/// `tr` is a run of rounds that each go on (see `keeps_going`).
pub open spec fn blocking_run<N>(codes: Seq<CodeFrame>, max: u64, tr: Seq<RunState<N>>) -> bool {
    &&& tr.len() >= 1
    &&& forall|k: int| 0 <= k < tr.len() - 1 ==> #[trigger] keeps_going(codes, max, tr, k)
}

/// How a run to the end that went through `n` points and reached `s` ends at `s_end`
/// with `r`: after a million rounds it gives up with `stuck`; otherwise a last round
/// ends it, done with the last frame's value or failed with its message.
pub open spec fn blocking_end<N>(
    codes: Seq<CodeFrame>,
    max: u64,
    n: nat,
    s: RunState<N>,
    s_end: RunState<N>,
    r: Result<Value<N>, String>,
    stuck: Seq<char>,
) -> bool {
    if n > 1_000_000 {
        s_end == s && (r matches Err(x) && x@ == stuck)
    } else {
        exists|o: RoundEnd<N>|
            #[trigger] round_ok(codes, max, s, s_end, o) && match o {
                RoundEnd::Done(v) => r == Ok::<Value<N>, String>(v),
                RoundEnd::Failed(e) => r matches Err(x) && x@ == e@,
                _ => false,
            }
    }
}

/// The call frames for the loaded code frames `cfs`, added as code frames `n0` on, with
/// their statics at slot 0.
pub open spec fn loaded_at_zero<V>(cfs: Seq<CodeFrame>, n0: int) -> Seq<CallV<V>> {
    Seq::new(cfs.len(), |k: int| fresh_call::<V>((n0 + k) as usize, cfs[k].local_var_count, 0))
}

/// The locals after writing `args` to the first of them, in order.
pub open spec fn written_args<V>(cells: Seq<Option<V>>, args: Seq<V>) -> Seq<Option<V>>
    decreases args.len(),
{
    if args.len() == 0 {
        cells
    } else {
        put_fixed(written_args(cells, args.drop_last()), (((args.len() - 1) as usize) as i32) as int, args.last())
    }
}

impl<N, F> Engine<N, F> {
    /// Adds the loaded code frames, each with a call frame on top of the call stack whose
    /// statics are at slot 0 (see `loaded_at_zero`).
    fn start_loaded_at_zero(&mut self, loaded: &mut Vec<CodeFrame>)
        ensures
            final(loaded)@.len() == 0,
            final(self).insn_count == old(self).insn_count,
            final(self).max_instructions == old(self).max_instructions,
            final(self).natives == old(self).natives,
            final(self).machine() == with_calls(
                old(self).machine(),
                loaded_at_zero::<Value<N>>(old(loaded)@, old(self).modules.frames@.len() as int),
            ),
            final(self).modules.frames@ == old(self).modules.frames@ + old(loaded)@,
    {
        let mut pending: Vec<CodeFrame> = Vec::new();
        std::mem::swap(&mut pending, loaded);
        let ghost orig = pending@;
        let ghost m0 = self.machine();
        let ghost codes0 = self.modules.frames@;
        let ghost n0 = codes0.len() as int;
        let ghost mut k: int = 0;
        proof {
            assert(orig.skip(0) =~= orig);
            assert(m0.frames + loaded_at_zero::<Value<N>>(orig.take(0), n0) =~= m0.frames);
            assert(codes0 + orig.take(0) =~= codes0);
        }
        while pending.len() > 0
            invariant
                0 <= k <= orig.len(),
                orig == old(loaded)@,
                pending@ == orig.skip(k),
                loaded@.len() == 0,
                n0 == codes0.len(),
                codes0 == old(self).modules.frames@,
                m0 == old(self).machine(),
                self.modules.frames@ == codes0 + orig.take(k),
                self.machine() == with_calls(m0, loaded_at_zero::<Value<N>>(orig.take(k), n0)),
                self.insn_count == old(self).insn_count,
                self.max_instructions == old(self).max_instructions,
                self.natives == old(self).natives,
            decreases pending@.len(),
        {
            let ghost rest = orig.skip(k);
            let cf = pending.remove(0);
            proof {
                assert(rest[0] == cf);
                assert(rest.drop_first() =~= orig.skip(k + 1));
            }
            let locals = cf.local_var_count;
            let stack_size = cf.stack_size;
            let ghost before = self.call_stack@;
            let idx = self.modules.add_frame(cf);
            let f = Frame::new(idx, stack_size, locals, 0);
            assert(f.stack@ =~= Seq::<Value<N>>::empty());
            self.call_stack.push(f);
            proof {
                lemma_frames_push(before, f);
                assert(orig.take(k + 1) =~= orig.take(k).push(orig[k]));
                assert(loaded_at_zero::<Value<N>>(orig.take(k + 1), n0) =~= loaded_at_zero::<Value<N>>(
                    orig.take(k),
                    n0,
                ).push(call_view(f)));
                assert(self.machine().frames =~= m0.frames + loaded_at_zero::<Value<N>>(orig.take(k + 1), n0));
                assert(self.modules.frames@ =~= codes0 + orig.take(k + 1));
                k = k + 1;
            }
        }
        proof {
            assert(orig.take(k) =~= orig);
        }
    }

    /// Runs the innermost call frames until the last one is done (its value, or void
    /// when it runs off its end) or the run fails; a yield goes on running. After a
    /// million rounds it gives up with `stuck` (see `blocking_run` and `blocking_end`).
    #[verifier::spinoff_prover]
    #[verifier::rlimit(100)]
    fn run_to_end(&mut self, stuck: &str) -> (r: Result<Value<N>, String>)
        requires
            old(self).call_stack@.len() > 0,
            old(self).modules.frames@.len() > 0,
        ensures
            final(self).modules == old(self).modules,
            final(self).max_instructions == old(self).max_instructions,
            exists|tr: Seq<RunState<N>>|
                #[trigger] blocking_run(old(self).modules.frames@, old(self).max_instructions, tr) && tr[0]
                    == run_state(*old(self)) && tr.len() <= 1_000_001 && blocking_end(
                    old(self).modules.frames@,
                    old(self).max_instructions,
                    tr.len(),
                    tr.last(),
                    run_state(*final(self)),
                    r,
                    stuck@,
                ),
    {
        let ghost codes = self.modules.frames@;
        let ghost max = self.max_instructions;
        let ghost mut tr: Seq<RunState<N>> = seq![run_state(*self)];
        let mut steps: u64 = 0;
        loop
            invariant
                self.call_stack@.len() > 0,
                self.modules == old(self).modules,
                codes == self.modules.frames@,
                codes.len() > 0,
                self.max_instructions == max,
                max == old(self).max_instructions,
                steps <= 1_000_000,
                tr.len() == steps + 1,
                blocking_run(codes, max, tr),
                tr[0] == run_state(*old(self)),
                tr.last() == run_state(*self),
            decreases 1_000_000 - steps,
        {
            if steps >= 1_000_000 {
                return Err(String::from_str(stuck));
            }
            steps = steps + 1;
            let ghost s0 = run_state(*self);
            let fi = self.call_stack.len() - 1;
            let step = self.exec_frame(fi);
            match step {
                Err(e) => {
                    proof {
                        assert(round_ok(codes, max, s0, run_state(*self), RoundEnd::Failed(e)));
                    }
                    return Err(e);
                },
                Ok(out) => {
                    let ghost m2 = self.machine();
                    let ghost fout = out;
                    let o = self.finish_round(out);
                    proof {
                        let c = s0.m.frames[fi as int];
                        let code = code_of(codes, c.frame_index);
                        if 0 <= c.ip < code.instructions@.len() && s0.count < max {
                            let m1 = with_frame(s0.m, fi as int, jumped(c, (c.ip + 1) as i32));
                            let i = insn_view(code.instructions@[c.ip as int]);
                            if insn_fits(m1, fi as int, i) {
                                assert(step_ok(m1, fi as int, i, m2, fout));
                            }
                        }
                        assert(round_ok(codes, max, s0, run_state(*self), o));
                    }
                    match o {
                        RoundEnd::Done(v) => {
                            return Ok(v);
                        },
                        RoundEnd::Failed(e) => {
                            return Err(e);
                        },
                        _ => {
                            proof {
                                let ntr = tr.push(run_state(*self));
                                assert forall|k: int| 0 <= k < ntr.len() - 1 implies #[trigger] keeps_going(
                                    codes,
                                    max,
                                    ntr,
                                    k,
                                ) by {
                                    if k < tr.len() - 1 {
                                        assert(keeps_going(codes, max, tr, k));
                                    }
                                }
                                tr = ntr;
                            }
                        },
                    }
                },
            }
        }
    }

    /// Calls code frame `frame_index` with `args` in its first locals, on top of the
    /// current call frames (its statics start at the next module's when there are some),
    /// adds the code frames in `loaded` above it with their statics at slot 0, and runs
    /// until the last frame is done (see `run_to_end`).
    pub fn execute(&mut self, frame_index: usize, args: Vec<Value<N>>, loaded: &mut Vec<CodeFrame>) -> (r: Result<Value<N>, String>)
        requires
            old(self).modules.frames@.len() > 0,
        ensures
            final(loaded)@.len() == 0,
            ({
                let codes = old(self).modules.frames@ + old(loaded)@;
                let code = code_of(old(self).modules.frames@, frame_index);
                let base = if old(self).call_stack@.len() > 0 { old(self).current_module_index } else { 0 };
                let fresh = fresh_call::<Value<N>>(frame_index, code.local_var_count, base);
                let call = CallV { locals: written_args(fresh.locals, args@), ..fresh };
                let m = with_calls(
                    with_calls(old(self).machine(), seq![call]),
                    loaded_at_zero::<Value<N>>(old(loaded)@, old(self).modules.frames@.len() as int),
                );
                exists|tr: Seq<RunState<N>>|
                    #[trigger] blocking_run(codes, old(self).max_instructions, tr) && tr[0] == (RunState {
                        m: m,
                        count: old(self).insn_count,
                    }) && tr.len() <= 1_000_001 && blocking_end(
                        codes,
                        old(self).max_instructions,
                        tr.len(),
                        tr.last(),
                        run_state(*final(self)),
                        r,
                        "Infinite loop detected (>1M frame iterations)"@,
                    )
            }),
    {
        let ghost m0 = self.machine();
        let info = self.modules.get_frame(frame_index);
        let mut frame = Frame::new(frame_index, info.stack_size, info.local_var_count, 0);
        let ghost cells0 = frame.locals.cells();
        let ghost all = args@;
        let n = args.len();
        let mut args = args;
        let mut i: usize = 0;
        proof {
            assert(all.take(0) =~= Seq::<Value<N>>::empty());
            assert(all.skip(0) =~= all);
        }
        while args.len() > 0
            invariant
                i + args@.len() == n,
                n == all.len(),
                args@ == all.skip(i as int),
                frame.locals.cells() == written_args(cells0, all.take(i as int)),
                frame.frame_index == frame_index,
                frame.instruction_ptr == 0,
                frame.stack@.len() == 0,
                frame.return_value is None,
                frame.state == FrameState::Running,
                frame.try_catch_target is None,
                frame.static_base == 0,
                frame.local_def_counter == 0,
                frame.last_var_push_index == 0,
                !frame.last_var_push_static,
                frame.switch_value is None,
                frame.switch_default is None,
                frame.switch_remaining == 0,
            decreases args@.len(),
        {
            let a = args.remove(0);
            proof {
                assert(all.take(i + 1).drop_last() =~= all.take(i as int));
                assert(all.skip(i as int)[0] == all[i as int]);
                assert(all.skip(i + 1) =~= all.skip(i as int).drop_first());
            }
            frame.locals.write(i as i32, a);
            i = i + 1;
        }
        proof {
            assert(all.take(n as int) =~= all);
        }
        if self.call_stack.len() > 0 {
            frame.static_base = self.current_module_index;
        }
        assert(frame.stack@ =~= Seq::<Value<N>>::empty());
        let ghost before = self.call_stack@;
        let ghost fv = call_view(frame);
        self.call_stack.push(frame);
        proof {
            lemma_frames_push(before, frame);
            assert(self.machine().frames =~= m0.frames + seq![fv]);
            assert(self.machine() =~= with_calls(m0, seq![fv]));
        }
        self.start_loaded_at_zero(loaded);
        assert(self.call_stack@.len() == self.machine().frames.len());
        self.run_to_end("Infinite loop detected (>1M frame iterations)")
    }

    /// Runs code frame `frame_index` as the root of a program (the module stack starts
    /// empty) until the last frame is done (see `run_to_end`).
    pub fn exec_root(&mut self, frame_index: usize) -> (r: Result<Value<N>, String>)
        requires
            old(self).modules.frames@.len() > 0,
        ensures
            ({
                let codes = old(self).modules.frames@;
                let code = code_of(codes, frame_index);
                let m = with_calls(
                    MachineV { modules: Seq::empty(), ..old(self).machine() },
                    seq![fresh_call::<Value<N>>(frame_index, code.local_var_count, 0)],
                );
                exists|tr: Seq<RunState<N>>|
                    #[trigger] blocking_run(codes, old(self).max_instructions, tr) && tr[0] == (RunState {
                        m: m,
                        count: old(self).insn_count,
                    }) && tr.len() <= 1_000_001 && blocking_end(
                        codes,
                        old(self).max_instructions,
                        tr.len(),
                        tr.last(),
                        run_state(*final(self)),
                        r,
                        "Infinite loop detected (>1M root iterations)"@,
                    )
            }),
    {
        let ghost m0 = self.machine();
        self.module_stack.clear();
        proof {
            assert(self.machine().modules =~= Seq::<Seq<char>>::empty());
            assert(self.machine() =~= MachineV { modules: Seq::empty(), ..m0 });
        }
        let ghost m1 = self.machine();
        let info = self.modules.get_frame(frame_index);
        let frame = Frame::new(frame_index, info.stack_size, info.local_var_count, 0);
        assert(frame.stack@ =~= Seq::<Value<N>>::empty());
        let ghost before = self.call_stack@;
        let ghost fv = call_view(frame);
        self.call_stack.push(frame);
        proof {
            lemma_frames_push(before, frame);
            assert(self.machine().frames =~= m1.frames + seq![fv]);
            assert(self.machine() =~= with_calls(m1, seq![fv]));
        }
        self.run_to_end("Infinite loop detected (>1M root iterations)")
    }
}

} // verus!
