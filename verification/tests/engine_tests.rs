use gtpsp::decode::{CodeFrame, Instruction};
use gtpsp::engine::{Engine, FrameAction};
use gtpsp::frame::Frame;
use gtpsp::native::NativeRegistry;
use gtpsp::storage::StaticStorage;
use gtpsp::value::Value;
use gtpsp::vm::{FrameState, ModuleRegistry, StorageKind};
use std::rc::Rc;

type V = Value<()>;

fn engine() -> Engine<(), u32> {
    Engine {
        modules: ModuleRegistry::new(),
        natives: NativeRegistry::new(),
        static_storage: StaticStorage::new(4),
        call_stack: vec![Frame::new(0, 8, 4, 0)],
        module_stack: Vec::new(),
        global_functions: Vec::new(),
        module_static_bases: Vec::new(),
        next_static_slot: 0,
        current_module_index: 0,
        insn_count: 0,
        max_instructions: 500_000_000,
    }
}

fn program(instructions: Vec<Instruction>) -> CodeFrame {
    let n = instructions.len();
    CodeFrame {
        has_debug: false,
        adhoc_version: 12,
        param_count: 0,
        param_names: Vec::new(),
        stack_size: 8,
        local_var_count: 2,
        static_var_count: 0,
        instructions,
        child_frames: Vec::new(),
        instruction_lines: vec![0; n],
    }
}

fn idle() -> Engine<(), u32> {
    let mut e = engine();
    e.call_stack.clear();
    e
}

fn run(e: &mut Engine<(), u32>, i: Instruction) -> Option<FrameAction<V>> {
    e.exec_insn(0, &i)
}

fn stack(e: &Engine<(), u32>) -> &Vec<V> {
    &e.call_stack[0].stack
}

fn s(t: &str) -> String {
    t.to_string()
}

#[test]
fn constants_and_arithmetic() {
    let mut e = engine();
    assert!(matches!(run(&mut e, Instruction::IntConst { value: 2 }), Some(FrameAction::Continue)));
    run(&mut e, Instruction::IntConst { value: 3 });
    run(&mut e, Instruction::BinaryOperator { op: s("+") });
    assert_eq!(stack(&e).len(), 1);
    assert!(matches!(stack(&e)[0], Value::Int(5)));
    run(&mut e, Instruction::UnaryOperator { op: s("-@") });
    assert!(matches!(stack(&e)[0], Value::Int(-5)));
    run(&mut e, Instruction::UnaryOperator { op: s("!") });
    assert!(matches!(stack(&e)[0], Value::Bool(false)));
}

#[test]
fn float_arithmetic_is_left_undecided() {
    let mut e = engine();
    run(&mut e, Instruction::FloatConst { value: 0x3f80_0000 });
    run(&mut e, Instruction::FloatConst { value: 0x3f80_0000 });
    assert!(run(&mut e, Instruction::BinaryOperator { op: s("+") }).is_none());
    assert_eq!(stack(&e).len(), 2);
    run(&mut e, Instruction::UnaryOperator { op: s("__uminus__") });
    assert!(matches!(stack(&e)[1], Value::Float(0xbf80_0000)));
}

#[test]
fn jumps_move_the_instruction_pointer() {
    let mut e = engine();
    run(&mut e, Instruction::BoolConst { value: false });
    run(&mut e, Instruction::JumpIfFalse { target: 9 });
    assert_eq!(e.call_stack[0].instruction_ptr, 9);
    assert!(stack(&e).is_empty());
    run(&mut e, Instruction::IntConst { value: 0 });
    run(&mut e, Instruction::LogicalAnd { target: 4 });
    assert_eq!(e.call_stack[0].instruction_ptr, 4);
    assert!(matches!(stack(&e)[0], Value::Int(0)));
    run(&mut e, Instruction::Jump { target: 20 });
    assert_eq!(e.call_stack[0].instruction_ptr, 20);
}

#[test]
fn static_define_names_the_next_slot() {
    let mut e = engine();
    e.module_stack.push(s("main,menu,Title"));
    run(&mut e, Instruction::StaticDefine { symbols: vec![s("count")] });
    assert_eq!(e.next_static_slot, 1);
    assert_eq!(e.module_static_bases, vec![(s("count"), 0), (s("Title::count"), 0)]);
    assert!(matches!(stack(&e)[0], Value::Nil));
}

#[test]
fn assignment_writes_back_to_the_pushed_static() {
    let mut e = engine();
    e.module_static_bases.push((s("count"), 2));
    run(&mut e, Instruction::VariablePush { symbols: vec![s("count")], kind: StorageKind::Static, index: 0 });
    assert_eq!(e.call_stack[0].last_var_push_index, 2);
    assert!(e.call_stack[0].last_var_push_static);
    run(&mut e, Instruction::IntConst { value: 7 });
    run(&mut e, Instruction::AssignPop);
    assert!(matches!(e.static_storage.read(2), Some(Value::Int(7))));
    run(&mut e, Instruction::VariableEval { symbols: vec![s("count")], kind: StorageKind::Static, index: 0 });
    assert!(matches!(stack(&e)[1], Value::Int(7)));
}

#[test]
fn local_assignment_and_reads() {
    let mut e = engine();
    run(&mut e, Instruction::IntConst { value: 4 });
    run(&mut e, Instruction::AssignOld { symbols: vec![], index: 1 });
    run(&mut e, Instruction::VariableEval { symbols: vec![s("x")], kind: StorageKind::Local, index: 1 });
    assert!(matches!(stack(&e)[1], Value::Int(4)));
}

#[test]
fn eval_of_an_unknown_name_finds_its_module() {
    let mut e = engine();
    e.module_stack.push(s("main,menu,Title"));
    run(&mut e, Instruction::VariableEval { symbols: vec![s("Title")], kind: StorageKind::Local, index: 3 });
    match &stack(&e)[0] {
        Value::Object(o) => assert_eq!(o.class_path, "main,menu,Title"),
        _ => panic!("expected an object"),
    }
    run(&mut e, Instruction::VariableEval { symbols: vec![s("__module__")], kind: StorageKind::Local, index: 3 });
    assert!(matches!(&stack(&e)[1], Value::Object(_)));
}

#[test]
fn string_push_joins_texts() {
    let mut e = engine();
    run(&mut e, Instruction::StringConst { symbols: vec![s("a")] });
    run(&mut e, Instruction::IntConst { value: 3 });
    run(&mut e, Instruction::StringPush { count: 2 });
    match &stack(&e)[0] {
        Value::Str(t) => assert_eq!(t.as_str(), "a3"),
        _ => panic!("expected a string"),
    }
    run(&mut e, Instruction::DoubleConst { value: 0 });
    assert!(run(&mut e, Instruction::StringPush { count: 2 }).is_none());
    assert_eq!(stack(&e).len(), 2);
}

#[test]
fn arrays_pad_missing_values_with_nil() {
    let mut e = engine();
    run(&mut e, Instruction::IntConst { value: 1 });
    run(&mut e, Instruction::IntConst { value: 2 });
    run(&mut e, Instruction::ArrayConst { count: 3 });
    match &stack(&e)[0] {
        Value::Array(a) => {
            assert_eq!(a.len(), 3);
            assert!(matches!(a[0], Value::Nil));
            assert!(matches!(a[2], Value::Int(2)));
        }
        _ => panic!("expected an array"),
    }
    run(&mut e, Instruction::IntConst { value: 1 });
    run(&mut e, Instruction::ElementEval);
    assert!(matches!(stack(&e)[0], Value::Int(1)));
}

#[test]
fn maps_insert_and_look_up() {
    let mut e = engine();
    run(&mut e, Instruction::MapConst);
    run(&mut e, Instruction::StringConst { symbols: vec![s("k")] });
    run(&mut e, Instruction::IntConst { value: 9 });
    run(&mut e, Instruction::MapInsert);
    run(&mut e, Instruction::StringConst { symbols: vec![s("k")] });
    run(&mut e, Instruction::ObjectSelector { symbol: s("k") });
    assert!(matches!(stack(&e)[0], Value::Int(9)));
}

#[test]
fn iterator_next_walks_an_array() {
    let mut e = engine();
    e.call_stack[0].stack.push(Value::Array(Rc::new(vec![Value::Int(5), Value::Int(6)])));
    run(&mut e, Instruction::IteratorNext { target: 30, var_index: 0 });
    assert!(matches!(e.call_stack[0].locals.read(0), Some(Value::Int(5))));
    run(&mut e, Instruction::IteratorNext { target: 30, var_index: 0 });
    assert!(matches!(e.call_stack[0].locals.read(0), Some(Value::Int(6))));
    run(&mut e, Instruction::IteratorNext { target: 30, var_index: 0 });
    assert_eq!(e.call_stack[0].instruction_ptr, 30);
    assert!(stack(&e).is_empty());
}

#[test]
fn set_state_returns_and_yields() {
    let mut e = engine();
    run(&mut e, Instruction::IntConst { value: 8 });
    assert!(matches!(run(&mut e, Instruction::SetState { state: 1 }), Some(FrameAction::Return(Value::Int(8)))));
    assert!(e.call_stack[0].state == FrameState::Returned);
    assert!(matches!(run(&mut e, Instruction::SetState { state: 2 }), Some(FrameAction::Yield)));
    assert!(e.call_stack[0].state == FrameState::Yielded);
    assert!(matches!(run(&mut e, Instruction::Call { arg_count: 2 }), Some(FrameAction::Continue)));
}

#[test]
fn execute_frame_runs_a_loaded_program_to_its_return() {
    let mut e = idle();
    e.modules.add_frame(program(vec![Instruction::SetState { state: 2 }]));
    let mut loaded = vec![program(vec![
        Instruction::IntConst { value: 2 },
        Instruction::IntConst { value: 3 },
        Instruction::BinaryOperator { op: s("*") },
        Instruction::SetState { state: 1 },
    ])];
    assert!(matches!(e.execute_frame(10, &mut loaded), Ok(None)));
    assert_eq!(loaded.len(), 1);
    e.call_stack.push(Frame::new(0, 1, 0, 0));
    assert!(matches!(e.execute_frame(100, &mut loaded), Ok(None)));
    assert!(loaded.is_empty());
    assert_eq!(e.get_insn_count(), 5);
    assert_eq!(e.call_stack.len(), 1);
    assert!(matches!(e.call_stack[0].stack[0], Value::Int(6)));
    assert!(e.call_stack[0].state == FrameState::Yielded);
    assert_eq!(e.current_module_index, 1);
}

#[test]
fn running_off_the_end_exits_with_void() {
    let mut e = idle();
    e.modules.add_frame(program(vec![Instruction::IntConst { value: 1 }]));
    e.call_stack.push(Frame::new(0, 1, 0, 0));
    let r = e.execute_frame(100, &mut Vec::new());
    assert!(matches!(r, Ok(Some(Value::Void))));
    assert_eq!(e.get_insn_count(), 1);
    assert!(e.call_stack.is_empty());
}

#[test]
fn return_ends_the_run_with_its_value() {
    let mut e = idle();
    e.modules.add_frame(program(vec![Instruction::IntConst { value: 4 }, Instruction::SetState { state: 1 }]));
    e.call_stack.push(Frame::new(0, 1, 0, 0));
    assert!(matches!(e.execute_frame(100, &mut Vec::new()), Ok(Some(Value::Int(4)))));
}

#[test]
fn the_budget_and_the_limit_stop_a_run() {
    let mut e = idle();
    e.modules.add_frame(program(vec![Instruction::Jump { target: 0 }]));
    e.call_stack.push(Frame::new(0, 1, 0, 0));
    assert!(matches!(e.execute_frame(5, &mut Vec::new()), Ok(None)));
    assert_eq!(e.get_insn_count(), 5);
    e.max_instructions = 7;
    let r = e.execute_frame(5, &mut Vec::new());
    assert_eq!(r.err().unwrap(), "Hit instruction limit (7)");
    assert_eq!(e.get_insn_count(), 7);
}

#[test]
fn yield_pauses_the_run() {
    let mut e = idle();
    e.modules.add_frame(program(vec![Instruction::SetState { state: 2 }, Instruction::IntConst { value: 1 }]));
    e.call_stack.push(Frame::new(0, 1, 0, 0));
    assert!(matches!(e.execute_frame(100, &mut Vec::new()), Ok(None)));
    assert_eq!(e.call_stack[0].instruction_ptr, 1);
    assert!(e.call_stack[0].state == FrameState::Yielded);
}

#[test]
fn exec_frame_advances_the_pointer_before_running() {
    let mut e = idle();
    e.modules.add_frame(program(vec![Instruction::IntConst { value: 3 }]));
    e.call_stack.push(Frame::new(0, 1, 0, 0));
    assert!(matches!(e.exec_frame(0), Ok(Some(FrameAction::Continue))));
    assert_eq!(e.call_stack[0].instruction_ptr, 1);
    assert!(matches!(e.exec_frame(0), Ok(Some(FrameAction::Exit))));
    let mut f = idle();
    f.modules.add_frame(program(vec![Instruction::IntConst { value: i32::MIN }, Instruction::UnaryOperator { op: s("-@") }]));
    f.call_stack.push(Frame::new(0, 1, 0, 0));
    f.exec_frame(0).unwrap();
    assert_eq!(f.exec_frame(0).err().unwrap(), "Arithmetic overflow");
}

#[test]
fn execute_passes_arguments_and_returns_the_result() {
    let mut e = idle();
    e.modules.add_frame(program(vec![
        Instruction::VariableEval { symbols: vec![s("a")], kind: StorageKind::Local, index: 0 },
        Instruction::VariableEval { symbols: vec![s("b")], kind: StorageKind::Local, index: 1 },
        Instruction::BinaryOperator { op: s("-") },
        Instruction::SetState { state: 1 },
    ]));
    let r = e.execute(0, vec![Value::Int(10), Value::Int(4)], &mut Vec::new());
    assert!(matches!(r, Ok(Value::Int(6))));
    assert!(e.call_stack.is_empty());
}

#[test]
fn exec_root_runs_through_yields_and_clears_the_module_stack() {
    let mut e = idle();
    e.module_stack.push(s("main,old"));
    e.modules.add_frame(program(vec![Instruction::SetState { state: 2 }, Instruction::IntConst { value: 1 }]));
    assert!(matches!(e.exec_root(0), Ok(Value::Void)));
    assert!(e.module_stack.is_empty());
    let mut f = idle();
    f.modules.add_frame(program(vec![Instruction::Jump { target: 0 }]));
    assert_eq!(f.exec_root(0).err().unwrap(), "Infinite loop detected (>1M root iterations)");
}

#[test]
fn a_step_touches_only_its_own_frame() {
    let mut e = engine();
    e.call_stack[0].stack.push(Value::Int(1));
    e.call_stack.push(Frame::new(0, 4, 2, 0));
    e.exec_insn(1, &Instruction::IntConst { value: 5 });
    e.exec_insn(1, &Instruction::Jump { target: 3 });
    assert_eq!(e.call_stack[0].stack.len(), 1);
    assert_eq!(e.call_stack[0].instruction_ptr, 0);
    assert!(matches!(e.call_stack[1].stack[0], Value::Int(5)));
    assert_eq!(e.call_stack[1].instruction_ptr, 3);
}

#[test]
fn switch_and_cases_pick_a_target() {
    let mut e = engine();
    run(&mut e, Instruction::IntConst { value: 7 });
    run(&mut e, Instruction::Switch { default_target: 50, case_count: 2 });
    assert!(stack(&e).is_empty());
    run(&mut e, Instruction::Case { value: 3, target: 10 });
    assert_eq!(e.call_stack[0].switch_remaining, 1);
    run(&mut e, Instruction::Case { value: 7, target: 20 });
    assert_eq!(e.call_stack[0].instruction_ptr, 20);
    assert!(e.call_stack[0].switch_value.is_none());
    run(&mut e, Instruction::IntConst { value: 9 });
    run(&mut e, Instruction::Switch { default_target: 50, case_count: 1 });
    run(&mut e, Instruction::Case { value: 3, target: 10 });
    assert_eq!(e.call_stack[0].instruction_ptr, 50);
    assert_eq!(e.call_stack[0].switch_remaining, 0);
}

#[test]
fn defined_jumps_look_at_the_top_without_popping() {
    let mut e = engine();
    run(&mut e, Instruction::JumpUndefined { target: 4 });
    assert_eq!(e.call_stack[0].instruction_ptr, 4);
    run(&mut e, Instruction::BigIntConst);
    run(&mut e, Instruction::JumpDefined { target: 8 });
    assert_eq!(e.call_stack[0].instruction_ptr, 8);
    assert!(matches!(stack(&e)[0], Value::Int(0)));
    run(&mut e, Instruction::TemplateConst);
    match &stack(&e)[1] {
        Value::Str(t) => assert!(t.is_empty()),
        _ => panic!("expected a string"),
    }
}

#[test]
fn execute_starts_loaded_frames_with_statics_at_zero() {
    let mut e = idle();
    e.current_module_index = 5;
    e.modules.add_frame(program(vec![Instruction::SetState { state: 1 }]));
    let mut loaded = vec![program(vec![Instruction::IntConst { value: 3 }, Instruction::SetState { state: 1 }])];
    let r = e.execute(0, vec![], &mut loaded);
    assert!(loaded.is_empty());
    assert!(matches!(r, Ok(Value::Int(3))));
    assert_eq!(e.current_module_index, 5);
}
