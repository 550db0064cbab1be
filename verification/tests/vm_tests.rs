use std::rc::Rc;
use gtpsp::value::{debug_string, string_method, ObjectInstance, Value};
use gtpsp::frame::Frame;
use gtpsp::native::NativeRegistry;
use gtpsp::storage::{LocalStorage, StaticStorage};
use gtpsp::vm::{FrameState, FunctionValue, ModuleRegistry};

#[test]
fn locals_read_back_what_was_written() {
    let mut s: LocalStorage<i64> = LocalStorage::new(3);
    assert_eq!(s.size(), 3);
    assert_eq!(s.read(1), None);
    s.write(1, 42);
    assert_eq!(s.read(1), Some(&42));
    assert_eq!(s.read(0), None);
    s.write(1, 7);
    assert_eq!(s.read(1), Some(&7));
}

#[test]
fn locals_drop_writes_outside() {
    let mut s: LocalStorage<i64> = LocalStorage::new(2);
    s.write(2, 5);
    s.write(-1, 5);
    assert_eq!(s.size(), 2);
    assert_eq!(s.read(2), None);
    assert_eq!(s.read(-1), None);
    let e: LocalStorage<i64> = LocalStorage::new(-4);
    assert_eq!(e.size(), 0);
}

#[test]
fn statics_start_with_room_to_spare() {
    let s: StaticStorage<i64> = StaticStorage::new(10);
    assert_eq!(s.size(), 74);
    let z: StaticStorage<i64> = StaticStorage::new(-3);
    assert_eq!(z.size(), 64);
}

#[test]
fn statics_grow_past_their_end() {
    let mut s: StaticStorage<&str> = StaticStorage::new(0);
    s.write(100, "far");
    assert_eq!(s.size(), 164);
    assert_eq!(s.read(100), Some(&"far"));
    assert_eq!(s.read(99), None);
    s.write(3, "near");
    assert_eq!(s.size(), 164);
    assert_eq!(s.read(3), Some(&"near"));
    assert_eq!(s.read(200), None);
}

#[test]
fn a_new_frame_is_running_and_empty() {
    let f: Frame<i32> = Frame::new(5, 0, 2, 9);
    assert_eq!(f.frame_index, 5);
    assert_eq!(f.static_base, 9);
    assert_eq!(f.instruction_ptr, 0);
    assert!(f.state == FrameState::Running);
    assert_eq!(f.locals.size(), 2);
    assert!(f.stack.is_empty());
    assert!(f.return_value.is_none() && f.switch_value.is_none() && f.switch_default.is_none());
    assert!(f.try_catch_target.is_none());
    assert_eq!((f.local_def_counter, f.last_var_push_index, f.switch_remaining), (0, 0, 0));
    assert!(!f.last_var_push_static);
}

#[test]
fn pop_takes_back_the_last_push() {
    let mut f: Frame<i32> = Frame::new(0, 4, 0, 0);
    assert_eq!(f.pop(), None);
    assert_eq!(f.peek(), None);
    f.push(1);
    f.push(2);
    assert_eq!(f.peek(), Some(&2));
    assert_eq!(f.pop(), Some(2));
    assert_eq!(f.pop(), Some(1));
    assert_eq!(f.pop(), None);
}

#[test]
fn natives_prefer_their_own_path() {
    let mut r: NativeRegistry<u32> = NativeRegistry::new();
    r.register_fallback("main,pdistd,", 1);
    r.register_fallback("main,", 2);
    r.register("main,pdistd,MRandom,GetValue", 3);
    assert_eq!(r.get("main,pdistd,MRandom,GetValue"), Some(&3));
    assert_eq!(r.get("main,pdistd,MMath,Sin"), Some(&1));
    assert_eq!(r.get("main,menu,Open"), Some(&2));
    assert_eq!(r.get("other,Thing"), None);
    assert!(r.has("main,menu,Open"));
    assert!(!r.has("other,Thing"));
    assert_eq!(r.len(), 1);
}

#[test]
fn registering_a_path_again_replaces_it() {
    let mut r: NativeRegistry<u32> = NativeRegistry::new();
    r.register("a", 1);
    r.register("b", 2);
    r.register("a", 3);
    assert_eq!(r.len(), 2);
    assert_eq!(r.get("a"), Some(&3));
    assert_eq!(r.get("b"), Some(&2));
    let mut paths = r.iter_paths();
    paths.sort();
    assert_eq!(paths, vec!["a".to_string(), "b".to_string()]);
}

#[test]
fn an_added_frame_is_found_by_its_index() {
    let mut m: ModuleRegistry<i32, &str> = ModuleRegistry::new();
    assert_eq!(m.add_frame("root"), 0);
    assert_eq!(m.add_frame("child"), 1);
    assert_eq!(*m.get_frame(1), "child");
    assert_eq!(*m.get_frame(0), "root");
    assert_eq!(*m.get_frame(7), "root");
    assert!(m.modules.is_empty());
}

type V = gtpsp::value::Value<()>;

#[test]
fn values_count_as_true_when_not_empty_or_zero() {
    assert!(!V::Nil.truthy() && !V::Void.truthy());
    assert!(V::Bool(true).truthy() && !V::Bool(false).truthy());
    assert!(V::Int(-3).truthy() && !V::Int(0).truthy());
    assert!(!V::ULong(0).truthy() && V::UShort(9).truthy());
    assert!(!V::Float(0.0f32.to_bits()).truthy());
    assert!(!V::Float((-0.0f32).to_bits()).truthy());
    assert!(V::Float(f32::NAN.to_bits()).truthy());
    assert!(V::Double(1.5f64.to_bits()).truthy());
    assert!(!V::Double((-0.0f64).to_bits()).truthy());
    assert!(!V::Str(Rc::new(String::new())).truthy());
    assert!(V::Str(Rc::new("x".to_string())).truthy());
    assert!(V::Array(Rc::new(vec![])).truthy());
    let o: gtpsp::value::ObjectInstance<()> = gtpsp::value::ObjectInstance::simple("GamePlan");
    assert_eq!(o.class_path, "GamePlan");
    assert!(o.fields.is_empty());
    assert!(V::Object(Rc::new(o)).truthy());
}

#[test]
fn small_integers_read_as_i32() {
    assert_eq!(V::Int(-7).as_i32(), Some(-7));
    assert_eq!(V::UInt(u32::MAX).as_i32(), Some(-1));
    assert_eq!(V::Byte(-2).as_i32(), Some(-2));
    assert_eq!(V::UByte(200).as_i32(), Some(200));
    assert_eq!(V::Short(-300).as_i32(), Some(-300));
    assert_eq!(V::UShort(65535).as_i32(), Some(65535));
    assert_eq!(V::Long(5).as_i32(), None);
    assert_eq!(V::Float(0).as_i32(), None);
    assert_eq!(V::Nil.as_i32(), None);
}

fn text_of(v: Option<V>) -> String {
    match v {
        Some(gtpsp::value::Value::Str(s)) => (*s).clone(),
        _ => panic!("expected a string"),
    }
}

#[test]
fn string_methods_give_their_values() {
    assert!(matches!(string_method::<()>("héllo", "length"), Some(V::Int(6))));
    assert!(matches!(string_method::<()>("", "isEmpty"), Some(V::Bool(true))));
    assert!(matches!(string_method::<()>("a", "isEmpty"), Some(V::Bool(false))));
    assert_eq!(text_of(string_method("Ab", "toString")), "Ab");
    assert_eq!(text_of(string_method("MiXeD", "toLowerCase")), "mixed");
    assert_eq!(text_of(string_method("straße", "toUpperCase")), "STRASSE");
    assert_eq!(text_of(string_method("  pad \n", "trim")), "pad");
    assert!(string_method::<()>("x", "reverse").is_none());
}

fn printed(v: &Value<()>) -> Option<String> {
    v.to_string()
}

#[test]
fn values_print_as_their_text() {
    assert_eq!(printed(&Value::Int(-5)), Some("-5".to_string()));
    assert_eq!(printed(&Value::UInt(7)), Some("7".to_string()));
    assert_eq!(printed(&Value::Bool(true)), Some("true".to_string()));
    assert_eq!(printed(&Value::Nil), Some(String::new()));
    assert_eq!(printed(&Value::Str(Rc::new("ab".to_string()))), Some("ab".to_string()));
    assert_eq!(printed(&Value::Symbol(Rc::new("s".to_string()))), Some("s".to_string()));
    assert_eq!(printed(&Value::Long(3)), Some("3l".to_string()));
    assert_eq!(printed(&Value::Void), Some("void".to_string()));
    assert_eq!(printed(&Value::Float(0)), None);
    assert_eq!(printed(&Value::Double(0)), None);
}

#[test]
fn other_values_print_their_debug_text() {
    assert_eq!(printed(&Value::ULong(3)), Some("3ul".to_string()));
    assert_eq!(printed(&Value::Byte(-2)), Some("-2b".to_string()));
    assert_eq!(printed(&Value::UByte(2)), Some("2ub".to_string()));
    assert_eq!(printed(&Value::Short(-1)), Some("-1s".to_string()));
    assert_eq!(printed(&Value::UShort(9)), Some("9us".to_string()));
    assert_eq!(printed(&Value::Dict(Rc::new(vec![]))), Some("{...}".to_string()));
    assert_eq!(printed(&Value::Object(Rc::new(ObjectInstance::simple("Car")))), Some("Car#{...}".to_string()));
    let f = FunctionValue {
        module_name: "menu".to_string(),
        name: "open".to_string(),
        code_frame: 0,
        is_method: false,
        static_base: 0,
        parent_frame: 0,
    };
    assert_eq!(printed(&Value::Function(Rc::new(f))), Some("fn menu::open".to_string()));
    assert_eq!(printed(&Value::Native(Rc::new(()))), Some("<native fn>".to_string()));
}

#[test]
fn arrays_print_their_items_in_doubled_brackets() {
    let inner: Value<()> = Value::Array(Rc::new(vec![]));
    let arr: Value<()> = Value::Array(Rc::new(vec![
        Value::Int(1),
        Value::Str(Rc::new("x".to_string())),
        inner,
    ]));
    assert_eq!(printed(&arr), Some("[[1, \"x\", [[]]]]".to_string()));
    let with_float: Value<()> = Value::Array(Rc::new(vec![Value::Int(1), Value::Float(0)]));
    assert_eq!(printed(&with_float), None);
}

#[test]
fn debug_text_quotes_strings_and_symbols() {
    assert_eq!(debug_string(&Value::<()>::Str(Rc::new("ab".to_string()))), Some("\"ab\"".to_string()));
    assert_eq!(debug_string(&Value::<()>::Symbol(Rc::new("s".to_string()))), Some("'s".to_string()));
    assert_eq!(debug_string(&Value::<()>::Nil), Some("nil".to_string()));
    assert_eq!(debug_string(&Value::<()>::Bool(false)), Some("false".to_string()));
}

#[test]
fn integer_arguments_fall_back_to_their_default() {
    let args: Vec<Value<()>> = vec![Value::Int(5), Value::Str(Rc::new("x".to_string())), Value::UShort(7)];
    assert_eq!(gtpsp::value::int_arg(&args, 0, 9), 5);
    assert_eq!(gtpsp::value::int_arg(&args, 1, 9), 9);
    assert_eq!(gtpsp::value::int_arg(&args, 2, 9), 7);
    assert_eq!(gtpsp::value::int_arg(&args, 3, 9), 9);
    assert_eq!(gtpsp::value::int_arg(&[Value::<()>::UInt(u32::MAX)], 0, 0), -1);
}
