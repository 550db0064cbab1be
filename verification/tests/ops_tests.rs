use gtpsp::ops::{bin_op, binary_op, str_lt, values_equal, BinOp};
use gtpsp::value::{ObjectInstance, Value};
use std::rc::Rc;

type V = Value<()>;

fn text(s: &str) -> V {
    Value::Str(Rc::new(s.to_string()))
}

fn float(f: f32) -> V {
    Value::Float(f.to_bits())
}

fn int_of(r: Option<V>) -> i32 {
    match r {
        Some(Value::Int(i)) => i,
        _ => panic!("not an integer"),
    }
}

fn bool_of(r: Option<V>) -> bool {
    match r {
        Some(Value::Bool(b)) => b,
        _ => panic!("not a flag"),
    }
}

#[test]
fn operator_names_and_symbols_are_recognised() {
    assert!(bin_op("+") == Some(BinOp::Add));
    assert!(bin_op("__add__") == Some(BinOp::Add));
    assert!(bin_op("__lt__") == Some(BinOp::Lt));
    assert!(bin_op("||") == Some(BinOp::Or));
    assert!(bin_op("?") == None);
    assert!(matches!(binary_op(&V::Int(1), &V::Int(2), "**"), Some(Value::Nil)));
}

#[test]
fn integer_arithmetic_is_exact_and_rounds_toward_zero() {
    assert_eq!(int_of(binary_op(&V::Int(2), &V::Int(3), "+")), 5);
    assert_eq!(int_of(binary_op(&V::Int(2), &V::Int(3), "-")), -1);
    assert_eq!(int_of(binary_op(&V::Int(-4), &V::Int(3), "*")), -12);
    assert_eq!(int_of(binary_op(&V::Int(7), &V::Int(-2), "/")), -3);
    assert_eq!(int_of(binary_op(&V::Int(-7), &V::Int(2), "/")), -3);
    assert_eq!(int_of(binary_op(&V::Int(7), &V::Int(-2), "%")), 1);
    assert_eq!(int_of(binary_op(&V::Int(-7), &V::Int(2), "%")), -1);
    assert_eq!(int_of(binary_op(&V::Int(i32::MIN), &V::Int(1), "/")), i32::MIN);
    assert_eq!(int_of(binary_op(&V::Int(7), &V::Int(0), "/")), 0);
    assert_eq!(int_of(binary_op(&V::Int(7), &V::Int(0), "%")), 0);
}

#[test]
fn unsigned_and_string_addition() {
    assert!(matches!(binary_op(&V::UInt(4), &V::UInt(5), "+"), Some(Value::UInt(9))));
    match binary_op(&text("ab"), &text("cd"), "__add__") {
        Some(Value::Str(s)) => assert_eq!(s.as_str(), "abcd"),
        _ => panic!("not a string"),
    }
}

#[test]
fn float_arithmetic_is_left_to_the_caller() {
    assert!(binary_op(&float(1.0), &float(2.0), "+").is_none());
    assert!(binary_op(&V::Int(1), &float(2.0), "-").is_none());
    assert!(binary_op(&V::Double(0), &V::Double(0), "/").is_none());
}

#[test]
fn unmatched_operands_give_zero() {
    assert_eq!(int_of(binary_op(&V::Int(1), &text("x"), "+")), 0);
    assert_eq!(int_of(binary_op(&V::Int(2), &float(2.0), "*")), 0);
    assert_eq!(int_of(binary_op(&float(2.0), &float(1.0), "%")), 0);
    assert_eq!(int_of(binary_op(&V::UInt(2), &V::UInt(1), "-")), 0);
}

#[test]
fn equality_compares_contents_of_one_kind() {
    assert!(bool_of(binary_op(&V::Int(1), &V::UInt(1), "==")));
    assert!(bool_of(binary_op(&V::Int(-1), &V::UInt(u32::MAX), "==")));
    assert!(bool_of(binary_op(&text("a"), &text("a"), "==")));
    assert!(bool_of(binary_op(&V::Nil, &V::Nil, "==")));
    assert!(!bool_of(binary_op(&V::Int(1), &text("1"), "==")));
    assert!(bool_of(binary_op(&V::Int(1), &V::Long(1), "!=")));
    assert!(bool_of(binary_op(&float(0.0), &float(-0.0), "==")));
    assert!(!bool_of(binary_op(&float(f32::NAN), &float(f32::NAN), "==")));
    assert!(bool_of(binary_op(&V::Double(0), &V::Double(1u64 << 63), "==")));
}

#[test]
fn identity_and_mixed_number_equality_are_left_to_the_caller() {
    assert!(values_equal(&V::Int(1), &float(1.0)).is_none());
    let obj = Rc::new(ObjectInstance::simple("X"));
    assert!(values_equal(&V::Object(obj.clone()), &V::Object(obj)).is_none());
    assert!(values_equal(&V::Array(Rc::new(vec![])), &V::Array(Rc::new(vec![]))).is_none());
    assert_eq!(values_equal(&V::Array(Rc::new(vec![])), &V::Nil), Some(false));
}

#[test]
fn comparisons_order_integers_floats_and_strings() {
    assert!(bool_of(binary_op(&V::Int(3), &V::Int(3), ">=")));
    assert!(bool_of(binary_op(&V::Int(2), &V::Int(3), "<")));
    assert!(bool_of(binary_op(&float(1.0), &float(-1.0), ">")));
    assert!(bool_of(binary_op(&float(-2.0), &float(-1.0), "<")));
    assert!(bool_of(binary_op(&float(0.0), &float(-0.0), ">=")));
    assert!(!bool_of(binary_op(&float(f32::NAN), &float(1.0), "<")));
    assert!(!bool_of(binary_op(&float(f32::NAN), &float(1.0), ">=")));
    assert!(bool_of(binary_op(&text("abc"), &text("abd"), "<")));
    assert!(bool_of(binary_op(&text("ab"), &text("abc"), "<=")));
    assert!(bool_of(binary_op(&text("b"), &text("abc"), ">")));
    assert!(bool_of(binary_op(&text("x"), &text("x"), ">=")));
    assert!(!bool_of(binary_op(&V::Int(1), &text("x"), "<")));
}

#[test]
fn string_order_follows_character_codes() {
    assert!(str_lt("", "a"));
    assert!(!str_lt("a", ""));
    assert!(!str_lt("a", "a"));
    assert!(str_lt("Z", "a"));
    assert!(str_lt("é", "ü"));
    // Exactly one of before, equal, after.
    for (x, y) in [("ab", "abc"), ("b", "a"), ("q", "q")] {
        let n = [str_lt(x, y), x == y, str_lt(y, x)].iter().filter(|b| **b).count();
        assert_eq!(n, 1);
        assert_eq!(str_lt(x, y), x < y);
    }
}

#[test]
fn logical_operators_combine_truthiness() {
    assert!(bool_of(binary_op(&V::Int(1), &text("x"), "&&")));
    assert!(!bool_of(binary_op(&V::Int(1), &text(""), "&&")));
    assert!(bool_of(binary_op(&V::Nil, &V::Bool(true), "||")));
    assert!(!bool_of(binary_op(&V::Void, &V::Int(0), "__or__")));
}
