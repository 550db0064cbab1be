//! Values of the bytecode machine's type system. A floating-point value is kept as its
//! IEEE-754 bit pattern; the native functions a value can hold are of the caller's type.
use vstd::prelude::*;
use std::rc::Rc;
use vstd::string::StringExecFns;
use vstd::string::StrSliceExecFns;
use crate::text::{decimal_text, int_text, str_eq, trim_range, trimmed};
use crate::vm::FunctionValue;

verus! {

/// A value of the bytecode machine.
pub enum Value<N> {
    Nil,
    Void,
    Bool(bool),
    Int(i32),
    UInt(u32),
    Long(i64),
    ULong(u64),
    /// A 32-bit float, by its bits.
    Float(u32),
    /// A 64-bit float, by its bits.
    Double(u64),
    Byte(i8),
    UByte(u8),
    Short(i16),
    UShort(u16),
    /// A string (the machine's `String` kind).
    Str(Rc<String>),
    Symbol(Rc<String>),
    Array(Rc<Vec<Value<N>>>),
    /// Key and value pairs (the machine's `Map` kind).
    Dict(Rc<Vec<(Value<N>, Value<N>)>>),
    Object(Rc<ObjectInstance<N>>),
    Function(Rc<FunctionValue>),
    Native(Rc<N>),
}

/// An object: its class and its fields.
pub struct ObjectInstance<N> {
    pub class_path: String,
    pub fields: Vec<Value<N>>,
}

impl<N> ObjectInstance<N> {
    /// An object of the class `class_path` with no field.
    pub fn simple(class_path: &str) -> (o: Self)
        ensures
            o.class_path@ == class_path@,
            o.fields@.len() == 0,
    {
        ObjectInstance { class_path: String::from_str(class_path), fields: Vec::new() }
    }
}

/// Whether a value counts as true: nil and void do not, a flag is itself, a number is
/// true when it is not zero (a float when it is neither +0 nor -0, so NaN is true), a
/// string when it is not empty, and every other value is true.
pub open spec fn truthy_of<N>(v: Value<N>) -> bool {
    match v {
        Value::Nil | Value::Void => false,
        Value::Bool(b) => b,
        Value::Int(i) => i != 0,
        Value::UInt(u) => u != 0,
        Value::Long(l) => l != 0,
        Value::ULong(u) => u != 0,
        Value::Float(bits) => bits & 0x7fff_ffffu32 != 0,
        Value::Double(bits) => bits & 0x7fff_ffff_ffff_ffffu64 != 0,
        Value::Byte(b) => b != 0,
        Value::UByte(b) => b != 0,
        Value::Short(s) => s != 0,
        Value::UShort(u) => u != 0,
        Value::Str(s) => (*s)@.len() != 0,
        _ => true,
    }
}

/// The value as a 32-bit integer, for the integer kinds that are not 64 bits wide (an
/// unsigned 32-bit value wraps).
pub open spec fn as_i32_of<N>(v: Value<N>) -> Option<i32> {
    match v {
        Value::Int(i) => Some(i),
        Value::UInt(u) => Some(u as i32),
        Value::Byte(b) => Some(b as i32),
        Value::UByte(b) => Some(b as i32),
        Value::Short(s) => Some(s as i32),
        Value::UShort(u) => Some(u as i32),
        _ => None,
    }
}

impl<N> Value<N> {
    /// Whether the value counts as true (see `truthy_of`).
    pub fn truthy(&self) -> (r: bool)
        ensures
            r == truthy_of(*self),
    {
        match self {
            Value::Nil | Value::Void => false,
            Value::Bool(b) => *b,
            Value::Int(i) => *i != 0,
            Value::UInt(u) => *u != 0,
            Value::Long(l) => *l != 0,
            Value::ULong(u) => *u != 0,
            Value::Float(bits) => *bits & 0x7fff_ffffu32 != 0,
            Value::Double(bits) => *bits & 0x7fff_ffff_ffff_ffffu64 != 0,
            Value::Byte(b) => *b != 0,
            Value::UByte(b) => *b != 0,
            Value::Short(s) => *s != 0,
            Value::UShort(u) => *u != 0,
            Value::Str(s) => !s.as_str().is_empty(),
            _ => true,
        }
    }

    /// The value as a 32-bit integer (see `as_i32_of`).
    pub fn as_i32(&self) -> (r: Option<i32>)
        ensures
            r == as_i32_of(*self),
    {
        match self {
            Value::Int(i) => Some(*i),
            Value::UInt(u) => Some(*u as i32),
            Value::Byte(b) => Some(*b as i32),
            Value::UByte(b) => Some(*b as i32),
            Value::Short(s) => Some(*s as i32),
            Value::UShort(u) => Some(*u as i32),
            _ => None,
        }
    }
}

/// What `str::to_lowercase` returns for `s`.
pub uninterp spec fn lowercase_text(s: Seq<char>) -> Seq<char>;

/// What `str::to_uppercase` returns for `s`.
pub uninterp spec fn uppercase_text(s: Seq<char>) -> Seq<char>;

/// `str::to_lowercase`: the contract names its result `lowercase_text`, a function of
/// the characters alone (Unicode's case mapping, with no locale), and says no more.
#[verifier::external_body]
fn lowercase(s: &str) -> (r: String)
    ensures
        r@ == lowercase_text(s@),
{
    s.to_lowercase()
}

/// `str::to_uppercase`: the contract names its result `uppercase_text`, a function of
/// the characters alone (Unicode's case mapping, with no locale), and says no more.
#[verifier::external_body]
fn uppercase(s: &str) -> (r: String)
    ensures
        r@ == uppercase_text(s@),
{
    s.to_uppercase()
}

/// The text that the string method `method` gives for `s`, for the methods that give
/// one: the string itself, lower- or upper-cased, or trimmed of white space.
pub open spec fn string_method_text(s: Seq<char>, method: Seq<char>) -> Option<Seq<char>> {
    if method == "toString"@ {
        Some(s)
    } else if method == "toLowerCase"@ {
        Some(lowercase_text(s))
    } else if method == "toUpperCase"@ {
        Some(uppercase_text(s))
    } else if method == "trim"@ {
        Some(trimmed(s))
    } else {
        None
    }
}

/// Calls the string method `method` on `s`: "length" gives its length in bytes (as
/// the machine's 32-bit integer), "isEmpty" whether it is empty, and the text methods
/// their text (see `string_method_text`); any other method gives nothing.
pub fn string_method<N>(s: &str, method: &str) -> (r: Option<Value<N>>)
    ensures
        method@ == "length"@ ==> r == Some(Value::<N>::Int(s.len() as i32)),
        method@ != "length"@ && method@ == "isEmpty"@ ==> r == Some(Value::<N>::Bool(s@.len() == 0)),
        method@ != "length"@ && method@ != "isEmpty"@ ==> match string_method_text(s@, method@) {
            Some(t) => r matches Some(Value::Str(v)) && (*v)@ == t,
            None => r is None,
        },
{
    if str_eq(method, "length") {
        Some(Value::Int(s.len() as i32))
    } else if str_eq(method, "isEmpty") {
        Some(Value::Bool(s.is_empty()))
    } else if str_eq(method, "toString") {
        Some(Value::Str(Rc::new(String::from_str(s))))
    } else if str_eq(method, "toLowerCase") {
        Some(Value::Str(Rc::new(lowercase(s))))
    } else if str_eq(method, "toUpperCase") {
        Some(Value::Str(Rc::new(uppercase(s))))
    } else if str_eq(method, "trim") {
        let (a, b) = trim_range(s);
        Some(Value::Str(Rc::new(String::from_str(s.substring_char(a, b)))))
    } else {
        None
    }
}


/// How the machine prints a value for debugging: literals for nil, void and flags,
/// numbers with a kind suffix ("l", "ul", "b", "ub", "s", "us"; none for 32-bit integers),
/// strings in double quotes, symbols after a quote, an array as its items between
/// doubled brackets, and a fixed text for maps, objects (after their class), functions
/// (their module and name) and natives. `None` for a float, or an array that holds one
/// at any depth: its digits are the float formatter's.
pub open spec fn debug_text<N>(v: Value<N>) -> Option<Seq<char>>
    decreases v,
{
    match v {
        Value::Nil => Some("nil"@),
        Value::Void => Some("void"@),
        Value::Bool(b) => Some(if b { "true"@ } else { "false"@ }),
        Value::Int(i) => Some(int_text(i as int)),
        Value::UInt(u) => Some(decimal_text(u as nat)),
        Value::Long(l) => Some(int_text(l as int) + "l"@),
        Value::ULong(u) => Some(decimal_text(u as nat) + "ul"@),
        Value::Float(_) => None,
        Value::Double(_) => None,
        Value::Byte(b) => Some(int_text(b as int) + "b"@),
        Value::UByte(b) => Some(decimal_text(b as nat) + "ub"@),
        Value::Short(s) => Some(int_text(s as int) + "s"@),
        Value::UShort(u) => Some(decimal_text(u as nat) + "us"@),
        Value::Str(s) => Some(seq!['"'] + (*s)@ + seq!['"']),
        Value::Symbol(s) => Some(seq!['\''] + (*s)@),
        Value::Array(a) => match items_text((*a)@) {
            Some(t) => Some("[["@ + t + "]]"@),
            None => None,
        },
        Value::Dict(_) => Some("{...}"@),
        Value::Object(o) => Some((*o).class_path@ + "#{...}"@),
        Value::Function(f) => Some("fn "@ + (*f).module_name@ + "::"@ + (*f).name@),
        Value::Native(_) => Some("<native fn>"@),
    }
}

/// The debug texts of a run of values joined by ", " (see `debug_text`).
pub open spec fn items_text<N>(items: Seq<Value<N>>) -> Option<Seq<char>>
    decreases items,
{
    if items.len() == 0 {
        Some(Seq::empty())
    } else {
        match (items_text(items.drop_last()), debug_text(items.last())) {
            (Some(a), Some(b)) => Some(if items.len() == 1 { b } else { a + ", "@ + b }),
            _ => None,
        }
    }
}


/// A run of values whose debug text is missing somewhere has none.
proof fn lemma_items_text_none<N>(items: Seq<Value<N>>, k: int)
    requires
        0 <= k < items.len(),
        debug_text(items[k]) is None,
    ensures
        items_text(items) is None,
    decreases items.len(),
{
    if k < items.len() - 1 {
        assert(items.drop_last()[k] == items[k]);
        lemma_items_text_none(items.drop_last(), k);
    }
}

fn push_decimal_text(s: &mut String, n: u64)
    ensures
        final(s)@ == old(s)@ + decimal_text(n as nat),
{
    crate::text::push_decimal(s, n);
}

/// The debug text of a value (see `debug_text`).
pub fn debug_string<N>(v: &Value<N>) -> (r: Option<String>)
    ensures
        match debug_text(*v) {
            Some(t) => r matches Some(x) && x@ == t,
            None => r is None,
        },
    decreases *v,
{
    let mut s = String::new();
    match v {
        Value::Nil => s.append("nil"),
        Value::Void => s.append("void"),
        Value::Bool(b) => if *b {
            s.append("true")
        } else {
            s.append("false")
        },
        Value::Int(i) => crate::text::push_int(&mut s, *i as i64),
        Value::UInt(u) => push_decimal_text(&mut s, *u as u64),
        Value::Long(l) => {
            crate::text::push_int(&mut s, *l);
            s.append("l");
        },
        Value::ULong(u) => {
            push_decimal_text(&mut s, *u);
            s.append("ul");
        },
        Value::Float(_) => return None,
        Value::Double(_) => return None,
        Value::Byte(b) => {
            crate::text::push_int(&mut s, *b as i64);
            s.append("b");
        },
        Value::UByte(b) => {
            push_decimal_text(&mut s, *b as u64);
            s.append("ub");
        },
        Value::Short(x) => {
            crate::text::push_int(&mut s, *x as i64);
            s.append("s");
        },
        Value::UShort(u) => {
            push_decimal_text(&mut s, *u as u64);
            s.append("us");
        },
        Value::Str(t) => {
            s.push('"');
            s.append(t.as_str());
            s.push('"');
        },
        Value::Symbol(t) => {
            s.push('\'');
            s.append(t.as_str());
        },
        Value::Array(a) => {
            let items: &Vec<Value<N>> = &**a;
            let mut t = String::new();
            let mut i: usize = 0;
            while i < items.len()
                invariant
                    i <= items@.len(),
                    items_text(items@.subrange(0, i as int)) == Some(t@),
                    *v == Value::<N>::Array(*a),
                    items@ == (**a)@,
                decreases items@.len() - i,
            {
                proof {
                    assert(decreases_to!(*v => items@[i as int]));
                }
                let e = debug_string(&items[i]);
                let ghost p = items@.subrange(0, i as int + 1);
                proof {
                    assert(p.drop_last() =~= items@.subrange(0, i as int));
                    assert(p.last() == items@[i as int]);
                }
                match e {
                    None => {
                        proof {
                            lemma_items_text_none(items@, i as int);
                        }
                        return None;
                    },
                    Some(x) => {
                        if i > 0 {
                            t.append(", ");
                        }
                        t.append(x.as_str());
                    },
                }
                i = i + 1;
            }
            proof {
                assert(items@.subrange(0, items@.len() as int) =~= items@);
            }
            s.append("[[");
            s.append(t.as_str());
            s.append("]]");
        },
        Value::Dict(_) => s.append("{...}"),
        Value::Object(o) => {
            s.append(o.class_path.as_str());
            s.append("#{...}");
        },
        Value::Function(f) => {
            s.append("fn ");
            s.append(f.module_name.as_str());
            s.append("::");
            s.append(f.name.as_str());
        },
        Value::Native(_) => s.append("<native fn>"),
    }
    proof {
        reveal_strlit("nil");
        reveal_strlit("void");
        reveal_strlit("true");
        reveal_strlit("false");
        reveal_strlit("l");
        reveal_strlit("ul");
        reveal_strlit("b");
        reveal_strlit("ub");
        reveal_strlit("s");
        reveal_strlit("us");
        reveal_strlit("[[");
        reveal_strlit("]]");
        reveal_strlit(", ");
        reveal_strlit("{...}");
        reveal_strlit("#{...}");
        reveal_strlit("fn ");
        reveal_strlit("::");
        reveal_strlit("<native fn>");
        assert(s@ =~= debug_text(*v)->Some_0);
    }
    Some(s)
}


/// The text of a value: a string or symbol is itself, a 32-bit integer (signed or
/// unsigned) its decimal digits, a flag "true" or "false", nil the empty text, and any
/// other value its debug text (see `debug_text`). `None` for a float, whose digits are
/// the float formatter's.
pub open spec fn value_text<N>(v: Value<N>) -> Option<Seq<char>> {
    match v {
        Value::Str(s) => Some((*s)@),
        Value::Int(i) => Some(int_text(i as int)),
        Value::UInt(u) => Some(decimal_text(u as nat)),
        Value::Float(_) => None,
        Value::Double(_) => None,
        Value::Bool(b) => Some(if b { "true"@ } else { "false"@ }),
        Value::Nil => Some(Seq::empty()),
        Value::Symbol(s) => Some((*s)@),
        _ => debug_text(v),
    }
}

impl<N> Value<N> {
    /// The value's text (see `value_text`).
    pub fn to_string(&self) -> (r: Option<String>)
        ensures
            match value_text(*self) {
                Some(t) => r matches Some(x) && x@ == t,
                None => r is None,
            },
    {
        match self {
            Value::Str(s) => Some(String::from_str(s.as_str())),
            Value::Int(i) => {
                let mut t = String::new();
                crate::text::push_int(&mut t, *i as i64);
                Some(t)
            },
            Value::UInt(u) => {
                let mut t = String::new();
                push_decimal_text(&mut t, *u as u64);
                Some(t)
            },
            Value::Float(_) => None,
            Value::Double(_) => None,
            Value::Bool(b) => Some(String::from_str(if *b { "true" } else { "false" })),
            Value::Nil => Some(String::new()),
            Value::Symbol(s) => Some(String::from_str(s.as_str())),
            _ => debug_string(self),
        }
    }
}


/// Argument `i` of a native call as a 32-bit integer (see `as_i32_of`), or `default`
/// when there is no such argument or it is not an integer of that kind.
pub open spec fn int_arg_of<N>(args: Seq<Value<N>>, i: int, default: i32) -> i32 {
    if 0 <= i < args.len() {
        match as_i32_of(args[i]) {
            Some(v) => v,
            None => default,
        }
    } else {
        default
    }
}

/// Argument `i` as a 32-bit integer, or `default` (see `int_arg_of`).
pub fn int_arg<N>(args: &[Value<N>], i: usize, default: i32) -> (r: i32)
    ensures
        r == int_arg_of(args@, i as int, default),
{
    if i < args.len() {
        match args[i].as_i32() {
            Some(v) => v,
            None => default,
        }
    } else {
        default
    }
}

} // verus!
