//! The bytecode machine's binary operators and value equality. Floats are held as their
//! bit patterns, so float comparison is decided here, while a result that takes float
//! arithmetic, an integer-to-float conversion or the identity of a shared value is not.
use vstd::prelude::*;
use std::rc::Rc;
use vstd::string::StringExecFns;
use vstd::string::StrSliceExecFns;
use crate::text::str_eq;
use crate::value::{Value, truthy_of};

verus! {

/// The operators, by the dunder name or the symbol that a script uses.
#[derive(Clone, Copy, PartialEq, Eq, Structural)]
pub enum BinOp {
    Add,
    Sub,
    Mul,
    Div,
    Mod,
    Eq,
    Ne,
    Ge,
    Le,
    Gt,
    Lt,
    And,
    Or,
}

/// The operator that a name denotes.
pub open spec fn bin_op_of(name: Seq<char>) -> Option<BinOp> {
    if name == "__add__"@ || name == "+"@ {
        Some(BinOp::Add)
    } else if name == "__sub__"@ || name == "-"@ {
        Some(BinOp::Sub)
    } else if name == "__mul__"@ || name == "*"@ {
        Some(BinOp::Mul)
    } else if name == "__div__"@ || name == "/"@ {
        Some(BinOp::Div)
    } else if name == "__mod__"@ || name == "%"@ {
        Some(BinOp::Mod)
    } else if name == "__eq__"@ || name == "=="@ {
        Some(BinOp::Eq)
    } else if name == "__ne__"@ || name == "!="@ {
        Some(BinOp::Ne)
    } else if name == "__ge__"@ || name == ">="@ {
        Some(BinOp::Ge)
    } else if name == "__le__"@ || name == "<="@ {
        Some(BinOp::Le)
    } else if name == "__gt__"@ || name == ">"@ {
        Some(BinOp::Gt)
    } else if name == "__lt__"@ || name == "<"@ {
        Some(BinOp::Lt)
    } else if name == "__and__"@ || name == "&&"@ {
        Some(BinOp::And)
    } else if name == "__or__"@ || name == "||"@ {
        Some(BinOp::Or)
    } else {
        None
    }
}

/// The operator that `name` denotes (see `bin_op_of`).
pub fn bin_op(name: &str) -> (r: Option<BinOp>)
    ensures
        r == bin_op_of(name@),
{
    if str_eq(name, "__add__") || str_eq(name, "+") {
        Some(BinOp::Add)
    } else if str_eq(name, "__sub__") || str_eq(name, "-") {
        Some(BinOp::Sub)
    } else if str_eq(name, "__mul__") || str_eq(name, "*") {
        Some(BinOp::Mul)
    } else if str_eq(name, "__div__") || str_eq(name, "/") {
        Some(BinOp::Div)
    } else if str_eq(name, "__mod__") || str_eq(name, "%") {
        Some(BinOp::Mod)
    } else if str_eq(name, "__eq__") || str_eq(name, "==") {
        Some(BinOp::Eq)
    } else if str_eq(name, "__ne__") || str_eq(name, "!=") {
        Some(BinOp::Ne)
    } else if str_eq(name, "__ge__") || str_eq(name, ">=") {
        Some(BinOp::Ge)
    } else if str_eq(name, "__le__") || str_eq(name, "<=") {
        Some(BinOp::Le)
    } else if str_eq(name, "__gt__") || str_eq(name, ">") {
        Some(BinOp::Gt)
    } else if str_eq(name, "__lt__") || str_eq(name, "<") {
        Some(BinOp::Lt)
    } else if str_eq(name, "__and__") || str_eq(name, "&&") {
        Some(BinOp::And)
    } else if str_eq(name, "__or__") || str_eq(name, "||") {
        Some(BinOp::Or)
    } else {
        None
    }
}

/// A 32-bit float's bits are a NaN: all exponent bits set and a fraction that is not 0.
pub open spec fn f32_is_nan(x: u32) -> bool {
    x % 0x8000_0000 > 0x7f80_0000
}

/// Where a non-NaN 32-bit float lies on the number line, as an integer that orders the
/// floats as their values do (both zeros at 0).
pub open spec fn f32_rank(x: u32) -> int {
    if x >= 0x8000_0000 {
        -((x - 0x8000_0000) as int)
    } else {
        x as int
    }
}

/// A 64-bit float's bits are a NaN.
pub open spec fn f64_is_nan(x: u64) -> bool {
    x % 0x8000_0000_0000_0000 > 0x7ff0_0000_0000_0000
}

/// `f32_rank` for 64-bit floats.
pub open spec fn f64_rank(x: u64) -> int {
    if x >= 0x8000_0000_0000_0000 {
        -((x - 0x8000_0000_0000_0000) as int)
    } else {
        x as int
    }
}

/// `x < y` on two 32-bit floats given by their bits: false when either is a NaN.
pub open spec fn f32_lt(x: u32, y: u32) -> bool {
    !f32_is_nan(x) && !f32_is_nan(y) && f32_rank(x) < f32_rank(y)
}

/// `x <= y` on two 32-bit floats given by their bits: false when either is a NaN.
pub open spec fn f32_le(x: u32, y: u32) -> bool {
    !f32_is_nan(x) && !f32_is_nan(y) && f32_rank(x) <= f32_rank(y)
}

/// `x == y` on two 32-bit floats given by their bits: a NaN equals nothing, and the two
/// zeros are equal.
pub open spec fn f32_eq(x: u32, y: u32) -> bool {
    !f32_is_nan(x) && !f32_is_nan(y) && f32_rank(x) == f32_rank(y)
}

/// `x == y` on two 64-bit floats given by their bits.
pub open spec fn f64_eq(x: u64, y: u64) -> bool {
    !f64_is_nan(x) && !f64_is_nan(y) && f64_rank(x) == f64_rank(y)
}

fn rank32(x: u32) -> (r: (bool, i64))
    ensures
        r.0 == f32_is_nan(x),
        r.1 == f32_rank(x),
{
    let nan = x % 0x8000_0000 > 0x7f80_0000;
    let rank: i64 = if x >= 0x8000_0000 {
        -((x - 0x8000_0000) as i64)
    } else {
        x as i64
    };
    (nan, rank)
}

fn rank64(x: u64) -> (r: (bool, i128))
    ensures
        r.0 == f64_is_nan(x),
        r.1 == f64_rank(x),
{
    let nan = x % 0x8000_0000_0000_0000 > 0x7ff0_0000_0000_0000;
    let rank: i128 = if x >= 0x8000_0000_0000_0000 {
        -((x - 0x8000_0000_0000_0000) as i128)
    } else {
        x as i128
    };
    (nan, rank)
}

/// Whether string `x` sorts before string `y`, comparing from position `i` on: the first
/// position where they differ decides by character code, and a string that ends first
/// sorts first. (UTF-8 keeps the order of character codes, so this is the byte order
/// that strings are compared by.)
pub open spec fn text_lt_from(x: Seq<char>, y: Seq<char>, i: int) -> bool
    decreases x.len() - i,
{
    if i < 0 || i >= x.len() {
        i >= 0 && i < y.len()
    } else if i >= y.len() {
        false
    } else if x[i] != y[i] {
        (x[i] as int) < (y[i] as int)
    } else {
        text_lt_from(x, y, i + 1)
    }
}

/// Whether string `x` sorts before string `y`.
pub open spec fn text_lt(x: Seq<char>, y: Seq<char>) -> bool {
    text_lt_from(x, y, 0)
}

/// `text_lt` on strings in hand.
pub fn str_lt(x: &str, y: &str) -> (r: bool)
    ensures
        r == text_lt(x@, y@),
{
    let nx = x.unicode_len();
    let ny = y.unicode_len();
    let mut i: usize = 0;
    while i < nx && i < ny
        invariant
            nx == x@.len(),
            ny == y@.len(),
            i <= nx,
            text_lt(x@, y@) == text_lt_from(x@, y@, i as int),
        decreases nx - i,
    {
        let a = x.get_char(i);
        let b = y.get_char(i);
        if a != b {
            return (a as u32) < (b as u32);
        }
        i = i + 1;
    }
    i >= nx && i < ny
}

/// Whether the machine counts two values equal: values of one kind by their contents
/// (a signed and an unsigned 32-bit integer after the unsigned one wraps; floats as
/// floats compare), values of different kinds never. `None` where that rests on an
/// integer-to-float conversion (an integer against a float) or on whether two shared
/// values (arrays, maps, objects, functions, natives) are the same one.
pub open spec fn values_equal_of<N>(a: Value<N>, b: Value<N>) -> Option<bool> {
    match (a, b) {
        (Value::Nil, Value::Nil) => Some(true),
        (Value::Void, Value::Void) => Some(true),
        (Value::Bool(x), Value::Bool(y)) => Some(x == y),
        (Value::Int(x), Value::Int(y)) => Some(x == y),
        (Value::Int(x), Value::UInt(y)) => Some(x == y as i32),
        (Value::UInt(x), Value::Int(y)) => Some(x as i32 == y),
        (Value::UInt(x), Value::UInt(y)) => Some(x == y),
        (Value::Long(x), Value::Long(y)) => Some(x == y),
        (Value::ULong(x), Value::ULong(y)) => Some(x == y),
        (Value::Float(x), Value::Float(y)) => Some(f32_eq(x, y)),
        (Value::Double(x), Value::Double(y)) => Some(f64_eq(x, y)),
        (Value::Str(x), Value::Str(y)) => Some((*x)@ == (*y)@),
        (Value::Symbol(x), Value::Symbol(y)) => Some((*x)@ == (*y)@),
        (Value::Int(_), Value::Float(_)) => None,
        (Value::Float(_), Value::Int(_)) => None,
        (Value::Array(_), Value::Array(_)) => None,
        (Value::Dict(_), Value::Dict(_)) => None,
        (Value::Object(_), Value::Object(_)) => None,
        (Value::Function(_), Value::Function(_)) => None,
        (Value::Native(_), Value::Native(_)) => None,
        _ => Some(false),
    }
}

/// Whether two values are equal (see `values_equal_of`).
pub fn values_equal<N>(a: &Value<N>, b: &Value<N>) -> (r: Option<bool>)
    ensures
        r == values_equal_of(*a, *b),
{
    match (a, b) {
        (Value::Nil, Value::Nil) => Some(true),
        (Value::Void, Value::Void) => Some(true),
        (Value::Bool(x), Value::Bool(y)) => Some(*x == *y),
        (Value::Int(x), Value::Int(y)) => Some(*x == *y),
        (Value::Int(x), Value::UInt(y)) => Some(*x == *y as i32),
        (Value::UInt(x), Value::Int(y)) => Some(*x as i32 == *y),
        (Value::UInt(x), Value::UInt(y)) => Some(*x == *y),
        (Value::Long(x), Value::Long(y)) => Some(*x == *y),
        (Value::ULong(x), Value::ULong(y)) => Some(*x == *y),
        (Value::Float(x), Value::Float(y)) => {
            let (nx, kx) = rank32(*x);
            let (ny, ky) = rank32(*y);
            Some(!nx && !ny && kx == ky)
        },
        (Value::Double(x), Value::Double(y)) => {
            let (nx, kx) = rank64(*x);
            let (ny, ky) = rank64(*y);
            Some(!nx && !ny && kx == ky)
        },
        (Value::Str(x), Value::Str(y)) => Some(str_eq(x.as_str(), y.as_str())),
        (Value::Symbol(x), Value::Symbol(y)) => Some(str_eq(x.as_str(), y.as_str())),
        (Value::Int(_), Value::Float(_)) => None,
        (Value::Float(_), Value::Int(_)) => None,
        (Value::Array(_), Value::Array(_)) => None,
        (Value::Dict(_), Value::Dict(_)) => None,
        (Value::Object(_), Value::Object(_)) => None,
        (Value::Function(_), Value::Function(_)) => None,
        (Value::Native(_), Value::Native(_)) => None,
        _ => Some(false),
    }
}

/// Equality on values of one plain kind is equality of their contents: nil equals nil,
/// void equals void, two flags or two integers of one width are equal exactly when they
/// hold the same value, two strings or two symbols exactly when they have the same text;
/// a flag, a string or a symbol never equals a value of another kind; and equality does
/// not depend on the order of its operands.
pub proof fn lemma_plain_equality<N>(a: Value<N>, b: Value<N>)
    ensures
        values_equal_of(a, b) == values_equal_of(b, a),
        (a is Nil && b is Nil) || (a is Void && b is Void) ==> values_equal_of(a, b) == Some(true),
        (a is Bool && b is Bool) || (a is Int && b is Int) || (a is UInt && b is UInt) || (a is Long && b is Long) || (
        a is ULong && b is ULong) ==> values_equal_of(a, b) == Some(a == b),
        a is Str && b is Str ==> values_equal_of(a, b) == Some((*a->Str_0)@ == (*b->Str_0)@),
        a is Symbol && b is Symbol ==> values_equal_of(a, b) == Some((*a->Symbol_0)@ == (*b->Symbol_0)@),
        a is Bool && !(b is Bool) ==> values_equal_of(a, b) == Some(false),
        a is Str && !(b is Str) ==> values_equal_of(a, b) == Some(false),
        a is Symbol && !(b is Symbol) ==> values_equal_of(a, b) == Some(false),
{
}

/// `==` and `!=` on two flags give whether they are the same flag, and whether not.
pub proof fn lemma_flag_comparison<N>(x: bool, y: bool, r: Option<Value<N>>)
    ensures
        binary_op_result(Value::<N>::Bool(x), Value::<N>::Bool(y), BinOp::Eq, r) ==> r == Some(Value::<N>::Bool(x == y)),
        binary_op_result(Value::<N>::Bool(x), Value::<N>::Bool(y), BinOp::Ne, r) ==> r == Some(Value::<N>::Bool(x != y)),
{
}

/// Whether comparison `op` holds of `a` and `b`.
pub open spec fn compares<N>(a: Value<N>, b: Value<N>, op: BinOp) -> bool {
    binary_op_result(a, b, op, Some(Value::<N>::Bool(true)))
}

/// Arithmetic on two 32-bit integers, where it does not overflow: `+`, `-` and `*` give
/// the sum, difference and product; `/` gives a quotient `q` and `%` a remainder `m`
/// with `x == q * y + m`, `m` smaller than `y` in size and of the sign of `x`; a zero
/// divisor gives 0.
pub proof fn lemma_int_arithmetic<N>(x: i32, y: i32, r: Option<Value<N>>, r2: Option<Value<N>>)
    ensures
        i32::MIN <= x + y <= i32::MAX && binary_op_result(Value::<N>::Int(x), Value::<N>::Int(y), BinOp::Add, r)
            ==> (r matches Some(Value::Int(z)) && z == x + y),
        i32::MIN <= x - y <= i32::MAX && binary_op_result(Value::<N>::Int(x), Value::<N>::Int(y), BinOp::Sub, r)
            ==> (r matches Some(Value::Int(z)) && z == x - y),
        i32::MIN <= x * y <= i32::MAX && binary_op_result(Value::<N>::Int(x), Value::<N>::Int(y), BinOp::Mul, r)
            ==> (r matches Some(Value::Int(z)) && z == x * y),
        y != 0 && !(x == i32::MIN && y == -1) && binary_op_result(Value::<N>::Int(x), Value::<N>::Int(y), BinOp::Div, r)
            && binary_op_result(Value::<N>::Int(x), Value::<N>::Int(y), BinOp::Mod, r2) ==> (r matches Some(
            Value::Int(q),
        ) && r2 matches Some(Value::Int(m)) && x == q * y + m && (if y > 0 { -y < m < y } else { y < m < -y }) && (
        m == 0 || (m > 0) == (x > 0))),
        y == 0 && binary_op_result(Value::<N>::Int(x), Value::<N>::Int(y), BinOp::Div, r) ==> r == Some(
            Value::<N>::Int(0),
        ),
{
    if y != 0 && !(x == i32::MIN && y == -1) {
        let ax: int = if x < 0 { -x } else { x as int };
        let ay: int = if y < 0 { -y } else { y as int };
        let q0 = ax / ay;
        let m0 = ax % ay;
        assert(ax == q0 * ay + m0 && 0 <= m0 < ay) by {
            vstd::arithmetic::div_mod::lemma_fundamental_div_mod(ax, ay);
            vstd::arithmetic::mul::lemma_mul_is_commutative(q0, ay);
        }
        let q = trunc_div(x as int, y as int);
        let m = trunc_rem(x as int, y as int);
        assert(x == q * y + m) by (nonlinear_arith)
            requires
                ax == q0 * ay + m0,
                ax == (if x < 0 { -x } else { x as int }),
                ay == (if y < 0 { -y } else { y as int }),
                q == (if (x < 0) != (y < 0) { -q0 } else { q0 }),
                m == (if x < 0 { -m0 } else { m0 }),
        ;
        assert(q0 * ay >= q0) by (nonlinear_arith)
            requires
                ay >= 1,
                q0 >= 0,
        ;
        if q0 == 0x8000_0000 {
            assert(ay == 1) by (nonlinear_arith)
                requires
                    q0 * ay <= ax,
                    q0 == 0x8000_0000,
                    ax <= 0x8000_0000,
                    ay >= 1,
            ;
        }
        assert(i32::MIN <= q <= i32::MAX);
    }
}

/// The comparisons of two 32-bit integers or two strings agree with each other: `<` on
/// `a, b` is `>` on `b, a`, `<=` is not `>`, `>=` is not `<`, and `<` never holds both
/// ways; on integers `<` is the integers' order. Each comparison gives a flag.
pub proof fn lemma_comparisons<N>(a: Value<N>, b: Value<N>, op: BinOp, r: Option<Value<N>>)
    requires
        (a is Int && b is Int) || (a is Str && b is Str),
    ensures
        compares(a, b, BinOp::Lt) == compares(b, a, BinOp::Gt),
        compares(a, b, BinOp::Le) == !compares(a, b, BinOp::Gt),
        compares(a, b, BinOp::Ge) == !compares(a, b, BinOp::Lt),
        !(compares(a, b, BinOp::Lt) && compares(b, a, BinOp::Lt)),
        a is Int && b is Int ==> compares(a, b, BinOp::Lt) == (a->Int_0 < b->Int_0),
        (op is Lt || op is Le || op is Gt || op is Ge) && binary_op_result(a, b, op, r) ==> r == Some(
            Value::<N>::Bool(compares(a, b, op)),
        ),
{
    if a is Str {
        lemma_text_order((*a->Str_0)@, (*b->Str_0)@);
    }
}

/// Integer division rounding toward zero.
pub open spec fn trunc_div(x: int, y: int) -> int {
    let q = (if x < 0 { -x } else { x }) / (if y < 0 { -y } else { y });
    if (x < 0) != (y < 0) {
        -q
    } else {
        q
    }
}

/// The remainder of `trunc_div`: it takes the sign of `x`.
pub open spec fn trunc_rem(x: int, y: int) -> int {
    let r = (if x < 0 { -x } else { x }) % (if y < 0 { -y } else { y });
    if x < 0 {
        -r
    } else {
        r
    }
}

/// The operand pairs on which an operator overflows, where the machine's integer
/// arithmetic stops: a 32-bit sum, difference or product out of range, the smallest
/// 32-bit integer divided by -1 (quotient or remainder), or an unsigned sum above
/// 2^32 - 1.
pub open spec fn binary_op_overflows<N>(a: Value<N>, b: Value<N>, op: BinOp) -> bool {
    match (a, b) {
        (Value::Int(x), Value::Int(y)) => match op {
            BinOp::Add => !(i32::MIN <= x + y <= i32::MAX),
            BinOp::Sub => !(i32::MIN <= x - y <= i32::MAX),
            BinOp::Mul => !(i32::MIN <= x * y <= i32::MAX),
            BinOp::Div | BinOp::Mod => x == i32::MIN && y == -1,
            _ => false,
        },
        (Value::UInt(x), Value::UInt(y)) => op == BinOp::Add && x + y > u32::MAX,
        _ => false,
    }
}

/// Whether `r` is what operator `op` gives for `a` and `b`. Arithmetic: on two 32-bit
/// integers the exact result (division and remainder round toward zero, and a zero
/// divisor gives 0), on two unsigned ones their sum, on two strings their concatenation;
/// `None` where the machine computes with floats; 0 for any other pair. Comparison: on
/// integers, on floats by value (false with a NaN) and on strings by `text_lt`; false
/// for any other pair. Equality follows `values_equal_of`, and `&&` and `||` combine
/// truthiness.
pub open spec fn binary_op_result<N>(a: Value<N>, b: Value<N>, op: BinOp, r: Option<Value<N>>) -> bool {
    match op {
        BinOp::Add => match (a, b) {
            (Value::Int(x), Value::Int(y)) => r == Some(Value::<N>::Int((x + y) as i32)),
            (Value::UInt(x), Value::UInt(y)) => r == Some(Value::<N>::UInt((x + y) as u32)),
            (Value::Float(_), Value::Float(_)) => r is None,
            (Value::Double(_), Value::Double(_)) => r is None,
            (Value::Int(_), Value::Float(_)) => r is None,
            (Value::Float(_), Value::Int(_)) => r is None,
            (Value::Str(x), Value::Str(y)) => r matches Some(Value::Str(t)) && (*t)@ == (*x)@ + (*y)@,
            _ => r == Some(Value::<N>::Int(0)),
        },
        BinOp::Sub => match (a, b) {
            (Value::Int(x), Value::Int(y)) => r == Some(Value::<N>::Int((x - y) as i32)),
            (Value::Float(_), Value::Float(_)) => r is None,
            (Value::Double(_), Value::Double(_)) => r is None,
            (Value::Int(_), Value::Float(_)) => r is None,
            (Value::Float(_), Value::Int(_)) => r is None,
            _ => r == Some(Value::<N>::Int(0)),
        },
        BinOp::Mul => match (a, b) {
            (Value::Int(x), Value::Int(y)) => r == Some(Value::<N>::Int((x * y) as i32)),
            (Value::Float(_), Value::Float(_)) => r is None,
            (Value::Double(_), Value::Double(_)) => r is None,
            _ => r == Some(Value::<N>::Int(0)),
        },
        BinOp::Div => match (a, b) {
            (Value::Int(x), Value::Int(y)) => r == Some(
                Value::<N>::Int(if y != 0 { trunc_div(x as int, y as int) as i32 } else { 0 }),
            ),
            (Value::Float(_), Value::Float(_)) => r is None,
            (Value::Double(_), Value::Double(_)) => r is None,
            _ => r == Some(Value::<N>::Int(0)),
        },
        BinOp::Mod => match (a, b) {
            (Value::Int(x), Value::Int(y)) => r == Some(
                Value::<N>::Int(if y != 0 { trunc_rem(x as int, y as int) as i32 } else { 0 }),
            ),
            _ => r == Some(Value::<N>::Int(0)),
        },
        BinOp::Eq => match values_equal_of(a, b) {
            Some(e) => r == Some(Value::<N>::Bool(e)),
            None => r is None,
        },
        BinOp::Ne => match values_equal_of(a, b) {
            Some(e) => r == Some(Value::<N>::Bool(!e)),
            None => r is None,
        },
        BinOp::Ge => r == Some(Value::<N>::Bool(match (a, b) {
            (Value::Int(x), Value::Int(y)) => x >= y,
            (Value::Float(x), Value::Float(y)) => f32_le(y, x),
            (Value::Str(x), Value::Str(y)) => !text_lt((*x)@, (*y)@),
            _ => false,
        })),
        BinOp::Le => r == Some(Value::<N>::Bool(match (a, b) {
            (Value::Int(x), Value::Int(y)) => x <= y,
            (Value::Float(x), Value::Float(y)) => f32_le(x, y),
            (Value::Str(x), Value::Str(y)) => !text_lt((*y)@, (*x)@),
            _ => false,
        })),
        BinOp::Gt => r == Some(Value::<N>::Bool(match (a, b) {
            (Value::Int(x), Value::Int(y)) => x > y,
            (Value::Float(x), Value::Float(y)) => f32_lt(y, x),
            (Value::Str(x), Value::Str(y)) => text_lt((*y)@, (*x)@),
            _ => false,
        })),
        BinOp::Lt => r == Some(Value::<N>::Bool(match (a, b) {
            (Value::Int(x), Value::Int(y)) => x < y,
            (Value::Float(x), Value::Float(y)) => f32_lt(x, y),
            (Value::Str(x), Value::Str(y)) => text_lt((*x)@, (*y)@),
            _ => false,
        })),
        BinOp::And => r == Some(Value::<N>::Bool(truthy_of(a) && truthy_of(b))),
        BinOp::Or => r == Some(Value::<N>::Bool(truthy_of(a) || truthy_of(b))),
    }
}

fn int_div(x: i32, y: i32, rem: bool) -> (r: i32)
    requires
        y != 0,
        !(x == i32::MIN && y == -1),
    ensures
        r == if rem { trunc_rem(x as int, y as int) } else { trunc_div(x as int, y as int) },
{
    let ax: i64 = if x < 0 { -(x as i64) } else { x as i64 };
    let ay: i64 = if y < 0 { -(y as i64) } else { y as i64 };
    if rem {
        let m = ax % ay;
        proof {
            vstd::arithmetic::div_mod::lemma_mod_pos_bound(ax as int, ay as int);
        }
        if x < 0 { (-m) as i32 } else { m as i32 }
    } else {
        let q = ax / ay;
        proof {
            if ay == 1 {
                assert(q == ax);
            } else {
                vstd::arithmetic::div_mod::lemma_div_is_ordered_by_denominator(ax as int, 2, ay as int);
                assert(q <= ax / 2);
            }
        }
        if (x < 0) != (y < 0) { (-q) as i32 } else { q as i32 }
    }
}

fn float_lt(x: u32, y: u32) -> (r: bool)
    ensures
        r == f32_lt(x, y),
{
    let (nx, kx) = rank32(x);
    let (ny, ky) = rank32(y);
    !nx && !ny && kx < ky
}

fn float_le(x: u32, y: u32) -> (r: bool)
    ensures
        r == f32_le(x, y),
{
    let (nx, kx) = rank32(x);
    let (ny, ky) = rank32(y);
    !nx && !ny && kx <= ky
}

/// Operator `op` on `a` and `b` (see `binary_op_result`).
pub fn apply_bin_op<N>(a: &Value<N>, b: &Value<N>, op: BinOp) -> (r: Option<Value<N>>)
    requires
        !binary_op_overflows(*a, *b, op),
    ensures
        binary_op_result(*a, *b, op, r),
{
    match op {
        BinOp::Add => match (a, b) {
            (Value::Int(x), Value::Int(y)) => Some(Value::Int(*x + *y)),
            (Value::UInt(x), Value::UInt(y)) => Some(Value::UInt(*x + *y)),
            (Value::Float(_), Value::Float(_)) => None,
            (Value::Double(_), Value::Double(_)) => None,
            (Value::Int(_), Value::Float(_)) => None,
            (Value::Float(_), Value::Int(_)) => None,
            (Value::Str(x), Value::Str(y)) => {
                let mut t = String::from_str(x.as_str());
                t.append(y.as_str());
                Some(Value::Str(Rc::new(t)))
            },
            _ => Some(Value::Int(0)),
        },
        BinOp::Sub => match (a, b) {
            (Value::Int(x), Value::Int(y)) => Some(Value::Int(*x - *y)),
            (Value::Float(_), Value::Float(_)) => None,
            (Value::Double(_), Value::Double(_)) => None,
            (Value::Int(_), Value::Float(_)) => None,
            (Value::Float(_), Value::Int(_)) => None,
            _ => Some(Value::Int(0)),
        },
        BinOp::Mul => match (a, b) {
            (Value::Int(x), Value::Int(y)) => {
                let p = (*x as i64) * (*y as i64);
                Some(Value::Int(p as i32))
            },
            (Value::Float(_), Value::Float(_)) => None,
            (Value::Double(_), Value::Double(_)) => None,
            _ => Some(Value::Int(0)),
        },
        BinOp::Div => match (a, b) {
            (Value::Int(x), Value::Int(y)) => Some(
                Value::Int(if *y != 0 { int_div(*x, *y, false) } else { 0 }),
            ),
            (Value::Float(_), Value::Float(_)) => None,
            (Value::Double(_), Value::Double(_)) => None,
            _ => Some(Value::Int(0)),
        },
        BinOp::Mod => match (a, b) {
            (Value::Int(x), Value::Int(y)) => Some(
                Value::Int(if *y != 0 { int_div(*x, *y, true) } else { 0 }),
            ),
            _ => Some(Value::Int(0)),
        },
        BinOp::Eq => match values_equal(a, b) {
            Some(e) => Some(Value::Bool(e)),
            None => None,
        },
        BinOp::Ne => match values_equal(a, b) {
            Some(e) => Some(Value::Bool(!e)),
            None => None,
        },
        BinOp::Ge => Some(Value::Bool(match (a, b) {
            (Value::Int(x), Value::Int(y)) => *x >= *y,
            (Value::Float(x), Value::Float(y)) => float_le(*y, *x),
            (Value::Str(x), Value::Str(y)) => !str_lt(x.as_str(), y.as_str()),
            _ => false,
        })),
        BinOp::Le => Some(Value::Bool(match (a, b) {
            (Value::Int(x), Value::Int(y)) => *x <= *y,
            (Value::Float(x), Value::Float(y)) => float_le(*x, *y),
            (Value::Str(x), Value::Str(y)) => !str_lt(y.as_str(), x.as_str()),
            _ => false,
        })),
        BinOp::Gt => Some(Value::Bool(match (a, b) {
            (Value::Int(x), Value::Int(y)) => *x > *y,
            (Value::Float(x), Value::Float(y)) => float_lt(*y, *x),
            (Value::Str(x), Value::Str(y)) => str_lt(y.as_str(), x.as_str()),
            _ => false,
        })),
        BinOp::Lt => Some(Value::Bool(match (a, b) {
            (Value::Int(x), Value::Int(y)) => *x < *y,
            (Value::Float(x), Value::Float(y)) => float_lt(*x, *y),
            (Value::Str(x), Value::Str(y)) => str_lt(x.as_str(), y.as_str()),
            _ => false,
        })),
        BinOp::And => Some(Value::Bool(a.truthy() && b.truthy())),
        BinOp::Or => Some(Value::Bool(a.truthy() || b.truthy())),
    }
}

/// The operator named `op` on `a` and `b`: as `binary_op_result` says for a known
/// operator name, and nil for any other name.
pub fn binary_op<N>(a: &Value<N>, b: &Value<N>, op: &str) -> (r: Option<Value<N>>)
    requires
        bin_op_of(op@) matches Some(o) ==> !binary_op_overflows(*a, *b, o),
    ensures
        match bin_op_of(op@) {
            Some(o) => binary_op_result(*a, *b, o, r),
            None => r == Some(Value::<N>::Nil),
        },
{
    match bin_op(op) {
        Some(o) => apply_bin_op(a, b, o),
        None => Some(Value::Nil),
    }
}

proof fn lemma_text_order_from(x: Seq<char>, y: Seq<char>, i: int)
    requires
        0 <= i <= x.len(),
        i <= y.len(),
        x.subrange(0, i) == y.subrange(0, i),
    ensures
        text_lt_from(x, y, i) || x == y || text_lt_from(y, x, i),
        !(text_lt_from(x, y, i) && text_lt_from(y, x, i)),
        text_lt_from(x, y, i) ==> x != y,
    decreases x.len() - i,
{
    if i == x.len() && i == y.len() {
        assert(x =~= x.subrange(0, i));
        assert(y =~= y.subrange(0, i));
    } else if i == x.len() || i == y.len() {
    } else if x[i] != y[i] {
        assert(x[i] as int != y[i] as int);
    } else {
        assert(x.subrange(0, i + 1) =~= x.subrange(0, i).push(x[i]));
        assert(y.subrange(0, i + 1) =~= y.subrange(0, i).push(y[i]));
        lemma_text_order_from(x, y, i + 1);
    }
}

/// The order that strings are compared by is a strict total order: of two strings,
/// exactly one sorts first, unless they are equal.
pub proof fn lemma_text_order(x: Seq<char>, y: Seq<char>)
    ensures
        text_lt(x, y) || x == y || text_lt(y, x),
        !(text_lt(x, y) && text_lt(y, x)),
        text_lt(x, y) ==> x != y,
{
    assert(x.subrange(0, 0) =~= y.subrange(0, 0));
    lemma_text_order_from(x, y, 0);
}

} // verus!
