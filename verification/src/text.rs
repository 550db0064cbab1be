//! Text produced from bytes and numbers: lenient UTF-8 decoding and the hexadecimal and
//! decimal renderings used in messages.
use vstd::prelude::*;
use vstd::string::StrSliceExecFns;
use vstd::string::StringExecFns;

verus! {

/// Upper-case hexadecimal digit of `v` (below 16).
pub open spec fn hex_digit(v: int) -> char {
    if v < 10 {
        (48 + v) as char
    } else {
        (55 + v) as char
    }
}

/// Two upper-case hexadecimal digits of a byte.
pub open spec fn hex_byte(b: u8) -> Seq<char> {
    seq![hex_digit(b as int / 16), hex_digit(b as int % 16)]
}

/// Four bytes as a bracketed, comma-separated list of two-digit hexadecimal numbers.
pub open spec fn hex_list4(m: Seq<u8>) -> Seq<char> {
    seq!['['] + hex_byte(m[0]) + seq![',', ' '] + hex_byte(m[1]) + seq![',', ' '] + hex_byte(m[2])
        + seq![',', ' '] + hex_byte(m[3]) + seq![']']
}

/// Upper-case hexadecimal digits of `n`, without leading zeros ("0" for zero).
pub open spec fn hex_text(n: nat) -> Seq<char>
    decreases n,
{
    if n < 16 {
        seq![hex_digit(n as int)]
    } else {
        hex_text(n / 16) + seq![hex_digit((n % 16) as int)]
    }
}

/// Decimal digits of `n`, without leading zeros ("0" for zero).
pub open spec fn decimal_text(n: nat) -> Seq<char>
    decreases n,
{
    if n < 10 {
        seq![hex_digit(n as int)]
    } else {
        decimal_text(n / 10) + seq![hex_digit((n % 10) as int)]
    }
}

/// A character with the Unicode White_Space property, which `char::is_whitespace` tests.
pub open spec fn is_white_space(c: char) -> bool {
    let v = c as u32;
    ||| 0x09 <= v <= 0x0d
    ||| v == 0x20
    ||| v == 0x85
    ||| v == 0xa0
    ||| v == 0x1680
    ||| 0x2000 <= v <= 0x200a
    ||| v == 0x2028
    ||| v == 0x2029
    ||| v == 0x202f
    ||| v == 0x205f
    ||| v == 0x3000
}

/// `s` without leading and trailing white space, as `str::trim` leaves it.
pub open spec fn trimmed(s: Seq<char>) -> Seq<char>
    decreases s.len(),
{
    if s.len() > 0 && is_white_space(s[0]) {
        trimmed(s.drop_first())
    } else if s.len() > 0 && is_white_space(s.last()) {
        trimmed(s.drop_last())
    } else {
        s
    }
}

/// The value of a string of ASCII decimal digits.
pub open spec fn digits_value(t: Seq<char>) -> int
    decreases t.len(),
{
    if t.len() == 0 {
        0
    } else {
        10 * digits_value(t.drop_last()) + (t.last() as int - 48)
    }
}

/// Every character is an ASCII decimal digit.
pub open spec fn all_digits(t: Seq<char>) -> bool {
    forall|i: int| 0 <= i < t.len() ==> '0' <= #[trigger] t[i] <= '9'
}

/// What `u32::from_str` accepts: an optional '+', then at least one ASCII digit, of a
/// value that fits in a u32.
pub open spec fn parses_as_u32(s: Seq<char>) -> bool {
    let t = if s.len() > 0 && s[0] == '+' {
        s.drop_first()
    } else {
        s
    };
    t.len() > 0 && all_digits(t) && digits_value(t) <= u32::MAX
}

/// Once the digits from `a` exceed a bound, more digits never bring them back below it.
proof fn lemma_digits_value_prefix(t: Seq<char>)
    requires
        t.len() > 0,
        all_digits(t),
    ensures
        digits_value(t) >= 10 * digits_value(t.drop_last()),
        digits_value(t.drop_last()) >= 0,
    decreases t.len(),
{
    if t.len() > 1 {
        lemma_digits_value_prefix(t.drop_last());
    }
}

/// Appending digits never makes a digit string's value smaller.
proof fn lemma_digits_grow(s: Seq<char>, a: int, i: int, j: int)
    requires
        0 <= a < i <= j <= s.len(),
        all_digits(s.subrange(a, i)),
    ensures
        all_digits(s.subrange(a, j)) ==> digits_value(s.subrange(a, j)) >= digits_value(
            s.subrange(a, i),
        ),
    decreases j - i,
{
    if j > i && all_digits(s.subrange(a, j)) {
        let p = s.subrange(a, j);
        assert(p.drop_last() =~= s.subrange(a, j - 1));
        assert(all_digits(s.subrange(a, j - 1))) by {
            assert forall|k: int| 0 <= k < j - 1 - a implies '0' <= #[trigger] s.subrange(a, j - 1)[k]
                <= '9' by {
                assert(s.subrange(a, j - 1)[k] == p[k]);
            }
        }
        lemma_digits_grow(s, a, i, j - 1);
        lemma_digits_value_prefix(p);
    }
}

/// `hex_digit` for a value in hand.
pub(crate) fn hex_digit_char(v: u8) -> (c: char)
    requires
        v < 16,
    ensures
        c == hex_digit(v as int),
{
    if v < 10 {
        (48 + v) as char
    } else {
        (55 + v) as char
    }
}

/// Appends the upper-case hexadecimal digits of `n` (see `hex_text`).
pub(crate) fn push_hex(s: &mut String, n: u64)
    ensures
        final(s)@ == old(s)@ + hex_text(n as nat),
    decreases n,
{
    if n >= 16 {
        push_hex(s, n / 16);
    }
    s.push(hex_digit_char((n % 16) as u8));
}

/// Appends the decimal digits of `n` (see `decimal_text`).
pub(crate) fn push_decimal(s: &mut String, n: u64)
    ensures
        final(s)@ == old(s)@ + decimal_text(n as nat),
    decreases n,
{
    if n >= 10 {
        push_decimal(s, n / 10);
    }
    s.push(hex_digit_char((n % 10) as u8));
}

/// Appends the two upper-case hexadecimal digits of a byte.
pub(crate) fn push_hex_byte(s: &mut String, b: u8)
    ensures
        final(s)@ == old(s)@ + hex_byte(b),
{
    s.push(hex_digit_char(b / 16));
    s.push(hex_digit_char(b % 16));
}

/// Appends four bytes as `hex_list4` writes them, as `{:02X?}` prints a byte slice.
pub(crate) fn push_hex_list4(s: &mut String, m: &[u8])
    requires
        m@.len() == 4,
    ensures
        final(s)@ == old(s)@ + hex_list4(m@),
{
    let ghost start = s@;
    s.push('[');
    push_hex_byte(s, m[0]);
    s.append(", ");
    push_hex_byte(s, m[1]);
    s.append(", ");
    push_hex_byte(s, m[2]);
    s.append(", ");
    push_hex_byte(s, m[3]);
    s.push(']');
    proof {
        reveal_strlit(", ");
        assert(s@ =~= start + hex_list4(m@));
    }
}

/// The last `width` upper-case hexadecimal digits of `n`, leading zeros included.
pub open spec fn hex_fixed(n: nat, width: nat) -> Seq<char>
    decreases width,
{
    if width == 0 {
        Seq::empty()
    } else {
        hex_fixed(n / 16, (width - 1) as nat) + seq![hex_digit((n % 16) as int)]
    }
}

/// Appends `hex_fixed(n, width)`, as `{:0width$X}` prints a number below `16^width`.
pub(crate) fn push_hex_fixed(s: &mut String, n: u32, width: u32)
    ensures
        final(s)@ == old(s)@ + hex_fixed(n as nat, width as nat),
    decreases width,
{
    if width > 0 {
        push_hex_fixed(s, n / 16, width - 1);
        s.push(hex_digit_char((n % 16) as u8));
    }
}

/// Whether two strings hold the same characters.
pub(crate) fn str_eq(a: &str, b: &str) -> (r: bool)
    ensures
        r == (a@ == b@),
{
    String::from_str(a) == String::from_str(b)
}

/// Whether `s` begins with `prefix`.
pub open spec fn is_prefix(prefix: Seq<char>, s: Seq<char>) -> bool {
    prefix.len() <= s.len() && s.subrange(0, prefix.len() as int) == prefix
}

/// `is_prefix` on strings in hand.
pub(crate) fn has_prefix(s: &str, prefix: &str) -> (r: bool)
    ensures
        r == is_prefix(prefix@, s@),
{
    let n = prefix.unicode_len();
    if n > s.unicode_len() {
        return false;
    }
    let mut i: usize = 0;
    while i < n
        invariant
            n == prefix@.len(),
            n <= s@.len(),
            i <= n,
            forall|j: int| 0 <= j < i ==> s@[j] == prefix@[j],
        decreases n - i,
    {
        if s.get_char(i) != prefix.get_char(i) {
            assert(s@.subrange(0, n as int)[i as int] != prefix@[i as int]);
            return false;
        }
        i = i + 1;
    }
    assert(s@.subrange(0, n as int) =~= prefix@);
    true
}

/// `is_white_space` for a character in hand.
pub fn is_white_space_char(c: char) -> (r: bool)
    ensures
        r == is_white_space(c),
{
    let v = c as u32;
    (0x09 <= v && v <= 0x0d) || v == 0x20 || v == 0x85 || v == 0xa0 || v == 0x1680 || (0x2000 <= v
        && v <= 0x200a) || v == 0x2028 || v == 0x2029 || v == 0x202f || v == 0x205f || v == 0x3000
}

/// The bounds of `s` without its leading and trailing white space.
pub fn trim_range(s: &str) -> (r: (usize, usize))
    ensures
        r.0 <= r.1 <= s@.len(),
        s@.subrange(r.0 as int, r.1 as int) == trimmed(s@),
{
    let n = s.unicode_len();
    let mut a: usize = 0;
    let mut b: usize = n;
    proof {
        assert(s@.subrange(0, n as int) =~= s@);
    }
    while a < b && is_white_space_char(s.get_char(a))
        invariant
            a <= b == n == s@.len(),
            trimmed(s@) == trimmed(s@.subrange(a as int, b as int)),
        decreases b - a,
    {
        proof {
            assert(s@.subrange(a as int, b as int)[0] == s@[a as int]);
            assert(s@.subrange(a as int, b as int).drop_first() =~= s@.subrange(a + 1, b as int));
        }
        a += 1;
    }
    while a < b && is_white_space_char(s.get_char(b - 1))
        invariant
            a <= b <= n == s@.len(),
            a < b ==> !is_white_space(s@[a as int]),
            trimmed(s@) == trimmed(s@.subrange(a as int, b as int)),
        decreases b - a,
    {
        proof {
            let t = s@.subrange(a as int, b as int);
            assert(t[0] == s@[a as int]);
            assert(t.drop_last() =~= s@.subrange(a as int, b - 1));
        }
        b -= 1;
    }
    proof {
        let t = s@.subrange(a as int, b as int);
        if t.len() > 0 {
            assert(t[0] == s@[a as int]);
            assert(t.last() == s@[b - 1]);
        }
        assert(trimmed(t) == t);
    }
    (a, b)
}

/// The value of the characters `s[a..b]` when they are all digits and it is at most
/// `limit`.
fn digits_upto(s: &str, a: usize, b: usize, limit: u64) -> (r: Option<u64>)
    requires
        a <= b <= s@.len(),
        limit <= 0x1_0000_0000,
    ensures
        r == (if all_digits(s@.subrange(a as int, b as int)) && digits_value(
            s@.subrange(a as int, b as int),
        ) <= limit {
            Some(digits_value(s@.subrange(a as int, b as int)) as u64)
        } else {
            None::<u64>
        }),
        r matches Some(v) ==> v as int == digits_value(s@.subrange(a as int, b as int)) && v
            <= limit,
{
    let ghost u = s@.subrange(a as int, b as int);
    let mut value: u64 = 0;
    let mut i: usize = a;
    proof {
        assert(s@.subrange(a as int, a as int) =~= Seq::<char>::empty());
    }
    while i < b
        invariant
            a <= i <= b <= s@.len(),
            u == s@.subrange(a as int, b as int),
            limit <= 0x1_0000_0000,
            value <= limit,
            all_digits(s@.subrange(a as int, i as int)),
            value == digits_value(s@.subrange(a as int, i as int)),
        decreases b - i,
    {
        let c = s.get_char(i);
        if !('0' <= c && c <= '9') {
            proof {
                assert(u[i - a] == c);
                assert(!all_digits(u));
            }
            return None;
        }
        let digit = (c as u32 - 48) as u64;
        let next = value * 10 + digit;
        proof {
            let p = s@.subrange(a as int, i + 1);
            assert(p.drop_last() =~= s@.subrange(a as int, i as int));
            assert(p.last() == c);
            assert(all_digits(p)) by {
                assert forall|k: int| 0 <= k < p.len() implies '0' <= #[trigger] p[k] <= '9' by {
                    if k < p.len() - 1 {
                        assert(p[k] == s@.subrange(a as int, i as int)[k]);
                    }
                }
            }
        }
        if next > limit {
            proof {
                lemma_digits_grow(s@, a as int, i + 1, b as int);
                assert(all_digits(u) ==> digits_value(u) > limit);
            }
            return None;
        }
        value = next;
        i += 1;
    }
    Some(value)
}

/// Whether the trimmed text parses as a u32 (see `parses_as_u32`).
pub fn parse_u32_text(s: &str) -> (ok: bool)
    ensures
        ok == parses_as_u32(trimmed(s@)),
{
    let (a0, b) = trim_range(s);
    let ghost t = s@.subrange(a0 as int, b as int);
    let mut a = a0;
    if a < b && s.get_char(a) == '+' {
        a += 1;
    }
    proof {
        let u = s@.subrange(a as int, b as int);
        if t.len() > 0 && t[0] == '+' {
            assert(t[0] == s@[a0 as int]);
            assert(t.drop_first() =~= u);
        } else {
            if t.len() > 0 {
                assert(t[0] == s@[a0 as int]);
            }
            assert(t =~= u);
        }
    }
    if a >= b {
        return false;
    }
    match digits_upto(s, a, b, 0xffff_ffff) {
        Some(_) => true,
        None => false,
    }
}

/// What `i32::from_str` gives: an optional sign, then at least one ASCII digit, of a
/// value within the i32 range; `None` when it fails.
pub open spec fn parsed_i32(s: Seq<char>) -> Option<i32> {
    let signed = s.len() > 0 && (s[0] == '+' || s[0] == '-');
    let neg = s.len() > 0 && s[0] == '-';
    let t = if signed {
        s.drop_first()
    } else {
        s
    };
    if t.len() == 0 || !all_digits(t) {
        None
    } else if neg {
        if digits_value(t) <= 0x8000_0000 {
            Some((-digits_value(t)) as i32)
        } else {
            None
        }
    } else if digits_value(t) <= 0x7fff_ffff {
        Some(digits_value(t) as i32)
    } else {
        None
    }
}

/// The decimal digits of `n` are ASCII digits, at least one, whose value is `n`.
pub proof fn lemma_decimal_text_value(n: nat)
    ensures
        decimal_text(n).len() > 0,
        all_digits(decimal_text(n)),
        digits_value(decimal_text(n)) == n,
    decreases n,
{
    let d = (n % 10) as int;
    assert(hex_digit(d) as int == 48 + d);
    if n < 10 {
        let t = decimal_text(n);
        assert(t.drop_last() =~= Seq::<char>::empty());
        assert(hex_digit(n as int) as int == 48 + n);
        assert(digits_value(Seq::<char>::empty()) == 0);
        assert(digits_value(t) == 10 * digits_value(t.drop_last()) + (t.last() as int - 48));
    } else {
        lemma_decimal_text_value(n / 10);
        let t = decimal_text(n);
        assert(t.drop_last() =~= decimal_text(n / 10));
        assert(t.last() == hex_digit((n % 10) as int));
        assert(digits_value(t) == 10 * digits_value(t.drop_last()) + (t.last() as int - 48));
        assert forall|i: int| 0 <= i < t.len() implies '0' <= #[trigger] t[i] <= '9' by {
            if i < t.len() - 1 {
                assert(t[i] == decimal_text(n / 10)[i]);
            }
        }
    }
}

/// A 32-bit integer printed with `{}` reads back as itself: `int_text` and `parsed_i32`
/// undo each other, with nothing for trimming to take off.
pub proof fn lemma_int_text_parses(v: i32)
    ensures
        trimmed(int_text(v as int)) == int_text(v as int),
        parsed_i32(trimmed(int_text(v as int))) == Some(v),
{
    let s = int_text(v as int);
    if v < 0 {
        lemma_decimal_text_value((-v) as nat);
        let t = decimal_text((-v) as nat);
        assert(s.drop_first() =~= t);
        assert(s.last() == t.last());
        assert('0' <= t[t.len() - 1] <= '9');
    } else {
        lemma_decimal_text_value(v as nat);
        assert('0' <= s[0] <= '9');
        assert('0' <= s[s.len() - 1] <= '9');
    }
    assert(!is_white_space(s[0]));
    assert(!is_white_space(s.last()));
}

/// The trimmed text as an i32, or 0 when it does not parse (see `parsed_i32`).
pub fn parse_int(s: &str) -> (r: i32)
    ensures
        r == match parsed_i32(trimmed(s@)) {
            Some(v) => v,
            None => 0,
        },
{
    let (a0, b) = trim_range(s);
    let ghost t = s@.subrange(a0 as int, b as int);
    let mut a = a0;
    let mut neg = false;
    if a < b {
        let c = s.get_char(a);
        if c == '+' || c == '-' {
            neg = c == '-';
            a += 1;
        }
    }
    proof {
        let u = s@.subrange(a as int, b as int);
        if t.len() > 0 {
            assert(t[0] == s@[a0 as int]);
        }
        if t.len() > 0 && (t[0] == '+' || t[0] == '-') {
            assert(t.drop_first() =~= u);
        } else {
            assert(t =~= u);
        }
        assert(neg == (t.len() > 0 && t[0] == '-'));
    }
    if a >= b {
        return 0;
    }
    let limit: u64 = if neg {
        0x8000_0000
    } else {
        0x7fff_ffff
    };
    match digits_upto(s, a, b, limit) {
        Some(v) => {
            assert(v <= limit);
            if neg {
                let w: i64 = v as i64;
                (0i64 - w) as i32
            } else {
                v as i32
            }
        },
        None => 0,
    }
}

/// The trimmed text read as an i32 is not zero.
pub fn parse_bool(s: &str) -> (r: bool)
    ensures
        r == (match parsed_i32(trimmed(s@)) {
            Some(v) => v,
            None => 0,
        } != 0),
{
    parse_int(s) != 0
}

/// `String::push` appends the character to the end of the string.
pub assume_specification[ String::push ](s: &mut String, ch: char)
    ensures
        final(s)@ == old(s)@.push(ch),
;

/// What `String::from_utf8_lossy` gives for these bytes.
pub uninterp spec fn utf8_lossy(bytes: Seq<u8>) -> Seq<char>;

/// Decodes UTF-8 leniently: `String::from_utf8_lossy`, which puts U+FFFD in place of
/// each invalid sequence.
#[verifier::external_body]
pub(crate) fn decode_utf8_lossy(bytes: &[u8]) -> (s: String)
    ensures
        s@ == utf8_lossy(bytes@),
{
    String::from_utf8_lossy(bytes).into_owned()
}

/// A signed number as `{}` prints it: a minus sign before the digits of a negative one.
pub open spec fn int_text(v: int) -> Seq<char> {
    if v < 0 {
        seq!['-'] + decimal_text((-v) as nat)
    } else {
        decimal_text(v as nat)
    }
}

/// `n` zeros (none when `n` is not positive).
pub open spec fn zeros(n: int) -> Seq<char> {
    Seq::new(if n > 0 { n as nat } else { 0 }, |i: int| '0')
}

/// A signed number as `{:0w}` prints it: the sign, then zeros up to the width, then the
/// digits.
pub open spec fn zero_padded(v: int, w: int) -> Seq<char> {
    let sign: Seq<char> = if v < 0 { seq!['-'] } else { Seq::empty() };
    let digits = decimal_text(if v < 0 { (-v) as nat } else { v as nat });
    sign + zeros(w - sign.len() - digits.len()) + digits
}

/// Appends `int_text(v)`.
pub(crate) fn push_int(s: &mut String, v: i64)
    ensures
        final(s)@ == old(s)@ + int_text(v as int),
{
    if v < 0 {
        s.push('-');
        let m: u64 = if v == i64::MIN { 0x8000_0000_0000_0000u64 } else { (-v) as u64 };
        push_decimal(s, m);
    } else {
        push_decimal(s, v as u64);
    }
}

/// Appends `zero_padded(v, w)` for the number whose sign is `neg` and whose magnitude is
/// `m`.
pub(crate) fn push_padded_magnitude(s: &mut String, neg: bool, m: u64, w: usize)
    requires
        neg ==> m > 0,
    ensures
        final(s)@ == old(s)@ + zero_padded(if neg { -(m as int) } else { m as int }, w as int),
{
    let ghost start = s@;
    let ghost v: int = if neg { -(m as int) } else { m as int };
    let mut digits = String::new();
    push_decimal(&mut digits, m);
    proof {
        assert(digits@ =~= decimal_text(m as nat));
    }
    let dl = digits.as_str().unicode_len();
    let sl: usize = if neg { 1 } else { 0 };
    if neg {
        s.push('-');
    }
    let ghost mid = s@;
    let pad: usize = if w > sl && w - sl > dl { w - sl - dl } else { 0 };
    let mut k: usize = 0;
    while k < pad
        invariant
            k <= pad,
            s@ == mid + Seq::new(k as nat, |i: int| '0'),
        decreases pad - k,
    {
        s.push('0');
        k = k + 1;
        proof {
            assert(s@ =~= mid + Seq::new(k as nat, |i: int| '0'));
        }
    }
    s.append(digits.as_str());
    proof {
        let sign: Seq<char> = if v < 0 { seq!['-'] } else { Seq::empty() };
        assert(mid =~= start + sign);
        assert(zeros(w - sign.len() - dl) =~= Seq::new(pad as nat, |i: int| '0'));
        assert(s@ =~= start + zero_padded(v, w as int));
    }
}

/// Appends `zero_padded(v, w)`.
pub(crate) fn push_zero_padded(s: &mut String, v: i64, w: usize)
    ensures
        final(s)@ == old(s)@ + zero_padded(v as int, w as int),
{
    let m: u64 = if v == i64::MIN {
        0x8000_0000_0000_0000u64
    } else if v < 0 {
        (-v) as u64
    } else {
        v as u64
    };
    push_padded_magnitude(s, v < 0, m, w);
}

} // verus!
