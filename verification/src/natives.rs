//! What the script-callable native functions compute from their arguments: the string
//! hash, the money, distance, speed and time texts, save-slot files and the save-data
//! blob, format-string placeholders, controller axes and keys, polygon fans, and the
//! background-music file, volume and samples.
use vstd::prelude::*;
use vstd::string::StringExecFns;
use vstd::string::StrSliceExecFns;
use vstd::string::StringSliceAdditionalSpecFns;
use vstd::utf8::encode_utf8;
use crate::bytes::{le_u16, read_i16};
use crate::input::bit_of;
use crate::value::Value;
use crate::text::{int_text, push_int, push_zero_padded, zero_padded};

verus! {

/// The string hash over bytes: starting from 0, each byte adds itself to 31 times the
/// hash so far, modulo 2^32.
pub open spec fn string_hash(b: Seq<u8>) -> u32
    decreases b.len(),
{
    if b.len() == 0 {
        0
    } else {
        ((string_hash(b.drop_last()) as nat * 31 + b.last() as nat) % 0x1_0000_0000) as u32
    }
}

/// The hash that the AsciiStringHash native gives for a text: `string_hash` over its
/// UTF-8 bytes, read as a signed 32-bit number.
pub fn ascii_string_hash(s: &str) -> (h: i32)
    ensures
        h == string_hash(s.spec_bytes()) as i32,
{
    let bytes = s.as_bytes();
    let mut hash: u32 = 0;
    let mut i: usize = 0;
    while i < bytes.len()
        invariant
            i <= bytes@.len(),
            hash == string_hash(bytes@.subrange(0, i as int)),
        decreases bytes@.len() - i,
    {
        let ghost prev = hash;
        let m = hash.wrapping_mul(31);
        hash = m.wrapping_add(bytes[i] as u32);
        proof {
            let p = bytes@.subrange(0, i as int + 1);
            assert(p.drop_last() =~= bytes@.subrange(0, i as int));
            vstd::arithmetic::div_mod::lemma_add_mod_noop(
                prev as int * 31,
                bytes@[i as int] as int,
                0x1_0000_0000,
            );
            vstd::arithmetic::div_mod::lemma_small_mod(bytes@[i as int] as nat, 0x1_0000_0000nat);
        }
        i = i + 1;
    }
    assert(bytes@.subrange(0, bytes@.len() as int) =~= bytes@);
    hash as i32
}

/// The GetMoneyString text: the amount, then " Cr.".
pub fn money_string(amount: i32) -> (r: String)
    ensures
        r@ == int_text(amount as int) + " Cr."@,
{
    let mut s = String::new();
    push_int(&mut s, amount as i64);
    s.append(" Cr.");
    s
}

/// The GetDistanceString text: the meters, then "m".
pub fn distance_string(meters: i32) -> (r: String)
    ensures
        r@ == int_text(meters as int) + "m"@,
{
    let mut s = String::new();
    push_int(&mut s, meters as i64);
    s.append("m");
    s
}

/// The GetSpeedString text: the speed, then " km/h".
pub fn speed_string(speed: i32) -> (r: String)
    ensures
        r@ == int_text(speed as int) + " km/h"@,
{
    let mut s = String::new();
    push_int(&mut s, speed as i64);
    s.append(" km/h");
    s
}

/// Hours, minutes and seconds of a count of seconds, as integer division and remainder
/// that round toward zero give them: a negative count gives parts that are each zero or
/// negative.
pub open spec fn time_parts(secs: int) -> (int, int, int) {
    let a = if secs < 0 { -secs } else { secs };
    let (h, m, s) = (a / 3600, (a % 3600) / 60, a % 60);
    if secs < 0 {
        (-h, -m, -s)
    } else {
        (h, m, s)
    }
}

/// The GetTimeString text: the parts of `time_parts`, each zero-padded to two places,
/// joined by ':'.
pub open spec fn time_text(secs: int) -> Seq<char> {
    let (h, m, s) = time_parts(secs);
    zero_padded(h, 2) + seq![':'] + zero_padded(m, 2) + seq![':'] + zero_padded(s, 2)
}

/// The GetTimeString text for a count of seconds (see `time_text`).
pub fn time_string(secs: i32) -> (r: String)
    ensures
        r@ == time_text(secs as int),
{
    let neg = secs < 0;
    let a: i64 = if neg { -(secs as i64) } else { secs as i64 };
    let h0 = a / 3600;
    let m0 = (a % 3600) / 60;
    let s0 = a % 60;
    let (h, m, sec) = if neg { (-h0, -m0, -s0) } else { (h0, m0, s0) };
    assert(time_parts(secs as int) == (h as int, m as int, sec as int));
    let mut s = String::new();
    push_zero_padded(&mut s, h, 2);
    s.push(':');
    push_zero_padded(&mut s, m, 2);
    s.push(':');
    push_zero_padded(&mut s, sec, 2);
    assert(s@ =~= time_text(secs as int));
    s
}

/// The file that a save slot is kept in: "save_data_", the slot, ".bin".
pub fn save_slot_path(slot: i32) -> (r: String)
    ensures
        r@ == "save_data_"@ + int_text(slot as int) + ".bin"@,
{
    let mut s = String::from_str("save_data_");
    push_int(&mut s, slot as i64);
    s.append(".bin");
    s
}

/// The GetCourseDataPath text for a course index: "crs/c" and the course's number (one
/// more than its index), zero-padded to three places.
pub fn course_data_path(idx: i32) -> (r: String)
    requires
        idx < i32::MAX,
    ensures
        r@ == "crs/c"@ + zero_padded(idx + 1, 3),
{
    let mut s = String::from_str("crs/c");
    push_zero_padded(&mut s, (idx + 1) as i64, 3);
    s
}

/// An analog stick axis as the controller natives read it from the key state: X is 255
/// with right held (bit 3), else 0 with left held (bit 5), else 128 at rest; Y is 255
/// with down held (bit 4), else 0 with up held (bit 2), else 128.
pub open spec fn analog_axis_of(keys: u32, x_axis: bool) -> i32 {
    let (high, low) = if x_axis { (3u32, 5u32) } else { (4u32, 2u32) };
    if bit_of(keys, high) == 1 {
        255
    } else if bit_of(keys, low) == 1 {
        0
    } else {
        128
    }
}

/// The value of the X (or Y) analog channel for the key state (see `analog_axis_of`).
pub fn analog_axis(keys: u32, x_axis: bool) -> (r: i32)
    ensures
        r == analog_axis_of(keys, x_axis),
{
    let (high, low): (u32, u32) = if x_axis { (3, 5) } else { (4, 2) };
    if (keys >> high) & 1 == 1 {
        255
    } else if (keys >> low) & 1 == 1 {
        0
    } else {
        128
    }
}

/// Whether key `key` is down in the key state: its bit is set.
pub fn key_down(keys: u32, key: u32) -> (r: bool)
    requires
        key < 32,
    ensures
        r == (bit_of(keys, key) != 0),
{
    (keys >> key) & 1 != 0
}

/// The triangles of a polygon drawn as a fan around its first vertex: for `n` vertices,
/// `n - 2` triangles (none below three), the `i`-th being (0, i + 1, i + 2).
pub fn fan_triangles(vert_count: usize) -> (r: Vec<(u32, u32, u32)>)
    requires
        vert_count <= u32::MAX,
    ensures
        r@.len() == if vert_count >= 3 { vert_count - 2 } else { 0 },
        forall|i: int| 0 <= i < r@.len() ==> #[trigger] r@[i] == (0u32, (i + 1) as u32, (i + 2) as u32),
{
    let tri_count: u32 = if vert_count >= 3 { (vert_count - 2) as u32 } else { 0 };
    let mut triangles: Vec<(u32, u32, u32)> = Vec::new();
    let mut i: u32 = 0;
    while i < tri_count
        invariant
            i <= tri_count,
            tri_count == if vert_count >= 3 { vert_count - 2 } else { 0 },
            vert_count <= u32::MAX,
            triangles@.len() == i,
            forall|k: int| 0 <= k < i ==> #[trigger] triangles@[k] == (0u32, (k + 1) as u32, (k + 2) as u32),
        decreases tri_count - i,
    {
        triangles.push((0u32, i + 1, i + 2));
        i = i + 1;
    }
    triangles
}

/// The index of the first '}' at or after `j` in `b`, or the length of `b` when there is
/// none.
pub open spec fn close_brace_from(b: Seq<u8>, j: int) -> int
    decreases b.len() - j,
{
    if j >= b.len() {
        b.len() as int
    } else if b[j] == 0x7d {
        j
    } else {
        close_brace_from(b, j + 1)
    }
}

/// `close_brace_from` lies between `j` and the length, and names a '}' when below it.
pub proof fn lemma_close_brace_from(b: Seq<u8>, j: int)
    requires
        0 <= j <= b.len(),
    ensures
        j <= close_brace_from(b, j) <= b.len(),
        close_brace_from(b, j) < b.len() ==> b[close_brace_from(b, j)] == 0x7d,
    decreases b.len() - j,
{
    if j < b.len() && b[j] != 0x7d {
        lemma_close_brace_from(b, j + 1);
    }
}

/// The sprintf text from position `i` of the format's bytes: a "%{" with at least one
/// byte after it, up to and including the next '}', becomes '?'; every other byte becomes
/// the character with that number.
pub open spec fn placeholders_text(b: Seq<u8>, i: int) -> Seq<char>
    decreases b.len() - i,
{
    if i < 0 || i >= b.len() {
        Seq::empty()
    } else if i + 2 < b.len() && b[i] == 0x25 && b[i + 1] == 0x7b {
        proof {
            lemma_close_brace_from(b, i + 2);
        }
        let next = close_brace_from(b, i + 2) + 1;
        seq!['?'] + placeholders_text(b, if next > b.len() { b.len() as int } else { next })
    } else {
        seq![b[i] as char] + placeholders_text(b, i + 1)
    }
}

/// What the sprintf native gives for a format: its UTF-8 bytes read one character per
/// byte, with each "%{...}" placeholder replaced by '?' (see `placeholders_text`).
pub fn sprintf_placeholders(fmt: &str) -> (r: String)
    ensures
        r@ == placeholders_text(fmt.spec_bytes(), 0),
{
    let bytes = fmt.as_bytes();
    let n = bytes.len();
    let mut result = String::new();
    let mut i: usize = 0;
    while i < n
        invariant
            n == bytes@.len(),
            i <= n,
            result@ + placeholders_text(bytes@, i as int) == placeholders_text(bytes@, 0),
        decreases n - i,
    {
        if n - i > 2 && bytes[i] == 0x25 && bytes[i + 1] == 0x7b {
            let mut end = i + 2;
            while end < n && bytes[end] != 0x7d
                invariant
                    n == bytes@.len(),
                    i + 2 <= end <= n,
                    close_brace_from(bytes@, i as int + 2) == close_brace_from(bytes@, end as int),
                decreases n - end,
            {
                end = end + 1;
            }
            proof {
                lemma_close_brace_from(bytes@, i as int + 2);
            }
            result.push('?');
            i = if end < n { end + 1 } else { n };
        } else {
            result.push(bytes[i] as char);
            i = i + 1;
        }
    }
    result
}

/// The bytes of a 32-bit number, least significant first.
pub open spec fn le_bytes_u32(v: u32) -> Seq<u8> {
    seq![(v % 256) as u8, (v / 256 % 256) as u8, (v / 65536 % 256) as u8, (v / 16777216) as u8]
}

/// The bytes of a 64-bit number, least significant first.
pub open spec fn le_bytes_u64(v: u64) -> Seq<u8> {
    le_bytes_u32((v % 0x1_0000_0000) as u32) + le_bytes_u32((v / 0x1_0000_0000) as u32)
}

/// The bytes that open every save blob: "GTPSP_SAVE_V1", thirteen of them.
pub open spec fn save_magic() -> Seq<u8> {
    seq![71u8, 84, 80, 83, 80, 95, 83, 65, 86, 69, 95, 86, 49]
}

/// What a value adds to a save blob: a 32-bit integer, unsigned integer or float (by
/// its bits) its four bytes, a 64-bit integer its eight, a string its UTF-8 length as
/// four bytes and then its UTF-8 bytes, a flag one byte (1 or 0); any other value
/// nothing.
pub open spec fn save_field_bytes<N>(v: Value<N>) -> Seq<u8> {
    match v {
        Value::Int(i) => le_bytes_u32(i as u32),
        Value::UInt(u) => le_bytes_u32(u),
        Value::Long(l) => le_bytes_u64(l as u64),
        Value::Float(bits) => le_bytes_u32(bits),
        Value::Str(t) => le_bytes_u32(encode_utf8((*t)@).len() as u32) + encode_utf8((*t)@),
        Value::Bool(b) => seq![if b { 1u8 } else { 0u8 }],
        _ => Seq::empty(),
    }
}

/// The bytes that a sequence of values adds to a save blob, in order.
pub open spec fn save_fields<N>(vs: Seq<Value<N>>) -> Seq<u8>
    decreases vs.len(),
{
    if vs.len() == 0 {
        Seq::empty()
    } else {
        save_fields(vs.drop_last()) + save_field_bytes(vs.last())
    }
}

/// The save blob for a save call's arguments: the magic, then the fields of every
/// argument after the first (the first is the slot).
pub open spec fn save_blob_of<N>(args: Seq<Value<N>>) -> Seq<u8> {
    save_magic() + save_fields(if args.len() > 0 { args.subrange(1, args.len() as int) } else { Seq::empty() })
}

fn push_le_u32(data: &mut Vec<u8>, v: u32)
    ensures
        final(data)@ == old(data)@ + le_bytes_u32(v),
{
    data.push((v % 256) as u8);
    data.push((v / 256 % 256) as u8);
    data.push((v / 65536 % 256) as u8);
    data.push((v / 16777216) as u8);
    assert(data@ =~= old(data)@ + le_bytes_u32(v));
}

fn push_field<N>(data: &mut Vec<u8>, v: &Value<N>)
    ensures
        final(data)@ == old(data)@ + save_field_bytes(*v),
{
    match v {
        Value::Int(i) => push_le_u32(data, *i as u32),
        Value::UInt(u) => push_le_u32(data, *u),
        Value::Long(l) => {
            let w = *l as u64;
            push_le_u32(data, (w % 0x1_0000_0000) as u32);
            push_le_u32(data, (w / 0x1_0000_0000) as u32);
            assert(data@ =~= old(data)@ + le_bytes_u64(w));
        },
        Value::Float(bits) => push_le_u32(data, *bits),
        Value::Str(t) => {
            let b = t.as_str().as_bytes();
            push_le_u32(data, b.len() as u32);
            let ghost mid = data@;
            let mut k: usize = 0;
            while k < b.len()
                invariant
                    k <= b@.len(),
                    data@ == mid + b@.subrange(0, k as int),
                decreases b@.len() - k,
            {
                data.push(b[k]);
                k = k + 1;
                assert(data@ =~= mid + b@.subrange(0, k as int));
            }
            assert(b@.subrange(0, b@.len() as int) =~= b@);
            assert(data@ =~= old(data)@ + save_field_bytes(*v));
        },
        Value::Bool(flag) => {
            data.push(if *flag { 1u8 } else { 0u8 });
            assert(data@ =~= old(data)@ + save_field_bytes(*v));
        },
        _ => {
            assert(data@ =~= old(data)@ + save_field_bytes(*v));
        },
    }
}

fn save_magic_bytes() -> (r: Vec<u8>)
    ensures
        r@ == save_magic(),
{
    let mut r: Vec<u8> = Vec::new();
    r.push(71u8);
    r.push(84u8);
    r.push(80u8);
    r.push(83u8);
    r.push(80u8);
    r.push(95u8);
    r.push(83u8);
    r.push(65u8);
    r.push(86u8);
    r.push(69u8);
    r.push(95u8);
    r.push(86u8);
    r.push(49u8);
    assert(r@ =~= save_magic());
    r
}

/// The blob that the save native writes for its arguments (see `save_blob_of`).
pub fn save_blob<N>(args: &[Value<N>]) -> (r: Vec<u8>)
    ensures
        r@ == save_blob_of(args@),
{
    let mut data = save_magic_bytes();
    if args.len() == 0 {
        assert(save_fields(Seq::<Value<N>>::empty()) =~= Seq::<u8>::empty());
        assert(data@ =~= save_blob_of(args@));
        return data;
    }
    let mut i: usize = 1;
    while i < args.len()
        invariant
            1 <= i <= args@.len(),
            data@ == save_magic() + save_fields(args@.subrange(1, i as int)),
        decreases args@.len() - i,
    {
        push_field(&mut data, &args[i]);
        proof {
            let p = args@.subrange(1, i as int + 1);
            assert(p.drop_last() =~= args@.subrange(1, i as int));
            assert(data@ =~= save_magic() + save_fields(p));
        }
        i = i + 1;
    }
    data
}

/// Whether the load native accepts a save blob: it has at least 12 bytes and its first
/// 12 bytes equal the magic. The magic that `save_blob` writes has 13 bytes, so no blob
/// passes this comparison.
pub fn save_header_ok(data: &[u8]) -> (r: bool)
    ensures
        r == (data@.len() >= 12 && data@.subrange(0, 12) == save_magic()),
{
    if data.len() < 12 {
        return false;
    }
    let head = crate::bytes::copy_range(data, 0, 12);
    let magic = save_magic_bytes();
    if head.len() != magic.len() {
        assert(head@.len() != save_magic().len());
        return false;
    }
    let mut k: usize = 0;
    while k < head.len()
        invariant
            head@.len() == magic@.len(),
            head@ == data@.subrange(0, 12),
            magic@ == save_magic(),
            k <= head@.len(),
            forall|j: int| 0 <= j < k ==> head@[j] == magic@[j],
        decreases head@.len() - k,
    {
        if head[k] != magic[k] {
            assert(head@[k as int] != magic@[k as int]);
            return false;
        }
        k = k + 1;
    }
    assert(head@ =~= magic@);
    true
}

/// No byte string passes the load native's header test, the blobs that `save_blob` writes
/// included: the load native compares twelve bytes with the thirteen-byte magic.
pub proof fn lemma_no_blob_is_accepted(data: Seq<u8>)
    ensures
        !(data.len() >= 12 && data.subrange(0, 12) == save_magic()),
{
    if data.len() >= 12 {
        assert(data.subrange(0, 12).len() != save_magic().len());
    }
}

/// The parts that the time text shows make up the count again: hours times 3600 plus
/// minutes times 60 plus seconds is the count, with minutes and seconds each below 60
/// in size and all three of the count's sign.
pub proof fn lemma_time_parts_recombine(secs: int)
    ensures
        ({
            let (h, m, s) = time_parts(secs);
            &&& h * 3600 + m * 60 + s == secs
            &&& -60 < m < 60
            &&& -60 < s < 60
            &&& secs >= 0 ==> h >= 0 && m >= 0 && s >= 0
            &&& secs < 0 ==> h <= 0 && m <= 0 && s <= 0
        }),
{
    let a = if secs < 0 { -secs } else { secs };
    vstd::arithmetic::div_mod::lemma_fundamental_div_mod(a, 3600);
    vstd::arithmetic::div_mod::lemma_fundamental_div_mod(a % 3600, 60);
    vstd::arithmetic::div_mod::lemma_mod_mod(a, 60, 60);
}


/// `s` with every trailing copy of `suffix` taken off, as `trim_end_matches` leaves it.
pub open spec fn strip_suffixes(s: Seq<char>, suffix: Seq<char>) -> Seq<char>
    decreases s.len(),
{
    if suffix.len() > 0 && s.len() >= suffix.len() && s.subrange(
        s.len() - suffix.len(),
        s.len() as int,
    ) == suffix {
        strip_suffixes(s.subrange(0, s.len() - suffix.len()), suffix)
    } else {
        s
    }
}

/// Whether `s[..end]` ends with `suffix`.
fn ends_with_at(s: &str, end: usize, suffix: &str) -> (r: bool)
    requires
        end <= s@.len(),
    ensures
        r == (suffix@.len() <= end && s@.subrange(end - suffix@.len(), end as int) == suffix@),
{
    let n = suffix.unicode_len();
    if n > end {
        return false;
    }
    let start = end - n;
    let mut k: usize = 0;
    while k < n
        invariant
            n == suffix@.len(),
            start + n == end <= s@.len(),
            k <= n,
            forall|j: int| 0 <= j < k ==> s@[start + j] == suffix@[j],
        decreases n - k,
    {
        if s.get_char(start + k) != suffix.get_char(k) {
            assert(s@.subrange(start as int, end as int)[k as int] != suffix@[k as int]);
            return false;
        }
        k = k + 1;
    }
    assert(s@.subrange(start as int, end as int) =~= suffix@);
    true
}

/// The length of `s[..end]` once every trailing copy of `suffix` is taken off.
fn stripped_end(s: &str, end: usize, suffix: &str) -> (r: usize)
    requires
        end <= s@.len(),
        suffix@.len() > 0,
    ensures
        r <= end,
        s@.subrange(0, r as int) == strip_suffixes(s@.subrange(0, end as int), suffix@),
    decreases end,
{
    if ends_with_at(s, end, suffix) {
        let next = end - suffix.unicode_len();
        proof {
            let p = s@.subrange(0, end as int);
            assert(p.subrange(p.len() - suffix@.len(), p.len() as int) =~= s@.subrange(
                end - suffix@.len(),
                end as int,
            ));
            assert(p.subrange(0, p.len() - suffix@.len()) =~= s@.subrange(0, next as int));
        }
        stripped_end(s, next, suffix)
    } else {
        proof {
            let p = s@.subrange(0, end as int);
            if suffix@.len() <= end {
                assert(p.subrange(p.len() - suffix@.len(), p.len() as int) =~= s@.subrange(
                    end - suffix@.len(),
                    end as int,
                ));
            }
        }
        end
    }
}

/// The file that the background-music native plays for a track name: the name with its
/// trailing ".at3"s and then its trailing ".wav"s taken off, under
/// "assets/sound_gt/track/", with ".at3" added.
pub fn bgm_track_path(name: &str) -> (r: String)
    ensures
        r@ == "assets/sound_gt/track/"@ + strip_suffixes(strip_suffixes(name@, ".at3"@), ".wav"@)
            + ".at3"@,
{
    proof {
        reveal_strlit(".at3");
        reveal_strlit(".wav");
    }
    let n = name.unicode_len();
    assert(name@.subrange(0, n as int) =~= name@);
    let e1 = stripped_end(name, n, ".at3");
    let e2 = stripped_end(name, e1, ".wav");
    proof {
        assert(name@.subrange(0, e1 as int).subrange(0, e2 as int) =~= name@.subrange(0, e2 as int));
    }
    let mut s = String::from_str("assets/sound_gt/track/");
    s.append(name.substring_char(0, e2));
    s.append(".at3");
    s
}

/// The volume that setVolume applies: the argument held to 0..=128.
pub fn bgm_volume(v: i32) -> (r: i32)
    ensures
        r == if v < 0 { 0 } else if v > 128 { 128 } else { v },
{
    if v < 0 {
        0
    } else if v > 128 {
        128
    } else {
        v
    }
}

/// The 16-bit samples of a decoded WAV stream: after its 44-byte header, each whole
/// pair of bytes as a little-endian signed number (an odd last byte is dropped); none
/// when the stream is not longer than its header.
pub fn wav_samples(wav: &[u8]) -> (r: Vec<i16>)
    ensures
        r@.len() == if wav@.len() > 44 { (wav@.len() - 44) / 2 } else { 0 },
        forall|k: int| 0 <= k < r@.len() ==> #[trigger] r@[k] == le_u16(wav@, 44 + 2 * k) as i16,
{
    let mut out: Vec<i16> = Vec::new();
    if wav.len() <= 44 {
        return out;
    }
    let len = wav.len();
    let count = (len - 44) / 2;
    let mut k: usize = 0;
    while k < count
        invariant
            len == wav@.len(),
            wav@.len() > 44,
            count == (wav@.len() - 44) / 2,
            k <= count,
            out@.len() == k,
            forall|j: int| 0 <= j < k ==> #[trigger] out@[j] == le_u16(wav@, 44 + 2 * j) as i16,
        decreases count - k,
    {
        assert(44 + 2 * k + 2 <= wav@.len()) by (nonlinear_arith)
            requires
                k < count,
                count == (wav@.len() - 44) / 2,
                wav@.len() > 44,
        ;
        out.push(read_i16(wav, 44 + 2 * k));
        k = k + 1;
    }
    out
}

} // verus!
