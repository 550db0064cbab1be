//! Reading `.adc` bytecode: a cursor over the bytes with its little-endian and varint
//! readers, the symbol table at the head of a file, and the symbol references that
//! instructions carry.
//!
//! An adhoc varint is read a byte at a time: while the marker bit (0x80 for the first
//! byte, seven bits higher for each byte after) is set in the value read so far, that bit
//! is cleared, the value shifted left by eight and the next byte added.
use vstd::prelude::*;
use vstd::string::StringExecFns;
use vstd::string::StrSliceExecFns;
use crate::bytes::{le_u16, le_u32, le_u64, read_u16, read_u32};
use crate::text::{hex_text, decimal_text, trimmed, parses_as_u32, parse_u32_text, utf8_lossy, push_hex, push_decimal, push_hex_list4};
use crate::vm::StorageKind;

verus! {

/// The message for running out of bytes at offset `pos`.
pub open spec fn eof_text(pos: int) -> Seq<char> {
    "Unexpected EOF at offset 0x"@ + hex_text(pos as nat)
}

/// The end-of-input message, the offset in upper-case hexadecimal without leading zeros.
fn eof_error(pos: usize) -> (e: String)
    ensures
        e@ == eof_text(pos as int),
{
    let mut e = String::new();
    e.append("Unexpected EOF at offset 0x");
    push_hex(&mut e, pos as u64);
    e
}

/// The name given to a symbol index past the table.
pub open spec fn missing_symbol_text(idx: int) -> Seq<char> {
    "!sym"@ + decimal_text(idx as nat)
}

/// A placeholder symbol name, the index in decimal.
fn missing_symbol_name(idx: usize) -> (s: String)
    ensures
        s@ == missing_symbol_text(idx as int),
{
    let mut s = String::new();
    s.append("!sym");
    push_decimal(&mut s, idx as u64);
    s
}

/// The symbol at `idx` of a table, or a placeholder name past its end.
pub open spec fn symbol_name(table: Seq<Seq<char>>, idx: int) -> Seq<char> {
    if 0 <= idx < table.len() {
        table[idx]
    } else {
        missing_symbol_text(idx)
    }
}

/// The marker bit tested before continuation byte `k`: 0x80 shifted left by 7 `k`
/// times within 64 bits.
pub open spec fn varint_mask(k: nat) -> u64
    decreases k,
{
    if k == 0 {
        0x80
    } else {
        varint_mask((k - 1) as nat) << 7u64
    }
}

/// After nine shifts the marker bit has left the 64 bits.
proof fn lemma_varint_mask_ends()
    ensures
        varint_mask(9) == 0,
{
    reveal_with_fuel(varint_mask, 10);
    assert(((((((((((0x80u64 << 7u64) << 7u64) << 7u64) << 7u64) << 7u64) << 7u64) << 7u64)
        << 7u64) << 7u64)) == 0) by (bit_vector);
}

/// The rest of an adhoc varint whose value so far is `value`, next byte at `pos`, after
/// `k` continuation bytes: the value and the position after it, or the position where
/// the bytes ran out.
pub open spec fn varint_rest(d: Seq<u8>, pos: int, value: u64, k: nat) -> Result<(u64, int), int>
    decreases 9 - k,
{
    if k >= 9 || value & varint_mask(k) == 0 {
        Ok((value, pos))
    } else if pos >= d.len() {
        Err(pos)
    } else {
        varint_rest(d, pos + 1, ((value ^ varint_mask(k)) << 8u64) | (d[pos] as u64), k + 1)
    }
}

/// The adhoc varint at `pos`.
pub open spec fn varint_at(d: Seq<u8>, pos: int) -> Result<(u64, int), int> {
    if pos >= d.len() {
        Err(pos)
    } else {
        varint_rest(d, pos + 1, d[pos] as u64, 0)
    }
}

/// The short forms of an adhoc varint: a first byte below 0x80 is the whole value; a
/// first byte from 0x80 to 0xbf starts a two-byte value, its low six bits times 256 plus
/// the second byte; a first byte with the top bit set and nothing after it runs out.
pub proof fn lemma_varint_short_forms(d: Seq<u8>, p: int)
    requires
        0 <= p < d.len(),
    ensures
        d[p] < 0x80 ==> varint_at(d, p) == Ok::<(u64, int), int>((d[p] as u64, p + 1)),
        0x80 <= d[p] < 0xc0 && p + 1 < d.len() ==> varint_at(d, p) == Ok::<(u64, int), int>(
            (((d[p] - 0x80) * 256 + d[p + 1]) as u64, p + 2),
        ),
        0x80 <= d[p] && p + 1 >= d.len() ==> varint_at(d, p) == Err::<(u64, int), int>(p + 1),
{
    let b0 = d[p] as u64;
    assert(varint_mask(0) == 0x80);
    assert(varint_mask(1) == varint_mask(0) << 7u64);
    assert(0x80u64 << 7u64 == 0x4000) by (bit_vector);
    assert(varint_mask(1) == 0x4000);
    if b0 < 0x80 {
        assert(b0 & 0x80 == 0) by (bit_vector)
            requires
                b0 < 0x80,
        ;
    } else {
        assert(b0 & 0x80 != 0) by (bit_vector)
            requires
                0x80 <= b0 < 0x100,
        ;
        if b0 < 0xc0 && p + 1 < d.len() {
            let b1 = d[p + 1] as u64;
            let v = ((b0 ^ 0x80u64) << 8u64) | b1;
            assert(v == (b0 - 0x80) * 256 + b1 && v & 0x4000 == 0) by (bit_vector)
                requires
                    0x80 <= b0 < 0xc0,
                    b1 < 0x100,
                    v == ((b0 ^ 0x80u64) << 8u64) | b1,
            ;
            assert(varint_rest(d, p + 2, v, 1) == Ok::<(u64, int), int>((v, p + 2)));
        }
    }
}

/// The u32 at `pos` and the position after it, or `pos` when fewer than four bytes remain.
pub open spec fn u32_at(d: Seq<u8>, pos: int) -> Result<(u32, int), int> {
    if pos + 4 <= d.len() {
        Ok((le_u32(d, pos), pos + 4))
    } else {
        Err(pos)
    }
}

/// `n` adhoc varints in a row from `pos`.
pub open spec fn varints_at(d: Seq<u8>, pos: int, n: nat) -> Result<(Seq<u64>, int), int>
    decreases n,
{
    if n == 0 {
        Ok((Seq::empty(), pos))
    } else {
        match varints_at(d, pos, (n - 1) as nat) {
            Ok((vs, p)) => match varint_at(d, p) {
                Ok((v, q)) => Ok((vs.push(v), q)),
                Err(q) => Err(q),
            },
            Err(q) => Err(q),
        }
    }
}

/// A position in a byte string, with the symbol table read from its head.
pub struct Cursor<'a> {
    data: &'a [u8],
    pos: usize,
    symbols: Vec<String>,
}

impl<'a> Cursor<'a> {
    /// The bytes being read.
    pub closed spec fn bytes(self) -> Seq<u8> {
        self.data@
    }

    /// The offset of the next byte.
    pub closed spec fn pos(self) -> int {
        self.pos as int
    }

    /// The symbol table.
    pub closed spec fn table(self) -> Seq<Seq<char>> {
        self.symbols@.map_values(|s: String| s@)
    }

    /// The position lies within the bytes.
    pub closed spec fn wf(self) -> bool {
        self.pos <= self.data@.len()
    }

    /// A well-formed cursor's position lies within its bytes.
    pub proof fn lemma_pos_in_bytes(self)
        requires
            self.wf(),
        ensures
            0 <= self.pos() <= self.bytes().len(),
    {
    }

    /// `self` is `before` after a read of `n` bytes that gave `v` on success, or after a
    /// read that found fewer than `n` bytes left and moved nothing.
    pub open spec fn read_outcome<T>(self, before: Self, r: Result<T, String>, n: int, v: T) -> bool {
        &&& self.wf()
        &&& self.bytes() == before.bytes()
        &&& self.table() == before.table()
        &&& match r {
            Ok(x) => before.pos() + n <= before.bytes().len() && x == v && self.pos() == before.pos()
                + n,
            Err(e) => before.pos() + n > before.bytes().len() && e@ == eof_text(before.pos())
                && self.pos() == before.pos(),
        }
    }

    /// A cursor at the start of `data`, with no symbols.
    pub fn new(data: &'a [u8]) -> (c: Self)
        ensures
            c.wf(),
            c.bytes() == data@,
            c.pos() == 0,
            c.table() == Seq::<Seq<char>>::empty(),
    {
        let c = Cursor { data, pos: 0, symbols: Vec::new() };
        proof {
            assert(c.table() =~= Seq::<Seq<char>>::empty());
        }
        c
    }

    /// The offset of the next byte.
    pub fn position(&self) -> (p: usize)
        ensures
            p == self.pos(),
    {
        self.pos
    }

    /// The next `count` bytes.
    pub fn read_bytes(&mut self, count: usize) -> (r: Result<&'a [u8], String>)
        requires
            old(self).wf(),
        ensures
            final(self).wf(),
            final(self).bytes() == old(self).bytes(),
            final(self).table() == old(self).table(),
            match r {
                Ok(s) => old(self).pos() + count <= old(self).bytes().len() && s@ == old(
                    self,
                ).bytes().subrange(old(self).pos(), old(self).pos() + count) && final(self).pos()
                    == old(self).pos() + count,
                Err(e) => old(self).pos() + count > old(self).bytes().len() && e@ == eof_text(
                    old(self).pos(),
                ) && final(self).pos() == old(self).pos(),
            },
    {
        if count > self.data.len() - self.pos {
            return Err(eof_error(self.pos));
        }
        let slice = &self.data[self.pos..self.pos + count];
        self.pos = self.pos + count;
        Ok(slice)
    }

    /// The next byte.
    pub fn read_u8(&mut self) -> (r: Result<u8, String>)
        requires
            old(self).wf(),
        ensures
            final(self).read_outcome(*old(self), r, 1, old(self).bytes()[old(self).pos()]),
    {
        match self.read_bytes(1) {
            Ok(b) => Ok(b[0]),
            Err(e) => Err(e),
        }
    }

    /// The next byte as an i8.
    pub fn read_i8(&mut self) -> (r: Result<i8, String>)
        requires
            old(self).wf(),
        ensures
            final(self).read_outcome(*old(self), r, 1, old(self).bytes()[old(self).pos()] as i8),
    {
        match self.read_bytes(1) {
            Ok(b) => Ok(b[0] as i8),
            Err(e) => Err(e),
        }
    }

    /// The next two bytes as a little-endian i16.
    pub fn read_i16(&mut self) -> (r: Result<i16, String>)
        requires
            old(self).wf(),
        ensures
            final(self).read_outcome(
                *old(self),
                r,
                2,
                le_u16(old(self).bytes(), old(self).pos()) as i16,
            ),
    {
        match self.read_bytes(2) {
            Ok(b) => Ok(read_u16(b, 0) as i16),
            Err(e) => Err(e),
        }
    }

    /// The next two bytes as a little-endian u16.
    pub fn read_u16(&mut self) -> (r: Result<u16, String>)
        requires
            old(self).wf(),
        ensures
            final(self).read_outcome(*old(self), r, 2, le_u16(old(self).bytes(), old(self).pos())),
    {
        match self.read_bytes(2) {
            Ok(b) => Ok(read_u16(b, 0)),
            Err(e) => Err(e),
        }
    }

    /// The next byte as a flag: anything but zero is true.
    pub fn read_bool(&mut self) -> (r: Result<bool, String>)
        requires
            old(self).wf(),
        ensures
            final(self).read_outcome(*old(self), r, 1, old(self).bytes()[old(self).pos()] != 0),
    {
        match self.read_u8() {
            Ok(b) => Ok(b != 0),
            Err(e) => Err(e),
        }
    }

    /// The next four bytes as a little-endian i32.
    pub fn read_i32(&mut self) -> (r: Result<i32, String>)
        requires
            old(self).wf(),
        ensures
            final(self).read_outcome(
                *old(self),
                r,
                4,
                le_u32(old(self).bytes(), old(self).pos()) as i32,
            ),
    {
        match self.read_bytes(4) {
            Ok(b) => Ok(read_u32(b, 0) as i32),
            Err(e) => Err(e),
        }
    }

    /// The next four bytes as a little-endian u32.
    pub fn read_u32(&mut self) -> (r: Result<u32, String>)
        requires
            old(self).wf(),
        ensures
            final(self).read_outcome(*old(self), r, 4, le_u32(old(self).bytes(), old(self).pos())),
    {
        match self.read_bytes(4) {
            Ok(b) => Ok(read_u32(b, 0)),
            Err(e) => Err(e),
        }
    }

    /// The next eight bytes as a little-endian u64.
    pub fn read_u64(&mut self) -> (r: Result<u64, String>)
        requires
            old(self).wf(),
        ensures
            final(self).read_outcome(*old(self), r, 8, le_u64(old(self).bytes(), old(self).pos())),
    {
        match self.read_bytes(8) {
            Ok(b) => {
                let lo = read_u32(b, 0) as u64;
                let hi = read_u32(b, 4) as u64;
                Ok(lo + hi * 0x1_0000_0000)
            },
            Err(e) => Err(e),
        }
    }

    /// The next eight bytes as a little-endian i64.
    pub fn read_i64(&mut self) -> (r: Result<i64, String>)
        requires
            old(self).wf(),
        ensures
            final(self).read_outcome(
                *old(self),
                r,
                8,
                le_u64(old(self).bytes(), old(self).pos()) as i64,
            ),
    {
        match self.read_u64() {
            Ok(v) => Ok(v as i64),
            Err(e) => Err(e),
        }
    }

    /// Symbol `idx` of the table, or "!sym" and the index past its end.
    pub fn get_symbol(&self, idx: usize) -> (s: String)
        ensures
            s@ == symbol_name(self.table(), idx as int),
    {
        if idx < self.symbols.len() {
            self.symbols[idx].clone()
        } else {
            missing_symbol_name(idx)
        }
    }

    /// An adhoc varint.
    pub fn read_adhoc_varint(&mut self) -> (r: Result<u64, String>)
        requires
            old(self).wf(),
        ensures
            final(self).wf(),
            final(self).bytes() == old(self).bytes(),
            final(self).table() == old(self).table(),
            final(self).pos() >= old(self).pos(),
            match r {
                Ok(v) => varint_at(old(self).bytes(), old(self).pos()) == Ok::<(u64, int), int>(
                    (v, final(self).pos()),
                ),
                Err(e) => varint_at(old(self).bytes(), old(self).pos()) == Err::<(u64, int), int>(
                    final(self).pos(),
                ) && e@ == eof_text(final(self).pos()),
            },
    {
        let first = match self.read_u8() {
            Ok(b) => b,
            Err(e) => return Err(e),
        };
        let mut value: u64 = first as u64;
        let mut mask: u64 = 0x80;
        let ghost mut k: nat = 0;
        proof {
            lemma_varint_mask_ends();
        }
        while value & mask != 0
            invariant
                self.wf(),
                self.bytes() == old(self).bytes(),
                self.table() == old(self).table(),
                self.pos() >= old(self).pos(),
                k <= 9,
                mask == varint_mask(k),
                varint_mask(9) == 0,
                varint_at(old(self).bytes(), old(self).pos()) == varint_rest(
                    self.bytes(),
                    self.pos(),
                    value,
                    k,
                ),
            decreases 9 - k,
        {
            proof {
                if k == 9 {
                    assert(value & 0u64 == 0) by (bit_vector);
                }
            }
            let b = match self.read_u8() {
                Ok(b) => b,
                Err(e) => return Err(e),
            };
            value = ((value ^ mask) << 8u64) | (b as u64);
            mask = mask << 7u64;
            proof {
                k = k + 1;
            }
        }
        Ok(value)
    }

    /// An adhoc varint.
    pub fn read_varint(&mut self) -> (r: Result<u64, String>)
        requires
            old(self).wf(),
        ensures
            final(self).wf(),
            final(self).bytes() == old(self).bytes(),
            final(self).table() == old(self).table(),
            final(self).pos() >= old(self).pos(),
            match r {
                Ok(v) => varint_at(old(self).bytes(), old(self).pos()) == Ok::<(u64, int), int>(
                    (v, final(self).pos()),
                ),
                Err(e) => varint_at(old(self).bytes(), old(self).pos()) == Err::<(u64, int), int>(
                    final(self).pos(),
                ) && e@ == eof_text(final(self).pos()),
            },
    {
        self.read_adhoc_varint()
    }

    /// A length written as an adhoc varint.
    pub fn read_multi_byte_length(&mut self) -> (r: Result<usize, String>)
        requires
            old(self).wf(),
        ensures
            final(self).wf(),
            final(self).bytes() == old(self).bytes(),
            final(self).table() == old(self).table(),
            match r {
                Ok(v) => exists|w: u64|
                    varint_at(old(self).bytes(), old(self).pos()) == Ok::<(u64, int), int>(
                        (w, final(self).pos()),
                    ) && v == w as usize,
                Err(e) => varint_at(old(self).bytes(), old(self).pos()) == Err::<(u64, int), int>(
                    final(self).pos(),
                ) && e@ == eof_text(final(self).pos()),
            },
    {
        match self.read_adhoc_varint() {
            Ok(v) => Ok(v as usize),
            Err(e) => Err(e),
        }
    }

    /// A symbol reference: the symbol whose index the next varint gives.
    pub fn read_string(&mut self) -> (r: Result<String, String>)
        requires
            old(self).wf(),
        ensures
            final(self).wf(),
            final(self).bytes() == old(self).bytes(),
            final(self).table() == old(self).table(),
            final(self).pos() >= old(self).pos(),
            match r {
                Ok(s) => exists|w: u64|
                    varint_at(old(self).bytes(), old(self).pos()) == Ok::<(u64, int), int>(
                        (w, final(self).pos()),
                    ) && s@ == symbol_name(old(self).table(), (w as usize) as int),
                Err(e) => varint_at(old(self).bytes(), old(self).pos()) == Err::<(u64, int), int>(
                    final(self).pos(),
                ) && e@ == eof_text(final(self).pos()),
            },
    {
        match self.read_varint() {
            Ok(v) => Ok(self.get_symbol(v as usize)),
            Err(e) => Err(e),
        }
    }
}

/// The names of symbol indices in `table`.
pub open spec fn names_of(table: Seq<Seq<char>>, ids: Seq<u64>) -> Seq<Seq<char>> {
    ids.map_values(|v: u64| symbol_name(table, (v as usize) as int))
}

/// A list of symbol references at `pos`: a u32 count, then that many varint indices,
/// named from `table`; with the position after them, or where the bytes ran out.
pub open spec fn symbol_refs_at(d: Seq<u8>, pos: int, table: Seq<Seq<char>>) -> Result<
    (Seq<Seq<char>>, int),
    int,
> {
    match u32_at(d, pos) {
        Err(p) => Err(p),
        Ok((n, p)) => match varints_at(d, p, n as nat) {
            Err(q) => Err(q),
            Ok((ids, q)) => Ok((names_of(table, ids), q)),
        },
    }
}

/// The symbol table at `pos`: up to `n` entries, each a varint length and that many
/// bytes read as UTF-8; it stops at the first entry that does not fit, at the position
/// where reading stopped.
pub open spec fn table_entries(d: Seq<u8>, pos: int, n: nat) -> (Seq<Seq<char>>, int)
    decreases n,
{
    if n == 0 {
        (Seq::empty(), pos)
    } else {
        match varint_at(d, pos) {
            Err(q) => (Seq::empty(), q),
            Ok((len, q)) => {
                let l = (len as usize) as int;
                if q + l <= d.len() {
                    let rest = table_entries(d, q + l, (n - 1) as nat);
                    (seq![crate::text::utf8_lossy(d.subrange(q, q + l))] + rest.0, rest.1)
                } else {
                    (Seq::empty(), q)
                }
            },
        }
    }
}

/// Once a varint in a row fails, every longer row fails there too.
proof fn lemma_varints_fail(d: Seq<u8>, p: int, i: nat, n: nat)
    requires
        i < n,
        varints_at(d, p, i) is Ok,
        varint_at(d, (varints_at(d, p, i)->Ok_0).1) is Err,
    ensures
        varints_at(d, p, n) == Err::<(Seq<u64>, int), int>(
            varint_at(d, (varints_at(d, p, i)->Ok_0).1)->Err_0,
        ),
    decreases n,
{
    if n > i + 1 {
        lemma_varints_fail(d, p, i, (n - 1) as nat);
    }
}

/// Reads `.adc` bytecode: the file head and symbol table here, the code frames in `decode`.
pub struct Loader;

impl Loader {
    /// A list of symbol references (see `symbol_refs_at`).
    pub fn read_symbols(cursor: &mut Cursor) -> (r: Result<Vec<String>, String>)
        requires
            old(cursor).wf(),
        ensures
            final(cursor).wf(),
            final(cursor).bytes() == old(cursor).bytes(),
            final(cursor).table() == old(cursor).table(),
            final(cursor).pos() >= old(cursor).pos(),
            match r {
                Ok(v) => symbol_refs_at(old(cursor).bytes(), old(cursor).pos(), old(cursor).table())
                    == Ok::<(Seq<Seq<char>>, int), int>(
                    (v@.map_values(|s: String| s@), final(cursor).pos()),
                ),
                Err(e) => symbol_refs_at(
                    old(cursor).bytes(),
                    old(cursor).pos(),
                    old(cursor).table(),
                ) == Err::<(Seq<Seq<char>>, int), int>(final(cursor).pos()) && e@ == eof_text(
                    final(cursor).pos(),
                ),
            },
    {
        let count = match cursor.read_u32() {
            Ok(c) => c,
            Err(e) => return Err(e),
        };
        let ghost d = cursor.bytes();
        let ghost table = cursor.table();
        let ghost p = cursor.pos();
        let ghost mut ids: Seq<u64> = Seq::empty();
        let mut symbols: Vec<String> = Vec::new();
        let mut i: u32 = 0;
        while i < count
            invariant
                cursor.wf(),
                cursor.bytes() == d,
                cursor.table() == table,
                d == old(cursor).bytes(),
                table == old(cursor).table(),
                u32_at(d, old(cursor).pos()) == Ok::<(u32, int), int>((count, p)),
                cursor.pos() >= old(cursor).pos(),
                i <= count,
                varints_at(d, p, i as nat) == Ok::<(Seq<u64>, int), int>((ids, cursor.pos())),
                symbols@.map_values(|s: String| s@) == names_of(table, ids),
            decreases count - i,
        {
            let v = match cursor.read_varint() {
                Ok(v) => v,
                Err(e) => {
                    proof {
                        lemma_varints_fail(d, p, i as nat, count as nat);
                    }
                    return Err(e);
                },
            };
            let name = cursor.get_symbol(v as usize);
            let ghost prev = symbols@.map_values(|s: String| s@);
            symbols.push(name);
            proof {
                assert(symbols@.map_values(|s: String| s@) =~= prev.push(name@));
                assert(names_of(table, ids.push(v)) =~= names_of(table, ids).push(name@));
                ids = ids.push(v);
            }
            i += 1;
        }
        Ok(symbols)
    }

    /// One symbol reference: the symbol whose index the next varint gives.
    pub fn read_symbol(cursor: &mut Cursor) -> (r: Result<String, String>)
        requires
            old(cursor).wf(),
        ensures
            final(cursor).wf(),
            final(cursor).bytes() == old(cursor).bytes(),
            final(cursor).table() == old(cursor).table(),
            final(cursor).pos() >= old(cursor).pos(),
            match r {
                Ok(s) => exists|w: u64|
                    varint_at(old(cursor).bytes(), old(cursor).pos()) == Ok::<(u64, int), int>(
                        (w, final(cursor).pos()),
                    ) && s@ == symbol_name(old(cursor).table(), (w as usize) as int),
                Err(e) => varint_at(old(cursor).bytes(), old(cursor).pos()) == Err::<
                    (u64, int),
                    int,
                >(final(cursor).pos()) && e@ == eof_text(final(cursor).pos()),
            },
    {
        match cursor.read_varint() {
            Ok(v) => Ok(cursor.get_symbol(v as usize)),
            Err(e) => Err(e),
        }
    }

    /// A list of symbol references followed by an i32 index.
    pub fn read_symbols_and_index(cursor: &mut Cursor) -> (r: Result<(Vec<String>, i32), String>)
        requires
            old(cursor).wf(),
        ensures
            final(cursor).wf(),
            final(cursor).bytes() == old(cursor).bytes(),
            final(cursor).table() == old(cursor).table(),
            match r {
                Ok((v, index)) => exists|q: int|
                    symbol_refs_at(old(cursor).bytes(), old(cursor).pos(), old(cursor).table())
                        == Ok::<(Seq<Seq<char>>, int), int>((v@.map_values(|s: String| s@), q))
                        && q + 4 <= old(cursor).bytes().len() && index == le_u32(
                        old(cursor).bytes(),
                        q,
                    ) as i32 && final(cursor).pos() == q + 4,
                Err(e) => e@ == eof_text(final(cursor).pos()) && match symbol_refs_at(
                    old(cursor).bytes(),
                    old(cursor).pos(),
                    old(cursor).table(),
                ) {
                    Ok((_, q)) => q + 4 > old(cursor).bytes().len() && final(cursor).pos() == q,
                    Err(q) => final(cursor).pos() == q,
                },
            },
    {
        let symbols = match Self::read_symbols(cursor) {
            Ok(s) => s,
            Err(e) => return Err(e),
        };
        match cursor.read_i32() {
            Ok(index) => Ok((symbols, index)),
            Err(e) => Err(e),
        }
    }

    /// A storage reference: a list of symbol references and an i32 index, always local.
    pub fn read_storage_ref(cursor: &mut Cursor) -> (r: Result<
        (Vec<String>, StorageKind, i32),
        String,
    >)
        requires
            old(cursor).wf(),
        ensures
            final(cursor).wf(),
            final(cursor).bytes() == old(cursor).bytes(),
            final(cursor).table() == old(cursor).table(),
            match r {
                Ok((v, kind, index)) => kind == StorageKind::Local && exists|q: int|
                    symbol_refs_at(old(cursor).bytes(), old(cursor).pos(), old(cursor).table())
                        == Ok::<(Seq<Seq<char>>, int), int>((v@.map_values(|s: String| s@), q))
                        && q + 4 <= old(cursor).bytes().len() && index == le_u32(
                        old(cursor).bytes(),
                        q,
                    ) as i32 && final(cursor).pos() == q + 4,
                Err(e) => e@ == eof_text(final(cursor).pos()) && match symbol_refs_at(
                    old(cursor).bytes(),
                    old(cursor).pos(),
                    old(cursor).table(),
                ) {
                    Ok((_, q)) => q + 4 > old(cursor).bytes().len() && final(cursor).pos() == q,
                    Err(q) => final(cursor).pos() == q,
                },
            },
    {
        match Self::read_symbols_and_index(cursor) {
            Ok((symbols, index)) => Ok((symbols, StorageKind::Local, index)),
            Err(e) => Err(e),
        }
    }

    /// Reads the symbol table at the cursor into it: a varint count, then the entries
    /// (see `table_entries`). Fails only when the count cannot be read.
    pub fn read_symbol_table(cursor: &mut Cursor) -> (r: Result<(), String>)
        requires
            old(cursor).wf(),
        ensures
            final(cursor).wf(),
            final(cursor).bytes() == old(cursor).bytes(),
            match r {
                Ok(_) => exists|n: u64, q: int|
                    varint_at(old(cursor).bytes(), old(cursor).pos()) == Ok::<(u64, int), int>(
                        (n, q),
                    ) && final(cursor).table() == table_entries(
                        old(cursor).bytes(),
                        q,
                        (n as usize) as nat,
                    ).0 && final(cursor).pos() == table_entries(
                        old(cursor).bytes(),
                        q,
                        (n as usize) as nat,
                    ).1,
                Err(e) => varint_at(old(cursor).bytes(), old(cursor).pos()) == Err::<
                    (u64, int),
                    int,
                >(final(cursor).pos()) && e@ == eof_text(final(cursor).pos())
                    && final(cursor).table() == old(cursor).table(),
            },
    {
        let count = match cursor.read_adhoc_varint() {
            Ok(c) => c as usize,
            Err(e) => return Err(e),
        };
        let ghost d = cursor.bytes();
        let ghost start = cursor.pos();
        let mut symbols: Vec<String> = Vec::new();
        let mut i: usize = 0;
        while i < count
            invariant_except_break
                i <= count,
                cursor.wf(),
                cursor.bytes() == d,
                symbols@.map_values(|s: String| s@) + table_entries(
                    d,
                    cursor.pos(),
                    (count - i) as nat,
                ).0 == table_entries(d, start, count as nat).0,
                table_entries(d, cursor.pos(), (count - i) as nat).1 == table_entries(
                    d,
                    start,
                    count as nat,
                ).1,
            ensures
                cursor.wf(),
                cursor.bytes() == d,
                symbols@.map_values(|s: String| s@) == table_entries(d, start, count as nat).0,
                cursor.pos() == table_entries(d, start, count as nat).1,
            decreases count - i,
        {
            let len = match cursor.read_multi_byte_length() {
                Ok(l) => l,
                Err(_) => {
                    proof {
                        assert(symbols@.map_values(|s: String| s@) + Seq::<Seq<char>>::empty()
                            =~= symbols@.map_values(|s: String| s@));
                    }
                    break;
                },
            };
            let ghost q = cursor.pos();
            let bytes = match cursor.read_bytes(len) {
                Ok(b) => b,
                Err(_) => {
                    proof {
                        assert(symbols@.map_values(|s: String| s@) + Seq::<Seq<char>>::empty()
                            =~= symbols@.map_values(|s: String| s@));
                    }
                    break;
                },
            };
            let sym = crate::text::decode_utf8_lossy(bytes);
            let ghost prev = symbols@.map_values(|s: String| s@);
            symbols.push(sym);
            proof {
                let rest = table_entries(d, cursor.pos(), (count - i - 1) as nat);
                assert(symbols@.map_values(|s: String| s@) =~= prev.push(sym@));
                assert(prev.push(sym@) + rest.0 =~= prev + (seq![sym@] + rest.0));
            }
            i += 1;
        }
        proof {
            assert(symbols@.map_values(|s: String| s@) + Seq::<Seq<char>>::empty()
                =~= symbols@.map_values(|s: String| s@));
        }
        cursor.symbols = symbols;
        Ok(())
    }
}

/// The file starts with "ADCH".
pub open spec fn adc_magic_ok(m: Seq<u8>) -> bool {
    m.len() == 4 && m[0] == 0x41u8 && m[1] == 0x44u8 && m[2] == 0x43u8 && m[3] == 0x48u8
}

/// The message for a rejected file magic (see `hex_list4`).
pub(crate) fn bad_magic_message(magic: &[u8]) -> (e: String)
    requires
        magic@.len() == 4,
    ensures
        e@ == "Bad magic: "@ + crate::text::hex_list4(magic@),
{
    let mut e = String::new();
    e.append("Bad magic: ");
    push_hex_list4(&mut e, magic);
    e
}

/// The version field: its first three bytes, read as UTF-8 and trimmed, are a u32.
pub open spec fn adc_version_ok(v: Seq<u8>) -> bool {
    parses_as_u32(trimmed(utf8_lossy(v.subrange(0, 3))))
}

/// What the head of an `.adc` file holds: the magic, a version, and the symbol table;
/// the table and the position after it, or the error the reading stops with.
pub open spec fn adc_header(d: Seq<u8>) -> Result<(Seq<Seq<char>>, int), Seq<char>> {
    if d.len() < 4 {
        Err(eof_text(0))
    } else if !adc_magic_ok(d.subrange(0, 4)) {
        Err("Bad magic: "@ + crate::text::hex_list4(d.subrange(0, 4)))
    } else if d.len() < 8 {
        Err(eof_text(4))
    } else if !adc_version_ok(d.subrange(4, 8)) {
        Err("Bad version"@)
    } else {
        match varint_at(d, 8) {
            Err(q) => Err(eof_text(q)),
            Ok((n, q)) => Ok(table_entries(d, q, (n as usize) as nat)),
        }
    }
}

impl Loader {
    /// Reads the head of an `.adc` file into the cursor: the "ADCH" magic, the version
    /// and the symbol table (see `adc_header`).
    pub fn read_header(cursor: &mut Cursor) -> (r: Result<(), String>)
        requires
            old(cursor).wf(),
            old(cursor).pos() == 0,
        ensures
            final(cursor).wf(),
            final(cursor).bytes() == old(cursor).bytes(),
            match r {
                Ok(_) => adc_header(old(cursor).bytes()) == Ok::<(Seq<Seq<char>>, int), Seq<char>>(
                    (final(cursor).table(), final(cursor).pos()),
                ),
                Err(e) => adc_header(old(cursor).bytes()) == Err::<
                    (Seq<Seq<char>>, int),
                    Seq<char>,
                >(e@),
            },
    {
        let magic = match cursor.read_bytes(4) {
            Ok(m) => m,
            Err(e) => return Err(e),
        };
        if !(magic[0] == 0x41 && magic[1] == 0x44 && magic[2] == 0x43 && magic[3] == 0x48) {
            return Err(bad_magic_message(magic));
        }
        let ver_bytes = match cursor.read_bytes(4) {
            Ok(v) => v,
            Err(e) => return Err(e),
        };
        let ver_str = crate::text::decode_utf8_lossy(&ver_bytes[0..3]);
        if !parse_u32_text(ver_str.as_str()) {
            return Err(String::from_str("Bad version"));
        }
        assert(ver_bytes@ =~= old(cursor).bytes().subrange(4, 8));
        assert(ver_bytes@.subrange(0, 3) =~= old(cursor).bytes().subrange(4, 8).subrange(0, 3));
        Self::read_symbol_table(cursor)
    }
}

} // verus!
