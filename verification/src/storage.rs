//! Variable storage of the bytecode machine: the locals of one call frame and the
//! statics of a module. A cell holds `None` until something is written to it, which
//! stands for the machine's nil.
use vstd::prelude::*;

verus! {

/// What a read of `index` gives: the cell's content, or nothing outside the cells.
pub open spec fn slot<V>(cells: Seq<Option<V>>, index: int) -> Option<V> {
    if 0 <= index < cells.len() {
        cells[index]
    } else {
        None
    }
}

/// The cells after writing `val` at `index` of a fixed-size store: a write outside
/// the cells is dropped.
pub open spec fn put_fixed<V>(cells: Seq<Option<V>>, index: int, val: V) -> Seq<Option<V>> {
    if 0 <= index < cells.len() {
        cells.update(index, Some(val))
    } else {
        cells
    }
}

/// The cells after writing `val` at `index` (not negative) of a growing store: when the
/// index is past the end, the store first grows to 64 cells beyond it.
pub open spec fn put_growing<V>(cells: Seq<Option<V>>, index: int, val: V) -> Seq<Option<V>> {
    let grown = if index < cells.len() {
        cells
    } else {
        cells + Seq::new((index + 64 - cells.len()) as nat, |i: int| None::<V>)
    };
    grown.update(index, Some(val))
}

/// `n` empty cells.
pub open spec fn empty_cells<V>(n: int) -> Seq<Option<V>> {
    Seq::new(n as nat, |i: int| None::<V>)
}

fn fill_empty<V>(n: usize) -> (cells: Vec<Option<V>>)
    ensures
        cells@ == empty_cells::<V>(n as int),
{
    let mut cells: Vec<Option<V>> = Vec::new();
    let mut i: usize = 0;
    while i < n
        invariant
            i <= n,
            cells@ == empty_cells::<V>(i as int),
        decreases n - i,
    {
        cells.push(None);
        i = i + 1;
    }
    cells
}

/// Local variable storage for a single call frame: a fixed number of cells.
pub struct LocalStorage<V> {
    cells: Vec<Option<V>>,
}

impl<V> LocalStorage<V> {
    /// The cells, in order.
    pub closed spec fn cells(&self) -> Seq<Option<V>> {
        self.cells@
    }

    #[verifier::type_invariant]
    spec fn fits(&self) -> bool {
        self.cells@.len() <= i32::MAX
    }

    /// `size` empty cells, none for a size below one.
    pub fn new(size: i32) -> (s: Self)
        ensures
            s.cells() == empty_cells::<V>(if size > 0 { size as int } else { 0 }),
    {
        let n: usize = if size > 0 { size as usize } else { 0 };
        LocalStorage { cells: fill_empty(n) }
    }

    /// The content of cell `index`; nothing for an empty cell or an index outside.
    pub fn read(&self, index: i32) -> (r: Option<&V>)
        ensures
            match r {
                Some(v) => slot(self.cells(), index as int) == Some(*v),
                None => slot(self.cells(), index as int) is None,
            },
    {
        if index >= 0 && (index as usize) < self.cells.len() {
            match &self.cells[index as usize] {
                Some(v) => Some(v),
                None => None,
            }
        } else {
            None
        }
    }

    /// Writes `val` to cell `index`; a write outside the cells is dropped.
    pub fn write(&mut self, index: i32, val: V)
        ensures
            final(self).cells() == put_fixed(old(self).cells(), index as int, val),
    {
        proof {
            use_type_invariant(&*self);
        }
        if index >= 0 && (index as usize) < self.cells.len() {
            let mut cells: Vec<Option<V>> = Vec::new();
            std::mem::swap(&mut cells, &mut self.cells);
            cells.set(index as usize, Some(val));
            self.cells = cells;
        }
    }

    /// The number of cells.
    pub fn size(&self) -> (n: i32)
        ensures
            n as int == self.cells().len(),
    {
        proof {
            use_type_invariant(self);
        }
        self.cells.len() as i32
    }
}

/// Module-level static variable storage: it grows on a write past its end.
pub struct StaticStorage<V> {
    cells: Vec<Option<V>>,
}

impl<V> StaticStorage<V> {
    /// The cells, in order.
    pub closed spec fn cells(&self) -> Seq<Option<V>> {
        self.cells@
    }

    /// `size` empty cells (none for a size below one) and 64 more.
    pub fn new(size: i32) -> (s: Self)
        ensures
            s.cells() == empty_cells::<V>(if size > 0 { size + 64 } else { 64 }),
    {
        let min_size: usize = if size > 0 { size as usize } else { 0 };
        StaticStorage { cells: fill_empty(min_size + 64) }
    }

    /// The content of cell `index`; nothing for an empty cell or an index outside.
    pub fn read(&self, index: i32) -> (r: Option<&V>)
        ensures
            match r {
                Some(v) => slot(self.cells(), index as int) == Some(*v),
                None => slot(self.cells(), index as int) is None,
            },
    {
        if index >= 0 && (index as usize) < self.cells.len() {
            match &self.cells[index as usize] {
                Some(v) => Some(v),
                None => None,
            }
        } else {
            None
        }
    }

    /// Writes `val` to cell `index`, growing the store first when the index is past
    /// its end (see `put_growing`).
    pub fn write(&mut self, index: i32, val: V)
        requires
            index >= 0,
        ensures
            final(self).cells() == put_growing(old(self).cells(), index as int, val),
    {
        let idx = index as usize;
        let mut cells: Vec<Option<V>> = Vec::new();
        std::mem::swap(&mut cells, &mut self.cells);
        let ghost before = cells@;
        if idx >= cells.len() {
            let target: usize = idx + 64;
            while cells.len() < target
                invariant
                    before.len() <= cells@.len() <= target,
                    target == idx + 64,
                    cells@ == before + empty_cells::<V>(cells@.len() - before.len()),
                decreases target - cells@.len(),
            {
                cells.push(None);
            }
            assert(cells@ == before + Seq::new((index + 64 - before.len()) as nat, |i: int| None::<V>));
        }
        cells.set(idx, Some(val));
        self.cells = cells;
    }

    /// The number of cells, as the machine's 32-bit integer.
    pub fn size(&self) -> (n: i32)
        ensures
            n == self.cells().len() as i32,
    {
        self.cells.len() as i32
    }
}

/// A read of a cell gives back what the last write to it wrote, and a write leaves
/// every other cell as it was, in both kinds of storage.
pub proof fn lemma_read_after_write<V>(cells: Seq<Option<V>>, index: int, other: int, val: V)
    requires
        other != index,
    ensures
        0 <= index < cells.len() ==> slot(put_fixed(cells, index, val), index) == Some(val),
        slot(put_fixed(cells, index, val), other) == slot(cells, other),
        0 <= index ==> slot(put_growing(cells, index, val), index) == Some(val),
        0 <= index ==> slot(put_growing(cells, index, val), other) == slot(cells, other),
{
}

} // verus!
