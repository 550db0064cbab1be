//! Row-major grids: index arithmetic, the result of filling a grid pixel by pixel, and
//! the two triangles that cover each cell of a grid of vertices.
use vstd::prelude::*;

verus! {

/// Pixel `(x, y)` of a `w`-wide row-major grid sits at `y * w + x`, inside the first
/// `w * h` cells, and that index gives the coordinates back.
pub proof fn lemma_row_major_index(x: int, y: int, w: int, h: int)
    requires
        0 <= x < w,
        0 <= y < h,
    ensures
        0 <= y * w + x < w * h,
        (y * w + x) / w == y,
        (y * w + x) % w == x,
{
    vstd::arithmetic::div_mod::lemma_fundamental_div_mod_converse(y * w + x, w, y, x);
    assert(0 <= y * w + x < w * h) by (nonlinear_arith)
        requires
            0 <= x < w,
            0 <= y < h,
    ;
}

/// `old` after each pixel `(x, y)` of the top-left `w` by `h` grid (row-major, `w` wide)
/// took `texel(x, y)`, where that is `Some`; every other cell keeps its value.
pub open spec fn fill_result(
    old: Seq<u32>,
    w: int,
    h: int,
    texel: spec_fn(int, int) -> Option<u32>,
) -> Seq<u32> {
    Seq::new(
        old.len(),
        |k: int|
            if 0 <= k < w * h {
                match texel(k % w, k / w) {
                    Some(v) => v,
                    None => old[k],
                }
            } else {
                old[k]
            },
    )
}

/// The two triangles that cover cell (`row`, `col`) of a grid of vertices `cols` wide:
/// with `a` its top-left vertex, (a, a + 1, a + cols) and (a + 1, a + cols + 1, a + cols).
pub open spec fn cell_triangles(cols: int, row: int, col: int) -> ((int, int, int), (int, int, int)) {
    let a = row * cols + col;
    ((a, a + 1, a + cols), (a + 1, a + cols + 1, a + cols))
}

/// Triangles `2k` and `2k + 1` of `s`, for cell `k` = (`row`, `col`) of a grid whose cells
/// are `cols - 1` to a row, are that cell's two (see `cell_triangles`).
pub open spec fn holds_cell(s: Seq<(u32, u32, u32)>, cols: int, row: int, col: int) -> bool {
    let k = 2 * (row * (cols - 1) + col);
    let (t0, t1) = cell_triangles(cols, row, col);
    &&& s[k].0 == t0.0 && s[k].1 == t0.1 && s[k].2 == t0.2
    &&& s[k + 1].0 == t1.0 && s[k + 1].1 == t1.1 && s[k + 1].2 == t1.2
}

/// The triangles of a grid of `cols` by `rows` vertices: each cell, row by row, gives
/// its two triangles (see `cell_triangles`).
pub fn grid_triangles(cols: u32, rows: u32) -> (r: Vec<(u32, u32, u32)>)
    requires
        cols >= 1,
        rows >= 1,
        cols * rows <= u32::MAX,
    ensures
        r@.len() == 2 * (rows - 1) * (cols - 1),
        forall|row: int, col: int|
            0 <= row < rows - 1 && 0 <= col < cols - 1 ==> #[trigger] holds_cell(r@, cols as int, row, col),
{
    let mut tris: Vec<(u32, u32, u32)> = Vec::new();
    let w = cols;
    let mut row: u32 = 0;
    while row < rows - 1
        invariant
            cols >= 1,
            rows >= 1,
            cols * rows <= u32::MAX,
            w == cols,
            row <= rows - 1,
            tris@.len() == 2 * row * (cols - 1),
            forall|rr: int, cc: int|
                0 <= rr < row && 0 <= cc < cols - 1 ==> #[trigger] holds_cell(tris@, cols as int, rr, cc),
        decreases rows - 1 - row,
    {
        let mut col: u32 = 0;
        proof {
            assert(2 * row * (cols - 1) == 2 * (row * (cols - 1) + 0)) by (nonlinear_arith);
        }
        while col < cols - 1
            invariant
                cols >= 1,
                rows >= 1,
                cols * rows <= u32::MAX,
                w == cols,
                row < rows - 1,
                col <= cols - 1,
                tris@.len() == 2 * (row * (cols - 1) + col),
                forall|rr: int, cc: int|
                    ((0 <= rr < row && 0 <= cc < cols - 1) || (rr == row && 0 <= cc < col)) ==> #[trigger] holds_cell(tris@, cols as int, rr, cc),
            decreases cols - 1 - col,
        {
            proof {
                assert(row * cols + col + cols + 1 <= cols * rows) by (nonlinear_arith)
                    requires
                        row + 2 <= rows,
                        col + 2 <= cols,
                ;
            }
            let a = row * w + col;
            let b = a + w;
            let c = a + 1;
            let d = b + 1;
            let ghost before = tris@;
            tris.push((a, c, b));
            tris.push((c, d, b));
            proof {
                assert forall|rr: int, cc: int|
                    ((0 <= rr < row && 0 <= cc < cols - 1) || (rr == row && 0 <= cc < col + 1)) implies holds_cell(tris@, cols as int, rr, cc) by {
                    if rr == row && cc == col {
                        assert(2 * (rr * (cols - 1) + cc) == before.len());
                        assert(tris@[before.len() as int] == (a, c, b));
                        assert(tris@[before.len() as int + 1] == (c, d, b));
                        assert(a == row * cols + col);
                        assert(holds_cell(tris@, cols as int, rr, cc));
                    } else {
                        assert(rr * (cols - 1) + cc < row * (cols - 1) + col) by (nonlinear_arith)
                            requires
                                (0 <= rr < row && 0 <= cc < cols - 1) || (rr == row && 0 <= cc < col),
                        ;
                        let k = 2 * (rr * (cols - 1) + cc);
                        assert(holds_cell(before, cols as int, rr, cc));
                        assert(tris@[k] == before[k]);
                        assert(tris@[k + 1] == before[k + 1]);
                    }
                }
            }
            col = col + 1;
        }
        proof {
            assert(2 * (row * (cols - 1) + (cols - 1)) == 2 * (row + 1) * (cols - 1)) by (nonlinear_arith);
        }
        row = row + 1;
    }
    proof {
        assert(2 * (rows - 1) * (cols - 1) == 2 * ((rows - 1) as int) * ((cols - 1) as int));
    }
    tris
}

/// Every corner of every grid triangle names one of the grid's `cols * rows` vertices.
pub proof fn lemma_cell_triangles_in_grid(cols: int, rows: int, row: int, col: int)
    requires
        0 <= row < rows - 1,
        0 <= col < cols - 1,
    ensures
        ({
            let (t0, t1) = cell_triangles(cols, row, col);
            &&& 0 <= t0.0 < cols * rows && 0 <= t0.1 < cols * rows && 0 <= t0.2 < cols * rows
            &&& 0 <= t1.0 < cols * rows && 0 <= t1.1 < cols * rows && 0 <= t1.2 < cols * rows
        }),
{
    assert(0 <= row * cols + col && row * cols + col + cols + 1 < cols * rows) by (nonlinear_arith)
        requires
            0 <= row < rows - 1,
            0 <= col < cols - 1,
    ;
}

} // verus!
