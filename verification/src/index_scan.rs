//! Finding the triangles of a car model whose mesh layout is unknown: runs of 16-bit
//! values that mostly name one of the model's vertices are read as triangle strips, and
//! when no run yields a triangle, every aligned triple of vertex indices is taken.
//! At most 50000 triangles are kept.
use vstd::prelude::*;
use crate::bytes::{read_i16, read_u16, spec_read_u16};
use crate::model::destrip_indices;
use crate::track::strip_state;

verus! {

/// The most triangles a scan keeps.
pub const MAX_TRIANGLES: usize = 50000;

/// The longest strip run read at once.
pub const MAX_STRIP: usize = 65536;

/// The signed 16-bit value at `p` (zero past the end).
pub open spec fn value_at(d: Seq<u8>, p: int) -> i16 {
    spec_read_u16(d, p) as i16
}

/// The value names one of `vlen` vertices.
pub open spec fn names_vertex(v: i16, vlen: u32) -> bool {
    v >= 0 && (v as int) < vlen
}

/// The first position from `pos` (in steps of two, below `m`) whose unsigned value
/// names a vertex, or the first position at or past `m`.
pub open spec fn skip_unnamed(d: Seq<u8>, m: int, vlen: u32, pos: int) -> int
    decreases m + 2 - pos,
{
    if pos < m && spec_read_u16(d, pos) >= vlen {
        skip_unnamed(d, m, vlen, pos + 2)
    } else {
        pos
    }
}

/// The length and the number of good values of the strip run read from `start`, when
/// `n` values have been read so far, `good` of them good (naming a vertex, or negative:
/// a restart) and `bad` bad. The run ends before `m`, at 65536 values, once bad values
/// are more than a third of the good ones, or after a bad value that is followed by a
/// value that names no vertex.
pub open spec fn strip_run(d: Seq<u8>, m: int, vlen: u32, start: int, n: int, good: int, bad: int) -> (int, int)
    decreases 65536 - n,
{
    let pos = start + 2 * n;
    if pos < m && n < 65536 {
        let val = value_at(d, pos);
        let is_bad = val >= 0 && (val as int) >= vlen;
        let g2 = if is_bad { good } else { good + 1 };
        let b2 = if is_bad { bad + 1 } else { bad };
        if b2 > 0 && b2 * 3 > g2 {
            (n + 1, g2)
        } else if is_bad && pos + 2 < m && !names_vertex(value_at(d, pos + 2), vlen) {
            (n + 1, g2)
        } else {
            strip_run(d, m, vlen, start, n + 1, g2, b2)
        }
    } else {
        (n, good)
    }
}

/// The `n` values of a run read from `start`.
pub open spec fn run_values(d: Seq<u8>, start: int, n: int) -> Seq<i16> {
    Seq::new(n as nat, |k: int| value_at(d, start + 2 * k))
}

/// The face names three distinct vertices out of `vlen`.
pub open spec fn face_ok(f: (u32, u32, u32), vlen: u32) -> bool {
    f.0 < vlen && f.1 < vlen && f.2 < vlen && f.0 != f.1 && f.1 != f.2 && f.0 != f.2
}

/// `tris` with the good faces of `faces` from the `i`th on appended, stopping once
/// 50000 triangles are held.
pub open spec fn keep_faces(faces: Seq<(u32, u32, u32)>, i: int, vlen: u32, tris: Seq<(u32, u32, u32)>) -> Seq<(u32, u32, u32)>
    decreases faces.len() - i,
{
    if 0 <= i < faces.len() {
        if face_ok(faces[i], vlen) {
            let t = tris.push(faces[i]);
            if t.len() >= 50000 {
                t
            } else {
                keep_faces(faces, i + 1, vlen, t)
            }
        } else {
            keep_faces(faces, i + 1, vlen, tris)
        }
    } else {
        tris
    }
}

/// The position after a run of `n` values read from `p`: at least two on.
pub open spec fn after_run(p: int, n: int) -> int {
    if p + 2 * n <= p + 2 {
        p + 2
    } else {
        p + 2 * n
    }
}

/// Skipping never goes back.
pub proof fn lemma_skip_ge(d: Seq<u8>, m: int, vlen: u32, pos: int)
    ensures
        skip_unnamed(d, m, vlen, pos) >= pos,
    decreases m + 2 - pos,
{
    if pos < m && spec_read_u16(d, pos) >= vlen {
        lemma_skip_ge(d, m, vlen, pos + 2);
    }
}

/// A run read on from `n` values has at least `n` and ends at most one byte past `m`.
pub proof fn lemma_strip_run_bounds(d: Seq<u8>, m: int, vlen: u32, start: int, n: int, good: int, bad: int)
    requires
        0 <= n,
        start + 2 * n <= m + 1,
    ensures
        n <= strip_run(d, m, vlen, start, n, good, bad).0,
        start + 2 * strip_run(d, m, vlen, start, n, good, bad).0 <= m + 1,
    decreases 65536 - n,
{
    let pos = start + 2 * n;
    if pos < m && n < 65536 {
        let val = value_at(d, pos);
        let is_bad = val >= 0 && (val as int) >= vlen;
        let g2 = if is_bad { good } else { good + 1 };
        let b2 = if is_bad { bad + 1 } else { bad };
        lemma_strip_run_bounds(d, m, vlen, start, n + 1, g2, b2);
    }
}

/// The triangles that the strip runs from `pos` add to `tris` (see the module's
/// description): skip to a value naming a vertex, read a run there, keep the good faces
/// of its strip when it has at least six good values, and go on after it.
pub open spec fn scan_strips(d: Seq<u8>, m: int, vlen: u32, pos: int, tris: Seq<(u32, u32, u32)>) -> Seq<(u32, u32, u32)>
    decreases m + 2 - pos,
{
    if pos < m && tris.len() < 50000 {
        let p = skip_unnamed(d, m, vlen, pos);
        if p >= m {
            tris
        } else {
            let r = strip_run(d, m, vlen, p, 0, 0, 0);
            let t2 = if r.1 >= 6 {
                keep_faces(strip_state(run_values(d, p, r.0), 0).0, 0, vlen, tris)
            } else {
                tris
            };
            proof {
                lemma_skip_ge(d, m, vlen, pos);
                lemma_strip_run_bounds(d, m, vlen, p, 0, 0, 0);
            }
            scan_strips(d, m, vlen, after_run(p, r.0), t2)
        }
    } else {
        tris
    }
}

/// The triangles that the aligned triples from `start` (below `m6`) add to `tris`:
/// each triple of unsigned values naming three distinct vertices, up to 50000.
pub open spec fn scan_triples(d: Seq<u8>, vlen: u32, start: int, m6: int, tris: Seq<(u32, u32, u32)>) -> Seq<(u32, u32, u32)>
    decreases m6 + 2 - start,
{
    if start < m6 {
        let f = (
            spec_read_u16(d, start) as u32,
            spec_read_u16(d, start + 2) as u32,
            spec_read_u16(d, start + 4) as u32,
        );
        if face_ok(f, vlen) {
            let t = tris.push(f);
            if t.len() >= 50000 {
                t
            } else {
                scan_triples(d, vlen, start + 2, m6, t)
            }
        } else {
            scan_triples(d, vlen, start + 2, m6, tris)
        }
    } else {
        tris
    }
}

/// The triangles of a mesh of `vlen` vertices found in `d`: those of its strip runs,
/// or, when they give none, those of its aligned triples.
pub open spec fn index_triangles_of(d: Seq<u8>, vlen: u32) -> Seq<(u32, u32, u32)> {
    let m = if d.len() >= 2 { d.len() - 2 } else { 0 };
    let t = scan_strips(d, m, vlen, 0, Seq::empty());
    if t.len() == 0 {
        let m6 = if d.len() >= 6 { d.len() - 6 } else { 0 };
        scan_triples(d, vlen, 0, m6, Seq::empty())
    } else {
        t
    }
}

/// Every face of `tris` names three distinct vertices out of `vlen`.
pub open spec fn faces_ok(tris: Seq<(u32, u32, u32)>, vlen: u32) -> bool {
    forall|i: int| 0 <= i < tris.len() ==> face_ok(#[trigger] tris[i], vlen)
}

proof fn lemma_keep_faces_ok(faces: Seq<(u32, u32, u32)>, i: int, vlen: u32, tris: Seq<(u32, u32, u32)>)
    requires
        faces_ok(tris, vlen),
        tris.len() < 50000,
    ensures
        faces_ok(keep_faces(faces, i, vlen, tris), vlen),
        keep_faces(faces, i, vlen, tris).len() <= 50000,
    decreases faces.len() - i,
{
    if 0 <= i < faces.len() {
        if face_ok(faces[i], vlen) {
            let t = tris.push(faces[i]);
            assert(faces_ok(t, vlen)) by {
                assert forall|k: int| 0 <= k < t.len() implies face_ok(#[trigger] t[k], vlen) by {
                    if k < tris.len() {
                        assert(t[k] == tris[k]);
                    }
                }
            }
            if t.len() < 50000 {
                lemma_keep_faces_ok(faces, i + 1, vlen, t);
            }
        } else {
            lemma_keep_faces_ok(faces, i + 1, vlen, tris);
        }
    }
}

proof fn lemma_scan_strips_ok(d: Seq<u8>, m: int, vlen: u32, pos: int, tris: Seq<(u32, u32, u32)>)
    requires
        faces_ok(tris, vlen),
        tris.len() <= 50000,
    ensures
        faces_ok(scan_strips(d, m, vlen, pos, tris), vlen),
        scan_strips(d, m, vlen, pos, tris).len() <= 50000,
    decreases m + 2 - pos,
{
    if pos < m && tris.len() < 50000 {
        let p = skip_unnamed(d, m, vlen, pos);
        if p < m {
            let r = strip_run(d, m, vlen, p, 0, 0, 0);
            lemma_skip_ge(d, m, vlen, pos);
            lemma_strip_run_bounds(d, m, vlen, p, 0, 0, 0);
            if r.1 >= 6 {
                let faces = strip_state(run_values(d, p, r.0), 0).0;
                lemma_keep_faces_ok(faces, 0, vlen, tris);
                lemma_scan_strips_ok(d, m, vlen, after_run(p, r.0), keep_faces(faces, 0, vlen, tris));
            } else {
                lemma_scan_strips_ok(d, m, vlen, after_run(p, r.0), tris);
            }
        }
    }
}

proof fn lemma_scan_triples_ok(d: Seq<u8>, vlen: u32, start: int, m6: int, tris: Seq<(u32, u32, u32)>)
    requires
        faces_ok(tris, vlen),
        tris.len() < 50000,
    ensures
        faces_ok(scan_triples(d, vlen, start, m6, tris), vlen),
        scan_triples(d, vlen, start, m6, tris).len() <= 50000,
    decreases m6 + 2 - start,
{
    if start < m6 {
        let f = (
            spec_read_u16(d, start) as u32,
            spec_read_u16(d, start + 2) as u32,
            spec_read_u16(d, start + 4) as u32,
        );
        if face_ok(f, vlen) {
            let t = tris.push(f);
            assert(faces_ok(t, vlen)) by {
                assert forall|k: int| 0 <= k < t.len() implies face_ok(#[trigger] t[k], vlen) by {
                    if k < tris.len() {
                        assert(t[k] == tris[k]);
                    }
                }
            }
            if t.len() < 50000 {
                lemma_scan_triples_ok(d, vlen, start + 2, m6, t);
            }
        } else {
            lemma_scan_triples_ok(d, vlen, start + 2, m6, tris);
        }
    }
}

/// Whatever the bytes, every triangle found names three distinct vertices of the mesh,
/// and no more than 50000 are found.
pub proof fn lemma_found_triangles_valid(d: Seq<u8>, vlen: u32)
    ensures
        faces_ok(index_triangles_of(d, vlen), vlen),
        index_triangles_of(d, vlen).len() <= 50000,
{
    let m = if d.len() >= 2 { d.len() - 2 } else { 0 };
    lemma_scan_strips_ok(d, m, vlen, 0, Seq::empty());
    let m6 = if d.len() >= 6 { d.len() - 6 } else { 0 };
    lemma_scan_triples_ok(d, vlen, 0, m6, Seq::empty());
}

/// Reads the strip run at `start` (see `strip_run`): its values and its good count.
fn read_strip_run(data: &[u8], m: usize, vlen: u32, start: usize) -> (r: (Vec<i16>, usize))
    requires
        start < m,
        m + 2 <= data@.len(),
    ensures
        (r.0@.len() as int, r.1 as int) == strip_run(data@, m as int, vlen, start as int, 0, 0, 0),
        r.0@ == run_values(data@, start as int, r.0@.len() as int),
{
    let len = data.len();
    let mut raw: Vec<i16> = Vec::new();
    let mut good: usize = 0;
    let mut bad: usize = 0;
    let mut pos: usize = start;
    let mut done = false;
    let ghost target = strip_run(data@, m as int, vlen, start as int, 0, 0, 0);
    while !done && pos < m && raw.len() < MAX_STRIP
        invariant
            start < m,
            m + 2 <= data@.len(),
            len == data@.len(),
            pos == start + 2 * raw@.len(),
            pos <= m + 1,
            good + bad == raw@.len(),
            raw@.len() <= 65536,
            raw@ == run_values(data@, start as int, raw@.len() as int),
            done ==> target == (raw@.len() as int, good as int),
            !done ==> strip_run(data@, m as int, vlen, start as int, raw@.len() as int, good as int, bad as int) == target,
        decreases 65536 - raw@.len(),
    {
        let val = read_i16(data, pos);
        let ghost n = raw@.len() as int;
        raw.push(val);
        proof {
            assert(raw@ =~= run_values(data@, start as int, n + 1));
        }
        pos = pos + 2;
        let is_bad = val >= 0 && (val as u32) >= vlen;
        if is_bad {
            bad = bad + 1;
        } else {
            good = good + 1;
        }
        if bad > 0 && bad * 3 > good {
            done = true;
        } else if is_bad && pos < m {
            let next = read_i16(data, pos);
            if !(next >= 0 && (next as u32) < vlen) {
                done = true;
            }
        }
    }
    (raw, good)
}

/// `tris` with the good faces of `faces` appended (see `keep_faces`).
fn keep_good_faces(faces: &Vec<(u32, u32, u32)>, vlen: u32, tris: &mut Vec<(u32, u32, u32)>)
    requires
        old(tris)@.len() < 50000,
    ensures
        final(tris)@ == keep_faces(faces@, 0, vlen, old(tris)@),
{
    let ghost target = keep_faces(faces@, 0, vlen, tris@);
    let mut i: usize = 0;
    let mut done = false;
    while !done && i < faces.len()
        invariant
            i <= faces@.len(),
            done ==> tris@ == target,
            !done ==> keep_faces(faces@, i as int, vlen, tris@) == target,
            !done ==> tris@.len() < 50000,
        decreases faces@.len() - i,
    {
        let f = faces[i];
        if f.0 < vlen && f.1 < vlen && f.2 < vlen && f.0 != f.1 && f.1 != f.2 && f.0 != f.2 {
            tris.push(f);
            if tris.len() >= MAX_TRIANGLES {
                done = true;
            }
        }
        i = i + 1;
    }
}

/// The triangles that strip runs give (see `scan_strips`).
fn strip_scan(data: &[u8], vlen: u32) -> (tris: Vec<(u32, u32, u32)>)
    ensures
        tris@ == scan_strips(
            data@,
            if data@.len() >= 2 { data@.len() - 2 } else { 0 },
            vlen,
            0,
            Seq::empty(),
        ),
{
    let len = data.len();
    let m: usize = if len >= 2 { len - 2 } else { 0 };
    let ghost target = scan_strips(data@, m as int, vlen, 0, Seq::empty());
    let mut tris: Vec<(u32, u32, u32)> = Vec::new();
    let mut pos: usize = 0;
    let mut done = false;
    while !done && pos < m && tris.len() < MAX_TRIANGLES
        invariant
            m == (if data@.len() >= 2 { data@.len() - 2 } else { 0 }),
            len == data@.len(),
            pos <= m + 1,
            done ==> tris@ == target,
            !done ==> scan_strips(data@, m as int, vlen, pos as int, tris@) == target,
        decreases 2 * (m + 2 - pos) + (if done { 0int } else { 1int }),
    {
        let ghost pos0 = pos as int;
        while pos < m && (read_u16(data, pos) as u32) >= vlen
            invariant
                m == (if data@.len() >= 2 { data@.len() - 2 } else { 0 }),
                len == data@.len(),
                pos0 <= pos <= m + 1,
                skip_unnamed(data@, m as int, vlen, pos as int) == skip_unnamed(data@, m as int, vlen, pos0),
            decreases m + 2 - pos,
        {
            pos = pos + 2;
        }
        if pos >= m {
            done = true;
        } else {
            let strip_start = pos;
            let (raw, good) = read_strip_run(data, m, vlen, strip_start);
            proof {
                lemma_strip_run_bounds(data@, m as int, vlen, strip_start as int, 0, 0, 0);
            }
            pos = strip_start + 2 * raw.len();
            if good >= 6 {
                let faces = destrip_indices(raw.as_slice());
                keep_good_faces(&faces, vlen, &mut tris);
            }
            if pos <= strip_start + 2 {
                pos = strip_start + 2;
            }
        }
    }
    tris
}

/// The triangles that aligned triples give (see `scan_triples`).
fn triple_scan(data: &[u8], vlen: u32) -> (tris: Vec<(u32, u32, u32)>)
    ensures
        tris@ == scan_triples(
            data@,
            vlen,
            0,
            if data@.len() >= 6 { data@.len() - 6 } else { 0 },
            Seq::empty(),
        ),
{
    let len = data.len();
    let m6: usize = if len >= 6 { len - 6 } else { 0 };
    let ghost target = scan_triples(data@, vlen, 0, m6 as int, Seq::empty());
    let mut tris: Vec<(u32, u32, u32)> = Vec::new();
    let mut start: usize = 0;
    let mut done = false;
    while !done && start < m6
        invariant
            m6 == (if data@.len() >= 6 { data@.len() - 6 } else { 0 }),
            len == data@.len(),
            start <= m6 + 1,
            done ==> tris@ == target,
            !done ==> scan_triples(data@, vlen, start as int, m6 as int, tris@) == target,
        decreases m6 + 2 - start,
    {
        let i1 = read_u16(data, start) as u32;
        let i2 = read_u16(data, start + 2) as u32;
        let i3 = read_u16(data, start + 4) as u32;
        if i1 < vlen && i2 < vlen && i3 < vlen && i1 != i2 && i2 != i3 && i1 != i3 {
            tris.push((i1, i2, i3));
            if tris.len() >= MAX_TRIANGLES {
                done = true;
            }
        }
        start = start + 2;
    }
    tris
}

/// The triangles of a mesh of `vertex_count` vertices found in `data` (see
/// `index_triangles_of`).
pub fn index_triangles(data: &[u8], vertex_count: u32) -> (tris: Vec<(u32, u32, u32)>)
    ensures
        tris@ == index_triangles_of(data@, vertex_count),
{
    let tris = strip_scan(data, vertex_count);
    if tris.len() == 0 {
        triple_scan(data, vertex_count)
    } else {
        tris
    }
}

} // verus!
