//! Course metadata (.ad) files: the records that mark checkpoints, the start point they
//! give, and the file names of a course's data. Coordinates are kept as the bits of
//! their 32-bit floats.
use vstd::prelude::*;
use vstd::string::StringExecFns;
use crate::bytes::{le_u32, read_u32};
use crate::text::{push_padded_magnitude, zero_padded};

verus! {

/// A coordinate that a checkpoint may have: a finite float below 100000 in size. On the
/// bits this is a magnitude below that of 100000.0 (0x47C35000), which no infinity or
/// NaN has.
pub open spec fn coord_ok(bits: u32) -> bool {
    bits % 0x8000_0000 < 0x47c3_5000
}

/// The coordinate is +0 or -0.
pub open spec fn coord_zero(bits: u32) -> bool {
    bits % 0x8000_0000 == 0
}

/// The checkpoints that the records of `d` give from byte `i` on. A record of type 1
/// holds x and z after its type; when both are `coord_ok` they make a checkpoint, and
/// the next record starts 64 bytes on. A record of type 0 past byte 0x200 ends the
/// list; any other word is skipped. The walk stops when fewer than 16 bytes remain.
pub open spec fn course_scan(d: Seq<u8>, i: int) -> Seq<(u32, u32)>
    decreases d.len() - i,
{
    if i < 0 || i + 16 > d.len() {
        Seq::empty()
    } else {
        let t = le_u32(d, i);
        if t == 1 {
            let x = le_u32(d, i + 4);
            let z = le_u32(d, i + 8);
            let next = if i + 64 > d.len() { d.len() as int } else { i + 64 };
            if coord_ok(x) && coord_ok(z) {
                seq![(x, z)] + course_scan(d, next)
            } else {
                course_scan(d, next)
            }
        } else if t == 0 && i > 0x200 {
            Seq::empty()
        } else {
            course_scan(d, i + 4)
        }
    }
}

/// Where the walk over a course file starts: byte 0x100, or the end of a shorter file.
pub open spec fn scan_start(d: Seq<u8>) -> int {
    if d.len() < 0x100 {
        d.len() as int
    } else {
        0x100
    }
}

/// The checkpoints of a course file, in file order (see `course_scan`).
pub fn course_checkpoints(data: &[u8]) -> (r: Vec<(u32, u32)>)
    ensures
        r@ == course_scan(data@, scan_start(data@)),
{
    let n = data.len();
    let mut i: usize = if n < 0x100 { n } else { 0x100 };
    let mut cps: Vec<(u32, u32)> = Vec::new();
    while n >= 16 && i <= n - 16
        invariant
            n == data@.len(),
            i <= n,
            cps@ + course_scan(data@, i as int) == course_scan(data@, scan_start(data@)),
        decreases n - i,
    {
        let t = read_u32(data, i);
        if t == 1 {
            let x = read_u32(data, i + 4);
            let z = read_u32(data, i + 8);
            if x % 0x8000_0000 < 0x47c3_5000 && z % 0x8000_0000 < 0x47c3_5000 {
                cps.push((x, z));
            }
            if n - i < 64 {
                i = n;
            } else {
                i = i + 64;
            }
        } else if t == 0 && i > 0x200 {
            assert(cps@ =~= cps@ + course_scan(data@, i as int));
            return cps;
        } else {
            i = i + 4;
        }
    }
    assert(cps@ =~= cps@ + course_scan(data@, i as int));
    cps
}

/// The start point of a course: the first checkpoint, if it has one.
pub fn course_start(data: &[u8]) -> (r: Option<(u32, u32)>)
    ensures
        r == if course_scan(data@, scan_start(data@)).len() > 0 {
            Some(course_scan(data@, scan_start(data@))[0])
        } else {
            None::<(u32, u32)>
        },
{
    let cps = course_checkpoints(data);
    if cps.len() > 0 {
        Some(cps[0])
    } else {
        None
    }
}

/// The spawn point that a run of checkpoints leaves: starting from (0, 0), each
/// checkpoint replaces it while both its coordinates are zero.
pub open spec fn spawn_of(cps: Seq<(u32, u32)>) -> (u32, u32)
    decreases cps.len(),
{
    if cps.len() == 0 {
        (0, 0)
    } else {
        let s = spawn_of(cps.drop_last());
        if coord_zero(s.0) && coord_zero(s.1) {
            cps.last()
        } else {
            s
        }
    }
}

/// The spawn point and checkpoints of a course, coordinates as float bits.
pub struct CourseMeta {
    pub spawn_x: u32,
    pub spawn_z: u32,
    pub checkpoints: Vec<(u32, u32)>,
}

/// The metadata of a course file: none for a file shorter than 0x150 bytes, else its
/// checkpoints (see `course_checkpoints`) and the spawn point they leave (see
/// `spawn_of`).
pub fn parse_course_metadata_full(data: &[u8]) -> (m: CourseMeta)
    ensures
        data@.len() < 0x150 ==> m.spawn_x == 0 && m.spawn_z == 0 && m.checkpoints@.len() == 0,
        data@.len() >= 0x150 ==> {
            &&& m.checkpoints@ == course_scan(data@, scan_start(data@))
            &&& (m.spawn_x, m.spawn_z) == spawn_of(m.checkpoints@)
        },
{
    if data.len() < 0x150 {
        return CourseMeta { spawn_x: 0, spawn_z: 0, checkpoints: Vec::new() };
    }
    let cps = course_checkpoints(data);
    let mut sx: u32 = 0;
    let mut sz: u32 = 0;
    let mut k: usize = 0;
    while k < cps.len()
        invariant
            k <= cps@.len(),
            (sx, sz) == spawn_of(cps@.subrange(0, k as int)),
        decreases cps@.len() - k,
    {
        proof {
            assert(cps@.subrange(0, k as int + 1).drop_last() =~= cps@.subrange(0, k as int));
        }
        if sx % 0x8000_0000 == 0 && sz % 0x8000_0000 == 0 {
            sx = cps[k].0;
            sz = cps[k].1;
        }
        k = k + 1;
    }
    assert(cps@.subrange(0, cps@.len() as int) =~= cps@);
    CourseMeta { spawn_x: sx, spawn_z: sz, checkpoints: cps }
}

/// The name of a course's metadata file: "c", the course number zero-padded to three
/// places, ".ad".
pub fn course_metadata_file(course_id: u32) -> (r: String)
    ensures
        r@ == "c"@ + zero_padded(course_id as int, 3) + ".ad"@,
{
    let mut s = String::from_str("c");
    push_padded_magnitude(&mut s, false, course_id as u64, 3);
    s.append(".ad");
    s
}

proof fn lemma_spawn_zero(cps: Seq<(u32, u32)>)
    requires
        forall|j: int| 0 <= j < cps.len() ==> coord_zero(#[trigger] cps[j].0) && coord_zero(cps[j].1),
    ensures
        coord_zero(spawn_of(cps).0) && coord_zero(spawn_of(cps).1),
    decreases cps.len(),
{
    if cps.len() > 0 {
        let p = cps.drop_last();
        assert forall|j: int| 0 <= j < p.len() implies coord_zero(#[trigger] p[j].0) && coord_zero(p[j].1) by {
            assert(p[j] == cps[j]);
        }
        lemma_spawn_zero(p);
        assert(cps.last() == cps[cps.len() - 1]);
    }
}

/// The spawn point is the first checkpoint that is not at the origin (both coordinates
/// zero), when there is one.
pub proof fn lemma_spawn_is_first_off_origin(cps: Seq<(u32, u32)>, k: int)
    requires
        0 <= k < cps.len(),
        !(coord_zero(cps[k].0) && coord_zero(cps[k].1)),
        forall|j: int| 0 <= j < k ==> coord_zero(#[trigger] cps[j].0) && coord_zero(cps[j].1),
    ensures
        spawn_of(cps) == cps[k],
    decreases cps.len(),
{
    let p = cps.drop_last();
    if k == cps.len() - 1 {
        assert forall|j: int| 0 <= j < p.len() implies coord_zero(#[trigger] p[j].0) && coord_zero(p[j].1) by {
            assert(p[j] == cps[j]);
        }
        lemma_spawn_zero(p);
    } else {
        assert(p[k] == cps[k]);
        assert forall|j: int| 0 <= j < k implies coord_zero(#[trigger] p[j].0) && coord_zero(p[j].1) by {
            assert(p[j] == cps[j]);
        }
        lemma_spawn_is_first_off_origin(p, k);
    }
}

/// A course's start point (`course_start`) is the spawn point that its metadata gives
/// (`parse_course_metadata_full`) when the file holds the metadata and its first
/// checkpoint is not at the origin.
pub proof fn lemma_start_is_spawn(d: Seq<u8>)
    requires
        d.len() >= 0x150,
        course_scan(d, scan_start(d)).len() > 0,
        !(coord_zero(course_scan(d, scan_start(d))[0].0) && coord_zero(course_scan(d, scan_start(d))[0].1)),
    ensures
        spawn_of(course_scan(d, scan_start(d))) == course_scan(d, scan_start(d))[0],
{
    lemma_spawn_is_first_off_origin(course_scan(d, scan_start(d)), 0);
}

} // verus!
