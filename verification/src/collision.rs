//! Level collision: the octree of collision octants (4×4×4 game units
//! each) in a level's core data, and the hero collision groups.
//!
//! The octree is three levels of tables: a list of Z levels, each a list
//! of Y rows, each a list of X octants; each level starts with a signed
//! base coordinate and a count. An octant holds packed vertices (10-bit X
//! and Y, 12-bit Z, signed), triangles, and a fourth vertex for its first
//! faces, which are quads. Coordinates are kept as integers here: a vertex
//! is `(x / 16, y / 16, z / 64)` game units from its octant's centre.

use vstd::prelude::*;
use crate::common::{le_u16, le_u32, r_s16, r_s32, r_u16, r_u32, signed16, signed32};
use crate::level_texture::{usz, usz_of};
use crate::wad::copy_range;

verus! {

/// Byte `i`, or 0 past the end.
pub open spec fn get_u8(d: Seq<u8>, i: int) -> int {
    if 0 <= i < d.len() {
        d[i] as int
    } else {
        0
    }
}

/// The little-endian u32 at `i`, bytes past the end read as 0.
pub open spec fn get_u32(d: Seq<u8>, i: int) -> int {
    get_u8(d, i) + get_u8(d, i + 1) * 0x100 + get_u8(d, i + 2) * 0x1_0000 + get_u8(d, i + 3)
        * 0x100_0000
}

/// Sign extension of a 10-bit field.
pub open spec fn sext10(v: int) -> int {
    if v >= 512 {
        v - 1024
    } else {
        v
    }
}

/// Sign extension of a 12-bit field.
pub open spec fn sext12(v: int) -> int {
    if v >= 2048 {
        v - 4096
    } else {
        v
    }
}

/// A packed collision vertex: X in bits 0..10, Y in bits 10..20, Z in bits
/// 20..32, each signed.
pub open spec fn coll_vertex(v: int) -> (int, int, int) {
    (sext10(v % 1024), sext10((v / 1024) % 1024), sext12(v / 0x10_0000))
}

/// How many of `count` records of `size` bytes fit from `ofs` on.
pub open spec fn fit_count(len: int, ofs: int, count: int, size: int) -> int {
    let fit = if ofs <= len {
        (len - ofs) / size
    } else {
        0
    };
    if count < fit {
        count
    } else {
        fit
    }
}

/// A collision face: three or four vertex indices and a material.
#[derive(Debug, Clone, Copy, PartialEq, Eq, Structural)]
pub struct CollFace {
    pub v0: u8,
    pub v1: u8,
    pub v2: u8,
    pub v3: u8,
    pub is_quad: bool,
    pub material: u8,
}

/// An octant: its vertices (raw signed X, Y, Z) and faces.
pub struct OctantData {
    pub vertices: Vec<(i32, i32, i32)>,
    pub faces: Vec<CollFace>,
}

/// Where the parts of the octant at `o` are: (vertex count read, first
/// face offset, face count read, quad byte offset, quad count read).
pub open spec fn octant_layout(d: Seq<u8>, o: int) -> (int, int, int, int, int) {
    let fc = le_u16(d, o);
    let vc = d[o + 2] as int;
    let qc = d[o + 3] as int;
    let nv = fit_count(d.len() as int, o + 4, vc, 4);
    let f0 = o + 4 + 4 * nv;
    let nf = fit_count(d.len() as int, f0, fc, 4);
    let q0 = f0 + 4 * nf;
    let nq = fit_count(
        d.len() as int,
        q0,
        if qc < fc {
            qc
        } else {
            fc
        },
        1,
    );
    (nv, f0, nf, q0, nq)
}

/// The octant at `o` can be read: its quad bytes do not outnumber the
/// faces read (when they do, the reader indexes past its faces).
pub open spec fn octant_ok(d: Seq<u8>, o: int) -> bool {
    let l = octant_layout(d, o);
    o == 0 || o + 4 > d.len() || l.4 <= l.2
}

/// `oct` is the octant at `o` (an empty one where `o` is 0 or past the data).
pub open spec fn octant_is(oct: OctantData, d: Seq<u8>, o: int) -> bool {
    if o == 0 || o + 4 > d.len() {
        oct.vertices@.len() == 0 && oct.faces@.len() == 0
    } else {
        let (nv, f0, nf, q0, nq) = octant_layout(d, o);
        &&& oct.vertices@.len() == nv
        &&& forall|i: int|
            0 <= i < nv ==> {
                let v = coll_vertex(le_u32(d, o + 4 + 4 * i));
                &&& (#[trigger] oct.vertices@[i]).0 == v.0
                &&& oct.vertices@[i].1 == v.1
                &&& oct.vertices@[i].2 == v.2
            }
        &&& oct.faces@.len() == nf
        &&& forall|j: int|
            0 <= j < nf ==> {
                let f = #[trigger] oct.faces@[j];
                &&& f.v0 == d[f0 + 4 * j]
                &&& f.v1 == d[f0 + 4 * j + 1]
                &&& f.v2 == d[f0 + 4 * j + 2]
                &&& f.material == d[f0 + 4 * j + 3]
                &&& f.is_quad == (j < nq)
                &&& f.v3 == (if j < nq {
                    d[q0 + j]
                } else {
                    0u8
                })
            }
    }
}

fn decode_vertex(v: u32) -> (r: (i32, i32, i32))
    ensures
        r.0 == coll_vertex(v as int).0,
        r.1 == coll_vertex(v as int).1,
        r.2 == coll_vertex(v as int).2,
{
    let x = (v % 1024) as i32;
    let y = ((v / 1024) % 1024) as i32;
    let z = (v / 0x10_0000) as i32;
    (if x >= 512 {
        x - 1024
    } else {
        x
    }, if y >= 512 {
        y - 1024
    } else {
        y
    }, if z >= 2048 {
        z - 4096
    } else {
        z
    })
}

fn fit(len: usize, ofs: usize, count: usize, size: usize) -> (r: usize)
    requires
        size > 0,
    ensures
        r == fit_count(len as int, ofs as int, count as int, size as int),
{
    let f = if ofs <= len {
        (len - ofs) / size
    } else {
        0
    };
    if count < f {
        count
    } else {
        f
    }
}

/// The octant at `o` (see [`octant_is`]); `None` when it cannot be read
/// (see [`octant_ok`]).
fn read_octant(d: &[u8], o: usize) -> (r: Option<OctantData>)
    requires
        0 < o,
        o + 4 <= d@.len(),
    ensures
        match r {
            Some(oct) => octant_ok(d@, o as int) && octant_is(oct, d@, o as int),
            None => !octant_ok(d@, o as int),
        },
{
    let dlen = d.len();
    let fc = r_u16(d, o) as usize;
    let vc = d[o + 2] as usize;
    let qc = d[o + 3] as usize;
    let ghost l = octant_layout(d@, o as int);
    let nv = fit(dlen, o + 4, vc, 4);
    assert(o + 4 + 4 * nv <= dlen) by (nonlinear_arith)
        requires
            nv <= (dlen - (o + 4)) / 4,
            o + 4 <= dlen,
    ;
    let mut vertices: Vec<(i32, i32, i32)> = Vec::new();
    let mut i: usize = 0;
    while i < nv
        invariant
            dlen == d@.len(),
            o + 4 + 4 * nv <= dlen,
            i <= nv,
            vertices@.len() == i,
            forall|k: int|
                0 <= k < i ==> {
                    let v = coll_vertex(le_u32(d@, o + 4 + 4 * k));
                    &&& (#[trigger] vertices@[k]).0 == v.0
                    &&& vertices@[k].1 == v.1
                    &&& vertices@[k].2 == v.2
                },
        decreases nv - i,
    {
        let v = r_u32(d, o + 4 + 4 * i);
        vertices.push(decode_vertex(v));
        i += 1;
    }
    let f0 = o + 4 + 4 * nv;
    let nf = fit(dlen, f0, fc, 4);
    assert(f0 + 4 * nf <= dlen) by (nonlinear_arith)
        requires
            nf <= (dlen - f0) / 4,
            f0 <= dlen,
    ;
    let q0 = f0 + 4 * nf;
    let qmax = if qc < fc {
        qc
    } else {
        fc
    };
    let nq = fit(dlen, q0, qmax, 1);
    assert(l == (nv as int, f0 as int, nf as int, q0 as int, nq as int));
    if nq > nf {
        return None;
    }
    let mut faces: Vec<CollFace> = Vec::new();
    let mut j: usize = 0;
    while j < nf
        invariant
            dlen == d@.len(),
            f0 + 4 * nf <= dlen,
            q0 == f0 + 4 * nf,
            q0 + nq <= dlen,
            nq <= nf,
            j <= nf,
            faces@.len() == j,
            forall|k: int|
                0 <= k < j ==> {
                    let f = #[trigger] faces@[k];
                    &&& f.v0 == d@[f0 + 4 * k]
                    &&& f.v1 == d@[f0 + 4 * k + 1]
                    &&& f.v2 == d@[f0 + 4 * k + 2]
                    &&& f.material == d@[f0 + 4 * k + 3]
                    &&& f.is_quad == (k < nq)
                    &&& f.v3 == (if k < nq {
                        d@[q0 + k]
                    } else {
                        0u8
                    })
                },
        decreases nf - j,
    {
        let b = f0 + 4 * j;
        let quad = j < nq;
        let v3 = if quad {
            d[q0 + j]
        } else {
            0
        };
        faces.push(CollFace { v0: d[b], v1: d[b + 1], v2: d[b + 2], v3, is_quad: quad, material: d[b + 3] });
        j += 1;
    }
    Some(OctantData { vertices, faces })
}

/// The little-endian u32 at `i`, bytes past the end read as 0.
fn get_u32_at(d: &[u8], i: u128) -> (r: u32)
    requires
        i < 0x1_0000_0000_0000_0000_0000,
    ensures
        r == get_u32(d@, i as int),
{
    let n = d.len() as u128;
    let b0 = if i < n {
        d[i as usize] as u32
    } else {
        0
    };
    let b1 = if i + 1 < n {
        d[(i + 1) as usize] as u32
    } else {
        0
    };
    let b2 = if i + 2 < n {
        d[(i + 2) as usize] as u32
    } else {
        0
    };
    let b3 = if i + 3 < n {
        d[(i + 3) as usize] as u32
    } else {
        0
    };
    b0 + b1 * 0x100 + b2 * 0x1_0000 + b3 * 0x100_0000
}

/// A Y row: its base X coordinate and its octants.
pub struct YRow {
    pub coord: i32,
    pub octants: Vec<OctantData>,
}

/// A Z level: its base Y coordinate and its rows.
pub struct ZLevel {
    pub coord: i32,
    pub rows: Vec<YRow>,
}

/// The collision octree: its Z levels. The Z coordinate of level `z` is
/// the first level's base coordinate plus `z`.
pub struct CollisionMesh {
    pub levels: Vec<ZLevel>,
}

/// Offset of octant `x` of the row at `y`: the upper 24 bits of its word.
pub open spec fn oct_offset(d: Seq<u8>, y: int, x: int) -> int {
    get_u32(d, y + 4 + 4 * x) / 256
}

/// Offset of row `y` of the level at `z`.
pub open spec fn row_offset(d: Seq<u8>, z: int, y: int) -> int {
    get_u32(d, z + 4 + 4 * y)
}

/// Offset of Z level `z`: its 16-bit word times 4.
pub open spec fn level_offset(d: Seq<u8>, z: int) -> int {
    le_u16(d, 4 + 2 * z) * 4
}

/// A table at `o` that is absent: offset 0 or past the data.
pub open spec fn absent(d: Seq<u8>, o: int) -> bool {
    o == 0 || o + 4 > d.len()
}

pub open spec fn row_ok(d: Seq<u8>, y: int) -> bool {
    absent(d, y) || forall|x: int| 0 <= x < le_u16(d, y + 2) ==> #[trigger] octant_ok(d, oct_offset(d, y, x))
}

pub open spec fn row_is(r: YRow, d: Seq<u8>, y: int) -> bool {
    if absent(d, y) {
        r.coord == 0 && r.octants@.len() == 0
    } else {
        &&& r.coord == signed16(le_u16(d, y))
        &&& r.octants@.len() == le_u16(d, y + 2)
        &&& forall|x: int|
            0 <= x < r.octants@.len() ==> octant_is(#[trigger] r.octants@[x], d, oct_offset(d, y, x))
    }
}

pub open spec fn level_ok(d: Seq<u8>, z: int) -> bool {
    absent(d, z) || forall|y: int| 0 <= y < le_u16(d, z + 2) ==> #[trigger] row_ok(d, row_offset(d, z, y))
}

pub open spec fn level_is(l: ZLevel, d: Seq<u8>, z: int) -> bool {
    if absent(d, z) {
        l.coord == 0 && l.rows@.len() == 0
    } else {
        &&& l.coord == signed16(le_u16(d, z))
        &&& l.rows@.len() == le_u16(d, z + 2)
        &&& forall|y: int| 0 <= y < l.rows@.len() ==> row_is(#[trigger] l.rows@[y], d, row_offset(d, z, y))
    }
}

/// The octree can be read: it has its 4-byte head, and every octant of a
/// listed level can be read (see [`octant_ok`]).
pub open spec fn mesh_ok(d: Seq<u8>) -> bool {
    &&& 4 <= d.len()
    &&& 4 + 2 * le_u16(d, 2) > d.len() || forall|z: int|
        0 <= z < le_u16(d, 2) ==> #[trigger] level_ok(d, level_offset(d, z))
}

/// `m` is the octree in `d`: as many levels as the head counts, empty ones
/// when the level table does not fit.
pub open spec fn mesh_is(m: CollisionMesh, d: Seq<u8>) -> bool {
    &&& m.levels@.len() == le_u16(d, 2)
    &&& if 4 + 2 * le_u16(d, 2) > d.len() {
        forall|z: int|
            0 <= z < m.levels@.len() ==> (#[trigger] m.levels@[z]).coord == 0
                && m.levels@[z].rows@.len() == 0
    } else {
        forall|z: int|
            0 <= z < m.levels@.len() ==> level_is(#[trigger] m.levels@[z], d, level_offset(d, z))
    }
}

fn read_row(d: &[u8], y: usize) -> (r: Option<YRow>)
    ensures
        match r {
            Some(row) => row_ok(d@, y as int) && row_is(row, d@, y as int),
            None => !row_ok(d@, y as int),
        },
{
    if y == 0 || y > d.len() || d.len() - y < 4 {
        return Some(YRow { coord: 0, octants: Vec::new() });
    }
    let coord = r_s16(d, y) as i32;
    let n = r_u16(d, y + 2) as usize;
    let mut octants: Vec<OctantData> = Vec::new();
    let mut x: usize = 0;
    while x < n
        invariant
            !absent(d@, y as int),
            n == le_u16(d@, y + 2),
            x <= n,
            octants@.len() == x,
            forall|k: int| 0 <= k < x ==> #[trigger] octant_ok(d@, oct_offset(d@, y as int, k)),
            forall|k: int|
                0 <= k < x ==> octant_is(#[trigger] octants@[k], d@, oct_offset(d@, y as int, k)),
        decreases n - x,
    {
        let w = get_u32_at(d, y as u128 + 4 + 4 * x as u128);
        let o = (w / 256) as usize;
        assert(o == oct_offset(d@, y as int, x as int));
        if o == 0 || o > d.len() || d.len() - o < 4 {
            octants.push(OctantData { vertices: Vec::new(), faces: Vec::new() });
        } else {
            match read_octant(d, o) {
                Some(oct) => octants.push(oct),
                None => {
                    return None;
                },
            }
        }
        x += 1;
    }
    Some(YRow { coord, octants })
}

fn read_level(d: &[u8], z: usize) -> (r: Option<ZLevel>)
    ensures
        match r {
            Some(l) => level_ok(d@, z as int) && level_is(l, d@, z as int),
            None => !level_ok(d@, z as int),
        },
{
    if z == 0 || z > d.len() || d.len() - z < 4 {
        return Some(ZLevel { coord: 0, rows: Vec::new() });
    }
    let coord = r_s16(d, z) as i32;
    let n = r_u16(d, z + 2) as usize;
    let mut rows: Vec<YRow> = Vec::new();
    let mut y: usize = 0;
    while y < n
        invariant
            !absent(d@, z as int),
            n == le_u16(d@, z + 2),
            y <= n,
            rows@.len() == y,
            forall|k: int| 0 <= k < y ==> #[trigger] row_ok(d@, row_offset(d@, z as int, k)),
            forall|k: int| 0 <= k < y ==> row_is(#[trigger] rows@[k], d@, row_offset(d@, z as int, k)),
        decreases n - y,
    {
        let yo = get_u32_at(d, z as u128 + 4 + 4 * y as u128) as usize;
        assert(yo == row_offset(d@, z as int, y as int));
        match read_row(d, yo) {
            Some(row) => rows.push(row),
            None => {
                return None;
            },
        }
        y += 1;
    }
    Some(ZLevel { coord, rows })
}

/// The collision octree in `d` (see [`mesh_is`]); `None` when it cannot
/// be read (see [`mesh_ok`]).
pub fn read_collision_mesh(d: &[u8]) -> (r: Option<CollisionMesh>)
    ensures
        match r {
            Some(m) => mesh_ok(d@) && mesh_is(m, d@),
            None => !mesh_ok(d@),
        },
{
    if d.len() < 4 {
        return None;
    }
    let n = r_u16(d, 2) as usize;
    let mut levels: Vec<ZLevel> = Vec::new();
    if 4 + 2 * n > d.len() {
        let mut z: usize = 0;
        while z < n
            invariant
                z <= n,
                levels@.len() == z,
                forall|k: int| 0 <= k < z ==> (#[trigger] levels@[k]).coord == 0 && levels@[k].rows@.len() == 0,
            decreases n - z,
        {
            levels.push(ZLevel { coord: 0, rows: Vec::new() });
            z += 1;
        }
        return Some(CollisionMesh { levels });
    }
    let mut z: usize = 0;
    while z < n
        invariant
            4 + 2 * n <= d@.len(),
            n == le_u16(d@, 2),
            z <= n,
            levels@.len() == z,
            forall|k: int| 0 <= k < z ==> #[trigger] level_ok(d@, level_offset(d@, k)),
            forall|k: int| 0 <= k < z ==> level_is(#[trigger] levels@[k], d@, level_offset(d@, k)),
        decreases n - z,
    {
        let zo = r_u16(d, 4 + 2 * z) as usize * 4;
        assert(zo == level_offset(d@, z as int));
        match read_level(d, zo) {
            Some(l) => levels.push(l),
            None => {
                return None;
            },
        }
        z += 1;
    }
    Some(CollisionMesh { levels })
}

/// A hero collision group: vertices (in 1/64 units) and triangles.
pub struct HeroGroup {
    pub vertices: Vec<(u16, u16, u16)>,
    pub triangles: Vec<(u8, u8, u8)>,
}

/// Number of hero groups read: the leading count (when in 1..=1000), cut
/// where the next 16-byte group header would run past the data.
pub open spec fn hero_group_count(d: Seq<u8>) -> int {
    if d.len() < 4 {
        0
    } else {
        let c = signed32(le_u32(d, 0));
        if c <= 0 || c > 1000 {
            0
        } else {
            fit_count(d.len() as int, 0x10, c, 16)
        }
    }
}

/// `g` is hero group `i`: its header at 0x10 + 16 i gives the triangle and
/// vertex counts and the offset of its vertices (8 bytes each), which the
/// triangles (4 bytes each) follow; each list is cut at the end of the data.
pub open spec fn hero_group_is(g: HeroGroup, d: Seq<u8>, i: int) -> bool {
    let h = 0x10 + 16 * i;
    let tc = le_u16(d, h + 8);
    let vc = le_u16(d, h + 10);
    let off = le_u32(d, h + 12);
    let nv = fit_count(d.len() as int, off, vc, 8);
    let t0 = off + 8 * nv;
    let nt = fit_count(d.len() as int, t0, tc, 4);
    &&& g.vertices@.len() == nv
    &&& forall|k: int|
        0 <= k < nv ==> {
            let v = #[trigger] g.vertices@[k];
            &&& v.0 == le_u16(d, off + 8 * k)
            &&& v.1 == le_u16(d, off + 8 * k + 2)
            &&& v.2 == le_u16(d, off + 8 * k + 4)
        }
    &&& g.triangles@.len() == nt
    &&& forall|k: int|
        0 <= k < nt ==> {
            let t = #[trigger] g.triangles@[k];
            &&& t.0 == d[t0 + 4 * k]
            &&& t.1 == d[t0 + 4 * k + 1]
            &&& t.2 == d[t0 + 4 * k + 2]
        }
}

fn read_hero_group(d: &[u8], i: usize) -> (g: HeroGroup)
    requires
        0x10 + 16 * i + 16 <= d@.len(),
    ensures
        hero_group_is(g, d@, i as int),
{
    let dlen = d.len();
    let h = 0x10 + 16 * i;
    let tc = r_u16(d, h + 8) as usize;
    let vc = r_u16(d, h + 10) as usize;
    let off = r_u32(d, h + 12) as usize;
    let nv = fit(dlen, off, vc, 8);
    if nv > 0 {
        assert(off + 8 * nv <= dlen) by (nonlinear_arith)
            requires
                nv <= (dlen - off) / 8,
                off <= dlen,
        ;
    }
    let mut vertices: Vec<(u16, u16, u16)> = Vec::new();
    let mut k: usize = 0;
    while k < nv
        invariant
            dlen == d@.len(),
            nv > 0 ==> off + 8 * nv <= dlen,
            k <= nv,
            vertices@.len() == k,
            forall|j: int|
                0 <= j < k ==> {
                    let v = #[trigger] vertices@[j];
                    &&& v.0 == le_u16(d@, off + 8 * j)
                    &&& v.1 == le_u16(d@, off + 8 * j + 2)
                    &&& v.2 == le_u16(d@, off + 8 * j + 4)
                },
        decreases nv - k,
    {
        let p = off + 8 * k;
        vertices.push((r_u16(d, p), r_u16(d, p + 2), r_u16(d, p + 4)));
        k += 1;
    }
    let t0 = off as u128 + 8 * nv as u128;
    let nt = if t0 <= dlen as u128 {
        fit(dlen, t0 as usize, tc, 4)
    } else {
        0
    };
    assert(nt == fit_count(dlen as int, t0 as int, tc as int, 4));
    if nt > 0 {
        assert(t0 + 4 * nt <= dlen) by (nonlinear_arith)
            requires
                nt <= (dlen - t0) / 4,
                t0 <= dlen,
        ;
    }
    let mut triangles: Vec<(u8, u8, u8)> = Vec::new();
    let mut j: usize = 0;
    while j < nt
        invariant
            dlen == d@.len(),
            nt > 0 ==> t0 + 4 * nt <= dlen,
            j <= nt,
            triangles@.len() == j,
            forall|q: int|
                0 <= q < j ==> {
                    let t = #[trigger] triangles@[q];
                    &&& t.0 == d@[t0 + 4 * q]
                    &&& t.1 == d@[t0 + 4 * q + 1]
                    &&& t.2 == d@[t0 + 4 * q + 2]
                },
        decreases nt - j,
    {
        let p = t0 as usize + 4 * j;
        triangles.push((d[p], d[p + 1], d[p + 2]));
        j += 1;
    }
    HeroGroup { vertices, triangles }
}

/// The hero collision groups in `d` (see [`hero_group_count`] and
/// [`hero_group_is`]).
pub fn read_hero_collision_groups(d: &[u8]) -> (r: Vec<HeroGroup>)
    ensures
        r@.len() == hero_group_count(d@),
        forall|i: int| 0 <= i < r@.len() ==> hero_group_is(#[trigger] r@[i], d@, i),
{
    let mut r: Vec<HeroGroup> = Vec::new();
    if d.len() < 4 {
        return r;
    }
    let c = r_s32(d, 0);
    if c <= 0 || c > 1000 {
        return r;
    }
    let n = fit(d.len(), 0x10, c as usize, 16);
    assert(n > 0 ==> 0x10 + 16 * n <= d@.len()) by (nonlinear_arith)
        requires
            n <= (d@.len() - 0x10) / 16 || 0x10 > d@.len() && n == 0,
    ;
    let mut i: usize = 0;
    while i < n
        invariant
            n == hero_group_count(d@),
            n > 0 ==> 0x10 + 16 * n <= d@.len(),
            i <= n,
            r@.len() == i,
            forall|k: int| 0 <= k < i ==> hero_group_is(#[trigger] r@[k], d@, k),
        decreases n - i,
    {
        r.push(read_hero_group(d, i));
        i += 1;
    }
    r
}

/// Why a level's collision cannot be read.
#[derive(Debug, Clone, Copy, PartialEq, Eq, Structural)]
pub enum CollisionError {
    /// The core header's collision offset is 0, or its 8-byte header lies
    /// past the core data.
    NoCollisionData,
    /// The collision header's mesh offset is 0.
    InvalidMeshOffset,
    /// The mesh starts past the core data.
    MeshOutOfBounds,
    /// The octree cannot be read (see [`mesh_ok`]).
    Unreadable,
}

/// A level's collision: the octree and the hero groups.
pub struct LevelCollision {
    pub mesh: CollisionMesh,
    pub hero_groups: Vec<HeroGroup>,
}

/// Where a level's collision parts lie in its core data: `(mesh start,
/// mesh end, hero groups start or 0)`, or why there is none. The collision
/// offset is at 0x14 of the core index; the mesh and hero group offsets
/// (at the collision offset) are relative to it.
pub open spec fn collision_layout(ci: Seq<u8>, core: Seq<u8>) -> Result<(int, int, int), CollisionError> {
    let coll = usz(signed32(le_u32(ci, 0x14)));
    if coll == 0 || coll + 8 > core.len() {
        Err(CollisionError::NoCollisionData)
    } else {
        let mesh_rel = le_u32(core, coll);
        let hero_rel = le_u32(core, coll + 4);
        if mesh_rel == 0 {
            Err(CollisionError::InvalidMeshOffset)
        } else {
            let mesh = coll + mesh_rel;
            let hero = if hero_rel > 0 {
                coll + hero_rel
            } else {
                0
            };
            if mesh >= core.len() {
                Err(CollisionError::MeshOutOfBounds)
            } else {
                let end = if hero > mesh && hero < core.len() {
                    hero
                } else {
                    core.len() as int
                };
                Ok((mesh, end, hero))
            }
        }
    }
}

/// The collision of a level (see [`collision_layout`]): the octree between
/// the mesh start and the hero groups (or the end), and the hero groups
/// when they start inside the core data.
pub fn level_collision(ci: &[u8], core: &[u8]) -> (r: Result<LevelCollision, CollisionError>)
    requires
        ci@.len() >= 0x18,
    ensures
        match collision_layout(ci@, core@) {
            Err(e) => r matches Err(x) && x == e,
            Ok((mesh, end, hero)) => {
                let md = core@.subrange(mesh, end);
                if !mesh_ok(md) {
                    r matches Err(x) && x == CollisionError::Unreadable
                } else {
                    &&& r matches Ok(c) && mesh_is(c.mesh, md)
                    &&& r matches Ok(c) && (if hero > 0 && hero < core@.len() {
                        &&& c.hero_groups@.len() == hero_group_count(core@.subrange(hero, core@.len() as int))
                        &&& forall|i: int|
                            0 <= i < c.hero_groups@.len() ==> hero_group_is(
                                #[trigger] c.hero_groups@[i],
                                core@.subrange(hero, core@.len() as int),
                                i,
                            )
                    } else {
                        c.hero_groups@.len() == 0
                    })
                }
            },
        },
{
    let len = core.len() as u128;
    let coll = usz_of(r_s32(ci, 0x14)) as u128;
    if coll == 0 || coll + 8 > len {
        return Err(CollisionError::NoCollisionData);
    }
    let mesh_rel = r_u32(core, coll as usize) as u128;
    let hero_rel = r_u32(core, (coll + 4) as usize) as u128;
    if mesh_rel == 0 {
        return Err(CollisionError::InvalidMeshOffset);
    }
    let mesh = coll + mesh_rel;
    let hero = if hero_rel > 0 {
        coll + hero_rel
    } else {
        0
    };
    if mesh >= len {
        return Err(CollisionError::MeshOutOfBounds);
    }
    let end = if hero > mesh && hero < len {
        hero
    } else {
        len
    };
    let md = copy_range(core, mesh as usize, end as usize);
    let m = match read_collision_mesh(md.as_slice()) {
        Some(m) => m,
        None => {
            return Err(CollisionError::Unreadable);
        },
    };
    let hero_groups = if hero > 0 && hero < len {
        let hd = copy_range(core, hero as usize, core.len());
        read_hero_collision_groups(hd.as_slice())
    } else {
        Vec::new()
    };
    Ok(LevelCollision { mesh: m, hero_groups })
}


/// A packed collision vertex decodes to two's-complement coordinates in
/// their field ranges (X and Y 10 bits, Z 12 bits), and packing their low
/// bits back (X in bits 0..10, Y in 10..20, Z in 20..32) gives the stored
/// word.
pub proof fn lemma_coll_vertex_fields(v: int)
    requires
        0 <= v < 0x1_0000_0000,
    ensures
        -512 <= coll_vertex(v).0 < 512,
        -512 <= coll_vertex(v).1 < 512,
        -2048 <= coll_vertex(v).2 < 2048,
        coll_vertex(v).0 % 1024 + (coll_vertex(v).1 % 1024) * 1024 + (coll_vertex(v).2 % 4096)
            * 0x10_0000 == v,
{
    let x = v % 1024;
    let y = (v / 1024) % 1024;
    let z = v / 0x10_0000;
    assert(0 <= z < 4096);
    assert((v / 1024) / 1024 == z) by (nonlinear_arith)
        requires
            v >= 0,
            z == v / 0x10_0000,
    ;
    assert(v == x + 1024 * (v / 1024)) by (nonlinear_arith)
        requires
            x == v % 1024,
            v >= 0,
    ;
    assert(v / 1024 == y + 1024 * z) by (nonlinear_arith)
        requires
            y == (v / 1024) % 1024,
            (v / 1024) / 1024 == z,
            v >= 0,
    ;
    let (a, b, c) = coll_vertex(v);
    assert(a % 1024 == x) by {
        if x >= 512 {
            assert((x - 1024) % 1024 == x);
        }
    }
    assert(b % 1024 == y) by {
        if y >= 512 {
            assert((y - 1024) % 1024 == y);
        }
    }
    assert(c % 4096 == z) by {
        if z >= 2048 {
            assert((z - 4096) % 4096 == z);
        }
    }
}

} // verus!
