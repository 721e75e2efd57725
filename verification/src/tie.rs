//! Tie class meshes: the class header, its LOD 0 packet table, and the
//! triangle strips of each packet (vertices 48 bytes apart: a position of
//! three signed 16-bit values, then texture coordinates in VU 12.4 fixed
//! point), grouped into one mesh per texture.
//!
//! Positions are kept as the stored integers; the class scale (a float
//! stored as its bit pattern) turns them into game units.

use vstd::prelude::*;
use crate::common::{le_u16, le_u32, r_s16, r_u16, r_u32, signed16};
use crate::collision::fit_count;

verus! {

/// The class header (0x80 bytes): LOD packet table offsets and packet
/// counts, the LOD distances and the scale (float bit patterns), and the
/// vertex, triangle and strip counts of each LOD.
pub struct TieClassHeader {
    pub packets: [u32; 3],
    pub packet_count: [u8; 3],
    pub near_bits: u32,
    pub mid_bits: u32,
    pub far_bits: u32,
    pub scale_bits: u32,
    pub lods: [(i16, i16, i16); 3],
}

/// `h` is the class header at `ofs`.
pub open spec fn tie_header_is(h: TieClassHeader, d: Seq<u8>, ofs: int) -> bool {
    &&& h.packets[0] == le_u32(d, ofs)
    &&& h.packets[1] == le_u32(d, ofs + 4)
    &&& h.packets[2] == le_u32(d, ofs + 8)
    &&& h.packet_count[0] == d[ofs + 12]
    &&& h.packet_count[1] == d[ofs + 13]
    &&& h.packet_count[2] == d[ofs + 14]
    &&& h.near_bits == le_u32(d, ofs + 16)
    &&& h.mid_bits == le_u32(d, ofs + 20)
    &&& h.far_bits == le_u32(d, ofs + 24)
    &&& h.scale_bits == le_u32(d, ofs + 0x60)
    &&& forall|k: int|
        0 <= k < 3 ==> {
            &&& (#[trigger] h.lods[k]).0 == signed16(le_u16(d, ofs + 0x68 + 6 * k))
            &&& h.lods[k].1 == signed16(le_u16(d, ofs + 0x6a + 6 * k))
            &&& h.lods[k].2 == signed16(le_u16(d, ofs + 0x6c + 6 * k))
        }
}

/// The class header at `ofs`, or `None` when it runs past the data.
pub fn parse_tie_header(d: &[u8], ofs: usize) -> (r: Option<TieClassHeader>)
    ensures
        match r {
            Some(h) => ofs + 0x80 <= d@.len() && tie_header_is(h, d@, ofs as int),
            None => ofs + 0x80 > d@.len(),
        },
{
    if ofs > d.len() || d.len() - ofs < 0x80 {
        return None;
    }
    let lod0 = (r_s16(d, ofs + 0x68), r_s16(d, ofs + 0x6a), r_s16(d, ofs + 0x6c));
    let lod1 = (r_s16(d, ofs + 0x6e), r_s16(d, ofs + 0x70), r_s16(d, ofs + 0x72));
    let lod2 = (r_s16(d, ofs + 0x74), r_s16(d, ofs + 0x76), r_s16(d, ofs + 0x78));
    let h = TieClassHeader {
        packets: [r_u32(d, ofs), r_u32(d, ofs + 4), r_u32(d, ofs + 8)],
        packet_count: [d[ofs + 12], d[ofs + 13], d[ofs + 14]],
        near_bits: r_u32(d, ofs + 16),
        mid_bits: r_u32(d, ofs + 20),
        far_bits: r_u32(d, ofs + 24),
        scale_bits: r_u32(d, ofs + 0x60),
        lods: [lod0, lod1, lod2],
    };
    assert(h.lods[1] == lod1 && h.lods[2] == lod2 && h.lods[0] == lod0);
    Some(h)
}

/// A packet header (0x10 bytes).
pub struct TiePacketHeader {
    pub data_offset: u32,
    pub shader_count: u8,
    pub vert_offset: u8,
    pub vert_size: u8,
    pub rgba_count: u8,
    pub multipass_ofs: u8,
    pub scissor_ofs: u8,
    pub scissor_size: u8,
    pub multipass_type: u8,
}

/// The packet header at `ofs`, or `None` when it runs past the data.
pub fn parse_packet_header(d: &[u8], ofs: usize) -> (r: Option<TiePacketHeader>)
    ensures
        match r {
            Some(p) => {
                &&& ofs + 0x10 <= d@.len()
                &&& p.data_offset == le_u32(d@, ofs as int)
                &&& p.shader_count == d@[ofs + 4]
                &&& p.vert_offset == d@[ofs + 8]
                &&& p.vert_size == d@[ofs + 9]
                &&& p.rgba_count == d@[ofs + 10]
                &&& p.multipass_ofs == d@[ofs + 11]
                &&& p.scissor_ofs == d@[ofs + 12]
                &&& p.scissor_size == d@[ofs + 13]
                &&& p.multipass_type == d@[ofs + 14]
            },
            None => ofs + 0x10 > d@.len(),
        },
{
    if ofs > d.len() || d.len() - ofs < 0x10 {
        return None;
    }
    Some(
        TiePacketHeader {
            data_offset: r_u32(d, ofs),
            shader_count: d[ofs + 4],
            vert_offset: d[ofs + 8],
            vert_size: d[ofs + 9],
            rgba_count: d[ofs + 10],
            multipass_ofs: d[ofs + 11],
            scissor_ofs: d[ofs + 12],
            scissor_size: d[ofs + 13],
            multipass_type: d[ofs + 14],
        },
    )
}

/// A strip vertex: position and texture coordinates as stored.
#[derive(Debug, Clone, Copy, PartialEq, Eq, Structural)]
pub struct TieVertex {
    pub x: i16,
    pub y: i16,
    pub z: i16,
    pub s: u16,
    pub t: u16,
}

/// A triangle strip of at least three vertices, with its texture slot and winding.
pub struct TieStrip {
    pub tex: u8,
    pub winding: bool,
    pub vertices: Vec<TieVertex>,
}

/// Offset of strip header `k` of the packet at `pkt`.
pub open spec fn strip_hdr(pkt: int, k: int) -> int {
    pkt + 0x2c + 4 * k
}

/// Number of strip headers read from the packet at `pkt`.
pub open spec fn strip_count(d: Seq<u8>, pkt: int) -> int {
    fit_count(d.len() as int, pkt + 0x2c, d[pkt + 0x23] as int, 4)
}

/// First vertex byte of strip `k`: 16 bytes past its GIF tag.
pub open spec fn strip_vert0(d: Seq<u8>, pkt: int, k: int) -> int {
    pkt + (d[strip_hdr(pkt, k) + 2] + 1) * 16
}

/// Number of vertices read for strip `k` (48 bytes each, cut at the end).
pub open spec fn strip_len(d: Seq<u8>, pkt: int, k: int) -> int {
    fit_count(d.len() as int, strip_vert0(d, pkt, k), d[strip_hdr(pkt, k)] as int, 48)
}

/// The texture slot of strip `k`: its slot, or the last slot for strips
/// past them.
pub open spec fn strip_tex(slots: Seq<u8>, k: int) -> u8 {
    if k < slots.len() {
        slots[k]
    } else {
        slots[slots.len() - 1]
    }
}

/// Vertex `n` of the strip whose vertices start at `v0`.
pub open spec fn vertex_at(d: Seq<u8>, v0: int, n: int) -> TieVertex {
    let o = v0 + 48 * n;
    TieVertex {
        x: signed16(le_u16(d, o)) as i16,
        y: signed16(le_u16(d, o + 2)) as i16,
        z: signed16(le_u16(d, o + 4)) as i16,
        s: le_u16(d, o + 16) as u16,
        t: le_u16(d, o + 18) as u16,
    }
}

/// `s` is strip `k` of the packet at `pkt`.
pub open spec fn strip_is(s: TieStrip, d: Seq<u8>, pkt: int, k: int, slots: Seq<u8>) -> bool {
    &&& s.tex == strip_tex(slots, k)
    &&& s.winding == (d[strip_hdr(pkt, k) + 3] != 0)
    &&& s.vertices@.len() == strip_len(d, pkt, k)
    &&& forall|n: int|
        0 <= n < s.vertices@.len() ==> #[trigger] s.vertices@[n] == vertex_at(
            d,
            strip_vert0(d, pkt, k),
            n,
        )
}

/// The strips among the first `m` of the packet at `pkt` that have at
/// least three vertices.
pub open spec fn packet_strips(d: Seq<u8>, pkt: int, m: nat) -> Seq<int>
    decreases m,
{
    if m == 0 {
        Seq::empty()
    } else if strip_len(d, pkt, m - 1) >= 3 {
        packet_strips(d, pkt, (m - 1) as nat).push(m - 1)
    } else {
        packet_strips(d, pkt, (m - 1) as nat)
    }
}

/// The strips of the packet at `pkt`: none when its 0x30-byte header runs
/// past the data.
pub open spec fn packet_strip_list(d: Seq<u8>, pkt: int) -> Seq<int> {
    if pkt + 0x30 > d.len() {
        Seq::empty()
    } else {
        packet_strips(d, pkt, strip_count(d, pkt) as nat)
    }
}

fn read_vertex(d: &[u8], o: usize) -> (v: TieVertex)
    requires
        o + 48 <= d@.len(),
    ensures
        v == vertex_at(d@, o as int, 0),
{
    let _len = d.len();
    TieVertex {
        x: r_s16(d, o),
        y: r_s16(d, o + 2),
        z: r_s16(d, o + 4),
        s: r_u16(d, o + 16),
        t: r_u16(d, o + 18),
    }
}

fn fit(len: usize, ofs: u128, count: u64, size: u64) -> (r: u64)
    requires
        size > 0,
    ensures
        r == fit_count(len as int, ofs as int, count as int, size as int),
{
    let f: u64 = if ofs <= len as u128 {
        ((len as u128 - ofs) / size as u128) as u64
    } else {
        0
    };
    if count < f {
        count
    } else {
        f
    }
}

/// The strips of the packet at `pkt` with at least three vertices (see
/// [`packet_strip_list`]), each with its texture slot from `slots`.
pub fn parse_tie_packet(d: &[u8], pkt: usize, slots: &Vec<u8>) -> (r: Vec<TieStrip>)
    requires
        slots@.len() > 0,
    ensures
        r@.len() == packet_strip_list(d@, pkt as int).len(),
        forall|j: int|
            0 <= j < r@.len() ==> strip_is(
                #[trigger] r@[j],
                d@,
                pkt as int,
                packet_strip_list(d@, pkt as int)[j],
                slots@,
            ) && 3 <= r@[j].vertices@.len() <= 255,
{
    let dlen = d.len();
    let mut r: Vec<TieStrip> = Vec::new();
    if pkt > dlen || dlen - pkt < 0x30 {
        return r;
    }
    let sc = fit(dlen, pkt as u128 + 0x2c, d[pkt + 0x23] as u64, 4);
    assert(sc == strip_count(d@, pkt as int));
    if sc > 0 {
        assert(pkt + 0x2c + 4 * sc <= dlen) by (nonlinear_arith)
            requires
                sc <= (dlen - (pkt + 0x2c)) / 4,
                pkt + 0x2c <= dlen,
        ;
    }
    let mut k: u64 = 0;
    while k < sc
        invariant
            dlen == d@.len(),
            slots@.len() > 0,
            pkt + 0x30 <= dlen,
            sc == strip_count(d@, pkt as int),
            sc > 0 ==> pkt + 0x2c + 4 * sc <= dlen,
            k <= sc,
            r@.len() == packet_strips(d@, pkt as int, k as nat).len(),
            forall|j: int|
                0 <= j < r@.len() ==> strip_is(
                    #[trigger] r@[j],
                    d@,
                    pkt as int,
                    packet_strips(d@, pkt as int, k as nat)[j],
                    slots@,
                ) && 3 <= r@[j].vertices@.len() <= 255,
        decreases sc - k,
    {
        let ghost prev = packet_strips(d@, pkt as int, k as nat);
        let so = pkt + 0x2c + 4 * (k as usize);
        let vc = d[so] as u64;
        let gif = d[so + 2] as u64;
        let winding = d[so + 3] != 0;
        let v0 = pkt as u128 + (gif as u128 + 1) * 16;
        let nv = fit(dlen, v0, vc, 48);
        assert(nv == strip_len(d@, pkt as int, k as int));
        if nv >= 3 {
            assert(v0 + 48 * nv <= dlen) by (nonlinear_arith)
                requires
                    nv <= (dlen - v0) / 48,
                    v0 <= dlen,
            ;
            let mut vertices: Vec<TieVertex> = Vec::new();
            let mut n: u64 = 0;
            while n < nv
                invariant
                    dlen == d@.len(),
                    v0 == strip_vert0(d@, pkt as int, k as int),
                    v0 + 48 * nv <= dlen,
                    n <= nv,
                    nv <= 255,
                    vertices@.len() == n,
                    forall|q: int| 0 <= q < n ==> #[trigger] vertices@[q] == vertex_at(d@, v0 as int, q),
                decreases nv - n,
            {
                let vt = read_vertex(d, (v0 + 48 * n as u128) as usize);
                assert(vertex_at(d@, (v0 + 48 * n) as int, 0) == vertex_at(d@, v0 as int, n as int));
                vertices.push(vt);
                n += 1;
            }
            let tex = if (k as usize) < slots.len() {
                slots[k as usize]
            } else {
                slots[slots.len() - 1]
            };
            let ghost old_r = r@;
            let s = TieStrip { tex, winding, vertices };
            assert(strip_is(s, d@, pkt as int, k as int, slots@));
            r.push(s);
            assert(packet_strips(d@, pkt as int, (k + 1) as nat) =~= prev.push(k as int));
            assert(forall|j: int| 0 <= j < old_r.len() ==> r@[j] == old_r[j]);
        } else {
            assert(packet_strips(d@, pkt as int, (k + 1) as nat) =~= prev);
        }
        k += 1;
    }
    r
}

/// The bytes of `tex` other than 0xFF, in order.
pub open spec fn slots_of(tex: Seq<u8>) -> Seq<u8>
    decreases tex.len(),
{
    if tex.len() == 0 {
        Seq::empty()
    } else if tex.last() != 0xFFu8 {
        slots_of(tex.drop_last()).push(tex.last())
    } else {
        slots_of(tex.drop_last())
    }
}

/// The texture slots of a tie class entry: its texture bytes without the
/// 0xFF (unused) ones.
pub fn tie_tex_slots(tex: &[u8]) -> (r: Vec<u8>)
    ensures
        r@ == slots_of(tex@),
{
    let mut r: Vec<u8> = Vec::new();
    let mut i: usize = 0;
    while i < tex.len()
        invariant
            i <= tex@.len(),
            r@ == slots_of(tex@.subrange(0, i as int)),
        decreases tex@.len() - i,
    {
        proof {
            assert(tex@.subrange(0, i + 1).drop_last() == tex@.subrange(0, i as int));
        }
        if tex[i] != 0xFF {
            r.push(tex[i]);
        }
        i += 1;
    }
    assert(tex@.subrange(0, tex@.len() as int) =~= tex@);
    r
}

/// A tie class: its header and the strips of its LOD 0 packets, in order.
pub struct TieClass {
    pub header: TieClassHeader,
    pub strips: Vec<TieStrip>,
}

/// Start of LOD 0 packet `p` of the class whose packet table is at `lod`.
pub open spec fn packet_at(d: Seq<u8>, lod: int, p: int) -> int {
    lod + le_u32(d, lod + 16 * p)
}

/// The (packet start, strip) pairs of the first `n` packets.
pub open spec fn class_strips(d: Seq<u8>, lod: int, n: nat) -> Seq<(int, int)>
    decreases n,
{
    if n == 0 {
        Seq::empty()
    } else {
        let pkt = packet_at(d, lod, n - 1);
        class_strips(d, lod, (n - 1) as nat) + packet_strip_list(d, pkt).map_values(|k: int| (pkt, k))
    }
}

/// The slots a class's strips take their textures from: the given ones,
/// or a single 0xFF when there are none.
pub open spec fn class_slots(slots: Seq<u8>) -> Seq<u8> {
    if slots.len() == 0 {
        seq![0xFFu8]
    } else {
        slots
    }
}

/// The class at `base` has a readable LOD 0 packet table: its header is in
/// the data, LOD 0 has packets, and its table is in the data.
pub open spec fn tie_class_ok(d: Seq<u8>, base: int) -> bool {
    let pc = d[base + 12] as int;
    &&& base + 0x80 <= d.len()
    &&& pc > 0
    &&& base + le_u32(d, base) + 16 * pc <= d.len()
}

/// The tie class at `base` (LOD 0 only), or `None` when it has no readable
/// LOD 0 packet table (see [`tie_class_ok`]).
pub fn parse_tie_class(d: &[u8], base: usize, slots: &[u8]) -> (r: Option<TieClass>)
    ensures
        match r {
            None => !tie_class_ok(d@, base as int),
            Some(c) => {
                let lod = base + le_u32(d@, base as int);
                let keys = class_strips(d@, lod, d@[base + 12] as nat);
                &&& tie_class_ok(d@, base as int)
                &&& tie_header_is(c.header, d@, base as int)
                &&& c.strips@.len() == keys.len()
                &&& forall|j: int|
                    0 <= j < c.strips@.len() ==> strip_is(
                        #[trigger] c.strips@[j],
                        d@,
                        keys[j].0,
                        keys[j].1,
                        class_slots(slots@),
                    ) && 3 <= c.strips@[j].vertices@.len() <= 255
                &&& strips_bounded(c.strips@)
            },
        },
{
    let dlen = d.len();
    let header = match parse_tie_header(d, base) {
        Some(h) => h,
        None => {
            return None;
        },
    };
    let pc = header.packet_count[0] as u64;
    if pc == 0 {
        return None;
    }
    let lod = base as u128 + header.packets[0] as u128;
    if lod + 16 * pc as u128 > dlen as u128 {
        return None;
    }
    let tex: Vec<u8> = if slots.len() == 0 {
        vec![0xFFu8]
    } else {
        crate::wad::copy_range(slots, 0, slots.len())
    };
    assert(tex@ =~= class_slots(slots@));
    let mut strips: Vec<TieStrip> = Vec::new();
    let mut p: u64 = 0;
    while p < pc
        invariant
            dlen == d@.len(),
            tex@ == class_slots(slots@),
            tex@.len() > 0,
            pc == d@[base + 12],
            lod == base + le_u32(d@, base as int),
            lod + 16 * pc <= dlen,
            p <= pc,
            pc <= 255,
            strips@.len() == class_strips(d@, lod as int, p as nat).len(),
            strips@.len() <= 255 * p,
            forall|j: int|
                0 <= j < strips@.len() ==> strip_is(
                    #[trigger] strips@[j],
                    d@,
                    class_strips(d@, lod as int, p as nat)[j].0,
                    class_strips(d@, lod as int, p as nat)[j].1,
                    tex@,
                ) && 3 <= strips@[j].vertices@.len() <= 255,
        decreases pc - p,
    {
        let ghost prev = class_strips(d@, lod as int, p as nat);
        let ph = match parse_packet_header(d, (lod + 16 * p as u128) as usize) {
            Some(ph) => ph,
            None => {
                return None;
            },
        };
        let pkt128 = lod + ph.data_offset as u128;
        let ghost pkt = packet_at(d@, lod as int, p as int);
        assert(pkt128 == pkt);
        let ps: Vec<TieStrip> = if pkt128 + 0x30 <= dlen as u128 {
            parse_tie_packet(d, pkt128 as usize, &tex)
        } else {
            Vec::new()
        };
        let ghost added = packet_strip_list(d@, pkt).map_values(|k: int| (pkt, k));
        assert(ps@.len() == added.len());
        assert(ps@.len() <= 255) by {
            if pkt + 0x30 <= dlen {
                assert(strip_count(d@, pkt) <= 255);
                lemma_packet_strips_len(d@, pkt, strip_count(d@, pkt) as nat);
            }
        }
        let ghost old_s = strips@;
        assert(forall|j: int|
            0 <= j < old_s.len() ==> strip_is(#[trigger] old_s[j], d@, prev[j].0, prev[j].1, tex@)
                && 3 <= old_s[j].vertices@.len() <= 255);
        let mut q: usize = 0;
        let mut ps = ps;
        let ghost ps_all = ps@;
        let np = ps.len();
        while q < np
            invariant
                np == ps_all.len(),
                np <= 255,
                q <= ps_all.len(),
                forall|j: int|
                    0 <= j < old_s.len() ==> strip_is(#[trigger] old_s[j], d@, prev[j].0, prev[j].1, tex@)
                        && 3 <= old_s[j].vertices@.len() <= 255,
                ps_all.len() == added.len(),
                ps@ == ps_all.subrange(q as int, ps_all.len() as int),
                forall|j: int|
                    0 <= j < ps_all.len() ==> strip_is(
                        #[trigger] ps_all[j],
                        d@,
                        added[j].0,
                        added[j].1,
                        tex@,
                    ) && 3 <= ps_all[j].vertices@.len() <= 255,
                strips@.len() == old_s.len() + q,
                forall|j: int| 0 <= j < old_s.len() ==> strips@[j] == old_s[j],
                forall|j: int| 0 <= j < q ==> strips@[old_s.len() + j] == ps_all[j],
            decreases ps_all.len() - q,
        {
            let s = ps.remove(0);
            assert(s == ps_all[q as int]);
            strips.push(s);
            assert(ps@ =~= ps_all.subrange(q + 1, ps_all.len() as int));
            q += 1;
        }
        assert(class_strips(d@, lod as int, (p + 1) as nat) == prev + added);
        assert forall|j: int|
            0 <= j < strips@.len() implies strip_is(
                #[trigger] strips@[j],
                d@,
                class_strips(d@, lod as int, (p + 1) as nat)[j].0,
                class_strips(d@, lod as int, (p + 1) as nat)[j].1,
                tex@,
            ) && 3 <= strips@[j].vertices@.len() <= 255 by {
            if j >= old_s.len() {
                assert(strips@[j] == ps_all[j - old_s.len()]);
                assert((prev + added)[j] == added[j - old_s.len()]);
            } else {
                assert(strips@[j] == old_s[j]);
                assert((prev + added)[j] == prev[j]);
            }
        }
        p += 1;
    }
    Some(TieClass { header, strips })
}

proof fn lemma_packet_strips_len(d: Seq<u8>, pkt: int, m: nat)
    ensures
        packet_strips(d, pkt, m).len() <= m,
    decreases m,
{
    if m > 0 {
        lemma_packet_strips_len(d, pkt, (m - 1) as nat);
    }
}

/// Sort key of the material name of slot `t` ("tie_tex_" and `t` in
/// decimal): the name's digits in order, a missing digit before every
/// digit, so that keys order like the names do as text.
pub open spec fn name_key(t: int) -> int {
    if t < 10 {
        t * 121
    } else if t < 100 {
        (t / 10) * 121 + (t % 10 + 1) * 11
    } else {
        (t / 100) * 121 + ((t / 10) % 10 + 1) * 11 + (t % 10 + 1)
    }
}

/// The slot whose name has key `k`, if one does.
pub open spec fn key_slot(k: int) -> Option<int> {
    let d1 = k / 121;
    let e2 = (k % 121) / 11;
    let e3 = k % 11;
    if k < 0 || d1 > 9 {
        None
    } else if e2 == 0 {
        if e3 == 0 {
            Some(d1)
        } else {
            None
        }
    } else if d1 == 0 {
        None
    } else if e3 == 0 {
        Some(d1 * 10 + e2 - 1)
    } else if d1 * 100 + (e2 - 1) * 10 + e3 - 1 <= 255 {
        Some(d1 * 100 + (e2 - 1) * 10 + e3 - 1)
    } else {
        None
    }
}

/// Every slot's key leads back to it.
pub proof fn lemma_name_key(t: int)
    requires
        0 <= t <= 255,
    ensures
        0 <= name_key(t) < 1210,
        key_slot(name_key(t)) == Some(t),
{
    let k = name_key(t);
    if t < 10 {
        assert(k == t * 121);
        assert(k / 121 == t && k % 121 == 0) by (nonlinear_arith)
            requires
                k == t * 121,
                0 <= t < 10,
        ;
    } else if t < 100 {
        let a = t / 10;
        let b = t % 10;
        assert(1 <= a <= 9 && 0 <= b <= 9 && t == 10 * a + b);
        assert(k == a * 121 + (b + 1) * 11);
        assert(k / 121 == a && k % 121 == (b + 1) * 11) by (nonlinear_arith)
            requires
                k == a * 121 + (b + 1) * 11,
                1 <= a <= 9,
                0 <= b <= 9,
        ;
        assert(((b + 1) * 11) / 11 == b + 1 && ((b + 1) * 11) % 11 == 0) by (nonlinear_arith)
            requires
                0 <= b <= 9,
        ;
        assert(k % 11 == 0) by (nonlinear_arith)
            requires
                k == a * 121 + (b + 1) * 11,
        ;
    } else {
        let a = t / 100;
        let b = (t / 10) % 10;
        let c = t % 10;
        assert(1 <= a <= 2 && 0 <= b <= 9 && 0 <= c <= 9 && t == 100 * a + 10 * b + c);
        assert(k == a * 121 + (b + 1) * 11 + (c + 1));
        assert(k / 121 == a && k % 121 == (b + 1) * 11 + (c + 1)) by (nonlinear_arith)
            requires
                k == a * 121 + (b + 1) * 11 + (c + 1),
                1 <= a <= 2,
                0 <= b <= 9,
                0 <= c <= 9,
        ;
        let r = (b + 1) * 11 + (c + 1);
        assert(r / 11 == b + 1 && r % 11 == c + 1) by (nonlinear_arith)
            requires
                r == (b + 1) * 11 + (c + 1),
                0 <= b <= 9,
                0 <= c <= 9,
        ;
        assert(k % 11 == c + 1) by (nonlinear_arith)
            requires
                k == a * 121 + r,
                r % 11 == c + 1,
                r == (b + 1) * 11 + (c + 1),
        ;
    }
}

fn slot_of_key(k: u32) -> (r: Option<u8>)
    requires
        k < 1210,
    ensures
        match key_slot(k as int) {
            Some(t) => r == Some(t as u8),
            None => r is None,
        },
{
    let d1 = k / 121;
    let e2 = (k % 121) / 11;
    let e3 = k % 11;
    if e2 == 0 {
        if e3 == 0 {
            Some(d1 as u8)
        } else {
            None
        }
    } else if d1 == 0 {
        None
    } else if e3 == 0 {
        Some((d1 * 10 + e2 - 1) as u8)
    } else if d1 * 100 + (e2 - 1) * 10 + e3 - 1 <= 255 {
        Some((d1 * 100 + (e2 - 1) * 10 + e3 - 1) as u8)
    } else {
        None
    }
}

/// The positions among the first `n` strips of those with slot `t`.
pub open spec fn slot_strips(strips: Seq<TieStrip>, t: int, n: nat) -> Seq<int>
    decreases n,
{
    if n == 0 || n > strips.len() {
        Seq::empty()
    } else if strips[n - 1].tex == t {
        slot_strips(strips, t, (n - 1) as nat).push(n - 1)
    } else {
        slot_strips(strips, t, (n - 1) as nat)
    }
}

/// The vertices of the strips at `idx`, one after the other.
pub open spec fn strip_vertices(strips: Seq<TieStrip>, idx: Seq<int>) -> Seq<TieVertex>
    decreases idx.len(),
{
    if idx.len() == 0 {
        Seq::empty()
    } else {
        strip_vertices(strips, idx.drop_last()) + strips[idx.last()].vertices@
    }
}

/// Triangle `i` (from 2) of a strip whose vertices start at `base`: the
/// winding alternates, starting forward on even or odd `i` by the strip's
/// winding flag.
pub open spec fn strip_tri(i: int, winding: bool, base: int) -> (int, int, int) {
    if i % 2 == (if winding {
        0int
    } else {
        1
    }) {
        (base + i - 2, base + i - 1, base + i)
    } else {
        (base + i, base + i - 1, base + i - 2)
    }
}

/// The triangles of the strips at `idx`, each strip's indices offset by
/// the vertices before it.
pub open spec fn strip_triangles(strips: Seq<TieStrip>, idx: Seq<int>) -> Seq<(int, int, int)>
    decreases idx.len(),
{
    if idx.len() == 0 {
        Seq::empty()
    } else {
        let s = strips[idx.last()];
        let base = strip_vertices(strips, idx.drop_last()).len() as int;
        let n = s.vertices@.len() as int;
        strip_triangles(strips, idx.drop_last()) + Seq::new(
            (n - 2) as nat,
            |i: int| strip_tri(i + 2, s.winding, base),
        )
    }
}

/// The slots (in name order) among keys `0..m` that some strip uses.
pub open spec fn material_slots(strips: Seq<TieStrip>, m: nat) -> Seq<int>
    decreases m,
{
    if m == 0 {
        Seq::empty()
    } else {
        let prev = material_slots(strips, (m - 1) as nat);
        match key_slot(m - 1) {
            Some(t) => if slot_strips(strips, t, strips.len()).len() > 0 {
                prev.push(t)
            } else {
                prev
            },
            None => prev,
        }
    }
}

/// The mesh of one texture slot: its strips' vertices and triangles.
pub struct TieMaterial {
    pub tex: u8,
    pub vertices: Vec<TieVertex>,
    pub triangles: Vec<(u32, u32, u32)>,
}

pub open spec fn tri_ints(v: Seq<(u32, u32, u32)>) -> Seq<(int, int, int)> {
    v.map_values(|t: (u32, u32, u32)| (t.0 as int, t.1 as int, t.2 as int))
}

/// `m` is the mesh of slot `t`.
pub open spec fn material_is(m: TieMaterial, strips: Seq<TieStrip>, t: int) -> bool {
    let idx = slot_strips(strips, t, strips.len());
    &&& m.tex == t
    &&& m.vertices@ == strip_vertices(strips, idx)
    &&& tri_ints(m.triangles@) == strip_triangles(strips, idx)
}

/// Strips of at most 255 vertices, at least three each, few enough that
/// every vertex index fits in 32 bits.
pub open spec fn strips_bounded(strips: Seq<TieStrip>) -> bool {
    &&& strips.len() <= 255 * 255
    &&& forall|j: int|
        0 <= j < strips.len() ==> 3 <= (#[trigger] strips[j]).vertices@.len() <= 255
}

proof fn lemma_strip_vertices_len(strips: Seq<TieStrip>, idx: Seq<int>)
    requires
        strips_bounded(strips),
        forall|j: int| 0 <= j < idx.len() ==> 0 <= #[trigger] idx[j] < strips.len(),
    ensures
        strip_vertices(strips, idx).len() <= 255 * idx.len(),
    decreases idx.len(),
{
    if idx.len() > 0 {
        lemma_strip_vertices_len(strips, idx.drop_last());
        assert(strips[idx.last()].vertices@.len() <= 255);
    }
}

proof fn lemma_slot_strips(strips: Seq<TieStrip>, t: int, n: nat)
    requires
        n <= strips.len(),
    ensures
        slot_strips(strips, t, n).len() <= n,
        forall|j: int|
            0 <= j < slot_strips(strips, t, n).len() ==> 0 <= #[trigger] slot_strips(strips, t, n)[j]
                < n,
    decreases n,
{
    if n > 0 {
        lemma_slot_strips(strips, t, (n - 1) as nat);
    }
}

/// The mesh of slot `t`.
fn build_material(strips: &Vec<TieStrip>, t: u8) -> (m: TieMaterial)
    requires
        strips_bounded(strips@),
    ensures
        material_is(m, strips@, t as int),
{
    let mut vertices: Vec<TieVertex> = Vec::new();
    let mut triangles: Vec<(u32, u32, u32)> = Vec::new();
    let mut j: usize = 0;
    while j < strips.len()
        invariant
            strips_bounded(strips@),
            j <= strips@.len(),
            vertices@ == strip_vertices(strips@, slot_strips(strips@, t as int, j as nat)),
            tri_ints(triangles@) == strip_triangles(strips@, slot_strips(strips@, t as int, j as nat)),
            vertices@.len() <= 255 * j,
        decreases strips@.len() - j,
    {
        let ghost idx = slot_strips(strips@, t as int, j as nat);
        proof {
            lemma_slot_strips(strips@, t as int, j as nat);
        }
        let s = &strips[j];
        if s.tex == t {
            assert(slot_strips(strips@, t as int, (j + 1) as nat) == idx.push(j as int));
            assert(idx.push(j as int).drop_last() == idx);
            let base = vertices.len() as u32;
            let n = s.vertices.len();
            assert(3 <= n <= 255);
            let ghost v_before = vertices@;
            let mut q: usize = 0;
            while q < n
                invariant
                    n == s.vertices@.len(),
                    q <= n,
                    vertices@ == v_before + s.vertices@.subrange(0, q as int),
                decreases n - q,
            {
                vertices.push(s.vertices[q]);
                assert(s.vertices@.subrange(0, q + 1) == s.vertices@.subrange(0, q as int).push(
                    s.vertices@[q as int],
                ));
                q += 1;
            }
            assert(s.vertices@.subrange(0, n as int) == s.vertices@);
            let ghost t_before = tri_ints(triangles@);
            let mut i: usize = 2;
            while i < n
                invariant
                    3 <= n <= 255,
                    2 <= i <= n,
                    base as int + 255 <= 0xFFFF_FFFF,
                    tri_ints(triangles@) == t_before + Seq::new(
                        (i - 2) as nat,
                        |k: int| strip_tri(k + 2, s.winding, base as int),
                    ),
                decreases n - i,
            {
                let iu = i as u32;
                let tri = if i % 2 == (if s.winding {
                    0
                } else {
                    1
                }) {
                    (base + iu - 2, base + iu - 1, base + iu)
                } else {
                    (base + iu, base + iu - 1, base + iu - 2)
                };
                let ghost old_t = triangles@;
                triangles.push(tri);
                assert(tri_ints(triangles@) =~= tri_ints(old_t).push((tri.0 as int, tri.1 as int, tri.2 as int)));
                assert(tri_ints(triangles@) =~= t_before + Seq::new(
                    (i + 1 - 2) as nat,
                    |k: int| strip_tri(k + 2, s.winding, base as int),
                ));
                i += 1;
            }
        } else {
            assert(slot_strips(strips@, t as int, (j + 1) as nat) == idx);
        }
        j += 1;
    }
    proof {
        lemma_slot_strips(strips@, t as int, strips@.len());
    }
    TieMaterial { tex: t, vertices, triangles }
}

/// One mesh per texture slot used by the strips, in the order of the
/// material names (see [`name_key`]).
pub fn tie_materials(strips: &Vec<TieStrip>) -> (r: Vec<TieMaterial>)
    requires
        strips_bounded(strips@),
    ensures
        r@.len() == material_slots(strips@, 1210).len(),
        forall|j: int|
            0 <= j < r@.len() ==> material_is(
                #[trigger] r@[j],
                strips@,
                material_slots(strips@, 1210)[j],
            ),
{
    let mut r: Vec<TieMaterial> = Vec::new();
    let mut k: u32 = 0;
    while k < 1210
        invariant
            strips_bounded(strips@),
            k <= 1210,
            r@.len() == material_slots(strips@, k as nat).len(),
            forall|j: int|
                0 <= j < r@.len() ==> material_is(
                    #[trigger] r@[j],
                    strips@,
                    material_slots(strips@, k as nat)[j],
                ),
        decreases 1210 - k,
    {
        let ghost prev = material_slots(strips@, k as nat);
        match slot_of_key(k) {
            Some(t) => {
                let m = build_material(strips, t);
                if m.vertices.len() > 0 {
                    proof {
                        if slot_strips(strips@, t as int, strips@.len()).len() == 0 {
                            assert(strip_vertices(strips@, slot_strips(strips@, t as int, strips@.len())).len() == 0);
                        }
                    }
                    let ghost old_r = r@;
                    r.push(m);
                    assert(material_slots(strips@, (k + 1) as nat) == prev.push(t as int));
                    assert(forall|j: int| 0 <= j < old_r.len() ==> r@[j] == old_r[j]);
                } else {
                    proof {
                        let idx = slot_strips(strips@, t as int, strips@.len());
                        if idx.len() > 0 {
                            lemma_slot_strips(strips@, t as int, strips@.len());
                            assert(strip_vertices(strips@, idx) == strip_vertices(strips@, idx.drop_last())
                                + strips@[idx.last()].vertices@);
                            assert(strips@[idx.last()].vertices@.len() >= 3);
                        }
                    }
                    assert(material_slots(strips@, (k + 1) as nat) == prev);
                }
            },
            None => {
                assert(material_slots(strips@, (k + 1) as nat) == prev);
            },
        }
        k += 1;
    }
    r
}


/// `t` is three consecutive vertices `m - 1`, `m`, `m + 1` (`m` its middle
/// corner) in one of the two windings.
pub open spec fn consecutive_tri(t: (int, int, int)) -> bool {
    (t.0 == t.1 - 1 && t.2 == t.1 + 1) || (t.0 == t.1 + 1 && t.2 == t.1 - 1)
}

/// The triangles of strips of at least three vertices each: every one is
/// three consecutive vertices, the first has middle vertex 1, the last has
/// middle vertex two before the end, and the middle vertex advances by 1
/// within a strip and by 3 across the two ends of a strip boundary.
proof fn lemma_strip_triangles_shape(strips: Seq<TieStrip>, idx: Seq<int>)
    requires
        forall|j: int| 0 <= j < idx.len() ==> 0 <= #[trigger] idx[j] < strips.len(),
        forall|j: int| 0 <= j < strips.len() ==> (#[trigger] strips[j]).vertices@.len() >= 3,
    ensures
        ({
            let ts = strip_triangles(strips, idx);
            let nv = strip_vertices(strips, idx).len() as int;
            &&& forall|k: int| 0 <= k < ts.len() ==> consecutive_tri(#[trigger] ts[k])
            &&& forall|k: int| 0 <= k < ts.len() ==> 1 <= (#[trigger] ts[k]).1 && ts[k].1 + 2 <= nv
            &&& (ts.len() == 0 <==> idx.len() == 0)
            &&& ts.len() > 0 ==> ts[0].1 == 1 && ts[ts.len() - 1].1 == nv - 2
            &&& forall|k: int|
                0 <= k < ts.len() - 1 ==> #[trigger] ts[k + 1].1 == ts[k].1 + 1 || ts[k + 1].1 == ts[k].1
                    + 3
            &&& idx.len() == 0 ==> nv == 0
            &&& ts.len() + 2 * idx.len() == nv
        }),
    decreases idx.len(),
{
    if idx.len() > 0 {
        let pre = idx.drop_last();
        assert forall|j: int| 0 <= j < pre.len() implies 0 <= #[trigger] pre[j] < strips.len() by {
            assert(pre[j] == idx[j]);
        }
        lemma_strip_triangles_shape(strips, pre);
        let s = strips[idx.last()];
        let base = strip_vertices(strips, pre).len() as int;
        let n = s.vertices@.len() as int;
        let old_ts = strip_triangles(strips, pre);
        let nw = Seq::new((n - 2) as nat, |i: int| strip_tri(i + 2, s.winding, base));
        let ts = strip_triangles(strips, idx);
        assert(ts == old_ts + nw);
        let nv = strip_vertices(strips, idx).len() as int;
        assert(nv == base + n);
        assert forall|i: int| 0 <= i < nw.len() implies (#[trigger] nw[i]).1 == base + i + 1 && consecutive_tri(
            nw[i],
        ) by {}
        assert forall|k: int| 0 <= k < ts.len() implies consecutive_tri(#[trigger] ts[k]) && 1 <= ts[k].1
            && ts[k].1 + 2 <= nv by {
            if k < old_ts.len() {
                assert(ts[k] == old_ts[k]);
            } else {
                assert(ts[k] == nw[k - old_ts.len()]);
            }
        }
        assert forall|k: int| 0 <= k < ts.len() - 1 implies #[trigger] ts[k + 1].1 == ts[k].1 + 1
            || ts[k + 1].1 == ts[k].1 + 3 by {
            if k + 1 < old_ts.len() {
                assert(ts[k] == old_ts[k]);
                assert(ts[k + 1] == old_ts[k + 1]);
            } else if k + 1 == old_ts.len() {
                assert(ts[k] == old_ts[k]);
                assert(ts[k + 1] == nw[0]);
            } else {
                assert(ts[k] == nw[k - old_ts.len()]);
                assert(ts[k + 1] == nw[k + 1 - old_ts.len()]);
            }
        }
        if old_ts.len() == 0 {
            assert(ts[0] == nw[0]);
        } else {
            assert(ts[0] == old_ts[0]);
        }
        assert(ts[ts.len() - 1] == nw[nw.len() - 1]);
    } else {
        assert(strip_vertices(strips, idx).len() == 0);
    }
}

/// Triangles of a texture slot's mesh are decoded as strips, not fans:
/// each is three consecutive vertices of the mesh in one of the two
/// windings; the first has middle vertex 1 and the last the vertex two
/// before the end; from one triangle to the next the middle vertex advances
/// by 1 (within a strip) or 3 (to the next strip); and there are two fewer
/// triangles than vertices per strip of the slot.
pub proof fn lemma_tie_material_strips(m: TieMaterial, strips: Seq<TieStrip>, t: int)
    requires
        strips_bounded(strips),
        material_is(m, strips, t),
    ensures
        ({
            let ts = m.triangles@;
            let nv = m.vertices@.len() as int;
            &&& forall|k: int|
                0 <= k < ts.len() ==> consecutive_tri(
                    ((#[trigger] ts[k]).0 as int, ts[k].1 as int, ts[k].2 as int),
                ) && 1 <= ts[k].1 && ts[k].1 + 2 <= nv
            &&& ts.len() > 0 ==> ts[0].1 == 1 && ts[ts.len() - 1].1 == nv - 2
            &&& forall|k: int|
                0 <= k < ts.len() - 1 ==> #[trigger] ts[k + 1].1 == ts[k].1 + 1 || ts[k + 1].1 == ts[k].1
                    + 3
            &&& ts.len() + 2 * slot_strips(strips, t, strips.len()).len() == nv
        }),
{
    let idx = slot_strips(strips, t, strips.len());
    lemma_slot_strips_in_range(strips, t, strips.len());
    lemma_strip_triangles_shape(strips, idx);
    let ti = tri_ints(m.triangles@);
    assert forall|k: int| 0 <= k < m.triangles@.len() implies #[trigger] ti[k] == (
        m.triangles@[k].0 as int,
        m.triangles@[k].1 as int,
        m.triangles@[k].2 as int,
    ) by {}
    assert forall|k: int| 0 <= k < m.triangles@.len() implies consecutive_tri(
        ((#[trigger] m.triangles@[k]).0 as int, m.triangles@[k].1 as int, m.triangles@[k].2 as int),
    ) && 1 <= m.triangles@[k].1 && m.triangles@[k].1 + 2 <= m.vertices@.len() by {
        assert(ti[k] == strip_triangles(strips, idx)[k]);
    }
    assert forall|k: int| 0 <= k < m.triangles@.len() - 1 implies #[trigger] m.triangles@[k + 1].1
        == m.triangles@[k].1 + 1 || m.triangles@[k + 1].1 == m.triangles@[k].1 + 3 by {
        assert(ti[k] == strip_triangles(strips, idx)[k]);
        assert(ti[k + 1] == strip_triangles(strips, idx)[k + 1]);
    }
    if m.triangles@.len() > 0 {
        assert(ti[0] == strip_triangles(strips, idx)[0]);
        assert(ti[ti.len() - 1] == strip_triangles(strips, idx)[ti.len() - 1]);
    }
}

/// The positions `slot_strips` gives are strip positions.
proof fn lemma_slot_strips_in_range(strips: Seq<TieStrip>, t: int, n: nat)
    ensures
        forall|j: int|
            0 <= j < slot_strips(strips, t, n).len() ==> 0 <= #[trigger] slot_strips(strips, t, n)[j]
                < strips.len(),
    decreases n,
{
    if n > 0 && n <= strips.len() {
        lemma_slot_strips_in_range(strips, t, (n - 1) as nat);
        let prev = slot_strips(strips, t, (n - 1) as nat);
        if strips[n - 1].tex == t {
            assert forall|j: int| 0 <= j < prev.push(n - 1).len() implies 0 <= #[trigger] prev.push(
                n - 1,
            )[j] < strips.len() by {
                if j < prev.len() {
                    assert(prev.push(n - 1)[j] == prev[j]);
                }
            }
        }
    }
}

} // verus!
