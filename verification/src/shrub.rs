//! Shrub classes: the packet table of a class, the UNPACKs of each packet's
//! VIF list, and the billboard quads they describe, grouped by texture page.
//! Positions and texture coordinates come out as the stored 16-bit values;
//! scaling and normalising them is left to the caller.

use vstd::prelude::*;
use crate::common::{le_u16, le_u32, r_s16, r_u16, r_u32, signed16};
use crate::wad::copy_range;

verus! {

/// Size of a shrub packet's header (before its VIF list).
pub const SHRUB_PACKET_HEADER_SIZE: u32 = 0x40;

/// A packet of a shrub class: offset relative to the packet table, size,
/// and absolute offset.
pub struct ShrubPacket {
    pub rel_offset: u32,
    pub size: u32,
    pub abs_offset: u128,
}

/// A shrub class: its id, packet count, scale (the bit pattern of a float)
/// and the packets whose table entries lie in the data.
pub struct ShrubClassInfo {
    pub o_class: i32,
    pub packet_count: u32,
    pub scale_bits: u32,
    pub packets: Vec<ShrubPacket>,
}

/// Packet table entries of a class at `base` that lie in the data (at most
/// `count`, 8 bytes each from 0x40).
pub open spec fn shrub_packet_count(len: int, base: int, count: int) -> int {
    let fit = (len - base - 0x48) / 8 + 1;
    if count < fit {
        count
    } else {
        fit
    }
}

/// Packet `i` of the class at `base` as read.
pub open spec fn shrub_packet_is(data: Seq<u8>, base: int, i: int, p: ShrubPacket) -> bool {
    let t = base + 0x40 + 8 * i;
    &&& p.rel_offset == le_u32(data, t)
    &&& p.size == le_u32(data, t + 4)
    &&& p.abs_offset == base + 0x40 + le_u32(data, t)
}

/// Read a shrub class header at `base_ofs`: nothing when its 0x48 bytes do
/// not lie in the data or it has no packets.
pub fn parse_shrub_class(data: &[u8], base_ofs: usize, o_class: i32) -> (r: Option<ShrubClassInfo>)
    ensures
        (base_ofs + 0x48 > data@.len() || le_u32(data@, base_ofs + 0x28) == 0) ==> r is None,
        !(base_ofs + 0x48 > data@.len() || le_u32(data@, base_ofs + 0x28) == 0) ==> (r matches Some(info)
            && info.o_class == o_class && info.packet_count == le_u32(data@, base_ofs + 0x28)
            && info.scale_bits == le_u32(data@, base_ofs + 0x10) && info.packets@.len()
            == shrub_packet_count(data@.len() as int, base_ofs as int, info.packet_count as int)
            && forall|i: int|
            0 <= i < info.packets@.len() ==> shrub_packet_is(data@, base_ofs as int, i, #[trigger] info.packets@[i])),
{
    if base_ofs > data.len() || data.len() - base_ofs < 0x48 {
        return None;
    }
    let packet_count = r_u32(data, base_ofs + 0x28);
    let scale_bits = r_u32(data, base_ofs + 0x10);
    if packet_count == 0 {
        return None;
    }
    let len = data.len() as u64;
    let base = base_ofs as u64;
    let fit = (len - base - 0x48) / 8 + 1;
    let n: u64 = if (packet_count as u64) < fit {
        packet_count as u64
    } else {
        fit
    };
    let mut packets: Vec<ShrubPacket> = Vec::new();
    let mut i: u64 = 0;
    while i < n
        invariant
            i <= n <= fit,
            fit == (len - base - 0x48) / 8 + 1,
            base + 0x48 <= len == data@.len(),
            data@.len() <= usize::MAX,
            base == base_ofs,
            packets@.len() == i,
            forall|q: int| 0 <= q < i ==> shrub_packet_is(data@, base as int, q, #[trigger] packets@[q]),
        decreases n - i,
    {
        assert(8 * i <= len - base - 0x48) by (nonlinear_arith)
            requires
                i < n,
                n <= fit,
                fit == (len - base - 0x48) / 8 + 1,
                base + 0x48 <= len,
        ;
        let t = base + 0x40 + 8 * i;
        let rel = r_u32(data, t as usize);
        let size = r_u32(data, (t + 4) as usize);
        let p = ShrubPacket { rel_offset: rel, size, abs_offset: base as u128 + 0x40 + rel as u128 };
        let ghost q0 = i as int;
        packets.push(p);
        assert(packets@[q0] == p);
        i += 1;
    }
    Some(ShrubClassInfo { o_class, packet_count, scale_bits, packets })
}

/// Bytes per element of a shrub UNPACK format: 8 for V4_16, 16 for V4_32,
/// else 1.
pub open spec fn shrub_elem_size(vnvl: int) -> int {
    if vnvl == 13 {
        8
    } else if vnvl == 12 {
        16
    } else {
        1
    }
}

/// The UNPACKs of a shrub VIF list from `ofs` on (format, count and the
/// data after the code, cut at `end`); other commands take 4 bytes.
pub open spec fn shrub_unpacks(data: Seq<u8>, ofs: int, end: int) -> Seq<(int, int, Seq<u8>)>
    decreases (if ofs <= end {
        end - ofs + 1
    } else {
        0
    }),
{
    if ofs < 0 || ofs + 4 > end {
        Seq::empty()
    } else {
        let val = le_u32(data, ofs);
        let cmd = (val / 0x100_0000) % 0x80;
        let n = (val / 0x1_0000) % 0x100;
        let num = if n == 0 {
            256
        } else {
            n
        };
        if (cmd / 0x20) % 4 == 3 {
            let vnvl = cmd % 16;
            let q = (num * shrub_elem_size(vnvl) + 15) / 16;
            let de = if ofs + 4 + 16 * q < end {
                ofs + 4 + 16 * q
            } else {
                end
            };
            seq![(vnvl, num, data.subrange(ofs + 4, de))] + shrub_unpacks(data, ofs + 4 + 16 * q, end)
        } else {
            shrub_unpacks(data, ofs + 4, end)
        }
    }
}

/// An UNPACK of a shrub VIF list.
pub struct ShrubUnpack {
    pub vnvl_raw: u8,
    pub num: u16,
    pub data: Vec<u8>,
}

/// An UNPACK against its description.
pub open spec fn shrub_unpack_is(u: ShrubUnpack, s: (int, int, Seq<u8>)) -> bool {
    &&& u.vnvl_raw == s.0
    &&& u.num == s.1
    &&& u.data@ == s.2
}

/// The UNPACKs against their descriptions.
pub open spec fn shrub_unpacks_are(v: Seq<ShrubUnpack>, s: Seq<(int, int, Seq<u8>)>) -> bool {
    v.len() == s.len() && forall|i: int| 0 <= i < s.len() ==> shrub_unpack_is(#[trigger] v[i], s[i])
}

/// Read the UNPACKs of a shrub VIF list (see [`shrub_unpacks`]).
pub fn read_vif_unpacks(data: &[u8], base_ofs: u64, max_size: u64) -> (r: Vec<ShrubUnpack>)
    ensures
        ({
            let end = if base_ofs + max_size < data@.len() {
                base_ofs + max_size
            } else {
                data@.len() as int
            };
            shrub_unpacks_are(r@, shrub_unpacks(data@, base_ofs as int, end))
        }),
{
    let len = data.len() as u128;
    let base = base_ofs as u128;
    let end: u128 = if base + (max_size as u128) < len {
        base + max_size as u128
    } else {
        len
    };
    let ghost want = shrub_unpacks(data@, base as int, end as int);
    let mut out: Vec<ShrubUnpack> = Vec::new();
    let mut ofs = base;
    while ofs <= end && end - ofs >= 4
        invariant
            len == data@.len(),
            data@.len() <= usize::MAX,
            end <= len,
            ofs <= base || ofs <= end + 0x2000,
            base <= u64::MAX,
            want.len() == out@.len() + shrub_unpacks(data@, ofs as int, end as int).len(),
            forall|i: int| 0 <= i < out@.len() ==> shrub_unpack_is(#[trigger] out@[i], want[i]),
            forall|i: int|
                0 <= i < shrub_unpacks(data@, ofs as int, end as int).len() ==> want[out@.len() + i]
                    == #[trigger] shrub_unpacks(data@, ofs as int, end as int)[i],
        decreases (if ofs <= end {
            end - ofs + 1
        } else {
            0
        }),
    {
        let val = r_u32(data, ofs as usize);
        proof {
            crate::common::lemma_code_word_fields(val);
        }
        let cmd_byte = ((val >> 24) & 0x7f) as u8;
        let n = ((val >> 16) & 0xff) as u16;
        let num: u16 = if n == 0 {
            256
        } else {
            n
        };
        let ghost rest = shrub_unpacks(data@, ofs as int, end as int);
        proof {
            crate::common::lemma_command_byte_bits(cmd_byte);
        }
        if (cmd_byte & 0x60) == 0x60 {
            let vnvl = cmd_byte & 0x0f;
            let elem: u32 = if vnvl == 13 {
                8
            } else if vnvl == 12 {
                16
            } else {
                1
            };
            let total = (num as u32) * elem;
            let qwc = (total + 15) / 16;
            let data_start = ofs + 4;
            let data_end = if data_start + (qwc as u128) * 16 < end {
                data_start + (qwc as u128) * 16
            } else {
                end
            };
            let raw = copy_range(data, data_start as usize, data_end as usize);
            let u = ShrubUnpack { vnvl_raw: vnvl, num, data: raw };
            let ghost k = out@.len() as int;
            out.push(u);
            proof {
                let next = shrub_unpacks(data@, ofs + 4 + 16 * qwc, end as int);
                assert(rest == seq![(vnvl as int, num as int, raw@)] + next);
                assert(want[k] == rest[0]);
                assert(shrub_unpack_is(out@[k], want[k]));
                assert forall|i: int| 0 <= i < next.len() implies want[out@.len() + i] == #[trigger] next[i] by {
                    assert(rest[i + 1] == next[i]);
                }
            }
            ofs = ofs + 4 + (qwc as u128) * 16;
        } else {
            proof {
                assert(rest == shrub_unpacks(data@, ofs + 4, end as int));
            }
            ofs = ofs + 4;
        }
    }
    assert(shrub_unpacks(data@, ofs as int, end as int).len() == 0);
    out
}

/// A billboard quad of a shrub: its four corners' stored positions (left
/// and right of a row, then right and left of the next) and the two
/// texture fields of their attributes.
#[derive(Clone, Copy)]
pub struct ShrubQuad {
    pub pos: [[i16; 3]; 4],
    pub st: [[i16; 2]; 4],
}

/// The first two V4_16 UNPACKs of a list from `k` on (positions, then
/// attributes).
pub open spec fn v416_pair(us: Seq<(int, int, Seq<u8>)>, k: int, first: Option<Seq<u8>>) -> Option<
    (Seq<u8>, Seq<u8>),
>
    decreases us.len() - k,
{
    if k < 0 || k >= us.len() {
        None
    } else if us[k].0 == 13 {
        match first {
            None => v416_pair(us, k + 1, Some(us[k].2)),
            Some(p) => Some((p, us[k].2)),
        }
    } else {
        v416_pair(us, k + 1, first)
    }
}

/// The signed halfword at `off`.
pub open spec fn sh16(d: Seq<u8>, off: int) -> i16 {
    signed16(le_u16(d, off)) as i16
}

/// Position `k` of V4_16 position data.
pub open spec fn shrub_pos(d: Seq<u8>, k: int) -> [i16; 3] {
    [sh16(d, 8 * k), sh16(d, 8 * k + 2), sh16(d, 8 * k + 4)]
}

/// Texture fields of attribute `k`.
pub open spec fn shrub_st(d: Seq<u8>, k: int) -> [i16; 2] {
    [sh16(d, 8 * k), sh16(d, 8 * k + 2)]
}

/// Texture page of attribute `k` (its fourth field without the top bit),
/// 0 when it is not one of `pages`.
pub open spec fn shrub_page(d: Seq<u8>, k: int, pages: Seq<u32>) -> u16 {
    let raw = (le_u16(d, 8 * k + 6) % 0x8000) as u16;
    if pages.contains(raw as u32) {
        raw
    } else {
        0
    }
}

/// The first `nq` quads of position data `pd` and attribute data `ad`: a
/// quad from every other attribute row.
pub open spec fn quads_of(pd: Seq<u8>, ad: Seq<u8>, pages: Seq<u32>, nq: int) -> Seq<(u16, ShrubQuad)> {
    Seq::new(
        nq as nat,
        |q: int|
            (
                shrub_page(ad, 2 * q, pages),
                ShrubQuad {
                    pos: [
                        shrub_pos(pd, 2 * q),
                        shrub_pos(pd, 2 * q + 1),
                        shrub_pos(pd, 2 * q + 3),
                        shrub_pos(pd, 2 * q + 2),
                    ],
                    st: [shrub_st(ad, 2 * q), shrub_st(ad, 2 * q + 1), shrub_st(ad, 2 * q + 2), shrub_st(ad, 2 * q + 3)],
                },
            ),
    )
}

/// The quads of a packet at `abs` of `size` bytes, with their texture
/// pages: from the first two V4_16 UNPACKs of its VIF list (after the
/// 0x40-byte header), as long as there are at least two positions and an
/// even number (at least two) of attributes; a quad from every other
/// attribute row.
pub open spec fn packet_quads(data: Seq<u8>, abs: int, size: int, pages: Seq<u32>) -> Seq<(u16, ShrubQuad)> {
    if size <= 0x40 || abs + 0x44 > data.len() {
        Seq::empty()
    } else {
        let end = if abs + size < data.len() {
            abs + size
        } else {
            data.len() as int
        };
        match v416_pair(shrub_unpacks(data, abs + 0x40, end), 0, None) {
            None => Seq::empty(),
            Some((pd, ad)) => {
                let np = pd.len() / 8;
                let na = if ad.len() / 8 < np {
                    ad.len() / 8
                } else {
                    np
                };
                if np < 2 || na < 2 || na % 2 != 0 {
                    Seq::empty()
                } else {
                    quads_of(pd, ad, pages, (na - 2) / 2)
                }
            },
        }
    }
}

/// The first two V4_16 UNPACKs of a list.
fn find_v416_pair(us: &Vec<ShrubUnpack>, Ghost(s): Ghost<Seq<(int, int, Seq<u8>)>>) -> (r: Option<(usize, usize)>)
    requires
        shrub_unpacks_are(us@, s),
    ensures
        match v416_pair(s, 0, None) {
            None => r is None,
            Some((p, a)) => r matches Some((i, j)) && i < us@.len() && j < us@.len() && us@[i as int].data@
                == p && us@[j as int].data@ == a,
        },
{
    let mut first: Option<usize> = None;
    let mut k: usize = 0;
    while k < us.len()
        invariant
            k <= us@.len(),
            shrub_unpacks_are(us@, s),
            first matches Some(f) ==> f < us@.len(),
            v416_pair(s, k as int, match first {
                Some(f) => Some(us@[f as int].data@),
                None => None,
            }) == v416_pair(s, 0, None),
        decreases us@.len() - k,
    {
        assert(shrub_unpack_is(us@[k as int], s[k as int]));
        if us[k].vnvl_raw == 13 {
            match first {
                None => {
                    first = Some(k);
                },
                Some(f) => {
                    return Some((f, k));
                },
            }
        }
        k += 1;
    }
    None
}

/// Read the quads of a packet (see [`packet_quads`]).
fn read_packet_quads(data: &[u8], abs: u128, size: u32, pages: &[u32]) -> (r: Vec<(u16, ShrubQuad)>)
    ensures
        r@ == packet_quads(data@, abs as int, size as int, pages@),
{
    let len = data.len() as u128;
    if size <= 0x40 || abs > len || len - abs < 0x44 {
        return Vec::new();
    }
    let us = read_vif_unpacks(data, (abs + 0x40) as u64, (size - 0x40) as u64);
    let ghost end = if abs + size < data@.len() {
        abs + size
    } else {
        data@.len() as int
    };
    let ghost s = shrub_unpacks(data@, abs + 0x40, end);
    let (pi, ai) = match find_v416_pair(&us, Ghost(s)) {
        Some(x) => x,
        None => {
            return Vec::new();
        },
    };
    let pd = &us[pi].data;
    let ad = &us[ai].data;
    let np = pd.len() / 8;
    let na = if ad.len() / 8 < np {
        ad.len() / 8
    } else {
        np
    };
    let mut out: Vec<(u16, ShrubQuad)> = Vec::new();
    if np < 2 || na < 2 || na % 2 != 0 {
        return out;
    }
    let ghost want = packet_quads(data@, abs as int, size as int, pages@);
    let nq = (na - 2) / 2;
    assert(want == quads_of(pd@, ad@, pages@, nq as int));
    let mut q: usize = 0;
    while q < nq
        invariant
            q <= nq == (na - 2) / 2,
            2 <= na <= np,
            na <= ad@.len() / 8,
            np == pd@.len() / 8,
            pd@.len() <= usize::MAX,
            ad@.len() <= usize::MAX,
            want == quads_of(pd@, ad@, pages@, nq as int),
            forall|k: int| 0 <= k < q ==> #[trigger] out@[k] == want[k],
            out@.len() == q,
        decreases nq - q,
    {
        let i = 2 * q;
        let mut posv = [[0i16; 3]; 4];
        let rows = [i, i + 1, i + 3, i + 2];
        let mut c: usize = 0;
        while c < 4
            invariant
                c <= 4,
                rows[0] == i && rows[1] == i + 1 && rows[2] == i + 3 && rows[3] == i + 2,
                i + 3 < np,
                np == pd@.len() / 8,
                pd@.len() <= usize::MAX,
                forall|e: int| 0 <= e < c ==> #[trigger] posv[e] == shrub_pos(pd@, rows[e] as int),
            decreases 4 - c,
        {
            let o = 8 * rows[c];
            posv[c] = [r_s16(pd, o), r_s16(pd, o + 2), r_s16(pd, o + 4)];
            c += 1;
        }
        let mut stv = [[0i16; 2]; 4];
        let mut e: usize = 0;
        while e < 4
            invariant
                e <= 4,
                i + 3 < na,
                na <= ad@.len() / 8,
                ad@.len() <= usize::MAX,
                forall|f: int| 0 <= f < e ==> #[trigger] stv[f] == shrub_st(ad@, i + f),
            decreases 4 - e,
        {
            let o = 8 * (i + e);
            stv[e] = [r_s16(ad, o), r_s16(ad, o + 2)];
            e += 1;
        }
        let hw = r_u16(ad, 8 * i + 6);
        proof {
            crate::common::lemma_low15(hw);
        }
        let raw = hw & 0x7FFF;
        let mut found = false;
        let mut k: usize = 0;
        while k < pages.len()
            invariant
                k <= pages@.len(),
                found <==> exists|j: int| 0 <= j < k && pages@[j] == raw as u32,
            decreases pages@.len() - k,
        {
            if pages[k] == raw as u32 {
                found = true;
            }
            k += 1;
        }
        assert(found == pages@.contains(raw as u32));
        let page: u16 = if found {
            raw
        } else {
            0
        };
        let quad = ShrubQuad { pos: posv, st: stv };
        assert(quad.pos == [shrub_pos(pd@, 2 * q), shrub_pos(pd@, 2 * q + 1), shrub_pos(pd@, 2 * q + 3), shrub_pos(pd@, 2 * q + 2)]);
        assert(quad.st == [shrub_st(ad@, 2 * q), shrub_st(ad@, 2 * q + 1), shrub_st(ad@, 2 * q + 2), shrub_st(ad@, 2 * q + 3)]);
        out.push((page, quad));
        q += 1;
    }
    assert(out@ =~= want);
    out
}

/// The quads of the first `n` packets of a class, in order.
pub open spec fn class_quads(data: Seq<u8>, packets: Seq<ShrubPacket>, pages: Seq<u32>, n: int) -> Seq<
    (u16, ShrubQuad),
>
    decreases n,
{
    if n <= 0 {
        Seq::empty()
    } else {
        class_quads(data, packets, pages, n - 1) + packet_quads(
            data,
            packets[n - 1].abs_offset as int,
            packets[n - 1].size as int,
            pages,
        )
    }
}

/// The texture pages of the first `n` quads, in order of first use.
pub open spec fn page_order(qs: Seq<(u16, ShrubQuad)>, n: int) -> Seq<u16>
    decreases n,
{
    if n <= 0 {
        Seq::empty()
    } else {
        let prev = page_order(qs, n - 1);
        if prev.contains(qs[n - 1].0) {
            prev
        } else {
            prev.push(qs[n - 1].0)
        }
    }
}

/// The quads of page `t` among the first `n`, in order.
pub open spec fn page_quads(qs: Seq<(u16, ShrubQuad)>, t: u16, n: int) -> Seq<ShrubQuad>
    decreases n,
{
    if n <= 0 {
        Seq::empty()
    } else {
        let prev = page_quads(qs, t, n - 1);
        if qs[n - 1].0 == t {
            prev.push(qs[n - 1].1)
        } else {
            prev
        }
    }
}

/// The quads of a shrub class grouped by texture page (pages in order of
/// first use, quads in order within a page); `pages` are the texture pages
/// that exist (see [`texture_sizes`]), others read as page 0.
pub fn extract_shrub_mesh(data: &[u8], info: &ShrubClassInfo, pages: &[u32]) -> (r: Vec<(u16, Vec<ShrubQuad>)>)
    ensures
        ({
            let all = class_quads(data@, info.packets@, pages@, info.packets@.len() as int);
            let order = page_order(all, all.len() as int);
            &&& r@.len() == order.len()
            &&& forall|k: int|
                0 <= k < r@.len() ==> (#[trigger] r@[k]).0 == order[k] && r@[k].1@ == page_quads(
                    all,
                    order[k],
                    all.len() as int,
                )
        }),
{
    let mut all: Vec<(u16, ShrubQuad)> = Vec::new();
    let mut pi: usize = 0;
    while pi < info.packets.len()
        invariant
            pi <= info.packets@.len(),
            all@ == class_quads(data@, info.packets@, pages@, pi as int),
        decreases info.packets@.len() - pi,
    {
        let p = &info.packets[pi];
        let qs = read_packet_quads(data, p.abs_offset, p.size, pages);
        let mut j: usize = 0;
        let ghost before = all@;
        while j < qs.len()
            invariant
                j <= qs@.len(),
                all@ == before + qs@.subrange(0, j as int),
            decreases qs@.len() - j,
        {
            all.push(qs[j]);
            j += 1;
            assert(all@ =~= before + qs@.subrange(0, j as int));
        }
        assert(qs@.subrange(0, qs@.len() as int) =~= qs@);
        pi += 1;
    }
    let mut order: Vec<u16> = Vec::new();
    let mut i: usize = 0;
    while i < all.len()
        invariant
            i <= all@.len(),
            order@ == page_order(all@, i as int),
        decreases all@.len() - i,
    {
        let t = all[i].0;
        let mut found = false;
        let mut k: usize = 0;
        while k < order.len()
            invariant
                k <= order@.len(),
                found <==> exists|j: int| 0 <= j < k && order@[j] == t,
            decreases order@.len() - k,
        {
            if order[k] == t {
                found = true;
            }
            k += 1;
        }
        assert(found == order@.contains(t));
        if !found {
            order.push(t);
        }
        i += 1;
    }
    let mut groups: Vec<(u16, Vec<ShrubQuad>)> = Vec::new();
    let mut g: usize = 0;
    while g < order.len()
        invariant
            g <= order@.len(),
            order@ == page_order(all@, all@.len() as int),
            groups@.len() == g,
            forall|k: int|
                0 <= k < g ==> (#[trigger] groups@[k]).0 == order@[k] && groups@[k].1@ == page_quads(
                    all@,
                    order@[k],
                    all@.len() as int,
                ),
        decreases order@.len() - g,
    {
        let t = order[g];
        let mut list: Vec<ShrubQuad> = Vec::new();
        let mut i2: usize = 0;
        while i2 < all.len()
            invariant
                i2 <= all@.len(),
                list@ == page_quads(all@, t, i2 as int),
            decreases all@.len() - i2,
        {
            if all[i2].0 == t {
                list.push(all[i2].1);
            }
            i2 += 1;
        }
        let ghost k0 = g as int;
        groups.push((t, list));
        assert(groups@[k0].1@ == list@);
        g += 1;
    }
    groups
}

/// Texture entries that `count` and `offset` name (16 bytes each from
/// `offset`; none when either is 0) and that lie in the data, with a width
/// and height (halfwords at 4 and 6) in `1..=1024`: index, width, height.
pub open spec fn texture_sizes_from(idx: Seq<u8>, offset: int, n: int) -> Seq<(u32, u32, u32)>
    decreases n,
{
    if n <= 0 {
        Seq::empty()
    } else {
        let prev = texture_sizes_from(idx, offset, n - 1);
        let eo = offset + 16 * (n - 1);
        let w = le_u16(idx, eo + 4);
        let h = le_u16(idx, eo + 6);
        if 0 < w <= 1024 && 0 < h <= 1024 {
            prev.push(((n - 1) as u32, w as u32, h as u32))
        } else {
            prev
        }
    }
}

/// Entries of a texture table that lie in the data.
pub open spec fn texture_entry_count(len: int, offset: int, count: int) -> int {
    if count == 0 || offset == 0 || offset + 16 > len {
        0
    } else if count < (len - offset - 16) / 16 + 1 {
        count
    } else {
        (len - offset - 16) / 16 + 1
    }
}

/// Read a texture size table (see [`texture_sizes_from`]).
pub fn texture_sizes(idx: &[u8], offset: u64, count: u64) -> (r: Vec<(u32, u32, u32)>)
    ensures
        r@ == texture_sizes_from(idx@, offset as int, texture_entry_count(idx@.len() as int, offset as int, count as int)),
{
    let len = idx.len() as u128;
    let o = offset as u128;
    let n: u128 = if count == 0 || offset == 0 || o + 16 > len {
        0
    } else if (count as u128) < (len - o - 16) / 16 + 1 {
        count as u128
    } else {
        (len - o - 16) / 16 + 1
    };
    let mut out: Vec<(u32, u32, u32)> = Vec::new();
    let mut i: u128 = 0;
    while i < n
        invariant
            i <= n,
            len == idx@.len(),
            idx@.len() <= usize::MAX,
            n > 0 ==> o + 16 <= len && n <= (len - o - 16) / 16 + 1,
            out@ == texture_sizes_from(idx@, o as int, i as int),
        decreases n - i,
    {
        assert(16 * i <= len - o - 16) by (nonlinear_arith)
            requires
                i < n,
                n <= (len - o - 16) / 16 + 1,
                o + 16 <= len,
        ;
        let eo = (o + 16 * i) as usize;
        let w = r_u16(idx, eo + 4);
        let h = r_u16(idx, eo + 6);
        if 0 < w && w <= 1024 && 0 < h && h <= 1024 {
            out.push((i as u32, w as u32, h as u32));
        }
        i += 1;
    }
    out
}


/// Total number of quads in the page groups of the pages `o`, counting the
/// first `n` quads.
pub open spec fn group_sizes(qs: Seq<(u16, ShrubQuad)>, o: Seq<u16>, n: int) -> int
    decreases o.len(),
{
    if o.len() == 0 {
        0
    } else {
        group_sizes(qs, o.drop_last(), n) + page_quads(qs, o.last(), n).len()
    }
}

/// How often `p` occurs in `o`.
pub open spec fn occurrences(o: Seq<u16>, p: u16) -> int
    decreases o.len(),
{
    if o.len() == 0 {
        0
    } else {
        occurrences(o.drop_last(), p) + if o.last() == p {
            1int
        } else {
            0
        }
    }
}

/// Adding quad `n - 1` grows exactly the groups of its page.
proof fn lemma_group_sizes_step(qs: Seq<(u16, ShrubQuad)>, o: Seq<u16>, n: int)
    requires
        1 <= n,
    ensures
        group_sizes(qs, o, n) == group_sizes(qs, o, n - 1) + occurrences(o, qs[n - 1].0),
    decreases o.len(),
{
    if o.len() > 0 {
        lemma_group_sizes_step(qs, o.drop_last(), n);
    }
}

/// The pages in order of first use: each quad's page among them, none twice.
proof fn lemma_page_order(qs: Seq<(u16, ShrubQuad)>, n: int)
    requires
        0 <= n <= qs.len(),
    ensures
        forall|j: int| 0 <= j < n ==> page_order(qs, n).contains(#[trigger] qs[j].0),
        forall|a: int, b: int|
            0 <= a < b < page_order(qs, n).len() ==> page_order(qs, n)[a] != page_order(qs, n)[b],
    decreases n,
{
    if n > 0 {
        lemma_page_order(qs, n - 1);
        let prev = page_order(qs, n - 1);
        let cur = page_order(qs, n);
        assert forall|j: int| 0 <= j < n implies cur.contains(#[trigger] qs[j].0) by {
            if j < n - 1 {
                let w = choose|w: int| 0 <= w < prev.len() && prev[w] == qs[j].0;
                if !prev.contains(qs[n - 1].0) {
                    assert(cur[w] == prev[w]);
                }
            } else if !prev.contains(qs[n - 1].0) {
                assert(cur[prev.len() as int] == qs[n - 1].0);
            }
        }
        if !prev.contains(qs[n - 1].0) {
            assert forall|a: int, b: int| 0 <= a < b < cur.len() implies cur[a] != cur[b] by {
                if b == prev.len() {
                    assert(cur[a] == prev[a]);
                    assert(cur[b] == qs[n - 1].0);
                } else {
                    assert(cur[a] == prev[a] && cur[b] == prev[b]);
                }
            }
        }
    }
}

/// A page not among the pages of the first `n` quads has no quads there.
proof fn lemma_unused_page(qs: Seq<(u16, ShrubQuad)>, t: u16, n: int)
    requires
        0 <= n <= qs.len(),
        !page_order(qs, n).contains(t),
    ensures
        page_quads(qs, t, n).len() == 0,
    decreases n,
{
    if n > 0 {
        lemma_page_order(qs, n);
        assert(qs[n - 1].0 != t);
        let prev = page_order(qs, n - 1);
        assert(!prev.contains(t)) by {
            if prev.contains(t) {
                let w = choose|w: int| 0 <= w < prev.len() && prev[w] == t;
                if !prev.contains(qs[n - 1].0) {
                    assert(page_order(qs, n)[w] == t);
                }
            }
        }
        lemma_unused_page(qs, t, n - 1);
    }
}

/// A page occurs once in a list without repeats that holds it, else never.
proof fn lemma_occurrences(o: Seq<u16>, p: u16)
    requires
        forall|a: int, b: int| 0 <= a < b < o.len() ==> o[a] != o[b],
    ensures
        occurrences(o, p) == if o.contains(p) {
            1int
        } else {
            0
        },
    decreases o.len(),
{
    if o.len() > 0 {
        let pre = o.drop_last();
        assert forall|a: int, b: int| 0 <= a < b < pre.len() implies pre[a] != pre[b] by {
            assert(pre[a] == o[a] && pre[b] == o[b]);
        }
        lemma_occurrences(pre, p);
        if o.last() == p {
            assert(!pre.contains(p)) by {
                if pre.contains(p) {
                    let w = choose|w: int| 0 <= w < pre.len() && pre[w] == p;
                    assert(o[w] == o[o.len() - 1]);
                }
            }
            assert(o[o.len() - 1] == p);
        } else {
            if o.contains(p) {
                let w = choose|w: int| 0 <= w < o.len() && o[w] == p;
                assert(pre[w] == p);
            }
            if pre.contains(p) {
                let w = choose|w: int| 0 <= w < pre.len() && pre[w] == p;
                assert(o[w] == p);
            }
        }
    }
}

/// The groups of the first `n` quads hold `n` quads in all.
proof fn lemma_group_total(qs: Seq<(u16, ShrubQuad)>, n: int)
    requires
        0 <= n <= qs.len(),
    ensures
        group_sizes(qs, page_order(qs, n), n) == n,
    decreases n,
{
    if n > 0 {
        lemma_group_total(qs, n - 1);
        lemma_page_order(qs, n - 1);
        lemma_page_order(qs, n);
        let prev = page_order(qs, n - 1);
        let cur = page_order(qs, n);
        let p = qs[n - 1].0;
        lemma_occurrences(prev, p);
        lemma_group_sizes_step(qs, prev, n);
        if !prev.contains(p) {
            assert(cur.drop_last() =~= prev);
            assert(cur.last() == p);
            lemma_unused_page(qs, p, n - 1);
            assert(page_quads(qs, p, n).len() == 1);
        }
    }
}

/// Quad `i` of the group of page `t` is quad `j` of those read, which has
/// page `t`.
proof fn lemma_page_quad_source(qs: Seq<(u16, ShrubQuad)>, t: u16, n: int, i: int) -> (j: int)
    requires
        0 <= n <= qs.len(),
        0 <= i < page_quads(qs, t, n).len(),
    ensures
        0 <= j < n,
        qs[j].0 == t,
        qs[j].1 == page_quads(qs, t, n)[i],
    decreases n,
{
    let prev = page_quads(qs, t, n - 1);
    let cur = page_quads(qs, t, n);
    if qs[n - 1].0 == t {
        assert(cur == prev.push(qs[n - 1].1));
        if i < prev.len() {
            lemma_page_quad_source(qs, t, n - 1, i)
        } else {
            n - 1
        }
    } else {
        assert(cur == prev);
        lemma_page_quad_source(qs, t, n - 1, i)
    }
}

/// The texture-page groups of a shrub class partition its quads: every
/// quad in the group of page `t`, paired with `t`, is among the quads read
/// (with their pages), and the
/// group sizes add up to the number of quads read, so each quad lies in
/// exactly the group of its own page.
pub proof fn lemma_shrub_groups_partition(all: Seq<(u16, ShrubQuad)>)
    ensures
        forall|k: int, i: int|
            #![trigger page_quads(all, page_order(all, all.len() as int)[k], all.len() as int)[i]]
            0 <= k < page_order(all, all.len() as int).len() && 0 <= i < page_quads(
                all,
                page_order(all, all.len() as int)[k],
                all.len() as int,
            ).len() ==> all.contains(
                (
                    page_order(all, all.len() as int)[k],
                    page_quads(all, page_order(all, all.len() as int)[k], all.len() as int)[i],
                ),
            ),
        group_sizes(all, page_order(all, all.len() as int), all.len() as int) == all.len(),
{
    let n = all.len() as int;
    assert forall|k: int, i: int|
        #![trigger page_quads(all, page_order(all, all.len() as int)[k], all.len() as int)[i]]
        0 <= k < page_order(all, all.len() as int).len() && 0 <= i < page_quads(
            all,
            page_order(all, all.len() as int)[k],
            all.len() as int,
        ).len() implies all.contains(
        (
            page_order(all, all.len() as int)[k],
            page_quads(all, page_order(all, all.len() as int)[k], all.len() as int)[i],
        ),
    ) by {
        let t = page_order(all, n)[k];
        let j = lemma_page_quad_source(all, t, n, i);
        assert(all[j] == (t, page_quads(all, t, n)[i]));
    }
    lemma_group_total(all, n);
}

} // verus!
