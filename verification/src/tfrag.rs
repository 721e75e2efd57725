//! Terrain fragments (tfrags): the 0x40-byte fragment header, the VIF
//! command lists of its level-of-detail sections, and the faces its strips
//! describe. Positions come out as the stored 16-bit values with the
//! fragment's base position, texture coordinates as their raw fixed-point
//! halfwords, so that the reading itself stays exact.

use vstd::prelude::*;
use crate::common::{le_u16, le_u32, r_s16, r_u16, r_u32, r_u8, signed16, signed32};
use crate::wad::copy_range;

verus! {

/// A tfrag header (0x40 bytes). The bounding sphere is kept as the bit
/// patterns of its four floats.
pub struct TfragHeader {
    pub bsphere: [u32; 4],
    pub data: u32,
    pub lod_2_ofs: u16,
    pub shared_ofs: u16,
    pub lod_1_ofs: u16,
    pub lod_0_ofs: u16,
    pub tex_ofs: u16,
    pub rgba_ofs: u16,
    pub common_size: u8,
    pub lod_2_size: u8,
    pub lod_1_size: u8,
    pub lod_0_size: u8,
    pub lod_2_rgba_count: u8,
    pub lod_1_rgba_count: u8,
    pub lod_0_rgba_count: u8,
    pub base_only: u8,
    pub texture_count: u8,
    pub rgba_size: u8,
    pub rgba_verts_loc: u8,
    pub occl_index_stash: u8,
    pub msphere_count: u8,
    pub flags: u8,
    pub msphere_ofs: u16,
    pub light_ofs: u16,
    pub light_end_ofs: u16,
    pub dir_lights_one: u8,
    pub dir_lights_upd: u8,
    pub point_lights: u16,
    pub cube_ofs: u16,
    pub occl_index: u16,
    pub vert_count: u8,
    pub tri_count: u8,
    pub mip_dist: u16,
}

/// Halfword `k` of the word at `off` (low half first).
pub open spec fn half_of(data: Seq<u8>, off: int, k: int) -> u16 {
    le_u16(data, off + 2 * k) as u16
}

/// The header at `ofs` (which lies in the data) as read.
pub open spec fn tfrag_header_is(data: Seq<u8>, ofs: int, h: TfragHeader) -> bool {
    &&& forall|k: int| 0 <= k < 4 ==> h.bsphere[k] == le_u32(data, ofs + 4 * k)
    &&& h.data == le_u32(data, ofs + 0x10)
    &&& h.lod_2_ofs == half_of(data, ofs + 0x14, 0)
    &&& h.shared_ofs == half_of(data, ofs + 0x14, 1)
    &&& h.lod_1_ofs == half_of(data, ofs + 0x18, 0)
    &&& h.lod_0_ofs == half_of(data, ofs + 0x18, 1)
    &&& h.tex_ofs == half_of(data, ofs + 0x1c, 0)
    &&& h.rgba_ofs == half_of(data, ofs + 0x1c, 1)
    &&& h.common_size == data[ofs + 0x20]
    &&& h.lod_2_size == data[ofs + 0x21]
    &&& h.lod_1_size == data[ofs + 0x22]
    &&& h.lod_0_size == data[ofs + 0x23]
    &&& h.lod_2_rgba_count == data[ofs + 0x24]
    &&& h.lod_1_rgba_count == data[ofs + 0x25]
    &&& h.lod_0_rgba_count == data[ofs + 0x26]
    &&& h.base_only == data[ofs + 0x27]
    &&& h.texture_count == data[ofs + 0x28]
    &&& h.rgba_size == data[ofs + 0x29]
    &&& h.rgba_verts_loc == data[ofs + 0x2a]
    &&& h.occl_index_stash == data[ofs + 0x2b]
    &&& h.msphere_count == data[ofs + 0x2c]
    &&& h.flags == data[ofs + 0x2d]
    &&& h.dir_lights_one == data[ofs + 0x2e]
    &&& h.dir_lights_upd == data[ofs + 0x2f]
    &&& h.msphere_ofs == le_u16(data, ofs + 0x2e)
    &&& h.light_ofs == le_u16(data, ofs + 0x30)
    &&& h.light_end_ofs == le_u16(data, ofs + 0x32)
    &&& h.point_lights == le_u16(data, ofs + 0x36)
    &&& h.cube_ofs == le_u16(data, ofs + 0x38)
    &&& h.occl_index == le_u16(data, ofs + 0x3a)
    &&& h.vert_count == data[ofs + 0x3c]
    &&& h.tri_count == data[ofs + 0x3d]
    &&& h.mip_dist == le_u16(data, ofs + 0x3e)
}

/// The low and high halfwords of a word.
fn split_word(w: u32) -> (r: (u16, u16))
    ensures
        r.0 as int == w % 0x1_0000,
        r.1 as int == w / 0x1_0000,
{
    assert((w & 0xffff) == w % 0x1_0000 && ((w >> 16u32) & 0xffff) == w / 0x1_0000) by (bit_vector);
    ((w & 0xffff) as u16, ((w >> 16) & 0xffff) as u16)
}

/// Read the tfrag header at `ofs`: `None` when its 0x40 bytes do not lie in
/// the data.
#[verifier::rlimit(100)]
#[verifier::spinoff_prover]
pub fn read_tfrag_header(data: &[u8], ofs: usize) -> (r: Option<TfragHeader>)
    ensures
        r is None <==> ofs + 0x40 > data@.len(),
        r matches Some(h) ==> tfrag_header_is(data@, ofs as int, h),
{
    if ofs > data.len() || data.len() - ofs < 0x40 {
        return None;
    }
    let bsphere = [r_u32(data, ofs), r_u32(data, ofs + 4), r_u32(data, ofs + 8), r_u32(data, ofs + 12)];
    let d = r_u32(data, ofs + 0x10);
    let w1 = r_u32(data, ofs + 0x14);
    let w2 = r_u32(data, ofs + 0x18);
    let w3 = r_u32(data, ofs + 0x1c);
    let (lod_2_ofs, shared_ofs) = split_word(w1);
    let (lod_1_ofs, lod_0_ofs) = split_word(w2);
    let (tex_ofs, rgba_ofs) = split_word(w3);
    let h = TfragHeader {
        bsphere,
        data: d,
        lod_2_ofs,
        shared_ofs,
        lod_1_ofs,
        lod_0_ofs,
        tex_ofs,
        rgba_ofs,
        common_size: r_u8(data, ofs + 0x20),
        lod_2_size: r_u8(data, ofs + 0x21),
        lod_1_size: r_u8(data, ofs + 0x22),
        lod_0_size: r_u8(data, ofs + 0x23),
        lod_2_rgba_count: r_u8(data, ofs + 0x24),
        lod_1_rgba_count: r_u8(data, ofs + 0x25),
        lod_0_rgba_count: r_u8(data, ofs + 0x26),
        base_only: r_u8(data, ofs + 0x27),
        texture_count: r_u8(data, ofs + 0x28),
        rgba_size: r_u8(data, ofs + 0x29),
        rgba_verts_loc: r_u8(data, ofs + 0x2a),
        occl_index_stash: r_u8(data, ofs + 0x2b),
        msphere_count: r_u8(data, ofs + 0x2c),
        flags: r_u8(data, ofs + 0x2d),
        dir_lights_one: r_u8(data, ofs + 0x2e),
        dir_lights_upd: r_u8(data, ofs + 0x2f),
        msphere_ofs: r_u16(data, ofs + 0x2e),
        light_ofs: r_u16(data, ofs + 0x30),
        light_end_ofs: r_u16(data, ofs + 0x32),
        point_lights: r_u16(data, ofs + 0x36),
        cube_ofs: r_u16(data, ofs + 0x38),
        occl_index: r_u16(data, ofs + 0x3a),
        vert_count: r_u8(data, ofs + 0x3c),
        tri_count: r_u8(data, ofs + 0x3d),
        mip_dist: r_u16(data, ofs + 0x3e),
    };
    proof {
        assert(h.bsphere@ == bsphere@);
    }
    Some(h)
}

/// Data of an UNPACK of a tfrag command list: its format (VN/VL bits), its
/// size in quadwords, and the bytes that follow it (cut at the list's end).
pub struct TfragUnpack {
    pub vnvl_raw: u8,
    pub qwc: u32,
    pub data: Vec<u8>,
}

/// A command of a tfrag VIF list: the command byte (top bit cleared), the
/// element count (0 meaning 256), its offset from the list's start, and for
/// an UNPACK its data.
pub struct TfragVifCmd {
    pub cmd: u8,
    pub num: u16,
    pub offset_in_chain: u64,
    pub unpack: Option<TfragUnpack>,
}

/// Bytes per element of an UNPACK format: (VN + 1) components of VL bits
/// (32, 16, 8 or 5), rounded up to bytes.
pub open spec fn tf_elem_size(vnvl: int) -> int {
    let vn = (vnvl / 4) % 4 + 1;
    let vl: int = if vnvl % 4 == 0 {
        32
    } else if vnvl % 4 == 1 {
        16
    } else if vnvl % 4 == 2 {
        8
    } else {
        5
    };
    (vn * vl + 7) / 8
}

/// Element size of an UNPACK format (see [`tf_elem_size`]).
pub fn unpack_element_size(vnvl_raw: u8) -> (r: u8)
    ensures
        r == tf_elem_size(vnvl_raw as int),
        1 <= r <= 16,
{
    assert(((vnvl_raw >> 2u8) & 3) == (vnvl_raw / 4) % 4 && (vnvl_raw & 3) == vnvl_raw % 4) by (bit_vector);
    let vn = ((vnvl_raw >> 2) & 3) + 1;
    let sel = vnvl_raw & 3;
    let vl: u8 = if sel == 0 {
        32
    } else if sel == 1 {
        16
    } else if sel == 2 {
        8
    } else {
        5
    };
    (vn * vl + 7) / 8
}

/// Command byte of a code word: its top byte without the top bit.
pub open spec fn tf_cmd(val: u32) -> int {
    (val as int / 0x100_0000) % 0x80
}

/// Element count of a code word: its third byte, 0 meaning 256.
pub open spec fn tf_num(val: u32) -> int {
    let n = (val as int / 0x1_0000) % 0x100;
    if n == 0 {
        256
    } else {
        n
    }
}

/// An UNPACK command: bits 5 and 6 of the command byte set.
pub open spec fn tf_is_unpack(cmd: int) -> bool {
    (cmd / 0x20) % 4 == 3
}

/// Quadwords of data an UNPACK of `num` elements of format `vnvl` carries.
pub open spec fn tf_qwc(vnvl: int, num: int) -> int {
    (num * tf_elem_size(vnvl) + 15) / 16
}

/// Bytes a command of the list takes, code word included.
pub open spec fn tf_packet_size(cmd: int, num: int) -> int {
    if tf_is_unpack(cmd) {
        4 + tf_qwc(cmd % 16, num) * 16
    } else if cmd == 0x20 {
        8
    } else if 0x30 <= cmd <= 0x32 {
        20
    } else if cmd == 0x4a {
        4 + num * 8
    } else {
        4
    }
}

/// A command as the list describes it: command byte, count, offset from the
/// list's start, and for an UNPACK its format, quadwords and data bytes.
pub struct TfCmd {
    pub cmd: int,
    pub num: int,
    pub off: int,
    pub unpack: Option<(int, int, Seq<u8>)>,
}

/// The command at `ofs` of a list starting at `base` and ending at `end`.
pub open spec fn tf_cmd_at(data: Seq<u8>, base: int, ofs: int, end: int) -> TfCmd {
    let val = le_u32(data, ofs) as u32;
    let cmd = tf_cmd(val);
    let num = tf_num(val);
    TfCmd {
        cmd,
        num,
        off: ofs - base,
        unpack: if tf_is_unpack(cmd) {
            let q = tf_qwc(cmd % 16, num);
            let de = if ofs + 4 + q * 16 < end {
                ofs + 4 + q * 16
            } else {
                end
            };
            Some((cmd % 16, q, data.subrange(ofs + 4, de)))
        } else {
            None
        },
    }
}

/// The commands of the list from `ofs` on, while a code word fits before `end`.
pub open spec fn tf_cmds(data: Seq<u8>, base: int, ofs: int, end: int) -> Seq<TfCmd>
    decreases (if ofs <= end {
        end - ofs + 1
    } else {
        0
    }),
{
    if ofs < 0 || ofs + 4 > end {
        Seq::empty()
    } else {
        let c = tf_cmd_at(data, base, ofs, end);
        seq![c] + tf_cmds(data, base, ofs + tf_packet_size(c.cmd, c.num), end)
    }
}

/// A command against its description.
pub open spec fn tf_cmd_is(c: TfragVifCmd, s: TfCmd) -> bool {
    &&& c.cmd == s.cmd
    &&& c.num == s.num
    &&& c.offset_in_chain == s.off
    &&& match s.unpack {
        None => c.unpack is None,
        Some((v, q, d)) => c.unpack matches Some(u) && u.vnvl_raw == v && u.qwc == q && u.data@ == d,
    }
}

/// The commands against their descriptions.
pub open spec fn tf_cmds_are(v: Seq<TfragVifCmd>, s: Seq<TfCmd>) -> bool {
    v.len() == s.len() && forall|i: int| 0 <= i < s.len() ==> tf_cmd_is(#[trigger] v[i], s[i])
}

/// The list end: `base + max_size`, at most the data's end.
pub open spec fn tf_list_end(len: int, base: int, max_size: int) -> int {
    if base + max_size < len {
        base + max_size
    } else {
        len
    }
}

/// Read a tfrag VIF command list (see [`tf_cmds`]).
pub fn read_vif_command_list(data: &[u8], base_ofs: usize, max_size: usize) -> (r: Vec<TfragVifCmd>)
    ensures
        tf_cmds_are(
            r@,
            tf_cmds(
                data@,
                base_ofs as int,
                base_ofs as int,
                tf_list_end(data@.len() as int, base_ofs as int, max_size as int),
            ),
        ),
{
    let len = data.len() as u128;
    let base = base_ofs as u128;
    let end: u128 = if base + (max_size as u128) < len {
        base + max_size as u128
    } else {
        len
    };
    let ghost want = tf_cmds(data@, base as int, base as int, end as int);
    let mut commands: Vec<TfragVifCmd> = Vec::new();
    let mut ofs = base;
    while ofs <= end && end - ofs >= 4
        invariant
            len == data@.len(),
            data@.len() <= usize::MAX,
            base <= usize::MAX,
            end <= len,
            base <= ofs,
            ofs <= base || ofs <= end + 0x2000,
            want.len() == commands@.len() + tf_cmds(data@, base as int, ofs as int, end as int).len(),
            forall|i: int| 0 <= i < commands@.len() ==> tf_cmd_is(#[trigger] commands@[i], want[i]),
            forall|i: int|
                0 <= i < tf_cmds(data@, base as int, ofs as int, end as int).len() ==> want[commands@.len() + i]
                    == #[trigger] tf_cmds(data@, base as int, ofs as int, end as int)[i],
        decreases (if ofs <= end {
            end - ofs + 1
        } else {
            0
        }),
    {
        let val = r_u32(data, ofs as usize);
        proof {
            crate::common::lemma_code_word_fields(val);
        }
        let cmd_byte = ((val >> 24) & 0x7f) as u8;
        let n = ((val >> 16) & 0xff) as u16;
        let num: u16 = if n == 0 {
            256
        } else {
            n
        };
        let ghost c = tf_cmd_at(data@, base as int, ofs as int, end as int);
        let ghost rest = tf_cmds(data@, base as int, ofs as int, end as int);
        assert(cmd_byte == c.cmd && num == c.num);
        proof {
            crate::common::lemma_command_byte_bits(cmd_byte);
        }
        let pkt: u128;
        let entry: TfragVifCmd;
        let chain_off = (ofs - base) as u64;
        if (cmd_byte & 0x60) == 0x60 {
            let vnvl = cmd_byte & 0x0f;
            let elem_sz = unpack_element_size(vnvl);
            assert((num as u32) * (elem_sz as u32) <= 4096) by (nonlinear_arith)
                requires
                    num <= 256,
                    elem_sz <= 16,
            ;
            let total = (num as u32) * (elem_sz as u32);
            let qwc = (total + 15) / 16;
            let data_start = ofs + 4;
            let data_end = if data_start + (qwc as u128) * 16 < end {
                data_start + (qwc as u128) * 16
            } else {
                end
            };
            let raw = copy_range(data, data_start as usize, data_end as usize);
            entry = TfragVifCmd {
                cmd: cmd_byte,
                num,
                offset_in_chain: chain_off,
                unpack: Some(TfragUnpack { vnvl_raw: vnvl, qwc, data: raw }),
            };
            pkt = 4 + (qwc as u128) * 16;
        } else {
            if cmd_byte == 0x20 {
                pkt = 8;
            } else if 0x30 <= cmd_byte && cmd_byte <= 0x32 {
                pkt = 20;
            } else if cmd_byte == 0x4a {
                pkt = 4 + (num as u128) * 8;
            } else {
                pkt = 4;
            }
            entry = TfragVifCmd { cmd: cmd_byte, num, offset_in_chain: chain_off, unpack: None };
        }
        assert(pkt == tf_packet_size(c.cmd, c.num));
        assert(tf_cmd_is(entry, c));
        assert(rest == seq![c] + tf_cmds(data@, base as int, ofs + pkt, end as int));
        let ghost k = commands@.len();
        commands.push(entry);
        proof {
            let next = tf_cmds(data@, base as int, ofs + pkt, end as int);
            assert(want[k as int] == rest[0]);
            assert forall|i: int| 0 <= i < next.len() implies want[commands@.len() + i] == #[trigger] next[i] by {
                assert(rest[i + 1] == next[i]);
            }
        }
        ofs = ofs + pkt;
    }
    assert(tf_cmds(data@, base as int, ofs as int, end as int).len() == 0);
    assert(commands@.len() == want.len());
    commands
}

/// Elements of `size` bytes read from UNPACK data: `num` of them, as far as
/// they lie in the data.
pub open spec fn tf_elem_count(len: int, num: int, size: int) -> int {
    if num < len / size {
        num
    } else {
        len / size
    }
}

/// The signed halfword at `off`.
pub open spec fn s16_at(d: Seq<u8>, off: int) -> i16 {
    signed16(le_u16(d, off)) as i16
}

/// The UNPACK data of a command (empty for other commands).
pub open spec fn unpack_bytes(c: TfragVifCmd) -> Seq<u8> {
    match c.unpack {
        Some(u) => u.data@,
        None => Seq::empty(),
    }
}

/// V4_8 elements (4 bytes each) of UNPACK data.
pub open spec fn v48(d: Seq<u8>, num: int) -> Seq<[u8; 4]> {
    Seq::new(
        tf_elem_count(d.len() as int, num, 4) as nat,
        |i: int| [d[4 * i], d[4 * i + 1], d[4 * i + 2], d[4 * i + 3]],
    )
}

/// V4_16 elements (four signed halfwords, 8 bytes each) of UNPACK data.
pub open spec fn v416(d: Seq<u8>, num: int) -> Seq<[i16; 4]> {
    Seq::new(
        tf_elem_count(d.len() as int, num, 8) as nat,
        |i: int| [s16_at(d, 8 * i), s16_at(d, 8 * i + 2), s16_at(d, 8 * i + 4), s16_at(d, 8 * i + 6)],
    )
}

/// V3_16 elements (three signed halfwords, 6 bytes each) of UNPACK data.
pub open spec fn v316(d: Seq<u8>, num: int) -> Seq<[i16; 3]> {
    Seq::new(
        tf_elem_count(d.len() as int, num, 6) as nat,
        |i: int| [s16_at(d, 6 * i), s16_at(d, 6 * i + 2), s16_at(d, 6 * i + 4)],
    )
}

/// Read V4_8 elements of an UNPACK (see [`v48`]).
pub fn read_unpack_v4_8(cmd: &TfragVifCmd) -> (r: Vec<[u8; 4]>)
    ensures
        r@ == v48(unpack_bytes(*cmd), cmd.num as int),
{
    let mut elems: Vec<[u8; 4]> = Vec::new();
    let data = match &cmd.unpack {
        Some(u) => &u.data,
        None => {
            assert(elems@ =~= v48(unpack_bytes(*cmd), cmd.num as int));
            return elems;
        },
    };
    let n = cmd.num as usize;
    let cnt = if n < data.len() / 4 {
        n
    } else {
        data.len() / 4
    };
    let ghost want = v48(data@, cmd.num as int);
    let mut i: usize = 0;
    while i < cnt
        invariant
            i <= cnt <= data@.len() / 4,
            data@.len() <= usize::MAX,
            want == v48(data@, cmd.num as int),
            want.len() == cnt,
            elems@ == want.subrange(0, i as int),
        decreases cnt - i,
    {
        let off = 4 * i;
        let e = [data[off], data[off + 1], data[off + 2], data[off + 3]];
        assert(e == want[i as int]);
        elems.push(e);
        i += 1;
        assert(elems@ =~= want.subrange(0, i as int));
    }
    assert(want.subrange(0, cnt as int) =~= want);
    elems
}

/// Read V4_16 elements of an UNPACK (see [`v416`]).
pub fn read_unpack_v4_16(cmd: &TfragVifCmd) -> (r: Vec<[i16; 4]>)
    ensures
        r@ == v416(unpack_bytes(*cmd), cmd.num as int),
{
    let mut elems: Vec<[i16; 4]> = Vec::new();
    let data = match &cmd.unpack {
        Some(u) => &u.data,
        None => {
            assert(elems@ =~= v416(unpack_bytes(*cmd), cmd.num as int));
            return elems;
        },
    };
    let n = cmd.num as usize;
    let cnt = if n < data.len() / 8 {
        n
    } else {
        data.len() / 8
    };
    let ghost want = v416(data@, cmd.num as int);
    let mut i: usize = 0;
    while i < cnt
        invariant
            i <= cnt <= data@.len() / 8,
            data@.len() <= usize::MAX,
            want == v416(data@, cmd.num as int),
            want.len() == cnt,
            elems@ == want.subrange(0, i as int),
        decreases cnt - i,
    {
        let off = 8 * i;
        let e = [r_s16(data, off), r_s16(data, off + 2), r_s16(data, off + 4), r_s16(data, off + 6)];
        assert(e == want[i as int]);
        elems.push(e);
        i += 1;
        assert(elems@ =~= want.subrange(0, i as int));
    }
    assert(want.subrange(0, cnt as int) =~= want);
    elems
}

/// Read V3_16 elements of an UNPACK (see [`v316`]).
pub fn read_unpack_v3_16(cmd: &TfragVifCmd) -> (r: Vec<[i16; 3]>)
    ensures
        r@ == v316(unpack_bytes(*cmd), cmd.num as int),
{
    let mut elems: Vec<[i16; 3]> = Vec::new();
    let data = match &cmd.unpack {
        Some(u) => &u.data,
        None => {
            assert(elems@ =~= v316(unpack_bytes(*cmd), cmd.num as int));
            return elems;
        },
    };
    let n = cmd.num as usize;
    let cnt = if n < data.len() / 6 {
        n
    } else {
        data.len() / 6
    };
    let ghost want = v316(data@, cmd.num as int);
    let mut i: usize = 0;
    while i < cnt
        invariant
            i <= cnt <= data@.len() / 6,
            data@.len() <= usize::MAX,
            want == v316(data@, cmd.num as int),
            want.len() == cnt,
            elems@ == want.subrange(0, i as int),
        decreases cnt - i,
    {
        let off = 6 * i;
        let e = [r_s16(data, off), r_s16(data, off + 2), r_s16(data, off + 4)];
        assert(e == want[i as int]);
        elems.push(e);
        i += 1;
        assert(elems@ =~= want.subrange(0, i as int));
    }
    assert(want.subrange(0, cnt as int) =~= want);
    elems
}

/// The bytes of a list of 4-byte elements, in order.
pub open spec fn flatten(s: Seq<[u8; 4]>) -> Seq<u8>
    decreases s.len(),
{
    if s.len() == 0 {
        Seq::empty()
    } else {
        let l = s.last();
        flatten(s.drop_last()) + seq![l[0], l[1], l[2], l[3]]
    }
}

/// Flatten 4-byte elements into bytes.
pub fn flatten_indices(data_list: &[[u8; 4]]) -> (flat: Vec<u8>)
    ensures
        flat@ == flatten(data_list@),
{
    let mut flat: Vec<u8> = Vec::new();
    let mut i: usize = 0;
    while i < data_list.len()
        invariant
            i <= data_list@.len(),
            flat@ == flatten(data_list@.subrange(0, i as int)),
        decreases data_list@.len() - i,
    {
        let e = data_list[i];
        assert(data_list@.subrange(0, i + 1).drop_last() =~= data_list@.subrange(0, i as int));
        flat.push(e[0]);
        flat.push(e[1]);
        flat.push(e[2]);
        flat.push(e[3]);
        i += 1;
        assert(flat@ =~= flatten(data_list@.subrange(0, i as int)));
    }
    assert(data_list@.subrange(0, data_list@.len() as int) =~= data_list@);
    flat
}

/// Two's complement reading of a byte.
pub open spec fn sbyte(b: u8) -> int {
    if b < 128 {
        b as int
    } else {
        b - 256
    }
}

/// Index byte `k` as a vertex index, -1 past the indices.
pub open spec fn index_or(ind: Seq<u8>, k: int) -> i32 {
    if 0 <= k < ind.len() {
        ind[k] as i32
    } else {
        -1i32
    }
}

/// The faces of one strip of `vc` vertices from index `next`, with texture
/// `active`: for an even count, quads from every other vertex (corners
/// 2, 3, 1, 0 of each run of four); for an odd one, triangles (the fourth
/// corner -1).
pub open spec fn strip_faces(ind: Seq<u8>, vc: int, active: i32, next: int) -> Seq<(i32, [i32; 4])> {
    if vc % 2 == 0 {
        Seq::new(
            (if vc >= 2 {
                (vc - 2) / 2
            } else {
                0
            }) as nat,
            |q: int|
                (
                    active,
                    [
                        index_or(ind, next + 2 * q + 2),
                        index_or(ind, next + 2 * q + 3),
                        index_or(ind, next + 2 * q + 1),
                        index_or(ind, next + 2 * q),
                    ],
                ),
        )
    } else {
        Seq::new(
            (if vc >= 2 {
                vc - 2
            } else {
                0
            }) as nat,
            |i: int|
                (
                    active,
                    [index_or(ind, next + i), index_or(ind, next + i + 1), index_or(ind, next + i + 2), -1i32],
                ),
        )
    }
}

/// The faces of strips `k..` (see [`strip_faces`]): a strip with a zero
/// count ends them; one with a negative count selects texture `b / 5` when
/// its third byte `b` is not negative.
pub open spec fn faces_from(strips: Seq<[u8; 4]>, ind: Seq<u8>, k: int, active: i32, next: int) -> Seq<
    (i32, [i32; 4]),
>
    decreases strips.len() - k,
{
    if k < 0 || k >= strips.len() {
        Seq::empty()
    } else {
        let vc = sbyte(strips[k][0]);
        if vc == 0 {
            Seq::empty()
        } else if vc < 0 {
            let a = if sbyte(strips[k][2]) >= 0 {
                (strips[k][2] / 5) as i32
            } else {
                active
            };
            faces_from(strips, ind, k + 1, a, next)
        } else {
            strip_faces(ind, vc, active, next) + faces_from(strips, ind, k + 1, active, next + vc)
        }
    }
}

/// The index byte at `k`, -1 past the indices.
fn index_at(indices: &[u8], k: u128) -> (r: i32)
    ensures
        r == index_or(indices@, k as int),
{
    if k < indices.len() as u128 {
        indices[k as usize] as i32
    } else {
        -1
    }
}

/// The faces the strips describe (see [`faces_from`]): (texture, corner
/// indices), the fourth corner -1 for a triangle.
pub fn recover_faces(strips: &[[u8; 4]], indices: &[u8]) -> (r: Vec<(i32, [i32; 4])>)
    ensures
        r@ == faces_from(strips@, indices@, 0, -1i32, 0),
{
    let ghost want = faces_from(strips@, indices@, 0, -1i32, 0);
    let mut faces: Vec<(i32, [i32; 4])> = Vec::new();
    let mut active: i32 = -1;
    let mut next: u128 = 0;
    let mut k: usize = 0;
    let ns = strips.len();
    while k < ns
        invariant_except_break
            faces@ + faces_from(strips@, indices@, k as int, active, next as int) == want,
        invariant
            k <= strips@.len(),
            next <= 128 * k,
            k <= usize::MAX,
            ns == strips@.len(),
        ensures
            faces@ == want,
        decreases strips@.len() - k,
    {
        let strip = strips[k];
        let b0 = strip[0];
        let vc: i32 = if b0 < 128 {
            b0 as i32
        } else {
            b0 as i32 - 256
        };
        if vc == 0 {
            assert(faces@ + Seq::<(i32, [i32; 4])>::empty() =~= faces@);
            break;
        }
        if vc < 0 {
            let b2 = strip[2];
            if b2 < 128 {
                active = (b2 / 5) as i32;
            }
            k += 1;
            continue;
        }
        let ghost sf = strip_faces(indices@, vc as int, active, next as int);
        let ghost before = faces@;
        if vc % 2 == 0 {
            let nq = ((vc - 2) / 2) as u128;
            let mut q: u128 = 0;
            while q < nq
                invariant
                    q <= nq,
                    nq == (vc - 2) / 2,
                    2 <= vc <= 127,
                    vc % 2 == 0,
                    next <= 128 * k,
                    k < strips@.len(),
                    k <= usize::MAX,
                    sf == strip_faces(indices@, vc as int, active, next as int),
                    faces@ == before + sf.subrange(0, q as int),
                decreases nq - q,
            {
                let base = next + 2 * q;
                let f = (active, [index_at(indices, base + 2), index_at(indices, base + 3), index_at(indices, base + 1), index_at(indices, base)]);
                assert(f == sf[q as int]);
                faces.push(f);
                q += 1;
                assert(faces@ =~= before + sf.subrange(0, q as int));
            }
        } else {
            let nt: u128 = if vc >= 2 {
                (vc - 2) as u128
            } else {
                0
            };
            let mut q: u128 = 0;
            while q < nt
                invariant
                    q <= nt,
                    nt == (if vc >= 2 {
                        vc - 2
                    } else {
                        0
                    }),
                    1 <= vc <= 127,
                    vc % 2 == 1,
                    next <= 128 * k,
                    k < strips@.len(),
                    k <= usize::MAX,
                    sf == strip_faces(indices@, vc as int, active, next as int),
                    faces@ == before + sf.subrange(0, q as int),
                decreases nt - q,
            {
                let base = next + q;
                let f = (active, [index_at(indices, base), index_at(indices, base + 1), index_at(indices, base + 2), -1i32]);
                assert(f == sf[q as int]);
                faces.push(f);
                q += 1;
                assert(faces@ =~= before + sf.subrange(0, q as int));
            }
        }
        assert(sf.subrange(0, sf.len() as int) =~= sf);
        proof {
            let rest = faces_from(strips@, indices@, k + 1, active, next + vc);
            assert(before + (sf + rest) =~= faces@ + rest);
        }
        next = next + vc as u128;
        k += 1;
    }
    proof {
        if k >= strips@.len() {
            assert(faces@ + Seq::<(i32, [i32; 4])>::empty() =~= faces@);
        }
    }
    faces
}

/// The strips and indices a LOD section's V4_8 UNPACKs fill (from command
/// `k` on): each one goes to the strips while they are empty, else to the
/// indices while those are empty.
pub open spec fn strip_slots(cs: Seq<TfCmd>, k: int, strips: Seq<[u8; 4]>, idx: Seq<[u8; 4]>) -> (
    Seq<[u8; 4]>,
    Seq<[u8; 4]>,
)
    decreases cs.len() - k,
{
    if k < 0 || k >= cs.len() {
        (strips, idx)
    } else {
        match cs[k].unpack {
            Some((v, q, d)) => if v == 14 {
                let e = v48(d, cs[k].num);
                if strips.len() == 0 {
                    strip_slots(cs, k + 1, e, idx)
                } else if idx.len() == 0 {
                    strip_slots(cs, k + 1, strips, e)
                } else {
                    strip_slots(cs, k + 1, strips, idx)
                }
            } else {
                strip_slots(cs, k + 1, strips, idx)
            },
            None => strip_slots(cs, k + 1, strips, idx),
        }
    }
}

/// The vertex infos (V4_16) and positions (V3_16) a section's UNPACKs fill
/// (from command `k` on, the first UNPACK skipped unless `seen`): each slot
/// takes the first of its format while empty.
pub open spec fn vertex_slots(cs: Seq<TfCmd>, k: int, seen: bool, vi: Seq<[i16; 4]>, pos: Seq<[i16; 3]>) -> (
    Seq<[i16; 4]>,
    Seq<[i16; 3]>,
)
    decreases cs.len() - k,
{
    if k < 0 || k >= cs.len() {
        (vi, pos)
    } else {
        match cs[k].unpack {
            Some((v, q, d)) => if !seen {
                vertex_slots(cs, k + 1, true, vi, pos)
            } else if v == 13 && vi.len() == 0 {
                vertex_slots(cs, k + 1, true, v416(d, cs[k].num), pos)
            } else if v == 9 && pos.len() == 0 {
                vertex_slots(cs, k + 1, true, vi, v316(d, cs[k].num))
            } else {
                vertex_slots(cs, k + 1, true, vi, pos)
            },
            None => vertex_slots(cs, k + 1, seen, vi, pos),
        }
    }
}

/// What the LOD 0 section's UNPACKs fill (from command `k` on): positions
/// (V3_16, first one while empty), strips and indices (V4_8, as in
/// [`strip_slots`]), vertex infos (V4_16, first one while empty).
pub struct Lod0Slots {
    pub pos: Seq<[i16; 3]>,
    pub strips: Seq<[u8; 4]>,
    pub idx: Seq<[u8; 4]>,
    pub vi: Seq<[i16; 4]>,
}

/// The LOD 0 slots from command `k` on.
pub open spec fn lod0_slots(cs: Seq<TfCmd>, k: int, acc: Lod0Slots) -> Lod0Slots
    decreases cs.len() - k,
{
    if k < 0 || k >= cs.len() {
        acc
    } else {
        match cs[k].unpack {
            Some((v, q, d)) => if v == 9 && acc.pos.len() == 0 {
                lod0_slots(cs, k + 1, Lod0Slots { pos: v316(d, cs[k].num), ..acc })
            } else if v == 14 {
                if acc.strips.len() == 0 {
                    lod0_slots(cs, k + 1, Lod0Slots { strips: v48(d, cs[k].num), ..acc })
                } else if acc.idx.len() == 0 {
                    lod0_slots(cs, k + 1, Lod0Slots { idx: v48(d, cs[k].num), ..acc })
                } else {
                    lod0_slots(cs, k + 1, acc)
                }
            } else if v == 13 && acc.vi.len() == 0 {
                lod0_slots(cs, k + 1, Lod0Slots { vi: v416(d, cs[k].num), ..acc })
            } else {
                lod0_slots(cs, k + 1, acc)
            },
            None => lod0_slots(cs, k + 1, acc),
        }
    }
}

/// Offset (from the list's start) of the second STROW command.
pub open spec fn second_strow(cs: Seq<TfCmd>, k: int, seen: int) -> Option<int>
    decreases cs.len() - k,
{
    if k < 0 || k >= cs.len() {
        None
    } else if cs[k].cmd == 0x30 {
        if seen >= 1 {
            Some(cs[k].off)
        } else {
            second_strow(cs, k + 1, seen + 1)
        }
    } else {
        second_strow(cs, k + 1, seen)
    }
}

/// The commands of the section at `start` of `size` bytes, when it is read:
/// a non-empty size and a code word inside the data.
pub open spec fn section_cmds(data: Seq<u8>, start: int, size: int) -> Option<Seq<TfCmd>> {
    if size > 0 && start + 4 <= data.len() {
        Some(tf_cmds(data, start, start, tf_list_end(data.len() as int, start, size)))
    } else {
        None
    }
}

/// `b - a`, 0 when negative.
pub open spec fn sat_sub(b: int, a: int) -> int {
    if b > a {
        b - a
    } else {
        0
    }
}

/// Size of the LOD 0 section: the RGBA offset less the other sections'
/// quadwords (none when those counts go negative), else the LOD 0 size
/// field when that is 0 or past 0x10000.
pub open spec fn lod0_size(h: TfragHeader) -> int {
    let sub = h.lod_1_size + h.lod_2_size - h.common_size;
    let s = if sub < 0 {
        0
    } else {
        sat_sub(h.rgba_ofs as int, sub * 16)
    };
    if s == 0 || s > 0x10000 {
        h.lod_0_size * 16
    } else {
        s
    }
}

/// Texture indices of the tfrag: the third word of each 16-byte texture
/// entry from `t0`, at most `tc` of them, as far as they lie in the data.
pub open spec fn tex_indices(data: Seq<u8>, t0: int, tc: int) -> Seq<u32> {
    let n = if t0 + 16 > data.len() {
        0
    } else if tc < (data.len() - t0 - 16) / 16 + 1 {
        tc
    } else {
        (data.len() - t0 - 16) / 16 + 1
    };
    Seq::new(n as nat, |i: int| le_u32(data, t0 + 16 * i + 8) as u32)
}

/// What a tfrag's sections hold.
pub struct TfSections {
    pub base: Option<[i32; 4]>,
    pub lod2: (Seq<[u8; 4]>, Seq<[u8; 4]>),
    pub lod1: (Seq<[u8; 4]>, Seq<[u8; 4]>),
    pub lod0: Lod0Slots,
    pub common: (Seq<[i16; 4]>, Seq<[i16; 3]>),
    pub lod01: (Seq<[i16; 4]>, Seq<[i16; 3]>),
    pub tex: Seq<u32>,
}

/// The base position: the four signed words after the common section's
/// second STROW code, when they lie in the data.
pub open spec fn base_position(data: Seq<u8>, start: int, cs: Seq<TfCmd>) -> Option<[i32; 4]> {
    match second_strow(cs, 0, 0) {
        Some(off) => {
            let so = start + off + 4;
            if so + 16 <= data.len() {
                Some(
                    [
                        signed32(le_u32(data, so)) as i32,
                        signed32(le_u32(data, so + 4)) as i32,
                        signed32(le_u32(data, so + 8)) as i32,
                        signed32(le_u32(data, so + 12)) as i32,
                    ],
                )
            } else {
                None
            }
        },
        None => None,
    }
}

/// The LOD 2 strips and indices (from the LOD 2 offset to the shared one).
pub open spec fn sec_lod2(data: Seq<u8>, dbo: int, h: TfragHeader) -> (Seq<[u8; 4]>, Seq<[u8; 4]>) {
    match section_cmds(data, dbo + h.lod_2_ofs, sat_sub(h.shared_ofs as int, h.lod_2_ofs as int)) {
        Some(cs) => strip_slots(cs, 0, Seq::empty(), Seq::empty()),
        None => (Seq::empty(), Seq::empty()),
    }
}

/// The LOD 1 strips and indices (from the LOD 1 offset to the LOD 0 one).
pub open spec fn sec_lod1(data: Seq<u8>, dbo: int, h: TfragHeader) -> (Seq<[u8; 4]>, Seq<[u8; 4]>) {
    match section_cmds(data, dbo + h.lod_1_ofs, sat_sub(h.lod_0_ofs as int, h.lod_1_ofs as int)) {
        Some(cs) => strip_slots(cs, 0, Seq::empty(), Seq::empty()),
        None => (Seq::empty(), Seq::empty()),
    }
}

/// The common section (from the shared offset to the LOD 1 one): base
/// position, vertex infos and positions (its first UNPACK skipped).
pub open spec fn sec_common(data: Seq<u8>, dbo: int, h: TfragHeader) -> (
    Option<[i32; 4]>,
    (Seq<[i16; 4]>, Seq<[i16; 3]>),
) {
    let start = dbo + h.shared_ofs;
    match section_cmds(data, start, sat_sub(h.lod_1_ofs as int, h.shared_ofs as int)) {
        Some(cs) => (base_position(data, start, cs), vertex_slots(cs, 0, false, Seq::empty(), Seq::empty())),
        None => (None, (Seq::empty(), Seq::empty())),
    }
}

/// The LOD 0/1 transition section (from the LOD 0 offset to the end of the
/// LOD 1 quadwords after the shared offset): vertex infos and positions.
pub open spec fn sec_lod01(data: Seq<u8>, dbo: int, h: TfragHeader) -> (Seq<[i16; 4]>, Seq<[i16; 3]>) {
    match section_cmds(data, dbo + h.lod_0_ofs, sat_sub(h.shared_ofs + h.lod_1_size * 16, h.lod_0_ofs as int)) {
        Some(cs) => vertex_slots(cs, 0, true, Seq::empty(), Seq::empty()),
        None => (Seq::empty(), Seq::empty()),
    }
}

/// The LOD 0 section (after the shared offset and the LOD 1 quadwords, of
/// [`lod0_size`] bytes, cut at the data's end).
pub open spec fn sec_lod0(data: Seq<u8>, dbo: int, h: TfragHeader) -> Lod0Slots {
    let l0start = dbo + h.shared_ofs + h.lod_1_size * 16;
    let l0size = lod0_size(h);
    let empty0 = Lod0Slots { pos: Seq::empty(), strips: Seq::empty(), idx: Seq::empty(), vi: Seq::empty() };
    if l0size > 0 && l0start + 4 <= data.len() {
        lod0_slots(
            tf_cmds(
                data,
                l0start,
                l0start,
                tf_list_end(data.len() as int, l0start, if l0size < data.len() - l0start {
                    l0size
                } else {
                    data.len() - l0start
                }),
            ),
            0,
            empty0,
        )
    } else {
        empty0
    }
}

/// The sections of the tfrag whose data starts at `dbo`.
pub open spec fn tf_sections(data: Seq<u8>, dbo: int, h: TfragHeader) -> TfSections {
    TfSections {
        base: sec_common(data, dbo, h).0,
        lod2: sec_lod2(data, dbo, h),
        lod1: sec_lod1(data, dbo, h),
        lod0: sec_lod0(data, dbo, h),
        common: sec_common(data, dbo, h).1,
        lod01: sec_lod01(data, dbo, h),
        tex: tex_indices(data, dbo + h.tex_ofs, h.texture_count as int),
    }
}

/// Fill the strip and index slots from a section's commands.
fn fold_strip_slots(cmds: &Vec<TfragVifCmd>, Ghost(cs): Ghost<Seq<TfCmd>>) -> (r: (Vec<[u8; 4]>, Vec<[u8; 4]>))
    requires
        tf_cmds_are(cmds@, cs),
    ensures
        (r.0@, r.1@) == strip_slots(cs, 0, Seq::empty(), Seq::empty()),
{
    let ghost want = strip_slots(cs, 0, Seq::empty(), Seq::empty());
    let mut strips: Vec<[u8; 4]> = Vec::new();
    let mut idx: Vec<[u8; 4]> = Vec::new();
    let mut k: usize = 0;
    while k < cmds.len()
        invariant
            k <= cmds@.len(),
            tf_cmds_are(cmds@, cs),
            strip_slots(cs, k as int, strips@, idx@) == want,
        decreases cmds@.len() - k,
    {
        let c = &cmds[k];
        assert(tf_cmd_is(cmds@[k as int], cs[k as int]));
        match &c.unpack {
            Some(u) => {
                if u.vnvl_raw == 14 {
                    let e = read_unpack_v4_8(c);
                    if strips.len() == 0 {
                        strips = e;
                    } else if idx.len() == 0 {
                        idx = e;
                    }
                }
            },
            None => {},
        }
        k += 1;
    }
    (strips, idx)
}

/// Fill the vertex info and position slots from a section's commands.
fn fold_vertex_slots(cmds: &Vec<TfragVifCmd>, Ghost(cs): Ghost<Seq<TfCmd>>, seen0: bool) -> (r: (
    Vec<[i16; 4]>,
    Vec<[i16; 3]>,
))
    requires
        tf_cmds_are(cmds@, cs),
    ensures
        (r.0@, r.1@) == vertex_slots(cs, 0, seen0, Seq::empty(), Seq::empty()),
{
    let ghost want = vertex_slots(cs, 0, seen0, Seq::empty(), Seq::empty());
    let mut vi: Vec<[i16; 4]> = Vec::new();
    let mut pos: Vec<[i16; 3]> = Vec::new();
    let mut seen = seen0;
    let mut k: usize = 0;
    while k < cmds.len()
        invariant
            k <= cmds@.len(),
            tf_cmds_are(cmds@, cs),
            vertex_slots(cs, k as int, seen, vi@, pos@) == want,
        decreases cmds@.len() - k,
    {
        let c = &cmds[k];
        assert(tf_cmd_is(cmds@[k as int], cs[k as int]));
        match &c.unpack {
            Some(u) => {
                if !seen {
                    seen = true;
                } else if u.vnvl_raw == 13 && vi.len() == 0 {
                    vi = read_unpack_v4_16(c);
                } else if u.vnvl_raw == 9 && pos.len() == 0 {
                    pos = read_unpack_v3_16(c);
                }
            },
            None => {},
        }
        k += 1;
    }
    (vi, pos)
}

/// The LOD 0 slots as vectors.
pub struct Lod0Data {
    pub pos: Vec<[i16; 3]>,
    pub strips: Vec<[u8; 4]>,
    pub idx: Vec<[u8; 4]>,
    pub vi: Vec<[i16; 4]>,
}

/// Fill the LOD 0 slots from the section's commands.
fn fold_lod0_slots(cmds: &Vec<TfragVifCmd>, Ghost(cs): Ghost<Seq<TfCmd>>) -> (r: Lod0Data)
    requires
        tf_cmds_are(cmds@, cs),
    ensures
        (Lod0Slots { pos: r.pos@, strips: r.strips@, idx: r.idx@, vi: r.vi@ }) == lod0_slots(
            cs,
            0,
            Lod0Slots { pos: Seq::empty(), strips: Seq::empty(), idx: Seq::empty(), vi: Seq::empty() },
        ),
{
    let ghost want = lod0_slots(
        cs,
        0,
        Lod0Slots { pos: Seq::empty(), strips: Seq::empty(), idx: Seq::empty(), vi: Seq::empty() },
    );
    let mut acc = Lod0Data { pos: Vec::new(), strips: Vec::new(), idx: Vec::new(), vi: Vec::new() };
    let mut k: usize = 0;
    while k < cmds.len()
        invariant
            k <= cmds@.len(),
            tf_cmds_are(cmds@, cs),
            lod0_slots(
                cs,
                k as int,
                Lod0Slots { pos: acc.pos@, strips: acc.strips@, idx: acc.idx@, vi: acc.vi@ },
            ) == want,
        decreases cmds@.len() - k,
    {
        let c = &cmds[k];
        assert(tf_cmd_is(cmds@[k as int], cs[k as int]));
        match &c.unpack {
            Some(u) => {
                if u.vnvl_raw == 9 && acc.pos.len() == 0 {
                    acc.pos = read_unpack_v3_16(c);
                } else if u.vnvl_raw == 14 {
                    if acc.strips.len() == 0 {
                        acc.strips = read_unpack_v4_8(c);
                    } else if acc.idx.len() == 0 {
                        acc.idx = read_unpack_v4_8(c);
                    }
                } else if u.vnvl_raw == 13 && acc.vi.len() == 0 {
                    acc.vi = read_unpack_v4_16(c);
                }
            },
            None => {},
        }
        k += 1;
    }
    acc
}

/// Offset from the list's start of its second STROW command.
fn find_second_strow(cmds: &Vec<TfragVifCmd>, Ghost(cs): Ghost<Seq<TfCmd>>) -> (r: Option<u64>)
    requires
        tf_cmds_are(cmds@, cs),
    ensures
        match second_strow(cs, 0, 0) {
            Some(o) => r == Some(o as u64) && o == r->0,
            None => r is None,
        },
{
    let mut seen: u64 = 0;
    let mut k: usize = 0;
    while k < cmds.len()
        invariant
            k <= cmds@.len(),
            tf_cmds_are(cmds@, cs),
            seen <= 1,
            second_strow(cs, k as int, seen as int) == second_strow(cs, 0, 0),
        decreases cmds@.len() - k,
    {
        assert(tf_cmd_is(cmds@[k as int], cs[k as int]));
        if cmds[k].cmd == 0x30 {
            if seen >= 1 {
                return Some(cmds[k].offset_in_chain);
            }
            seen += 1;
        }
        k += 1;
    }
    None
}

/// The commands of a section (see [`section_cmds`]).
fn section_commands(data: &[u8], start: u128, size: u128) -> (r: Option<Vec<TfragVifCmd>>)
    requires
        size <= 0x100_0000,
        start <= 0x1_0000_0000_0000_0000_0000,
    ensures
        match section_cmds(data@, start as int, size as int) {
            Some(cs) => r matches Some(v) && tf_cmds_are(v@, cs),
            None => r is None,
        },
{
    if size > 0 && start + 4 <= data.len() as u128 {
        Some(read_vif_command_list(data, start as usize, size as usize))
    } else {
        None
    }
}

/// What a tfrag's sections hold, as vectors.
pub struct TfragSectionData {
    pub base: Option<[i32; 4]>,
    pub lod2: (Vec<[u8; 4]>, Vec<[u8; 4]>),
    pub lod1: (Vec<[u8; 4]>, Vec<[u8; 4]>),
    pub lod0: Lod0Data,
    pub common: (Vec<[i16; 4]>, Vec<[i16; 3]>),
    pub lod01: (Vec<[i16; 4]>, Vec<[i16; 3]>),
    pub tex: Vec<u32>,
}

/// The section data against its description.
pub open spec fn sections_are(r: TfragSectionData, s: TfSections) -> bool {
    &&& r.base == s.base
    &&& (r.lod2.0@, r.lod2.1@) == s.lod2
    &&& (r.lod1.0@, r.lod1.1@) == s.lod1
    &&& (Lod0Slots { pos: r.lod0.pos@, strips: r.lod0.strips@, idx: r.lod0.idx@, vi: r.lod0.vi@ }) == s.lod0
    &&& (r.common.0@, r.common.1@) == s.common
    &&& (r.lod01.0@, r.lod01.1@) == s.lod01
    &&& r.tex@ == s.tex
}

/// The words after the STROW code at `so - 4`.
fn read_base(data: &[u8], so: u128) -> (r: Option<[i32; 4]>)
    requires
        so <= 0x1_0000_0000_0000_0000_0000,
    ensures
        so + 16 <= data@.len() ==> r == Some(
            [
                signed32(le_u32(data@, so as int)) as i32,
                signed32(le_u32(data@, so + 4)) as i32,
                signed32(le_u32(data@, so + 8)) as i32,
                signed32(le_u32(data@, so + 12)) as i32,
            ],
        ),
        so + 16 > data@.len() ==> r is None,
{
    if so + 16 > data.len() as u128 {
        return None;
    }
    let o = so as usize;
    Some([crate::common::r_s32(data, o), crate::common::r_s32(data, o + 4), crate::common::r_s32(data, o + 8), crate::common::r_s32(data, o + 12)])
}

/// The texture indices (see [`tex_indices`]).
fn read_tex_indices(data: &[u8], t0: u128, tc: u8) -> (r: Vec<u32>)
    requires
        t0 <= 0x1_0000_0000_0000_0000_0000,
    ensures
        r@ == tex_indices(data@, t0 as int, tc as int),
{
    let ghost want = tex_indices(data@, t0 as int, tc as int);
    let len = data.len() as u128;
    let cnt: u128 = if t0 + 16 > len {
        0
    } else if (tc as u128) < (len - t0 - 16) / 16 + 1 {
        tc as u128
    } else {
        (len - t0 - 16) / 16 + 1
    };
    assert(cnt == want.len());
    let mut out: Vec<u32> = Vec::new();
    let mut ti: u128 = 0;
    while ti < cnt
        invariant
            ti <= cnt == want.len(),
            len == data@.len(),
            data@.len() <= usize::MAX,
            t0 <= 0x1_0000_0000_0000_0000_0000,
            cnt > 0 ==> t0 + 16 <= len && cnt <= (len - t0 - 16) / 16 + 1,
            want == tex_indices(data@, t0 as int, tc as int),
            out@ == want.subrange(0, ti as int),
        decreases cnt - ti,
    {
        assert(16 * ti <= len - t0 - 16) by (nonlinear_arith)
            requires
                ti < cnt,
                cnt <= (len - t0 - 16) / 16 + 1,
                t0 + 16 <= len,
        ;
        let tofs = t0 + 16 * ti;
        out.push(r_u32(data, (tofs + 8) as usize));
        ti += 1;
        assert(out@ =~= want.subrange(0, ti as int));
    }
    assert(want.subrange(0, cnt as int) =~= want);
    out
}

/// The LOD 2 section (see [`sec_lod2`]).
fn read_lod2(data: &[u8], dbo: u128, h: &TfragHeader) -> (r: (Vec<[u8; 4]>, Vec<[u8; 4]>))
    requires
        dbo < data@.len(),
    ensures
        (r.0@, r.1@) == sec_lod2(data@, dbo as int, *h),
{
    let dl = data.len();
    assert(dl == data@.len());
    let size: u128 = if h.shared_ofs > h.lod_2_ofs {
        (h.shared_ofs - h.lod_2_ofs) as u128
    } else {
        0
    };
    let ghost cs = section_cmds(data@, dbo + h.lod_2_ofs, size as int);
    match section_commands(data, dbo + h.lod_2_ofs as u128, size) {
        Some(cmds) => fold_strip_slots(&cmds, Ghost(cs->0)),
        None => (Vec::new(), Vec::new()),
    }
}

/// The LOD 1 section (see [`sec_lod1`]).
fn read_lod1(data: &[u8], dbo: u128, h: &TfragHeader) -> (r: (Vec<[u8; 4]>, Vec<[u8; 4]>))
    requires
        dbo < data@.len(),
    ensures
        (r.0@, r.1@) == sec_lod1(data@, dbo as int, *h),
{
    let dl = data.len();
    assert(dl == data@.len());
    let size: u128 = if h.lod_0_ofs > h.lod_1_ofs {
        (h.lod_0_ofs - h.lod_1_ofs) as u128
    } else {
        0
    };
    let ghost cs = section_cmds(data@, dbo + h.lod_1_ofs, size as int);
    match section_commands(data, dbo + h.lod_1_ofs as u128, size) {
        Some(cmds) => fold_strip_slots(&cmds, Ghost(cs->0)),
        None => (Vec::new(), Vec::new()),
    }
}

/// The common section (see [`sec_common`]).
fn read_common(data: &[u8], dbo: u128, h: &TfragHeader) -> (r: (
    Option<[i32; 4]>,
    (Vec<[i16; 4]>, Vec<[i16; 3]>),
))
    requires
        dbo < data@.len(),
    ensures
        r.0 == sec_common(data@, dbo as int, *h).0,
        (r.1.0@, r.1.1@) == sec_common(data@, dbo as int, *h).1,
{
    let dl = data.len();
    assert(dl == data@.len());
    let start = dbo + h.shared_ofs as u128;
    let size: u128 = if h.lod_1_ofs > h.shared_ofs {
        (h.lod_1_ofs - h.shared_ofs) as u128
    } else {
        0
    };
    let ghost cs = section_cmds(data@, start as int, size as int);
    match section_commands(data, start, size) {
        Some(cmds) => {
            let b = match find_second_strow(&cmds, Ghost(cs->0)) {
                Some(off) => read_base(data, start + off as u128 + 4),
                None => None,
            };
            (b, fold_vertex_slots(&cmds, Ghost(cs->0), false))
        },
        None => (None, (Vec::new(), Vec::new())),
    }
}

/// The LOD 0/1 transition section (see [`sec_lod01`]).
fn read_lod01(data: &[u8], dbo: u128, h: &TfragHeader) -> (r: (Vec<[i16; 4]>, Vec<[i16; 3]>))
    requires
        dbo < data@.len(),
    ensures
        (r.0@, r.1@) == sec_lod01(data@, dbo as int, *h),
{
    let dl = data.len();
    assert(dl == data@.len());
    let top = h.shared_ofs as u128 + (h.lod_1_size as u128) * 16;
    let size: u128 = if top > h.lod_0_ofs as u128 {
        top - h.lod_0_ofs as u128
    } else {
        0
    };
    let ghost cs = section_cmds(data@, dbo + h.lod_0_ofs, size as int);
    match section_commands(data, dbo + h.lod_0_ofs as u128, size) {
        Some(cmds) => fold_vertex_slots(&cmds, Ghost(cs->0), true),
        None => (Vec::new(), Vec::new()),
    }
}

/// The LOD 0 section (see [`sec_lod0`]).
fn read_lod0(data: &[u8], dbo: u128, h: &TfragHeader) -> (r: Lod0Data)
    requires
        dbo < data@.len(),
    ensures
        (Lod0Slots { pos: r.pos@, strips: r.strips@, idx: r.idx@, vi: r.vi@ }) == sec_lod0(data@, dbo as int, *h),
{
    let dl = data.len();
    assert(dl == data@.len());
    let l0start = dbo + h.shared_ofs as u128 + (h.lod_1_size as u128) * 16;
    let sub_pos = h.lod_1_size as u128 + h.lod_2_size as u128;
    let s0: u128 = if sub_pos < h.common_size as u128 {
        0
    } else if h.rgba_ofs as u128 > (sub_pos - h.common_size as u128) * 16 {
        h.rgba_ofs as u128 - (sub_pos - h.common_size as u128) * 16
    } else {
        0
    };
    let l0size: u128 = if s0 == 0 || s0 > 0x10000 {
        (h.lod_0_size as u128) * 16
    } else {
        s0
    };
    assert(l0size == lod0_size(*h));
    let len = data.len() as u128;
    if l0size > 0 && l0start + 4 <= len {
        let lim = if l0size < len - l0start {
            l0size
        } else {
            len - l0start
        };
        let cmds = read_vif_command_list(data, l0start as usize, lim as usize);
        fold_lod0_slots(
            &cmds,
            Ghost(tf_cmds(data@, l0start as int, l0start as int, tf_list_end(data@.len() as int, l0start as int, lim as int))),
        )
    } else {
        Lod0Data { pos: Vec::new(), strips: Vec::new(), idx: Vec::new(), vi: Vec::new() }
    }
}

/// Read the sections of the tfrag whose data starts at `dbo`.
fn read_sections(data: &[u8], dbo: u128, h: &TfragHeader) -> (r: TfragSectionData)
    requires
        dbo < data@.len(),
    ensures
        sections_are(r, tf_sections(data@, dbo as int, *h)),
{
    let dl = data.len();
    assert(dl == data@.len());
    let lod2 = read_lod2(data, dbo, h);
    let (base, common) = read_common(data, dbo, h);
    let lod1 = read_lod1(data, dbo, h);
    let lod01 = read_lod01(data, dbo, h);
    let lod0 = read_lod0(data, dbo, h);
    let tex = read_tex_indices(data, dbo + h.tex_ofs as u128, h.texture_count);
    TfragSectionData { base, lod2, lod1, lod0, common, lod01, tex }
}

/// A vertex of a tfrag mesh: its stored position (before the base position
/// is added) and its texture coordinates as raw fixed-point halfwords.
pub struct TfragVertex {
    pub pos: [i16; 3],
    pub s: u16,
    pub t: u16,
}

/// A tfrag mesh: the base position (from the common section), the vertices
/// in the order faces first use them, the triangles (vertex indices and
/// texture), and the texture indices of the fragment.
pub struct TfragMesh {
    pub base_position: Option<[i32; 4]>,
    pub vertices: Vec<TfragVertex>,
    pub triangles: Vec<(u32, u32, u32, i32)>,
    pub tex_ofs_indices: Vec<u32>,
}

/// Half of `v`, rounded toward zero.
pub open spec fn trunc_half(v: i16) -> int {
    if v >= 0 {
        v / 2
    } else {
        -((-(v as int)) / 2)
    }
}

/// A face corner names a vertex: an index into the vertex infos whose
/// position index (half its fourth component) is a position.
pub open spec fn corner_ok(vis: Seq<[i16; 4]>, npos: int, x: int) -> bool {
    0 <= x < vis.len() && 0 <= trunc_half(vis[x][3]) < npos
}

/// The mesh as faces are added: vertex infos in order of first use, their
/// slots, and the triangles.
pub struct MeshBuild {
    pub order: Seq<int>,
    pub slot: Map<int, int>,
    pub tris: Seq<(u32, u32, u32, i32)>,
}

/// Add a corner: a vertex the first time it is used.
pub open spec fn add_corner(b: MeshBuild, vis: Seq<[i16; 4]>, npos: int, x: int) -> MeshBuild {
    if corner_ok(vis, npos, x) && !b.slot.dom().contains(x) {
        MeshBuild { order: b.order.push(x), slot: b.slot.insert(x, b.order.len() as int), tris: b.tris }
    } else {
        b
    }
}

/// The vertex number of a corner, if it has one.
pub open spec fn slot_of(b: MeshBuild, x: i32) -> Option<u32> {
    if b.slot.dom().contains(x as int) {
        Some(b.slot[x as int] as u32)
    } else {
        None
    }
}

/// The triangles of a face once its corners are added: (0, 1, 2) when those
/// have vertices, and for a quad also (0, 1, 3) and (1, 2, 3).
pub open spec fn face_tris(b: MeshBuild, ad: i32, c: [i32; 4]) -> Seq<(u32, u32, u32, i32)> {
    let i0 = slot_of(b, c[0]);
    let i1 = slot_of(b, c[1]);
    let i2 = slot_of(b, c[2]);
    let i3 = slot_of(b, c[3]);
    let t1 = if i0 is Some && i1 is Some && i2 is Some {
        seq![(i0->0, i1->0, i2->0, ad)]
    } else {
        Seq::empty()
    };
    let t2 = if c[3] >= 0 && i0 is Some && i1 is Some && i3 is Some && i2 is Some {
        seq![(i0->0, i1->0, i3->0, ad), (i1->0, i2->0, i3->0, ad)]
    } else {
        Seq::empty()
    };
    t1 + t2
}

/// Add a face: its four corners, then its triangles.
pub open spec fn face_step(b: MeshBuild, vis: Seq<[i16; 4]>, npos: int, ad: i32, c: [i32; 4]) -> MeshBuild {
    let b1 = add_corner(
        add_corner(add_corner(add_corner(b, vis, npos, c[0] as int), vis, npos, c[1] as int), vis, npos, c[2] as int),
        vis,
        npos,
        c[3] as int,
    );
    MeshBuild { tris: b1.tris + face_tris(b1, ad, c), ..b1 }
}

/// The mesh after the first `n` faces.
pub open spec fn mesh_build(faces: Seq<(i32, [i32; 4])>, vis: Seq<[i16; 4]>, npos: int, n: int) -> MeshBuild
    decreases n,
{
    if n <= 0 {
        MeshBuild { order: Seq::empty(), slot: Map::empty(), tris: Seq::empty() }
    } else {
        let b = mesh_build(faces, vis, npos, n - 1);
        face_step(b, vis, npos, faces[n - 1].0, faces[n - 1].1)
    }
}

/// The vertex of vertex info `x`.
pub open spec fn vertex_of(vis: Seq<[i16; 4]>, poss: Seq<[i16; 3]>, x: int) -> TfragVertex {
    TfragVertex { pos: poss[trunc_half(vis[x][3])], s: vis[x][0] as u16, t: vis[x][1] as u16 }
}

/// The first full (strips, indices) pair in the order the level of detail
/// asks for: 0 takes LOD 0, 1, 2; 1 takes LOD 1, 0, 2; others 2, 1, 0.
pub open spec fn pick_pair(
    lod: u32,
    p0: (Seq<[u8; 4]>, Seq<[u8; 4]>),
    p1: (Seq<[u8; 4]>, Seq<[u8; 4]>),
    p2: (Seq<[u8; 4]>, Seq<[u8; 4]>),
) -> (Seq<[u8; 4]>, Seq<[u8; 4]>) {
    let full = |p: (Seq<[u8; 4]>, Seq<[u8; 4]>)| p.0.len() > 0 && p.1.len() > 0;
    let order = if lod == 0 {
        seq![p0, p1, p2]
    } else if lod == 1 {
        seq![p1, p0, p2]
    } else {
        seq![p2, p1, p0]
    };
    if full(order[0]) {
        order[0]
    } else if full(order[1]) {
        order[1]
    } else if full(order[2]) {
        order[2]
    } else {
        (Seq::empty(), Seq::empty())
    }
}

/// The mesh of a tfrag: nothing when its data offset lies past the data,
/// it has no vertex infos or positions, or no vertex or triangle comes out.
pub open spec fn tfrag_mesh(data: Seq<u8>, table_base: int, h: TfragHeader, lod: u32) -> Option<
    (Option<[i32; 4]>, Seq<TfragVertex>, Seq<(u32, u32, u32, i32)>, Seq<u32>),
> {
    let dbo = table_base + h.data;
    if dbo >= data.len() {
        None
    } else {
        let sec = tf_sections(data, dbo, h);
        let poss = sec.common.1 + sec.lod01.1 + sec.lod0.pos;
        let vis = sec.common.0 + sec.lod01.0 + sec.lod0.vi;
        if vis.len() == 0 || poss.len() == 0 {
            None
        } else {
            let pair = pick_pair(lod, (sec.lod0.strips, sec.lod0.idx), sec.lod1, sec.lod2);
            let faces = if pair.0.len() > 0 && pair.1.len() > 0 {
                faces_from(pair.0, flatten(pair.1), 0, -1i32, 0)
            } else {
                Seq::empty()
            };
            let b = mesh_build(faces, vis, poss.len() as int, faces.len() as int);
            if b.order.len() == 0 || b.tris.len() == 0 {
                None
            } else {
                Some(
                    (
                        sec.base,
                        Seq::new(b.order.len(), |k: int| vertex_of(vis, poss, b.order[k])),
                        b.tris,
                        sec.tex,
                    ),
                )
            }
        }
    }
}

/// Half of `v`, rounded toward zero.
fn half_toward_zero(v: i16) -> (r: i32)
    ensures
        r == trunc_half(v),
{
    let w = v as i32;
    if w >= 0 {
        w / 2
    } else {
        -((-w) / 2)
    }
}

/// The vertex slots and vertices match a build state.
pub open spec fn state_matches(
    slots: Seq<Option<u32>>,
    verts: Seq<TfragVertex>,
    b: MeshBuild,
    vis: Seq<[i16; 4]>,
    poss: Seq<[i16; 3]>,
) -> bool {
    &&& slots.len() == vis.len()
    &&& forall|x: int|
        0 <= x < vis.len() ==> #[trigger] slots[x] == (if b.slot.dom().contains(x) {
            Some(b.slot[x] as u32)
        } else {
            None
        })
    &&& forall|x: int| #[trigger] b.slot.dom().contains(x) ==> 0 <= x < vis.len()
    &&& verts.len() == b.order.len()
    &&& forall|k: int| 0 <= k < verts.len() ==> #[trigger] verts[k] == vertex_of(vis, poss, b.order[k])
}

/// Add one corner (see [`add_corner`]).
fn add_corner_exec(
    slots: &mut Vec<Option<u32>>,
    verts: &mut Vec<TfragVertex>,
    vis: &Vec<[i16; 4]>,
    poss: &Vec<[i16; 3]>,
    x: i32,
    Ghost(b): Ghost<MeshBuild>,
) -> (nb: Ghost<MeshBuild>)
    requires
        state_matches(old(slots)@, old(verts)@, b, vis@, poss@),
    ensures
        nb@ == add_corner(b, vis@, poss@.len() as int, x as int),
        nb@.tris == b.tris,
        state_matches(final(slots)@, final(verts)@, nb@, vis@, poss@),
{
    if x < 0 || x as usize >= vis.len() {
        return Ghost(b);
    }
    let xi = x as usize;
    let info = vis[xi];
    let ph = half_toward_zero(info[3]);
    if ph < 0 || ph as usize >= poss.len() {
        return Ghost(b);
    }
    assert(corner_ok(vis@, poss@.len() as int, x as int));
    match slots[xi] {
        Some(_) => {
            assert(slots@[xi as int] is Some);
            Ghost(b)
        },
        None => {
            let ghost nb = add_corner(b, vis@, poss@.len() as int, x as int);
            let nv = verts.len() as u32;
            let p = poss[ph as usize];
            let v = TfragVertex { pos: p, s: info[0] as u16, t: info[1] as u16 };
            assert(v == vertex_of(vis@, poss@, x as int));
            slots.set(xi, Some(nv));
            verts.push(v);
            proof {
                assert(nb.order == b.order.push(x as int));
                assert forall|y: int| 0 <= y < vis@.len() implies #[trigger] slots@[y] == (if nb.slot.dom().contains(y) {
                    Some(nb.slot[y] as u32)
                } else {
                    None
                }) by {
                    if y == x {
                    } else {
                        assert(slots@[y] == old(slots)@[y]);
                    }
                }
                assert forall|k: int| 0 <= k < verts@.len() implies #[trigger] verts@[k] == vertex_of(
                    vis@,
                    poss@,
                    nb.order[k],
                ) by {
                    if k < old(verts)@.len() {
                        assert(verts@[k] == old(verts)@[k]);
                    }
                }
            }
            Ghost(nb)
        },
    }
}

/// The vertex number of a corner (see [`slot_of`]).
fn lookup_corner(slots: &Vec<Option<u32>>, x: i32, Ghost(b): Ghost<MeshBuild>, Ghost(nvi): Ghost<int>) -> (r: Option<u32>)
    requires
        slots@.len() == nvi,
        forall|y: int|
            0 <= y < nvi ==> #[trigger] slots@[y] == (if b.slot.dom().contains(y) {
                Some(b.slot[y] as u32)
            } else {
                None
            }),
        forall|y: int| #[trigger] b.slot.dom().contains(y) ==> 0 <= y < nvi,
    ensures
        r == slot_of(b, x),
{
    if x < 0 || x as usize >= slots.len() {
        return None;
    }
    slots[x as usize]
}

/// Build the mesh of the faces (see [`mesh_build`]).
fn build_mesh(faces: &Vec<(i32, [i32; 4])>, vis: &Vec<[i16; 4]>, poss: &Vec<[i16; 3]>) -> (r: (
    Vec<TfragVertex>,
    Vec<(u32, u32, u32, i32)>,
))
    ensures
        ({
            let b = mesh_build(faces@, vis@, poss@.len() as int, faces@.len() as int);
            &&& r.0@ == Seq::new(b.order.len(), |k: int| vertex_of(vis@, poss@, b.order[k]))
            &&& r.1@ == b.tris
        }),
{
    let mut slots: Vec<Option<u32>> = Vec::new();
    let mut q: usize = 0;
    while q < vis.len()
        invariant
            q <= vis@.len(),
            slots@.len() == q,
            forall|y: int| 0 <= y < q ==> #[trigger] slots@[y] is None,
        decreases vis@.len() - q,
    {
        slots.push(None);
        q += 1;
    }
    let mut verts: Vec<TfragVertex> = Vec::new();
    let mut tris: Vec<(u32, u32, u32, i32)> = Vec::new();
    let ghost npos = poss@.len() as int;
    let ghost mut b = mesh_build(faces@, vis@, npos, 0);
    let mut fi: usize = 0;
    while fi < faces.len()
        invariant
            fi <= faces@.len(),
            npos == poss@.len(),
            b == mesh_build(faces@, vis@, npos, fi as int),
            state_matches(slots@, verts@, b, vis@, poss@),
            tris@ == b.tris,
        decreases faces@.len() - fi,
    {
        let (ad, c) = faces[fi];
        let g0 = add_corner_exec(&mut slots, &mut verts, vis, poss, c[0], Ghost(b));
        let g1 = add_corner_exec(&mut slots, &mut verts, vis, poss, c[1], g0);
        let g2 = add_corner_exec(&mut slots, &mut verts, vis, poss, c[2], g1);
        let g3 = add_corner_exec(&mut slots, &mut verts, vis, poss, c[3], g2);
        let ghost b1 = g3@;
        let i0 = lookup_corner(&slots, c[0], Ghost(b1), Ghost(vis@.len() as int));
        let i1 = lookup_corner(&slots, c[1], Ghost(b1), Ghost(vis@.len() as int));
        let i2 = lookup_corner(&slots, c[2], Ghost(b1), Ghost(vis@.len() as int));
        let i3 = lookup_corner(&slots, c[3], Ghost(b1), Ghost(vis@.len() as int));
        let ghost before = tris@;
        match (i0, i1, i2) {
            (Some(a0), Some(a1), Some(a2)) => {
                tris.push((a0, a1, a2, ad));
            },
            _ => {},
        }
        if c[3] >= 0 {
            match (i0, i1, i3, i2) {
                (Some(a0), Some(a1), Some(a3), Some(a2)) => {
                    tris.push((a0, a1, a3, ad));
                    tris.push((a1, a2, a3, ad));
                },
                _ => {},
            }
        }
        proof {
            assert(tris@ =~= before + face_tris(b1, ad, c));
            b = face_step(b, vis@, npos, ad, c);
            assert(b == mesh_build(faces@, vis@, npos, fi + 1));
        }
        fi += 1;
    }
    assert(verts@ =~= Seq::new(b.order.len(), |k: int| vertex_of(vis@, poss@, b.order[k])));
    (verts, tris)
}

/// Concatenate two vectors.
fn concat<T: Copy>(a: &Vec<T>, b: &Vec<T>) -> (r: Vec<T>)
    ensures
        r@ == a@ + b@,
{
    let mut r: Vec<T> = Vec::new();
    let mut i: usize = 0;
    while i < a.len()
        invariant
            i <= a@.len(),
            r@ == a@.subrange(0, i as int),
        decreases a@.len() - i,
    {
        r.push(a[i]);
        i += 1;
        assert(r@ =~= a@.subrange(0, i as int));
    }
    let mut j: usize = 0;
    while j < b.len()
        invariant
            i == a@.len(),
            j <= b@.len(),
            r@ == a@ + b@.subrange(0, j as int),
        decreases b@.len() - j,
    {
        r.push(b[j]);
        j += 1;
        assert(r@ =~= a@ + b@.subrange(0, j as int));
    }
    assert(b@.subrange(0, b@.len() as int) =~= b@);
    r
}

/// Read the mesh of a tfrag at level of detail `lod` (see [`tfrag_mesh`]).
pub fn read_tfrag_mesh(data: &[u8], table_base: usize, header: &TfragHeader, lod: u32) -> (r: Option<TfragMesh>)
    ensures
        match tfrag_mesh(data@, table_base as int, *header, lod) {
            None => r is None,
            Some((base, vs, ts, tex)) => r matches Some(m) && m.base_position == base && m.vertices@ == vs
                && m.triangles@ == ts && m.tex_ofs_indices@ == tex,
        },
{
    let dbo = table_base as u128 + header.data as u128;
    if dbo >= data.len() as u128 {
        return None;
    }
    let sec = read_sections(data, dbo, header);
    let poss = concat(&concat(&sec.common.1, &sec.lod01.1), &sec.lod0.pos);
    let vis = concat(&concat(&sec.common.0, &sec.lod01.0), &sec.lod0.vi);
    if vis.len() == 0 || poss.len() == 0 {
        return None;
    }
    let full0 = sec.lod0.strips.len() > 0 && sec.lod0.idx.len() > 0;
    let full1 = sec.lod1.0.len() > 0 && sec.lod1.1.len() > 0;
    let full2 = sec.lod2.0.len() > 0 && sec.lod2.1.len() > 0;
    let empty_pair: (Vec<[u8; 4]>, Vec<[u8; 4]>) = (Vec::new(), Vec::new());
    let pair: &(Vec<[u8; 4]>, Vec<[u8; 4]>);
    let p0 = (sec.lod0.strips, sec.lod0.idx);
    if lod == 0 {
        pair = if full0 {
            &p0
        } else if full1 {
            &sec.lod1
        } else if full2 {
            &sec.lod2
        } else {
            &empty_pair
        };
    } else if lod == 1 {
        pair = if full1 {
            &sec.lod1
        } else if full0 {
            &p0
        } else if full2 {
            &sec.lod2
        } else {
            &empty_pair
        };
    } else {
        pair = if full2 {
            &sec.lod2
        } else if full1 {
            &sec.lod1
        } else if full0 {
            &p0
        } else {
            &empty_pair
        };
    }
    let faces = if pair.0.len() > 0 && pair.1.len() > 0 {
        let flat = flatten_indices(pair.1.as_slice());
        recover_faces(pair.0.as_slice(), flat.as_slice())
    } else {
        Vec::new()
    };
    let (vertices, triangles) = build_mesh(&faces, &vis, &poss);
    if vertices.len() == 0 || triangles.len() == 0 {
        return None;
    }
    Some(TfragMesh { base_position: sec.base, vertices, triangles, tex_ofs_indices: sec.tex })
}


/// Every slot names a place in the vertex order, and every triangle corner
/// is a vertex number below the order's length.
pub open spec fn build_wf(b: MeshBuild) -> bool {
    &&& forall|x: int| #[trigger] b.slot.dom().contains(x) ==> 0 <= b.slot[x] < b.order.len()
    &&& forall|k: int|
        0 <= k < b.tris.len() ==> (#[trigger] b.tris[k]).0 < b.order.len() && b.tris[k].1 < b.order.len()
            && b.tris[k].2 < b.order.len()
}

/// Adding a corner only appends to the vertex order.
proof fn lemma_add_corner(b: MeshBuild, vis: Seq<[i16; 4]>, npos: int, x: int)
    requires
        build_wf(b),
    ensures
        build_wf(add_corner(b, vis, npos, x)),
        add_corner(b, vis, npos, x).tris == b.tris,
        b.order.len() <= add_corner(b, vis, npos, x).order.len() <= b.order.len() + 1,
{
}

/// The vertex order only grows as faces are added.
proof fn lemma_order_grows(faces: Seq<(i32, [i32; 4])>, vis: Seq<[i16; 4]>, npos: int, n: int, m: int)
    requires
        0 <= n <= m,
    ensures
        mesh_build(faces, vis, npos, n).order.len() <= mesh_build(faces, vis, npos, m).order.len(),
    decreases m,
{
    if n < m {
        lemma_order_grows(faces, vis, npos, n, m - 1);
        let b = mesh_build(faces, vis, npos, m - 1);
        let c = faces[m - 1].1;
        let a0 = add_corner(b, vis, npos, c[0] as int);
        let a1 = add_corner(a0, vis, npos, c[1] as int);
        let a2 = add_corner(a1, vis, npos, c[2] as int);
        let a3 = add_corner(a2, vis, npos, c[3] as int);
        assert(b.order.len() <= a0.order.len() <= a1.order.len() <= a2.order.len() <= a3.order.len());
    }
}

/// Built meshes stay well formed while their vertex count fits in 32 bits.
proof fn lemma_build_wf(faces: Seq<(i32, [i32; 4])>, vis: Seq<[i16; 4]>, npos: int, n: int, m: int)
    requires
        0 <= n <= m,
        mesh_build(faces, vis, npos, m).order.len() <= 0xFFFF_FFFF,
    ensures
        build_wf(mesh_build(faces, vis, npos, n)),
    decreases n,
{
    if n > 0 {
        lemma_build_wf(faces, vis, npos, n - 1, m);
        lemma_order_grows(faces, vis, npos, n, m);
        let b = mesh_build(faces, vis, npos, n - 1);
        let ad = faces[n - 1].0;
        let c = faces[n - 1].1;
        let a0 = add_corner(b, vis, npos, c[0] as int);
        let a1 = add_corner(a0, vis, npos, c[1] as int);
        let a2 = add_corner(a1, vis, npos, c[2] as int);
        let a3 = add_corner(a2, vis, npos, c[3] as int);
        lemma_add_corner(b, vis, npos, c[0] as int);
        lemma_add_corner(a0, vis, npos, c[1] as int);
        lemma_add_corner(a1, vis, npos, c[2] as int);
        lemma_add_corner(a2, vis, npos, c[3] as int);
        let nb = mesh_build(faces, vis, npos, n);
        assert(nb.order == a3.order);
        assert(a3.order.len() <= 0xFFFF_FFFF);
        let ft = face_tris(a3, ad, c);
        assert forall|k: int| 0 <= k < ft.len() implies (#[trigger] ft[k]).0 < a3.order.len()
            && ft[k].1 < a3.order.len() && ft[k].2 < a3.order.len() by {
            assert(a3.slot.dom().contains(c[0] as int) ==> a3.slot[c[0] as int] < a3.order.len());
            assert(a3.slot.dom().contains(c[1] as int) ==> a3.slot[c[1] as int] < a3.order.len());
            assert(a3.slot.dom().contains(c[2] as int) ==> a3.slot[c[2] as int] < a3.order.len());
            assert(a3.slot.dom().contains(c[3] as int) ==> a3.slot[c[3] as int] < a3.order.len());
        }
        assert forall|k: int| 0 <= k < nb.tris.len() implies (#[trigger] nb.tris[k]).0 < nb.order.len()
            && nb.tris[k].1 < nb.order.len() && nb.tris[k].2 < nb.order.len() by {
            if k < a3.tris.len() {
                assert(nb.tris[k] == a3.tris[k]);
            } else {
                assert(nb.tris[k] == ft[k - a3.tris.len()]);
            }
        }
    }
}

/// Every triangle of a tfrag mesh names vertices of the mesh: each corner
/// is below the vertex count (when that count fits in 32 bits).
pub proof fn lemma_tfrag_corners(data: Seq<u8>, table_base: int, h: TfragHeader, lod: u32)
    requires
        tfrag_mesh(data, table_base, h, lod) matches Some(m) && m.1.len() <= 0xFFFF_FFFF,
    ensures
        tfrag_mesh(data, table_base, h, lod) matches Some(m) && forall|k: int|
            0 <= k < m.2.len() ==> (#[trigger] m.2[k]).0 < m.1.len() && m.2[k].1 < m.1.len()
                && m.2[k].2 < m.1.len(),
{
    let dbo = table_base + h.data;
    let sec = tf_sections(data, dbo, h);
    let poss = sec.common.1 + sec.lod01.1 + sec.lod0.pos;
    let vis = sec.common.0 + sec.lod01.0 + sec.lod0.vi;
    let pair = pick_pair(lod, (sec.lod0.strips, sec.lod0.idx), sec.lod1, sec.lod2);
    let faces = if pair.0.len() > 0 && pair.1.len() > 0 {
        faces_from(pair.0, flatten(pair.1), 0, -1i32, 0)
    } else {
        Seq::empty()
    };
    let n = faces.len() as int;
    lemma_build_wf(faces, vis, poss.len() as int, n, n);
}


/// A strip of `vc` vertices (a positive count) whose indices start at `next`
/// opens the faces from it on: for an odd count, triangle `t` is the three
/// consecutive strip entries `t`, `t + 1`, `t + 2`; for an even count, quad
/// `q` is the entries `2q + 2`, `2q + 3`, `2q + 1`, `2q`; every face carries
/// the active texture (a corner past the indices reads -1).
pub proof fn lemma_strip_faces_consecutive(
    strips: Seq<[u8; 4]>,
    ind: Seq<u8>,
    k: int,
    active: i32,
    next: int,
    t: int,
)
    requires
        0 <= k < strips.len(),
        0 <= next,
        1 <= strips[k][0] < 128,
        0 <= t,
        strips[k][0] % 2 == 1 ==> t < strips[k][0] - 2,
        strips[k][0] % 2 == 0 ==> 2 * t < strips[k][0] - 2,
    ensures
        ({
            let f = faces_from(strips, ind, k, active, next);
            let c = |j: int|
                if j < ind.len() {
                    ind[j] as i32
                } else {
                    -1i32
                };
            &&& t < f.len()
            &&& f[t].0 == active
            &&& strips[k][0] % 2 == 1 ==> f[t].1 == [c(next + t), c(next + t + 1), c(next + t + 2), -1i32]
            &&& strips[k][0] % 2 == 0 ==> f[t].1 == [
                c(next + 2 * t + 2),
                c(next + 2 * t + 3),
                c(next + 2 * t + 1),
                c(next + 2 * t),
            ]
        }),
{
    let vc = strips[k][0] as int;
    assert(sbyte(strips[k][0]) == vc);
    let sf = strip_faces(ind, vc, active, next);
    let f = faces_from(strips, ind, k, active, next);
    assert(f == sf + faces_from(strips, ind, k + 1, active, next + vc));
    assert(t < sf.len());
    assert(f[t] == sf[t]);
}


/// Strips chain: the faces from a strip of `vc` vertices (a positive count)
/// on are that strip's faces (`vc - 2` triangles for an odd count,
/// `(vc - 2) / 2` quads for an even one) followed by the faces of the next
/// strips, whose indices start `vc` entries further; a strip with a
/// negative count draws nothing and selects texture `b / 5` by its third
/// byte `b` when that byte is not negative; a zero count ends the strips.
pub proof fn lemma_strips_chain(strips: Seq<[u8; 4]>, ind: Seq<u8>, k: int, active: i32, next: int)
    requires
        0 <= k < strips.len(),
    ensures
        ({
            let f = faces_from(strips, ind, k, active, next);
            let vc = strips[k][0] as int;
            let nf = if vc % 2 == 1 {
                vc - 2
            } else {
                (vc - 2) / 2
            };
            &&& vc == 0 ==> f.len() == 0
            &&& 1 <= vc < 128 ==> {
                let g = faces_from(strips, ind, k + 1, active, next + vc);
                &&& f.len() == (if nf > 0 {
                    nf
                } else {
                    0
                }) + g.len()
                &&& forall|t: int| 0 <= t < g.len() ==> f[(if nf > 0 {
                    nf
                } else {
                    0
                }) + t] == #[trigger] g[t]
            }
            &&& vc >= 128 ==> {
                let a = if strips[k][2] < 128 {
                    (strips[k][2] / 5) as i32
                } else {
                    active
                };
                f == faces_from(strips, ind, k + 1, a, next)
            }
        }),
{
    let vc = strips[k][0] as int;
    if 1 <= vc < 128 {
        assert(sbyte(strips[k][0]) == vc);
        let sf = strip_faces(ind, vc, active, next);
        let g = faces_from(strips, ind, k + 1, active, next + vc);
        let f = faces_from(strips, ind, k, active, next);
        assert(f == sf + g);
        assert forall|t: int| 0 <= t < g.len() implies f[sf.len() + t] == #[trigger] g[t] by {}
    }
}

} // verus!
