//! Moby class meshes: the class header, the packet table, each packet's VIF
//! command list (with raw-data blocks) and vertex table (with the
//! "7 vertices ahead" index encoding), and the triangle strips of the index
//! stream.

use vstd::prelude::*;
use crate::common::{le_u16, le_u32, r_s16, r_u16, r_u32, r_u8, signed16, signed32};
use crate::types::{spec_is_unpack, vif_code, VifCmd};
use crate::vif::{read_vif_code, spec_unpack_element_size, unpack_element_size, vif_word_cmd};
use crate::wad::copy_range;

verus! {

/// What the moby extractor needs of a class header.
pub struct MobyClassInfo {
    pub packet_table_offset: u32,
    pub high_lod_count: u32,
    pub low_lod_count: u32,
    pub metal_count: u32,
    pub total_packets: u32,
}

/// The end of the class header: the first entry of the sequence offset
/// table (entries `i..n`, after the 0x48-byte header) that lies in the data
/// and is past 0x48, or 0x48.
pub open spec fn header_end_from(data: Seq<u8>, base: int, i: int, n: int) -> int
    decreases n - i,
{
    if i >= n {
        0x48
    } else {
        let so = base + 0x48 + 4 * i;
        if so + 4 <= data.len() && signed32(le_u32(data, so)) > 0x48 {
            le_u32(data, so)
        } else {
            header_end_from(data, base, i + 1, n)
        }
    }
}

/// Read the class header at `base_ofs`: nothing when it does not fit or its
/// packet table offset is 0; the packet table offset is moved to the end of
/// the header (see [`header_end_from`]) when it points inside it.
pub fn parse_moby_class_header(data: &[u8], base_ofs: usize) -> (r: Option<MobyClassInfo>)
    ensures
        (base_ofs + 0x48 > data@.len() || le_u32(data@, base_ofs as int) == 0) ==> r is None,
        !(base_ofs + 0x48 > data@.len() || le_u32(data@, base_ofs as int) == 0) ==> ({
            let b = base_ofs as int;
            let pto = le_u32(data@, b);
            let he = header_end_from(data@, b, 0, data@[b + 12] as int);
            r matches Some(info) && info.packet_table_offset == (if pto < he {
                he
            } else {
                pto
            }) && info.high_lod_count == data@[b + 4] && info.low_lod_count == data@[b + 5]
                && info.metal_count == data@[b + 6] && info.total_packets == data@[b + 4]
                + data@[b + 5] + data@[b + 6]
        }),
{
    if base_ofs > data.len() || data.len() - base_ofs < 0x48 {
        return None;
    }
    let pto = r_u32(data, base_ofs);
    if pto == 0 {
        return None;
    }
    let high_lod = r_u8(data, base_ofs + 4) as u32;
    let low_lod = r_u8(data, base_ofs + 5) as u32;
    let metal = r_u8(data, base_ofs + 6) as u32;
    let seq_count = r_u8(data, base_ofs + 12) as usize;
    // Determine header end from sequence offset table
    let mut header_end: u32 = 0x48;
    let mut i: usize = 0;
    while i < seq_count
        invariant_except_break
            header_end_from(data@, base_ofs as int, i as int, seq_count as int) == header_end_from(
                data@,
                base_ofs as int,
                0,
                seq_count as int,
            ),
            header_end == 0x48,
        invariant
            i <= seq_count < 256,
            base_ofs + 0x48 <= data@.len(),
        ensures
            header_end == header_end_from(data@, base_ofs as int, 0, seq_count as int),
        decreases seq_count - i,
    {
        let rem = data.len() - (base_ofs + 0x48);
        if i * 4 <= rem && rem - i * 4 >= 4 {
            let so = base_ofs + 0x48 + i * 4;
            let seq_off = r_u32(data, so);
            if seq_off > 0x48 && seq_off < 0x8000_0000 {
                header_end = seq_off;
                break;
            }
        }
        i += 1;
    }
    let pto = if pto < header_end {
        header_end
    } else {
        pto
    };
    Some(
        MobyClassInfo {
            packet_table_offset: pto,
            high_lod_count: high_lod,
            low_lod_count: low_lod,
            metal_count: metal,
            total_packets: high_lod + low_lod + metal,
        },
    )
}

/// A VIF command of a moby packet with its data: UNPACKs with what follows
/// them, and raw-data blocks taken as V4_8 UNPACKs.
pub struct VifCommandEx {
    pub vnvl_raw: u8,
    pub num: u16,
    pub imm: u16,
    pub data: Vec<u8>,
}

/// A command of [`moby_vif_list`]: format, element count, immediate, and
/// the range of its data.
pub type MobyVifEntry = (u8, u16, u16, int, int);

/// The high 7 bits' command byte of a VIF word (the UNPACK format byte).
pub open spec fn high_cmd_byte(val: u32) -> u32 {
    (val >> 24u32) & 0x7fu32
}

/// First word at or after `scan` (4-byte steps, before `end`) whose high
/// command byte looks like an UNPACK (bits 5 and 6 set), or `end`.
pub open spec fn next_unpack(data: Seq<u8>, scan: int, end: int) -> int
    decreases end - scan,
{
    if scan < 0 || scan + 4 > end {
        end
    } else if high_cmd_byte(le_u32(data, scan) as u32) & 0x60u32 == 0x60u32 {
        scan
    } else {
        next_unpack(data, scan + 4, end)
    }
}

/// Element count of an UNPACK word (bits 16..24, 0 meaning 256).
pub open spec fn unpack_num(val: u32) -> int {
    let n = (val / 0x1_0000) % 0x100;
    if n == 0 {
        256
    } else {
        n as int
    }
}

/// How the moby command-list reader takes a word.
#[derive(PartialEq, Eq, Structural)]
pub enum MobyWord {
    /// Skipped: NOP, FLUSH, or a command it does not handle.
    Skip,
    /// DIRECT / DIRECTHL: the list ends.
    Stop,
    /// An UNPACK (by its low byte).
    Unpack,
    /// Raw data (high byte 0x52).
    Raw,
}

/// The kind of the word `val`.
#[verifier::opaque]
pub open spec fn moby_word(val: u32) -> MobyWord {
    let c = vif_code(vif_word_cmd(val));
    if c == 0x00 || c == 0x51 || c == 0x50 {
        MobyWord::Skip
    } else if c == 0x60 || c == 0x61 {
        MobyWord::Stop
    } else if spec_is_unpack(vif_word_cmd(val)) {
        MobyWord::Unpack
    } else if high_cmd_byte(val) == 0x52 {
        MobyWord::Raw
    } else {
        MobyWord::Skip
    }
}

fn classify_word(val: u32) -> (k: MobyWord)
    ensures
        k == moby_word(val),
{
    reveal(moby_word);
    let (cmd, _imm, _qwc) = read_vif_code(val);
    let code = cmd.code();
    assert(code == vif_code(vif_word_cmd(val)));
    if code == 0x00 || code == 0x51 || code == 0x50 {
        MobyWord::Skip
    } else if code == 0x60 || code == 0x61 {
        MobyWord::Stop
    } else if cmd.is_unpack() {
        MobyWord::Unpack
    } else if (val >> 24) & 0x7f == 0x52 {
        MobyWord::Raw
    } else {
        MobyWord::Skip
    }
}

/// Bytes of `num` elements of `es` bytes (es being 1, 2 or 4).
pub open spec fn unpack_bytes(num: int, es: int) -> int {
    if es == 1 {
        num
    } else if es == 2 {
        2 * num
    } else {
        4 * num
    }
}

/// The command list of a moby packet from `offset` to `end`: NOP and FLUSH
/// words are skipped, DIRECT ends the list; an UNPACK (by its low byte)
/// takes the quadwords its high byte and count call for (cut at `end`); a
/// word whose high byte is 0x52 is raw data from the end of the last UNPACK
/// (`prev`, or the next word) to the next UNPACK-looking word, taken as a
/// V4_8 UNPACK; other words are skipped. Gives the commands and where the
/// list stops.
#[verifier::opaque]
pub open spec fn moby_vif_list(data: Seq<u8>, offset: int, end: int, prev: int) -> (
    Seq<MobyVifEntry>,
    int,
)
    decreases (if offset < end {
        end - offset
    } else {
        0
    }),
{
    if offset < 0 || offset + 4 > end {
        (Seq::empty(), offset)
    } else {
        let val = le_u32(data, offset) as u32;
        let cb = high_cmd_byte(val);
        let imm = (val / 0x1_0000) as u16;
        match moby_word(val) {
            MobyWord::Skip => moby_vif_list(data, offset + 4, end, prev),
            MobyWord::Stop => (Seq::empty(), offset),
            MobyWord::Unpack => {
                let num = unpack_num(val);
                let total = unpack_bytes(num, spec_unpack_element_size(cb as u8) as int);
                let qwc = (total + 15) / 16;
                let ds = offset + 4;
                let de = if ds + qwc * 16 < end {
                    ds + qwc * 16
                } else {
                    end
                };
                let next = offset + 4 + qwc * 16;
                let rest = moby_vif_list(data, next, end, next);
                (seq![((cb % 16) as u8, num as u16, imm, ds, de)] + rest.0, rest.1)
            },
            MobyWord::Raw => {
                let ds = if prev > 0 {
                    prev
                } else {
                    offset + 4
                };
                let nu = next_unpack(data, ds, end);
                if nu > ds || (nu == end && ds <= end) {
                    let actual = nu - ds;
                    let rest = moby_vif_list(data, offset + 4 + actual, end, prev);
                    (
                        seq![(0x0Eu8, ((actual + 15) / 16 * 16) as u16, 0u16, ds, nu)] + rest.0,
                        rest.1,
                    )
                } else {
                    moby_vif_list(data, offset + 4, end, prev)
                }
            },
        }
    }
}

/// `cmds` are the commands `entries` read from `data`.
pub open spec fn moby_commands_read(data: Seq<u8>, entries: Seq<MobyVifEntry>, cmds: Seq<VifCommandEx>) -> bool {
    &&& cmds.len() == entries.len()
    &&& forall|k: int|
        0 <= k < cmds.len() ==> {
            let (vnvl, num, imm, ds, de) = entries[k];
            &&& (#[trigger] cmds[k]).vnvl_raw == vnvl
            &&& cmds[k].num == num
            &&& cmds[k].imm == imm
            &&& cmds[k].data@ == data.subrange(ds, de)
        }
}

proof fn lemma_next_unpack(data: Seq<u8>, scan: int, end: int)
    requires
        0 <= scan <= end,
    ensures
        scan <= next_unpack(data, scan, end) <= end,
    decreases end - scan,
{
    if scan + 4 <= end && !(high_cmd_byte(le_u32(data, scan) as u32) & 0x60u32 == 0x60u32) {
        lemma_next_unpack(data, scan + 4, end);
    }
}

#[verifier::rlimit(60)]
proof fn lemma_moby_vif_list(data: Seq<u8>, offset: int, end: int, prev: int)
    requires
        0 <= offset,
        0 <= prev <= offset,
    ensures
        ({
            let (entries, stop) = moby_vif_list(data, offset, end, prev);
            &&& offset <= stop
            &&& (offset <= end ==> stop <= 2 * end + 0x1000)
            &&& forall|k: int|
                0 <= k < entries.len() ==> {
                    let (vnvl, num, imm, ds, de) = #[trigger] entries[k];
                    0 <= ds <= de <= end
                }
        }),
    decreases (if offset < end {
        end - offset
    } else {
        0
    }),
{
    reveal(moby_vif_list);
    if offset + 4 <= end {
        let val = le_u32(data, offset) as u32;
        let cb = high_cmd_byte(val);
        match moby_word(val) {
            MobyWord::Skip => {
                lemma_moby_vif_list(data, offset + 4, end, prev);
            },
            MobyWord::Stop => {},
            MobyWord::Unpack => {
                let num = unpack_num(val);
                let total = unpack_bytes(num, spec_unpack_element_size(cb as u8) as int);
                let qwc = (total + 15) / 16;
                let next = offset + 4 + qwc * 16;
                lemma_moby_vif_list(data, next, end, next);
                let rest = moby_vif_list(data, next, end, next);
                let entries = moby_vif_list(data, offset, end, prev).0;
                assert forall|k: int| 0 <= k < entries.len() implies {
                    let (vnvl, num, imm, ds, de) = #[trigger] entries[k];
                    0 <= ds <= de <= end
                } by {
                    if k > 0 {
                        assert(entries[k] == rest.0[k - 1]);
                    }
                }
            },
            MobyWord::Raw => {
                let ds = if prev > 0 {
                    prev
                } else {
                    offset + 4
                };
                lemma_next_unpack(data, ds, end);
                let nu = next_unpack(data, ds, end);
                if nu > ds || (nu == end && ds <= end) {
                    let actual = nu - ds;
                    lemma_moby_vif_list(data, offset + 4 + actual, end, prev);
                    let rest = moby_vif_list(data, offset + 4 + actual, end, prev);
                    let entries = moby_vif_list(data, offset, end, prev).0;
                    assert forall|k: int| 0 <= k < entries.len() implies {
                        let (vnvl, num, imm, ds, de) = #[trigger] entries[k];
                        0 <= ds <= de <= end
                    } by {
                        if k > 0 {
                            assert(entries[k] == rest.0[k - 1]);
                        }
                    }
                } else {
                    lemma_moby_vif_list(data, offset + 4, end, prev);
                }
            },
        }
    }
}

/// The list ends where no word is left.
proof fn lemma_moby_vif_list_done(data: Seq<u8>, offset: int, end: int, prev: int)
    requires
        offset + 4 > end,
    ensures
        moby_vif_list(data, offset, end, prev) == (Seq::<MobyVifEntry>::empty(), offset),
{
    reveal(moby_vif_list);
}

/// Parse the VIF command list of a moby packet (see [`moby_vif_list`]):
/// the commands and the number of bytes the list took.
#[verifier::rlimit(50)]
pub fn read_vif_command_list_moby(data: &[u8], base_ofs: usize, max_size: usize) -> (r: (
    Vec<VifCommandEx>,
    usize,
))
    requires
        base_ofs + max_size <= usize::MAX,
        2 * data@.len() + 0x2000 <= usize::MAX,
    ensures
        ({
            let end = if base_ofs + max_size < data@.len() {
                (base_ofs + max_size) as int
            } else {
                data@.len() as int
            };
            let (entries, stop) = moby_vif_list(data@, base_ofs as int, end, 0);
            &&& moby_commands_read(data@, entries, r.0@)
            &&& r.1 == stop - base_ofs
        }),
{
    let end = if base_ofs + max_size < data.len() {
        base_ofs + max_size
    } else {
        data.len()
    };
    if base_ofs > end {
        proof {
            lemma_moby_vif_list_done(data@, base_ofs as int, end as int, 0);
        }
        return (Vec::new(), 0);
    }
    let ghost full = moby_vif_list(data@, base_ofs as int, end as int, 0);
    proof {
        lemma_moby_vif_list(data@, base_ofs as int, end as int, 0);
    }
    let mut commands: Vec<VifCommandEx> = Vec::new();
    let mut offset = base_ofs;
    let mut prev_unpack_end: usize = 0;
    let ghost mut done: Seq<MobyVifEntry> = Seq::empty();
    proof {
        if offset + 4 > end {
            lemma_moby_vif_list_done(data@, offset as int, end as int, 0);
        }
    }
    while offset <= end && end - offset >= 4
        invariant_except_break
            full.0 == done + moby_vif_list(data@, offset as int, end as int, prev_unpack_end as int).0,
        invariant
            end <= data@.len(),
            2 * data@.len() + 0x2000 <= usize::MAX,
            base_ofs <= offset,
            offset <= 2 * end + 0x1000,
            prev_unpack_end <= offset,
            full == moby_vif_list(data@, base_ofs as int, end as int, 0),
            moby_vif_list(data@, offset as int, end as int, prev_unpack_end as int).1 == full.1,
            offset + 4 > end ==> moby_vif_list(data@, offset as int, end as int, prev_unpack_end as int)
                == (Seq::<MobyVifEntry>::empty(), offset as int),
            moby_commands_read(data@, done, commands@),
            forall|k: int|
                0 <= k < done.len() ==> {
                    let (vnvl, num, imm, ds, de) = #[trigger] done[k];
                    ds <= de <= end
                },
        ensures
            full.0 == done,
            offset == full.1,
        decreases (if offset <= end {
            end - offset + 1
        } else {
            0
        }),
    {
        let ghost rest = moby_vif_list(data@, offset as int, end as int, prev_unpack_end as int);
        proof {
            lemma_moby_vif_list(data@, offset as int, end as int, prev_unpack_end as int);
        }
        let val = r_u32(data, offset);
        let cmd_byte = (val >> 24) & 0x7f;
        let n = ((val >> 16) & 0xff) as u16;
        let num: u16 = if n == 0 {
            256
        } else {
            n
        };
        assert(((val >> 16u32) & 0xffu32) as int == (val / 0x1_0000) % 0x100) by (bit_vector);
        let (_cmd, imm, _qwc) = read_vif_code(val);
        let kind = classify_word(val);
        let ghost cb = high_cmd_byte(val);
        assert(cmd_byte == cb);
        if kind == MobyWord::Skip {
            assert(rest == moby_vif_list(data@, offset + 4, end as int, prev_unpack_end as int)) by {
                reveal(moby_vif_list);
            }
            offset += 4;
            proof {
                if offset + 4 > end {
                    lemma_moby_vif_list_done(data@, offset as int, end as int, prev_unpack_end as int);
                }
            }
            continue;
        }
        if kind == MobyWord::Stop {
            assert(rest == (Seq::<MobyVifEntry>::empty(), offset as int)) by {
                reveal(moby_vif_list);
            }
            assert(full.0 =~= done);
            break;
        }
        let ghost k = commands@.len() as int;
        if kind == MobyWord::Unpack {
            let elem_sz = unpack_element_size(cmd_byte as u8);
            let total: u32 = if elem_sz == 1 {
                num as u32
            } else if elem_sz == 2 {
                2 * (num as u32)
            } else {
                4 * (num as u32)
            };
            let t15 = total + 15;
            let aligned = t15 & !15u32;
            assert(t15 & !15u32 == t15 / 16 * 16) by (bit_vector)
                requires
                    t15 <= 1039,
            ;
            let qwc = aligned / 16;
            let pkt_size = 4 + qwc * 16;
            let data_start = offset + 4;
            let data_end = if data_start + (qwc as usize) * 16 < end {
                data_start + (qwc as usize) * 16
            } else {
                end
            };
            let raw = copy_range(data, data_start, data_end);
            let vnvl = (cmd_byte & 0x0f) as u8;
            assert(cmd_byte & 0x0fu32 == cmd_byte % 16) by (bit_vector);
            let ghost next = offset + pkt_size;
            let ghost entry: MobyVifEntry = (vnvl, num, imm, data_start as int, data_end as int);
            assert(rest == (
                seq![entry] + moby_vif_list(data@, next, end as int, next).0,
                moby_vif_list(data@, next, end as int, next).1,
            )) by {
                reveal(moby_vif_list);
            }
            let c = VifCommandEx { vnvl_raw: vnvl, num, imm, data: raw };
            commands.push(c);
            assert(commands@[k] == c);
            proof {
                done = done.push(entry);
                assert(full.0 =~= done + moby_vif_list(data@, next, end as int, next).0);
            }
            prev_unpack_end = offset + pkt_size as usize;
            offset = offset + pkt_size as usize;
        } else {
            // RAW_DATA: scan forward for next UNPACK
            let data_start = if prev_unpack_end > 0 {
                prev_unpack_end
            } else {
                offset + 4
            };
            let mut scan = data_start;
            let mut next_unpack_pos = end;
            proof {
                lemma_next_unpack(data@, data_start as int, end as int);
            }
            while scan <= end && end - scan >= 4
                invariant_except_break
                    next_unpack_pos == end,
                invariant
                    data_start <= scan,
                    end <= data@.len(),
                    next_unpack(data@, scan as int, end as int) == next_unpack(
                        data@,
                        data_start as int,
                        end as int,
                    ),
                ensures
                    next_unpack_pos == next_unpack(data@, data_start as int, end as int),
                decreases end + 4 - scan,
            {
                let sv = r_u32(data, scan);
                let sc = (sv >> 24) & 0x7f;
                if (sc & 0x60) == 0x60 {
                    next_unpack_pos = scan;
                    break;
                }
                scan += 4;
            }
            let data_size = next_unpack_pos - data_start;
            if data_size > 0 || next_unpack_pos == end {
                let actual_size = if next_unpack_pos == end {
                    end - data_start
                } else {
                    data_size
                };
                let raw = copy_range(data, data_start, data_start + actual_size);
                let qwc = (actual_size + 15) / 16;
                let ghost next = offset + 4 + actual_size;
                let ghost entry: MobyVifEntry = (
                    0x0Eu8,
                    (qwc * 16) as u16,
                    0u16,
                    data_start as int,
                    next_unpack_pos as int,
                );
                assert(rest == (
                    seq![entry] + moby_vif_list(data@, next, end as int, prev_unpack_end as int).0,
                    moby_vif_list(data@, next, end as int, prev_unpack_end as int).1,
                )) by {
                    reveal(moby_vif_list);
                }
                let c = VifCommandEx { vnvl_raw: 0x0E, num: (qwc * 16) as u16, imm: 0, data: raw };
                commands.push(c);
                assert(commands@[k] == c);
                proof {
                    done = done.push(entry);
                    assert(full.0 =~= done + moby_vif_list(
                        data@,
                        next,
                        end as int,
                        prev_unpack_end as int,
                    ).0);
                }
                offset = offset + 4 + actual_size;
            } else {
                assert(rest == moby_vif_list(data@, offset + 4, end as int, prev_unpack_end as int))
                    by {
                    reveal(moby_vif_list);
                }
                offset += 4;
            }
        }
        proof {
            if offset + 4 > end {
                lemma_moby_vif_list_done(data@, offset as int, end as int, prev_unpack_end as int);
            }
        }
    }
    (commands, offset - base_ofs)
}

/// A vertex of a moby vertex table (16 bytes): the low halfword (whose low
/// 9 bits name a vertex), the normal's spherical angles, the position, and
/// the vertex index it ends up with.
pub struct MobyVertex {
    pub low_halfword: u16,
    pub normal_az: u8,
    pub normal_el: u8,
    pub x: i16,
    pub y: i16,
    pub z: i16,
    pub vertex_index: u32,
}

/// A packet's vertex table.
pub struct VertexTable {
    pub vertices: Vec<MobyVertex>,
    pub duplicate_vertices: Vec<u32>,
    pub two_way_blend_count: u32,
    pub three_way_blend_count: u32,
    pub main_vertex_count: u32,
}

/// The header fields of a vertex table at `h`, as a metal table (odd
/// halfwords 1, 3, 5 zero) or a standard one reads them: matrix transfer
/// count, two-way and three-way blend counts, main count, duplicate count,
/// and vertex table offset.
pub open spec fn vt_fields(data: Seq<u8>, h: int) -> (int, int, int, int, int, int) {
    let hw = |k: int| le_u16(data, h + 2 * k);
    if hw(1) == 0 && hw(3) == 0 && hw(5) == 0 {
        (0, 0, hw(2), hw(4), hw(6), 16)
    } else {
        (hw(0), hw(1), hw(2), hw(3), hw(4), hw(6))
    }
}

/// The table at `h` is a metal one.
pub open spec fn vt_is_metal(data: Seq<u8>, h: int) -> bool {
    le_u16(data, h + 2) == 0 && le_u16(data, h + 6) == 0 && le_u16(data, h + 10) == 0
}

/// Vertices stored in the table (two-way + three-way + main).
pub open spec fn vt_in_file(data: Seq<u8>, h: int) -> int {
    let f = vt_fields(data, h);
    f.1 + f.2 + f.3
}

/// Start of the vertex records.
pub open spec fn vt_vofs(data: Seq<u8>, h: int) -> int {
    h + vt_fields(data, h).5
}

/// Epilogue vertices (at most 6) that follow the stored ones, from the
/// packet's vertex data size in quadwords.
pub open spec fn vt_epilogue(data: Seq<u8>, h: int, vds: int) -> int {
    let a = vds - vt_fields(data, h).5 / 16 - vt_in_file(data, h);
    if 0 <= a < 6 {
        a
    } else {
        6
    }
}

/// Epilogue records that lie in the data.
pub open spec fn vt_epilogue_read(data: Seq<u8>, h: int, vds: int) -> int {
    let ev0 = vt_vofs(data, h) + 16 * vt_in_file(data, h);
    let fit = (data.len() - ev0) / 16;
    if vt_epilogue(data, h, vds) < fit {
        vt_epilogue(data, h, vds)
    } else {
        fit
    }
}

/// The vertex index of stored vertex `j`: the low 9 bits of the low
/// halfword of the vertex 7 ahead; past the stored ones, of the epilogue
/// record in its place, then of the extra halfwords of the last epilogue
/// record read; else its own.
pub open spec fn vt_vertex_index(data: Seq<u8>, h: int, vds: int, j: int) -> int {
    let n = vt_in_file(data, h);
    let vofs = vt_vofs(data, h);
    let ev0 = vofs + 16 * n;
    let ep = vt_epilogue(data, h, vds);
    let m = vt_epilogue_read(data, h, vds);
    let e = j + 7 - n;
    if j + 7 < n {
        le_u16(data, vofs + 16 * (j + 7)) % 512
    } else if e < m {
        le_u16(data, ev0 + 16 * e) % 512
    } else if ep > 0 && ep <= e < 6 && ev0 + 16 * m - 16 + 4 + 2 * (e - ep) + 2 <= data.len() {
        le_u16(data, ev0 + 16 * m - 16 + 4 + 2 * (e - ep)) % 512
    } else {
        le_u16(data, vofs + 16 * j) % 512
    }
}

/// Where the duplicate vertex list starts: after the epilogue for a metal
/// table; after the matrix transfers (2 bytes each, then aligned to 8 as the
/// game does) for a standard one.
pub open spec fn vt_dup_start(data: Seq<u8>, h: int, vds: int) -> int {
    if vt_is_metal(data, h) {
        vt_vofs(data, h) + 16 * (vt_in_file(data, h) + vt_epilogue(data, h, vds))
    } else {
        let b0 = h + 16 + 2 * vt_fields(data, h).0;
        let b1 = if b0 % 4 != 0 {
            b0 + 2
        } else {
            b0
        };
        if b1 % 8 != 0 {
            b1 + 4
        } else {
            b1
        }
    }
}

/// The duplicate vertex entries that lie in the data.
pub open spec fn vt_dup_count(data: Seq<u8>, h: int, vds: int) -> int {
    let d = vt_dup_start(data, h, vds);
    let fit = if d + 2 <= data.len() {
        (data.len() - d) / 2
    } else {
        0
    };
    if vt_fields(data, h).4 < fit {
        vt_fields(data, h).4
    } else {
        fit
    }
}

/// The table at `h` fits: its header and its stored vertices lie in the data.
pub open spec fn vt_fits(data: Seq<u8>, h: int) -> bool {
    h + 16 <= data.len() && vt_vofs(data, h) + 16 * vt_in_file(data, h) <= data.len()
}

/// When the last epilogue record is looked back at, it lies after the start
/// of the data.
pub open spec fn vt_readable(data: Seq<u8>, h: int, vds: int) -> bool {
    vt_fits(data, h) && vt_epilogue(data, h, vds) > 0 ==> vt_vofs(data, h) + 16 * vt_in_file(data, h)
        + 16 * vt_epilogue_read(data, h, vds) >= 16
}

/// `v` is stored vertex `j` of the table at `h`.
pub open spec fn vt_vertex_read(data: Seq<u8>, h: int, vds: int, j: int, v: MobyVertex) -> bool {
    let vo = vt_vofs(data, h) + 16 * j;
    &&& v.low_halfword == le_u16(data, vo)
    &&& v.normal_az == data[vo + 8]
    &&& v.normal_el == data[vo + 9]
    &&& v.x == signed16(le_u16(data, vo + 10))
    &&& v.y == signed16(le_u16(data, vo + 12))
    &&& v.z == signed16(le_u16(data, vo + 14))
    &&& v.vertex_index == vt_vertex_index(data, h, vds, j)
}

/// Read the vertex table at `header_ofs` of a packet whose vertex data is
/// `vertex_data_size` quadwords: `None` when it does not fit (see
/// [`vt_fits`]); else its stored vertices (see [`vt_vertex_read`]), its
/// duplicate vertex entries (each halfword shifted right by 7) and counts.
pub fn read_vertex_table(data: &[u8], header_ofs: usize, vertex_data_size: u32) -> (r: Option<
    VertexTable,
>)
    requires
        data@.len() + 0x10_0000 <= usize::MAX,
        vt_readable(data@, header_ofs as int, vertex_data_size as int),
    ensures
        !vt_fits(data@, header_ofs as int) ==> r is None,
        vt_fits(data@, header_ofs as int) ==> ({
            let h = header_ofs as int;
            let vds = vertex_data_size as int;
            let f = vt_fields(data@, h);
            r matches Some(vt) && vt.vertices@.len() == vt_in_file(data@, h) && (forall|j: int|
                0 <= j < vt.vertices@.len() ==> vt_vertex_read(
                    data@,
                    h,
                    vds,
                    j,
                    #[trigger] vt.vertices@[j],
                )) && vt.duplicate_vertices@.len() == vt_dup_count(data@, h, vds) && (forall|i: int|
                0 <= i < vt.duplicate_vertices@.len() ==> #[trigger] vt.duplicate_vertices@[i]
                    == le_u16(data@, vt_dup_start(data@, h, vds) + 2 * i) / 128)
                && vt.two_way_blend_count == f.1 && vt.three_way_blend_count == f.2
                && vt.main_vertex_count == f.3
        }),
{
    let ghost h = header_ofs as int;
    let ghost vds = vertex_data_size as int;
    if header_ofs > data.len() || data.len() - header_ofs < 16 {
        return None;
    }
    let hdr0 = r_u16(data, header_ofs) as usize;
    let hdr1 = r_u16(data, header_ofs + 2) as usize;
    let hdr2 = r_u16(data, header_ofs + 4) as usize;
    let hdr3 = r_u16(data, header_ofs + 6) as usize;
    let hdr4 = r_u16(data, header_ofs + 8) as usize;
    let hdr5 = r_u16(data, header_ofs + 10) as usize;
    let hdr6 = r_u16(data, header_ofs + 12) as usize;
    let is_metal = hdr1 == 0 && hdr3 == 0 && hdr5 == 0;
    let (matrix_transfer_count, two_way, three_way, main_count, dup_count, vto) = if is_metal {
        (0usize, 0usize, hdr2, hdr4, hdr6, 16usize)
    } else {
        (hdr0, hdr1, hdr2, hdr3, hdr4, hdr6)
    };
    assert(vt_fields(data@, h) == (
        matrix_transfer_count as int,
        two_way as int,
        three_way as int,
        main_count as int,
        dup_count as int,
        vto as int,
    ));
    let n = two_way + three_way + main_count;
    let vertex_ofs = header_ofs + vto;
    if vertex_ofs > data.len() || (data.len() - vertex_ofs) / 16 < n {
        return None;
    }
    assert(vt_fits(data@, h));
    // Epilogue count
    let ghost ep = vt_epilogue(data@, h, vds);
    let vsub = vto / 16 + n;
    let epilogue: usize = if vertex_data_size as usize >= vsub && (vertex_data_size as usize - vsub)
        < 6 {
        vertex_data_size as usize - vsub
    } else {
        6
    };
    assert(epilogue == ep);
    let ev0 = vertex_ofs + n * 16;
    // Vertex indices: 7 ahead
    let mut vindex: Vec<Option<u32>> = Vec::new();
    let mut j: usize = 0;
    while j < n
        invariant
            j <= n,
            n <= 0x30000,
            data@.len() + 0x10_0000 <= usize::MAX,
            vertex_ofs + 16 * n <= data@.len(),
            vindex@.len() == j,
            forall|q: int|
                0 <= q < j ==> #[trigger] vindex@[q] == (if q + 7 < n {
                    Some((le_u16(data@, vertex_ofs + 16 * (q + 7)) % 512) as u32)
                } else {
                    None::<u32>
                }),
        decreases n - j,
    {
        if j + 7 < n {
            let low = r_u16(data, vertex_ofs + (j + 7) * 16);
            assert(low & 0x1ffu16 == low % 512) by (bit_vector);
            vindex.push(Some((low & 0x1ff) as u32));
        } else {
            vindex.push(None);
        }
        j += 1;
    }
    // Epilogue vertices
    let ghost m = vt_epilogue_read(data@, h, vds);
    if epilogue > 0 {
        let mut ev_ofs = ev0;
        let mut ei: usize = 0;
        while ei < epilogue
            invariant
                ei <= epilogue <= 6,
                ev0 == vertex_ofs + 16 * n,
                ev0 <= data@.len(),
                m == vt_epilogue_read(data@, h, vds),
                m == (if epilogue < (data@.len() - ev0) / 16 {
                    epilogue as int
                } else {
                    (data@.len() - ev0) / 16
                }),
                ev_ofs == ev0 + 16 * (if ei < m {
                    ei as int
                } else {
                    m
                }),
                vindex@.len() == n,
                forall|q: int|
                    0 <= q < n ==> #[trigger] vindex@[q] == (if q + 7 < n {
                        Some((le_u16(data@, vertex_ofs + 16 * (q + 7)) % 512) as u32)
                    } else if q + 7 - n < ei && q + 7 - n < m {
                        Some((le_u16(data@, ev0 + 16 * (q + 7 - n)) % 512) as u32)
                    } else {
                        None::<u32>
                    }),
            decreases epilogue - ei,
        {
            if ev_ofs <= data.len() && data.len() - ev_ofs >= 16 {
                let ev_low = r_u16(data, ev_ofs);
                assert(ev_low & 0x1ffu16 == ev_low % 512) by (bit_vector);
                if n + ei >= 7 && n + ei - 7 < n {
                    vindex.set(n + ei - 7, Some((ev_low & 0x1ff) as u32));
                }
                ev_ofs += 16;
            }
            ei += 1;
        }
        // Additional indices from the last epilogue record
        let last_ev_ofs = ev_ofs - 16;
        let last_v = n + epilogue;
        let mut i: usize = 0;
        while i < 6 - epilogue
            invariant
                i <= 6 - epilogue,
                0 < epilogue <= 6,
                data@.len() + 0x10_0000 <= usize::MAX,
                last_v == n + epilogue,
                0 <= m <= epilogue,
                last_ev_ofs == ev0 + 16 * m - 16,
                last_ev_ofs <= data@.len(),
                ev0 == vertex_ofs + 16 * n,
                vindex@.len() == n,
                forall|q: int|
                    0 <= q < n ==> #[trigger] vindex@[q] == (if q + 7 < n {
                        Some((le_u16(data@, vertex_ofs + 16 * (q + 7)) % 512) as u32)
                    } else if q + 7 - n < m {
                        Some((le_u16(data@, ev0 + 16 * (q + 7 - n)) % 512) as u32)
                    } else if epilogue <= q + 7 - n < epilogue + i && last_ev_ofs + 4 + 2 * (q + 7
                        - n - epilogue) + 2 <= data@.len() {
                        Some(
                            (le_u16(data@, last_ev_ofs + 4 + 2 * (q + 7 - n - epilogue)) % 512) as u32,
                        )
                    } else {
                        None::<u32>
                    }),
            decreases 6 - epilogue - i,
        {
            if last_v + i >= 7 && last_v + i - 7 < n && last_ev_ofs + 4 + i * 2 + 2 <= data.len() {
                let vi = r_u16(data, last_ev_ofs + 4 + i * 2);
                assert(vi & 0x1ffu16 == vi % 512) by (bit_vector);
                vindex.set(last_v + i - 7, Some((vi & 0x1ff) as u32));
            }
            i += 1;
        }
    }
    // Read the stored vertices; the rest take their own index
    let mut vertices: Vec<MobyVertex> = Vec::new();
    let mut k: usize = 0;
    while k < n
        invariant
            k <= n,
            vertex_ofs + 16 * n <= data@.len(),
            vertex_ofs == vt_vofs(data@, h),
            n == vt_in_file(data@, h),
            epilogue == vt_epilogue(data@, h, vds),
            m == vt_epilogue_read(data@, h, vds),
            ev0 == vertex_ofs + 16 * n,
            vindex@.len() == n,
            forall|q: int|
                0 <= q < n ==> (#[trigger] vindex@[q] matches Some(x) ==> x == vt_vertex_index(
                    data@,
                    h,
                    vds,
                    q,
                )),
            forall|q: int|
                0 <= q < n ==> (#[trigger] vindex@[q] is None ==> vt_vertex_index(data@, h, vds, q)
                    == le_u16(data@, vertex_ofs + 16 * q) % 512),
            vertices@.len() == k,
            forall|q: int| 0 <= q < k ==> vt_vertex_read(data@, h, vds, q, #[trigger] vertices@[q]),
        decreases n - k,
    {
        let vo = vertex_ofs + k * 16;
        let low = r_u16(data, vo);
        let vertex_index = match vindex[k] {
            Some(x) => x,
            None => {
                assert(low & 0x1ffu16 == low % 512) by (bit_vector);
                (low & 0x1ff) as u32
            },
        };
        let v = MobyVertex {
            low_halfword: low,
            normal_az: r_u8(data, vo + 8),
            normal_el: r_u8(data, vo + 9),
            x: r_s16(data, vo + 10),
            y: r_s16(data, vo + 12),
            z: r_s16(data, vo + 14),
            vertex_index,
        };
        vertices.push(v);
        assert(vertices@[k as int] == v);
        k += 1;
    }
    // Duplicate vertices
    let blob0 = header_ofs + 16 + matrix_transfer_count * 2;
    let blob1 = if blob0 % 4 != 0 {
        blob0 + 2
    } else {
        blob0
    };
    let blob2 = if blob1 % 8 != 0 {
        blob1 + 4
    } else {
        blob1
    };
    let dup_start = if is_metal {
        vertex_ofs + (n + epilogue) * 16
    } else {
        blob2
    };
    assert(dup_start == vt_dup_start(data@, h, vds));
    let mut dupes: Vec<u32> = Vec::new();
    let mut i: usize = 0;
    while i < dup_count
        invariant
            i <= dup_count,
            dup_count <= 0xFFFF,
            dup_start <= data@.len() + 0x30000,
            data@.len() + 0x10_0000 <= usize::MAX,
            dup_count == vt_fields(data@, h).4,
            dup_start == vt_dup_start(data@, h, vds),
            dupes@.len() == (if dup_start + 2 * i <= data@.len() {
                i as int
            } else if dup_start + 2 <= data@.len() {
                (data@.len() - dup_start) / 2
            } else {
                0
            }),
            forall|q: int|
                0 <= q < dupes@.len() ==> #[trigger] dupes@[q] == le_u16(data@, dup_start + 2 * q)
                    / 128,
        decreases dup_count - i,
    {
        let do_ = dup_start + i * 2;
        if do_ <= data.len() && data.len() - do_ >= 2 {
            let dupe_raw = r_u16(data, do_);
            assert(dupe_raw >> 7u16 == dupe_raw / 128) by (bit_vector);
            dupes.push((dupe_raw >> 7) as u32);
        }
        i += 1;
    }
    Some(
        VertexTable {
            vertices,
            duplicate_vertices: dupes,
            two_way_blend_count: two_way as u32,
            three_way_blend_count: three_way as u32,
            main_vertex_count: main_count as u32,
        },
    )
}

/// A packet of a moby class: where its command list is, how many vertices
/// it transfers, whether it is a metal packet, the data of its ST, index and
/// texture UNPACKs, and its vertex table.
pub struct PacketEntry {
    pub vif_list_offset: u32,
    pub transfer_vertex_count: u32,
    pub is_metal: bool,
    pub st_data: Vec<u8>,
    pub index_data: Vec<u8>,
    pub texture_data: Vec<u8>,
    pub vertex_table: Option<VertexTable>,
}

/// The spec-level class header: packet table offset, high, low and metal
/// packet counts.
pub open spec fn class_header(data: Seq<u8>, b: int) -> (int, int, int, int) {
    let pto = le_u32(data, b);
    let he = header_end_from(data, b, 0, data[b + 12] as int);
    (
        if pto < he {
            he
        } else {
            pto
        },
        data[b + 4] as int,
        data[b + 5] as int,
        data[b + 6] as int,
    )
}

/// Index of the last command of format `v` in `entries[0..n]`.
pub open spec fn last_with(entries: Seq<MobyVifEntry>, v: u8, n: nat) -> Option<int>
    decreases n,
{
    if n == 0 {
        None
    } else if entries[n - 1].0 == v {
        Some(n - 1)
    } else {
        last_with(entries, v, (n - 1) as nat)
    }
}

/// Index of the first command of format `v` in `entries[i..]`.
pub open spec fn first_with(entries: Seq<MobyVifEntry>, v: u8, i: int) -> Option<int>
    decreases entries.len() - i,
{
    if i < 0 || i >= entries.len() {
        None
    } else if entries[i].0 == v {
        Some(i)
    } else {
        first_with(entries, v, i + 1)
    }
}

/// The data of command `i` of `entries`, or nothing.
pub open spec fn entry_bytes(data: Seq<u8>, entries: Seq<MobyVifEntry>, i: Option<int>) -> Seq<u8> {
    match i {
        Some(k) => data.subrange(entries[k].3, entries[k].4),
        None => Seq::empty(),
    }
}

/// Byte offset of the entry of packet `pi` in the packet table.
pub open spec fn packet_pos(data: Seq<u8>, b: int, pi: int) -> int {
    b + class_header(data, b).0 + 16 * pi
}

/// The command list of packet `pi`.
pub open spec fn packet_commands(data: Seq<u8>, b: int, pi: int) -> Seq<MobyVifEntry> {
    let pe = packet_pos(data, b, pi);
    let vif_abs = b + le_u32(data, pe);
    let end = vif_abs + 16 * le_u16(data, pe + 4);
    moby_vif_list(
        data,
        vif_abs,
        if end < data.len() {
            end
        } else {
            data.len() as int
        },
        0,
    ).0
}

/// The vertex table of packet `pi` is read (its header lies in the data
/// and its vertex data is not empty).
pub open spec fn packet_has_table(data: Seq<u8>, b: int, pi: int) -> bool {
    let pe = packet_pos(data, b, pi);
    b + le_u32(data, pe + 8) + 16 <= data.len() && data[pe + 12] > 0
}

/// `p` is packet `pi` of the class at `b`: its command list offset and
/// transfer count; metal when past the high and low LOD packets; ST data from
/// the last V2_16 UNPACK, index data from the first V4_8 one (from the last
/// V4_5 one for a metal packet that has one), texture data from the first
/// V4_32 one; and its vertex table.
pub open spec fn packet_read(data: Seq<u8>, b: int, pi: int, p: PacketEntry) -> bool {
    let pe = packet_pos(data, b, pi);
    let (_, high, low, _) = class_header(data, b);
    let cmds = packet_commands(data, b, pi);
    let n = cmds.len();
    let metal = pi >= high + low;
    let v45 = last_with(cmds, 0x0F, n);
    &&& p.vif_list_offset == le_u32(data, pe)
    &&& p.transfer_vertex_count == data[pe + 15]
    &&& p.is_metal == metal
    &&& p.st_data@ == entry_bytes(data, cmds, last_with(cmds, 0x05, n))
    &&& p.index_data@ == (if metal && v45 is Some {
        entry_bytes(data, cmds, v45)
    } else {
        entry_bytes(data, cmds, first_with(cmds, 0x0E, 0))
    })
    &&& p.texture_data@ == entry_bytes(data, cmds, first_with(cmds, 0x0C, 0))
    &&& (p.vertex_table is Some <==> (packet_has_table(data, b, pi) && vt_fits(
        data,
        b + le_u32(data, pe + 8),
    )))
    &&& (p.vertex_table matches Some(vt) ==> {
        let h = b + le_u32(data, pe + 8);
        let vds = data[pe + 12] as int;
        &&& vt_fits(data, h)
        &&& vt.vertices@.len() == vt_in_file(data, h)
        &&& (forall|j: int|
            0 <= j < vt.vertices@.len() ==> vt_vertex_read(data, h, vds, j, #[trigger] vt.vertices@[j]))
        &&& vt.duplicate_vertices@.len() == vt_dup_count(data, h, vds)
        &&& forall|i: int|
            0 <= i < vt.duplicate_vertices@.len() ==> #[trigger] vt.duplicate_vertices@[i] == le_u16(
                data,
                vt_dup_start(data, h, vds) + 2 * i,
            ) / 128
    })
}

/// Every vertex table the class's packets point at can be read.
pub open spec fn class_tables_readable(data: Seq<u8>, b: int, total: int) -> bool {
    forall|pi: int|
        0 <= pi < total ==> vt_readable(
            data,
            b + le_u32(data, #[trigger] packet_pos(data, b, pi) + 8),
            data[packet_pos(data, b, pi) + 12] as int,
        )
}

fn find_last(cmds: &Vec<VifCommandEx>, v: u8, Ghost(entries): Ghost<Seq<MobyVifEntry>>) -> (r: Option<usize>)
    requires
        cmds@.len() == entries.len(),
        forall|k: int| 0 <= k < cmds@.len() ==> (#[trigger] cmds@[k]).vnvl_raw == entries[k].0,
    ensures
        r matches Some(k) ==> k < cmds@.len(),
        match r {
            Some(k) => last_with(entries, v, entries.len()) == Some(k as int),
            None => last_with(entries, v, entries.len()) is None,
        },
{
    let mut i = cmds.len();
    while i > 0
        invariant
            i <= cmds@.len() == entries.len(),
            forall|k: int| 0 <= k < cmds@.len() ==> (#[trigger] cmds@[k]).vnvl_raw == entries[k].0,
            last_with(entries, v, entries.len()) == last_with(entries, v, i as nat),
        decreases i,
    {
        if cmds[i - 1].vnvl_raw == v {
            return Some(i - 1);
        }
        i -= 1;
    }
    None
}

fn find_first(cmds: &Vec<VifCommandEx>, v: u8, Ghost(entries): Ghost<Seq<MobyVifEntry>>) -> (r: Option<usize>)
    requires
        cmds@.len() == entries.len(),
        forall|k: int| 0 <= k < cmds@.len() ==> (#[trigger] cmds@[k]).vnvl_raw == entries[k].0,
    ensures
        r matches Some(k) ==> k < cmds@.len(),
        match r {
            Some(k) => first_with(entries, v, 0) == Some(k as int),
            None => first_with(entries, v, 0) is None,
        },
{
    let mut i: usize = 0;
    while i < cmds.len()
        invariant
            i <= cmds@.len() == entries.len(),
            forall|k: int| 0 <= k < cmds@.len() ==> (#[trigger] cmds@[k]).vnvl_raw == entries[k].0,
            first_with(entries, v, 0) == first_with(entries, v, i as int),
        decreases cmds@.len() - i,
    {
        if cmds[i].vnvl_raw == v {
            return Some(i);
        }
        i += 1;
    }
    None
}

fn command_data(cmds: &Vec<VifCommandEx>, i: Option<usize>) -> (v: Vec<u8>)
    requires
        i matches Some(k) ==> k < cmds@.len(),
    ensures
        v@ == (match i {
            Some(k) => cmds@[k as int].data@,
            None => Seq::empty(),
        }),
{
    match i {
        Some(k) => copy_range(cmds[k].data.as_slice(), 0, cmds[k].data.len()),
        None => Vec::new(),
    }
}

/// Parse the moby class at `base_ofs`: `None` when its header does not read
/// (see [`parse_moby_class_header`]), names no packet table or no packet,
/// or its packet table does not fit; else its packets (see [`packet_read`]).
pub fn parse_moby_class(data: &[u8], base_ofs: usize) -> (r: Option<Vec<PacketEntry>>)
    requires
        2 * data@.len() + 0x10_0000_0000 <= usize::MAX,
        base_ofs + 0x48 <= data@.len() ==> class_tables_readable(
            data@,
            base_ofs as int,
            data@[base_ofs + 4] + data@[base_ofs + 5] + data@[base_ofs + 6],
        ),
    ensures
        ({
            let b = base_ofs as int;
            let (pto, high, low, metal) = class_header(data@, b);
            let total = high + low + metal;
            if b + 0x48 > data@.len() || le_u32(data@, b) == 0 || total == 0 || b + pto + 16 * total
                > data@.len() {
                r is None
            } else {
                r matches Some(ps) && ps@.len() == total && forall|pi: int|
                    0 <= pi < total ==> packet_read(data@, b, pi, #[trigger] ps@[pi])
            }
        }),
{
    let info = match parse_moby_class_header(data, base_ofs) {
        Some(i) => i,
        None => {
            return None;
        },
    };
    if info.packet_table_offset == 0 || info.total_packets == 0 {
        return None;
    }
    let pt_ofs = base_ofs + info.packet_table_offset as usize;
    let total = info.total_packets as usize;
    if pt_ofs > data.len() || (data.len() - pt_ofs) / 16 < total {
        return None;
    }
    let ghost b = base_ofs as int;
    let mut packets: Vec<PacketEntry> = Vec::new();
    let mut pi: usize = 0;
    while pi < total
        invariant
            pi <= total,
            total == info.total_packets,
            b == base_ofs,
            2 * data@.len() + 0x10_0000_0000 <= usize::MAX,
            base_ofs + 0x48 <= data@.len(),
            pt_ofs == b + class_header(data@, b).0,
            pt_ofs + 16 * total <= data@.len(),
            info.high_lod_count == class_header(data@, b).1,
            info.low_lod_count == class_header(data@, b).2,
            total == class_header(data@, b).1 + class_header(data@, b).2 + class_header(data@, b).3,
            class_tables_readable(data@, b, total as int),
            packets@.len() == pi,
            forall|q: int| 0 <= q < pi ==> packet_read(data@, b, q, #[trigger] packets@[q]),
        decreases total - pi,
    {
        let pe_ofs = pt_ofs + pi * 16;
        assert(pe_ofs == packet_pos(data@, b, pi as int));
        let pe0 = r_u32(data, pe_ofs);
        let pe1 = r_u16(data, pe_ofs + 4);
        let pe3 = r_u32(data, pe_ofs + 8);
        let pe4 = r_u8(data, pe_ofs + 12);
        let pe7 = r_u8(data, pe_ofs + 15);
        let vif_abs = base_ofs + pe0 as usize;
        let vif_size = pe1 as usize * 16;
        let vert_abs = base_ofs + pe3 as usize;
        let vert_size = pe4 as u32 * 16;
        let is_metal = pi >= (info.high_lod_count + info.low_lod_count) as usize;
        let (commands, _consumed) = read_vif_command_list_moby(data, vif_abs, vif_size);
        let ghost entries = packet_commands(data@, b, pi as int);
        assert(moby_commands_read(data@, entries, commands@));
        let st_i = find_last(&commands, 0x05, Ghost(entries));
        let st_data = command_data(&commands, st_i);
        let v45_i = find_last(&commands, 0x0F, Ghost(entries));
        let idx_i = if is_metal && v45_i.is_some() {
            v45_i
        } else {
            find_first(&commands, 0x0E, Ghost(entries))
        };
        let index_data = command_data(&commands, idx_i);
        let tex_i = find_first(&commands, 0x0C, Ghost(entries));
        let texture_data = command_data(&commands, tex_i);
        let vt = if vert_abs <= data.len() && data.len() - vert_abs >= 16 && vert_size > 0 {
            assert(vt_readable(data@, vert_abs as int, pe4 as int));
            read_vertex_table(data, vert_abs, pe4 as u32)
        } else {
            None
        };
        let p = PacketEntry {
            vif_list_offset: pe0,
            transfer_vertex_count: pe7 as u32,
            is_metal,
            st_data,
            index_data,
            texture_data,
            vertex_table: vt,
        };
        assert(packet_read(data@, b, pi as int, p));
        packets.push(p);
        assert(packets@[pi as int] == p);
        pi += 1;
    }
    Some(packets)
}

/// A vertex of a packet's local vertex list: the stored vertex whose
/// position and normal it takes, and the index of its texture coordinates.
pub struct LocalVertex {
    pub source: usize,
    pub uv: usize,
}

/// The last stored vertex (among the first `n`) whose vertex index is `c`.
pub open spec fn cache_source(verts: Seq<MobyVertex>, c: int, n: nat) -> Option<int>
    decreases n,
{
    if n == 0 {
        None
    } else if verts[n - 1].vertex_index % 512 == c {
        Some(n - 1)
    } else {
        cache_source(verts, c, (n - 1) as nat)
    }
}

/// The local vertices added by the first `n` duplicate entries: each one
/// whose vertex index a stored vertex has takes that vertex's position, and
/// the texture coordinates after those of the stored vertices.
pub open spec fn dup_locals(verts: Seq<MobyVertex>, dups: Seq<u32>, n: nat) -> Seq<(int, int)>
    decreases n,
{
    if n == 0 {
        Seq::empty()
    } else {
        let prev = dup_locals(verts, dups, (n - 1) as nat);
        match cache_source(verts, (dups[n - 1] % 512) as int, verts.len()) {
            Some(i) => prev.push((i, (verts.len() + n - 1) as int)),
            None => prev,
        }
    }
}

/// The local vertex list of a vertex table: the stored vertices, then the
/// duplicates (see [`dup_locals`]), as (source, uv) pairs.
pub open spec fn local_list(verts: Seq<MobyVertex>, dups: Seq<u32>) -> Seq<(int, int)> {
    Seq::new(verts.len(), |i: int| (i, i)) + dup_locals(verts, dups, dups.len())
}

/// The state of the strip decoder: position in the index stream, current
/// strip, secret pointer, active texture, triangles and their textures, and
/// whether the stream's end marker was met.
pub struct StripState {
    pub i: int,
    pub strip: Seq<u32>,
    pub ptr: int,
    pub active: int,
    pub tris: Seq<[u32; 3]>,
    pub mats: Seq<u32>,
    pub stopped: bool,
}

/// Two of the triangle's corners sit at the same position.
pub open spec fn degenerate(pos: Seq<(i16, i16, i16)>, tri: [u32; 3]) -> bool {
    pos[tri[0] as int] == pos[tri[1] as int] || pos[tri[1] as int] == pos[tri[2] as int]
        || pos[tri[0] as int] == pos[tri[2] as int]
}

/// Add vertex `vi` to the strip and emit its triangle (alternating winding)
/// unless two of its corners coincide.
pub open spec fn strip_emit(pos: Seq<(i16, i16, i16)>, s: StripState, vi: u32) -> StripState {
    let st = s.strip.push(vi);
    let k = st.len() - 1;
    if st.len() >= 3 {
        let tri = if k % 2 == 0 {
            [st[k - 2], st[k - 1], st[k]]
        } else {
            [st[k - 1], st[k - 2], st[k]]
        };
        if degenerate(pos, tri) {
            StripState { i: s.i + 1, strip: st, ..s }
        } else {
            StripState {
                i: s.i + 1,
                strip: st,
                tris: s.tris.push(tri),
                mats: s.mats.push(s.active as u32),
                ..s
            }
        }
    } else {
        StripState { i: s.i + 1, strip: st, ..s }
    }
}

/// One step of the strip decoder. Metal streams: 0 restarts the strip,
/// other values are vertex indices. Other streams: with texture markers
/// (`adgif`), 0 takes the next secret, which ends the stream when 0 and
/// selects the texture otherwise; without, 0 is skipped; a negative value
/// restarts the strip, two in a row keep its last two vertices; a positive
/// value `v` is vertex `v - 1`. Indices past the local vertices are skipped.
pub open spec fn strip_step(
    body: Seq<i16>,
    metal: bool,
    adgif: bool,
    secrets: Seq<i16>,
    pos: Seq<(i16, i16, i16)>,
    s: StripState,
) -> StripState {
    let val = body[s.i] as int;
    let nlocal = pos.len();
    if metal {
        if val == 0 {
            StripState { i: s.i + 1, strip: Seq::empty(), ..s }
        } else if val >= nlocal || val < 0 {
            StripState { i: s.i + 1, ..s }
        } else {
            strip_emit(pos, s, val as u32)
        }
    } else if val == 0 && !adgif {
        StripState { i: s.i + 1, ..s }
    } else if val == 0 {
        let secret = if s.ptr < secrets.len() {
            secrets[s.ptr] as int
        } else {
            0
        };
        let ptr = s.ptr + 1;
        let ss = if secret < 128 {
            secret
        } else {
            secret - 256
        };
        if ss == 0 {
            StripState { ptr, stopped: true, ..s }
        } else {
            StripState {
                i: s.i + 1,
                ptr,
                active: if ptr >= 2 {
                    ptr - 2
                } else {
                    s.active
                },
                ..s
            }
        }
    } else if val < 0 {
        if s.i + 1 < body.len() && body[s.i + 1] < 0 {
            StripState {
                i: s.i + 2,
                strip: if s.strip.len() >= 2 {
                    s.strip.subrange(s.strip.len() - 2, s.strip.len() as int)
                } else {
                    Seq::empty()
                },
                ..s
            }
        } else {
            StripState { i: s.i + 1, strip: Seq::empty(), ..s }
        }
    } else if val - 1 >= nlocal {
        StripState { i: s.i + 1, ..s }
    } else {
        strip_emit(pos, s, (val - 1) as u32)
    }
}

/// Run the strip decoder to the end of the stream or its end marker.
pub open spec fn strip_run(
    body: Seq<i16>,
    metal: bool,
    adgif: bool,
    secrets: Seq<i16>,
    pos: Seq<(i16, i16, i16)>,
    s: StripState,
) -> StripState
    decreases body.len() - s.i,
{
    if s.stopped || s.i < 0 || s.i >= body.len() {
        s
    } else {
        let t = strip_step(body, metal, adgif, secrets, pos, s);
        if t.i > s.i {
            strip_run(body, metal, adgif, secrets, pos, t)
        } else {
            t
        }
    }
}

/// The decoder's starting state.
pub open spec fn strip_start() -> StripState {
    StripState {
        i: 0,
        strip: Seq::empty(),
        ptr: 0,
        active: 0,
        tris: Seq::empty(),
        mats: Seq::empty(),
        stopped: false,
    }
}

/// The triangles of one packet: its local vertex list, and each triangle
/// (as local vertex indices) with its texture.
pub struct PacketMesh {
    pub vertices: Vec<LocalVertex>,
    pub triangles: Vec<[u32; 3]>,
    pub materials: Vec<u32>,
}

/// The secrets of a packet with texture markers: the signed byte at 2 of
/// its index data, then the low byte of the word at 0x0c of each 0x40-byte
/// texture primitive.
pub open spec fn packet_secrets(index: Seq<u8>, tex: Seq<u8>) -> Seq<i16> {
    seq![signed8(index[2])] + Seq::new(tex.len() / 0x40, |t: int| (le_u32(tex, 0x40 * t + 0x0c) % 256) as i16)
}

/// Two's complement reading of a byte.
pub open spec fn signed8(b: u8) -> i16 {
    if b < 128 {
        b as i16
    } else {
        (b - 256) as i16
    }
}

/// The index stream of a packet with `nlocal` local vertices: metal packets
/// take their index bytes as they are; a packet with fewer than 4 index
/// bytes draws its local vertices as one strip (none if fewer than 3); one
/// with 84 or more takes bytes 4..84 (with texture markers); the others take
/// their bytes as signed values.
pub open spec fn index_stream(p: PacketEntry, nlocal: int) -> Option<(Seq<i16>, bool)> {
    let idx = p.index_data@;
    if p.is_metal {
        Some((Seq::new(idx.len(), |k: int| idx[k] as i16), false))
    } else if idx.len() < 4 {
        if nlocal < 3 {
            None
        } else {
            Some((Seq::new(nlocal as nat, |k: int| (k + 1) as i16), false))
        }
    } else if idx.len() >= 84 {
        Some((Seq::new(80, |k: int| idx[k + 4] as i16), true))
    } else {
        Some((Seq::new(idx.len(), |k: int| signed8(idx[k])), false))
    }
}

/// The positions of a local vertex list.
pub open spec fn local_positions(verts: Seq<MobyVertex>, locals: Seq<(int, int)>) -> Seq<(i16, i16, i16)> {
    Seq::new(
        locals.len(),
        |k: int| (verts[locals[k].0].x, verts[locals[k].0].y, verts[locals[k].0].z),
    )
}

fn build_local_vertices(vt: &VertexTable) -> (locals: Vec<LocalVertex>)
    requires
        vt.vertices@.len() + vt.duplicate_vertices@.len() <= usize::MAX,
    ensures
        locals@.len() == local_list(vt.vertices@, vt.duplicate_vertices@).len(),
        forall|k: int|
            0 <= k < locals@.len() ==> ((#[trigger] locals@[k]).source as int, locals@[k].uv as int)
                == local_list(vt.vertices@, vt.duplicate_vertices@)[k],
{
    let verts = &vt.vertices;
    let dups = &vt.duplicate_vertices;
    let nv = verts.len();
    let mut cache: Vec<Option<usize>> = Vec::new();
    let mut c: usize = 0;
    while c < 512
        invariant
            c <= 512,
            cache@.len() == c,
            forall|q: int| 0 <= q < c ==> #[trigger] cache@[q] is None,
        decreases 512 - c,
    {
        cache.push(None);
        c += 1;
    }
    let mut locals: Vec<LocalVertex> = Vec::new();
    let mut i: usize = 0;
    while i < nv
        invariant
            i <= nv == verts@.len(),
            cache@.len() == 512,
            forall|q: int|
                0 <= q < 512 ==> match #[trigger] cache@[q] {
                    Some(s) => cache_source(verts@, q, i as nat) == Some(s as int),
                    None => cache_source(verts@, q, i as nat) is None,
                },
            locals@.len() == i,
            forall|k: int|
                0 <= k < i ==> (#[trigger] locals@[k]).source == k && locals@[k].uv == k,
        decreases nv - i,
    {
        let vi = verts[i].vertex_index;
        let ci = (vi & 0x1ff) as usize;
        assert(vi & 0x1ffu32 == vi % 512) by (bit_vector);
        cache.set(ci, Some(i));
        locals.push(LocalVertex { source: i, uv: i });
        i += 1;
    }
    let ghost originals = locals@;
    let mut j: usize = 0;
    while j < dups.len()
        invariant
            j <= dups@.len(),
            nv == verts@.len(),
            nv + dups@.len() <= usize::MAX,
            cache@.len() == 512,
            forall|q: int|
                0 <= q < 512 ==> match #[trigger] cache@[q] {
                    Some(s) => cache_source(verts@, q, nv as nat) == Some(s as int),
                    None => cache_source(verts@, q, nv as nat) is None,
                },
            locals@.len() == nv + dup_locals(verts@, dups@, j as nat).len(),
            forall|k: int|
                0 <= k < nv ==> (#[trigger] locals@[k]).source == k && locals@[k].uv == k,
            forall|k: int|
                0 <= k < dup_locals(verts@, dups@, j as nat).len() ==> ((#[trigger] locals@[nv
                    + k]).source as int, locals@[nv + k].uv as int) == dup_locals(
                    verts@,
                    dups@,
                    j as nat,
                )[k],
        decreases dups@.len() - j,
    {
        let d = dups[j];
        let ci = (d & 0x1ff) as usize;
        assert(d & 0x1ffu32 == d % 512) by (bit_vector);
        match cache[ci] {
            Some(src) => {
                locals.push(LocalVertex { source: src, uv: nv + j });
            },
            None => {},
        }
        j += 1;
    }
    proof {
        let ll = local_list(verts@, dups@);
        assert forall|k: int| 0 <= k < locals@.len() implies ((#[trigger] locals@[k]).source as int,
            locals@[k].uv as int) == ll[k] by {
            if k >= nv {
                assert(locals@[nv + (k - nv)] == locals@[k]);
            }
        }
    }
    locals
}

/// The secrets of a packet with texture markers (see [`packet_secrets`]).
fn secret_list(index: &[u8], tex: &[u8]) -> (s: Vec<i16>)
    requires
        index@.len() >= 84,
    ensures
        s@ == packet_secrets(index@, tex@),
{
    let b = index[2];
    let first: i16 = if b < 128 {
        b as i16
    } else {
        b as i16 - 256
    };
    let mut secs: Vec<i16> = Vec::new();
    secs.push(first);
    let n = tex.len() / 0x40;
    let mut ti: usize = 0;
    while ti < n
        invariant
            ti <= n == tex@.len() / 0x40,
            index@.len() >= 84,
            tex@.len() == tex.len(),
            secs@.len() == 1 + ti,
            secs@[0] == signed8(index@[2]),
            forall|q: int|
                0 <= q < ti ==> #[trigger] secs@[1 + q] == (le_u32(tex@, 0x40 * q + 0x0c) % 256) as i16,
        decreases n - ti,
    {
        assert(ti * 0x40 + 0x40 <= tex@.len()) by (nonlinear_arith)
            requires
                ti < n,
                n == tex@.len() / 0x40,
        ;
        let to = ti * 0x40;
        let raw = r_u32(tex, to + 0x0c);
        assert(raw & 0xffu32 == raw % 256) by (bit_vector);
        secs.push((raw & 0xff) as i16);
        ti += 1;
    }
    let ghost ps = packet_secrets(index@, tex@);
    assert forall|k: int| 0 <= k < secs@.len() implies #[trigger] secs@[k] == ps[k] by {
        if k > 0 {
            assert(secs@[1 + (k - 1)] == secs@[k]);
        }
    }
    assert(secs@ =~= ps);
    secs
}

/// The index stream of a packet (see [`index_stream`]).
fn packet_index_stream(p: &PacketEntry, nlocal: usize) -> (r: Option<(Vec<i16>, bool)>)
    ensures
        match index_stream(*p, nlocal as int) {
            Some((body, adgif)) => r matches Some((b, a)) && b@ == body && a == adgif,
            None => r is None,
        },
{
    let idx = &p.index_data;
    let mut body: Vec<i16> = Vec::new();
    if p.is_metal {
        let mut k: usize = 0;
        while k < idx.len()
            invariant
                k <= idx@.len(),
                body@.len() == k,
                forall|q: int| 0 <= q < k ==> #[trigger] body@[q] == idx@[q] as i16,
            decreases idx@.len() - k,
        {
            body.push(idx[k] as i16);
            k += 1;
        }
        assert(body@ =~= Seq::new(idx@.len(), |q: int| idx@[q] as i16));
        Some((body, false))
    } else if idx.len() < 4 {
        if nlocal < 3 {
            return None;
        }
        let mut k: usize = 0;
        while k < nlocal
            invariant
                k <= nlocal,
                body@.len() == k,
                forall|q: int| 0 <= q < k ==> #[trigger] body@[q] == (q + 1) as i16,
            decreases nlocal - k,
        {
            body.push(#[verifier::truncate] ((k + 1) as i16));
            k += 1;
        }
        assert(body@ =~= Seq::new(nlocal as nat, |q: int| (q + 1) as i16));
        Some((body, false))
    } else if idx.len() >= 84 {
        let mut k: usize = 0;
        while k < 80
            invariant
                k <= 80,
                idx@.len() >= 84,
                body@.len() == k,
                forall|q: int| 0 <= q < k ==> #[trigger] body@[q] == idx@[q + 4] as i16,
            decreases 80 - k,
        {
            body.push(idx[k + 4] as i16);
            k += 1;
        }
        assert(body@ =~= Seq::new(80, |q: int| idx@[q + 4] as i16));
        Some((body, true))
    } else {
        let mut k: usize = 0;
        while k < idx.len()
            invariant
                k <= idx@.len(),
                body@.len() == k,
                forall|q: int| 0 <= q < k ==> #[trigger] body@[q] == signed8(idx@[q]),
            decreases idx@.len() - k,
        {
            let b = idx[k];
            body.push(
                if b < 128 {
                    b as i16
                } else {
                    b as i16 - 256
                },
            );
            k += 1;
        }
        assert(body@ =~= Seq::new(idx@.len(), |q: int| signed8(idx@[q])));
        Some((body, false))
    }
}

proof fn lemma_cache_source(verts: Seq<MobyVertex>, c: int, n: nat)
    ensures
        cache_source(verts, c, n) matches Some(i) ==> 0 <= i < n,
    decreases n,
{
    if n > 0 {
        lemma_cache_source(verts, c, (n - 1) as nat);
    }
}

proof fn lemma_dup_locals(verts: Seq<MobyVertex>, dups: Seq<u32>, n: nat)
    ensures
        dup_locals(verts, dups, n).len() <= n,
        forall|k: int|
            0 <= k < dup_locals(verts, dups, n).len() ==> 0 <= (#[trigger] dup_locals(
                verts,
                dups,
                n,
            )[k]).0 < verts.len(),
    decreases n,
{
    if n > 0 {
        lemma_dup_locals(verts, dups, (n - 1) as nat);
        lemma_cache_source(verts, (dups[n - 1] % 512) as int, verts.len());
        let prev = dup_locals(verts, dups, (n - 1) as nat);
        let cur = dup_locals(verts, dups, n);
        assert forall|k: int| 0 <= k < cur.len() implies 0 <= (#[trigger] cur[k]).0 < verts.len() by {
            if k < prev.len() {
                assert(cur[k] == prev[k]);
            }
        }
    }
}

/// Run the strip decoder over an index stream (see [`strip_run`]).
fn decode_strips(
    body: &Vec<i16>,
    metal: bool,
    adgif: bool,
    secrets: &Vec<i16>,
    pos: &Vec<(i16, i16, i16)>,
) -> (r: (Vec<[u32; 3]>, Vec<u32>))
    requires
        pos@.len() <= u32::MAX,
        body@.len() < u32::MAX,
    ensures
        r.0@ == strip_run(body@, metal, adgif, secrets@, pos@, strip_start()).tris,
        r.1@ == strip_run(body@, metal, adgif, secrets@, pos@, strip_start()).mats,
{
    let ghost fin = strip_run(body@, metal, adgif, secrets@, pos@, strip_start());
    let mut i: usize = 0;
    let mut strip: Vec<u32> = Vec::new();
    let mut ptr: usize = 0;
    let mut active: u32 = 0;
    let mut tris: Vec<[u32; 3]> = Vec::new();
    let mut mats: Vec<u32> = Vec::new();
    let nlocal = pos.len();
    while i < body.len()
        invariant_except_break
            ptr <= i,
            fin == strip_run(
                body@,
                metal,
                adgif,
                secrets@,
                pos@,
                StripState {
                    i: i as int,
                    strip: strip@,
                    ptr: ptr as int,
                    active: active as int,
                    tris: tris@,
                    mats: mats@,
                    stopped: false,
                },
            ),
        invariant
            nlocal == pos@.len() <= u32::MAX,
            i <= body@.len() < u32::MAX,
            active <= i,
            fin == strip_run(body@, metal, adgif, secrets@, pos@, strip_start()),
            forall|q: int| 0 <= q < strip@.len() ==> #[trigger] strip@[q] < nlocal,
        ensures
            fin.tris == tris@,
            fin.mats == mats@,
        decreases body@.len() - i,
    {
        let ghost s = StripState {
            i: i as int,
            strip: strip@,
            ptr: ptr as int,
            active: active as int,
            tris: tris@,
            mats: mats@,
            stopped: false,
        };
        let ghost ts = strip_step(body@, metal, adgif, secrets@, pos@, s);
        let val = body[i];
        // the vertex to add to the strip, if any
        let mut add: Option<u32> = None;
        if metal {
            if val == 0 {
                strip = Vec::new();
                i += 1;
            } else if val as usize >= nlocal || val < 0 {
                i += 1;
            } else {
                add = Some(val as u32);
            }
        } else if val == 0 && !adgif {
            i += 1;
        } else if val == 0 {
            let secret: i16 = if ptr < secrets.len() {
                secrets[ptr]
            } else {
                0
            };
            ptr += 1;
            let ss: i16 = if secret < 128 {
                secret
            } else {
                secret - 256
            };
            if ss == 0 {
                assert(ts == StripState { ptr: ptr as int, stopped: true, ..s });
                assert(fin == ts);
                break;
            }
            if ptr >= 2 {
                active = (ptr - 2) as u32;
            }
            i += 1;
        } else if val < 0 {
            if i + 1 < body.len() && body[i + 1] < 0 {
                if strip.len() >= 2 {
                    let a = strip[strip.len() - 2];
                    let b = strip[strip.len() - 1];
                    let ghost old_strip = strip@;
                    strip = Vec::new();
                    strip.push(a);
                    strip.push(b);
                    assert(strip@ =~= old_strip.subrange(old_strip.len() - 2, old_strip.len() as int));
                } else {
                    strip = Vec::new();
                }
                i += 2;
            } else {
                strip = Vec::new();
                i += 1;
            }
        } else if (val - 1) as usize >= nlocal {
            i += 1;
        } else {
            add = Some((val - 1) as u32);
        }
        match add {
            Some(vi) => {
                strip.push(vi);
                let k = strip.len() - 1;
                if strip.len() >= 3 {
                    let tri: [u32; 3] = if k % 2 == 0 {
                        [strip[k - 2], strip[k - 1], strip[k]]
                    } else {
                        [strip[k - 1], strip[k - 2], strip[k]]
                    };
                    let p0 = pos[tri[0] as usize];
                    let p1 = pos[tri[1] as usize];
                    let p2 = pos[tri[2] as usize];
                    let same01 = p0.0 == p1.0 && p0.1 == p1.1 && p0.2 == p1.2;
                    let same12 = p1.0 == p2.0 && p1.1 == p2.1 && p1.2 == p2.2;
                    let same02 = p0.0 == p2.0 && p0.1 == p2.1 && p0.2 == p2.2;
                    if !(same01 || same12 || same02) {
                        tris.push(tri);
                        mats.push(active);
                    }
                }
                i += 1;
            },
            None => {},
        }
        proof {
            let t2 = StripState {
                i: i as int,
                strip: strip@,
                ptr: ptr as int,
                active: active as int,
                tris: tris@,
                mats: mats@,
                stopped: false,
            };
            assert(ts.strip =~= t2.strip);
            assert(ts.tris =~= t2.tris);
            assert(ts.mats =~= t2.mats);
            assert(ts.active == t2.active);
            assert(ts == t2);
        }
    }
    (tris, mats)
}

/// The triangles of a packet: `None` when it has no vertex table or draws
/// nothing (see [`index_stream`]); else its local vertices (see
/// [`local_list`]) and the triangles and textures the strip decoder makes of
/// its index stream (see [`strip_run`]).
pub fn moby_packet_mesh(p: &PacketEntry) -> (r: Option<PacketMesh>)
    requires
        p.index_data@.len() < u32::MAX,
        p.vertex_table matches Some(vt) ==> vt.vertices@.len() + vt.duplicate_vertices@.len()
            < u32::MAX,
    ensures
        match p.vertex_table {
            None => r is None,
            Some(vt) => {
                let locals = local_list(vt.vertices@, vt.duplicate_vertices@);
                match index_stream(*p, locals.len() as int) {
                    None => r is None,
                    Some((body, adgif)) => {
                        let secrets = if adgif {
                            packet_secrets(p.index_data@, p.texture_data@)
                        } else {
                            Seq::empty()
                        };
                        let fin = strip_run(
                            body,
                            p.is_metal,
                            adgif,
                            secrets,
                            local_positions(vt.vertices@, locals),
                            strip_start(),
                        );
                        r matches Some(m) && m.vertices@.len() == locals.len() && (forall|k: int|
                            0 <= k < locals.len() ==> ((#[trigger] m.vertices@[k]).source as int,
                            m.vertices@[k].uv as int) == locals[k]) && m.triangles@ == fin.tris
                            && m.materials@ == fin.mats
                    },
                }
            },
        },
{
    let vt = match &p.vertex_table {
        Some(v) => v,
        None => {
            return None;
        },
    };
    let locals = build_local_vertices(vt);
    let ghost ll = local_list(vt.vertices@, vt.duplicate_vertices@);
    proof {
        lemma_dup_locals(vt.vertices@, vt.duplicate_vertices@, vt.duplicate_vertices@.len());
        let dl = dup_locals(vt.vertices@, vt.duplicate_vertices@, vt.duplicate_vertices@.len());
        assert forall|q: int| 0 <= q < ll.len() implies 0 <= (#[trigger] ll[q]).0 < vt.vertices@.len() by {
            if q >= vt.vertices@.len() {
                assert(ll[q] == dl[q - vt.vertices@.len()]);
            }
        }
    }
    let (body, adgif) = match packet_index_stream(p, locals.len()) {
        Some(x) => x,
        None => {
            return None;
        },
    };
    let secrets = if adgif {
        secret_list(p.index_data.as_slice(), p.texture_data.as_slice())
    } else {
        Vec::new()
    };
    // positions of the local vertices
    let mut pos: Vec<(i16, i16, i16)> = Vec::new();
    let mut k: usize = 0;
    while k < locals.len()
        invariant
            k <= locals@.len() == ll.len(),
            ll == local_list(vt.vertices@, vt.duplicate_vertices@),
            forall|q: int|
                0 <= q < locals@.len() ==> ((#[trigger] locals@[q]).source as int, locals@[q].uv as int)
                    == ll[q],
            forall|q: int| 0 <= q < ll.len() ==> 0 <= (#[trigger] ll[q]).0 < vt.vertices@.len(),
            pos@.len() == k,
            forall|q: int|
                0 <= q < k ==> #[trigger] pos@[q] == local_positions(vt.vertices@, ll)[q],
        decreases locals@.len() - k,
    {
        let v = &vt.vertices[locals[k].source];
        pos.push((v.x, v.y, v.z));
        k += 1;
    }
    assert(pos@ =~= local_positions(vt.vertices@, ll));
    assert(pos@.len() <= u32::MAX);
    let (triangles, materials) = decode_strips(&body, p.is_metal, adgif, &secrets, &pos);
    Some(PacketMesh { vertices: locals, triangles, materials })
}

} // verus!



