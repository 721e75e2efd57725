//! VIF (Vector InterFace) command parsing, shared by the mesh extractors.

use vstd::prelude::*;
use crate::common::{le_u16, le_u32, r_u16, r_u32};
use crate::types::{is_vif_code, spec_is_unpack, vif_code, VifCmd, VifCommand};

verus! {

/// The command a VIF code word names (`Nop` for an unknown command byte).
pub open spec fn vif_word_cmd(val: u32) -> VifCmd {
    let b = (val % 0x100) as u8;
    if is_vif_code(b) {
        choose|c: VifCmd| vif_code(c) == b
    } else {
        VifCmd::Nop
    }
}

/// Decode a VIF code word: command (low byte), immediate (high half-word),
/// qword count (second byte).
pub fn read_vif_code(val: u32) -> (r: (VifCmd, u16, u8))
    ensures
        is_vif_code((val % 0x100) as u8) ==> vif_code(r.0) == val % 0x100,
        !is_vif_code((val % 0x100) as u8) ==> r.0 == VifCmd::Nop,
        r.1 as int == val / 0x1_0000,
        r.2 as int == (val / 0x100) % 0x100,
{
    let cmd_byte = (val & 0xFF) as u8;
    let imm = ((val >> 16) & 0xFFFF) as u16;
    let qwc = ((val >> 8) & 0xFF) as u8;
    assert(val & 0xFF == val % 0x100 && (val >> 16) & 0xFFFF == val / 0x1_0000 && (val >> 8)
        & 0xFF == (val / 0x100) % 0x100) by (bit_vector);
    let cmd = match VifCmd::from_u8(cmd_byte) {
        Some(c) => c,
        None => VifCmd::Nop,
    };
    (cmd, imm, qwc)
}

/// Element size in bytes of an UNPACK format (from the VN/VL nibble).
pub open spec fn spec_unpack_element_size(vnvl_raw: u8) -> u8 {
    let f = vnvl_raw / 16;
    if f == 0 || f == 1 || f == 8 || f == 9 {
        4
    } else if f == 2 || f == 3 || f == 10 || f == 11 {
        2
    } else if f == 4 || f == 5 || f == 12 || f == 13 {
        1
    } else {
        4
    }
}

/// VN/VL format codes (high nibble of the UNPACK command byte).
const VIF_V4_32: u8 = 0;
const VIF_V3_32: u8 = 1;
const VIF_V4_16: u8 = 2;
const VIF_V3_16: u8 = 3;
const VIF_V4_8: u8 = 4;
const VIF_V3_8: u8 = 5;
const VIF_V2_32: u8 = 8;
const VIF_V2_16: u8 = 10;
const VIF_V2_8: u8 = 12;
const VIF_S3_32: u8 = 9;
const VIF_S3_16: u8 = 11;
const VIF_S3_8: u8 = 13;

/// Unpack the VNVL format to get element size.
pub fn unpack_element_size(vnvl_raw: u8) -> (r: u8)
    ensures
        r == spec_unpack_element_size(vnvl_raw),
{
    let f = vnvl_raw >> 4;
    assert(vnvl_raw >> 4 == vnvl_raw / 16) by (bit_vector);
    if f == VIF_V4_32 || f == VIF_V3_32 || f == VIF_V2_32 || f == VIF_S3_32 {
        4
    } else if f == VIF_V4_16 || f == VIF_V3_16 || f == VIF_V2_16 || f == VIF_S3_16 {
        2
    } else if f == VIF_V4_8 || f == VIF_V3_8 || f == VIF_V2_8 || f == VIF_S3_8 {
        1
    } else {
        4
    }
}

/// Full command byte of the S3_32 format.
const VIF_S3_32_CODE: u8 = 0x90;

/// Unpack qword count from VIF code for a given number of elements.
pub fn unpack_qword_count(vnvl_raw: u8, num_values: u32) -> (r: u32)
    requires
        num_values + 3 <= u32::MAX,
    ensures
        r as int == (num_values + 3) / 4,
{
    if (vnvl_raw >> 4) == VIF_S3_32_CODE {
        assert(vnvl_raw >> 4 < 16) by (bit_vector);
        ((num_values + 3) / 4) + 1
    } else {
        (num_values + 3) / 4
    }
}

/// The commands of a VIF command list from `offset` to `end`: NOP and FLUSH
/// codes are skipped, DIRECT ends the list, UNPACK data is stepped over.
#[verifier::opaque]
pub open spec fn vif_commands(data: Seq<u8>, offset: int, end: int) -> Seq<VifCommand>
    decreases (if offset < end {
        end - offset
    } else {
        0
    }),
{
    if offset + 4 > end || offset < 0 {
        Seq::empty()
    } else {
        let val = le_u32(data, offset);
        let cmd = vif_word_cmd(val as u32);
        if cmd == VifCmd::Nop || cmd == VifCmd::FlushA || cmd == VifCmd::FlushE {
            vif_commands(data, offset + 4, end)
        } else if cmd == VifCmd::DirDma || cmd == VifCmd::DirDmaIce {
            Seq::empty()
        } else {
            let c = VifCommand {
                cmd,
                imm: (val / 0x1_0000) as u16,
                qword_count: ((val / 0x100) % 0x100) as u8,
            };
            let next = if spec_is_unpack(cmd) {
                offset + 4 + c.qword_count * 16
            } else {
                offset + 4
            };
            seq![c] + vif_commands(data, next, end)
        }
    }
}

/// One step of a VIF command list.
proof fn lemma_vif_commands_step(data: Seq<u8>, offset: int, end: int)
    requires
        0 <= offset,
        offset + 4 <= end,
    ensures
        ({
            let val = le_u32(data, offset);
            let cmd = vif_word_cmd(val as u32);
            let c = VifCommand {
                cmd,
                imm: (val / 0x1_0000) as u16,
                qword_count: ((val / 0x100) % 0x100) as u8,
            };
            let next = if spec_is_unpack(cmd) {
                offset + 4 + c.qword_count * 16
            } else {
                offset + 4
            };
            vif_commands(data, offset, end) == if cmd == VifCmd::Nop || cmd == VifCmd::FlushA
                || cmd == VifCmd::FlushE {
                vif_commands(data, offset + 4, end)
            } else if cmd == VifCmd::DirDma || cmd == VifCmd::DirDmaIce {
                Seq::empty()
            } else {
                seq![c] + vif_commands(data, next, end)
            }
        }),
{
    reveal(vif_commands);
}

/// A VIF command list with no room for a code word is empty.
proof fn lemma_vif_commands_end(data: Seq<u8>, offset: int, end: int)
    requires
        offset + 4 > end,
    ensures
        vif_commands(data, offset, end) == Seq::<VifCommand>::empty(),
{
    reveal(vif_commands);
}

/// `read_vif_code` names the command that `vif_word_cmd` describes.
proof fn lemma_read_vif_code_cmd(val: u32, c: VifCmd)
    requires
        is_vif_code((val % 0x100) as u8) ==> vif_code(c) == val % 0x100,
        !is_vif_code((val % 0x100) as u8) ==> c == VifCmd::Nop,
    ensures
        c == vif_word_cmd(val),
{
    let b = (val % 0x100) as u8;
    if is_vif_code(b) {
        let d = choose|d: VifCmd| vif_code(d) == b;
        assert(vif_code(c) == b);
        crate::types::lemma_vif_code_injective(c, d);
    }
}

/// Read a VIF command list from data starting at base_ofs.
pub fn read_vif_command_list(data: &[u8], base_ofs: usize, max_size: usize) -> (r: Vec<
    VifCommand,
>)
    requires
        base_ofs + max_size <= usize::MAX,
    ensures
        r@ == vif_commands(
            data@,
            base_ofs as int,
            if base_ofs + max_size < data@.len() {
                base_ofs + max_size
            } else {
                data@.len() as int
            },
        ),
{
    let mut commands: Vec<VifCommand> = Vec::new();
    let mut offset = base_ofs;
    let end = if base_ofs + max_size < data.len() {
        base_ofs + max_size
    } else {
        data.len()
    };
    let ghost total = vif_commands(data@, base_ofs as int, end as int);
    proof {
        if !(end >= 4 && offset <= end - 4) {
            lemma_vif_commands_end(data@, offset as int, end as int);
            assert(commands@ + Seq::<VifCommand>::empty() =~= commands@);
        }
    }
    while end >= 4 && offset <= end - 4
        invariant
            end <= data@.len(),
            commands@ + vif_commands(data@, offset as int, end as int) == total,
            !(end >= 4 && offset <= end - 4) ==> commands@ == total,
        ensures
            commands@ == total,
        decreases end - offset,
    {
        let val = r_u32(data, offset);
        let (cmd, imm, qwc) = read_vif_code(val);
        proof {
            lemma_read_vif_code_cmd(val, cmd);
            lemma_vif_commands_step(data@, offset as int, end as int);
        }
        if cmd == VifCmd::Nop || cmd == VifCmd::FlushA || cmd == VifCmd::FlushE {
            offset += 4;
            proof {
                if !(end >= 4 && offset <= end - 4) {
                    lemma_vif_commands_end(data@, offset as int, end as int);
                    assert(commands@ + Seq::<VifCommand>::empty() =~= commands@);
                }
            }
            continue;
        }
        if cmd == VifCmd::DirDma || cmd == VifCmd::DirDmaIce {
            assert(vif_commands(data@, offset as int, end as int) == Seq::<VifCommand>::empty());
            assert(commands@ + Seq::<VifCommand>::empty() =~= commands@);
            break;
        }
        let cmd_entry = VifCommand { cmd, imm, qword_count: qwc };
        let ghost old_commands = commands@;
        commands.push(cmd_entry);
        let ghost next = if spec_is_unpack(cmd) {
            offset + 4 + qwc * 16
        } else {
            offset + 4
        };
        assert(commands@ + vif_commands(data@, next, end as int) =~= old_commands + (seq![cmd_entry]
            + vif_commands(data@, next, end as int)));
        if cmd.is_unpack() {
            // Skip unpack data (qword_count * 16 bytes)
            let skip = (qwc as usize) * 16;
            if skip + 4 > end - offset {
                // Past the end: nothing more to read
                proof {
                    lemma_vif_commands_end(data@, next, end as int);
                    lemma_vif_commands_end(data@, end as int, end as int);
                }
                offset = end;
            } else {
                offset += 4 + skip;
            }
        } else {
            offset += 4;
        }
        proof {
            if !(end >= 4 && offset <= end - 4) {
                lemma_vif_commands_end(data@, offset as int, end as int);
                assert(commands@ + Seq::<VifCommand>::empty() =~= commands@);
            }
        }
    }
    commands
}

/// The UNPACK commands of a command sequence, in order.
pub open spec fn unpack_commands(s: Seq<VifCommand>) -> Seq<VifCommand>
    decreases s.len(),
{
    if s.len() == 0 {
        Seq::empty()
    } else {
        let prev = unpack_commands(s.drop_last());
        if spec_is_unpack(s.last().cmd) {
            prev.push(s.last())
        } else {
            prev
        }
    }
}

/// Filter to keep only UNPACK commands.
pub fn filter_vif_unpacks(commands: &[VifCommand]) -> (r: Vec<&VifCommand>)
    ensures
        r@.map_values(|c: &VifCommand| *c) == unpack_commands(commands@),
{
    let mut out: Vec<&VifCommand> = Vec::new();
    let mut i: usize = 0;
    while i < commands.len()
        invariant
            i <= commands@.len(),
            out@.map_values(|c: &VifCommand| *c) == unpack_commands(commands@.subrange(0, i as int)),
        decreases commands@.len() - i,
    {
        let c = &commands[i];
        let ghost prev = out@;
        assert(commands@.subrange(0, i + 1).drop_last() =~= commands@.subrange(0, i as int));
        if c.cmd.is_unpack() {
            out.push(c);
            assert(out@.map_values(|c: &VifCommand| *c) =~= prev.map_values(|c: &VifCommand| *c).push(
                *c,
            ));
        }
        i += 1;
    }
    assert(commands@.subrange(0, commands@.len() as int) =~= commands@);
    out
}

/// Byte offset of element `k` of a 4-element-per-qword UNPACK read with an
/// 8-byte element stride (elements of qword `i` start at `4 + 16 i`).
pub open spec fn stride8_offset(k: int) -> int {
    4 + 16 * (k / 4) + 8 * (k % 4)
}

/// Number of the first `n` 4-byte V4_8 elements (at `4 + 4 k`) that fit in `len` bytes.
pub open spec fn v4_8_count(len: int, n: int) -> int {
    if len < 8 {
        0
    } else if (len - 8) / 4 + 1 < n {
        (len - 8) / 4 + 1
    } else {
        n
    }
}

/// Read unpacked V4_8 data: 4-byte elements, four per qword, after the VIF code word.
pub fn read_unpack_v4_8(data: &[u8], cmd: &VifCommand) -> (r: Vec<[u8; 4]>)
    ensures
        r@.len() == v4_8_count(data@.len() as int, 4 * cmd.qword_count as int),
        forall|k: int|
            0 <= k < r@.len() ==> (#[trigger] r@[k])@ == data@.subrange(4 + 4 * k, 8 + 4 * k),
{
    let qwc = cmd.qword_count as usize;
    let mut result: Vec<[u8; 4]> = Vec::new();
    // Each qword = 16 bytes = 4 × V4_8 elements
    let mut n: usize = 0;
    while n < 4 * qwc
        invariant
            n <= 4 * qwc,
            qwc == cmd.qword_count,
            result@.len() == v4_8_count(data@.len() as int, n as int),
            forall|k: int|
                0 <= k < result@.len() ==> (#[trigger] result@[k])@ == data@.subrange(
                    4 + 4 * k,
                    8 + 4 * k,
                ),
        decreases 4 * qwc - n,
    {
        let i = n / 4;
        let j = n % 4;
        let base = 4 + i * 16;  // skip VIF code qword
        let off = base + j * 4;
        assert(off == 4 + 4 * n);
        if off + 4 <= data.len() {
            let e: [u8; 4] = [data[off], data[off + 1], data[off + 2], data[off + 3]];
            result.push(e);
            assert(e@ =~= data@.subrange(off as int, off + 4));
        }
        n += 1;
    }
    result
}

/// Elements `(k, data[off..off + w])` of a stride-8 UNPACK read: element `k`
/// is kept when `w` bytes fit at its offset.
pub open spec fn stride8_kept(len: int, n: nat, w: int) -> Seq<int>
    decreases n,
{
    if n == 0 {
        Seq::empty()
    } else {
        let prev = stride8_kept(len, (n - 1) as nat, w);
        if stride8_offset(n - 1) + w <= len {
            prev.push(stride8_offset(n - 1))
        } else {
            prev
        }
    }
}

/// Read unpacked V4_16 data: four u16 per element, element stride 8 bytes.
pub fn read_unpack_v4_16(data: &[u8], cmd: &VifCommand) -> (r: Vec<[u16; 4]>)
    ensures
        r@.len() == stride8_kept(data@.len() as int, 4 * cmd.qword_count as nat, 8).len(),
        forall|k: int|
            0 <= k < r@.len() ==> {
                let off = stride8_kept(data@.len() as int, 4 * cmd.qword_count as nat, 8)[k];
                &&& (#[trigger] r@[k])[0] as int == le_u16(data@, off)
                &&& r@[k][1] as int == le_u16(data@, off + 2)
                &&& r@[k][2] as int == le_u16(data@, off + 4)
                &&& r@[k][3] as int == le_u16(data@, off + 6)
            },
{
    read_unpack_16(data, cmd, true)
}

/// Read unpacked V3_16 data: three u16 per element (fourth is 0), element stride 8 bytes.
pub fn read_unpack_v3_16(data: &[u8], cmd: &VifCommand) -> (r: Vec<[u16; 4]>)
    ensures
        r@.len() == stride8_kept(data@.len() as int, 4 * cmd.qword_count as nat, 8).len(),
        forall|k: int|
            0 <= k < r@.len() ==> {
                let off = stride8_kept(data@.len() as int, 4 * cmd.qword_count as nat, 8)[k];
                &&& (#[trigger] r@[k])[0] as int == le_u16(data@, off)
                &&& r@[k][1] as int == le_u16(data@, off + 2)
                &&& r@[k][2] as int == le_u16(data@, off + 4)
                &&& r@[k][3] == 0
            },
{
    read_unpack_16(data, cmd, false)
}

/// Shared loop of the V4_16 / V3_16 readers.
fn read_unpack_16(data: &[u8], cmd: &VifCommand, four: bool) -> (r: Vec<[u16; 4]>)
    ensures
        r@.len() == stride8_kept(data@.len() as int, 4 * cmd.qword_count as nat, 8).len(),
        forall|k: int|
            0 <= k < r@.len() ==> {
                let off = stride8_kept(data@.len() as int, 4 * cmd.qword_count as nat, 8)[k];
                &&& (#[trigger] r@[k])[0] as int == le_u16(data@, off)
                &&& r@[k][1] as int == le_u16(data@, off + 2)
                &&& r@[k][2] as int == le_u16(data@, off + 4)
                &&& r@[k][3] as int == (if four {
                    le_u16(data@, off + 6)
                } else {
                    0
                })
            },
{
    let qwc = cmd.qword_count as usize;
    let mut result: Vec<[u16; 4]> = Vec::new();
    let mut n: usize = 0;
    while n < 4 * qwc
        invariant
            n <= 4 * qwc,
            qwc == cmd.qword_count,
            result@.len() == stride8_kept(data@.len() as int, n as nat, 8).len(),
            forall|k: int|
                0 <= k < result@.len() ==> {
                    let off = stride8_kept(data@.len() as int, n as nat, 8)[k];
                    &&& (#[trigger] result@[k])[0] as int == le_u16(data@, off)
                    &&& result@[k][1] as int == le_u16(data@, off + 2)
                    &&& result@[k][2] as int == le_u16(data@, off + 4)
                    &&& result@[k][3] as int == (if four {
                        le_u16(data@, off + 6)
                    } else {
                        0
                    })
                },
        decreases 4 * qwc - n,
    {
        let i = n / 4;
        let j = n % 4;
        let off = 4 + i * 16 + j * 8;
        assert(off == stride8_offset(n as int));
        let ghost prev = stride8_kept(data@.len() as int, n as nat, 8);
        if off + 8 <= data.len() {
            let e: [u16; 4] = [
                r_u16(data, off),
                r_u16(data, off + 2),
                r_u16(data, off + 4),
                if four {
                    r_u16(data, off + 6)
                } else {
                    0
                },
            ];
            result.push(e);
            assert(stride8_kept(data@.len() as int, (n + 1) as nat, 8) == prev.push(off as int));
        }
        n += 1;
    }
    result
}

/// Read unpacked V2_16 data: two u16 per element, element stride 8 bytes.
pub fn read_unpack_v2_16(data: &[u8], cmd: &VifCommand) -> (r: Vec<[u16; 2]>)
    ensures
        r@.len() == stride8_kept(data@.len() as int, 4 * cmd.qword_count as nat, 4).len(),
        forall|k: int|
            0 <= k < r@.len() ==> {
                let off = stride8_kept(data@.len() as int, 4 * cmd.qword_count as nat, 4)[k];
                &&& (#[trigger] r@[k])[0] as int == le_u16(data@, off)
                &&& r@[k][1] as int == le_u16(data@, off + 2)
            },
{
    let qwc = cmd.qword_count as usize;
    let mut result: Vec<[u16; 2]> = Vec::new();
    let mut n: usize = 0;
    while n < 4 * qwc
        invariant
            n <= 4 * qwc,
            qwc == cmd.qword_count,
            result@.len() == stride8_kept(data@.len() as int, n as nat, 4).len(),
            forall|k: int|
                0 <= k < result@.len() ==> {
                    let off = stride8_kept(data@.len() as int, n as nat, 4)[k];
                    &&& (#[trigger] result@[k])[0] as int == le_u16(data@, off)
                    &&& result@[k][1] as int == le_u16(data@, off + 2)
                },
        decreases 4 * qwc - n,
    {
        let i = n / 4;
        let j = n % 4;
        let off = 4 + i * 16 + j * 8;
        assert(off == stride8_offset(n as int));
        let ghost prev = stride8_kept(data@.len() as int, n as nat, 4);
        if off + 4 <= data.len() {
            let e: [u16; 2] = [r_u16(data, off), r_u16(data, off + 2)];
            result.push(e);
            assert(stride8_kept(data@.len() as int, (n + 1) as nat, 4) == prev.push(off as int));
        }
        n += 1;
    }
    result
}

/// Convert a byte to its two's complement signed value.
#[inline]
pub fn to_s8(val: u8) -> (r: i8)
    ensures
        r as int == (if val < 128 {
            val as int
        } else {
            val as int - 256
        }),
{
    if val < 128 {
        val as i8
    } else {
        ((val - 128) as i8) - 127 - 1
    }
}

} // verus!
