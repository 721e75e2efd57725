//! The GADGET global WAD: 24 gadget groups of 5 sector ranges each (disc
//! reference, two inline data blocks, a WAD-compressed header block and a
//! texture block of SBlk textures).

use vstd::prelude::*;
use crate::common::{le_u32, r_u32};
use crate::lz_spec::WadError;
use crate::wad::{copy_range, decompress_wad, slice_range, spec_decompress_wad, wad_container_descriptor_cut};

verus! {

/// Number of gadget groups.
pub const GADGET_GROUPS: u32 = 24;

/// Sector ranges per gadget group.
pub const ENTRIES_PER_GROUP: u32 = 5;

/// Byte offset of the (sector, size) pair of entry `e` of group `g`.
pub open spec fn gadget_entry_pos(g: int, e: int) -> int {
    0x08 + g * 0x28 + e * 8
}

/// A sector and a sector count packed in one word: the sector in the high
/// 16 bits, the count in the low 16 (both cut to 16 bits).
pub open spec fn packed_range(sector: u32, size: u32) -> u32 {
    ((sector << 16u32) | (size & 0xFFFFu32)) as u32
}

/// The 24 × 5 sector ranges of the GADGET header, each packed in one word.
pub fn parse_gadget_header(data: &[u8]) -> (groups: Vec<[u32; 5]>)
    requires
        data@.len() >= 0x08 + 24 * 0x28,
    ensures
        groups@.len() == 24,
        forall|g: int, e: int|
            0 <= g < 24 && 0 <= e < 5 ==> #[trigger] groups@[g]@[e] == packed_range(
                le_u32(data@, gadget_entry_pos(g, e)) as u32,
                le_u32(data@, gadget_entry_pos(g, e) + 4) as u32,
            ),
{
    let mut groups: Vec<[u32; 5]> = Vec::new();
    let mut g: usize = 0;
    while g < 24
        invariant
            g <= 24,
            data@.len() >= 0x08 + 24 * 0x28,
            groups@.len() == g,
            forall|h: int, e: int|
                0 <= h < g && 0 <= e < 5 ==> #[trigger] groups@[h]@[e] == packed_range(
                    le_u32(data@, gadget_entry_pos(h, e)) as u32,
                    le_u32(data@, gadget_entry_pos(h, e) + 4) as u32,
                ),
        decreases 24 - g,
    {
        let base = 0x08 + g * 0x28;
        let mut entries = [0u32; 5];
        let mut e: usize = 0;
        while e < 5
            invariant
                e <= 5,
                g < 24,
                base == 0x08 + g * 0x28,
                data@.len() >= 0x08 + 24 * 0x28,
                forall|f: int|
                    0 <= f < e ==> #[trigger] entries@[f] == packed_range(
                        le_u32(data@, gadget_entry_pos(g as int, f)) as u32,
                        le_u32(data@, gadget_entry_pos(g as int, f) + 4) as u32,
                    ),
            decreases 5 - e,
        {
            let off = base + e * 8;
            let sector = r_u32(data, off);
            let size = r_u32(data, off + 4);
            entries[e] = (sector << 16) | (size & 0xFFFF);
            e += 1;
        }
        let ghost h = g as int;
        groups.push(entries);
        assert(groups@[h]@ == entries@);
        g += 1;
    }
    groups
}

/// A gadget sector range: sector and size in sectors, and the same in bytes.
pub struct GadgetEntry {
    pub sector: u32,
    pub size_sectors: u32,
    pub byte_offset: u64,
    pub byte_size: u64,
}

/// Sector range `e` of group `g`.
pub fn get_entry(data: &[u8], g: usize, e: usize) -> (r: GadgetEntry)
    requires
        g < 24,
        e < 5,
        data@.len() >= 0x08 + 24 * 0x28,
    ensures
        r.sector == le_u32(data@, gadget_entry_pos(g as int, e as int)),
        r.size_sectors == le_u32(data@, gadget_entry_pos(g as int, e as int) + 4),
        r.byte_offset == r.sector * 0x800,
        r.byte_size == r.size_sectors * 0x800,
{
    let base = 0x08 + g * 0x28 + e * 8;
    let sector = r_u32(data, base);
    let size = r_u32(data, base + 4);
    GadgetEntry {
        sector,
        size_sectors: size,
        byte_offset: sector as u64 * 0x800,
        byte_size: size as u64 * 0x800,
    }
}

/// The bytes of range `e` of group `g`, when it is not empty and lies in
/// the WAD.
pub open spec fn gadget_range_bytes(data: Seq<u8>, g: int, e: int) -> Option<Seq<u8>> {
    let off = le_u32(data, gadget_entry_pos(g, e)) * 0x800;
    let size = le_u32(data, gadget_entry_pos(g, e) + 4) * 0x800;
    if off + size > data.len() || size == 0 {
        None
    } else {
        Some(data.subrange(off, off + size))
    }
}

/// The bytes of range `e_idx` of group `g` (see [`gadget_range_bytes`]).
pub fn extract_inline_data(wad_data: &[u8], g: usize, e_idx: usize) -> (r: Option<Vec<u8>>)
    requires
        g < 24,
        e_idx < 5,
        wad_data@.len() >= 0x08 + 24 * 0x28,
    ensures
        match gadget_range_bytes(wad_data@, g as int, e_idx as int) {
            Some(b) => r matches Some(v) && v@ == b,
            None => r is None,
        },
{
    match range_slice(wad_data, g, e_idx) {
        Some(s) => Some(copy_range(s, 0, s.len())),
        None => None,
    }
}

fn range_slice(wad_data: &[u8], g: usize, e_idx: usize) -> (r: Option<&[u8]>)
    requires
        g < 24,
        e_idx < 5,
        wad_data@.len() >= 0x08 + 24 * 0x28,
    ensures
        match gadget_range_bytes(wad_data@, g as int, e_idx as int) {
            Some(b) => r matches Some(v) && v@ == b,
            None => r is None,
        },
{
    let entry = get_entry(wad_data, g, e_idx);
    if entry.byte_offset + entry.byte_size > wad_data.len() as u64 || entry.byte_size == 0 {
        return None;
    }
    let off = entry.byte_offset as usize;
    let end = (entry.byte_offset + entry.byte_size) as usize;
    Some(slice_range(wad_data, off, end))
}

/// Why a gadget block cannot be read.
#[derive(Debug, Clone, Copy, PartialEq, Eq, Structural)]
pub enum GadgetError {
    /// The header block of this group does not decompress.
    HeaderDecompress(usize, WadError),
}

/// The header block of group `g` as a WAD container can take it: its range
/// (entry 3) must not end with a cut-short block descriptor.
pub open spec fn header_block_readable(data: Seq<u8>, g: int) -> bool {
    match gadget_range_bytes(data, g, 3) {
        Some(chunk) => chunk.len() >= 16 ==> !wad_container_descriptor_cut(
            chunk.subrange(0x10, chunk.len() as int),
        ),
        None => true,
    }
}

/// The header block of group `g` (range 3): nothing when the range is empty,
/// out of the WAD, shorter than 16 bytes, or not followed by a `WAD` blob
/// after its 16-byte prefix; else the decompressed blob with the four words
/// of the prefix, or the decompression error.
pub fn extract_and_decompress_header_block(wad_data: &[u8], g: usize) -> (r: Result<
    Option<(Vec<u8>, u32, u32, u32, u32)>,
    GadgetError,
>)
    requires
        g < 24,
        wad_data@.len() >= 0x08 + 24 * 0x28,
        header_block_readable(wad_data@, g as int),
    ensures
        match gadget_range_bytes(wad_data@, g as int, 3) {
            Some(chunk) => if chunk.len() < 16 || !(chunk.len() >= 0x13 && chunk[0x10] == 0x57u8
                && chunk[0x11] == 0x41u8 && chunk[0x12] == 0x44u8) {
                r matches Ok(None)
            } else {
                match spec_decompress_wad(chunk.subrange(0x10, chunk.len() as int)) {
                    Ok(d) => r matches Ok(Some((v, a, b, c, e))) && v@ == d && a == le_u32(
                        chunk,
                        0,
                    ) && b == le_u32(chunk, 4) && c == le_u32(chunk, 8) && e == le_u32(chunk, 12),
                    Err(e) => r == Err::<Option<(Vec<u8>, u32, u32, u32, u32)>, GadgetError>(
                        GadgetError::HeaderDecompress(g, e),
                    ),
                }
            },
            None => r matches Ok(None),
        },
{
    let chunk = match range_slice(wad_data, g, 3) {
        Some(c) => c,
        None => {
            return Ok(None);
        },
    };
    if chunk.len() < 16 {
        return Ok(None);
    }
    let self_ptr = r_u32(chunk, 0);
    let field_04 = r_u32(chunk, 4);
    let field_08 = r_u32(chunk, 8);
    let field_0c = r_u32(chunk, 12);
    let wad_blob = slice_range(chunk, 0x10, chunk.len());
    if wad_blob.len() < 3 || wad_blob[0] != 0x57 || wad_blob[1] != 0x41 || wad_blob[2] != 0x44 {
        return Ok(None);
    }
    match decompress_wad(wad_blob) {
        Ok(decompressed) => Ok(Some((decompressed, self_ptr, field_04, field_08, field_0c))),
        Err(e) => Err(GadgetError::HeaderDecompress(g, e)),
    }
}

/// The SBlk textures of a texture block from byte `pos` on, at most `left`
/// of them: each starts with its total size (0 meaning 0x10) and has `SBlk`
/// at offset 8; a texture reaching past the block is cut at its end; the
/// list stops at a missing magic, at the block's end, or after `left`.
pub open spec fn sblk_textures(chunk: Seq<u8>, pos: int, left: nat) -> Seq<Seq<u8>>
    decreases left,
{
    if left == 0 || pos < 0 || pos + 16 > chunk.len() || !(chunk[pos + 8] == 0x53u8 && chunk[pos
        + 9] == 0x42u8 && chunk[pos + 10] == 0x6Cu8 && chunk[pos + 11] == 0x6Bu8) {
        Seq::empty()
    } else {
        let total = le_u32(chunk, pos);
        let end = pos + if total > 0 {
            total
        } else {
            0x10
        };
        let raw = if end <= chunk.len() {
            chunk.subrange(pos, end)
        } else {
            chunk.subrange(pos, chunk.len() as int)
        };
        if end >= chunk.len() {
            seq![raw]
        } else {
            seq![raw] + sblk_textures(chunk, end, (left - 1) as nat)
        }
    }
}

/// The texture block of group `g` (range 4): nothing when the range is
/// empty, out of the WAD or shorter than 16 bytes; else the whole block,
/// its four header words (count, flags, bpp, data size) and its SBlk
/// textures (at most `min(count, 32)` of them, see [`sblk_textures`]).
pub fn extract_texture_block(wad_data: &[u8], g: usize) -> (r: Option<
    (Vec<u8>, u32, u32, u32, u32, Vec<Vec<u8>>),
>)
    requires
        g < 24,
        wad_data@.len() >= 0x08 + 24 * 0x28,
    ensures
        match gadget_range_bytes(wad_data@, g as int, 4) {
            Some(chunk) => if chunk.len() < 16 {
                r is None
            } else {
                r matches Some((raw, count, flags, bpp, size, textures)) && raw@ == chunk && count
                    == le_u32(chunk, 0) && flags == le_u32(chunk, 4) && bpp == le_u32(chunk, 8)
                    && size == le_u32(chunk, 12) && textures@.len() == sblk_textures(
                    chunk,
                    16,
                    (if count < 32 {
                        count
                    } else {
                        32
                    }) as nat,
                ).len() && forall|t: int|
                    0 <= t < textures@.len() ==> (#[trigger] textures@[t])@ == sblk_textures(
                        chunk,
                        16,
                        (if count < 32 {
                            count
                        } else {
                            32
                        }) as nat,
                    )[t]
            },
            None => r is None,
        },
{
    let chunk = match range_slice(wad_data, g, 4) {
        Some(c) => c,
        None => {
            return None;
        },
    };
    if chunk.len() < 16 {
        return None;
    }
    let count = r_u32(chunk, 0);
    let flags = r_u32(chunk, 4);
    let bpp = r_u32(chunk, 8);
    let data_size = r_u32(chunk, 12);
    let limit: u32 = if count < 32 {
        count
    } else {
        32
    };
    let ghost all = sblk_textures(chunk@, 16, limit as nat);
    let mut textures: Vec<Vec<u8>> = Vec::new();
    let mut pos: usize = 16;
    let mut t: u32 = 0;
    while t < limit
        invariant_except_break
            all.len() == t + sblk_textures(chunk@, pos as int, (limit - t) as nat).len(),
            forall|j: int|
                0 <= j < sblk_textures(chunk@, pos as int, (limit - t) as nat).len() ==> all[t + j]
                    == #[trigger] sblk_textures(chunk@, pos as int, (limit - t) as nat)[j],
        invariant
            t <= limit <= 32,
            pos <= chunk@.len(),
            all == sblk_textures(chunk@, 16, limit as nat),
            textures@.len() == t,
            forall|j: int|
                0 <= j < t ==> (#[trigger] textures@[j])@ == all[j],
        ensures
            textures@.len() == all.len(),
            forall|j: int| 0 <= j < textures@.len() ==> (#[trigger] textures@[j])@ == all[j],
        decreases limit - t,
    {
        let ghost rest = sblk_textures(chunk@, pos as int, (limit - t) as nat);
        if pos > chunk.len() || chunk.len() - pos < 16 {
            assert(rest.len() == 0);
            break;
        }
        if chunk[pos + 8] != 0x53 || chunk[pos + 9] != 0x42 || chunk[pos + 10] != 0x6C || chunk[pos
            + 11] != 0x6B {
            assert(rest.len() == 0);
            break;
        }
        let sblk_total = r_u32(chunk, pos) as u64;
        let step: u64 = if sblk_total > 0 {
            sblk_total
        } else {
            0x10
        };
        let avail = (chunk.len() - pos) as u64;
        let ghost k = t as int;
        if step >= avail {
            // the texture reaches the end of the block (cut there if longer)
            let raw = copy_range(chunk, pos, chunk.len());
            assert(raw@ == rest[0]);
            assert(rest.len() == 1);
            textures.push(raw);
            assert(textures@[k] == raw);
            t += 1;
            break;
        }
        let end = pos + step as usize;
        let raw = copy_range(chunk, pos, end);
        assert(raw@ == rest[0]);
        textures.push(raw);
        assert(textures@[k] == raw);
        t += 1;
        proof {
            let next = sblk_textures(chunk@, end as int, (limit - t) as nat);
            assert(rest == seq![rest[0]] + next);
            assert forall|j: int| 0 <= j < next.len() implies all[t + j] == #[trigger] next[j] by {
                assert(rest[j + 1] == next[j]);
            }
        }
        pos = end;
    }
    let raw_chunk = copy_range(chunk, 0, chunk.len());
    assert(chunk@.subrange(0, chunk@.len() as int) =~= chunk@);
    Some((raw_chunk, count, flags, bpp, data_size, textures))
}

} // verus!
