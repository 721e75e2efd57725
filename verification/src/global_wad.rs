//! The global WADs (SPACE, HUD, BONUS, MISC): finding the WAD LZ blocks
//! in them, decompressing and classifying those blocks, the sector table
//! of their headers, and the fixed sub-files of MISC.

use vstd::prelude::*;
use crate::common::{le_u32, r_u32};
use crate::lz_spec::WadError;
use crate::wad::{copy_range, decompress_wad, spec_decompress_wad, wad_container_descriptor_cut};

verus! {

/// The WAD LZ blocks of `data` found from `pos` on: (offset, total size).
/// A block is "WAD" followed by its total size (at least 16, inside the
/// data); the scan resumes 12 bytes after a block's start and stops 16
/// bytes before the end.
pub open spec fn wad_blocks_from(data: Seq<u8>, pos: int) -> Seq<(int, int)>
    decreases data.len() - pos,
{
    if pos < 0 || pos >= data.len() - 16 {
        Seq::empty()
    } else if data[pos] == 0x57u8 && data[pos + 1] == 0x41u8 && data[pos + 2] == 0x44u8 {
        let ts = le_u32(data, pos + 3);
        if ts >= 16 && pos + ts <= data.len() {
            seq![(pos, ts)] + wad_blocks_from(data, pos + 12)
        } else {
            wad_blocks_from(data, pos + 1)
        }
    } else {
        wad_blocks_from(data, pos + 1)
    }
}

/// The (offset, size) pairs as integers.
pub open spec fn pair_ints(v: Seq<(u64, u64)>) -> Seq<(int, int)> {
    v.map_values(|p: (u64, u64)| (p.0 as int, p.1 as int))
}

/// The WAD LZ blocks of `data` (see [`wad_blocks_from`]).
pub fn scan_wad_blocks(data: &[u8]) -> (r: Vec<(u64, u64)>)
    requires
        data@.len() >= 16,
    ensures
        pair_ints(r@) == wad_blocks_from(data@, 0),
{
    let mut r: Vec<(u64, u64)> = Vec::new();
    let mut pos: usize = 0;
    let end = data.len() - 16;
    while pos < end
        invariant
            end == data@.len() - 16,
            pos <= end + 12,
            pair_ints(r@) + wad_blocks_from(data@, pos as int) == wad_blocks_from(data@, 0),
        decreases data@.len() - pos,
    {
        if data[pos] == 0x57 && data[pos + 1] == 0x41 && data[pos + 2] == 0x44 {
            let ts = r_u32(data, pos + 3) as u64;
            if ts >= 16 && pos as u128 + ts as u128 <= data.len() as u128 {
                let ghost old_r = r@;
                r.push((pos as u64, ts));
                assert(pair_ints(r@) =~= pair_ints(old_r).push((pos as int, ts as int)));
                assert(pair_ints(r@) + wad_blocks_from(data@, pos + 12) =~= pair_ints(old_r) + (
                seq![(pos as int, ts as int)] + wad_blocks_from(data@, pos + 12)));
                pos += 12;
            } else {
                pos += 1;
            }
        } else {
            pos += 1;
        }
    }
    assert(pair_ints(r@) =~= pair_ints(r@) + wad_blocks_from(data@, pos as int));
    r
}

/// What a decompressed block looks like.
#[derive(Debug, Clone, Copy, PartialEq, Eq, Structural)]
pub enum BlockFormat {
    Empty,
    SpaceMesh,
    Png,
    Sblk,
    Tex,
    Pif8Texture,
    ZeroHeader,
    Bmp,
    Riff,
    MpegAudio,
    Text,
    Data,
}

impl BlockFormat {
    /// The format's name in reports.
    pub fn name(&self) -> (s: &'static str)
        ensures
            s@ == format_name(*self),
    {
        match self {
            BlockFormat::Empty => "EMPTY",
            BlockFormat::SpaceMesh => "SPACE_MESH",
            BlockFormat::Png => "PNG",
            BlockFormat::Sblk => "SBLK",
            BlockFormat::Tex => "TEX",
            BlockFormat::Pif8Texture => "PIF8_TEXTURE",
            BlockFormat::ZeroHeader => "ZERO_HEADER",
            BlockFormat::Bmp => "BMP",
            BlockFormat::Riff => "RIFF",
            BlockFormat::MpegAudio => "MPEG_AUDIO",
            BlockFormat::Text => "TEXT",
            BlockFormat::Data => "DATA",
        }
    }
}

pub open spec fn format_name(f: BlockFormat) -> Seq<char> {
    match f {
        BlockFormat::Empty => "EMPTY"@,
        BlockFormat::SpaceMesh => "SPACE_MESH"@,
        BlockFormat::Png => "PNG"@,
        BlockFormat::Sblk => "SBLK"@,
        BlockFormat::Tex => "TEX"@,
        BlockFormat::Pif8Texture => "PIF8_TEXTURE"@,
        BlockFormat::ZeroHeader => "ZERO_HEADER"@,
        BlockFormat::Bmp => "BMP"@,
        BlockFormat::Riff => "RIFF"@,
        BlockFormat::MpegAudio => "MPEG_AUDIO"@,
        BlockFormat::Text => "TEXT"@,
        BlockFormat::Data => "DATA"@,
    }
}

/// An ASCII letter.
pub open spec fn is_alpha(c: u8) -> bool {
    (0x41 <= c <= 0x5a) || (0x61 <= c <= 0x7a)
}

/// A printable ASCII character or ASCII white space (space, tab, line
/// feed, form feed, carriage return).
pub open spec fn is_text_byte(c: u8) -> bool {
    (0x21 <= c <= 0x7e) || c == 0x20 || c == 0x09 || c == 0x0a || c == 0x0c || c == 0x0d
}

/// Text: only text bytes, at least one letter.
pub open spec fn looks_like_text(t: Seq<u8>) -> bool {
    &&& forall|i: int| 0 <= i < t.len() ==> is_text_byte(#[trigger] t[i])
    &&& !(forall|i: int| 0 <= i < t.len() ==> !is_alpha(#[trigger] t[i]))
}

/// The first four bytes are `a b c d`.
pub open spec fn starts4(d: Seq<u8>, a: u8, b: u8, c: u8, e: u8) -> bool {
    d[0] == a && d[1] == b && d[2] == c && d[3] == e
}

/// The format of a decompressed block, by its leading bytes; text when
/// its first 64 bytes look like text.
pub open spec fn block_format(d: Seq<u8>) -> BlockFormat {
    if d.len() < 4 {
        BlockFormat::Empty
    } else if d[0] == 0xd8u8 && d[1] == 0x09u8 {
        BlockFormat::SpaceMesh
    } else if starts4(d, 0x89, 0x50, 0x4e, 0x47) {
        BlockFormat::Png
    } else if starts4(d, 0x53, 0x42, 0x6c, 0x6b) {
        BlockFormat::Sblk
    } else if starts4(d, 0x54, 0x45, 0x58, 0x00) {
        BlockFormat::Tex
    } else if starts4(d, 0x32, 0x46, 0x49, 0x50) {
        BlockFormat::Pif8Texture
    } else if d[0] == 0u8 && d[1] == 0u8 {
        BlockFormat::ZeroHeader
    } else if d[0] == 0x42u8 && d[1] == 0x4du8 {
        BlockFormat::Bmp
    } else if starts4(d, 0x52, 0x49, 0x46, 0x46) {
        BlockFormat::Riff
    } else if d[0] == 0xffu8 && (d[1] == 0xf8u8 || d[1] == 0xf9u8) && d[2] == 0xe0u8 {
        BlockFormat::MpegAudio
    } else if looks_like_text(
        d.subrange(
            0,
            if d.len() < 64 {
                d.len() as int
            } else {
                64
            },
        ),
    ) {
        BlockFormat::Text
    } else {
        BlockFormat::Data
    }
}

fn has4(d: &[u8], a: u8, b: u8, c: u8, e: u8) -> (r: bool)
    requires
        d@.len() >= 4,
    ensures
        r == starts4(d@, a, b, c, e),
{
    d[0] == a && d[1] == b && d[2] == c && d[3] == e
}

/// The format of a decompressed block (see [`block_format`]).
pub fn classify_block(dec: &[u8]) -> (f: BlockFormat)
    ensures
        f == block_format(dec@),
{
    if dec.len() < 4 {
        return BlockFormat::Empty;
    }
    if dec[0] == 0xd8 && dec[1] == 0x09 {
        return BlockFormat::SpaceMesh;
    }
    if has4(dec, 0x89, 0x50, 0x4e, 0x47) {
        return BlockFormat::Png;
    }
    if has4(dec, 0x53, 0x42, 0x6c, 0x6b) {
        return BlockFormat::Sblk;
    }
    if has4(dec, 0x54, 0x45, 0x58, 0x00) {
        return BlockFormat::Tex;
    }
    if has4(dec, 0x32, 0x46, 0x49, 0x50) {
        return BlockFormat::Pif8Texture;
    }
    if dec[0] == 0 && dec[1] == 0 {
        return BlockFormat::ZeroHeader;
    }
    if dec[0] == 0x42 && dec[1] == 0x4d {
        return BlockFormat::Bmp;
    }
    if has4(dec, 0x52, 0x49, 0x46, 0x46) {
        return BlockFormat::Riff;
    }
    if dec[0] == 0xff && (dec[1] == 0xf8 || dec[1] == 0xf9) && dec[2] == 0xe0 {
        return BlockFormat::MpegAudio;
    }
    let n: usize = if dec.len() < 64 {
        dec.len()
    } else {
        64
    };
    let ghost t = dec@.subrange(0, n as int);
    let mut all_text = true;
    let mut any_alpha = false;
    let mut i: usize = 0;
    while i < n
        invariant
            n <= dec@.len(),
            t == dec@.subrange(0, n as int),
            i <= n,
            all_text == (forall|j: int| 0 <= j < i ==> is_text_byte(#[trigger] t[j])),
            any_alpha == !(forall|j: int| 0 <= j < i ==> !is_alpha(#[trigger] t[j])),
        decreases n - i,
    {
        let c = dec[i];
        assert(c == t[i as int]);
        let tb = (0x21 <= c && c <= 0x7e) || c == 0x20 || c == 0x09 || c == 0x0a || c == 0x0c || c
            == 0x0d;
        let al = (0x41 <= c && c <= 0x5a) || (0x61 <= c && c <= 0x7a);
        if !tb {
            assert(!is_text_byte(t[i as int]));
        }
        if al {
            assert(is_alpha(t[i as int]));
        }
        all_text = all_text && tb;
        any_alpha = any_alpha || al;
        i += 1;
    }
    if all_text && any_alpha {
        BlockFormat::Text
    } else {
        BlockFormat::Data
    }
}

/// A block found by the scan: "WAD" at its offset, followed by its size,
/// at least 16, and inside the data.
pub open spec fn block_ok(data: Seq<u8>, b: (int, int)) -> bool {
    &&& 0 <= b.0
    &&& data[b.0] == 0x57u8 && data[b.0 + 1] == 0x41u8 && data[b.0 + 2] == 0x44u8
    &&& b.1 == le_u32(data, b.0 + 3)
    &&& 16 <= b.1
    &&& b.0 + b.1 <= data.len()
}

/// Facts about every block found from `pos` on: it starts with "WAD"
/// followed by its size, at least 16, and lies in the data.
proof fn lemma_blocks(data: Seq<u8>, pos: int)
    requires
        0 <= pos,
    ensures
        forall|j: int|
            0 <= j < wad_blocks_from(data, pos).len() ==> pos <= (#[trigger] wad_blocks_from(
                data,
                pos,
            )[j]).0 && block_ok(data, wad_blocks_from(data, pos)[j]),
    decreases data.len() - pos,
{
    if !(pos < 0 || pos >= data.len() - 16) {
        if data[pos] == 0x57u8 && data[pos + 1] == 0x41u8 && data[pos + 2] == 0x44u8 && le_u32(
            data,
            pos + 3,
        ) >= 16 && pos + le_u32(data, pos + 3) <= data.len() {
            let ts = le_u32(data, pos + 3);
            lemma_blocks(data, pos + 12);
            let rest = wad_blocks_from(data, pos + 12);
            let all = wad_blocks_from(data, pos);
            assert(all == seq![(pos, ts)] + rest);
            assert forall|j: int| 0 <= j < all.len() implies pos <= (#[trigger] all[j]).0
                && block_ok(data, all[j]) by {
                if j > 0 {
                    assert(all[j] == rest[j - 1]);
                }
            }
        } else {
            lemma_blocks(data, pos + 1);
            assert(wad_blocks_from(data, pos) == wad_blocks_from(data, pos + 1));
        }
    }
}

/// A block's bytes, as found by the scan, never have a container header
/// that ends inside the block descriptor: the size's low byte is the
/// version byte, and no size of 0x14..0x18 or 0x24..0x28 has a low byte
/// of 0 or 1.
proof fn lemma_block_not_cut(data: Seq<u8>, off: int, ts: int)
    requires
        0 <= off,
        off + 3 < data.len(),
        off + ts <= data.len(),
        data[off] == 0x57u8 && data[off + 1] == 0x41u8 && data[off + 2] == 0x44u8,
        ts == le_u32(data, off + 3),
    ensures
        !wad_container_descriptor_cut(data.subrange(off, off + ts)),
{
}

/// A block of a global WAD after decompression.
pub struct BlockReport {
    pub offset: u64,
    pub compressed: u64,
    /// The block's format and its decompressed bytes, or why it did not decompress.
    pub result: Result<(BlockFormat, Vec<u8>), WadError>,
}

/// `r` is the block of `size` bytes at `off`, decompressed and classified.
pub open spec fn block_report_is(r: BlockReport, data: Seq<u8>, off: int, size: int) -> bool {
    &&& r.offset == off
    &&& r.compressed == size
    &&& match spec_decompress_wad(data.subrange(off, off + size)) {
        Ok(dec) => r.result matches Ok((f, d)) && d@ == dec && f == block_format(dec),
        Err(e) => r.result matches Err(e2) && e2 == e,
    }
}

/// Every WAD LZ block of `raw` (see [`wad_blocks_from`]), decompressed
/// and classified, in order.
pub fn analyze_wad_blocks(raw: &[u8]) -> (r: Vec<BlockReport>)
    requires
        raw@.len() >= 16,
    ensures
        r@.len() == wad_blocks_from(raw@, 0).len(),
        forall|j: int|
            0 <= j < r@.len() ==> block_report_is(
                #[trigger] r@[j],
                raw@,
                wad_blocks_from(raw@, 0)[j].0,
                wad_blocks_from(raw@, 0)[j].1,
            ),
{
    let rlen = raw.len();
    let blocks = scan_wad_blocks(raw);
    proof {
        lemma_blocks(raw@, 0);
    }
    let mut r: Vec<BlockReport> = Vec::new();
    let mut i: usize = 0;
    while i < blocks.len()
        invariant
            pair_ints(blocks@) == wad_blocks_from(raw@, 0),
            forall|j: int|
                0 <= j < wad_blocks_from(raw@, 0).len() ==> block_ok(
                    raw@,
                    #[trigger] wad_blocks_from(raw@, 0)[j],
                ),
            rlen == raw@.len(),
            i <= blocks@.len(),
            r@.len() == i,
            forall|j: int|
                0 <= j < i ==> block_report_is(
                    #[trigger] r@[j],
                    raw@,
                    wad_blocks_from(raw@, 0)[j].0,
                    wad_blocks_from(raw@, 0)[j].1,
                ),
        decreases blocks@.len() - i,
    {
        let (off, ts) = blocks[i];
        assert(pair_ints(blocks@)[i as int] == (off as int, ts as int));
        let ghost pr = wad_blocks_from(raw@, 0)[i as int];
        assert(pr == (off as int, ts as int));
        assert(block_ok(raw@, pr));
        let chunk = copy_range(raw, off as usize, (off + ts) as usize);
        proof {
            lemma_block_not_cut(raw@, off as int, ts as int);
        }
        let result = match decompress_wad(chunk.as_slice()) {
            Ok(dec) => {
                let f = classify_block(dec.as_slice());
                Ok((f, dec))
            },
            Err(e) => Err(e),
        };
        let ghost old_r = r@;
        let rep = BlockReport { offset: off, compressed: ts, result };
        assert(block_report_is(rep, raw@, pr.0, pr.1));
        r.push(rep);
        assert(forall|j: int| 0 <= j < old_r.len() ==> r@[j] == old_r[j]);
        i += 1;
    }
    r
}

/// The header's sector table from entry `i` on, `found` non-zero entries
/// having been listed: (entry, sector, count) of each entry with a
/// non-zero sector among the first 512 inside the data, and the entry at
/// which the listing stopped after its fiftieth, if it did.
pub open spec fn sub_table_from(raw: Seq<u8>, i: int, found: int) -> (Seq<(int, int, int)>, Option<int>)
    decreases 512 - i,
{
    if i < 0 || i >= 512 || 12 + 8 * i + 8 > raw.len() {
        (Seq::empty(), None)
    } else {
        let sec = le_u32(raw, 12 + 8 * i);
        let cnt = le_u32(raw, 16 + 8 * i);
        if sec > 0 {
            if found + 1 >= 50 {
                (seq![(i, sec, cnt)], Some(i))
            } else {
                let rest = sub_table_from(raw, i + 1, found + 1);
                (seq![(i, sec, cnt)] + rest.0, rest.1)
            }
        } else {
            sub_table_from(raw, i + 1, found)
        }
    }
}

pub open spec fn triple_ints(v: Seq<(u32, u32, u32)>) -> Seq<(int, int, int)> {
    v.map_values(|p: (u32, u32, u32)| (p.0 as int, p.1 as int, p.2 as int))
}

/// The sector table of a global WAD's header (see [`sub_table_from`]);
/// empty when the header size (the first word) is below 12.
pub fn header_sub_table(raw: &[u8]) -> (r: (Vec<(u32, u32, u32)>, Option<u32>))
    requires
        raw@.len() >= 4,
    ensures
        le_u32(raw@, 0) < 12 ==> r.0@.len() == 0 && r.1 is None,
        le_u32(raw@, 0) >= 12 ==> triple_ints(r.0@) == sub_table_from(raw@, 0, 0).0 && match r.1 {
            Some(k) => sub_table_from(raw@, 0, 0).1 == Some(k as int),
            None => sub_table_from(raw@, 0, 0).1 is None,
        },
{
    let mut v: Vec<(u32, u32, u32)> = Vec::new();
    if r_u32(raw, 0) < 12 {
        return (v, None);
    }
    let mut found: u32 = 0;
    let mut i: u32 = 0;
    let mut stop: Option<u32> = None;
    while i < 512
        invariant_except_break
            i <= 512,
            found < 50,
            triple_ints(v@) + sub_table_from(raw@, i as int, found as int).0 == sub_table_from(
                raw@,
                0,
                0,
            ).0,
            sub_table_from(raw@, i as int, found as int).1 == sub_table_from(raw@, 0, 0).1,
            stop is None,
        ensures
            triple_ints(v@) == sub_table_from(raw@, 0, 0).0,
            match stop {
                Some(k) => sub_table_from(raw@, 0, 0).1 == Some(k as int),
                None => sub_table_from(raw@, 0, 0).1 is None,
            },
        decreases 512 - i,
    {
        let off = 12 + 8 * (i as usize);
        if off > raw.len() || raw.len() - off < 8 {
            assert(triple_ints(v@) =~= triple_ints(v@) + sub_table_from(raw@, i as int, found as int).0);
            break;
        }
        let sec = r_u32(raw, off);
        let cnt = r_u32(raw, off + 4);
        if sec > 0 {
            let ghost old_v = v@;
            v.push((i, sec, cnt));
            assert(triple_ints(v@) =~= triple_ints(old_v).push((i as int, sec as int, cnt as int)));
            found += 1;
            if found >= 50 {
                stop = Some(i);
                assert(triple_ints(v@) =~= triple_ints(old_v) + seq![(i as int, sec as int, cnt as int)]);
                break;
            }
            assert(triple_ints(v@) + sub_table_from(raw@, i + 1, found as int).0 =~= triple_ints(old_v)
                + (seq![(i as int, sec as int, cnt as int)] + sub_table_from(raw@, i + 1, found as int).0));
        }
        i += 1;
    }
    proof {
        if i >= 512 && stop is None {
            assert(triple_ints(v@) =~= triple_ints(v@) + sub_table_from(raw@, i as int, found as int).0);
        }
    }
    (v, stop)
}

/// The class of a block in the summary: its format, or `None` for a block
/// that did not decompress.
pub open spec fn report_key(r: BlockReport) -> Option<BlockFormat> {
    match r.result {
        Ok((f, _)) => Some(f),
        Err(_) => None,
    }
}

/// Decompressed size of a block (0 for one that did not decompress).
pub open spec fn report_dec_len(r: BlockReport) -> int {
    match r.result {
        Ok((_, d)) => d@.len() as int,
        Err(_) => 0,
    }
}

/// Number, compressed bytes and decompressed bytes of the blocks of class
/// `key` among the first `n` reports.
pub open spec fn key_totals(rs: Seq<BlockReport>, key: Option<BlockFormat>, n: nat) -> (int, int, int)
    decreases n,
{
    if n == 0 || n > rs.len() {
        (0, 0, 0)
    } else {
        let t = key_totals(rs, key, (n - 1) as nat);
        let r = rs[n - 1];
        if report_key(r) == key {
            (t.0 + 1, t.1 + r.compressed, t.2 + report_dec_len(r))
        } else {
            t
        }
    }
}

/// The summary classes in a fixed order: the formats, then failed blocks.
pub open spec fn summary_key(k: int) -> Option<BlockFormat> {
    if k == 0 {
        Some(BlockFormat::Empty)
    } else if k == 1 {
        Some(BlockFormat::SpaceMesh)
    } else if k == 2 {
        Some(BlockFormat::Png)
    } else if k == 3 {
        Some(BlockFormat::Sblk)
    } else if k == 4 {
        Some(BlockFormat::Tex)
    } else if k == 5 {
        Some(BlockFormat::Pif8Texture)
    } else if k == 6 {
        Some(BlockFormat::ZeroHeader)
    } else if k == 7 {
        Some(BlockFormat::Bmp)
    } else if k == 8 {
        Some(BlockFormat::Riff)
    } else if k == 9 {
        Some(BlockFormat::MpegAudio)
    } else if k == 10 {
        Some(BlockFormat::Text)
    } else if k == 11 {
        Some(BlockFormat::Data)
    } else {
        None
    }
}

fn summary_key_at(k: usize) -> (r: Option<BlockFormat>)
    requires
        k < 13,
    ensures
        r == summary_key(k as int),
{
    if k == 0 {
        Some(BlockFormat::Empty)
    } else if k == 1 {
        Some(BlockFormat::SpaceMesh)
    } else if k == 2 {
        Some(BlockFormat::Png)
    } else if k == 3 {
        Some(BlockFormat::Sblk)
    } else if k == 4 {
        Some(BlockFormat::Tex)
    } else if k == 5 {
        Some(BlockFormat::Pif8Texture)
    } else if k == 6 {
        Some(BlockFormat::ZeroHeader)
    } else if k == 7 {
        Some(BlockFormat::Bmp)
    } else if k == 8 {
        Some(BlockFormat::Riff)
    } else if k == 9 {
        Some(BlockFormat::MpegAudio)
    } else if k == 10 {
        Some(BlockFormat::Text)
    } else if k == 11 {
        Some(BlockFormat::Data)
    } else {
        None
    }
}

/// Totals of one class of blocks.
pub struct ClassTotals {
    pub format: Option<BlockFormat>,
    pub count: u64,
    pub compressed: u128,
    pub decompressed: u128,
}

/// The classes among the first `m` summary classes that occur in `rs`.
pub open spec fn present_keys(rs: Seq<BlockReport>, m: nat) -> Seq<Option<BlockFormat>>
    decreases m,
{
    if m == 0 {
        Seq::empty()
    } else {
        let prev = present_keys(rs, (m - 1) as nat);
        if key_totals(rs, summary_key(m - 1), rs.len()).0 > 0 {
            prev.push(summary_key(m - 1))
        } else {
            prev
        }
    }
}

fn is_key(r: &BlockReport, key: Option<BlockFormat>) -> (b: bool)
    ensures
        b == (report_key(*r) == key),
{
    match (&r.result, key) {
        (Ok((f, _)), Some(k)) => *f == k,
        (Err(_), None) => true,
        _ => false,
    }
}

fn dec_len(r: &BlockReport) -> (n: usize)
    ensures
        n == report_dec_len(*r),
{
    match &r.result {
        Ok((_, d)) => d.len(),
        Err(_) => 0,
    }
}

/// Totals of the blocks of one class.
fn class_totals(rs: &Vec<BlockReport>, key: Option<BlockFormat>) -> (t: ClassTotals)
    ensures
        t.format == key,
        t.count == key_totals(rs@, key, rs@.len()).0,
        t.compressed == key_totals(rs@, key, rs@.len()).1,
        t.decompressed == key_totals(rs@, key, rs@.len()).2,
{
    let mut count: u64 = 0;
    let mut comp: u128 = 0;
    let mut dec: u128 = 0;
    let mut i: usize = 0;
    while i < rs.len()
        invariant
            i <= rs@.len(),
            count == key_totals(rs@, key, i as nat).0,
            comp == key_totals(rs@, key, i as nat).1,
            dec == key_totals(rs@, key, i as nat).2,
            count <= i,
            comp <= i * 0x1_0000_0000_0000_0000,
            dec <= i * 0x1_0000_0000_0000_0000,
        decreases rs@.len() - i,
    {
        let r = &rs[i];
        if is_key(r, key) {
            count += 1;
            comp += r.compressed as u128;
            dec += dec_len(r) as u128;
        }
        i += 1;
    }
    ClassTotals { format: key, count, compressed: comp, decompressed: dec }
}

/// The classes of blocks that occur, each with its number of blocks and
/// its compressed and decompressed bytes, in the order of [`summary_key`].
pub fn classify_summary(rs: &Vec<BlockReport>) -> (r: Vec<ClassTotals>)
    ensures
        r@.len() == present_keys(rs@, 13).len(),
        forall|j: int|
            0 <= j < r@.len() ==> {
                let key = present_keys(rs@, 13)[j];
                &&& (#[trigger] r@[j]).format == key
                &&& r@[j].count == key_totals(rs@, key, rs@.len()).0
                &&& r@[j].compressed == key_totals(rs@, key, rs@.len()).1
                &&& r@[j].decompressed == key_totals(rs@, key, rs@.len()).2
            },
{
    let mut r: Vec<ClassTotals> = Vec::new();
    let mut k: usize = 0;
    while k < 13
        invariant
            k <= 13,
            r@.len() == present_keys(rs@, k as nat).len(),
            forall|j: int|
                0 <= j < r@.len() ==> {
                    let key = present_keys(rs@, k as nat)[j];
                    &&& (#[trigger] r@[j]).format == key
                    &&& r@[j].count == key_totals(rs@, key, rs@.len()).0
                    &&& r@[j].compressed == key_totals(rs@, key, rs@.len()).1
                    &&& r@[j].decompressed == key_totals(rs@, key, rs@.len()).2
                },
        decreases 13 - k,
    {
        let ghost prev = present_keys(rs@, k as nat);
        let key = summary_key_at(k);
        let t = class_totals(rs, key);
        if t.count > 0 {
            let ghost old_r = r@;
            r.push(t);
            assert(present_keys(rs@, (k + 1) as nat) =~= prev.push(key));
            assert(forall|j: int| 0 <= j < old_r.len() ==> r@[j] == old_r[j]);
        } else {
            assert(present_keys(rs@, (k + 1) as nat) =~= prev);
        }
        k += 1;
    }
    r
}

/// Counts never increase along `s`.
pub open spec fn counts_desc(s: Seq<ClassTotals>) -> bool {
    forall|a: int, b: int| 0 <= a < b < s.len() ==> (#[trigger] s[a]).count >= (#[trigger] s[b]).count
}

/// The class totals reordered by decreasing number of blocks.
pub fn sort_by_count(v: Vec<ClassTotals>) -> (r: Vec<ClassTotals>)
    ensures
        r@.to_multiset() == v@.to_multiset(),
        counts_desc(r@),
{
    broadcast use vstd::multiset::group_multiset_axioms;

    let mut v = v;
    let ghost orig = v@;
    let mut out: Vec<ClassTotals> = Vec::new();
    proof {
        assert(out@.to_multiset() =~= vstd::multiset::Multiset::<ClassTotals>::empty()) by {
            vstd::seq_lib::to_multiset_len(out@);
        }
    }
    while v.len() > 0
        invariant
            out@.to_multiset().add(v@.to_multiset()) == orig.to_multiset(),
            counts_desc(out@),
        decreases v@.len(),
    {
        let ghost v_prev = v@;
        let x = match v.pop() {
            Some(x) => x,
            None => {
                return out;
            },
        };
        proof {
            assert(v_prev =~= v@.push(x));
            vstd::seq_lib::to_multiset_build(v@, x);
        }
        let mut p: usize = 0;
        while p < out.len() && out[p].count >= x.count
            invariant
                p <= out@.len(),
                forall|a: int| 0 <= a < p ==> (#[trigger] out@[a]).count >= x.count,
            decreases out@.len() - p,
        {
            p += 1;
        }
        let ghost out_prev = out@;
        out.insert(p, x);
        proof {
            vstd::seq_lib::to_multiset_insert(out_prev, p as int, x);
            assert(out@ == out_prev.insert(p as int, x));
            assert forall|a: int, b: int| 0 <= a < b < out@.len() implies (#[trigger] out@[a]).count
                >= (#[trigger] out@[b]).count by {
                if b == p {
                    assert(out@[a] == out_prev[a]);
                } else if a == p {
                    assert(out@[b] == out_prev[b - 1]);
                    assert(out_prev[p as int].count < x.count);
                    if b - 1 > p {
                        assert(out_prev[p as int].count >= out_prev[b - 1].count);
                    }
                } else if b < p {
                    assert(out@[a] == out_prev[a] && out@[b] == out_prev[b]);
                } else if a < p {
                    assert(out@[a] == out_prev[a] && out@[b] == out_prev[b - 1]);
                } else {
                    assert(out@[a] == out_prev[a - 1] && out@[b] == out_prev[b - 1]);
                }
            }
            assert(out@.to_multiset().add(v@.to_multiset()) =~= orig.to_multiset());
        }
    }
    proof {
        assert(v@.to_multiset() =~= vstd::multiset::Multiset::<ClassTotals>::empty()) by {
            vstd::seq_lib::to_multiset_len(v@);
        }
        assert(out@.to_multiset() =~= orig.to_multiset());
    }
    out
}

// ── MISC ────────────────────────────────────────────────────────

/// The fixed sub-files of the MISC WAD: (first sector, sector count, name).
pub open spec fn misc_sub_file_spec(i: int) -> (int, int, Seq<char>) {
    if i == 0 {
        (1, 9, "2FIP_texture"@)
    } else if i == 1 {
        (10, 235, "WAD_LZ_data"@)
    } else if i == 2 {
        (245, 83, "PS2D_format"@)
    } else if i == 3 {
        (328, 1071, "structured_data_A"@)
    } else if i == 4 {
        (1399, 190, "structured_data_B"@)
    } else {
        (1589, 784, "WAD_LZ_bundle"@)
    }
}

/// Number of sub-files of the MISC WAD.
pub const MISC_SUB_FILE_COUNT: usize = 6;

/// Sub-file `i` of the MISC WAD: (first sector, sector count, name).
pub fn misc_sub_file(i: usize) -> (r: (u32, u32, &'static str))
    requires
        i < 6,
    ensures
        r.0 == misc_sub_file_spec(i as int).0,
        r.1 == misc_sub_file_spec(i as int).1,
        r.2@ == misc_sub_file_spec(i as int).2,
{
    if i == 0 {
        (1, 9, "2FIP_texture")
    } else if i == 1 {
        (10, 235, "WAD_LZ_data")
    } else if i == 2 {
        (245, 83, "PS2D_format")
    } else if i == 3 {
        (328, 1071, "structured_data_A")
    } else if i == 4 {
        (1399, 190, "structured_data_B")
    } else {
        (1589, 784, "WAD_LZ_bundle")
    }
}

/// The bytes of a sub-file: from its first sector, `count` sectors or to
/// the end of the data, whichever comes first.
pub fn sub_file_bytes(raw: &[u8], sector: u32, count: u32) -> (r: Vec<u8>)
    requires
        sector * 0x800 <= raw@.len(),
    ensures
        r@ == raw@.subrange(
            sector * 0x800,
            sector * 0x800 + if count * 0x800 < raw@.len() - sector * 0x800 {
                count * 0x800
            } else {
                raw@.len() - sector * 0x800
            },
        ),
{
    let off = sector as u64 * 0x800;
    let sz = count as u64 * 0x800;
    let left = raw.len() as u64 - off;
    let take = if sz < left {
        sz
    } else {
        left
    };
    copy_range(raw, off as usize, (off + take) as usize)
}

/// A PIF8 texture header: "2FIP" then id, width, height.
pub open spec fn has_2fip(d: Seq<u8>) -> bool {
    d.len() >= 4 && starts4(d, 0x32, 0x46, 0x49, 0x50)
}

/// The (id, width, height) of a PIF8 texture header, if `data` has one.
pub fn fip_info(data: &[u8]) -> (r: Option<(u32, u32, u32)>)
    requires
        has_2fip(data@) ==> data@.len() >= 16,
    ensures
        has_2fip(data@) <==> r is Some,
        r matches Some((id, w, h)) ==> id == le_u32(data@, 4) && w == le_u32(data@, 8) && h
            == le_u32(data@, 12),
{
    if data.len() >= 4 && has4(data, 0x32, 0x46, 0x49, 0x50) {
        Some((r_u32(data, 4), r_u32(data, 8), r_u32(data, 12)))
    } else {
        None
    }
}

/// "PS2D" at `p`.
pub open spec fn ps2d_at(d: Seq<u8>, p: int) -> bool {
    0 <= p && p + 4 <= d.len() && starts4(d.subrange(p, p + 4), 0x50, 0x53, 0x32, 0x44)
}

/// The first position of the "PS2D" signature, if any.
pub fn find_ps2d(data: &[u8]) -> (r: Option<usize>)
    ensures
        match r {
            Some(p) => ps2d_at(data@, p as int) && forall|q: int| 0 <= q < p ==> !#[trigger] ps2d_at(data@, q),
            None => forall|q: int| !#[trigger] ps2d_at(data@, q),
        },
{
    let mut p: usize = 0;
    while p < data.len() && data.len() - p >= 4
        invariant
            p <= data@.len(),
            forall|q: int| 0 <= q < p ==> !#[trigger] ps2d_at(data@, q),
        decreases data@.len() - p,
    {
        if data[p] == 0x50 && data[p + 1] == 0x53 && data[p + 2] == 0x32 && data[p + 3] == 0x44 {
            return Some(p);
        }
        assert(!ps2d_at(data@, p as int));
        p += 1;
    }
    None
}

} // verus!
