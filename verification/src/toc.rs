//! The disc's table of contents (TOC, at LBA 1001): the global WAD headers,
//! then the level table, one 24-byte row per level holding the
//! (header sector, size in sectors) pairs of its audio, level and scene WADs.

use vstd::prelude::*;
use vstd::string::StringExecFns;
use crate::common::{le_u32, r_s32, r_u32, signed32};
use crate::wad::slice_range;

verus! {

/// The 6 u32 words at `pos` are all non-zero (a plausible level-table row).
pub open spec fn nonzero_row(toc: Seq<u8>, pos: int) -> bool {
    &&& le_u32(toc, pos) > 0
    &&& le_u32(toc, pos + 4) > 0
    &&& le_u32(toc, pos + 8) > 0
    &&& le_u32(toc, pos + 12) > 0
    &&& le_u32(toc, pos + 16) > 0
    &&& le_u32(toc, pos + 20) > 0
}

/// First position at or after `pos`, in steps of 4, where a full non-zero
/// row starts, or the first one past which no row fits.
pub open spec fn level_table_start(toc: Seq<u8>, pos: int) -> int
    decreases toc.len() - pos,
{
    if pos < 0 || pos + 24 > toc.len() || nonzero_row(toc, pos) {
        pos
    } else {
        level_table_start(toc, pos + 4)
    }
}

fn is_nonzero_row(toc: &[u8], pos: usize) -> (b: bool)
    requires
        pos + 24 <= toc.len(),
    ensures
        b == nonzero_row(toc@, pos as int),
{
    r_u32(toc, pos) > 0 && r_u32(toc, pos + 4) > 0 && r_u32(toc, pos + 8) > 0 && r_u32(toc, pos + 12)
        > 0 && r_u32(toc, pos + 16) > 0 && r_u32(toc, pos + 20) > 0
}

/// Slide forward from `pos` in steps of 4 to the first full non-zero row.
pub fn find_level_table_start(toc: &[u8], pos: usize) -> (p: usize)
    ensures
        p == level_table_start(toc@, pos as int),
{
    let mut p = pos;
    while p <= toc.len() && toc.len() - p >= 24
        invariant
            level_table_start(toc@, p as int) == level_table_start(toc@, pos as int),
            p >= pos,
        decreases toc@.len() - p,
    {
        if is_nonzero_row(toc, p) {
            return p;
        }
        p += 4;
    }
    p
}

/// The level table's rows from `pos` on: consecutive full non-zero rows,
/// 24 bytes apart (their positions).
pub open spec fn level_rows(toc: Seq<u8>, pos: int) -> Seq<int>
    decreases toc.len() - pos,
{
    if 0 <= pos && pos + 24 <= toc.len() && nonzero_row(toc, pos) {
        seq![pos] + level_rows(toc, pos + 24)
    } else {
        Seq::empty()
    }
}

proof fn lemma_level_rows_bounds(toc: Seq<u8>, pos: int)
    ensures
        forall|k: int|
            0 <= k < level_rows(toc, pos).len() ==> {
                &&& #[trigger] level_rows(toc, pos)[k] == pos + 24 * k
                &&& 0 <= pos + 24 * k
                &&& pos + 24 * k + 24 <= toc.len()
                &&& nonzero_row(toc, pos + 24 * k)
            },
    decreases toc.len() - pos,
{
    if 0 <= pos && pos + 24 <= toc.len() && nonzero_row(toc, pos) {
        lemma_level_rows_bounds(toc, pos + 24);
        let rest = level_rows(toc, pos + 24);
        assert forall|k: int| 0 <= k < level_rows(toc, pos).len() implies {
            &&& #[trigger] level_rows(toc, pos)[k] == pos + 24 * k
            &&& 0 <= pos + 24 * k
            &&& pos + 24 * k + 24 <= toc.len()
            &&& nonzero_row(toc, pos + 24 * k)
        } by {
            if k > 0 {
                assert(level_rows(toc, pos)[k] == rest[k - 1]);
            }
        }
    }
}

/// The 8 global WADs of the disc, in TOC order, by the size of their header.
pub open spec fn known_header_size(idx: int) -> int {
    if idx == 0 {
        0x0648
    } else if idx == 1 {
        0x0048
    } else if idx == 2 {
        0x0BF0
    } else if idx == 3 {
        0x0C30
    } else if idx == 4 {
        0x0398
    } else if idx == 5 {
        0x2340
    } else if idx == 6 {
        0x03C8
    } else {
        0x2AB0
    }
}

/// Name of the `idx`-th global WAD.
pub open spec fn known_header_name(idx: int) -> Seq<char> {
    if idx == 0 {
        "MPEG"@
    } else if idx == 1 {
        "MISC"@
    } else if idx == 2 {
        "BONUS"@
    } else if idx == 3 {
        "SPACE"@
    } else if idx == 4 {
        "ARMOR"@
    } else if idx == 5 {
        "AUDIO"@
    } else if idx == 6 {
        "GADGET"@
    } else {
        "HUD"@
    }
}

fn known_header(idx: usize) -> (r: (i32, &'static str))
    requires
        idx < 8,
    ensures
        r.0 as int == known_header_size(idx as int),
        r.1@ == known_header_name(idx as int),
{
    if idx == 0 {
        (0x0648, "MPEG")
    } else if idx == 1 {
        (0x0048, "MISC")
    } else if idx == 2 {
        (0x0BF0, "BONUS")
    } else if idx == 3 {
        (0x0C30, "SPACE")
    } else if idx == 4 {
        (0x0398, "ARMOR")
    } else if idx == 5 {
        (0x2340, "AUDIO")
    } else if idx == 6 {
        (0x03C8, "GADGET")
    } else {
        (0x2AB0, "HUD")
    }
}

/// How many of the 8 global WAD headers, from the `idx`-th on, follow each
/// other from `pos` with the expected sizes.
pub open spec fn known_headers_count(toc: Seq<u8>, pos: int, idx: int) -> int
    decreases 8 - idx,
{
    if idx < 0 || idx >= 8 || pos + 8 > toc.len() || signed32(le_u32(toc, pos)) != known_header_size(
        idx,
    ) {
        0
    } else {
        1 + known_headers_count(toc, pos + known_header_size(idx), idx + 1)
    }
}

/// Byte position of the `k`-th global WAD header (the sizes of the ones
/// before it added up).
pub open spec fn known_header_pos(k: int) -> int
    decreases k,
{
    if k <= 0 {
        0
    } else {
        known_header_pos(k - 1) + known_header_size(k - 1)
    }
}

/// A global WAD header: its name, first sector and header size.
pub struct WadHdr {
    pub name: String,
    pub sector: u32,
    pub hdr_size: i32,
}

proof fn lemma_known_headers_count(toc: Seq<u8>, idx: int)
    requires
        0 <= idx <= 8,
    ensures
        0 <= known_headers_count(toc, known_header_pos(idx), idx) <= 8 - idx,
        forall|k: int|
            idx <= k < idx + known_headers_count(toc, known_header_pos(idx), idx) ==> {
                &&& known_header_pos(k) + 8 <= toc.len()
                &&& signed32(le_u32(toc, #[trigger] known_header_pos(k))) == known_header_size(k)
            },
        known_headers_count(toc, known_header_pos(idx), idx) < 8 - idx ==> {
            let k = idx + known_headers_count(toc, known_header_pos(idx), idx);
            known_header_pos(k) + 8 > toc.len() || signed32(le_u32(toc, known_header_pos(k)))
                != known_header_size(k)
        },
    decreases 8 - idx,
{
    let pos = known_header_pos(idx);
    if idx < 8 {
        lemma_known_headers_count(toc, idx + 1);
        assert(known_header_pos(idx + 1) == pos + known_header_size(idx));
        if pos + 8 <= toc.len() && signed32(le_u32(toc, pos)) == known_header_size(idx) {
            assert(known_headers_count(toc, pos, idx) == 1 + known_headers_count(
                toc,
                known_header_pos(idx + 1),
                idx + 1,
            ));
            let c = known_headers_count(toc, pos, idx);
            assert forall|k: int| idx <= k < idx + c implies {
                &&& known_header_pos(k) + 8 <= toc.len()
                &&& signed32(le_u32(toc, #[trigger] known_header_pos(k))) == known_header_size(k)
            } by {
                if k > idx {
                    assert(idx + 1 <= k < idx + 1 + known_headers_count(
                        toc,
                        known_header_pos(idx + 1),
                        idx + 1,
                    ));
                }
            }
        } else {
            assert(known_headers_count(toc, pos, idx) == 0);
        }
    } else {
        assert(known_headers_count(toc, pos, idx) == 0);
    }
}

/// The global WAD headers at the start of the TOC: one per known header
/// size, in order, as long as the sizes match; and the position after them.
pub fn scan_global_headers(toc_data: &[u8]) -> (r: (Vec<WadHdr>, usize))
    requires
        toc_data@.len() <= usize::MAX - 0x2AB0,
    ensures
        ({
            let n = known_headers_count(toc_data@, 0, 0);
            &&& r.0@.len() == n
            &&& r.1 == known_header_pos(n)
            &&& forall|k: int|
                0 <= k < n ==> {
                    &&& (#[trigger] r.0@[k]).name@ == known_header_name(k)
                    &&& r.0@[k].sector == le_u32(toc_data@, known_header_pos(k) + 4)
                    &&& r.0@[k].hdr_size == known_header_size(k)
                }
        }),
{
    let ghost n = known_headers_count(toc_data@, 0, 0);
    proof {
        lemma_known_headers_count(toc_data@, 0);
        assert(known_header_pos(0) == 0);
    }
    let mut wads: Vec<WadHdr> = Vec::new();
    let mut pos: usize = 0;
    let mut idx: usize = 0;
    while pos <= toc_data.len() && toc_data.len() - pos >= 8 && idx < 8
        invariant_except_break
            idx <= n,
            pos == known_header_pos(idx as int),
        invariant
            0 <= n <= 8,
            idx <= 8,
            toc_data@.len() <= usize::MAX - 0x2AB0,
            n == known_headers_count(toc_data@, 0, 0),
            forall|k: int|
                0 <= k < n ==> {
                    &&& known_header_pos(k) + 8 <= toc_data@.len()
                    &&& signed32(le_u32(toc_data@, #[trigger] known_header_pos(k)))
                        == known_header_size(k)
                },
            n < 8 ==> known_header_pos(n) + 8 > toc_data@.len() || signed32(
                le_u32(toc_data@, known_header_pos(n)),
            ) != known_header_size(n),
            wads@.len() == idx,
            forall|k: int|
                0 <= k < idx ==> {
                    &&& (#[trigger] wads@[k]).name@ == known_header_name(k)
                    &&& wads@[k].sector == le_u32(toc_data@, known_header_pos(k) + 4)
                    &&& wads@[k].hdr_size == known_header_size(k)
                },
        ensures
            idx == n,
            pos == known_header_pos(n),
        decreases 8 - idx,
    {
        let hdr_size = r_s32(toc_data, pos);
        let (size, name) = known_header(idx);
        if hdr_size != size {
            break;
        }
        let sector = r_u32(toc_data, pos + 4);
        let hdr = WadHdr { name: String::from_str(name), sector, hdr_size };
        assert(hdr.name@ == known_header_name(idx as int));
        assert(hdr.sector == le_u32(toc_data@, known_header_pos(idx as int) + 4));
        assert(hdr.hdr_size == known_header_size(idx as int));
        wads.push(hdr);
        assert(wads@[idx as int] == hdr);
        pos += hdr_size as usize;
        idx += 1;
    }
    (wads, pos)
}

/// One WAD of a level row, as the extractor reads it: header sector, size in
/// sectors, and the file sector named in the header (when the header sector
/// lies inside the disc image).
pub struct LvlRange {
    pub offset: u32,
    pub size: u32,
    pub file_sector: Option<u32>,
}

/// A level row: the level number and its audio, level and scene WADs.
pub struct LvlEntry {
    pub number: u32,
    pub ranges: Vec<LvlRange>,
}

/// The file sector at offset 4 of the WAD header in sector `hdr_sector`,
/// when those 8 header bytes lie inside the image.
pub open spec fn file_sector_at(iso: Seq<u8>, hdr_sector: int) -> Option<u32> {
    let hdr_off = hdr_sector * 0x800;
    if hdr_off + 8 <= iso.len() {
        Some(le_u32(iso, hdr_off + 4) as u32)
    } else {
        None
    }
}

fn read_file_sector(iso: &[u8], hdr_sector: u32) -> (r: Option<u32>)
    ensures
        r == file_sector_at(iso@, hdr_sector as int),
{
    let hdr_off = hdr_sector as u64 * 0x800;
    if hdr_off + 8 <= iso.len() as u64 {
        Some(r_u32(iso, hdr_off as usize + 4))
    } else {
        None
    }
}

/// The level table rows found from `start` on: the first full non-zero row
/// at or after it (4-byte steps), then every following full non-zero row,
/// 24 bytes apart. Row `k` is level `k`; its 3 WADs are the (header sector,
/// size) pairs at 0, 8 and 16, with the file sector each header names.
pub fn find_levels(iso_data: &[u8], toc_data: &[u8], start: usize) -> (r: Vec<LvlEntry>)
    ensures
        ({
            let s = level_table_start(toc_data@, start as int);
            &&& r@.len() == level_rows(toc_data@, s).len()
            &&& forall|k: int|
                0 <= k < r@.len() ==> {
                    &&& (#[trigger] r@[k]).number == k as u32
                    &&& r@[k].ranges@.len() == 3
                    &&& forall|i: int|
                        0 <= i < 3 ==> {
                            &&& (#[trigger] r@[k].ranges@[i]).offset == le_u32(
                                toc_data@,
                                s + 24 * k + 8 * i,
                            )
                            &&& r@[k].ranges@[i].size == le_u32(toc_data@, s + 24 * k + 8 * i + 4)
                            &&& r@[k].ranges@[i].file_sector == file_sector_at(
                                iso_data@,
                                le_u32(toc_data@, s + 24 * k + 8 * i),
                            )
                        }
                }
        }),
{
    let ghost s = level_table_start(toc_data@, start as int);
    let mut pos = find_level_table_start(toc_data, start);
    let mut levels: Vec<LvlEntry> = Vec::new();
    proof {
        lemma_level_rows_bounds(toc_data@, s);
    }
    while pos <= toc_data.len() && toc_data.len() - pos >= 24 && is_nonzero_row(toc_data, pos)
        invariant
            s == level_table_start(toc_data@, start as int),
            pos == s + 24 * levels@.len(),
            level_rows(toc_data@, s).len() == levels@.len() + level_rows(toc_data@, pos as int).len(),
            forall|k: int|
                0 <= k < levels@.len() ==> {
                    &&& (#[trigger] levels@[k]).number == k as u32
                    &&& levels@[k].ranges@.len() == 3
                    &&& forall|i: int|
                        0 <= i < 3 ==> {
                            &&& (#[trigger] levels@[k].ranges@[i]).offset == le_u32(
                                toc_data@,
                                s + 24 * k + 8 * i,
                            )
                            &&& levels@[k].ranges@[i].size == le_u32(
                                toc_data@,
                                s + 24 * k + 8 * i + 4,
                            )
                            &&& levels@[k].ranges@[i].file_sector == file_sector_at(
                                iso_data@,
                                le_u32(toc_data@, s + 24 * k + 8 * i),
                            )
                        }
                },
        decreases toc_data@.len() - pos,
    {
        let mut ranges: Vec<LvlRange> = Vec::new();
        let mut i: usize = 0;
        while i < 3
            invariant
                i <= 3,
                pos + 24 <= toc_data.len(),
                ranges@.len() == i,
                forall|j: int|
                    0 <= j < i ==> {
                        &&& (#[trigger] ranges@[j]).offset == le_u32(toc_data@, pos + 8 * j)
                        &&& ranges@[j].size == le_u32(toc_data@, pos + 8 * j + 4)
                        &&& ranges@[j].file_sector == file_sector_at(
                            iso_data@,
                            le_u32(toc_data@, pos + 8 * j),
                        )
                    },
            decreases 3 - i,
        {
            let off = r_u32(toc_data, pos + i * 8);
            let sz = r_u32(toc_data, pos + i * 8 + 4);
            let file_sector = read_file_sector(iso_data, off);
            ranges.push(LvlRange { offset: off, size: sz, file_sector });
            i += 1;
        }
        let num = levels.len() as u32;
        let ghost k = levels@.len() as int;
        levels.push(LvlEntry { number: num, ranges });
        assert(levels@[k].ranges@ == ranges@);
        pos += 24;
    }
    levels
}

/// One WAD of a level row as the TOC report shows it: header sector, size,
/// and once the header has been read ([`parse_level_headers`]) its header
/// size, file sector and file id.
pub struct LevelRange {
    pub offset: u32,
    pub size: u32,
    pub header_size: Option<i32>,
    pub file_sector: Option<u32>,
    pub file_id: Option<u32>,
}

/// A level of the TOC report.
pub struct Level {
    pub number: u32,
    pub ranges: Vec<LevelRange>,
}

/// The level rows from `start_offset` on (as [`find_levels`] finds them),
/// with nothing read from the WAD headers yet.
pub fn scan_for_level_table(toc_data: &[u8], start_offset: usize) -> (r: Vec<Level>)
    ensures
        ({
            let s = level_table_start(toc_data@, start_offset as int);
            &&& r@.len() == level_rows(toc_data@, s).len()
            &&& forall|k: int|
                0 <= k < r@.len() ==> {
                    &&& (#[trigger] r@[k]).number == k as u32
                    &&& r@[k].ranges@.len() == 3
                    &&& forall|i: int|
                        0 <= i < 3 ==> {
                            &&& (#[trigger] r@[k].ranges@[i]).offset == le_u32(
                                toc_data@,
                                s + 24 * k + 8 * i,
                            )
                            &&& r@[k].ranges@[i].size == le_u32(toc_data@, s + 24 * k + 8 * i + 4)
                            &&& r@[k].ranges@[i].header_size is None
                            &&& r@[k].ranges@[i].file_sector is None
                            &&& r@[k].ranges@[i].file_id is None
                        }
                }
        }),
{
    let ghost s = level_table_start(toc_data@, start_offset as int);
    let mut pos = find_level_table_start(toc_data, start_offset);
    let mut levels: Vec<Level> = Vec::new();
    proof {
        lemma_level_rows_bounds(toc_data@, s);
    }
    while pos <= toc_data.len() && toc_data.len() - pos >= 24 && is_nonzero_row(toc_data, pos)
        invariant
            s == level_table_start(toc_data@, start_offset as int),
            pos == s + 24 * levels@.len(),
            level_rows(toc_data@, s).len() == levels@.len() + level_rows(toc_data@, pos as int).len(),
            forall|k: int|
                0 <= k < levels@.len() ==> {
                    &&& (#[trigger] levels@[k]).number == k as u32
                    &&& levels@[k].ranges@.len() == 3
                    &&& forall|i: int|
                        0 <= i < 3 ==> {
                            &&& (#[trigger] levels@[k].ranges@[i]).offset == le_u32(
                                toc_data@,
                                s + 24 * k + 8 * i,
                            )
                            &&& levels@[k].ranges@[i].size == le_u32(
                                toc_data@,
                                s + 24 * k + 8 * i + 4,
                            )
                            &&& levels@[k].ranges@[i].header_size is None
                            &&& levels@[k].ranges@[i].file_sector is None
                            &&& levels@[k].ranges@[i].file_id is None
                        }
                },
        decreases toc_data@.len() - pos,
    {
        let mut ranges: Vec<LevelRange> = Vec::new();
        let mut i: usize = 0;
        while i < 3
            invariant
                i <= 3,
                pos + 24 <= toc_data.len(),
                ranges@.len() == i,
                forall|j: int|
                    0 <= j < i ==> {
                        &&& (#[trigger] ranges@[j]).offset == le_u32(toc_data@, pos + 8 * j)
                        &&& ranges@[j].size == le_u32(toc_data@, pos + 8 * j + 4)
                        &&& ranges@[j].header_size is None
                        &&& ranges@[j].file_sector is None
                        &&& ranges@[j].file_id is None
                    },
            decreases 3 - i,
        {
            let off = r_u32(toc_data, pos + i * 8);
            let sz = r_u32(toc_data, pos + i * 8 + 4);
            ranges.push(
                LevelRange { offset: off, size: sz, header_size: None, file_sector: None, file_id: None },
            );
            i += 1;
        }
        let num = levels.len() as u32;
        let ghost k = levels@.len() as int;
        levels.push(Level { number: num, ranges });
        assert(levels@[k].ranges@ == ranges@);
        pos += 24;
    }
    levels
}

/// Reading the WAD header of a range fills its header size and file sector,
/// and its file id when the header is at least 12 bytes long; a range whose
/// header lies outside the image is left as it is.
pub open spec fn header_read(iso: Seq<u8>, before: LevelRange, after: LevelRange) -> bool {
    let hdr_off = before.offset * 0x800;
    &&& after.offset == before.offset
    &&& after.size == before.size
    &&& if hdr_off + 8 <= iso.len() {
        &&& after.header_size == Some(signed32(le_u32(iso, hdr_off)) as i32)
        &&& after.file_sector == Some(le_u32(iso, hdr_off + 4) as u32)
        &&& after.file_id == (if signed32(le_u32(iso, hdr_off)) >= 0x0C {
            Some(le_u32(iso, hdr_off + 8) as u32)
        } else {
            before.file_id
        })
    } else {
        &&& after.header_size == before.header_size
        &&& after.file_sector == before.file_sector
        &&& after.file_id == before.file_id
    }
}

/// A header that claims 12 bytes or more has them inside the image.
pub open spec fn header_readable(iso: Seq<u8>, hdr_sector: int) -> bool {
    let hdr_off = hdr_sector * 0x800;
    (hdr_off + 8 <= iso.len() && signed32(le_u32(iso, hdr_off)) >= 0x0C) ==> hdr_off + 12 <= iso.len()
}

fn read_level_header(iso_data: &[u8], rng: &LevelRange) -> (r: LevelRange)
    requires
        header_readable(iso_data@, rng.offset as int),
    ensures
        header_read(iso_data@, *rng, r),
{
    let hdr_off = rng.offset as u64 * 0x800;
    if hdr_off + 8 <= iso_data.len() as u64 {
        let off = hdr_off as usize;
        let hdr_sz = r_s32(iso_data, off);
        let sector = r_u32(iso_data, off + 4);
        let file_id = if hdr_sz >= 0x0C {
            Some(r_u32(iso_data, off + 8))
        } else {
            rng.file_id
        };
        LevelRange {
            offset: rng.offset,
            size: rng.size,
            header_size: Some(hdr_sz),
            file_sector: Some(sector),
            file_id,
        }
    } else {
        LevelRange {
            offset: rng.offset,
            size: rng.size,
            header_size: rng.header_size,
            file_sector: rng.file_sector,
            file_id: rng.file_id,
        }
    }
}

/// Read the WAD header of every range of every level (see [`header_read`]).
pub fn parse_level_headers(iso_data: &[u8], levels: Vec<Level>) -> (r: Vec<Level>)
    requires
        forall|k: int, i: int|
            0 <= k < levels@.len() && 0 <= i < levels@[k].ranges@.len() ==> header_readable(
                iso_data@,
                (#[trigger] levels@[k].ranges@[i]).offset as int,
            ),
    ensures
        r@.len() == levels@.len(),
        forall|k: int|
            0 <= k < r@.len() ==> {
                &&& (#[trigger] r@[k]).number == levels@[k].number
                &&& r@[k].ranges@.len() == levels@[k].ranges@.len()
                &&& forall|i: int|
                    0 <= i < r@[k].ranges@.len() ==> header_read(
                        iso_data@,
                        levels@[k].ranges@[i],
                        #[trigger] r@[k].ranges@[i],
                    )
            },
{
    let mut out: Vec<Level> = Vec::new();
    let mut k: usize = 0;
    while k < levels.len()
        invariant
            k <= levels@.len(),
            forall|k: int, i: int|
                0 <= k < levels@.len() && 0 <= i < levels@[k].ranges@.len() ==> header_readable(
                    iso_data@,
                    (#[trigger] levels@[k].ranges@[i]).offset as int,
                ),
            out@.len() == k,
            forall|j: int|
                0 <= j < k ==> {
                    &&& (#[trigger] out@[j]).number == levels@[j].number
                    &&& out@[j].ranges@.len() == levels@[j].ranges@.len()
                    &&& forall|i: int|
                        0 <= i < out@[j].ranges@.len() ==> header_read(
                            iso_data@,
                            levels@[j].ranges@[i],
                            #[trigger] out@[j].ranges@[i],
                        )
                },
        decreases levels@.len() - k,
    {
        let lvl = &levels[k];
        let mut ranges: Vec<LevelRange> = Vec::new();
        let mut i: usize = 0;
        while i < lvl.ranges.len()
            invariant
                i <= lvl.ranges@.len(),
                lvl == levels@[k as int],
                k < levels@.len(),
                forall|k: int, i: int|
                    0 <= k < levels@.len() && 0 <= i < levels@[k].ranges@.len() ==> header_readable(
                        iso_data@,
                        (#[trigger] levels@[k].ranges@[i]).offset as int,
                    ),
                ranges@.len() == i,
                forall|j: int|
                    0 <= j < i ==> header_read(iso_data@, lvl.ranges@[j], #[trigger] ranges@[j]),
            decreases lvl.ranges@.len() - i,
        {
            let nr = read_level_header(iso_data, &lvl.ranges[i]);
            ranges.push(nr);
            i += 1;
        }
        let ghost j = k as int;
        out.push(Level { number: lvl.number, ranges });
        assert(out@[j].ranges@ == ranges@);
        k += 1;
    }
    out
}

/// Where a level's WAD lies on the disc: the file LBA named in its level
/// header, and its size in sectors from the level table.
pub struct LevelWadEntry {
    pub file_lba: u32,
    pub wad_sectors: u32,
}

/// Why a level's WAD cannot be found in the TOC.
#[derive(Debug, Clone, Copy, PartialEq, Eq, Structural)]
pub enum TocError {
    /// The image ends before the TOC (LBA 1001).
    TocOutOfBounds,
    /// The level header at this LBA lies outside the image.
    LevelHeaderOutOfBounds(u32),
    /// The level header of this level names file LBA 0.
    ZeroFileLba(u32),
    /// The level table has no row for this level.
    LevelNotFound(u32),
    /// No level table follows the global WAD headers.
    NoLevelTable,
}

/// Byte offset of the TOC in the disc image (LBA 1001).
pub open spec fn toc_start() -> int {
    1001int * 0x800
}

/// The TOC as the unpacker reads it: at most 64 KiB from LBA 1001.
pub open spec fn unpack_toc(iso: Seq<u8>) -> Seq<u8> {
    let len = if iso.len() - toc_start() < 65536 {
        iso.len() - toc_start()
    } else {
        65536
    };
    iso.subrange(toc_start(), toc_start() + len)
}

/// Position of level row `level` in the unpacker's TOC: the level table is
/// found after the known global WAD headers.
pub open spec fn unpack_row(toc: Seq<u8>, level: int) -> int {
    level_table_start(toc, known_header_pos(known_headers_count(toc, 0, 0))) + 24 * level
}

/// What the unpacker makes of the TOC for `level`.
pub open spec fn spec_find_level_wad_entry(iso: Seq<u8>, level: u32) -> Result<(u32, u32), TocError> {
    if toc_start() + 8 > iso.len() {
        Err(TocError::TocOutOfBounds)
    } else {
        let toc = unpack_toc(iso);
        let s = level_table_start(toc, known_header_pos(known_headers_count(toc, 0, 0)));
        if level >= level_rows(toc, s).len() {
            Err(TocError::LevelNotFound(level))
        } else {
            let row = unpack_row(toc, level as int);
            let hdr_lba = le_u32(toc, row + 8);
            let hdr_off = hdr_lba * 0x800;
            if hdr_off + 8 > iso.len() {
                Err(TocError::LevelHeaderOutOfBounds(hdr_lba as u32))
            } else if le_u32(iso, hdr_off + 4) == 0 {
                Err(TocError::ZeroFileLba(level))
            } else {
                Ok((le_u32(iso, hdr_off + 4) as u32, le_u32(toc, row + 12) as u32))
            }
        }
    }
}

/// Find level `level_num`'s WAD through the TOC: skip the known global WAD
/// headers, find the level table, take its row for the level, and read the
/// file LBA from the level header that the row names.
pub fn find_level_wad_entry(iso_data: &[u8], level_num: u32) -> (r: Result<LevelWadEntry, TocError>)
    ensures
        match spec_find_level_wad_entry(iso_data@, level_num) {
            Ok((lba, sectors)) => r matches Ok(e) && e.file_lba == lba && e.wad_sectors == sectors,
            Err(e) => r matches Err(x) && x == e,
        },
{
    let toc_off: usize = 1001 * 0x800;
    if iso_data.len() < 8 || toc_off > iso_data.len() - 8 {
        return Err(TocError::TocOutOfBounds);
    }
    assert(toc_off == toc_start());
    let avail = iso_data.len() - toc_off;
    let toc_size = if avail < 65536 {
        avail
    } else {
        65536
    };
    let toc = slice_range(iso_data, toc_off, toc_off + toc_size);
    assert(toc@ == unpack_toc(iso_data@));
    let (_, after_headers) = scan_global_headers(toc);
    let ghost s = level_table_start(toc@, after_headers as int);
    let mut pos = find_level_table_start(toc, after_headers);
    let mut levels_found: u32 = 0;
    proof {
        lemma_level_rows_bounds(toc@, s);
    }
    while pos <= toc.len() && toc.len() - pos >= 24 && is_nonzero_row(toc, pos)
        invariant
            toc@ == unpack_toc(iso_data@),
            toc_start() + 8 <= iso_data@.len(),
            toc@.len() <= 65536,
            s == level_table_start(toc@, known_header_pos(known_headers_count(toc@, 0, 0))),
            pos == s + 24 * levels_found,
            levels_found <= level_num,
            level_rows(toc@, s).len() == levels_found + level_rows(toc@, pos as int).len(),
            forall|k: int|
                0 <= k < level_rows(toc@, s).len() ==> {
                    &&& #[trigger] level_rows(toc@, s)[k] == s + 24 * k
                    &&& 0 <= s + 24 * k
                    &&& s + 24 * k + 24 <= toc@.len()
                },
        decreases toc@.len() - pos,
    {
        assert(level_rows(toc@, pos as int).len() >= 1);
        if levels_found == level_num {
            assert(unpack_row(toc@, level_num as int) == pos);
            let hdr_lba = r_u32(toc, pos + 8);
            let wad_sectors = r_u32(toc, pos + 12);
            let hdr_off = hdr_lba as u64 * 0x800;
            proof {
                let tt = unpack_toc(iso_data@);
                assert(tt == toc@);
                assert(level_num < level_rows(tt, s).len());
                assert(le_u32(tt, unpack_row(tt, level_num as int) + 8) == hdr_lba);
            }
            if hdr_off + 8 > iso_data.len() as u64 {
                return Err(TocError::LevelHeaderOutOfBounds(hdr_lba));
            }
            let file_lba = r_u32(iso_data, hdr_off as usize + 4);
            if file_lba == 0 {
                return Err(TocError::ZeroFileLba(level_num));
            }
            return Ok(LevelWadEntry { file_lba, wad_sectors });
        }
        levels_found += 1;
        pos += 24;
    }
    Err(TocError::LevelNotFound(level_num))
}

/// Index of the global WAD whose header is `size` bytes long, if any.
pub open spec fn global_wad_index(size: int) -> Option<int> {
    if size == 0x0648 {
        Some(0)
    } else if size == 0x0048 {
        Some(1)
    } else if size == 0x0BF0 {
        Some(2)
    } else if size == 0x0C30 {
        Some(3)
    } else if size == 0x0398 {
        Some(4)
    } else if size == 0x2340 {
        Some(5)
    } else if size == 0x03C8 {
        Some(6)
    } else if size == 0x2AB0 {
        Some(7)
    } else {
        None
    }
}

/// Type name of the `idx`-th global WAD.
pub open spec fn known_header_type(idx: int) -> Seq<char> {
    if idx == 0 {
        "mpeg"@
    } else if idx == 1 {
        "misc"@
    } else if idx == 2 {
        "bonus"@
    } else if idx == 3 {
        "space"@
    } else if idx == 4 {
        "armor"@
    } else if idx == 5 {
        "audio"@
    } else if idx == 6 {
        "gadget"@
    } else {
        "hud"@
    }
}

/// Identify a global WAD by its header size (the u32 at the start of its
/// header): game `UYA`, its name and type; nothing for an unknown size or a
/// header shorter than 4 bytes.
pub fn identify_wad(header_bytes: &[u8]) -> (r: (Option<String>, Option<String>, Option<String>))
    ensures
        header_bytes@.len() < 4 ==> r.0 is None && r.1 is None && r.2 is None,
        header_bytes@.len() >= 4 ==> match global_wad_index(le_u32(header_bytes@, 0)) {
            Some(idx) => {
                &&& r.0 matches Some(g) && g@ == "UYA"@
                &&& r.1 matches Some(n) && n@ == known_header_name(idx)
                &&& r.2 matches Some(w) && w@ == known_header_type(idx)
            },
            None => r.0 is None && r.1 is None && r.2 is None,
        },
{
    if header_bytes.len() < 4 {
        return (None, None, None);
    }
    let hdr_size = r_u32(header_bytes, 0);
    let kind: Option<(&'static str, &'static str)> = if hdr_size == 0x0648 {
        Some(("MPEG", "mpeg"))
    } else if hdr_size == 0x0048 {
        Some(("MISC", "misc"))
    } else if hdr_size == 0x0bf0 {
        Some(("BONUS", "bonus"))
    } else if hdr_size == 0x0c30 {
        Some(("SPACE", "space"))
    } else if hdr_size == 0x0398 {
        Some(("ARMOR", "armor"))
    } else if hdr_size == 0x2340 {
        Some(("AUDIO", "audio"))
    } else if hdr_size == 0x03c8 {
        Some(("GADGET", "gadget"))
    } else if hdr_size == 0x2ab0 {
        Some(("HUD", "hud"))
    } else {
        None
    };
    match kind {
        Some((name, wtype)) => (
            Some(String::from_str("UYA")),
            Some(String::from_str(name)),
            Some(String::from_str(wtype)),
        ),
        None => (None, None, None),
    }
}

/// A global WAD header as the TOC report reads it.
pub struct GlobalWad {
    pub name: String,
    pub wtype: String,
    pub header_size: i32,
    pub sector: u32,
    pub game: String,
    pub size_sectors: Option<u32>,
}

/// A global WAD header starts at `pos`: it fits, has a positive known size,
/// and ends inside the TOC.
pub open spec fn global_header_at(toc: Seq<u8>, pos: int) -> bool {
    &&& 0 <= pos
    &&& pos + 8 <= toc.len()
    &&& signed32(le_u32(toc, pos)) > 0
    &&& global_wad_index(le_u32(toc, pos)) is Some
    &&& pos + le_u32(toc, pos) <= toc.len()
}

/// Positions of the consecutive global WAD headers from `pos` on.
pub open spec fn global_header_positions(toc: Seq<u8>, pos: int) -> Seq<int>
    decreases toc.len() - pos,
{
    if global_header_at(toc, pos) {
        seq![pos] + global_header_positions(toc, pos + le_u32(toc, pos))
    } else {
        Seq::empty()
    }
}

/// Where the consecutive global WAD headers from `pos` on end.
pub open spec fn global_headers_end(toc: Seq<u8>, pos: int) -> int
    decreases toc.len() - pos,
{
    if global_header_at(toc, pos) {
        global_headers_end(toc, pos + le_u32(toc, pos))
    } else {
        pos
    }
}

/// The global WAD header at `pos`, as the report reads it.
pub open spec fn global_wad_read(toc: Seq<u8>, pos: int, w: GlobalWad) -> bool {
    let idx = global_wad_index(le_u32(toc, pos))->0;
    &&& w.name@ == known_header_name(idx)
    &&& w.wtype@ == known_header_type(idx)
    &&& w.game@ == "UYA"@
    &&& w.header_size == le_u32(toc, pos)
    &&& w.sector == le_u32(toc, pos + 4)
    &&& w.size_sectors == (if le_u32(toc, pos) >= 12 {
        Some(le_u32(toc, pos + 8) as u32)
    } else {
        None::<u32>
    })
}

/// The global WAD headers from `start_offset` on: each one of a known
/// positive size that ends inside the TOC, one after the other; and where
/// they end.
pub fn parse_global_wad_headers(toc_data: &[u8], start_offset: usize) -> (r: (
    Vec<GlobalWad>,
    usize,
))
    ensures
        r.1 == global_headers_end(toc_data@, start_offset as int),
        r.0@.len() == global_header_positions(toc_data@, start_offset as int).len(),
        forall|k: int|
            0 <= k < r.0@.len() ==> global_wad_read(
                toc_data@,
                global_header_positions(toc_data@, start_offset as int)[k],
                #[trigger] r.0@[k],
            ),
{
    let mut global_wads: Vec<GlobalWad> = Vec::new();
    let mut pos = start_offset;
    let ghost ps = global_header_positions(toc_data@, start_offset as int);
    let ghost mut done: Seq<int> = Seq::empty();
    assert(ps =~= done + global_header_positions(toc_data@, pos as int));
    while pos <= toc_data.len() && toc_data.len() - pos >= 8
        invariant
            ps == global_header_positions(toc_data@, start_offset as int),
            global_headers_end(toc_data@, pos as int) == global_headers_end(
                toc_data@,
                start_offset as int,
            ),
            ps == done + global_header_positions(toc_data@, pos as int),
            done.len() == global_wads@.len(),
            forall|k: int|
                0 <= k < global_wads@.len() ==> global_wad_read(
                    toc_data@,
                    done[k],
                    #[trigger] global_wads@[k],
                ),
        ensures
            !global_header_at(toc_data@, pos as int),
        decreases toc_data@.len() - pos,
    {
        let hdr_size = r_s32(toc_data, pos);
        if hdr_size <= 0 {
            break;
        }
        let (game, name, wtype) = identify_wad(slice_range(toc_data, pos, toc_data.len()));
        assert(le_u32(toc_data@.subrange(pos as int, toc_data@.len() as int), 0) == le_u32(
            toc_data@,
            pos as int,
        ));
        if game.is_none() {
            break;
        }
        if hdr_size as usize > toc_data.len() - pos {
            break;
        }
        let game = game.unwrap();
        let name = name.unwrap();
        let wtype = wtype.unwrap();
        let sector = r_u32(toc_data, pos + 4);
        let size_sectors = if hdr_size >= 12 {
            Some(r_u32(toc_data, pos + 8))
        } else {
            None
        };
        let ghost k = global_wads@.len() as int;
        let w = GlobalWad { name, wtype, header_size: hdr_size, sector, game, size_sectors };
        assert(global_header_at(toc_data@, pos as int));
        assert(global_wad_read(toc_data@, pos as int, w));
        global_wads.push(w);
        assert(global_wads@[k] == w);
        proof {
            let rest = global_header_positions(toc_data@, pos + hdr_size);
            assert(global_header_positions(toc_data@, pos as int) == seq![pos as int] + rest);
            assert(ps =~= done.push(pos as int) + rest);
            done = done.push(pos as int);
        }
        pos += hdr_size as usize;
    }
    assert(ps =~= done);
    (global_wads, pos)
}

/// Where the run of header-like blocks from `pos` ends: each block starts
/// with a positive size and fits in the TOC.
pub open spec fn positive_headers_end(toc: Seq<u8>, pos: int) -> int
    decreases toc.len() - pos,
{
    if 0 <= pos && pos + 8 <= toc.len() && signed32(le_u32(toc, pos)) > 0 && pos + signed32(
        le_u32(toc, pos),
    ) <= toc.len() {
        positive_headers_end(toc, pos + signed32(le_u32(toc, pos)))
    } else {
        pos
    }
}

/// The level header in sector `hdr_sector` names a non-zero file sector.
pub open spec fn valid_level_header(iso: Seq<u8>, hdr_sector: int) -> bool {
    let hdr_off = hdr_sector * 0x800;
    hdr_off + 8 <= iso.len() && le_u32(iso, hdr_off + 4) != 0
}

/// The level rows the ISO packer accepts from `pos` on (`found` of them
/// accepted before): full non-zero rows whose audio header is valid; before
/// the first one, a row with an invalid audio header is stepped over by 4
/// bytes, after it such a row ends the table. Gives the rows' positions and
/// where the scan stops.
pub open spec fn iso_level_scan(toc: Seq<u8>, iso: Seq<u8>, pos: int, found: nat) -> (Seq<int>, int)
    decreases toc.len() - pos,
{
    if 0 <= pos && pos + 24 <= toc.len() && nonzero_row(toc, pos) {
        if !valid_level_header(iso, le_u32(toc, pos)) {
            if found == 0 {
                iso_level_scan(toc, iso, pos + 4, 0)
            } else {
                (Seq::empty(), pos)
            }
        } else {
            let (rest, end) = iso_level_scan(toc, iso, pos + 24, found + 1);
            (seq![pos] + rest, end)
        }
    } else {
        (Seq::empty(), pos)
    }
}

/// A level row as the ISO packer uses it: level number, offset of the row in
/// the TOC, and the (header sector, size in sectors) of its audio, level
/// and scene WADs.
pub struct LevelEntry {
    pub number: u32,
    pub toc_offset: usize,
    pub audio_range: (u32, u32),
    pub level_range: (u32, u32),
    pub scene_range: (u32, u32),
}

/// The row at `pos` of `toc`, as level `k`.
pub open spec fn level_entry_read(toc: Seq<u8>, pos: int, k: int, e: LevelEntry) -> bool {
    &&& e.number == k as u32
    &&& e.toc_offset == pos
    &&& e.audio_range == (le_u32(toc, pos) as u32, le_u32(toc, pos + 4) as u32)
    &&& e.level_range == (le_u32(toc, pos + 8) as u32, le_u32(toc, pos + 12) as u32)
    &&& e.scene_range == (le_u32(toc, pos + 16) as u32, le_u32(toc, pos + 20) as u32)
}

proof fn lemma_iso_level_scan(toc: Seq<u8>, iso: Seq<u8>, pos: int, found: nat)
    ensures
        ({
            let (rows, end) = iso_level_scan(toc, iso, pos, found);
            &&& end >= pos
            &&& forall|k: int|
                0 <= k < rows.len() ==> {
                    &&& pos <= #[trigger] rows[k]
                    &&& rows[k] + 24 <= toc.len()
                    &&& nonzero_row(toc, rows[k])
                }
        }),
    decreases toc.len() - pos,
{
    if 0 <= pos && pos + 24 <= toc.len() && nonzero_row(toc, pos) {
        if !valid_level_header(iso, le_u32(toc, pos)) {
            if found == 0 {
                lemma_iso_level_scan(toc, iso, pos + 4, 0);
            }
        } else {
            lemma_iso_level_scan(toc, iso, pos + 24, found + 1);
            let (rest, end) = iso_level_scan(toc, iso, pos + 24, found + 1);
            let rows = seq![pos] + rest;
            assert forall|k: int| 0 <= k < rows.len() implies {
                &&& pos <= #[trigger] rows[k]
                &&& rows[k] + 24 <= toc.len()
                &&& nonzero_row(toc, rows[k])
            } by {
                if k > 0 {
                    assert(rows[k] == rest[k - 1]);
                }
            }
        }
    }
}

fn read_level_entry(toc: &[u8], pos: usize, number: u32) -> (e: LevelEntry)
    requires
        pos + 24 <= toc.len(),
    ensures
        level_entry_read(toc@, pos as int, number as int, e),
{
    LevelEntry {
        number,
        toc_offset: pos,
        audio_range: (r_u32(toc, pos), r_u32(toc, pos + 4)),
        level_range: (r_u32(toc, pos + 8), r_u32(toc, pos + 12)),
        scene_range: (r_u32(toc, pos + 16), r_u32(toc, pos + 20)),
    }
}

/// The level rows of the TOC at `toc_off` as the ISO packer reads them: skip
/// the header-like blocks, find the first full non-zero row, then take the
/// rows of [`iso_level_scan`]. Gives them with the offset where the scan
/// stopped; fails when the TOC does not fit or no row fits after the headers.
pub fn parse_levels_from_toc(iso_data: &[u8], toc_off: usize) -> (r: Result<
    (Vec<LevelEntry>, usize),
    TocError,
>)
    ensures
        toc_off + 4 > iso_data@.len() ==> r == Err::<(Vec<LevelEntry>, usize), TocError>(
            TocError::TocOutOfBounds,
        ),
        toc_off + 4 <= iso_data@.len() ==> {
            let toc = iso_data@.subrange(toc_off as int, iso_data@.len() as int);
            let s = level_table_start(toc, positive_headers_end(toc, 0));
            let (rows, end) = iso_level_scan(toc, iso_data@, s, 0);
            if s + 24 > toc.len() {
                r == Err::<(Vec<LevelEntry>, usize), TocError>(TocError::NoLevelTable)
            } else {
                &&& r matches Ok((levels, p)) && p == end && levels@.len() == rows.len()
                &&& forall|k: int|
                    0 <= k < rows.len() ==> level_entry_read(
                        toc,
                        rows[k],
                        k,
                        #[trigger] r->Ok_0.0@[k],
                    )
            }
        },
{
    if toc_off > iso_data.len() || iso_data.len() - toc_off < 4 {
        return Err(TocError::TocOutOfBounds);
    }
    let toc = slice_range(iso_data, toc_off, iso_data.len());
    // skip the header-like blocks
    let mut pos: usize = 0;
    while pos <= toc.len() && toc.len() - pos >= 8
        invariant
            positive_headers_end(toc@, pos as int) == positive_headers_end(toc@, 0),
        ensures
            positive_headers_end(toc@, pos as int) == pos,
        decreases toc@.len() - pos,
    {
        let hdr_size = r_s32(toc, pos);
        if hdr_size <= 0 {
            break;
        }
        if hdr_size as usize > toc.len() - pos {
            break;
        }
        pos += hdr_size as usize;
    }
    let start = find_level_table_start(toc, pos);
    if start > toc.len() || toc.len() - start < 24 {
        return Err(TocError::NoLevelTable);
    }
    let ghost s = start as int;
    let ghost full = iso_level_scan(toc@, iso_data@, s, 0);
    proof {
        lemma_iso_level_scan(toc@, iso_data@, s, 0);
    }
    let mut levels: Vec<LevelEntry> = Vec::new();
    let mut pos = start;
    let ghost mut done: Seq<int> = Seq::empty();
    assert(full.0 =~= done + iso_level_scan(toc@, iso_data@, pos as int, 0).0);
    while pos <= toc.len() && toc.len() - pos >= 24
        invariant
            full == iso_level_scan(toc@, iso_data@, s, 0),
            iso_level_scan(toc@, iso_data@, pos as int, levels@.len() as nat).1 == full.1,
            full.0 == done + iso_level_scan(toc@, iso_data@, pos as int, levels@.len() as nat).0,
            done.len() == levels@.len(),
            levels@.len() <= pos,
            forall|k: int|
                0 <= k < levels@.len() ==> level_entry_read(
                    toc@,
                    done[k],
                    k,
                    #[trigger] levels@[k],
                ),
        ensures
            iso_level_scan(toc@, iso_data@, pos as int, levels@.len() as nat) == (
                Seq::<int>::empty(),
                pos as int,
            ),
        decreases toc@.len() - pos,
    {
        if !is_nonzero_row(toc, pos) {
            break;
        }
        let hdr_sector = r_u32(toc, pos);
        let hdr_off = hdr_sector as u64 * 0x800;
        if hdr_off + 8 > iso_data.len() as u64 || r_u32(iso_data, hdr_off as usize + 4) == 0 {
            if levels.len() == 0 {
                pos += 4;
                continue;
            }
            break;
        }
        let ghost k = levels@.len() as int;
        let e = read_level_entry(toc, pos, levels.len() as u32);
        levels.push(e);
        assert(levels@[k] == e);
        proof {
            let rest = iso_level_scan(toc@, iso_data@, pos + 24, (k + 1) as nat);
            assert(iso_level_scan(toc@, iso_data@, pos as int, k as nat).0 == seq![pos as int] + rest.0);
            assert(full.0 =~= done.push(pos as int) + rest.0);
            done = done.push(pos as int);
        }
        pos += 24;
    }
    assert(full.0 =~= done);
    Ok((levels, pos))
}

} // verus!
