//! Unpacking a level from the disc image: its WAD found through the TOC,
//! the data sections of the WAD's data header, the sections named in the
//! WAD header (gameplay, sound bank, occlusion), and the class tables of
//! the core index.

use vstd::prelude::*;
use crate::common::{le_u32, r_u32, signed32};
use crate::level_core::{
    class_entry_count, class_entry_read, core_arrays_whole, core_field_offset, extract_class_entries_json,
    ClassEntry,
};
use crate::lz_spec::{has_wad_magic, spec_decompress_wad_lz, WadError};
use crate::toc::{find_level_wad_entry, spec_find_level_wad_entry, TocError};
use crate::wad::{copy_range, decompress_wad_lz, gcuya_entry_name, parse_gc_uya_data_header};

verus! {

/// Why a level cannot be unpacked.
#[derive(Debug, Clone, Copy, PartialEq, Eq, Structural)]
pub enum UnpackError {
    /// The level's WAD cannot be found through the TOC.
    Toc(TocError),
    /// The level's WAD, at this LBA, reaches past the end of the image.
    WadOutOfBounds(u32),
}

/// The bytes of level `level`'s WAD in the disc image.
pub open spec fn spec_level_wad(iso: Seq<u8>, level: u32) -> Result<Seq<u8>, UnpackError> {
    match spec_find_level_wad_entry(iso, level) {
        Err(e) => Err(UnpackError::Toc(e)),
        Ok((lba, sectors)) => {
            let start = lba * 0x800;
            let size = sectors * 0x800;
            if start + size > iso.len() {
                Err(UnpackError::WadOutOfBounds(lba))
            } else {
                Ok(iso.subrange(start, start + size))
            }
        },
    }
}

/// The WAD of level `level`, read from the disc image through the TOC,
/// with the LBA and sector count it was found at.
pub fn level_wad_from_iso(iso: &[u8], level: u32) -> (r: Result<(u32, u32, Vec<u8>), UnpackError>)
    ensures
        match spec_level_wad(iso@, level) {
            Ok(w) => r matches Ok((lba, sectors, v)) && v@ == w && spec_find_level_wad_entry(
                iso@,
                level,
            ) == Ok::<(u32, u32), TocError>((lba, sectors)),
            Err(e) => r matches Err(x) && x == e,
        },
{
    match find_level_wad_entry(iso, level) {
        Err(e) => Err(UnpackError::Toc(e)),
        Ok(entry) => {
            let start = entry.file_lba as u64 * 0x800;
            let size = entry.wad_sectors as u64 * 0x800;
            if start + size > iso.len() as u64 {
                Err(UnpackError::WadOutOfBounds(entry.file_lba))
            } else {
                let v = copy_range(iso, start as usize, (start + size) as usize);
                Ok((entry.file_lba, entry.wad_sectors, v))
            }
        },
    }
}

/// What became of a section of a level WAD.
#[derive(Debug, PartialEq, Eq)]
pub enum SectionOutcome {
    /// Empty (negative offset, or size of 0 or less): nothing written.
    Skipped,
    /// The section reaches past the end of the WAD.
    OutOfBounds,
    /// Stored as it is (no `WAD` magic).
    Raw(Vec<u8>),
    /// WAD LZ compressed: the compressed bytes and what they decompress to.
    Decompressed { compressed: Vec<u8>, data: Vec<u8> },
    /// Has the `WAD` magic but does not decompress: the bytes and the error.
    DecompressFailed { chunk: Vec<u8>, error: WadError },
}

/// `o` is what the section of `size` bytes at `start` of the WAD comes to.
pub open spec fn chunk_outcome(raw: Seq<u8>, start: int, size: int, o: SectionOutcome) -> bool {
    if start + size > raw.len() {
        o is OutOfBounds
    } else {
        let chunk = raw.subrange(start, start + size);
        if has_wad_magic(chunk) {
            match spec_decompress_wad_lz(chunk) {
                Ok(d) => o matches SectionOutcome::Decompressed { compressed, data } && compressed@
                    == chunk && data@ == d,
                Err(e) => o matches SectionOutcome::DecompressFailed { chunk: c, error } && c@
                    == chunk && error == e,
            }
        } else {
            o matches SectionOutcome::Raw(b) && b@ == chunk
        }
    }
}

fn outcome_of(raw: &[u8], start: u64, size: u64) -> (o: SectionOutcome)
    ensures
        chunk_outcome(raw@, start as int, size as int, o),
{
    if start as u128 + size as u128 > raw.len() as u128 {
        return SectionOutcome::OutOfBounds;
    }
    let chunk = copy_range(raw, start as usize, (start + size) as usize);
    if chunk.len() >= 3 && chunk[0] == 0x57 && chunk[1] == 0x41 && chunk[2] == 0x44 {
        match decompress_wad_lz(chunk.as_slice()) {
            Ok(d) => SectionOutcome::Decompressed { compressed: chunk, data: d },
            Err(e) => SectionOutcome::DecompressFailed { chunk, error: e },
        }
    } else {
        SectionOutcome::Raw(chunk)
    }
}

/// Byte offset of the data section of a level WAD.
pub open spec fn data_start(raw: Seq<u8>) -> int {
    le_u32(raw, 0x10) * 0x800
}

/// A level WAD whose header and data section start can be read.
pub open spec fn level_wad_readable(raw: Seq<u8>) -> bool {
    raw.len() >= 0x18 && data_start(raw) <= raw.len()
}

/// Number of data header entries inside the WAD.
pub open spec fn data_entry_count(raw: Seq<u8>) -> int {
    let n = (raw.len() - data_start(raw)) / 8;
    if n < 11 {
        n
    } else {
        11
    }
}

/// `o` is what data entry `i` comes to: skipped when its offset is
/// negative or its size is not positive, else its bytes (relative to the
/// data section).
pub open spec fn data_entry_outcome(raw: Seq<u8>, i: int, o: SectionOutcome) -> bool {
    let ds = data_start(raw);
    let off = signed32(le_u32(raw, ds + 8 * i));
    let size = signed32(le_u32(raw, ds + 8 * i + 4));
    if off < 0 || size <= 0 {
        o is Skipped
    } else {
        chunk_outcome(raw, ds + off, size, o)
    }
}

/// The data sections of a level WAD, by data header entry (name, outcome),
/// for the entries that lie inside the WAD.
pub fn unpack_data_sections(raw: &[u8]) -> (r: Vec<(&'static str, SectionOutcome)>)
    requires
        level_wad_readable(raw@),
    ensures
        r@.len() == data_entry_count(raw@),
        forall|i: int|
            0 <= i < r@.len() ==> (#[trigger] r@[i]).0@ == gcuya_entry_name(i)
                && data_entry_outcome(raw@, i, r@[i].1),
{
    let rlen = raw.len();
    let ds = (r_u32(raw, 0x10) as u64 * 0x800) as usize;
    let dh = copy_range(raw, ds, raw.len());
    let ranges = parse_gc_uya_data_header(dh.as_slice());
    let mut r: Vec<(&'static str, SectionOutcome)> = Vec::new();
    let mut i: usize = 0;
    while i < ranges.len()
        invariant
            rlen == raw@.len(),
            ds == data_start(raw@),
            ds <= raw@.len(),
            dh@ == raw@.subrange(ds as int, raw@.len() as int),
            ranges@.len() == data_entry_count(raw@),
            forall|k: int|
                0 <= k < ranges@.len() ==> {
                    &&& (#[trigger] ranges@[k]).0@ == gcuya_entry_name(k)
                    &&& ranges@[k].1 as int == signed32(le_u32(dh@, 8 * k))
                    &&& ranges@[k].2 as int == signed32(le_u32(dh@, 8 * k + 4))
                },
            i <= ranges@.len(),
            r@.len() == i,
            forall|k: int|
                0 <= k < i ==> (#[trigger] r@[k]).0@ == gcuya_entry_name(k) && data_entry_outcome(
                    raw@,
                    k,
                    r@[k].1,
                ),
        decreases ranges@.len() - i,
    {
        let (name, off, size) = ranges[i];
        assert(le_u32(dh@, 8 * i) == le_u32(raw@, ds + 8 * i));
        assert(le_u32(dh@, 8 * i + 4) == le_u32(raw@, ds + 8 * i + 4));
        let o = if off < 0 || size <= 0 {
            SectionOutcome::Skipped
        } else {
            outcome_of(raw, ds as u64 + off as u64, size as u64)
        };
        r.push((name, o));
        i += 1;
    }
    r
}

/// The sections named in the WAD header, in the order they are written.
pub open spec fn extra_field(k: int) -> int {
    if k == 0 {
        0x20
    } else if k == 1 {
        0x18
    } else {
        0x28
    }
}

pub open spec fn extra_name(k: int) -> Seq<char> {
    if k == 0 {
        "gameplay"@
    } else if k == 1 {
        "sound_bank"@
    } else {
        "occlusion"@
    }
}

/// `o` is what header section `k` comes to: skipped when its header field
/// is not in the WAD or its sector or sector count is 0, else its sectors.
pub open spec fn extra_outcome(raw: Seq<u8>, k: int, o: SectionOutcome) -> bool {
    let f = extra_field(k);
    let sec = le_u32(raw, f);
    let cnt = le_u32(raw, f + 4);
    if f + 8 > raw.len() || sec == 0 || cnt == 0 {
        o is Skipped
    } else {
        chunk_outcome(raw, sec * 0x800, cnt * 0x800, o)
    }
}

/// The gameplay, sound bank and occlusion sections of a level WAD (name,
/// outcome).
pub fn unpack_header_sections(raw: &[u8]) -> (r: Vec<(&'static str, SectionOutcome)>)
    ensures
        r@.len() == 3,
        forall|k: int|
            0 <= k < r@.len() ==> (#[trigger] r@[k]).0@ == extra_name(k) && extra_outcome(
                raw@,
                k,
                r@[k].1,
            ),
{
    let mut r: Vec<(&'static str, SectionOutcome)> = Vec::new();
    let mut k: usize = 0;
    while k < 3
        invariant
            k <= 3,
            r@.len() == k,
            forall|j: int|
                0 <= j < r@.len() ==> (#[trigger] r@[j]).0@ == extra_name(j) && extra_outcome(
                    raw@,
                    j,
                    r@[j].1,
                ),
        decreases 3 - k,
    {
        let (name, f): (&'static str, usize) = if k == 0 {
            ("gameplay", 0x20)
        } else if k == 1 {
            ("sound_bank", 0x18)
        } else {
            ("occlusion", 0x28)
        };
        let o = if f + 8 <= raw.len() {
            let sec = r_u32(raw, f);
            let cnt = r_u32(raw, f + 4);
            if sec == 0 || cnt == 0 {
                SectionOutcome::Skipped
            } else {
                outcome_of(raw, sec as u64 * 0x800, cnt as u64 * 0x800)
            }
        } else {
            SectionOutcome::Skipped
        };
        r.push((name, o));
        k += 1;
    }
    r
}

/// A class table of the core index: its name, count and offset, and its entries.
pub struct ClassTable {
    pub name: &'static str,
    pub entry_size: u32,
    pub count: i32,
    pub offset: i32,
    pub entries: Vec<ClassEntry>,
}

/// The class tables of the core index (moby, tie: 0x20-byte entries;
/// shrub: 0x30-byte entries) whose header field is present with a positive
/// count and a non-negative offset.
pub open spec fn class_table_field(k: int) -> int {
    core_field_offset(5 + k)
}

pub open spec fn class_table_name(k: int) -> Seq<char> {
    if k == 0 {
        "moby_classes"@
    } else if k == 1 {
        "tie_classes"@
    } else {
        "shrub_classes"@
    }
}

pub open spec fn class_table_entry_size(k: int) -> int {
    if k == 2 {
        0x30
    } else {
        0x20
    }
}

/// Table `k` is listed: its field is in the header, with a positive count
/// and a non-negative offset.
pub open spec fn class_table_listed(ci: Seq<u8>, k: int) -> bool {
    let f = class_table_field(k);
    &&& f + 4 <= ci.len()
    &&& signed32(le_u32(ci, f)) > 0
    &&& signed32(le_u32(ci, f + 4)) >= 0
}

/// The listed tables among the first `m`.
pub open spec fn listed_tables(ci: Seq<u8>, m: nat) -> Seq<int>
    decreases m,
{
    if m == 0 {
        Seq::empty()
    } else if class_table_listed(ci, m - 1) {
        listed_tables(ci, (m - 1) as nat).push(m - 1)
    } else {
        listed_tables(ci, (m - 1) as nat)
    }
}

/// `t` is class table `k` of the core index.
pub open spec fn class_table_is(ci: Seq<u8>, k: int, t: ClassTable) -> bool {
    let f = class_table_field(k);
    let count = signed32(le_u32(ci, f));
    let offset = signed32(le_u32(ci, f + 4));
    let es = class_table_entry_size(k);
    &&& t.name@ == class_table_name(k)
    &&& t.entry_size == es
    &&& t.count == count
    &&& t.offset == offset
    &&& t.entries@.len() == class_entry_count(ci.len() as int, offset, count, es)
    &&& forall|i: int|
        0 <= i < t.entries@.len() ==> class_entry_read(ci, offset, es, i, #[trigger] t.entries@[i])
}

/// The moby, tie and shrub class tables of a core index (see
/// [`class_table_listed`]), in that order.
pub fn core_class_tables(ci: &[u8]) -> (r: Vec<ClassTable>)
    requires
        core_arrays_whole(ci@.len() as int),
    ensures
        r@.len() == listed_tables(ci@, 3).len(),
        forall|j: int| 0 <= j < r@.len() ==> class_table_is(ci@, listed_tables(ci@, 3)[j], #[trigger] r@[j]),
{
    let clen = ci.len();
    let mut r: Vec<ClassTable> = Vec::new();
    let mut k: usize = 0;
    while k < 3
        invariant
            k <= 3,
            clen == ci@.len(),
            core_arrays_whole(ci@.len() as int),
            r@.len() == listed_tables(ci@, k as nat).len(),
            forall|j: int|
                0 <= j < r@.len() ==> class_table_is(ci@, listed_tables(ci@, k as nat)[j], #[trigger] r@[j]),
        decreases 3 - k,
    {
        let ghost prev = listed_tables(ci@, k as nat);
        let (name, f, es): (&'static str, usize, u32) = if k == 0 {
            ("moby_classes", 0x18, 0x20)
        } else if k == 1 {
            ("tie_classes", 0x20, 0x20)
        } else {
            ("shrub_classes", 0x28, 0x30)
        };
        assert(core_field_offset(5 + k as int) == f);
        let mut listed = false;
        if f + 4 <= ci.len() {
            assert(f + 8 <= ci@.len());
            let count = crate::common::r_s32(ci, f);
            let offset = crate::common::r_s32(ci, f + 4);
            if count > 0 && offset >= 0 {
                listed = true;
                let entries = extract_class_entries_json(ci, offset, count, es);
                let ghost old_r = r@;
                let t = ClassTable { name, entry_size: es, count, offset, entries };
                assert(class_table_is(ci@, k as int, t));
                r.push(t);
                assert(listed_tables(ci@, (k + 1) as nat) =~= prev.push(k as int));
                assert(forall|j: int| 0 <= j < old_r.len() ==> r@[j] == old_r[j]);
            }
        }
        if !listed {
            assert(!class_table_listed(ci@, k as int));
            assert(listed_tables(ci@, (k + 1) as nat) =~= prev);
        }
        k += 1;
    }
    r
}

/// Where the file starting at `off` ends: the nearest file start after it,
/// or the end of the image.
pub open spec fn next_start_spec(starts: Seq<u64>, off: int, len: int) -> int
    decreases starts.len(),
{
    if starts.len() == 0 {
        len
    } else {
        let rest = next_start_spec(starts.drop_last(), off, len);
        let s = starts.last() as int;
        if s > off && s < rest {
            s
        } else {
            rest
        }
    }
}

/// The nearest of `starts` after `off`, or `len` when there is none (or
/// all are further than `len`).
pub fn next_file_start(starts: &Vec<u64>, off: u64, len: u64) -> (r: u64)
    ensures
        r == next_start_spec(starts@, off as int, len as int),
{
    let mut r = len;
    let mut i: usize = 0;
    while i < starts.len()
        invariant
            i <= starts@.len(),
            r == next_start_spec(starts@.subrange(0, i as int), off as int, len as int),
        decreases starts@.len() - i,
    {
        assert(starts@.subrange(0, i + 1).drop_last() == starts@.subrange(0, i as int));
        let s = starts[i];
        if s > off && s < r {
            r = s;
        }
        i += 1;
    }
    assert(starts@.subrange(0, starts@.len() as int) == starts@);
    r
}

/// The GS RAM groups of a level's core data: from `off`, `count / 4`
/// groups of 64 bytes, cut where a group would run past the data.
pub fn gs_ram_groups(core: &[u8], off: u64, count: u64) -> (r: Vec<Vec<u8>>)
    ensures
        r@.len() == crate::collision::fit_count(core@.len() as int, off as int, (count / 4) as int, 64),
        forall|g: int|
            0 <= g < r@.len() ==> (#[trigger] r@[g])@ == core@.subrange(off + 64 * g, off + 64 * g + 64),
{
    let clen = core.len();
    let len = clen as u128;
    let fit: u128 = if off as u128 <= len {
        (len - off as u128) / 64
    } else {
        0
    };
    let n: u128 = if ((count / 4) as u128) < fit {
        (count / 4) as u128
    } else {
        fit
    };
    if n > 0 {
        assert(off + 64 * n <= len) by (nonlinear_arith)
            requires
                n <= (len - off) / 64,
                off <= len,
        ;
    }
    let mut r: Vec<Vec<u8>> = Vec::new();
    let mut g: u128 = 0;
    while g < n
        invariant
            len == core@.len(),
            clen == core@.len(),
            n > 0 ==> off + 64 * n <= len,
            g <= n,
            r@.len() == g,
            forall|k: int| 0 <= k < g ==> (#[trigger] r@[k])@ == core@.subrange(off + 64 * k, off + 64 * k + 64),
        decreases n - g,
    {
        let b = off as u128 + 64 * g;
        let v = copy_range(core, b as usize, (b + 64) as usize);
        let ghost old_r = r@;
        r.push(v);
        assert(forall|k: int| 0 <= k < old_r.len() ==> r@[k] == old_r[k]);
        g += 1;
    }
    r
}

} // verus!
