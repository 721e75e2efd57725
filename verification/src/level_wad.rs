//! Level WADs: rebuilding one from its decompressed data sections (repack),
//! and reading the data sections back out of one (unpack).
//!
//! A level WAD starts with a 96-byte header in sector 0: the sector of the
//! data section at 0x10, its size in sectors at 0x14, and (sector, sectors)
//! pairs for the sound bank (0x18), gameplay (0x20) and occlusion (0x28).
//! The data section opens with an 88-byte data header: 11 (offset, size)
//! pairs, relative to the data section, of WAD-LZ compressed sections.

use vstd::prelude::*;
use crate::common::{
    le_u32, lemma_le_u32_at, lemma_u32_le_bytes, push_range, push_u32_le, push_zeros, r_u32,
    signed32, u32_le_bytes, zeros,
};
use crate::lz_packets::{is_lz_encoding, lemma_lz_encoding_decodes};
use crate::lz_spec::{has_wad_magic, spec_decompress_wad_lz, WadError};
use crate::wad::{compress_wad_lz, copy_range, decompress_wad_lz, parse_gc_uya_data_header, slice_range};

verus! {

/// Number of entries of the level data header.
pub const DATA_ENTRY_COUNT: usize = 11;

/// Size in bytes of the level data header (11 × (offset, size)).
pub const DATA_HEADER_SIZE: usize = 88;

/// Index of the `transition_textures` entry, which may be absent.
pub const TRANSITION_ENTRY: usize = 10;

/// Why a level WAD cannot be rebuilt.
#[derive(Debug, Clone, Copy, PartialEq, Eq, Structural)]
pub enum RepackError {
    /// The original WAD is shorter than its 96-byte header.
    WadTooSmall,
    /// The decompressed file of this data entry is missing, and the original
    /// WAD has data there.
    MissingSection(usize),
}

/// Number of zero bytes that bring `x` up to a multiple of `a`.
pub open spec fn pad_to(x: int, a: int) -> int {
    (a - x % a) % a
}

/// The byte views of a list of byte vectors.
pub open spec fn views(cs: Seq<Vec<u8>>) -> Seq<Seq<u8>> {
    Seq::new(cs.len(), |i: int| cs[i]@)
}

/// The compressed sections `cs[0..n]` as they follow the (sector-padded)
/// data header: each non-empty one 16-byte aligned (relative to the data
/// section), empty ones left out.
pub open spec fn sections_body(cs: Seq<Seq<u8>>, n: nat) -> Seq<u8>
    decreases n,
{
    if n == 0 {
        Seq::empty()
    } else {
        let b = sections_body(cs, (n - 1) as nat);
        if cs[n - 1].len() == 0 {
            b
        } else {
            b + zeros(pad_to(0x800 + b.len() as int, 16)) + cs[n - 1]
        }
    }
}

/// Offset of section `i` from the start of the data section.
pub open spec fn section_offset(cs: Seq<Seq<u8>>, i: int) -> int {
    let e = 0x800 + sections_body(cs, i as nat).len() as int;
    e + pad_to(e, 16)
}

/// The (offset, size) pair written for entry `i`, as stored bits: the
/// section's place and length, or (-1, 0) for an empty transition-textures
/// entry and (0, 0) for another empty one.
pub open spec fn entry_bits(cs: Seq<Seq<u8>>, i: int) -> (u32, u32) {
    if cs[i].len() == 0 {
        (
            if i == 10 {
                0xFFFF_FFFFu32
            } else {
                0u32
            },
            0u32,
        )
    } else {
        (section_offset(cs, i) as u32, cs[i].len() as u32)
    }
}

/// The first `n` entries of the rebuilt data header.
pub open spec fn data_header(cs: Seq<Seq<u8>>, n: nat) -> Seq<u8>
    decreases n,
{
    if n == 0 {
        Seq::empty()
    } else {
        data_header(cs, (n - 1) as nat) + u32_le_bytes(entry_bits(cs, n - 1).0) + u32_le_bytes(
            entry_bits(cs, n - 1).1,
        )
    }
}

/// The rebuilt data section: data header, zeros to the end of its sector,
/// the sections, zeros to the end of the last sector.
#[verifier::opaque]
pub open spec fn data_section(cs: Seq<Seq<u8>>) -> Seq<u8> {
    let body = sections_body(cs, 11);
    data_header(cs, 11) + zeros(0x800 - 88) + body + zeros(pad_to(0x800 + body.len() as int, 0x800))
}

/// The range whose (sector, sectors) pair is at `field` is present: both
/// non-zero.
pub open spec fn has_range(raw: Seq<u8>, field: int) -> bool {
    le_u32(raw, field) > 0 && le_u32(raw, field + 4) > 0
}

/// The original WAD has a sound bank (both its sector and its size non-zero).
pub open spec fn has_sound_bank(raw: Seq<u8>) -> bool {
    has_range(raw, 0x18)
}

/// Sector of the rebuilt data section: right after the sound bank, which
/// is copied to sector 1, or sector 1 without one.
pub open spec fn data_rel_sector(raw: Seq<u8>) -> int {
    if has_sound_bank(raw) {
        1 + le_u32(raw, 0x1c)
    } else {
        1
    }
}

/// Sector of the copied gameplay range: right after the data section of
/// `ds_sectors` sectors.
pub open spec fn gameplay_sector(raw: Seq<u8>, ds_sectors: int) -> int {
    data_rel_sector(raw) + ds_sectors
}

/// Sector of the copied occlusion range: right after the gameplay range.
pub open spec fn occlusion_sector(raw: Seq<u8>, ds_sectors: int) -> int {
    gameplay_sector(raw, ds_sectors) + if has_range(raw, 0x20) {
        le_u32(raw, 0x24)
    } else {
        0
    }
}

/// The (sector, sectors) pair written for the range at `field`: its new
/// sector `sec` and its size when present, else the original pair.
pub open spec fn range_field(raw: Seq<u8>, field: int, sec: int) -> Seq<u8> {
    if has_range(raw, field) {
        u32_le_bytes(sec as u32) + raw.subrange(field + 4, field + 8)
    } else {
        raw.subrange(field, field + 8)
    }
}

/// Sector 0 of the rebuilt WAD: header size 96, WAD sector 0, level number
/// and reverb kept, the data section's sector and size, and the sound bank,
/// gameplay and occlusion ranges at the sectors where their copies lie,
/// zeros to the end of the sector.
pub open spec fn wad_header_sector(raw: Seq<u8>, ds_sectors: int) -> Seq<u8> {
    u32_le_bytes(96) + u32_le_bytes(0) + raw.subrange(8, 16) + u32_le_bytes(
        data_rel_sector(raw) as u32,
    ) + u32_le_bytes(ds_sectors as u32) + range_field(raw, 0x18, 1) + range_field(
        raw,
        0x20,
        gameplay_sector(raw, ds_sectors),
    ) + range_field(raw, 0x28, occlusion_sector(raw, ds_sectors)) + zeros(0x800 - 48)
}

/// The range whose (sector, sectors) pair is at `field`, as copied: its
/// sectors, or what there is of them padded with zeros to its size.
pub open spec fn passthrough_chunk(raw: Seq<u8>, field: int) -> Seq<u8> {
    let sec = le_u32(raw, field);
    let n = le_u32(raw, field + 4);
    if sec > 0 && n > 0 {
        let start = sec * 0x800;
        let size = n * 0x800;
        if start + size <= raw.len() {
            raw.subrange(start, start + size)
        } else {
            raw.subrange(start, raw.len() as int) + zeros(size - (raw.len() - start))
        }
    } else {
        Seq::empty()
    }
}

/// The range at `field` either fits in the WAD or starts inside it.
pub open spec fn chunk_readable(raw: Seq<u8>, field: int) -> bool {
    let sec = le_u32(raw, field);
    let n = le_u32(raw, field + 4);
    (sec > 0 && n > 0 && sec * 0x800 + n * 0x800 > raw.len()) ==> sec * 0x800 <= raw.len()
}

/// An original WAD that the repacker can rebuild: the whole header is
/// there, the sound bank's end sector fits in 32 bits, and each copied range
/// fits in the WAD or starts inside it.
pub open spec fn repackable(raw: Seq<u8>) -> bool {
    &&& raw.len() >= 96
    &&& le_u32(raw, 0x18) + le_u32(raw, 0x1c) <= 0xFFFF_FFFF
    &&& chunk_readable(raw, 0x18)
    &&& chunk_readable(raw, 0x20)
    &&& chunk_readable(raw, 0x28)
}

/// The rebuilt level WAD for the original `raw` and the compressed sections
/// `cs`: sector 0, the sound bank (at sector 1), the data section, gameplay,
/// occlusion, zeros to the end of the last sector.
#[verifier::opaque]
pub open spec fn level_wad_layout(raw: Seq<u8>, cs: Seq<Seq<u8>>) -> Seq<u8> {
    let ds = data_section(cs);
    let body = wad_header_sector(raw, (ds.len() / 0x800) as int) + passthrough_chunk(raw, 0x18) + ds
        + passthrough_chunk(raw, 0x20) + passthrough_chunk(raw, 0x28);
    body + zeros(pad_to(body.len() as int, 0x800))
}

/// Room the first `n` compressed sections may take in the data section:
/// their lengths and 15 bytes of alignment each.
pub open spec fn sections_room(cs: Seq<Seq<u8>>, n: nat) -> int
    decreases n,
{
    if n == 0 {
        0
    } else {
        sections_room(cs, (n - 1) as nat) + cs[n - 1].len() + 15
    }
}

/// 11 compressed sections that, aligned, fit below 2^31 after the data
/// header's sector: every offset of the rebuilt data header stays a
/// non-negative 32-bit value.
pub open spec fn sections_bounded(cs: Seq<Seq<u8>>) -> bool {
    &&& cs.len() == 11
    &&& sections_room(cs, 11) <= 0x7FFF_F000
}

/// Room taken by the first `n` sections grows with `n`.
proof fn lemma_room_mono(cs: Seq<Seq<u8>>, n: nat, m: nat)
    requires
        n <= m,
    ensures
        sections_room(cs, n) <= sections_room(cs, m),
    decreases m,
{
    if n < m {
        lemma_room_mono(cs, n, (m - 1) as nat);
    }
}

proof fn lemma_pad_to(x: int, a: int)
    requires
        x >= 0,
        a > 0,
    ensures
        0 <= pad_to(x, a) < a,
        (x + pad_to(x, a)) % a == 0,
{
    let r = x % a;
    assert(0 <= r < a);
    if r == 0 {
        assert(pad_to(x, a) == 0) by (nonlinear_arith)
            requires
                r == 0,
                a > 0,
                pad_to(x, a) == (a - r) % a,
        ;
    } else {
        assert(pad_to(x, a) == a - r) by (nonlinear_arith)
            requires
                0 < r < a,
                pad_to(x, a) == (a - r) % a,
        ;
        assert((x + (a - r)) % a == 0) by (nonlinear_arith)
            requires
                r == x % a,
                a > 0,
        ;
    }
}

/// The body of the first `n` sections takes at most their room.
proof fn lemma_sections_body_len(cs: Seq<Seq<u8>>, n: nat)
    ensures
        sections_body(cs, n).len() <= sections_room(cs, n),
    decreases n,
{
    if n > 0 {
        lemma_sections_body_len(cs, (n - 1) as nat);
        lemma_pad_to(0x800 + sections_body(cs, (n - 1) as nat).len() as int, 16);
    }
}

/// Build the sections body, recording where each non-empty section starts.
fn build_sections_body(cs: &Vec<Vec<u8>>) -> (r: (Vec<u8>, Vec<u32>))
    requires
        sections_bounded(views(cs@)),
    ensures
        r.0@ == sections_body(views(cs@), 11),
        r.1@.len() == 11,
        forall|i: int|
            0 <= i < 11 && cs@[i]@.len() > 0 ==> #[trigger] r.1@[i] == section_offset(
                views(cs@),
                i,
            ),
{
    let ghost vs = views(cs@);
    let mut body: Vec<u8> = Vec::new();
    let mut offs: Vec<u32> = Vec::new();
    let mut i: usize = 0;
    while i < 11
        invariant
            i <= 11,
            vs == views(cs@),
            sections_bounded(vs),
            body@ == sections_body(vs, i as nat),
            offs@.len() == i,
            forall|j: int|
                0 <= j < i && cs@[j]@.len() > 0 ==> #[trigger] offs@[j] == section_offset(vs, j),
        decreases 11 - i,
    {
        proof {
            lemma_sections_body_len(vs, i as nat);
            lemma_sections_body_len(vs, (i + 1) as nat);
            lemma_room_mono(vs, (i + 1) as nat, 11);
            assert(vs[i as int] == cs@[i as int]@);
        }
        let sec = &cs[i];
        if sec.len() > 0 {
            let cur = 0x800 + body.len();
            let pad = (16 - cur % 16) % 16;
            push_zeros(&mut body, pad as u64);
            proof {
                lemma_pad_to(cur as int, 16);
            }
            offs.push((0x800 + body.len()) as u32);
            push_range(&mut body, sec.as_slice(), 0, sec.len());
            assert(sec@.subrange(0, sec@.len() as int) =~= sec@);
        } else {
            offs.push(0);
        }
        i += 1;
    }
    (body, offs)
}

/// Build the 88-byte data header from the section offsets.
fn build_data_header(cs: &Vec<Vec<u8>>, offs: &Vec<u32>) -> (h: Vec<u8>)
    requires
        cs@.len() == 11,
        offs@.len() == 11,
        forall|i: int|
            0 <= i < 11 && cs@[i]@.len() > 0 ==> #[trigger] offs@[i] == section_offset(
                views(cs@),
                i,
            ),
        forall|i: int| 0 <= i < 11 ==> #[trigger] cs@[i]@.len() <= 0xFFFF_FFFF,
    ensures
        h@ == data_header(views(cs@), 11),
{
    let ghost vs = views(cs@);
    let mut h: Vec<u8> = Vec::new();
    let mut i: usize = 0;
    while i < 11
        invariant
            i <= 11,
            cs@.len() == 11,
            offs@.len() == 11,
            vs == views(cs@),
            forall|j: int|
                0 <= j < 11 && cs@[j]@.len() > 0 ==> #[trigger] offs@[j] == section_offset(vs, j),
            forall|j: int| 0 <= j < 11 ==> #[trigger] cs@[j]@.len() <= 0xFFFF_FFFF,
            h@ == data_header(vs, i as nat),
        decreases 11 - i,
    {
        assert(vs[i as int] == cs@[i as int]@);
        let len = cs[i].len();
        let bits: (u32, u32) = if len == 0 {
            (
                if i == TRANSITION_ENTRY {
                    0xFFFF_FFFF
                } else {
                    0
                },
                0,
            )
        } else {
            (offs[i], len as u32)
        };
        assert(bits == entry_bits(vs, i as int));
        push_u32_le(&mut h, bits.0);
        push_u32_le(&mut h, bits.1);
        i += 1;
    }
    h
}

/// The data header of `n` entries is `8 n` bytes, entry `i` being the
/// stored bits of its offset and size.
proof fn lemma_data_header(cs: Seq<Seq<u8>>, n: nat)
    ensures
        data_header(cs, n).len() == 8 * n,
        forall|i: int|
            0 <= i < n ==> {
                &&& le_u32(data_header(cs, n), 8 * i) == (#[trigger] entry_bits(cs, i)).0
                &&& le_u32(data_header(cs, n), 8 * i + 4) == entry_bits(cs, i).1
            },
    decreases n,
{
    if n > 0 {
        lemma_data_header(cs, (n - 1) as nat);
        let prev = data_header(cs, (n - 1) as nat);
        let h = data_header(cs, n);
        let b = entry_bits(cs, n - 1);
        lemma_u32_le_bytes(b.0);
        lemma_u32_le_bytes(b.1);
        assert(h.subrange(8 * (n - 1), 8 * (n - 1) + 4) =~= u32_le_bytes(b.0));
        assert(h.subrange(8 * (n - 1) + 4, 8 * n as int) =~= u32_le_bytes(b.1));
        lemma_le_u32_at(h, 8 * (n - 1), b.0);
        lemma_le_u32_at(h, 8 * (n - 1) + 4, b.1);
        assert forall|i: int| 0 <= i < n - 1 implies {
            &&& le_u32(h, 8 * i) == (#[trigger] entry_bits(cs, i)).0
            &&& le_u32(h, 8 * i + 4) == entry_bits(cs, i).1
        } by {
            assert(h[8 * i] == prev[8 * i] && h[8 * i + 1] == prev[8 * i + 1]);
            assert(h[8 * i + 2] == prev[8 * i + 2] && h[8 * i + 3] == prev[8 * i + 3]);
            assert(h[8 * i + 4] == prev[8 * i + 4] && h[8 * i + 5] == prev[8 * i + 5]);
            assert(h[8 * i + 6] == prev[8 * i + 6] && h[8 * i + 7] == prev[8 * i + 7]);
        }
    }
}

/// Build the rebuilt data section for the compressed sections `cs`.
fn build_data_section(cs: &Vec<Vec<u8>>) -> (ds: Vec<u8>)
    requires
        sections_bounded(views(cs@)),
    ensures
        ds@ == data_section(views(cs@)),
        ds@.len() <= 0x8000_0000,
{
    let ghost vs = views(cs@);
    proof {
        reveal(data_section);
        lemma_sections_body_len(vs, 11);
        lemma_data_header(vs, 11);
        assert forall|i: int| 0 <= i < 11 implies #[trigger] cs@[i]@.len() <= 0xFFFF_FFFF by {
            assert(vs[i] == cs@[i]@);
            lemma_room_mono(vs, 0, i as nat);
            lemma_room_mono(vs, (i + 1) as nat, 11);
        }
    }
    let (body, offs) = build_sections_body(cs);
    let mut ds = build_data_header(cs, &offs);
    push_zeros(&mut ds, (0x800 - DATA_HEADER_SIZE) as u64);
    push_range(&mut ds, body.as_slice(), 0, body.len());
    assert(body@.subrange(0, body@.len() as int) =~= body@);
    let end = 0x800 + body.len();
    proof {
        lemma_pad_to(end as int, 0x800);
    }
    push_zeros(&mut ds, ((0x800 - end % 0x800) % 0x800) as u64);
    ds
}

/// Append the range whose (sector, sectors) pair is at `field`.
fn push_passthrough(out: &mut Vec<u8>, raw: &[u8], field: usize)
    requires
        field + 8 <= raw.len(),
        chunk_readable(raw@, field as int),
    ensures
        final(out)@ == old(out)@ + passthrough_chunk(raw@, field as int),
{
    let sec = r_u32(raw, field) as u64;
    let n = r_u32(raw, field + 4) as u64;
    if sec > 0 && n > 0 {
        let start = sec * 0x800;
        let size = n * 0x800;
        let len = raw.len() as u64;
        if start + size <= len {
            push_range(out, raw, start as usize, (start + size) as usize);
        } else {
            push_range(out, raw, start as usize, raw.len());
            push_zeros(out, size - (len - start));
        }
    }
}

/// Append the (sector, sectors) pair of the range at `field` as rebuilt
/// (see [`range_field`]).
fn push_range_field(out: &mut Vec<u8>, raw: &[u8], field: usize, sec: u64)
    requires
        field <= 0x28,
        field + 8 <= raw@.len(),
    ensures
        final(out)@ == old(out)@ + range_field(raw@, field as int, sec as int),
{
    if r_u32(raw, field) > 0 && r_u32(raw, field + 4) > 0 {
        push_u32_le(out, sec as u32);
        push_range(out, raw, field + 4, field + 8);
    } else {
        push_range(out, raw, field, field + 8);
    }
}

/// Lay out a level WAD from the original `raw` (header fields, sound bank,
/// gameplay and occlusion ranges) and the 11 compressed data sections `cs`.
pub fn layout_level_wad(raw: &[u8], cs: &Vec<Vec<u8>>) -> (out: Vec<u8>)
    requires
        repackable(raw@),
        sections_bounded(views(cs@)),
    ensures
        out@ == level_wad_layout(raw@, views(cs@)),
        out@.len() % 0x800 == 0,
{
    let ghost vs = views(cs@);
    let ds = build_data_section(cs);
    proof {
        reveal(level_wad_layout);
    }
    let sb_sectors = r_u32(raw, 0x1c) as u64;
    let has_sb = r_u32(raw, 0x18) > 0 && sb_sectors > 0;
    let data_rel: u64 = if has_sb {
        1 + sb_sectors
    } else {
        1
    };
    let data_sectors = (ds.len() / 0x800) as u64;
    let gp_sector = data_rel + data_sectors;
    let gp_sectors = r_u32(raw, 0x24) as u64;
    let occ_sector = if r_u32(raw, 0x20) > 0 && gp_sectors > 0 {
        gp_sector + gp_sectors
    } else {
        gp_sector
    };
    let mut out: Vec<u8> = Vec::new();
    push_u32_le(&mut out, 96);
    push_u32_le(&mut out, 0);
    push_range(&mut out, raw, 8, 16);
    push_u32_le(&mut out, data_rel as u32);
    push_u32_le(&mut out, data_sectors as u32);
    push_range_field(&mut out, raw, 0x18, 1);
    push_range_field(&mut out, raw, 0x20, gp_sector);
    push_range_field(&mut out, raw, 0x28, occ_sector);
    push_zeros(&mut out, 0x800 - 48);
    assert(out@ =~= wad_header_sector(raw@, (ds@.len() / 0x800) as int));
    push_passthrough(&mut out, raw, 0x18);
    push_range(&mut out, ds.as_slice(), 0, ds.len());
    assert(ds@.subrange(0, ds@.len() as int) =~= ds@);
    push_passthrough(&mut out, raw, 0x20);
    push_passthrough(&mut out, raw, 0x28);
    let ghost body = out@;
    let rem = out.len() % 0x800;
    let pad = (0x800 - rem) % 0x800;
    proof {
        lemma_pad_to(body.len() as int, 0x800);
    }
    push_zeros(&mut out, pad as u64);
    out
}

/// Offset (`k == 0`) or size (`k == 1`) of data entry `i` in the original
/// WAD's data header, or -1 when the entry lies past the end of the WAD.
pub open spec fn orig_entry_field(raw: Seq<u8>, i: int, k: int) -> int {
    let off = le_u32(raw, 0x10) * 0x800 + 8 * i;
    if off + 8 <= raw.len() {
        signed32(le_u32(raw, off + 4 * k))
    } else {
        -1
    }
}

/// Entry `i` may come without a file: it is the transition textures, or the
/// original WAD has no data for it (offset -1, size at most 0).
pub open spec fn entry_optional(raw: Seq<u8>, i: int) -> bool {
    i == 10 || (orig_entry_field(raw, i, 0) == -1 && orig_entry_field(raw, i, 1) <= 0)
}

/// The decompressed contents given for entry `i` (empty when no file).
pub open spec fn section_content(files: Seq<Option<Vec<u8>>>, i: int) -> Seq<u8> {
    match files[i] {
        Some(v) => v@,
        None => Seq::empty(),
    }
}

/// Entry `i` has no file though the original WAD has data for it.
pub open spec fn section_missing(raw: Seq<u8>, files: Seq<Option<Vec<u8>>>, i: int) -> bool {
    files[i] is None && !entry_optional(raw, i)
}

/// `cs` holds a WAD LZ encoding of each non-empty section, at most 18 bytes
/// plus 3 per input byte long, and nothing for each empty one.
pub open spec fn sections_encode(cs: Seq<Seq<u8>>, files: Seq<Option<Vec<u8>>>) -> bool {
    &&& cs.len() == 11
    &&& forall|i: int|
        0 <= i < 11 ==> if section_content(files, i).len() == 0 {
            #[trigger] cs[i].len() == 0
        } else {
            &&& is_lz_encoding(cs[i], section_content(files, i))
            &&& cs[i].len() <= 18 + 3 * section_content(files, i).len()
        }
}

/// Room the compressed forms of the first `n` entries may take: the
/// compressor's bound on each (18 bytes plus 3 per input byte) and 15 bytes
/// of alignment.
pub open spec fn files_room(files: Seq<Option<Vec<u8>>>, n: nat) -> int
    decreases n,
{
    if n == 0 {
        0
    } else {
        files_room(files, (n - 1) as nat) + 18 + 3 * section_content(files, n - 1).len() + 15
    }
}

/// 11 entries whose compressed forms surely fit the data section's 31-bit
/// offsets (see [`sections_bounded`]).
pub open spec fn files_bounded(files: Seq<Option<Vec<u8>>>) -> bool {
    &&& files.len() == 11
    &&& files_room(files, 11) <= 0x7FFF_F000
}

/// Sections within the compressor's bound take no more room than it allows.
proof fn lemma_room_within(cs: Seq<Seq<u8>>, files: Seq<Option<Vec<u8>>>, n: nat)
    requires
        forall|j: int| 0 <= j < n ==> #[trigger] cs[j].len() <= 18 + 3 * section_content(files, j).len(),
    ensures
        sections_room(cs, n) <= files_room(files, n),
    decreases n,
{
    if n > 0 {
        lemma_room_within(cs, files, (n - 1) as nat);
        assert(cs[n - 1].len() <= 18 + 3 * section_content(files, n - 1).len());
    }
}

/// Each entry of bounded files is short enough for the compressor.
proof fn lemma_file_small(files: Seq<Option<Vec<u8>>>, n: nat, i: int)
    requires
        0 <= i < n,
    ensures
        3 * section_content(files, i).len() <= files_room(files, n),
    decreases n,
{
    if i < n - 1 {
        lemma_file_small(files, (n - 1) as nat, i);
    }
    assert(files_room(files, (n - 1) as nat) >= 0) by {
        lemma_files_room_nonneg(files, (n - 1) as nat);
    }
}

proof fn lemma_files_room_nonneg(files: Seq<Option<Vec<u8>>>, n: nat)
    ensures
        files_room(files, n) >= 0,
    decreases n,
{
    if n > 0 {
        lemma_files_room_nonneg(files, (n - 1) as nat);
    }
}

/// Rebuild a level WAD from the original one and the decompressed data
/// sections (`None` where there is no file): each non-empty section is
/// WAD-LZ compressed and laid out by [`layout_level_wad`]. Fails on a WAD
/// shorter than its header, or on the first section without a file that
/// the original has data for.
pub fn repack_level_wad(raw: &[u8], files: &Vec<Option<Vec<u8>>>) -> (r: Result<
    Vec<u8>,
    RepackError,
>)
    requires
        raw@.len() >= 96 ==> files_bounded(files@) && repackable(raw@),
    ensures
        raw@.len() < 96 ==> r == Err::<Vec<u8>, RepackError>(RepackError::WadTooSmall),
        raw@.len() >= 96 ==> match r {
            Err(e) => exists|i: int|
                {
                    &&& 0 <= i < 11
                    &&& #[trigger] section_missing(raw@, files@, i)
                    &&& e == RepackError::MissingSection(i as usize)
                    &&& forall|j: int| 0 <= j < i ==> !section_missing(raw@, files@, j)
                },
            Ok(out) => {
                &&& forall|i: int| 0 <= i < 11 ==> !section_missing(raw@, files@, i)
                &&& exists|cs: Seq<Seq<u8>>|
                    sections_encode(cs, files@) && out@ == level_wad_layout(raw@, cs)
            },
        },
{
    if raw.len() < 96 {
        return Err(RepackError::WadTooSmall);
    }
    let rel = r_u32(raw, 0x10) as u64;
    let mut cs: Vec<Vec<u8>> = Vec::new();
    let mut i: usize = 0;
    while i < DATA_ENTRY_COUNT
        invariant
            i <= 11,
            raw@.len() >= 96,
            rel == le_u32(raw@, 0x10),
            files_bounded(files@),
            cs@.len() == i,
            forall|j: int| 0 <= j < i ==> !section_missing(raw@, files@, j),
            forall|j: int|
                0 <= j < i ==> if section_content(files@, j).len() == 0 {
                    (#[trigger] cs@[j])@.len() == 0
                } else {
                    &&& is_lz_encoding(cs@[j]@, section_content(files@, j))
                    &&& cs@[j]@.len() <= 18 + 3 * section_content(files@, j).len()
                },
        decreases 11 - i,
    {
        proof {
            lemma_file_small(files@, 11, i as int);
        }
        let off = rel * 0x800 + 8 * (i as u64);
        let (orig_off, orig_size): (i32, i32) = if off + 8 <= raw.len() as u64 {
            (crate::common::r_s32(raw, off as usize), crate::common::r_s32(raw, off as usize + 4))
        } else {
            (-1, -1)
        };
        assert(orig_off == orig_entry_field(raw@, i as int, 0));
        assert(orig_size == orig_entry_field(raw@, i as int, 1));
        let compressed = match &files[i] {
            Some(d) => {
                assert(d@ == section_content(files@, i as int));
                if d.len() > 0 {
                    compress_wad_lz(d.as_slice())
                } else {
                    Vec::new()
                }
            },
            None => {
                if i == TRANSITION_ENTRY || (orig_off == -1 && orig_size <= 0) {
                    Vec::new()
                } else {
                    assert(section_missing(raw@, files@, i as int));
                    return Err(RepackError::MissingSection(i));
                }
            },
        };
        cs.push(compressed);
        i += 1;
    }
    let ghost vs = views(cs@);
    proof {
        assert forall|j: int| 0 <= j < 11 implies #[trigger] vs[j].len() <= 18 + 3 * section_content(
            files@,
            j,
        ).len() by {
            assert(vs[j] == cs@[j]@);
        }
        lemma_room_within(vs, files@, 11);
    }
    let out = layout_level_wad(raw, &cs);
    assert(sections_encode(vs, files@)) by {
        assert forall|j: int| 0 <= j < 11 implies if section_content(files@, j).len() == 0 {
            #[trigger] vs[j].len() == 0
        } else {
            &&& is_lz_encoding(vs[j], section_content(files@, j))
            &&& vs[j].len() <= 18 + 3 * section_content(files@, j).len()
        } by {
            assert(vs[j] == cs@[j]@);
        }
    }
    Ok(out)
}

/// `o`'s bytes, when there are.
pub open spec fn opt_bytes(o: Option<Vec<u8>>) -> Option<Seq<u8>> {
    match o {
        Some(v) => Some(v@),
        None => None,
    }
}

/// Data entry `i` as read back out of a level WAD: nothing when the entry
/// lies past the data, has a negative offset or a size of 0 or less, or
/// reaches past the end of the WAD; else its bytes, decompressed when they
/// start with `WAD` and decompress.
pub open spec fn unpacked_entry(raw: Seq<u8>, i: int) -> Option<Seq<u8>> {
    let data_off = le_u32(raw, 0x10) * 0x800;
    if data_off + 8 * i + 8 > raw.len() {
        None
    } else {
        let off = signed32(le_u32(raw, data_off + 8 * i));
        let size = signed32(le_u32(raw, data_off + 8 * i + 4));
        if off < 0 || size <= 0 || data_off + off + size > raw.len() {
            None
        } else {
            let chunk = raw.subrange(data_off + off, data_off + off + size);
            if has_wad_magic(chunk) {
                match spec_decompress_wad_lz(chunk) {
                    Ok(d) => Some(d),
                    Err(_) => Some(chunk),
                }
            } else {
                Some(chunk)
            }
        }
    }
}

/// Read the 11 data sections back out of a level WAD (see [`unpacked_entry`]).
pub fn unpack_level_data(raw: &[u8]) -> (r: Vec<Option<Vec<u8>>>)
    requires
        raw@.len() >= 0x18,
        le_u32(raw@, 0x10) * 0x800 <= raw@.len(),
    ensures
        r@.len() == 11,
        forall|i: int| 0 <= i < 11 ==> #[trigger] opt_bytes(r@[i]) == unpacked_entry(raw@, i),
{
    let data_off = (r_u32(raw, 0x10) as u64 * 0x800) as usize;
    let dh = slice_range(raw, data_off, raw.len());
    let ranges = parse_gc_uya_data_header(dh);
    let mut r: Vec<Option<Vec<u8>>> = Vec::new();
    let mut k: usize = 0;
    while k < DATA_ENTRY_COUNT
        invariant
            k <= 11,
            data_off == le_u32(raw@, 0x10) * 0x800,
            data_off <= raw@.len(),
            dh@ == raw@.subrange(data_off as int, raw@.len() as int),
            ranges@.len() == (if dh@.len() / 8 < 11 {
                (dh@.len() / 8) as int
            } else {
                11
            }),
            forall|j: int|
                0 <= j < ranges@.len() ==> {
                    &&& (#[trigger] ranges@[j]).1 as int == signed32(le_u32(dh@, 8 * j))
                    &&& ranges@[j].2 as int == signed32(le_u32(dh@, 8 * j + 4))
                },
            r@.len() == k,
            forall|j: int| 0 <= j < k ==> #[trigger] opt_bytes(r@[j]) == unpacked_entry(raw@, j),
        decreases 11 - k,
    {
        let entry: Option<Vec<u8>> = if k < ranges.len() {
            let (_, range_off, range_size) = ranges[k];
            assert(le_u32(dh@, 8 * k) == le_u32(raw@, data_off + 8 * k));
            assert(le_u32(dh@, 8 * k + 4) == le_u32(raw@, data_off + 8 * k + 4));
            if range_off < 0 || range_size <= 0 {
                None
            } else {
                let abs_off = data_off as u64 + range_off as u64;
                let abs_end = abs_off + range_size as u64;
                if abs_end > raw.len() as u64 {
                    None
                } else {
                    let chunk = slice_range(raw, abs_off as usize, abs_end as usize);
                    if chunk.len() >= 3 && chunk[0] == 0x57 && chunk[1] == 0x41 && chunk[2] == 0x44 {
                        match decompress_wad_lz(chunk) {
                            Ok(d) => Some(d),
                            Err(_) => Some(copy_range(chunk, 0, chunk.len())),
                        }
                    } else {
                        Some(copy_range(chunk, 0, chunk.len()))
                    }
                }
            }
        } else {
            None
        };
        r.push(entry);
        k += 1;
    }
    r
}

/// The body of the first `n` sections is a prefix of the body of the first `m`.
proof fn lemma_body_prefix(cs: Seq<Seq<u8>>, n: nat, m: nat)
    requires
        n <= m,
    ensures
        sections_body(cs, n).len() <= sections_body(cs, m).len(),
        sections_body(cs, m).subrange(0, sections_body(cs, n).len() as int) == sections_body(cs, n),
    decreases m,
{
    if n < m {
        lemma_body_prefix(cs, n, (m - 1) as nat);
        let bn = sections_body(cs, n);
        let bp = sections_body(cs, (m - 1) as nat);
        let bm = sections_body(cs, m);
        assert(bm.subrange(0, bp.len() as int) =~= bp);
        assert(bm.subrange(0, bn.len() as int) =~= bp.subrange(0, bn.len() as int));
    } else {
        assert(sections_body(cs, m).subrange(0, sections_body(cs, m).len() as int) =~= sections_body(cs, m));
    }
}

/// Non-empty section `i` sits in the body at its offset (less the sector of
/// the data header), and that offset stays below 2^31.
proof fn lemma_section_in_body(cs: Seq<Seq<u8>>, i: int)
    requires
        sections_bounded(cs),
        0 <= i < 11,
        cs[i].len() > 0,
    ensures
        0x800 <= section_offset(cs, i),
        section_offset(cs, i) + cs[i].len() <= 0x800 + sections_body(cs, 11).len(),
        section_offset(cs, i) + cs[i].len() < 0x8000_0000,
        sections_body(cs, 11).subrange(
            section_offset(cs, i) - 0x800,
            section_offset(cs, i) - 0x800 + cs[i].len(),
        ) == cs[i],
{
    let bi = sections_body(cs, i as nat);
    let b1 = sections_body(cs, (i + 1) as nat);
    let b = sections_body(cs, 11);
    lemma_pad_to(0x800 + bi.len() as int, 16);
    lemma_sections_body_len(cs, i as nat);
    lemma_sections_body_len(cs, 11);
    lemma_body_prefix(cs, (i + 1) as nat, 11);
    let o = section_offset(cs, i) - 0x800;
    assert(b1.len() == o + cs[i].len());
    assert(b1.subrange(o, o + cs[i].len()) =~= cs[i]);
    assert(b.subrange(o, o + cs[i].len()) =~= b1.subrange(o, o + cs[i].len()));
}

/// Where the data section lands in the rebuilt WAD: at the sector named at
/// 0x10.
proof fn lemma_layout_data_section(raw: Seq<u8>, cs: Seq<Seq<u8>>)
    requires
        repackable(raw),
    ensures
        ({
            let out = level_wad_layout(raw, cs);
            let ds = data_section(cs);
            let d = le_u32(out, 0x10) * 0x800;
            &&& d + ds.len() <= out.len()
            &&& out.subrange(d, d + ds.len()) == ds
        }),
        le_u32(level_wad_layout(raw, cs), 0x10) == data_rel_sector(raw),
{
    reveal(level_wad_layout);
    let out = level_wad_layout(raw, cs);
    let ds = data_section(cs);
    let rel = data_rel_sector(raw);
    let hdr = wad_header_sector(raw, (ds.len() / 0x800) as int);
    let sb = passthrough_chunk(raw, 0x18);
    let d: int = 0x800 + sb.len() as int;
    assert(hdr.len() == 0x800);
    assert(out.subrange(16, 20) =~= u32_le_bytes(rel as u32));
    lemma_le_u32_at(out, 16, rel as u32);
    assert(out.subrange(d, d + ds.len()) =~= ds);
}

/// Entry `i` of the rebuilt data header holds the stored bits of its
/// offset and size.
proof fn lemma_data_section_entry(cs: Seq<Seq<u8>>, i: int)
    requires
        sections_bounded(cs),
        0 <= i < 11,
    ensures
        data_section(cs).len() >= 88,
        le_u32(data_section(cs), 8 * i) == entry_bits(cs, i).0,
        le_u32(data_section(cs), 8 * i + 4) == entry_bits(cs, i).1,
{
    reveal(data_section);
    let ds = data_section(cs);
    let h = data_header(cs, 11);
    lemma_data_header(cs, 11);
    assert(ds.subrange(0, 88) =~= h);
    assert(ds[8 * i] == h[8 * i] && ds[8 * i + 1] == h[8 * i + 1]);
    assert(ds[8 * i + 2] == h[8 * i + 2] && ds[8 * i + 3] == h[8 * i + 3]);
    assert(ds[8 * i + 4] == h[8 * i + 4] && ds[8 * i + 5] == h[8 * i + 5]);
    assert(ds[8 * i + 6] == h[8 * i + 6] && ds[8 * i + 7] == h[8 * i + 7]);
}

/// Non-empty section `i` sits in the rebuilt data section at its offset.
proof fn lemma_data_section_holds(cs: Seq<Seq<u8>>, i: int)
    requires
        sections_bounded(cs),
        0 <= i < 11,
        cs[i].len() > 0,
    ensures
        0x800 <= section_offset(cs, i),
        section_offset(cs, i) + cs[i].len() <= data_section(cs).len(),
        section_offset(cs, i) + cs[i].len() < 0x8000_0000,
        data_section(cs).subrange(section_offset(cs, i), section_offset(cs, i) + cs[i].len())
            == cs[i],
{
    reveal(data_section);
    lemma_section_in_body(cs, i);
    lemma_data_header(cs, 11);
    let ds = data_section(cs);
    let off = section_offset(cs, i);
    let body = sections_body(cs, 11);
    assert(ds.subrange(off, off + cs[i].len()) =~= body.subrange(
        off - 0x800,
        off - 0x800 + cs[i].len(),
    ));
}

/// A WAD LZ encoding starts with `WAD` and decodes to its input.
proof fn lemma_encoding_unpacks(e: Seq<u8>, c: Seq<u8>)
    requires
        is_lz_encoding(e, c),
        e.len() <= 0xffff_ffff,
    ensures
        has_wad_magic(e),
        spec_decompress_wad_lz(e) == Ok::<Seq<u8>, WadError>(c),
{
    let ps = choose|ps: Seq<crate::lz_packets::LzPacket>|
        {
            &&& e == crate::lz_packets::lz_header(16 + crate::lz_packets::encode_all(ps).len() as int)
                + crate::lz_packets::encode_all(ps)
            &&& crate::lz_packets::chain_ok(ps, Seq::empty())
            &&& crate::lz_packets::apply_all(ps, Seq::empty()) == c
        };
    assert(e[0] == 0x57u8 && e[1] == 0x41u8 && e[2] == 0x44u8);
    lemma_lz_encoding_decodes(e, c);
}

/// Entry `i` of a WAD whose data section (at the sector named at 0x10) is
/// the rebuilt one reads back as section `i`'s contents.
proof fn lemma_unpack_entry(
    out: Seq<u8>,
    files: Seq<Option<Vec<u8>>>,
    cs: Seq<Seq<u8>>,
    i: int,
)
    requires
        files_bounded(files),
        sections_encode(cs, files),
        sections_bounded(cs),
        0 <= i < 11,
        ({
            let ds = data_section(cs);
            let d = le_u32(out, 0x10) * 0x800;
            &&& d + ds.len() <= out.len()
            &&& out.subrange(d, d + ds.len()) == ds
        }),
    ensures
        unpacked_entry(out, i) == (if section_content(files, i).len() == 0 {
            None
        } else {
            Some(section_content(files, i))
        }),
{
    let ds = data_section(cs);
    let d = le_u32(out, 0x10) * 0x800;
    lemma_data_section_entry(cs, i);
    assert forall|k: int| 0 <= k < 8 implies out[d + 8 * i + k] == #[trigger] ds[8 * i + k] by {
        assert(out.subrange(d, d + ds.len())[8 * i + k] == ds[8 * i + k]);
    }
    assert(le_u32(out, d + 8 * i) == le_u32(ds, 8 * i));
    assert(le_u32(out, d + 8 * i + 4) == le_u32(ds, 8 * i + 4));
    let c = section_content(files, i);
    if c.len() > 0 {
        lemma_data_section_holds(cs, i);
        let off = section_offset(cs, i);
        assert(out.subrange(d + off, d + off + cs[i].len()) =~= ds.subrange(off, off + cs[i].len()));
        lemma_encoding_unpacks(cs[i], c);
    }
}

/// Reading the data sections back out of a rebuilt level WAD gives each
/// non-empty section that went in, and nothing for each empty one.
pub proof fn lemma_repack_unpack(raw: Seq<u8>, files: Seq<Option<Vec<u8>>>, cs: Seq<Seq<u8>>)
    requires
        repackable(raw),
        files_bounded(files),
        sections_encode(cs, files),
    ensures
        forall|i: int|
            0 <= i < 11 ==> #[trigger] unpacked_entry(level_wad_layout(raw, cs), i) == (if section_content(
                files,
                i,
            ).len() == 0 {
                None
            } else {
                Some(section_content(files, i))
            }),
{
    assert(sections_bounded(cs)) by {
        lemma_room_within(cs, files, 11);
    }
    lemma_layout_data_section(raw, cs);
    assert forall|i: int| 0 <= i < 11 implies #[trigger] unpacked_entry(level_wad_layout(raw, cs), i)
        == (if section_content(files, i).len() == 0 {
        None
    } else {
        Some(section_content(files, i))
    }) by {
        lemma_unpack_entry(level_wad_layout(raw, cs), files, cs, i);
    }
}


/// The sector numbers of the rebuilt WAD fit in its 32-bit header fields.
pub open spec fn sectors_fit(raw: Seq<u8>, cs: Seq<Seq<u8>>) -> bool {
    let ds_sectors = (data_section(cs).len() / 0x800) as int;
    occlusion_sector(raw, ds_sectors) + (if has_range(raw, 0x28) {
        le_u32(raw, 0x2c)
    } else {
        0
    }) <= 0xFFFF_FFFF
}

/// The (sector, sectors) pair at `field` of the rebuilt WAD `out` names the
/// copy of the original's range at `field`: same size, and the sectors it
/// names hold that range.
pub open spec fn range_copied(out: Seq<u8>, raw: Seq<u8>, field: int) -> bool {
    let s2 = le_u32(out, field);
    let c = le_u32(out, field + 4);
    &&& c == le_u32(raw, field + 4)
    &&& (s2 + c) * 0x800 <= out.len()
    &&& out.subrange(s2 * 0x800, (s2 + c) * 0x800) == passthrough_chunk(raw, field)
}

/// The rebuilt data section fills whole sectors.
proof fn lemma_data_section_sectors(cs: Seq<Seq<u8>>)
    ensures
        data_section(cs).len() % 0x800 == 0,
        data_section(cs).len() >= 0x800,
{
    reveal(data_section);
    let body = sections_body(cs, 11);
    lemma_pad_to(0x800 + body.len() as int, 0x800);
    assert(data_header(cs, 11).len() == 88) by {
        lemma_data_header(cs, 11);
    }
}

/// Header bytes `f..f + 8` of the rebuilt WAD hold a present range's new
/// sector and its size.
proof fn lemma_header_range(out: Seq<u8>, raw: Seq<u8>, f: int, sec: int)
    requires
        f == 0x18 || f == 0x20 || f == 0x28,
        raw.len() >= 96,
        out.len() >= 0x800,
        has_range(raw, f),
        0 <= sec <= 0xFFFF_FFFF,
        out.subrange(f, f + 8) == range_field(raw, f, sec),
    ensures
        le_u32(out, f) == sec,
        le_u32(out, f + 4) == le_u32(raw, f + 4),
{
    assert(out.subrange(f, f + 4) =~= u32_le_bytes(sec as u32)) by {
        assert(out.subrange(f, f + 4) =~= out.subrange(f, f + 8).subrange(0, 4));
    }
    lemma_le_u32_at(out, f, sec as u32);
    assert(out[f + 4] == raw[f + 4] && out[f + 5] == raw[f + 5]) by {
        assert(out.subrange(f, f + 8)[4] == raw[f + 4]);
        assert(out.subrange(f, f + 8)[5] == raw[f + 5]);
    }
    assert(out[f + 6] == raw[f + 6] && out[f + 7] == raw[f + 7]) by {
        assert(out.subrange(f, f + 8)[6] == raw[f + 6]);
        assert(out.subrange(f, f + 8)[7] == raw[f + 7]);
    }
}

/// The header of a rebuilt level WAD names where its copied ranges lie:
/// each present sound bank, gameplay and occlusion range is found, with
/// its size, at the sector its header field names (the sound bank at
/// sector 1, the others after the data section), and the data section at
/// the sector named at 0x10.
#[verifier::rlimit(60)]
pub proof fn lemma_repack_headers(raw: Seq<u8>, cs: Seq<Seq<u8>>)
    requires
        repackable(raw),
        sectors_fit(raw, cs),
    ensures
        has_range(raw, 0x18) ==> range_copied(level_wad_layout(raw, cs), raw, 0x18),
        has_range(raw, 0x20) ==> range_copied(level_wad_layout(raw, cs), raw, 0x20),
        has_range(raw, 0x28) ==> range_copied(level_wad_layout(raw, cs), raw, 0x28),
        le_u32(level_wad_layout(raw, cs), 0x10) == data_rel_sector(raw),
        ({
            let out = level_wad_layout(raw, cs);
            let d = data_rel_sector(raw) * 0x800;
            &&& d + data_section(cs).len() <= out.len()
            &&& out.subrange(d, d + data_section(cs).len()) == data_section(cs)
        }),
{
    reveal(level_wad_layout);
    lemma_data_section_sectors(cs);
    lemma_layout_data_section(raw, cs);
    let out = level_wad_layout(raw, cs);
    let ds = data_section(cs);
    let n = (ds.len() / 0x800) as int;
    let hdr = wad_header_sector(raw, n);
    let sb = passthrough_chunk(raw, 0x18);
    let gp = passthrough_chunk(raw, 0x20);
    let oc = passthrough_chunk(raw, 0x28);
    assert(hdr.len() == 0x800);
    assert(ds.len() == n * 0x800);
    let rel = data_rel_sector(raw);
    let gs = gameplay_sector(raw, n);
    let os = occlusion_sector(raw, n);
    assert(sb.len() == (if has_range(raw, 0x18) { le_u32(raw, 0x1c) * 0x800 } else { 0 }));
    assert(gp.len() == (if has_range(raw, 0x20) { le_u32(raw, 0x24) * 0x800 } else { 0 }));
    assert(oc.len() == (if has_range(raw, 0x28) { le_u32(raw, 0x2c) * 0x800 } else { 0 }));
    assert(0x800 + sb.len() == rel * 0x800);
    assert(rel * 0x800 + ds.len() == gs * 0x800) by (nonlinear_arith)
        requires
            ds.len() == n * 0x800,
            gs == rel + n,
    ;
    assert(gs * 0x800 + gp.len() == os * 0x800);
    let a0: int = 0x800;
    let a1: int = a0 + sb.len();
    let a2: int = a1 + ds.len();
    let a3: int = a2 + gp.len();
    assert(out.subrange(0, 0x800) =~= hdr);
    if has_range(raw, 0x18) {
        assert(out.subrange(0x18, 0x20) =~= hdr.subrange(0x18, 0x20));
        assert(hdr.subrange(0x18, 0x20) =~= range_field(raw, 0x18, 1));
        lemma_header_range(out, raw, 0x18, 1);
        assert(out.subrange(a0, a1) =~= sb);
    }
    if has_range(raw, 0x20) {
        assert(out.subrange(0x20, 0x28) =~= hdr.subrange(0x20, 0x28));
        assert(hdr.subrange(0x20, 0x28) =~= range_field(raw, 0x20, gs));
        lemma_header_range(out, raw, 0x20, gs);
        assert(out.subrange(a2, a3) =~= gp);
    }
    if has_range(raw, 0x28) {
        assert(out.subrange(0x28, 0x30) =~= hdr.subrange(0x28, 0x30));
        assert(hdr.subrange(0x28, 0x30) =~= range_field(raw, 0x28, os));
        lemma_header_range(out, raw, 0x28, os);
        assert(out.subrange(a3, a3 + oc.len()) =~= oc);
    }
}

} // verus!
