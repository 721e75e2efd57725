//! Putting a repacked WAD back into the disc image, in place: its data over
//! the original sectors (zero padded), and the sizes in its header and in
//! the TOC row updated.

use vstd::prelude::*;
use crate::common::{le_u32, r_u32, u32_le_bytes, zeros};

verus! {

/// `s` with `b` written over it at `off`.
pub open spec fn write_at(s: Seq<u8>, off: int, b: Seq<u8>) -> Seq<u8> {
    s.subrange(0, off) + b + s.subrange(off + b.len(), s.len() as int)
}

/// Sectors needed for `len` bytes.
pub open spec fn sectors_for(len: int) -> int {
    (len + 0x7FF) / 0x800
}

/// What became of one WAD replacement.
#[derive(Debug, Clone, Copy, PartialEq, Eq, Structural)]
pub enum ReplaceOutcome {
    /// The WAD's header (first 12 bytes) lies outside the image.
    TruncatedHeader,
    /// The WAD's original sectors reach past the end of the image.
    BeyondImage,
    /// The repacked WAD needs this many sectors, more than the original has.
    TooLarge(usize),
    /// The repacked WAD, of this many sectors, was written in place.
    Replaced(usize),
}

/// The outcome of replacing the WAD whose header is in sector `hdr_sector`
/// and which spans `tot_size` sectors by `repacked`.
pub open spec fn replace_outcome(iso: Seq<u8>, hdr_sector: int, tot_size: int, repacked: Seq<u8>) -> ReplaceOutcome {
    let hdr_off = hdr_sector * 0x800;
    let n = sectors_for(repacked.len() as int);
    if hdr_off + 12 > iso.len() {
        ReplaceOutcome::TruncatedHeader
    } else if le_u32(iso, hdr_off + 4) * 0x800 + tot_size * 0x800 > iso.len() {
        ReplaceOutcome::BeyondImage
    } else if n > tot_size {
        ReplaceOutcome::TooLarge(n as usize)
    } else {
        ReplaceOutcome::Replaced(n as usize)
    }
}

/// The image after a replacement: the repacked WAD, zero padded to the
/// original span, over the WAD's data sectors; its new sector count at
/// offset 8 of its header; the data sector and size fields (0x10..0x18) of
/// its header taken from the repacked header when the span holds them; and
/// the new sector count in the TOC size field when that lies in the image.
pub open spec fn replaced_image(
    iso: Seq<u8>,
    size_field: int,
    hdr_sector: int,
    tot_size: int,
    repacked: Seq<u8>,
) -> Seq<u8> {
    let hdr_off = hdr_sector * 0x800;
    let data_off = le_u32(iso, hdr_off + 4) * 0x800;
    let orig = tot_size * 0x800;
    let n = sectors_for(repacked.len() as int);
    let padded = repacked + zeros(orig - repacked.len());
    let s1 = write_at(iso, data_off, padded);
    let s2 = write_at(s1, hdr_off + 8, u32_le_bytes(n as u32));
    let s3 = if orig >= 24 {
        write_at(s2, hdr_off + 0x10, padded.subrange(0x10, 0x18))
    } else {
        s2
    };
    if size_field + 4 <= iso.len() {
        write_at(s3, size_field, u32_le_bytes(n as u32))
    } else {
        s3
    }
}

/// When the header fields are rewritten from the repacked header, the
/// original header holds them.
pub open spec fn replace_fits(iso: Seq<u8>, hdr_sector: int, tot_size: int, repacked: Seq<u8>) -> bool {
    (replace_outcome(iso, hdr_sector, tot_size, repacked) is Replaced && tot_size * 0x800 >= 24)
        ==> hdr_sector * 0x800 + 0x18 <= iso.len()
}

/// Write `b` over `s` at `off`.
fn write_bytes(s: &mut Vec<u8>, off: usize, b: &[u8])
    requires
        off + b.len() <= old(s).len(),
    ensures
        final(s)@ == write_at(old(s)@, off as int, b@),
{
    let mut i: usize = 0;
    while i < b.len()
        invariant
            i <= b@.len(),
            off + b.len() <= old(s).len(),
            s@.len() == old(s)@.len(),
            forall|j: int|
                0 <= j < s@.len() ==> #[trigger] s@[j] == if off <= j < off + i {
                    b@[j - off]
                } else {
                    old(s)@[j]
                },
        decreases b@.len() - i,
    {
        s.set(off + i, b[i]);
        i += 1;
    }
    assert(s@ =~= write_at(old(s)@, off as int, b@));
}

/// Replace, in the image `iso`, the WAD whose header is in sector
/// `hdr_sector` and which spans `tot_size` sectors by `repacked`, when it
/// fits in that span (see [`replace_outcome`] and [`replaced_image`]);
/// `size_field` is where the TOC row keeps the WAD's size. The image is left
/// as it was in every other outcome.
pub fn replace_wad_in_image(
    iso: &mut Vec<u8>,
    size_field: usize,
    hdr_sector: u32,
    tot_size: u32,
    repacked: &[u8],
) -> (r: ReplaceOutcome)
    requires
        repacked@.len() <= usize::MAX - 0x7FF,
        replace_fits(old(iso)@, hdr_sector as int, tot_size as int, repacked@),
    ensures
        r == replace_outcome(old(iso)@, hdr_sector as int, tot_size as int, repacked@),
        r is Replaced ==> final(iso)@ == replaced_image(
            old(iso)@,
            size_field as int,
            hdr_sector as int,
            tot_size as int,
            repacked@,
        ),
        !(r is Replaced) ==> final(iso)@ == old(iso)@,
{
    let len = iso.len() as u64;
    let hdr_off = hdr_sector as u64 * 0x800;
    if hdr_off + 12 > len {
        return ReplaceOutcome::TruncatedHeader;
    }
    let hdr_off = hdr_off as usize;
    let wad_data_sector = r_u32(iso.as_slice(), hdr_off + 4);
    let data_off = wad_data_sector as u64 * 0x800;
    let orig = tot_size as u64 * 0x800;
    if data_off + orig > len {
        return ReplaceOutcome::BeyondImage;
    }
    let new_sectors = (repacked.len() + 0x7FF) / 0x800;
    if new_sectors > tot_size as usize {
        return ReplaceOutcome::TooLarge(new_sectors);
    }
    let ghost iso0 = iso@;
    // Pad the repacked WAD to the original span and write it in place
    let mut padded: Vec<u8> = Vec::new();
    crate::common::push_range(&mut padded, repacked, 0, repacked.len());
    assert(repacked@.subrange(0, repacked@.len() as int) =~= repacked@);
    crate::common::push_zeros(&mut padded, orig - repacked.len() as u64);
    write_bytes(iso, data_off as usize, padded.as_slice());
    // New sector count in the WAD header
    let mut count: Vec<u8> = Vec::new();
    crate::common::push_u32_le(&mut count, new_sectors as u32);
    assert(count@ =~= u32_le_bytes(new_sectors as u32));
    write_bytes(iso, hdr_off + 8, count.as_slice());
    // Data sector and size from the repacked header
    if padded.len() >= 24 {
        let fields = crate::wad::slice_range(padded.as_slice(), 0x10, 0x18);
        write_bytes(iso, hdr_off + 0x10, fields);
    }
    // Size field of the TOC row
    if size_field <= iso.len() && iso.len() - size_field >= 4 {
        write_bytes(iso, size_field, count.as_slice());
    }
    ReplaceOutcome::Replaced(new_sectors)
}

} // verus!
