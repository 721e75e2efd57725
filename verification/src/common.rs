//! Shared constants and little-endian readers.

use vstd::prelude::*;
use vstd::string::StringExecFns;
use crate::text::{decimal_padded, push_decimal};

verus! {

pub const SECTOR_SIZE: u32 = 0x800;
pub const TOC_LBA: u32 = 1001;
pub const LEVEL_COUNT: u32 = 14;
pub const GC_UYA_DL_TOC_LBA: u32 = 1001;
pub const TOC_MAX_SIZE: u32 = 0x200000;

/// Unsigned value of the little-endian u16 at `off`.
pub open spec fn le_u16(s: Seq<u8>, off: int) -> int {
    s[off] as int + s[off + 1] as int * 0x100
}

/// Unsigned value of the little-endian u32 at `off`.
pub open spec fn le_u32(s: Seq<u8>, off: int) -> int {
    s[off] as int + s[off + 1] as int * 0x100 + s[off + 2] as int * 0x1_0000 + s[off + 3] as int
        * 0x100_0000
}

/// Two's complement reading of an unsigned 32-bit quantity.
pub open spec fn signed32(u: int) -> int {
    if u < 0x8000_0000 {
        u
    } else {
        u - 0x1_0000_0000
    }
}

/// Two's complement reading of an unsigned 16-bit quantity.
pub open spec fn signed16(u: int) -> int {
    if u < 0x8000 {
        u
    } else {
        u - 0x1_0000
    }
}

/// Append `data[start..stop]` to `dest`.
pub fn push_range(dest: &mut Vec<u8>, data: &[u8], start: usize, stop: usize)
    requires
        start <= stop <= data@.len(),
    ensures
        final(dest)@ == old(dest)@ + data@.subrange(start as int, stop as int),
{
    let mut i = start;
    while i < stop
        invariant
            start <= i <= stop <= data@.len(),
            dest@ == old(dest)@ + data@.subrange(start as int, i as int),
        decreases stop - i,
    {
        dest.push(data[i]);
        i += 1;
        assert(dest@ =~= old(dest)@ + data@.subrange(start as int, i as int));
    }
}

/// The 4 little-endian bytes of `v`.
pub open spec fn u32_le_bytes(v: u32) -> Seq<u8> {
    seq![(v & 0xff) as u8, ((v >> 8) & 0xff) as u8, ((v >> 16) & 0xff) as u8, ((v >> 24) & 0xff) as u8]
}

/// `n` zero bytes.
pub open spec fn zeros(n: int) -> Seq<u8> {
    Seq::new(n as nat, |_i: int| 0u8)
}

/// Reading back the little-endian bytes of `v` gives `v`.
pub proof fn lemma_u32_le_bytes(v: u32)
    ensures
        u32_le_bytes(v).len() == 4,
        le_u32(u32_le_bytes(v), 0) == v,
{
    let b0 = (v & 0xff) as u8;
    let b1 = ((v >> 8) & 0xff) as u8;
    let b2 = ((v >> 16) & 0xff) as u8;
    let b3 = ((v >> 24) & 0xff) as u8;
    assert(b0 + b1 * 0x100 + b2 * 0x1_0000 + b3 * 0x100_0000 == v) by (bit_vector)
        requires
            b0 == (v & 0xff) as u8,
            b1 == ((v >> 8) & 0xff) as u8,
            b2 == ((v >> 16) & 0xff) as u8,
            b3 == ((v >> 24) & 0xff) as u8,
    ;
}

/// The little-endian u32 at `off` of `s` reads `v` when those 4 bytes are the bytes of `v`.
pub proof fn lemma_le_u32_at(s: Seq<u8>, off: int, v: u32)
    requires
        0 <= off,
        off + 4 <= s.len(),
        s.subrange(off, off + 4) == u32_le_bytes(v),
    ensures
        le_u32(s, off) == v,
{
    lemma_u32_le_bytes(v);
    let t = s.subrange(off, off + 4);
    assert(s[off] == t[0] && s[off + 1] == t[1] && s[off + 2] == t[2] && s[off + 3] == t[3]);
}

/// Append `v` as 4 little-endian bytes.
pub fn push_u32_le(out: &mut Vec<u8>, v: u32)
    ensures
        final(out)@ == old(out)@ + u32_le_bytes(v),
{
    out.push((v & 0xff) as u8);
    out.push(((v >> 8) & 0xff) as u8);
    out.push(((v >> 16) & 0xff) as u8);
    out.push(((v >> 24) & 0xff) as u8);
    assert(out@ =~= old(out)@ + u32_le_bytes(v));
}

/// Append `n` zero bytes.
pub fn push_zeros(out: &mut Vec<u8>, n: u64)
    ensures
        final(out)@ == old(out)@ + zeros(n as int),
{
    let mut i: u64 = 0;
    while i < n
        invariant
            i <= n,
            out@ == old(out)@ + zeros(i as int),
        decreases n - i,
    {
        out.push(0);
        i += 1;
        assert(out@ =~= old(out)@ + zeros(i as int));
    }
}

/// Read a little-endian u32.
#[inline]
pub fn r_u32(data: &[u8], off: usize) -> (r: u32)
    requires
        off + 4 <= data@.len(),
    ensures
        r as int == le_u32(data@, off as int),
{
    let b0 = data[off] as u32;
    let b1 = data[off + 1] as u32;
    let b2 = data[off + 2] as u32;
    let b3 = data[off + 3] as u32;
    let r = b0 | (b1 << 8) | (b2 << 16) | (b3 << 24);
    assert(r == b0 + b1 * 0x100 + b2 * 0x1_0000 + b3 * 0x100_0000) by (bit_vector)
        requires
            b0 < 256,
            b1 < 256,
            b2 < 256,
            b3 < 256,
            r == b0 | (b1 << 8) | (b2 << 16) | (b3 << 24),
    ;
    r
}

/// Read a little-endian i32.
#[inline]
pub fn r_s32(data: &[u8], off: usize) -> (r: i32)
    requires
        off + 4 <= data@.len(),
    ensures
        r as int == signed32(le_u32(data@, off as int)),
{
    let u = r_u32(data, off);
    if u < 0x8000_0000 {
        u as i32
    } else {
        let low = (u - 0x8000_0000) as i32;
        low - 0x7FFF_FFFF - 1
    }
}

/// Read a little-endian u16.
#[inline]
pub fn r_u16(data: &[u8], off: usize) -> (r: u16)
    requires
        off + 2 <= data@.len(),
    ensures
        r as int == le_u16(data@, off as int),
{
    let b0 = data[off] as u16;
    let b1 = data[off + 1] as u16;
    let r = b0 | (b1 << 8);
    assert(r == b0 + b1 * 0x100) by (bit_vector)
        requires
            b0 < 256,
            b1 < 256,
            r == b0 | (b1 << 8),
    ;
    r
}

/// Read a little-endian i16.
#[inline]
pub fn r_s16(data: &[u8], off: usize) -> (r: i16)
    requires
        off + 2 <= data@.len(),
    ensures
        r as int == signed16(le_u16(data@, off as int)),
{
    let u = r_u16(data, off);
    if u < 0x8000 {
        u as i16
    } else {
        let low = (u - 0x8000) as i16;
        low - 0x7FFF - 1
    }
}

/// Read one byte.
#[inline]
pub fn r_u8(data: &[u8], off: usize) -> (r: u8)
    requires
        off < data@.len(),
    ensures
        r == data@[off as int],
{
    data[off]
}

/// Read a sector (0x800 bytes) at a given LBA.
pub fn read_sector(data: &[u8], lba: u32) -> (r: &[u8])
    requires
        lba as int * 0x800 + 0x800 <= data.len(),
    ensures
        r@ == data@.subrange(lba as int * 0x800, lba as int * 0x800 + 0x800),
{
    let off = (lba as usize) * (SECTOR_SIZE as usize);
    &data[off..off + (SECTOR_SIZE as usize)]
}

/// Read `size` bytes starting at sector `lba`.
pub fn read_bytes(data: &[u8], lba: u32, size: u32) -> (r: &[u8])
    requires
        lba as int * 0x800 + size <= data.len(),
    ensures
        r@ == data@.subrange(lba as int * 0x800, lba as int * 0x800 + size),
{
    let off = (lba as usize) * (SECTOR_SIZE as usize);
    &data[off..off + (size as usize)]
}

/// Read `size` bytes at an absolute byte offset.
pub fn read_at(data: &[u8], offset: u32, size: u32) -> (r: &[u8])
    requires
        offset + size <= data.len(),
    ensures
        r@ == data@.subrange(offset as int, offset + size),
{
    &data[offset as usize..offset as usize + size as usize]
}

/// Parse a sector range: 4-byte LBA + 4-byte count.
pub fn parse_sector_range(data: &[u8], offset: usize) -> (r: (u32, u32))
    requires
        offset + 8 <= data.len(),
    ensures
        r.0 as int == le_u32(data@, offset as int),
        r.1 as int == le_u32(data@, offset + 4),
{
    let lba = r_u32(data, offset);
    let count = r_u32(data, offset + 4);
    (lba, count)
}

/// Levels a command processes for a level filter: every level when the filter
/// is negative or at least [`LEVEL_COUNT`], otherwise just that level.
pub open spec fn spec_dispatch_levels(level_num: int) -> Seq<u32> {
    if level_num < 0 || level_num >= LEVEL_COUNT {
        Seq::new(LEVEL_COUNT as nat, |i: int| i as u32)
    } else {
        seq![level_num as u32]
    }
}

/// The levels to process for a level filter, in order.
pub fn dispatch_levels(level_num: i32) -> (r: Vec<u32>)
    ensures
        r@ == spec_dispatch_levels(level_num as int),
{
    let mut levels: Vec<u32> = Vec::new();
    if level_num < 0 || level_num >= LEVEL_COUNT as i32 {
        let mut lvl: u32 = 0;
        while lvl < LEVEL_COUNT
            invariant
                lvl <= LEVEL_COUNT,
                levels@ == Seq::new(lvl as nat, |i: int| i as u32),
            decreases LEVEL_COUNT - lvl,
        {
            levels.push(lvl);
            lvl += 1;
            assert(levels@ =~= Seq::new(lvl as nat, |i: int| i as u32));
        }
    } else {
        levels.push(level_num as u32);
        assert(levels@ =~= seq![level_num as u32]);
    }
    levels
}

/// Name of a level's directory: `LEVEL` and the level number in three digits.
pub open spec fn level_dir_name_spec(level_num: nat) -> Seq<char> {
    "LEVEL"@ + decimal_padded(level_num, 3)
}

/// `LEVEL` followed by the level number zero-padded to three digits.
pub fn level_dir_name(level_num: u32) -> (s: String)
    ensures
        s@ == level_dir_name_spec(level_num as nat),
{
    proof {
        reveal_strlit("LEVEL");
    }
    let mut s = String::from_str("LEVEL");
    push_decimal(&mut s, level_num as u64, 3);
    s
}

/// The fields of a VIF code word with the command byte on top: command
/// byte (top bit cleared) and element count (third byte).
pub proof fn lemma_code_word_fields(val: u32)
    by (bit_vector)
    ensures
        ((val >> 24u32) & 0x7f) == (val / 0x100_0000) % 0x80,
        ((val >> 16u32) & 0xff) == (val / 0x1_0000) % 0x100,
{
}

/// The UNPACK test (bits 5 and 6 set) and the format nibble of a command
/// byte.
pub proof fn lemma_command_byte_bits(c: u8)
    by (bit_vector)
    ensures
        ((c & 0x60) == 0x60) == ((c / 0x20) % 4 == 3),
        (c & 0x0f) == c % 16,
{
}

/// A halfword without its top bit.
pub proof fn lemma_low15(m: u16)
    by (bit_vector)
    ensures
        (m & 0x7fff) == m % 0x8000,
{
}

} // verus!
