//! Mathematical model of the WAD LZ stream format: what a decoder makes of
//! a byte sequence, one packet at a time.

use vstd::prelude::*;
use crate::common::{le_u32};

verus! {

/// Reasons why a WAD container or a WAD LZ stream is rejected.
#[derive(Debug, Clone, Copy, PartialEq, Eq, Structural)]
pub enum WadError {
    /// Fewer than 16 bytes: no room for the WAD LZ header.
    HeaderTooSmall,
    /// The first three bytes are not `WAD`.
    BadMagic,
    /// A long literal packet lacks its size byte.
    LiteralEof,
    /// A literal packet runs past the end of the stream.
    LiteralOverrun,
    /// A literal packet is directly followed by another literal packet.
    DoubleLiteral,
    /// A far match packet lacks its size byte.
    FarSizeEof,
    /// A far match packet lacks its two offset bytes.
    FarOffsetEof,
    /// A medium match packet lacks its size byte.
    MediumSizeEof,
    /// A medium match packet lacks its two offset bytes.
    MediumOffsetEof,
    /// A little match packet lacks its offset byte.
    LittleEof,
    /// A match refers to bytes before the start of the output.
    MatchOutOfBounds,
    /// The little literal that follows a match runs past the end of the stream.
    LittleLiteralOverrun,
    /// The zlib decoder rejected the data.
    ZlibError,
    /// A `WAD\0` / `WAD\x01` container is shorter than its header.
    WadTooShort,
    /// The block named by a `WAD\0` / `WAD\x01` header lies outside the data.
    BlockOutOfRange,
    /// The data is neither a WAD container nor a zlib stream.
    NotWad,
}

/// The three magic bytes `W`, `A`, `D`.
pub open spec fn has_wad_magic(s: Seq<u8>) -> bool {
    s.len() >= 3 && s[0] == 0x57u8 && s[1] == 0x41u8 && s[2] == 0x44u8
}

/// Append `n` bytes, the i-th copied from position `off + i` of the growing output
/// (so a copy may overlap the bytes it produces).
pub open spec fn copy_back(dest: Seq<u8>, off: int, n: nat) -> Seq<u8>
    decreases n,
{
    if n == 0 {
        dest
    } else {
        copy_back(dest.push(dest[off]), off + 1, (n - 1) as nat)
    }
}

/// The little literal (0-3 bytes, size in the low bits of the byte two
/// before `r`) that follows every match packet.
pub open spec fn little_tail(data: Seq<u8>, end: int, r: int, dest: Seq<u8>) -> Result<
    (int, Seq<u8>),
    WadError,
> {
    let ll = data[r - 2] as int % 4;
    if ll == 0 {
        Ok((r, dest))
    } else if r + ll > end {
        Err(WadError::LittleLiteralOverrun)
    } else {
        Ok((r + ll, dest + data.subrange(r, r + ll)))
    }
}

/// A back reference `dist` bytes behind the end of the output, `size` bytes long,
/// followed by its little literal.
pub open spec fn match_tail(
    data: Seq<u8>,
    end: int,
    r: int,
    dest: Seq<u8>,
    dist: int,
    size: int,
) -> Result<(int, Seq<u8>), WadError> {
    if dist > dest.len() {
        Err(WadError::MatchOutOfBounds)
    } else {
        little_tail(data, end, r, copy_back(dest, dest.len() - dist, size as nat))
    }
}

/// A literal packet body of `size` bytes at `p`.
pub open spec fn literal_body(data: Seq<u8>, end: int, p: int, size: int, dest: Seq<u8>) -> Result<
    (int, Seq<u8>),
    WadError,
> {
    if p + size > end {
        Err(WadError::LiteralOverrun)
    } else if p + size < end && data[p + size] < 0x10 {
        Err(WadError::DoubleLiteral)
    } else {
        Ok((p + size, dest + data.subrange(p, p + size)))
    }
}

/// Where a padding packet ending at `r` moves the read position: the next
/// 0x1000-byte boundary of the stream (which starts 0x10 bytes into the data).
pub open spec fn align_pad(r: int) -> int {
    let k = (r - 0x10) % 0x1000;
    if k == 0 {
        r
    } else {
        r + (0x1000 - k)
    }
}

/// Far match packets (flag 0x10-0x1f), including the padding forms.
pub open spec fn far_packet(data: Seq<u8>, end: int, flag: int, p: int, dest: Seq<u8>) -> Result<
    (int, Seq<u8>),
    WadError,
> {
    let ms0 = flag % 8;
    if ms0 == 0 && p >= end {
        Err(WadError::FarSizeEof)
    } else {
        let ms = if ms0 == 0 {
            data[p] as int + 7
        } else {
            ms0
        };
        let q = if ms0 == 0 {
            p + 1
        } else {
            p
        };
        if q + 2 > end {
            Err(WadError::FarOffsetEof)
        } else {
            let b0 = data[q] as int;
            let b1 = data[q + 1] as int;
            let r = q + 2;
            let x = (if (flag / 8) % 2 == 1 {
                0x4000int
            } else {
                0int
            }) + b1 * 0x40 + b0 / 4;
            if x != 0 {
                match_tail(data, end, r, dest, x + 0x4000, ms + 2)
            } else if ms != 1 {
                Ok((align_pad(r), dest))
            } else {
                little_tail(data, end, r, dest)
            }
        }
    }
}

/// Medium match packets (flag 0x20-0x3f).
pub open spec fn medium_packet(data: Seq<u8>, end: int, flag: int, p: int, dest: Seq<u8>) -> Result<
    (int, Seq<u8>),
    WadError,
> {
    let ms0 = flag % 32;
    if ms0 == 0 && p >= end {
        Err(WadError::MediumSizeEof)
    } else {
        let ms = if ms0 == 0 {
            data[p] as int + 31
        } else {
            ms0
        };
        let q = if ms0 == 0 {
            p + 1
        } else {
            p
        };
        if q + 2 > end {
            Err(WadError::MediumOffsetEof)
        } else {
            let b1 = data[q] as int;
            let b2 = data[q + 1] as int;
            match_tail(data, end, q + 2, dest, b2 * 0x40 + b1 / 4 + 1, ms + 2)
        }
    }
}

/// Little match packets (flag 0x40-0xff).
pub open spec fn little_packet(data: Seq<u8>, end: int, flag: int, p: int, dest: Seq<u8>) -> Result<
    (int, Seq<u8>),
    WadError,
> {
    if p >= end {
        Err(WadError::LittleEof)
    } else {
        let b1 = data[p] as int;
        match_tail(data, end, p + 1, dest, b1 * 8 + (flag / 4) % 8 + 1, flag / 32 + 1)
    }
}

/// Decode the packet at `ptr`: the next read position and the extended output.
#[verifier::opaque]
pub open spec fn lz_step(data: Seq<u8>, end: int, ptr: int, dest: Seq<u8>) -> Result<
    (int, Seq<u8>),
    WadError,
> {
    let flag = data[ptr] as int;
    let p = ptr + 1;
    if flag < 0x10 {
        if flag != 0 {
            literal_body(data, end, p, flag + 3, dest)
        } else if p >= end {
            Err(WadError::LiteralEof)
        } else {
            literal_body(data, end, p + 1, data[p] as int + 18, dest)
        }
    } else if flag < 0x20 {
        far_packet(data, end, flag, p, dest)
    } else if flag < 0x40 {
        medium_packet(data, end, flag, p, dest)
    } else {
        little_packet(data, end, flag, p, dest)
    }
}

/// Decode packets from `ptr` until `end`, appending to `dest`.
pub open spec fn lz_decode(data: Seq<u8>, end: int, ptr: int, dest: Seq<u8>) -> Result<
    Seq<u8>,
    WadError,
>
    decreases (if ptr < end {
        end - ptr
    } else {
        0
    }),
{
    if ptr >= end {
        Ok(dest)
    } else {
        match lz_step(data, end, ptr, dest) {
            Err(e) => Err(e),
            Ok((p2, d2)) => if p2 > ptr {
                lz_decode(data, end, p2, d2)
            } else {
                Ok(d2)
            },
        }
    }
}

/// The end of the stream: the size in the header, capped at the data length.
pub open spec fn lz_stream_end(data: Seq<u8>) -> int {
    let cs = le_u32(data, 3);
    if cs < data.len() {
        cs
    } else {
        data.len() as int
    }
}

/// What decompressing a WAD LZ block yields.
pub open spec fn spec_decompress_wad_lz(data: Seq<u8>) -> Result<Seq<u8>, WadError> {
    if data.len() < 16 {
        Err(WadError::HeaderTooSmall)
    } else if !has_wad_magic(data) {
        Err(WadError::BadMagic)
    } else {
        lz_decode(data, lz_stream_end(data), 16, Seq::empty())
    }
}


/// Decoding a packet reads nothing at or past `end`.
proof fn lemma_step_prefix(data: Seq<u8>, end: int, ptr: int, dest: Seq<u8>)
    requires
        0 <= ptr < end <= data.len(),
    ensures
        lz_step(data, end, ptr, dest) == lz_step(data.subrange(0, end), end, ptr, dest),
{
    reveal(lz_step);
    let t = data.subrange(0, end);
    assert forall|a: int, b: int| 0 <= a <= b <= end implies #[trigger] data.subrange(a, b) == t.subrange(
        a,
        b,
    ) by {
        assert(data.subrange(a, b) =~= t.subrange(a, b));
    }
}

/// Decoding up to `end` reads nothing at or past `end`.
proof fn lemma_decode_prefix(data: Seq<u8>, end: int, ptr: int, dest: Seq<u8>)
    requires
        0 <= ptr,
        end <= data.len(),
    ensures
        lz_decode(data, end, ptr, dest) == lz_decode(data.subrange(0, end), end, ptr, dest),
    decreases (if ptr < end {
        end - ptr
    } else {
        0
    }),
{
    if ptr < end {
        lemma_step_prefix(data, end, ptr, dest);
        match lz_step(data, end, ptr, dest) {
            Err(_) => {},
            Ok((p2, d2)) => {
                if p2 > ptr {
                    lemma_decode_prefix(data, end, p2, d2);
                }
            },
        }
    }
}

/// Decompression reads no byte past the size in the header: bytes after
/// it change nothing.
pub proof fn lemma_decompress_ignores_tail(data: Seq<u8>, extra: Seq<u8>)
    requires
        data.len() >= 16,
        has_wad_magic(data),
        le_u32(data, 3) <= data.len(),
    ensures
        spec_decompress_wad_lz(data + extra) == spec_decompress_wad_lz(data),
{
    let c = data + extra;
    let cs = le_u32(data, 3);
    assert(c[3] == data[3] && c[4] == data[4] && c[5] == data[5] && c[6] == data[6]);
    assert(c[0] == data[0] && c[1] == data[1] && c[2] == data[2]);
    assert(le_u32(c, 3) == cs);
    assert(lz_stream_end(c) == cs);
    assert(lz_stream_end(data) == cs);
    lemma_decode_prefix(c, cs, 16, Seq::empty());
    lemma_decode_prefix(data, cs, 16, Seq::empty());
    assert(c.subrange(0, cs) =~= data.subrange(0, cs));
}

} // verus!
